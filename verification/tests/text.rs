use animepahe_dl::text::{contains_str, parse_usize, slice_from, slice_range, split_str, trim_ascii};

#[test]
fn split_str_splits_like_str_split() {
    assert_eq!(split_str("a,b,,c", ","), vec!["a", "b", "", "c"]);
    assert_eq!(split_str("", ","), vec![""]);
    assert_eq!(split_str("1..2..3", ".."), vec!["1", "2", "3"]);
    assert_eq!(split_str("a...b", ".."), vec!["a", ".b"]);
    assert_eq!(split_str("é;',ü", ";',"), vec!["é", "ü"]);
}

#[test]
fn split_then_join_gives_the_text_back() {
    // law_split_join on concrete values
    for (s, sep) in [("a,b,,c", ","), (",,", ","), ("x..y....z", ".."), ("none", "|")] {
        assert_eq!(split_str(s, sep).join(sep), s);
    }
}

#[test]
fn contains_str_finds_substrings() {
    assert!(contains_str("abc time=1", "time="));
    assert!(!contains_str("abc", "abcd"));
    assert!(contains_str("abc", ""));
}

#[test]
fn trim_ascii_trims_both_ends() {
    assert_eq!(trim_ascii(";;ab;c;;", b';'), "ab;c");
    assert_eq!(trim_ascii(";;;", b';'), "");
    assert_eq!(trim_ascii("é", b';'), "é");
}

#[test]
fn parse_usize_reads_like_from_str() {
    assert_eq!(parse_usize("12"), Some(12));
    assert_eq!(parse_usize("+12"), Some(12));
    assert_eq!(parse_usize("007"), Some(7));
    assert_eq!(parse_usize(""), None);
    assert_eq!(parse_usize("+"), None);
    assert_eq!(parse_usize("-1"), None);
    assert_eq!(parse_usize("1 "), None);
    assert_eq!(parse_usize(&usize::MAX.to_string()), Some(usize::MAX));
    assert_eq!(parse_usize("18446744073709551616"), None);
}

#[test]
fn slices_fail_where_str_indexing_panics() {
    assert_eq!(slice_from("héllo", 1), Some("éllo"));
    assert_eq!(slice_from("héllo", 2), None);
    assert_eq!(slice_from("abc", 4), None);
    assert_eq!(slice_from("abc", 3), Some(""));
    assert_eq!(slice_range("abcdef", 1, 3), Some("bc"));
    assert_eq!(slice_range("abcdef", 3, 1), None);
    assert_eq!(slice_range("abcdef", 1, 7), None);
}
