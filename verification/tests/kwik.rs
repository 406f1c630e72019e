use animepahe_dl::KwikApi;

/// A script text laid out as the decoder expects: 1783 bytes of preamble, 8
/// bytes, the payload, `;',`, then the base, the count and the keywords.
fn script(payload: &str, arguments: &str) -> String {
    format!("{}ABCDEFGH{};',{}", "x".repeat(1783), payload, arguments)
}

#[test]
fn e_writes_numbers_in_the_packer_base() {
    assert_eq!(KwikApi::e(0, 62), Some("0".to_string()));
    assert_eq!(KwikApi::e(9, 62), Some("9".to_string()));
    assert_eq!(KwikApi::e(10, 62), Some("a".to_string()));
    assert_eq!(KwikApi::e(35, 62), Some("z".to_string()));
    assert_eq!(KwikApi::e(36, 62), Some("A".to_string()));
    assert_eq!(KwikApi::e(61, 62), Some("Z".to_string()));
    assert_eq!(KwikApi::e(62, 62), Some("10".to_string()));
    assert_eq!(KwikApi::e(3843, 62), Some("ZZ".to_string()));
    assert_eq!(KwikApi::e(35, 36), Some("z".to_string()));
    assert_eq!(KwikApi::e(36, 36), Some("10".to_string()));
    assert_eq!(KwikApi::e(5, 2), Some("101".to_string()));
}

#[test]
fn e_fails_where_the_decoder_does_not_return() {
    assert_eq!(KwikApi::e(5, 0), None);
    assert_eq!(KwikApi::e(3, 1), None);
    assert_eq!(KwikApi::e(0, 1), Some("0".to_string()));
    // 55267 + 29 is the first surrogate, which is no character.
    assert_eq!(KwikApi::e(55267, 60000), None);
    assert_eq!(KwikApi::e(55266, 60000), Some("\u{d7ff}".to_string()));
}

#[test]
fn packer_word_reads_back_as_its_number() {
    // law_packer_word_round_trip on concrete values
    for c in [0usize, 1, 35, 36, 61, 62, 100, 3843, 3844, 238327] {
        let w = KwikApi::e(c, 62).unwrap();
        let mut value = 0usize;
        for ch in w.chars() {
            let d = if ch.is_ascii_digit() {
                ch as usize - 48
            } else if ch.is_ascii_lowercase() {
                ch as usize - 87
            } else {
                ch as usize - 29
            };
            value = value * 62 + d;
        }
        assert_eq!(value, c);
    }
}

#[test]
fn link_parser_replaces_whole_words() {
    let link = KwikApi::animepahe_link_parser("0 1", 2, 62, vec!["hello", "world"]);
    assert_eq!(link, Some("hello world".to_string()));
    let link = KwikApi::animepahe_link_parser("a10 1 b", 2, 62, vec!["", "Z"]);
    assert_eq!(link, Some("a10 Z b".to_string()));
    let link = KwikApi::animepahe_link_parser("3://1.2/4.m3u8", 5, 62, vec!["", "eu", "cache", "https", "stream"]);
    assert_eq!(link, Some("https://eu.cache/stream.m3u8".to_string()));
}

#[test]
fn link_parser_keeps_the_link_for_empty_keywords() {
    // law_empty_keywords_keep_link on concrete values
    let link = KwikApi::animepahe_link_parser("0 1 2", 3, 62, vec!["", "", ""]);
    assert_eq!(link, Some("0 1 2".to_string()));
    let link = KwikApi::animepahe_link_parser("0 1 2", 0, 0, vec![]);
    assert_eq!(link, Some("0 1 2".to_string()));
}

#[test]
fn link_parser_fails_where_the_decoder_panics() {
    assert_eq!(KwikApi::animepahe_link_parser("0", 3, 62, vec!["a", "b"]), None);
    assert_eq!(KwikApi::animepahe_link_parser("0", 1, 0, vec!["a"]), None);
    assert_eq!(KwikApi::animepahe_link_parser("0", 1, 0, vec![""]), Some("0".to_string()));
}

#[test]
fn packed_script_arguments_reads_payload_base_count_and_keywords() {
    let info = script(
        ";'3://1.2/4.m3u8';;;;;;;;;;;;;;;;;tail",
        "62,5,'|eu|cache|https|stream'.split('|'),0,{}))",
    );
    let (p, c, a, k) = KwikApi::packed_script_arguments(&info).unwrap();
    assert_eq!(p, "3://1.2/4.m3u8");
    assert_eq!(c, 5);
    assert_eq!(a, 62);
    assert_eq!(k, vec!["", "eu", "cache", "https", "stream"]);
}

#[test]
fn packed_script_arguments_cuts_32_bytes_after_a_marker() {
    let payload = "1J/H0123456789abcdefghijklmnopqrstuvwxyz";
    let info = script(payload, "62,1,'|x'.split('|'),0,{}))");
    let (p, c, a, k) = KwikApi::packed_script_arguments(&info).unwrap();
    assert_eq!(p, &payload[0..32]);
    assert_eq!(c, 1);
    assert_eq!(a, 62);
    assert_eq!(k, vec!["", "x"]);
}

#[test]
fn packed_script_arguments_fails_on_short_or_malformed_scripts() {
    assert!(KwikApi::packed_script_arguments("short").is_none());
    // no arguments after the payload
    let info = format!("{}ABCDEFGH{}", "x".repeat(1783), "p".repeat(40));
    assert!(KwikApi::packed_script_arguments(&info).is_none());
    // a base that is no number
    let info = script(&"p".repeat(40), "sixty,5,'|a|b|c|d'.split('|'),0,{}))");
    assert!(KwikApi::packed_script_arguments(&info).is_none());
    // the keyword piece is too short
    let info = script(&"p".repeat(40), "62,5,'a'");
    assert!(KwikApi::packed_script_arguments(&info).is_none());
    // byte 1783 falls inside a character
    let info = format!("{}é{}", "x".repeat(1782), "y".repeat(100));
    assert!(KwikApi::packed_script_arguments(&info).is_none());
}

#[test]
fn m3u8_url_unpacks_the_first_script_with_text() {
    let info = script(
        ";'3://1.2/4.m3u8';;;;;;;;;;;;;;;;;tail",
        "62,5,'|eu|cache|https|stream'.split('|'),0,{}))",
    );
    let page = format!("<script src=\"a.js\"></script><script>{}</script><script>other</script>", info);
    assert_eq!(KwikApi::m3u8_url(&page), Some("https://eu.cache/stream.m3u8".to_string()));
}

#[test]
fn m3u8_url_fails_without_a_packed_script() {
    assert_eq!(KwikApi::m3u8_url("<p>nothing</p>"), None);
    assert_eq!(KwikApi::m3u8_url("<script>var x = 1;</script>"), None);
}

#[test]
fn m3u8_url_from_scripts_skips_scripts_without_text() {
    let info = script(
        ";'3://1.2/4.m3u8';;;;;;;;;;;;;;;;;tail",
        "62,5,'|eu|cache|https|stream'.split('|'),0,{}))",
    );
    let scripts = vec![
        (vec![], Some("a.js".to_string())),
        (vec![info, "more".to_string()], None),
        (vec!["ignored".to_string()], None),
    ];
    assert_eq!(KwikApi::m3u8_url_from_scripts(&scripts), Some("https://eu.cache/stream.m3u8".to_string()));
    let empty: Vec<(Vec<String>, Option<String>)> = vec![];
    assert_eq!(KwikApi::m3u8_url_from_scripts(&empty), None);
}
