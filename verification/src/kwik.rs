//! The kwik.si player page: it hides the `.m3u8` playlist URL in a script
//! packed by a JavaScript packer. The packed script carries a payload in which
//! words are replaced by numbers written in base `a`, and the list of words.
use vstd::prelude::*;
use vstd::string::*;
use vstd::utf8::*;
use crate::text::{
    law_trim_byte_strips_both_ends, lemma_trim_byte_cut, contains_bytes, contains_str, is_boundary, parse_usize, parse_usize_bytes, slice_from,
    slice_range, split_bytes, split_str, strs_bytes, trim_ascii, trim_byte,
};
use crate::trusted::{
    char_from_u32, push_char, radix_digit, radix_string, regex_replace_all,
    regex_replace_all_result, select_elements, selected_elements,
};

verus! {

/// The character that the packer writes for the digit `d`; `None` where
/// `d + 29` is no character (beyond `0x10FFFF` or a surrogate after the cut to
/// 32 bits) or does not fit in `usize`.
pub open spec fn packer_digit(d: nat) -> Option<char> {
    if d > 35 {
        if d + 29 > usize::MAX {
            None
        } else {
            let u = (d + 29) as u32;
            if u <= 0x10FFFF && !(0xD800 <= u <= 0xDFFF) {
                Some(u as char)
            } else {
                None
            }
        }
    } else {
        Some(radix_digit(d))
    }
}

/// The word that the packer writes for the number `c` in base `a`: its digits,
/// most significant first. `None` where the decoder does not return: base 0
/// divides by zero and base 1 recurses without end for `c >= 1`.
pub open spec fn packer_word(c: nat, a: nat) -> Option<Seq<char>>
    decreases c,
{
    if a == 0 || (a == 1 && c >= 1) {
        None
    } else {
        let prefix = if c < a {
            Some(Seq::<char>::empty())
        } else {
            proof {
                vstd::arithmetic::div_mod::lemma_div_decreases(c as int, a as int);
            }
            packer_word(c / a, a)
        };
        match (prefix, packer_digit(c % a)) {
            (Some(p), Some(d)) => Some(p.push(d)),
            _ => None,
        }
    }
}

/// The regular expression that matches the word `w` as a whole word.
pub open spec fn word_pattern(w: Seq<char>) -> Seq<char> {
    "\\b"@ + w + "\\b"@
}

/// The link after the decoder has replaced, for `i` from `c - 1` down to 0,
/// every whole-word occurrence of the word for `i` by the keyword `k[i]`
/// (skipping empty keywords). `None` where `c` is beyond the keyword list, the
/// word for an index with a keyword cannot be written, or the regex engine
/// refuses a pattern.
pub open spec fn unpacked_link(link: Seq<char>, c: nat, a: nat, k: Seq<Seq<char>>) -> Option<
    Seq<char>,
>
    decreases c,
{
    if c == 0 {
        Some(link)
    } else if c - 1 >= k.len() {
        None
    } else if k[c - 1].len() == 0 {
        unpacked_link(link, (c - 1) as nat, a, k)
    } else {
        match packer_word((c - 1) as nat, a) {
            None => None,
            Some(w) => match regex_replace_all_result(word_pattern(w), link, k[c - 1]) {
                None => None,
                Some(next) => unpacked_link(next, (c - 1) as nat, a, k),
            },
        }
    }
}

/// The payload of the packed script, cut from the first argument piece `t0`.
pub open spec fn packed_payload(t0: Seq<u8>) -> Option<Seq<u8>> {
    if !(8 <= t0.len() && is_boundary(t0, 8)) {
        None
    } else {
        let p = t0.subrange(8, t0.len() as int);
        if contains_bytes(p, "1J/H".spec_bytes()) {
            if 32 <= p.len() && is_boundary(p, 32) {
                Some(p.subrange(0, 32))
            } else {
                None
            }
        } else if 34 <= p.len() && is_boundary(p, 34) {
            Some(trim_byte(trim_byte(trim_byte(p.subrange(0, 34), 59), 39), 92))
        } else {
            None
        }
    }
}

/// The keyword list of the packed script, cut from the argument piece `t2`.
pub open spec fn packed_keywords(t2: Seq<u8>) -> Option<Seq<Seq<u8>>> {
    if 13 <= t2.len() && is_boundary(t2, 1) && is_boundary(t2, t2.len() - 12) {
        Some(split_bytes(t2.subrange(1, t2.len() - 12), "|".spec_bytes()))
    } else {
        None
    }
}

/// The payload, word count `c`, base `a` and keywords that the decoder reads
/// from the script text `info` (its UTF-8 bytes); `None` where the text is
/// not laid out so: too short or cut inside a character at one of the fixed
/// offsets, without a second `;',` piece, with a base or count that is no
/// `usize`, or with a keyword piece shorter than 13 bytes.
pub open spec fn packed_arguments(info: Seq<u8>) -> Option<(Seq<u8>, usize, usize, Seq<Seq<u8>>)> {
    if !(1783 <= info.len() && is_boundary(info, 1783)) {
        None
    } else {
        let temp = split_bytes(info.subrange(1783, info.len() as int), ";',".spec_bytes());
        match packed_payload(temp[0]) {
            None => None,
            Some(p) => if temp.len() < 2 {
                None
            } else {
                let t = split_bytes(temp[1], ",".spec_bytes());
                match (
                    parse_usize_bytes(t[0]),
                    if t.len() >= 2 {
                        parse_usize_bytes(t[1])
                    } else {
                        None
                    },
                    if t.len() >= 3 {
                        packed_keywords(t[2])
                    } else {
                        None
                    },
                ) {
                    (Some(a), Some(c), Some(k)) => Some((p, c, a, k)),
                    _ => None,
                }
            },
        }
    }
}

/// The text of the first script element that has text.
pub open spec fn first_script_text(elems: Seq<(Seq<Seq<char>>, Option<Seq<char>>)>) -> Seq<char>
    decreases elems.len(),
{
    if elems.len() == 0 {
        Seq::<char>::empty()
    } else if elems[0].0.len() > 0 {
        elems[0].0[0]
    } else {
        first_script_text(elems.drop_first())
    }
}

/// The playlist URL unpacked from the first of the `scripts` that has text;
/// `None` where that text holds no packed arguments (`packed_arguments`) or
/// they do not unpack (`unpacked_link`).
pub open spec fn m3u8_url_in(scripts: Seq<(Seq<Seq<char>>, Option<Seq<char>>)>) -> Option<
    Seq<char>,
> {
    match packed_arguments(encode_utf8(first_script_text(scripts))) {
        None => None,
        Some((p, c, a, k)) => unpacked_link(
            decode_utf8(p),
            c as nat,
            a as nat,
            k.map_values(|w: Seq<u8>| decode_utf8(w)),
        ),
    }
}

/// The playlist URL that the player page `page` hides; `None` where the
/// `script` selector does not parse or `m3u8_url_in` gives `None`.
pub open spec fn m3u8_url_of(page: Seq<char>) -> Option<Seq<char>> {
    match selected_elements(page, "script"@, "src"@) {
        None => None,
        Some(scripts) => m3u8_url_in(scripts),
    }
}

/// The digit value of a character written by the packer: `0`-`9`, `a`-`z`,
/// then the characters from `A` on for the digits from 36 on.
pub open spec fn packer_digit_value(ch: char) -> int {
    if '0' <= ch <= '9' {
        ch as int - 48
    } else if 'a' <= ch <= 'z' {
        ch as int - 87
    } else {
        ch as int - 29
    }
}

/// The number that the packer word `w` writes in base `a`.
pub open spec fn packer_word_value(w: Seq<char>, a: nat) -> int
    decreases w.len(),
{
    if w.len() == 0 {
        0
    } else {
        a * packer_word_value(w.drop_last(), a) + packer_digit_value(w.last())
    }
}

/// For every base from 2 to 62, the packer writes every number, and the word
/// it writes reads back as that number.
pub proof fn law_packer_word_round_trip(c: nat, a: nat)
    requires
        2 <= a <= 62,
    ensures
        packer_word(c, a) matches Some(w) && packer_word_value(w, a) == c,
    decreases c,
{
    let d = c % a;
    assert(d < a) by {
        vstd::arithmetic::div_mod::lemma_mod_bound(c as int, a as int);
    }
    if c >= a {
        vstd::arithmetic::div_mod::lemma_div_decreases(c as int, a as int);
        law_packer_word_round_trip(c / a, a);
    }
    let prefix = if c < a {
        Seq::<char>::empty()
    } else {
        packer_word(c / a, a)->Some_0
    };
    let ch = packer_digit(d)->Some_0;
    if d > 35 {
        assert((d + 29) as u32 == d + 29);
        assert(ch as int == d + 29);
    } else if d < 10 {
        assert(ch as int == 48 + d);
    } else {
        assert(ch as int == 87 + d);
    }
    assert(packer_digit_value(ch) == d);
    assert(packer_word(c, a) == Some(prefix.push(ch)));
    assert(prefix.push(ch).drop_last() =~= prefix);
    vstd::arithmetic::div_mod::lemma_fundamental_div_mod(c as int, a as int);
    if c < a {
        assert(c / a == 0) by {
            vstd::arithmetic::div_mod::lemma_basic_div(c as int, a as int);
        }
    }
    assert(packer_word_value(prefix, a) == c / a);
    assert(packer_word_value(prefix.push(ch), a) == a * packer_word_value(prefix, a) + d);
}

/// Keywords that are all empty leave the link as it is.
pub proof fn law_empty_keywords_keep_link(link: Seq<char>, c: nat, a: nat, k: Seq<Seq<char>>)
    requires
        c <= k.len(),
        forall|i: int| 0 <= i < c ==> (#[trigger] k[i]).len() == 0,
    ensures
        unpacked_link(link, c, a, k) == Some(link),
    decreases c,
{
    if c > 0 {
        assert(k[c - 1].len() == 0);
        law_empty_keywords_keep_link(link, (c - 1) as nat, a, k);
    }
}

/// The playlist URL of a page is read from the elements that the CSS type
/// selector `script` selects, and from no others: the selector handed to the
/// HTML engine is exactly the text `script`.
pub proof fn law_m3u8_url_reads_script_elements(page: Seq<char>)
    ensures
        m3u8_url_of(page) == match selected_elements(
            page,
            seq!['s', 'c', 'r', 'i', 'p', 't'],
            seq!['s', 'r', 'c'],
        ) {
            None => None,
            Some(scripts) => m3u8_url_in(scripts),
        },
{
    reveal_strlit("script");
    reveal_strlit("src");
    assert("script"@ =~= seq!['s', 'c', 'r', 'i', 'p', 't']);
    assert("src"@ =~= seq!['s', 'r', 'c']);
}

/// Only the first script with text counts: a script without text before it
/// is passed over, and the scripts after it are not read.
pub proof fn law_m3u8_url_reads_first_script_with_text(
    scripts: Seq<(Seq<Seq<char>>, Option<Seq<char>>)>,
)
    requires
        scripts.len() > 0,
    ensures
        scripts[0].0.len() == 0 ==> m3u8_url_in(scripts) == m3u8_url_in(scripts.drop_first()),
        scripts[0].0.len() > 0 ==> m3u8_url_in(scripts) == m3u8_url_in(seq![scripts[0]]),
{
    assert(seq![scripts[0]][0] == scripts[0]);
}

/// `lo..hi` is what is left of `lo0..hi0` in `q` once the runs of the byte
/// `x` at both ends are cut away: everything cut is `x`, and what is left
/// neither starts nor ends with `x`.
pub open spec fn cuts_runs_of(q: Seq<u8>, x: u8, lo0: int, hi0: int, lo: int, hi: int) -> bool {
    &&& lo0 <= lo <= hi <= hi0
    &&& forall|k: int| lo0 <= k < lo ==> #[trigger] q[k] == x
    &&& forall|k: int| hi <= k < hi0 ==> #[trigger] q[k] == x
    &&& lo < hi ==> q[lo] != x && q[hi - 1] != x
}

/// Without the `1J/H` marker, the payload is the first 34 bytes after the 8
/// skipped ones with their quoting taken off, layer by layer: the runs of `;`
/// at both ends are cut away, then those of `'` at both ends of what is left,
/// then those of `\`.
pub proof fn law_payload_strips_quoting(t0: Seq<u8>) -> (r: (int, int, int, int, int, int))
    requires
        packed_payload(t0) is Some,
        !contains_bytes(t0.subrange(8, t0.len() as int), "1J/H".spec_bytes()),
    ensures
        ({
            let q = t0.subrange(8, 42);
            &&& cuts_runs_of(q, 59, 0, 34, r.0, r.1)
            &&& cuts_runs_of(q, 39, r.0, r.1, r.2, r.3)
            &&& cuts_runs_of(q, 92, r.2, r.3, r.4, r.5)
            &&& packed_payload(t0)->Some_0 == q.subrange(r.4, r.5)
        }),
{
    let q = t0.subrange(8, 42);
    let p0 = t0.subrange(8, t0.len() as int);
    assert(p0.subrange(0, 34) =~= q);
    let r1 = lemma_trim_byte_cut(q, 59);
    law_trim_byte_strips_both_ends(q, 59);
    let t1 = trim_byte(q, 59);
    let r2 = lemma_trim_byte_cut(t1, 39);
    law_trim_byte_strips_both_ends(t1, 39);
    let t2 = trim_byte(t1, 39);
    let r3 = lemma_trim_byte_cut(t2, 92);
    law_trim_byte_strips_both_ends(t2, 92);
    let (i1, j1) = r1;
    let (i2, j2) = (i1 + r2.0, i1 + r2.1);
    let (i3, j3) = (i2 + r3.0, i2 + r3.1);
    assert(trim_byte(t2, 92) =~= q.subrange(i3, j3));
    assert(t1 =~= q.subrange(i1, j1));
    assert(t2 =~= q.subrange(i2, j2));
    assert forall|k: int| i1 <= k < i2 implies #[trigger] q[k] == 39 by {
        assert(q[k] == t1[k - i1]);
    }
    assert forall|k: int| j2 <= k < j1 implies #[trigger] q[k] == 39 by {
        assert(q[k] == t1[k - i1]);
    }
    assert forall|k: int| i2 <= k < i3 implies #[trigger] q[k] == 92 by {
        assert(q[k] == t2[k - i2]);
    }
    assert forall|k: int| j3 <= k < j2 implies #[trigger] q[k] == 92 by {
        assert(q[k] == t2[k - i2]);
    }
    if i1 < j1 {
        assert(q[i1] == t1[0] && q[j1 - 1] == t1.last());
    }
    if i2 < j2 {
        assert(q[i2] == t2[0] && q[j2 - 1] == t2.last());
    }
    if i3 < j3 {
        assert(q[i3] == trim_byte(t2, 92)[0] && q[j3 - 1] == trim_byte(t2, 92).last());
    }
    (i1, j1, i2, j2, i3, j3)
}

/// Each step of unpacking hands the regex engine the pattern `\b`, the code
/// word, `\b`: the code word for index `c - 1` is replaced by `k[c - 1]` only
/// where it stands as a whole word, and unpacking goes on from the result.
pub proof fn law_unpack_step_replaces_whole_words(
    link: Seq<char>,
    c: nat,
    a: nat,
    k: Seq<Seq<char>>,
)
    requires
        1 <= c <= k.len(),
        k[c - 1].len() > 0,
        packer_word((c - 1) as nat, a) is Some,
    ensures
        unpacked_link(link, c, a, k) == match regex_replace_all_result(
            seq!['\\', 'b'] + packer_word((c - 1) as nat, a)->Some_0 + seq!['\\', 'b'],
            link,
            k[c - 1],
        ) {
            Some(next) => unpacked_link(next, (c - 1) as nat, a, k),
            None => None,
        },
{
    reveal_strlit("\\b");
    let w = packer_word((c - 1) as nat, a)->Some_0;
    assert(word_pattern(w) =~= seq!['\\', 'b'] + w + seq!['\\', 'b']);
}

/// The decoder of kwik.si's packed player script.
pub struct KwikApi;

impl KwikApi {
    /// The payload cut from the first argument piece `t0`; `None` where
    /// `packed_payload` gives `None`.
    fn payload_of<'a>(t0: &'a str) -> (r: Option<&'a str>)
        ensures
            match r {
                Some(p) => packed_payload(t0.spec_bytes()) == Some(p.spec_bytes()),
                None => packed_payload(t0.spec_bytes()) is None,
            },
    {
        let p = match slice_from(t0, 8) {
            Some(p) => p,
            None => return None,
        };
        if contains_str(p, "1J/H") {
            slice_range(p, 0, 32)
        } else {
            match slice_range(p, 0, 34) {
                Some(q) => Some(trim_ascii(trim_ascii(trim_ascii(q, 59), 39), 92)),
                None => None,
            }
        }
    }

    /// The keywords cut from the argument piece `t2`; `None` where
    /// `packed_keywords` gives `None`.
    fn keywords_of<'a>(t2: &'a str) -> (r: Option<Vec<&'a str>>)
        ensures
            match r {
                Some(k) => packed_keywords(t2.spec_bytes()) == Some(strs_bytes(k@)),
                None => packed_keywords(t2.spec_bytes()) is None,
            },
    {
        let n = t2.as_bytes().len();
        if n < 13 {
            return None;
        }
        match slice_range(t2, 1, n - 12) {
            Some(list) => {
                proof {
                    reveal_strlit("|");
                }
                Some(split_str(list, "|"))
            },
            None => None,
        }
    }

    /// The payload, word count `c`, base `a` and keywords that the decoder
    /// reads from the script text `info`; `None` where `packed_arguments`
    /// gives `None`.
    pub fn packed_script_arguments<'a>(info: &'a str) -> (r: Option<
        (&'a str, usize, usize, Vec<&'a str>),
    >)
        ensures
            match r {
                Some((p, c, a, k)) => packed_arguments(info.spec_bytes()) == Some(
                    (p.spec_bytes(), c, a, strs_bytes(k@)),
                ),
                None => packed_arguments(info.spec_bytes()) is None,
            },
    {
        let rest = match slice_from(info, 1783) {
            Some(rest) => rest,
            None => return None,
        };
        proof {
            reveal_strlit(";',");
            reveal_strlit(",");
        }
        let temp = split_str(rest, ";',");
        assert(strs_bytes(temp@).len() == temp@.len());
        let p = match Self::payload_of(temp[0]) {
            Some(p) => p,
            None => return None,
        };
        if temp.len() < 2 {
            return None;
        }
        let t = split_str(temp[1], ",");
        assert(strs_bytes(t@).len() == t@.len());
        let a = parse_usize(t[0]);
        let c = if t.len() >= 2 {
            parse_usize(t[1])
        } else {
            None
        };
        let k = if t.len() >= 3 {
            Self::keywords_of(t[2])
        } else {
            None
        };
        match (a, c, k) {
            (Some(a), Some(c), Some(k)) => Some((p, c, a, k)),
            _ => None,
        }
    }

    /// The word that the packer writes for the number `c` in base `a`; `None`
    /// where the decoder would not return normally.
    pub fn e(c: usize, a: usize) -> (r: Option<String>)
        ensures
            r.deep_view() == packer_word(c as nat, a as nat),
        decreases c,
    {
        if a == 0 || (a == 1 && c >= 1) {
            return None;
        }
        let mut result = if c < a {
            String::new()
        } else {
            proof {
                vstd::arithmetic::div_mod::lemma_div_decreases(c as int, a as int);
            }
            match Self::e(c / a, a) {
                Some(prefix) => prefix,
                None => return None,
            }
        };
        let d = c % a;
        if d > 35 {
            if d > usize::MAX - 29 {
                return None;
            }
            match char_from_u32((d + 29) as u32) {
                Some(ch) => push_char(&mut result, ch),
                None => return None,
            }
        } else {
            let digit = radix_string(d, 36);
            assert(digit@ == seq![radix_digit(d as nat)]);
            result.append(digit.as_str());
        }
        Some(result)
    }

    /// The link `p` after replacing, for `i` from `c - 1` down to 0, every
    /// whole word written `e(i, a)` by the keyword `k[i]` (empty keywords are
    /// skipped); `None` where `c` is beyond `k`, a word cannot be written, or
    /// the regex engine refuses a pattern.
    pub fn animepahe_link_parser(p: &str, c: usize, a: usize, k: Vec<&str>) -> (r: Option<String>)
        ensures
            r.deep_view() == unpacked_link(p@, c as nat, a as nat, k.deep_view()),
    {
        let mut link = p.to_owned();
        let mut i = c;
        let ghost goal = unpacked_link(p@, c as nat, a as nat, k.deep_view());
        while i > 0
            invariant
                goal == unpacked_link(p@, c as nat, a as nat, k.deep_view()),
                unpacked_link(link@, i as nat, a as nat, k.deep_view()) == goal,
            decreases i,
        {
            i = i - 1;
            if i >= k.len() {
                return None;
            }
            assert(k.deep_view()[i as int] == k[i as int]@);
            if !k[i].is_empty() {
                let w = match Self::e(i, a) {
                    Some(w) => w,
                    None => return None,
                };
                let mut pattern = "\\b".to_owned();
                pattern.append(w.as_str());
                pattern.append("\\b");
                assert(pattern@ == word_pattern(w@));
                match regex_replace_all(pattern.as_str(), link.as_str(), k[i]) {
                    Some(next) => {
                        link = next;
                    },
                    None => return None,
                }
            }
        }
        Some(link)
    }

    /// The playlist URL unpacked from the first of the `scripts` (each its
    /// texts and an attribute) that has text; `None` where `m3u8_url_in`
    /// gives `None`.
    pub fn m3u8_url_from_scripts(scripts: &Vec<(Vec<String>, Option<String>)>) -> (r: Option<String>)
        ensures
            r.deep_view() == m3u8_url_in(scripts.deep_view()),
    {
        let ghost dv = scripts.deep_view();
        let mut info: &str = "";
        proof {
            reveal_strlit("");
        }
        let mut i: usize = 0;
        assert(dv.skip(0) =~= dv);
        while i < scripts.len()
            invariant_except_break
                info@ == Seq::<char>::empty(),
            invariant
                dv == scripts.deep_view(),
                i <= scripts.len(),
                first_script_text(dv.skip(i as int)) == first_script_text(dv),
            ensures
                info@ == first_script_text(dv),
            decreases scripts.len() - i,
        {
            assert(dv.skip(i as int).len() > 0);
            assert(dv.skip(i as int)[0] == dv[i as int]);
            assert(dv[i as int].0 == scripts[i as int].0.deep_view());
            if scripts[i].0.len() > 0 {
                info = scripts[i].0[0].as_str();
                assert(dv[i as int].0[0] == info@);
                break;
            }
            assert(dv.skip(i as int).drop_first() =~= dv.skip(i + 1));
            i = i + 1;
        }
        let (p, c, a, k) = match Self::packed_script_arguments(info) {
            Some(args) => args,
            None => return None,
        };
        proof {
            encode_utf8_decode_utf8(p@);
            assert forall|j: int| 0 <= j < k@.len() implies decode_utf8(strs_bytes(k@)[j])
                == #[trigger] k.deep_view()[j] by {
                encode_utf8_decode_utf8(k@[j]@);
            }
            assert(k.deep_view() =~= strs_bytes(k@).map_values(|w: Seq<u8>| decode_utf8(w)));
        }
        Self::animepahe_link_parser(p, c, a, k)
    }

    /// The playlist URL hidden in the kwik.si player page `page`: the link
    /// unpacked from the text of its first `script` element that has text;
    /// `None` where `m3u8_url_of` gives `None`.
    pub fn m3u8_url(page: &str) -> (r: Option<String>)
        ensures
            r.deep_view() == m3u8_url_of(page@),
    {
        match select_elements(page, "script", "src") {
            Some(scripts) => Self::m3u8_url_from_scripts(&scripts),
            None => None,
        }
    }
}

} // verus!
