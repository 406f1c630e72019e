//! The calls this library makes into outside crates and into the parts of std
//! that vstd leaves without a contract. Each item here is believed, not proved:
//! its doc comment says what it claims of the code it calls.
use vstd::prelude::*;
use vstd::string::StringSliceAdditionalSpecFns;

verus! {

/// The bytes that `urlencoding` writes unchanged: ASCII letters and digits and
/// `-`, `.`, `_`, `~`.
pub open spec fn is_url_safe(b: u8) -> bool {
    (48 <= b <= 57) || (65 <= b <= 90) || (97 <= b <= 122) || b == 45 || b == 46 || b == 95 || b
        == 126
}

/// An upper-case hexadecimal digit.
pub open spec fn hex_upper(d: u8) -> char {
    if d < 10 {
        ((48 + d) as u32) as char
    } else {
        ((55 + d) as u32) as char
    }
}

/// Percent-encoding of the bytes `b`: safe bytes stay, every other byte
/// becomes `%` and two upper-case hexadecimal digits.
pub open spec fn percent_encode(b: Seq<u8>) -> Seq<char>
    decreases b.len(),
{
    if b.len() == 0 {
        seq![]
    } else {
        (if is_url_safe(b[0]) {
            seq![(b[0] as u32) as char]
        } else {
            seq!['%', hex_upper(b[0] / 16), hex_upper(b[0] % 16)]
        }) + percent_encode(b.drop_first())
    }
}

/// `urlencoding::encode`: its source percent-encodes each byte of the UTF-8
/// text except ASCII alphanumerics and `-`, `.`, `_`, `~`, with upper-case hex
/// digits. This contract claims exactly that of it.
#[verifier::external_body]
pub(crate) fn url_encode(s: &str) -> (r: String)
    ensures
        r@ == percent_encode(s.spec_bytes()),
{
    urlencoding::encode(s).into_owned()
}

/// A digit of `radix_fmt`: `0`-`9`, then lower-case `a`-`z`.
pub open spec fn radix_digit(d: nat) -> char {
    if d < 10 {
        ((48 + d) as u32) as char
    } else {
        ((87 + d) as u32) as char
    }
}

/// The digits of `n` in base `base`, most significant first, without leading
/// zeros (`0` is written `0`).
pub open spec fn radix_digits(n: nat, base: nat) -> Seq<char>
    decreases n,
{
    if base < 2 || n < base {
        seq![radix_digit(n)]
    } else {
        proof {
            vstd::arithmetic::div_mod::lemma_div_decreases(n as int, base as int);
        }
        radix_digits(n / base, base).push(radix_digit(n % base))
    }
}

/// `radix_fmt::radix(n, base).to_string()`: its source writes the digits of `n`
/// in `base`, most significant first, with lower-case letters, and asserts
/// `2 <= base <= 36` (which `requires` keeps). This contract claims exactly that.
#[verifier::external_body]
pub(crate) fn radix_string(n: usize, base: u8) -> (r: String)
    requires
        2 <= base <= 36,
    ensures
        r@ == radix_digits(n as nat, base as nat),
{
    radix_fmt::radix(n, base).to_string()
}

/// What compiling `pattern` with the `regex` crate and replacing every match in
/// `haystack` by `replacement` gives; `None` where the pattern does not compile.
pub uninterp spec fn regex_replace_all_result(
    pattern: Seq<char>,
    haystack: Seq<char>,
    replacement: Seq<char>,
) -> Option<Seq<char>>;

/// `regex::Regex::new(pattern)` then `Regex::replace_all(haystack, replacement)`.
/// The contract only names the result as a function of the three texts; what
/// the regex engine matches and how the replacement expands `$` groups is left
/// unsaid.
#[verifier::external_body]
pub(crate) fn regex_replace_all(pattern: &str, haystack: &str, replacement: &str) -> (r: Option<
    String,
>)
    ensures
        r.deep_view() == regex_replace_all_result(pattern@, haystack@, replacement@),
{
    match regex::Regex::new(pattern) {
        Ok(re) => Some(re.replace_all(haystack, replacement).into_owned()),
        Err(_) => None,
    }
}

/// Whether the `regex` crate finds `pattern` in `haystack`; `None` where the
/// pattern does not compile.
pub uninterp spec fn regex_is_match_result(pattern: Seq<char>, haystack: Seq<char>) -> Option<bool>;

/// `regex::Regex::new(pattern)` then `Regex::is_match(haystack)`. The contract
/// only names the result as a function of the two texts; which texts a pattern
/// matches is left unsaid.
#[verifier::external_body]
pub(crate) fn regex_is_match(pattern: &str, haystack: &str) -> (r: Option<bool>)
    ensures
        r == regex_is_match_result(pattern@, haystack@),
{
    match regex::Regex::new(pattern) {
        Ok(re) => Some(re.is_match(haystack)),
        Err(_) => None,
    }
}

/// The elements of the HTML fragment `html` that the CSS `selector` selects,
/// in document order, each as its descendant text nodes and the value of its
/// attribute `attr`; `None` where the selector does not parse.
pub uninterp spec fn selected_elements(
    html: Seq<char>,
    selector: Seq<char>,
    attr: Seq<char>,
) -> Option<Seq<(Seq<Seq<char>>, Option<Seq<char>>)>>;

/// `scraper::Selector::parse(selector)`, `scraper::Html::parse_fragment(html)`,
/// `Html::select`, and for each selected element `ElementRef::text` and
/// `ElementRef::attr(attr)`. The contract only names the result as a function
/// of the three texts; how HTML is parsed and selectors match is left unsaid.
#[verifier::external_body]
pub(crate) fn select_elements(html: &str, selector: &str, attr: &str) -> (r: Option<
    Vec<(Vec<String>, Option<String>)>,
>)
    ensures
        r.deep_view() == selected_elements(html@, selector@, attr@),
{
    let selector = scraper::Selector::parse(selector).ok()?;
    let document = scraper::Html::parse_fragment(html);
    let mut found = Vec::new();
    for element in document.select(&selector) {
        let texts = element.text().map(|t| t.to_string()).collect();
        found.push((texts, element.attr(attr).map(|a| a.to_string())));
    }
    Some(found)
}

/// `char::from_u32`: std documents `None` exactly for values above `0x10FFFF`
/// and for surrogates, and the `char` with that value otherwise.
#[verifier::external_body]
pub(crate) fn char_from_u32(u: u32) -> (r: Option<char>)
    ensures
        r == (if u <= 0x10FFFF && !(0xD800 <= u <= 0xDFFF) {
            Some(u as char)
        } else {
            None
        }),
{
    char::from_u32(u)
}

/// `String::push`: std documents that it appends the character.
#[verifier::external_body]
pub(crate) fn push_char(s: &mut String, c: char)
    ensures
        final(s)@ == old(s)@.push(c),
{
    s.push(c)
}

/// Whether `char::is_whitespace` holds: the Unicode `White_Space` characters.
pub open spec fn is_whitespace(c: char) -> bool {
    ('\u{9}' <= c <= '\u{d}') || c == ' ' || c == '\u{85}' || c == '\u{a0}' || c == '\u{1680}' || (
    '\u{2000}' <= c <= '\u{200a}') || c == '\u{2028}' || c == '\u{2029}' || c == '\u{202f}' || c
        == '\u{205f}' || c == '\u{3000}'
}

/// `s` without its trailing whitespace.
pub open spec fn trim_end_chars(s: Seq<char>) -> Seq<char>
    decreases s.len(),
{
    if s.len() > 0 && is_whitespace(s.last()) {
        trim_end_chars(s.drop_last())
    } else {
        s
    }
}

/// `str::trim_end`: std documents that it removes the trailing characters that
/// have the Unicode `White_Space` property.
#[verifier::external_body]
pub(crate) fn trim_end<'a>(s: &'a str) -> (r: &'a str)
    ensures
        r@ == trim_end_chars(s@),
{
    s.trim_end()
}

/// The ASCII lower case of a character.
pub open spec fn ascii_lower(c: char) -> char {
    if 'A' <= c <= 'Z' {
        ((c as u32 + 32) as u32) as char
    } else {
        c
    }
}

/// `str::to_ascii_lowercase`: std documents that it maps `A`-`Z` to `a`-`z`
/// and leaves every other character.
#[verifier::external_body]
pub(crate) fn to_ascii_lowercase(s: &str) -> (r: String)
    ensures
        r@ == s@.map_values(|c: char| ascii_lower(c)),
{
    s.to_ascii_lowercase()
}

} // verus!
