//! Byte-level text primitives with the semantics of `str` slicing, searching,
//! splitting and trimming, and of `usize::from_str`.
use vstd::prelude::*;
use vstd::utf8::*;
use vstd::string::StringSliceAdditionalSpecFns;

verus! {

broadcast use vstd::seq_lib::group_seq_properties;

/// Whether `i` may cut the UTF-8 bytes `b`: the start, the end, or a byte that
/// begins a character (`str::is_char_boundary`).
pub open spec fn is_boundary(b: Seq<u8>, i: int) -> bool {
    i == 0 || i == b.len() || (0 < i < b.len() && !is_continuation_byte(b[i]))
}

/// The first position at or after `i` where `pat` occurs in `hay`.
pub open spec fn find_from(hay: Seq<u8>, pat: Seq<u8>, i: int) -> Option<int>
    decreases hay.len() - i + 1,
{
    if i < 0 || i + pat.len() > hay.len() {
        None
    } else if hay.subrange(i, i + pat.len()) == pat {
        Some(i)
    } else {
        find_from(hay, pat, i + 1)
    }
}

/// Whether `pat` occurs in `hay` (`str::contains`).
pub open spec fn contains_bytes(hay: Seq<u8>, pat: Seq<u8>) -> bool {
    find_from(hay, pat, 0) is Some
}

/// The pieces of `hay` between the leftmost non-overlapping occurrences of a
/// non-empty `pat` (`str::split`).
pub open spec fn split_bytes(hay: Seq<u8>, pat: Seq<u8>) -> Seq<Seq<u8>>
    decreases hay.len(),
{
    match find_from(hay, pat, 0) {
        Some(i) => if pat.len() > 0 && 0 <= i && i + pat.len() <= hay.len() {
            seq![hay.subrange(0, i)] + split_bytes(hay.subrange(i + pat.len(), hay.len() as int), pat)
        } else {
            seq![hay]
        },
        None => seq![hay],
    }
}

/// `pieces` joined with `sep` between them.
pub open spec fn join_bytes(pieces: Seq<Seq<u8>>, sep: Seq<u8>) -> Seq<u8>
    decreases pieces.len(),
{
    if pieces.len() == 0 {
        seq![]
    } else if pieces.len() == 1 {
        pieces[0]
    } else {
        pieces[0] + sep + join_bytes(pieces.drop_first(), sep)
    }
}

/// The UTF-8 bytes of each string.
pub open spec fn strs_bytes(v: Seq<&str>) -> Seq<Seq<u8>> {
    v.map_values(|s: &str| s.spec_bytes())
}

/// `find_from` gives the first occurrence at or after `i`, or there is none.
pub proof fn lemma_find_from(hay: Seq<u8>, pat: Seq<u8>, i: int)
    requires
        0 <= i,
    ensures
        find_from(hay, pat, i) matches Some(j) ==> {
            &&& i <= j
            &&& j + pat.len() <= hay.len()
            &&& hay.subrange(j, j + pat.len()) == pat
            &&& forall|k: int| i <= k < j ==> #[trigger] hay.subrange(k, k + pat.len()) != pat
        },
        find_from(hay, pat, i) is None ==> forall|k: int|
            i <= k && k + pat.len() <= hay.len() ==> #[trigger] hay.subrange(k, k + pat.len()) != pat,
    decreases hay.len() - i + 1,
{
    if i + pat.len() > hay.len() {
    } else if hay.subrange(i, i + pat.len()) == pat {
    } else {
        lemma_find_from(hay, pat, i + 1);
    }
}

/// Splitting gives at least one piece, and at least two where the pattern occurs.
pub proof fn lemma_split_len(hay: Seq<u8>, pat: Seq<u8>)
    requires
        pat.len() > 0,
    ensures
        split_bytes(hay, pat).len() >= 1,
        contains_bytes(hay, pat) ==> split_bytes(hay, pat).len() >= 2,
{
    lemma_find_from(hay, pat, 0);
    if let Some(i) = find_from(hay, pat, 0) {
        let rest = hay.subrange(i + pat.len(), hay.len() as int);
        lemma_find_from(rest, pat, 0);
        assert(split_bytes(rest, pat).len() >= 1);
    }
}

/// Joining the pieces of a split with the pattern gives back the text.
pub proof fn law_split_join(hay: Seq<u8>, pat: Seq<u8>)
    requires
        pat.len() > 0,
    ensures
        join_bytes(split_bytes(hay, pat), pat) == hay,
    decreases hay.len(),
{
    lemma_find_from(hay, pat, 0);
    match find_from(hay, pat, 0) {
        Some(i) => {
            let rest = hay.subrange(i + pat.len(), hay.len() as int);
            law_split_join(rest, pat);
            lemma_split_len(rest, pat);
            let pieces = split_bytes(hay, pat);
            assert(pieces.drop_first() =~= split_bytes(rest, pat));
            assert(hay =~= hay.subrange(0, i) + pat + rest);
        },
        None => {},
    }
}

/// A text without the byte `x` is one piece when split at `x`.
pub proof fn lemma_split_without(a: Seq<u8>, x: u8)
    requires
        !a.contains(x),
    ensures
        split_bytes(a, seq![x]) == seq![a],
{
    lemma_find_from(a, seq![x], 0);
    if let Some(j) = find_from(a, seq![x], 0) {
        assert(a.subrange(j, j + 1)[0] == a[j]);
    }
}

/// Splitting at the byte `x` a text made of `a`, one `x` and `s` gives the
/// pieces of `a` followed by those of `s`.
pub proof fn lemma_split_concat(a: Seq<u8>, x: u8, s: Seq<u8>)
    ensures
        split_bytes(a + seq![x] + s, seq![x]) == split_bytes(a, seq![x]) + split_bytes(s, seq![x]),
    decreases a.len(),
{
    let p = seq![x];
    let whole = a + p + s;
    lemma_find_from(a, p, 0);
    lemma_find_from(whole, p, 0);
    assert forall|k: int| 0 <= k < a.len() implies #[trigger] whole.subrange(k, k + 1)
        == a.subrange(k, k + 1) by {
        assert(whole.subrange(k, k + 1) =~= a.subrange(k, k + 1));
    }
    match find_from(a, p, 0) {
        Some(i) => {
            let tail = a.subrange(i + 1, a.len() as int);
            lemma_split_concat(tail, x, s);
            assert(find_from(whole, p, 0) == Some(i)) by {
                if let Some(j) = find_from(whole, p, 0) {
                    if j < i {
                        assert(whole.subrange(j, j + 1) == a.subrange(j, j + 1));
                    }
                    if j > i {
                        assert(whole.subrange(i, i + 1) == a.subrange(i, i + 1));
                    }
                } else {
                    assert(whole.subrange(i, i + 1) == a.subrange(i, i + 1));
                }
            }
            assert(whole.subrange(0, i) =~= a.subrange(0, i));
            assert(whole.subrange(i + 1, whole.len() as int) =~= tail + p + s);
            assert(split_bytes(whole, p) =~= seq![a.subrange(0, i)] + split_bytes(tail + p + s, p));
        },
        None => {
            assert(whole.subrange(a.len() as int, a.len() as int + 1) =~= p);
            assert(find_from(whole, p, 0) == Some(a.len() as int)) by {
                if let Some(j) = find_from(whole, p, 0) {
                    if j < a.len() {
                        assert(whole.subrange(j, j + 1) == a.subrange(j, j + 1));
                    }
                }
            }
            assert(whole.subrange(0, a.len() as int) =~= a);
            assert(whole.subrange(a.len() as int + 1, whole.len() as int) =~= s);
        },
    }
}

/// A byte that follows an ASCII byte in valid UTF-8 starts a character.
pub proof fn lemma_after_ascii(b: Seq<u8>, j: int)
    requires
        valid_utf8(b),
        0 <= j,
        j + 1 < b.len(),
        b[j] < 0x80,
    ensures
        !is_continuation_byte(b[j + 1]),
    decreases b.len(),
{
    let l = length_of_first_scalar(b);
    let rest = pop_first_scalar(b);
    assert(valid_first_scalar(b));
    assert(valid_utf8(rest));
    if j < l {
        assert(j == 0);
        assert(l == 1);
        assert(rest.len() > 0);
        assert(valid_first_scalar(rest));
        assert(rest[0] == b[1]);
    } else {
        assert(rest[j - l] == b[j]);
        assert(rest[j - l + 1] == b[j + 1]);
        lemma_after_ascii(rest, j - l);
    }
}

/// `str::is_char_boundary` on valid UTF-8 is `is_boundary`.
pub proof fn lemma_char_boundary(b: Seq<u8>, i: int)
    requires
        valid_utf8(b),
    ensures
        is_char_boundary(b, i) == is_boundary(b, i),
{
    is_char_boundary_start_end_of_seq(b);
    if 0 <= i < b.len() {
        is_char_boundary_iff_not_is_continuation_byte(b, i);
    }
}

pub proof fn lemma_str_valid(s: &str)
    ensures
        valid_utf8(s.spec_bytes()),
{
    encode_utf8_valid_utf8(s@);
}

/// Whether `pat` occurs in `hay` at position `i`.
fn matches_at(hay: &[u8], pat: &[u8], i: usize) -> (r: bool)
    requires
        i + pat@.len() <= hay@.len(),
    ensures
        r == (hay@.subrange(i as int, i + pat@.len()) == pat@),
{
    let mut j: usize = 0;
    while j < pat.len()
        invariant
            j <= pat@.len(),
            i + pat.len() <= hay.len(),
            forall|k: int| 0 <= k < j ==> hay@[i + k] == pat@[k],
        decreases pat@.len() - j,
    {
        assert(i + j < hay@.len());
        if hay[i + j] != pat[j] {
            assert(hay@.subrange(i as int, i + pat@.len())[j as int] != pat@[j as int]);
            return false;
        }
        j = j + 1;
    }
    assert(hay@.subrange(i as int, i + pat@.len()) =~= pat@);
    true
}

/// The first position where `pat` occurs in `hay`.
pub fn find_bytes(hay: &[u8], pat: &[u8]) -> (r: Option<usize>)
    ensures
        match r {
            Some(i) => find_from(hay@, pat@, 0) == Some(i as int),
            None => find_from(hay@, pat@, 0) is None,
        },
{
    if pat.len() > hay.len() {
        return None;
    }
    let mut i: usize = 0;
    let last = hay.len() - pat.len();
    while i <= last
        invariant
            pat@.len() <= hay@.len(),
            last == hay@.len() - pat@.len(),
            i <= last + 1,
            find_from(hay@, pat@, 0) == find_from(hay@, pat@, i as int),
        decreases hay@.len() - i,
    {
        if matches_at(hay, pat, i) {
            return Some(i);
        }
        if i == last {
            assert(find_from(hay@, pat@, i + 1) is None);
            return None;
        }
        i = i + 1;
    }
    None
}

/// Whether `pat` occurs in `hay` (`str::contains`).
pub fn contains_str(hay: &str, pat: &str) -> (r: bool)
    ensures
        r == contains_bytes(hay.spec_bytes(), pat.spec_bytes()),
{
    find_bytes(hay.as_bytes(), pat.as_bytes()).is_some()
}

/// Whether every byte is ASCII.
pub open spec fn ascii_bytes(b: Seq<u8>) -> bool {
    forall|k: int| 0 <= k < b.len() ==> #[trigger] b[k] < 0x80
}

pub proof fn lemma_ascii_str(s: &str)
    requires
        is_ascii_chars(s@),
    ensures
        ascii_bytes(s.spec_bytes()),
        s.spec_bytes().len() == s@.len(),
{
    is_ascii_chars_encode_utf8(s@);
    assert forall|k: int| 0 <= k < s.spec_bytes().len() implies #[trigger] s.spec_bytes()[k] < 0x80 by {
        assert(s@[k] as u8 == s.spec_bytes()[k]);
        assert('\0' <= s@[k] <= '\u{7f}');
    }
}

/// Cuts `s` at the byte `i`, which begins an ASCII character.
fn cut_before_ascii<'a>(s: &'a str, i: usize) -> (r: (&'a str, &'a str))
    requires
        i < s.spec_bytes().len(),
        s.spec_bytes()[i as int] < 0x80,
    ensures
        r.0.spec_bytes() == s.spec_bytes().subrange(0, i as int),
        r.1.spec_bytes() == s.spec_bytes().subrange(i as int, s.spec_bytes().len() as int),
{
    proof {
        lemma_str_valid(s);
        lemma_char_boundary(s.spec_bytes(), i as int);
    }
    s.split_at(i)
}

/// Cuts `s` at the byte `i`, which follows an ASCII character.
fn cut_after_ascii<'a>(s: &'a str, i: usize) -> (r: (&'a str, &'a str))
    requires
        0 < i <= s.spec_bytes().len(),
        s.spec_bytes()[i - 1] < 0x80,
    ensures
        r.0.spec_bytes() == s.spec_bytes().subrange(0, i as int),
        r.1.spec_bytes() == s.spec_bytes().subrange(i as int, s.spec_bytes().len() as int),
{
    proof {
        lemma_str_valid(s);
        if i < s.spec_bytes().len() {
            lemma_after_ascii(s.spec_bytes(), i - 1);
        }
        lemma_char_boundary(s.spec_bytes(), i as int);
    }
    s.split_at(i)
}

/// `s.split(pat)` for a non-empty ASCII `pat`.
pub fn split_str<'a>(s: &'a str, pat: &str) -> (pieces: Vec<&'a str>)
    requires
        pat@.len() > 0,
        is_ascii_chars(pat@),
    ensures
        strs_bytes(pieces@) == split_bytes(s.spec_bytes(), pat.spec_bytes()),
{
    proof {
        lemma_ascii_str(pat);
    }
    let pb = pat.as_bytes();
    let mut pieces: Vec<&'a str> = Vec::new();
    let mut rest: &'a str = s;
    loop
        invariant
            pb@ == pat.spec_bytes(),
            pb@.len() > 0,
            ascii_bytes(pb@),
            strs_bytes(pieces@) + split_bytes(rest.spec_bytes(), pb@) == split_bytes(
                s.spec_bytes(),
                pb@,
            ),
        decreases rest.spec_bytes().len(),
    {
        let rb = rest.as_bytes();
        proof {
            lemma_find_from(rb@, pb@, 0);
        }
        match find_bytes(rb, pb) {
            None => {
                let ghost before = pieces@;
                pieces.push(rest);
                assert(strs_bytes(pieces@) =~= strs_bytes(before).push(rest.spec_bytes()));
                assert(split_bytes(rest.spec_bytes(), pb@) == seq![rest.spec_bytes()]);
                return pieces;
            },
            Some(i) => {
                assert(rb@.subrange(i as int, i + pb@.len())[0] == pb@[0]);
                let (left, right) = cut_before_ascii(rest, i);
                let n = pb.len();
                assert(right.spec_bytes()[n - 1] == rb@.subrange(i as int, i + n)[n - 1]);
                let (_, after) = cut_after_ascii(right, n);
                assert(after.spec_bytes() =~= rb@.subrange(i + n, rb@.len() as int));
                let ghost before = pieces@;
                pieces.push(left);
                assert(strs_bytes(pieces@) =~= strs_bytes(before).push(left.spec_bytes()));
                assert(split_bytes(rest.spec_bytes(), pb@) == seq![left.spec_bytes()] + split_bytes(
                    after.spec_bytes(),
                    pb@,
                ));
                assert(strs_bytes(pieces@) + split_bytes(after.spec_bytes(), pb@) =~= strs_bytes(before)
                    + split_bytes(rest.spec_bytes(), pb@));
                rest = after;
            },
        }
    }
}

/// `s[from..]`, or `None` where `from` is beyond `s` or inside a character.
pub fn slice_from<'a>(s: &'a str, from: usize) -> (r: Option<&'a str>)
    ensures
        match r {
            Some(t) => from <= s.spec_bytes().len() && is_boundary(s.spec_bytes(), from as int)
                && t.spec_bytes() == s.spec_bytes().subrange(from as int, s.spec_bytes().len() as int),
            None => !(from <= s.spec_bytes().len() && is_boundary(s.spec_bytes(), from as int)),
        },
{
    proof {
        lemma_str_valid(s);
        lemma_char_boundary(s.spec_bytes(), from as int);
    }
    if from <= s.as_bytes().len() && s.is_char_boundary(from) {
        let (_, t) = s.split_at(from);
        Some(t)
    } else {
        None
    }
}

/// `s[from..to]`, or `None` where `from > to`, `to` is beyond `s`, or either
/// is inside a character.
pub fn slice_range<'a>(s: &'a str, from: usize, to: usize) -> (r: Option<&'a str>)
    ensures
        match r {
            Some(t) => from <= to <= s.spec_bytes().len() && is_boundary(s.spec_bytes(), from as int)
                && is_boundary(s.spec_bytes(), to as int) && t.spec_bytes() == s.spec_bytes().subrange(
                from as int,
                to as int,
            ),
            None => !(from <= to <= s.spec_bytes().len() && is_boundary(s.spec_bytes(), from as int)
                && is_boundary(s.spec_bytes(), to as int)),
        },
{
    proof {
        lemma_str_valid(s);
        lemma_char_boundary(s.spec_bytes(), from as int);
        lemma_char_boundary(s.spec_bytes(), to as int);
    }
    if from <= to && to <= s.as_bytes().len() && s.is_char_boundary(from) && s.is_char_boundary(to) {
        let (head, _) = s.split_at(to);
        proof {
            lemma_str_valid(head);
            lemma_char_boundary(head.spec_bytes(), from as int);
        }
        let (_, t) = head.split_at(from);
        assert(t.spec_bytes() =~= s.spec_bytes().subrange(from as int, to as int));
        Some(t)
    } else {
        None
    }
}

/// `b` without its leading bytes equal to `x`.
pub open spec fn trim_start_byte(b: Seq<u8>, x: u8) -> Seq<u8>
    decreases b.len(),
{
    if b.len() > 0 && b[0] == x {
        trim_start_byte(b.drop_first(), x)
    } else {
        b
    }
}

/// `b` without its trailing bytes equal to `x`.
pub open spec fn trim_end_byte(b: Seq<u8>, x: u8) -> Seq<u8>
    decreases b.len(),
{
    if b.len() > 0 && b.last() == x {
        trim_end_byte(b.drop_last(), x)
    } else {
        b
    }
}

/// `b` without its leading and trailing bytes equal to `x` (`str::trim_matches`
/// with an ASCII character).
pub open spec fn trim_byte(b: Seq<u8>, x: u8) -> Seq<u8> {
    trim_end_byte(trim_start_byte(b, x), x)
}

proof fn lemma_trim_start(b: Seq<u8>, x: u8, i: int)
    requires
        0 <= i <= b.len(),
        forall|k: int| 0 <= k < i ==> b[k] == x,
        i == b.len() || b[i] != x,
    ensures
        trim_start_byte(b, x) == b.subrange(i, b.len() as int),
    decreases i,
{
    if i == 0 {
        assert(b.subrange(0, b.len() as int) =~= b);
    } else {
        lemma_trim_start(b.drop_first(), x, i - 1);
        assert(b.drop_first().subrange(i - 1, b.len() - 1) =~= b.subrange(i, b.len() as int));
    }
}

proof fn lemma_trim_end(b: Seq<u8>, x: u8, j: int)
    requires
        0 <= j <= b.len(),
        forall|k: int| j <= k < b.len() ==> b[k] == x,
        j == 0 || b[j - 1] != x,
    ensures
        trim_end_byte(b, x) == b.subrange(0, j),
    decreases b.len() - j,
{
    if j == b.len() {
        assert(b.subrange(0, j) =~= b);
    } else {
        lemma_trim_end(b.drop_last(), x, j);
        assert(b.drop_last().subrange(0, j) =~= b.subrange(0, j));
    }
}

/// `s.trim_matches(x)` for an ASCII byte `x`.
pub fn trim_ascii<'a>(s: &'a str, x: u8) -> (r: &'a str)
    requires
        x < 0x80,
    ensures
        r.spec_bytes() == trim_byte(s.spec_bytes(), x),
{
    let b = s.as_bytes();
    let n = b.len();
    let mut i: usize = 0;
    while i < n && b[i] == x
        invariant
            n == b@.len(),
            i <= n,
            forall|k: int| 0 <= k < i ==> b@[k] == x,
        decreases n - i,
    {
        i = i + 1;
    }
    let mut j: usize = n;
    while j > i && b[j - 1] == x
        invariant
            n == b@.len(),
            i <= j <= n,
            forall|k: int| j <= k < n ==> b@[k] == x,
        decreases j,
    {
        j = j - 1;
    }
    proof {
        lemma_trim_start(b@, x, i as int);
        let t = b@.subrange(i as int, n as int);
        if j > i {
            assert(t[j - i - 1] != x);
        }
        lemma_trim_end(t, x, j - i);
        assert(t.subrange(0, j - i) =~= b@.subrange(i as int, j as int));
    }
    let tail = if i > 0 {
        cut_after_ascii(s, i).1
    } else {
        s
    };
    assert(tail.spec_bytes() =~= b@.subrange(i as int, n as int));
    if j < n {
        assert(tail.spec_bytes()[j - i] == b@[j as int]);
        let r = cut_before_ascii(tail, j - i).0;
        assert(r.spec_bytes() =~= b@.subrange(i as int, j as int));
        r
    } else {
        assert(tail.spec_bytes() =~= b@.subrange(i as int, j as int));
        tail
    }
}

proof fn lemma_trim_start_shape(b: Seq<u8>, x: u8)
    ensures
        trim_start_byte(b, x).len() > 0 ==> trim_start_byte(b, x)[0] != x,
    decreases b.len(),
{
    if b.len() > 0 && b[0] == x {
        lemma_trim_start_shape(b.drop_first(), x);
    }
}

proof fn lemma_trim_end_shape(b: Seq<u8>, x: u8)
    ensures
        trim_end_byte(b, x).len() <= b.len(),
        trim_end_byte(b, x) == b.subrange(0, trim_end_byte(b, x).len() as int),
        trim_end_byte(b, x).len() > 0 ==> trim_end_byte(b, x).last() != x,
    decreases b.len(),
{
    if b.len() > 0 && b.last() == x {
        lemma_trim_end_shape(b.drop_last(), x);
        assert(b.drop_last().subrange(0, trim_end_byte(b, x).len() as int) =~= b.subrange(
            0,
            trim_end_byte(b, x).len() as int,
        ));
    } else {
        assert(b.subrange(0, b.len() as int) =~= b);
    }
}

proof fn lemma_trim_start_cut(b: Seq<u8>, x: u8) -> (i: int)
    ensures
        0 <= i <= b.len(),
        trim_start_byte(b, x) == b.subrange(i, b.len() as int),
        forall|k: int| 0 <= k < i ==> b[k] == x,
    decreases b.len(),
{
    if b.len() > 0 && b[0] == x {
        let i = lemma_trim_start_cut(b.drop_first(), x);
        assert(b.drop_first().subrange(i, b.len() - 1) =~= b.subrange(i + 1, b.len() as int));
        assert forall|k: int| 0 <= k < i + 1 implies b[k] == x by {
            if k > 0 {
                assert(b[k] == b.drop_first()[k - 1]);
            }
        }
        i + 1
    } else {
        assert(b.subrange(0, b.len() as int) =~= b);
        0
    }
}

proof fn lemma_trim_end_cut(b: Seq<u8>, x: u8) -> (j: int)
    ensures
        0 <= j <= b.len(),
        trim_end_byte(b, x) == b.subrange(0, j),
        forall|k: int| j <= k < b.len() ==> b[k] == x,
    decreases b.len(),
{
    if b.len() > 0 && b.last() == x {
        let j = lemma_trim_end_cut(b.drop_last(), x);
        assert(b.drop_last().subrange(0, j) =~= b.subrange(0, j));
        assert forall|k: int| j <= k < b.len() implies b[k] == x by {
            if k < b.len() - 1 {
                assert(b[k] == b.drop_last()[k]);
            }
        }
        j
    } else {
        assert(b.subrange(0, b.len() as int) =~= b);
        b.len() as int
    }
}

/// Trimming cuts a slice out of the bytes: everything cut away before and
/// after it is the byte `x`.
pub proof fn lemma_trim_byte_cut(b: Seq<u8>, x: u8) -> (r: (int, int))
    ensures
        0 <= r.0 <= r.1 <= b.len(),
        trim_byte(b, x) == b.subrange(r.0, r.1),
        forall|k: int| 0 <= k < r.0 ==> b[k] == x,
        forall|k: int| r.1 <= k < b.len() ==> b[k] == x,
{
    let i = lemma_trim_start_cut(b, x);
    let t = b.subrange(i, b.len() as int);
    let j = lemma_trim_end_cut(t, x);
    assert(t.subrange(0, j) =~= b.subrange(i, i + j));
    assert forall|k: int| i + j <= k < b.len() implies b[k] == x by {
        assert(b[k] == t[k - i]);
    }
    (i, i + j)
}

/// Trimming leaves neither a leading nor a trailing byte `x`.
pub proof fn law_trim_byte_strips_both_ends(b: Seq<u8>, x: u8)
    ensures
        trim_byte(b, x).len() > 0 ==> trim_byte(b, x)[0] != x && trim_byte(b, x).last() != x,
{
    let s = trim_start_byte(b, x);
    lemma_trim_start_shape(b, x);
    lemma_trim_end_shape(s, x);
    if trim_byte(b, x).len() > 0 {
        assert(trim_byte(b, x)[0] == s[0]);
    }
}

/// Whether `c` is an ASCII decimal digit.
pub open spec fn is_digit(c: u8) -> bool {
    48 <= c <= 57
}

pub open spec fn all_digits(d: Seq<u8>) -> bool {
    forall|k: int| 0 <= k < d.len() ==> #[trigger] is_digit(d[k])
}

/// The number that the decimal digits `d` write.
pub open spec fn digits_value(d: Seq<u8>) -> nat
    decreases d.len(),
{
    if d.len() == 0 {
        0
    } else {
        digits_value(d.drop_last()) * 10 + (d.last() - 48) as nat
    }
}

/// `usize::from_str` on the bytes `s`: an optional `+`, then one or more
/// decimal digits whose value fits in `usize`.
pub open spec fn parse_usize_bytes(s: Seq<u8>) -> Option<usize> {
    let d = if s.len() > 0 && s[0] == 43 {
        s.drop_first()
    } else {
        s
    };
    if d.len() == 0 || !all_digits(d) || digits_value(d) > usize::MAX {
        None
    } else {
        Some(digits_value(d) as usize)
    }
}

/// The decimal digits of `n`, without leading zeros.
pub open spec fn decimal_bytes(n: nat) -> Seq<u8>
    decreases n,
{
    if n < 10 {
        seq![(48 + n) as u8]
    } else {
        decimal_bytes(n / 10).push((48 + n % 10) as u8)
    }
}

proof fn lemma_decimal_bytes(n: nat)
    ensures
        decimal_bytes(n).len() > 0,
        all_digits(decimal_bytes(n)),
        digits_value(decimal_bytes(n)) == n,
    decreases n,
{
    if n >= 10 {
        lemma_decimal_bytes(n / 10);
        let d = decimal_bytes(n);
        assert(d.drop_last() =~= decimal_bytes(n / 10));
        vstd::arithmetic::div_mod::lemma_fundamental_div_mod(n as int, 10);
        assert(n % 10 < 10);
        assert(d.last() == (48 + n % 10) as u8);
        assert(digits_value(d) == digits_value(d.drop_last()) * 10 + (d.last() - 48) as nat);
        assert forall|k: int| 0 <= k < d.len() implies #[trigger] is_digit(d[k]) by {
            if k < d.len() - 1 {
                assert(d[k] == decimal_bytes(n / 10)[k]);
            }
        }
    } else {
        let d = decimal_bytes(n);
        assert(d.drop_last() =~= Seq::<u8>::empty());
        assert(digits_value(d) == digits_value(d.drop_last()) * 10 + (d.last() - 48) as nat);
    }
}

/// Every `usize` written in decimal reads back as itself.
pub proof fn law_parse_decimal(n: usize)
    ensures
        parse_usize_bytes(decimal_bytes(n as nat)) == Some(n),
{
    lemma_decimal_bytes(n as nat);
    assert(is_digit(decimal_bytes(n as nat)[0]));
}

proof fn lemma_digits_prefix(d: Seq<u8>, k: int)
    requires
        0 <= k <= d.len(),
        all_digits(d),
    ensures
        digits_value(d.take(k)) <= digits_value(d),
    decreases d.len(),
{
    if k < d.len() {
        assert(d.drop_last().take(k) =~= d.take(k));
        lemma_digits_prefix(d.drop_last(), k);
    } else {
        assert(d.take(k) =~= d);
    }
}

/// `s.parse::<usize>()`, with `None` for its error.
pub fn parse_usize(s: &str) -> (r: Option<usize>)
    ensures
        r == parse_usize_bytes(s.spec_bytes()),
{
    let b = s.as_bytes();
    let n = b.len();
    let start: usize = if n > 0 && b[0] == 43 {
        1
    } else {
        0
    };
    let ghost d = b@.subrange(start as int, n as int);
    assert(d =~= (if n > 0 && b@[0] == 43 {
        b@.drop_first()
    } else {
        b@
    }));
    if start == n {
        return None;
    }
    let mut v: usize = 0;
    let mut i: usize = start;
    while i < n
        invariant
            n == b@.len(),
            b@ == s.spec_bytes(),
            start <= i <= n,
            d == b@.subrange(start as int, n as int),
            d == (if n > 0 && b@[0] == 43 {
                b@.drop_first()
            } else {
                b@
            }),
            v == digits_value(d.take(i - start)),
            all_digits(d.take(i - start)),
        decreases n - i,
    {
        let c = b[i];
        assert(d[i - start] == c);
        if c < 48 || c > 57 {
            assert(!is_digit(d[i - start]));
            return None;
        }
        assert(d.take(i - start + 1).drop_last() =~= d.take(i - start));
        assert(all_digits(d.take(i - start + 1)));
        match v.checked_mul(10) {
            None => {
                proof {
                    if all_digits(d) {
                        lemma_digits_prefix(d, i - start + 1);
                    }
                }
                return None;
            },
            Some(w) => {
                match w.checked_add((c - 48) as usize) {
                    None => {
                        proof {
                            if all_digits(d) {
                                lemma_digits_prefix(d, i - start + 1);
                            }
                        }
                        return None;
                    },
                    Some(u) => {
                        v = u;
                    },
                }
            },
        }
        i = i + 1;
    }
    assert(d.take(n - start) =~= d);
    Some(v)
}

} // verus!
