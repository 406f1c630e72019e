//! What the user types: menu choices, the search query, the download folder
//! and the episodes to fetch.
use vstd::prelude::*;
use vstd::string::*;
use vstd::utf8::*;
use crate::anime::Anime;
use crate::anime_episode::AnimeEpisode;
use crate::text::{
    contains_bytes, contains_str, lemma_split_len, parse_usize, parse_usize_bytes, split_bytes,
    split_str, strs_bytes,
};
use crate::trusted::{
    ascii_lower, regex_is_match, regex_is_match_result, to_ascii_lowercase, trim_end,
    trim_end_chars,
};

verus! {

/// What one line typed at a numbered menu gives.
pub enum UserInput {
    /// A number of a menu entry (from 1 to the number of entries): it is taken.
    Choice(usize),
    /// Anything else that is not fatal: the user is asked again.
    Invalid,
}

/// The answer to the text `t` at a menu of `max_option` entries, given
/// whether `t` matches `^\d*$` (`None` where that pattern does not compile):
/// it must match and read as a number from 1 to `max_option`. `None` where
/// the text matches but does not read as a `usize` (such as the empty text).
pub open spec fn user_input_given_match(matched: Option<bool>, t: Seq<char>, max_option: usize) -> Option<
    UserInput,
> {
    match matched {
        None => None,
        Some(false) => Some(UserInput::Invalid),
        Some(true) => match parse_usize_bytes(encode_utf8(t)) {
            None => None,
            Some(n) => if n == 0 || n > max_option {
                Some(UserInput::Invalid)
            } else {
                Some(UserInput::Choice(n))
            },
        },
    }
}

/// The answer to the line `line` at a menu of `max_option` entries: the line
/// without trailing whitespace, read as `user_input_given_match` says.
pub open spec fn user_input_of(line: Seq<char>, max_option: usize) -> Option<UserInput> {
    let t = trim_end_chars(line);
    user_input_given_match(regex_is_match_result("^\\d*$"@, t), t, max_option)
}

/// The search query typed as `line`: lower-cased ASCII, trailing whitespace
/// removed.
pub open spec fn search_query_of(line: Seq<char>) -> Seq<char> {
    trim_end_chars(line.map_values(|c: char| ascii_lower(c)))
}

/// The download folder typed as `line`: trailing whitespace removed, and a
/// backslash appended.
pub open spec fn folder_of(line: Seq<char>) -> Seq<char> {
    trim_end_chars(line) + "\\"@
}

/// The episode indices (from 0) that `x..y` in the text `t` selects; empty
/// where `t` holds no `..`; `None` where `x` or `y` is no `usize`, `y` is
/// `usize::MAX`, or `x <= y` and the range is not within 1 to `len`.
pub open spec fn range_indices(t: Seq<u8>, len: nat) -> Option<Seq<int>> {
    if !contains_bytes(t, "..".spec_bytes()) {
        Some(Seq::<int>::empty())
    } else {
        let pieces = split_bytes(t, "..".spec_bytes());
        match (parse_usize_bytes(pieces[0]), parse_usize_bytes(pieces[1])) {
            (Some(s), Some(e)) => if e == usize::MAX {
                None
            } else if s > e {
                Some(Seq::<int>::empty())
            } else if 1 <= s && e <= len {
                Some(Seq::new((e - s + 1) as nat, |j: int| s - 1 + j))
            } else {
                None
            },
            _ => None,
        }
    }
}

/// The episode indices (from 0) that the numbers `pieces` select; `None`
/// where one does not read as a number from 1 to `len`.
pub open spec fn list_indices(pieces: Seq<Seq<u8>>, len: nat) -> Option<Seq<int>>
    decreases pieces.len(),
{
    if pieces.len() == 0 {
        Some(Seq::<int>::empty())
    } else {
        match (parse_usize_bytes(pieces[0]), list_indices(pieces.drop_first(), len)) {
            (Some(n), Some(rest)) => if 1 <= n <= len {
                Some(seq![n - 1] + rest)
            } else {
                None
            },
            _ => None,
        }
    }
}

/// The episode indices (from 0) that `x-y-z` in the text `t` selects; empty
/// where `t` holds no `-`; `None` where a piece is no number from 1 to `len`.
pub open spec fn dash_indices(t: Seq<u8>, len: nat) -> Option<Seq<int>> {
    if !contains_bytes(t, "-".spec_bytes()) {
        Some(Seq::<int>::empty())
    } else {
        list_indices(split_bytes(t, "-".spec_bytes()), len)
    }
}

/// The episode indices (from 0) that the line `line` selects among `len`
/// episodes: those of `x..y`, then those of `x-y-z`; `None` where either
/// form gives `None`.
pub open spec fn selection_indices(line: Seq<char>, len: nat) -> Option<Seq<int>> {
    let t = encode_utf8(trim_end_chars(line));
    match (range_indices(t, len), dash_indices(t, len)) {
        (Some(r), Some(d)) => Some(r + d),
        _ => None,
    }
}

/// The episodes at the indices `ix`.
pub open spec fn episodes_at(results: Seq<AnimeEpisode>, ix: Seq<int>) -> Seq<AnimeEpisode> {
    ix.map_values(|i: int| results[i])
}

/// The episodes the references point to.
pub open spec fn derefs(v: Seq<&AnimeEpisode>) -> Seq<AnimeEpisode> {
    v.map_values(|e: &AnimeEpisode| *e)
}

/// The answer to the text `trimmed` at a menu of `max_option` entries, given
/// whether it matched `^\d*$`; `None` where the pattern did not compile or
/// the text matched but is no `usize`.
pub fn user_input_after_match(matched: Option<bool>, trimmed: &str, max_option: usize) -> (r: Option<
    UserInput,
>)
    ensures
        r == user_input_given_match(matched, trimmed@, max_option),
{
    match matched {
        None => None,
        Some(false) => Some(UserInput::Invalid),
        Some(true) => match parse_usize(trimmed) {
            None => None,
            Some(n) => if n == 0 || n > max_option {
                Some(UserInput::Invalid)
            } else {
                Some(UserInput::Choice(n))
            },
        },
    }
}

/// The answer to one line `line` typed at a menu of `max_option` entries;
/// `None` as `user_input_given_match` says.
pub fn check_user_input(line: &str, max_option: usize) -> (r: Option<UserInput>)
    ensures
        r == user_input_of(line@, max_option),
{
    let index = trim_end(line);
    let matched = regex_is_match("^\\d*$", index);
    user_input_after_match(matched, index, max_option)
}

/// The search query typed as `line`.
pub fn search_query(line: &str) -> (r: String)
    ensures
        r@ == search_query_of(line@),
{
    let lower = to_ascii_lowercase(line);
    trim_end(lower.as_str()).to_owned()
}

/// The download folder typed as `line`.
pub fn folder_location(line: &str) -> (r: String)
    ensures
        r@ == folder_of(line@),
{
    let mut folder = trim_end(line).to_owned();
    folder.append("\\");
    folder
}

/// The episode picked by the menu choice `user_choice` (counted from 1);
/// `None` where `user_choice` is 0 or beyond the list.
pub fn single_episode(anime_episodes_results: &Vec<AnimeEpisode>, user_choice: usize) -> (r:
    Option<Vec<&AnimeEpisode>>)
    ensures
        match r {
            Some(v) => 1 <= user_choice <= anime_episodes_results@.len() && derefs(v@) == seq![
                anime_episodes_results@[user_choice - 1],
            ],
            None => !(1 <= user_choice <= anime_episodes_results@.len()),
        },
{
    if user_choice == 0 || user_choice > anime_episodes_results.len() {
        return None;
    }
    let mut episodes: Vec<&AnimeEpisode> = Vec::new();
    episodes.push(&anime_episodes_results[user_choice - 1]);
    assert(derefs(episodes@) =~= seq![anime_episodes_results@[user_choice - 1]]);
    Some(episodes)
}

/// Every episode index that a list of numbers selects is in range.
proof fn lemma_list_indices_in_bounds(pieces: Seq<Seq<u8>>, len: nat)
    ensures
        list_indices(pieces, len) matches Some(ix) ==> forall|j: int|
            0 <= j < ix.len() ==> 0 <= #[trigger] ix[j] < len,
    decreases pieces.len(),
{
    if pieces.len() > 0 {
        lemma_list_indices_in_bounds(pieces.drop_first(), len);
    }
}

/// Every episode that a line selects exists: its index is below the number of
/// episodes.
pub proof fn law_selection_in_bounds(line: Seq<char>, len: nat)
    ensures
        selection_indices(line, len) matches Some(ix) ==> forall|j: int|
            0 <= j < ix.len() ==> 0 <= #[trigger] ix[j] < len,
{
    let t = encode_utf8(trim_end_chars(line));
    if contains_bytes(t, "-".spec_bytes()) {
        lemma_list_indices_in_bounds(split_bytes(t, "-".spec_bytes()), len);
    }
    if let Some(ix) = selection_indices(line, len) {
        let r = range_indices(t, len)->Some_0;
        let d = dash_indices(t, len)->Some_0;
        assert forall|j: int| 0 <= j < ix.len() implies 0 <= #[trigger] ix[j] < len by {
            if j < r.len() {
                assert(ix[j] == r[j]);
            } else {
                assert(ix[j] == d[j - r.len()]);
            }
        }
    }
}

/// A number taken at a menu is one of its entries, which are numbered from 1
/// to the number of entries.
pub proof fn law_choice_within_menu(line: Seq<char>, max_option: usize)
    ensures
        user_input_of(line, max_option) matches Some(UserInput::Choice(n)) ==> 1 <= n
            <= max_option,
{
}

/// The anime picked by the menu choice `user_choice` (counted from 1) among
/// `anime_results`; `None` where `user_choice` is 0 or beyond the list.
pub fn chosen_anime(anime_results: &Vec<Anime>, user_choice: usize) -> (r: Option<&Anime>)
    ensures
        match r {
            Some(a) => 1 <= user_choice <= anime_results@.len() && *a == anime_results@[user_choice
                - 1],
            None => !(1 <= user_choice <= anime_results@.len()),
        },
{
    if user_choice == 0 || user_choice > anime_results.len() {
        None
    } else {
        Some(&anime_results[user_choice - 1])
    }
}

/// `Some(prefix + rest)` where `o` is `Some(rest)`.
pub open spec fn prepend_some(prefix: Seq<int>, o: Option<Seq<int>>) -> Option<Seq<int>> {
    match o {
        Some(rest) => Some(prefix + rest),
        None => None,
    }
}

/// The episodes picked by the line `user_choice`: `x..y` picks episodes `x`
/// to `y` (counted from 1), `x-y-z` picks each one listed; both forms are read
/// when both are present, the range first. `None` where
/// `selection_indices` gives `None`.
pub fn multiple_episode<'a>(anime_episodes_results: &'a Vec<AnimeEpisode>, user_choice: &str) -> (r:
    Option<Vec<&'a AnimeEpisode>>)
    ensures
        match r {
            Some(v) => selection_indices(user_choice@, anime_episodes_results@.len()) matches Some(
                ix,
            ) && derefs(v@) == episodes_at(anime_episodes_results@, ix),
            None => selection_indices(user_choice@, anime_episodes_results@.len()) is None,
        },
{
    let ghost len = anime_episodes_results@.len();
    let t = trim_end(user_choice);
    let ghost tb = t.spec_bytes();
    assert(tb == encode_utf8(trim_end_chars(user_choice@)));
    let mut episodes: Vec<&'a AnimeEpisode> = Vec::new();
    proof {
        reveal_strlit("..");
        reveal_strlit("-");
        lemma_split_len(tb, "..".spec_bytes());
        lemma_split_len(tb, "-".spec_bytes());
    }
    let ghost mut range_ix: Seq<int> = Seq::empty();
    if contains_str(t, "..") {
        let indexes = split_str(t, "..");
        assert(strs_bytes(indexes@).len() == indexes@.len());
        let start = match parse_usize(indexes[0]) {
            Some(s) => s,
            None => return None,
        };
        let end = match parse_usize(indexes[1]) {
            Some(e) => e,
            None => return None,
        };
        if end == usize::MAX {
            return None;
        }
        let mut i = start;
        while i < end + 1
            invariant
                anime_episodes_results@.len() == len,
                end < usize::MAX,
                tb == encode_utf8(trim_end_chars(user_choice@)),
                contains_bytes(tb, "..".spec_bytes()),
                parse_usize_bytes(split_bytes(tb, "..".spec_bytes())[0]) == Some(start),
                parse_usize_bytes(split_bytes(tb, "..".spec_bytes())[1]) == Some(end),
                start > end ==> i == start,
                start <= i,
                start <= end + 1 ==> i <= end + 1,
                i > start ==> 1 <= start && i - 1 <= len,
                derefs(episodes@) == episodes_at(
                    anime_episodes_results@,
                    Seq::new((i - start) as nat, |j: int| start - 1 + j),
                ),
            decreases end + 1 - i,
        {
            if i == 0 || i > anime_episodes_results.len() {
                return None;
            }
            let ghost before = episodes@;
            episodes.push(&anime_episodes_results[i - 1]);
            assert(derefs(episodes@) =~= derefs(before).push(anime_episodes_results@[i - 1]));
            assert(Seq::new((i + 1 - start) as nat, |j: int| start - 1 + j) =~= Seq::new(
                (i - start) as nat,
                |j: int| start - 1 + j,
            ).push(i - 1));
            i = i + 1;
        }
        proof {
            range_ix = Seq::new((i - start) as nat, |j: int| start - 1 + j);
            if start > end {
                assert(range_ix =~= Seq::<int>::empty());
            }
        }
    }
    assert(range_indices(tb, len) == Some(range_ix));
    assert(derefs(episodes@) == episodes_at(anime_episodes_results@, range_ix));
    let ghost mut dash_ix: Seq<int> = Seq::empty();
    if contains_str(t, "-") {
        let indexes = split_str(t, "-");
        let ghost pieces = strs_bytes(indexes@);
        assert(pieces.len() == indexes@.len());
        let mut j: usize = 0;
        assert(pieces.skip(0) =~= pieces);
        while j < indexes.len()
            invariant
                anime_episodes_results@.len() == len,
                pieces == strs_bytes(indexes@),
                tb == encode_utf8(trim_end_chars(user_choice@)),
                range_indices(tb, len) == Some(range_ix),
                dash_indices(tb, len) == list_indices(pieces, len),
                pieces.len() == indexes@.len(),
                j <= indexes@.len(),
                list_indices(pieces, len) == prepend_some(dash_ix, list_indices(pieces.skip(j as int), len)),
                derefs(episodes@) == episodes_at(anime_episodes_results@, range_ix + dash_ix),
            decreases indexes@.len() - j,
        {
            assert(pieces.skip(j as int)[0] == pieces[j as int]);
            assert(pieces.skip(j as int).drop_first() =~= pieces.skip(j + 1));
            let n = match parse_usize(indexes[j]) {
                Some(n) => n,
                None => return None,
            };
            if n == 0 || n > anime_episodes_results.len() {
                return None;
            }
            let ghost before = episodes@;
            episodes.push(&anime_episodes_results[n - 1]);
            proof {
                assert(derefs(episodes@) =~= derefs(before).push(anime_episodes_results@[n - 1]));
                assert((range_ix + dash_ix).push(n - 1) =~= range_ix + dash_ix.push(n - 1));
                assert(episodes_at(anime_episodes_results@, (range_ix + dash_ix).push(n - 1))
                    =~= episodes_at(anime_episodes_results@, range_ix + dash_ix).push(
                    anime_episodes_results@[n - 1],
                ));
                match list_indices(pieces.skip(j + 1), len) {
                    Some(rest) => {
                        assert(dash_ix + (seq![n - 1] + rest) =~= dash_ix.push(n - 1) + rest);
                    },
                    None => {},
                }
                dash_ix = dash_ix.push(n - 1);
            }
            j = j + 1;
        }
        assert(pieces.skip(j as int) =~= Seq::<Seq<u8>>::empty());
        assert(dash_ix + Seq::<int>::empty() =~= dash_ix);
    }
    assert(dash_indices(tb, len) == Some(dash_ix));
    Some(episodes)
}

} // verus!
