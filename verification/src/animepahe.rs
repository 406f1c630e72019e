//! The animepahe.ru site: the URLs of its search, release listing and play
//! pages, and the kwik.si player link found on a play page.
use vstd::prelude::*;
use vstd::string::*;
use vstd::utf8::*;
use crate::anime::Anime;
use crate::anime_episode::AnimeEpisode;
use crate::text::{contains_bytes, contains_str};
use crate::trusted::{percent_encode, select_elements, selected_elements, url_encode};

verus! {

/// The search API URL for the query `name`.
pub open spec fn search_url_of(name: &str) -> Seq<char> {
    "https://animepahe.ru/api?m=search"@ + "&q="@ + percent_encode(name.spec_bytes())
}

/// The release listing API URL for the anime whose session token is `anime_id`.
pub open spec fn episodes_url_of(anime_id: Seq<char>) -> Seq<char> {
    "https://animepahe.ru/api?m=release"@ + "&id="@ + anime_id + "&sort=episode_asc&page=1"@
}

/// The play page URL of an episode.
pub open spec fn play_url_of(anime_id: Seq<char>, session: Seq<char>) -> Seq<char> {
    "https://animepahe.ru/play/"@ + anime_id + "/"@ + session
}

/// The `data-src` of the first button whose first text holds `· 1080p`, or
/// the empty text where no button does; `None` where a button before it (or
/// it) has no text, or it has no `data-src`.
pub open spec fn source_1080p(elems: Seq<(Seq<Seq<char>>, Option<Seq<char>>)>) -> Option<
    Seq<char>,
>
    decreases elems.len(),
{
    if elems.len() == 0 {
        Some(Seq::<char>::empty())
    } else if elems[0].0.len() == 0 {
        None
    } else if contains_bytes(encode_utf8(elems[0].0[0]), "· 1080p".spec_bytes()) {
        elems[0].1
    } else {
        source_1080p(elems.drop_first())
    }
}

/// The player URL of a play page is read from the elements that the CSS type
/// selector `button` selects, and from no others, and from their attribute
/// `data-src`: the selector and the attribute name handed to the HTML engine
/// are exactly the texts `button` and `data-src`.
pub proof fn law_kwik_url_reads_buttons(page: Seq<char>)
    ensures
        kwik_episode_url_of(page) == match selected_elements(
            page,
            seq!['b', 'u', 't', 't', 'o', 'n'],
            seq!['d', 'a', 't', 'a', '-', 's', 'r', 'c'],
        ) {
            None => None,
            Some(buttons) => source_1080p(buttons),
        },
{
    reveal_strlit("button");
    reveal_strlit("data-src");
    assert("button"@ =~= seq!['b', 'u', 't', 't', 'o', 'n']);
    assert("data-src"@ =~= seq!['d', 'a', 't', 'a', '-', 's', 'r', 'c']);
}

/// A non-empty player URL read from a play page is the `data-src` of one of
/// its buttons whose first text holds `· 1080p`.
pub proof fn law_kwik_url_is_a_1080p_source(elems: Seq<(Seq<Seq<char>>, Option<Seq<char>>)>)
    ensures
        match source_1080p(elems) {
            Some(v) => v.len() > 0 ==> exists|i: int|
                0 <= i < elems.len() && #[trigger] elems[i].1 == Some(v) && elems[i].0.len() > 0
                    && contains_bytes(encode_utf8(elems[i].0[0]), "· 1080p".spec_bytes()),
            None => true,
        },
    decreases elems.len(),
{
    if elems.len() > 0 && elems[0].0.len() > 0 && !contains_bytes(
        encode_utf8(elems[0].0[0]),
        "· 1080p".spec_bytes(),
    ) {
        let rest = elems.drop_first();
        law_kwik_url_is_a_1080p_source(rest);
        if let Some(v) = source_1080p(elems) {
            if v.len() > 0 {
                let i = choose|i: int|
                    0 <= i < rest.len() && #[trigger] rest[i].1 == Some(v) && rest[i].0.len() > 0
                        && contains_bytes(encode_utf8(rest[i].0[0]), "· 1080p".spec_bytes());
                assert(elems[i + 1] == rest[i]);
            }
        }
    } else if elems.len() > 0 && elems[0].0.len() > 0 {
        assert(elems[0].1 == source_1080p(elems));
    }
}

/// The kwik.si player URL of the play page `page`.
pub open spec fn kwik_episode_url_of(page: Seq<char>) -> Option<Seq<char>> {
    match selected_elements(page, "button"@, "data-src"@) {
        None => None,
        Some(elems) => source_1080p(elems),
    }
}

/// The animepahe.ru API: the requests it is sent and what is read from them.
pub struct AnimepaheApi;

impl AnimepaheApi {
    /// The URL that searches the anime named `anime_name`.
    pub fn search_url(anime_name: &str) -> (r: String)
        ensures
            r@ == search_url_of(anime_name),
    {
        let mut url = "https://animepahe.ru/api?m=search".to_owned();
        url.append("&q=");
        let encoded = url_encode(anime_name);
        url.append(encoded.as_str());
        url
    }

    /// The URL that lists the first page of episodes, in ascending order, of
    /// the anime whose session token is `anime_id`.
    pub fn episodes_url(anime_id: &str) -> (r: String)
        ensures
            r@ == episodes_url_of(anime_id@),
    {
        let mut url = "https://animepahe.ru/api?m=release".to_owned();
        url.append("&id=");
        url.append(anime_id);
        url.append("&sort=episode_asc&page=1");
        url
    }

    /// The URL of the play page of `anime_episode` of `anime`.
    pub fn play_url(anime: &Anime, anime_episode: &AnimeEpisode) -> (r: String)
        ensures
            r@ == play_url_of(anime@.anime_id, anime_episode@.session),
    {
        let mut url = "https://animepahe.ru/play/".to_owned();
        url.append(anime.anime_id());
        url.append("/");
        url.append(anime_episode.session());
        url
    }

    /// The kwik.si player URL of the 1080p stream among the `buttons` of a play
    /// page (each its texts and its `data-src`): the `data-src` of the first
    /// whose first text holds `· 1080p`, or the empty text where none does;
    /// `None` where a button up to that one has no text, or that one has no
    /// `data-src`.
    pub fn kwik_url_from_buttons(buttons: &Vec<(Vec<String>, Option<String>)>) -> (r: Option<String>)
        ensures
            r.deep_view() == source_1080p(buttons.deep_view()),
    {
        let ghost dv = buttons.deep_view();
        let mut i: usize = 0;
        assert(dv.skip(0) =~= dv);
        while i < buttons.len()
            invariant
                dv == buttons.deep_view(),
                i <= buttons.len(),
                source_1080p(dv.skip(i as int)) == source_1080p(dv),
            decreases buttons.len() - i,
        {
            assert(dv.skip(i as int).len() > 0);
            assert(dv.skip(i as int)[0] == dv[i as int]);
            assert(dv[i as int].0 == buttons[i as int].0.deep_view());
            assert(dv[i as int].1 == buttons[i as int].1.deep_view());
            if buttons[i].0.len() == 0 {
                return None;
            }
            assert(dv[i as int].0[0] == buttons[i as int].0[0]@);
            if contains_str(buttons[i].0[0].as_str(), "· 1080p") {
                return match &buttons[i].1 {
                    Some(src) => Some(src.clone()),
                    None => None,
                };
            }
            assert(dv.skip(i as int).drop_first() =~= dv.skip(i + 1));
            i = i + 1;
        }
        proof {
            reveal_strlit("");
        }
        Some("".to_owned())
    }

    /// The kwik.si player URL of the 1080p stream on the play page `page`, read
    /// from its `button` elements as `kwik_url_from_buttons` says; `None`
    /// where that gives `None`.
    pub fn kwik_episode_url(page: &str) -> (r: Option<String>)
        ensures
            r.deep_view() == kwik_episode_url_of(page@),
    {
        match select_elements(page, "button", "data-src") {
            Some(buttons) => Self::kwik_url_from_buttons(&buttons),
            None => None,
        }
    }
}

} // verus!
