//! An anime, as the site's search answer describes it.
use vstd::prelude::*;

verus! {

/// An anime: its session token (`anime_id`), kind, cover, id, title, episode
/// count, airing status, season and year. The site's score, a floating-point
/// number, is not held here.
#[derive(Clone)]
pub struct Anime {
    anime_id: String,
    anime_type: String,
    cover: String,
    id: u16,
    title: String,
    episodes: u16,
    status: String,
    season: String,
    year: i16,
}

/// What an anime holds, with its texts as character sequences.
pub struct AnimeView {
    pub anime_id: Seq<char>,
    pub anime_type: Seq<char>,
    pub cover: Seq<char>,
    pub id: u16,
    pub title: Seq<char>,
    pub episodes: u16,
    pub status: Seq<char>,
    pub season: Seq<char>,
    pub year: i16,
}

impl View for Anime {
    type V = AnimeView;

    closed spec fn view(&self) -> AnimeView {
        AnimeView {
            anime_id: self.anime_id@,
            anime_type: self.anime_type@,
            cover: self.cover@,
            id: self.id,
            title: self.title@,
            episodes: self.episodes,
            status: self.status@,
            season: self.season@,
            year: self.year,
        }
    }
}

impl Anime {
    /// An anime with the given fields.
    pub fn new(
        anime_id: String,
        anime_type: String,
        cover: String,
        id: u16,
        title: String,
        episodes: u16,
        status: String,
        season: String,
        year: i16,
    ) -> (r: Self)
        ensures
            r@.anime_id == anime_id@,
            r@.anime_type == anime_type@,
            r@.cover == cover@,
            r@.id == id,
            r@.title == title@,
            r@.episodes == episodes,
            r@.status == status@,
            r@.season == season@,
            r@.year == year,
    {
        Anime { anime_id, anime_type, cover, id, title, episodes, status, season, year }
    }

    pub fn anime_id(&self) -> (r: &str)
        ensures
            r@ == self@.anime_id,
    {
        self.anime_id.as_str()
    }

    pub fn anime_type(&self) -> (r: &str)
        ensures
            r@ == self@.anime_type,
    {
        self.anime_type.as_str()
    }

    pub fn cover(&self) -> (r: &str)
        ensures
            r@ == self@.cover,
    {
        self.cover.as_str()
    }

    pub fn id(&self) -> (r: u16)
        ensures
            r == self@.id,
    {
        self.id
    }

    pub fn title(&self) -> (r: &str)
        ensures
            r@ == self@.title,
    {
        self.title.as_str()
    }

    pub fn episodes(&self) -> (r: u16)
        ensures
            r == self@.episodes,
    {
        self.episodes
    }

    pub fn status(&self) -> (r: &str)
        ensures
            r@ == self@.status,
    {
        self.status.as_str()
    }

    pub fn season(&self) -> (r: &str)
        ensures
            r@ == self@.season,
    {
        self.season.as_str()
    }

    pub fn year(&self) -> (r: i16)
        ensures
            r == self@.year,
    {
        self.year
    }
}

impl Default for Anime {
    /// An anime whose numbers are 0 and whose texts are empty.
    fn default() -> (r: Self)
        ensures
            r@.id == 0 && r@.episodes == 0 && r@.year == 0,
            r@.anime_id.len() == 0 && r@.anime_type.len() == 0 && r@.cover.len() == 0,
            r@.title.len() == 0 && r@.status.len() == 0 && r@.season.len() == 0,
    {
        Anime {
            anime_id: String::new(),
            anime_type: String::new(),
            cover: String::new(),
            id: 0,
            title: String::new(),
            episodes: 0,
            status: String::new(),
            season: String::new(),
            year: 0,
        }
    }
}

} // verus!
