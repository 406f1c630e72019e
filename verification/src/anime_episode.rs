//! One episode of an anime, as the site's release listing describes it.
use vstd::prelude::*;

verus! {

/// An episode of an anime: its ids, number, titles and media descriptions, and
/// the session token that names its play page.
#[derive(Clone)]
pub struct AnimeEpisode {
    id: u16,
    anime_id: u16,
    episode: u16,
    edition: String,
    title: String,
    thumbnail: String,
    disc: String,
    audio: String,
    duration: String,
    session: String,
    filler: i8,
    created_at: String,
}

/// What an episode holds, with its texts as character sequences.
pub struct AnimeEpisodeView {
    pub id: u16,
    pub anime_id: u16,
    pub episode: u16,
    pub edition: Seq<char>,
    pub title: Seq<char>,
    pub thumbnail: Seq<char>,
    pub disc: Seq<char>,
    pub audio: Seq<char>,
    pub duration: Seq<char>,
    pub session: Seq<char>,
    pub filler: i8,
    pub created_at: Seq<char>,
}

impl View for AnimeEpisode {
    type V = AnimeEpisodeView;

    closed spec fn view(&self) -> AnimeEpisodeView {
        AnimeEpisodeView {
            id: self.id,
            anime_id: self.anime_id,
            episode: self.episode,
            edition: self.edition@,
            title: self.title@,
            thumbnail: self.thumbnail@,
            disc: self.disc@,
            audio: self.audio@,
            duration: self.duration@,
            session: self.session@,
            filler: self.filler,
            created_at: self.created_at@,
        }
    }
}

impl AnimeEpisode {
    /// An episode with the given fields.
    pub fn new(
        id: u16,
        anime_id: u16,
        episode: u16,
        edition: String,
        title: String,
        thumbnail: String,
        disc: String,
        audio: String,
        duration: String,
        session: String,
        filler: i8,
        created_at: String,
    ) -> (r: Self)
        ensures
            r@.id == id,
            r@.anime_id == anime_id,
            r@.episode == episode,
            r@.edition == edition@,
            r@.title == title@,
            r@.thumbnail == thumbnail@,
            r@.disc == disc@,
            r@.audio == audio@,
            r@.duration == duration@,
            r@.session == session@,
            r@.filler == filler,
            r@.created_at == created_at@,
    {
        AnimeEpisode {
            id,
            anime_id,
            episode,
            edition,
            title,
            thumbnail,
            disc,
            audio,
            duration,
            session,
            filler,
            created_at,
        }
    }

    pub fn id(&self) -> (r: u16)
        ensures
            r == self@.id,
    {
        self.id
    }

    pub fn anime_id(&self) -> (r: u16)
        ensures
            r == self@.anime_id,
    {
        self.anime_id
    }

    pub fn episode(&self) -> (r: u16)
        ensures
            r == self@.episode,
    {
        self.episode
    }

    pub fn edition(&self) -> (r: &str)
        ensures
            r@ == self@.edition,
    {
        self.edition.as_str()
    }

    pub fn title(&self) -> (r: &str)
        ensures
            r@ == self@.title,
    {
        self.title.as_str()
    }

    pub fn thumbnail(&self) -> (r: &str)
        ensures
            r@ == self@.thumbnail,
    {
        self.thumbnail.as_str()
    }

    pub fn disc(&self) -> (r: &str)
        ensures
            r@ == self@.disc,
    {
        self.disc.as_str()
    }

    pub fn audio(&self) -> (r: &str)
        ensures
            r@ == self@.audio,
    {
        self.audio.as_str()
    }

    pub fn duration(&self) -> (r: &str)
        ensures
            r@ == self@.duration,
    {
        self.duration.as_str()
    }

    pub fn session(&self) -> (r: &str)
        ensures
            r@ == self@.session,
    {
        self.session.as_str()
    }

    pub fn filler(&self) -> (r: i8)
        ensures
            r == self@.filler,
    {
        self.filler
    }

    pub fn created_at(&self) -> (r: &str)
        ensures
            r@ == self@.created_at,
    {
        self.created_at.as_str()
    }
}

impl Default for AnimeEpisode {
    /// An episode whose numbers are 0 and whose texts are empty (what a field
    /// missing from the site's answer is read as).
    fn default() -> (r: Self)
        ensures
            r@.id == 0 && r@.anime_id == 0 && r@.episode == 0 && r@.filler == 0,
            r@.edition.len() == 0 && r@.title.len() == 0 && r@.thumbnail.len() == 0,
            r@.disc.len() == 0 && r@.audio.len() == 0 && r@.duration.len() == 0,
            r@.session.len() == 0 && r@.created_at.len() == 0,
    {
        AnimeEpisode {
            id: 0,
            anime_id: 0,
            episode: 0,
            edition: String::new(),
            title: String::new(),
            thumbnail: String::new(),
            disc: String::new(),
            audio: String::new(),
            duration: String::new(),
            session: String::new(),
            filler: 0,
            created_at: String::new(),
        }
    }
}

} // verus!
