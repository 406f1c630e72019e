//! The envelopes of the site's JSON answers: a `data` list of anime or episodes.
use vstd::prelude::*;
use crate::anime::Anime;
use crate::anime_episode::AnimeEpisode;

verus! {

/// The answer to a search: the anime found.
pub struct AnimeJson {
    data: Vec<Anime>,
}

impl View for AnimeJson {
    type V = Seq<Anime>;

    closed spec fn view(&self) -> Seq<Anime> {
        self.data@
    }
}

impl AnimeJson {
    /// An answer holding `data`.
    pub fn new(data: Vec<Anime>) -> (r: Self)
        ensures
            r@ == data@,
    {
        AnimeJson { data }
    }

    /// The anime found, in the answer's order.
    pub fn data(self) -> (r: Vec<Anime>)
        ensures
            r@ == self@,
    {
        self.data
    }
}

impl Default for AnimeJson {
    fn default() -> (r: Self)
        ensures
            r@.len() == 0,
    {
        AnimeJson { data: Vec::new() }
    }
}

/// The answer to a release listing: the episodes of one anime.
pub struct AnimeEpisodeJson {
    data: Vec<AnimeEpisode>,
}

impl View for AnimeEpisodeJson {
    type V = Seq<AnimeEpisode>;

    closed spec fn view(&self) -> Seq<AnimeEpisode> {
        self.data@
    }
}

impl AnimeEpisodeJson {
    /// An answer holding `data`.
    pub fn new(data: Vec<AnimeEpisode>) -> (r: Self)
        ensures
            r@ == data@,
    {
        AnimeEpisodeJson { data }
    }

    /// The episodes, in the answer's order.
    pub fn data(&self) -> (r: &Vec<AnimeEpisode>)
        ensures
            r@ == self@,
    {
        &self.data
    }
}

impl Default for AnimeEpisodeJson {
    fn default() -> (r: Self)
        ensures
            r@.len() == 0,
    {
        AnimeEpisodeJson { data: Vec::new() }
    }
}

} // verus!
