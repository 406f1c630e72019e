//! Verified core of an animepahe.ru episode downloader: the data model of the
//! site's JSON answers, the URLs and cookies it is spoken to with, the decoding
//! of the packed player script that hides the video playlist, and the parsing
//! of what the user types to pick anime and episodes.

pub mod anime;
pub mod anime_episode;
pub mod animepahe;
pub mod api_jsons;
pub mod ddos_guard;
pub mod ffmpeg;
pub mod kwik;
pub mod selection;
pub mod text;
pub mod trusted;

pub use anime::Anime;
pub use anime_episode::AnimeEpisode;
pub use api_jsons::{AnimeEpisodeJson, AnimeJson};
pub use animepahe::AnimepaheApi;
pub use ddos_guard::DdosGuardApi;
pub use kwik::KwikApi;
pub use ffmpeg::{DownloadPoll, FFMPEGInstance};
