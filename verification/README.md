# animepahe_dl

A command-line downloader for animepahe.ru, split in two:

- `src/` is the library, verified with Verus: the data model of the site's
  JSON answers (`Anime`, `AnimeEpisode`, `AnimeJson`, `AnimeEpisodeJson`), the
  URLs and the DDoS-Guard cookie the site is spoken to with
  (`AnimepaheApi`, `DdosGuardApi`), the decoding of kwik.si's packed player
  script that hides the `.m3u8` playlist (`KwikApi`), the menu and episode
  choices the user types (`selection`), the ffmpeg command line and progress
  lines (`FFMPEGInstance`), and the byte-level text primitives they rest on
  (`text`). The calls into `urlencoding`, `radix_fmt`, `regex` and `scraper`,
  and into the parts of std that vstd leaves without a contract, are in
  `trusted`, each with the contract it is believed to meet.
- `app/` is the program around it: HTTP with `reqwest`, JSON with `serde`,
  the `tokio` runtime, standard input, the ffmpeg processes, and the
  floating-point progress arithmetic.

Where the input is not what the program can work with (a malformed player
script, an out-of-range episode number), the library's function returns `None`
and its contract says on exactly which inputs; the program then stops.
