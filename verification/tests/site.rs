use animepahe_dl::{Anime, AnimeEpisode, AnimepaheApi, DdosGuardApi};

#[test]
fn search_url_percent_encodes_the_query() {
    assert_eq!(
        AnimepaheApi::search_url("hunter x hunter"),
        "https://animepahe.ru/api?m=search&q=hunter%20x%20hunter"
    );
    assert_eq!(
        AnimepaheApi::search_url("a-b_c.d~e"),
        "https://animepahe.ru/api?m=search&q=a-b_c.d~e"
    );
    assert_eq!(
        AnimepaheApi::search_url("é!&"),
        "https://animepahe.ru/api?m=search&q=%C3%A9%21%26"
    );
}

#[test]
fn episodes_url_asks_for_the_first_page_in_order() {
    assert_eq!(
        AnimepaheApi::episodes_url("4a5b-77"),
        "https://animepahe.ru/api?m=release&id=4a5b-77&sort=episode_asc&page=1"
    );
}

#[test]
fn play_url_joins_anime_and_session() {
    let anime = Anime::new(
        "4a5b".to_string(), String::new(), String::new(), 1, String::new(), 0, String::new(),
        String::new(), 0,
    );
    let episode = AnimeEpisode::new(
        1, 1, 1, String::new(), String::new(), String::new(), String::new(), String::new(),
        String::new(), "f00d".to_string(), 0, String::new(),
    );
    assert_eq!(AnimepaheApi::play_url(&anime, &episode), "https://animepahe.ru/play/4a5b/f00d");
}

#[test]
fn ddg2_cookie_is_set_for_animepahe() {
    assert_eq!(
        DdosGuardApi::ddg2_cookie("xyz123"),
        "__ddg2_=xyz123; Path=/; Domain=animepahe.ru; HttpOnly;"
    );
}

#[test]
fn kwik_episode_url_takes_the_first_1080p_button() {
    let page = "<div>\
        <button data-src=\"https://kwik.si/e/low\">SubsPlease · 720p</button>\
        <button data-src=\"https://kwik.si/e/high\">SubsPlease · 1080p</button>\
        <button data-src=\"https://kwik.si/e/other\">Other · 1080p</button>\
        </div>";
    assert_eq!(
        AnimepaheApi::kwik_episode_url(page),
        Some("https://kwik.si/e/high".to_string())
    );
}

#[test]
fn kwik_episode_url_is_empty_without_1080p() {
    let page = "<button data-src=\"https://kwik.si/e/low\">SubsPlease · 720p</button>";
    assert_eq!(AnimepaheApi::kwik_episode_url(page), Some(String::new()));
    assert_eq!(AnimepaheApi::kwik_episode_url("<p>no buttons</p>"), Some(String::new()));
}

#[test]
fn kwik_episode_url_fails_where_a_button_has_no_text() {
    let page = "<button data-src=\"https://kwik.si/e/none\"></button>\
        <button data-src=\"https://kwik.si/e/high\">SubsPlease · 1080p</button>";
    assert_eq!(AnimepaheApi::kwik_episode_url(page), None);
}

#[test]
fn kwik_episode_url_fails_where_the_1080p_button_has_no_source() {
    let page = "<button>SubsPlease · 1080p</button>";
    assert_eq!(AnimepaheApi::kwik_episode_url(page), None);
}

#[test]
fn kwik_url_from_buttons_reads_the_first_1080p_source() {
    // law_kwik_url_is_a_1080p_source on concrete values
    let buttons = vec![
        (vec!["SubsPlease · 720p".to_string()], Some("low".to_string())),
        (vec!["SubsPlease · 1080p".to_string(), "BD".to_string()], Some("high".to_string())),
    ];
    assert_eq!(AnimepaheApi::kwik_url_from_buttons(&buttons), Some("high".to_string()));
    let no_text = vec![(vec![], Some("x".to_string()))];
    assert_eq!(AnimepaheApi::kwik_url_from_buttons(&no_text), None);
    let no_source = vec![(vec!["A · 1080p".to_string()], None)];
    assert_eq!(AnimepaheApi::kwik_url_from_buttons(&no_source), None);
    assert_eq!(AnimepaheApi::kwik_url_from_buttons(&vec![]), Some(String::new()));
}
