use animepahe_dl::{Anime, AnimeEpisode, AnimeEpisodeJson, AnimeJson};

fn episode(number: u16) -> AnimeEpisode {
    AnimeEpisode::new(
        7,
        42,
        number,
        "BD".to_string(),
        "Pilot".to_string(),
        "https://i.animepahe.ru/snapshots/a.jpg".to_string(),
        "Blu-ray".to_string(),
        "jpn".to_string(),
        "00:23:40".to_string(),
        "abc123".to_string(),
        1,
        "2024-01-01 00:00:00".to_string(),
    )
}

#[test]
fn anime_episode_getters_give_the_fields() {
    let e = episode(3);
    assert_eq!(e.id(), 7);
    assert_eq!(e.anime_id(), 42);
    assert_eq!(e.episode(), 3);
    assert_eq!(e.edition(), "BD");
    assert_eq!(e.title(), "Pilot");
    assert_eq!(e.thumbnail(), "https://i.animepahe.ru/snapshots/a.jpg");
    assert_eq!(e.disc(), "Blu-ray");
    assert_eq!(e.audio(), "jpn");
    assert_eq!(e.duration(), "00:23:40");
    assert_eq!(e.session(), "abc123");
    assert_eq!(e.filler(), 1);
    assert_eq!(e.created_at(), "2024-01-01 00:00:00");
}

#[test]
fn anime_episode_default_is_empty() {
    let e = AnimeEpisode::default();
    assert_eq!(e.id(), 0);
    assert_eq!(e.episode(), 0);
    assert_eq!(e.filler(), 0);
    assert_eq!(e.title(), "");
    assert_eq!(e.session(), "");
    assert_eq!(e.created_at(), "");
}

#[test]
fn anime_getters_give_the_fields() {
    let a = Anime::new(
        "4a5b".to_string(),
        "TV".to_string(),
        "https://i.animepahe.ru/posters/x.jpg".to_string(),
        12,
        "Hunter x Hunter".to_string(),
        148,
        "Finished Airing".to_string(),
        "Fall".to_string(),
        2011,
    );
    assert_eq!(a.anime_id(), "4a5b");
    assert_eq!(a.anime_type(), "TV");
    assert_eq!(a.cover(), "https://i.animepahe.ru/posters/x.jpg");
    assert_eq!(a.id(), 12);
    assert_eq!(a.title(), "Hunter x Hunter");
    assert_eq!(a.episodes(), 148);
    assert_eq!(a.status(), "Finished Airing");
    assert_eq!(a.season(), "Fall");
    assert_eq!(a.year(), 2011);
}

#[test]
fn anime_default_is_empty() {
    let a = Anime::default();
    assert_eq!(a.anime_id(), "");
    assert_eq!(a.year(), 0);
    assert_eq!(a.episodes(), 0);
}

#[test]
fn anime_json_data_keeps_order() {
    let first = Anime::new(
        "a".to_string(), String::new(), String::new(), 1, "First".to_string(), 0, String::new(),
        String::new(), 0,
    );
    let second = Anime::new(
        "b".to_string(), String::new(), String::new(), 2, "Second".to_string(), 0, String::new(),
        String::new(), 0,
    );
    let data = AnimeJson::new(vec![first, second]).data();
    assert_eq!(data.len(), 2);
    assert_eq!(data[0].title(), "First");
    assert_eq!(data[1].title(), "Second");
    assert!(AnimeJson::default().data().is_empty());
}

#[test]
fn anime_episode_json_data_keeps_order() {
    let json = AnimeEpisodeJson::new(vec![episode(1), episode(2), episode(3)]);
    let data = json.data();
    assert_eq!(data.len(), 3);
    assert_eq!(data[2].episode(), 3);
    assert!(AnimeEpisodeJson::default().data().is_empty());
}
