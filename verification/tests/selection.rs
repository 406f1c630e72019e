use animepahe_dl::selection::{
    check_user_input, chosen_anime, user_input_after_match, folder_location, multiple_episode, search_query, single_episode, UserInput,
};
use animepahe_dl::{Anime, AnimeEpisode};

fn episodes(count: u16) -> Vec<AnimeEpisode> {
    (1..=count)
        .map(|n| {
            AnimeEpisode::new(
                n, 1, n, String::new(), String::new(), String::new(), String::new(), String::new(),
                String::new(), format!("s{}", n), 0, String::new(),
            )
        })
        .collect()
}

fn numbers(picked: &[&AnimeEpisode]) -> Vec<u16> {
    picked.iter().map(|e| e.episode()).collect()
}

fn is_choice(r: Option<UserInput>, n: usize) -> bool {
    matches!(r, Some(UserInput::Choice(m)) if m == n)
}

fn is_invalid(r: Option<UserInput>) -> bool {
    matches!(r, Some(UserInput::Invalid))
}

#[test]
fn check_user_input_takes_numbers_within_the_menu() {
    assert!(is_choice(check_user_input("3\n", 5), 3));
    assert!(is_choice(check_user_input("5\r\n", 5), 5));
    assert!(is_choice(check_user_input("007 \n", 9), 7));
}

#[test]
fn check_user_input_asks_again_otherwise() {
    // law_choice_within_menu on concrete values
    assert!(is_invalid(check_user_input("6\n", 5)));
    assert!(is_invalid(check_user_input("0\n", 5)));
    assert!(is_invalid(check_user_input("00\n", 5)));
    assert!(is_invalid(check_user_input("abc\n", 5)));
    assert!(is_invalid(check_user_input("+3\n", 5)));
    assert!(is_invalid(check_user_input(" 3\n", 5)));
}

#[test]
fn check_user_input_fails_where_reading_panics() {
    assert!(check_user_input("\n", 5).is_none());
    assert!(check_user_input("99999999999999999999999\n", 5).is_none());
    assert!(check_user_input("\u{663}\n", 5).is_none());
}

#[test]
fn search_query_lowercases_and_trims() {
    assert_eq!(search_query("Hunter X Hunter  \n"), "hunter x hunter");
    assert_eq!(search_query("ÉTÉ One\t\n"), "ÉtÉ one");
}

#[test]
fn folder_location_appends_a_backslash() {
    assert_eq!(folder_location("C:\\Videos \r\n"), "C:\\Videos\\");
    assert_eq!(folder_location("\n"), "\\");
}

#[test]
fn single_episode_picks_by_number() {
    let eps = episodes(4);
    assert_eq!(numbers(&single_episode(&eps, 2).unwrap()), vec![2]);
    assert_eq!(numbers(&single_episode(&eps, 4).unwrap()), vec![4]);
    assert!(single_episode(&eps, 0).is_none());
    assert!(single_episode(&eps, 5).is_none());
}

#[test]
fn multiple_episode_reads_ranges() {
    let eps = episodes(5);
    assert_eq!(numbers(&multiple_episode(&eps, "2..4\n").unwrap()), vec![2, 3, 4]);
    assert_eq!(numbers(&multiple_episode(&eps, "5..5").unwrap()), vec![5]);
    assert_eq!(numbers(&multiple_episode(&eps, "3..2\n").unwrap()), Vec::<u16>::new());
    assert_eq!(numbers(&multiple_episode(&eps, "1..2..9").unwrap()), vec![1, 2]);
}

#[test]
fn multiple_episode_reads_lists() {
    let eps = episodes(5);
    assert_eq!(numbers(&multiple_episode(&eps, "1-3-5\n").unwrap()), vec![1, 3, 5]);
    assert_eq!(numbers(&multiple_episode(&eps, "4-4").unwrap()), vec![4, 4]);
    assert_eq!(numbers(&multiple_episode(&eps, "4\n").unwrap()), Vec::<u16>::new());
}

#[test]
fn multiple_episode_fails_where_reading_panics() {
    // law_selection_in_bounds on concrete values: nothing out of range is picked
    let eps = episodes(5);
    assert!(multiple_episode(&eps, "0..2\n").is_none());
    assert!(multiple_episode(&eps, "2..9\n").is_none());
    assert!(multiple_episode(&eps, "a..2\n").is_none());
    assert!(multiple_episode(&eps, "1-x\n").is_none());
    assert!(multiple_episode(&eps, "1-6\n").is_none());
    assert!(multiple_episode(&eps, "0-1\n").is_none());
    assert!(multiple_episode(&eps, "1..2-3\n").is_none());
    assert!(multiple_episode(&eps, "1..18446744073709551615").is_none());
}

#[test]
fn user_input_after_match_decides_from_the_match() {
    assert!(is_choice(user_input_after_match(Some(true), "4", 4), 4));
    assert!(is_invalid(user_input_after_match(Some(true), "5", 4)));
    assert!(is_invalid(user_input_after_match(Some(false), "4", 4)));
    assert!(is_invalid(user_input_after_match(Some(true), "0", 4)));
    assert!(user_input_after_match(Some(true), "", 4).is_none());
    assert!(user_input_after_match(None, "4", 4).is_none());
}

#[test]
fn chosen_anime_picks_by_number() {
    let list: Vec<Anime> = ["A", "B", "C"]
        .iter()
        .map(|t| {
            Anime::new(
                t.to_string(), String::new(), String::new(), 0, t.to_string(), 0, String::new(),
                String::new(), 0,
            )
        })
        .collect();
    assert_eq!(chosen_anime(&list, 1).unwrap().title(), "A");
    assert_eq!(chosen_anime(&list, 3).unwrap().title(), "C");
    assert!(chosen_anime(&list, 0).is_none());
    assert!(chosen_anime(&list, 4).is_none());
}
