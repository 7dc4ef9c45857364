use ani_fr::anime::{dedup_consecutive, normalize_name, sort_seasons, Media, Medias};
use ani_fr::menu::{
    episode_labels, has_lang, history_label, history_season_index, is_last_season, mal_menu_label,
    resume_index, seasons_in_lang, sort_texts, back_from, Screen,
};
use ani_fr::sorting::stable_order;

fn strings(v: &[&str]) -> Vec<String> {
    v.iter().map(|s| s.to_string()).collect()
}

fn media(name: &str, lang: &str, season: i8, kind: &str) -> Media {
    Media::new(name, lang, season, kind, strings(&["a", "b"]))
}

#[test]
fn dedup_drops_consecutive_repeats_only() {
    let out = dedup_consecutive(strings(&["e1", "e1", "e2", "e1", "e1", "e3"]));
    assert_eq!(out, strings(&["e1", "e2", "e1", "e3"]));
    assert_eq!(dedup_consecutive(Vec::new()), Vec::<String>::new());
}

#[test]
fn dedup_is_idempotent() {
    let once = dedup_consecutive(strings(&["x", "x", "y", "y", "x"]));
    let twice = dedup_consecutive(once.clone());
    assert_eq!(once, twice);
}

#[test]
fn media_new_dedups_episodes() {
    let m = Media::new("Naruto", "vf", 1, "anime", strings(&["l1", "l1", "l2"]));
    assert_eq!(m.episodes, strings(&["l1", "l2"]));
    assert_eq!(m.name, "Naruto");
    assert_eq!(m.season, 1);
}

#[test]
fn media_display_parts() {
    let film = media("A", "vf", 2, "film");
    assert_eq!(film.display_parts(), (String::new(), "film".to_string()));
    let oav = media("A", "vf", 2, "oav");
    assert_eq!(oav.display_parts(), (String::new(), "OAV".to_string()));
    let season = media("A", "vf", 3, "anime");
    assert_eq!(season.display_parts(), ("saison ".to_string(), "3".to_string()));
    let negative = media("A", "vf", -1, "anime");
    assert_eq!(negative.display_parts().1, "-1");
}

#[test]
fn normalize_keeps_letters_digits_and_single_spaces() {
    assert_eq!(normalize_name("Naruto: Shippuden!"), "naruto shippuden");
    assert_eq!(normalize_name("  One   PIECE 2  "), "one piece 2");
    assert_eq!(normalize_name("Élève"), "élève");
    assert_eq!(normalize_name("!!!"), "");
}

#[test]
fn get_name_lists_each_anime_once() {
    let all = Medias {
        media: vec![
            media("Naruto", "vf", 1, "anime"),
            media("naruto!", "vostfr", 1, "anime"),
            media("Bleach", "vf", 1, "anime"),
            media("Naruto", "vf", 2, "anime"),
        ],
    };
    assert_eq!(all.get_name(), strings(&["Naruto", "Bleach"]));
}

#[test]
fn get_seasons_from_str_matches_normalized_names() {
    let all = Medias {
        media: vec![
            media("Naruto", "vf", 1, "anime"),
            media("Bleach", "vf", 1, "anime"),
            media("NARUTO!", "vostfr", 2, "anime"),
        ],
    };
    let found = all.get_seasons_from_str("naruto");
    assert_eq!(found.len(), 2);
    assert_eq!(found[0].season, 1);
    assert_eq!(found[1].lang, "vostfr");
    assert!(all.get_seasons_from_str("one piece").is_empty());
}

#[test]
fn seasons_sorted_before_films() {
    let seasons = vec![
        media("A", "vf", 1, "film"),
        media("A", "vf", 2, "anime"),
        media("A", "vf", 1, "anime"),
        media("A", "vf", 2, "oav"),
    ];
    let sorted = sort_seasons(&seasons);
    let order: Vec<(i8, String)> = sorted.iter().map(|m| (m.season, m.media_type.clone())).collect();
    assert_eq!(
        order,
        vec![
            (1, "anime".to_string()),
            (2, "anime".to_string()),
            (2, "oav".to_string()),
            (1, "film".to_string()),
        ]
    );
}

#[test]
fn stable_order_keeps_ties_in_place() {
    assert_eq!(stable_order(&vec![3, 1, 2, 1]), vec![1, 3, 2, 0]);
    assert_eq!(stable_order(&Vec::new()), Vec::<usize>::new());
}

#[test]
fn menu_labels() {
    assert_eq!(mal_menu_label(true), ">>> MAL connecté <<<");
    assert_eq!(mal_menu_label(false), ">>> Connexion MAL <<<");
    assert_eq!(history_label("One Piece", 12, "03:05"), "↪ One Piece - Ép.12 (03:05)");
    assert_eq!(episode_labels(3), strings(&["Épisode 1", "Épisode 2", "Épisode 3"]));
    assert!(episode_labels(0).is_empty());
}

#[test]
fn resume_index_clamps_to_last_episode() {
    assert_eq!(resume_index(Some(3), 10), 2);
    assert_eq!(resume_index(Some(12), 10), 9);
    assert_eq!(resume_index(None, 10), 0);
}

#[test]
fn language_filters() {
    let seasons = vec![
        media("A", "vostfr", 1, "anime"),
        media("A", "vf", 1, "anime"),
        media("A", "vf", 2, "anime"),
    ];
    assert!(has_lang(&seasons, "vf"));
    assert!(!has_lang(&seasons, "VF"));
    let vf = seasons_in_lang(&seasons, "VF");
    assert_eq!(vf.len(), 2);
    assert_eq!(vf[1].season, 2);
    assert!(seasons_in_lang(&seasons, "en").is_empty());
}

#[test]
fn history_season_choice() {
    let seasons = vec![
        media("A", "vf", 1, "anime"),
        media("A", "vf", 2, "anime"),
        media("A", "vf", 2, "film"),
    ];
    assert_eq!(history_season_index(&seasons, Some(2)), 1);
    assert_eq!(history_season_index(&seasons, Some(7)), 0);
    assert_eq!(history_season_index(&seasons, None), 0);
    assert!(is_last_season(&seasons, 2));
    assert!(!is_last_season(&seasons, 1));
}

#[test]
fn names_sorted_like_strings() {
    let names = strings(&["b", "a", "B", "ab", "", "é", "a"]);
    let mut expected = names.clone();
    expected.sort();
    assert_eq!(sort_texts(names), expected);
    assert_eq!(sort_texts(Vec::new()), Vec::<String>::new());
}

#[test]
fn escape_goes_back_to_a_menu_with_a_choice() {
    assert!(back_from(Screen::Main, true, true, false).is_none());
    assert!(matches!(back_from(Screen::Language, true, true, false), Some(Screen::Main)));
    assert!(matches!(back_from(Screen::Season, true, true, false), Some(Screen::Language)));
    assert!(matches!(back_from(Screen::Season, true, false, false), Some(Screen::Main)));
    assert!(matches!(back_from(Screen::Action, true, true, false), Some(Screen::Season)));
    assert!(matches!(back_from(Screen::Action, false, false, false), Some(Screen::Main)));
    assert!(matches!(back_from(Screen::Action, true, true, true), Some(Screen::Language)));
    assert!(matches!(back_from(Screen::Action, true, false, true), Some(Screen::Main)));
    assert!(matches!(back_from(Screen::Episodes, false, false, true), Some(Screen::Action)));
}
