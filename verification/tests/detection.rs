use timeshot_core::filename::matcher::{
    filename_matches_exif_date, is_date_in_filename, is_date_in_filename_with,
    name_shows_bounded_digits, name_shows_digits, name_starts_with, Strictness,
};
use timeshot_core::filename::parser::{
    classify, detect_date_pattern_in_filename, join_groups, try_pattern, DateDetection,
};
use timeshot_core::types::Timestamp;

fn april() -> Option<Timestamp> {
    Timestamp::new(2023, 4, 5, 10, 20, 30)
}

fn digits_found(name: &str) -> Option<String> {
    match detect_date_pattern_in_filename(name) {
        DateDetection::FoundButBadFormat(digits) => Some(digits),
        _ => None,
    }
}

fn date_found(name: &str) -> Option<Timestamp> {
    match detect_date_pattern_in_filename(name) {
        DateDetection::FoundValidFormat(stamp) => Some(stamp),
        _ => None,
    }
}

#[test]
fn canonical_names_are_valid() {
    assert_eq!(date_found("2023-04-05_102030_root_IMG_0001.jpg"), april());
    assert_eq!(date_found("2023-04-05_102030_root_a.jpg"), april());
    assert_eq!(date_found("2023-04-05_102030.jpg"), april());
    assert_eq!(date_found("2023-04-05_102030"), april());
    assert_eq!(date_found("copy of 2023-04-05_102030_02_root_a.jpg"), april());
    assert_eq!(date_found("1999-12-31_235959_x.png"), Timestamp::new(1999, 12, 31, 23, 59, 59));
    assert_eq!(digits_found("2023-04-05_102030_root_a.jpg"), None);
}

#[test]
fn the_canonical_form_is_looked_for_first() {
    assert_eq!(date_found("20220101000000 2023-04-05_102030.jpg"), april());
    assert_eq!(date_found("2022_01_01_000000 2023-04-05_102030.jpg"), april());
}

#[test]
fn a_canonical_form_that_is_no_date_is_not_valid() {
    assert_eq!(date_found("2023-13-05_102030.jpg"), None);
    assert_eq!(date_found("2023-02-30_102030.jpg"), None);
    assert_eq!(date_found("2023-04-05_250000.jpg"), None);
    assert!(matches!(
        detect_date_pattern_in_filename("2023-13-05_102030.jpg"),
        DateDetection::NotFound
    ));
}

#[test]
fn compact_dates_are_found() {
    assert_eq!(digits_found("IMG_20230405_102030.jpg"), Some("20230405102030".to_string()));
    assert_eq!(digits_found("20230405102030.jpg"), Some("20230405102030".to_string()));
    assert_eq!(digits_found("2023-04-05-102030_root_a.jpg"), Some("20230405102030".to_string()));
    assert_eq!(digits_found("shot 2023_04_05-102030 final.png"), Some("20230405102030".to_string()));
    assert_eq!(date_found("IMG_20230405_102030.jpg"), None);
    assert_eq!(date_found("2023_04_05_102030.jpg"), None);
}

#[test]
fn names_without_a_date_and_time_give_nothing() {
    assert!(matches!(detect_date_pattern_in_filename("holiday.jpg"), DateDetection::NotFound));
    assert!(matches!(detect_date_pattern_in_filename(""), DateDetection::NotFound));
    assert!(matches!(detect_date_pattern_in_filename("IMG_0001.jpg"), DateDetection::NotFound));
    assert!(matches!(detect_date_pattern_in_filename("2023-04-05.jpg"), DateDetection::NotFound));
    assert!(matches!(detect_date_pattern_in_filename("20231345102030.jpg"), DateDetection::NotFound));
}

#[test]
fn exactly_one_classification_holds() {
    for name in
        ["2023-04-05_102030_a.jpg", "IMG_20230405_102030.jpg", "holiday.jpg", "2023-04-05.jpg", ""]
    {
        let found = detect_date_pattern_in_filename(name);
        let kinds = [
            matches!(found, DateDetection::NotFound),
            matches!(found, DateDetection::FoundValidFormat(_)),
            matches!(found, DateDetection::FoundButBadFormat(_)),
        ];
        assert_eq!(kinds.iter().filter(|k| **k).count(), 1);
    }
}

#[test]
fn a_match_is_classified_by_its_format() {
    let stamp = april().unwrap();
    let name = "x 2023-04-05_102030 y";
    assert!(matches!(
        classify(name, "2023-04-05_102030".to_string(), Some(stamp), true),
        Some(DateDetection::FoundValidFormat(t)) if t == stamp
    ));
    assert!(matches!(
        classify("a2023b0405c102030", "20230405102030".to_string(), Some(stamp), false),
        Some(DateDetection::FoundButBadFormat(digits)) if digits == "20230405102030"
    ));
    assert!(classify(name, "2023-04-05_102030".to_string(), None, true).is_none());
    assert!(classify(name, "20230405102030".to_string(), None, false).is_none());
}

#[test]
fn only_what_the_name_carries_is_reported() {
    let stamp = april().unwrap();
    let valid = |name: &str, text: &str| {
        classify(name, text.to_string(), Some(stamp), true).is_some()
    };
    assert!(valid("2023-04-05_102030", "2023-04-05_102030"));
    assert!(!valid("2023-04-05 102030", "2023-04-05_102030"));
    assert!(!valid("x 2023-04-05_10203", "2023-04-05_102030"));
    assert!(!valid("2023-04-05_102031", "2023-04-05_102031"));
    assert!(!valid("2023-4-5_102030", "2023-4-5_102030"));
    assert!(!valid("20230405102030", "20230405102030"));
    let bad = |name: &str, text: &str| {
        classify(name, text.to_string(), Some(stamp), false).is_some()
    };
    assert!(bad("20230405102030.jpg", "20230405102030"));
    assert!(bad("2023_04_05-102030.jpg", "20230405102030"));
    assert!(!bad("2023_04_05-10203.jpg", "20230405102030"));
    assert!(!bad("03020150403202.jpg", "20230405102030"));
    assert!(!bad("2023-04-05_102030.jpg", "2023-04-05_102030"));
    assert!(!bad("20230405102030.jpg", ""));
    assert!(!bad("", "20230405102030"));
}

#[test]
fn the_canonical_format_gives_a_valid_date() {
    let found = try_pattern(
        "x 2023-04-05_102030 y",
        "(\\d{4}-\\d{2}-\\d{2}_\\d{6})",
        "%Y-%m-%d_%H%M%S",
    );
    assert!(matches!(found, Some(DateDetection::FoundValidFormat(t)) if Some(t) == april()));
    let found = try_pattern("x 20230405102030 y", "(\\d{14})", "%Y%m%d%H%M%S");
    assert!(matches!(found, Some(DateDetection::FoundButBadFormat(d)) if d == "20230405102030"));
    assert!(try_pattern("x 2023 y", "(\\d{14})", "%Y%m%d%H%M%S").is_none());
    assert!(try_pattern("x 99999999999999 y", "(\\d{14})", "%Y%m%d%H%M%S").is_none());
    assert!(try_pattern("x 20230405102030 y", "(\\d{14}", "%Y%m%d%H%M%S").is_none());
}

#[test]
fn groups_are_joined_without_the_whole_match() {
    let groups = vec![
        Some("2023-04".to_string()),
        Some("2023".to_string()),
        None,
        Some("04".to_string()),
    ];
    assert_eq!(join_groups(&groups), "202304");
    assert_eq!(join_groups(&vec![Some("whole".to_string())]), "");
    assert_eq!(join_groups(&vec![None, None]), "");
    assert_eq!(join_groups(&Vec::new()), "");
}

#[test]
fn the_loose_test_looks_at_digits_alone() {
    assert!(is_date_in_filename("IMG_20230405_1.jpg", &april()));
    assert!(is_date_in_filename("2023-04-05 beach.jpg", &april()));
    assert!(is_date_in_filename("2023.04.05.jpg", &april()));
    assert!(is_date_in_filename("x2y0z2-3_0405.jpg", &april()));
    assert!(is_date_in_filename("120230405.jpg", &april()));
    assert!(!is_date_in_filename("2023-04-06.jpg", &april()));
    assert!(!is_date_in_filename("05-04-2023.jpg", &april()));
    assert!(!is_date_in_filename("beach.jpg", &april()));
    assert!(!is_date_in_filename("", &april()));
}

#[test]
fn without_a_date_nothing_is_shown() {
    assert!(!is_date_in_filename("2023-04-05.jpg", &None));
    assert!(!filename_matches_exif_date("2023-04-05_102030.jpg", &None));
}

#[test]
fn the_strict_test_asks_for_the_canonical_prefix() {
    assert!(filename_matches_exif_date("2023-04-05_102030.jpg", &april()));
    assert!(filename_matches_exif_date("2023-04-05_102030_root_a.jpg", &april()));
    assert!(filename_matches_exif_date("2023-04-05_102030", &april()));
    assert!(!filename_matches_exif_date("x2023-04-05_102030.jpg", &april()));
    assert!(!filename_matches_exif_date("20230405_102030.jpg", &april()));
    assert!(!filename_matches_exif_date("2023-04-05_10203", &april()));
    assert!(!filename_matches_exif_date("", &april()));
}

#[test]
fn digits_and_prefixes() {
    assert!(name_shows_digits("a1b2c3", "12"));
    assert!(name_shows_digits("a1b2c3", "2-3"));
    assert!(name_shows_digits("a1b2c3", "none"));
    assert!(!name_shows_digits("a1b2c3", "13"));
    assert!(!name_shows_digits("abc", "1"));
    assert!(name_starts_with("abc", ""));
    assert!(name_starts_with("abc", "ab"));
    assert!(name_starts_with("abc", "abc"));
    assert!(!name_starts_with("abc", "abcd"));
    assert!(!name_starts_with("abc", "b"));
}

#[test]
fn the_loose_test_can_respect_runs_of_digits() {
    let bounded = Strictness::Bounded;
    let anywhere = Strictness::Anywhere;
    assert!(is_date_in_filename_with("IMG_2023-04-05_x.jpg", &april(), bounded));
    assert!(is_date_in_filename_with("2023-04-05", &april(), bounded));
    assert!(is_date_in_filename_with("20230405.jpg", &april(), bounded));
    assert!(is_date_in_filename_with("x2023y04z05", &april(), bounded));
    assert!(is_date_in_filename_with("7_2023.04.05_9.jpg", &april(), bounded));
    assert!(!is_date_in_filename_with("120230405.jpg", &april(), bounded));
    assert!(is_date_in_filename_with("120230405.jpg", &april(), anywhere));
    assert!(!is_date_in_filename_with("20230405102030.jpg", &april(), bounded));
    assert!(is_date_in_filename_with("20230405102030.jpg", &april(), anywhere));
    assert!(!is_date_in_filename_with("2023-04-051.jpg", &april(), bounded));
    assert!(!is_date_in_filename_with("2023-04.jpg", &april(), bounded));
    assert!(!is_date_in_filename_with("", &april(), bounded));
    assert!(!is_date_in_filename_with("2023-04-05", &None, bounded));
    assert!(!is_date_in_filename_with("2023-04-05", &None, anywhere));
}

#[test]
fn bounded_digits() {
    assert!(name_shows_bounded_digits("a12b", "1-2"));
    assert!(name_shows_bounded_digits("a1-2b", "12"));
    assert!(name_shows_bounded_digits("12", "12"));
    assert!(name_shows_bounded_digits("9 12 9", "12"));
    assert!(!name_shows_bounded_digits("a123b", "12"));
    assert!(!name_shows_bounded_digits("a012b", "12"));
    assert!(!name_shows_bounded_digits("a1b", "none"));
    assert!(!name_shows_bounded_digits("ab", "none"));
    assert!(!name_shows_bounded_digits("", ""));
}
