use std::path::PathBuf;
use timeshot_core::renamer::generator::{
    compose_name, compose_with_suffix, generate_filename, make_date_key, make_suffix, NameCounter,
};
use timeshot_core::filename::parser::{detect_date_pattern_in_filename, DateDetection};
use timeshot_core::types::{ExifData, FileAnalysis, Timestamp};

fn record(folder: &str, name: &str, date: Option<Timestamp>) -> FileAnalysis {
    let mut exif = ExifData::empty();
    exif.date_taken = date;
    FileAnalysis {
        full_original_path: PathBuf::from(format!("/{}/{}", folder, name)),
        original_name: name.to_string(),
        folder_name: folder.to_string(),
        exif,
        new_name: None,
        file_hash: None,
        is_duplicate: false,
    }
}

fn april() -> Option<Timestamp> {
    Timestamp::new(2023, 4, 5, 10, 20, 30)
}

#[test]
fn first_and_second_use_of_a_date() {
    let mut counter = NameCounter::new();
    let first = generate_filename(&record("root", "IMG_0001.jpg", april()), &mut counter);
    let second = generate_filename(&record("root", "IMG_0002.jpg", april()), &mut counter);
    assert_eq!(first, "2023-04-05_102030_root_IMG_0001.jpg");
    assert_eq!(second, "2023-04-05_102030_02_root_IMG_0002.jpg");
}

#[test]
fn the_suffix_counts_uses_of_the_date_alone() {
    let mut counter = NameCounter::new();
    let a = generate_filename(&record("a", "x.jpg", april()), &mut counter);
    let b = generate_filename(&record("b", "y.jpg", april()), &mut counter);
    let other = generate_filename(
        &record("a", "z.jpg", Timestamp::new(2023, 4, 5, 10, 20, 31)),
        &mut counter,
    );
    let c = generate_filename(&record("c", "x.jpg", april()), &mut counter);
    assert_eq!(a, "2023-04-05_102030_a_x.jpg");
    assert_eq!(b, "2023-04-05_102030_02_b_y.jpg");
    assert_eq!(other, "2023-04-05_102031_a_z.jpg");
    assert_eq!(c, "2023-04-05_102030_03_c_x.jpg");
    assert_eq!(counter.count_text("2023-04-05_102030"), "3");
    assert_eq!(counter.count_text("2023-04-05_102031"), "1");
    assert_eq!(counter.count_text("unknown"), "0");
}

#[test]
fn files_without_a_date_share_the_unknown_key() {
    let mut counter = NameCounter::new();
    let a = generate_filename(&record("scans", "a.png", None), &mut counter);
    let b = generate_filename(&record("scans", "b.png", None), &mut counter);
    assert_eq!(a, "unknown_scans_a.png");
    assert_eq!(b, "unknown_02_scans_b.png");
    assert_eq!(make_date_key(&None), "unknown");
    assert_eq!(make_date_key(&april()), "2023-04-05_102030");
}

#[test]
fn spaces_become_underscores() {
    let mut counter = NameCounter::new();
    let name = generate_filename(&record("My Photos", "first day.jpg", april()), &mut counter);
    assert_eq!(name, "2023-04-05_102030_My_Photos_first_day.jpg");
}

#[test]
fn the_suffix_has_at_least_two_digits() {
    assert_eq!(compose_name("d", 0, "f", "n"), "d_f_n");
    assert_eq!(compose_name("d", 1, "f", "n"), "d_02_f_n");
    assert_eq!(compose_name("d", 8, "f", "n"), "d_09_f_n");
    assert_eq!(compose_name("d", 9, "f", "n"), "d_10_f_n");
    assert_eq!(compose_name("d", 98, "f", "n"), "d_99_f_n");
    assert_eq!(compose_name("d", 99, "f", "n"), "d_100_f_n");
    assert_eq!(compose_name("d", 1233, "f", "n"), "d_1234_f_n");
    assert_eq!(
        compose_name("d", usize::MAX, "f", "n"),
        format!("d_{}_f_n", usize::MAX as u128 + 1)
    );
}

#[test]
fn names_of_one_date_differ() {
    let mut counter = NameCounter::new();
    let mut names: Vec<String> = Vec::new();
    for i in 0..120 {
        let file = format!("IMG_{}.jpg", i % 3);
        names.push(generate_filename(&record("root", &file, april()), &mut counter));
    }
    for i in 0..names.len() {
        for j in 0..i {
            assert_ne!(names[i], names[j]);
        }
    }
}

#[test]
fn a_first_use_can_read_like_a_later_use() {
    let mut counter = NameCounter::new();
    let first = generate_filename(&record("02", "root_IMG.jpg", april()), &mut counter);
    let second = generate_filename(&record("root", "IMG.jpg", april()), &mut counter);
    assert_eq!(first, "2023-04-05_102030_02_root_IMG.jpg");
    assert_eq!(second, first);
}

#[test]
fn taking_returns_the_new_count() {
    let digits = |v: Vec<char>| -> String { v.into_iter().collect() };
    let mut counter = NameCounter::new();
    assert_eq!(digits(counter.take("k")), "1");
    assert_eq!(digits(counter.take("k")), "2");
    assert_eq!(digits(counter.take("other")), "1");
    for expected in 3..=12 {
        assert_eq!(digits(counter.take("k")), expected.to_string());
    }
    assert_eq!(counter.count_text("k"), "12");
    assert_eq!(counter.count_text("other"), "1");
    assert_eq!(counter.count_text("none"), "0");
}

#[test]
fn suffixes_of_counts() {
    let suffix = |count: &str| -> String {
        make_suffix(&count.chars().collect()).into_iter().collect()
    };
    assert_eq!(suffix("1"), "");
    assert_eq!(suffix("2"), "_02");
    assert_eq!(suffix("9"), "_09");
    assert_eq!(suffix("10"), "_10");
    assert_eq!(suffix("99"), "_99");
    assert_eq!(suffix("100"), "_100");
    assert_eq!(suffix("18446744073709551616"), "_18446744073709551616");
    let parts: Vec<char> = "_02".chars().collect();
    assert_eq!(compose_with_suffix("d", &parts, "my f", "a b"), "d_02_my_f_a_b");
    assert_eq!(compose_with_suffix("d", &Vec::new(), "f", "n"), "d_f_n");
}

#[test]
fn a_hundred_and_more_uses() {
    let mut counter = NameCounter::new();
    let mut last = String::new();
    for _ in 0..1001 {
        last = generate_filename(&record("root", "a.jpg", april()), &mut counter);
    }
    assert_eq!(last, "2023-04-05_102030_1001_root_a.jpg");
}

#[test]
fn a_proposed_name_carries_its_date_in_the_valid_form() {
    let mut counter = NameCounter::new();
    for _ in 0..3 {
        let name = generate_filename(&record("root", "IMG_0001.jpg", april()), &mut counter);
        assert!(matches!(
            detect_date_pattern_in_filename(&name),
            DateDetection::FoundValidFormat(stamp) if Some(stamp) == april()
        ));
    }
}

#[test]
fn the_date_part_has_four_and_two_digits() {
    let early = Timestamp::new(5, 1, 2, 3, 4, 5);
    assert_eq!(make_date_key(&early), "0005-01-02_030405");
    let late = Timestamp::new(9999, 12, 31, 23, 59, 59);
    assert_eq!(make_date_key(&late), "9999-12-31_235959");
    let zero = Timestamp::new(0, 1, 1, 0, 0, 0);
    assert_eq!(make_date_key(&zero), "0000-01-01_000000");
    let leap = Timestamp::from_parts(2015, 6, 30, 23, 59, 59, 1_000_000_000);
    assert_eq!(make_date_key(&leap), "2015-06-30_235960");
}
