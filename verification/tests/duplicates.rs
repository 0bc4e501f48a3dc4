use std::path::PathBuf;
use timeshot_core::hash::detect::mark_duplicates;
use timeshot_core::types::{ExifData, FileAnalysis};

fn record(name: &str, hash: Option<&str>) -> FileAnalysis {
    FileAnalysis {
        full_original_path: PathBuf::from(name),
        original_name: name.to_string(),
        folder_name: "root".to_string(),
        exif: ExifData::empty(),
        new_name: Some(format!("new_{}", name)),
        file_hash: hash.map(|h| h.to_string()),
        is_duplicate: false,
    }
}

fn flags(files: &Vec<FileAnalysis>) -> Vec<bool> {
    files.iter().map(|f| f.is_duplicate).collect()
}

#[test]
fn every_member_of_a_group_is_flagged() {
    let mut files = vec![
        record("a", Some("h1")),
        record("b", Some("h2")),
        record("c", Some("h1")),
        record("d", Some("h3")),
        record("e", Some("h1")),
    ];
    mark_duplicates(&mut files);
    assert_eq!(flags(&files), vec![true, false, true, false, true]);
}

#[test]
fn sharing_a_digest_is_symmetric() {
    let mut files = vec![record("a", Some("same")), record("b", Some("same"))];
    mark_duplicates(&mut files);
    assert!(files[0].is_duplicate);
    assert!(files[1].is_duplicate);
}

#[test]
fn unique_digests_are_not_flagged() {
    let mut files = vec![record("a", Some("h1")), record("b", Some("h2")), record("c", Some("h3"))];
    mark_duplicates(&mut files);
    assert_eq!(flags(&files), vec![false, false, false]);
}

#[test]
fn records_without_digest_are_left_out() {
    let mut files = vec![record("a", None), record("b", None), record("c", Some("h"))];
    mark_duplicates(&mut files);
    assert_eq!(flags(&files), vec![false, false, false]);
}

#[test]
fn flags_depend_on_the_digests_alone() {
    let mut files = vec![record("a", Some("h1")), record("b", Some("h2")), record("c", None)];
    files[0].is_duplicate = true;
    files[2].is_duplicate = true;
    mark_duplicates(&mut files);
    assert_eq!(flags(&files), vec![false, false, false]);
}

#[test]
fn nothing_else_changes() {
    let mut files = vec![record("a", Some("h")), record("b", Some("h"))];
    mark_duplicates(&mut files);
    assert_eq!(files.len(), 2);
    assert_eq!(files[0].original_name, "a");
    assert_eq!(files[1].original_name, "b");
    assert_eq!(files[0].new_name, Some("new_a".to_string()));
    assert_eq!(files[1].file_hash, Some("h".to_string()));
    assert_eq!(files[1].full_original_path, PathBuf::from("b"));
}

#[test]
fn an_empty_batch_stays_empty() {
    let mut files: Vec<FileAnalysis> = Vec::new();
    mark_duplicates(&mut files);
    assert!(files.is_empty());
}
