use std::path::PathBuf;
use timeshot_core::analyze_multiple_directories;
use timeshot_core::hash::compute::compute_file_hash;
use timeshot_core::pipeline::{depth_limit, FoundFile, RootScan, Scan, WalkEvent};
use timeshot_core::types::{TagContext, TagField, TagId, TagValue, Timestamp};

fn date_tag(text: &str) -> TagField {
    TagField {
        tag: TagId { context: TagContext::Exif, number: 0x9003 },
        ifd_num: 0,
        value: TagValue::Ascii(vec![text.as_bytes().to_vec()]),
        value_debug: String::new(),
    }
}

fn found(folder: &str, name: &str, tags: Vec<TagField>, content: Option<&[u8]>) -> FoundFile {
    FoundFile {
        path: PathBuf::from(format!("/data/{}/{}", folder, name)),
        original_name: name.to_string(),
        parent_name: Some(folder.to_string()),
        tags,
        file_hash: content.map(compute_file_hash),
    }
}

fn root(path: &str, events: Vec<WalkEvent>) -> RootScan {
    RootScan { path: path.to_string(), is_dir: true, events }
}

fn missing(path: &str) -> RootScan {
    RootScan { path: path.to_string(), is_dir: false, events: Vec::new() }
}

#[test]
fn two_files_with_the_same_date() {
    let tags = vec![date_tag("2023:04:05 10:20:30")];
    let roots = vec![root(
        "/data/root",
        vec![
            WalkEvent::File(found("root", "IMG_0001.jpg", tags.clone(), Some(b"one"))),
            WalkEvent::File(found("root", "IMG_0002.jpg", tags.clone(), Some(b"two"))),
        ],
    )];
    let output = analyze_multiple_directories(&roots).unwrap();
    assert_eq!(output.records.len(), 2);
    assert_eq!(
        output.records[0].new_name,
        Some("2023-04-05_102030_root_IMG_0001.jpg".to_string())
    );
    assert_eq!(
        output.records[1].new_name,
        Some("2023-04-05_102030_02_root_IMG_0002.jpg".to_string())
    );
    assert_eq!(output.records[0].folder_name, "root");
    assert_eq!(output.records[0].original_name, "IMG_0001.jpg");
    assert_eq!(output.records[0].full_original_path, PathBuf::from("/data/root/IMG_0001.jpg"));
    assert_eq!(output.records[0].exif.date_taken, Timestamp::new(2023, 4, 5, 10, 20, 30));
    assert!(!output.records[0].is_duplicate);
    assert!(!output.records[1].is_duplicate);
    assert!(output.warnings.is_empty());
}

#[test]
fn identical_content_under_different_names() {
    let roots = vec![root(
        "/data/root",
        vec![
            WalkEvent::File(found("root", "a.jpg", Vec::new(), Some(b"same bytes"))),
            WalkEvent::File(found("root", "b.jpg", Vec::new(), Some(b"other bytes"))),
            WalkEvent::File(found("root", "c.jpg", Vec::new(), Some(b"same bytes"))),
        ],
    )];
    let output = analyze_multiple_directories(&roots).unwrap();
    assert!(output.records[0].is_duplicate);
    assert!(!output.records[1].is_duplicate);
    assert!(output.records[2].is_duplicate);
    assert_eq!(output.records[0].file_hash, output.records[2].file_hash);
}

#[test]
fn duplicates_are_found_across_roots() {
    let roots = vec![
        root("/data/one", vec![WalkEvent::File(found("one", "a.jpg", Vec::new(), Some(b"x")))]),
        root("/data/two", vec![WalkEvent::File(found("two", "b.jpg", Vec::new(), Some(b"x")))]),
    ];
    let output = analyze_multiple_directories(&roots).unwrap();
    assert!(output.records[0].is_duplicate);
    assert!(output.records[1].is_duplicate);
    assert_eq!(output.records[0].new_name, Some("unknown_one_a.jpg".to_string()));
    assert_eq!(output.records[1].new_name, Some("unknown_02_two_b.jpg".to_string()));
}

#[test]
fn a_file_with_an_unreadable_container() {
    let roots = vec![root(
        "/data/root",
        vec![
            WalkEvent::File(found("root", "broken.jpg", Vec::new(), Some(b"content"))),
            WalkEvent::File(found("root", "copy.jpg", Vec::new(), Some(b"content"))),
        ],
    )];
    let output = analyze_multiple_directories(&roots).unwrap();
    let record = &output.records[0];
    assert_eq!(record.exif.date_taken, None);
    assert_eq!(record.exif.create_date, None);
    assert_eq!(record.exif.modify_date, None);
    assert_eq!(record.exif.artist, None);
    assert_eq!(record.exif.title, None);
    assert_eq!(record.exif.description, None);
    assert!(record.exif.keywords.is_empty());
    assert_eq!(record.exif.camera_model, None);
    assert_eq!(record.exif.lens_model, None);
    assert_eq!(record.exif.other_fields.len(), 0);
    assert_eq!(record.file_hash, Some(compute_file_hash(b"content")));
    assert!(record.is_duplicate);
    assert_eq!(record.new_name, Some("unknown_root_broken.jpg".to_string()));
}

#[test]
fn a_file_that_cannot_be_opened() {
    let roots = vec![root(
        "/data/root",
        vec![
            WalkEvent::File(found("root", "locked.jpg", Vec::new(), None)),
            WalkEvent::File(found("root", "locked2.jpg", Vec::new(), None)),
        ],
    )];
    let output = analyze_multiple_directories(&roots).unwrap();
    assert_eq!(output.records.len(), 2);
    assert_eq!(output.records[0].file_hash, None);
    assert!(!output.records[0].is_duplicate);
    assert!(!output.records[1].is_duplicate);
}

#[test]
fn one_valid_root_and_one_missing_path() {
    let roots = vec![
        root("/data/root", vec![WalkEvent::File(found("root", "a.jpg", Vec::new(), Some(b"a")))]),
        missing("/nowhere/at/all"),
    ];
    let output = analyze_multiple_directories(&roots).unwrap();
    assert_eq!(output.records.len(), 1);
    assert_eq!(output.records[0].original_name, "a.jpg");
    assert_eq!(output.warnings.len(), 1);
    assert!(output.warnings[0].contains("/nowhere/at/all"));
    assert_eq!(
        output.warnings[0],
        "Chemin fourni n'est pas un r\u{e9}pertoire valide et sera ignor\u{e9} : /nowhere/at/all"
    );
}

#[test]
fn no_usable_root_is_an_error() {
    let roots = vec![missing("/nowhere"), missing("/nothing")];
    let error = analyze_multiple_directories(&roots).unwrap_err();
    assert_eq!(error, "Aucun chemin de dossier valide fourni.");
}

#[test]
fn no_roots_give_an_empty_batch() {
    let output = analyze_multiple_directories(&Vec::new()).unwrap();
    assert!(output.records.is_empty());
    assert!(output.warnings.is_empty());
}

#[test]
fn entries_that_cannot_be_read_give_warnings() {
    let roots = vec![
        missing("/first"),
        root(
            "/data/root",
            vec![
                WalkEvent::Failure("permission denied".to_string()),
                WalkEvent::File(found("root", "a.jpg", Vec::new(), Some(b"a"))),
                WalkEvent::Failure("broken link".to_string()),
            ],
        ),
    ];
    let output = analyze_multiple_directories(&roots).unwrap();
    assert_eq!(output.records.len(), 1);
    assert_eq!(
        output.warnings,
        vec![
            "Chemin fourni n'est pas un r\u{e9}pertoire valide et sera ignor\u{e9} : /first".to_string(),
            "Erreur lecture entr\u{e9}e dans /data/root: permission denied".to_string(),
            "Erreur lecture entr\u{e9}e dans /data/root: broken link".to_string(),
        ]
    );
}

#[test]
fn events_of_a_root_that_is_no_directory_are_not_read() {
    let mut odd = missing("/odd");
    odd.events.push(WalkEvent::File(found("odd", "a.jpg", Vec::new(), Some(b"a"))));
    let roots = vec![odd, root("/ok", Vec::new())];
    let output = analyze_multiple_directories(&roots).unwrap();
    assert!(output.records.is_empty());
    assert_eq!(output.warnings.len(), 1);
}

#[test]
fn folder_names() {
    let mut top = found("x", "a.jpg", Vec::new(), None);
    top.parent_name = None;
    let roots = vec![root(
        "/",
        vec![
            WalkEvent::File(top),
            WalkEvent::File(found("My Summer Trip", "b c.jpg", Vec::new(), None)),
        ],
    )];
    let output = analyze_multiple_directories(&roots).unwrap();
    assert_eq!(output.records[0].folder_name, "racine");
    assert_eq!(output.records[0].new_name, Some("unknown_racine_a.jpg".to_string()));
    assert_eq!(output.records[1].folder_name, "My_Summer_Trip");
    assert_eq!(output.records[1].new_name, Some("unknown_02_My_Summer_Trip_b_c.jpg".to_string()));
}

#[test]
fn a_scan_step_by_step() {
    assert!(Scan::begin(&vec![false, false]).is_err());
    assert!(Scan::begin(&Vec::new()).is_ok());
    let mut scan = Scan::begin(&vec![false, true]).unwrap();
    scan.skip_root("/gone");
    scan.add_file(&found("root", "a.jpg", vec![date_tag("2023:04:05 10:20:30")], Some(b"1")));
    scan.add_failure("/data/root", "unreadable");
    scan.add_file(&found("root", "b.jpg", vec![date_tag("2023-04-05 10:20:30")], Some(b"1")));
    let output = scan.finish();
    assert_eq!(output.records.len(), 2);
    assert_eq!(output.warnings.len(), 2);
    assert_eq!(output.records[1].new_name, Some("2023-04-05_102030_02_root_b.jpg".to_string()));
    assert!(output.records[0].is_duplicate);
    assert!(output.records[1].is_duplicate);
}

#[test]
fn each_batch_counts_anew() {
    let roots = vec![root(
        "/data/root",
        vec![WalkEvent::File(found("root", "a.jpg", Vec::new(), None))],
    )];
    let first = analyze_multiple_directories(&roots).unwrap();
    let second = analyze_multiple_directories(&roots).unwrap();
    assert_eq!(first.records[0].new_name, Some("unknown_root_a.jpg".to_string()));
    assert_eq!(second.records[0].new_name, first.records[0].new_name);
}

#[test]
fn depth_of_the_walk() {
    assert_eq!(depth_limit(false), Some(1));
    assert_eq!(depth_limit(true), None);
}
