use std::path::PathBuf;
use timeshot_core::export::csv::{csv_header, csv_record, csv_table, export_to_csv};
use timeshot_core::types::{ExifData, FileAnalysis, Timestamp};

fn full() -> FileAnalysis {
    let mut exif = ExifData::empty();
    exif.date_taken = Timestamp::new(2023, 4, 5, 10, 20, 30);
    exif.create_date = Timestamp::from_parts(2023, 4, 5, 10, 20, 31, 500_000_000);
    exif.artist = Some("Ada, L.".to_string());
    exif.title = Some("A \"title\"".to_string());
    exif.keywords = vec!["sea".to_string(), "sky".to_string()];
    exif.camera_model = Some("X100".to_string());
    FileAnalysis {
        full_original_path: PathBuf::from("/secret/place/a.jpg"),
        original_name: "a.jpg".to_string(),
        folder_name: "place".to_string(),
        exif,
        new_name: Some("2023-04-05_102030_place_a.jpg".to_string()),
        file_hash: Some("00ff".to_string()),
        is_duplicate: true,
    }
}

fn bare() -> FileAnalysis {
    FileAnalysis {
        full_original_path: PathBuf::from("/secret/place/b.jpg"),
        original_name: "b.jpg".to_string(),
        folder_name: "place".to_string(),
        exif: ExifData::empty(),
        new_name: None,
        file_hash: None,
        is_duplicate: false,
    }
}

const HEADER: &str = "original_name,folder_name,date_taken,create_date,modify_date,artist,title,description,keywords,camera_model,lens_model,file_hash,is_duplicate,new_name";

#[test]
fn the_columns() {
    assert_eq!(csv_header().join(","), HEADER);
    assert_eq!(csv_header().len(), 14);
}

#[test]
fn the_row_of_a_full_record() {
    assert_eq!(
        csv_record(&full()),
        vec![
            "a.jpg",
            "place",
            "2023-04-05 10:20:30",
            "2023-04-05 10:20:31.500",
            "",
            "Ada, L.",
            "A \"title\"",
            "",
            "sea,sky",
            "X100",
            "",
            "00ff",
            "true",
            "2023-04-05_102030_place_a.jpg",
        ]
    );
}

#[test]
fn the_row_of_a_bare_record() {
    assert_eq!(
        csv_record(&bare()),
        vec!["b.jpg", "place", "", "", "", "", "", "", "", "", "", "", "false", ""]
    );
}

#[test]
fn the_table_starts_with_the_header() {
    let table = csv_table(&vec![full(), bare()]);
    assert_eq!(table.len(), 3);
    assert_eq!(table[0], csv_header());
    assert_eq!(table[1], csv_record(&full()));
    assert_eq!(table[2], csv_record(&bare()));
    assert_eq!(csv_table(&Vec::new()), vec![csv_header()]);
}

#[test]
fn the_encoded_table() {
    let bytes = export_to_csv(&vec![full(), bare()]).unwrap();
    let text = String::from_utf8(bytes).unwrap();
    let expected = format!(
        "{}\n{}\n{}\n",
        HEADER,
        "a.jpg,place,2023-04-05 10:20:30,2023-04-05 10:20:31.500,,\"Ada, L.\",\"A \"\"title\"\"\",,\"sea,sky\",X100,,00ff,true,2023-04-05_102030_place_a.jpg",
        "b.jpg,place,,,,,,,,,,,false,"
    );
    assert_eq!(text, expected);
    assert!(!text.contains("secret"));
}

#[test]
fn an_empty_batch_has_only_the_header() {
    let text = String::from_utf8(export_to_csv(&Vec::new()).unwrap()).unwrap();
    assert_eq!(text, format!("{}\n", HEADER));
}
