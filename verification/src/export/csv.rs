//! A batch as a table of comma-separated values: one header row, then one row
//! for each record.

use crate::date::{format_with, formatted_as};
use crate::text::{chars_of, join, join_spec, opt_view, string_of, views};
use crate::types::{record_views, string_views, FileAnalysis, RecordView, Timestamp};
use vstd::prelude::*;

verus! {

/// The bytes that a `csv::Writer` with default settings writes for the rows
/// `rows`; `None` where it reports an error.
pub uninterp spec fn csv_encoding(rows: Seq<Seq<Seq<char>>>) -> Option<Seq<u8>>;

/// The views of a list of rows.
pub open spec fn row_views(rows: Seq<Vec<String>>) -> Seq<Seq<Seq<char>>> {
    rows.map_values(|row: Vec<String>| string_views(row@))
}

/// Encodes a table.
///
/// Trusted: hands the rows in order to `csv::Writer::write_record` of a writer
/// into memory and takes the bytes with `into_inner`. The contract only names
/// that result.
#[verifier::external_body]
pub(crate) fn encode_rows(rows: &Vec<Vec<String>>) -> (r: Option<Vec<u8>>)
    ensures
        match r {
            Some(bytes) => csv_encoding(row_views(rows@)) == Some(bytes@),
            None => csv_encoding(row_views(rows@)) is None,
        },
{
    let mut writer = csv::Writer::from_writer(Vec::new());
    for row in rows {
        writer.write_record(row).ok()?;
    }
    writer.into_inner().ok()
}

/// The names of the columns.
pub open spec fn header() -> Seq<Seq<char>> {
    seq![
        "original_name"@,
        "folder_name"@,
        "date_taken"@,
        "create_date"@,
        "modify_date"@,
        "artist"@,
        "title"@,
        "description"@,
        "keywords"@,
        "camera_model"@,
        "lens_model"@,
        "file_hash"@,
        "is_duplicate"@,
        "new_name"@,
    ]
}

/// A timestamp as a cell: date, space, time, and the fraction of the second
/// where there is one; empty without a timestamp.
pub open spec fn stamp_cell(stamp: Option<Timestamp>) -> Seq<char> {
    match stamp {
        Some(t) => formatted_as(t, "%Y-%m-%d %H:%M:%S%.f"@),
        None => Seq::<char>::empty(),
    }
}

/// An optional text as a cell: empty where it is absent.
pub open spec fn text_cell(text: Option<Seq<char>>) -> Seq<char> {
    match text {
        Some(t) => t,
        None => Seq::<char>::empty(),
    }
}

/// A flag as a cell.
pub open spec fn flag_cell(flag: bool) -> Seq<char> {
    if flag {
        "true"@
    } else {
        "false"@
    }
}

/// The row of a record: its cells in the order of the columns, the keywords
/// joined by commas.
pub open spec fn row_of(record: RecordView) -> Seq<Seq<char>> {
    seq![
        record.original_name,
        record.folder_name,
        stamp_cell(record.exif.date_taken),
        stamp_cell(record.exif.create_date),
        stamp_cell(record.exif.modify_date),
        text_cell(record.exif.artist),
        text_cell(record.exif.title),
        text_cell(record.exif.description),
        join_spec(record.exif.keywords, ","@),
        text_cell(record.exif.camera_model),
        text_cell(record.exif.lens_model),
        text_cell(record.file_hash),
        flag_cell(record.is_duplicate),
        text_cell(record.new_name),
    ]
}

/// The table of a batch: the header, then the rows of the records in order.
pub open spec fn table_of(records: Seq<RecordView>) -> Seq<Seq<Seq<char>>> {
    seq![header()] + records.map_values(|r: RecordView| row_of(r))
}

/// Writes the cell of a timestamp.
fn make_stamp_cell(stamp: &Option<Timestamp>) -> (r: String)
    ensures
        r@ == stamp_cell(*stamp),
{
    match stamp {
        Some(t) => {
            proof {
                reveal_strlit("%Y-%m-%d %H:%M:%S%.f");
            }
            format_with(t, "%Y-%m-%d %H:%M:%S%.f")
        },
        None => String::new(),
    }
}

/// Writes the cell of an optional text.
fn make_text_cell(text: &Option<String>) -> (r: String)
    ensures
        r@ == text_cell(opt_view(*text)),
{
    match text {
        Some(t) => t.clone(),
        None => String::new(),
    }
}

/// The header row.
pub fn csv_header() -> (r: Vec<String>)
    ensures
        string_views(r@) == header(),
{
    let r: Vec<String> = vec![
        "original_name".to_string(),
        "folder_name".to_string(),
        "date_taken".to_string(),
        "create_date".to_string(),
        "modify_date".to_string(),
        "artist".to_string(),
        "title".to_string(),
        "description".to_string(),
        "keywords".to_string(),
        "camera_model".to_string(),
        "lens_model".to_string(),
        "file_hash".to_string(),
        "is_duplicate".to_string(),
        "new_name".to_string(),
    ];
    assert(string_views(r@) =~= header());
    r
}

/// The row of one record.
pub fn csv_record(record: &FileAnalysis) -> (r: Vec<String>)
    ensures
        string_views(r@) == row_of(record@),
{
    let mut words: Vec<Vec<char>> = Vec::new();
    let mut i: usize = 0;
    while i < record.exif.keywords.len()
        invariant
            i <= record.exif.keywords@.len(),
            words@.len() == i,
            forall|j: int| 0 <= j < i ==> (#[trigger] words@[j])@ == record.exif.keywords@[j]@,
        decreases record.exif.keywords@.len() - i,
    {
        words.push(chars_of(record.exif.keywords[i].as_str()));
        i += 1;
    }
    assert(views(words@) =~= string_views(record.exif.keywords@));
    let keywords = string_of(&join(&words, &chars_of(",")));
    let flag: String = if record.is_duplicate {
        "true".to_string()
    } else {
        "false".to_string()
    };
    let r: Vec<String> = vec![
        record.original_name.clone(),
        record.folder_name.clone(),
        make_stamp_cell(&record.exif.date_taken),
        make_stamp_cell(&record.exif.create_date),
        make_stamp_cell(&record.exif.modify_date),
        make_text_cell(&record.exif.artist),
        make_text_cell(&record.exif.title),
        make_text_cell(&record.exif.description),
        keywords,
        make_text_cell(&record.exif.camera_model),
        make_text_cell(&record.exif.lens_model),
        make_text_cell(&record.file_hash),
        flag,
        make_text_cell(&record.new_name),
    ];
    assert(string_views(r@) =~= row_of(record@));
    r
}

/// The rows of the table of a batch.
pub fn csv_table(data: &Vec<FileAnalysis>) -> (r: Vec<Vec<String>>)
    ensures
        row_views(r@) == table_of(record_views(data@)),
{
    let mut rows: Vec<Vec<String>> = Vec::new();
    rows.push(csv_header());
    let mut i: usize = 0;
    while i < data.len()
        invariant
            i <= data@.len(),
            rows@.len() == i + 1,
            string_views(rows@[0]@) == header(),
            forall|j: int|
                0 <= j < i ==> string_views((#[trigger] rows@[j + 1])@) == row_of(data@[j]@),
        decreases data@.len() - i,
    {
        rows.push(csv_record(&data[i]));
        i += 1;
    }
    proof {
        let table = table_of(record_views(data@));
        let got = row_views(rows@);
        assert(got.len() == table.len());
        assert forall|j: int| 0 <= j < got.len() implies got[j] == table[j] by {
            if j > 0 {
                assert(got[j] == string_views(rows@[(j - 1) + 1]@));
                assert(table[j] == row_of(data@[j - 1]@));
            }
        }
        assert(got =~= table);
    }
    rows
}

/// Writes a batch as comma-separated values: the bytes of the table, or
/// `None` where the encoder reports an error.
pub fn export_to_csv(data: &Vec<FileAnalysis>) -> (r: Option<Vec<u8>>)
    ensures
        match r {
            Some(bytes) => csv_encoding(table_of(record_views(data@))) == Some(bytes@),
            None => csv_encoding(table_of(record_views(data@))) is None,
        },
{
    encode_rows(&csv_table(data))
}

} // verus!
