//! The row of a record in a list of results: plain data, and the one thing a
//! user changes in it, the selection.

use crate::date::{display_form, display_text, written_for_display};
use crate::text::opt_view;
use crate::types::{FileAnalysis, Timestamp};
use std::path::PathBuf;
use vstd::prelude::*;

verus! {

/// One row of a list of results.
#[derive(Clone, Debug)]
pub struct FileDataItem {
    pub path: PathBuf,
    pub original_name: String,
    pub proposed_name: Option<String>,
    pub folder_name: String,
    pub date_taken: Option<String>,
    pub is_duplicate: bool,
    pub selected: bool,
    pub file_hash: Option<String>,
}

/// A capture date as a row shows it.
pub open spec fn shown_date(date: Option<Timestamp>) -> Option<Seq<char>> {
    match date {
        Some(stamp) => Some(display_form(stamp)),
        None => None,
    }
}

/// A copy of an optional text.
fn clone_text(text: &Option<String>) -> (r: Option<String>)
    ensures
        r == *text,
{
    match text {
        Some(t) => Some(t.clone()),
        None => None,
    }
}

impl FileDataItem {
    /// The row of a record; it is not selected.
    pub fn from_analysis(analysis: &FileAnalysis) -> (r: FileDataItem)
        ensures
            r.path == analysis.full_original_path,
            r.original_name == analysis.original_name,
            r.proposed_name == analysis.new_name,
            r.folder_name == analysis.folder_name,
            opt_view(r.date_taken) == shown_date(analysis.exif.date_taken),
            written_for_display(analysis.exif.date_taken),
            r.is_duplicate == analysis.is_duplicate,
            !r.selected,
            r.file_hash == analysis.file_hash,
    {
        let date_taken: Option<String> = match &analysis.exif.date_taken {
            Some(stamp) => Some(display_text(stamp)),
            None => None,
        };
        FileDataItem {
            path: analysis.full_original_path.clone(),
            original_name: analysis.original_name.clone(),
            proposed_name: clone_text(&analysis.new_name),
            folder_name: analysis.folder_name.clone(),
            date_taken,
            is_duplicate: analysis.is_duplicate,
            selected: false,
            file_hash: clone_text(&analysis.file_hash),
        }
    }

    /// The path of the file of this row.
    pub fn full_original_path(&self) -> (r: PathBuf)
        ensures
            r == self.path,
    {
        self.path.clone()
    }
}

} // verus!
