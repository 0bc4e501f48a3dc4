//! The metadata of every file of a directory.

use crate::exif::reader::{metadata_of, read_exif_data};
use crate::types::{ExifData, TagField};
use std::path::PathBuf;
use vstd::prelude::*;

verus! {

/// Reads the metadata record of each file from its tags: one pair of path and
/// record for each file, in the order of the files.
pub fn analyze_directory(files: &Vec<(PathBuf, Vec<TagField>)>) -> (r: Vec<(PathBuf, ExifData)>)
    ensures
        r@.len() == files@.len(),
        forall|i: int|
            0 <= i < files@.len() ==> {
                &&& (#[trigger] r@[i]).0 == files@[i].0
                &&& r@[i].1@ == metadata_of(files@[i].1@)
                &&& r@[i].1.other_fields.wf()
            },
{
    let mut results: Vec<(PathBuf, ExifData)> = Vec::new();
    let mut i: usize = 0;
    while i < files.len()
        invariant
            i <= files@.len(),
            results@.len() == i,
            forall|j: int|
                0 <= j < i ==> {
                    &&& (#[trigger] results@[j]).0 == files@[j].0
                    &&& results@[j].1@ == metadata_of(files@[j].1@)
                    &&& results@[j].1.other_fields.wf()
                },
        decreases files@.len() - i,
    {
        let data = read_exif_data(&files[i].1);
        results.push((files[i].0.clone(), data));
        i += 1;
    }
    results
}

} // verus!
