//! Reading the metadata record of a file from the tags of its container.

pub mod analyze;
pub mod reader;
