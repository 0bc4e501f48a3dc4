//! Content fingerprints and the detection of byte-identical files.

pub mod compute;
pub mod detect;
