//! Analysis of image collections: capture-date normalisation, collision-free
//! rename proposals and detection of byte-identical duplicates.

pub mod assoc;
pub mod date;
pub mod exif;
pub mod export;
pub mod file_data_item;
pub mod filename;
pub mod hash;
pub mod logic;
pub mod pipeline;
pub mod renamer;
pub mod text;
pub mod types;

pub use pipeline::analyze_multiple_directories;
