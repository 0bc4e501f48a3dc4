//! Proposing new file names.

pub mod generator;
