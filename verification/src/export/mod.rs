//! The tabular form of a batch.

pub mod csv;
