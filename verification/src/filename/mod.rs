//! Dates that a file name already carries.

pub mod matcher;
pub mod parser;
