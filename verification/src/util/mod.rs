//! Helpers for the text of the project file.
pub mod expand;
