//! The version history of a project: versions kept as files and versions applied to a
//! database.
pub mod version;
pub mod fsh;
pub mod dbh;
pub mod snapshot;
