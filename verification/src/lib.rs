//! Schema definitions for PostgreSQL databases, written as YAML trees of typed nodes,
//! with the snapshot model they describe and the version history that records their changes.
pub mod text;
pub mod path;
pub mod definition;
pub mod snapshot;
pub mod history;
pub mod project;
pub mod introspection;
pub mod error;
pub mod util;
