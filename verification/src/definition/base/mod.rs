pub mod node;
pub mod error;
pub mod yaml;
