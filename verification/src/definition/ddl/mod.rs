pub mod error;
pub mod context;
pub mod coerce;
pub mod check;
pub mod view;
pub mod function;
pub mod unique;
pub mod primarykey;
pub mod index;
pub mod foreignkey;
pub mod sequence;
pub mod column;
pub mod constraint;
pub mod table;
pub mod schema;
