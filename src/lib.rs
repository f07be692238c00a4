//! Conversion between binary rich-text message strings and an editable
//! bracketed markup, with byte-exact round trips.
pub mod text;
pub mod model;
pub mod schema;
pub mod titles;
pub mod binary;
pub mod container;
pub mod markup;
pub mod message;
pub mod laws;
