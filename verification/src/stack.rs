//! The state of a patch stack, and the document in which it is kept.

pub mod laws;
pub mod schema;
pub mod table;
