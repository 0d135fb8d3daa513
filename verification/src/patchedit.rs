//! The editable patch description document.

pub mod description;
pub mod laws;
pub mod lines;
pub mod round_trip;
pub mod scan;
