//! Persistence and exchange layer of a patch-queue tool.
//!
//! Two things are kept outside the repository and must be read back as they
//! were written: the description of a patch, which a person edits as a
//! text document, and the state of the patch stack, which is kept as a
//! versioned document.
//!
//! - [`patchedit`] writes a description as a document and reads an edited
//!   document back: [`patchedit::scan`] is the pass over the lines,
//!   [`patchedit::description`] the description and its document, and
//!   [`patchedit::laws`] and [`patchedit::round_trip`] state what holds of
//!   every document.
//! - [`stack`] reads and writes the document of a stack state:
//!   [`stack::schema`] holds the document and the checks, [`stack::table`]
//!   the patches in the order of their names, [`stack::laws`] what holds of
//!   both directions.
//! - [`patchname`], [`oid`] and [`signature`] are the values that both
//!   speak of; [`text`] and [`encoding`] are the characters and bytes
//!   below them; [`error`] is what goes wrong.
//!
//! Everything here works on bytes and plain values. Dates are written and
//! read by chrono, object identifiers and signatures are made by git2; both
//! stand behind small functions whose contracts say what is taken from
//! them.

pub mod encoding;
pub mod error;
pub mod oid;
pub mod patchedit;
pub mod patchname;
pub mod signature;
pub mod stack;
pub mod text;
