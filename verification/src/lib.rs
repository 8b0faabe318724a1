//! Extraction of entries and fields from a password vault tree: finding an
//! entry by title anywhere in the tree, choosing which of its fields to
//! export, and naming the files they are written to.

pub mod export;
pub mod extract;
pub mod text;
pub mod vault;

pub use text::sanitize_filename;
