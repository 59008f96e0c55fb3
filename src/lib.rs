//! Directory scanning and classification: content-type inference, sorted
//! directory listings, note-vault detection and counting, and content digests.

pub mod text;
pub mod mime;
pub mod tree;
pub mod digest;
pub mod files;
pub mod listing;
pub mod discover;
pub mod nesting;
