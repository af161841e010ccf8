//! Packed wire format for USFM token and finding sections: the frozen schema,
//! the container that frames sections, and checked readers and writers for it.
//!
//! Every reader here validates declared counts, offsets, lengths, widths, flags
//! and discriminants against the enclosing byte range before any view is built,
//! and every result is stated against a specification over byte sequences.

pub mod book;
pub mod error;
pub mod finding_section;
pub mod outside;
pub mod primitives;
pub mod publication;
pub mod container;
pub mod dto;
pub mod schema;
pub mod token_codec;
pub mod token_payload;
pub mod token_section;

pub use error::{DecodeError, EncodeError, LayoutRefusal};
