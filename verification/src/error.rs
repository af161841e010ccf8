//! Typed codec failures.
//!
//! Variant names and payloads are an append-only wire/API contract. Both enums
//! are expected-failure values: no panic and no string message as the carrier
//! of meaning. Callers match on variants.
//!
//! - [`DecodeError::Truncated`]: a validated in-range offset/length pair reaches
//!   past the end of the buffer or the enclosing section.
//! - [`DecodeError::OffsetOverflow`]: the offset/length arithmetic itself
//!   overflows, or a value exceeds this platform's addressable range.
//! - [`DecodeError::InvalidToc`]: a TOC-level rule is broken.
//! - [`DecodeError::InvalidSection`]: a header or directory contradicts itself
//!   or its TOC entry.
//! - [`DecodeError::UnsupportedFlags`]: a set flag bit not defined in v1.

use vstd::prelude::*;

use crate::book::BookId;
use crate::schema::SectionKind;

verus! {

/// Every way a container can fail to decode.
#[derive(Debug, Clone, Copy, PartialEq, Eq, Structural)]
pub enum DecodeError {
    Truncated,
    BadMagic,
    UnsupportedVersion { found: u16 },
    UnsupportedFlags { found: u32 },
    InvalidToc,
    InvalidSection,
    InvalidUtf8,
    InvalidDiscriminant,
    OffsetOverflow,
    TooManySids { found: u32 },
    ChecksumMismatch,
    CatalogMismatch,
    SourceLengthMismatch,
    SourceHashMismatch,
}

/// Why a section set cannot be laid out canonically. Each variant mirrors a
/// check the reader performs, so the writer never emits a container its own
/// reader would reject.
#[derive(Debug, Clone, Copy, PartialEq, Eq, Structural)]
pub enum LayoutRefusal {
    /// Two sections share a `(kind, book)` key.
    DuplicateSection { kind: SectionKind },
    /// A finding section names no token section with the same book and source
    /// hash.
    OrphanFindingSection,
    /// Two field entries share a field id.
    DuplicateField { field_id: u16 },
    /// A uniform-width field's byte length does not equal `count * width`, or a
    /// known field is declared with a width the schema does not give it.
    FieldExtentMismatch { field_id: u16 },
    /// A field the schema marks required for this section kind is absent.
    MissingRequiredField { field_id: u16 },
    /// Bytes offered back for reuse are not a readable section.
    CachedSectionUnreadable,
    /// Bytes offered back for reuse describe different content than claimed.
    CachedSectionMismatch,
    /// A section claiming positional token ids also carries the explicit id
    /// column or its dictionary.
    PositionalIdConflict { field_id: u16 },
    /// The section does not fit the `u32` offsets, lengths and counts of its
    /// own directory.
    SectionTooLarge,
    /// More field entries than the section header's `u16` count can name.
    TooManyFields,
    /// More sections than the container header's `u32` count can name.
    TooManySections,
}

/// Every way an encode is refused. Encoders refuse; they never truncate.
#[derive(Debug, Clone, Copy, PartialEq, Eq, Structural)]
pub enum EncodeError {
    /// More distinct SIDs in one book than the `u16` index column can name.
    TooManySids { book: BookId, found: u32 },
    /// A finding payload or token shape this schema version cannot express.
    UnrepresentablePayload { book: BookId, code: u8 },
    /// More distinct marker descriptors than the `u16` index column can name.
    TooManyDescriptors { book: BookId, found: u32 },
    /// A token whose recorded span does not name its own text in the source.
    UnboundSpan { book: BookId, token_idx: u32 },
    /// A section set this writer refuses to lay out.
    InvalidSectionLayout { book: BookId, reason: LayoutRefusal },
    /// A fix that edits nothing.
    EmptyFix { book: BookId, code: u8 },
}

} // verus!
