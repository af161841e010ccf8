//! Frozen v1 wire schema constants.
//!
//! Stable integer assignments use declaration order, ascend from zero, and are
//! append-only. Removed values are tombstoned rather than reused: a wire integer
//! that changed meaning would silently reinterpret every encoded container.
//!
//! v1 is little-endian only. There is no endianness flag and no byte-order
//! heuristic: a big-endian producer fails the magic/version checks.

use vstd::prelude::*;

pub mod finding_field;
pub mod finding_flag;
pub mod params;
pub mod token_field;

pub use params::{param_contract, param_contracts, ParamContract, ParamSpec, ParamVariant};

verus! {

/// The only container/section layout version this build encodes or decodes.
pub const FORMAT_VERSION: u16 = 1;

/// The only TOC-entry section version this build encodes or decodes.
pub const SECTION_VERSION: u16 = 1;

/// `rules_version` value required of token sections.
pub const TOKEN_SECTION_RULES_VERSION: u16 = 0;

/// Current finding-catalog and message-parameter contract revision.
pub const FINDING_SECTION_RULES_VERSION: u16 = 1;

/// Container header size, also written into the header's own length field.
pub const CONTAINER_HEADER_LEN: usize = 48;

/// TOC entry size.
pub const TOC_ENTRY_LEN: usize = 32;

/// Section header size, excluding the field directory that follows it.
pub const SECTION_HEADER_LEN: usize = 64;

/// Field directory entry size.
pub const DIRECTORY_ENTRY_LEN: usize = 16;

/// Top-level sections start at 16-byte-aligned absolute offsets.
pub const SECTION_ALIGN: u64 = 16;

/// Byte offset of the container integrity checksum inside the container header.
pub const CONTAINER_CHECKSUM_OFFSET: usize = 24;

/// Byte offset of the section integrity checksum inside a section header.
pub const SECTION_CHECKSUM_OFFSET: usize = 40;

/// A zero integrity checksum means "omitted", not "hash of zeros".
pub const CHECKSUM_OMITTED: u64 = 0;

/// Container-header reserved range, which must read as zero.
pub const CONTAINER_RESERVED_OFFSET: usize = 40;
pub const CONTAINER_RESERVED_LEN: usize = 8;

/// No container-level flag is defined in v1.
pub const CONTAINER_FLAGS_KNOWN: u32 = 0;

/// No TOC-entry flag is defined in v1.
pub const TOC_FLAGS_KNOWN: u16 = 0;

/// Section header flag bit 0: ids are positional (`{book}-{index}`), so the
/// explicit id column and its dictionary are omitted.
pub const SECTION_FLAG_POSITIONAL_IDS: u8 = 1;

/// Token sections may only set the positional-ids bit; finding sections define
/// no flag in v1.
pub const TOKEN_SECTION_FLAGS_KNOWN: u8 = 1;
pub const FINDING_SECTION_FLAGS_KNOWN: u8 = 0;

/// Field directory entry flag bit 0: the field is required for a correct
/// reading of the section.
pub const FIELD_FLAG_REQUIRED: u8 = 1;

/// Field directory entry flags defined in v1.
pub const FIELD_FLAGS_KNOWN: u8 = 1;

/// `element_width` of a field whose payload is not a uniform array.
pub const ELEMENT_WIDTH_VARIABLE: u8 = 0;

/// `sid_index` / `marker_descriptor_index` "none" sentinel.
pub const INDEX_NONE_U16: u16 = 0xffff;

/// `token_idx` "anchor-only finding" and `patch_id` "no patch" sentinel.
pub const INDEX_NONE_U32: u32 = 0xffff_ffff;

/// Distinct SIDs a single book may reference: the `u16` index column minus its
/// sentinel.
pub const MAX_DISTINCT_SIDS: u32 = 0xffff;

/// Fixed record widths of the mixed and sparse token payloads.
pub const DESCRIPTOR_RECORD_LEN: usize = 8;
pub const NUMBER_RECORD_LEN: usize = 16;
pub const BOOK_CODE_RECORD_LEN: usize = 16;
pub const ATTRIBUTE_ROW_LEN: usize = 24;
pub const ATTRIBUTE_ENTRY_LEN: usize = 20;

/// Marker descriptor flag bit 0: the occurrence was written nested.
pub const DESCRIPTOR_FLAG_NESTED: u8 = 1;
pub const DESCRIPTOR_FLAGS_KNOWN: u8 = 1;

/// Number record flag bit 0: the range end is meaningful.
pub const NUMBER_FLAG_HAS_END: u8 = 1;
pub const NUMBER_FLAGS_KNOWN: u8 = 1;

/// Book-code record flag bit 0: the code is a valid book code.
pub const BOOK_CODE_FLAG_VALID: u8 = 1;

/// Attribute entry flag bit 0: default-attribute shorthand.
pub const ATTRIBUTE_FLAG_DEFAULT: u8 = 1;

/// Sentinel offset meaning "this span is absent".
pub const SPAN_ABSENT: u32 = 0xffff_ffff;

/// Marker descriptors a single section may hold.
pub const MAX_MARKER_DESCRIPTORS: u32 = 0xffff;

/// Packed SID record width and final-byte bit allocation.
pub const PACKED_SID_LEN: usize = 8;
pub const SID_FIDELITY_BIT: u8 = 0x80;
pub const SID_DELTA_MASK: u8 = 0x7f;

/// Container magic, ASCII `uson`.
pub open spec fn container_magic() -> Seq<u8> {
    seq![117u8, 115u8, 111u8, 110u8]
}

/// Section magic, ASCII `usos`.
pub open spec fn section_magic() -> Seq<u8> {
    seq![117u8, 115u8, 111u8, 115u8]
}

/// Container magic bytes.
pub fn container_magic_bytes() -> (magic: [u8; 4])
    ensures
        magic@ == container_magic(),
{
    let magic = [117u8, 115u8, 111u8, 110u8];
    proof {
        assert(magic@ =~= container_magic());
    }
    magic
}

/// Section magic bytes.
pub fn section_magic_bytes() -> (magic: [u8; 4])
    ensures
        magic@ == section_magic(),
{
    let magic = [117u8, 115u8, 111u8, 115u8];
    proof {
        assert(magic@ =~= section_magic());
    }
    magic
}

/// Stable token-row discriminant.
#[derive(Debug, Clone, Copy, PartialEq, Eq, Structural)]
pub enum TokenKindTag {
    Newline,
    OptBreak,
    Marker,
    EndMarker,
    Milestone,
    MilestoneEnd,
    BookCode,
    Number,
    Text,
}

impl TokenKindTag {
    /// Frozen wire value of this tag.
    pub open spec fn spec_as_u8(self) -> u8 {
        match self {
            TokenKindTag::Newline => 0,
            TokenKindTag::OptBreak => 1,
            TokenKindTag::Marker => 2,
            TokenKindTag::EndMarker => 3,
            TokenKindTag::Milestone => 4,
            TokenKindTag::MilestoneEnd => 5,
            TokenKindTag::BookCode => 6,
            TokenKindTag::Number => 7,
            TokenKindTag::Text => 8,
        }
    }

    /// The tag with wire value `value`, if any.
    pub open spec fn spec_from_u8(value: u8) -> Option<TokenKindTag> {
        match value {
            0 => Some(TokenKindTag::Newline),
            1 => Some(TokenKindTag::OptBreak),
            2 => Some(TokenKindTag::Marker),
            3 => Some(TokenKindTag::EndMarker),
            4 => Some(TokenKindTag::Milestone),
            5 => Some(TokenKindTag::MilestoneEnd),
            6 => Some(TokenKindTag::BookCode),
            7 => Some(TokenKindTag::Number),
            8 => Some(TokenKindTag::Text),
            _ => None,
        }
    }

    pub fn from_u8(value: u8) -> (tag: Option<TokenKindTag>)
        ensures
            tag == Self::spec_from_u8(value),
    {
        match value {
            0 => Some(TokenKindTag::Newline),
            1 => Some(TokenKindTag::OptBreak),
            2 => Some(TokenKindTag::Marker),
            3 => Some(TokenKindTag::EndMarker),
            4 => Some(TokenKindTag::Milestone),
            5 => Some(TokenKindTag::MilestoneEnd),
            6 => Some(TokenKindTag::BookCode),
            7 => Some(TokenKindTag::Number),
            8 => Some(TokenKindTag::Text),
            _ => None,
        }
    }

    pub fn as_u8(self) -> (value: u8)
        ensures
            value == self.spec_as_u8(),
    {
        match self {
            TokenKindTag::Newline => 0,
            TokenKindTag::OptBreak => 1,
            TokenKindTag::Marker => 2,
            TokenKindTag::EndMarker => 3,
            TokenKindTag::Milestone => 4,
            TokenKindTag::MilestoneEnd => 5,
            TokenKindTag::BookCode => 6,
            TokenKindTag::Number => 7,
            TokenKindTag::Text => 8,
        }
    }
}

/// Stable number-payload discriminant.
#[derive(Debug, Clone, Copy, PartialEq, Eq, Structural)]
pub enum NumberRangeKindTag {
    Single,
    Range,
    Sequence,
    SequenceWithRange,
}

impl NumberRangeKindTag {
    /// Frozen wire value of this tag.
    pub open spec fn spec_as_u8(self) -> u8 {
        match self {
            NumberRangeKindTag::Single => 0,
            NumberRangeKindTag::Range => 1,
            NumberRangeKindTag::Sequence => 2,
            NumberRangeKindTag::SequenceWithRange => 3,
        }
    }

    /// The tag with wire value `value`, if any.
    pub open spec fn spec_from_u8(value: u8) -> Option<NumberRangeKindTag> {
        match value {
            0 => Some(NumberRangeKindTag::Single),
            1 => Some(NumberRangeKindTag::Range),
            2 => Some(NumberRangeKindTag::Sequence),
            3 => Some(NumberRangeKindTag::SequenceWithRange),
            _ => None,
        }
    }

    pub fn from_u8(value: u8) -> (tag: Option<NumberRangeKindTag>)
        ensures
            tag == Self::spec_from_u8(value),
    {
        match value {
            0 => Some(NumberRangeKindTag::Single),
            1 => Some(NumberRangeKindTag::Range),
            2 => Some(NumberRangeKindTag::Sequence),
            3 => Some(NumberRangeKindTag::SequenceWithRange),
            _ => None,
        }
    }

    pub fn as_u8(self) -> (value: u8)
        ensures
            value == self.spec_as_u8(),
    {
        match self {
            NumberRangeKindTag::Single => 0,
            NumberRangeKindTag::Range => 1,
            NumberRangeKindTag::Sequence => 2,
            NumberRangeKindTag::SequenceWithRange => 3,
        }
    }
}

/// One known field-directory entry. `element_width = None` means the field's
/// own codec owns its mixed record shape.
#[derive(Debug, Clone, Copy, PartialEq, Eq, Structural)]
pub struct FieldSpec {
    pub id: u16,
    pub element_width: Option<u8>,
    pub required: bool,
}

/// Top-level section kind (TOC entry offset 0, section header offset 8).
#[derive(Debug, Clone, Copy, PartialEq, Eq, Hash, PartialOrd, Ord, Structural)]
pub enum SectionKind {
    Token,
    Finding,
}

impl SectionKind {
    /// Frozen wire value of this kind.
    pub open spec fn spec_as_u8(self) -> u8 {
        match self {
            SectionKind::Token => 0,
            SectionKind::Finding => 1,
        }
    }

    /// The kind with wire value `value`, if any.
    pub open spec fn spec_from_u8(value: u8) -> Option<SectionKind> {
        match value {
            0 => Some(SectionKind::Token),
            1 => Some(SectionKind::Finding),
            _ => None,
        }
    }

    /// Returns `None` for any value outside the frozen table.
    pub fn from_u8(value: u8) -> (kind: Option<SectionKind>)
        ensures
            kind == Self::spec_from_u8(value),
    {
        match value {
            0 => Some(SectionKind::Token),
            1 => Some(SectionKind::Finding),
            _ => None,
        }
    }

    pub fn as_u8(self) -> (value: u8)
        ensures
            value == self.spec_as_u8(),
    {
        match self {
            SectionKind::Token => 0,
            SectionKind::Finding => 1,
        }
    }

    /// Section-header flag bits this kind may set.
    pub open spec fn spec_known_section_flags(self) -> u8 {
        match self {
            SectionKind::Token => TOKEN_SECTION_FLAGS_KNOWN,
            SectionKind::Finding => FINDING_SECTION_FLAGS_KNOWN,
        }
    }

    /// Section-header flag bits this kind may set.
    pub fn known_section_flags(self) -> (flags: u8)
        ensures
            flags == self.spec_known_section_flags(),
    {
        match self {
            SectionKind::Token => TOKEN_SECTION_FLAGS_KNOWN,
            SectionKind::Finding => FINDING_SECTION_FLAGS_KNOWN,
        }
    }

    /// The schema table of this kind: field ids, fixed widths where the record
    /// shape is uniform, and requiredness, in ascending id order.
    pub open spec fn spec_field_table(self) -> Seq<FieldSpec> {
        match self {
            SectionKind::Token => token_field::table(),
            SectionKind::Finding => finding_field::table(),
        }
    }

    /// The schema entry for field `id` of this kind, if the schema knows it.
    pub open spec fn spec_field(self, id: u16) -> Option<FieldSpec> {
        if (id as int) < self.spec_field_table().len() {
            Some(self.spec_field_table()[id as int])
        } else {
            None
        }
    }

    /// The schema table of this kind.
    pub fn field_table(self) -> (table: Vec<FieldSpec>)
        ensures
            table@ == self.spec_field_table(),
    {
        match self {
            SectionKind::Token => token_field::table_vec(),
            SectionKind::Finding => finding_field::table_vec(),
        }
    }

    /// The schema entry for field `id` of this kind, if the schema knows it.
    pub fn field(self, id: u16) -> (spec: Option<FieldSpec>)
        ensures
            spec == self.spec_field(id),
    {
        let table = self.field_table();
        if (id as usize) < table.len() {
            Some(table[id as usize])
        } else {
            None
        }
    }
}

/// Every table is dense: entry `i` describes field id `i`.
pub proof fn lemma_field_tables_dense(kind: SectionKind, i: int)
    requires
        0 <= i < kind.spec_field_table().len(),
    ensures
        kind.spec_field_table()[i].id == i,
{
}

/// Stable lint-code discriminant, frozen in declaration order starting at 0.
/// The kebab string, not the `u8`, is the canonical sort key.
#[derive(Debug, Clone, Copy, PartialEq, Eq, Structural)]
pub enum LintCodeTag {
    MissingIdMarker,
    DuplicateIdMarker,
    IdMarkerNotAtFileStart,
    EmptyParagraph,
    MissingChapterNumber,
    MissingVerseNumber,
    VerseIsEmpty,
    UnknownToken,
    UnknownMarker,
    UnknownCloseMarker,
    ContentBeforeFirstChapter,
    VerseOutsideExplicitParagraph,
    NoteSubmarkerOutsideNote,
    MetadataOutsideTarget,
    MarkerNotValidInContext,
    MissingMilestoneSelfClose,
    StrayCloseMarker,
    MisnestedCloseMarker,
    ImplicitlyClosedMarker,
    UnclosedMarker,
    DuplicateChapterNumber,
    DuplicateVerseNumber,
    InvalidNumberRange,
    NumberRangeNotPrecededByMarkerExpectingNumber,
    MissingWhitespaceBeforeMarker,
    MissingHorizontalWhitespaceAfterMarkerName,
    MissingTagEndDelimiterAfterMarker,
    MissingContentSpaceAfterCloseMarker,
    VerseInSectionOrOtherParagraph,
    ContentAfterBlankMarker,
    InvalidBookCode,
    BookCodeNotUppercase,
}

/// Number of lint codes in the frozen table.
pub const LINT_CODE_COUNT: u8 = 32;

impl LintCodeTag {
    /// The tag with wire value `value`, if any.
    pub open spec fn spec_from_u8(value: u8) -> Option<LintCodeTag> {
        match value {
        0 => Some(LintCodeTag::MissingIdMarker),
        1 => Some(LintCodeTag::DuplicateIdMarker),
        2 => Some(LintCodeTag::IdMarkerNotAtFileStart),
        3 => Some(LintCodeTag::EmptyParagraph),
        4 => Some(LintCodeTag::MissingChapterNumber),
        5 => Some(LintCodeTag::MissingVerseNumber),
        6 => Some(LintCodeTag::VerseIsEmpty),
        7 => Some(LintCodeTag::UnknownToken),
        8 => Some(LintCodeTag::UnknownMarker),
        9 => Some(LintCodeTag::UnknownCloseMarker),
        10 => Some(LintCodeTag::ContentBeforeFirstChapter),
        11 => Some(LintCodeTag::VerseOutsideExplicitParagraph),
        12 => Some(LintCodeTag::NoteSubmarkerOutsideNote),
        13 => Some(LintCodeTag::MetadataOutsideTarget),
        14 => Some(LintCodeTag::MarkerNotValidInContext),
        15 => Some(LintCodeTag::MissingMilestoneSelfClose),
        16 => Some(LintCodeTag::StrayCloseMarker),
        17 => Some(LintCodeTag::MisnestedCloseMarker),
        18 => Some(LintCodeTag::ImplicitlyClosedMarker),
        19 => Some(LintCodeTag::UnclosedMarker),
        20 => Some(LintCodeTag::DuplicateChapterNumber),
        21 => Some(LintCodeTag::DuplicateVerseNumber),
        22 => Some(LintCodeTag::InvalidNumberRange),
        23 => Some(LintCodeTag::NumberRangeNotPrecededByMarkerExpectingNumber),
        24 => Some(LintCodeTag::MissingWhitespaceBeforeMarker),
        25 => Some(LintCodeTag::MissingHorizontalWhitespaceAfterMarkerName),
        26 => Some(LintCodeTag::MissingTagEndDelimiterAfterMarker),
        27 => Some(LintCodeTag::MissingContentSpaceAfterCloseMarker),
        28 => Some(LintCodeTag::VerseInSectionOrOtherParagraph),
        29 => Some(LintCodeTag::ContentAfterBlankMarker),
        30 => Some(LintCodeTag::InvalidBookCode),
        31 => Some(LintCodeTag::BookCodeNotUppercase),
            _ => None,
        }
    }

    /// Frozen wire value of this tag.
    pub open spec fn spec_as_u8(self) -> u8 {
        match self {
            LintCodeTag::MissingIdMarker => 0,
            LintCodeTag::DuplicateIdMarker => 1,
            LintCodeTag::IdMarkerNotAtFileStart => 2,
            LintCodeTag::EmptyParagraph => 3,
            LintCodeTag::MissingChapterNumber => 4,
            LintCodeTag::MissingVerseNumber => 5,
            LintCodeTag::VerseIsEmpty => 6,
            LintCodeTag::UnknownToken => 7,
            LintCodeTag::UnknownMarker => 8,
            LintCodeTag::UnknownCloseMarker => 9,
            LintCodeTag::ContentBeforeFirstChapter => 10,
            LintCodeTag::VerseOutsideExplicitParagraph => 11,
            LintCodeTag::NoteSubmarkerOutsideNote => 12,
            LintCodeTag::MetadataOutsideTarget => 13,
            LintCodeTag::MarkerNotValidInContext => 14,
            LintCodeTag::MissingMilestoneSelfClose => 15,
            LintCodeTag::StrayCloseMarker => 16,
            LintCodeTag::MisnestedCloseMarker => 17,
            LintCodeTag::ImplicitlyClosedMarker => 18,
            LintCodeTag::UnclosedMarker => 19,
            LintCodeTag::DuplicateChapterNumber => 20,
            LintCodeTag::DuplicateVerseNumber => 21,
            LintCodeTag::InvalidNumberRange => 22,
            LintCodeTag::NumberRangeNotPrecededByMarkerExpectingNumber => 23,
            LintCodeTag::MissingWhitespaceBeforeMarker => 24,
            LintCodeTag::MissingHorizontalWhitespaceAfterMarkerName => 25,
            LintCodeTag::MissingTagEndDelimiterAfterMarker => 26,
            LintCodeTag::MissingContentSpaceAfterCloseMarker => 27,
            LintCodeTag::VerseInSectionOrOtherParagraph => 28,
            LintCodeTag::ContentAfterBlankMarker => 29,
            LintCodeTag::InvalidBookCode => 30,
            LintCodeTag::BookCodeNotUppercase => 31,
        }
    }

    /// The kebab-case wire/JS code string of this tag.
    pub open spec fn spec_kebab(self) -> Seq<char> {
        match self {
            LintCodeTag::MissingIdMarker => "missing-id-marker"@,
            LintCodeTag::DuplicateIdMarker => "duplicate-id-marker"@,
            LintCodeTag::IdMarkerNotAtFileStart => "id-marker-not-at-file-start"@,
            LintCodeTag::EmptyParagraph => "empty-paragraph"@,
            LintCodeTag::MissingChapterNumber => "missing-chapter-number"@,
            LintCodeTag::MissingVerseNumber => "missing-verse-number"@,
            LintCodeTag::VerseIsEmpty => "verse-is-empty"@,
            LintCodeTag::UnknownToken => "unknown-token"@,
            LintCodeTag::UnknownMarker => "unknown-marker"@,
            LintCodeTag::UnknownCloseMarker => "unknown-close-marker"@,
            LintCodeTag::ContentBeforeFirstChapter => "content-before-first-chapter"@,
            LintCodeTag::VerseOutsideExplicitParagraph => "verse-outside-explicit-paragraph"@,
            LintCodeTag::NoteSubmarkerOutsideNote => "note-submarker-outside-note"@,
            LintCodeTag::MetadataOutsideTarget => "metadata-outside-target"@,
            LintCodeTag::MarkerNotValidInContext => "marker-not-valid-in-context"@,
            LintCodeTag::MissingMilestoneSelfClose => "missing-milestone-self-close"@,
            LintCodeTag::StrayCloseMarker => "stray-close-marker"@,
            LintCodeTag::MisnestedCloseMarker => "misnested-close-marker"@,
            LintCodeTag::ImplicitlyClosedMarker => "implicitly-closed-marker"@,
            LintCodeTag::UnclosedMarker => "unclosed-marker"@,
            LintCodeTag::DuplicateChapterNumber => "duplicate-chapter-number"@,
            LintCodeTag::DuplicateVerseNumber => "duplicate-verse-number"@,
            LintCodeTag::InvalidNumberRange => "invalid-number-range"@,
            LintCodeTag::NumberRangeNotPrecededByMarkerExpectingNumber => "number-range-not-preceded-by-marker-expecting-number"@,
            LintCodeTag::MissingWhitespaceBeforeMarker => "missing-whitespace-before-marker"@,
            LintCodeTag::MissingHorizontalWhitespaceAfterMarkerName => "missing-horizontal-whitespace-after-marker-name"@,
            LintCodeTag::MissingTagEndDelimiterAfterMarker => "missing-tag-end-delimiter-after-marker"@,
            LintCodeTag::MissingContentSpaceAfterCloseMarker => "missing-content-space-after-close-marker"@,
            LintCodeTag::VerseInSectionOrOtherParagraph => "verse-in-section-or-other-paragraph"@,
            LintCodeTag::ContentAfterBlankMarker => "content-after-blank-marker"@,
            LintCodeTag::InvalidBookCode => "invalid-book-code"@,
            LintCodeTag::BookCodeNotUppercase => "book-code-not-uppercase"@,
        }
    }

    pub fn from_u8(value: u8) -> (tag: Option<LintCodeTag>)
        ensures
            tag == Self::spec_from_u8(value),
    {
        match value {
            0 => Some(LintCodeTag::MissingIdMarker),
            1 => Some(LintCodeTag::DuplicateIdMarker),
            2 => Some(LintCodeTag::IdMarkerNotAtFileStart),
            3 => Some(LintCodeTag::EmptyParagraph),
            4 => Some(LintCodeTag::MissingChapterNumber),
            5 => Some(LintCodeTag::MissingVerseNumber),
            6 => Some(LintCodeTag::VerseIsEmpty),
            7 => Some(LintCodeTag::UnknownToken),
            8 => Some(LintCodeTag::UnknownMarker),
            9 => Some(LintCodeTag::UnknownCloseMarker),
            10 => Some(LintCodeTag::ContentBeforeFirstChapter),
            11 => Some(LintCodeTag::VerseOutsideExplicitParagraph),
            12 => Some(LintCodeTag::NoteSubmarkerOutsideNote),
            13 => Some(LintCodeTag::MetadataOutsideTarget),
            14 => Some(LintCodeTag::MarkerNotValidInContext),
            15 => Some(LintCodeTag::MissingMilestoneSelfClose),
            16 => Some(LintCodeTag::StrayCloseMarker),
            17 => Some(LintCodeTag::MisnestedCloseMarker),
            18 => Some(LintCodeTag::ImplicitlyClosedMarker),
            19 => Some(LintCodeTag::UnclosedMarker),
            20 => Some(LintCodeTag::DuplicateChapterNumber),
            21 => Some(LintCodeTag::DuplicateVerseNumber),
            22 => Some(LintCodeTag::InvalidNumberRange),
            23 => Some(LintCodeTag::NumberRangeNotPrecededByMarkerExpectingNumber),
            24 => Some(LintCodeTag::MissingWhitespaceBeforeMarker),
            25 => Some(LintCodeTag::MissingHorizontalWhitespaceAfterMarkerName),
            26 => Some(LintCodeTag::MissingTagEndDelimiterAfterMarker),
            27 => Some(LintCodeTag::MissingContentSpaceAfterCloseMarker),
            28 => Some(LintCodeTag::VerseInSectionOrOtherParagraph),
            29 => Some(LintCodeTag::ContentAfterBlankMarker),
            30 => Some(LintCodeTag::InvalidBookCode),
            31 => Some(LintCodeTag::BookCodeNotUppercase),
            _ => None,
        }
    }

    pub fn as_u8(self) -> (value: u8)
        ensures
            value == self.spec_as_u8(),
    {
        match self {
            LintCodeTag::MissingIdMarker => 0,
            LintCodeTag::DuplicateIdMarker => 1,
            LintCodeTag::IdMarkerNotAtFileStart => 2,
            LintCodeTag::EmptyParagraph => 3,
            LintCodeTag::MissingChapterNumber => 4,
            LintCodeTag::MissingVerseNumber => 5,
            LintCodeTag::VerseIsEmpty => 6,
            LintCodeTag::UnknownToken => 7,
            LintCodeTag::UnknownMarker => 8,
            LintCodeTag::UnknownCloseMarker => 9,
            LintCodeTag::ContentBeforeFirstChapter => 10,
            LintCodeTag::VerseOutsideExplicitParagraph => 11,
            LintCodeTag::NoteSubmarkerOutsideNote => 12,
            LintCodeTag::MetadataOutsideTarget => 13,
            LintCodeTag::MarkerNotValidInContext => 14,
            LintCodeTag::MissingMilestoneSelfClose => 15,
            LintCodeTag::StrayCloseMarker => 16,
            LintCodeTag::MisnestedCloseMarker => 17,
            LintCodeTag::ImplicitlyClosedMarker => 18,
            LintCodeTag::UnclosedMarker => 19,
            LintCodeTag::DuplicateChapterNumber => 20,
            LintCodeTag::DuplicateVerseNumber => 21,
            LintCodeTag::InvalidNumberRange => 22,
            LintCodeTag::NumberRangeNotPrecededByMarkerExpectingNumber => 23,
            LintCodeTag::MissingWhitespaceBeforeMarker => 24,
            LintCodeTag::MissingHorizontalWhitespaceAfterMarkerName => 25,
            LintCodeTag::MissingTagEndDelimiterAfterMarker => 26,
            LintCodeTag::MissingContentSpaceAfterCloseMarker => 27,
            LintCodeTag::VerseInSectionOrOtherParagraph => 28,
            LintCodeTag::ContentAfterBlankMarker => 29,
            LintCodeTag::InvalidBookCode => 30,
            LintCodeTag::BookCodeNotUppercase => 31,
        }
    }

    /// The kebab-case wire/JS code string, e.g. `"missing-id-marker"`.
    pub fn kebab(self) -> (code: &'static str)
        ensures
            code@ == self.spec_kebab(),
    {
        proof {
            reveal_strlit("missing-id-marker");
            reveal_strlit("duplicate-id-marker");
            reveal_strlit("id-marker-not-at-file-start");
            reveal_strlit("empty-paragraph");
            reveal_strlit("missing-chapter-number");
            reveal_strlit("missing-verse-number");
            reveal_strlit("verse-is-empty");
            reveal_strlit("unknown-token");
            reveal_strlit("unknown-marker");
            reveal_strlit("unknown-close-marker");
            reveal_strlit("content-before-first-chapter");
            reveal_strlit("verse-outside-explicit-paragraph");
            reveal_strlit("note-submarker-outside-note");
            reveal_strlit("metadata-outside-target");
            reveal_strlit("marker-not-valid-in-context");
            reveal_strlit("missing-milestone-self-close");
            reveal_strlit("stray-close-marker");
            reveal_strlit("misnested-close-marker");
            reveal_strlit("implicitly-closed-marker");
            reveal_strlit("unclosed-marker");
            reveal_strlit("duplicate-chapter-number");
            reveal_strlit("duplicate-verse-number");
            reveal_strlit("invalid-number-range");
            reveal_strlit("number-range-not-preceded-by-marker-expecting-number");
            reveal_strlit("missing-whitespace-before-marker");
            reveal_strlit("missing-horizontal-whitespace-after-marker-name");
            reveal_strlit("missing-tag-end-delimiter-after-marker");
            reveal_strlit("missing-content-space-after-close-marker");
            reveal_strlit("verse-in-section-or-other-paragraph");
            reveal_strlit("content-after-blank-marker");
            reveal_strlit("invalid-book-code");
            reveal_strlit("book-code-not-uppercase");
        }
        match self {
            LintCodeTag::MissingIdMarker => "missing-id-marker",
            LintCodeTag::DuplicateIdMarker => "duplicate-id-marker",
            LintCodeTag::IdMarkerNotAtFileStart => "id-marker-not-at-file-start",
            LintCodeTag::EmptyParagraph => "empty-paragraph",
            LintCodeTag::MissingChapterNumber => "missing-chapter-number",
            LintCodeTag::MissingVerseNumber => "missing-verse-number",
            LintCodeTag::VerseIsEmpty => "verse-is-empty",
            LintCodeTag::UnknownToken => "unknown-token",
            LintCodeTag::UnknownMarker => "unknown-marker",
            LintCodeTag::UnknownCloseMarker => "unknown-close-marker",
            LintCodeTag::ContentBeforeFirstChapter => "content-before-first-chapter",
            LintCodeTag::VerseOutsideExplicitParagraph => "verse-outside-explicit-paragraph",
            LintCodeTag::NoteSubmarkerOutsideNote => "note-submarker-outside-note",
            LintCodeTag::MetadataOutsideTarget => "metadata-outside-target",
            LintCodeTag::MarkerNotValidInContext => "marker-not-valid-in-context",
            LintCodeTag::MissingMilestoneSelfClose => "missing-milestone-self-close",
            LintCodeTag::StrayCloseMarker => "stray-close-marker",
            LintCodeTag::MisnestedCloseMarker => "misnested-close-marker",
            LintCodeTag::ImplicitlyClosedMarker => "implicitly-closed-marker",
            LintCodeTag::UnclosedMarker => "unclosed-marker",
            LintCodeTag::DuplicateChapterNumber => "duplicate-chapter-number",
            LintCodeTag::DuplicateVerseNumber => "duplicate-verse-number",
            LintCodeTag::InvalidNumberRange => "invalid-number-range",
            LintCodeTag::NumberRangeNotPrecededByMarkerExpectingNumber => "number-range-not-preceded-by-marker-expecting-number",
            LintCodeTag::MissingWhitespaceBeforeMarker => "missing-whitespace-before-marker",
            LintCodeTag::MissingHorizontalWhitespaceAfterMarkerName => "missing-horizontal-whitespace-after-marker-name",
            LintCodeTag::MissingTagEndDelimiterAfterMarker => "missing-tag-end-delimiter-after-marker",
            LintCodeTag::MissingContentSpaceAfterCloseMarker => "missing-content-space-after-close-marker",
            LintCodeTag::VerseInSectionOrOtherParagraph => "verse-in-section-or-other-paragraph",
            LintCodeTag::ContentAfterBlankMarker => "content-after-blank-marker",
            LintCodeTag::InvalidBookCode => "invalid-book-code",
            LintCodeTag::BookCodeNotUppercase => "book-code-not-uppercase",
        }
    }
}

/// Kebab codes are well-formed and name their tags: each is non-empty, made
/// of lowercase ASCII letters and hyphens, neither starts nor ends with a
/// hyphen, and distinct tags have distinct codes.
pub proof fn law_kebab_codes(a: LintCodeTag, b: LintCodeTag)
    ensures
        a.spec_kebab().len() > 0,
        a.spec_kebab()[0] != '-',
        a.spec_kebab().last() != '-',
        forall|i: int| 0 <= i < a.spec_kebab().len() ==>
            ('a' <= #[trigger] a.spec_kebab()[i] <= 'z' || a.spec_kebab()[i] == '-'),
        a != b ==> a.spec_kebab() != b.spec_kebab(),
{
    // The length and the seventh character already tell every code apart.
    reveal_strlit("missing-id-marker");
    reveal_strlit("duplicate-id-marker");
    reveal_strlit("id-marker-not-at-file-start");
    reveal_strlit("empty-paragraph");
    reveal_strlit("missing-chapter-number");
    reveal_strlit("missing-verse-number");
    reveal_strlit("verse-is-empty");
    reveal_strlit("unknown-token");
    reveal_strlit("unknown-marker");
    reveal_strlit("unknown-close-marker");
    reveal_strlit("content-before-first-chapter");
    reveal_strlit("verse-outside-explicit-paragraph");
    reveal_strlit("note-submarker-outside-note");
    reveal_strlit("metadata-outside-target");
    reveal_strlit("marker-not-valid-in-context");
    reveal_strlit("missing-milestone-self-close");
    reveal_strlit("stray-close-marker");
    reveal_strlit("misnested-close-marker");
    reveal_strlit("implicitly-closed-marker");
    reveal_strlit("unclosed-marker");
    reveal_strlit("duplicate-chapter-number");
    reveal_strlit("duplicate-verse-number");
    reveal_strlit("invalid-number-range");
    reveal_strlit("number-range-not-preceded-by-marker-expecting-number");
    reveal_strlit("missing-whitespace-before-marker");
    reveal_strlit("missing-horizontal-whitespace-after-marker-name");
    reveal_strlit("missing-tag-end-delimiter-after-marker");
    reveal_strlit("missing-content-space-after-close-marker");
    reveal_strlit("verse-in-section-or-other-paragraph");
    reveal_strlit("content-after-blank-marker");
    reveal_strlit("invalid-book-code");
    reveal_strlit("book-code-not-uppercase");
    if a.spec_kebab() == b.spec_kebab() {
        assert(a.spec_kebab().len() == b.spec_kebab().len());
        assert(a.spec_kebab()[6] == b.spec_kebab()[6]);
    }
}

/// Wire values and tags are in one-to-one correspondence.
pub proof fn lemma_lint_code_round_trip(tag: LintCodeTag, value: u8)
    ensures
        LintCodeTag::spec_from_u8(tag.spec_as_u8()) == Some(tag),
        LintCodeTag::spec_from_u8(value) matches Some(t) ==> t.spec_as_u8() == value,
        LintCodeTag::spec_from_u8(value) is Some <==> value < LINT_CODE_COUNT,
{
}

/// All lint codes in frozen `u8` order.
pub fn lint_code_table() -> (table: Vec<LintCodeTag>)
    ensures
        table@.len() == LINT_CODE_COUNT,
        forall|i: int| 0 <= i < table@.len() ==> #[trigger] table@[i].spec_as_u8() == i,
{
    let mut table: Vec<LintCodeTag> = Vec::new();
    let mut value: u8 = 0;
    while value < LINT_CODE_COUNT
        invariant
            value <= LINT_CODE_COUNT,
            table@.len() == value,
            forall|i: int| 0 <= i < table@.len() ==> #[trigger] table@[i].spec_as_u8() == i,
        decreases LINT_CODE_COUNT - value,
    {
        match LintCodeTag::from_u8(value) {
            Some(tag) => table.push(tag),
            None => { return table; }
        }
        value = value + 1;
    }
    table
}

} // verus!
