//! Boundary data types: the shapes tokens, markers, lint and diff values and
//! packed-codec outcomes take when they cross to JavaScript or another
//! process. Serialization lives with the copies of these types that carry the
//! serde derives; here they are plain values, plus the attribute-value rules
//! that the boundary applies to them.

use vstd::prelude::*;
use vstd::string::{StrSliceExecFns, StringExecFns};

use crate::error::{DecodeError, EncodeError, LayoutRefusal};
use crate::schema::SectionKind;

verus! {

#[derive(Debug, Clone, Copy, PartialEq, Eq, Structural)]
pub enum SpecContext {
    Scripture,
    BookIdentification,
    BookHeaders,
    BookTitles,
    BookIntroduction,
    BookIntroductionEndTitles,
    BookChapterLabel,
    ChapterContent,
    Peripheral,
    PeripheralContent,
    PeripheralDivision,
    Chapter,
    Verse,
    Section,
    Para,
    List,
    Table,
    Sidebar,
    Footnote,
    CrossReference,
}

#[derive(Debug, Clone, Copy, PartialEq, Eq, Structural)]
pub enum InlineContext {
    Para,
    Section,
    List,
    Table,
}

#[derive(Debug, Clone, Copy, PartialEq, Eq, Structural)]
pub enum BlockBehavior {
    /// The marker opens no block.
    NoBlock,
    Paragraph,
    TableRow,
    TableCell,
    SidebarStart,
    SidebarEnd,
}

#[derive(Debug, Clone, Copy, PartialEq, Eq, Structural)]
pub enum ClosingBehavior {
    /// The marker is never closed.
    NoClose,
    RequiredExplicit,
    OptionalExplicitUntilNoteEnd,
    SelfClosingMilestone,
}

/// Argument payload a marker's opening form consumes right after its name:
/// `"bookCode"` for `\id`, `"numberRange"` for the chapter/verse family
/// (`\c`, `\cp`, `\ca`, `\v`, `\vp`, `\va`). Shares one table with the
/// lexer (`marker_defs::marker_payload`), so catalog and tokenization cannot
/// drift.
#[derive(Debug, Clone, Copy, PartialEq, Eq, Structural)]
pub enum MarkerPayload {
    BookCode,
    NumberRange,
}

#[derive(Debug, Clone, Copy, PartialEq, Eq, Structural)]
pub enum MarkerCategory {
    Document,
    Paragraph,
    Character,
    NoteContainer,
    NoteSubmarker,
    Chapter,
    Verse,
    MilestoneStart,
    MilestoneEnd,
    Figure,
    SidebarStart,
    SidebarEnd,
    Periph,
    Meta,
    TableRow,
    TableCell,
    Header,
    Unknown,
}

#[derive(Debug, Clone, Copy, PartialEq, Eq, Structural)]
pub enum MarkerKind {
    Paragraph,
    Note,
    Character,
    Header,
    Chapter,
    Verse,
    MilestoneStart,
    MilestoneEnd,
    SidebarStart,
    SidebarEnd,
    Figure,
    Meta,
    Periph,
    TableRow,
    TableCell,
    Unknown,
}

#[derive(Debug, Clone, Copy, PartialEq, Eq, Structural)]
pub enum MarkerFamily {
    Footnote,
    CrossReference,
    SectionParagraph,
    ListParagraph,
    TableCell,
    Milestone,
    Sidebar,
}

#[derive(Debug, Clone, Copy, PartialEq, Eq, Structural)]
pub enum MarkerFamilyRole {
    Canonical,
    NumberedVariant,
    NestedVariant,
    MilestoneStart,
    MilestoneEnd,
    Alias,
}

#[derive(Debug, Clone, Copy, PartialEq, Eq, Structural)]
pub enum ParagraphCategory {
    Identification,
    Introduction,
    Title,
    Section,
    Body,
    Poetry,
    List,
    Table,
    Peripheral,
    Other,
}

#[derive(Debug, Clone, Copy, PartialEq, Eq, Structural)]
pub enum NoteFamily {
    Footnote,
    CrossReference,
}

#[derive(Debug, Clone, Copy, PartialEq, Eq, Structural)]
pub enum NoteSubkind {
    /// A note whose submarkers close every nested character style.
    StructuralNote,
    StructuralKeepsNestedCharsOpen,
}

#[derive(Debug, Clone, PartialEq, Eq)]
pub struct MarkerInfo {
    pub marker: String,
    pub canonical: Option<String>,
    pub known: bool,
    pub deprecated: bool,
    pub category: MarkerCategory,
    pub kind: MarkerKind,
    pub family: Option<MarkerFamily>,
    pub family_role: Option<MarkerFamilyRole>,
    pub note_family: Option<NoteFamily>,
    pub note_subkind: Option<NoteSubkind>,
    pub inline_context: Option<InlineContext>,
    pub default_attribute: Option<String>,
    pub contexts: Vec<SpecContext>,
    pub block_behavior: Option<BlockBehavior>,
    pub closing_behavior: Option<ClosingBehavior>,
    pub payload: Option<MarkerPayload>,
    pub paragraph_category: Option<ParagraphCategory>,
    pub source: Option<String>,
}

#[derive(Debug, Clone, Copy, PartialEq, Eq, Structural)]
pub enum TokenKind {
    Newline,
    OptBreak,
    Marker,
    EndMarker,
    Milestone,
    MilestoneEnd,
    BookCode,
    Number,
    Text,
}

#[derive(Debug, Clone, Copy, PartialEq, Eq, Structural)]
pub enum NumberRangeKind {
    Single,
    Range,
    Sequence,
    SequenceWithRange,
}

#[derive(Debug, Clone, Copy, PartialEq, Eq, Structural)]
pub enum StructuralScopeKind {
    Unknown,
    Header,
    Block,
    Note,
    Character,
    Milestone,
    Chapter,
    Verse,
    TableRow,
    TableCell,
    Sidebar,
    Periph,
    Meta,
}

#[derive(Debug, Clone, Copy, PartialEq, Eq, Structural)]
pub enum MarkerDefKind {
    Paragraph,
    Character,
    Note,
    Chapter,
    Verse,
    Milestone,
    Figure,
    Sidebar,
    Periph,
    Meta,
    TableRow,
    TableCell,
    Header,
}

#[derive(Debug, Clone, Copy, PartialEq, Eq)]
pub struct Span {
    pub start: u32,
    pub end: u32,
}

#[derive(Debug, Clone, PartialEq, Eq, Default)]
pub struct MarkerMetadata {
    pub canonical: Option<String>,
    pub kind: Option<MarkerDefKind>,
    pub family: Option<MarkerFamily>,
}

#[derive(Debug, Clone, PartialEq, Eq)]
pub struct AttributeItem {
    /// `None` for an attribute an editor synthesized or structurally edited —
    /// same convention as `Token.span`, and never fabricated from some other
    /// token's span, which would misreport a position this attribute never
    /// actually occupied.
    pub span: Option<Span>,
    pub text: String,
    pub key: String,
    pub value: String,
    pub is_default: bool,
}

#[derive(Debug, Clone, Copy, PartialEq, Eq)]
pub struct StructuralMarkerInfo {
    pub scope_kind: StructuralScopeKind,
    pub inline_context: Option<InlineContext>,
    pub note_context: Option<SpecContext>,
}

#[derive(Debug, Clone, Copy, PartialEq, Eq)]
pub struct NumberInfo {
    pub start: u32,
    pub end: Option<u32>,
    pub kind: NumberRangeKind,
}

#[derive(Debug, Clone, PartialEq, Eq)]
pub struct Token {
    pub id: String,
    pub kind: TokenKind,
    pub source: String,
    pub span: Option<Span>,
    pub sid: Option<String>,
    pub marker: Option<String>,
    pub nested: Option<bool>,
    pub marker_metadata: Option<MarkerMetadata>,
    pub structural: Option<StructuralMarkerInfo>,
    pub number_info: Option<NumberInfo>,
    pub book_code: Option<String>,
    pub book_code_valid: Option<bool>,
    pub attributes: Vec<AttributeItem>,
    /// Verbatim `|...` attribute-list slice (native `MarkerAttrs.attribute_source`),
    /// carried across the wire so a passed-through token stays byte-lossless
    /// through `tokens_to_usfm_reconstruct`. `None` when the source had no
    /// attribute list, or when an editor authored/edited the attributes
    /// itself — see [`SerializableToken`] for the "touch an attribute, drop
    /// its verbatim" rule.
    pub attribute_source: Option<String>,
    /// Bytes from the end of this token's own source to the start of its attribute
    /// list, when the token remembers a placement.
    ///
    /// The other half of what `attribute_source` promises: an attribute list does
    /// not sit next to the marker that owns it, and one placement rule cannot
    /// express every real layout — an alignment list sits at the opener, a wordlist
    /// list can sit past a nested closer. Carrying the verbatim text without its
    /// position makes a round trip byte-lossless only for the layouts that happen
    /// to match the fallback. `None` means no remembered placement, and an emitter
    /// places the list at the marker's closer.
    pub attribute_offset: Option<u32>,
}

#[derive(Debug, Clone, Copy, PartialEq, Eq, PartialOrd, Ord, Hash, Structural)]
pub enum LintCategory {
    Document,
    Structure,
    Context,
    Numbering,
}

#[derive(Debug, Clone, Copy, PartialEq, Eq, PartialOrd, Ord, Hash, Structural)]
pub enum LintSeverity {
    Error,
    Warning,
}

#[derive(Debug, Clone, Copy, PartialEq, Eq, PartialOrd, Ord, Hash, Structural)]
pub enum LintIssueType {
    Usfm,
    Content,
}

#[derive(Debug, Clone, Copy, PartialEq, Eq, PartialOrd, Ord, Hash, Structural)]
pub enum LintCode {
    MissingIdMarker,
    DuplicateIdMarker,
    IdMarkerNotAtFileStart,
    EmptyParagraph,
    MissingChapterNumber,
    MissingVerseNumber,
    VerseIsEmpty,
    UnknownToken,
    UnknownMarker,
    UnknownCloseMarker,
    ContentBeforeFirstChapter,
    VerseOutsideExplicitParagraph,
    NoteSubmarkerOutsideNote,
    MetadataOutsideTarget,
    MarkerNotValidInContext,
    MissingMilestoneSelfClose,
    StrayCloseMarker,
    MisnestedCloseMarker,
    ImplicitlyClosedMarker,
    UnclosedMarker,
    DuplicateChapterNumber,
    DuplicateVerseNumber,
    InvalidNumberRange,
    NumberRangeNotPrecededByMarkerExpectingNumber,
    MissingWhitespaceBeforeMarker,
    MissingHorizontalWhitespaceAfterMarkerName,
    MissingTagEndDelimiterAfterMarker,
    MissingContentSpaceAfterCloseMarker,
    VerseInSectionOrOtherParagraph,
    ContentAfterBlankMarker,
    InvalidBookCode,
    BookCodeNotUppercase,
    BookIdMismatch,
}

#[derive(Debug, Clone, Copy, PartialEq, Eq, Structural)]
pub enum SlotRole {
    Shared,
    BaselineOnly,
    CurrentOnly,
    PairBaseline,
    PairCurrent,
}

#[derive(Debug, Clone, Copy, PartialEq, Eq, Structural)]
pub enum DecisionUnitKind {
    Shared,
    Added,
    Deleted,
    Coalesced,
}

#[derive(Debug, Clone, Copy, PartialEq, Eq, Structural)]
pub enum DecisionStatus {
    Unchanged,
    Modified,
    Added,
    Deleted,
    Moved,
}

#[derive(Debug, Clone, Copy, PartialEq, Eq, Structural)]
pub enum MergeSide {
    Baseline,
    Current,
}

#[derive(Debug, Clone, Copy, PartialEq, Eq, Structural)]
pub enum CoveredSide {
    Baseline,
    Current,
}

#[derive(Debug, Clone, Copy, PartialEq, Eq, Default, Structural)]
pub enum TextDiffMode {
    /// Compute no text diff.
    #[default]
    Off,
    Words,
    Chars,
}

#[derive(Debug, Clone, Copy, PartialEq, Eq, Structural)]
pub enum TextDiffRunKind {
    Unchanged,
    Added,
    Removed,
}

#[derive(Debug, Clone, PartialEq, Eq)]
pub struct TextDiffRun {
    pub text: String,
    pub kind: TextDiffRunKind,
}

#[derive(Debug, Clone, PartialEq, Eq)]
pub struct UnitTextDiff {
    /// Kinds: `Unchanged` | `Removed`.
    pub baseline: Vec<TextDiffRun>,
    /// Kinds: `Unchanged` | `Added`.
    pub current: Vec<TextDiffRun>,
}

/// Optional trailing argument on the wasm diff entry points. Omitting it (or
/// omitting `textDiff`) is `"none"` — today's behavior, computing nothing.
#[derive(Debug, Clone, Copy, PartialEq, Eq, Default)]
pub struct DiffOptions {
    pub text_diff: TextDiffMode,
}

#[derive(Debug, Clone, Copy, PartialEq, Eq, Structural)]
pub enum HtmlNoteMode {
    Extracted,
    Inline,
}

#[derive(Debug, Clone, Copy, PartialEq, Eq, Structural)]
pub enum HtmlCallerStyle {
    Numeric,
    AlphaLower,
    AlphaUpper,
    RomanLower,
    RomanUpper,
    Source,
}

#[derive(Debug, Clone, Copy, PartialEq, Eq, Structural)]
pub enum HtmlCallerScope {
    DocumentSequential,
    VerseSequential,
}

#[derive(Debug, Clone, PartialEq, Eq)]
pub struct PackedMarkerDescriptor {
    pub name: String,
    pub nested: bool,
    pub marker_metadata: MarkerMetadata,
    pub structural: StructuralMarkerInfo,
}

/// One book's attestation of what the Rust trust boundary checked.
///
/// The three `u64` integrity values are 16-character lowercase hex strings.
/// They are an audit record, never an input to a check: a consumer of this
/// receipt has already been told the bytes are certified, and there is no JS
/// hash implementation to re-derive them with.
#[derive(Debug, Clone, PartialEq, Eq)]
pub struct PackedBookReceipt {
    pub book: String,
    pub source_len: u32,
    pub token_count: u32,
    pub finding_count: u32,
    /// True when token ids are `{book}-{index}` and the id column/dictionary are
    /// absent, so a materializer synthesizes them.
    pub positional_ids: bool,
    pub source_hash: String,
    pub catalog_stamp: String,
    pub snapshot_id: String,
    /// Descriptor-ordinal order: the packed marker-descriptor-index column
    /// indexes straight into this list.
    pub descriptors: Vec<PackedMarkerDescriptor>,
}

#[derive(Debug, Clone, Copy, PartialEq, Eq)]
pub enum PackedDecodeError {
    Truncated,
    BadMagic,
    UnsupportedVersion { found: u16 },
    UnsupportedFlags { found: u32 },
    InvalidToc,
    InvalidSection,
    InvalidUtf8,
    InvalidDiscriminant,
    OffsetOverflow,
    TooManySids { found: u32 },
    ChecksumMismatch,
    CatalogMismatch,
    SourceLengthMismatch,
    SourceHashMismatch,
}

/// A wasm-facing projection of [`crate::schema::SectionKind`] — only ever seen
/// nested inside [`PackedLayoutRefusal::DuplicateSection`].
#[derive(Debug, Clone, Copy, PartialEq, Eq, Structural)]
pub enum PackedSectionKind {
    Token,
    Finding,
}

#[derive(Debug, Clone, Copy, PartialEq, Eq)]
pub enum PackedLayoutRefusal {
    DuplicateSection { section_kind: PackedSectionKind },
    OrphanFindingSection,
    DuplicateField { field_id: u16 },
    FieldExtentMismatch { field_id: u16 },
    MissingRequiredField { field_id: u16 },
    CachedSectionUnreadable,
    CachedSectionMismatch,
    CachedSectionStampMismatch,
    PositionalIdConflict { field_id: u16 },
    SectionTooLarge,
    TooManyFields,
    TooManySections,
}

#[derive(Debug, Clone, PartialEq, Eq)]
pub enum PackedEncodeError {
    TooManySids {
        book: String,
        found: u32,
    },
    UnrepresentablePayload {
        book: String,
        code: u8,
    },
    TooManyDescriptors {
        book: String,
        found: u32,
    },
    UnboundSpan {
        book: String,
        token_idx: u32,
    },
    InvalidSectionLayout {
        book: String,
        reason: PackedLayoutRefusal,
    },
    EmptyFix {
        book: String,
        code: u8,
    },
}

// ------------------------------------------------------------ attribute values

/// USFM-wire escapes decoded: `\\` becomes `\` and `\"` becomes `"`; every
/// other backslash is kept as it is.
pub open spec fn unescape_attr(s: Seq<char>) -> Seq<char>
    decreases s.len(),
{
    if s.len() == 0 {
        Seq::empty()
    } else if s.len() >= 2 && s[0] == '\\' && (s[1] == '\\' || s[1] == '"') {
        seq![s[1]] + unescape_attr(s.subrange(2, s.len() as int))
    } else {
        seq![s[0]] + unescape_attr(s.subrange(1, s.len() as int))
    }
}

/// The USFM-wire escaping of an attribute value: a backslash becomes two
/// backslashes, `"` becomes `\"`, and every other character is kept.
pub open spec fn escape_attr(s: Seq<char>) -> Seq<char>
    decreases s.len(),
{
    if s.len() == 0 {
        Seq::empty()
    } else {
        (if s[0] == '\\' {
            seq!['\\', '\\']
        } else if s[0] == '"' {
            seq!['\\', '"']
        } else {
            seq![s[0]]
        }) + escape_attr(s.drop_first())
    }
}

/// Decoding undoes the wire escaping: every attribute value comes back as
/// it was before it was escaped.
pub proof fn law_unescape_inverts_escape(s: Seq<char>)
    ensures
        unescape_attr(escape_attr(s)) == s,
    decreases s.len(),
{
    if s.len() > 0 {
        let rest = escape_attr(s.drop_first());
        law_unescape_inverts_escape(s.drop_first());
        let e = escape_attr(s);
        if s[0] == '\\' || s[0] == '"' {
            assert(e.subrange(2, e.len() as int) =~= rest);
        } else {
            assert(e.subrange(1, e.len() as int) =~= rest);
        }
        assert(seq![s[0]] + s.drop_first() =~= s);
    }
}

/// Decodes USFM-wire escapes in an attribute value so a consumer sees the
/// logical string: `\\` becomes `\`, `\"` becomes `"`, and any other
/// backslash sequence is preserved verbatim.
pub fn decode_attr_value(raw: &str) -> (decoded: String)
    ensures
        decoded@ == unescape_attr(raw@),
{
    let n = raw.unicode_len();
    let mut out = String::new();
    proof {
        assert(raw@.subrange(0, n as int) =~= raw@);
        assert(out@ + unescape_attr(raw@) =~= unescape_attr(raw@));
    }
    let mut i: usize = 0;
    while i < n
        invariant
            n == raw@.len(),
            i <= n,
            out@ + unescape_attr(raw@.subrange(i as int, n as int)) == unescape_attr(raw@),
        decreases n - i,
    {
        let ghost rest = raw@.subrange(i as int, n as int);
        let c = raw.get_char(i);
        if c == '\\' && i + 1 < n {
            let next = raw.get_char(i + 1);
            if next == '\\' || next == '"' {
                out.append(raw.substring_char(i + 1, i + 2));
                proof {
                    assert(rest.subrange(2, rest.len() as int) =~= raw@.subrange(i + 2, n as int));
                    assert(raw@.subrange(i + 1, i + 2) =~= seq![rest[1]]);
                }
                i = i + 2;
                continue;
            }
        }
        out.append(raw.substring_char(i, i + 1));
        proof {
            assert(rest.subrange(1, rest.len() as int) =~= raw@.subrange(i + 1, n as int));
            assert(raw@.subrange(i as int, i + 1) =~= seq![rest[0]]);
        }
        i = i + 1;
    }
    proof {
        assert(raw@.subrange(n as int, n as int) =~= Seq::<char>::empty());
        assert(out@ + Seq::<char>::empty() =~= out@);
    }
    out
}

/// The value exactly as an attribute's verbatim `key="value"` slice spells it,
/// read from the attribute's own key: a default attribute's slice is its value;
/// otherwise the slice must start with the key and `=`, and one pair of
/// surrounding quotes is removed. `None` when there is no verbatim slice, or it
/// does not start with the key and `=`.
pub open spec fn spec_verbatim_value(text: Seq<char>, key: Seq<char>) -> Option<Seq<char>> {
    let rest = text.subrange(key.len() + 1int, text.len() as int);
    if text.len() == 0 {
        None
    } else if key.len() == 0 {
        Some(text)
    } else if !(key.len() < text.len() && text.subrange(0, key.len() as int) == key && text[key.len() as int] == '=') {
        None
    } else if rest.len() >= 2 && rest[0] == '"' && rest[rest.len() - 1] == '"' {
        Some(rest.subrange(1, rest.len() - 1))
    } else {
        Some(rest)
    }
}

/// Whether `s` starts with `prefix`.
fn starts_with_chars(s: &str, prefix: &str) -> (starts: bool)
    ensures
        starts == (prefix@.len() <= s@.len() && s@.subrange(0, prefix@.len() as int) == prefix@),
{
    let n = s.unicode_len();
    let m = prefix.unicode_len();
    if m > n {
        return false;
    }
    let mut i: usize = 0;
    while i < m
        invariant
            n == s@.len(),
            m == prefix@.len(),
            m <= n,
            i <= m,
            s@.subrange(0, i as int) == prefix@.subrange(0, i as int),
        decreases m - i,
    {
        if s.get_char(i) != prefix.get_char(i) {
            proof {
                assert(s@.subrange(0, m as int)[i as int] != prefix@[i as int]);
            }
            return false;
        }
        proof {
            assert(s@.subrange(0, i + 1) =~= s@.subrange(0, i as int).push(s@[i as int]));
            assert(prefix@.subrange(0, i + 1) =~= prefix@.subrange(0, i as int).push(prefix@[i as int]));
        }
        i = i + 1;
    }
    proof {
        assert(prefix@.subrange(0, m as int) =~= prefix@);
    }
    true
}

/// The value exactly as it is spelled in an attribute's verbatim slice; the
/// verbatim text is the authority over the decoded value when there is one.
pub fn verbatim_value(attribute: &AttributeItem) -> (value: Option<&str>)
    ensures
        match value {
            Some(v) => spec_verbatim_value(attribute.text@, attribute.key@) == Some(v@),
            None => spec_verbatim_value(attribute.text@, attribute.key@) is None,
        },
{
    let text = attribute.text.as_str();
    let key = attribute.key.as_str();
    let n = text.unicode_len();
    if n == 0 {
        return None;
    }
    let k = key.unicode_len();
    if k == 0 {
        return Some(text);
    }
    if !(k < n && starts_with_chars(text, key) && text.get_char(k) == '=') {
        return None;
    }
    let rest = text.substring_char(k + 1, n);
    let r = n - (k + 1);
    // Quoted is the well-formed spelling; an unquoted remainder is kept
    // verbatim rather than corrected, since the emitter writes back what was
    // read.
    if r >= 2 && rest.get_char(0) == '"' && rest.get_char(r - 1) == '"' {
        let inner = rest.substring_char(1, r - 1);
        return Some(inner);
    }
    Some(rest)
}

// ------------------------------------------------------------ codec outcomes

impl PackedDecodeError {
    /// The boundary value of a decode failure: the same variant and payload.
    pub open spec fn spec_from_error(value: DecodeError) -> PackedDecodeError {
        match value {
            DecodeError::Truncated => PackedDecodeError::Truncated,
            DecodeError::BadMagic => PackedDecodeError::BadMagic,
            DecodeError::UnsupportedVersion { found } => PackedDecodeError::UnsupportedVersion { found },
            DecodeError::UnsupportedFlags { found } => PackedDecodeError::UnsupportedFlags { found },
            DecodeError::InvalidToc => PackedDecodeError::InvalidToc,
            DecodeError::InvalidSection => PackedDecodeError::InvalidSection,
            DecodeError::InvalidUtf8 => PackedDecodeError::InvalidUtf8,
            DecodeError::InvalidDiscriminant => PackedDecodeError::InvalidDiscriminant,
            DecodeError::OffsetOverflow => PackedDecodeError::OffsetOverflow,
            DecodeError::TooManySids { found } => PackedDecodeError::TooManySids { found },
            DecodeError::ChecksumMismatch => PackedDecodeError::ChecksumMismatch,
            DecodeError::CatalogMismatch => PackedDecodeError::CatalogMismatch,
            DecodeError::SourceLengthMismatch => PackedDecodeError::SourceLengthMismatch,
            DecodeError::SourceHashMismatch => PackedDecodeError::SourceHashMismatch,
        }
    }
}

impl From<DecodeError> for PackedDecodeError {
    fn from(value: DecodeError) -> (packed: PackedDecodeError) {
        match value {
            DecodeError::Truncated => PackedDecodeError::Truncated,
            DecodeError::BadMagic => PackedDecodeError::BadMagic,
            DecodeError::UnsupportedVersion { found } => PackedDecodeError::UnsupportedVersion { found },
            DecodeError::UnsupportedFlags { found } => PackedDecodeError::UnsupportedFlags { found },
            DecodeError::InvalidToc => PackedDecodeError::InvalidToc,
            DecodeError::InvalidSection => PackedDecodeError::InvalidSection,
            DecodeError::InvalidUtf8 => PackedDecodeError::InvalidUtf8,
            DecodeError::InvalidDiscriminant => PackedDecodeError::InvalidDiscriminant,
            DecodeError::OffsetOverflow => PackedDecodeError::OffsetOverflow,
            DecodeError::TooManySids { found } => PackedDecodeError::TooManySids { found },
            DecodeError::ChecksumMismatch => PackedDecodeError::ChecksumMismatch,
            DecodeError::CatalogMismatch => PackedDecodeError::CatalogMismatch,
            DecodeError::SourceLengthMismatch => PackedDecodeError::SourceLengthMismatch,
            DecodeError::SourceHashMismatch => PackedDecodeError::SourceHashMismatch,
        }
    }
}

impl vstd::std_specs::convert::FromSpecImpl<DecodeError> for PackedDecodeError {
    open spec fn obeys_from_spec() -> bool {
        true
    }

    open spec fn from_spec(v: DecodeError) -> PackedDecodeError {
        PackedDecodeError::spec_from_error(v)
    }
}

impl PackedSectionKind {
    /// The boundary value of a section kind.
    pub open spec fn spec_from_kind(value: SectionKind) -> PackedSectionKind {
        match value {
            SectionKind::Token => PackedSectionKind::Token,
            SectionKind::Finding => PackedSectionKind::Finding,
        }
    }
}

impl From<SectionKind> for PackedSectionKind {
    fn from(value: SectionKind) -> (packed: PackedSectionKind) {
        match value {
            SectionKind::Token => PackedSectionKind::Token,
            SectionKind::Finding => PackedSectionKind::Finding,
        }
    }
}

impl vstd::std_specs::convert::FromSpecImpl<SectionKind> for PackedSectionKind {
    open spec fn obeys_from_spec() -> bool {
        true
    }

    open spec fn from_spec(v: SectionKind) -> PackedSectionKind {
        PackedSectionKind::spec_from_kind(v)
    }
}

impl PackedLayoutRefusal {
    /// The boundary value of a layout refusal: the same variant and payload.
    pub open spec fn spec_from_refusal(value: LayoutRefusal) -> PackedLayoutRefusal {
        match value {
            LayoutRefusal::DuplicateSection { kind } => PackedLayoutRefusal::DuplicateSection {
                section_kind: PackedSectionKind::spec_from_kind(kind),
            },
            LayoutRefusal::OrphanFindingSection => PackedLayoutRefusal::OrphanFindingSection,
            LayoutRefusal::DuplicateField { field_id } => PackedLayoutRefusal::DuplicateField { field_id },
            LayoutRefusal::FieldExtentMismatch { field_id } => PackedLayoutRefusal::FieldExtentMismatch {
                field_id,
            },
            LayoutRefusal::MissingRequiredField { field_id } => PackedLayoutRefusal::MissingRequiredField {
                field_id,
            },
            LayoutRefusal::CachedSectionUnreadable => PackedLayoutRefusal::CachedSectionUnreadable,
            LayoutRefusal::CachedSectionMismatch => PackedLayoutRefusal::CachedSectionMismatch,
            LayoutRefusal::PositionalIdConflict { field_id } => PackedLayoutRefusal::PositionalIdConflict {
                field_id,
            },
            LayoutRefusal::SectionTooLarge => PackedLayoutRefusal::SectionTooLarge,
            LayoutRefusal::TooManyFields => PackedLayoutRefusal::TooManyFields,
            LayoutRefusal::TooManySections => PackedLayoutRefusal::TooManySections,
        }
    }
}

impl From<LayoutRefusal> for PackedLayoutRefusal {
    fn from(value: LayoutRefusal) -> (packed: PackedLayoutRefusal) {
        match value {
            LayoutRefusal::DuplicateSection { kind } => PackedLayoutRefusal::DuplicateSection {
                section_kind: PackedSectionKind::from(kind),
            },
            LayoutRefusal::OrphanFindingSection => PackedLayoutRefusal::OrphanFindingSection,
            LayoutRefusal::DuplicateField { field_id } => PackedLayoutRefusal::DuplicateField { field_id },
            LayoutRefusal::FieldExtentMismatch { field_id } => PackedLayoutRefusal::FieldExtentMismatch {
                field_id,
            },
            LayoutRefusal::MissingRequiredField { field_id } => PackedLayoutRefusal::MissingRequiredField {
                field_id,
            },
            LayoutRefusal::CachedSectionUnreadable => PackedLayoutRefusal::CachedSectionUnreadable,
            LayoutRefusal::CachedSectionMismatch => PackedLayoutRefusal::CachedSectionMismatch,
            LayoutRefusal::PositionalIdConflict { field_id } => PackedLayoutRefusal::PositionalIdConflict {
                field_id,
            },
            LayoutRefusal::SectionTooLarge => PackedLayoutRefusal::SectionTooLarge,
            LayoutRefusal::TooManyFields => PackedLayoutRefusal::TooManyFields,
            LayoutRefusal::TooManySections => PackedLayoutRefusal::TooManySections,
        }
    }
}

impl vstd::std_specs::convert::FromSpecImpl<LayoutRefusal> for PackedLayoutRefusal {
    open spec fn obeys_from_spec() -> bool {
        true
    }

    open spec fn from_spec(v: LayoutRefusal) -> PackedLayoutRefusal {
        PackedLayoutRefusal::spec_from_refusal(v)
    }
}

impl PackedEncodeError {
    /// The boundary value of an encode refusal: the same variant and payload,
    /// with the book spelled as its three-letter code.
    pub fn from_error(value: EncodeError) -> (packed: PackedEncodeError)
        ensures
            match (value, packed) {
                (EncodeError::TooManySids { book, found }, PackedEncodeError::TooManySids { book: b, found: f }) =>
                    b@ == crate::book::book_chars(book.spec_ordinal()) && f == found,
                (EncodeError::UnrepresentablePayload { book, code }, PackedEncodeError::UnrepresentablePayload { book: b, code: c }) =>
                    b@ == crate::book::book_chars(book.spec_ordinal()) && c == code,
                (EncodeError::TooManyDescriptors { book, found }, PackedEncodeError::TooManyDescriptors { book: b, found: f }) =>
                    b@ == crate::book::book_chars(book.spec_ordinal()) && f == found,
                (EncodeError::UnboundSpan { book, token_idx }, PackedEncodeError::UnboundSpan { book: b, token_idx: t }) =>
                    b@ == crate::book::book_chars(book.spec_ordinal()) && t == token_idx,
                (EncodeError::InvalidSectionLayout { book, reason }, PackedEncodeError::InvalidSectionLayout { book: b, reason: r }) =>
                    b@ == crate::book::book_chars(book.spec_ordinal()) && r == PackedLayoutRefusal::spec_from_refusal(reason),
                (EncodeError::EmptyFix { book, code }, PackedEncodeError::EmptyFix { book: b, code: c }) =>
                    b@ == crate::book::book_chars(book.spec_ordinal()) && c == code,
                _ => false,
            },
    {
        match value {
            EncodeError::TooManySids { book, found } => PackedEncodeError::TooManySids {
                book: String::from_str(book.as_str()),
                found,
            },
            EncodeError::UnrepresentablePayload { book, code } => PackedEncodeError::UnrepresentablePayload {
                book: String::from_str(book.as_str()),
                code,
            },
            EncodeError::TooManyDescriptors { book, found } => PackedEncodeError::TooManyDescriptors {
                book: String::from_str(book.as_str()),
                found,
            },
            EncodeError::UnboundSpan { book, token_idx } => PackedEncodeError::UnboundSpan {
                book: String::from_str(book.as_str()),
                token_idx,
            },
            EncodeError::InvalidSectionLayout { book, reason } => PackedEncodeError::InvalidSectionLayout {
                book: String::from_str(book.as_str()),
                reason: PackedLayoutRefusal::from(reason),
            },
            EncodeError::EmptyFix { book, code } => PackedEncodeError::EmptyFix {
                book: String::from_str(book.as_str()),
                code,
            },
        }
    }
}

} // verus!
