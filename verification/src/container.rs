//! Container header, table of contents, section header, and field directory:
//! the trust boundary of the wire format.
//!
//! Nothing here trusts a declared count, offset, length, width, flag, or
//! discriminant: each is validated against the enclosing byte range before any
//! view is constructed and before any allocation is sized from it.
//!
//! Reading is layered so each layer only sees bytes the layer above already
//! proved to exist: [`read_container`] validates the header and TOC, and only a
//! [`Container`] hands out a [`Section`].
//!
//! Writing produces canonical bytes by construction: sections are emitted
//! token-kind-first in caller order, fields in ascending id order, gaps
//! zero-filled, every offset computed from the emitted length.

use vstd::prelude::*;

use crate::book::BookId;
use crate::error::DecodeError;
use crate::schema::SectionKind;

pub mod read;
pub mod write;
pub mod laws;
pub mod interleaving;

pub use read::{read_container, read_container_unchecked, read_container_header};
pub use write::{write_container, write_container_sections, ContainerSection};

verus! {

/// Element width of one field payload. A closed enum, so neither decoded nor
/// caller-supplied bytes can name an unsupported stride.
#[derive(Debug, Clone, Copy, PartialEq, Eq, Structural)]
pub enum ElementWidth {
    /// Payload is not a uniform array; byte length is authoritative and no
    /// alignment is implied.
    Variable,
    One,
    Two,
    Four,
    Eight,
    Sixteen,
}

impl ElementWidth {
    /// The width with wire value `value`, if any.
    pub open spec fn spec_from_u8(value: u8) -> Option<ElementWidth> {
        match value {
            0 => Some(ElementWidth::Variable),
            1 => Some(ElementWidth::One),
            2 => Some(ElementWidth::Two),
            4 => Some(ElementWidth::Four),
            8 => Some(ElementWidth::Eight),
            16 => Some(ElementWidth::Sixteen),
            _ => None,
        }
    }

    /// Wire value of this width.
    pub open spec fn spec_as_u8(self) -> u8 {
        match self {
            ElementWidth::Variable => 0,
            ElementWidth::One => 1,
            ElementWidth::Two => 2,
            ElementWidth::Four => 4,
            ElementWidth::Eight => 8,
            ElementWidth::Sixteen => 16,
        }
    }

    /// Alignment a payload of this width requires: byte alignment for a
    /// variable-width payload, the width itself otherwise.
    pub open spec fn spec_align(self) -> u8 {
        match self {
            ElementWidth::Variable => 1,
            other => other.spec_as_u8(),
        }
    }

    pub fn from_u8(value: u8) -> (width: Option<ElementWidth>)
        ensures
            width == Self::spec_from_u8(value),
    {
        match value {
            0 => Some(ElementWidth::Variable),
            1 => Some(ElementWidth::One),
            2 => Some(ElementWidth::Two),
            4 => Some(ElementWidth::Four),
            8 => Some(ElementWidth::Eight),
            16 => Some(ElementWidth::Sixteen),
            _ => None,
        }
    }

    pub fn as_u8(self) -> (value: u8)
        ensures
            value == self.spec_as_u8(),
    {
        match self {
            ElementWidth::Variable => 0,
            ElementWidth::One => 1,
            ElementWidth::Two => 2,
            ElementWidth::Four => 4,
            ElementWidth::Eight => 8,
            ElementWidth::Sixteen => 16,
        }
    }

    /// Alignment a payload of this width requires.
    pub fn align(self) -> (align: u8)
        ensures
            align == self.spec_align(),
    {
        match self {
            ElementWidth::Variable => 1,
            other => other.as_u8(),
        }
    }
}

/// Validated container header (48 bytes).
#[derive(Debug, Clone, Copy, PartialEq, Eq, Structural)]
pub struct ContainerHeader {
    pub format_version: u16,
    pub flags: u32,
    pub section_count: u32,
    pub toc_offset: u64,
    /// Zero means the producer omitted integrity checking.
    pub checksum: u64,
    /// The snapshot the corpus was encoded from, stored verbatim.
    pub snapshot_id: u64,
}

/// Validated TOC entry (32 bytes).
#[derive(Debug, Clone, Copy, PartialEq, Eq, Structural)]
pub struct TocEntry {
    pub kind: SectionKind,
    pub book: BookId,
    pub section_version: u16,
    pub flags: u16,
    pub offset: u64,
    pub byte_len: u64,
    pub source_hash: u64,
}

/// Validated section header (64 bytes).
#[derive(Debug, Clone, Copy, PartialEq, Eq, Structural)]
pub struct SectionHeader {
    pub format_version: u16,
    /// Rule-catalog version. Always zero for token sections.
    pub rules_version: u16,
    pub kind: SectionKind,
    pub flags: u8,
    pub book: BookId,
    pub record_count: u32,
    pub source_hash: u64,
    pub section_len: u64,
    pub checksum: u64,
    /// Exact byte length of the book source this section's spans index into.
    pub source_len: u64,
    /// Marker-catalog stamp.
    pub catalog_stamp: u64,
}

/// One validated field payload: already proved to lie inside the section, to
/// satisfy its width's alignment, and not to overlap another field.
#[derive(Debug, Clone, Copy, PartialEq, Eq)]
pub struct SectionField<'a> {
    pub id: u16,
    pub width: ElementWidth,
    /// Set when the producer marked the field required for a correct reading
    /// of the section.
    pub required: bool,
    pub count: u32,
    pub bytes: &'a [u8],
}

/// The abstract value of a field: its directory facts and its payload bytes.
pub struct SpecField {
    pub id: u16,
    pub width: ElementWidth,
    pub required: bool,
    pub count: u32,
    pub bytes: Seq<u8>,
}

impl<'a> SectionField<'a> {
    pub open spec fn view(&self) -> SpecField {
        SpecField {
            id: self.id,
            width: self.width,
            required: self.required,
            count: self.count,
            bytes: self.bytes@,
        }
    }
}

/// The views of a list of fields.
pub open spec fn fields_view(fields: Seq<SectionField<'_>>) -> Seq<SpecField> {
    fields.map_values(|field: SectionField<'_>| field.view())
}

/// A validated section: header plus the field payloads its directory names.
#[derive(Debug, Clone, PartialEq, Eq)]
pub struct Section<'a> {
    pub header: SectionHeader,
    fields: Vec<SectionField<'a>>,
}

/// The abstract value of a section: its header and the views of its known
/// fields in directory order.
pub struct SpecSection {
    pub header: SectionHeader,
    pub fields: Seq<SpecField>,
}

impl<'a> View for Section<'a> {
    type V = SpecSection;

    closed spec fn view(&self) -> SpecSection {
        SpecSection { header: self.header, fields: fields_view(self.fields@) }
    }
}

impl<'a> Section<'a> {
    /// The known fields of the section, in directory order.
    pub open spec fn spec_fields(&self) -> Seq<SpecField> {
        self@.fields
    }

    pub(crate) fn new(header: SectionHeader, fields: Vec<SectionField<'a>>) -> (section: Self)
        ensures
            section@.header == header,
            section@.fields == fields_view(fields@),
    {
        Section { header, fields }
    }

    /// The validated header.
    pub fn header(&self) -> (header: SectionHeader)
        ensures
            header == self@.header,
    {
        self.header
    }

    pub fn fields(&self) -> (fields: &[SectionField<'a>])
        ensures
            fields_view(fields@) == self.spec_fields(),
    {
        self.fields.as_slice()
    }

    /// The first field with id `id`, if the section has one.
    pub fn field(&self, id: u16) -> (field: Option<&SectionField<'a>>)
        ensures
            field matches Some(f) ==> exists|i: int|
                0 <= i < self.spec_fields().len() && self.spec_fields()[i] == f.view()
                    && f.id == id && forall|j: int| 0 <= j < i ==> #[trigger] self.spec_fields()[j].id != id,
            field is None ==> forall|i: int|
                0 <= i < self.spec_fields().len() ==> #[trigger] self.spec_fields()[i].id != id,
    {
        let mut i: usize = 0;
        while i < self.fields.len()
            invariant
                i <= self.fields@.len(),
                forall|j: int| 0 <= j < i ==> #[trigger] self.spec_fields()[j].id != id,
            decreases self.fields@.len() - i,
        {
            if self.fields[i].id == id {
                assert(self.spec_fields()[i as int] == self.fields@[i as int].view());
                return Some(&self.fields[i]);
            }
            assert(self.spec_fields()[i as int] == self.fields@[i as int].view());
            i = i + 1;
        }
        None
    }

    /// True when token ids are `{book}-{index}` and therefore neither the id
    /// column nor its dictionary is present.
    pub fn positional_ids(&self) -> (positional: bool)
        ensures
            positional == (self@.header.flags & crate::schema::SECTION_FLAG_POSITIONAL_IDS != 0),
    {
        self.header.flags & crate::schema::SECTION_FLAG_POSITIONAL_IDS != 0
    }
}

/// A container whose header and TOC are validated. Sections are validated on
/// demand, so a caller reading one book does not pay for the rest.
#[derive(Debug, Clone, PartialEq, Eq)]
pub struct Container<'a> {
    bytes: &'a [u8],
    header: ContainerHeader,
    toc: Vec<TocEntry>,
    allow_omitted_checksums: bool,
}

/// The abstract value of a container: the bytes it was read from, its
/// validated header and TOC, and the checksum policy it reads sections with.
pub struct SpecContainer {
    pub bytes: Seq<u8>,
    pub header: ContainerHeader,
    pub toc: Seq<TocEntry>,
    pub allow_omitted_checksums: bool,
}

impl<'a> View for Container<'a> {
    type V = SpecContainer;

    closed spec fn view(&self) -> SpecContainer {
        SpecContainer {
            bytes: self.bytes@,
            header: self.header,
            toc: self.toc@,
            allow_omitted_checksums: self.allow_omitted_checksums,
        }
    }
}

impl<'a> Container<'a> {
    pub(crate) fn new(
        bytes: &'a [u8],
        header: ContainerHeader,
        toc: Vec<TocEntry>,
        allow_omitted_checksums: bool,
    ) -> (container: Self)
        ensures
            container@ == (SpecContainer {
                bytes: bytes@,
                header,
                toc: toc@,
                allow_omitted_checksums,
            }),
    {
        Container { bytes, header, toc, allow_omitted_checksums }
    }

    pub fn header(&self) -> (header: &ContainerHeader)
        ensures
            *header == self@.header,
    {
        &self.header
    }

    pub fn toc(&self) -> (toc: &[TocEntry])
        ensures
            toc@ == self@.toc,
    {
        self.toc.as_slice()
    }

    /// `None` only when `index` is past the TOC; a wire problem is the inner
    /// `Err`, so caller mistakes and producer mistakes stay distinguishable.
    pub fn section(&self, index: usize) -> (section: Option<Result<Section<'a>, DecodeError>>)
        ensures
            index >= self@.toc.len() ==> section is None,
            index < self@.toc.len() ==> (section matches Some(r) && read::section_result_is(
                r,
                read::spec_read_section(
                    self@.bytes,
                    self@.toc[index as int],
                    self@.allow_omitted_checksums,
                ),
            )),
    {
        if index < self.toc.len() {
            Some(read::read_section(self.bytes, &self.toc[index], self.allow_omitted_checksums))
        } else {
            None
        }
    }

    /// Every section in TOC order, each validated or refused on its own.
    pub fn sections(&self) -> (sections: Vec<Result<Section<'a>, DecodeError>>)
        ensures
            sections@.len() == self@.toc.len(),
            forall|i: int|
                0 <= i < sections@.len() ==> read::section_result_is(
                    #[trigger] sections@[i],
                    read::spec_read_section(
                        self@.bytes,
                        self@.toc[i],
                        self@.allow_omitted_checksums,
                    ),
                ),
    {
        let mut out: Vec<Result<Section<'a>, DecodeError>> = Vec::new();
        let mut i: usize = 0;
        while i < self.toc.len()
            invariant
                i <= self@.toc.len(),
                out@.len() == i,
                forall|k: int|
                    0 <= k < i ==> read::section_result_is(
                        #[trigger] out@[k],
                        read::spec_read_section(
                            self@.bytes,
                            self@.toc[k],
                            self@.allow_omitted_checksums,
                        ),
                    ),
            decreases self@.toc.len() - i,
        {
            out.push(read::read_section(self.bytes, &self.toc[i], self.allow_omitted_checksums));
            i = i + 1;
        }
        out
    }
}

/// Kind-specific header content for a section being written. Shaped so a
/// token section cannot claim a rule-catalog version and a finding section
/// cannot claim a token-only flag.
#[derive(Debug, Clone, Copy, PartialEq, Eq, Structural)]
pub enum SectionVariant {
    Token { positional_ids: bool },
    Finding { rules_version: u16 },
}

impl SectionVariant {
    /// The section kind of this variant.
    pub open spec fn spec_kind(self) -> SectionKind {
        match self {
            SectionVariant::Token { .. } => SectionKind::Token,
            SectionVariant::Finding { .. } => SectionKind::Finding,
        }
    }

    /// The section-header flag byte this variant writes.
    pub open spec fn spec_flags(self) -> u8 {
        match self {
            SectionVariant::Token { positional_ids: true } => crate::schema::SECTION_FLAG_POSITIONAL_IDS,
            _ => 0,
        }
    }

    /// The rule-catalog version this variant writes; zero for token sections.
    pub open spec fn spec_rules_version(self) -> u16 {
        match self {
            SectionVariant::Token { .. } => crate::schema::TOKEN_SECTION_RULES_VERSION,
            SectionVariant::Finding { rules_version } => rules_version,
        }
    }

    pub fn kind(self) -> (kind: SectionKind)
        ensures
            kind == self.spec_kind(),
    {
        match self {
            SectionVariant::Token { .. } => SectionKind::Token,
            SectionVariant::Finding { .. } => SectionKind::Finding,
        }
    }

    pub fn flags(self) -> (flags: u8)
        ensures
            flags == self.spec_flags(),
    {
        match self {
            SectionVariant::Token { positional_ids: true } => crate::schema::SECTION_FLAG_POSITIONAL_IDS,
            _ => 0,
        }
    }

    pub fn rules_version(self) -> (version: u16)
        ensures
            version == self.spec_rules_version(),
    {
        match self {
            SectionVariant::Token { .. } => crate::schema::TOKEN_SECTION_RULES_VERSION,
            SectionVariant::Finding { rules_version } => rules_version,
        }
    }
}

/// One field payload to write. Required-ness is not a caller input: it comes
/// from the schema table, so a writer cannot mislabel a known field.
#[derive(Debug, Clone, Copy, PartialEq, Eq)]
pub struct FieldPayload<'a> {
    pub id: u16,
    pub width: ElementWidth,
    /// Element count. For a uniform width it must agree with `bytes`; for a
    /// variable-width payload only this field's own reader interprets it.
    pub count: u32,
    pub bytes: &'a [u8],
}

/// One section to write.
#[derive(Debug, Clone, PartialEq, Eq)]
pub struct SectionPayload<'a> {
    pub variant: SectionVariant,
    pub book: BookId,
    pub source_hash: u64,
    /// Exact byte length of the book source the spans in this section index
    /// into.
    pub source_len: u64,
    pub catalog_stamp: u64,
    pub record_count: u32,
    pub fields: Vec<FieldPayload<'a>>,
}

/// One encoded section's extent inside a published book's bytes. A caller
/// keeping a publication's per-book sidecar stores the bytes and these extents
/// together and hands both back.
#[derive(Debug, Clone, Copy, PartialEq, Eq)]
pub struct PublishedSection {
    pub kind: SectionKind,
    pub offset: usize,
    pub len: usize,
}

} // verus!
