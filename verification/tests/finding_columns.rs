//! Checked finding-section columns, read from hand-built sections.

use usfm_onion_wire::book::BookId;
use usfm_onion_wire::container::{
    read_container, write_container, ElementWidth, FieldPayload, SectionPayload, SectionVariant,
};
use usfm_onion_wire::error::DecodeError;
use usfm_onion_wire::finding_section::columns::{FindingColumns, FindingDecodeInputs};
use usfm_onion_wire::finding_section::MarkerRef;
use usfm_onion_wire::schema::{
    finding_field, finding_flag, token_field, LintCodeTag, FINDING_SECTION_RULES_VERSION,
};

const KINDS: [u8; 2] = [8, 8];
const SPANS: [u8; 8] = [0, 0, 0, 0, 5, 0, 0, 0];
const SPAN_ENDS: [u8; 8] = [5, 0, 0, 0, 9, 0, 0, 0];
const NONE_U16: [u8; 4] = [0xff, 0xff, 0xff, 0xff];
const STRINGS: [u8; 4] = [0, 0, 0, 0];
const DESCRIPTORS: [u8; 8] = [1, 0, 0, 0, 0, 0, 0, 0];

fn book() -> BookId {
    BookId::from_str("GEN").unwrap()
}

fn token_section() -> SectionPayload<'static> {
    let field = |id, width, count, bytes: &'static [u8]| FieldPayload { id, width, count, bytes };
    SectionPayload {
        variant: SectionVariant::Token { positional_ids: true },
        book: book(),
        source_hash: 1,
        source_len: 9,
        catalog_stamp: 0,
        record_count: 2,
        fields: vec![
            field(token_field::KIND, ElementWidth::One, 2, &KINDS),
            field(token_field::SPAN_START, ElementWidth::Four, 2, &SPANS),
            field(token_field::SPAN_END, ElementWidth::Four, 2, &SPAN_ENDS),
            field(token_field::SID_INDEX, ElementWidth::Two, 2, &NONE_U16),
            field(token_field::MARKER_DESCRIPTOR_INDEX, ElementWidth::Two, 2, &NONE_U16),
            field(token_field::STRING_DICTIONARY, ElementWidth::Variable, 0, &STRINGS),
            field(token_field::MARKER_DESCRIPTOR_DICTIONARY, ElementWidth::Eight, 1, &DESCRIPTORS),
            field(token_field::PACKED_SID_DICTIONARY, ElementWidth::Eight, 0, &[]),
        ],
    }
}

/// One common row.
fn row(token: u32, offset: u16, len: u16, chapter: u16, verse: u16, range_end: u8, code: u8, flags: u8) -> Vec<u8> {
    let mut out = Vec::new();
    out.extend_from_slice(&token.to_le_bytes());
    out.extend_from_slice(&offset.to_le_bytes());
    out.extend_from_slice(&len.to_le_bytes());
    out.extend_from_slice(&chapter.to_le_bytes());
    out.extend_from_slice(&verse.to_le_bytes());
    out.extend_from_slice(&[range_end, code, flags, 0]);
    out
}

/// Writes a container holding the token section and a finding section of
/// `rows` with `extra` fields, reads the finding section back and checks it.
fn decode(rules_version: u16, rows: &[Vec<u8>], extra: &[(u16, ElementWidth, u32, &[u8])]) -> Result<FindingColumns<'static>, DecodeError> {
    let common: Vec<u8> = rows.concat();
    let mut fields = vec![FieldPayload {
        id: finding_field::COMMON_ROW,
        width: ElementWidth::Sixteen,
        count: rows.len() as u32,
        bytes: &common,
    }];
    for (id, width, count, bytes) in extra {
        fields.push(FieldPayload { id: *id, width: *width, count: *count, bytes });
    }
    let finding = SectionPayload {
        variant: SectionVariant::Finding { rules_version },
        book: book(),
        source_hash: 1,
        source_len: 9,
        catalog_stamp: 0,
        record_count: rows.len() as u32,
        fields,
    };
    let bytes = write_container(0, &[token_section(), finding]).expect("sections encode");
    let bytes: &'static [u8] = Box::leak(bytes.into_boxed_slice());
    let container = read_container(bytes).expect("container reads");
    let section = container.section(1).unwrap().expect("finding section reads");
    FindingColumns::from_section(&section, FindingDecodeInputs { token_count: 2 })
}

#[test]
fn anchored_and_unanchored_rows_read_back() {
    let rows = [
        row(0, 3, 2, 1, 2, 0, 0, 0),
        row(u32::MAX, 0, 0, 0, 0, 0, 1, finding_flag::NO_ANCHOR),
    ];
    let columns = decode(FINDING_SECTION_RULES_VERSION, &rows, &[]).unwrap();
    let rows = columns.rows();
    assert_eq!(rows.len(), 2);
    assert_eq!(rows[0].token_idx, Some(0));
    assert_eq!((rows[0].offset, rows[0].len), (3, 2));
    assert_eq!((rows[0].chapter, rows[0].verse, rows[0].range_end), (Some(1), Some(2), None));
    assert_eq!(rows[0].code, LintCodeTag::MissingIdMarker);
    assert_eq!(rows[0].marker, MarkerRef::AnchoredToken);
    assert_eq!(rows[0].params, None);
    assert_eq!(rows[1].token_idx, None);
    assert_eq!((rows[1].chapter, rows[1].verse), (None, None));
    assert_eq!(rows[1].code, LintCodeTag::DuplicateIdMarker);
    assert_eq!(columns.source_len, 9);
    assert_eq!(columns.rules_version, FINDING_SECTION_RULES_VERSION);
}

#[test]
fn zero_rows_decode_to_no_findings() {
    assert!(decode(FINDING_SECTION_RULES_VERSION, &[], &[]).unwrap().rows().is_empty());
}

#[test]
fn row_shapes_the_flags_forbid_are_refused() {
    let v = FINDING_SECTION_RULES_VERSION;
    assert_eq!(decode(7, &[row(0, 0, 0, 1, 1, 0, 0, 0)], &[]).err(), Some(DecodeError::UnsupportedVersion { found: 7 }));
    assert_eq!(decode(v, &[row(0, 0, 0, 1, 1, 0, 0, 0x80)], &[]).err(), Some(DecodeError::UnsupportedFlags { found: 0x80 }));
    assert_eq!(decode(v, &[row(0, 0, 0, 1, 1, 0, 99, 0)], &[]).err(), Some(DecodeError::InvalidDiscriminant));
    // A range flag with no range end, and a range end with no flag.
    assert_eq!(decode(v, &[row(0, 0, 0, 1, 1, 0, 0, finding_flag::RANGE)], &[]).err(), Some(DecodeError::InvalidSection));
    assert_eq!(decode(v, &[row(0, 0, 0, 1, 1, 4, 0, 0)], &[]).err(), Some(DecodeError::InvalidSection));
    // No anchor yet a chapter, and no anchor yet anchor-only.
    assert_eq!(decode(v, &[row(0, 0, 0, 1, 0, 0, 0, finding_flag::NO_ANCHOR)], &[]).err(), Some(DecodeError::InvalidSection));
    assert_eq!(
        decode(v, &[row(0, 0, 0, 0, 0, 0, 0, finding_flag::NO_ANCHOR | finding_flag::ANCHOR_ONLY)], &[]).err(),
        Some(DecodeError::InvalidSection)
    );
    // A token index past the token section.
    assert_eq!(decode(v, &[row(2, 0, 0, 1, 1, 0, 0, 0)], &[]).err(), Some(DecodeError::InvalidSection));
    // A code with a parameter contract but no parameters.
    assert_eq!(decode(v, &[row(0, 0, 0, 1, 1, 0, 3, 0)], &[]).err(), Some(DecodeError::InvalidSection));
    // A fix with no patch table.
    assert_eq!(decode(v, &[row(0, 0, 0, 1, 1, 0, 0, finding_flag::FIX)], &[]).err(), Some(DecodeError::InvalidSection));
    // A flag whose sidecar is missing.
    assert_eq!(decode(v, &[row(0, 0, 0, 1, 1, 0, 0, finding_flag::RELATED)], &[]).err(), Some(DecodeError::InvalidSection));
}

#[test]
fn related_and_overflow_sidecars_read_and_zero_fill() {
    let v = FINDING_SECTION_RULES_VERSION;
    let rows = [row(0, 0, 0, 1, 1, 0, 0, 0), row(1, 0xffff, 0xffff, 1, 1, 0, 0, finding_flag::RELATED | finding_flag::OVERFLOW)];
    let mut related = vec![0u8; 16];
    for word in [1u32, 70_002, 80_003, 0] {
        related.extend_from_slice(&word.to_le_bytes());
    }
    let mut overflow = vec![0u8; 8];
    overflow.extend_from_slice(&70_000u32.to_le_bytes());
    overflow.extend_from_slice(&80_000u32.to_le_bytes());
    let extra: [(u16, ElementWidth, u32, &[u8]); 2] = [
        (finding_field::RELATED_TOKEN_IDX, ElementWidth::Sixteen, 2, &related),
        (finding_field::OVERFLOW_SPAN, ElementWidth::Eight, 2, &overflow),
    ];
    let columns = decode(v, &rows, &extra).unwrap();
    assert_eq!(columns.rows()[0].related, None);
    assert_eq!(columns.rows()[0].offset, 0);
    assert_eq!(columns.rows()[1].related, Some((1, 70_002, 80_003)));
    assert_eq!((columns.rows()[1].offset, columns.rows()[1].len), (70_000, 80_000));

    // A nonzero filler in an unused row, and a nonzero reserved word.
    let mut dirty = related.clone();
    dirty[0] = 1;
    let extra: [(u16, ElementWidth, u32, &[u8]); 2] = [
        (finding_field::RELATED_TOKEN_IDX, ElementWidth::Sixteen, 2, &dirty),
        (finding_field::OVERFLOW_SPAN, ElementWidth::Eight, 2, &overflow),
    ];
    assert_eq!(decode(v, &rows, &extra).err(), Some(DecodeError::InvalidSection));
    let mut reserved = related.clone();
    reserved[28] = 1;
    let extra: [(u16, ElementWidth, u32, &[u8]); 2] = [
        (finding_field::RELATED_TOKEN_IDX, ElementWidth::Sixteen, 2, &reserved),
        (finding_field::OVERFLOW_SPAN, ElementWidth::Eight, 2, &overflow),
    ];
    assert_eq!(decode(v, &rows, &extra).err(), Some(DecodeError::InvalidSection));

    // A sidecar that no row uses.
    let unused = [row(0, 0, 0, 1, 1, 0, 0, 0), row(1, 0, 0, 1, 1, 0, 0, finding_flag::OVERFLOW)];
    let zeros = vec![0u8; 32];
    let extra: [(u16, ElementWidth, u32, &[u8]); 2] = [
        (finding_field::RELATED_TOKEN_IDX, ElementWidth::Sixteen, 2, &zeros),
        (finding_field::OVERFLOW_SPAN, ElementWidth::Eight, 2, &overflow),
    ];
    assert_eq!(decode(v, &unused, &extra).err(), Some(DecodeError::InvalidSection));
}

#[test]
fn marker_references_read_and_a_patch_table_is_refused() {
    let v = FINDING_SECTION_RULES_VERSION;
    let rows = [row(0, 0, 0, 1, 1, 0, 0, 0)];
    let markers: [u8; 8] = [1, 0, 4, 0, 0, 0, 0, 0];
    let extra: [(u16, ElementWidth, u32, &[u8]); 1] = [(finding_field::MARKER_REF, ElementWidth::Eight, 1, &markers)];
    assert_eq!(decode(v, &rows, &extra).unwrap().rows()[0].marker, MarkerRef::CatalogOrdinal(4));

    let patch_ids = [0u8; 4];
    let patch_table = [0u8; 8];
    let extra: [(u16, ElementWidth, u32, &[u8]); 2] = [
        (finding_field::PATCH_ID, ElementWidth::Four, 1, &patch_ids),
        (finding_field::PATCH_TABLE, ElementWidth::Variable, 0, &patch_table),
    ];
    assert_eq!(decode(v, &rows, &extra).err(), Some(DecodeError::InvalidSection));
}
