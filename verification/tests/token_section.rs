//! Packed anchors, the SID dictionary and the checked token columns.

use usfm_onion_wire::book::BookId;
use usfm_onion_wire::container::{
    read_container, write_container, ElementWidth, FieldPayload, SectionPayload, SectionVariant,
};
use usfm_onion_wire::error::{DecodeError, EncodeError};
use usfm_onion_wire::schema::{token_field, TokenKindTag, MAX_DISTINCT_SIDS, PACKED_SID_LEN};
use usfm_onion_wire::schema::NumberRangeKindTag;
use usfm_onion_wire::token_codec::{check_source_binding, TokenSectionBuffers};
use usfm_onion_wire::token_payload::{NumberRecords, SparseBuilders, StringDictionaryBuilder, WireNumber};
use usfm_onion_wire::token_section::{
    PackedSid, Sid, SidDictionaryBuilder, SidFidelity, TokenColumns,
};

fn book(code: &str) -> BookId {
    BookId::from_str(code).unwrap()
}

#[test]
fn packed_sid_round_trips_exact_and_anchor_only_ranges() {
    let exact = PackedSid::encode(Sid::with_range(book("GEN"), 1, 1, 128), SidFidelity::Exact);
    assert_eq!(exact.as_bytes()[7], 127);
    let (sid, fidelity) = exact.decode().unwrap();
    assert_eq!(sid.verse_end(), 128);
    assert_eq!(fidelity, SidFidelity::Exact);

    let anchor_only = PackedSid::encode(
        Sid::with_range(book("GEN"), 1, 1, 2),
        SidFidelity::AnchorOnly,
    );
    assert_eq!(anchor_only.as_bytes()[7], 0x81);
    let (sid, fidelity) = anchor_only.decode().unwrap();
    assert_eq!(sid.verse_end(), 2);
    assert_eq!(fidelity, SidFidelity::AnchorOnly);
}

#[test]
fn packed_sid_wider_than_127_becomes_anchor_only() {
    let packed = PackedSid::encode(Sid::with_range(book("GEN"), 1, 1, 129), SidFidelity::Exact);
    assert_eq!(packed.as_bytes()[7], 0x80);
    let (sid, fidelity) = packed.decode().unwrap();
    assert_eq!(sid.verse, 1);
    assert_eq!(sid.verse_end(), 1);
    assert_eq!(fidelity, SidFidelity::AnchorOnly);
}

#[test]
fn builder_dedupes_and_assigns_ordinals_in_first_use_order() {
    let mut builder = SidDictionaryBuilder::new(book("GEN"));
    let first = Sid::new(book("GEN"), 1, 1);
    let second = Sid::new(book("GEN"), 1, 2);
    assert_eq!(builder.intern(second, SidFidelity::Exact), Ok(0));
    assert_eq!(builder.intern(first, SidFidelity::Exact), Ok(1));
    // Same anchor again is the same ordinal, and adds no record.
    assert_eq!(builder.intern(second, SidFidelity::Exact), Ok(0));
    // Same anchor, different fidelity, is a different dictionary entry.
    assert_eq!(builder.intern(second, SidFidelity::AnchorOnly), Ok(2));
    assert_eq!(builder.len(), 3);
    assert_eq!(builder.bytes().len(), 3 * PACKED_SID_LEN);
    assert_eq!(
        PackedSid::from_bytes(builder.bytes()[..PACKED_SID_LEN].try_into().unwrap())
            .decode()
            .unwrap(),
        (second, SidFidelity::Exact)
    );
}

#[test]
fn builder_output_depends_only_on_intern_order() {
    let build = |verses: &[u16]| {
        let mut builder = SidDictionaryBuilder::new(book("GEN"));
        for verse in verses {
            builder
                .intern(Sid::new(book("GEN"), 1, *verse), SidFidelity::Exact)
                .unwrap();
        }
        builder.bytes().to_vec()
    };
    assert_eq!(build(&[3, 1, 2]), build(&[3, 1, 2, 3, 1]));
    assert_ne!(build(&[3, 1, 2]), build(&[1, 2, 3]));
}

#[test]
fn builder_refuses_more_sids_than_the_index_column_can_name() {
    let mut builder = SidDictionaryBuilder::new(book("GEN"));
    let mut interned = 0u32;
    'fill: for chapter in 1..=u16::MAX {
        for verse in 1..=u16::MAX {
            match builder.intern(Sid::new(book("GEN"), chapter, verse), SidFidelity::Exact) {
                Ok(_) => interned += 1,
                Err(error) => {
                    assert_eq!(
                        error,
                        EncodeError::TooManySids {
                            book: book("GEN"),
                            found: MAX_DISTINCT_SIDS + 1,
                        }
                    );
                    break 'fill;
                }
            }
        }
    }
    assert_eq!(interned, MAX_DISTINCT_SIDS);
    assert_eq!(builder.len(), MAX_DISTINCT_SIDS);
}

#[test]
fn packed_sid_rejects_an_invalid_book() {
    let packed = PackedSid::from_bytes(*b"G-N\x01\x00\x01\x00\x00");
    assert_eq!(packed.decode(), Err(DecodeError::InvalidSection));
}

#[test]
fn packed_sid_rejects_invalid_utf8_and_saturates_the_range() {
    let packed = PackedSid::from_bytes([0xff, b'E', b'N', 1, 0, 1, 0, 0]);
    assert_eq!(packed.decode(), Err(DecodeError::InvalidUtf8));
    let packed = PackedSid::from_bytes([b'G', b'E', b'N', 2, 0, 0xff, 0xff, 5]);
    let (sid, fidelity) = packed.decode().unwrap();
    assert_eq!(sid, Sid::with_range(book("GEN"), 2, u16::MAX, u16::MAX));
    assert_eq!(fidelity, SidFidelity::Exact);
    assert_eq!(
        PackedSid::encode(Sid::new(book("EXO"), 3, 4), SidFidelity::Exact).as_bytes(),
        &[b'E', b'X', b'O', 3, 0, 4, 0, 0]
    );
}

struct Columns {
    kinds: Vec<u8>,
    starts: Vec<u8>,
    ends: Vec<u8>,
    sid_indices: Vec<u8>,
    markers: Vec<u8>,
    sids: Vec<u8>,
    sid_count: u32,
    id_indices: Option<(Vec<u8>, Vec<u8>, u32)>,
}

fn columns() -> Columns {
    let mut sids = SidDictionaryBuilder::new(book("GEN"));
    sids.intern(Sid::new(book("GEN"), 1, 1), SidFidelity::Exact).unwrap();
    let mut ids = StringDictionaryBuilder::new();
    ids.intern("a").unwrap();
    ids.intern("b").unwrap();
    Columns {
        kinds: vec![TokenKindTag::Text.as_u8(), TokenKindTag::Number.as_u8()],
        starts: vec![0, 0, 0, 0, 5, 0, 0, 0],
        ends: vec![5, 0, 0, 0, 9, 0, 0, 0],
        sid_indices: vec![0, 0, 0xff, 0xff],
        markers: vec![0xff, 0xff, 0xff, 0xff],
        sids: sids.bytes().to_vec(),
        sid_count: sids.len(),
        id_indices: Some((vec![1, 0, 0, 0, 0, 0, 0, 0], ids.bytes(), ids.len())),
    }
}

fn encode(columns: &Columns, positional_ids: bool) -> Vec<u8> {
    let mut fields = vec![
        FieldPayload {
            id: token_field::KIND,
            width: ElementWidth::One,
            count: 2,
            bytes: &columns.kinds,
        },
        FieldPayload {
            id: token_field::SPAN_START,
            width: ElementWidth::Four,
            count: 2,
            bytes: &columns.starts,
        },
        FieldPayload {
            id: token_field::SPAN_END,
            width: ElementWidth::Four,
            count: 2,
            bytes: &columns.ends,
        },
        FieldPayload {
            id: token_field::SID_INDEX,
            width: ElementWidth::Two,
            count: 2,
            bytes: &columns.sid_indices,
        },
        FieldPayload {
            id: token_field::MARKER_DESCRIPTOR_INDEX,
            width: ElementWidth::Two,
            count: 2,
            bytes: &columns.markers,
        },
        FieldPayload {
            id: token_field::STRING_DICTIONARY,
            width: ElementWidth::Variable,
            count: 0,
            bytes: &[],
        },
        FieldPayload {
            id: token_field::MARKER_DESCRIPTOR_DICTIONARY,
            width: ElementWidth::Eight,
            count: 0,
            bytes: &[],
        },
        FieldPayload {
            id: token_field::PACKED_SID_DICTIONARY,
            width: ElementWidth::Eight,
            count: columns.sid_count,
            bytes: &columns.sids,
        },
    ];
    if let Some((indices, dictionary, count)) = &columns.id_indices {
        fields.push(FieldPayload {
            id: token_field::TOKEN_ID_INDEX,
            width: ElementWidth::Four,
            count: 2,
            bytes: indices,
        });
        fields.push(FieldPayload {
            id: token_field::TOKEN_ID_DICTIONARY,
            width: ElementWidth::Variable,
            count: *count,
            bytes: dictionary,
        });
    }
    let section = SectionPayload {
        variant: SectionVariant::Token { positional_ids },
        book: book("GEN"),
        source_hash: 1,
        source_len: 9,
        catalog_stamp: 0,
        record_count: 2,
        fields,
    };
    write_container(0, &[section]).unwrap()
}

fn read_columns(bytes: &[u8]) -> Result<(), DecodeError> {
    let container = read_container(bytes).unwrap();
    let section = container.section(0).unwrap().unwrap();
    TokenColumns::from_section(&section).map(|_| ())
}

#[test]
fn token_columns_read_back_every_column() {
    let bytes = encode(&columns(), false);
    let container = read_container(&bytes).unwrap();
    let section = container.section(0).unwrap().unwrap();
    let columns = TokenColumns::from_section(&section).unwrap();
    assert_eq!(columns.len(), 2);
    assert!(!columns.is_empty());
    assert_eq!(columns.kind(0), Some(TokenKindTag::Text));
    assert_eq!(columns.kind(1), Some(TokenKindTag::Number));
    assert_eq!(columns.kind(2), None);
    assert_eq!(columns.span(1), Some((5, 9)));
    assert_eq!(columns.span(2), None);
    assert!(columns.has_explicit_ids());
    assert_eq!(columns.token_id_index(0), Some(1));
    assert_eq!(columns.token_id(0), Some("b"));
    assert_eq!(columns.token_id(1), Some("a"));
    assert_eq!(columns.sid_index(0), Some(0));
    assert_eq!(columns.sid(0), Some((Sid::new(book("GEN"), 1, 1), SidFidelity::Exact)));
    assert_eq!(columns.sid(1), None);
    assert_eq!(columns.marker_descriptor_index(1), Some(0xffff));
    assert_eq!(columns.sids().len(), 1);
    assert_eq!(columns.kinds(), &[8, 7]);
}

#[test]
fn token_columns_accept_positional_ids_without_an_id_column() {
    let mut plain = columns();
    plain.id_indices = None;
    let bytes = encode(&plain, true);
    let container = read_container(&bytes).unwrap();
    let section = container.section(0).unwrap().unwrap();
    let columns = TokenColumns::from_section(&section).unwrap();
    assert!(!columns.has_explicit_ids());
    assert_eq!(columns.token_id(0), None);
}

#[test]
fn token_columns_refuse_bad_columns() {
    let mut unknown_kind = columns();
    unknown_kind.kinds[1] = 99;
    assert_eq!(
        read_columns(&encode(&unknown_kind, false)),
        Err(DecodeError::InvalidDiscriminant)
    );

    let mut dangling_sid = columns();
    dangling_sid.sid_indices = vec![1, 0, 0xff, 0xff];
    assert_eq!(
        read_columns(&encode(&dangling_sid, false)),
        Err(DecodeError::InvalidSection)
    );

    let mut missing_ids = columns();
    missing_ids.id_indices = None;
    assert_eq!(
        read_columns(&encode(&missing_ids, false)),
        Err(DecodeError::InvalidSection)
    );

    let mut empty_id = columns();
    let mut ids = StringDictionaryBuilder::new();
    ids.intern("").unwrap();
    empty_id.id_indices = Some((vec![0; 8], ids.bytes(), ids.len()));
    assert_eq!(
        read_columns(&encode(&empty_id, false)),
        Err(DecodeError::InvalidSection)
    );

    let mut bad_sid = columns();
    bad_sid.sids = b"G-N\x01\x00\x01\x00\x00".to_vec();
    assert_eq!(
        read_columns(&encode(&bad_sid, false)),
        Err(DecodeError::InvalidSection)
    );
}

fn buffers(explicit_ids: bool) -> TokenSectionBuffers {
    let columns = columns();
    let mut sparse = SparseBuilders::new();
    sparse.push_number(
        1,
        WireNumber {
            start: 1,
            end: None,
            kind: NumberRangeKindTag::Single,
        },
    );
    sparse.seal_attributes();
    let (token_id_indices, token_ids, token_id_count) = match (explicit_ids, columns.id_indices) {
        (true, Some(ids)) => ids,
        _ => (Vec::new(), Vec::new(), 0),
    };
    TokenSectionBuffers {
        book: book("GEN"),
        source_hash: 1,
        source_len: 9,
        catalog_stamp: 0,
        record_count: 2,
        kinds: columns.kinds,
        span_starts: columns.starts,
        span_ends: columns.ends,
        sid_indices: columns.sid_indices,
        descriptor_indices: columns.markers,
        sids: columns.sids,
        sid_count: columns.sid_count,
        strings: Vec::new(),
        string_count: 0,
        descriptors: Vec::new(),
        descriptor_count: 0,
        sparse,
        token_id_indices,
        token_ids,
        token_id_count,
    }
}

#[test]
fn token_section_buffers_lay_out_present_fields_only() {
    let explicit = buffers(true);
    let payload = explicit.payload();
    let ids: Vec<u16> = payload.fields.iter().map(|f| f.id).collect();
    assert_eq!(
        ids,
        vec![
            token_field::KIND,
            token_field::SPAN_START,
            token_field::SPAN_END,
            token_field::SID_INDEX,
            token_field::MARKER_DESCRIPTOR_INDEX,
            token_field::STRING_DICTIONARY,
            token_field::MARKER_DESCRIPTOR_DICTIONARY,
            token_field::PACKED_SID_DICTIONARY,
            token_field::NUMBER_RECORDS,
            token_field::TOKEN_ID_INDEX,
            token_field::TOKEN_ID_DICTIONARY,
        ]
    );
    assert_eq!(payload.fields[8].count, 1);
    assert_eq!(payload.variant, SectionVariant::Token { positional_ids: false });
    let bytes = write_container(0, &[payload]).unwrap();
    let container = read_container(&bytes).unwrap();
    let section = container.section(0).unwrap().unwrap();
    let columns = TokenColumns::from_section(&section).unwrap();
    assert_eq!(columns.token_id(1), Some("a"));
    let numbers = section.field(token_field::NUMBER_RECORDS).unwrap();
    let records = NumberRecords::from_field(numbers, section.header().record_count).unwrap();
    assert_eq!(
        records.get(1),
        Some(WireNumber {
            start: 1,
            end: None,
            kind: NumberRangeKindTag::Single
        })
    );

    let positional = buffers(false);
    let payload = positional.payload();
    assert_eq!(payload.variant, SectionVariant::Token { positional_ids: true });
    assert_eq!(payload.fields.len(), 9);
}

fn bound_header(source: &str, catalog_stamp: u64) -> usfm_onion_wire::container::SectionHeader {
    usfm_onion_wire::container::SectionHeader {
        format_version: usfm_onion_wire::schema::FORMAT_VERSION,
        rules_version: 0,
        kind: usfm_onion_wire::schema::SectionKind::Token,
        flags: 0,
        book: book("GEN"),
        record_count: 0,
        source_hash: usfm_onion_wire::primitives::source_hash(source),
        section_len: 0,
        checksum: 0,
        source_len: source.len() as u64,
        catalog_stamp,
    }
}

#[test]
fn source_binding_checks_kind_length_hash_then_catalog() {
    let source = "\\id GEN\n\\c 1\n";
    let header = bound_header(source, 7);
    assert_eq!(check_source_binding(&header, source, 7), Ok(()));

    let mut finding = header;
    finding.kind = usfm_onion_wire::schema::SectionKind::Finding;
    finding.source_len += 1;
    assert_eq!(check_source_binding(&finding, source, 7), Err(DecodeError::InvalidSection));

    assert_eq!(
        check_source_binding(&header, "\\id GEN\n\\c 1\n\n", 8),
        Err(DecodeError::SourceLengthMismatch)
    );
    assert_eq!(
        check_source_binding(&header, "\\id EXO\n\\c 1\n", 8),
        Err(DecodeError::SourceHashMismatch)
    );
    assert_eq!(check_source_binding(&header, source, 8), Err(DecodeError::CatalogMismatch));
}
