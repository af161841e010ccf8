//! Finding sections written by the buffers and read back by the checked
//! columns.

use usfm_onion_wire::book::BookId;
use usfm_onion_wire::container::{
    read_container, read_container_unchecked, write_container, ElementWidth, FieldPayload,
    SectionPayload, SectionVariant,
};
use usfm_onion_wire::error::{DecodeError, EncodeError};
use usfm_onion_wire::finding_section::buffers::{FindingRowInput, FindingSectionBuffers};
use usfm_onion_wire::finding_section::checked_params;
use usfm_onion_wire::finding_section::columns::{FindingColumns, FindingDecodeInputs};
use usfm_onion_wire::finding_section::MarkerRef;
use usfm_onion_wire::schema::{
    finding_field, param_contract, param_contracts, token_field, LintCodeTag, ParamVariant,
    CONTAINER_CHECKSUM_OFFSET, SECTION_CHECKSUM_OFFSET,
};

fn book() -> BookId {
    BookId::from_str("GEN").unwrap()
}

fn input() -> FindingRowInput {
    FindingRowInput {
        token_idx: Some(0),
        offset: 0,
        len: 0,
        chapter: Some(1),
        verse: Some(1),
        range_end: None,
        code: LintCodeTag::MissingIdMarker,
        anchor_only: false,
        related: None,
        marker: MarkerRef::AnchoredToken,
        params: None,
    }
}

fn params(pairs: &[(&str, &str)]) -> Vec<(String, String)> {
    let mut out: Vec<(String, String)> = pairs.iter().map(|(k, v)| (k.to_string(), v.to_string())).collect();
    out.sort();
    out
}

fn section(rows: &[FindingRowInput]) -> FindingSectionBuffers {
    FindingSectionBuffers::new(book(), 7, 99, 11, rows).unwrap()
}

fn encoded(rows: &[FindingRowInput]) -> Vec<u8> {
    let finding = section(rows);
    let field = |id, width, count, bytes: &'static [u8]| FieldPayload { id, width, count, bytes };
    let token = SectionPayload {
        variant: SectionVariant::Token { positional_ids: true },
        book: book(),
        source_hash: 7,
        source_len: 99,
        catalog_stamp: 11,
        record_count: 1,
        fields: vec![
            field(token_field::KIND, ElementWidth::One, 1, &[0]),
            field(token_field::SPAN_START, ElementWidth::Four, 1, &[0; 4]),
            field(token_field::SPAN_END, ElementWidth::Four, 1, &[0; 4]),
            field(token_field::SID_INDEX, ElementWidth::Two, 1, &[0xff, 0xff]),
            field(token_field::MARKER_DESCRIPTOR_INDEX, ElementWidth::Two, 1, &[0xff, 0xff]),
            field(token_field::STRING_DICTIONARY, ElementWidth::Variable, 0, &[]),
            field(token_field::MARKER_DESCRIPTOR_DICTIONARY, ElementWidth::Eight, 0, &[]),
            field(token_field::PACKED_SID_DICTIONARY, ElementWidth::Eight, 0, &[]),
        ],
    };
    write_container(1, &[token, finding.payload()]).unwrap()
}

fn decoded(bytes: &[u8]) -> Result<FindingColumns<'_>, DecodeError> {
    let container = read_container(bytes)?;
    let section = container.section(1).unwrap()?;
    FindingColumns::from_section(&section, FindingDecodeInputs { token_count: 1 })
}

fn decoded_unchecked(bytes: &[u8]) -> Result<FindingColumns<'_>, DecodeError> {
    let container = read_container_unchecked(bytes)?;
    let section = container.section(1).unwrap()?;
    FindingColumns::from_section(&section, FindingDecodeInputs { token_count: 1 })
}

fn omit_checksums(bytes: &mut [u8]) {
    bytes[CONTAINER_CHECKSUM_OFFSET..CONTAINER_CHECKSUM_OFFSET + 8].fill(0);
    let magic = usfm_onion_wire::schema::section_magic_bytes();
    let starts: Vec<usize> = bytes
        .windows(magic.len())
        .enumerate()
        .filter_map(|(start, window)| if window == magic { Some(start) } else { None })
        .collect();
    for start in starts {
        bytes[start + SECTION_CHECKSUM_OFFSET..start + SECTION_CHECKSUM_OFFSET + 8].fill(0);
    }
}

fn field_offset(bytes: &[u8], field_id: u16) -> usize {
    let container = read_container(bytes).unwrap();
    let section = container.section(1).unwrap().unwrap();
    section.field(field_id).unwrap().bytes.as_ptr() as usize - bytes.as_ptr() as usize
}

fn corrupt_first_filler(bytes: &mut [u8], field_id: u16) {
    let at = field_offset(bytes, field_id);
    bytes[at] = 1;
    omit_checksums(bytes);
}

fn replace_first_code(bytes: &mut [u8], code: LintCodeTag) {
    let at = field_offset(bytes, finding_field::COMMON_ROW);
    bytes[at + 13] = code.as_u8();
    omit_checksums(bytes);
}

fn params_for(variant: &ParamVariant) -> Vec<(String, String)> {
    let mut out: Vec<(String, String)> = variant
        .params
        .iter()
        .map(|spec| {
            (spec.key.to_string(), spec.allowed_values.first().copied().unwrap_or("value").to_string())
        })
        .collect();
    out.sort();
    out
}

fn decoded_pairs(params: &[(String, String)]) -> Vec<(&str, &str)> {
    params.iter().map(|(key, value)| (key.as_str(), value.as_str())).collect()
}

#[test]
fn zero_rows_and_deterministic_bytes_decode() {
    let first = encoded(&[]);
    assert_eq!(first, encoded(&[]));
    assert!(decoded(&first).unwrap().rows().is_empty());
}

#[test]
fn every_sidecar_and_unicode_payload_round_trip() {
    let mut row = input();
    row.offset = 70_000;
    row.len = 80_000;
    row.related = Some((0, 70_002, 80_003));
    row.marker = MarkerRef::CatalogOrdinal(4);
    row.code = LintCodeTag::UnknownToken;
    row.params = Some(params(&[("text", "日本語")]));
    let bytes = encoded(&[row]);
    let decoded = decoded(&bytes).unwrap();
    assert_eq!(decoded.rows()[0].offset, 70_000);
    assert_eq!(decoded.rows()[0].related, Some((0, 70_002, 80_003)));
    assert_eq!(decoded.rows()[0].marker, MarkerRef::CatalogOrdinal(4));
    assert_eq!(decoded.rows()[0].params.as_ref().unwrap()[0], ("text", "日本語"));
}

#[test]
fn section_wide_sidecars_zero_fill_clear_rows() {
    let base = input();

    let mut related = input();
    related.related = Some((0, 2, 3));
    let bytes = encoded(&[base.clone(), related]);
    let views = decoded(&bytes).unwrap();
    assert_eq!(views.rows()[0].related, None);
    assert_eq!(views.rows()[1].related, Some((0, 2, 3)));

    let mut overflow = input();
    overflow.offset = 70_000;
    let bytes = encoded(&[base.clone(), overflow]);
    let views = decoded(&bytes).unwrap();
    assert_eq!(views.rows()[0].offset, 0);
    assert_eq!(views.rows()[1].offset, 70_000);

    let mut payload = input();
    payload.code = LintCodeTag::EmptyParagraph;
    payload.params = Some(params(&[("marker", "p")]));
    let bytes = encoded(&[base, payload]);
    let views = decoded(&bytes).unwrap();
    assert_eq!(views.rows()[0].params, None);
    assert_eq!(views.rows()[1].params.as_ref().unwrap(), &[("marker", "p")]);
}

#[test]
fn decoder_rejects_nonzero_sidecar_fillers() {
    let base = input();

    let mut related = input();
    related.related = Some((0, 2, 3));
    let mut bytes = encoded(&[base.clone(), related]);
    corrupt_first_filler(&mut bytes, finding_field::RELATED_TOKEN_IDX);
    assert!(matches!(decoded_unchecked(&bytes), Err(DecodeError::InvalidSection)));

    let mut overflow = input();
    overflow.offset = 70_000;
    let mut bytes = encoded(&[base.clone(), overflow]);
    corrupt_first_filler(&mut bytes, finding_field::OVERFLOW_SPAN);
    assert!(matches!(decoded_unchecked(&bytes), Err(DecodeError::InvalidSection)));

    let mut payload = input();
    payload.code = LintCodeTag::EmptyParagraph;
    payload.params = Some(params(&[("marker", "p")]));
    let mut bytes = encoded(&[base, payload]);
    corrupt_first_filler(&mut bytes, finding_field::MESSAGE_PAYLOAD_IDX);
    assert!(matches!(decoded_unchecked(&bytes), Err(DecodeError::InvalidSection)));
}

#[test]
fn decoder_rejects_nonzero_related_reserved_word() {
    let mut related = input();
    related.related = Some((0, 2, 3));
    let mut bytes = encoded(&[related]);
    let reserved_offset = field_offset(&bytes, finding_field::RELATED_TOKEN_IDX) + 12;
    bytes[reserved_offset] = 1;
    omit_checksums(&mut bytes);
    assert!(matches!(decoded_unchecked(&bytes), Err(DecodeError::InvalidSection)));
}

#[test]
fn generated_param_contracts_gate_encode_and_decode() {
    for contract in param_contracts() {
        for variant in &contract.variants {
            let params = params_for(variant);
            let mut row = input();
            row.code = contract.code;
            row.params = Some(params.clone());
            let bytes = encoded(&[row]);
            let views = decoded(&bytes).unwrap();
            assert_eq!(views.rows()[0].params.as_ref().unwrap(), &decoded_pairs(&params));
            assert!(checked_params(contract.code, Some(decoded_pairs(&params))).is_ok());
        }
    }
}

#[test]
fn zero_param_codes_refuse_payloads() {
    for value in 0..32u8 {
        let code = LintCodeTag::from_u8(value).unwrap();
        if param_contract(code).is_some() {
            continue;
        }
        let mut row = input();
        row.code = code;
        row.params = Some(Vec::new());
        assert!(matches!(
            FindingSectionBuffers::new(book(), 7, 99, 11, &[row]),
            Err(EncodeError::UnrepresentablePayload { .. })
        ));
        assert!(checked_params(code, Some(Vec::new())).is_err());
    }
}

#[test]
fn decoder_rechecks_payload_contract_after_structural_decode() {
    let mut row = input();
    row.code = LintCodeTag::UnknownToken;
    row.params = Some(params(&[("text", "x")]));

    let mut wrong_key = encoded(&[row.clone()]);
    replace_first_code(&mut wrong_key, LintCodeTag::UnknownMarker);
    assert!(matches!(decoded_unchecked(&wrong_key), Err(DecodeError::InvalidSection)));

    let mut zero_param = encoded(&[row]);
    replace_first_code(&mut zero_param, LintCodeTag::MissingIdMarker);
    assert!(matches!(decoded_unchecked(&zero_param), Err(DecodeError::InvalidSection)));
}

#[test]
fn source_span_and_absent_marker_refs_round_trip() {
    let mut span = input();
    span.marker = MarkerRef::SourceSpan { offset: 2, len: 4 };
    let mut absent = input();
    absent.marker = MarkerRef::Absent;
    let bytes = encoded(&[span, absent]);
    let views = decoded(&bytes).unwrap();
    assert_eq!(views.rows()[0].marker, MarkerRef::SourceSpan { offset: 2, len: 4 });
    assert_eq!(views.rows()[1].marker, MarkerRef::Absent);
}

#[test]
fn builder_refuses_unrepresentable_marker_and_anchor_shapes() {
    let mut row = input();
    row.marker = MarkerRef::SourceSpan { offset: 99, len: 1 };
    assert!(FindingSectionBuffers::new(book(), 1, 99, 1, &[row]).is_err());
    let mut bad_anchor = input();
    bad_anchor.chapter = None;
    assert!(FindingSectionBuffers::new(book(), 1, 99, 1, &[bad_anchor]).is_err());
}

#[test]
fn all_truncations_and_single_byte_corruption_are_survivable() {
    let mut row = input();
    row.code = LintCodeTag::EmptyParagraph;
    row.params = Some(params(&[("marker", "p")]));
    let bytes = encoded(&[row]);
    for end in 0..bytes.len() {
        assert!(decoded(&bytes[..end]).is_err());
    }
    for index in 0..bytes.len() {
        let mut corrupt = bytes.clone();
        corrupt[index] ^= 0xff;
        let _ = decoded(&corrupt);
    }
}

#[test]
fn builder_refuses_parameters_out_of_key_order_and_reads_anchor_shapes() {
    let mut row = input();
    row.code = LintCodeTag::ContentBeforeFirstChapter;
    row.params = Some(vec![("marker".to_string(), "p".to_string()), ("kind".to_string(), "verse".to_string())]);
    assert_eq!(
        FindingSectionBuffers::new(book(), 7, 99, 11, &[row.clone()]).err(),
        Some(EncodeError::UnrepresentablePayload { book: book(), code: LintCodeTag::ContentBeforeFirstChapter.as_u8() })
    );
    row.params = Some(params(&[("marker", "p"), ("kind", "verse")]));
    let bytes = encoded(&[row]);
    assert_eq!(
        decoded(&bytes).unwrap().rows()[0].params.as_ref().unwrap(),
        &[("kind", "verse"), ("marker", "p")]
    );

    let mut unanchored = input();
    unanchored.chapter = None;
    unanchored.verse = None;
    unanchored.token_idx = None;
    let mut ranged = input();
    ranged.range_end = Some(4);
    ranged.anchor_only = true;
    let bytes = encoded(&[unanchored, ranged]);
    let views = decoded(&bytes).unwrap();
    assert_eq!((views.rows()[0].token_idx, views.rows()[0].chapter, views.rows()[0].verse), (None, None, None));
    assert_eq!((views.rows()[1].range_end, views.rows()[1].anchor_only), (Some(4), true));

    let buffers = section(&[input()]);
    assert_eq!(buffers.payload().fields.len(), 1);
    assert!(buffers.related.is_none() && buffers.strings.is_none() && buffers.payload_table.is_none());
}
