//! Finding-section record rules: marker references and parameter contracts.

use std::collections::BTreeMap;

use usfm_onion_wire::book::BookId;
use usfm_onion_wire::finding_section::{
    checked_params, decode_marker_ref, encode_marker_ref, params_are_representable, MarkerRef,
};
use usfm_onion_wire::container::{ElementWidth, SectionField};
use usfm_onion_wire::finding_section::payload::{str_less, PayloadTable};
use usfm_onion_wire::schema::{param_contract, param_contracts, LintCodeTag, ParamVariant};
use usfm_onion_wire::token_payload::StringDictionaryBuilder;
use usfm_onion_wire::{DecodeError, EncodeError};

fn params_for(variant: &ParamVariant) -> BTreeMap<String, String> {
    variant
        .params
        .iter()
        .map(|spec| {
            (
                spec.key.to_string(),
                spec.allowed_values
                    .first()
                    .copied()
                    .unwrap_or("value")
                    .to_string(),
            )
        })
        .collect()
}

fn decoded_pairs(params: &BTreeMap<String, String>) -> Vec<(&str, &str)> {
    params
        .iter()
        .map(|(key, value)| (key.as_str(), value.as_str()))
        .collect()
}

fn representable(code: LintCodeTag, params: &BTreeMap<String, String>) -> bool {
    let pairs = decoded_pairs(params);
    params_are_representable(code, Some(pairs.as_slice()))
}

fn all_codes() -> Vec<LintCodeTag> {
    (0..=u8::MAX).filter_map(LintCodeTag::from_u8).collect()
}

fn book() -> BookId {
    BookId::from_str("GEN").unwrap()
}

#[test]
fn generated_param_contracts_refuse_wrong_missing_extra_and_closed_values() {
    for contract in param_contracts() {
        let variant = &contract.variants[0];
        let valid = params_for(variant);
        let first_key = variant.params[0].key;

        let mut missing = valid.clone();
        missing.remove(first_key);
        assert!(!representable(contract.code, &missing));
        assert!(checked_params(contract.code, Some(decoded_pairs(&missing))).is_err());

        let mut extra = valid.clone();
        extra.insert("unexpected".into(), "value".into());
        assert!(!representable(contract.code, &extra));
        assert!(checked_params(contract.code, Some(decoded_pairs(&extra))).is_err());

        let mut wrong = valid.clone();
        let value = wrong.remove(first_key).unwrap();
        wrong.insert("wrong".into(), value);
        assert!(!representable(contract.code, &wrong));
        assert!(checked_params(contract.code, Some(decoded_pairs(&wrong))).is_err());

        for variant in &contract.variants {
            for spec in variant
                .params
                .iter()
                .filter(|spec| !spec.allowed_values.is_empty())
            {
                let mut closed = params_for(variant);
                closed.insert(spec.key.into(), "not-a-contract-value".into());
                assert!(!representable(contract.code, &closed));
                assert!(checked_params(contract.code, Some(decoded_pairs(&closed))).is_err());
            }
        }
    }
}

#[test]
fn every_contract_variant_is_representable_and_passes_the_decode_check() {
    for contract in param_contracts() {
        for variant in &contract.variants {
            let params = params_for(variant);
            assert!(representable(contract.code, &params));
            let pairs = decoded_pairs(&params);
            assert_eq!(
                checked_params(contract.code, Some(pairs.clone())),
                Ok(Some(pairs))
            );
        }
    }
}

#[test]
fn zero_param_codes_refuse_any_payload_and_accept_none() {
    for code in all_codes() {
        if param_contract(code).is_some() {
            assert!(!params_are_representable(code, None));
            assert_eq!(checked_params(code, None), Err(DecodeError::InvalidSection));
            continue;
        }
        assert!(checked_params(code, Some(Vec::new())).is_err());
        assert!(!params_are_representable(code, Some(&[])));
        assert!(params_are_representable(code, None));
        assert_eq!(checked_params(code, None), Ok(None));
    }
}

#[test]
fn marker_refs_round_trip_through_their_eight_bytes() {
    let markers = [
        MarkerRef::AnchoredToken,
        MarkerRef::CatalogOrdinal(0x1234),
        MarkerRef::SourceSpan { offset: 2, len: 4 },
        MarkerRef::Absent,
    ];
    for marker in markers {
        let bytes = encode_marker_ref(marker, 99, book(), LintCodeTag::UnknownToken).unwrap();
        assert_eq!(decode_marker_ref(&bytes, 99), Ok(marker));
    }
}

#[test]
fn marker_ref_bytes_are_exact() {
    let code = LintCodeTag::UnknownToken;
    assert_eq!(
        encode_marker_ref(MarkerRef::AnchoredToken, 10, book(), code),
        Ok([0; 8])
    );
    assert_eq!(
        encode_marker_ref(MarkerRef::CatalogOrdinal(0x0102), 10, book(), code),
        Ok([1, 0, 0x02, 0x01, 0, 0, 0, 0])
    );
    assert_eq!(
        encode_marker_ref(MarkerRef::SourceSpan { offset: 0x0304, len: 5 }, 0x0400, book(), code),
        Ok([2, 5, 0, 0, 0x04, 0x03, 0, 0])
    );
    assert_eq!(
        encode_marker_ref(MarkerRef::Absent, 10, book(), code),
        Ok([3, 0, 0, 0, 0, 0, 0, 0])
    );
}

#[test]
fn builder_refuses_unrepresentable_source_spans() {
    let code = LintCodeTag::UnknownToken;
    let refusal = Err(EncodeError::UnrepresentablePayload {
        book: book(),
        code: code.as_u8(),
    });
    assert_eq!(
        encode_marker_ref(MarkerRef::SourceSpan { offset: 99, len: 1 }, 99, book(), code),
        refusal
    );
    assert_eq!(
        encode_marker_ref(MarkerRef::SourceSpan { offset: 0, len: 0 }, 99, book(), code),
        refusal
    );
    assert!(encode_marker_ref(MarkerRef::SourceSpan { offset: 98, len: 1 }, 99, book(), code).is_ok());
}

#[test]
fn marker_ref_decode_refuses_bad_shapes() {
    assert_eq!(decode_marker_ref(&[0, 0, 0, 0], 10), Err(DecodeError::Truncated));
    assert_eq!(
        decode_marker_ref(&[0, 1, 0, 0, 0, 0, 0, 0], 10),
        Err(DecodeError::InvalidSection)
    );
    assert_eq!(
        decode_marker_ref(&[1, 0, 5, 0, 1, 0, 0, 0], 10),
        Err(DecodeError::InvalidSection)
    );
    assert_eq!(
        decode_marker_ref(&[2, 4, 0, 0, 8, 0, 0, 0], 10),
        Err(DecodeError::InvalidSection)
    );
    assert_eq!(
        decode_marker_ref(&[2, 0, 0, 0, 1, 0, 0, 0], 10),
        Err(DecodeError::InvalidSection)
    );
    assert_eq!(
        decode_marker_ref(&[3, 0, 0, 0, 0, 0, 0, 1], 10),
        Err(DecodeError::InvalidSection)
    );
    assert_eq!(
        decode_marker_ref(&[4, 0, 0, 0, 0, 0, 0, 0], 10),
        Err(DecodeError::InvalidDiscriminant)
    );
    assert_eq!(
        decode_marker_ref(&[2, 2, 0, 0, 8, 0, 0, 0], 10),
        Ok(MarkerRef::SourceSpan { offset: 8, len: 2 })
    );
}

fn u32s(values: &[u32]) -> Vec<u8> {
    values.iter().flat_map(|v| v.to_le_bytes()).collect()
}

fn field(count: u32, bytes: &[u8]) -> SectionField<'_> {
    SectionField {
        id: 0,
        width: ElementWidth::Variable,
        required: true,
        count,
        bytes,
    }
}

fn strings() -> (Vec<u8>, u32) {
    let mut builder = StringDictionaryBuilder::new();
    for value in ["", "marker", "p", "text", "x"] {
        builder.intern(value).unwrap();
    }
    (builder.bytes(), builder.len())
}

#[test]
fn payload_table_reads_rows_of_ordered_pairs() {
    let (dictionary, count) = strings();
    // Row 0: no pairs. Row 1: marker=p, text=x.
    let mut table = u32s(&[0, 0, 0, 2]);
    table.extend(u32s(&[1, 2, 3, 4]));
    let indices = u32s(&[1, 0, 1]);
    let payload =
        PayloadTable::from_fields(Some(&indices), field(count, &dictionary), field(2, &table)).unwrap();
    assert_eq!(payload.pairs_at(0), Ok(vec![]));
    assert_eq!(payload.pairs_at(1), Ok(vec![("marker", "p"), ("text", "x")]));
    assert_eq!(payload.pairs_at(2), Err(DecodeError::InvalidSection));
    assert_eq!(payload.params(0), Ok(vec![("marker", "p"), ("text", "x")]));
    assert_eq!(payload.params(1), Ok(vec![]));
    assert_eq!(payload.params(3), Err(DecodeError::Truncated));
    assert_eq!(payload.is_zero_filler(1), Ok(true));
    assert_eq!(payload.is_zero_filler(2), Ok(false));
    assert_eq!(payload.string(3), Ok("text"));
    assert_eq!(payload.string(9), Err(DecodeError::InvalidSection));
    assert_eq!(payload.optional_string(u32::MAX), Ok(None));
    assert_eq!(payload.optional_string(2), Ok(Some("p")));

    let without_column =
        PayloadTable::from_fields(None, field(count, &dictionary), field(2, &table)).unwrap();
    assert_eq!(without_column.params(0), Err(DecodeError::InvalidSection));
    assert_eq!(without_column.is_zero_filler(0), Err(DecodeError::InvalidSection));
}

#[test]
fn payload_table_refuses_bad_layouts() {
    let (dictionary, count) = strings();
    let read = |table: &[u8], rows: u32, indices: Option<&[u8]>| {
        PayloadTable::from_fields(indices, field(count, &dictionary), field(rows, table)).map(|_| ())
    };
    let mut good = u32s(&[0, 2]);
    good.extend(u32s(&[1, 2, 3, 4]));
    assert_eq!(read(&good, 1, None), Ok(()));
    assert_eq!(read(&good, 4, None), Err(DecodeError::Truncated));
    assert_eq!(read(&good[..good.len() - 1], 1, None), Err(DecodeError::InvalidSection));
    // Keys out of order.
    let mut unordered = u32s(&[0, 2]);
    unordered.extend(u32s(&[3, 2, 1, 4]));
    assert_eq!(read(&unordered, 1, None), Err(DecodeError::InvalidSection));
    // A repeated key is not strictly ascending either.
    let mut repeated = u32s(&[0, 2]);
    repeated.extend(u32s(&[1, 2, 1, 4]));
    assert_eq!(read(&repeated, 1, None), Err(DecodeError::InvalidSection));
    // A value past the dictionary.
    let mut dangling = u32s(&[0, 1]);
    dangling.extend(u32s(&[1, 9]));
    assert_eq!(read(&dangling, 1, None), Err(DecodeError::InvalidSection));
    // A row that does not start where the previous ended.
    let mut gap = u32s(&[1, 1]);
    gap.extend(u32s(&[1, 2, 3, 4]));
    assert_eq!(read(&gap, 1, None), Err(DecodeError::InvalidSection));
    // A pair no row covers.
    let mut orphan = u32s(&[0, 1]);
    orphan.extend(u32s(&[1, 2, 3, 4]));
    assert_eq!(read(&orphan, 1, None), Err(DecodeError::InvalidSection));
    // A count whose end overflows.
    let mut overflow = u32s(&[0, 1, 1, u32::MAX]);
    overflow.extend(u32s(&[1, 2]));
    assert_eq!(read(&overflow, 2, None), Err(DecodeError::OffsetOverflow));
    let mut past_pairs = u32s(&[0, 5]);
    past_pairs.extend(u32s(&[1, 2]));
    assert_eq!(read(&past_pairs, 1, None), Err(DecodeError::InvalidSection));
    // A per-finding index naming no row.
    let indices = u32s(&[1]);
    assert_eq!(read(&good, 1, Some(&indices)), Err(DecodeError::InvalidSection));
}

#[test]
fn keys_order_by_characters() {
    assert!(str_less("a", "b"));
    assert!(str_less("", "a"));
    assert!(str_less("ab", "abc"));
    assert!(!str_less("abc", "ab"));
    assert!(!str_less("a", "a"));
    assert!(str_less("z", "é"));
}

#[test]
fn param_contract_table_lists_each_parameterised_code_once_in_tag_order() {
    let codes: Vec<u8> = param_contracts().iter().map(|c| c.code.as_u8()).collect();
    assert_eq!(
        codes,
        vec![3, 7, 8, 9, 10, 12, 13, 14, 15, 16, 17, 18, 19, 20, 21, 22, 24, 25, 26, 27, 28, 29, 30, 31]
    );
    for value in 0..32u8 {
        let code = LintCodeTag::from_u8(value).unwrap();
        assert_eq!(param_contract(code).is_some(), codes.contains(&value));
    }
}
