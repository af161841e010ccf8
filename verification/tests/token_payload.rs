//! Token-section payloads: dictionaries, sparse records and their builders.

use usfm_onion_wire::container::{ElementWidth, SectionField};
use usfm_onion_wire::error::DecodeError;
use usfm_onion_wire::schema::NumberRangeKindTag;
use usfm_onion_wire::token_payload::{
    AttributeRecords, BookCodeRecords, MarkerDescriptorBuilder, MarkerDescriptors, NumberRecords,
    SourceSpan, SparseBuilders, StringDictionary, StringDictionaryBuilder, WireNumber,
};

fn field(width: ElementWidth, count: u32, bytes: &[u8]) -> SectionField<'_> {
    SectionField {
        id: 1,
        width,
        required: true,
        count,
        bytes,
    }
}

fn dictionary_bytes(values: &[&str]) -> (Vec<u8>, u32) {
    let mut builder = StringDictionaryBuilder::new();
    for value in values {
        builder.intern(value).unwrap();
    }
    (builder.bytes(), builder.len())
}

#[test]
fn string_dictionary_builder_interns_in_first_use_order() {
    let mut builder = StringDictionaryBuilder::new();
    assert_eq!(builder.intern("p"), Ok(0));
    assert_eq!(builder.intern("v"), Ok(1));
    assert_eq!(builder.intern("p"), Ok(0));
    assert_eq!(builder.intern(""), Ok(2));
    assert_eq!(builder.len(), 3);
    assert_eq!(
        builder.bytes(),
        vec![0, 0, 0, 0, 1, 0, 0, 0, 2, 0, 0, 0, b'p', b'v']
    );
}

#[test]
fn string_dictionary_round_trips_unicode() {
    let values = ["", "é", "ἀρχῇ", "p", "\u{1F600}"];
    let (bytes, count) = dictionary_bytes(&values);
    let dict = StringDictionary::from_field(&field(ElementWidth::Variable, count, &bytes)).unwrap();
    assert_eq!(dict.len(), values.len() as u32);
    for (index, value) in values.iter().enumerate() {
        assert_eq!(dict.get(index as u32), Some(*value));
        assert_eq!(dict.require(index as u32), Ok(*value));
    }
    assert_eq!(dict.get(values.len() as u32), None);
    assert_eq!(
        dict.require(values.len() as u32),
        Err(DecodeError::InvalidSection)
    );
}

#[test]
fn empty_string_dictionary_is_zero_bytes() {
    let dict = StringDictionary::from_field(&field(ElementWidth::Variable, 0, &[])).unwrap();
    assert_eq!(dict.len(), 0);
    assert_eq!(
        StringDictionary::from_field(&field(ElementWidth::Variable, 0, &[0, 0, 0, 0])),
        Err(DecodeError::InvalidSection)
    );
}

#[test]
fn string_dictionary_refuses_bad_offsets_and_utf8() {
    assert_eq!(
        StringDictionary::from_field(&field(ElementWidth::Variable, 2, &[0, 0, 0, 0])),
        Err(DecodeError::Truncated)
    );
    // First start must be zero.
    assert_eq!(
        StringDictionary::from_field(&field(ElementWidth::Variable, 1, &[1, 0, 0, 0, b'a'])),
        Err(DecodeError::InvalidSection)
    );
    // Starts must ascend.
    assert_eq!(
        StringDictionary::from_field(&field(
            ElementWidth::Variable,
            2,
            &[0, 0, 0, 0, 2, 0, 0, 0, b'a']
        )),
        Err(DecodeError::InvalidSection)
    );
    assert_eq!(
        StringDictionary::from_field(&field(ElementWidth::Variable, 1, &[0, 0, 0, 0, 0xff])),
        Err(DecodeError::InvalidUtf8)
    );
}

#[test]
fn number_records_round_trip_and_look_up_by_token() {
    let mut builders = SparseBuilders::new();
    let first = WireNumber {
        start: 3,
        end: None,
        kind: NumberRangeKindTag::Single,
    };
    let second = WireNumber {
        start: 4,
        end: Some(6),
        kind: NumberRangeKindTag::Range,
    };
    builders.push_number(2, first);
    builders.push_number(9, second);
    assert_eq!(builders.number_count(), 2);
    let bytes = builders.numbers().to_vec();
    assert_eq!(&bytes[..16], &[2, 0, 0, 0, 3, 0, 0, 0, 0, 0, 0, 0, 0, 0, 0, 0]);
    let records = NumberRecords::from_field(&field(ElementWidth::Sixteen, 2, &bytes), 10).unwrap();
    assert_eq!(records.get(2), Some(first));
    assert_eq!(records.get(9), Some(second));
    assert_eq!(records.get(3), None);
    assert_eq!(records.get(10), None);
}

#[test]
fn number_records_refuse_bad_records() {
    let mut builders = SparseBuilders::new();
    let number = WireNumber {
        start: 1,
        end: None,
        kind: NumberRangeKindTag::Single,
    };
    builders.push_number(5, number);
    builders.push_number(5, number);
    let duplicate = builders.numbers().to_vec();
    assert_eq!(
        NumberRecords::from_field(&field(ElementWidth::Sixteen, 2, &duplicate), 10),
        Err(DecodeError::InvalidSection)
    );
    assert_eq!(
        NumberRecords::from_field(&field(ElementWidth::Sixteen, 2, &duplicate[..16]), 5),
        Err(DecodeError::InvalidSection)
    );
    let mut bad_kind = duplicate[..16].to_vec();
    bad_kind[12] = 9;
    assert_eq!(
        NumberRecords::from_field(&field(ElementWidth::Sixteen, 1, &bad_kind), 10),
        Err(DecodeError::InvalidDiscriminant)
    );
    let mut bad_flags = duplicate[..16].to_vec();
    bad_flags[13] = 2;
    assert_eq!(
        NumberRecords::from_field(&field(ElementWidth::Sixteen, 1, &bad_flags), 10),
        Err(DecodeError::UnsupportedFlags { found: 2 })
    );
    let mut stray_end = duplicate[..16].to_vec();
    stray_end[8] = 1;
    assert_eq!(
        NumberRecords::from_field(&field(ElementWidth::Sixteen, 1, &stray_end), 10),
        Err(DecodeError::InvalidSection)
    );
    let mut reserved = duplicate[..16].to_vec();
    reserved[15] = 1;
    assert_eq!(
        NumberRecords::from_field(&field(ElementWidth::Sixteen, 1, &reserved), 10),
        Err(DecodeError::InvalidSection)
    );
}

#[test]
fn book_code_records_round_trip() {
    let (strings_bytes, count) = dictionary_bytes(&["GEN", "XYZ"]);
    let strings =
        StringDictionary::from_field(&field(ElementWidth::Variable, count, &strings_bytes)).unwrap();
    let mut builders = SparseBuilders::new();
    builders.push_book_code(0, 0, true);
    builders.push_book_code(7, 1, false);
    assert_eq!(builders.book_code_count(), 2);
    let bytes = builders.book_codes().to_vec();
    let records =
        BookCodeRecords::from_field(&field(ElementWidth::Sixteen, 2, &bytes), 8, strings).unwrap();
    assert_eq!(records.get(0), Some(("GEN", true)));
    assert_eq!(records.get(7), Some(("XYZ", false)));
    assert_eq!(records.get(1), None);

    let mut out_of_dictionary = bytes.clone();
    out_of_dictionary[4] = 2;
    assert_eq!(
        BookCodeRecords::from_field(&field(ElementWidth::Sixteen, 2, &out_of_dictionary), 8, strings),
        Err(DecodeError::InvalidSection)
    );
    let mut bad_flags = bytes.clone();
    bad_flags[8] = 3;
    assert_eq!(
        BookCodeRecords::from_field(&field(ElementWidth::Sixteen, 2, &bad_flags), 8, strings),
        Err(DecodeError::UnsupportedFlags { found: 3 })
    );
}

#[test]
fn marker_descriptors_intern_and_read_back() {
    let (strings_bytes, count) = dictionary_bytes(&["p", "w"]);
    let strings =
        StringDictionary::from_field(&field(ElementWidth::Variable, count, &strings_bytes)).unwrap();
    let mut builder = MarkerDescriptorBuilder::new();
    assert_eq!(builder.intern(0, false), Some(0));
    assert_eq!(builder.intern(1, true), Some(1));
    assert_eq!(builder.intern(0, false), Some(0));
    assert_eq!(builder.intern(0, true), Some(2));
    assert_eq!(builder.len(), 3);
    let bytes = builder.bytes().to_vec();
    assert_eq!(&bytes[8..16], &[1, 0, 0, 0, 1, 0, 0, 0]);
    let descriptors =
        MarkerDescriptors::from_field(&field(ElementWidth::Eight, 3, &bytes), strings).unwrap();
    assert_eq!(descriptors.len(), 3);
    assert_eq!(descriptors.get(0), Some(("p", false)));
    assert_eq!(descriptors.get(1), Some(("w", true)));
    assert_eq!(descriptors.get(2), Some(("p", true)));
    assert_eq!(descriptors.get(3), None);

    assert_eq!(
        MarkerDescriptors::from_field(&field(ElementWidth::Eight, 0x1_0000, &bytes), strings),
        Err(DecodeError::InvalidSection)
    );
    let mut reserved = bytes.clone();
    reserved[7] = 1;
    assert_eq!(
        MarkerDescriptors::from_field(&field(ElementWidth::Eight, 3, &reserved), strings),
        Err(DecodeError::InvalidSection)
    );
}

#[test]
fn attribute_records_round_trip() {
    let (strings_bytes, count) = dictionary_bytes(&["", "x", "lemma", "gloss"]);
    let strings =
        StringDictionary::from_field(&field(ElementWidth::Variable, count, &strings_bytes)).unwrap();
    let mut builders = SparseBuilders::new();
    let first = builders.push_attribute_row(3, Some(SourceSpan { start: 10, len: 6 }));
    assert_eq!(first, 0);
    builders.push_attribute_entry(2, 1, SourceSpan { start: 11, len: 2 }, false);
    builders.push_attribute_entry(3, 1, SourceSpan { start: 13, len: 2 }, false);
    builders.finish_attribute_row(first);
    let second = builders.push_attribute_row(5, None);
    assert_eq!(second, 2);
    builders.push_attribute_entry(0, 1, SourceSpan { start: 20, len: 1 }, true);
    builders.finish_attribute_row(second);
    let third = builders.push_attribute_row(8, Some(SourceSpan { start: 30, len: 0 }));
    builders.finish_attribute_row(third);
    builders.seal_attributes();
    assert_eq!(builders.attribute_row_count(), 3);
    let bytes = builders.attributes().to_vec();
    assert_eq!(bytes.len(), 3 * 24 + 3 * 20);

    let records =
        AttributeRecords::from_field(&field(ElementWidth::Variable, 3, &bytes), 9, 40, strings)
            .unwrap();
    let list = records.get(3).unwrap();
    assert_eq!(list.list_source, Some(SourceSpan { start: 10, len: 6 }));
    assert_eq!(list.attributes.len(), 2);
    assert_eq!(list.attributes[0].key, "lemma");
    assert_eq!(list.attributes[0].value, "x");
    assert_eq!(list.attributes[1].key, "gloss");
    assert_eq!(list.attributes[1].source, SourceSpan { start: 13, len: 2 });
    let default = records.get(5).unwrap();
    assert_eq!(default.list_source, None);
    assert_eq!(default.attributes.len(), 1);
    assert!(default.attributes[0].is_default);
    assert_eq!(default.attributes[0].key, "");
    let empty = records.get(8).unwrap();
    assert_eq!(empty.list_source, Some(SourceSpan { start: 30, len: 0 }));
    assert!(empty.attributes.is_empty());
    assert!(records.get(4).is_none());
}

#[test]
fn attribute_records_refuse_bad_layouts() {
    let (strings_bytes, count) = dictionary_bytes(&["", "x"]);
    let strings =
        StringDictionary::from_field(&field(ElementWidth::Variable, count, &strings_bytes)).unwrap();
    let mut builders = SparseBuilders::new();
    let first = builders.push_attribute_row(1, None);
    builders.push_attribute_entry(1, 1, SourceSpan { start: 0, len: 1 }, false);
    builders.finish_attribute_row(first);
    builders.seal_attributes();
    let bytes = builders.attributes().to_vec();
    let read = |bytes: &[u8], rows: u32, source_len: u64| {
        AttributeRecords::from_field(&field(ElementWidth::Variable, rows, bytes), 4, source_len, strings)
            .map(|_| ())
    };
    assert_eq!(read(&bytes, 1, 10), Ok(()));
    assert_eq!(read(&bytes, 2, 10), Err(DecodeError::Truncated));
    assert_eq!(read(&bytes[..bytes.len() - 1], 1, 10), Err(DecodeError::InvalidSection));
    assert_eq!(read(&bytes, 1, 0), Err(DecodeError::InvalidSection));
    // An entry no row covers.
    let mut orphan = bytes.clone();
    orphan[8] = 0;
    assert_eq!(read(&orphan, 1, 10), Err(DecodeError::InvalidSection));
    // A keyed entry flagged as the default shorthand.
    let mut keyed_default = bytes.clone();
    keyed_default[24 + 16] = 1;
    assert_eq!(read(&keyed_default, 1, 10), Err(DecodeError::InvalidSection));
    let mut bad_flags = bytes.clone();
    bad_flags[24 + 16] = 4;
    assert_eq!(read(&bad_flags, 1, 10), Err(DecodeError::UnsupportedFlags { found: 4 }));
    // An absent list span with a length.
    let mut absent_len = bytes.clone();
    absent_len[16] = 1;
    assert_eq!(read(&absent_len, 1, 10), Err(DecodeError::InvalidSection));
    // A token index past the section.
    assert_eq!(
        AttributeRecords::from_field(&field(ElementWidth::Variable, 1, &bytes), 1, 10, strings)
            .map(|_| ()),
        Err(DecodeError::InvalidSection)
    );
}

#[test]
fn source_span_validates_against_the_source() {
    assert_eq!(
        SourceSpan { start: 2, len: 3 }.validate(5),
        Ok(SourceSpan { start: 2, len: 3 })
    );
    assert_eq!(
        SourceSpan { start: 2, len: 4 }.validate(5),
        Err(DecodeError::InvalidSection)
    );
    assert_eq!(
        SourceSpan {
            start: u32::MAX,
            len: u32::MAX
        }
        .validate(u64::MAX),
        Ok(SourceSpan {
            start: u32::MAX,
            len: u32::MAX
        })
    );
}

// ------------------------------------------- payload rejection
//
// The payloads of one small attributed book, built by the builders, each
// edited in one place and read back by the payload view that owns the rule.

const ATTRIBUTED: &str = "\\id GEN\n\\c 1\n\\p \\w word|strong=\"H1\"\\w*\n";
const TOKENS: u32 = 12;

struct Payloads {
    strings: Vec<u8>,
    string_count: u32,
    descriptors: Vec<u8>,
    numbers: Vec<u8>,
    book_codes: Vec<u8>,
    attributes: Vec<u8>,
}

fn attributed() -> Payloads {
    let mut strings = StringDictionaryBuilder::new();
    let id = strings.intern("id").unwrap();
    let w = strings.intern("w").unwrap();
    let gen = strings.intern("GEN").unwrap();
    let strong = strings.intern("strong").unwrap();
    let h1 = strings.intern("H1").unwrap();
    let mut descriptors = MarkerDescriptorBuilder::new();
    descriptors.intern(id, false).unwrap();
    descriptors.intern(w, false).unwrap();
    let mut sparse = SparseBuilders::new();
    sparse.push_book_code(1, gen, true);
    sparse.push_number(
        4,
        WireNumber {
            start: 1,
            end: Some(1),
            kind: NumberRangeKindTag::Single,
        },
    );
    let first = sparse.push_attribute_row(8, Some(SourceSpan { start: 22, len: 12 }));
    sparse.push_attribute_entry(strong, h1, SourceSpan { start: 23, len: 11 }, false);
    sparse.finish_attribute_row(first);
    sparse.seal_attributes();
    Payloads {
        strings: strings.bytes(),
        string_count: strings.len(),
        descriptors: descriptors.bytes().to_vec(),
        numbers: sparse.numbers().to_vec(),
        book_codes: sparse.book_codes().to_vec(),
        attributes: sparse.attributes().to_vec(),
    }
}

fn strings_of(payloads: &Payloads) -> StringDictionary<'_> {
    StringDictionary::from_field(&field(
        ElementWidth::Variable,
        payloads.string_count,
        &payloads.strings,
    ))
    .unwrap()
}

fn attributes_error(payloads: &Payloads) -> Option<DecodeError> {
    AttributeRecords::from_field(
        &field(ElementWidth::Variable, 1, &payloads.attributes),
        TOKENS,
        ATTRIBUTED.len() as u64,
        strings_of(payloads),
    )
    .err()
}

#[test]
fn attributed_payloads_read_back() {
    let payloads = attributed();
    let strings = strings_of(&payloads);
    assert!(MarkerDescriptors::from_field(&field(ElementWidth::Eight, 2, &payloads.descriptors), strings).is_ok());
    assert!(NumberRecords::from_field(&field(ElementWidth::Sixteen, 1, &payloads.numbers), TOKENS).is_ok());
    assert!(BookCodeRecords::from_field(&field(ElementWidth::Sixteen, 1, &payloads.book_codes), TOKENS, strings).is_ok());
    assert_eq!(attributes_error(&payloads), None);
}

#[test]
fn string_dictionary_offsets_must_ascend_within_the_data() {
    let mut payloads = attributed();
    // Second string now starts before the first.
    payloads.strings[4..8].copy_from_slice(&0u32.to_le_bytes());
    payloads.strings[0..4].copy_from_slice(&4u32.to_le_bytes());
    assert_eq!(
        StringDictionary::from_field(&field(ElementWidth::Variable, payloads.string_count, &payloads.strings)).err(),
        Some(DecodeError::InvalidSection)
    );

    let mut payloads = attributed();
    payloads.strings[0..4].copy_from_slice(&u32::MAX.to_le_bytes());
    assert_eq!(
        StringDictionary::from_field(&field(ElementWidth::Variable, payloads.string_count, &payloads.strings)).err(),
        Some(DecodeError::InvalidSection)
    );
}

#[test]
fn string_dictionary_offset_splitting_a_code_point_rejects() {
    // The last interned string is the two-byte value "λ"; nudging its start one
    // byte forward lands mid-character.
    let mut builder = StringDictionaryBuilder::new();
    for value in ["w", "x", "k", "λ"] {
        builder.intern(value).unwrap();
    }
    let count = builder.len();
    let mut bytes = builder.bytes();
    let last = (count as usize - 1) * 4;
    let start = u32::from_le_bytes(bytes[last..last + 4].try_into().unwrap());
    bytes[last..last + 4].copy_from_slice(&(start + 1).to_le_bytes());
    assert_eq!(
        StringDictionary::from_field(&field(ElementWidth::Variable, count, &bytes)).err(),
        Some(DecodeError::InvalidUtf8)
    );
}

#[test]
fn marker_descriptor_must_name_an_existing_string() {
    let mut payloads = attributed();
    payloads.descriptors[0..4].copy_from_slice(&9999u32.to_le_bytes());
    let strings = strings_of(&payloads);
    assert_eq!(
        MarkerDescriptors::from_field(&field(ElementWidth::Eight, 2, &payloads.descriptors), strings).err(),
        Some(DecodeError::InvalidSection)
    );
}

#[test]
fn marker_descriptor_reserved_bytes_and_flags_are_checked() {
    let mut payloads = attributed();
    payloads.descriptors[5] = 1;
    let strings = strings_of(&payloads);
    assert_eq!(
        MarkerDescriptors::from_field(&field(ElementWidth::Eight, 2, &payloads.descriptors), strings).err(),
        Some(DecodeError::InvalidSection)
    );

    let mut payloads = attributed();
    payloads.descriptors[4] = 0b10;
    let strings = strings_of(&payloads);
    assert_eq!(
        MarkerDescriptors::from_field(&field(ElementWidth::Eight, 2, &payloads.descriptors), strings).err(),
        Some(DecodeError::UnsupportedFlags { found: 0b10 })
    );
}

#[test]
fn number_record_discriminant_and_end_encoding_are_checked() {
    let mut payloads = attributed();
    payloads.numbers[12] = 9;
    assert_eq!(
        NumberRecords::from_field(&field(ElementWidth::Sixteen, 1, &payloads.numbers), TOKENS).err(),
        Some(DecodeError::InvalidDiscriminant)
    );

    // `has_end` clear with a nonzero end would give an absent range two
    // encodings, so it is rejected rather than ignored.
    let mut payloads = attributed();
    payloads.numbers[8..12].copy_from_slice(&5u32.to_le_bytes());
    payloads.numbers[13] = 0;
    assert_eq!(
        NumberRecords::from_field(&field(ElementWidth::Sixteen, 1, &payloads.numbers), TOKENS).err(),
        Some(DecodeError::InvalidSection)
    );
}

#[test]
fn sparse_record_token_index_must_be_in_range() {
    let mut payloads = attributed();
    payloads.numbers[0..4].copy_from_slice(&9999u32.to_le_bytes());
    assert_eq!(
        NumberRecords::from_field(&field(ElementWidth::Sixteen, 1, &payloads.numbers), TOKENS).err(),
        Some(DecodeError::InvalidSection)
    );

    let mut payloads = attributed();
    payloads.book_codes[0..4].copy_from_slice(&9999u32.to_le_bytes());
    let strings = strings_of(&payloads);
    assert_eq!(
        BookCodeRecords::from_field(&field(ElementWidth::Sixteen, 1, &payloads.book_codes), TOKENS, strings).err(),
        Some(DecodeError::InvalidSection)
    );
}

#[test]
fn book_code_reserved_bytes_are_checked() {
    let mut payloads = attributed();
    payloads.book_codes[9] = 1;
    let strings = strings_of(&payloads);
    assert_eq!(
        BookCodeRecords::from_field(&field(ElementWidth::Sixteen, 1, &payloads.book_codes), TOKENS, strings).err(),
        Some(DecodeError::InvalidSection)
    );
}

#[test]
fn attribute_rows_must_partition_the_entry_array() {
    let mut payloads = attributed();
    // A first-entry index that is not where the previous row ended leaves an
    // entry orphaned or shared.
    payloads.attributes[4..8].copy_from_slice(&1u32.to_le_bytes());
    assert_eq!(attributes_error(&payloads), Some(DecodeError::InvalidSection));

    let mut payloads = attributed();
    payloads.attributes[8..12].copy_from_slice(&7u32.to_le_bytes());
    assert_eq!(attributes_error(&payloads), Some(DecodeError::InvalidSection));
}

#[test]
fn attribute_source_span_must_lie_within_the_bound_source() {
    let mut payloads = attributed();
    // Row entry, list source offset at +12.
    payloads.attributes[12..16].copy_from_slice(&9000u32.to_le_bytes());
    assert_eq!(attributes_error(&payloads), Some(DecodeError::InvalidSection));
}

#[test]
fn default_attribute_shorthand_requires_an_empty_key() {
    let mut payloads = attributed();
    // One row, so the entries start 24 bytes in; set is_default on an entry
    // whose key is the non-empty "strong".
    payloads.attributes[24 + 16] = 1;
    assert_eq!(attributes_error(&payloads), Some(DecodeError::InvalidSection));
}
