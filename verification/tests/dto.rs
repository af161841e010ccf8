//! Boundary values: attribute escapes and codec outcomes.

use usfm_onion_wire::book::BookId;
use usfm_onion_wire::dto::{
    decode_attr_value, verbatim_value, AttributeItem, PackedDecodeError, PackedEncodeError,
    PackedLayoutRefusal, PackedSectionKind,
};
use usfm_onion_wire::error::{DecodeError, EncodeError, LayoutRefusal};
use usfm_onion_wire::schema::SectionKind;

fn attribute(text: &str, key: &str) -> AttributeItem {
    AttributeItem {
        span: None,
        text: text.to_string(),
        key: key.to_string(),
        value: String::new(),
        is_default: key.is_empty(),
    }
}

#[test]
fn decode_attr_value_unescapes_quote_and_backslash() {
    assert_eq!(decode_attr_value("plain"), "plain");
    assert_eq!(decode_attr_value("a\\\"b"), "a\"b");
    assert_eq!(decode_attr_value("a\\\\b"), "a\\b");
}

#[test]
fn decode_attr_value_keeps_other_backslashes() {
    assert_eq!(decode_attr_value("a\\nb"), "a\\nb");
    assert_eq!(decode_attr_value("end\\"), "end\\");
    assert_eq!(decode_attr_value("\\\\\\\""), "\\\"");
    assert_eq!(decode_attr_value("ä\\\"ö"), "ä\"ö");
    assert_eq!(decode_attr_value(""), "");
}

#[test]
fn verbatim_value_reads_the_slice_by_its_key() {
    assert_eq!(verbatim_value(&attribute("lemma=\"grace\"", "lemma")), Some("grace"));
    assert_eq!(verbatim_value(&attribute("lemma=grace", "lemma")), Some("grace"));
    assert_eq!(verbatim_value(&attribute("lemma=\"", "lemma")), Some("\""));
    // A default attribute's slice is its value, quotes and all.
    assert_eq!(verbatim_value(&attribute("\"caption\"", "")), Some("\"caption\""));
    assert_eq!(verbatim_value(&attribute("", "lemma")), None);
    assert_eq!(verbatim_value(&attribute("strong=\"x\"", "lemma")), None);
    assert_eq!(verbatim_value(&attribute("lemma:\"x\"", "lemma")), None);
}

#[test]
fn codec_outcomes_keep_their_variant_and_payload() {
    assert_eq!(
        PackedDecodeError::from(DecodeError::UnsupportedFlags { found: 3 }),
        PackedDecodeError::UnsupportedFlags { found: 3 }
    );
    assert_eq!(
        PackedLayoutRefusal::from(LayoutRefusal::DuplicateSection {
            kind: SectionKind::Finding
        }),
        PackedLayoutRefusal::DuplicateSection {
            section_kind: PackedSectionKind::Finding
        }
    );
    let book = BookId::from_str("EXO").unwrap();
    assert_eq!(
        PackedEncodeError::from_error(EncodeError::InvalidSectionLayout {
            book,
            reason: LayoutRefusal::TooManyFields,
        }),
        PackedEncodeError::InvalidSectionLayout {
            book: "EXO".to_string(),
            reason: PackedLayoutRefusal::TooManyFields,
        }
    );
}
