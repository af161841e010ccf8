//! The frozen schema: discriminant tables, field tables, flags and parameter
//! contracts.

use usfm_onion_wire::schema::{
    finding_flag, param_contract, LintCodeTag, NumberRangeKindTag, SectionKind, TokenKindTag,
};

fn pairs<'a>(entries: &'a [(&'a str, &'a str)]) -> Vec<(&'a str, &'a str)> {
    entries.to_vec()
}

#[test]
fn section_kind_round_trips_only_frozen_values() {
    assert_eq!(SectionKind::from_u8(0), Some(SectionKind::Token));
    assert_eq!(SectionKind::from_u8(1), Some(SectionKind::Finding));
    for value in 2..=u8::MAX {
        assert_eq!(SectionKind::from_u8(value), None);
    }
}

#[test]
fn field_tables_are_dense_and_ordered() {
    // A gap or reorder here means a decoder and an encoder built from this
    // table would disagree about what an id means.
    for table in [
        SectionKind::Token.field_table(),
        SectionKind::Finding.field_table(),
    ] {
        for (index, field) in table.iter().enumerate() {
            assert_eq!(usize::from(field.id), index);
        }
    }
}

#[test]
fn finding_flags_reserve_the_top_bit() {
    assert_eq!(finding_flag::KNOWN, 0x7f);
}

#[test]
fn parameter_contracts_have_exact_union_arms_and_closed_domains() {
    let named = param_contract(LintCodeTag::StrayCloseMarker).unwrap();
    let milestone = pairs(&[("form", "milestone-end")]);
    let named_close = pairs(&[("form", "named"), ("marker", "p")]);
    assert!(named.accepts(&milestone));
    assert!(named.accepts(&named_close));
    assert!(!named.accepts(&pairs(&[("form", "named")])));
    let context = param_contract(LintCodeTag::MarkerNotValidInContext).unwrap();
    assert!(context.accepts(&pairs(&[("marker", "p"), ("context", "cross-reference")])));
    assert!(!context.accepts(&pairs(&[("marker", "p"), ("context", "other")])));
}

#[test]
fn token_kind_tags_round_trip_only_frozen_values() {
    for value in 0..9u8 {
        assert_eq!(TokenKindTag::from_u8(value).unwrap().as_u8(), value);
    }
    assert_eq!(TokenKindTag::from_u8(9), None);
}

#[test]
fn number_range_tags_round_trip_only_frozen_values() {
    for value in 0..4u8 {
        assert_eq!(NumberRangeKindTag::from_u8(value).unwrap().as_u8(), value);
    }
    assert_eq!(NumberRangeKindTag::from_u8(4), None);
}

#[test]
fn lint_code_tags_round_trip_and_name_themselves_in_kebab_case() {
    for value in 0..32u8 {
        assert_eq!(LintCodeTag::from_u8(value).unwrap().as_u8(), value);
    }
    assert_eq!(LintCodeTag::from_u8(32), None);
    assert_eq!(LintCodeTag::MissingIdMarker.kebab(), "missing-id-marker");
    assert_eq!(LintCodeTag::BookCodeNotUppercase.kebab(), "book-code-not-uppercase");
}

#[test]
fn known_section_flags_are_kind_specific() {
    assert_eq!(SectionKind::Token.known_section_flags(), 1);
    assert_eq!(SectionKind::Finding.known_section_flags(), 0);
}

#[test]
fn codes_without_parameters_have_no_contract() {
    assert!(param_contract(LintCodeTag::MissingIdMarker).is_none());
    assert!(param_contract(LintCodeTag::UnknownToken).is_some());
}

#[test]
fn kebab_codes_are_distinct_lowercase_and_hyphen_trimmed() {
    let mut seen: Vec<&str> = Vec::new();
    for value in 0..32u8 {
        let code = usfm_onion_wire::schema::LintCodeTag::from_u8(value).unwrap().kebab();
        assert!(!code.is_empty());
        assert!(!code.starts_with('-') && !code.ends_with('-'));
        assert!(code.chars().all(|c| c.is_ascii_lowercase() || c == '-'));
        assert!(!seen.contains(&code));
        seen.push(code);
    }
    assert_eq!(usfm_onion_wire::schema::LintCodeTag::from_u8(0).unwrap().kebab(), "missing-id-marker");
}
