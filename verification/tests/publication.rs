//! Per-book sidecars split off a finished container.

use usfm_onion_wire::book::BookId;
use usfm_onion_wire::container::{
    read_container, write_container, ElementWidth, FieldPayload, PublishedSection, SectionPayload,
    SectionVariant,
};
use usfm_onion_wire::error::{EncodeError, LayoutRefusal};
use usfm_onion_wire::publication::published_books;
use usfm_onion_wire::schema::{finding_field, token_field, SectionKind};

const FINDING_ROW: [u8; 16] = [0; 16];

fn book(code: &str) -> BookId {
    BookId::from_str(code).unwrap()
}

fn token_section(code: &str, source_hash: u64) -> SectionPayload<'static> {
    let ids = [
        (token_field::KIND, ElementWidth::One),
        (token_field::SPAN_START, ElementWidth::Four),
        (token_field::SPAN_END, ElementWidth::Four),
        (token_field::SID_INDEX, ElementWidth::Two),
        (token_field::MARKER_DESCRIPTOR_INDEX, ElementWidth::Two),
        (token_field::STRING_DICTIONARY, ElementWidth::Variable),
        (token_field::MARKER_DESCRIPTOR_DICTIONARY, ElementWidth::Eight),
        (token_field::PACKED_SID_DICTIONARY, ElementWidth::Eight),
    ];
    SectionPayload {
        variant: SectionVariant::Token {
            positional_ids: true,
        },
        book: book(code),
        source_hash,
        source_len: 0,
        catalog_stamp: 0,
        record_count: 0,
        fields: ids
            .iter()
            .map(|(id, width)| FieldPayload {
                id: *id,
                width: *width,
                count: 0,
                bytes: &[],
            })
            .collect(),
    }
}

fn finding_section(code: &str, source_hash: u64) -> SectionPayload<'static> {
    SectionPayload {
        variant: SectionVariant::Finding { rules_version: 1 },
        book: book(code),
        source_hash,
        source_len: 0,
        catalog_stamp: 0,
        record_count: 1,
        fields: vec![FieldPayload {
            id: finding_field::COMMON_ROW,
            width: ElementWidth::Sixteen,
            count: 1,
            bytes: &FINDING_ROW,
        }],
    }
}

#[test]
fn sidecars_group_sections_by_book_in_container_order() {
    let bytes = write_container(
        3,
        &[
            finding_section("EXO", 20),
            token_section("GEN", 10),
            token_section("EXO", 20),
        ],
    )
    .unwrap();
    let books = published_books(&bytes).unwrap();
    assert_eq!(books.len(), 2);
    let container = read_container(&bytes).unwrap();
    let toc = container.toc();
    for published in &books {
        let entries: Vec<_> = toc.iter().filter(|e| e.book == published.book).collect();
        assert_eq!(published.sections.len(), entries.len());
        assert_eq!(published.source_hash, entries[0].source_hash);
        let mut offset = 0;
        for (section, entry) in published.sections.iter().zip(&entries) {
            assert_eq!(
                *section,
                PublishedSection {
                    kind: entry.kind,
                    offset,
                    len: entry.byte_len as usize,
                }
            );
            let start = entry.offset as usize;
            assert_eq!(
                &published.bytes[offset..offset + section.len],
                &bytes[start..start + section.len]
            );
            offset += section.len;
        }
        assert_eq!(published.bytes.len(), offset);
        let cached = published.as_cached();
        assert_eq!(cached.book, published.book);
        assert_eq!(cached.source_hash, published.source_hash);
        assert_eq!(cached.sections, published.sections.as_slice());
        assert_eq!(cached.bytes, published.bytes.as_slice());
    }
    // Books appear in the order the container first names them.
    assert_eq!(books[0].book, toc[0].book);
    let exo = books.iter().find(|b| b.book == book("EXO")).unwrap();
    assert_eq!(exo.sections.len(), 2);
    assert_eq!(exo.sections[0].kind, SectionKind::Token);
    assert_eq!(exo.sections[1].kind, SectionKind::Finding);
}

#[test]
fn unreadable_bytes_are_refused_for_no_book() {
    assert_eq!(
        published_books(&[0u8; 8]).unwrap_err(),
        EncodeError::InvalidSectionLayout {
            book: BookId::unknown(),
            reason: LayoutRefusal::CachedSectionUnreadable,
        }
    );
}

#[test]
fn an_empty_container_has_no_sidecars() {
    let bytes = write_container(0, &[]).unwrap();
    assert!(published_books(&bytes).unwrap().is_empty());
}
