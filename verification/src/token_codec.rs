//! The buffers one token section is written from, and the section payload
//! they make: the fixed columns and dictionaries always, each sparse or id
//! field only when something in the book uses it.

use vstd::prelude::*;
use vstd::string::StringSliceAdditionalSpecFns;

use crate::book::BookId;
use crate::container::{ElementWidth, FieldPayload, SectionHeader, SectionPayload, SectionVariant};
use crate::error::DecodeError;
use crate::outside::xxh3_64_hash;
use crate::primitives::source_hash;
use crate::schema::SectionKind;
use crate::schema::token_field;
use crate::schema::{ATTRIBUTE_ROW_LEN, BOOK_CODE_RECORD_LEN, NUMBER_RECORD_LEN};
use crate::token_payload::{record_total, SparseBuilders};

verus! {

/// Encoded buffers of one token section, ready to be laid out.
pub struct TokenSectionBuffers {
    pub book: BookId,
    pub source_hash: u64,
    pub source_len: u64,
    pub catalog_stamp: u64,
    pub record_count: u32,
    pub kinds: Vec<u8>,
    pub span_starts: Vec<u8>,
    pub span_ends: Vec<u8>,
    pub sid_indices: Vec<u8>,
    pub descriptor_indices: Vec<u8>,
    pub sids: Vec<u8>,
    pub sid_count: u32,
    pub strings: Vec<u8>,
    pub string_count: u32,
    pub descriptors: Vec<u8>,
    pub descriptor_count: u32,
    pub sparse: SparseBuilders,
    /// Present only for a section whose ids are opaque; omitted together with
    /// the dictionary when ids are positional.
    pub token_id_indices: Vec<u8>,
    pub token_ids: Vec<u8>,
    pub token_id_count: u32,
}

/// A field payload as plain values: id, width, count, bytes.
pub open spec fn field_view(field: FieldPayload) -> (u16, ElementWidth, u32, Seq<u8>) {
    (field.id, field.width, field.count, field.bytes@)
}

/// Records of `width` bytes in `bytes`, counted as a `u32`.
pub open spec fn record_count_u32(bytes: Seq<u8>, width: usize) -> u32 {
    record_total(bytes, width as int) as u32
}

impl TokenSectionBuffers {
    /// The fields the section carries, in the order they are listed: the
    /// fixed columns and dictionaries; then numbers, book codes, the explicit
    /// ids and attributes, each only when present.
    pub open spec fn spec_fields(&self) -> Seq<(u16, ElementWidth, u32, Seq<u8>)> {
        let rc = self.record_count;
        let numbers = self.sparse.spec_numbers();
        let book_codes = self.sparse.spec_book_codes();
        let rows = self.sparse.spec_attribute_rows();
        let fixed = seq![
            (token_field::KIND, ElementWidth::One, rc, self.kinds@),
            (token_field::SPAN_START, ElementWidth::Four, rc, self.span_starts@),
            (token_field::SPAN_END, ElementWidth::Four, rc, self.span_ends@),
            (token_field::SID_INDEX, ElementWidth::Two, rc, self.sid_indices@),
            (token_field::MARKER_DESCRIPTOR_INDEX, ElementWidth::Two, rc, self.descriptor_indices@),
            (token_field::STRING_DICTIONARY, ElementWidth::Variable, self.string_count, self.strings@),
            (
                token_field::MARKER_DESCRIPTOR_DICTIONARY,
                ElementWidth::Eight,
                self.descriptor_count,
                self.descriptors@,
            ),
            (token_field::PACKED_SID_DICTIONARY, ElementWidth::Eight, self.sid_count, self.sids@),
        ];
        let with_numbers = if record_count_u32(numbers, NUMBER_RECORD_LEN) > 0 {
            fixed.push(
                (
                    token_field::NUMBER_RECORDS,
                    ElementWidth::Sixteen,
                    record_count_u32(numbers, NUMBER_RECORD_LEN),
                    numbers,
                ),
            )
        } else {
            fixed
        };
        let with_book_codes = if record_count_u32(book_codes, BOOK_CODE_RECORD_LEN) > 0 {
            with_numbers.push(
                (
                    token_field::BOOK_CODE_RECORDS,
                    ElementWidth::Sixteen,
                    record_count_u32(book_codes, BOOK_CODE_RECORD_LEN),
                    book_codes,
                ),
            )
        } else {
            with_numbers
        };
        let with_ids = if self.token_id_indices@.len() > 0 {
            with_book_codes.push(
                (token_field::TOKEN_ID_INDEX, ElementWidth::Four, rc, self.token_id_indices@),
            ).push(
                (
                    token_field::TOKEN_ID_DICTIONARY,
                    ElementWidth::Variable,
                    self.token_id_count,
                    self.token_ids@,
                ),
            )
        } else {
            with_book_codes
        };
        if record_count_u32(rows, ATTRIBUTE_ROW_LEN) > 0 {
            with_ids.push(
                (
                    token_field::ATTRIBUTE_RECORDS,
                    ElementWidth::Variable,
                    record_count_u32(rows, ATTRIBUTE_ROW_LEN),
                    self.sparse.spec_attributes(),
                ),
            )
        } else {
            with_ids
        }
    }

    /// The section payload of these buffers. The positional-id flag and the
    /// two id fields are one decision: set means both fields are absent.
    pub fn payload(&self) -> (payload: SectionPayload<'_>)
        ensures
            payload.variant == (SectionVariant::Token {
                positional_ids: self.token_id_indices@.len() == 0,
            }),
            payload.book == self.book,
            payload.source_hash == self.source_hash,
            payload.source_len == self.source_len,
            payload.catalog_stamp == self.catalog_stamp,
            payload.record_count == self.record_count,
            payload.fields@.map_values(|f: FieldPayload| field_view(f)) == self.spec_fields(),
    {
        let mut fields: Vec<FieldPayload<'_>> = Vec::new();
        fields.push(FieldPayload {
            id: token_field::KIND,
            width: ElementWidth::One,
            count: self.record_count,
            bytes: self.kinds.as_slice(),
        });
        fields.push(FieldPayload {
            id: token_field::SPAN_START,
            width: ElementWidth::Four,
            count: self.record_count,
            bytes: self.span_starts.as_slice(),
        });
        fields.push(FieldPayload {
            id: token_field::SPAN_END,
            width: ElementWidth::Four,
            count: self.record_count,
            bytes: self.span_ends.as_slice(),
        });
        fields.push(FieldPayload {
            id: token_field::SID_INDEX,
            width: ElementWidth::Two,
            count: self.record_count,
            bytes: self.sid_indices.as_slice(),
        });
        fields.push(FieldPayload {
            id: token_field::MARKER_DESCRIPTOR_INDEX,
            width: ElementWidth::Two,
            count: self.record_count,
            bytes: self.descriptor_indices.as_slice(),
        });
        fields.push(FieldPayload {
            id: token_field::STRING_DICTIONARY,
            width: ElementWidth::Variable,
            count: self.string_count,
            bytes: self.strings.as_slice(),
        });
        fields.push(FieldPayload {
            id: token_field::MARKER_DESCRIPTOR_DICTIONARY,
            width: ElementWidth::Eight,
            count: self.descriptor_count,
            bytes: self.descriptors.as_slice(),
        });
        fields.push(FieldPayload {
            id: token_field::PACKED_SID_DICTIONARY,
            width: ElementWidth::Eight,
            count: self.sid_count,
            bytes: self.sids.as_slice(),
        });
        // Sparse fields are omitted entirely when nothing in the book uses
        // them, which is the common case for book codes and attributes.
        let numbers = self.sparse.number_count();
        if numbers > 0 {
            fields.push(FieldPayload {
                id: token_field::NUMBER_RECORDS,
                width: ElementWidth::Sixteen,
                count: numbers,
                bytes: self.sparse.numbers(),
            });
        }
        let book_codes = self.sparse.book_code_count();
        if book_codes > 0 {
            fields.push(FieldPayload {
                id: token_field::BOOK_CODE_RECORDS,
                width: ElementWidth::Sixteen,
                count: book_codes,
                bytes: self.sparse.book_codes(),
            });
        }
        if self.token_id_indices.len() > 0 {
            fields.push(FieldPayload {
                id: token_field::TOKEN_ID_INDEX,
                width: ElementWidth::Four,
                count: self.record_count,
                bytes: self.token_id_indices.as_slice(),
            });
            fields.push(FieldPayload {
                id: token_field::TOKEN_ID_DICTIONARY,
                width: ElementWidth::Variable,
                count: self.token_id_count,
                bytes: self.token_ids.as_slice(),
            });
        }
        let rows = self.sparse.attribute_row_count();
        if rows > 0 {
            fields.push(FieldPayload {
                id: token_field::ATTRIBUTE_RECORDS,
                width: ElementWidth::Variable,
                count: rows,
                bytes: self.sparse.attributes(),
            });
        }
        proof {
            assert(fields@.map_values(|f: FieldPayload| field_view(f)) =~= self.spec_fields());
        }
        SectionPayload {
            variant: SectionVariant::Token { positional_ids: self.token_id_indices.len() == 0 },
            book: self.book,
            source_hash: self.source_hash,
            source_len: self.source_len,
            catalog_stamp: self.catalog_stamp,
            record_count: self.record_count,
            fields,
        }
    }
}

/// What binding a token section to a source and a marker catalog decides:
/// only a token section binds; then the source length, the source hash and
/// the catalog stamp must each match, checked in that order.
pub open spec fn spec_source_binding(header: SectionHeader, source: Seq<u8>, catalog_stamp: u64) -> Result<
    (),
    DecodeError,
> {
    if header.kind != SectionKind::Token {
        Err(DecodeError::InvalidSection)
    } else if header.source_len != source.len() {
        Err(DecodeError::SourceLengthMismatch)
    } else if header.source_hash != xxh3_64_hash(source) {
        Err(DecodeError::SourceHashMismatch)
    } else if header.catalog_stamp != catalog_stamp {
        Err(DecodeError::CatalogMismatch)
    } else {
        Ok(())
    }
}

/// Binds a token section to the exact source it was encoded from and to the
/// marker catalog in force, before any span is read: length first because it
/// is a single compare, then the content hash, which catches a same-length
/// different-bytes source, then the catalog stamp.
pub fn check_source_binding(header: &SectionHeader, source: &str, catalog_stamp: u64) -> (r: Result<
    (),
    DecodeError,
>)
    ensures
        r == spec_source_binding(*header, source.spec_bytes(), catalog_stamp),
{
    if header.kind != SectionKind::Token {
        return Err(DecodeError::InvalidSection);
    }
    let len = source.as_bytes().len();
    if header.source_len != len as u64 {
        return Err(DecodeError::SourceLengthMismatch);
    }
    if header.source_hash != source_hash(source) {
        return Err(DecodeError::SourceHashMismatch);
    }
    if header.catalog_stamp != catalog_stamp {
        return Err(DecodeError::CatalogMismatch);
    }
    Ok(())
}

/// A token section binds to a source and a marker catalog exactly when it is
/// a token section whose recorded length and XXH3 hash are those of the
/// source's bytes and whose catalog stamp is the catalog in force; a section
/// stamped under any other catalog, older or newer, is refused with
/// `CatalogMismatch` once its length and hash match.
pub proof fn law_source_binding(header: SectionHeader, source: Seq<u8>, catalog_stamp: u64)
    ensures
        spec_source_binding(header, source, catalog_stamp) is Ok <==> (header.kind == SectionKind::Token
            && header.source_len == source.len() && header.source_hash == xxh3_64_hash(source)
            && header.catalog_stamp == catalog_stamp),
        header.kind == SectionKind::Token && header.source_len == source.len() && header.source_hash
            == xxh3_64_hash(source) && header.catalog_stamp != catalog_stamp ==> spec_source_binding(
            header,
            source,
            catalog_stamp,
        ) == Err::<(), DecodeError>(DecodeError::CatalogMismatch),
{
}

} // verus!
