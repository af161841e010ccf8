//! Finding-section record rules that stand on their own: the eight-byte
//! marker reference, and the per-code parameter contracts a finding's message
//! parameters must match on both the encode and the decode side.

use vstd::prelude::*;

use crate::book::BookId;
use crate::error::{DecodeError, EncodeError};
use crate::primitives::{le_u16, le_u32, read_u16, read_u32, u16_bytes, u32_bytes};
use crate::schema::params::{contract_accepts, pairs_view, spec_param_contract};
use crate::schema::{param_contract, LintCodeTag, ParamContract};

pub mod acceptance;
pub mod buffers;
pub mod columns;
pub mod laws;
pub mod payload;
pub mod read_back;

verus! {

/// Length of a stored marker reference.
pub const MARKER_REF_LEN: usize = 8;

/// A source-relative marker representation: the catalog ordinal and source
/// span are kept as references whose resolution is a later step.
#[derive(Debug, Clone, Copy, PartialEq, Eq, Structural)]
pub enum MarkerRef {
    AnchoredToken,
    CatalogOrdinal(u16),
    SourceSpan { offset: u32, len: u8 },
    Absent,
}

/// A source span of `len` bytes at `offset` that lies inside a source of
/// `source_len` bytes and is not empty.
pub open spec fn span_fits(offset: u32, len: u8, source_len: u64) -> bool {
    len != 0 && offset + len <= source_len
}

/// What an eight-byte marker reference decodes to: a tag byte, a length
/// byte, a little-endian `u16` catalog ordinal and a little-endian `u32`
/// offset, with every field the tag does not use zero.
pub open spec fn spec_decode_marker_ref(b: Seq<u8>, source_len: u64) -> Result<MarkerRef, DecodeError> {
    let tag = b[0];
    let len = b[1];
    let ordinal = le_u16(b, 2);
    let offset = le_u32(b, 4);
    if b.len() < 8 {
        Err(DecodeError::Truncated)
    } else if tag == 0 && len == 0 && ordinal == 0 && offset == 0 {
        Ok(MarkerRef::AnchoredToken)
    } else if tag == 1 && len == 0 && offset == 0 {
        Ok(MarkerRef::CatalogOrdinal(ordinal))
    } else if tag == 2 && ordinal == 0 && span_fits(offset, len, source_len) {
        Ok(MarkerRef::SourceSpan { offset, len })
    } else if tag == 3 && len == 0 && ordinal == 0 && offset == 0 {
        Ok(MarkerRef::Absent)
    } else if tag <= 3 {
        Err(DecodeError::InvalidSection)
    } else {
        Err(DecodeError::InvalidDiscriminant)
    }
}

/// Decodes a stored marker reference.
pub fn decode_marker_ref(bytes: &[u8], source_len: u64) -> (marker: Result<MarkerRef, DecodeError>)
    requires
        bytes@.len() >= 2,
    ensures
        marker == spec_decode_marker_ref(bytes@, source_len),
{
    if bytes.len() < 8 {
        return Err(DecodeError::Truncated);
    }
    let tag = bytes[0];
    let len = bytes[1];
    let ordinal = read_u16(bytes, 2);
    let offset = read_u32(bytes, 4);
    if tag == 0 && len == 0 && ordinal == 0 && offset == 0 {
        Ok(MarkerRef::AnchoredToken)
    } else if tag == 1 && len == 0 && offset == 0 {
        Ok(MarkerRef::CatalogOrdinal(ordinal))
    } else if tag == 2 && ordinal == 0 && len != 0 && (offset as u64) + (len as u64) <= source_len {
        Ok(MarkerRef::SourceSpan { offset, len })
    } else if tag == 3 && len == 0 && ordinal == 0 && offset == 0 {
        Ok(MarkerRef::Absent)
    } else if tag <= 3 {
        Err(DecodeError::InvalidSection)
    } else {
        Err(DecodeError::InvalidDiscriminant)
    }
}

/// The refusal of a finding whose payload or marker this schema cannot
/// express.
pub open spec fn spec_unrepresentable(book: BookId, code: LintCodeTag) -> EncodeError {
    EncodeError::UnrepresentablePayload { book, code: code.spec_as_u8() }
}

pub fn unrepresentable(book: BookId, code: LintCodeTag) -> (e: EncodeError)
    ensures
        e == spec_unrepresentable(book, code),
{
    EncodeError::UnrepresentablePayload { book, code: code.as_u8() }
}

/// The eight stored bytes of a marker reference, or the refusal of a source
/// span that is empty or runs past the source.
pub open spec fn spec_encode_marker_ref(
    marker: MarkerRef,
    source_len: u64,
    book: BookId,
    code: LintCodeTag,
) -> Result<Seq<u8>, EncodeError> {
    match marker {
        MarkerRef::AnchoredToken => Ok(Seq::new(8, |i: int| 0u8)),
        MarkerRef::CatalogOrdinal(ordinal) => Ok(
            seq![1u8, 0u8] + u16_bytes(ordinal) + seq![0u8, 0u8, 0u8, 0u8],
        ),
        MarkerRef::SourceSpan { offset, len } => if span_fits(offset, len, source_len) {
            Ok(seq![2u8, len, 0u8, 0u8] + u32_bytes(offset))
        } else {
            Err(spec_unrepresentable(book, code))
        },
        MarkerRef::Absent => Ok(seq![3u8, 0u8, 0u8, 0u8, 0u8, 0u8, 0u8, 0u8]),
    }
}

/// Encodes a marker reference.
pub fn encode_marker_ref(marker: MarkerRef, source_len: u64, book: BookId, code: LintCodeTag) -> (bytes:
    Result<[u8; 8], EncodeError>)
    ensures
        match bytes {
            Ok(b) => spec_encode_marker_ref(marker, source_len, book, code) == Ok::<
                Seq<u8>,
                EncodeError,
            >(b@),
            Err(e) => spec_encode_marker_ref(marker, source_len, book, code) == Err::<
                Seq<u8>,
                EncodeError,
            >(e),
        },
{
    match marker {
        MarkerRef::AnchoredToken => {
            let b: [u8; 8] = [0u8, 0u8, 0u8, 0u8, 0u8, 0u8, 0u8, 0u8];
            assert(b@ =~= Seq::new(8, |i: int| 0u8));
            Ok(b)
        },
        MarkerRef::CatalogOrdinal(ordinal) => {
            let o = crate::primitives::u16_to_le(ordinal);
            let b: [u8; 8] = [1u8, 0u8, o[0], o[1], 0u8, 0u8, 0u8, 0u8];
            assert(b@ =~= seq![1u8, 0u8] + u16_bytes(ordinal) + seq![0u8, 0u8, 0u8, 0u8]);
            Ok(b)
        },
        MarkerRef::SourceSpan { offset, len } => {
            if len != 0 && (offset as u64) + (len as u64) <= source_len {
                let o = crate::primitives::u32_to_le(offset);
                let b: [u8; 8] = [2u8, len, 0u8, 0u8, o[0], o[1], o[2], o[3]];
                assert(b@ =~= seq![2u8, len, 0u8, 0u8] + u32_bytes(offset));
                Ok(b)
            } else {
                Err(unrepresentable(book, code))
            }
        },
        MarkerRef::Absent => {
            let b: [u8; 8] = [3u8, 0u8, 0u8, 0u8, 0u8, 0u8, 0u8, 0u8];
            assert(b@ =~= seq![3u8, 0u8, 0u8, 0u8, 0u8, 0u8, 0u8, 0u8]);
            Ok(b)
        },
    }
}

// ------------------------------------------------------------ parameter contracts

/// Decoded parameters match one union arm of `contract` exactly, keys looked
/// up by their first occurrence.
pub fn decoded_params_match_contract(contract: &ParamContract, params: &[(&str, &str)]) -> (matched:
    bool)
    ensures
        matched == contract_accepts(contract.view(), pairs_view(params@)),
{
    contract.accepts(params)
}

/// The parameters of a code are representable when the code has a contract
/// and they match it, or the code has none and there are no parameters.
pub open spec fn spec_params_representable(code: LintCodeTag, params: Option<Seq<(Seq<char>, Seq<char>)>>) -> bool {
    match (spec_param_contract(code), params) {
        (None, None) => true,
        (Some(contract), Some(ps)) => contract_accepts(contract, ps),
        _ => false,
    }
}

/// Whether a finding of `code` may carry `params`.
pub fn params_are_representable(code: LintCodeTag, params: Option<&[(&str, &str)]>) -> (ok: bool)
    ensures
        ok == spec_params_representable(
            code,
            match params {
                Some(ps) => Some(pairs_view(ps@)),
                None => None,
            },
        ),
{
    match (param_contract(code), params) {
        (None, None) => true,
        (Some(contract), Some(params)) => contract.accepts(params),
        _ => false,
    }
}

/// Decoded parameters held to the code's contract: handed back when they
/// match it (or the code has none and there are none), refused as
/// `InvalidSection` otherwise.
pub fn checked_params<'wire>(code: LintCodeTag, params: Option<Vec<(&'wire str, &'wire str)>>) -> (checked:
    Result<Option<Vec<(&'wire str, &'wire str)>>, DecodeError>)
    ensures
        spec_params_representable(
            code,
            match params {
                Some(ps) => Some(pairs_view(ps@)),
                None => None,
            },
        ) ==> checked == Ok::<Option<Vec<(&'wire str, &'wire str)>>, DecodeError>(params),
        !spec_params_representable(
            code,
            match params {
                Some(ps) => Some(pairs_view(ps@)),
                None => None,
            },
        ) ==> checked == Err::<Option<Vec<(&'wire str, &'wire str)>>, DecodeError>(
            DecodeError::InvalidSection,
        ),
{
    match (param_contract(code), params) {
        (None, None) => Ok(None),
        (Some(contract), Some(params)) => {
            if decoded_params_match_contract(&contract, params.as_slice()) {
                Ok(Some(params))
            } else {
                Err(DecodeError::InvalidSection)
            }
        },
        _ => Err(DecodeError::InvalidSection),
    }
}

} // verus!
