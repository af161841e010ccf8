//! Checked finding-section columns: every common row with its sidecars,
//! message parameters and marker reference, validated against the row's own
//! flags and against the row count of the book's token section.

use vstd::prelude::*;

use crate::container::{Section, SectionField, SpecField, SpecSection};
use crate::error::DecodeError;
use crate::primitives::{le_u16, le_u32, read_u16, read_u32};
use crate::schema::{finding_field, finding_flag, LintCodeTag, SectionKind, FINDING_SECTION_RULES_VERSION};
use crate::token_payload::spec_string_dictionary;
use crate::token_section::{field_of, first_field, per_row, per_row_field};

use super::payload::{finding_payload_index, pair_texts, payload_pairs, spec_payload_table, PayloadTable, PAYLOAD_ROW_LEN};
use super::{checked_params, decode_marker_ref, spec_decode_marker_ref, spec_params_representable, MarkerRef, MARKER_REF_LEN};

verus! {

/// Bytes of one common row.
pub const ROW_LEN: usize = 16;

/// Bytes of one related-token record.
pub const RELATED_LEN: usize = 16;

/// Bytes of one overflow span.
pub const OVERFLOW_LEN: usize = 8;

/// The `token_idx` of a finding anchored to no token.
pub const TOKEN_NONE: u32 = 0xffff_ffffu32;

/// The token-section fact a finding section is validated against.
#[derive(Debug, Clone, Copy, PartialEq, Eq, Structural)]
pub struct FindingDecodeInputs {
    pub token_count: u32,
}

/// One checked finding row, as values.
pub struct FindingRowView {
    pub token_idx: Option<u32>,
    pub offset: u32,
    pub len: u32,
    pub chapter: Option<u16>,
    pub verse: Option<u16>,
    pub range_end: Option<u8>,
    pub code: LintCodeTag,
    pub anchor_only: bool,
    pub related: Option<(u32, u32, u32)>,
    pub marker: MarkerRef,
    pub params: Option<Seq<(Seq<char>, Seq<char>)>>,
}

/// One checked common row with its record-aligned sidecar values.
#[derive(Debug, Clone, PartialEq, Eq)]
pub struct FindingRow<'wire> {
    pub token_idx: Option<u32>,
    pub offset: u32,
    pub len: u32,
    pub chapter: Option<u16>,
    pub verse: Option<u16>,
    pub range_end: Option<u8>,
    pub code: LintCodeTag,
    pub anchor_only: bool,
    pub related: Option<(u32, u32, u32)>,
    pub marker: MarkerRef,
    pub params: Option<Vec<(&'wire str, &'wire str)>>,
}

impl<'wire> FindingRow<'wire> {
    pub open spec fn view(&self) -> FindingRowView {
        FindingRowView {
            token_idx: self.token_idx,
            offset: self.offset,
            len: self.len,
            chapter: self.chapter,
            verse: self.verse,
            range_end: self.range_end,
            code: self.code,
            anchor_only: self.anchor_only,
            related: self.related,
            marker: self.marker,
            params: match self.params {
                Some(ps) => Some(pair_texts(ps@)),
                None => None,
            },
        }
    }
}

/// The checked columns of a finding section, as values.
pub struct FindingColumnsView {
    pub rows: Seq<FindingRowView>,
    pub source_len: u64,
    pub source_hash: u64,
    pub catalog_stamp: u64,
    pub rules_version: u16,
}

/// The validated message-payload storage: the per-finding column, when
/// present, and the payload rows as texts.
pub struct PayloadView {
    pub indices: Option<Seq<u8>>,
    pub rows: Seq<Seq<(Seq<char>, Seq<char>)>>,
}

/// Everything a row is checked against.
pub struct FindingSidecars {
    pub common: Seq<u8>,
    pub related: Option<Seq<u8>>,
    pub overflow: Option<Seq<u8>>,
    pub markers: Option<Seq<u8>>,
    pub payloads: Option<PayloadView>,
    pub source_len: u64,
    pub token_count: u32,
}

/// Record `row` of a column of `len`-byte records.
pub open spec fn spec_record_at(bytes: Seq<u8>, row: u32, len: int) -> Result<Seq<u8>, DecodeError> {
    if row * len + len > usize::MAX {
        Err(DecodeError::OffsetOverflow)
    } else if row * len + len > bytes.len() {
        Err(DecodeError::Truncated)
    } else {
        Ok(bytes.subrange(row * len, row * len + len))
    }
}

/// Every byte is zero: the filler of a row that does not use a sidecar.
pub open spec fn zero_bytes(bytes: Seq<u8>) -> bool {
    forall|i: int| 0 <= i < bytes.len() ==> bytes[i] == 0
}

/// The related-token record of `row`, as its flag and the column demand.
pub open spec fn spec_row_related(c: FindingSidecars, row: u32, flag: bool) -> Result<
    Option<(u32, u32, u32)>,
    DecodeError,
> {
    match (flag, c.related) {
        (false, None) => Ok(None),
        (false, Some(b)) => match spec_record_at(b, row, RELATED_LEN as int) {
            Err(e) => Err(e),
            Ok(r) => if zero_bytes(r) {
                Ok(None)
            } else {
                Err(DecodeError::InvalidSection)
            },
        },
        (true, Some(b)) => match spec_record_at(b, row, RELATED_LEN as int) {
            Err(e) => Err(e),
            Ok(r) => if le_u32(r, 0) >= c.token_count {
                Err(DecodeError::InvalidSection)
            } else if le_u32(r, 12) != 0 {
                Err(DecodeError::InvalidSection)
            } else {
                Ok(Some((le_u32(r, 0), le_u32(r, 4), le_u32(r, 8))))
            },
        },
        (true, None) => Err(DecodeError::InvalidSection),
    }
}

/// The `(offset, len)` of `row`: the short span of the common row, or the
/// overflow span when the row's flag says so.
pub open spec fn spec_row_span(c: FindingSidecars, row: u32, flag: bool, short_offset: u16, short_len: u16) -> Result<
    (u32, u32),
    DecodeError,
> {
    match (flag, c.overflow) {
        (false, None) => Ok((short_offset as u32, short_len as u32)),
        (false, Some(b)) => match spec_record_at(b, row, OVERFLOW_LEN as int) {
            Err(e) => Err(e),
            Ok(r) => if zero_bytes(r) {
                Ok((short_offset as u32, short_len as u32))
            } else {
                Err(DecodeError::InvalidSection)
            },
        },
        (true, Some(b)) => match spec_record_at(b, row, OVERFLOW_LEN as int) {
            Err(e) => Err(e),
            Ok(r) => Ok((le_u32(r, 0), le_u32(r, 4))),
        },
        (true, None) => Err(DecodeError::InvalidSection),
    }
}

/// Parameters are kept when they satisfy the code's contract.
pub open spec fn spec_checked_params(code: LintCodeTag, params: Option<Seq<(Seq<char>, Seq<char>)>>) -> Result<
    Option<Seq<(Seq<char>, Seq<char>)>>,
    DecodeError,
> {
    if spec_params_representable(code, params) {
        Ok(params)
    } else {
        Err(DecodeError::InvalidSection)
    }
}

/// Whether `row` points at payload row zero, the filler of a finding
/// without parameters.
pub open spec fn spec_zero_filler(p: PayloadView, row: u32) -> Result<bool, DecodeError> {
    match p.indices {
        None => Err(DecodeError::InvalidSection),
        Some(ix) => match finding_payload_index(ix, row) {
            None => Err(DecodeError::Truncated),
            Some(k) => Ok(k == 0),
        },
    }
}

/// The parameters `row` points at.
pub open spec fn spec_payload_params(p: PayloadView, row: u32) -> Result<Seq<(Seq<char>, Seq<char>)>, DecodeError> {
    match p.indices {
        None => Err(DecodeError::InvalidSection),
        Some(ix) => match finding_payload_index(ix, row) {
            None => Err(DecodeError::Truncated),
            Some(k) => if k >= p.rows.len() {
                Err(DecodeError::InvalidSection)
            } else {
                Ok(p.rows[k as int])
            },
        },
    }
}

/// The message parameters of `row`, checked against the code's contract.
pub open spec fn spec_row_params(c: FindingSidecars, row: u32, flag: bool, code: LintCodeTag) -> Result<
    Option<Seq<(Seq<char>, Seq<char>)>>,
    DecodeError,
> {
    match (flag, c.payloads) {
        (false, None) => spec_checked_params(code, None),
        (false, Some(p)) => match spec_zero_filler(p, row) {
            Err(e) => Err(e),
            Ok(true) => spec_checked_params(code, None),
            Ok(false) => Err(DecodeError::InvalidSection),
        },
        (true, Some(p)) => match spec_payload_params(p, row) {
            Err(e) => Err(e),
            Ok(ps) => spec_checked_params(code, Some(ps)),
        },
        (true, None) => Err(DecodeError::InvalidSection),
    }
}

/// The marker reference of `row`: the anchored token unless the section
/// carries the marker column.
pub open spec fn spec_row_marker(c: FindingSidecars, row: u32) -> Result<MarkerRef, DecodeError> {
    match c.markers {
        None => Ok(MarkerRef::AnchoredToken),
        Some(b) => match spec_record_at(b, row, MARKER_REF_LEN as int) {
            Err(e) => Err(e),
            Ok(r) => spec_decode_marker_ref(r, c.source_len),
        },
    }
}

/// The flag byte of common row `k`.
pub open spec fn row_flags(common: Seq<u8>, k: int) -> u8 {
    common[ROW_LEN * k + 14]
}

/// Some row below `n` sets `bit`.
pub open spec fn any_row_flag(common: Seq<u8>, n: int, bit: u8) -> bool {
    exists|k: int| 0 <= k < n && (#[trigger] row_flags(common, k) & bit) != 0
}

/// Some checked row names a marker other than its anchored token.
pub open spec fn any_marker_override(rows: Seq<FindingRowView>) -> bool {
    exists|k: int| 0 <= k < rows.len() && #[trigger] rows[k].marker != MarkerRef::AnchoredToken
}

/// What checking common row `row` gives, in the order the checks are made.
pub open spec fn spec_finding_row(c: FindingSidecars, row: u32) -> Result<FindingRowView, DecodeError> {
    match spec_record_at(c.common, row, ROW_LEN as int) {
        Err(e) => Err(e),
        Ok(rec) => {
            let token_raw = le_u32(rec, 0);
            let chapter = le_u16(rec, 8);
            let verse = le_u16(rec, 10);
            let range_end = rec[12];
            let flags = rec[14];
            let no_anchor = (flags & finding_flag::NO_ANCHOR) != 0;
            let anchor_only = (flags & finding_flag::ANCHOR_ONLY) != 0;
            let range = (flags & finding_flag::RANGE) != 0;
            match LintCodeTag::spec_from_u8(rec[13]) {
                None => Err(DecodeError::InvalidDiscriminant),
                Some(code) => if (flags & !finding_flag::KNOWN) != 0 {
                    Err(DecodeError::UnsupportedFlags { found: flags as u32 })
                } else if rec[15] != 0 {
                    Err(DecodeError::InvalidSection)
                } else if (range && range_end == 0) || (!range && range_end != 0) {
                    Err(DecodeError::InvalidSection)
                } else if no_anchor && (chapter != 0 || verse != 0 || range_end != 0 || range) {
                    Err(DecodeError::InvalidSection)
                } else if no_anchor && anchor_only {
                    Err(DecodeError::InvalidSection)
                } else if token_raw != TOKEN_NONE && token_raw >= c.token_count {
                    Err(DecodeError::InvalidSection)
                } else {
                    match spec_row_related(c, row, (flags & finding_flag::RELATED) != 0) {
                        Err(e) => Err(e),
                        Ok(related) => match spec_row_span(
                            c,
                            row,
                            (flags & finding_flag::OVERFLOW) != 0,
                            le_u16(rec, 4),
                            le_u16(rec, 6),
                        ) {
                            Err(e) => Err(e),
                            Ok(span) => match spec_row_params(c, row, (flags & finding_flag::PAYLOAD) != 0, code) {
                                Err(e) => Err(e),
                                Ok(params) => match spec_row_marker(c, row) {
                                    Err(e) => Err(e),
                                    Ok(marker) => if (flags & finding_flag::FIX) != 0 {
                                        Err(DecodeError::InvalidSection)
                                    } else {
                                        Ok(
                                            FindingRowView {
                                                token_idx: if token_raw == TOKEN_NONE {
                                                    None
                                                } else {
                                                    Some(token_raw)
                                                },
                                                offset: span.0,
                                                len: span.1,
                                                chapter: if no_anchor {
                                                    None
                                                } else {
                                                    Some(chapter)
                                                },
                                                verse: if no_anchor {
                                                    None
                                                } else {
                                                    Some(verse)
                                                },
                                                range_end: if range {
                                                    Some(range_end)
                                                } else {
                                                    None
                                                },
                                                code,
                                                anchor_only,
                                                related,
                                                marker,
                                                params,
                                            },
                                        )
                                    },
                                },
                            },
                        },
                    }
                },
            }
        },
    }
}

/// Rows `0..n`, checked in order: the first failure, if any.
pub open spec fn spec_finding_rows(c: FindingSidecars, n: nat) -> Result<Seq<FindingRowView>, DecodeError>
    decreases n,
{
    if n == 0 {
        Ok(Seq::empty())
    } else {
        match spec_finding_rows(c, (n - 1) as nat) {
            Err(e) => Err(e),
            Ok(rows) => match spec_finding_row(c, (n - 1) as u32) {
                Err(e) => Err(e),
                Ok(r) => Ok(rows.push(r)),
            },
        }
    }
}

/// An optional per-row column: absent, or present with one record per row.
pub open spec fn optional_per_row_field(fields: Seq<SpecField>, id: u16, count: u32) -> Result<
    Option<SpecField>,
    DecodeError,
> {
    match first_field(fields, id) {
        None => Ok(None),
        Some(f) => if f.count == count {
            Ok(Some(f))
        } else {
            Err(DecodeError::InvalidSection)
        },
    }
}

/// The bytes of an optional field.
pub open spec fn field_bytes(f: Option<SpecField>) -> Option<Seq<u8>> {
    match f {
        Some(f) => Some(f.bytes),
        None => None,
    }
}

/// The message-payload storage: absent when nothing uses it, otherwise the
/// validated string dictionary and payload table.
pub open spec fn spec_payloads(fields: Seq<SpecField>, indices: Option<SpecField>, patches: bool) -> Result<
    Option<PayloadView>,
    DecodeError,
> {
    match (
        indices is Some || patches,
        first_field(fields, finding_field::STRING_DICTIONARY),
        first_field(fields, finding_field::MESSAGE_PAYLOAD_TABLE),
    ) {
        (false, None, None) => Ok(None),
        (true, Some(s), Some(t)) => match spec_payload_table(field_bytes(indices), s.bytes, s.count, t.bytes, t.count) {
            Err(e) => Err(e),
            Ok(_) => Ok(
                Some(
                    PayloadView {
                        indices: field_bytes(indices),
                        rows: Seq::new(
                            t.count as nat,
                            |i: int|
                                payload_pairs(
                                    t.bytes.subrange(0, PAYLOAD_ROW_LEN * t.count),
                                    t.bytes.subrange(PAYLOAD_ROW_LEN * t.count, t.bytes.len() as int),
                                    match spec_string_dictionary(s.bytes, s.count) {
                                        Ok(strings) => strings,
                                        Err(_) => Seq::empty(),
                                    },
                                    i,
                                ),
                        ),
                    },
                ),
            ),
        },
        _ => Err(DecodeError::InvalidSection),
    }
}

/// What checking a finding section gives. A section must be a finding
/// section under the rules version this build knows; its common rows are
/// required and every sidecar is optional with one record per row; the
/// message-payload storage is present exactly when something uses it; each
/// row is checked in order; and each sidecar is present exactly when some row
/// uses it. A section carrying a patch table is refused: this build has no
/// patch-op table to read one with.
pub open spec fn spec_finding_columns(section: SpecSection, inputs: FindingDecodeInputs) -> Result<
    FindingColumnsView,
    DecodeError,
> {
    let h = section.header;
    let fields = section.fields;
    let count = h.record_count;
    if h.kind != SectionKind::Finding {
        Err(DecodeError::InvalidSection)
    } else if h.rules_version != FINDING_SECTION_RULES_VERSION {
        Err(DecodeError::UnsupportedVersion { found: h.rules_version })
    } else {
        match per_row_field(fields, finding_field::COMMON_ROW, count) {
            Err(e) => Err(e),
            Ok(common) => match optional_per_row_field(fields, finding_field::RELATED_TOKEN_IDX, count) {
                Err(e) => Err(e),
                Ok(related) => match optional_per_row_field(fields, finding_field::OVERFLOW_SPAN, count) {
                    Err(e) => Err(e),
                    Ok(overflow) => match optional_per_row_field(fields, finding_field::MESSAGE_PAYLOAD_IDX, count) {
                        Err(e) => Err(e),
                        Ok(payload_indices) => match optional_per_row_field(fields, finding_field::MARKER_REF, count) {
                            Err(e) => Err(e),
                            Ok(markers) => match optional_per_row_field(fields, finding_field::PATCH_ID, count) {
                                Err(e) => Err(e),
                                Ok(patch_indices) => {
                                    let patch_table = first_field(fields, finding_field::PATCH_TABLE);
                                    if patch_indices is Some != patch_table is Some {
                                        Err(DecodeError::InvalidSection)
                                    } else {
                                        match spec_payloads(fields, payload_indices, patch_table is Some) {
                                            Err(e) => Err(e),
                                            Ok(payloads) => if patch_table is Some {
                                                Err(DecodeError::InvalidSection)
                                            } else {
                                                let c = FindingSidecars {
                                                    common: common.bytes,
                                                    related: field_bytes(related),
                                                    overflow: field_bytes(overflow),
                                                    markers: field_bytes(markers),
                                                    payloads,
                                                    source_len: h.source_len,
                                                    token_count: inputs.token_count,
                                                };
                                                match spec_finding_rows(c, count as nat) {
                                                    Err(e) => Err(e),
                                                    Ok(rows) => if related is Some != any_row_flag(
                                                        common.bytes,
                                                        count as int,
                                                        finding_flag::RELATED,
                                                    ) || overflow is Some != any_row_flag(
                                                        common.bytes,
                                                        count as int,
                                                        finding_flag::OVERFLOW,
                                                    ) || payload_indices is Some != any_row_flag(
                                                        common.bytes,
                                                        count as int,
                                                        finding_flag::PAYLOAD,
                                                    ) || markers is Some != any_marker_override(rows) {
                                                        Err(DecodeError::InvalidSection)
                                                    } else {
                                                        Ok(
                                                            FindingColumnsView {
                                                                rows,
                                                                source_len: h.source_len,
                                                                source_hash: h.source_hash,
                                                                catalog_stamp: h.catalog_stamp,
                                                                rules_version: h.rules_version,
                                                            },
                                                        )
                                                    },
                                                }
                                            },
                                        }
                                    }
                                },
                            },
                        },
                    },
                },
            },
        }
    }
}

/// The bytes of an optional column.
pub open spec fn opt_bytes(b: Option<&[u8]>) -> Option<Seq<u8>> {
    match b {
        Some(b) => Some(b@),
        None => None,
    }
}

/// The storage a payload table was validated with.
pub open spec fn payload_view(p: Option<PayloadTable<'_>>) -> Option<PayloadView> {
    match p {
        Some(p) => Some(PayloadView { indices: p.spec_indices(), rows: p.spec_rows() }),
        None => None,
    }
}

/// A payload table, when there is one, is well formed.
pub open spec fn payload_wf(p: Option<PayloadTable<'_>>) -> bool {
    match p {
        Some(p) => p.wf(),
        None => true,
    }
}

/// The row sources of one finding section.
struct RowSources<'wire> {
    common: &'wire [u8],
    related: Option<&'wire [u8]>,
    overflow: Option<&'wire [u8]>,
    markers: Option<&'wire [u8]>,
    payloads: Option<PayloadTable<'wire>>,
    source_len: u64,
    token_count: u32,
}

impl<'wire> RowSources<'wire> {
    spec fn view(&self) -> FindingSidecars {
        FindingSidecars {
            common: self.common@,
            related: opt_bytes(self.related),
            overflow: opt_bytes(self.overflow),
            markers: opt_bytes(self.markers),
            payloads: payload_view(self.payloads),
            source_len: self.source_len,
            token_count: self.token_count,
        }
    }
}

fn record_at(bytes: &[u8], row: u32, len: usize) -> (r: Result<&[u8], DecodeError>)
    requires
        0 < len <= 16,
    ensures
        match r {
            Ok(s) => spec_record_at(bytes@, row, len as int) == Ok::<Seq<u8>, DecodeError>(s@),
            Err(e) => spec_record_at(bytes@, row, len as int) == Err::<Seq<u8>, DecodeError>(e),
        },
{
    assert((row as u64) * (len as u64) <= 0xffff_ffffu64 * 16) by (nonlinear_arith)
        requires
            len <= 16,
    ;
    let end: u64 = (row as u64) * (len as u64) + (len as u64);
    if end > usize::MAX as u64 {
        return Err(DecodeError::OffsetOverflow);
    }
    if end > bytes.len() as u64 {
        return Err(DecodeError::Truncated);
    }
    assert((row as usize) * len == (row as u64) * (len as u64)) by (nonlinear_arith);
    let start = (row as usize) * len;
    let record = vstd::slice::slice_subrange(bytes, start, start + len);
    Ok(record)
}

fn all_zero(bytes: &[u8]) -> (zero: bool)
    ensures
        zero == zero_bytes(bytes@),
{
    let mut i: usize = 0;
    while i < bytes.len()
        invariant
            i <= bytes@.len(),
            forall|k: int| 0 <= k < i ==> bytes@[k] == 0,
        decreases bytes@.len() - i,
    {
        if bytes[i] != 0 {
            return false;
        }
        i = i + 1;
    }
    true
}

fn row_related(c: &RowSources<'_>, row: u32, flag: bool) -> (r: Result<Option<(u32, u32, u32)>, DecodeError>)
    ensures
        r == spec_row_related(c.view(), row, flag),
{
    match (flag, c.related) {
        (false, None) => Ok(None),
        (false, Some(b)) => match record_at(b, row, RELATED_LEN) {
            Err(e) => Err(e),
            Ok(r) => if all_zero(r) {
                Ok(None)
            } else {
                Err(DecodeError::InvalidSection)
            },
        },
        (true, Some(b)) => match record_at(b, row, RELATED_LEN) {
            Err(e) => Err(e),
            Ok(r) => {
                let idx = read_u32(r, 0);
                if idx >= c.token_count {
                    Err(DecodeError::InvalidSection)
                } else if read_u32(r, 12) != 0 {
                    Err(DecodeError::InvalidSection)
                } else {
                    Ok(Some((idx, read_u32(r, 4), read_u32(r, 8))))
                }
            },
        },
        (true, None) => Err(DecodeError::InvalidSection),
    }
}

fn row_span(c: &RowSources<'_>, row: u32, flag: bool, short_offset: u16, short_len: u16) -> (r: Result<
    (u32, u32),
    DecodeError,
>)
    ensures
        r == spec_row_span(c.view(), row, flag, short_offset, short_len),
{
    match (flag, c.overflow) {
        (false, None) => Ok((short_offset as u32, short_len as u32)),
        (false, Some(b)) => match record_at(b, row, OVERFLOW_LEN) {
            Err(e) => Err(e),
            Ok(r) => if all_zero(r) {
                Ok((short_offset as u32, short_len as u32))
            } else {
                Err(DecodeError::InvalidSection)
            },
        },
        (true, Some(b)) => match record_at(b, row, OVERFLOW_LEN) {
            Err(e) => Err(e),
            Ok(r) => Ok((read_u32(r, 0), read_u32(r, 4))),
        },
        (true, None) => Err(DecodeError::InvalidSection),
    }
}

/// The parameters as texts, when there are any.
pub open spec fn opt_pair_texts(params: Option<Vec<(&str, &str)>>) -> Option<Seq<(Seq<char>, Seq<char>)>> {
    match params {
        Some(ps) => Some(pair_texts(ps@)),
        None => None,
    }
}

fn row_params<'wire>(c: &RowSources<'wire>, row: u32, flag: bool, code: LintCodeTag) -> (r: Result<
    Option<Vec<(&'wire str, &'wire str)>>,
    DecodeError,
>)
    requires
        payload_wf(c.payloads),
    ensures
        match r {
            Ok(ps) => spec_row_params(c.view(), row, flag, code) == Ok::<
                Option<Seq<(Seq<char>, Seq<char>)>>,
                DecodeError,
            >(opt_pair_texts(ps)),
            Err(e) => spec_row_params(c.view(), row, flag, code) == Err::<
                Option<Seq<(Seq<char>, Seq<char>)>>,
                DecodeError,
            >(e),
        },
{
    match (flag, &c.payloads) {
        (false, None) => checked_params(code, None),
        (false, Some(p)) => match p.is_zero_filler(row) {
            Err(e) => Err(e),
            Ok(true) => checked_params(code, None),
            Ok(false) => Err(DecodeError::InvalidSection),
        },
        (true, Some(p)) => match p.params(row) {
            Err(e) => Err(e),
            Ok(ps) => checked_params(code, Some(ps)),
        },
        (true, None) => Err(DecodeError::InvalidSection),
    }
}

fn row_marker(c: &RowSources<'_>, row: u32) -> (r: Result<MarkerRef, DecodeError>)
    ensures
        r == spec_row_marker(c.view(), row),
{
    match c.markers {
        None => Ok(MarkerRef::AnchoredToken),
        Some(b) => match record_at(b, row, MARKER_REF_LEN) {
            Err(e) => Err(e),
            Ok(r) => decode_marker_ref(r, c.source_len),
        },
    }
}

fn decode_row<'wire>(c: &RowSources<'wire>, row: u32) -> (r: Result<FindingRow<'wire>, DecodeError>)
    requires
        payload_wf(c.payloads),
    ensures
        match r {
            Ok(x) => spec_finding_row(c.view(), row) == Ok::<FindingRowView, DecodeError>(x.view()),
            Err(e) => spec_finding_row(c.view(), row) == Err::<FindingRowView, DecodeError>(e),
        },
{
    let rec = match record_at(c.common, row, ROW_LEN) {
        Err(e) => return Err(e),
        Ok(rec) => rec,
    };
    let token_raw = read_u32(rec, 0);
    let short_offset = read_u16(rec, 4);
    let short_len = read_u16(rec, 6);
    let chapter = read_u16(rec, 8);
    let verse = read_u16(rec, 10);
    let range_end = rec[12];
    let code = match LintCodeTag::from_u8(rec[13]) {
        None => return Err(DecodeError::InvalidDiscriminant),
        Some(code) => code,
    };
    let flags = rec[14];
    if (flags & !finding_flag::KNOWN) != 0 {
        return Err(DecodeError::UnsupportedFlags { found: flags as u32 });
    }
    if rec[15] != 0 {
        return Err(DecodeError::InvalidSection);
    }
    let no_anchor = (flags & finding_flag::NO_ANCHOR) != 0;
    let anchor_only = (flags & finding_flag::ANCHOR_ONLY) != 0;
    let range = (flags & finding_flag::RANGE) != 0;
    if (range && range_end == 0) || (!range && range_end != 0) {
        return Err(DecodeError::InvalidSection);
    }
    if no_anchor && (chapter != 0 || verse != 0 || range_end != 0 || range) {
        return Err(DecodeError::InvalidSection);
    }
    if no_anchor && anchor_only {
        return Err(DecodeError::InvalidSection);
    }
    let token_idx = if token_raw == TOKEN_NONE {
        None
    } else {
        if token_raw >= c.token_count {
            return Err(DecodeError::InvalidSection);
        }
        Some(token_raw)
    };
    let related = match row_related(c, row, (flags & finding_flag::RELATED) != 0) {
        Err(e) => return Err(e),
        Ok(related) => related,
    };
    let (offset, len) = match row_span(c, row, (flags & finding_flag::OVERFLOW) != 0, short_offset, short_len) {
        Err(e) => return Err(e),
        Ok(span) => span,
    };
    let params = match row_params(c, row, (flags & finding_flag::PAYLOAD) != 0, code) {
        Err(e) => return Err(e),
        Ok(params) => params,
    };
    let marker = match row_marker(c, row) {
        Err(e) => return Err(e),
        Ok(marker) => marker,
    };
    // A fix needs the patch table, which this section does not carry.
    if (flags & finding_flag::FIX) != 0 {
        return Err(DecodeError::InvalidSection);
    }
    Ok(FindingRow {
        token_idx,
        offset,
        len,
        chapter: if no_anchor {
            None
        } else {
            Some(chapter)
        },
        verse: if no_anchor {
            None
        } else {
            Some(verse)
        },
        range_end: if range {
            Some(range_end)
        } else {
            None
        },
        code,
        anchor_only,
        related,
        marker,
        params,
    })
}

/// Once a row fails, every longer run of rows fails the same way.
proof fn lemma_rows_stop(c: FindingSidecars, i: nat, n: nat)
    requires
        i < n,
        spec_finding_rows(c, i) is Ok,
        spec_finding_row(c, i as u32) is Err,
    ensures
        spec_finding_rows(c, n) == Err::<Seq<FindingRowView>, DecodeError>(
            spec_finding_row(c, i as u32)->Err_0,
        ),
    decreases n - i,
{
    if n > i + 1 {
        lemma_rows_stop(c, i, (n - 1) as nat);
    }
}

proof fn lemma_any_row_flag_step(common: Seq<u8>, n: int, bit: u8)
    requires
        0 <= n,
    ensures
        any_row_flag(common, n + 1, bit) == (any_row_flag(common, n, bit) || (row_flags(common, n) & bit) != 0),
{
    if (row_flags(common, n) & bit) != 0 {
        assert(0 <= n < n + 1 && (row_flags(common, n) & bit) != 0);
    }
    if any_row_flag(common, n, bit) {
        let k = choose|k: int| 0 <= k < n && (#[trigger] row_flags(common, k) & bit) != 0;
        assert(0 <= k < n + 1 && (row_flags(common, k) & bit) != 0);
    }
    if any_row_flag(common, n + 1, bit) && (row_flags(common, n) & bit) == 0 {
        let k = choose|k: int| 0 <= k < n + 1 && (#[trigger] row_flags(common, k) & bit) != 0;
        assert(k != n);
        assert(0 <= k < n && (row_flags(common, k) & bit) != 0);
    }
}

proof fn lemma_marker_override_step(rows: Seq<FindingRowView>, r: FindingRowView)
    ensures
        any_marker_override(rows.push(r)) == (any_marker_override(rows) || r.marker != MarkerRef::AnchoredToken),
{
    let all = rows.push(r);
    if r.marker != MarkerRef::AnchoredToken {
        assert(all[rows.len() as int] == r);
    }
    if any_marker_override(rows) {
        let k = choose|k: int| 0 <= k < rows.len() && #[trigger] rows[k].marker != MarkerRef::AnchoredToken;
        assert(all[k] == rows[k]);
    }
    if any_marker_override(all) && r.marker == MarkerRef::AnchoredToken {
        let k = choose|k: int| 0 <= k < all.len() && #[trigger] all[k].marker != MarkerRef::AnchoredToken;
        assert(k != rows.len());
        assert(all[k] == rows[k]);
    }
}

fn optional_per_row<'s, 'a>(section: &'s Section<'a>, id: u16, count: u32) -> (r: Result<
    Option<&'s SectionField<'a>>,
    DecodeError,
>)
    ensures
        match r {
            Ok(Some(f)) => optional_per_row_field(section.spec_fields(), id, count) == Ok::<
                Option<SpecField>,
                DecodeError,
            >(Some(f.view())),
            Ok(None) => optional_per_row_field(section.spec_fields(), id, count) == Ok::<
                Option<SpecField>,
                DecodeError,
            >(None),
            Err(e) => optional_per_row_field(section.spec_fields(), id, count) == Err::<
                Option<SpecField>,
                DecodeError,
            >(e),
        },
{
    match field_of(section, id) {
        Some(f) => if f.count == count {
            Ok(Some(f))
        } else {
            Err(DecodeError::InvalidSection)
        },
        None => Ok(None),
    }
}

/// The bytes of an optional field, as a slice.
fn bytes_of<'s, 'a>(f: Option<&'s SectionField<'a>>) -> (b: Option<&'a [u8]>)
    ensures
        opt_bytes(b) == field_bytes(
            match f {
                Some(f) => Some(f.view()),
                None => None,
            },
        ),
{
    match f {
        Some(f) => Some(f.bytes),
        None => None,
    }
}

/// The views of checked rows.
pub open spec fn rows_view<'wire>(rows: Seq<FindingRow<'wire>>) -> Seq<FindingRowView> {
    rows.map_values(|r: FindingRow<'wire>| r.view())
}

/// Borrowed, fully checked finding-section columns.
#[derive(Debug, Clone)]
pub struct FindingColumns<'wire> {
    pub rows: Vec<FindingRow<'wire>>,
    pub source_len: u64,
    pub source_hash: u64,
    pub catalog_stamp: u64,
    pub rules_version: u16,
}

impl<'wire> FindingColumns<'wire> {
    pub open spec fn view(&self) -> FindingColumnsView {
        FindingColumnsView {
            rows: rows_view(self.rows@),
            source_len: self.source_len,
            source_hash: self.source_hash,
            catalog_stamp: self.catalog_stamp,
            rules_version: self.rules_version,
        }
    }

    /// Checks every row of a finding section, with its sidecars, against the
    /// section's flags and the book's token count.
    pub fn from_section(section: &Section<'wire>, inputs: FindingDecodeInputs) -> (columns: Result<
        FindingColumns<'wire>,
        DecodeError,
    >)
        ensures
            match columns {
                Ok(c) => spec_finding_columns(section@, inputs) == Ok::<FindingColumnsView, DecodeError>(c.view()),
                Err(e) => spec_finding_columns(section@, inputs) == Err::<FindingColumnsView, DecodeError>(e),
            },
    {
        let header = section.header();
        if header.kind != SectionKind::Finding {
            return Err(DecodeError::InvalidSection);
        }
        if header.rules_version != FINDING_SECTION_RULES_VERSION {
            return Err(DecodeError::UnsupportedVersion { found: header.rules_version });
        }
        let count = header.record_count;
        let common = match per_row(section, finding_field::COMMON_ROW, count) {
            Ok(f) => f.bytes,
            Err(e) => return Err(e),
        };
        let related = match optional_per_row(section, finding_field::RELATED_TOKEN_IDX, count) {
            Ok(f) => f,
            Err(e) => return Err(e),
        };
        let overflow = match optional_per_row(section, finding_field::OVERFLOW_SPAN, count) {
            Ok(f) => f,
            Err(e) => return Err(e),
        };
        let payload_indices = match optional_per_row(section, finding_field::MESSAGE_PAYLOAD_IDX, count) {
            Ok(f) => f,
            Err(e) => return Err(e),
        };
        let markers = match optional_per_row(section, finding_field::MARKER_REF, count) {
            Ok(f) => f,
            Err(e) => return Err(e),
        };
        let patch_indices = match optional_per_row(section, finding_field::PATCH_ID, count) {
            Ok(f) => f,
            Err(e) => return Err(e),
        };
        let patch_table = field_of(section, finding_field::PATCH_TABLE);
        if patch_indices.is_some() != patch_table.is_some() {
            return Err(DecodeError::InvalidSection);
        }
        let payloads = match (
            payload_indices.is_some() || patch_table.is_some(),
            field_of(section, finding_field::STRING_DICTIONARY),
            field_of(section, finding_field::MESSAGE_PAYLOAD_TABLE),
        ) {
            (false, None, None) => None,
            (true, Some(strings), Some(table)) => match PayloadTable::from_fields(
                bytes_of(payload_indices),
                *strings,
                *table,
            ) {
                Ok(p) => {
                    assert(p.spec_rows() =~= spec_payloads(
                        section.spec_fields(),
                        match payload_indices {
                            Some(f) => Some(f.view()),
                            None => None,
                        },
                        patch_table is Some,
                    )->Ok_0->0.rows);
                    Some(p)
                },
                Err(e) => return Err(e),
            },
            _ => return Err(DecodeError::InvalidSection),
        };
        // A patch table cannot be read without the patch-op table.
        if patch_table.is_some() {
            return Err(DecodeError::InvalidSection);
        }
        let c = RowSources {
            common,
            related: bytes_of(related),
            overflow: bytes_of(overflow),
            markers: bytes_of(markers),
            payloads,
            source_len: header.source_len,
            token_count: inputs.token_count,
        };
        proof {
            let opt = |f: Option<&SectionField<'wire>>|
                match f {
                    Some(f) => Some(f.view()),
                    None => None,
                };
            let spec_payloads_here = spec_payloads(section.spec_fields(), opt(payload_indices), false);
            assert(spec_payloads_here is Ok);
            assert(payload_view(c.payloads) == spec_payloads_here->Ok_0);
        }
        assert forall|e: DecodeError|
            spec_finding_rows(c.view(), count as nat) == Err::<Seq<FindingRowView>, DecodeError>(e) implies
            spec_finding_columns(section@, inputs) == Err::<FindingColumnsView, DecodeError>(e) by {}
        let mut rows: Vec<FindingRow<'wire>> = Vec::new();
        assert(rows_view(rows@) =~= Seq::<FindingRowView>::empty());
        let mut any_related = false;
        let mut any_overflow = false;
        let mut any_payload = false;
        let mut any_marker = false;
        let mut row: u32 = 0;
        while row < count
            invariant
                payload_wf(c.payloads),
                row <= count,
                forall|e: DecodeError|
                    spec_finding_rows(c.view(), count as nat) == Err::<Seq<FindingRowView>, DecodeError>(e) ==>
                    spec_finding_columns(section@, inputs) == Err::<FindingColumnsView, DecodeError>(e),
                spec_finding_rows(c.view(), row as nat) == Ok::<Seq<FindingRowView>, DecodeError>(
                    rows_view(rows@),
                ),
                any_related == any_row_flag(c.common@, row as int, finding_flag::RELATED),
                any_overflow == any_row_flag(c.common@, row as int, finding_flag::OVERFLOW),
                any_payload == any_row_flag(c.common@, row as int, finding_flag::PAYLOAD),
                any_marker == any_marker_override(rows_view(rows@)),
            decreases count - row,
        {
            let r = match decode_row(&c, row) {
                Ok(r) => r,
                Err(e) => {
                    proof {
                        lemma_rows_stop(c.view(), row as nat, count as nat);
                    }
                    return Err(e);
                },
            };
            assert(16 * row + 16 <= c.common@.len());
            let flags = c.common[16 * (row as usize) + 14];
            assert(flags == row_flags(c.common@, row as int));
            proof {
                lemma_any_row_flag_step(c.common@, row as int, finding_flag::RELATED);
                lemma_any_row_flag_step(c.common@, row as int, finding_flag::OVERFLOW);
                lemma_any_row_flag_step(c.common@, row as int, finding_flag::PAYLOAD);
                lemma_marker_override_step(rows_view(rows@), r.view());
            }
            any_related = any_related || (flags & finding_flag::RELATED) != 0;
            any_overflow = any_overflow || (flags & finding_flag::OVERFLOW) != 0;
            any_payload = any_payload || (flags & finding_flag::PAYLOAD) != 0;
            any_marker = any_marker || r.marker != MarkerRef::AnchoredToken;
            let ghost old_rows = rows@;
            rows.push(r);
            assert(rows_view(rows@) =~= rows_view(old_rows).push(r.view()));
            row = row + 1;
        }
        if related.is_some() != any_related || overflow.is_some() != any_overflow
            || payload_indices.is_some() != any_payload || markers.is_some() != any_marker {
            return Err(DecodeError::InvalidSection);
        }
        Ok(FindingColumns {
            rows,
            source_len: header.source_len,
            source_hash: header.source_hash,
            catalog_stamp: header.catalog_stamp,
            rules_version: header.rules_version,
        })
    }

    /// The checked rows, in section order.
    pub fn rows(&self) -> (rows: &[FindingRow<'wire>])
        ensures
            rows@ == self.rows@,
    {
        self.rows.as_slice()
    }
}

} // verus!
