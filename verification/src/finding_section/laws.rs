//! What the finding-section buffers write for findings without parameters,
//! the row decoder reads back as those findings.

use vstd::prelude::*;

use crate::book::BookId;
use crate::error::{DecodeError, EncodeError};
use crate::primitives::{le_u16, le_u32, lemma_le_u16_at, lemma_le_u32_at, u16_bytes, u32_bytes};
use crate::schema::lemma_lint_code_round_trip;
use crate::token_payload::laws::{lemma_checks_all, lemma_dictionary_round_trip};
use crate::token_payload::{record_total, spec_string_dictionary, utf8_concat};
use crate::schema::params::spec_param_contract;
use crate::container::{ElementWidth, SpecField, SpecSection};
use crate::schema::{finding_field, finding_flag, LintCodeTag, SectionKind, FINDING_SECTION_RULES_VERSION};
use crate::token_section::first_field;

use super::buffers::{
    keys_ascending, spec_finding_buffers, spec_intern, spec_push_pairs, spec_push_payload, FindingBuffersView, ParamsView, short, spec_common_row, spec_encode_row, spec_encode_rows, spec_flags, spec_overflow_record,
    spec_related_record, spec_row_representable, used, zeros, EncodeState, FindingRowInputView,
};
use super::payload::{
    finding_payload_index, pair_key, pair_value, pairs_ok, payload_count, payload_first, payload_pairs, payload_rows_end,
    payload_row_checks, spec_payload_table, text_less, PAYLOAD_PAIR_LEN, PAYLOAD_ROW_LEN,
};
use super::columns::{
    any_marker_override, any_row_flag, row_flags, spec_finding_columns, FindingColumnsView, FindingDecodeInputs,
    spec_checked_params, spec_payload_params, spec_zero_filler, PayloadView, spec_finding_row, spec_finding_rows, spec_record_at, zero_bytes, FindingRowView, FindingSidecars,
    TOKEN_NONE,
};
use super::{spec_decode_marker_ref, spec_encode_marker_ref, span_fits, MarkerRef};

verus! {

/// The finding a decoded row stands for.
pub open spec fn written_row(r: FindingRowInputView) -> FindingRowView {
    FindingRowView {
        token_idx: r.token_idx,
        offset: r.offset,
        len: r.len,
        chapter: r.chapter,
        verse: r.verse,
        range_end: r.range_end,
        code: r.code,
        anchor_only: r.anchor_only,
        related: r.related,
        marker: r.marker,
        params: r.params,
    }
}

/// A finding whose token references lie below `token_count`.
pub open spec fn refs_below(r: FindingRowInputView, token_count: u32) -> bool {
    &&& r.token_idx matches Some(t) ==> t < token_count
    &&& r.related matches Some((t, _, _)) ==> t < token_count
}

proof fn lemma_zero_reads(b: Seq<u8>, at: int)
    requires
        0 <= at,
        at + 4 <= b.len(),
        b[at] == 0,
        b[at + 1] == 0,
        b[at + 2] == 0,
        b[at + 3] == 0,
    ensures
        le_u16(b, at) == 0,
        le_u32(b, at) == 0,
{
    let (x0, x1, x2, x3) = (b[at], b[at + 1], b[at + 2], b[at + 3]);
    assert(x0 == 0 && x1 == 0 && x2 == 0 && x3 == 0 ==> ((x0 as u16) | ((x1 as u16) << 8u16)) == 0 && ((
    x0 as u32) | ((x1 as u32) << 8u32) | ((x2 as u32) << 16u32) | ((x3 as u32) << 24u32)) == 0) by (bit_vector);
}

/// The flag byte a finding is written with reads back as its shape, and sets
/// no bit beyond the known ones and no fix.
proof fn lemma_flags(r: FindingRowInputView)
    ensures
        ((spec_flags(r) & finding_flag::NO_ANCHOR) != 0) == (r.chapter is None),
        ((spec_flags(r) & finding_flag::ANCHOR_ONLY) != 0) == r.anchor_only,
        ((spec_flags(r) & finding_flag::RANGE) != 0) == (r.range_end is Some),
        ((spec_flags(r) & finding_flag::RELATED) != 0) == (r.related is Some),
        ((spec_flags(r) & finding_flag::PAYLOAD) != 0) == (r.params is Some),
        ((spec_flags(r) & finding_flag::OVERFLOW) != 0) == (r.offset > 0xffff || r.len > 0xffff),
        (spec_flags(r) & finding_flag::FIX) == 0,
        (spec_flags(r) & !finding_flag::KNOWN) == 0,
{
    let a: u8 = if r.chapter is None { 2u8 } else { 0u8 };
    let b: u8 = if r.anchor_only { 1u8 } else { 0u8 };
    let c: u8 = if r.range_end is Some { 4u8 } else { 0u8 };
    let d: u8 = if r.related is Some { 8u8 } else { 0u8 };
    let e: u8 = if r.params is Some { 16u8 } else { 0u8 };
    let f: u8 = if r.offset > 0xffff || r.len > 0xffff { 64u8 } else { 0u8 };
    assert(spec_flags(r) == a | b | c | d | e | f);
    assert((a == 2 || a == 0) && (b == 1 || b == 0) && (c == 4 || c == 0) && (d == 8 || d == 0) && (e == 16
        || e == 0) && (f == 64 || f == 0) ==> {
        let x = a | b | c | d | e | f;
        &&& ((x & 2) != 0) == (a == 2)
        &&& ((x & 1) != 0) == (b == 1)
        &&& ((x & 4) != 0) == (c == 4)
        &&& ((x & 8) != 0) == (d == 8)
        &&& ((x & 16) != 0) == (e == 16)
        &&& ((x & 64) != 0) == (f == 64)
        &&& (x & 32) == 0
        &&& (x & !0x7fu8) == 0
    }) by (bit_vector);
}

/// The common row a finding is written as reads back field by field.
proof fn lemma_common_row_reads(r: FindingRowInputView)
    ensures
        spec_common_row(r).len() == 16,
        le_u32(spec_common_row(r), 0) == match r.token_idx {
            Some(t) => t,
            None => TOKEN_NONE,
        },
        le_u16(spec_common_row(r), 4) == short(r.offset),
        le_u16(spec_common_row(r), 6) == short(r.len),
        le_u16(spec_common_row(r), 8) == match r.chapter {
            Some(c) => c,
            None => 0u16,
        },
        le_u16(spec_common_row(r), 10) == match r.verse {
            Some(v) => v,
            None => 0u16,
        },
        spec_common_row(r)[12] == match r.range_end {
            Some(e) => e,
            None => 0u8,
        },
        spec_common_row(r)[13] == r.code.spec_as_u8(),
        spec_common_row(r)[14] == spec_flags(r),
        spec_common_row(r)[15] == 0,
{
    let rec = spec_common_row(r);
    let tok = match r.token_idx {
        Some(t) => t,
        None => TOKEN_NONE,
    };
    let ch = match r.chapter {
        Some(c) => c,
        None => 0u16,
    };
    let vs = match r.verse {
        Some(v) => v,
        None => 0u16,
    };
    assert(rec.subrange(0, 4) =~= u32_bytes(tok));
    assert(rec.subrange(4, 6) =~= u16_bytes(short(r.offset)));
    assert(rec.subrange(6, 8) =~= u16_bytes(short(r.len)));
    assert(rec.subrange(8, 10) =~= u16_bytes(ch));
    assert(rec.subrange(10, 12) =~= u16_bytes(vs));
    lemma_le_u32_at(rec, 0, tok);
    lemma_le_u16_at(rec, 4, short(r.offset));
    lemma_le_u16_at(rec, 6, short(r.len));
    lemma_le_u16_at(rec, 8, ch);
    lemma_le_u16_at(rec, 10, vs);
}

/// A marker reference reads back as the reference it was written from, and
/// its bytes are all zero exactly for the anchored token.
proof fn lemma_marker_reads(m: MarkerRef, source_len: u64, book: BookId, code: LintCodeTag)
    requires
        spec_encode_marker_ref(m, source_len, book, code) is Ok,
    ensures
        spec_encode_marker_ref(m, source_len, book, code)->Ok_0.len() == 8,
        spec_decode_marker_ref(spec_encode_marker_ref(m, source_len, book, code)->Ok_0, source_len)
            == Ok::<MarkerRef, DecodeError>(m),
        (spec_encode_marker_ref(m, source_len, book, code)->Ok_0 == zeros(8)) == (m == MarkerRef::AnchoredToken),
{
    let b = spec_encode_marker_ref(m, source_len, book, code)->Ok_0;
    match m {
        MarkerRef::AnchoredToken => {
            assert(b =~= zeros(8));
            lemma_zero_reads(b, 2);
            lemma_zero_reads(b, 4);
        },
        MarkerRef::CatalogOrdinal(o) => {
            assert(b.subrange(2, 4) =~= u16_bytes(o));
            lemma_le_u16_at(b, 2, o);
            lemma_zero_reads(b, 4);
            assert(b[0] != zeros(8)[0]);
        },
        MarkerRef::SourceSpan { offset, len } => {
            assert(b.subrange(4, 8) =~= u32_bytes(offset));
            lemma_le_u32_at(b, 4, offset);
            assert(b[2] == 0 && b[3] == 0);
            let (x0, x1) = (b[2], b[3]);
            assert(x0 == 0 && x1 == 0 ==> ((x0 as u16) | ((x1 as u16) << 8u16)) == 0) by (bit_vector);
            assert(b[0] != zeros(8)[0]);
        },
        MarkerRef::Absent => {
            lemma_zero_reads(b, 2);
            lemma_zero_reads(b, 4);
            assert(b[0] != zeros(8)[0]);
        },
    }
}

/// The message-payload storage gives row `k` the parameters `params`: its
/// own payload row when it has some, the zero filler when it has none.
pub open spec fn params_hold(payloads: Option<PayloadView>, k: u32, params: Option<ParamsView>) -> bool {
    match (params, payloads) {
        (None, None) => true,
        (None, Some(p)) => spec_zero_filler(p, k) == Ok::<bool, DecodeError>(true),
        (Some(ps), Some(p)) => spec_payload_params(p, k) == Ok::<ParamsView, DecodeError>(ps),
        (Some(_), None) => false,
    }
}

/// The sidecar column `col`, when present, holds `record` at row `k`; when
/// absent, the row needs none.
pub open spec fn column_holds(col: Option<Seq<u8>>, k: u32, len: int, record: Seq<u8>, needed: bool) -> bool {
    match col {
        Some(b) => spec_record_at(b, k, len) == Ok::<Seq<u8>, DecodeError>(record),
        None => !needed,
    }
}

/// A row written from a plain, storable finding reads back as that finding.
proof fn lemma_row_reads(c: FindingSidecars, k: u32, r: FindingRowInputView, book: BookId)
    requires
        spec_row_representable(r),
        refs_below(r, c.token_count),
        params_hold(c.payloads, k, r.params),
        spec_encode_marker_ref(r.marker, c.source_len, book, r.code) is Ok,
        spec_record_at(c.common, k, 16) == Ok::<Seq<u8>, DecodeError>(spec_common_row(r)),
        column_holds(c.related, k, 16, spec_related_record(r), r.related is Some),
        column_holds(c.overflow, k, 8, spec_overflow_record(r), r.offset > 0xffff || r.len > 0xffff),
        column_holds(
            c.markers,
            k,
            8,
            spec_encode_marker_ref(r.marker, c.source_len, book, r.code)->Ok_0,
            r.marker != MarkerRef::AnchoredToken,
        ),
    ensures
        spec_finding_row(c, k) == Ok::<FindingRowView, DecodeError>(written_row(r)),
{
    lemma_common_row_reads(r);
    lemma_flags(r);
    lemma_lint_code_round_trip(r.code, 0);
    lemma_marker_reads(r.marker, c.source_len, book, r.code);
    match r.related {
        Some((t, o, l)) => {
            let rel = spec_related_record(r);
            assert(rel.subrange(0, 4) =~= u32_bytes(t));
            assert(rel.subrange(4, 8) =~= u32_bytes(o));
            assert(rel.subrange(8, 12) =~= u32_bytes(l));
            assert(rel.subrange(12, 16) =~= u32_bytes(0));
            lemma_le_u32_at(rel, 0, t);
            lemma_le_u32_at(rel, 4, o);
            lemma_le_u32_at(rel, 8, l);
            lemma_le_u32_at(rel, 12, 0);
        },
        None => {
            assert(zero_bytes(spec_related_record(r)));
        },
    }
    if r.offset > 0xffff || r.len > 0xffff {
        let ov = spec_overflow_record(r);
        assert(ov.subrange(0, 4) =~= u32_bytes(r.offset));
        assert(ov.subrange(4, 8) =~= u32_bytes(r.len));
        lemma_le_u32_at(ov, 0, r.offset);
        lemma_le_u32_at(ov, 4, r.len);
    } else {
        assert(zero_bytes(spec_overflow_record(r)));
    }
    assert(spec_checked_params(r.code, r.params) == Ok::<Option<ParamsView>, DecodeError>(r.params));
}

/// The marker bytes a storable finding is written with.
pub open spec fn marker_bytes(r: FindingRowInputView, source_len: u64, book: BookId) -> Seq<u8> {
    spec_encode_marker_ref(r.marker, source_len, book, r.code)->Ok_0
}

/// What the encoder's buffers hold after `n` findings: one record per
/// finding in each column, in order, and a sidecar flag left clear only when
/// no finding needs that sidecar.
pub open spec fn buffers_hold(st: EncodeState, book: BookId, source_len: u64, rows: Seq<FindingRowInputView>, n: nat) -> bool {
    &&& st.common.len() == 16 * n
    &&& st.related.len() == 16 * n
    &&& st.overflow.len() == 8 * n
    &&& st.markers.len() == 8 * n
    &&& forall|k: int| 0 <= k < n ==> #[trigger] spec_row_representable(rows[k])
    &&& forall|k: int| 0 <= k < n ==> (#[trigger] spec_encode_marker_ref(rows[k].marker, source_len, book, rows[k].code)) is Ok
    &&& forall|k: int| 0 <= k < n ==> #[trigger] st.common.subrange(16 * k, 16 * k + 16) == spec_common_row(rows[k])
    &&& forall|k: int| 0 <= k < n ==> #[trigger] st.related.subrange(16 * k, 16 * k + 16) == spec_related_record(rows[k])
    &&& forall|k: int| 0 <= k < n ==> #[trigger] st.overflow.subrange(8 * k, 8 * k + 8) == spec_overflow_record(rows[k])
    &&& forall|k: int| 0 <= k < n ==> #[trigger] st.markers.subrange(8 * k, 8 * k + 8) == marker_bytes(rows[k], source_len, book)
    &&& !st.has_related ==> forall|k: int| 0 <= k < n ==> (#[trigger] rows[k].related) is None
    &&& !st.has_overflow ==> forall|k: int| 0 <= k < n ==> !((#[trigger] rows[k].offset) > 0xffff || rows[k].len > 0xffff)
    &&& !st.has_marker ==> forall|k: int| 0 <= k < n ==> (#[trigger] rows[k].marker) == MarkerRef::AnchoredToken
    &&& !st.has_payload ==> forall|k: int| 0 <= k < n ==> (#[trigger] rows[k].params) is None
}

/// One encoded finding appends one record to each column.
proof fn lemma_row_step(book: BookId, source_len: u64, st: EncodeState, r: FindingRowInputView, out: EncodeState)
    requires
        spec_encode_row(book, source_len, st, r) == Ok::<EncodeState, EncodeError>(out),
    ensures
        spec_row_representable(r),
        spec_encode_marker_ref(r.marker, source_len, book, r.code) is Ok,
        out.common == st.common + spec_common_row(r),
        out.related == st.related + spec_related_record(r),
        out.overflow == st.overflow + spec_overflow_record(r),
        out.markers == st.markers + marker_bytes(r, source_len, book),
        spec_common_row(r).len() == 16,
        spec_related_record(r).len() == 16,
        spec_overflow_record(r).len() == 8,
        marker_bytes(r, source_len, book).len() == 8,
        out.has_related == (st.has_related || r.related is Some),
        out.has_overflow == (st.has_overflow || r.offset > 0xffff || r.len > 0xffff),
        out.has_payload == (st.has_payload || r.params is Some),
        out.has_marker == (st.has_marker || r.marker != MarkerRef::AnchoredToken),
{
    lemma_common_row_reads(r);
    lemma_marker_reads(r.marker, source_len, book, r.code);
}

proof fn lemma_buffers_hold(book: BookId, source_len: u64, rows: Seq<FindingRowInputView>, n: nat)
    requires
        n <= rows.len(),
        spec_encode_rows(book, source_len, rows, n) is Ok,
    ensures
        buffers_hold(spec_encode_rows(book, source_len, rows, n)->Ok_0, book, source_len, rows, n),
    decreases n,
{
    if n > 0 {
        let m = (n - 1) as nat;
        lemma_buffers_hold(book, source_len, rows, m);
        let st = spec_encode_rows(book, source_len, rows, m)->Ok_0;
        let r = rows[m as int];
        let out = spec_encode_rows(book, source_len, rows, n)->Ok_0;
        assert(spec_encode_row(book, source_len, st, r) == Ok::<EncodeState, EncodeError>(out));
        lemma_row_step(book, source_len, st, r, out);
        assert forall|k: int| 0 <= k < n implies #[trigger] out.common.subrange(16 * k, 16 * k + 16)
            == spec_common_row(rows[k]) by {
            if k < m {
                assert(out.common.subrange(16 * k, 16 * k + 16) =~= st.common.subrange(16 * k, 16 * k + 16));
            } else {
                assert(out.common.subrange(16 * k, 16 * k + 16) =~= spec_common_row(r));
            }
        }
        assert forall|k: int| 0 <= k < n implies #[trigger] out.related.subrange(16 * k, 16 * k + 16)
            == spec_related_record(rows[k]) by {
            if k < m {
                assert(out.related.subrange(16 * k, 16 * k + 16) =~= st.related.subrange(16 * k, 16 * k + 16));
            } else {
                assert(out.related.subrange(16 * k, 16 * k + 16) =~= spec_related_record(r));
            }
        }
        assert forall|k: int| 0 <= k < n implies #[trigger] out.overflow.subrange(8 * k, 8 * k + 8)
            == spec_overflow_record(rows[k]) by {
            if k < m {
                assert(out.overflow.subrange(8 * k, 8 * k + 8) =~= st.overflow.subrange(8 * k, 8 * k + 8));
            } else {
                assert(out.overflow.subrange(8 * k, 8 * k + 8) =~= spec_overflow_record(r));
            }
        }
        assert forall|k: int| 0 <= k < n implies #[trigger] out.markers.subrange(8 * k, 8 * k + 8)
            == marker_bytes(rows[k], source_len, book) by {
            if k < m {
                assert(out.markers.subrange(8 * k, 8 * k + 8) =~= st.markers.subrange(8 * k, 8 * k + 8));
            } else {
                assert(out.markers.subrange(8 * k, 8 * k + 8) =~= marker_bytes(r, source_len, book));
            }
        }
    }
}

/// Rows `0..n` of the sidecars the encoder wrote read back as the first `n`
/// findings.
proof fn lemma_rows_read(c: FindingSidecars, st: EncodeState, book: BookId, rows: Seq<FindingRowInputView>, n: nat)
    requires
        n <= rows.len(),
        rows.len() <= u32::MAX,
        16 * rows.len() <= usize::MAX,
        buffers_hold(st, book, c.source_len, rows, rows.len()),
        forall|k: int| 0 <= k < rows.len() ==> #[trigger] refs_below(rows[k], c.token_count),
        forall|k: int| 0 <= k < rows.len() ==> params_hold(c.payloads, k as u32, #[trigger] rows[k].params),
        c.common == st.common,
        c.related == used(st.has_related, st.related),
        c.overflow == used(st.has_overflow, st.overflow),
        c.markers == used(st.has_marker, st.markers),
    ensures
        spec_finding_rows(c, n) == Ok::<Seq<FindingRowView>, DecodeError>(
            rows.subrange(0, n as int).map_values(|r: FindingRowInputView| written_row(r)),
        ),
    decreases n,
{
    if n > 0 {
        let m = (n - 1) as nat;
        lemma_rows_read(c, st, book, rows, m);
        let k = m as int;
        let r = rows[k];
        assert(refs_below(r, c.token_count));
        assert(params_hold(c.payloads, k as u32, rows[k].params));
        assert(spec_row_representable(rows[k]));
        assert(spec_encode_marker_ref(rows[k].marker, c.source_len, book, rows[k].code) is Ok);
        assert(st.common.subrange(16 * k, 16 * k + 16) == spec_common_row(rows[k]));
        assert(st.related.subrange(16 * k, 16 * k + 16) == spec_related_record(rows[k]));
        assert(st.overflow.subrange(8 * k, 8 * k + 8) == spec_overflow_record(rows[k]));
        assert(st.markers.subrange(8 * k, 8 * k + 8) == marker_bytes(rows[k], c.source_len, book));
        if !st.has_related {
            assert(rows[k].related is None);
        }
        if !st.has_overflow {
            assert(!(rows[k].offset > 0xffff || rows[k].len > 0xffff));
        }
        if !st.has_marker {
            assert(rows[k].marker == MarkerRef::AnchoredToken);
        }
        assert(m as u32 == m);
        lemma_row_reads(c, m as u32, r, book);
        assert(rows.subrange(0, n as int).map_values(|r: FindingRowInputView| written_row(r)) =~= rows.subrange(
            0,
            m as int,
        ).map_values(|r: FindingRowInputView| written_row(r)).push(written_row(r)));
    } else {
        assert(rows.subrange(0, 0).map_values(|r: FindingRowInputView| written_row(r)) =~= Seq::<
            FindingRowView,
        >::empty());
    }
}

/// `a` is a prefix of `b`.
pub open spec fn prefix_of<T>(a: Seq<T>, b: Seq<T>) -> bool {
    a.len() <= b.len() && forall|i: int| 0 <= i < a.len() ==> #[trigger] b[i] == a[i]
}

proof fn lemma_le_u32_prefix(a: Seq<u8>, b: Seq<u8>, pos: int)
    requires
        0 <= pos,
        pos + 4 <= a.len(),
        prefix_of(a, b),
    ensures
        le_u32(b, pos) == le_u32(a, pos),
{
    assert(b[pos] == a[pos] && b[pos + 1] == a[pos + 1] && b[pos + 2] == a[pos + 2] && b[pos + 3] == a[pos + 3]);
}

/// Interning keeps earlier strings, and the index it gives names the string.
proof fn lemma_intern(s: Seq<Seq<char>>, v: Seq<char>)
    requires
        spec_intern(s, v) is Some,
        s.len() <= u32::MAX + 1,
        s.len() > 0 ==> utf8_concat(s.drop_last()).len() <= u32::MAX,
    ensures
        prefix_of(s, spec_intern(s, v).unwrap().0),
        spec_intern(s, v).unwrap().1 < spec_intern(s, v).unwrap().0.len(),
        spec_intern(s, v).unwrap().0[spec_intern(s, v).unwrap().1 as int] == v,
        spec_intern(s, v).unwrap().0.len() <= s.len() + 1,
        spec_intern(s, v).unwrap().0.len() <= u32::MAX + 1,
        spec_intern(s, v).unwrap().0.len() > 0 ==> utf8_concat(spec_intern(s, v).unwrap().0.drop_last()).len()
            <= u32::MAX,
{
    if s.contains(v) {
        let k = choose|k: int| 0 <= k < s.len() && s[k] == v;
        assert(k as u32 == k);
    } else {
        assert(s.push(v).drop_last() =~= s);
    }
}

/// The index pair at byte `pos` of `pairs` names `pair`'s key and value in
/// `strings`.
pub open spec fn pair_written(strings: Seq<Seq<char>>, pairs: Seq<u8>, pos: int, pair: (Seq<char>, Seq<char>)) -> bool {
    &&& le_u32(pairs, pos) < strings.len()
    &&& strings[le_u32(pairs, pos) as int] == pair.0
    &&& le_u32(pairs, pos + 4) < strings.len()
    &&& strings[le_u32(pairs, pos + 4) as int] == pair.1
}

/// Interning `n` pairs appends their index pairs and keeps earlier strings
/// and bytes; each index names its key or value.
proof fn lemma_push_pairs(s: Seq<Seq<char>>, p: Seq<u8>, ps: ParamsView, n: nat)
    requires
        n <= ps.len(),
        spec_push_pairs(s, p, ps, n) is Some,
        s.len() <= u32::MAX + 1,
        s.len() > 0 ==> utf8_concat(s.drop_last()).len() <= u32::MAX,
    ensures
        ({
            let (s2, p2) = spec_push_pairs(s, p, ps, n).unwrap();
            &&& prefix_of(s, s2)
            &&& prefix_of(p, p2)
            &&& p2.len() == p.len() + 8 * n
            &&& s2.len() <= s.len() + 2 * n
            &&& s2.len() <= u32::MAX + 1
            &&& s2.len() > 0 ==> utf8_concat(s2.drop_last()).len() <= u32::MAX
            &&& forall|j: int| 0 <= j < n ==> pair_written(s2, p2, p.len() + 8 * j, #[trigger] ps[j])
        }),
    decreases n,
{
    if n > 0 {
        let m = (n - 1) as nat;
        lemma_push_pairs(s, p, ps, m);
        let (s1, p1) = spec_push_pairs(s, p, ps, m).unwrap();
        lemma_intern(s1, ps[m as int].0);
        let (sa, k) = spec_intern(s1, ps[m as int].0).unwrap();
        lemma_intern(sa, ps[m as int].1);
        let (sb, v) = spec_intern(sa, ps[m as int].1).unwrap();
        let p2 = p1 + u32_bytes(k) + u32_bytes(v);
        assert(spec_push_pairs(s, p, ps, n).unwrap() == (sb, p2));
        let at = p1.len() as int;
        assert(p2.subrange(at, at + 4) =~= u32_bytes(k));
        assert(p2.subrange(at + 4, at + 8) =~= u32_bytes(v));
        lemma_le_u32_at(p2, at, k);
        lemma_le_u32_at(p2, at + 4, v);
        assert(prefix_of(p1, p2));
        assert forall|j: int| 0 <= j < n implies pair_written(sb, p2, p.len() + 8 * j, #[trigger] ps[j]) by {
            if j < m {
                lemma_le_u32_prefix(p1, p2, p.len() + 8 * j);
                lemma_le_u32_prefix(p1, p2, p.len() + 8 * j + 4);
                let x = le_u32(p1, p.len() + 8 * j) as int;
                let y = le_u32(p1, p.len() + 8 * j + 4) as int;
                assert(pair_written(s1, p1, p.len() + 8 * j, ps[j]));
                assert(sb[x] == sa[x] && sa[x] == s1[x]);
                assert(sb[y] == sa[y] && sa[y] == s1[y]);
            } else {
                assert(p.len() + 8 * j == at);
                assert(sb[k as int] == sa[k as int]);
            }
        }
        assert forall|i: int| 0 <= i < s.len() implies #[trigger] sb[i] == s[i] by {
            assert(sb[i] == sa[i] && sa[i] == s1[i]);
        }
        assert forall|i: int| 0 <= i < p.len() implies #[trigger] p2[i] == p[i] by {
            assert(p2[i] == p1[i]);
        }
        assert(prefix_of(s, sb));
        assert(prefix_of(p, p2));
        assert(p2.len() == p.len() + 8 * n);
        assert(sb.len() <= s.len() + 2 * n);
        assert(sb.len() <= u32::MAX + 1);
        assert(sb.len() > 0 ==> utf8_concat(sb.drop_last()).len() <= u32::MAX);
    }
}

/// Parameter pairs of the first `n` findings.
pub open spec fn pair_total(rows: Seq<FindingRowInputView>, n: nat) -> nat
    decreases n,
{
    if n == 0 {
        0
    } else {
        pair_total(rows, (n - 1) as nat) + match rows[n - 1].params {
            Some(ps) => ps.len(),
            None => 0,
        }
    }
}

/// The payload storage gives finding `k` its parameters: the index column
/// names a payload row whose pairs are the parameters, or zero when it has
/// none.
pub open spec fn row_payload_holds(st: EncodeState, k: int, params: Option<ParamsView>) -> bool {
    let idx = le_u32(st.indices, 4 * k) as int;
    match params {
        None => idx == 0,
        Some(ps) => {
            &&& 8 * idx + 8 <= st.payload_rows.len()
            &&& payload_count(st.payload_rows, idx) == ps.len()
            &&& 8 * (payload_first(st.payload_rows, idx) + ps.len()) <= st.payload_pairs.len()
            &&& forall|j: int|
                0 <= j < ps.len() ==> pair_written(
                    st.strings,
                    st.payload_pairs,
                    8 * (payload_first(st.payload_rows, idx) + j),
                    #[trigger] ps[j],
                )
        },
    }
}

/// What the payload storage holds after `n` findings.
pub open spec fn payloads_hold(st: EncodeState, rows: Seq<FindingRowInputView>, n: nat) -> bool {
    &&& st.indices.len() == 4 * n
    &&& st.payload_rows.len() % 8 == 0
    &&& st.payload_pairs.len() == 8 * pair_total(rows, n)
    &&& st.strings.len() <= 2 * pair_total(rows, n)
    &&& st.strings.len() <= u32::MAX + 1
    &&& st.strings.len() > 0 ==> utf8_concat(st.strings.drop_last()).len() <= u32::MAX
    &&& forall|k: int| 0 <= k < n ==> #[trigger] row_payload_holds(st, k, rows[k].params)
}

proof fn lemma_row_payload_extends(st: EncodeState, st2: EncodeState, k: int, params: Option<ParamsView>)
    requires
        0 <= k,
        4 * k + 4 <= st.indices.len(),
        row_payload_holds(st, k, params),
        prefix_of(st.indices, st2.indices),
        prefix_of(st.payload_rows, st2.payload_rows),
        prefix_of(st.payload_pairs, st2.payload_pairs),
        prefix_of(st.strings, st2.strings),
    ensures
        row_payload_holds(st2, k, params),
{
    lemma_le_u32_prefix(st.indices, st2.indices, 4 * k);
    let idx = le_u32(st.indices, 4 * k) as int;
    let idx2 = le_u32(st2.indices, 4 * k) as int;
    assert(idx2 == idx);
    if let Some(ps) = params {
        lemma_le_u32_prefix(st.payload_rows, st2.payload_rows, 8 * idx);
        lemma_le_u32_prefix(st.payload_rows, st2.payload_rows, 8 * idx + 4);
        let first = payload_first(st.payload_rows, idx);
        let first2 = payload_first(st2.payload_rows, idx2);
        assert(first2 == first);
        assert(payload_count(st2.payload_rows, idx2) == payload_count(st.payload_rows, idx));
        assert forall|j: int| 0 <= j < ps.len() implies pair_written(
            st2.strings,
            st2.payload_pairs,
            8 * (first2 + j),
            #[trigger] ps[j],
        ) by {
            lemma_le_u32_prefix(st.payload_pairs, st2.payload_pairs, 8 * (first + j));
            lemma_le_u32_prefix(st.payload_pairs, st2.payload_pairs, 8 * (first + j) + 4);
            let x = le_u32(st.payload_pairs, 8 * (first + j)) as int;
            let y = le_u32(st.payload_pairs, 8 * (first + j) + 4) as int;
            assert(pair_written(st.strings, st.payload_pairs, 8 * (first + j), ps[j]));
            assert(st2.strings[x] == st.strings[x]);
            assert(st2.strings[y] == st.strings[y]);
        }
    }
}

/// The payload effects of encoding one finding.
proof fn lemma_row_payload_step(book: BookId, source_len: u64, st: EncodeState, r: FindingRowInputView, out: EncodeState)
    requires
        spec_encode_row(book, source_len, st, r) == Ok::<EncodeState, EncodeError>(out),
    ensures
        match r.params {
            None => out.indices == st.indices + u32_bytes(0) && out.strings == st.strings && out.payload_rows
                == st.payload_rows && out.payload_pairs == st.payload_pairs,
            Some(ps) => spec_push_payload(st.strings, st.payload_rows, st.payload_pairs, ps) is Some && ({
                let q = spec_push_payload(st.strings, st.payload_rows, st.payload_pairs, ps).unwrap();
                &&& out.indices == st.indices + u32_bytes(q.0)
                &&& out.strings == q.1
                &&& out.payload_rows == q.2
                &&& out.payload_pairs == q.3
            }),
        },
{
}

/// The payload storage after one more finding: the new finding's row holds,
/// and everything earlier is kept.
#[verifier::rlimit(80)]
proof fn lemma_new_row_payload(
    book: BookId,
    source_len: u64,
    st: EncodeState,
    r: FindingRowInputView,
    out: EncodeState,
    m: nat,
)
    requires
        spec_encode_row(book, source_len, st, r) == Ok::<EncodeState, EncodeError>(out),
        st.indices.len() == 4 * m,
        st.payload_rows.len() % 8 == 0,
        st.payload_pairs.len() % 8 == 0,
        st.strings.len() <= u32::MAX + 1,
        st.strings.len() > 0 ==> utf8_concat(st.strings.drop_last()).len() <= u32::MAX,
    ensures
        row_payload_holds(out, m as int, r.params),
        prefix_of(st.indices, out.indices),
        prefix_of(st.payload_rows, out.payload_rows),
        prefix_of(st.payload_pairs, out.payload_pairs),
        prefix_of(st.strings, out.strings),
        out.indices.len() == 4 * m + 4,
        out.payload_rows.len() % 8 == 0,
        out.payload_pairs.len() == st.payload_pairs.len() + 8 * match r.params {
            Some(ps) => ps.len(),
            None => 0,
        },
        out.strings.len() <= st.strings.len() + 2 * match r.params {
            Some(ps) => ps.len(),
            None => 0,
        },
        out.strings.len() <= u32::MAX + 1,
        out.strings.len() > 0 ==> utf8_concat(out.strings.drop_last()).len() <= u32::MAX,
{
    lemma_row_payload_step(book, source_len, st, r, out);
    let mut index: u32 = 0;
    match r.params {
        None => {},
        Some(ps) => {
            let q = spec_push_payload(st.strings, st.payload_rows, st.payload_pairs, ps).unwrap();
            index = q.0;
            lemma_push_pairs(st.strings, st.payload_pairs, ps, ps.len());
            let first = st.payload_pairs.len() / 8;
            assert(8 * first == st.payload_pairs.len());
            assert(8 * index == st.payload_rows.len());
            let ri = 8 * (index as int);
            assert(out.payload_rows.subrange(ri, ri + 4) =~= u32_bytes(first as u32));
            assert(out.payload_rows.subrange(ri + 4, ri + 8) =~= u32_bytes(ps.len() as u32));
            lemma_le_u32_at(out.payload_rows, ri, first as u32);
            lemma_le_u32_at(out.payload_rows, ri + 4, ps.len() as u32);
        },
    }
    let at = 4 * (m as int);
    assert(out.indices.subrange(at, at + 4) =~= u32_bytes(index));
    lemma_le_u32_at(out.indices, at, index);
}

#[verifier::rlimit(40)]
proof fn lemma_payloads_hold(book: BookId, source_len: u64, rows: Seq<FindingRowInputView>, n: nat)
    requires
        n <= rows.len(),
        spec_encode_rows(book, source_len, rows, n) is Ok,
    ensures
        payloads_hold(spec_encode_rows(book, source_len, rows, n)->Ok_0, rows, n),
    decreases n,
{
    if n > 0 {
        let m = (n - 1) as nat;
        lemma_payloads_hold(book, source_len, rows, m);
        let st = spec_encode_rows(book, source_len, rows, m)->Ok_0;
        let r = rows[m as int];
        let out = spec_encode_rows(book, source_len, rows, n)->Ok_0;
        lemma_new_row_payload(book, source_len, st, r, out, m);
        assert forall|k: int| 0 <= k < n implies #[trigger] row_payload_holds(out, k, rows[k].params) by {
            if k < m {
                lemma_row_payload_extends(st, out, k, rows[k].params);
            }
        }
    }
}

/// How a reader sees the message-payload storage of the buffers: the
/// per-finding column, and the payload rows split off the table with their
/// pairs resolved in the dictionary.
pub open spec fn read_payloads(b: FindingBuffersView) -> Option<PayloadView> {
    match (b.strings, b.payload_table) {
        (Some(sb), Some(t)) => Some(
            PayloadView {
                indices: b.payload_indices,
                rows: Seq::new(
                    b.payload_count as nat,
                    |i: int|
                        payload_pairs(
                            t.subrange(0, PAYLOAD_ROW_LEN * b.payload_count),
                            t.subrange(PAYLOAD_ROW_LEN * b.payload_count, t.len() as int),
                            match spec_string_dictionary(sb, b.string_count) {
                                Ok(strings) => strings,
                                Err(_) => Seq::empty(),
                            },
                            i,
                        ),
                ),
            },
        ),
        _ => None,
    }
}

/// What the finding-section buffers write, the row decoder reads back as the
/// findings that went in, in order: every row of the common column, checked
/// against the related, overflow and marker sidecars and the message-payload
/// storage the buffers carry, gives its finding's anchor, span, code,
/// related token, marker reference and parameters (as key-ordered pairs of
/// texts). It holds when the findings' token references lie below
/// `token_count` and the rows and parameter pairs are few enough to be
/// counted: no more than the machine's address space holds, and fewer than
/// 2^31 pairs.
pub proof fn law_finding_rows_round_trip(
    book: BookId,
    source_hash: u64,
    source_len: u64,
    catalog_stamp: u64,
    token_count: u32,
    rows: Seq<FindingRowInputView>,
    b: FindingBuffersView,
)
    requires
        spec_finding_buffers(book, source_hash, source_len, catalog_stamp, rows) == Ok::<
            FindingBuffersView,
            EncodeError,
        >(b),
        forall|k: int| 0 <= k < rows.len() ==> #[trigger] refs_below(rows[k], token_count),
        16 * rows.len() <= usize::MAX,
        2 * pair_total(rows, rows.len()) <= u32::MAX,
    ensures
        spec_finding_rows(
            FindingSidecars {
                common: b.common,
                related: b.related,
                overflow: b.overflow,
                markers: b.marker_refs,
                payloads: read_payloads(b),
                source_len,
                token_count,
            },
            rows.len(),
        ) == Ok::<Seq<FindingRowView>, DecodeError>(rows.map_values(|r: FindingRowInputView| written_row(r))),
{
    let n = rows.len();
    let st = spec_encode_rows(book, source_len, rows, n)->Ok_0;
    lemma_buffers_hold(book, source_len, rows, n);
    lemma_payloads_hold(book, source_len, rows, n);
    let c = FindingSidecars {
        common: b.common,
        related: b.related,
        overflow: b.overflow,
        markers: b.marker_refs,
        payloads: read_payloads(b),
        source_len,
        token_count,
    };
    if st.has_payload {
        lemma_dictionary_round_trip(st.strings);
        let count = b.payload_count;
        let t = st.payload_rows + st.payload_pairs;
        assert(8 * count == st.payload_rows.len());
        assert(t.subrange(0, PAYLOAD_ROW_LEN * count) =~= st.payload_rows);
        assert(t.subrange(PAYLOAD_ROW_LEN * count, t.len() as int) =~= st.payload_pairs);
        let p = read_payloads(b).unwrap();
        assert(p.indices == Some(st.indices));
        assert forall|k: int| 0 <= k < n implies params_hold(c.payloads, k as u32, #[trigger] rows[k].params) by {
            assert(row_payload_holds(st, k, rows[k].params));
            assert(k as u32 == k);
            let idx = le_u32(st.indices, 4 * k);
            assert(finding_payload_index(st.indices, k as u32) == Some(idx));
            if let Some(ps) = rows[k].params {
                let first = payload_first(st.payload_rows, idx as int);
                assert(idx < count);
                assert(p.rows[idx as int] == payload_pairs(st.payload_rows, st.payload_pairs, st.strings, idx as int));
                assert forall|j: int| 0 <= j < ps.len() implies #[trigger] payload_pairs(
                    st.payload_rows,
                    st.payload_pairs,
                    st.strings,
                    idx as int,
                )[j] == ps[j] by {
                    assert(pair_written(st.strings, st.payload_pairs, 8 * (first + j), ps[j]));
                }
                assert(payload_pairs(st.payload_rows, st.payload_pairs, st.strings, idx as int) =~= ps);
            }
        }
    } else {
        assert forall|k: int| 0 <= k < n implies params_hold(c.payloads, k as u32, #[trigger] rows[k].params) by {
            assert(rows[k].params is None);
        }
    }
    lemma_rows_read(c, st, book, rows, n);
    assert(rows.subrange(0, n as int) =~= rows);
}

/// The payload rows written so far partition the pairs written so far,
/// contiguously, and each row's pairs name strings with strictly ascending
/// keys.
pub open spec fn table_holds(st: EncodeState, n: nat) -> bool {
    let r = st.payload_rows.len() / 8;
    &&& st.payload_rows.len() <= 8 * n
    &&& st.has_payload ==> st.payload_rows.len() >= 8
    &&& payload_rows_end(st.payload_rows, r as int) == st.payload_pairs.len() / 8
    &&& forall|i: int| 0 <= i < r ==> #[trigger] payload_row_ok(st, i)
}

/// Payload row `i` starts where the previous one ends and its pairs are
/// well formed.
pub open spec fn payload_row_ok(st: EncodeState, i: int) -> bool {
    let first = payload_first(st.payload_rows, i);
    let end = first + payload_count(st.payload_rows, i);
    &&& first == payload_rows_end(st.payload_rows, i)
    &&& 8 * end <= st.payload_pairs.len()
    &&& pairs_ok(st.payload_pairs, st.strings, first, end)
}

proof fn lemma_payload_row_extends(st: EncodeState, st2: EncodeState, i: int)
    requires
        0 <= i,
        8 * i + 8 <= st.payload_rows.len(),
        payload_row_ok(st, i),
        prefix_of(st.payload_rows, st2.payload_rows),
        prefix_of(st.payload_pairs, st2.payload_pairs),
        prefix_of(st.strings, st2.strings),
    ensures
        payload_row_ok(st2, i),
        payload_rows_end(st2.payload_rows, i + 1) == payload_rows_end(st.payload_rows, i + 1),
{
    lemma_le_u32_prefix(st.payload_rows, st2.payload_rows, 8 * i);
    lemma_le_u32_prefix(st.payload_rows, st2.payload_rows, 8 * i + 4);
    if i > 0 {
        lemma_le_u32_prefix(st.payload_rows, st2.payload_rows, 8 * (i - 1));
        lemma_le_u32_prefix(st.payload_rows, st2.payload_rows, 8 * (i - 1) + 4);
    }
    let first = payload_first(st.payload_rows, i);
    let end = first + payload_count(st.payload_rows, i);
    assert forall|j: int| first <= j < end implies #[trigger] pair_key(st2.payload_pairs, j) < st2.strings.len()
        && pair_value(st2.payload_pairs, j) < st2.strings.len() by {
        lemma_le_u32_prefix(st.payload_pairs, st2.payload_pairs, 8 * j);
        lemma_le_u32_prefix(st.payload_pairs, st2.payload_pairs, 8 * j + 4);
        assert(pair_key(st.payload_pairs, j) < st.strings.len());
    }
    assert forall|j: int| first < j < end implies text_less(
        st2.strings[pair_key(st2.payload_pairs, j - 1) as int],
        st2.strings[#[trigger] pair_key(st2.payload_pairs, j) as int],
    ) by {
        lemma_le_u32_prefix(st.payload_pairs, st2.payload_pairs, 8 * j);
        lemma_le_u32_prefix(st.payload_pairs, st2.payload_pairs, 8 * (j - 1));
        let a = pair_key(st.payload_pairs, j - 1) as int;
        let b = pair_key(st.payload_pairs, j) as int;
        assert(pair_key(st.payload_pairs, j - 1) < st.strings.len());
        assert(pair_key(st.payload_pairs, j) < st.strings.len());
        assert(text_less(st.strings[a], st.strings[b]));
        assert(st2.strings[a] == st.strings[a] && st2.strings[b] == st.strings[b]);
    }
}

#[verifier::rlimit(80)]
proof fn lemma_new_table_row(
    book: BookId,
    source_len: u64,
    st: EncodeState,
    r: FindingRowInputView,
    out: EncodeState,
    m: nat,
)
    requires
        spec_encode_row(book, source_len, st, r) == Ok::<EncodeState, EncodeError>(out),
        table_holds(st, m),
        st.indices.len() == 4 * m,
        st.payload_rows.len() % 8 == 0,
        st.payload_pairs.len() % 8 == 0,
        st.strings.len() <= u32::MAX + 1,
        st.strings.len() > 0 ==> utf8_concat(st.strings.drop_last()).len() <= u32::MAX,
    ensures
        table_holds(out, m + 1),
{
    lemma_row_step(book, source_len, st, r, out);
    lemma_new_row_payload(book, source_len, st, r, out, m);
    lemma_row_payload_step(book, source_len, st, r, out);
    let r0 = (st.payload_rows.len() / 8) as int;
    assert forall|i: int| 0 <= i < r0 implies #[trigger] payload_row_ok(out, i) by {
        lemma_payload_row_extends(st, out, i);
    }
    if r0 > 0 {
        lemma_payload_row_extends(st, out, r0 - 1);
    }
    match r.params {
        None => {},
        Some(ps) => {
            lemma_push_pairs(st.strings, st.payload_pairs, ps, ps.len());
            let first = st.payload_pairs.len() / 8;
            let idx = r0 as int;
            assert(8 * idx == st.payload_rows.len());
            let ri = 8 * idx;
            assert(out.payload_rows.subrange(ri, ri + 4) =~= u32_bytes(first as u32));
            assert(out.payload_rows.subrange(ri + 4, ri + 8) =~= u32_bytes(ps.len() as u32));
            lemma_le_u32_at(out.payload_rows, ri, first as u32);
            lemma_le_u32_at(out.payload_rows, ri + 4, ps.len() as u32);
            assert(payload_first(out.payload_rows, idx) == first);
            assert(payload_count(out.payload_rows, idx) == ps.len());
            assert(payload_rows_end(out.payload_rows, idx) == first);
            assert forall|j: int| first <= j < first + ps.len() implies #[trigger] pair_key(out.payload_pairs, j)
                < out.strings.len() && pair_value(out.payload_pairs, j) < out.strings.len() by {
                assert(pair_written(out.strings, out.payload_pairs, st.payload_pairs.len() + 8 * (j - first), ps[j - first]));
            }
            assert forall|j: int| first < j < first + ps.len() implies text_less(
                out.strings[pair_key(out.payload_pairs, j - 1) as int],
                out.strings[#[trigger] pair_key(out.payload_pairs, j) as int],
            ) by {
                assert(pair_written(out.strings, out.payload_pairs, st.payload_pairs.len() + 8 * (j - first), ps[j - first]));
                assert(pair_written(out.strings, out.payload_pairs, st.payload_pairs.len() + 8 * (j - 1 - first), ps[j - 1 - first]));
                assert(keys_ascending(ps));
                assert(text_less(ps[j - 1 - first].0, ps[(j - 1 - first) + 1].0));
            }
            assert(payload_row_ok(out, idx));
            assert(payload_rows_end(out.payload_rows, idx + 1) == out.payload_pairs.len() / 8);
        },
    }
}

proof fn lemma_table_holds(book: BookId, source_len: u64, rows: Seq<FindingRowInputView>, n: nat)
    requires
        n <= rows.len(),
        spec_encode_rows(book, source_len, rows, n) is Ok,
    ensures
        table_holds(spec_encode_rows(book, source_len, rows, n)->Ok_0, n),
    decreases n,
{
    if n > 0 {
        let m = (n - 1) as nat;
        lemma_table_holds(book, source_len, rows, m);
        lemma_payloads_hold(book, source_len, rows, m);
        let st = spec_encode_rows(book, source_len, rows, m)->Ok_0;
        let out = spec_encode_rows(book, source_len, rows, n)->Ok_0;
        lemma_new_table_row(book, source_len, st, rows[m as int], out, m);
    }
}

/// The payload table the buffers write passes the reader's validation.
proof fn lemma_written_table(
    book: BookId,
    source_hash: u64,
    source_len: u64,
    catalog_stamp: u64,
    rows: Seq<FindingRowInputView>,
    b: FindingBuffersView,
)
    requires
        spec_finding_buffers(book, source_hash, source_len, catalog_stamp, rows) == Ok::<
            FindingBuffersView,
            EncodeError,
        >(b),
        16 * rows.len() <= usize::MAX,
        2 * pair_total(rows, rows.len()) <= u32::MAX,
        b.payload_table is Some,
    ensures
        b.strings is Some,
        spec_payload_table(
            b.payload_indices,
            b.strings->0,
            b.string_count,
            b.payload_table->0,
            b.payload_count,
        ) == Ok::<(), DecodeError>(()),
{
    let n = rows.len();
    let st = spec_encode_rows(book, source_len, rows, n)->Ok_0;
    lemma_buffers_hold(book, source_len, rows, n);
    lemma_payloads_hold(book, source_len, rows, n);
    lemma_table_holds(book, source_len, rows, n);
    lemma_dictionary_round_trip(st.strings);
    let count = b.payload_count;
    let t = st.payload_rows + st.payload_pairs;
    assert(8 * count == st.payload_rows.len());
    let prow = t.subrange(0, PAYLOAD_ROW_LEN * count);
    let ppair = t.subrange(PAYLOAD_ROW_LEN * count, t.len() as int);
    assert(prow =~= st.payload_rows);
    assert(ppair =~= st.payload_pairs);
    let pair_count = record_total(ppair, PAYLOAD_PAIR_LEN as int);
    assert(pair_count == pair_total(rows, n));
    assert forall|k: int| 0 <= k < count implies #[trigger] payload_row_checks(prow, ppair, st.strings, pair_count)(
        k,
    ) is Ok by {
        assert(payload_row_ok(st, k));
    }
    lemma_checks_all(payload_row_checks(prow, ppair, st.strings, pair_count), count as nat);
    assert forall|i: int| 0 <= i < record_total(st.indices, 4) implies #[trigger] le_u32(st.indices, 4 * i)
        < count by {
        assert(row_payload_holds(st, i, rows[i].params));
    }
}

/// A field of the section, as the reader sees it.
pub open spec fn spec_field_of(id: u16, width: ElementWidth, required: bool, count: u32, bytes: Option<Seq<u8>>) -> Option<
    SpecField,
> {
    match bytes {
        Some(b) => Some(SpecField { id, width, required, count, bytes: b }),
        None => None,
    }
}

/// The field with id `id` of the section the buffers are written as.
pub open spec fn buffer_field(b: FindingBuffersView, id: u16) -> Option<SpecField> {
    let rc = b.record_count;
    if id == finding_field::COMMON_ROW {
        spec_field_of(id, ElementWidth::Sixteen, true, rc, Some(b.common))
    } else if id == finding_field::RELATED_TOKEN_IDX {
        spec_field_of(id, ElementWidth::Sixteen, false, rc, b.related)
    } else if id == finding_field::OVERFLOW_SPAN {
        spec_field_of(id, ElementWidth::Eight, false, rc, b.overflow)
    } else if id == finding_field::MESSAGE_PAYLOAD_IDX {
        spec_field_of(id, ElementWidth::Four, false, rc, b.payload_indices)
    } else if id == finding_field::MARKER_REF {
        spec_field_of(id, ElementWidth::Eight, false, rc, b.marker_refs)
    } else if id == finding_field::STRING_DICTIONARY {
        spec_field_of(id, ElementWidth::Variable, false, b.string_count, b.strings)
    } else if id == finding_field::MESSAGE_PAYLOAD_TABLE {
        spec_field_of(id, ElementWidth::Variable, false, b.payload_count, b.payload_table)
    } else {
        None
    }
}

/// A sidecar flag is set only by a finding that needs the sidecar.
proof fn lemma_flags_exist(book: BookId, source_len: u64, rows: Seq<FindingRowInputView>, n: nat)
    requires
        n <= rows.len(),
        spec_encode_rows(book, source_len, rows, n) is Ok,
    ensures
        ({
            let st = spec_encode_rows(book, source_len, rows, n)->Ok_0;
            &&& st.has_related ==> exists|k: int| 0 <= k < n && (#[trigger] rows[k].related) is Some
            &&& st.has_overflow ==> exists|k: int|
                0 <= k < n && ((#[trigger] rows[k].offset) > 0xffff || rows[k].len > 0xffff)
            &&& st.has_payload ==> exists|k: int| 0 <= k < n && (#[trigger] rows[k].params) is Some
            &&& st.has_marker ==> exists|k: int| 0 <= k < n && (#[trigger] rows[k].marker) != MarkerRef::AnchoredToken
        }),
    decreases n,
{
    if n > 0 {
        let m = (n - 1) as nat;
        lemma_flags_exist(book, source_len, rows, m);
        let st = spec_encode_rows(book, source_len, rows, m)->Ok_0;
        let out = spec_encode_rows(book, source_len, rows, n)->Ok_0;
        let r = rows[m as int];
        lemma_row_step(book, source_len, st, r, out);
        if out.has_related && !st.has_related {
            assert(rows[m as int].related is Some);
        }
        if out.has_overflow && !st.has_overflow {
            assert(rows[m as int].offset > 0xffff || rows[m as int].len > 0xffff);
        }
        if out.has_payload && !st.has_payload {
            assert(rows[m as int].params is Some);
        }
        if out.has_marker && !st.has_marker {
            assert(rows[m as int].marker != MarkerRef::AnchoredToken);
        }
    }
}

/// The flag byte of written row `k` is the flag byte of finding `k`.
proof fn lemma_row_flags_written(st: EncodeState, book: BookId, source_len: u64, rows: Seq<FindingRowInputView>, k: int)
    requires
        buffers_hold(st, book, source_len, rows, rows.len()),
        0 <= k < rows.len(),
    ensures
        row_flags(st.common, k) == spec_flags(rows[k]),
{
    assert(st.common.subrange(16 * k, 16 * k + 16) == spec_common_row(rows[k]));
    lemma_common_row_reads(rows[k]);
    assert(st.common[16 * k + 14] == st.common.subrange(16 * k, 16 * k + 16)[14]);
}

/// What the finding-section buffers write, the finding-column decoder reads
/// back as the findings that went in: for a finding section of this build's
/// rules version, with the record count and source length written, whose
/// field lookups give the buffers' fields, checking the columns succeeds
/// and gives the findings in order, parameters included (as key-ordered
/// pairs of texts), and the section's source hash, catalog stamp and rules
/// version. It holds when the findings' token references lie below
/// `token_count` and the rows and parameter pairs are few enough to be
/// counted: no more than the machine's address space holds, and fewer than
/// 2^31 pairs.
pub proof fn law_finding_section_round_trip(
    book: BookId,
    source_hash: u64,
    source_len: u64,
    catalog_stamp: u64,
    token_count: u32,
    rows: Seq<FindingRowInputView>,
    b: FindingBuffersView,
    section: SpecSection,
)
    requires
        spec_finding_buffers(book, source_hash, source_len, catalog_stamp, rows) == Ok::<
            FindingBuffersView,
            EncodeError,
        >(b),
        forall|k: int| 0 <= k < rows.len() ==> #[trigger] refs_below(rows[k], token_count),
        16 * rows.len() <= usize::MAX,
        2 * pair_total(rows, rows.len()) <= u32::MAX,
        section.header.kind == SectionKind::Finding,
        section.header.rules_version == FINDING_SECTION_RULES_VERSION,
        section.header.record_count == b.record_count,
        section.header.source_len == source_len,
        forall|id: u16| id <= 8 ==> #[trigger] first_field(section.fields, id) == buffer_field(b, id),
    ensures
        spec_finding_columns(section, FindingDecodeInputs { token_count }) == Ok::<FindingColumnsView, DecodeError>(
            FindingColumnsView {
                rows: rows.map_values(|r: FindingRowInputView| written_row(r)),
                source_len,
                source_hash: section.header.source_hash,
                catalog_stamp: section.header.catalog_stamp,
                rules_version: FINDING_SECTION_RULES_VERSION,
            },
        ),
{
    let n = rows.len();
    let st = spec_encode_rows(book, source_len, rows, n)->Ok_0;
    let fields = section.fields;
    lemma_buffers_hold(book, source_len, rows, n);
    lemma_flags_exist(book, source_len, rows, n);
    law_finding_rows_round_trip(book, source_hash, source_len, catalog_stamp, token_count, rows, b);
    assert(first_field(fields, finding_field::COMMON_ROW) == buffer_field(b, finding_field::COMMON_ROW));
    assert(first_field(fields, finding_field::RELATED_TOKEN_IDX) == buffer_field(b, finding_field::RELATED_TOKEN_IDX));
    assert(first_field(fields, finding_field::OVERFLOW_SPAN) == buffer_field(b, finding_field::OVERFLOW_SPAN));
    assert(first_field(fields, finding_field::MESSAGE_PAYLOAD_IDX) == buffer_field(
        b,
        finding_field::MESSAGE_PAYLOAD_IDX,
    ));
    assert(first_field(fields, finding_field::MARKER_REF) == buffer_field(b, finding_field::MARKER_REF));
    assert(first_field(fields, finding_field::PATCH_ID) == buffer_field(b, finding_field::PATCH_ID));
    assert(first_field(fields, finding_field::PATCH_TABLE) == buffer_field(b, finding_field::PATCH_TABLE));
    assert(first_field(fields, finding_field::STRING_DICTIONARY) == buffer_field(b, finding_field::STRING_DICTIONARY));
    assert(first_field(fields, finding_field::MESSAGE_PAYLOAD_TABLE) == buffer_field(
        b,
        finding_field::MESSAGE_PAYLOAD_TABLE,
    ));
    if st.has_payload {
        lemma_written_table(book, source_hash, source_len, catalog_stamp, rows, b);
    }
    let common = b.common;
    assert(st.has_related == any_row_flag(common, n as int, finding_flag::RELATED)) by {
        if st.has_related {
            let k = choose|k: int| 0 <= k < n && (#[trigger] rows[k].related) is Some;
            lemma_row_flags_written(st, book, source_len, rows, k);
            lemma_flags(rows[k]);
            assert((row_flags(common, k) & finding_flag::RELATED) != 0);
        } else {
            assert forall|k: int| 0 <= k < n implies !((#[trigger] row_flags(common, k) & finding_flag::RELATED) != 0) by {
                lemma_row_flags_written(st, book, source_len, rows, k);
                lemma_flags(rows[k]);
                assert(rows[k].related is None);
            }
        }
    }
    assert(st.has_overflow == any_row_flag(common, n as int, finding_flag::OVERFLOW)) by {
        if st.has_overflow {
            let k = choose|k: int| 0 <= k < n && ((#[trigger] rows[k].offset) > 0xffff || rows[k].len > 0xffff);
            lemma_row_flags_written(st, book, source_len, rows, k);
            lemma_flags(rows[k]);
            assert((row_flags(common, k) & finding_flag::OVERFLOW) != 0);
        } else {
            assert forall|k: int| 0 <= k < n implies !((#[trigger] row_flags(common, k) & finding_flag::OVERFLOW) != 0) by {
                lemma_row_flags_written(st, book, source_len, rows, k);
                lemma_flags(rows[k]);
                assert(!(rows[k].offset > 0xffff || rows[k].len > 0xffff));
            }
        }
    }
    assert(st.has_payload == any_row_flag(common, n as int, finding_flag::PAYLOAD)) by {
        if st.has_payload {
            let k = choose|k: int| 0 <= k < n && (#[trigger] rows[k].params) is Some;
            lemma_row_flags_written(st, book, source_len, rows, k);
            lemma_flags(rows[k]);
            assert((row_flags(common, k) & finding_flag::PAYLOAD) != 0);
        } else {
            assert forall|k: int| 0 <= k < n implies !((#[trigger] row_flags(common, k) & finding_flag::PAYLOAD) != 0) by {
                lemma_row_flags_written(st, book, source_len, rows, k);
                lemma_flags(rows[k]);
                assert(rows[k].params is None);
            }
        }
    }
    let decoded = rows.map_values(|r: FindingRowInputView| written_row(r));
    assert(st.has_marker == any_marker_override(decoded)) by {
        if st.has_marker {
            let k = choose|k: int| 0 <= k < n && (#[trigger] rows[k].marker) != MarkerRef::AnchoredToken;
            assert(decoded[k].marker != MarkerRef::AnchoredToken);
        } else {
            assert forall|k: int| 0 <= k < decoded.len() implies !(#[trigger] decoded[k].marker != MarkerRef::AnchoredToken) by {
                assert(rows[k].marker == MarkerRef::AnchoredToken);
            }
        }
    }
}

} // verus!
