//! The buffers one finding section is written from: the common rows, each
//! sidecar only when some row uses it, and the message-parameter storage.
//! Input order is kept; dictionary and field order are deterministic.

use vstd::prelude::*;

use crate::book::BookId;
use crate::container::{ElementWidth, FieldPayload, SectionPayload, SectionVariant};
use crate::error::EncodeError;
use crate::primitives::{u16_bytes, u32_bytes, Writer};
use crate::schema::params::{pairs_view, spec_param_contract};
use crate::schema::{finding_field, finding_flag, param_contract, LintCodeTag, FINDING_SECTION_RULES_VERSION};
use crate::token_codec::field_view;
use crate::token_payload::{dictionary_bytes, dictionary_full, StringDictionaryBuilder};

use super::columns::TOKEN_NONE;
use super::payload::{str_less, text_less, PAYLOAD_ROW_LEN};
use super::{
    encode_marker_ref, params_are_representable, spec_encode_marker_ref, spec_params_representable,
    spec_unrepresentable, unrepresentable, MarkerRef,
};

verus! {

/// Message parameters as texts.
pub type ParamsView = Seq<(Seq<char>, Seq<char>)>;

/// Builder input for one finding. Parameters are listed in ascending key
/// order, each key once.
#[derive(Debug, Clone, PartialEq, Eq)]
pub struct FindingRowInput {
    pub token_idx: Option<u32>,
    pub offset: u32,
    pub len: u32,
    pub chapter: Option<u16>,
    pub verse: Option<u16>,
    pub range_end: Option<u8>,
    pub code: LintCodeTag,
    pub anchor_only: bool,
    pub related: Option<(u32, u32, u32)>,
    pub marker: MarkerRef,
    pub params: Option<Vec<(String, String)>>,
}

/// One finding's input, as values.
pub struct FindingRowInputView {
    pub token_idx: Option<u32>,
    pub offset: u32,
    pub len: u32,
    pub chapter: Option<u16>,
    pub verse: Option<u16>,
    pub range_end: Option<u8>,
    pub code: LintCodeTag,
    pub anchor_only: bool,
    pub related: Option<(u32, u32, u32)>,
    pub marker: MarkerRef,
    pub params: Option<ParamsView>,
}

/// Owned pairs as texts.
pub open spec fn string_pairs(ps: Seq<(String, String)>) -> ParamsView {
    ps.map_values(|p: (String, String)| (p.0@, p.1@))
}

impl FindingRowInput {
    pub open spec fn view(&self) -> FindingRowInputView {
        FindingRowInputView {
            token_idx: self.token_idx,
            offset: self.offset,
            len: self.len,
            chapter: self.chapter,
            verse: self.verse,
            range_end: self.range_end,
            code: self.code,
            anchor_only: self.anchor_only,
            related: self.related,
            marker: self.marker,
            params: match self.params {
                Some(ps) => Some(string_pairs(ps@)),
                None => None,
            },
        }
    }
}

/// The inputs as values.
pub open spec fn inputs_view(rows: Seq<FindingRowInput>) -> Seq<FindingRowInputView> {
    rows.map_values(|r: FindingRowInput| r.view())
}

/// Keys strictly ascend, as a `BTreeMap` lists them.
pub open spec fn keys_ascending(ps: ParamsView) -> bool {
    forall|i: int| 0 <= i < ps.len() - 1 ==> text_less(#[trigger] ps[i].0, ps[i + 1].0)
}

/// Interning `v`: its index when already present; otherwise appended, unless
/// the dictionary is full.
pub open spec fn spec_intern(strings: Seq<Seq<char>>, v: Seq<char>) -> Option<(Seq<Seq<char>>, u32)> {
    if strings.contains(v) {
        Some((strings, (choose|k: int| 0 <= k < strings.len() && strings[k] == v) as u32))
    } else if dictionary_full(strings) {
        None
    } else {
        Some((strings.push(v), strings.len() as u32))
    }
}

/// Interning the first `n` pairs, key then value, and appending their index
/// pairs.
pub open spec fn spec_push_pairs(strings: Seq<Seq<char>>, pairs: Seq<u8>, ps: ParamsView, n: nat) -> Option<
    (Seq<Seq<char>>, Seq<u8>),
>
    decreases n,
{
    if n == 0 {
        Some((strings, pairs))
    } else {
        match spec_push_pairs(strings, pairs, ps, (n - 1) as nat) {
            None => None,
            Some((s, p)) => match spec_intern(s, ps[n - 1].0) {
                None => None,
                Some((s1, k)) => match spec_intern(s1, ps[n - 1].1) {
                    None => None,
                    Some((s2, v)) => Some((s2, p + u32_bytes(k) + u32_bytes(v))),
                },
            },
        }
    }
}

/// The state of the buffers after some rows.
pub struct EncodeState {
    pub common: Seq<u8>,
    pub related: Seq<u8>,
    pub overflow: Seq<u8>,
    pub indices: Seq<u8>,
    pub markers: Seq<u8>,
    pub strings: Seq<Seq<char>>,
    pub payload_rows: Seq<u8>,
    pub payload_pairs: Seq<u8>,
    pub has_related: bool,
    pub has_overflow: bool,
    pub has_payload: bool,
    pub has_marker: bool,
}

/// Appending one payload row and its pairs to `(strings, rows, pairs)`: the
/// row's index, then the new strings, rows and pairs.
pub open spec fn spec_push_payload(strings: Seq<Seq<char>>, rows: Seq<u8>, pairs: Seq<u8>, ps: ParamsView) -> Option<
    (u32, Seq<Seq<char>>, Seq<u8>, Seq<u8>),
> {
    let index = rows.len() / (PAYLOAD_ROW_LEN as nat);
    let first = pairs.len() / 8;
    if index > u32::MAX || first > u32::MAX || ps.len() > u32::MAX {
        None
    } else {
        match spec_push_pairs(strings, pairs, ps, ps.len()) {
            None => None,
            Some((s, p)) => Some((index as u32, s, rows + u32_bytes(first as u32) + u32_bytes(ps.len() as u32), p)),
        }
    }
}

/// Appending one payload row and its pairs to the buffers.
pub open spec fn spec_push_payload_row(st: EncodeState, ps: ParamsView) -> Option<(u32, EncodeState)> {
    match spec_push_payload(st.strings, st.payload_rows, st.payload_pairs, ps) {
        None => None,
        Some((index, strings, rows, pairs)) => Some(
            (index, EncodeState { strings, payload_rows: rows, payload_pairs: pairs, ..st }),
        ),
    }
}

/// `n` zero bytes.
pub open spec fn zeros(n: nat) -> Seq<u8> {
    Seq::new(n, |i: int| 0u8)
}

/// The span clamped into the common row's `u16`.
pub open spec fn short(v: u32) -> u16 {
    if v > 0xffff {
        0xffffu16
    } else {
        v as u16
    }
}

/// The flag byte of a finding.
pub open spec fn spec_flags(r: FindingRowInputView) -> u8 {
    let f1: u8 = if r.chapter is None {
        finding_flag::NO_ANCHOR
    } else {
        0u8
    };
    let f2: u8 = f1 | if r.anchor_only {
        finding_flag::ANCHOR_ONLY
    } else {
        0u8
    };
    let f3: u8 = f2 | if r.range_end is Some {
        finding_flag::RANGE
    } else {
        0u8
    };
    let f4: u8 = f3 | if r.related is Some {
        finding_flag::RELATED
    } else {
        0u8
    };
    let f5: u8 = f4 | if r.params is Some {
        finding_flag::PAYLOAD
    } else {
        0u8
    };
    f5 | if r.offset > 0xffff || r.len > 0xffff {
        finding_flag::OVERFLOW
    } else {
        0u8
    }
}

/// The common row of a finding.
pub open spec fn spec_common_row(r: FindingRowInputView) -> Seq<u8> {
    u32_bytes(
        match r.token_idx {
            Some(t) => t,
            None => TOKEN_NONE,
        },
    ) + u16_bytes(short(r.offset)) + u16_bytes(short(r.len)) + u16_bytes(
        match r.chapter {
            Some(c) => c,
            None => 0u16,
        },
    ) + u16_bytes(
        match r.verse {
            Some(v) => v,
            None => 0u16,
        },
    ) + seq![
        match r.range_end {
            Some(e) => e,
            None => 0u8,
        },
        r.code.spec_as_u8(),
        spec_flags(r),
        0u8,
    ]
}

/// The related record of a finding: zeros when it has none.
pub open spec fn spec_related_record(r: FindingRowInputView) -> Seq<u8> {
    match r.related {
        Some((t, o, l)) => u32_bytes(t) + u32_bytes(o) + u32_bytes(l) + u32_bytes(0),
        None => zeros(16),
    }
}

/// The overflow record of a finding: zeros when its span fits the common row.
pub open spec fn spec_overflow_record(r: FindingRowInputView) -> Seq<u8> {
    if r.offset > 0xffff || r.len > 0xffff {
        u32_bytes(r.offset) + u32_bytes(r.len)
    } else {
        zeros(8)
    }
}

/// Whether a finding's shape can be stored, checked in the order the
/// encoder checks: the anchor, anchor-only, the range, then the parameters.
pub open spec fn spec_row_representable(r: FindingRowInputView) -> bool {
    &&& (r.chapter is Some) == (r.verse is Some)
    &&& r.anchor_only ==> r.chapter is Some
    &&& match r.range_end {
        Some(v) => v != 0 && r.chapter is Some,
        None => true,
    }
    &&& match r.params {
        Some(ps) => spec_params_representable(r.code, Some(ps)) && keys_ascending(ps),
        None => spec_param_contract(r.code) is None,
    }
}

/// Encoding one finding into the buffers.
pub open spec fn spec_encode_row(book: BookId, source_len: u64, st: EncodeState, r: FindingRowInputView) -> Result<
    EncodeState,
    EncodeError,
> {
    if !spec_row_representable(r) {
        Err(spec_unrepresentable(book, r.code))
    } else {
        let wide = r.offset > 0xffff || r.len > 0xffff;
        let st1 = EncodeState {
            common: st.common + spec_common_row(r),
            related: st.related + spec_related_record(r),
            overflow: st.overflow + spec_overflow_record(r),
            has_related: st.has_related || r.related is Some,
            has_overflow: st.has_overflow || wide,
            has_payload: st.has_payload || r.params is Some,
            ..st
        };
        let payload = match r.params {
            None => Some((0u32, st1)),
            Some(ps) => spec_push_payload_row(st1, ps),
        };
        match payload {
            None => Err(spec_unrepresentable(book, r.code)),
            Some((index, st2)) => match spec_encode_marker_ref(r.marker, source_len, book, r.code) {
                Err(e) => Err(e),
                Ok(m) => Ok(
                    EncodeState {
                        indices: st2.indices + u32_bytes(index),
                        markers: st2.markers + m,
                        has_marker: st2.has_marker || m != zeros(8),
                        ..st2
                    },
                ),
            },
        }
    }
}

/// The empty buffers.
pub open spec fn empty_state() -> EncodeState {
    EncodeState {
        common: Seq::empty(),
        related: Seq::empty(),
        overflow: Seq::empty(),
        indices: Seq::empty(),
        markers: Seq::empty(),
        strings: Seq::empty(),
        payload_rows: Seq::empty(),
        payload_pairs: Seq::empty(),
        has_related: false,
        has_overflow: false,
        has_payload: false,
        has_marker: false,
    }
}

/// Encoding the first `n` findings, in order: the first refusal, if any.
pub open spec fn spec_encode_rows(book: BookId, source_len: u64, rows: Seq<FindingRowInputView>, n: nat) -> Result<
    EncodeState,
    EncodeError,
>
    decreases n,
{
    if n == 0 {
        Ok(empty_state())
    } else {
        match spec_encode_rows(book, source_len, rows, (n - 1) as nat) {
            Err(e) => Err(e),
            Ok(st) => spec_encode_row(book, source_len, st, rows[n - 1]),
        }
    }
}

/// The finding-section buffers, as values.
pub struct FindingBuffersView {
    pub book: BookId,
    pub source_hash: u64,
    pub source_len: u64,
    pub catalog_stamp: u64,
    pub record_count: u32,
    pub common: Seq<u8>,
    pub related: Option<Seq<u8>>,
    pub overflow: Option<Seq<u8>>,
    pub payload_indices: Option<Seq<u8>>,
    pub marker_refs: Option<Seq<u8>>,
    pub strings: Option<Seq<u8>>,
    pub string_count: u32,
    pub payload_table: Option<Seq<u8>>,
    pub payload_count: u32,
}

/// `bytes` when `used`.
pub open spec fn used(used: bool, bytes: Seq<u8>) -> Option<Seq<u8>> {
    if used {
        Some(bytes)
    } else {
        None
    }
}

/// What building the buffers of a finding section gives: refused when the
/// findings cannot be counted in a `u32`, when a finding cannot be stored
/// (the first such, with its code), or when the payload rows cannot be
/// counted; otherwise the common rows, each sidecar only when some finding
/// uses it, and the dictionary and payload table only when some finding has
/// parameters.
pub open spec fn spec_finding_buffers(
    book: BookId,
    source_hash: u64,
    source_len: u64,
    catalog_stamp: u64,
    rows: Seq<FindingRowInputView>,
) -> Result<FindingBuffersView, EncodeError> {
    if rows.len() > u32::MAX {
        Err(EncodeError::UnrepresentablePayload { book, code: 0xffu8 })
    } else {
        match spec_encode_rows(book, source_len, rows, rows.len()) {
            Err(e) => Err(e),
            Ok(st) => if st.payload_rows.len() / (PAYLOAD_ROW_LEN as nat) > u32::MAX {
                Err(EncodeError::UnrepresentablePayload { book, code: 0xffu8 })
            } else {
                Ok(
                    FindingBuffersView {
                        book,
                        source_hash,
                        source_len,
                        catalog_stamp,
                        record_count: rows.len() as u32,
                        common: st.common,
                        related: used(st.has_related, st.related),
                        overflow: used(st.has_overflow, st.overflow),
                        payload_indices: used(st.has_payload, st.indices),
                        marker_refs: used(st.has_marker, st.markers),
                        strings: used(st.has_payload, dictionary_bytes(st.strings)),
                        string_count: if st.has_payload {
                            st.strings.len() as u32
                        } else {
                            0u32
                        },
                        payload_table: used(st.has_payload, st.payload_rows + st.payload_pairs),
                        payload_count: (st.payload_rows.len() / (PAYLOAD_ROW_LEN as nat)) as u32,
                    },
                )
            },
        }
    }
}

fn keys_ascend(ps: &Vec<(String, String)>) -> (ok: bool)
    ensures
        ok == keys_ascending(string_pairs(ps@)),
{
    let ghost view = string_pairs(ps@);
    let n = ps.len();
    if n == 0 {
        return true;
    }
    let mut i: usize = 0;
    while i + 1 < n
        invariant
            n == ps@.len(),
            n > 0,
            i + 1 <= n,
            view == string_pairs(ps@),
            forall|k: int| 0 <= k < i ==> text_less(#[trigger] view[k].0, view[k + 1].0),
        decreases n - i,
    {
        if !str_less(ps[i].0.as_str(), ps[i + 1].0.as_str()) {
            assert(!text_less(view[i as int].0, view[i + 1].0));
            return false;
        }
        i = i + 1;
    }
    true
}

fn str_pairs<'a>(ps: &'a Vec<(String, String)>) -> (out: Vec<(&'a str, &'a str)>)
    ensures
        pairs_view(out@) == string_pairs(ps@),
{
    let mut out: Vec<(&'a str, &'a str)> = Vec::new();
    let mut i: usize = 0;
    while i < ps.len()
        invariant
            i <= ps@.len(),
            pairs_view(out@) =~= string_pairs(ps@).subrange(0, i as int),
        decreases ps@.len() - i,
    {
        let ghost before = out@;
        let pair = (ps[i].0.as_str(), ps[i].1.as_str());
        out.push(pair);
        proof {
            assert(out@ == before.push(pair));
            assert(pair.0@ == ps@[i as int].0@ && pair.1@ == ps@[i as int].1@);
            assert(string_pairs(ps@)[i as int] == (ps@[i as int].0@, ps@[i as int].1@));
            assert(pairs_view(out@) =~= pairs_view(before).push((ps@[i as int].0@, ps@[i as int].1@)));
            assert(string_pairs(ps@).subrange(0, i + 1) =~= string_pairs(ps@).subrange(0, i as int).push(
                string_pairs(ps@)[i as int],
            ));
        }
        i = i + 1;
    }
    assert(string_pairs(ps@).subrange(0, ps@.len() as int) =~= string_pairs(ps@));
    out
}

fn intern(strings: &mut StringDictionaryBuilder, v: &str) -> (r: Result<u32, ()>)
    requires
        old(strings).wf(),
    ensures
        final(strings).wf(),
        match spec_intern(old(strings)@, v@) {
            None => r is Err,
            Some((s, k)) => r == Ok::<u32, ()>(k) && final(strings)@ == s,
        },
{
    proof {
        strings.lemma_distinct();
    }
    let ghost before = strings@;
    match strings.intern(v) {
        Ok(k) => {
            proof {
                if before.contains(v@) {
                    let c = choose|j: int| 0 <= j < before.len() && before[j] == v@;
                    assert(before[k as int] == v@);
                    assert(c == k as int);
                }
            }
            Ok(k)
        },
        Err(_) => Err(()),
    }
}

fn push_payload(
    strings: &mut StringDictionaryBuilder,
    rows: &mut Writer,
    pairs: &mut Writer,
    ps: &Vec<(String, String)>,
) -> (r: Result<u32, ()>)
    requires
        old(strings).wf(),
    ensures
        final(strings).wf(),
        match spec_push_payload(old(strings)@, old(rows)@, old(pairs)@, string_pairs(ps@)) {
            None => r is Err,
            Some((k, s, rs, pp)) => r == Ok::<u32, ()>(k) && final(strings)@ == s && final(rows)@ == rs
                && final(pairs)@ == pp,
        },
{
    let ghost view = string_pairs(ps@);
    let ghost strings0 = strings@;
    let ghost pairs0 = pairs@;
    let index = rows.len() / PAYLOAD_ROW_LEN;
    let first = pairs.len() / 8;
    if index as u64 > 0xffff_ffffu64 || first as u64 > 0xffff_ffffu64 || ps.len() as u64 > 0xffff_ffffu64 {
        return Err(());
    }
    let ghost rows0 = rows@;
    rows.u32(first as u32);
    rows.u32(ps.len() as u32);
    assert(rows@ == rows0 + u32_bytes(first as u32) + u32_bytes(ps@.len() as u32));
    let mut j: usize = 0;
    while j < ps.len()
        invariant
            j <= ps@.len(),
            view == string_pairs(ps@),
            view.len() == ps@.len(),
            strings0 == old(strings)@,
            pairs0 == old(pairs)@,
            !(old(rows)@.len() / (PAYLOAD_ROW_LEN as nat) > u32::MAX || old(pairs)@.len() / 8 > u32::MAX
                || ps@.len() > u32::MAX),
            strings.wf(),
            spec_push_pairs(strings0, pairs0, view, j as nat) == Some((strings@, pairs@)),
        decreases ps@.len() - j,
    {
        assert(view[j as int] == (ps@[j as int].0@, ps@[j as int].1@));
        let ghost s0 = strings@;
        let ghost p0 = pairs@;
        let key = ps[j].0.as_str();
        let value = ps[j].1.as_str();
        assert(key@ == view[j as int].0 && value@ == view[j as int].1);
        let k = match intern(strings, key) {
            Ok(k) => k,
            Err(_) => {
                proof {
                    assert(spec_intern(s0, view[j as int].0) is None);
                    assert(spec_push_pairs(strings0, pairs0, view, (j + 1) as nat) is None);
                    lemma_push_pairs_stop(strings0, pairs0, view, j as nat, ps@.len());
                }
                return Err(());
            },
        };
        assert(spec_intern(s0, view[j as int].0) == Some((strings@, k)));
        let ghost s1 = strings@;
        let v = match intern(strings, value) {
            Ok(v) => v,
            Err(_) => {
                proof {
                    assert(spec_intern(s1, view[j as int].1) is None);
                    assert(spec_push_pairs(strings0, pairs0, view, (j + 1) as nat) is None);
                    lemma_push_pairs_stop(strings0, pairs0, view, j as nat, ps@.len());
                }
                return Err(());
            },
        };
        pairs.u32(k);
        pairs.u32(v);
        assert(pairs@ == p0 + u32_bytes(k) + u32_bytes(v));
        j = j + 1;
    }
    Ok(index as u32)
}

/// Once a pair cannot be interned, no longer run of pairs can.
proof fn lemma_push_pairs_stop(strings: Seq<Seq<char>>, pairs: Seq<u8>, ps: ParamsView, j: nat, n: nat)
    requires
        j < n,
        spec_push_pairs(strings, pairs, ps, j) is Some,
        spec_push_pairs(strings, pairs, ps, (j + 1) as nat) is None,
    ensures
        spec_push_pairs(strings, pairs, ps, n) is None,
    decreases n - j,
{
    if n > j + 1 {
        lemma_push_pairs_stop(strings, pairs, ps, j, (n - 1) as nat);
    }
}

/// Once a finding is refused, every longer run of findings is refused the
/// same way.
proof fn lemma_encode_stop(book: BookId, source_len: u64, rows: Seq<FindingRowInputView>, i: nat, n: nat, e: EncodeError)
    requires
        i < n,
        spec_encode_rows(book, source_len, rows, (i + 1) as nat) == Err::<EncodeState, EncodeError>(e),
    ensures
        spec_encode_rows(book, source_len, rows, n) == Err::<EncodeState, EncodeError>(e),
    decreases n - i,
{
    if n > i + 1 {
        lemma_encode_stop(book, source_len, rows, i, (n - 1) as nat, e);
    }
}

fn zero_fill(w: &mut Writer, n: usize)
    ensures
        final(w)@ == old(w)@ + zeros(n as nat),
{
    let ghost start = w@;
    let mut i: usize = 0;
    while i < n
        invariant
            i <= n,
            w@ =~= start + zeros(i as nat),
        decreases n - i,
    {
        w.u8(0);
        i = i + 1;
    }
}

fn short_of(v: u32) -> (s: u16)
    ensures
        s == short(v),
{
    if v > 0xffff {
        0xffffu16
    } else {
        v as u16
    }
}

/// The buffers while findings are being encoded.
struct RowBuffers {
    common: Writer,
    related: Writer,
    overflow: Writer,
    indices: Writer,
    markers: Writer,
    strings: StringDictionaryBuilder,
    payload_rows: Writer,
    payload_pairs: Writer,
    has_related: bool,
    has_overflow: bool,
    has_payload: bool,
    has_marker: bool,
}

/// Whether a finding's shape can be stored.
fn row_representable(r: &FindingRowInput) -> (ok: bool)
    ensures
        ok == spec_row_representable(r.view()),
{
    let mut ok = r.chapter.is_some() == r.verse.is_some() && !(r.anchor_only && r.chapter.is_none());
    match r.range_end {
        Some(v) => {
            if v == 0 || r.chapter.is_none() {
                ok = false;
            }
        },
        None => {},
    }
    match &r.params {
        Some(ps) => {
            let sp = str_pairs(ps);
            if !params_are_representable(r.code, Some(sp.as_slice())) || !keys_ascend(ps) {
                ok = false;
            }
        },
        None => {
            if param_contract(r.code).is_some() {
                ok = false;
            }
        },
    }
    ok
}

fn flags_of(r: &FindingRowInput) -> (flags: u8)
    ensures
        flags == spec_flags(r.view()),
{
    let f1: u8 = if r.chapter.is_none() {
        finding_flag::NO_ANCHOR
    } else {
        0u8
    };
    let f2: u8 = f1 | if r.anchor_only {
        finding_flag::ANCHOR_ONLY
    } else {
        0u8
    };
    let f3: u8 = f2 | if r.range_end.is_some() {
        finding_flag::RANGE
    } else {
        0u8
    };
    let f4: u8 = f3 | if r.related.is_some() {
        finding_flag::RELATED
    } else {
        0u8
    };
    let f5: u8 = f4 | if r.params.is_some() {
        finding_flag::PAYLOAD
    } else {
        0u8
    };
    f5 | if r.offset > 0xffff || r.len > 0xffff {
        finding_flag::OVERFLOW
    } else {
        0u8
    }
}

fn write_common(common: &mut Writer, r: &FindingRowInput)
    ensures
        final(common)@ == old(common)@ + spec_common_row(r.view()),
{
    let flags = flags_of(r);
    let ghost common0 = common@;
    common.u32(
        match r.token_idx {
            Some(t) => t,
            None => TOKEN_NONE,
        },
    );
    common.u16(short_of(r.offset));
    common.u16(short_of(r.len));
    common.u16(
        match r.chapter {
            Some(c) => c,
            None => 0u16,
        },
    );
    common.u16(
        match r.verse {
            Some(v) => v,
            None => 0u16,
        },
    );
    common.u8(
        match r.range_end {
            Some(e) => e,
            None => 0u8,
        },
    );
    common.u8(r.code.as_u8());
    common.u8(flags);
    common.u8(0);
    assert(common@ =~= common0 + spec_common_row(r.view()));
}

fn write_related(related: &mut Writer, r: &FindingRowInput)
    ensures
        final(related)@ == old(related)@ + spec_related_record(r.view()),
{
    let ghost related0 = related@;
    match r.related {
        Some((t, o, l)) => {
            related.u32(t);
            related.u32(o);
            related.u32(l);
            related.u32(0);
        },
        None => zero_fill(related, 16),
    }
    assert(related@ =~= related0 + spec_related_record(r.view()));
}

fn write_overflow(overflow: &mut Writer, r: &FindingRowInput)
    ensures
        final(overflow)@ == old(overflow)@ + spec_overflow_record(r.view()),
{
    let ghost overflow0 = overflow@;
    if r.offset > 0xffff || r.len > 0xffff {
        overflow.u32(r.offset);
        overflow.u32(r.len);
    } else {
        zero_fill(overflow, 8);
    }
    assert(overflow@ =~= overflow0 + spec_overflow_record(r.view()));
}

fn write_marker(markers: &mut Writer, m: [u8; 8]) -> (nonzero: bool)
    ensures
        final(markers)@ == old(markers)@ + m@,
        nonzero == (m@ != zeros(8)),
{
    let ghost markers0 = markers@;
    markers.u8(m[0]);
    markers.u8(m[1]);
    markers.u8(m[2]);
    markers.u8(m[3]);
    markers.u8(m[4]);
    markers.u8(m[5]);
    markers.u8(m[6]);
    markers.u8(m[7]);
    assert(markers@ =~= markers0 + m@);
    let nonzero = m[0] != 0 || m[1] != 0 || m[2] != 0 || m[3] != 0 || m[4] != 0 || m[5] != 0 || m[6] != 0
        || m[7] != 0;
    assert(nonzero == (m@ != zeros(8))) by {
        if !nonzero {
            assert(m@ =~= zeros(8));
        } else {
            assert(m@.len() == 8);
        }
    }
    nonzero
}

impl RowBuffers {
    spec fn view(&self) -> EncodeState {
        EncodeState {
            common: self.common@,
            related: self.related@,
            overflow: self.overflow@,
            indices: self.indices@,
            markers: self.markers@,
            strings: self.strings@,
            payload_rows: self.payload_rows@,
            payload_pairs: self.payload_pairs@,
            has_related: self.has_related,
            has_overflow: self.has_overflow,
            has_payload: self.has_payload,
            has_marker: self.has_marker,
        }
    }

    fn fresh() -> (b: RowBuffers)
        ensures
            b.strings.wf(),
            b.view() == empty_state(),
    {
        RowBuffers {
            common: Writer::new(),
            related: Writer::new(),
            overflow: Writer::new(),
            indices: Writer::new(),
            markers: Writer::new(),
            strings: StringDictionaryBuilder::new(),
            payload_rows: Writer::new(),
            payload_pairs: Writer::new(),
            has_related: false,
            has_overflow: false,
            has_payload: false,
            has_marker: false,
        }
    }

    fn encode_row(&mut self, book: BookId, source_len: u64, r: &FindingRowInput) -> (res: Result<(), EncodeError>)
        requires
            old(self).strings.wf(),
        ensures
            final(self).strings.wf(),
            match spec_encode_row(book, source_len, old(self).view(), r.view()) {
                Ok(st) => res is Ok && final(self).view() == st,
                Err(e) => res == Err::<(), EncodeError>(e),
            },
    {
        if !row_representable(r) {
            return Err(unrepresentable(book, r.code));
        }
        write_common(&mut self.common, r);
        write_related(&mut self.related, r);
        write_overflow(&mut self.overflow, r);
        self.has_related = self.has_related || r.related.is_some();
        self.has_overflow = self.has_overflow || r.offset > 0xffff || r.len > 0xffff;
        self.has_payload = self.has_payload || r.params.is_some();
        let index = match &r.params {
            None => 0u32,
            Some(ps) => match push_payload(&mut self.strings, &mut self.payload_rows, &mut self.payload_pairs, ps) {
                Ok(index) => index,
                Err(_) => return Err(unrepresentable(book, r.code)),
            },
        };
        let m = match encode_marker_ref(r.marker, source_len, book, r.code) {
            Ok(m) => m,
            Err(e) => return Err(e),
        };
        self.indices.u32(index);
        let nonzero = write_marker(&mut self.markers, m);
        self.has_marker = self.has_marker || nonzero;
        Ok(())
    }
}

/// The buffers one finding section is written from.
#[derive(Debug)]
pub struct FindingSectionBuffers {
    pub book: BookId,
    pub source_hash: u64,
    pub source_len: u64,
    pub catalog_stamp: u64,
    pub record_count: u32,
    pub common: Vec<u8>,
    pub related: Option<Vec<u8>>,
    pub overflow: Option<Vec<u8>>,
    pub payload_indices: Option<Vec<u8>>,
    pub marker_refs: Option<Vec<u8>>,
    pub strings: Option<Vec<u8>>,
    pub string_count: u32,
    pub payload_table: Option<Vec<u8>>,
    pub payload_count: u32,
}

/// The bytes of an optional buffer.
pub open spec fn opt_vec(v: Option<Vec<u8>>) -> Option<Seq<u8>> {
    match v {
        Some(v) => Some(v@),
        None => None,
    }
}

fn keep(used: bool, w: Writer) -> (v: Option<Vec<u8>>)
    ensures
        opt_vec(v) == super::buffers::used(used, w@),
{
    if used {
        Some(w.finish())
    } else {
        None
    }
}

/// `fields` with one more field when its buffer is present.
pub open spec fn push_opt(
    fields: Seq<(u16, ElementWidth, u32, Seq<u8>)>,
    id: u16,
    width: ElementWidth,
    count: u32,
    bytes: Option<Seq<u8>>,
) -> Seq<(u16, ElementWidth, u32, Seq<u8>)> {
    match bytes {
        Some(b) => fields.push((id, width, count, b)),
        None => fields,
    }
}

/// The fields a finding section is written with, in id order: the common
/// rows, then each sidecar, the dictionary and the payload table when
/// present.
pub open spec fn view_fields(v: FindingBuffersView) -> Seq<(u16, ElementWidth, u32, Seq<u8>)> {
    let rc = v.record_count;
    let f0 = seq![(finding_field::COMMON_ROW, ElementWidth::Sixteen, rc, v.common)];
    let f1 = push_opt(f0, finding_field::RELATED_TOKEN_IDX, ElementWidth::Sixteen, rc, v.related);
    let f2 = push_opt(f1, finding_field::OVERFLOW_SPAN, ElementWidth::Eight, rc, v.overflow);
    let f3 = push_opt(f2, finding_field::MESSAGE_PAYLOAD_IDX, ElementWidth::Four, rc, v.payload_indices);
    let f4 = push_opt(f3, finding_field::MARKER_REF, ElementWidth::Eight, rc, v.marker_refs);
    let f5 = push_opt(f4, finding_field::STRING_DICTIONARY, ElementWidth::Variable, v.string_count, v.strings);
    push_opt(f5, finding_field::MESSAGE_PAYLOAD_TABLE, ElementWidth::Variable, v.payload_count, v.payload_table)
}

impl FindingSectionBuffers {
    pub open spec fn view(&self) -> FindingBuffersView {
        FindingBuffersView {
            book: self.book,
            source_hash: self.source_hash,
            source_len: self.source_len,
            catalog_stamp: self.catalog_stamp,
            record_count: self.record_count,
            common: self.common@,
            related: opt_vec(self.related),
            overflow: opt_vec(self.overflow),
            payload_indices: opt_vec(self.payload_indices),
            marker_refs: opt_vec(self.marker_refs),
            strings: opt_vec(self.strings),
            string_count: self.string_count,
            payload_table: opt_vec(self.payload_table),
            payload_count: self.payload_count,
        }
    }

    /// The fields the section carries, in id order: the common rows, then
    /// each sidecar, the dictionary and the payload table when present.
    pub open spec fn spec_fields(&self) -> Seq<(u16, ElementWidth, u32, Seq<u8>)> {
        view_fields(self.view())
    }

    /// Encodes findings into the buffers of one finding section, refusing
    /// any that the format cannot store.
    pub fn new(
        book: BookId,
        source_hash: u64,
        source_len: u64,
        catalog_stamp: u64,
        rows: &[FindingRowInput],
    ) -> (buffers: Result<FindingSectionBuffers, EncodeError>)
        ensures
            match buffers {
                Ok(b) => spec_finding_buffers(book, source_hash, source_len, catalog_stamp, inputs_view(rows@))
                    == Ok::<FindingBuffersView, EncodeError>(b.view()),
                Err(e) => spec_finding_buffers(book, source_hash, source_len, catalog_stamp, inputs_view(rows@))
                    == Err::<FindingBuffersView, EncodeError>(e),
            },
    {
        let ghost view = inputs_view(rows@);
        if rows.len() as u64 > 0xffff_ffffu64 {
            return Err(EncodeError::UnrepresentablePayload { book, code: 0xffu8 });
        }
        let mut b = RowBuffers::fresh();
        let mut i: usize = 0;
        while i < rows.len()
            invariant
                i <= rows@.len(),
                rows@.len() <= u32::MAX,
                view == inputs_view(rows@),
                view.len() == rows@.len(),
                b.strings.wf(),
                spec_encode_rows(book, source_len, view, i as nat) == Ok::<EncodeState, EncodeError>(b.view()),
            decreases rows@.len() - i,
        {
            assert(view[i as int] == rows@[i as int].view());
            match b.encode_row(book, source_len, &rows[i]) {
                Ok(()) => {},
                Err(e) => {
                    proof {
                        lemma_encode_stop(book, source_len, view, i as nat, rows@.len(), e);
                    }
                    return Err(e);
                },
            }
            i = i + 1;
        }
        let payload_count = b.payload_rows.len() / PAYLOAD_ROW_LEN;
        if payload_count as u64 > 0xffff_ffffu64 {
            return Err(EncodeError::UnrepresentablePayload { book, code: 0xffu8 });
        }
        let has_payload = b.has_payload;
        let string_count = if has_payload {
            b.strings.len()
        } else {
            0u32
        };
        let string_bytes = if has_payload {
            Some(b.strings.bytes())
        } else {
            None
        };
        let RowBuffers {
            common,
            related,
            overflow,
            indices,
            markers,
            strings: _,
            mut payload_rows,
            payload_pairs,
            has_related,
            has_overflow,
            has_payload: _,
            has_marker,
        } = b;
        let ghost rows_bytes = payload_rows@;
        payload_rows.bytes(payload_pairs.as_slice());
        assert(payload_rows@ == rows_bytes + payload_pairs@);
        Ok(FindingSectionBuffers {
            book,
            source_hash,
            source_len,
            catalog_stamp,
            record_count: rows.len() as u32,
            common: common.finish(),
            related: keep(has_related, related),
            overflow: keep(has_overflow, overflow),
            payload_indices: keep(has_payload, indices),
            marker_refs: keep(has_marker, markers),
            strings: string_bytes,
            string_count,
            payload_table: keep(has_payload, payload_rows),
            payload_count: payload_count as u32,
        })
    }

    /// The section payload these buffers are written as.
    pub fn payload(&self) -> (payload: SectionPayload<'_>)
        ensures
            payload.variant == (SectionVariant::Finding { rules_version: FINDING_SECTION_RULES_VERSION }),
            payload.book == self.book,
            payload.source_hash == self.source_hash,
            payload.source_len == self.source_len,
            payload.catalog_stamp == self.catalog_stamp,
            payload.record_count == self.record_count,
            payload.fields@.map_values(|f: FieldPayload| field_view(f)) == self.spec_fields(),
    {
        let rc = self.record_count;
        let mut fields: Vec<FieldPayload<'_>> = Vec::new();
        fields.push(FieldPayload {
            id: finding_field::COMMON_ROW,
            width: ElementWidth::Sixteen,
            count: rc,
            bytes: self.common.as_slice(),
        });
        let ghost f0 = fields@.map_values(|f: FieldPayload| field_view(f));
        assert(f0 =~= seq![(finding_field::COMMON_ROW, ElementWidth::Sixteen, rc, self.common@)]);
        if let Some(bytes) = &self.related {
            fields.push(FieldPayload {
                id: finding_field::RELATED_TOKEN_IDX,
                width: ElementWidth::Sixteen,
                count: rc,
                bytes: bytes.as_slice(),
            });
        }
        let ghost f1 = fields@.map_values(|f: FieldPayload| field_view(f));
        assert(f1 =~= push_opt(f0, finding_field::RELATED_TOKEN_IDX, ElementWidth::Sixteen, rc, opt_vec(self.related)));
        if let Some(bytes) = &self.overflow {
            fields.push(FieldPayload {
                id: finding_field::OVERFLOW_SPAN,
                width: ElementWidth::Eight,
                count: rc,
                bytes: bytes.as_slice(),
            });
        }
        let ghost f2 = fields@.map_values(|f: FieldPayload| field_view(f));
        assert(f2 =~= push_opt(f1, finding_field::OVERFLOW_SPAN, ElementWidth::Eight, rc, opt_vec(self.overflow)));
        if let Some(bytes) = &self.payload_indices {
            fields.push(FieldPayload {
                id: finding_field::MESSAGE_PAYLOAD_IDX,
                width: ElementWidth::Four,
                count: rc,
                bytes: bytes.as_slice(),
            });
        }
        let ghost f3 = fields@.map_values(|f: FieldPayload| field_view(f));
        assert(f3 =~= push_opt(f2, 
            finding_field::MESSAGE_PAYLOAD_IDX,
            ElementWidth::Four,
            rc,
            opt_vec(self.payload_indices),
        ));
        if let Some(bytes) = &self.marker_refs {
            fields.push(FieldPayload {
                id: finding_field::MARKER_REF,
                width: ElementWidth::Eight,
                count: rc,
                bytes: bytes.as_slice(),
            });
        }
        let ghost f4 = fields@.map_values(|f: FieldPayload| field_view(f));
        assert(f4 =~= push_opt(f3, finding_field::MARKER_REF, ElementWidth::Eight, rc, opt_vec(self.marker_refs)));
        if let Some(bytes) = &self.strings {
            fields.push(FieldPayload {
                id: finding_field::STRING_DICTIONARY,
                width: ElementWidth::Variable,
                count: self.string_count,
                bytes: bytes.as_slice(),
            });
        }
        let ghost f5 = fields@.map_values(|f: FieldPayload| field_view(f));
        assert(f5 =~= push_opt(f4, 
            finding_field::STRING_DICTIONARY,
            ElementWidth::Variable,
            self.string_count,
            opt_vec(self.strings),
        ));
        if let Some(bytes) = &self.payload_table {
            fields.push(FieldPayload {
                id: finding_field::MESSAGE_PAYLOAD_TABLE,
                width: ElementWidth::Variable,
                count: self.payload_count,
                bytes: bytes.as_slice(),
            });
        }
        let ghost f6 = fields@.map_values(|f: FieldPayload| field_view(f));
        assert(f6 =~= push_opt(f5, 
            finding_field::MESSAGE_PAYLOAD_TABLE,
            ElementWidth::Variable,
            self.payload_count,
            opt_vec(self.payload_table),
        ));
        SectionPayload {
            variant: SectionVariant::Finding { rules_version: FINDING_SECTION_RULES_VERSION },
            book: self.book,
            source_hash: self.source_hash,
            source_len: self.source_len,
            catalog_stamp: self.catalog_stamp,
            record_count: rc,
            fields,
        }
    }
}

} // verus!
