//! Which findings the finding-section encoder accepts: every finding whose
//! shape the format can store, within the counters' `u32` limits.

use vstd::prelude::*;
use vstd::utf8::encode_utf8;

use crate::book::BookId;
use crate::error::EncodeError;
use crate::schema::params::{contract_accepts, spec_param_contract};
use crate::token_payload::{dictionary_full, utf8_concat};

use super::buffers::{
    spec_encode_row, spec_encode_rows, spec_finding_buffers, spec_intern, spec_push_pairs, EncodeState,
    FindingRowInputView, ParamsView,
};
use super::laws::pair_total;
use super::payload::text_less;
use super::MarkerRef;

verus! {

/// Encoded length of the keys and values of the first `n` parameters.
pub open spec fn params_text(ps: ParamsView, n: nat) -> nat
    decreases n,
{
    if n == 0 {
        0
    } else {
        params_text(ps, (n - 1) as nat) + encode_utf8(ps[n - 1].0).len() + encode_utf8(ps[n - 1].1).len()
    }
}

/// Appending a string appends its encoding to the concatenated data.
proof fn lemma_concat_push(s: Seq<Seq<char>>, v: Seq<char>)
    ensures
        utf8_concat(s.push(v)) == utf8_concat(s) + encode_utf8(v),
{
    assert(s.push(v).drop_last() =~= s);
}

/// Interning succeeds while the data and the count stay within `u32`, and
/// grows the data by at most the string's encoding.
proof fn lemma_intern_fits(s: Seq<Seq<char>>, v: Seq<char>)
    requires
        utf8_concat(s).len() + encode_utf8(v).len() <= u32::MAX,
        s.len() + 1 <= u32::MAX,
    ensures
        spec_intern(s, v) is Some,
        utf8_concat(spec_intern(s, v).unwrap().0).len() <= utf8_concat(s).len() + encode_utf8(v).len(),
        spec_intern(s, v).unwrap().0.len() <= s.len() + 1,
{
    assert(!dictionary_full(s));
    if !s.contains(v) {
        lemma_concat_push(s, v);
    }
}

/// Interning `n` pairs succeeds while their text and count fit, growing the
/// data by at most their text and the index pairs by eight bytes each.
proof fn lemma_push_pairs_fit(s: Seq<Seq<char>>, p: Seq<u8>, ps: ParamsView, n: nat)
    requires
        n <= ps.len(),
        utf8_concat(s).len() + params_text(ps, n) <= u32::MAX,
        s.len() + 2 * n <= u32::MAX,
    ensures
        spec_push_pairs(s, p, ps, n) is Some,
        utf8_concat(spec_push_pairs(s, p, ps, n).unwrap().0).len() <= utf8_concat(s).len() + params_text(ps, n),
        spec_push_pairs(s, p, ps, n).unwrap().0.len() <= s.len() + 2 * n,
        spec_push_pairs(s, p, ps, n).unwrap().1.len() == p.len() + 8 * n,
    decreases n,
{
    if n > 0 {
        let m = (n - 1) as nat;
        lemma_push_pairs_fit(s, p, ps, m);
        let (s1, p1) = spec_push_pairs(s, p, ps, m).unwrap();
        lemma_intern_fits(s1, ps[m as int].0);
        let (sa, k) = spec_intern(s1, ps[m as int].0).unwrap();
        lemma_intern_fits(sa, ps[m as int].1);
    }
}

/// Encoded length of the parameter texts of the first `n` findings.
pub open spec fn text_total(rows: Seq<FindingRowInputView>, n: nat) -> nat
    decreases n,
{
    if n == 0 {
        0
    } else {
        text_total(rows, (n - 1) as nat) + match rows[n - 1].params {
            Some(ps) => params_text(ps, ps.len()),
            None => 0,
        }
    }
}

/// A finding the format can store: its chapter and verse come together, an
/// anchor-only or ranged finding has a chapter, a range ends at a nonzero
/// verse, its parameters match its code's contract in ascending key order,
/// and a source-span marker lies inside the source.
pub open spec fn storable(r: FindingRowInputView, source_len: u64) -> bool {
    &&& (r.chapter is Some) == (r.verse is Some)
    &&& r.anchor_only ==> r.chapter is Some
    &&& (r.range_end matches Some(v) ==> v != 0 && r.chapter is Some)
    &&& match r.params {
        Some(ps) => {
            &&& spec_param_contract(r.code) matches Some(c) && contract_accepts(c, ps)
            &&& forall|j: int| 0 <= j < ps.len() - 1 ==> text_less(#[trigger] ps[j].0, ps[j + 1].0)
        },
        None => spec_param_contract(r.code) is None,
    }
    &&& (r.marker matches MarkerRef::SourceSpan { offset, len } ==> len != 0 && offset + len <= source_len)
}

/// One storable finding is accepted while the dictionary and the payload
/// table have room for its parameters.
proof fn lemma_row_accepted(book: BookId, source_len: u64, st: EncodeState, r: FindingRowInputView)
    requires
        storable(r, source_len),
        st.payload_rows.len() / 8 <= u32::MAX,
        st.payload_pairs.len() / 8 <= u32::MAX,
        r.params matches Some(ps) ==> {
            &&& ps.len() <= u32::MAX
            &&& utf8_concat(st.strings).len() + params_text(ps, ps.len()) <= u32::MAX
            &&& st.strings.len() + 2 * ps.len() <= u32::MAX
        },
    ensures
        spec_encode_row(book, source_len, st, r) is Ok,
        ({
            let out = spec_encode_row(book, source_len, st, r)->Ok_0;
            match r.params {
                Some(ps) => {
                    &&& utf8_concat(out.strings).len() <= utf8_concat(st.strings).len() + params_text(ps, ps.len())
                    &&& out.strings.len() <= st.strings.len() + 2 * ps.len()
                    &&& out.payload_pairs.len() == st.payload_pairs.len() + 8 * ps.len()
                    &&& out.payload_rows.len() == st.payload_rows.len() + 8
                },
                None => {
                    &&& out.strings == st.strings
                    &&& out.payload_pairs == st.payload_pairs
                    &&& out.payload_rows == st.payload_rows
                },
            }
        }),
{
    if let Some(ps) = r.params {
        lemma_push_pairs_fit(st.strings, st.payload_pairs, ps, ps.len());
    }
}

/// Storable findings within the counters' limits are all accepted; the
/// dictionary, the index pairs and the payload rows stay within what their
/// parameters need.
proof fn lemma_rows_accepted(book: BookId, source_len: u64, rows: Seq<FindingRowInputView>, n: nat)
    requires
        n <= rows.len(),
        n <= u32::MAX,
        forall|i: int| 0 <= i < n ==> storable(#[trigger] rows[i], source_len),
        text_total(rows, n) <= u32::MAX,
        2 * pair_total(rows, n) <= u32::MAX,
    ensures
        spec_encode_rows(book, source_len, rows, n) is Ok,
        ({
            let st = spec_encode_rows(book, source_len, rows, n)->Ok_0;
            &&& utf8_concat(st.strings).len() <= text_total(rows, n)
            &&& st.strings.len() <= 2 * pair_total(rows, n)
            &&& st.payload_pairs.len() == 8 * pair_total(rows, n)
            &&& st.payload_rows.len() <= 8 * n
        }),
    decreases n,
{
    if n > 0 {
        let m = (n - 1) as nat;
        lemma_rows_accepted(book, source_len, rows, m);
        let st = spec_encode_rows(book, source_len, rows, m)->Ok_0;
        assert(storable(rows[m as int], source_len));
        lemma_row_accepted(book, source_len, st, rows[m as int]);
    }
}

/// Every finding the format can store is accepted by the finding-section
/// encoder, whatever its anchor-only flag: a finding whose chapter and verse
/// come together, whose range (if any) ends at a nonzero verse under a
/// chapter, whose parameters match its code's contract in ascending key
/// order, and whose source-span marker lies inside the source, so long as the
/// findings, their parameter pairs and the parameter texts fit the section's
/// `u32` counters. The section counts every finding.
pub proof fn law_storable_findings_accepted(
    book: BookId,
    source_hash: u64,
    source_len: u64,
    catalog_stamp: u64,
    rows: Seq<FindingRowInputView>,
)
    requires
        rows.len() <= u32::MAX,
        forall|i: int|
            #![trigger rows[i]]
            0 <= i < rows.len() ==> {
                &&& (rows[i].chapter is Some) == (rows[i].verse is Some)
                &&& rows[i].anchor_only ==> rows[i].chapter is Some
                &&& (rows[i].range_end matches Some(v) ==> v != 0 && rows[i].chapter is Some)
                &&& match rows[i].params {
                    Some(ps) => {
                        &&& spec_param_contract(rows[i].code) matches Some(c) && contract_accepts(c, ps)
                        &&& forall|j: int| 0 <= j < ps.len() - 1 ==> text_less(#[trigger] ps[j].0, ps[j + 1].0)
                    },
                    None => spec_param_contract(rows[i].code) is None,
                }
                &&& (rows[i].marker matches MarkerRef::SourceSpan { offset, len } ==> len != 0 && offset + len
                    <= source_len)
            },
        2 * pair_total(rows, rows.len()) <= u32::MAX,
        text_total(rows, rows.len()) <= u32::MAX,
    ensures
        spec_finding_buffers(book, source_hash, source_len, catalog_stamp, rows) is Ok,
        spec_finding_buffers(book, source_hash, source_len, catalog_stamp, rows)->Ok_0.record_count == rows.len(),
{
    assert forall|i: int| 0 <= i < rows.len() implies storable(#[trigger] rows[i], source_len) by {}
    lemma_rows_accepted(book, source_len, rows, rows.len());
}

/// An unstorable finding is refused, naming its book and code.
proof fn lemma_row_refused(book: BookId, source_len: u64, st: EncodeState, r: FindingRowInputView)
    requires
        !storable(r, source_len),
    ensures
        spec_encode_row(book, source_len, st, r) == Err::<EncodeState, EncodeError>(
            EncodeError::UnrepresentablePayload { book, code: r.code.spec_as_u8() },
        ),
{
}

/// Once a finding is refused, every longer run of findings is refused with
/// the same error.
proof fn lemma_refusal_stays(book: BookId, source_len: u64, rows: Seq<FindingRowInputView>, i: nat, n: nat, e: EncodeError)
    requires
        i < n <= rows.len(),
        spec_encode_rows(book, source_len, rows, i + 1) == Err::<EncodeState, EncodeError>(e),
    ensures
        spec_encode_rows(book, source_len, rows, n) == Err::<EncodeState, EncodeError>(e),
    decreases n - i,
{
    if n > i + 1 {
        lemma_refusal_stays(book, source_len, rows, i, (n - 1) as nat, e);
    }
}

/// The encoder refuses the first finding the format cannot store: when the
/// findings before it are storable and fit the counters, and it has a
/// chapter without a verse (or the reverse), is anchor-only or ranged
/// without a chapter, has a range ending at verse zero, has parameters
/// outside its code's contract or out of key order, or has a source-span
/// marker that is empty or runs past the source, the section is refused as
/// an unrepresentable payload naming the book and that finding's code.
pub proof fn law_first_unstorable_finding_refused(
    book: BookId,
    source_hash: u64,
    source_len: u64,
    catalog_stamp: u64,
    rows: Seq<FindingRowInputView>,
    i: nat,
)
    requires
        rows.len() <= u32::MAX,
        i < rows.len(),
        forall|k: int| 0 <= k < i ==> storable(#[trigger] rows[k], source_len),
        2 * pair_total(rows, i) <= u32::MAX,
        text_total(rows, i) <= u32::MAX,
        !{
            &&& (rows[i as int].chapter is Some) == (rows[i as int].verse is Some)
            &&& rows[i as int].anchor_only ==> rows[i as int].chapter is Some
            &&& (rows[i as int].range_end matches Some(v) ==> v != 0 && rows[i as int].chapter is Some)
            &&& match rows[i as int].params {
                Some(ps) => {
                    &&& spec_param_contract(rows[i as int].code) matches Some(c) && contract_accepts(c, ps)
                    &&& forall|j: int| 0 <= j < ps.len() - 1 ==> text_less(#[trigger] ps[j].0, ps[j + 1].0)
                },
                None => spec_param_contract(rows[i as int].code) is None,
            }
            &&& (rows[i as int].marker matches MarkerRef::SourceSpan { offset, len } ==> len != 0 && offset
                + len <= source_len)
        },
    ensures
        spec_finding_buffers(book, source_hash, source_len, catalog_stamp, rows) == Err::<
            super::buffers::FindingBuffersView,
            EncodeError,
        >(EncodeError::UnrepresentablePayload { book, code: rows[i as int].code.spec_as_u8() }),
{
    lemma_rows_accepted(book, source_len, rows, i);
    let st = spec_encode_rows(book, source_len, rows, i)->Ok_0;
    assert(!storable(rows[i as int], source_len));
    lemma_row_refused(book, source_len, st, rows[i as int]);
    lemma_refusal_stays(
        book,
        source_len,
        rows,
        i,
        rows.len(),
        EncodeError::UnrepresentablePayload { book, code: rows[i as int].code.spec_as_u8() },
    );
}

} // verus!
