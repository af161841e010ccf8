//! A finding section written into a container and read back through its TOC
//! entry decodes as the findings that went in.

use vstd::prelude::*;

use crate::book::BookId;
use crate::container::laws::{read_back, written_field, written_fields};
use crate::container::write::{insert_by_id, required_flag, sort_by_id};
use crate::container::{ElementWidth, FieldPayload, SectionPayload, SectionVariant, SpecField};
use crate::error::{DecodeError, EncodeError};
use crate::schema::{finding_field, SectionKind, FIELD_FLAG_REQUIRED, FINDING_SECTION_RULES_VERSION};
use crate::token_codec::field_view;
use crate::token_section::{first_field, is_first_field};

use super::buffers::{push_opt, spec_finding_buffers, view_fields, FindingBuffersView, FindingRowInputView};
use super::columns::{spec_finding_columns, FindingColumnsView, FindingDecodeInputs};
use super::laws::{buffer_field, law_finding_section_round_trip, pair_total, refs_below, spec_field_of, written_row};

verus! {

/// Field ids strictly ascend.
pub open spec fn payload_ids_ascend<'a>(fs: Seq<FieldPayload<'a>>) -> bool {
    forall|i: int, j: int| 0 <= i < j < fs.len() ==> #[trigger] fs[i].id < #[trigger] fs[j].id
}

proof fn lemma_insert_last<'a>(s: Seq<FieldPayload<'a>>, x: FieldPayload<'a>)
    requires
        forall|i: int| 0 <= i < s.len() ==> #[trigger] s[i].id < x.id,
    ensures
        insert_by_id(s, x) == s.push(x),
    decreases s.len(),
{
    if s.len() == 0 {
        assert(seq![x] =~= s.push(x));
    } else {
        let t = s.drop_first();
        assert forall|i: int| 0 <= i < t.len() implies #[trigger] t[i].id < x.id by {
            assert(t[i] == s[i + 1]);
        }
        lemma_insert_last(t, x);
        assert(seq![s[0]] + t.push(x) =~= s.push(x));
    }
}

proof fn lemma_sort_sorted<'a>(fs: Seq<FieldPayload<'a>>)
    requires
        payload_ids_ascend(fs),
    ensures
        sort_by_id(fs) == fs,
    decreases fs.len(),
{
    if fs.len() > 0 {
        let d = fs.drop_last();
        assert forall|i: int, j: int| 0 <= i < j < d.len() implies #[trigger] d[i].id < #[trigger] d[j].id by {
            assert(d[i] == fs[i] && d[j] == fs[j]);
        }
        lemma_sort_sorted(d);
        assert forall|i: int| 0 <= i < d.len() implies #[trigger] d[i].id < fs.last().id by {
            assert(d[i] == fs[i]);
        }
        lemma_insert_last(d, fs.last());
        assert(d.push(fs.last()) =~= fs);
    }
}

proof fn lemma_written_fields_known<'a>(kind: SectionKind, s: Seq<FieldPayload<'a>>, n: nat)
    requires
        n <= s.len(),
        forall|i: int| 0 <= i < n ==> kind.spec_field(#[trigger] s[i].id) is Some,
    ensures
        written_fields(kind, s, n) == Seq::new(n, |i: int| written_field(kind, s[i])),
    decreases n,
{
    if n > 0 {
        lemma_written_fields_known(kind, s, (n - 1) as nat);
        assert(written_fields(kind, s, n) =~= Seq::new(n, |i: int| written_field(kind, s[i])));
    }
}

/// A section field as the reader hands it back.
pub open spec fn read_field(t: (u16, ElementWidth, u32, Seq<u8>)) -> SpecField {
    SpecField {
        id: t.0,
        width: t.1,
        required: required_flag(SectionKind::Finding, t.0) == FIELD_FLAG_REQUIRED,
        count: t.2,
        bytes: t.3,
    }
}

/// `fs` with `x` appended when there is one.
pub open spec fn push_some(fs: Seq<SpecField>, x: Option<SpecField>) -> Seq<SpecField> {
    match x {
        Some(x) => fs.push(x),
        None => fs,
    }
}

/// Looking a field up after appending one with a larger id than every
/// earlier field.
proof fn lemma_lookup_push(fs: Seq<SpecField>, x: Option<SpecField>, xid: u16, id: u16)
    requires
        forall|i: int| 0 <= i < fs.len() ==> #[trigger] fs[i].id < xid,
        x matches Some(f) ==> f.id == xid,
    ensures
        first_field(push_some(fs, x), id) == if id == xid {
            x
        } else {
            first_field(fs, id)
        },
{
    let gs = push_some(fs, x);
    if exists|i: int| #[trigger] is_first_field(fs, id, i) {
        let i = choose|i: int| #[trigger] is_first_field(fs, id, i);
        assert(is_first_field(gs, id, i));
        let k = choose|k: int| #[trigger] is_first_field(gs, id, k);
        if k < i {
            assert(gs[k] == fs[k]);
        } else if k > i {
            assert(gs[i].id != id);
        }
    } else {
        if id == xid && x is Some {
            let n = fs.len() as int;
            assert(is_first_field(gs, id, n));
            let k = choose|k: int| #[trigger] is_first_field(gs, id, k);
            if k < n {
                assert(gs[k] == fs[k]);
            }
        } else {
            assert forall|k: int| !#[trigger] is_first_field(gs, id, k) by {
                if is_first_field(gs, id, k) && k < fs.len() {
                    assert(gs[k] == fs[k]);
                    assert forall|j: int| 0 <= j < k implies #[trigger] fs[j].id != id by {
                        assert(gs[j] == fs[j]);
                    }
                    assert(is_first_field(fs, id, k));
                }
            }
        }
    }
}

/// The fields a finding section of the buffers `b` reads back with, in the
/// order the reader lists them.
pub open spec fn read_fields(b: FindingBuffersView) -> Seq<SpecField> {
    let g0 = seq![buffer_field(b, finding_field::COMMON_ROW).unwrap()];
    let g1 = push_some(g0, buffer_field(b, finding_field::RELATED_TOKEN_IDX));
    let g2 = push_some(g1, buffer_field(b, finding_field::OVERFLOW_SPAN));
    let g3 = push_some(g2, buffer_field(b, finding_field::MESSAGE_PAYLOAD_IDX));
    let g4 = push_some(g3, buffer_field(b, finding_field::MARKER_REF));
    let g5 = push_some(g4, buffer_field(b, finding_field::STRING_DICTIONARY));
    push_some(g5, buffer_field(b, finding_field::MESSAGE_PAYLOAD_TABLE))
}

proof fn lemma_read_fields_lookup(b: FindingBuffersView, id: u16)
    requires
        id <= 8,
    ensures
        first_field(read_fields(b), id) == buffer_field(b, id),
{
    let g0 = seq![buffer_field(b, finding_field::COMMON_ROW).unwrap()];
    let g1 = push_some(g0, buffer_field(b, finding_field::RELATED_TOKEN_IDX));
    let g2 = push_some(g1, buffer_field(b, finding_field::OVERFLOW_SPAN));
    let g3 = push_some(g2, buffer_field(b, finding_field::MESSAGE_PAYLOAD_IDX));
    let g4 = push_some(g3, buffer_field(b, finding_field::MARKER_REF));
    let g5 = push_some(g4, buffer_field(b, finding_field::STRING_DICTIONARY));
    let e = Seq::<SpecField>::empty();
    assert(g0 =~= push_some(e, buffer_field(b, 0)));
    lemma_lookup_push(e, buffer_field(b, 0), 0, id);
    assert(!(exists|i: int| #[trigger] is_first_field(e, id, i)));
    lemma_lookup_push(g0, buffer_field(b, 1), 1, id);
    assert forall|i: int| 0 <= i < g1.len() implies #[trigger] g1[i].id < 2 by {}
    lemma_lookup_push(g1, buffer_field(b, 2), 2, id);
    assert forall|i: int| 0 <= i < g2.len() implies #[trigger] g2[i].id < 3 by {
        if i < g1.len() {
            assert(g2[i] == g1[i]);
        }
    }
    lemma_lookup_push(g2, buffer_field(b, 3), 3, id);
    assert forall|i: int| 0 <= i < g3.len() implies #[trigger] g3[i].id < 4 by {
        if i < g2.len() {
            assert(g3[i] == g2[i]);
        }
    }
    lemma_lookup_push(g3, buffer_field(b, 4), 4, id);
    assert forall|i: int| 0 <= i < g4.len() implies #[trigger] g4[i].id < 7 by {
        if i < g3.len() {
            assert(g4[i] == g3[i]);
        }
    }
    lemma_lookup_push(g4, buffer_field(b, 7), 7, id);
    assert forall|i: int| 0 <= i < g5.len() implies #[trigger] g5[i].id < 8 by {
        if i < g4.len() {
            assert(g5[i] == g4[i]);
        }
    }
    lemma_lookup_push(g5, buffer_field(b, 8), 8, id);
}

/// The field ids of the buffers' payload strictly ascend, and each is known
/// to the finding schema.
proof fn lemma_view_fields_ids(b: FindingBuffersView)
    ensures
        forall|i: int, j: int|
            0 <= i < j < view_fields(b).len() ==> #[trigger] view_fields(b)[i].0 < #[trigger] view_fields(b)[j].0,
        forall|i: int| 0 <= i < view_fields(b).len() ==> #[trigger] view_fields(b)[i].0 <= 8,
        forall|i: int| 0 <= i < view_fields(b).len() ==> #[trigger] view_fields(b)[i].0 != 5 && view_fields(b)[i].0 != 6,
{
    let rc = b.record_count;
    let f0 = seq![(finding_field::COMMON_ROW, ElementWidth::Sixteen, rc, b.common)];
    let f1 = push_opt(f0, finding_field::RELATED_TOKEN_IDX, ElementWidth::Sixteen, rc, b.related);
    let f2 = push_opt(f1, finding_field::OVERFLOW_SPAN, ElementWidth::Eight, rc, b.overflow);
    let f3 = push_opt(f2, finding_field::MESSAGE_PAYLOAD_IDX, ElementWidth::Four, rc, b.payload_indices);
    let f4 = push_opt(f3, finding_field::MARKER_REF, ElementWidth::Eight, rc, b.marker_refs);
    let f5 = push_opt(f4, finding_field::STRING_DICTIONARY, ElementWidth::Variable, b.string_count, b.strings);
    let f6 = push_opt(f5, finding_field::MESSAGE_PAYLOAD_TABLE, ElementWidth::Variable, b.payload_count, b.payload_table);
    assert(f6 == view_fields(b));
    assert forall|i: int| 0 <= i < f1.len() implies #[trigger] f1[i].0 <= 1 && (i == f1.len() - 1 || f1[i].0 < 1) by {}
    assert forall|i: int| 0 <= i < f2.len() implies #[trigger] f2[i].0 <= 2 && (i == f2.len() - 1 || f2[i].0 < f2[f2.len() - 1].0) by {
        if i < f1.len() {
            assert(f2[i] == f1[i]);
        }
    }
    assert forall|i: int, j: int| 0 <= i < j < f2.len() implies #[trigger] f2[i].0 < #[trigger] f2[j].0 by {
        if j < f1.len() {
            assert(f2[i] == f1[i] && f2[j] == f1[j]);
        } else if i < f1.len() {
            assert(f2[i] == f1[i]);
        }
    }
    assert forall|i: int, j: int| 0 <= i < j < f3.len() implies #[trigger] f3[i].0 < #[trigger] f3[j].0 by {
        if j < f2.len() {
            assert(f3[i] == f2[i] && f3[j] == f2[j]);
        } else if i < f2.len() {
            assert(f3[i] == f2[i]);
        }
    }
    assert forall|i: int| 0 <= i < f3.len() implies #[trigger] f3[i].0 <= 3 by {
        if i < f2.len() {
            assert(f3[i] == f2[i]);
        }
    }
    assert forall|i: int, j: int| 0 <= i < j < f4.len() implies #[trigger] f4[i].0 < #[trigger] f4[j].0 by {
        if j < f3.len() {
            assert(f4[i] == f3[i] && f4[j] == f3[j]);
        } else if i < f3.len() {
            assert(f4[i] == f3[i]);
        }
    }
    assert forall|i: int| 0 <= i < f4.len() implies #[trigger] f4[i].0 <= 4 by {
        if i < f3.len() {
            assert(f4[i] == f3[i]);
        }
    }
    assert forall|i: int, j: int| 0 <= i < j < f5.len() implies #[trigger] f5[i].0 < #[trigger] f5[j].0 by {
        if j < f4.len() {
            assert(f5[i] == f4[i] && f5[j] == f4[j]);
        } else if i < f4.len() {
            assert(f5[i] == f4[i]);
        }
    }
    assert forall|i: int| 0 <= i < f5.len() implies #[trigger] f5[i].0 <= 7 && f5[i].0 != 5 && f5[i].0 != 6 by {
        if i < f4.len() {
            assert(f5[i] == f4[i]);
        }
    }
    assert forall|i: int, j: int| 0 <= i < j < f6.len() implies #[trigger] f6[i].0 < #[trigger] f6[j].0 by {
        if j < f5.len() {
            assert(f6[i] == f5[i] && f6[j] == f5[j]);
        } else if i < f5.len() {
            assert(f6[i] == f5[i]);
        }
    }
    assert forall|i: int| 0 <= i < f6.len() implies #[trigger] f6[i].0 <= 8 && f6[i].0 != 5 && f6[i].0 != 6 by {
        if i < f5.len() {
            assert(f6[i] == f5[i]);
        }
    }
}

/// The buffers' fields, as the reader hands them back, are `read_fields`.
proof fn lemma_read_fields(b: FindingBuffersView)
    ensures
        view_fields(b).map_values(|t: (u16, ElementWidth, u32, Seq<u8>)| read_field(t)) == read_fields(b),
{
    let rc = b.record_count;
    let f0 = seq![(finding_field::COMMON_ROW, ElementWidth::Sixteen, rc, b.common)];
    let f1 = push_opt(f0, finding_field::RELATED_TOKEN_IDX, ElementWidth::Sixteen, rc, b.related);
    let f2 = push_opt(f1, finding_field::OVERFLOW_SPAN, ElementWidth::Eight, rc, b.overflow);
    let f3 = push_opt(f2, finding_field::MESSAGE_PAYLOAD_IDX, ElementWidth::Four, rc, b.payload_indices);
    let f4 = push_opt(f3, finding_field::MARKER_REF, ElementWidth::Eight, rc, b.marker_refs);
    let f5 = push_opt(f4, finding_field::STRING_DICTIONARY, ElementWidth::Variable, b.string_count, b.strings);
    let f6 = push_opt(f5, finding_field::MESSAGE_PAYLOAD_TABLE, ElementWidth::Variable, b.payload_count, b.payload_table);
    let m = |t: (u16, ElementWidth, u32, Seq<u8>)| read_field(t);
    let g0 = seq![buffer_field(b, finding_field::COMMON_ROW).unwrap()];
    let g1 = push_some(g0, buffer_field(b, finding_field::RELATED_TOKEN_IDX));
    let g2 = push_some(g1, buffer_field(b, finding_field::OVERFLOW_SPAN));
    let g3 = push_some(g2, buffer_field(b, finding_field::MESSAGE_PAYLOAD_IDX));
    let g4 = push_some(g3, buffer_field(b, finding_field::MARKER_REF));
    let g5 = push_some(g4, buffer_field(b, finding_field::STRING_DICTIONARY));
    let g6 = push_some(g5, buffer_field(b, finding_field::MESSAGE_PAYLOAD_TABLE));
    assert(required_flag(SectionKind::Finding, 0) == FIELD_FLAG_REQUIRED);
    assert(required_flag(SectionKind::Finding, 1) != FIELD_FLAG_REQUIRED);
    assert(required_flag(SectionKind::Finding, 2) != FIELD_FLAG_REQUIRED);
    assert(required_flag(SectionKind::Finding, 3) != FIELD_FLAG_REQUIRED);
    assert(required_flag(SectionKind::Finding, 4) != FIELD_FLAG_REQUIRED);
    assert(required_flag(SectionKind::Finding, 7) != FIELD_FLAG_REQUIRED);
    assert(required_flag(SectionKind::Finding, 8) != FIELD_FLAG_REQUIRED);
    assert(f0.map_values(m) =~= g0);
    assert(f1.map_values(m) =~= g1);
    assert(f2.map_values(m) =~= g2);
    assert(f3.map_values(m) =~= g3);
    assert(f4.map_values(m) =~= g4);
    assert(f5.map_values(m) =~= g5);
    assert(f6.map_values(m) =~= g6);
}

/// A finding section written from the buffers and read back through its
/// TOC entry (the section [`crate::container::laws::law_container_sections_read_back`]
/// hands back for it) decodes, under the finding-column checks, as the
/// findings that went in: in order, with their anchors, spans, codes,
/// related tokens, marker references and parameters (as key-ordered pairs
/// of texts), and with the section's source length, hash, catalog stamp and
/// rules version. `p` is the section payload the buffers are written as,
/// which [`super::buffers::FindingSectionBuffers::payload`] gives. It holds
/// when the findings' token references lie below `token_count` and the rows
/// and parameter pairs are few enough to be counted: no more than the
/// machine's address space holds, and fewer than 2^31 pairs.
pub proof fn law_written_finding_section_reads_back(
    book: BookId,
    source_hash: u64,
    source_len: u64,
    catalog_stamp: u64,
    token_count: u32,
    rows: Seq<FindingRowInputView>,
    b: FindingBuffersView,
    p: SectionPayload<'_>,
)
    requires
        spec_finding_buffers(book, source_hash, source_len, catalog_stamp, rows) == Ok::<
            FindingBuffersView,
            EncodeError,
        >(b),
        forall|k: int| 0 <= k < rows.len() ==> #[trigger] refs_below(rows[k], token_count),
        16 * rows.len() <= usize::MAX,
        2 * pair_total(rows, rows.len()) <= u32::MAX,
        p.variant == (SectionVariant::Finding { rules_version: FINDING_SECTION_RULES_VERSION }),
        p.record_count == b.record_count,
        p.source_len == source_len,
        p.fields@.map_values(|f: FieldPayload| field_view(f)) == view_fields(b),
    ensures
        spec_finding_columns(read_back(p), FindingDecodeInputs { token_count }) == Ok::<
            FindingColumnsView,
            DecodeError,
        >(
            FindingColumnsView {
                rows: rows.map_values(|r: FindingRowInputView| written_row(r)),
                source_len,
                source_hash: p.source_hash,
                catalog_stamp: p.catalog_stamp,
                rules_version: FINDING_SECTION_RULES_VERSION,
            },
        ),
{
    let fs = p.fields@;
    let vf = view_fields(b);
    lemma_view_fields_ids(b);
    assert(fs.len() == vf.len());
    assert forall|i: int| 0 <= i < fs.len() implies #[trigger] field_view(fs[i]) == vf[i] by {
        assert(fs.map_values(|f: FieldPayload| field_view(f))[i] == field_view(fs[i]));
    }
    assert forall|i: int, j: int| 0 <= i < j < fs.len() implies #[trigger] fs[i].id < #[trigger] fs[j].id by {
        assert(field_view(fs[i]) == vf[i] && field_view(fs[j]) == vf[j]);
        assert(vf[i].0 < vf[j].0);
    }
    lemma_sort_sorted(fs);
    assert forall|i: int| 0 <= i < fs.len() implies SectionKind::Finding.spec_field(#[trigger] fs[i].id) is Some by {
        assert(field_view(fs[i]) == vf[i]);
        assert(vf[i].0 <= 8);
    }
    lemma_written_fields_known(SectionKind::Finding, fs, fs.len());
    lemma_read_fields(b);
    let section = read_back(p);
    assert(section.fields =~= read_fields(b)) by {
        assert forall|i: int| 0 <= i < fs.len() implies #[trigger] written_field(SectionKind::Finding, fs[i])
            == read_field(vf[i]) by {
            assert(field_view(fs[i]) == vf[i]);
        }
        assert(read_fields(b) == vf.map_values(|t: (u16, ElementWidth, u32, Seq<u8>)| read_field(t)));
    }
    assert forall|id: u16| id <= 8 implies #[trigger] first_field(section.fields, id) == buffer_field(b, id) by {
        lemma_read_fields_lookup(b, id);
    }
    law_finding_section_round_trip(book, source_hash, source_len, catalog_stamp, token_count, rows, b, section);
}

} // verus!
