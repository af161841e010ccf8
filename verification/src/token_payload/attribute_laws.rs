//! What the attribute reader recovers from the rows and entries the sparse
//! builders write.

use vstd::prelude::*;

use crate::container::read::all_zero;
use crate::error::DecodeError;
use crate::primitives::{le_u32, lemma_le_u32_at, u32_bytes};
use crate::schema::{ATTRIBUTE_ENTRY_LEN, ATTRIBUTE_FLAG_DEFAULT, ATTRIBUTE_ROW_LEN, SPAN_ABSENT};

use super::{
    attribute_at, attribute_entries, attribute_entries_payload, attribute_entry_bytes,
    attribute_entry_check, attribute_entry_checks, attribute_entry_record_bytes, attribute_payload,
    attribute_row_check, attribute_row_checks, attribute_row_record, attribute_rows,
    attribute_rows_payload, attribute_total, checks_upto, key_at, key_in_order, list_source_at,
    record_total, row_count, row_entries_payload, row_first, rows_end, spec_attribute_records,
    AttributeInput, AttributeListView, AttributeRowInput, AttributeView, SourceSpan,
};

verus! {

/// Attributes of the first `i` rows.
spec fn before(rows: Seq<AttributeRowInput>, i: int) -> int {
    attribute_total(rows.take(i))
}

proof fn lemma_checks_all(check: spec_fn(int) -> Result<(), DecodeError>, n: nat)
    requires
        forall|k: int| 0 <= k < n ==> #[trigger] check(k) is Ok,
    ensures
        checks_upto(check, n) is Ok,
    decreases n,
{
    if n > 0 {
        lemma_checks_all(check, (n - 1) as nat);
    }
}

proof fn lemma_before_step(rows: Seq<AttributeRowInput>, i: int)
    requires
        0 <= i < rows.len(),
    ensures
        before(rows, i + 1) == before(rows, i) + rows[i].2.len(),
        before(rows, i) >= 0,
{
    let t = rows.take(i + 1);
    assert(t.drop_last() =~= rows.take(i));
    lemma_total_nonneg(rows.take(i));
}

proof fn lemma_total_nonneg(rows: Seq<AttributeRowInput>)
    ensures
        attribute_total(rows) >= 0,
    decreases rows.len(),
{
    if rows.len() > 0 {
        lemma_total_nonneg(rows.drop_last());
    }
}

proof fn lemma_before_monotone(rows: Seq<AttributeRowInput>, i: int, j: int)
    requires
        0 <= i <= j <= rows.len(),
    ensures
        before(rows, i) <= before(rows, j),
    decreases j - i,
{
    if i < j {
        lemma_before_monotone(rows, i, j - 1);
        lemma_before_step(rows, j - 1);
    }
}

proof fn lemma_before_all(rows: Seq<AttributeRowInput>)
    ensures
        before(rows, rows.len() as int) == attribute_total(rows),
{
    assert(rows.take(rows.len() as int) =~= rows);
}

proof fn lemma_rows_len(rows: Seq<AttributeRowInput>)
    ensures
        attribute_rows_payload(rows).len() == ATTRIBUTE_ROW_LEN * rows.len(),
    decreases rows.len(),
{
    if rows.len() > 0 {
        lemma_rows_len(rows.drop_last());
    }
}

proof fn lemma_row_entries_len(attributes: Seq<AttributeInput>)
    ensures
        row_entries_payload(attributes).len() == ATTRIBUTE_ENTRY_LEN * attributes.len(),
    decreases attributes.len(),
{
    if attributes.len() > 0 {
        lemma_row_entries_len(attributes.drop_last());
    }
}

proof fn lemma_entries_len(rows: Seq<AttributeRowInput>)
    ensures
        attribute_entries_payload(rows).len() == ATTRIBUTE_ENTRY_LEN * attribute_total(rows),
    decreases rows.len(),
{
    if rows.len() > 0 {
        lemma_entries_len(rows.drop_last());
        lemma_row_entries_len(rows.last().2);
    }
}

/// Row `i` sits at `24 * i`, naming its own entries.
proof fn lemma_row_at(rows: Seq<AttributeRowInput>, i: int)
    requires
        0 <= i < rows.len(),
    ensures
        attribute_rows_payload(rows).subrange(ATTRIBUTE_ROW_LEN * i, ATTRIBUTE_ROW_LEN * i + 24)
            == attribute_row_record(rows[i].0, before(rows, i) as u32, rows[i].2.len() as u32, rows[i].1),
    decreases rows.len(),
{
    let rest = rows.drop_last();
    lemma_rows_len(rest);
    let b = attribute_rows_payload(rows);
    if i == rows.len() - 1 {
        assert(rows.take(i) =~= rest);
        assert(b.subrange(ATTRIBUTE_ROW_LEN * i, ATTRIBUTE_ROW_LEN * i + 24) =~= attribute_row_record(
            rows.last().0,
            attribute_total(rest) as u32,
            rows.last().2.len() as u32,
            rows.last().1,
        ));
    } else {
        lemma_row_at(rest, i);
        assert(rest.take(i) =~= rows.take(i));
        assert(b.subrange(ATTRIBUTE_ROW_LEN * i, ATTRIBUTE_ROW_LEN * i + 24) =~= attribute_rows_payload(
            rest,
        ).subrange(ATTRIBUTE_ROW_LEN * i, ATTRIBUTE_ROW_LEN * i + 24));
    }
}

proof fn lemma_row_entry_at(attributes: Seq<AttributeInput>, k: int)
    requires
        0 <= k < attributes.len(),
    ensures
        row_entries_payload(attributes).subrange(ATTRIBUTE_ENTRY_LEN * k, ATTRIBUTE_ENTRY_LEN * k + 20)
            == attribute_entry_record_bytes(attributes[k].0, attributes[k].1, attributes[k].2, attributes[k].3),
    decreases attributes.len(),
{
    let rest = attributes.drop_last();
    lemma_row_entries_len(rest);
    let b = row_entries_payload(attributes);
    if k == attributes.len() - 1 {
        assert(b.subrange(ATTRIBUTE_ENTRY_LEN * k, ATTRIBUTE_ENTRY_LEN * k + 20) =~= attribute_entry_record_bytes(
            attributes.last().0,
            attributes.last().1,
            attributes.last().2,
            attributes.last().3,
        ));
    } else {
        lemma_row_entry_at(rest, k);
        assert(b.subrange(ATTRIBUTE_ENTRY_LEN * k, ATTRIBUTE_ENTRY_LEN * k + 20) =~= row_entries_payload(
            rest,
        ).subrange(ATTRIBUTE_ENTRY_LEN * k, ATTRIBUTE_ENTRY_LEN * k + 20));
    }
}

/// Attribute `k` of row `i` sits at entry `before(i) + k`.
proof fn lemma_entry_at(rows: Seq<AttributeRowInput>, i: int, k: int)
    requires
        0 <= i < rows.len(),
        0 <= k < rows[i].2.len(),
    ensures
        attribute_entries_payload(rows).subrange(
            ATTRIBUTE_ENTRY_LEN * (before(rows, i) + k),
            ATTRIBUTE_ENTRY_LEN * (before(rows, i) + k) + 20,
        ) == attribute_entry_record_bytes(
            rows[i].2[k].0,
            rows[i].2[k].1,
            rows[i].2[k].2,
            rows[i].2[k].3,
        ),
    decreases rows.len(),
{
    let rest = rows.drop_last();
    lemma_entries_len(rest);
    let b = attribute_entries_payload(rows);
    let g = before(rows, i) + k;
    if i == rows.len() - 1 {
        assert(rows.take(i) =~= rest);
        lemma_row_entry_at(rows.last().2, k);
        lemma_row_entries_len(rows.last().2);
        assert(b.subrange(ATTRIBUTE_ENTRY_LEN * g, ATTRIBUTE_ENTRY_LEN * g + 20) =~= row_entries_payload(
            rows.last().2,
        ).subrange(ATTRIBUTE_ENTRY_LEN * k, ATTRIBUTE_ENTRY_LEN * k + 20));
    } else {
        lemma_entry_at(rest, i, k);
        assert(rest.take(i) =~= rows.take(i));
        lemma_before_step(rest, i);
        lemma_before_monotone(rest, i + 1, rest.len() as int);
        lemma_before_all(rest);
        assert(b.subrange(ATTRIBUTE_ENTRY_LEN * g, ATTRIBUTE_ENTRY_LEN * g + 20) =~= attribute_entries_payload(
            rest,
        ).subrange(ATTRIBUTE_ENTRY_LEN * g, ATTRIBUTE_ENTRY_LEN * g + 20));
    }
}

/// Every entry index belongs to one attribute of one row.
proof fn lemma_entry_owner(rows: Seq<AttributeRowInput>, g: int) -> (owner: (int, int))
    requires
        0 <= g < attribute_total(rows),
    ensures
        0 <= owner.0 < rows.len(),
        0 <= owner.1 < rows[owner.0].2.len(),
        g == before(rows, owner.0) + owner.1,
    decreases rows.len(),
{
    let rest = rows.drop_last();
    lemma_total_nonneg(rest);
    if g < attribute_total(rest) {
        let (i, k) = lemma_entry_owner(rest, g);
        assert(rest.take(i) =~= rows.take(i));
        assert(rows[i] == rest[i]);
        (i, k)
    } else {
        let i = rows.len() - 1;
        assert(rows.take(i) =~= rest);
        (i, g - attribute_total(rest))
    }
}

/// The fields of a row record at `at` read back as written.
proof fn lemma_row_record_fields(
    r: Seq<u8>,
    at: int,
    token: u32,
    first: u32,
    count: u32,
    list: Option<SourceSpan>,
)
    requires
        0 <= at,
        at + 24 <= r.len(),
        r.subrange(at, at + 24) == attribute_row_record(token, first, count, list),
    ensures
        ({
            let span = match list {
                Some(span) => span,
                None => SourceSpan { start: SPAN_ABSENT, len: 0 },
            };
            &&& le_u32(r, at) == token
            &&& le_u32(r, at + 4) == first
            &&& le_u32(r, at + 8) == count
            &&& le_u32(r, at + 12) == span.start
            &&& le_u32(r, at + 16) == span.len
            &&& all_zero(r, at + 20, at + 24)
        }),
{
    let span = match list {
        Some(span) => span,
        None => SourceSpan { start: SPAN_ABSENT, len: 0 },
    };
    let w = r.subrange(at, at + 24);
    let rec = attribute_row_record(token, first, count, list);
    assert(rec.subrange(0, 4) =~= u32_bytes(token));
    assert(rec.subrange(4, 8) =~= u32_bytes(first));
    assert(rec.subrange(8, 12) =~= u32_bytes(count));
    assert(rec.subrange(12, 16) =~= u32_bytes(span.start));
    assert(rec.subrange(16, 20) =~= u32_bytes(span.len));
    assert(r.subrange(at, at + 4) =~= w.subrange(0, 4));
    assert(r.subrange(at + 4, at + 8) =~= w.subrange(4, 8));
    assert(r.subrange(at + 8, at + 12) =~= w.subrange(8, 12));
    assert(r.subrange(at + 12, at + 16) =~= w.subrange(12, 16));
    assert(r.subrange(at + 16, at + 20) =~= w.subrange(16, 20));
    assert forall|x: int| at + 20 <= x < at + 24 implies #[trigger] r[x] == 0 by {
        assert(r[x] == w[x - at]);
    }
    lemma_le_u32_at(r, at, token);
    lemma_le_u32_at(r, at + 4, first);
    lemma_le_u32_at(r, at + 8, count);
    lemma_le_u32_at(r, at + 12, span.start);
    lemma_le_u32_at(r, at + 16, span.len);
}

/// The fields of row `i` read back as written.
proof fn lemma_row_fields(rows: Seq<AttributeRowInput>, i: int)
    requires
        0 <= i < rows.len(),
    ensures
        ({
            let r = attribute_rows_payload(rows);
            let at = ATTRIBUTE_ROW_LEN * i;
            let span = match rows[i].1 {
                Some(span) => span,
                None => SourceSpan { start: SPAN_ABSENT, len: 0 },
            };
            &&& le_u32(r, at) == rows[i].0
            &&& le_u32(r, at + 4) == before(rows, i) as u32
            &&& le_u32(r, at + 8) == rows[i].2.len() as u32
            &&& le_u32(r, at + 12) == span.start
            &&& le_u32(r, at + 16) == span.len
            &&& all_zero(r, at + 20, at + 24)
        }),
{
    lemma_row_at(rows, i);
    lemma_rows_len(rows);
    lemma_row_record_fields(
        attribute_rows_payload(rows),
        ATTRIBUTE_ROW_LEN * i,
        rows[i].0,
        before(rows, i) as u32,
        rows[i].2.len() as u32,
        rows[i].1,
    );
}

/// The fields of attribute `k` of row `i` read back as written.
proof fn lemma_entry_fields(rows: Seq<AttributeRowInput>, i: int, k: int)
    requires
        0 <= i < rows.len(),
        0 <= k < rows[i].2.len(),
    ensures
        ({
            let e = attribute_entries_payload(rows);
            let at = ATTRIBUTE_ENTRY_LEN * (before(rows, i) + k);
            let a = rows[i].2[k];
            &&& le_u32(e, at) == a.0
            &&& le_u32(e, at + 4) == a.1
            &&& le_u32(e, at + 8) == a.2.start
            &&& le_u32(e, at + 12) == a.2.len
            &&& e[at + 16] == (if a.3 { 1u8 } else { 0u8 })
            &&& all_zero(e, at + 17, at + 20)
        }),
{
    lemma_entry_at(rows, i, k);
    lemma_entries_len(rows);
    lemma_before_step(rows, i);
    lemma_before_monotone(rows, i + 1, rows.len() as int);
    lemma_before_all(rows);
    let e = attribute_entries_payload(rows);
    let at = ATTRIBUTE_ENTRY_LEN * (before(rows, i) + k);
    let a = rows[i].2[k];
    let rec = attribute_entry_record_bytes(a.0, a.1, a.2, a.3);
    let w = e.subrange(at, at + 20);
    assert(w == rec);
    assert(rec.subrange(0, 4) =~= u32_bytes(a.0));
    assert(rec.subrange(4, 8) =~= u32_bytes(a.1));
    assert(rec.subrange(8, 12) =~= u32_bytes(a.2.start));
    assert(rec.subrange(12, 16) =~= u32_bytes(a.2.len));
    assert(e.subrange(at, at + 4) =~= w.subrange(0, 4));
    assert(e.subrange(at + 4, at + 8) =~= w.subrange(4, 8));
    assert(e.subrange(at + 8, at + 12) =~= w.subrange(8, 12));
    assert(e.subrange(at + 12, at + 16) =~= w.subrange(12, 16));
    assert(e[at + 16] == w[16]);
    assert forall|x: int| at + 17 <= x < at + 20 implies #[trigger] e[x] == 0 by {
        assert(e[x] == w[x - at]);
    }
    lemma_le_u32_at(e, at, a.0);
    lemma_le_u32_at(e, at + 4, a.1);
    lemma_le_u32_at(e, at + 8, a.2.start);
    lemma_le_u32_at(e, at + 12, a.2.len);
}

/// The conditions under which a row list reads back as written.
pub open spec fn rows_writable(
    rows: Seq<AttributeRowInput>,
    record_count: u32,
    source_len: u64,
    strings: Seq<Seq<char>>,
) -> bool {
    &&& forall|i: int| 0 <= i < rows.len() ==> #[trigger] rows[i].0 < record_count
    &&& forall|i: int, j: int| 0 <= i < j < rows.len() ==> rows[i].0 < rows[j].0
    &&& forall|i: int|
        0 <= i < rows.len() ==> (#[trigger] rows[i].1 matches Some(span) ==> span.start != SPAN_ABSENT
            && span.start + span.len <= source_len)
    &&& forall|i: int, k: int|
        #![trigger rows[i].2[k]]
        0 <= i < rows.len() && 0 <= k < rows[i].2.len() ==> {
            let a = rows[i].2[k];
            &&& a.0 < strings.len()
            &&& a.1 < strings.len()
            &&& a.2.start + a.2.len <= source_len
            &&& a.3 ==> strings[a.0 as int].len() == 0
        }
}

/// An attribute as the reader resolves it.
pub open spec fn resolved_attribute(strings: Seq<Seq<char>>, a: AttributeInput) -> AttributeView {
    (strings[a.0 as int], strings[a.1 as int], a.2, a.3)
}

/// A row as the reader resolves it.
pub open spec fn resolved_row(strings: Seq<Seq<char>>, row: AttributeRowInput) -> (u32, AttributeListView) {
    (row.0, (row.1, row.2.map_values(|a: AttributeInput| resolved_attribute(strings, a))))
}

proof fn lemma_row_check_ok(
    rows: Seq<AttributeRowInput>,
    record_count: u32,
    source_len: u64,
    strings: Seq<Seq<char>>,
    i: int,
)
    requires
        0 <= i < rows.len(),
        attribute_total(rows) <= u32::MAX,
        rows_writable(rows, record_count, source_len, strings),
    ensures
        attribute_row_check(
            attribute_rows_payload(rows),
            attribute_total(rows),
            record_count,
            source_len,
            i,
        ) is Ok,
        row_first(attribute_rows_payload(rows), i) == before(rows, i),
        row_count(attribute_rows_payload(rows), i) == rows[i].2.len(),
{
    let r = attribute_rows_payload(rows);
    lemma_row_fields(rows, i);
    lemma_before_step(rows, i);
    lemma_before_monotone(rows, i + 1, rows.len() as int);
    lemma_before_all(rows);
    assert(rows[i].0 < record_count);
    if i > 0 {
        lemma_row_fields(rows, i - 1);
        lemma_before_step(rows, i - 1);
        assert(rows[i - 1].0 < rows[i].0);
    }
    assert(key_in_order(r, ATTRIBUTE_ROW_LEN as int, record_count, i));
    assert(rows[i].1 matches Some(span) ==> span.start != SPAN_ABSENT && span.start + span.len
        <= source_len);
}

proof fn lemma_entry_check_ok(
    rows: Seq<AttributeRowInput>,
    record_count: u32,
    source_len: u64,
    strings: Seq<Seq<char>>,
    g: int,
)
    requires
        0 <= g < attribute_total(rows),
        rows_writable(rows, record_count, source_len, strings),
    ensures
        attribute_entry_check(attribute_entries_payload(rows), strings, source_len, g) is Ok,
{
    let (i, k) = lemma_entry_owner(rows, g);
    lemma_entry_fields(rows, i, k);
    let e = attribute_entries_payload(rows);
    let a = rows[i].2[k];
    assert(a.0 < strings.len() && a.1 < strings.len());
    let flags = e[ATTRIBUTE_ENTRY_LEN * g + 16];
    assert((flags == 0u8 || flags == 1u8) ==> flags & !1u8 == 0) by (bit_vector);
    assert(flags == 0u8 ==> flags & 1u8 == 0) by (bit_vector);
    assert(flags == 1u8 ==> flags & 1u8 != 0) by (bit_vector);
}

proof fn lemma_row_read_back(
    rows: Seq<AttributeRowInput>,
    record_count: u32,
    source_len: u64,
    strings: Seq<Seq<char>>,
    i: int,
)
    requires
        0 <= i < rows.len(),
        attribute_total(rows) <= u32::MAX,
        rows_writable(rows, record_count, source_len, strings),
    ensures
        ({
            let r = attribute_rows_payload(rows);
            let e = attribute_entries_payload(rows);
            (
                key_at(r, ATTRIBUTE_ROW_LEN as int, i),
                (
                    list_source_at(r, i),
                    Seq::new(
                        row_count(r, i) as nat,
                        |k: int| attribute_at(e, strings, row_first(r, i) + k),
                    ),
                ),
            ) == resolved_row(strings, rows[i])
        }),
{
    let r = attribute_rows_payload(rows);
    let e = attribute_entries_payload(rows);
    lemma_row_check_ok(rows, record_count, source_len, strings, i);
    lemma_row_fields(rows, i);
    let entries = Seq::new(
        row_count(r, i) as nat,
        |k: int| attribute_at(e, strings, row_first(r, i) + k),
    );
    assert forall|k: int| 0 <= k < rows[i].2.len() implies #[trigger] entries[k] == resolved_attribute(
        strings,
        rows[i].2[k],
    ) by {
        lemma_entry_fields(rows, i, k);
        let flags = e[ATTRIBUTE_ENTRY_LEN * (before(rows, i) + k) + 16];
        assert(flags == 0u8 ==> flags & 1u8 == 0) by (bit_vector);
        assert(flags == 1u8 ==> flags & 1u8 != 0) by (bit_vector);
    }
    assert(entries =~= rows[i].2.map_values(|a: AttributeInput| resolved_attribute(strings, a)));
    assert(rows[i].1 matches Some(span) ==> span.start != SPAN_ABSENT);
}

/// What the sparse builders write for attribute rows pushed in ascending
/// token order, each row's entries right after the previous row's, the
/// attribute reader accepts and reads back as the same rows with every
/// string index resolved, whenever each span lies in the source, each index
/// names a string, a default-flagged attribute has an empty key, and a
/// present list span does not start at the absent sentinel.
pub proof fn law_attribute_records_round_trip(
    rows: Seq<AttributeRowInput>,
    record_count: u32,
    source_len: u64,
    strings: Seq<Seq<char>>,
)
    requires
        rows.len() <= u32::MAX,
        ATTRIBUTE_ROW_LEN * rows.len() <= usize::MAX,
        attribute_total(rows) <= u32::MAX,
        rows_writable(rows, record_count, source_len, strings),
    ensures
        spec_attribute_records(
            attribute_payload(rows),
            rows.len() as u32,
            record_count,
            source_len,
            strings,
        ) is Ok,
        attribute_entries(
            attribute_rows(attribute_payload(rows), rows.len() as u32),
            attribute_entry_bytes(attribute_payload(rows), rows.len() as u32),
            strings,
        ) == rows.map_values(|row: AttributeRowInput| resolved_row(strings, row)),
{
    let n = rows.len();
    let b = attribute_payload(rows);
    let r = attribute_rows_payload(rows);
    let e = attribute_entries_payload(rows);
    lemma_rows_len(rows);
    lemma_entries_len(rows);
    lemma_total_nonneg(rows);
    assert(attribute_rows(b, n as u32) =~= r);
    assert(attribute_entry_bytes(b, n as u32) =~= e);
    let total = attribute_total(rows);
    assert((20 * total) % 20 == 0 && (20 * total) / 20 == total) by (nonlinear_arith)
        requires
            total >= 0,
    ;
    assert((24 * (n as int)) / 24 == n as int) by (nonlinear_arith);
    assert(record_total(e, ATTRIBUTE_ENTRY_LEN as int) == total);
    assert(record_total(r, ATTRIBUTE_ROW_LEN as int) == n);
    let row_check = attribute_row_checks(r, total, record_count, source_len);
    assert forall|i: int| 0 <= i < n implies #[trigger] row_check(i) is Ok by {
        lemma_row_check_ok(rows, record_count, source_len, strings, i);
    }
    lemma_checks_all(row_check, n);
    if n > 0 {
        lemma_row_check_ok(rows, record_count, source_len, strings, n - 1);
        lemma_before_step(rows, n - 1);
    }
    lemma_before_all(rows);
    assert(rows_end(r, n as int) == total) by {
        assert(rows.take(0) =~= Seq::<AttributeRowInput>::empty());
    }
    let entry_check = attribute_entry_checks(e, strings, source_len);
    assert forall|g: int| 0 <= g < total implies #[trigger] entry_check(g) is Ok by {
        lemma_entry_check_ok(rows, record_count, source_len, strings, g);
    }
    lemma_checks_all(entry_check, total as nat);
    assert forall|i: int| 0 <= i < n implies #[trigger] attribute_entries(r, e, strings)[i]
        == resolved_row(strings, rows[i]) by {
        lemma_row_read_back(rows, record_count, source_len, strings, i);
    }
    assert(attribute_entries(r, e, strings) =~= rows.map_values(
        |row: AttributeRowInput| resolved_row(strings, row),
    ));
}

} // verus!
