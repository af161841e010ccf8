//! What the reader recovers from what the writer wrote.

use vstd::prelude::*;

use crate::book::BookId;
use crate::error::{DecodeError, EncodeError};
use crate::outside::xxh3_64_hash;
use crate::primitives::{
    checksum_input, spec_window, le_u16, le_u32, le_u64, lemma_le_u16_at, lemma_u64_zero_bytes, lemma_le_u32_at, lemma_le_u64_at, padding, u16_bytes,
    u32_bytes, u64_bytes,
};
use crate::schema::{
    container_magic, section_magic, SectionKind, CHECKSUM_OMITTED, CONTAINER_FLAGS_KNOWN,
    CONTAINER_HEADER_LEN, CONTAINER_CHECKSUM_OFFSET, SECTION_ALIGN, SECTION_VERSION, TOC_ENTRY_LEN, DIRECTORY_ENTRY_LEN, FORMAT_VERSION,
    SECTION_CHECKSUM_OFFSET, FIELD_FLAG_REQUIRED, SECTION_FLAG_POSITIONAL_IDS,
    SECTION_HEADER_LEN,
};

use super::write::{
    end_pos, first_dup_from, first_extent_mismatch_from, first_missing_from, has_payload_id,
    insert_by_id, lemma_end_pos_monotone, offset_of, extent_mismatch, sort_by_id,
    payload_bytes, dir_bytes, dir_entry_bytes, aligned, zeros, required_flag, section_header_bytes,
    spec_write_section, field_refusal,
};
use super::read::{
    all_zero, book_of_code, has_magic, spec_inspect_section, spec_read_book, spec_section_header,
    spec_validate_checksum, spec_container_header, spec_toc_entry, spec_toc_entries, toc_consistent,
    toc_pair_ok, toc_finding_ok, pairs_with, spec_read_section, header_matches_entry,
    spec_read_container, dir_disjoint, entry_field, has_field_id, id_seen, known_fields, positional_consistent,
    ranges_overlap, required_present, spec_dir_entries, spec_dir_entry, spec_directory, DirEntry,
};
use crate::schema::token_field::{is_positional_id_exclusive, TOKEN_ID_DICTIONARY, TOKEN_ID_INDEX};
use super::write::{
    container_header_bytes, dup_at, first_orphan_from, lay_out, least_dup_key, lemma_lay_out_toc_len, of_kind, orphan_at,
    toc_entry_bytes, token_pair, ContainerSection, spec_canonical_order, fresh_sections,
    spec_write_container,
};
use super::{
    ContainerHeader, ElementWidth, FieldPayload, SectionHeader, SectionPayload, SectionVariant,
    SpecField, SpecSection, TocEntry,
};

verus! {

// ------------------------------------------------------------ canonical order

/// Field ids ascend along `s`.
pub open spec fn ids_ascending<'a>(s: Seq<FieldPayload<'a>>) -> bool {
    forall|i: int, j: int| 0 <= i < j < s.len() ==> s[i].id <= s[j].id
}

/// Field ids strictly ascend along `s`.
pub open spec fn ids_strictly_ascending<'a>(s: Seq<FieldPayload<'a>>) -> bool {
    forall|i: int, j: int| 0 <= i < j < s.len() ==> s[i].id < s[j].id
}

proof fn lemma_insert_by_id_sorted<'a>(s: Seq<FieldPayload<'a>>, x: FieldPayload<'a>)
    requires
        ids_ascending(s),
    ensures
        insert_by_id(s, x).len() == s.len() + 1,
        ids_ascending(insert_by_id(s, x)),
        forall|k: int|
            0 <= k < insert_by_id(s, x).len() ==> #[trigger] insert_by_id(s, x)[k] == x || exists|j: int|
                0 <= j < s.len() && insert_by_id(s, x)[k] == s[j],
    decreases s.len(),
{
    let r = insert_by_id(s, x);
    if s.len() == 0 {
    } else if x.id < s[0].id {
        assert forall|k: int| 0 <= k < r.len() implies r[k] == x || exists|j: int|
            0 <= j < s.len() && r[k] == s[j] by {
            if k > 0 {
                assert(r[k] == s[k - 1]);
            }
        }
    } else {
        let rest = s.drop_first();
        assert forall|i: int, j: int| 0 <= i < j < rest.len() implies rest[i].id <= rest[j].id by {
            assert(rest[i] == s[i + 1] && rest[j] == s[j + 1]);
        }
        lemma_insert_by_id_sorted(rest, x);
        let t = insert_by_id(rest, x);
        assert(r == seq![s[0]] + t);
        assert forall|k: int| 0 <= k < t.len() implies s[0].id <= #[trigger] t[k].id by {
            if t[k] != x {
                let j = choose|j: int| 0 <= j < rest.len() && t[k] == rest[j];
                assert(rest[j] == s[j + 1]);
            }
        }
        assert forall|i: int, j: int| 0 <= i < j < r.len() implies r[i].id <= r[j].id by {
            if i == 0 {
                assert(r[j] == t[j - 1]);
            } else {
                assert(r[i] == t[i - 1] && r[j] == t[j - 1]);
            }
        }
        assert forall|k: int| 0 <= k < r.len() implies r[k] == x || exists|j: int|
            0 <= j < s.len() && r[k] == s[j] by {
            if k == 0 {
                assert(r[0] == s[0]);
            } else {
                assert(r[k] == t[k - 1]);
                if t[k - 1] != x {
                    let j = choose|j: int| 0 <= j < rest.len() && t[k - 1] == rest[j];
                    assert(rest[j] == s[j + 1]);
                }
            }
        }
    }
}

/// The canonical order keeps every field and ascends by id.
pub proof fn lemma_sort_by_id<'a>(fs: Seq<FieldPayload<'a>>)
    ensures
        sort_by_id(fs).len() == fs.len(),
        ids_ascending(sort_by_id(fs)),
    decreases fs.len(),
{
    if fs.len() > 0 {
        lemma_sort_by_id(fs.drop_last());
        lemma_insert_by_id_sorted(sort_by_id(fs.drop_last()), fs.last());
    }
}

proof fn lemma_no_dup_from<'a>(s: Seq<FieldPayload<'a>>, i: int)
    requires
        0 <= i,
        first_dup_from(s, i) is None,
    ensures
        forall|k: int| i <= k && k + 1 < s.len() ==> s[k].id != #[trigger] s[k + 1].id,
    decreases s.len() - i,
{
    if i + 1 < s.len() {
        lemma_no_dup_from(s, i + 1);
    }
}

/// Without adjacent duplicates, ascending ids strictly ascend.
pub proof fn lemma_strictly_ascending<'a>(s: Seq<FieldPayload<'a>>)
    requires
        ids_ascending(s),
        first_dup_from(s, 0) is None,
    ensures
        ids_strictly_ascending(s),
{
    lemma_no_dup_from(s, 0);
    assert forall|i: int, j: int| 0 <= i < j < s.len() implies s[i].id < s[j].id by {
        assert(s[i].id != s[i + 1].id);
        assert(s[i].id <= s[i + 1].id);
    }
}

/// No refusal from `i` on means no field from `i` on mismatches its extent.
pub proof fn lemma_no_extent_mismatch<'a>(kind: SectionKind, s: Seq<FieldPayload<'a>>, i: int)
    requires
        0 <= i,
        first_extent_mismatch_from(kind, s, i) is None,
    ensures
        forall|k: int| i <= k < s.len() ==> !extent_mismatch(kind, #[trigger] s[k]),
    decreases s.len() - i,
{
    if i < s.len() {
        lemma_no_extent_mismatch(kind, s, i + 1);
    }
}

/// No refusal from table entry `t` on means every required field from there
/// on is present.
pub proof fn lemma_none_missing<'a>(kind: SectionKind, s: Seq<FieldPayload<'a>>, t: int)
    requires
        0 <= t,
        first_missing_from(kind, s, t) is None,
    ensures
        forall|k: int|
            t <= k < kind.spec_field_table().len() && #[trigger] kind.spec_field_table()[k].required
                ==> has_payload_id(s, kind.spec_field_table()[k].id),
    decreases kind.spec_field_table().len() - t,
{
    if t < kind.spec_field_table().len() {
        lemma_none_missing(kind, s, t + 1);
    }
}

// ------------------------------------------------------------ layout

/// Padding brings a position onto the next multiple of the alignment, and no
/// further.
pub proof fn lemma_padding(p: int, a: int)
    requires
        p >= 0,
        a >= 1,
    ensures
        0 <= padding(p, a) < a,
        aligned(p, a) % a == 0,
{
    if a > 1 && p % a != 0 {
        assert((p + (a - p % a)) % a == 0) by (nonlinear_arith)
            requires
                a > 1,
                p >= 0,
        ;
    }
}

/// Every payload starts at or after its predecessors' end, on its alignment,
/// and ends where the next layout step begins.
pub proof fn lemma_offsets<'a>(s: Seq<FieldPayload<'a>>, k: int, start: int)
    requires
        0 <= k < s.len(),
        start >= 0,
    ensures
        end_pos(s, k as nat, start) <= offset_of(s, k, start),
        start <= end_pos(s, k as nat, start),
        offset_of(s, k, start) % (s[k].width.spec_align() as int) == 0,
        offset_of(s, k, start) + s[k].bytes@.len() == end_pos(s, (k + 1) as nat, start),
{
    lemma_end_pos_monotone(s, 0, k as nat, start);
    lemma_padding(end_pos(s, k as nat, start), s[k].width.spec_align() as int);
}

/// The payload region is as long as the layout says, and holds each payload
/// at its offset.
pub proof fn lemma_payload_bytes<'a>(s: Seq<FieldPayload<'a>>, n: nat, start: int)
    requires
        n <= s.len(),
        start >= 0,
    ensures
        payload_bytes(s, n, start).len() == end_pos(s, n, start) - start,
        forall|k: int|
            0 <= k < n ==> #[trigger] payload_bytes(s, n, start).subrange(
                offset_of(s, k, start) - start,
                offset_of(s, k, start) - start + s[k].bytes@.len(),
            ) == s[k].bytes@,
    decreases n,
{
    if n > 0 {
        let m = (n - 1) as nat;
        lemma_payload_bytes(s, m, start);
        lemma_offsets(s, m as int, start);
        let prev = payload_bytes(s, m, start);
        let cur = payload_bytes(s, n, start);
        assert(cur == prev + zeros(padding(end_pos(s, m, start), s[m as int].width.spec_align() as int))
            + s[m as int].bytes@);
        assert forall|k: int| 0 <= k < n implies #[trigger] cur.subrange(
            offset_of(s, k, start) - start,
            offset_of(s, k, start) - start + s[k].bytes@.len(),
        ) == s[k].bytes@ by {
            if k < m {
                lemma_offsets(s, k, start);
                lemma_end_pos_monotone(s, (k + 1) as nat, m, start);
                assert(cur.subrange(
                    offset_of(s, k, start) - start,
                    offset_of(s, k, start) - start + s[k].bytes@.len(),
                ) =~= prev.subrange(
                    offset_of(s, k, start) - start,
                    offset_of(s, k, start) - start + s[k].bytes@.len(),
                ));
            } else {
                assert(cur.subrange(
                    offset_of(s, k, start) - start,
                    offset_of(s, k, start) - start + s[k].bytes@.len(),
                ) =~= s[k].bytes@);
            }
        }
    }
}

/// The directory holds each field's entry at sixteen bytes per index.
pub proof fn lemma_dir_bytes<'a>(kind: SectionKind, s: Seq<FieldPayload<'a>>, n: nat, start: int)
    requires
        n <= s.len(),
    ensures
        dir_bytes(kind, s, n, start).len() == 16 * n,
        forall|k: int|
            0 <= k < n ==> #[trigger] dir_bytes(kind, s, n, start).subrange(16 * k, 16 * k + 16)
                == dir_entry_bytes(kind, s[k], offset_of(s, k, start)),
    decreases n,
{
    if n > 0 {
        let m = (n - 1) as nat;
        lemma_dir_bytes(kind, s, m, start);
        let prev = dir_bytes(kind, s, m, start);
        let cur = dir_bytes(kind, s, n, start);
        assert forall|k: int| 0 <= k < n implies #[trigger] cur.subrange(16 * k, 16 * k + 16)
            == dir_entry_bytes(kind, s[k], offset_of(s, k, start)) by {
            if k < m {
                assert(cur.subrange(16 * k, 16 * k + 16) =~= prev.subrange(16 * k, 16 * k + 16));
            } else {
                assert(cur.subrange(16 * k, 16 * k + 16) =~= dir_entry_bytes(
                    kind,
                    s[k],
                    offset_of(s, k, start),
                ));
            }
        }
    }
}

// ------------------------------------------------------------ reading a written directory

/// The directory entry a reader recovers for field `k` of a written section.
pub open spec fn written_entry<'a>(kind: SectionKind, s: Seq<FieldPayload<'a>>, k: int, start: int) -> DirEntry {
    DirEntry {
        id: s[k].id,
        width: s[k].width,
        required: required_flag(kind, s[k].id) == FIELD_FLAG_REQUIRED,
        offset: offset_of(s, k, start) as u32,
        byte_len: s[k].bytes@.len() as u32,
        count: s[k].count,
    }
}

/// The directory entries a reader recovers from a written section.
pub open spec fn written_entries<'a>(kind: SectionKind, s: Seq<FieldPayload<'a>>, start: int) -> Seq<
    DirEntry,
> {
    Seq::new(s.len(), |k: int| written_entry(kind, s, k, start))
}

/// The field a reader recovers for a written field.
pub open spec fn written_field(kind: SectionKind, f: FieldPayload<'_>) -> SpecField {
    SpecField {
        id: f.id,
        width: f.width,
        required: required_flag(kind, f.id) == FIELD_FLAG_REQUIRED,
        count: f.count,
        bytes: f.bytes@,
    }
}

/// The known fields among the first `n` written fields, in order: what a
/// reader hands back, unknown optional fields skipped.
pub open spec fn written_fields<'a>(kind: SectionKind, s: Seq<FieldPayload<'a>>, n: nat) -> Seq<
    SpecField,
>
    decreases n,
{
    if n == 0 {
        Seq::empty()
    } else if kind.spec_field(s[n - 1].id) is Some {
        written_fields(kind, s, (n - 1) as nat).push(written_field(kind, s[n - 1]))
    } else {
        written_fields(kind, s, (n - 1) as nat)
    }
}

/// The flag byte the writer emits is one the reader accepts, and reads back
/// as required exactly when it is the required bit.
pub proof fn lemma_flag_byte(f: u8)
    requires
        f == 0 || f == 1,
    ensures
        f & !1u8 == 0,
        (f & 1u8 != 0) == (f == 1),
{
    assert((f == 0 || f == 1) ==> (f & !1u8 == 0 && ((f & 1u8 != 0) == (f == 1)))) by (bit_vector);
}

/// The facts of a section the writer accepted, over its sorted fields.
pub open spec fn laid_out<'a>(kind: SectionKind, s: Seq<FieldPayload<'a>>) -> bool {
    let start = SECTION_HEADER_LEN + DIRECTORY_ENTRY_LEN * s.len();
    &&& ids_strictly_ascending(s)
    &&& forall|k: int| 0 <= k < s.len() ==> !extent_mismatch(kind, #[trigger] s[k])
    &&& end_pos(s, s.len(), start) <= u32::MAX
}

/// Section bytes that hold the directory and payloads of `s` where the
/// writer puts them.
pub open spec fn holds_layout<'a>(b: Seq<u8>, kind: SectionKind, s: Seq<FieldPayload<'a>>) -> bool {
    let start = SECTION_HEADER_LEN + DIRECTORY_ENTRY_LEN * s.len();
    &&& b.len() == end_pos(s, s.len(), start)
    &&& b.subrange(SECTION_HEADER_LEN as int, start) == dir_bytes(kind, s, s.len(), start)
    &&& b.subrange(start, b.len() as int) == payload_bytes(s, s.len(), start)
}

/// The sixteen bytes of a directory entry read back as its fields.
proof fn lemma_entry_bytes(b: Seq<u8>, at: int, kind: SectionKind, f: FieldPayload<'_>, off: int)
    requires
        0 <= at,
        at + 16 <= b.len(),
        b.subrange(at, at + 16) == dir_entry_bytes(kind, f, off),
    ensures
        le_u16(b, at) == f.id,
        b[at + 2] == f.width.spec_as_u8(),
        b[at + 3] == required_flag(kind, f.id),
        le_u32(b, at + 4) == off as u32,
        le_u32(b, at + 8) == f.bytes@.len() as u32,
        le_u32(b, at + 12) == f.count,
{
    let e = dir_entry_bytes(kind, f, off);
    assert(b.subrange(at, at + 2) =~= e.subrange(0, 2));
    assert(e.subrange(0, 2) =~= u16_bytes(f.id));
    lemma_le_u16_at(b, at, f.id);
    assert(b[at + 2] == e[2]);
    assert(b[at + 3] == e[3]);
    assert(e.subrange(4, 8) =~= u32_bytes(off as u32));
    assert(e.subrange(8, 12) =~= u32_bytes(f.bytes@.len() as u32));
    assert(e.subrange(12, 16) =~= u32_bytes(f.count));
    assert(b.subrange(at + 4, at + 8) =~= e.subrange(4, 8));
    assert(b.subrange(at + 8, at + 12) =~= e.subrange(8, 12));
    assert(b.subrange(at + 12, at + 16) =~= e.subrange(12, 16));
    lemma_le_u32_at(b, at + 4, off as u32);
    lemma_le_u32_at(b, at + 8, f.bytes@.len() as u32);
    lemma_le_u32_at(b, at + 12, f.count);
}

/// Entry `k` of a written directory reads back as the writer described it.
proof fn lemma_read_written_entry<'a>(b: Seq<u8>, kind: SectionKind, s: Seq<FieldPayload<'a>>, k: int)
    requires
        laid_out(kind, s),
        holds_layout(b, kind, s),
        0 <= k < s.len(),
    ensures
        spec_dir_entry(
            b,
            SECTION_HEADER_LEN + DIRECTORY_ENTRY_LEN * k,
            kind,
            SECTION_HEADER_LEN + DIRECTORY_ENTRY_LEN * s.len(),
            written_entries(kind, s, SECTION_HEADER_LEN + DIRECTORY_ENTRY_LEN * s.len()).take(k),
        ) == Ok::<DirEntry, DecodeError>(
            written_entry(kind, s, k, SECTION_HEADER_LEN + DIRECTORY_ENTRY_LEN * s.len()),
        ),
{
    let n = s.len();
    let start = SECTION_HEADER_LEN + DIRECTORY_ENTRY_LEN * n;
    let at = SECTION_HEADER_LEN + DIRECTORY_ENTRY_LEN * k;
    let f = s[k];
    let off = offset_of(s, k, start);
    lemma_end_pos_monotone(s, 0, n, start);
    assert(b.subrange(at, at + 16) == dir_entry_bytes(kind, f, off)) by {
        lemma_dir_bytes(kind, s, n, start);
        assert(b.subrange(at, at + 16) =~= b.subrange(SECTION_HEADER_LEN as int, start).subrange(
            16 * k,
            16 * k + 16,
        ));
    }
    lemma_entry_bytes(b, at, kind, f, off);
    lemma_offsets(s, k, start);
    lemma_end_pos_monotone(s, (k + 1) as nat, n, start);
    lemma_flag_byte(required_flag(kind, f.id));
    let prev = written_entries(kind, s, start).take(k);
    assert forall|j: int| 0 <= j < prev.len() implies #[trigger] prev[j].id != f.id by {
        assert(s[j].id < s[k].id);
    }
    assert(!id_seen(prev, f.id));
    assert(ElementWidth::spec_from_u8(f.width.spec_as_u8()) == Some(f.width));
    assert(f.width.spec_align() >= 1);
    assert(!extent_mismatch(kind, f));
}

/// A written directory reads back entry by entry.
proof fn lemma_read_written_entries<'a>(b: Seq<u8>, kind: SectionKind, s: Seq<FieldPayload<'a>>, i: nat)
    requires
        laid_out(kind, s),
        holds_layout(b, kind, s),
        i <= s.len(),
    ensures
        spec_dir_entries(b, kind, SECTION_HEADER_LEN + DIRECTORY_ENTRY_LEN * s.len(), i) == Ok::<
            Seq<DirEntry>,
            DecodeError,
        >(written_entries(kind, s, SECTION_HEADER_LEN + DIRECTORY_ENTRY_LEN * s.len()).take(i as int)),
    decreases i,
{
    if i > 0 {
        let start = SECTION_HEADER_LEN + DIRECTORY_ENTRY_LEN * s.len();
        lemma_read_written_entries(b, kind, s, (i - 1) as nat);
        lemma_read_written_entry(b, kind, s, i - 1);
        let es = written_entries(kind, s, start);
        assert(es.take(i - 1).push(es[i - 1]) =~= es.take(i as int));
        assert(spec_dir_entries(b, kind, start, i) == Ok::<Seq<DirEntry>, DecodeError>(
            es.take(i - 1).push(es[i - 1]),
        ));
    } else {
        let start = SECTION_HEADER_LEN + DIRECTORY_ENTRY_LEN * s.len();
        assert(written_entries(kind, s, start).take(0) =~= Seq::<DirEntry>::empty());
    }
}

/// A written payload reads back as the bytes that were written.
proof fn lemma_written_payload<'a>(b: Seq<u8>, kind: SectionKind, s: Seq<FieldPayload<'a>>, k: int)
    requires
        laid_out(kind, s),
        holds_layout(b, kind, s),
        0 <= k < s.len(),
    ensures
        ({
            let start = SECTION_HEADER_LEN + DIRECTORY_ENTRY_LEN * s.len();
            let e = written_entry(kind, s, k, start);
            &&& e.offset == offset_of(s, k, start)
            &&& e.byte_len == s[k].bytes@.len()
            &&& entry_field(b, e) == written_field(kind, s[k])
        }),
{
    let n = s.len();
    let start = SECTION_HEADER_LEN + DIRECTORY_ENTRY_LEN * n;
    let off = offset_of(s, k, start);
    let len = s[k].bytes@.len();
    lemma_offsets(s, k, start);
    lemma_end_pos_monotone(s, (k + 1) as nat, n, start);
    lemma_payload_bytes(s, n, start);
    assert(b.subrange(off, off + len) =~= b.subrange(start, b.len() as int).subrange(
        off - start,
        off - start + len,
    ));
    assert(b.subrange(off, off + len) == s[k].bytes@);
}

/// The fields a reader builds from a written directory are the written known
/// fields.
proof fn lemma_known_written_fields<'a>(b: Seq<u8>, kind: SectionKind, s: Seq<FieldPayload<'a>>, i: nat)
    requires
        laid_out(kind, s),
        holds_layout(b, kind, s),
        i <= s.len(),
    ensures
        known_fields(
            b,
            kind,
            written_entries(kind, s, SECTION_HEADER_LEN + DIRECTORY_ENTRY_LEN * s.len()).take(i as int),
        ) == written_fields(kind, s, i),
    decreases i,
{
    let start = SECTION_HEADER_LEN + DIRECTORY_ENTRY_LEN * s.len();
    let es = written_entries(kind, s, start);
    if i > 0 {
        lemma_known_written_fields(b, kind, s, (i - 1) as nat);
        lemma_written_payload(b, kind, s, i - 1);
        assert(es.take(i as int).drop_last() =~= es.take(i - 1));
        assert(es.take(i as int).last() == es[i - 1]);
    } else {
        assert(es.take(0) =~= Seq::<DirEntry>::empty());
    }
}

/// A written directory reads back as the written known fields, given the
/// whole-section facts the writer checked: required fields present, and no
/// explicit-id column beside the positional-ids flag.
pub proof fn lemma_read_written_directory<'a>(
    b: Seq<u8>,
    header: SectionHeader,
    s: Seq<FieldPayload<'a>>,
)
    requires
        laid_out(header.kind, s),
        holds_layout(b, header.kind, s),
        s.len() <= u16::MAX,
        first_missing_from(header.kind, s, 0) is None,
        (header.kind == SectionKind::Token && header.flags & SECTION_FLAG_POSITIONAL_IDS != 0) ==> (
        !has_payload_id(s, TOKEN_ID_INDEX) && !has_payload_id(s, TOKEN_ID_DICTIONARY)),
    ensures
        spec_directory(b, header, s.len() as u16) == Ok::<Seq<SpecField>, DecodeError>(
            written_fields(header.kind, s, s.len()),
        ),
{
    let kind = header.kind;
    let n = s.len();
    let start = SECTION_HEADER_LEN + DIRECTORY_ENTRY_LEN * n;
    let es = written_entries(kind, s, start);
    lemma_end_pos_monotone(s, 0, n, start);
    lemma_read_written_entries(b, kind, s, n);
    assert(es.take(n as int) =~= es);
    assert forall|i: int, j: int| 0 <= i < es.len() && 0 <= j < es.len() && i != j implies !#[trigger] ranges_overlap(
        es[i].offset as int,
        es[i].offset + es[i].byte_len,
        es[j].offset as int,
        es[j].offset + es[j].byte_len,
    ) by {
        lemma_written_payload(b, kind, s, i);
        lemma_written_payload(b, kind, s, j);
        lemma_offsets(s, i, start);
        lemma_offsets(s, j, start);
        if i < j {
            lemma_end_pos_monotone(s, (i + 1) as nat, j as nat, start);
        } else {
            lemma_end_pos_monotone(s, (j + 1) as nat, i as nat, start);
        }
    }
    lemma_none_missing(kind, s, 0);
    assert forall|t: int|
        0 <= t < kind.spec_field_table().len() && #[trigger] kind.spec_field_table()[t].required
            implies has_field_id(es, kind.spec_field_table()[t].id) by {
        let id = kind.spec_field_table()[t].id;
        assert(has_payload_id(s, id));
        let k = choose|k: int| 0 <= k < s.len() && #[trigger] s[k].id == id;
        assert(es[k].id == id);
    }
    assert(positional_consistent(header, es)) by {
        if header.kind == SectionKind::Token && header.flags & SECTION_FLAG_POSITIONAL_IDS != 0 {
            assert forall|k: int| 0 <= k < es.len() implies !is_positional_id_exclusive(#[trigger] es[k].id) by {
                assert(es[k].id == s[k].id);
                if s[k].id == TOKEN_ID_INDEX {
                    assert(has_payload_id(s, TOKEN_ID_INDEX));
                }
                if s[k].id == TOKEN_ID_DICTIONARY {
                    assert(has_payload_id(s, TOKEN_ID_DICTIONARY));
                }
            }
        }
    }
    lemma_known_written_fields(b, kind, s, n);
}

// ------------------------------------------------------------ reading a written section

/// The header a reader recovers from a written section.
pub open spec fn written_section_header(p: SectionPayload<'_>, section_len: u64, checksum: u64) -> SectionHeader {
    SectionHeader {
        format_version: FORMAT_VERSION,
        rules_version: p.variant.spec_rules_version(),
        kind: p.variant.spec_kind(),
        flags: p.variant.spec_flags(),
        book: p.book,
        record_count: p.record_count,
        source_hash: p.source_hash,
        section_len,
        checksum,
        source_len: p.source_len,
        catalog_stamp: p.catalog_stamp,
    }
}

/// The sixty-four header bytes read back as the values written into them.
#[verifier::rlimit(40)]
proof fn lemma_section_header_bytes(b: Seq<u8>, p: SectionPayload<'_>, n: u16, len: u64, cks: u64)
    requires
        b.len() >= SECTION_HEADER_LEN,
        b.subrange(0, SECTION_HEADER_LEN as int) == section_header_bytes(p, n, len, cks),
        p.book.is_valid(),
    ensures
        has_magic(b, 0, section_magic()),
        le_u16(b, 4) == FORMAT_VERSION,
        le_u16(b, 6) == p.variant.spec_rules_version(),
        b[8] == p.variant.spec_kind().spec_as_u8(),
        b[9] == p.variant.spec_flags(),
        b.subrange(10, 13) == p.book.code(),
        all_zero(b, 13, 16),
        le_u32(b, 16) == p.record_count,
        le_u16(b, 20) == n,
        le_u16(b, 22) == DIRECTORY_ENTRY_LEN,
        le_u64(b, 24) == p.source_hash,
        le_u64(b, 32) == len,
        le_u64(b, 40) == cks,
        le_u64(b, 48) == p.source_len,
        le_u64(b, 56) == p.catalog_stamp,
{
    let h = section_header_bytes(p, n, len, cks);
    p.book.lemma_code(p.book);
    assert(h.len() == 64);
    assert forall|k: int| 0 <= k < 64 implies b[k] == #[trigger] h[k] by {
        assert(b.subrange(0, 64)[k] == b[k]);
    }
    assert(h.subrange(0, 4) =~= section_magic());
    assert(b.subrange(0, 4) =~= h.subrange(0, 4));
    assert(b[0] == b.subrange(0, 4)[0] && b[1] == b.subrange(0, 4)[1] && b[2] == b.subrange(0, 4)[2]
        && b[3] == b.subrange(0, 4)[3]);
    assert(h.subrange(8, 10) =~= seq![p.variant.spec_kind().spec_as_u8(), p.variant.spec_flags()]);
    assert(b.subrange(8, 10) =~= h.subrange(8, 10));
    assert(b[8] == b.subrange(8, 10)[0] && b[9] == b.subrange(8, 10)[1]);
    assert(h.subrange(13, 16) =~= seq![0u8, 0u8, 0u8]);
    assert(b.subrange(13, 16) =~= h.subrange(13, 16));
    assert(b[13] == b.subrange(13, 16)[0] && b[14] == b.subrange(13, 16)[1] && b[15] == b.subrange(13, 16)[2]);
    assert(h.subrange(4, 6) =~= u16_bytes(FORMAT_VERSION));
    assert(b.subrange(4, 6) =~= h.subrange(4, 6));
    lemma_le_u16_at(b, 4, FORMAT_VERSION);
    assert(h.subrange(6, 8) =~= u16_bytes(p.variant.spec_rules_version()));
    assert(b.subrange(6, 8) =~= h.subrange(6, 8));
    lemma_le_u16_at(b, 6, p.variant.spec_rules_version());
    assert(h.subrange(10, 13) =~= p.book.code());
    assert(b.subrange(10, 13) =~= h.subrange(10, 13));
    assert(h.subrange(16, 20) =~= u32_bytes(p.record_count));
    assert(b.subrange(16, 20) =~= h.subrange(16, 20));
    lemma_le_u32_at(b, 16, p.record_count);
    assert(h.subrange(20, 22) =~= u16_bytes(n));
    assert(b.subrange(20, 22) =~= h.subrange(20, 22));
    lemma_le_u16_at(b, 20, n);
    assert(h.subrange(22, 24) =~= u16_bytes(DIRECTORY_ENTRY_LEN as u16));
    assert(b.subrange(22, 24) =~= h.subrange(22, 24));
    lemma_le_u16_at(b, 22, DIRECTORY_ENTRY_LEN as u16);
    assert(h.subrange(24, 32) =~= u64_bytes(p.source_hash));
    assert(b.subrange(24, 32) =~= h.subrange(24, 32));
    lemma_le_u64_at(b, 24, p.source_hash);
    assert(h.subrange(32, 40) =~= u64_bytes(len));
    assert(b.subrange(32, 40) =~= h.subrange(32, 40));
    lemma_le_u64_at(b, 32, len);
    assert(h.subrange(40, 48) =~= u64_bytes(cks));
    assert(b.subrange(40, 48) =~= h.subrange(40, 48));
    lemma_le_u64_at(b, 40, cks);
    assert(h.subrange(48, 56) =~= u64_bytes(p.source_len));
    assert(b.subrange(48, 56) =~= h.subrange(48, 56));
    lemma_le_u64_at(b, 48, p.source_len);
    assert(h.subrange(56, 64) =~= u64_bytes(p.catalog_stamp));
    assert(b.subrange(56, 64) =~= h.subrange(56, 64));
    lemma_le_u64_at(b, 56, p.catalog_stamp);
}

/// A valid book's code reads back as the book.
pub proof fn lemma_read_book_code(book: BookId)
    requires
        book.is_valid(),
    ensures
        spec_read_book(book.code()) == Ok::<BookId, DecodeError>(book),
{
    book.lemma_code_ascii();
    book.lemma_code(book);
    let c = book_of_code(book.code());
    assert(c.is_valid() && c.code() == book.code());
    book.lemma_code(c);
}

/// The flag byte a section variant writes is one its kind accepts, and it
/// claims positional ids only for a token section that has them.
proof fn lemma_variant_flags(v: SectionVariant)
    ensures
        v.spec_flags() & !v.spec_kind().spec_known_section_flags() == 0,
        (v.spec_kind() == SectionKind::Token && v.spec_flags() & SECTION_FLAG_POSITIONAL_IDS != 0)
            ==> v == (SectionVariant::Token { positional_ids: true }),
{
    let f = v.spec_flags();
    assert((f == 0 || f == 1) ==> (f & !1u8 == 0 && f & !0u8 == f && ((f & 1u8 != 0) == (f == 1))))
        by (bit_vector);
}

/// The bytes a written section's checksum covers are the bytes written with
/// the checksum field zero.
proof fn lemma_written_checksum_input(p: SectionPayload<'_>, n: u16, len: u64, cks: u64, body: Seq<u8>)
    ensures
        checksum_input(section_header_bytes(p, n, len, cks) + body, SECTION_CHECKSUM_OFFSET as int)
            == section_header_bytes(p, n, len, 0) + body,
{
    let b = section_header_bytes(p, n, len, cks) + body;
    let z = section_header_bytes(p, n, len, 0);
    lemma_u64_zero_bytes();
    assert(b.len() >= 48);
    assert(checksum_input(b, 40) =~= z + body);
}

/// The bytes of a section the writer accepted: header, directory, payloads.
pub open spec fn written_section_bytes(p: SectionPayload<'_>) -> Seq<u8> {
    let s = sort_by_id(p.fields@);
    let kind = p.variant.spec_kind();
    let n = s.len();
    let start = SECTION_HEADER_LEN + DIRECTORY_ENTRY_LEN * n;
    let len = end_pos(s, n, start);
    let body = dir_bytes(kind, s, n, start) + payload_bytes(s, n, start);
    let cks = xxh3_64_hash(section_header_bytes(p, n as u16, len as u64, 0) + body);
    section_header_bytes(p, n as u16, len as u64, cks) + body
}

/// A section the writer accepted is laid out as its specification says.
proof fn lemma_written_section_layout(p: SectionPayload<'_>)
    requires
        spec_write_section(p) is Ok,
    ensures
        spec_write_section(p) == Ok::<Seq<u8>, EncodeError>(written_section_bytes(p)),
        laid_out(p.variant.spec_kind(), sort_by_id(p.fields@)),
        holds_layout(written_section_bytes(p), p.variant.spec_kind(), sort_by_id(p.fields@)),
        sort_by_id(p.fields@).len() <= u16::MAX,
        field_refusal(p.variant, sort_by_id(p.fields@)) is None,
        written_section_bytes(p).subrange(0, SECTION_HEADER_LEN as int) == section_header_bytes(
            p,
            sort_by_id(p.fields@).len() as u16,
            written_section_bytes(p).len() as u64,
            le_u64(written_section_bytes(p), 40),
        ),
        le_u64(written_section_bytes(p), 40) == xxh3_64_hash(section_header_bytes(
            p,
            sort_by_id(p.fields@).len() as u16,
            written_section_bytes(p).len() as u64,
            0,
        ) + written_section_bytes(p).subrange(
            SECTION_HEADER_LEN as int,
            written_section_bytes(p).len() as int,
        )),
        checksum_input(written_section_bytes(p), SECTION_CHECKSUM_OFFSET as int)
            == section_header_bytes(
            p,
            sort_by_id(p.fields@).len() as u16,
            written_section_bytes(p).len() as u64,
            0,
        ) + written_section_bytes(p).subrange(
            SECTION_HEADER_LEN as int,
            written_section_bytes(p).len() as int,
        ),
{
    reveal(spec_write_section);
    let s = sort_by_id(p.fields@);
    let kind = p.variant.spec_kind();
    let n = s.len();
    let start = SECTION_HEADER_LEN + DIRECTORY_ENTRY_LEN * n;
    let len = end_pos(s, n, start);
    let dir = dir_bytes(kind, s, n, start);
    let payload = payload_bytes(s, n, start);
    let body = dir + payload;
    let cks = xxh3_64_hash(section_header_bytes(p, n as u16, len as u64, 0) + body);
    let h = section_header_bytes(p, n as u16, len as u64, cks);
    let b = h + body;
    lemma_sort_by_id(p.fields@);
    lemma_strictly_ascending(s);
    lemma_no_extent_mismatch(kind, s, 0);
    lemma_dir_bytes(kind, s, n, start);
    lemma_payload_bytes(s, n, start);
    lemma_end_pos_monotone(s, 0, n, start);
    assert(h.len() == 64);
    assert(b.len() == len);
    assert(b.subrange(0, 64) =~= h);
    assert(b.subrange(64, start) =~= dir);
    assert(b.subrange(start, b.len() as int) =~= payload);
    assert(b.len() >= 64);
    assert(h.subrange(40, 48) =~= u64_bytes(cks));
    assert(b.subrange(40, 48) =~= h.subrange(40, 48));
    lemma_le_u64_at(b, 40, cks);
    assert(b.subrange(64, b.len() as int) =~= body);
    lemma_written_checksum_input(p, n as u16, len as u64, cks, body);
}

/// A written section header reads back as what was written.
proof fn lemma_read_written_header(p: SectionPayload<'_>, b: Seq<u8>, n: u16, cks: u64)
    requires
        p.book.is_valid(),
        b.len() >= SECTION_HEADER_LEN + DIRECTORY_ENTRY_LEN * n,
        b.len() <= u32::MAX,
        b.subrange(0, SECTION_HEADER_LEN as int) == section_header_bytes(p, n, b.len() as u64, cks),
    ensures
        spec_section_header(b, None) == Ok::<(SectionHeader, u16), DecodeError>(
            (written_section_header(p, b.len() as u64, cks), n),
        ),
{
    lemma_section_header_bytes(b, p, n, b.len() as u64, cks);
    lemma_read_book_code(p.book);
    lemma_variant_flags(p.variant);
}

/// Writing a section and reading it back: the reader accepts the bytes the
/// writer produced, recovers the header that was written, finds the checksum
/// to be the hash of the bytes with the checksum field zero, and hands back
/// the known fields in ascending id order with their payloads as written.
#[verifier::rlimit(60)]
pub proof fn law_section_round_trip(p: SectionPayload<'_>)
    requires
        p.book.is_valid(),
        spec_write_section(p) is Ok,
    ensures
        ({
            let b = spec_write_section(p)->Ok_0;
            let s = sort_by_id(p.fields@);
            let header = written_section_header(p, b.len() as u64, le_u64(b, 40));
            &&& b.len() <= u32::MAX
            &&& spec_section_header(b, None) == Ok::<(SectionHeader, u16), DecodeError>(
                (header, s.len() as u16),
            )
            &&& header.checksum == xxh3_64_hash(checksum_input(b, SECTION_CHECKSUM_OFFSET as int))
            &&& spec_validate_checksum(b, SECTION_CHECKSUM_OFFSET as int, header.checksum, true)
                == Ok::<(), DecodeError>(())
            &&& spec_directory(b, header, s.len() as u16) == Ok::<Seq<SpecField>, DecodeError>(
                written_fields(header.kind, s, s.len()),
            )
            &&& header.checksum != CHECKSUM_OMITTED ==> spec_inspect_section(b)
                == Ok::<SectionHeader, DecodeError>(header)
        }),
{
    lemma_written_section_layout(p);
    let b = written_section_bytes(p);
    let s = sort_by_id(p.fields@);
    let kind = p.variant.spec_kind();
    let n = s.len();
    let cks = le_u64(b, 40);
    let header = written_section_header(p, b.len() as u64, cks);
    lemma_end_pos_monotone(s, 0, n, SECTION_HEADER_LEN + DIRECTORY_ENTRY_LEN * n);
    lemma_read_written_header(p, b, n as u16, cks);
    lemma_variant_flags(p.variant);
    lemma_read_written_directory(b, header, s);
    assert(b.len() <= u32::MAX);
    assert(spec_section_header(b, None) == Ok::<(SectionHeader, u16), DecodeError>((header, n as u16)));
    assert(header.checksum == xxh3_64_hash(checksum_input(b, SECTION_CHECKSUM_OFFSET as int)));
    assert(spec_validate_checksum(b, SECTION_CHECKSUM_OFFSET as int, header.checksum, true) == Ok::<(), DecodeError>(()));
    assert(spec_directory(b, header, n as u16) == Ok::<Seq<SpecField>, DecodeError>(written_fields(header.kind, s, n)));
}

// ------------------------------------------------------------ reading a written container

/// The TOC laid out for the first `k` ordered sections.
pub open spec fn laid_toc<'a>(ordered: Seq<ContainerSection<'a>>, k: nat, base: int) -> Seq<u8> {
    lay_out(ordered, k, base)->Ok_0.0
}

/// The body laid out for the first `k` ordered sections.
pub open spec fn laid_body<'a>(ordered: Seq<ContainerSection<'a>>, k: nat, base: int) -> Seq<u8> {
    lay_out(ordered, k, base)->Ok_0.1
}

/// A section's encoded bytes.
pub open spec fn encoded_of(c: ContainerSection<'_>) -> Seq<u8> {
    c.spec_encoded()->Ok_0
}

/// Where section `j` starts, relative to the first section.
pub open spec fn section_at<'a>(ordered: Seq<ContainerSection<'a>>, j: nat, base: int) -> int {
    laid_body(ordered, j, base).len() as int
}

/// Laying out one more section keeps what was laid out before it.
proof fn lemma_lay_out_step<'a>(ordered: Seq<ContainerSection<'a>>, k: nat, base: int)
    requires
        lay_out(ordered, k, base) is Ok,
        k > 0,
        base >= 0,
    ensures
        lay_out(ordered, (k - 1) as nat, base) is Ok,
        ordered[k - 1].spec_encoded() is Ok,
        base + section_at(ordered, (k - 1) as nat, base) + encoded_of(ordered[k - 1]).len() <= usize::MAX,
        laid_toc(ordered, k, base) == laid_toc(ordered, (k - 1) as nat, base) + toc_entry_bytes(
            ordered[k - 1],
            base + section_at(ordered, (k - 1) as nat, base),
            encoded_of(ordered[k - 1]).len() as int,
        ),
        laid_body(ordered, k, base) == laid_body(ordered, (k - 1) as nat, base) + encoded_of(ordered[k - 1])
            + zeros(padding(base + section_at(ordered, (k - 1) as nat, base) + encoded_of(ordered[k - 1]).len(), SECTION_ALIGN as int)),
{
}

/// Section `j` of a laid-out container encodes, fits, and sits where its
/// TOC entry says, in every longer layout.
#[verifier::rlimit(60)]
proof fn lemma_lay_out_at<'a>(ordered: Seq<ContainerSection<'a>>, k: nat, base: int, j: nat)
    requires
        lay_out(ordered, k, base) is Ok,
        j < k,
        base >= 0,
    ensures
        lay_out(ordered, j, base) is Ok,
        lay_out(ordered, j + 1, base) is Ok,
        ordered[j as int].spec_encoded() is Ok,
        base + section_at(ordered, j, base) + encoded_of(ordered[j as int]).len() <= usize::MAX,
        section_at(ordered, j, base) + encoded_of(ordered[j as int]).len() <= section_at(ordered, j + 1, base),
        section_at(ordered, j + 1, base) <= section_at(ordered, k, base),
        laid_body(ordered, k, base).subrange(
            section_at(ordered, j, base),
            section_at(ordered, j, base) + encoded_of(ordered[j as int]).len(),
        ) == encoded_of(ordered[j as int]),
        laid_toc(ordered, k, base).len() >= 32 * j + 32,
        laid_toc(ordered, k, base).subrange(32 * j as int, 32 * j + 32int) == toc_entry_bytes(
            ordered[j as int],
            base + section_at(ordered, j, base),
            encoded_of(ordered[j as int]).len() as int,
        ),
    decreases k,
{
    lemma_lay_out_step(ordered, k, base);
    lemma_lay_out_toc_len(ordered, (k - 1) as nat, base);
    let m = (k - 1) as nat;
    if j < m {
        lemma_lay_out_at(ordered, m, base, j);
        let at = section_at(ordered, j, base);
        let len = encoded_of(ordered[j as int]).len();
        assert(laid_body(ordered, k, base).subrange(at, at + len) =~= laid_body(ordered, m, base).subrange(at, at + len));
        assert(laid_toc(ordered, k, base).subrange(32 * j as int, 32 * j + 32int) =~= laid_toc(ordered, m, base).subrange(32 * j as int, 32 * j + 32int));
    } else {
        let at = section_at(ordered, j, base);
        let len = encoded_of(ordered[j as int]).len();
        assert(laid_body(ordered, k, base).subrange(at, at + len) =~= encoded_of(ordered[j as int]));
        assert(laid_toc(ordered, k, base).subrange(32 * j as int, 32 * j + 32int) =~= toc_entry_bytes(
            ordered[j as int],
            base + at,
            len as int,
        ));
    }
}

/// Every section of a laid-out container starts on the 16-byte grid.
proof fn lemma_lay_out_aligned<'a>(ordered: Seq<ContainerSection<'a>>, k: nat, base: int)
    requires
        lay_out(ordered, k, base) is Ok,
        base >= 0,
        base % 16 == 0,
    ensures
        (base + section_at(ordered, k, base)) % 16 == 0,
    decreases k,
{
    if k > 0 {
        lemma_lay_out_step(ordered, k, base);
        let m = (k - 1) as nat;
        lemma_padding(base + section_at(ordered, m, base) + encoded_of(ordered[m as int]).len(), 16);
    }
}

// ------------------------------------------------------------ canonical section order

/// Two sections share a `(kind, book)` key.
pub open spec fn same_key(a: ContainerSection<'_>, b: ContainerSection<'_>) -> bool {
    a.spec_kind() == b.spec_kind() && a.spec_book() == b.spec_book()
}

/// No least duplicated key means no duplicated key at all.
proof fn lemma_no_dup_key<'a>(ss: Seq<ContainerSection<'a>>, n: nat)
    requires
        n <= ss.len(),
        least_dup_key(ss, n) is None,
    ensures
        forall|i: int| 0 <= i < n ==> !dup_at(ss, i),
    decreases n,
{
    if n > 0 {
        lemma_no_dup_key(ss, (n - 1) as nat);
    }
}

/// Every section of one kind, in caller order, comes from the input.
proof fn lemma_of_kind_members<'a>(ss: Seq<ContainerSection<'a>>, kind: SectionKind, n: nat)
    requires
        n <= ss.len(),
    ensures
        forall|a: int|
            #![trigger of_kind(ss, kind, n)[a]]
            0 <= a < of_kind(ss, kind, n).len() ==> exists|i: int|
                0 <= i < n && of_kind(ss, kind, n)[a] == #[trigger] ss[i] && ss[i].spec_kind() == kind,
    decreases n,
{
    if n > 0 {
        lemma_of_kind_members(ss, kind, (n - 1) as nat);
        let prev = of_kind(ss, kind, (n - 1) as nat);
        let cur = of_kind(ss, kind, n);
        assert forall|a: int| #![trigger cur[a]] 0 <= a < cur.len() implies exists|i: int|
            0 <= i < n && cur[a] == #[trigger] ss[i] && ss[i].spec_kind() == kind by {
            if a < prev.len() {
                assert(cur[a] == prev[a]);
                assert(exists|i: int| 0 <= i < n - 1 && prev[a] == #[trigger] ss[i] && ss[i].spec_kind() == kind);
                let i = choose|i: int| 0 <= i < n - 1 && prev[a] == #[trigger] ss[i] && ss[i].spec_kind() == kind;
                assert(cur[a] == ss[i]);
                assert(0 <= i < n && cur[a] == ss[i] && ss[i].spec_kind() == kind);
            } else {
                assert(cur[a] == ss[n - 1]);
                assert(ss[n - 1].spec_kind() == kind);
            }
        }
        assert(cur == of_kind(ss, kind, n));
    }
}

/// Every section of one kind appears among that kind's sections.
proof fn lemma_of_kind_complete<'a>(ss: Seq<ContainerSection<'a>>, kind: SectionKind, n: nat, j: int)
    requires
        n <= ss.len(),
        0 <= j < n,
        ss[j].spec_kind() == kind,
    ensures
        exists|a: int| 0 <= a < of_kind(ss, kind, n).len() && of_kind(ss, kind, n)[a] == ss[j],
    decreases n,
{
    let cur = of_kind(ss, kind, n);
    if j == n - 1 {
        assert(cur[cur.len() - 1] == ss[j]);
    } else {
        lemma_of_kind_complete(ss, kind, (n - 1) as nat, j);
        let prev = of_kind(ss, kind, (n - 1) as nat);
        let a = choose|a: int| 0 <= a < prev.len() && prev[a] == ss[j];
        assert(cur[a] == prev[a]);
    }
}

/// Without duplicated keys in the input, one kind's sections share no key.
proof fn lemma_of_kind_distinct<'a>(ss: Seq<ContainerSection<'a>>, kind: SectionKind, n: nat)
    requires
        n <= ss.len(),
        forall|i: int| 0 <= i < ss.len() ==> !dup_at(ss, i),
    ensures
        forall|a: int, b: int|
            0 <= a < of_kind(ss, kind, n).len() && 0 <= b < of_kind(ss, kind, n).len() && a != b
                ==> !same_key(of_kind(ss, kind, n)[a], of_kind(ss, kind, n)[b]),
    decreases n,
{
    if n > 0 {
        let m = (n - 1) as nat;
        lemma_of_kind_distinct(ss, kind, m);
        lemma_of_kind_members(ss, kind, m);
        let prev = of_kind(ss, kind, m);
        let cur = of_kind(ss, kind, n);
        if ss[m as int].spec_kind() == kind {
            assert forall|a: int, b: int|
                0 <= a < cur.len() && 0 <= b < cur.len() && a != b implies !same_key(cur[a], cur[b]) by {
                if a < prev.len() && b < prev.len() {
                    assert(cur[a] == prev[a] && cur[b] == prev[b]);
                } else if a < prev.len() {
                    assert(cur[a] == prev[a]);
                    let i = choose|i: int| 0 <= i < m && prev[a] == #[trigger] ss[i] && ss[i].spec_kind() == kind;
                    assert(cur[b] == ss[m as int]);
                    assert(!dup_at(ss, m as int));
                    if same_key(cur[a], cur[b]) {
                        assert(ss[i].spec_kind() == ss[m as int].spec_kind() && ss[i].spec_book() == ss[m as int].spec_book());
                    }
                } else {
                    assert(cur[b] == prev[b]);
                    let i = choose|i: int| 0 <= i < m && prev[b] == #[trigger] ss[i] && ss[i].spec_kind() == kind;
                    assert(cur[a] == ss[m as int]);
                    assert(!dup_at(ss, m as int));
                    if same_key(cur[a], cur[b]) {
                        assert(ss[i].spec_kind() == ss[m as int].spec_kind() && ss[i].spec_book() == ss[m as int].spec_book());
                    }
                }
            }
        }
    }
}

/// No first orphan means no orphan.
proof fn lemma_no_orphan<'a>(ss: Seq<ContainerSection<'a>>, i: int)
    requires
        0 <= i,
        first_orphan_from(ss, i) is None,
    ensures
        forall|k: int| i <= k < ss.len() ==> !orphan_at(ss, k),
    decreases ss.len() - i,
{
    if i < ss.len() {
        lemma_no_orphan(ss, i + 1);
    }
}

// ------------------------------------------------------------ container header and TOC

/// The forty-eight container header bytes read back as the values written.
proof fn lemma_container_header_bytes(b: Seq<u8>, n: u32, snapshot_id: u64, cks: u64)
    requires
        b.len() >= CONTAINER_HEADER_LEN,
        b.subrange(0, CONTAINER_HEADER_LEN as int) == container_header_bytes(n, snapshot_id, cks),
    ensures
        spec_container_header(b) == Ok::<ContainerHeader, DecodeError>(
            ContainerHeader {
                format_version: FORMAT_VERSION,
                flags: CONTAINER_FLAGS_KNOWN,
                section_count: n,
                toc_offset: CONTAINER_HEADER_LEN as u64,
                checksum: cks,
                snapshot_id,
            },
        ),
{
    let h = container_header_bytes(n, snapshot_id, cks);
    assert(h.len() == 48);
    assert(h.subrange(0, 4) =~= container_magic());
    assert(b.subrange(0, 4) =~= h.subrange(0, 4));
    assert(b[0] == b.subrange(0, 4)[0] && b[1] == b.subrange(0, 4)[1] && b[2] == b.subrange(0, 4)[2]
        && b[3] == b.subrange(0, 4)[3]);
    assert(h.subrange(4, 6) =~= u16_bytes(FORMAT_VERSION));
    assert(b.subrange(4, 6) =~= h.subrange(4, 6));
    lemma_le_u16_at(b, 4, FORMAT_VERSION);
    assert(h.subrange(6, 8) =~= u16_bytes(CONTAINER_HEADER_LEN as u16));
    assert(b.subrange(6, 8) =~= h.subrange(6, 8));
    lemma_le_u16_at(b, 6, CONTAINER_HEADER_LEN as u16);
    assert(h.subrange(8, 12) =~= u32_bytes(CONTAINER_FLAGS_KNOWN));
    assert(b.subrange(8, 12) =~= h.subrange(8, 12));
    lemma_le_u32_at(b, 8, CONTAINER_FLAGS_KNOWN);
    assert(h.subrange(12, 16) =~= u32_bytes(n));
    assert(b.subrange(12, 16) =~= h.subrange(12, 16));
    lemma_le_u32_at(b, 12, n);
    assert(h.subrange(16, 24) =~= u64_bytes(CONTAINER_HEADER_LEN as u64));
    assert(b.subrange(16, 24) =~= h.subrange(16, 24));
    lemma_le_u64_at(b, 16, CONTAINER_HEADER_LEN as u64);
    assert(h.subrange(24, 32) =~= u64_bytes(cks));
    assert(b.subrange(24, 32) =~= h.subrange(24, 32));
    lemma_le_u64_at(b, 24, cks);
    assert(h.subrange(32, 40) =~= u64_bytes(snapshot_id));
    assert(b.subrange(32, 40) =~= h.subrange(32, 40));
    lemma_le_u64_at(b, 32, snapshot_id);
    assert(h.subrange(40, 48) =~= zeros(8));
    assert(b.subrange(40, 48) =~= h.subrange(40, 48));
    assert forall|k: int| 40 <= k < 48 implies #[trigger] b[k] == 0 by {
        assert(b.subrange(40, 48)[k - 40] == b[k]);
    }
    let f: u32 = 0;
    assert(f & !0u32 == 0) by (bit_vector)
        requires
            f == 0,
    ;
}

/// The TOC entry a reader recovers for a written section.
pub open spec fn written_toc_entry(c: ContainerSection<'_>, offset: int, len: int) -> TocEntry {
    TocEntry {
        kind: c.spec_kind(),
        book: c.spec_book(),
        section_version: SECTION_VERSION,
        flags: 0,
        offset: offset as u64,
        byte_len: len as u64,
        source_hash: c.spec_source_hash(),
    }
}

/// A written TOC entry reads back as what was written.
proof fn lemma_read_toc_entry(
    b: Seq<u8>,
    at: int,
    c: ContainerSection<'_>,
    offset: int,
    len: int,
    toc_offset: u64,
    toc_end: u64,
)
    requires
        0 <= at,
        at + 32 <= b.len(),
        b.subrange(at, at + 32) == toc_entry_bytes(c, offset, len),
        c.spec_book().is_valid(),
        offset % 16 == 0,
        toc_end <= offset,
        CONTAINER_HEADER_LEN <= offset,
        SECTION_HEADER_LEN <= len,
        offset + len <= b.len(),
        offset + len <= usize::MAX,
    ensures
        spec_toc_entry(b, at, toc_offset, toc_end) == Ok::<TocEntry, DecodeError>(
            written_toc_entry(c, offset, len),
        ),
{
    let e = toc_entry_bytes(c, offset, len);
    assert(b[at] == e[0]);
    assert(e.subrange(1, 4) =~= c.spec_book().code());
    assert(b.subrange(at + 1, at + 4) =~= e.subrange(1, 4));
    lemma_read_book_code(c.spec_book());
    assert(e.subrange(4, 6) =~= u16_bytes(SECTION_VERSION));
    assert(b.subrange(at + 4, at + 6) =~= e.subrange(4, 6));
    lemma_le_u16_at(b, at + 4, SECTION_VERSION);
    assert(e.subrange(6, 8) =~= u16_bytes(0));
    assert(b.subrange(at + 6, at + 8) =~= e.subrange(6, 8));
    lemma_le_u16_at(b, at + 6, 0);
    assert(e.subrange(8, 16) =~= u64_bytes(offset as u64));
    assert(b.subrange(at + 8, at + 16) =~= e.subrange(8, 16));
    lemma_le_u64_at(b, at + 8, offset as u64);
    assert(e.subrange(16, 24) =~= u64_bytes(len as u64));
    assert(b.subrange(at + 16, at + 24) =~= e.subrange(16, 24));
    lemma_le_u64_at(b, at + 16, len as u64);
    assert(e.subrange(24, 32) =~= u64_bytes(c.spec_source_hash()));
    assert(b.subrange(at + 24, at + 32) =~= e.subrange(24, 32));
    lemma_le_u64_at(b, at + 24, c.spec_source_hash());
    let f: u16 = 0;
    assert(f & !0u16 == 0) by (bit_vector)
        requires
            f == 0,
    ;
}

/// What the canonical order guarantees: it is the input's token sections,
/// then its finding sections, each in caller order; no two sections share a
/// `(kind, book)` key; every finding section has its token section.
proof fn lemma_canonical_facts<'a>(ss: Seq<ContainerSection<'a>>)
    requires
        spec_canonical_order(ss) is Ok,
    ensures
        ({
            let ordered = spec_canonical_order(ss)->Ok_0;
            &&& ordered == of_kind(ss, SectionKind::Token, ss.len()) + of_kind(
                ss,
                SectionKind::Finding,
                ss.len(),
            )
            &&& forall|a: int| #![trigger ordered[a]]
                0 <= a < ordered.len() ==> exists|i: int| 0 <= i < ss.len() && ordered[a] == #[trigger] ss[i]
            &&& forall|a: int, b: int|
                0 <= a < ordered.len() && 0 <= b < ordered.len() && a != b ==> !same_key(
                    #[trigger] ordered[a],
                    #[trigger] ordered[b],
                )
            &&& forall|a: int|
                0 <= a < ordered.len() && (#[trigger] ordered[a]).spec_kind() == SectionKind::Finding
                    ==> exists|b: int|
                    0 <= b < ordered.len() && ordered[b].spec_kind() == SectionKind::Token
                        && ordered[b].spec_book() == ordered[a].spec_book()
                        && (#[trigger] ordered[b]).spec_source_hash() == ordered[a].spec_source_hash()
        }),
{
    reveal(spec_canonical_order);
    let n = ss.len();
    let tokens = of_kind(ss, SectionKind::Token, n);
    let findings = of_kind(ss, SectionKind::Finding, n);
    let ordered = tokens + findings;
    assert(spec_canonical_order(ss)->Ok_0 == ordered);
    lemma_no_dup_key(ss, n);
    lemma_no_orphan(ss, 0);
    lemma_of_kind_members(ss, SectionKind::Token, n);
    lemma_of_kind_members(ss, SectionKind::Finding, n);
    lemma_of_kind_distinct(ss, SectionKind::Token, n);
    lemma_of_kind_distinct(ss, SectionKind::Finding, n);
    assert forall|a: int| #![trigger ordered[a]] 0 <= a < ordered.len() implies exists|i: int|
        0 <= i < ss.len() && ordered[a] == #[trigger] ss[i] by {
        if a < tokens.len() {
            assert(ordered[a] == tokens[a]);
            let i = choose|i: int| 0 <= i < n && tokens[a] == #[trigger] ss[i] && ss[i].spec_kind() == SectionKind::Token;
            assert(ordered[a] == ss[i]);
        } else {
            assert(ordered[a] == findings[a - tokens.len()]);
            let i = choose|i: int| 0 <= i < n && findings[a - tokens.len()] == #[trigger] ss[i] && ss[i].spec_kind() == SectionKind::Finding;
            assert(ordered[a] == ss[i]);
        }
    }
    assert forall|a: int, b: int|
        0 <= a < ordered.len() && 0 <= b < ordered.len() && a != b implies !same_key(
        #[trigger] ordered[a],
        #[trigger] ordered[b],
    ) by {
        if a < tokens.len() && b < tokens.len() {
            assert(ordered[a] == tokens[a] && ordered[b] == tokens[b]);
        } else if a >= tokens.len() && b >= tokens.len() {
            assert(ordered[a] == findings[a - tokens.len()] && ordered[b] == findings[b - tokens.len()]);
        } else if a < tokens.len() {
            let i = choose|i: int| 0 <= i < n && tokens[a] == #[trigger] ss[i] && ss[i].spec_kind() == SectionKind::Token;
            let j = choose|j: int| 0 <= j < n && findings[b - tokens.len()] == #[trigger] ss[j] && ss[j].spec_kind() == SectionKind::Finding;
            assert(ordered[a] == ss[i] && ordered[b] == ss[j]);
        } else {
            let i = choose|i: int| 0 <= i < n && tokens[b] == #[trigger] ss[i] && ss[i].spec_kind() == SectionKind::Token;
            let j = choose|j: int| 0 <= j < n && findings[a - tokens.len()] == #[trigger] ss[j] && ss[j].spec_kind() == SectionKind::Finding;
            assert(ordered[b] == ss[i] && ordered[a] == ss[j]);
        }
    }
    assert forall|a: int|
        0 <= a < ordered.len() && (#[trigger] ordered[a]).spec_kind() == SectionKind::Finding implies exists|b: int|
        0 <= b < ordered.len() && ordered[b].spec_kind() == SectionKind::Token
            && ordered[b].spec_book() == ordered[a].spec_book()
            && (#[trigger] ordered[b]).spec_source_hash() == ordered[a].spec_source_hash() by {
        let i = choose|i: int| 0 <= i < ss.len() && ordered[a] == #[trigger] ss[i];
        assert(!orphan_at(ss, i));
        let j = choose|j: int| 0 <= j < ss.len() && #[trigger] token_pair(ss, i, j);
        lemma_of_kind_complete(ss, SectionKind::Token, n, j);
        let t = choose|t: int| 0 <= t < tokens.len() && tokens[t] == ss[j];
        assert(ordered[t] == tokens[t]);
    }
}

/// Where the first section of a container of `n` sections starts: past the
/// header and TOC, on the 16-byte grid.
pub open spec fn sections_base(n: int) -> int {
    aligned(CONTAINER_HEADER_LEN + TOC_ENTRY_LEN * n, SECTION_ALIGN as int)
}

/// The TOC a reader recovers from a written container.
pub open spec fn written_toc<'a>(ordered: Seq<ContainerSection<'a>>, base: int) -> Seq<TocEntry> {
    Seq::new(
        ordered.len(),
        |k: int|
            written_toc_entry(
                ordered[k],
                base + section_at(ordered, k as nat, base),
                encoded_of(ordered[k]).len() as int,
            ),
    )
}

/// Container bytes that hold a laid-out TOC and body where the writer puts
/// them.
pub open spec fn holds_container<'a>(b: Seq<u8>, ordered: Seq<ContainerSection<'a>>, base: int) -> bool {
    let n = ordered.len();
    let toc_end = CONTAINER_HEADER_LEN + TOC_ENTRY_LEN * n;
    &&& lay_out(ordered, n, base) is Ok
    &&& base % 16 == 0
    &&& toc_end <= base <= usize::MAX
    &&& b.len() == base + laid_body(ordered, n, base).len()
    &&& b.subrange(CONTAINER_HEADER_LEN as int, toc_end) == laid_toc(ordered, n, base)
    &&& b.subrange(base, b.len() as int) == laid_body(ordered, n, base)
    &&& forall|k: int|
        0 <= k < n ==> (#[trigger] ordered[k]).spec_book().is_valid() && encoded_of(ordered[k]).len()
            >= SECTION_HEADER_LEN
}

/// Section `k` of a written container sits where its TOC entry says.
proof fn lemma_written_section_place<'a>(b: Seq<u8>, ordered: Seq<ContainerSection<'a>>, base: int, k: int)
    requires
        holds_container(b, ordered, base),
        0 <= k < ordered.len(),
    ensures
        ({
            let offset = base + section_at(ordered, k as nat, base);
            let len = encoded_of(ordered[k]).len() as int;
            &&& offset % 16 == 0
            &&& offset + len <= b.len()
            &&& offset + len <= usize::MAX
            &&& base <= offset
            &&& b.subrange(offset, offset + len) == encoded_of(ordered[k])
            &&& ordered[k].spec_encoded() is Ok
        }),
{
    let n = ordered.len();
    lemma_lay_out_at(ordered, n, base, k as nat);
    lemma_lay_out_aligned(ordered, k as nat, base);
    let at = section_at(ordered, k as nat, base);
    let len = encoded_of(ordered[k]).len() as int;
    assert(b.subrange(base + at, base + at + len) =~= b.subrange(base, b.len() as int).subrange(at, at + len));
}

/// A written TOC reads back entry by entry.
#[verifier::rlimit(60)]
proof fn lemma_read_written_toc_entries<'a>(b: Seq<u8>, ordered: Seq<ContainerSection<'a>>, base: int, i: nat)
    requires
        holds_container(b, ordered, base),
        i <= ordered.len(),
    ensures
        spec_toc_entries(
            b,
            CONTAINER_HEADER_LEN as u64,
            (CONTAINER_HEADER_LEN + TOC_ENTRY_LEN * ordered.len()) as u64,
            i,
        ) == Ok::<Seq<TocEntry>, DecodeError>(written_toc(ordered, base).take(i as int)),
    decreases i,
{
    let n = ordered.len();
    let toc_end = CONTAINER_HEADER_LEN + TOC_ENTRY_LEN * n;
    let t = written_toc(ordered, base);
    if i == 0 {
        assert(t.take(0) =~= Seq::<TocEntry>::empty());
    } else {
        let k = i - 1;
        lemma_read_written_toc_entries(b, ordered, base, k as nat);
        lemma_written_section_place(b, ordered, base, k);
        lemma_lay_out_at(ordered, n, base, k as nat);
        let at = CONTAINER_HEADER_LEN + TOC_ENTRY_LEN * k;
        assert(b.subrange(at, at + 32) =~= b.subrange(CONTAINER_HEADER_LEN as int, toc_end).subrange(
            32 * k,
            32 * k + 32,
        ));
        lemma_read_toc_entry(
            b,
            at,
            ordered[k],
            base + section_at(ordered, k as nat, base),
            encoded_of(ordered[k]).len() as int,
            CONTAINER_HEADER_LEN as u64,
            toc_end as u64,
        );
        assert(t.take(k).push(t[k]) =~= t.take(i as int));
    }
}

/// Two written sections occupy disjoint byte ranges.
proof fn lemma_written_ranges_disjoint<'a>(ordered: Seq<ContainerSection<'a>>, base: int, i: int, j: int)
    requires
        lay_out(ordered, ordered.len(), base) is Ok,
        base >= 0,
        0 <= i < j < ordered.len(),
    ensures
        base + section_at(ordered, i as nat, base) + encoded_of(ordered[i]).len() <= base + section_at(
            ordered,
            j as nat,
            base,
        ),
        base + section_at(ordered, j as nat, base) + encoded_of(ordered[j]).len() <= usize::MAX,
        base + section_at(ordered, i as nat, base) + encoded_of(ordered[i]).len() <= usize::MAX,
{
    let n = ordered.len();
    lemma_lay_out_at(ordered, n, base, i as nat);
    lemma_lay_out_at(ordered, n, base, j as nat);
    lemma_lay_out_at(ordered, j as nat, base, i as nat);
}

/// Two written TOC entries neither overlap nor share a key.
proof fn lemma_written_toc_pair<'a>(ordered: Seq<ContainerSection<'a>>, base: int, i: int, j: int)
    requires
        lay_out(ordered, ordered.len(), base) is Ok,
        base >= 0,
        0 <= i < ordered.len(),
        0 <= j < ordered.len(),
        i != j,
        !same_key(ordered[i], ordered[j]),
    ensures
        toc_pair_ok(written_toc(ordered, base), i, j),
{
    let t = written_toc(ordered, base);
    if i < j {
        lemma_written_ranges_disjoint(ordered, base, i, j);
    } else {
        lemma_written_ranges_disjoint(ordered, base, j, i);
    }
    assert(t[i] == written_toc_entry(ordered[i], base + section_at(ordered, i as nat, base), encoded_of(ordered[i]).len() as int));
    assert(t[j] == written_toc_entry(ordered[j], base + section_at(ordered, j as nat, base), encoded_of(ordered[j]).len() as int));
}

/// A written TOC keeps the cross-entry rules.
proof fn lemma_written_toc_consistent<'a>(ordered: Seq<ContainerSection<'a>>, base: int)
    requires
        lay_out(ordered, ordered.len(), base) is Ok,
        base >= 0,
        forall|a: int, b: int|
            0 <= a < ordered.len() && 0 <= b < ordered.len() && a != b ==> !same_key(
                #[trigger] ordered[a],
                #[trigger] ordered[b],
            ),
        forall|a: int|
            0 <= a < ordered.len() && (#[trigger] ordered[a]).spec_kind() == SectionKind::Finding
                ==> exists|b: int|
                0 <= b < ordered.len() && ordered[b].spec_kind() == SectionKind::Token
                    && ordered[b].spec_book() == ordered[a].spec_book()
                    && (#[trigger] ordered[b]).spec_source_hash() == ordered[a].spec_source_hash(),
    ensures
        toc_consistent(written_toc(ordered, base)),
{
    reveal(toc_consistent);
    let t = written_toc(ordered, base);
    assert forall|i: int, j: int| 0 <= i < t.len() && 0 <= j < t.len() && i != j implies #[trigger] toc_pair_ok(t, i, j) by {
        lemma_written_toc_pair(ordered, base, i, j);
    }
    assert forall|i: int| 0 <= i < t.len() implies #[trigger] toc_finding_ok(t, i) by {
        if t[i].kind == SectionKind::Finding {
            assert(ordered[i].spec_kind() == SectionKind::Finding);
            let b = choose|b: int|
                0 <= b < ordered.len() && ordered[b].spec_kind() == SectionKind::Token
                    && ordered[b].spec_book() == ordered[i].spec_book()
                    && (#[trigger] ordered[b]).spec_source_hash() == ordered[i].spec_source_hash();
            assert(pairs_with(t, i, b));
        }
    }
}

/// The section a reader recovers from a written one: the header that was
/// written and its known fields in ascending id order.
pub open spec fn read_back(p: SectionPayload<'_>) -> SpecSection {
    let b = spec_write_section(p)->Ok_0;
    let s = sort_by_id(p.fields@);
    SpecSection {
        header: written_section_header(p, b.len() as u64, le_u64(b, 40)),
        fields: written_fields(p.variant.spec_kind(), s, s.len()),
    }
}

/// A freshly written section of a written container reads back through its
/// TOC entry.
proof fn lemma_read_written_container_section<'a>(
    b: Seq<u8>,
    ordered: Seq<ContainerSection<'a>>,
    base: int,
    k: int,
    p: SectionPayload<'a>,
)
    requires
        holds_container(b, ordered, base),
        0 <= k < ordered.len(),
        ordered[k] == ContainerSection::Fresh(&p),
    ensures
        spec_read_section(b, written_toc(ordered, base)[k], true) == Ok::<SpecSection, DecodeError>(
            read_back(p),
        ),
        read_back(p).header.checksum != CHECKSUM_OMITTED ==> spec_read_section(
            b,
            written_toc(ordered, base)[k],
            false,
        ) == Ok::<SpecSection, DecodeError>(read_back(p)),
{
    lemma_written_section_place(b, ordered, base, k);
    assert(ordered[k].spec_book().is_valid());
    law_section_round_trip(p);
    let sb = spec_write_section(p)->Ok_0;
    let entry = written_toc(ordered, base)[k];
    assert(entry == written_toc_entry(ordered[k], base + section_at(ordered, k as nat, base), encoded_of(ordered[k]).len() as int));
    assert(spec_window(b, entry.offset as int, entry.byte_len as int) == Ok::<Seq<u8>, DecodeError>(sb));
    let header = written_section_header(p, sb.len() as u64, le_u64(sb, 40));
    assert(header_matches_entry(header, entry));
}

/// The bytes a written container's checksum covers are the bytes written
/// with the checksum field zero.
proof fn lemma_container_checksum_input(n: u32, snapshot_id: u64, cks: u64, rest: Seq<u8>)
    ensures
        checksum_input(container_header_bytes(n, snapshot_id, cks) + rest, CONTAINER_CHECKSUM_OFFSET as int)
            == container_header_bytes(n, snapshot_id, 0) + rest,
{
    let b = container_header_bytes(n, snapshot_id, cks) + rest;
    let z = container_header_bytes(n, snapshot_id, 0);
    lemma_u64_zero_bytes();
    assert(b.len() >= 32);
    assert(checksum_input(b, 24) =~= z + rest);
}

/// The bytes of a container the writer accepted, over its ordered sections.
pub open spec fn written_container_bytes<'a>(snapshot_id: u64, ordered: Seq<ContainerSection<'a>>) -> Seq<u8> {
    let n = ordered.len();
    let toc_end = CONTAINER_HEADER_LEN + TOC_ENTRY_LEN * n;
    let base = sections_base(n as int);
    let rest = laid_toc(ordered, n, base) + zeros(base - toc_end) + laid_body(ordered, n, base);
    container_header_bytes(
        n as u32,
        snapshot_id,
        xxh3_64_hash(container_header_bytes(n as u32, snapshot_id, 0) + rest),
    ) + rest
}

/// The header a reader recovers from a written container.
pub open spec fn written_container_header(n: nat, snapshot_id: u64, checksum: u64) -> ContainerHeader {
    ContainerHeader {
        format_version: FORMAT_VERSION,
        flags: CONTAINER_FLAGS_KNOWN,
        section_count: n as u32,
        toc_offset: CONTAINER_HEADER_LEN as u64,
        checksum,
        snapshot_id,
    }
}

/// A container the writer accepted is laid out as its specification says.
#[verifier::rlimit(100)]
proof fn lemma_written_container_layout<'a>(snapshot_id: u64, payloads: Seq<SectionPayload<'a>>)
    requires
        forall|i: int| 0 <= i < payloads.len() ==> (#[trigger] payloads[i]).book.is_valid(),
        spec_write_container(snapshot_id, payloads) is Ok,
    ensures
        ({
            let fresh = fresh_sections(payloads);
            let ordered = spec_canonical_order(fresh)->Ok_0;
            let bytes = written_container_bytes(snapshot_id, ordered);
            &&& spec_canonical_order(fresh) is Ok
            &&& spec_write_container(snapshot_id, payloads) == Ok::<Seq<u8>, EncodeError>(bytes)
            &&& ordered.len() <= u32::MAX
            &&& holds_container(bytes, ordered, sections_base(ordered.len() as int))
            &&& bytes.subrange(0, CONTAINER_HEADER_LEN as int) == container_header_bytes(
                ordered.len() as u32,
                snapshot_id,
                le_u64(bytes, CONTAINER_CHECKSUM_OFFSET as int),
            )
            &&& checksum_input(bytes, CONTAINER_CHECKSUM_OFFSET as int) == container_header_bytes(
                ordered.len() as u32,
                snapshot_id,
                0,
            ) + bytes.subrange(CONTAINER_HEADER_LEN as int, bytes.len() as int)
            &&& le_u64(bytes, CONTAINER_CHECKSUM_OFFSET as int) == xxh3_64_hash(
                container_header_bytes(ordered.len() as u32, snapshot_id, 0) + bytes.subrange(
                    CONTAINER_HEADER_LEN as int,
                    bytes.len() as int,
                ),
            )
            &&& forall|k: int|
                0 <= k < ordered.len() ==> exists|i: int|
                    0 <= i < payloads.len() && #[trigger] ordered[k] == ContainerSection::Fresh(
                        &payloads[i],
                    )
        }),
{
    let fresh = fresh_sections(payloads);
    lemma_canonical_facts(fresh);
    let ordered = spec_canonical_order(fresh)->Ok_0;
    let n = ordered.len();
    let toc_end = CONTAINER_HEADER_LEN + TOC_ENTRY_LEN * n;
    let base = sections_base(n as int);
    let toc_bytes = laid_toc(ordered, n, base);
    let body = laid_body(ordered, n, base);
    let rest = toc_bytes + zeros(base - toc_end) + body;
    let cks = xxh3_64_hash(container_header_bytes(n as u32, snapshot_id, 0) + rest);
    let bytes = container_header_bytes(n as u32, snapshot_id, cks) + rest;
    assert(bytes == written_container_bytes(snapshot_id, ordered));
    assert(spec_write_container(snapshot_id, payloads) == Ok::<Seq<u8>, EncodeError>(bytes));
    lemma_padding(toc_end, 16);
    lemma_lay_out_toc_len(ordered, n, base);
    assert forall|k: int| 0 <= k < n implies exists|i: int|
        0 <= i < payloads.len() && #[trigger] ordered[k] == ContainerSection::Fresh(&payloads[i]) by {
        let i = choose|i: int| 0 <= i < fresh.len() && ordered[k] == #[trigger] fresh[i];
        assert(fresh[i] == ContainerSection::Fresh(&payloads[i]));
    }
    assert forall|k: int| 0 <= k < n implies (#[trigger] ordered[k]).spec_book().is_valid()
        && encoded_of(ordered[k]).len() >= SECTION_HEADER_LEN by {
        let i = choose|i: int| 0 <= i < payloads.len() && #[trigger] ordered[k] == ContainerSection::Fresh(&payloads[i]);
        lemma_lay_out_at(ordered, n, base, k as nat);
        law_section_round_trip(payloads[i]);
    }
    let h = container_header_bytes(n as u32, snapshot_id, cks);
    assert(h.len() == 48);
    assert(bytes.len() == base + body.len());
    assert(bytes.subrange(CONTAINER_HEADER_LEN as int, toc_end) =~= toc_bytes);
    assert(bytes.subrange(base, bytes.len() as int) =~= body);
    assert(bytes.subrange(0, CONTAINER_HEADER_LEN as int) =~= h);
    assert(bytes.subrange(CONTAINER_HEADER_LEN as int, bytes.len() as int) =~= rest);
    assert(h.subrange(24, 32) =~= u64_bytes(cks));
    assert(bytes.subrange(24, 32) =~= h.subrange(24, 32));
    lemma_le_u64_at(bytes, 24, cks);
    lemma_container_checksum_input(n as u32, snapshot_id, cks, rest);
}

/// A written container's header and TOC read back as what was written.
#[verifier::rlimit(100)]
proof fn lemma_read_written_container<'a>(b: Seq<u8>, ordered: Seq<ContainerSection<'a>>, snapshot_id: u64, allow: bool)
    requires
        holds_container(b, ordered, sections_base(ordered.len() as int)),
        ordered.len() <= u32::MAX,
        b.subrange(0, CONTAINER_HEADER_LEN as int) == container_header_bytes(
            ordered.len() as u32,
            snapshot_id,
            le_u64(b, CONTAINER_CHECKSUM_OFFSET as int),
        ),
        le_u64(b, CONTAINER_CHECKSUM_OFFSET as int) == xxh3_64_hash(checksum_input(b, CONTAINER_CHECKSUM_OFFSET as int)),
        allow || le_u64(b, CONTAINER_CHECKSUM_OFFSET as int) != CHECKSUM_OMITTED,
        forall|a: int, c: int|
            0 <= a < ordered.len() && 0 <= c < ordered.len() && a != c ==> !same_key(
                #[trigger] ordered[a],
                #[trigger] ordered[c],
            ),
        forall|a: int|
            0 <= a < ordered.len() && (#[trigger] ordered[a]).spec_kind() == SectionKind::Finding
                ==> exists|c: int|
                0 <= c < ordered.len() && ordered[c].spec_kind() == SectionKind::Token
                    && ordered[c].spec_book() == ordered[a].spec_book()
                    && (#[trigger] ordered[c]).spec_source_hash() == ordered[a].spec_source_hash(),
    ensures
        spec_read_container(b, allow) == Ok::<(ContainerHeader, Seq<TocEntry>), DecodeError>(
            (
                written_container_header(ordered.len(), snapshot_id, le_u64(b, CONTAINER_CHECKSUM_OFFSET as int)),
                written_toc(ordered, sections_base(ordered.len() as int)),
            ),
        ),
{
    let n = ordered.len();
    let base = sections_base(n as int);
    lemma_container_header_bytes(b, n as u32, snapshot_id, le_u64(b, CONTAINER_CHECKSUM_OFFSET as int));
    lemma_read_written_toc_entries(b, ordered, base, n);
    assert(written_toc(ordered, base).take(n as int) =~= written_toc(ordered, base));
    lemma_written_toc_consistent(ordered, base);
}

/// Every section of a written container reads back through its TOC entry.
#[verifier::rlimit(40)]
proof fn lemma_read_written_container_sections<'a>(
    bytes: Seq<u8>,
    ordered: Seq<ContainerSection<'a>>,
    payloads: Seq<SectionPayload<'a>>,
)
    requires
        holds_container(bytes, ordered, sections_base(ordered.len() as int)),
        forall|k: int|
            0 <= k < ordered.len() ==> exists|i: int|
                0 <= i < payloads.len() && #[trigger] ordered[k] == ContainerSection::Fresh(
                    &payloads[i],
                ),
    ensures
        forall|k: int|
            0 <= k < ordered.len() ==> exists|i: int|
                0 <= i < payloads.len() && #[trigger] ordered[k] == ContainerSection::Fresh(
                    &payloads[i],
                ) && spec_read_section(bytes, written_toc(ordered, sections_base(ordered.len() as int))[k], true)
                    == Ok::<SpecSection, DecodeError>(read_back(payloads[i])) && (read_back(
                    payloads[i],
                ).header.checksum != CHECKSUM_OMITTED ==> spec_read_section(
                    bytes,
                    written_toc(ordered, sections_base(ordered.len() as int))[k],
                    false,
                ) == Ok::<SpecSection, DecodeError>(read_back(payloads[i]))),
{
    let base = sections_base(ordered.len() as int);
    assert forall|k: int| 0 <= k < ordered.len() implies exists|i: int|
        0 <= i < payloads.len() && #[trigger] ordered[k] == ContainerSection::Fresh(&payloads[i])
            && spec_read_section(bytes, written_toc(ordered, base)[k], true) == Ok::<
            SpecSection,
            DecodeError,
        >(read_back(payloads[i])) && (read_back(payloads[i]).header.checksum != CHECKSUM_OMITTED
            ==> spec_read_section(bytes, written_toc(ordered, base)[k], false) == Ok::<
            SpecSection,
            DecodeError,
        >(read_back(payloads[i]))) by {
        let i = choose|i: int| 0 <= i < payloads.len() && #[trigger] ordered[k] == ContainerSection::Fresh(&payloads[i]);
        lemma_read_written_container_section(bytes, ordered, base, k, payloads[i]);
    }
}

/// A container the writer accepts is its header, its TOC, the zero bytes that
/// bring the first section onto the 16-byte grid, and the sections in canonical
/// order: the input's token sections in caller order, then its finding
/// sections in caller order.
pub proof fn law_written_container<'a>(snapshot_id: u64, payloads: Seq<SectionPayload<'a>>)
    requires
        forall|i: int| 0 <= i < payloads.len() ==> (#[trigger] payloads[i]).book.is_valid(),
        spec_write_container(snapshot_id, payloads) is Ok,
    ensures
        ({
            let fresh = fresh_sections(payloads);
            let ordered = spec_canonical_order(fresh)->Ok_0;
            &&& spec_write_container(snapshot_id, payloads) == Ok::<Seq<u8>, EncodeError>(
                written_container_bytes(snapshot_id, ordered),
            )
            &&& ordered == of_kind(fresh, SectionKind::Token, fresh.len()) + of_kind(
                fresh,
                SectionKind::Finding,
                fresh.len(),
            )
        }),
{
    lemma_canonical_facts(fresh_sections(payloads));
    lemma_written_container_layout(snapshot_id, payloads);
}

/// Reading back a written container: the reader accepts its header, checksum
/// and TOC, and recovers the section count, TOC position and snapshot id that
/// were written and a TOC naming each section, in canonical order, at the
/// place it was written. The persistent reader, which refuses omitted
/// checksums, accepts the same bytes wherever the written checksum is not the
/// omitted value.
#[verifier::rlimit(40)]
pub proof fn law_container_read_back<'a>(snapshot_id: u64, payloads: Seq<SectionPayload<'a>>)
    requires
        forall|i: int| 0 <= i < payloads.len() ==> (#[trigger] payloads[i]).book.is_valid(),
        spec_write_container(snapshot_id, payloads) is Ok,
    ensures
        ({
            let ordered = spec_canonical_order(fresh_sections(payloads))->Ok_0;
            let bytes = written_container_bytes(snapshot_id, ordered);
            let toc = written_toc(ordered, sections_base(ordered.len() as int));
            let header = written_container_header(
                ordered.len(),
                snapshot_id,
                le_u64(bytes, CONTAINER_CHECKSUM_OFFSET as int),
            );
            &&& spec_read_container(bytes, true) == Ok::<
                (ContainerHeader, Seq<TocEntry>),
                DecodeError,
            >((header, toc))
            &&& header.checksum != CHECKSUM_OMITTED ==> spec_read_container(bytes, false) == Ok::<
                (ContainerHeader, Seq<TocEntry>),
                DecodeError,
            >((header, toc))
        }),
{
    let fresh = fresh_sections(payloads);
    lemma_canonical_facts(fresh);
    lemma_written_container_layout(snapshot_id, payloads);
    let ordered = spec_canonical_order(fresh)->Ok_0;
    let bytes = written_container_bytes(snapshot_id, ordered);
    lemma_read_written_container(bytes, ordered, snapshot_id, true);
    if le_u64(bytes, CONTAINER_CHECKSUM_OFFSET as int) != CHECKSUM_OMITTED {
        lemma_read_written_container(bytes, ordered, snapshot_id, false);
    }
}

/// Reading back the sections of a written container: each TOC entry leads
/// to the header and known fields that were written for its section, under
/// either checksum policy wherever the section's checksum is not omitted.
#[verifier::rlimit(40)]
pub proof fn law_container_sections_read_back<'a>(snapshot_id: u64, payloads: Seq<SectionPayload<'a>>)
    requires
        forall|i: int| 0 <= i < payloads.len() ==> (#[trigger] payloads[i]).book.is_valid(),
        spec_write_container(snapshot_id, payloads) is Ok,
    ensures
        ({
            let ordered = spec_canonical_order(fresh_sections(payloads))->Ok_0;
            let bytes = written_container_bytes(snapshot_id, ordered);
            let toc = written_toc(ordered, sections_base(ordered.len() as int));
            forall|k: int|
                0 <= k < ordered.len() ==> exists|i: int|
                    0 <= i < payloads.len() && #[trigger] ordered[k] == ContainerSection::Fresh(
                        &payloads[i],
                    ) && spec_read_section(bytes, toc[k], true) == Ok::<SpecSection, DecodeError>(
                        read_back(payloads[i]),
                    ) && (read_back(payloads[i]).header.checksum != CHECKSUM_OMITTED
                        ==> spec_read_section(bytes, toc[k], false) == Ok::<
                        SpecSection,
                        DecodeError,
                    >(read_back(payloads[i])))
        }),
{
    let fresh = fresh_sections(payloads);
    lemma_written_container_layout(snapshot_id, payloads);
    let ordered = spec_canonical_order(fresh)->Ok_0;
    lemma_read_written_container_sections(written_container_bytes(snapshot_id, ordered), ordered, payloads);
}

} // verus!
