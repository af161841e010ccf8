//! The container writer. Canonical bytes come by construction: fields in
//! ascending id order, gaps zero-filled, every offset computed from the
//! emitted length, and no iteration-order dependence anywhere, so one input
//! always yields one buffer.

use vstd::prelude::*;

use crate::error::{EncodeError, LayoutRefusal};
use crate::outside::xxh3_64_hash;
use crate::primitives::{
    concat_parts, integrity_checksum_parts, padding, u16_bytes, u32_bytes, u64_bytes, Writer,
};
use crate::schema::{
    container_magic, section_magic, SectionKind, CONTAINER_FLAGS_KNOWN, CONTAINER_HEADER_LEN,
    CONTAINER_RESERVED_LEN, DIRECTORY_ENTRY_LEN, FIELD_FLAG_REQUIRED, FORMAT_VERSION,
    SECTION_ALIGN, SECTION_HEADER_LEN, SECTION_VERSION, TOC_ENTRY_LEN,
};
use crate::schema::token_field::{TOKEN_ID_DICTIONARY, TOKEN_ID_INDEX};

use crate::book::BookId;

use super::{ElementWidth, FieldPayload, SectionHeader, SectionPayload, SectionVariant};

verus! {

// ------------------------------------------------------------ canonical field order

/// `s` with `x` inserted before the first element of larger id, so after any
/// of equal id.
pub open spec fn insert_by_id<'a>(s: Seq<FieldPayload<'a>>, x: FieldPayload<'a>) -> Seq<
    FieldPayload<'a>,
>
    decreases s.len(),
{
    if s.len() == 0 {
        seq![x]
    } else if x.id < s[0].id {
        seq![x] + s
    } else {
        seq![s[0]] + insert_by_id(s.drop_first(), x)
    }
}

/// The fields in ascending id order, equal ids kept in caller order: the
/// canonical directory order.
pub open spec fn sort_by_id<'a>(fs: Seq<FieldPayload<'a>>) -> Seq<FieldPayload<'a>>
    decreases fs.len(),
{
    if fs.len() == 0 {
        Seq::empty()
    } else {
        insert_by_id(sort_by_id(fs.drop_last()), fs.last())
    }
}

/// Inserting at the first larger id is [`insert_by_id`].
proof fn lemma_insert_by_id<'a>(s: Seq<FieldPayload<'a>>, x: FieldPayload<'a>, k: int)
    requires
        0 <= k <= s.len(),
        forall|j: int| 0 <= j < k ==> s[j].id <= x.id,
        k < s.len() ==> x.id < s[k].id,
    ensures
        insert_by_id(s, x) == s.insert(k, x),
    decreases s.len(),
{
    if s.len() == 0 {
        assert(s.insert(k, x) =~= seq![x]);
    } else if k == 0 {
        assert(s.insert(k, x) =~= seq![x] + s);
    } else {
        let rest = s.drop_first();
        assert forall|j: int| 0 <= j < k - 1 implies rest[j].id <= x.id by {
            assert(rest[j] == s[j + 1]);
        }
        lemma_insert_by_id(rest, x, k - 1);
        assert(s.insert(k, x) =~= seq![s[0]] + rest.insert(k - 1, x));
    }
}

/// The fields in canonical directory order.
fn sorted_fields<'a>(fields: &Vec<FieldPayload<'a>>) -> (sorted: Vec<FieldPayload<'a>>)
    ensures
        sorted@ == sort_by_id(fields@),
{
    let mut sorted: Vec<FieldPayload<'a>> = Vec::new();
    let mut i: usize = 0;
    while i < fields.len()
        invariant
            i <= fields@.len(),
            sorted@ == sort_by_id(fields@.take(i as int)),
        decreases fields@.len() - i,
    {
        let x = fields[i];
        let mut k: usize = 0;
        while k < sorted.len() && sorted[k].id <= x.id
            invariant
                k <= sorted@.len(),
                forall|j: int| 0 <= j < k ==> sorted@[j].id <= x.id,
            decreases sorted@.len() - k,
        {
            k = k + 1;
        }
        proof {
            lemma_insert_by_id(sorted@, x, k as int);
            assert(fields@.take(i + 1).drop_last() =~= fields@.take(i as int));
            assert(fields@.take(i + 1).last() == x);
        }
        sorted.insert(k, x);
        i = i + 1;
    }
    proof {
        assert(fields@.take(i as int) =~= fields@);
    }
    sorted
}

// ------------------------------------------------------------ refusals

/// The id of the first adjacent pair from `i` on that shares an id.
pub open spec fn first_dup_from<'a>(s: Seq<FieldPayload<'a>>, i: int) -> Option<u16>
    decreases s.len() - i,
{
    if i < 0 || i + 1 >= s.len() {
        None
    } else if s[i].id == s[i + 1].id {
        Some(s[i].id)
    } else {
        first_dup_from(s, i + 1)
    }
}

/// A field whose byte length `count * width` does not explain, or a known
/// field declared with a width the schema does not give it.
pub open spec fn extent_mismatch(kind: SectionKind, f: FieldPayload<'_>) -> bool {
    (f.width != ElementWidth::Variable && f.count * f.width.spec_as_u8() != f.bytes@.len()) || (
    kind.spec_field(f.id) matches Some(known) && known.element_width matches Some(w) && w
        != f.width.spec_as_u8())
}

/// The id of the first field from `i` on with an extent mismatch.
pub open spec fn first_extent_mismatch_from<'a>(
    kind: SectionKind,
    s: Seq<FieldPayload<'a>>,
    i: int,
) -> Option<u16>
    decreases s.len() - i,
{
    if i < 0 || i >= s.len() {
        None
    } else if extent_mismatch(kind, s[i]) {
        Some(s[i].id)
    } else {
        first_extent_mismatch_from(kind, s, i + 1)
    }
}

/// Some field carries id `id`.
pub open spec fn has_payload_id<'a>(s: Seq<FieldPayload<'a>>, id: u16) -> bool {
    exists|k: int| 0 <= k < s.len() && #[trigger] s[k].id == id
}

/// The id of the first schema-required field, from table entry `t` on, that
/// no field carries.
pub open spec fn first_missing_from<'a>(kind: SectionKind, s: Seq<FieldPayload<'a>>, t: int) -> Option<
    u16,
>
    decreases kind.spec_field_table().len() - t,
{
    if t < 0 || t >= kind.spec_field_table().len() {
        None
    } else if kind.spec_field_table()[t].required && !has_payload_id(
        s,
        kind.spec_field_table()[t].id,
    ) {
        Some(kind.spec_field_table()[t].id)
    } else {
        first_missing_from(kind, s, t + 1)
    }
}

/// The first explicit-id column carried by a section that claims positional
/// ids.
pub open spec fn positional_conflict<'a>(variant: SectionVariant, s: Seq<FieldPayload<'a>>) -> Option<
    u16,
> {
    if variant == (SectionVariant::Token { positional_ids: true }) {
        if has_payload_id(s, TOKEN_ID_INDEX) {
            Some(TOKEN_ID_INDEX)
        } else if has_payload_id(s, TOKEN_ID_DICTIONARY) {
            Some(TOKEN_ID_DICTIONARY)
        } else {
            None
        }
    } else {
        None
    }
}

/// Why the sorted fields `s` of a section of `variant` cannot be written, in
/// the order the writer checks.
pub open spec fn field_refusal<'a>(variant: SectionVariant, s: Seq<FieldPayload<'a>>) -> Option<
    LayoutRefusal,
> {
    let kind = variant.spec_kind();
    if first_dup_from(s, 0) is Some {
        Some(LayoutRefusal::DuplicateField { field_id: first_dup_from(s, 0)->0 })
    } else if s.len() > u16::MAX {
        Some(LayoutRefusal::TooManyFields)
    } else if first_missing_from(kind, s, 0) is Some {
        Some(LayoutRefusal::MissingRequiredField { field_id: first_missing_from(kind, s, 0)->0 })
    } else if first_extent_mismatch_from(kind, s, 0) is Some {
        Some(LayoutRefusal::FieldExtentMismatch { field_id: first_extent_mismatch_from(kind, s, 0)->0 })
    } else if positional_conflict(variant, s) is Some {
        Some(LayoutRefusal::PositionalIdConflict { field_id: positional_conflict(variant, s)->0 })
    } else {
        None
    }
}

fn find_dup<'a>(s: &Vec<FieldPayload<'a>>) -> (dup: Option<u16>)
    ensures
        dup == first_dup_from(s@, 0),
{
    let n = s.len();
    let mut i: usize = 0;
    while i + 1 < n
        invariant
            n == s@.len(),
            i == 0 || i < n,
            first_dup_from(s@, 0) == first_dup_from(s@, i as int),
        decreases s@.len() - i,
    {
        if s[i].id == s[i + 1].id {
            return Some(s[i].id);
        }
        i = i + 1;
    }
    None
}

fn extent_mismatch_of(kind: SectionKind, f: &FieldPayload<'_>) -> (bad: bool)
    ensures
        bad == extent_mismatch(kind, *f),
{
    let w = f.width.as_u8() as u64;
    assert((f.count as u64) * w <= u64::MAX) by (nonlinear_arith)
        requires
            w <= 16,
    ;
    if f.width != ElementWidth::Variable && (f.count as u64) * w != f.bytes.len() as u64 {
        return true;
    }
    match kind.field(f.id) {
        Some(known) => match known.element_width {
            Some(expected) => expected != f.width.as_u8(),
            None => false,
        },
        None => false,
    }
}

fn find_extent_mismatch<'a>(kind: SectionKind, s: &Vec<FieldPayload<'a>>) -> (bad: Option<u16>)
    ensures
        bad == first_extent_mismatch_from(kind, s@, 0),
{
    let mut i: usize = 0;
    while i < s.len()
        invariant
            i <= s@.len(),
            first_extent_mismatch_from(kind, s@, 0) == first_extent_mismatch_from(kind, s@, i as int),
        decreases s@.len() - i,
    {
        if extent_mismatch_of(kind, &s[i]) {
            return Some(s[i].id);
        }
        i = i + 1;
    }
    None
}

fn has_id<'a>(s: &Vec<FieldPayload<'a>>, id: u16) -> (found: bool)
    ensures
        found == has_payload_id(s@, id),
{
    let mut k: usize = 0;
    while k < s.len()
        invariant
            k <= s@.len(),
            forall|j: int| 0 <= j < k ==> s@[j].id != id,
        decreases s@.len() - k,
    {
        if s[k].id == id {
            return true;
        }
        k = k + 1;
    }
    false
}

fn find_missing<'a>(kind: SectionKind, s: &Vec<FieldPayload<'a>>) -> (missing: Option<u16>)
    ensures
        missing == first_missing_from(kind, s@, 0),
{
    let table = kind.field_table();
    let mut t: usize = 0;
    while t < table.len()
        invariant
            table@ == kind.spec_field_table(),
            t <= table@.len(),
            first_missing_from(kind, s@, 0) == first_missing_from(kind, s@, t as int),
        decreases table@.len() - t,
    {
        if table[t].required && !has_id(s, table[t].id) {
            return Some(table[t].id);
        }
        t = t + 1;
    }
    None
}

fn find_refusal<'a>(variant: SectionVariant, s: &Vec<FieldPayload<'a>>) -> (refusal: Option<
    LayoutRefusal,
>)
    ensures
        refusal == field_refusal(variant, s@),
{
    let kind = variant.kind();
    if let Some(field_id) = find_dup(s) {
        return Some(LayoutRefusal::DuplicateField { field_id });
    }
    if s.len() > 0xffff {
        return Some(LayoutRefusal::TooManyFields);
    }
    if let Some(field_id) = find_missing(kind, s) {
        return Some(LayoutRefusal::MissingRequiredField { field_id });
    }
    if let Some(field_id) = find_extent_mismatch(kind, s) {
        return Some(LayoutRefusal::FieldExtentMismatch { field_id });
    }
    if let SectionVariant::Token { positional_ids: true } = variant {
        if has_id(s, TOKEN_ID_INDEX) {
            return Some(LayoutRefusal::PositionalIdConflict { field_id: TOKEN_ID_INDEX });
        }
        if has_id(s, TOKEN_ID_DICTIONARY) {
            return Some(LayoutRefusal::PositionalIdConflict { field_id: TOKEN_ID_DICTIONARY });
        }
    }
    None
}

// ------------------------------------------------------------ layout

/// `p` rounded up to a multiple of `a`.
pub open spec fn aligned(p: int, a: int) -> int {
    p + padding(p, a)
}

/// `n` zero bytes.
pub open spec fn zeros(n: int) -> Seq<u8> {
    Seq::new(n as nat, |k: int| 0u8)
}

/// The section-relative position just past the first `i` payloads, the first
/// of which may start at `start`.
pub open spec fn end_pos<'a>(s: Seq<FieldPayload<'a>>, i: nat, start: int) -> int
    decreases i,
{
    if i == 0 {
        start
    } else {
        aligned(end_pos(s, (i - 1) as nat, start), s[i - 1].width.spec_align() as int) + s[i
            - 1].bytes@.len()
    }
}

/// Where payload `i` starts: the first position past the earlier payloads
/// that satisfies its width's alignment.
pub open spec fn offset_of<'a>(s: Seq<FieldPayload<'a>>, i: int, start: int) -> int {
    aligned(end_pos(s, i as nat, start), s[i].width.spec_align() as int)
}

/// The payload region of the first `i` fields: each payload preceded by the
/// zero bytes that align it.
pub open spec fn payload_bytes<'a>(s: Seq<FieldPayload<'a>>, i: nat, start: int) -> Seq<u8>
    decreases i,
{
    if i == 0 {
        Seq::empty()
    } else {
        payload_bytes(s, (i - 1) as nat, start) + zeros(
            padding(end_pos(s, (i - 1) as nat, start), s[i - 1].width.spec_align() as int),
        ) + s[i - 1].bytes@
    }
}

/// The directory flag byte of field `id`: required exactly when the schema
/// says so; an id outside the table is written as optional.
pub open spec fn required_flag(kind: SectionKind, id: u16) -> u8 {
    if kind.spec_field(id) matches Some(known) && known.required {
        FIELD_FLAG_REQUIRED
    } else {
        0
    }
}

/// The 16-byte directory entry of field `f` whose payload starts at `offset`.
pub open spec fn dir_entry_bytes(kind: SectionKind, f: FieldPayload<'_>, offset: int) -> Seq<u8> {
    u16_bytes(f.id) + seq![f.width.spec_as_u8(), required_flag(kind, f.id)] + u32_bytes(
        offset as u32,
    ) + u32_bytes(f.bytes@.len() as u32) + u32_bytes(f.count)
}

/// The directory entries of the first `i` fields.
pub open spec fn dir_bytes<'a>(kind: SectionKind, s: Seq<FieldPayload<'a>>, i: nat, start: int) -> Seq<
    u8,
>
    decreases i,
{
    if i == 0 {
        Seq::empty()
    } else {
        dir_bytes(kind, s, (i - 1) as nat, start) + dir_entry_bytes(
            kind,
            s[i - 1],
            offset_of(s, i - 1, start),
        )
    }
}

/// The 64-byte section header of `p` with `n` directory entries.
pub open spec fn section_header_bytes(
    p: SectionPayload<'_>,
    n: u16,
    section_len: u64,
    checksum: u64,
) -> Seq<u8> {
    section_magic() + u16_bytes(FORMAT_VERSION) + u16_bytes(p.variant.spec_rules_version()) + seq![
        p.variant.spec_kind().spec_as_u8(),
        p.variant.spec_flags(),
    ] + p.book.code() + seq![0u8, 0u8, 0u8] + u32_bytes(p.record_count) + u16_bytes(n)
        + u16_bytes(DIRECTORY_ENTRY_LEN as u16) + u64_bytes(p.source_hash) + u64_bytes(
        section_len,
    ) + u64_bytes(checksum) + u64_bytes(p.source_len) + u64_bytes(p.catalog_stamp)
}

/// What writing one section produces: a refusal, or the header, the
/// directory in ascending id order and the aligned payloads, with the checksum
/// taken over the same bytes with the checksum field zero.
#[verifier::opaque]
pub open spec fn spec_write_section(p: SectionPayload<'_>) -> Result<Seq<u8>, EncodeError> {
    let s = sort_by_id(p.fields@);
    let kind = p.variant.spec_kind();
    let n = s.len();
    let start = SECTION_HEADER_LEN + DIRECTORY_ENTRY_LEN * n;
    let len = end_pos(s, n, start);
    let body = dir_bytes(kind, s, n, start) + payload_bytes(s, n, start);
    if field_refusal(p.variant, s) is Some {
        Err(EncodeError::InvalidSectionLayout { book: p.book, reason: field_refusal(p.variant, s)->0 })
    } else if len > u32::MAX {
        Err(EncodeError::InvalidSectionLayout { book: p.book, reason: LayoutRefusal::SectionTooLarge })
    } else {
        let unsummed = section_header_bytes(p, n as u16, len as u64, 0);
        Ok(
            section_header_bytes(p, n as u16, len as u64, xxh3_64_hash(unsummed + body))
                + body,
        )
    }
}

/// Payloads only ever move the position forward.
pub(crate) proof fn lemma_end_pos_monotone<'a>(s: Seq<FieldPayload<'a>>, i: nat, j: nat, start: int)
    requires
        i <= j <= s.len(),
    ensures
        end_pos(s, i, start) <= end_pos(s, j, start),
    decreases j - i,
{
    if i < j {
        lemma_end_pos_monotone(s, i, (j - 1) as nat, start);
    }
}

/// The payload start of every field, or `None` when the section would outgrow
/// the `u32` offsets and lengths of its own directory.
fn layout_offsets<'a>(s: &Vec<FieldPayload<'a>>, start: u64) -> (layout: Option<(Vec<u32>, u32)>)
    requires
        start <= u32::MAX,
    ensures
        match layout {
            Some((offsets, len)) => end_pos(s@, s@.len(), start as int) == len && offsets@.len()
                == s@.len() && forall|i: int|
                0 <= i < s@.len() ==> #[trigger] offsets@[i] == offset_of(s@, i, start as int),
            None => end_pos(s@, s@.len(), start as int) > u32::MAX,
        },
{
    let mut offsets: Vec<u32> = Vec::new();
    let mut position: u64 = start;
    let mut i: usize = 0;
    while i < s.len()
        invariant
            i <= s@.len(),
            position == end_pos(s@, i as nat, start as int),
            position <= u32::MAX,
            offsets@.len() == i,
            forall|k: int| 0 <= k < i ==> #[trigger] offsets@[k] == offset_of(s@, k, start as int),
        decreases s@.len() - i,
    {
        let align = s[i].width.align() as u64;
        let rem = position % align;
        let at = if rem == 0 {
            position
        } else {
            position + (align - rem)
        };
        assert(at == offset_of(s@, i as int, start as int));
        let next = match at.checked_add(s[i].bytes.len() as u64) {
            Some(next) => next,
            None => {
                proof {
                    lemma_end_pos_monotone(s@, (i + 1) as nat, s@.len(), start as int);
                }
                return None;
            },
        };
        if next > 0xffff_ffff {
            proof {
                lemma_end_pos_monotone(s@, (i + 1) as nat, s@.len(), start as int);
            }
            return None;
        }
        offsets.push(at as u32);
        position = next;
        i = i + 1;
    }
    Some((offsets, position as u32))
}

fn section_header(p: &SectionPayload<'_>, n: u16, section_len: u64, checksum: u64) -> (header: Vec<u8>)
    ensures
        header@ == section_header_bytes(*p, n, section_len, checksum),
{
    let mut w = Writer::with_capacity(SECTION_HEADER_LEN);
    w.bytes(crate::schema::section_magic_bytes().as_slice());
    w.u16(FORMAT_VERSION);
    w.u16(p.variant.rules_version());
    w.u8(p.variant.kind().as_u8());
    w.u8(p.variant.flags());
    w.bytes(p.book.as_bytes().as_slice());
    let reserved: [u8; 3] = [0u8, 0u8, 0u8];
    w.bytes(reserved.as_slice());
    w.u32(p.record_count);
    w.u16(n);
    w.u16(DIRECTORY_ENTRY_LEN as u16);
    w.u64(p.source_hash);
    w.u64(section_len);
    w.u64(checksum);
    w.u64(p.source_len);
    w.u64(p.catalog_stamp);
    proof {
        assert(reserved@ =~= seq![0u8, 0u8, 0u8]);
        assert(w@ =~= section_header_bytes(*p, n, section_len, checksum));
    }
    w.finish()
}

fn required_flag_of(kind: SectionKind, id: u16) -> (flag: u8)
    ensures
        flag == required_flag(kind, id),
{
    match kind.field(id) {
        Some(known) => if known.required {
            FIELD_FLAG_REQUIRED
        } else {
            0
        },
        None => 0,
    }
}

/// Appends the directory entries of every field.
fn write_directory<'a>(
    kind: SectionKind,
    s: &Vec<FieldPayload<'a>>,
    offsets: &Vec<u32>,
    start: u64,
    w: &mut Writer,
)
    requires
        offsets@.len() == s@.len(),
        forall|i: int| 0 <= i < s@.len() ==> #[trigger] offsets@[i] == offset_of(s@, i, start as int),
        forall|i: int| 0 <= i < s@.len() ==> #[trigger] s@[i].bytes@.len() <= u32::MAX,
    ensures
        final(w)@ == old(w)@ + dir_bytes(kind, s@, s@.len(), start as int),
{
    let mut i: usize = 0;
    while i < s.len()
        invariant
            i <= s@.len(),
            offsets@.len() == s@.len(),
            forall|i: int| 0 <= i < s@.len() ==> #[trigger] offsets@[i] == offset_of(s@, i, start as int),
            forall|i: int| 0 <= i < s@.len() ==> #[trigger] s@[i].bytes@.len() <= u32::MAX,
            w@ == old(w)@ + dir_bytes(kind, s@, i as nat, start as int),
        decreases s@.len() - i,
    {
        let f = s[i];
        let ghost before = w@;
        w.u16(f.id);
        w.u8(f.width.as_u8());
        w.u8(required_flag_of(kind, f.id));
        w.u32(offsets[i]);
        w.u32(f.bytes.len() as u32);
        w.u32(f.count);
        proof {
            assert(w@ =~= before + dir_entry_bytes(kind, f, offset_of(s@, i as int, start as int)));
        }
        i = i + 1;
    }
}

/// Appends every payload, each preceded by the zero bytes that align it.
fn write_payloads<'a>(s: &Vec<FieldPayload<'a>>, start: u64, w: &mut Writer)
    requires
        start >= SECTION_HEADER_LEN,
        old(w)@.len() == start - SECTION_HEADER_LEN,
        end_pos(s@, s@.len(), start as int) <= u32::MAX,
    ensures
        final(w)@ == old(w)@ + payload_bytes(s@, s@.len(), start as int),
{
    let mut i: usize = 0;
    while i < s.len()
        invariant
            i <= s@.len(),
            start >= SECTION_HEADER_LEN,
            end_pos(s@, s@.len(), start as int) <= u32::MAX,
            w@ == old(w)@ + payload_bytes(s@, i as nat, start as int),
            w@.len() + SECTION_HEADER_LEN == end_pos(s@, i as nat, start as int),
        decreases s@.len() - i,
    {
        proof {
            lemma_end_pos_monotone(s@, i as nat, s@.len(), start as int);
            lemma_end_pos_monotone(s@, (i + 1) as nat, s@.len(), start as int);
        }
        let f = s[i];
        let ghost before = w@;
        w.pad_to_from(SECTION_HEADER_LEN, f.width.align() as usize);
        w.bytes(f.bytes);
        proof {
            assert(w@ =~= before + zeros(
                padding(end_pos(s@, i as nat, start as int), f.width.spec_align() as int),
            ) + f.bytes@);
        }
        i = i + 1;
    }
}

/// Writes one section, or refuses it.
pub fn write_section(p: &SectionPayload<'_>) -> (bytes: Result<Vec<u8>, EncodeError>)
    ensures
        match bytes {
            Ok(v) => spec_write_section(*p) == Ok::<Seq<u8>, EncodeError>(v@),
            Err(e) => spec_write_section(*p) == Err::<Seq<u8>, EncodeError>(e),
        },
{
    reveal(spec_write_section);
    let kind = p.variant.kind();
    let s = sorted_fields(&p.fields);
    if let Some(reason) = find_refusal(p.variant, &s) {
        return Err(EncodeError::InvalidSectionLayout { book: p.book, reason });
    }
    let n = s.len();
    let start = (SECTION_HEADER_LEN + DIRECTORY_ENTRY_LEN * n) as u64;
    let (offsets, section_len) = match layout_offsets(&s, start) {
        Some(layout) => layout,
        None => {
            return Err(
                EncodeError::InvalidSectionLayout {
                    book: p.book,
                    reason: LayoutRefusal::SectionTooLarge,
                },
            );
        },
    };
    proof {
        assert forall|i: int| 0 <= i < s@.len() implies #[trigger] s@[i].bytes@.len() <= u32::MAX by {
            lemma_end_pos_monotone(s@, (i + 1) as nat, s@.len(), start as int);
            lemma_end_pos_monotone(s@, 0, i as nat, start as int);
        }
    }
    let mut body = Writer::new();
    write_directory(kind, &s, &offsets, start, &mut body);
    proof {
        lemma_dir_bytes_len(kind, s@, s@.len(), start as int);
    }
    write_payloads(&s, start, &mut body);
    let body = body.finish();
    let unsummed = section_header(p, n as u16, section_len as u64, 0);
    let parts = [unsummed.as_slice(), body.as_slice()];
    let checksum = integrity_checksum_parts(parts.as_slice());
    proof {
        lemma_concat_two(parts@, unsummed@, body@);
    }
    let header = section_header(p, n as u16, section_len as u64, checksum);
    let mut out: Vec<u8> = header;
    let mut tail = body;
    out.append(&mut tail);
    Ok(out)
}

/// Each directory entry is sixteen bytes.
pub(crate) proof fn lemma_dir_bytes_len<'a>(kind: SectionKind, s: Seq<FieldPayload<'a>>, i: nat, start: int)
    requires
        i <= s.len(),
    ensures
        dir_bytes(kind, s, i, start).len() == DIRECTORY_ENTRY_LEN * i,
    decreases i,
{
    if i > 0 {
        lemma_dir_bytes_len(kind, s, (i - 1) as nat, start);
    }
}

/// Two parts concatenate to their sum.
proof fn lemma_concat_two(parts: Seq<&[u8]>, a: Seq<u8>, b: Seq<u8>)
    requires
        parts.len() == 2,
        parts[0]@ == a,
        parts[1]@ == b,
    ensures
        concat_parts(parts) == a + b,
{
    let views = parts.map_values(|part: &[u8]| part@);
    assert(views =~= seq![a, b]);
    reveal_with_fuel(Seq::<_>::flatten, 3);
    assert(seq![a, b].drop_first() =~= seq![b]);
    assert(seq![b].drop_first() =~= Seq::<Seq<u8>>::empty());
    assert(seq![b].flatten() =~= b);
}

// ------------------------------------------------------------ container

/// One section of a container: semantics to encode now, or bytes a previous
/// publication already encoded. A finished section is position-independent,
/// which is what makes reuse a splice rather than a re-encode; the header of
/// reused bytes is one a reader already validated.
#[derive(Clone, Copy)]
pub enum ContainerSection<'a> {
    Fresh(&'a SectionPayload<'a>),
    Encoded { header: SectionHeader, bytes: &'a [u8] },
}

impl<'a> ContainerSection<'a> {
    pub open spec fn spec_kind(self) -> SectionKind {
        match self {
            ContainerSection::Fresh(p) => p.variant.spec_kind(),
            ContainerSection::Encoded { header, .. } => header.kind,
        }
    }

    pub open spec fn spec_book(self) -> BookId {
        match self {
            ContainerSection::Fresh(p) => p.book,
            ContainerSection::Encoded { header, .. } => header.book,
        }
    }

    pub open spec fn spec_source_hash(self) -> u64 {
        match self {
            ContainerSection::Fresh(p) => p.source_hash,
            ContainerSection::Encoded { header, .. } => header.source_hash,
        }
    }

    /// The section's bytes: written now, or the reused ones as they are.
    pub open spec fn spec_encoded(self) -> Result<Seq<u8>, EncodeError> {
        match self {
            ContainerSection::Fresh(p) => spec_write_section(*p),
            ContainerSection::Encoded { bytes, .. } => Ok(bytes@),
        }
    }

    pub fn kind(&self) -> (kind: SectionKind)
        ensures
            kind == self.spec_kind(),
    {
        match self {
            ContainerSection::Fresh(p) => p.variant.kind(),
            ContainerSection::Encoded { header, .. } => header.kind,
        }
    }

    pub fn book(&self) -> (book: BookId)
        ensures
            book == self.spec_book(),
    {
        match self {
            ContainerSection::Fresh(p) => p.book,
            ContainerSection::Encoded { header, .. } => header.book,
        }
    }

    pub fn source_hash(&self) -> (hash: u64)
        ensures
            hash == self.spec_source_hash(),
    {
        match self {
            ContainerSection::Fresh(p) => p.source_hash,
            ContainerSection::Encoded { header, .. } => header.source_hash,
        }
    }
}

/// `(k1, b1)` sorts before `(k2, b2)`: by kind, then by book.
pub open spec fn key_less(k1: SectionKind, b1: BookId, k2: SectionKind, b2: BookId) -> bool {
    k1.spec_as_u8() < k2.spec_as_u8() || (k1 == k2 && b1.spec_ordinal() < b2.spec_ordinal())
}

/// Some other section shares the `(kind, book)` key of section `i`.
pub open spec fn dup_at<'a>(ss: Seq<ContainerSection<'a>>, i: int) -> bool {
    exists|j: int|
        0 <= j < ss.len() && j != i && #[trigger] ss[j].spec_kind() == ss[i].spec_kind()
            && ss[j].spec_book() == ss[i].spec_book()
}

/// The smaller of two optional keys.
pub open spec fn min_key(
    a: Option<(SectionKind, BookId)>,
    b: Option<(SectionKind, BookId)>,
) -> Option<(SectionKind, BookId)> {
    match (a, b) {
        (None, x) => x,
        (x, None) => x,
        (Some(p), Some(q)) => if key_less(q.0, q.1, p.0, p.1) {
            Some(q)
        } else {
            Some(p)
        },
    }
}

/// The least duplicated `(kind, book)` key among the first `n` sections.
pub open spec fn least_dup_key<'a>(ss: Seq<ContainerSection<'a>>, n: nat) -> Option<
    (SectionKind, BookId),
>
    decreases n,
{
    if n == 0 {
        None
    } else {
        min_key(
            least_dup_key(ss, (n - 1) as nat),
            if dup_at(ss, n - 1) {
                Some((ss[n - 1].spec_kind(), ss[n - 1].spec_book()))
            } else {
                None
            },
        )
    }
}

/// Section `j` is a token section with the book and source hash of `i`.
pub open spec fn token_pair<'a>(ss: Seq<ContainerSection<'a>>, i: int, j: int) -> bool {
    ss[j].spec_kind() == SectionKind::Token && ss[j].spec_book() == ss[i].spec_book()
        && ss[j].spec_source_hash() == ss[i].spec_source_hash()
}

/// Section `i` is a finding section with no token section to pair with.
pub open spec fn orphan_at<'a>(ss: Seq<ContainerSection<'a>>, i: int) -> bool {
    ss[i].spec_kind() == SectionKind::Finding && !exists|j: int|
        0 <= j < ss.len() && #[trigger] token_pair(ss, i, j)
}

/// The first orphaned finding section from `i` on, in caller order.
pub open spec fn first_orphan_from<'a>(ss: Seq<ContainerSection<'a>>, i: int) -> Option<int>
    decreases ss.len() - i,
{
    if i < 0 || i >= ss.len() {
        None
    } else if orphan_at(ss, i) {
        Some(i)
    } else {
        first_orphan_from(ss, i + 1)
    }
}

/// The first `n` sections of kind `kind`, in caller order.
pub open spec fn of_kind<'a>(ss: Seq<ContainerSection<'a>>, kind: SectionKind, n: nat) -> Seq<
    ContainerSection<'a>,
>
    decreases n,
{
    if n == 0 {
        Seq::empty()
    } else if ss[n - 1].spec_kind() == kind {
        of_kind(ss, kind, (n - 1) as nat).push(ss[n - 1])
    } else {
        of_kind(ss, kind, (n - 1) as nat)
    }
}

/// The canonical section order: token sections in caller order, then finding
/// sections in caller order; refused when a `(kind, book)` key repeats (the
/// least such key is named) or a finding section has no token section.
#[verifier::opaque]
pub open spec fn spec_canonical_order<'a>(ss: Seq<ContainerSection<'a>>) -> Result<
    Seq<ContainerSection<'a>>,
    EncodeError,
> {
    if let Some((kind, book)) = least_dup_key(ss, ss.len()) {
        Err(EncodeError::InvalidSectionLayout { book, reason: LayoutRefusal::DuplicateSection { kind } })
    } else if first_orphan_from(ss, 0) is Some {
        Err(
            EncodeError::InvalidSectionLayout {
                book: ss[first_orphan_from(ss, 0)->0].spec_book(),
                reason: LayoutRefusal::OrphanFindingSection,
            },
        )
    } else {
        Ok(of_kind(ss, SectionKind::Token, ss.len()) + of_kind(ss, SectionKind::Finding, ss.len()))
    }
}

fn has_dup<'a>(ss: &[ContainerSection<'a>], i: usize) -> (dup: bool)
    requires
        i < ss@.len(),
    ensures
        dup == dup_at(ss@, i as int),
{
    let kind = ss[i].kind();
    let book = ss[i].book();
    let mut j: usize = 0;
    while j < ss.len()
        invariant
            i < ss@.len(),
            j <= ss@.len(),
            kind == ss@[i as int].spec_kind(),
            book == ss@[i as int].spec_book(),
            forall|k: int|
                0 <= k < j && k != i ==> !(#[trigger] ss@[k].spec_kind() == kind && ss@[k].spec_book()
                    == book),
        decreases ss@.len() - j,
    {
        if j != i && ss[j].kind() == kind && ss[j].book() == book {
            return true;
        }
        j = j + 1;
    }
    false
}

fn find_least_dup<'a>(ss: &[ContainerSection<'a>]) -> (key: Option<(SectionKind, BookId)>)
    ensures
        key == least_dup_key(ss@, ss@.len()),
{
    let mut best: Option<(SectionKind, BookId)> = None;
    let mut i: usize = 0;
    while i < ss.len()
        invariant
            i <= ss@.len(),
            best == least_dup_key(ss@, i as nat),
        decreases ss@.len() - i,
    {
        if has_dup(ss, i) {
            let kind = ss[i].kind();
            let book = ss[i].book();
            best = match best {
                None => Some((kind, book)),
                Some((bk, bb)) => if kind.as_u8() < bk.as_u8() || (kind == bk && book.ordinal()
                    < bb.ordinal()) {
                    Some((kind, book))
                } else {
                    Some((bk, bb))
                },
            };
        }
        i = i + 1;
    }
    best
}

fn is_orphan<'a>(ss: &[ContainerSection<'a>], i: usize) -> (orphan: bool)
    requires
        i < ss@.len(),
    ensures
        orphan == orphan_at(ss@, i as int),
{
    if ss[i].kind() != SectionKind::Finding {
        return false;
    }
    let book = ss[i].book();
    let hash = ss[i].source_hash();
    let mut j: usize = 0;
    while j < ss.len()
        invariant
            i < ss@.len(),
            j <= ss@.len(),
            book == ss@[i as int].spec_book(),
            hash == ss@[i as int].spec_source_hash(),
            forall|k: int| 0 <= k < j ==> !#[trigger] token_pair(ss@, i as int, k),
        decreases ss@.len() - j,
    {
        if ss[j].kind() == SectionKind::Token && ss[j].book() == book && ss[j].source_hash() == hash {
            assert(token_pair(ss@, i as int, j as int));
            return false;
        }
        j = j + 1;
    }
    true
}

fn sections_of_kind<'a>(ss: &[ContainerSection<'a>], kind: SectionKind, out: &mut Vec<
    ContainerSection<'a>,
>)
    ensures
        final(out)@ == old(out)@ + of_kind(ss@, kind, ss@.len()),
{
    let mut i: usize = 0;
    while i < ss.len()
        invariant
            i <= ss@.len(),
            out@ == old(out)@ + of_kind(ss@, kind, i as nat),
        decreases ss@.len() - i,
    {
        if ss[i].kind() == kind {
            out.push(ss[i]);
        }
        proof {
            assert(out@ =~= old(out)@ + of_kind(ss@, kind, (i + 1) as nat));
        }
        i = i + 1;
    }
}

/// Token sections first in caller order, then finding sections in caller
/// order. The order comes from the input sequence alone.
fn canonical_order<'a>(ss: &[ContainerSection<'a>]) -> (ordered: Result<
    Vec<ContainerSection<'a>>,
    EncodeError,
>)
    ensures
        match ordered {
            Ok(v) => spec_canonical_order(ss@) == Ok::<Seq<ContainerSection<'a>>, EncodeError>(v@),
            Err(e) => spec_canonical_order(ss@) == Err::<Seq<ContainerSection<'a>>, EncodeError>(e),
        },
{
    reveal(spec_canonical_order);
    if let Some((kind, book)) = find_least_dup(ss) {
        return Err(
            EncodeError::InvalidSectionLayout {
                book,
                reason: LayoutRefusal::DuplicateSection { kind },
            },
        );
    }
    let mut i: usize = 0;
    while i < ss.len()
        invariant
            i <= ss@.len(),
            least_dup_key(ss@, ss@.len()) is None,
            first_orphan_from(ss@, 0) == first_orphan_from(ss@, i as int),
        decreases ss@.len() - i,
    {
        // A finding section pairs to its token section by book and source
        // hash; a differing hash means the pair a reader looks for does not
        // exist.
        if is_orphan(ss, i) {
            proof {
                reveal(spec_canonical_order);
            }
            return Err(
                EncodeError::InvalidSectionLayout {
                    book: ss[i].book(),
                    reason: LayoutRefusal::OrphanFindingSection,
                },
            );
        }
        i = i + 1;
    }
    let mut ordered: Vec<ContainerSection<'a>> = Vec::new();
    sections_of_kind(ss, SectionKind::Token, &mut ordered);
    sections_of_kind(ss, SectionKind::Finding, &mut ordered);
    Ok(ordered)
}

/// The 32-byte TOC entry of section `c` at `offset` with `len` bytes.
pub open spec fn toc_entry_bytes(c: ContainerSection<'_>, offset: int, len: int) -> Seq<u8> {
    seq![c.spec_kind().spec_as_u8()] + c.spec_book().code() + u16_bytes(SECTION_VERSION)
        + u16_bytes(0) + u64_bytes(offset as u64) + u64_bytes(len as u64) + u64_bytes(
        c.spec_source_hash(),
    )
}

/// The 48-byte container header.
pub open spec fn container_header_bytes(section_count: u32, snapshot_id: u64, checksum: u64) -> Seq<
    u8,
> {
    container_magic() + u16_bytes(FORMAT_VERSION) + u16_bytes(CONTAINER_HEADER_LEN as u16)
        + u32_bytes(CONTAINER_FLAGS_KNOWN) + u32_bytes(section_count) + u64_bytes(
        CONTAINER_HEADER_LEN as u64,
    ) + u64_bytes(checksum) + u64_bytes(snapshot_id) + zeros(CONTAINER_RESERVED_LEN as int)
}

/// Appends section `c` to a TOC and body whose sections start at `base`: its
/// entry, its bytes, and the zero bytes that bring the next section onto the
/// 16-byte grid; or the refusal of a section that cannot be written, or whose
/// end this platform cannot address.
pub open spec fn place(c: ContainerSection<'_>, base: int, toc: Seq<u8>, body: Seq<u8>) -> Result<
    (Seq<u8>, Seq<u8>),
    EncodeError,
> {
    match c.spec_encoded() {
        Err(e) => Err(e),
        Ok(bytes) => if base + body.len() + bytes.len() > usize::MAX {
            Err(
                EncodeError::InvalidSectionLayout {
                    book: c.spec_book(),
                    reason: LayoutRefusal::SectionTooLarge,
                },
            )
        } else {
            let filled = body + bytes;
            Ok(
                (
                    toc + toc_entry_bytes(c, base + body.len(), bytes.len() as int),
                    filled + zeros(padding(base + filled.len(), SECTION_ALIGN as int)),
                ),
            )
        },
    }
}

/// The TOC and body of the first `k` ordered sections, or the first refusal.
pub open spec fn lay_out<'a>(ordered: Seq<ContainerSection<'a>>, k: nat, base: int) -> Result<
    (Seq<u8>, Seq<u8>),
    EncodeError,
>
    decreases k,
{
    if k == 0 {
        Ok((Seq::empty(), Seq::empty()))
    } else {
        match lay_out(ordered, (k - 1) as nat, base) {
            Err(e) => Err(e),
            Ok((toc, body)) => place(ordered[k - 1], base, toc, body),
        }
    }
}

/// What writing a container produces: a refusal, or the header, the TOC, the
/// zero bytes that bring the first section onto the 16-byte grid, and the
/// sections in canonical order, with the checksum taken over the same bytes
/// with the checksum field zero.
pub open spec fn spec_write_container_sections<'a>(
    snapshot_id: u64,
    ss: Seq<ContainerSection<'a>>,
) -> Result<Seq<u8>, EncodeError> {
    match spec_canonical_order(ss) {
        Err(e) => Err(e),
        Ok(ordered) => {
            let n = ordered.len();
            let toc_end = CONTAINER_HEADER_LEN + TOC_ENTRY_LEN * n;
            let base = aligned(toc_end, SECTION_ALIGN as int);
            if n > u32::MAX || base > usize::MAX {
                Err(
                    EncodeError::InvalidSectionLayout {
                        book: ordered.last().spec_book(),
                        reason: LayoutRefusal::TooManySections,
                    },
                )
            } else {
                match lay_out(ordered, n, base) {
                    Err(e) => Err(e),
                    Ok((toc, body)) => {
                        let rest = toc + zeros(base - toc_end) + body;
                        let unsummed = container_header_bytes(n as u32, snapshot_id, 0);
                        Ok(
                            container_header_bytes(
                                n as u32,
                                snapshot_id,
                                xxh3_64_hash(unsummed + rest),
                            ) + rest,
                        )
                    },
                }
            }
        },
    }
}

fn container_header(section_count: u32, snapshot_id: u64, checksum: u64) -> (header: Vec<u8>)
    ensures
        header@ == container_header_bytes(section_count, snapshot_id, checksum),
{
    let mut w = Writer::with_capacity(CONTAINER_HEADER_LEN);
    w.bytes(crate::schema::container_magic_bytes().as_slice());
    w.u16(FORMAT_VERSION);
    w.u16(CONTAINER_HEADER_LEN as u16);
    w.u32(CONTAINER_FLAGS_KNOWN);
    w.u32(section_count);
    w.u64(CONTAINER_HEADER_LEN as u64);
    w.u64(checksum);
    w.u64(snapshot_id);
    let reserved: [u8; 8] = [0u8, 0u8, 0u8, 0u8, 0u8, 0u8, 0u8, 0u8];
    w.bytes(reserved.as_slice());
    proof {
        assert(reserved@ =~= zeros(CONTAINER_RESERVED_LEN as int));
        assert(w@ =~= container_header_bytes(section_count, snapshot_id, checksum));
    }
    w.finish()
}

fn encode_section<'a>(c: &ContainerSection<'a>) -> (bytes: Result<Vec<u8>, EncodeError>)
    ensures
        match bytes {
            Ok(v) => c.spec_encoded() == Ok::<Seq<u8>, EncodeError>(v@),
            Err(e) => c.spec_encoded() == Err::<Seq<u8>, EncodeError>(e),
        },
{
    match c {
        ContainerSection::Fresh(p) => write_section(p),
        ContainerSection::Encoded { bytes, .. } => {
            let mut out: Vec<u8> = Vec::new();
            let mut w = Writer::new();
            w.bytes(bytes);
            out = w.finish();
            Ok(out)
        },
    }
}

fn place_section<'a>(c: &ContainerSection<'a>, base: usize, toc: &mut Writer, body: &mut Writer) -> (r:
    Result<(), EncodeError>)
    ensures
        match r {
            Ok(_) => place(*c, base as int, old(toc)@, old(body)@) == Ok::<
                (Seq<u8>, Seq<u8>),
                EncodeError,
            >((final(toc)@, final(body)@)),
            Err(e) => place(*c, base as int, old(toc)@, old(body)@) == Err::<
                (Seq<u8>, Seq<u8>),
                EncodeError,
            >(e),
        },
{
    let encoded = encode_section(c)?;
    let offset = match base.checked_add(body.len()) {
        Some(offset) => offset,
        None => {
            return Err(
                EncodeError::InvalidSectionLayout {
                    book: c.book(),
                    reason: LayoutRefusal::SectionTooLarge,
                },
            );
        },
    };
    if offset.checked_add(encoded.len()).is_none() {
        return Err(
            EncodeError::InvalidSectionLayout {
                book: c.book(),
                reason: LayoutRefusal::SectionTooLarge,
            },
        );
    }
    let byte_len = encoded.len();
    body.bytes(encoded.as_slice());
    body.pad_to_from(base, SECTION_ALIGN as usize);
    toc.u8(c.kind().as_u8());
    toc.bytes(c.book().as_bytes().as_slice());
    toc.u16(SECTION_VERSION);
    toc.u16(0);
    toc.u64(offset as u64);
    toc.u64(byte_len as u64);
    toc.u64(c.source_hash());
    proof {
        assert(toc@ =~= place(*c, base as int, old(toc)@, old(body)@)->Ok_0.0);
        assert(body@ =~= place(*c, base as int, old(toc)@, old(body)@)->Ok_0.1);
    }
    Ok(())
}

/// Lays out every ordered section after a TOC that ends before `base`.
fn lay_out_sections<'a>(ordered: &Vec<ContainerSection<'a>>, base: usize) -> (laid: Result<
    (Vec<u8>, Vec<u8>),
    EncodeError,
>)
    ensures
        match laid {
            Ok((toc, body)) => lay_out(ordered@, ordered@.len(), base as int) == Ok::<
                (Seq<u8>, Seq<u8>),
                EncodeError,
            >((toc@, body@)),
            Err(e) => lay_out(ordered@, ordered@.len(), base as int) == Err::<
                (Seq<u8>, Seq<u8>),
                EncodeError,
            >(e),
        },
{
    let n = ordered.len();
    let mut toc = Writer::new();
    let mut body = Writer::new();
    let mut i: usize = 0;
    while i < n
        invariant
            i <= n,
            n == ordered@.len(),
            lay_out(ordered@, i as nat, base as int) == Ok::<(Seq<u8>, Seq<u8>), EncodeError>(
                (toc@, body@),
            ),
        decreases n - i,
    {
        match place_section(&ordered[i], base, &mut toc, &mut body) {
            Ok(()) => {},
            Err(e) => {
                proof {
                    lemma_lay_out_stop(ordered@, (i + 1) as nat, n as nat, base as int);
                }
                return Err(e);
            },
        }
        i = i + 1;
    }
    Ok((toc.finish(), body.finish()))
}

/// The TOC holds one 32-byte entry per section.
pub(crate) proof fn lemma_lay_out_toc_len<'a>(ordered: Seq<ContainerSection<'a>>, k: nat, base: int)
    requires
        lay_out(ordered, k, base) is Ok,
    ensures
        lay_out(ordered, k, base)->Ok_0.0.len() == TOC_ENTRY_LEN * k,
    decreases k,
{
    if k > 0 {
        lemma_lay_out_toc_len(ordered, (k - 1) as nat, base);
    }
}

/// Once a section is refused, every longer prefix is refused the same way.
proof fn lemma_lay_out_stop<'a>(ordered: Seq<ContainerSection<'a>>, i: nat, n: nat, base: int)
    requires
        i <= n,
        lay_out(ordered, i, base) is Err,
    ensures
        lay_out(ordered, n, base) == lay_out(ordered, i, base),
    decreases n - i,
{
    if i < n {
        lemma_lay_out_stop(ordered, i, (n - 1) as nat, base);
    }
}

/// [`write_container`], accepting already-encoded sections alongside fresh
/// ones.
pub fn write_container_sections<'a>(snapshot_id: u64, sections: &[ContainerSection<'a>]) -> (bytes:
    Result<Vec<u8>, EncodeError>)
    ensures
        match bytes {
            Ok(v) => spec_write_container_sections(snapshot_id, sections@) == Ok::<
                Seq<u8>,
                EncodeError,
            >(v@),
            Err(e) => spec_write_container_sections(snapshot_id, sections@) == Err::<
                Seq<u8>,
                EncodeError,
            >(e),
        },
{
    let ordered = canonical_order(sections)?;
    let n = ordered.len();
    let limit = (usize::MAX - CONTAINER_HEADER_LEN - 15) / TOC_ENTRY_LEN;
    if n > 0xffff_ffff || n > limit {
        proof {
            if n <= 0xffff_ffff {
                let m = usize::MAX - CONTAINER_HEADER_LEN - 15;
                assert(TOC_ENTRY_LEN * n > m) by (nonlinear_arith)
                    requires
                        n > limit,
                        limit == m / 32,
                        TOC_ENTRY_LEN == 32,
                        m >= 0,
                ;
            }
        }
        return Err(
            EncodeError::InvalidSectionLayout {
                book: ordered[n - 1].book(),
                reason: LayoutRefusal::TooManySections,
            },
        );
    }
    let toc_end = CONTAINER_HEADER_LEN + TOC_ENTRY_LEN * n;
    // Sections start after the TOC on the container-wide 16-byte grid. Because
    // every section starts 16-aligned and no field needs more than 16, a
    // field's section-relative alignment is also its absolute alignment.
    let align = SECTION_ALIGN as usize;
    let rem = toc_end % align;
    let base = if rem == 0 {
        toc_end
    } else {
        toc_end + (align - rem)
    };
    let (toc, body) = lay_out_sections(&ordered, base)?;
    proof {
        lemma_lay_out_toc_len(ordered@, n as nat, base as int);
    }
    let mut gap = Writer::new();
    gap.pad_to_from(CONTAINER_HEADER_LEN + toc.len(), align);
    let gap = gap.finish();
    proof {
        assert(base == aligned(toc_end as int, SECTION_ALIGN as int));
        assert(gap@ =~= zeros(base - toc_end));
    }
    let unsummed = container_header(n as u32, snapshot_id, 0);
    let parts = [unsummed.as_slice(), toc.as_slice(), gap.as_slice(), body.as_slice()];
    // Hashed with the checksum field still zero, exactly as a reader
    // re-derives it over the finished buffer.
    let checksum = integrity_checksum_parts(parts.as_slice());
    proof {
        lemma_concat_four(parts@, unsummed@, toc@, gap@, body@);
    }
    let mut out = container_header(n as u32, snapshot_id, checksum);
    let mut w = Writer::new();
    w.bytes(toc.as_slice());
    w.bytes(gap.as_slice());
    w.bytes(body.as_slice());
    assert(w@ =~= toc@ + gap@ + body@);
    let mut rest = w.finish();
    let ghost tail = rest@;
    out.append(&mut rest);
    proof {
        assert(tail =~= toc@ + zeros(base - toc_end) + body@);
        assert(unsummed@ + tail =~= unsummed@ + toc@ + gap@ + body@);
    }
    Ok(out)
}

/// Four parts concatenate to their sum.
proof fn lemma_concat_four(parts: Seq<&[u8]>, a: Seq<u8>, b: Seq<u8>, c: Seq<u8>, d: Seq<u8>)
    requires
        parts.len() == 4,
        parts[0]@ == a,
        parts[1]@ == b,
        parts[2]@ == c,
        parts[3]@ == d,
    ensures
        concat_parts(parts) == a + b + c + d,
{
    let views = parts.map_values(|part: &[u8]| part@);
    assert(views =~= seq![a, b, c, d]);
    reveal_with_fuel(Seq::<_>::flatten, 5);
    assert(seq![a, b, c, d].drop_first() =~= seq![b, c, d]);
    assert(seq![b, c, d].drop_first() =~= seq![c, d]);
    assert(seq![c, d].drop_first() =~= seq![d]);
    assert(seq![d].drop_first() =~= Seq::<Seq<u8>>::empty());
    assert(seq![d].flatten() =~= d);
    assert(seq![c, d].flatten() =~= c + d);
    assert(seq![b, c, d].flatten() =~= b + (c + d));
    assert(seq![a, b, c, d].flatten() =~= a + b + c + d);
}

/// Writes a canonical container: token sections in caller order, then the
/// finding sections in caller order, each 16-byte aligned, non-overlapping,
/// and integrity-checksummed.
pub fn write_container(snapshot_id: u64, sections: &[SectionPayload<'_>]) -> (bytes: Result<
    Vec<u8>,
    EncodeError,
>)
    ensures
        match bytes {
            Ok(v) => spec_write_container(snapshot_id, sections@) == Ok::<Seq<u8>, EncodeError>(
                v@,
            ),
            Err(e) => spec_write_container(snapshot_id, sections@) == Err::<Seq<u8>, EncodeError>(
                e,
            ),
        },
{
    let mut fresh: Vec<ContainerSection<'_>> = Vec::new();
    let mut i: usize = 0;
    while i < sections.len()
        invariant
            i <= sections@.len(),
            fresh@ == fresh_sections(sections@).take(i as int),
        decreases sections@.len() - i,
    {
        fresh.push(ContainerSection::Fresh(&sections[i]));
        proof {
            assert(fresh@ =~= fresh_sections(sections@).take(i + 1));
        }
        i = i + 1;
    }
    proof {
        assert(fresh@ =~= fresh_sections(sections@));
    }
    write_container_sections(snapshot_id, fresh.as_slice())
}

/// Every payload as a section to encode now.
pub open spec fn fresh_sections<'a>(sections: Seq<SectionPayload<'a>>) -> Seq<ContainerSection<'a>> {
    Seq::new(sections.len(), |i: int| ContainerSection::Fresh(&sections[i]))
}

/// What writing a container of fresh sections produces.
pub open spec fn spec_write_container<'a>(snapshot_id: u64, sections: Seq<SectionPayload<'a>>) -> Result<
    Seq<u8>,
    EncodeError,
> {
    spec_write_container_sections(snapshot_id, fresh_sections(sections))
}

} // verus!
