//! The container reader: header, checksum, table of contents, section header
//! and field directory, each stated as a specification over the bytes.

use vstd::prelude::*;
use vstd::utf8::valid_utf8;

use crate::book::{is_book_code, BookId};
use crate::error::DecodeError;
use crate::outside::{utf8_str, xxh3_64_hash};
use crate::primitives::{
    bytes_of, checksum_input, index_from_u64, integrity_checksum, le_u16, le_u32, le_u64,
    read_u16, read_u32, read_u64, spec_window, window, Cursor,
};
use crate::schema::{
    container_magic, section_magic, SectionKind, CHECKSUM_OMITTED, CONTAINER_CHECKSUM_OFFSET,
    CONTAINER_FLAGS_KNOWN, CONTAINER_HEADER_LEN, FORMAT_VERSION, SECTION_ALIGN, SECTION_CHECKSUM_OFFSET,
    SECTION_HEADER_LEN, SECTION_VERSION, TOC_ENTRY_LEN, TOC_FLAGS_KNOWN, DIRECTORY_ENTRY_LEN,
    TOKEN_SECTION_RULES_VERSION, FIELD_FLAG_REQUIRED, FIELD_FLAGS_KNOWN, SECTION_FLAG_POSITIONAL_IDS,
};
use crate::schema::token_field::is_positional_id_exclusive;

use super::{fields_view, Container, ContainerHeader, Section, SpecSection, ElementWidth, SectionField, SectionHeader, SpecField, TocEntry};

verus! {

// ------------------------------------------------------------ small facts

/// The four bytes at `at` are `magic`.
pub open spec fn has_magic(b: Seq<u8>, at: int, magic: Seq<u8>) -> bool {
    b[at] == magic[0] && b[at + 1] == magic[1] && b[at + 2] == magic[2] && b[at + 3] == magic[3]
}

/// Every byte in `[from, to)` is zero.
pub open spec fn all_zero(b: Seq<u8>, from: int, to: int) -> bool {
    forall|k: int| from <= k < to ==> #[trigger] b[k] == 0
}

pub(crate) fn check_zero(bytes: &[u8], from: usize, to: usize) -> (zero: bool)
    requires
        from <= to <= bytes@.len(),
    ensures
        zero == all_zero(bytes@, from as int, to as int),
{
    let mut k = from;
    while k < to
        invariant
            from <= k <= to <= bytes@.len(),
            all_zero(bytes@, from as int, k as int),
        decreases to - k,
    {
        if bytes[k] != 0 {
            return false;
        }
        k = k + 1;
    }
    true
}

fn check_magic(bytes: &[u8], at: usize, magic: [u8; 4]) -> (ok: bool)
    requires
        at + 4 <= bytes@.len(),
    ensures
        ok == has_magic(bytes@, at as int, magic@),
{
    bytes[at] == magic[0] && bytes[at + 1] == magic[1] && bytes[at + 2] == magic[2] && bytes[at
        + 3] == magic[3]
}

/// The book whose code is `code`.
pub open spec fn book_of_code(code: Seq<u8>) -> BookId {
    choose|b: BookId| b.is_valid() && b.code() == code
}

/// What three wire bytes naming a book decode to: invalid UTF-8 first, then a
/// well-formed string that is not a legal book code.
pub open spec fn spec_read_book(raw: Seq<u8>) -> Result<BookId, DecodeError> {
    if !valid_utf8(raw) {
        Err(DecodeError::InvalidUtf8)
    } else if !is_book_code(raw) {
        Err(DecodeError::InvalidToc)
    } else {
        Ok(book_of_code(raw))
    }
}

pub fn read_book(raw: &[u8]) -> (book: Result<BookId, DecodeError>)
    ensures
        book == spec_read_book(raw@),
        book matches Ok(b) ==> b.is_valid() && b.code() == raw@,
{
    if utf8_str(raw).is_none() {
        return Err(DecodeError::InvalidUtf8);
    }
    match BookId::from_bytes(raw) {
        Some(book) => {
            proof {
                let c = book_of_code(raw@);
                assert(book.is_valid() && book.code() == raw@);
                book.lemma_code(c);
            }
            Ok(book)
        },
        None => Err(DecodeError::InvalidToc),
    }
}

/// The integrity rule: zero means omitted, which only the transient reader
/// accepts; any other value must be the hash of the bytes with the checksum
/// field read as zero.
pub open spec fn spec_validate_checksum(
    bytes: Seq<u8>,
    checksum_offset: int,
    expected: u64,
    allow_omitted: bool,
) -> Result<(), DecodeError> {
    if expected == CHECKSUM_OMITTED {
        if allow_omitted {
            Ok(())
        } else {
            Err(DecodeError::ChecksumMismatch)
        }
    } else if xxh3_64_hash(checksum_input(bytes, checksum_offset)) != expected {
        Err(DecodeError::ChecksumMismatch)
    } else {
        Ok(())
    }
}

pub fn validate_checksum(bytes: &[u8], checksum_offset: usize, expected: u64, allow_omitted: bool) -> (r:
    Result<(), DecodeError>)
    ensures
        r == spec_validate_checksum(bytes@, checksum_offset as int, expected, allow_omitted),
{
    if expected == CHECKSUM_OMITTED {
        return if allow_omitted {
            Ok(())
        } else {
            Err(DecodeError::ChecksumMismatch)
        };
    }
    if integrity_checksum(bytes, checksum_offset) != expected {
        return Err(DecodeError::ChecksumMismatch);
    }
    Ok(())
}

// ------------------------------------------------------------ container header

/// What the 48-byte container header decodes to, rule by rule in reading
/// order.
pub open spec fn spec_container_header(b: Seq<u8>) -> Result<ContainerHeader, DecodeError> {
    if b.len() < CONTAINER_HEADER_LEN {
        Err(DecodeError::Truncated)
    } else if !has_magic(b, 0, container_magic()) {
        Err(DecodeError::BadMagic)
    } else if le_u16(b, 4) != FORMAT_VERSION {
        Err(DecodeError::UnsupportedVersion { found: le_u16(b, 4) })
    } else if le_u16(b, 6) != CONTAINER_HEADER_LEN {
        Err(DecodeError::InvalidSection)
    } else if le_u32(b, 8) & !CONTAINER_FLAGS_KNOWN != 0 {
        Err(DecodeError::UnsupportedFlags { found: le_u32(b, 8) })
    } else if !all_zero(b, 40, 48) {
        Err(DecodeError::InvalidSection)
    } else {
        Ok(
            ContainerHeader {
                format_version: le_u16(b, 4),
                flags: le_u32(b, 8),
                section_count: le_u32(b, 12),
                toc_offset: le_u64(b, 16),
                checksum: le_u64(b, 24),
                snapshot_id: le_u64(b, 32),
            },
        )
    }
}

pub fn read_container_header(bytes: &[u8]) -> (header: Result<ContainerHeader, DecodeError>)
    ensures
        header == spec_container_header(bytes@),
{
    if bytes.len() < CONTAINER_HEADER_LEN {
        return Err(DecodeError::Truncated);
    }
    let mut cursor = Cursor::new(bytes);
    if !check_magic(bytes, 0, crate::schema::container_magic_bytes()) {
        return Err(DecodeError::BadMagic);
    }
    let _ = cursor.take(4);
    let format_version = cursor.u16()?;
    if format_version != FORMAT_VERSION {
        return Err(DecodeError::UnsupportedVersion { found: format_version });
    }
    let header_len = cursor.u16()?;
    if header_len as usize != CONTAINER_HEADER_LEN {
        return Err(DecodeError::InvalidSection);
    }
    let flags = cursor.u32()?;
    if flags & !CONTAINER_FLAGS_KNOWN != 0 {
        return Err(DecodeError::UnsupportedFlags { found: flags });
    }
    let section_count = cursor.u32()?;
    let toc_offset = cursor.u64()?;
    let checksum = cursor.u64()?;
    let snapshot_id = cursor.u64()?;
    // Reserved bytes reject when set for the same reason unknown flag bits do:
    // a later version's field must not slip past a build that cannot honour it.
    if !check_zero(bytes, 40, 48) {
        return Err(DecodeError::InvalidSection);
    }
    Ok(
        ContainerHeader {
            format_version,
            flags,
            section_count,
            toc_offset,
            checksum,
            snapshot_id,
        },
    )
}

// ------------------------------------------------------------ table of contents

/// What the 32-byte TOC entry at `at` decodes to, given that the TOC occupies
/// `[toc_offset, toc_end)`. Rules apply in reading order.
pub open spec fn spec_toc_entry(b: Seq<u8>, at: int, toc_offset: u64, toc_end: u64) -> Result<
    TocEntry,
    DecodeError,
> {
    let version = le_u16(b, at + 4);
    let flags = le_u16(b, at + 6);
    let offset = le_u64(b, at + 8);
    let byte_len = le_u64(b, at + 16);
    if SectionKind::spec_from_u8(b[at]) is None {
        Err(DecodeError::InvalidDiscriminant)
    } else if spec_read_book(b.subrange(at + 1, at + 4)) is Err {
        Err(spec_read_book(b.subrange(at + 1, at + 4))->Err_0)
    } else if version != SECTION_VERSION {
        Err(DecodeError::UnsupportedVersion { found: version })
    } else if flags & !TOC_FLAGS_KNOWN != 0 {
        Err(DecodeError::UnsupportedFlags { found: flags as u32 })
    } else if offset % SECTION_ALIGN != 0 || offset < CONTAINER_HEADER_LEN {
        Err(DecodeError::InvalidToc)
    } else if byte_len < SECTION_HEADER_LEN {
        Err(DecodeError::InvalidToc)
    } else if offset + byte_len > u64::MAX {
        Err(DecodeError::OffsetOverflow)
    } else if spec_window(b, offset as int, byte_len as int) is Err {
        Err(spec_window(b, offset as int, byte_len as int)->Err_0)
    } else if offset < toc_end && offset + byte_len > toc_offset {
        Err(DecodeError::InvalidToc)
    } else {
        Ok(
            TocEntry {
                kind: SectionKind::spec_from_u8(b[at])->0,
                book: spec_read_book(b.subrange(at + 1, at + 4))->Ok_0,
                section_version: version,
                flags,
                offset,
                byte_len,
                source_hash: le_u64(b, at + 24),
            },
        )
    }
}

/// The first `n` TOC entries, or the first error among them.
pub open spec fn spec_toc_entries(b: Seq<u8>, toc_offset: u64, toc_end: u64, n: nat) -> Result<
    Seq<TocEntry>,
    DecodeError,
>
    decreases n,
{
    if n == 0 {
        Ok(Seq::empty())
    } else {
        match spec_toc_entries(b, toc_offset, toc_end, (n - 1) as nat) {
            Err(e) => Err(e),
            Ok(prev) => match spec_toc_entry(
                b,
                toc_offset + TOC_ENTRY_LEN * (n - 1),
                toc_offset,
                toc_end,
            ) {
                Err(e) => Err(e),
                Ok(entry) => Ok(prev.push(entry)),
            },
        }
    }
}

/// Two byte ranges `[start, end)` share a byte.
pub open spec fn ranges_overlap(a_start: int, a_end: int, b_start: int, b_end: int) -> bool {
    a_start < b_end && b_start < a_end
}

/// Entries `i` and `j` neither overlap nor share a `(kind, book)` key.
pub open spec fn toc_pair_ok(entries: Seq<TocEntry>, i: int, j: int) -> bool {
    &&& !ranges_overlap(
        entries[i].offset as int,
        entries[i].offset + entries[i].byte_len,
        entries[j].offset as int,
        entries[j].offset + entries[j].byte_len,
    )
    &&& !(entries[i].kind == entries[j].kind && entries[i].book == entries[j].book)
}

/// Entry `j` is a token section with the book and source hash of entry `i`.
pub open spec fn pairs_with(entries: Seq<TocEntry>, i: int, j: int) -> bool {
    entries[j].kind == SectionKind::Token && entries[j].book == entries[i].book
        && entries[j].source_hash == entries[i].source_hash
}

/// Entry `i` is not a finding section, or it has its token section.
pub open spec fn toc_finding_ok(entries: Seq<TocEntry>, i: int) -> bool {
    entries[i].kind == SectionKind::Finding ==> exists|j: int|
        0 <= j < entries.len() && #[trigger] pairs_with(entries, i, j)
}

/// The cross-entry TOC rules: no two sections overlap, no `(kind, book)`
/// repeats, and every finding section has a token section with the same book
/// and source hash.
#[verifier::opaque]
pub open spec fn toc_consistent(entries: Seq<TocEntry>) -> bool {
    &&& forall|i: int, j: int|
        0 <= i < entries.len() && 0 <= j < entries.len() && i != j ==> #[trigger] toc_pair_ok(
            entries,
            i,
            j,
        )
    &&& forall|i: int| 0 <= i < entries.len() ==> #[trigger] toc_finding_ok(entries, i)
}

/// What the TOC a validated header points at decodes to.
pub open spec fn spec_read_toc(b: Seq<u8>, header: ContainerHeader) -> Result<
    Seq<TocEntry>,
    DecodeError,
> {
    let toc_len = header.section_count * TOC_ENTRY_LEN;
    if header.toc_offset < CONTAINER_HEADER_LEN || header.toc_offset % SECTION_ALIGN != 0 {
        Err(DecodeError::InvalidToc)
    } else if spec_window(b, header.toc_offset as int, toc_len) is Err {
        Err(spec_window(b, header.toc_offset as int, toc_len)->Err_0)
    } else {
        match spec_toc_entries(
            b,
            header.toc_offset,
            (header.toc_offset + toc_len) as u64,
            header.section_count as nat,
        ) {
            Err(e) => Err(e),
            Ok(entries) => if toc_consistent(entries) {
                Ok(entries)
            } else {
                Err(DecodeError::InvalidToc)
            },
        }
    }
}

fn read_toc_entry(bytes: &[u8], at: usize, toc_offset: u64, toc_end: u64) -> (entry: Result<
    TocEntry,
    DecodeError,
>)
    requires
        at + TOC_ENTRY_LEN <= bytes@.len(),
    ensures
        entry == spec_toc_entry(bytes@, at as int, toc_offset, toc_end),
{
    let kind = match SectionKind::from_u8(bytes[at]) {
        Some(kind) => kind,
        None => { return Err(DecodeError::InvalidDiscriminant); },
    };
    let raw = vstd::slice::slice_subrange(bytes, at + 1, at + 4);
    let book = read_book(raw)?;
    let section_version = read_u16(bytes, at + 4);
    if section_version != SECTION_VERSION {
        return Err(DecodeError::UnsupportedVersion { found: section_version });
    }
    let flags = read_u16(bytes, at + 6);
    if flags & !TOC_FLAGS_KNOWN != 0 {
        return Err(DecodeError::UnsupportedFlags { found: flags as u32 });
    }
    let offset = read_u64(bytes, at + 8);
    let byte_len = read_u64(bytes, at + 16);
    let source_hash = read_u64(bytes, at + 24);
    if offset % SECTION_ALIGN != 0 || offset < CONTAINER_HEADER_LEN as u64 {
        return Err(DecodeError::InvalidToc);
    }
    // Every section carries a full section header, so a shorter declared
    // length can only come from a producer that never wrote one.
    if byte_len < SECTION_HEADER_LEN as u64 {
        return Err(DecodeError::InvalidToc);
    }
    let end = match offset.checked_add(byte_len) {
        Some(end) => end,
        None => { return Err(DecodeError::OffsetOverflow); },
    };
    // Proves the range exists before anything downstream reads it.
    window(bytes, offset, byte_len)?;
    if offset < toc_end && end > toc_offset {
        return Err(DecodeError::InvalidToc);
    }
    Ok(TocEntry { kind, book, section_version, flags, offset, byte_len, source_hash })
}

/// Whether entry `i` breaks no cross-entry rule against any other entry.
fn entry_consistent(entries: &Vec<TocEntry>, i: usize) -> (ok: bool)
    requires
        i < entries@.len(),
        forall|k: int|
            0 <= k < entries@.len() ==> entries@[k].offset + entries@[k].byte_len <= u64::MAX,
    ensures
        ok == ((forall|j: int|
            0 <= j < entries@.len() && j != i ==> #[trigger] toc_pair_ok(entries@, i as int, j))
            && toc_finding_ok(entries@, i as int)),
{
    let n = entries.len();
    let a = entries[i];
    let mut paired = false;
    let mut j: usize = 0;
    while j < n
        invariant
            n == entries@.len(),
            i < n,
            j <= n,
            a == entries@[i as int],
            forall|k: int|
                0 <= k < entries@.len() ==> entries@[k].offset + entries@[k].byte_len <= u64::MAX,
            forall|b: int| 0 <= b < j && b != i ==> #[trigger] toc_pair_ok(entries@, i as int, b),
            paired <==> exists|b: int| 0 <= b < j && #[trigger] pairs_with(entries@, i as int, b),
        decreases n - j,
    {
        let b = entries[j];
        if j != i {
            if a.offset < b.offset + b.byte_len && b.offset < a.offset + a.byte_len {
                assert(!toc_pair_ok(entries@, i as int, j as int));
                return false;
            }
            if a.kind == b.kind && a.book == b.book {
                assert(!toc_pair_ok(entries@, i as int, j as int));
                return false;
            }
        }
        if b.kind == SectionKind::Token && b.book == a.book && b.source_hash == a.source_hash {
            paired = true;
            assert(pairs_with(entries@, i as int, j as int));
        }
        proof {
            if !paired {
                assert(!pairs_with(entries@, i as int, j as int));
            }
        }
        j = j + 1;
    }
    if a.kind == SectionKind::Finding && !paired {
        return false;
    }
    true
}

/// The cross-entry rules, checked entry by entry.
fn validate_toc_consistency(entries: &Vec<TocEntry>) -> (ok: bool)
    requires
        forall|k: int|
            0 <= k < entries@.len() ==> entries@[k].offset + entries@[k].byte_len <= u64::MAX,
    ensures
        ok == toc_consistent(entries@),
{
    reveal(toc_consistent);
    let n = entries.len();
    let mut i: usize = 0;
    while i < n
        invariant
            n == entries@.len(),
            i <= n,
            forall|k: int|
                0 <= k < entries@.len() ==> entries@[k].offset + entries@[k].byte_len <= u64::MAX,
            forall|a: int, b: int|
                0 <= a < i && 0 <= b < n && a != b ==> #[trigger] toc_pair_ok(entries@, a, b),
            forall|a: int| 0 <= a < i ==> #[trigger] toc_finding_ok(entries@, a),
        decreases n - i,
    {
        if !entry_consistent(entries, i) {
            proof {
                reveal(toc_consistent);
            }
            return false;
        }
        i = i + 1;
    }
    true
}

/// Reads `count` consecutive TOC entries starting at `toc_offset`.
fn read_toc_entries(bytes: &[u8], toc_offset: u64, toc_end: u64, count: u32) -> (entries: Result<
    Vec<TocEntry>,
    DecodeError,
>)
    requires
        toc_end == toc_offset + count * TOC_ENTRY_LEN,
        toc_end <= bytes@.len(),
    ensures
        match entries {
            Ok(v) => spec_toc_entries(bytes@, toc_offset, toc_end, count as nat) == Ok::<
                Seq<TocEntry>,
                DecodeError,
            >(v@),
            Err(e) => spec_toc_entries(bytes@, toc_offset, toc_end, count as nat) == Err::<
                Seq<TocEntry>,
                DecodeError,
            >(e),
        },
{
    let len = bytes.len();
    let n = count as usize;
    let base = toc_offset as usize;
    let mut entries: Vec<TocEntry> = Vec::with_capacity(n);
    let mut i: usize = 0;
    while i < n
        invariant
            i <= n,
            n == count,
            base == toc_offset,
            toc_end == toc_offset + count * TOC_ENTRY_LEN,
            toc_end <= bytes@.len(),
            len == bytes@.len(),
            spec_toc_entries(bytes@, toc_offset, toc_end, i as nat) == Ok::<
                Seq<TocEntry>,
                DecodeError,
            >(entries@),
        decreases n - i,
    {
        assert(TOC_ENTRY_LEN * i + TOC_ENTRY_LEN <= count * TOC_ENTRY_LEN) by (nonlinear_arith)
            requires
                i < n,
                n == count,
        ;
        assert(base + TOC_ENTRY_LEN * i + TOC_ENTRY_LEN <= len);
        let at = base + TOC_ENTRY_LEN * i;
        match read_toc_entry(bytes, at, toc_offset, toc_end) {
            Ok(entry) => {
                entries.push(entry);
            },
            Err(e) => {
                proof {
                    lemma_toc_entries_stop(bytes@, toc_offset, toc_end, i as nat, count as nat);
                }
                return Err(e);
            },
        }
        i = i + 1;
    }
    Ok(entries)
}

/// Reads the TOC of a validated header.
pub fn read_toc(bytes: &[u8], header: &ContainerHeader) -> (toc: Result<Vec<TocEntry>, DecodeError>)
    ensures
        match toc {
            Ok(entries) => spec_read_toc(bytes@, *header) == Ok::<Seq<TocEntry>, DecodeError>(
                entries@,
            ),
            Err(e) => spec_read_toc(bytes@, *header) == Err::<Seq<TocEntry>, DecodeError>(e),
        },
{
    if header.toc_offset < CONTAINER_HEADER_LEN as u64 || header.toc_offset % SECTION_ALIGN != 0 {
        return Err(DecodeError::InvalidToc);
    }
    let toc_len = (header.section_count as u64) * (TOC_ENTRY_LEN as u64);
    // Bounds first, capacity second: a declared count becomes an allocation
    // size only after the bytes it claims are proved to exist.
    window(bytes, header.toc_offset, toc_len)?;
    let toc_end = header.toc_offset + toc_len;
    let entries = read_toc_entries(bytes, header.toc_offset, toc_end, header.section_count)?;
    proof {
        lemma_toc_entries_extents(bytes@, header.toc_offset, toc_end, header.section_count as nat);
    }
    if !validate_toc_consistency(&entries) {
        return Err(DecodeError::InvalidToc);
    }
    Ok(entries)
}

/// Once an entry fails, every longer prefix fails with the same error.
proof fn lemma_toc_entries_stop(b: Seq<u8>, toc_offset: u64, toc_end: u64, i: nat, n: nat)
    requires
        i < n,
        spec_toc_entries(b, toc_offset, toc_end, i) is Ok,
        spec_toc_entry(b, toc_offset + TOC_ENTRY_LEN * i, toc_offset, toc_end) is Err,
    ensures
        spec_toc_entries(b, toc_offset, toc_end, n) == Err::<Seq<TocEntry>, DecodeError>(
            spec_toc_entry(b, toc_offset + TOC_ENTRY_LEN * i, toc_offset, toc_end)->Err_0,
        ),
    decreases n - i,
{
    if n == i + 1 {
    } else {
        lemma_toc_entries_stop(b, toc_offset, toc_end, i, (n - 1) as nat);
    }
}

/// Every decoded entry's range fits in `u64`, and there are as many entries as
/// asked for.
proof fn lemma_toc_entries_extents(b: Seq<u8>, toc_offset: u64, toc_end: u64, n: nat)
    requires
        spec_toc_entries(b, toc_offset, toc_end, n) is Ok,
    ensures
        spec_toc_entries(b, toc_offset, toc_end, n)->Ok_0.len() == n,
        forall|i: int|
            0 <= i < n ==> #[trigger] spec_toc_entries(b, toc_offset, toc_end, n)->Ok_0[i].offset
                + spec_toc_entries(b, toc_offset, toc_end, n)->Ok_0[i].byte_len <= u64::MAX,
    decreases n,
{
    if n > 0 {
        lemma_toc_entries_extents(b, toc_offset, toc_end, (n - 1) as nat);
    }
}

// ------------------------------------------------------------ section header

/// The TOC entry and the section header restate kind, book, source hash and
/// length; they must agree.
pub open spec fn header_matches_entry(header: SectionHeader, entry: TocEntry) -> bool {
    header.kind == entry.kind && header.book == entry.book && header.source_hash
        == entry.source_hash && header.section_len == entry.byte_len
}

/// What the 64-byte section header at the start of `sb` decodes to, with its
/// directory entry count, cross-checked against `entry` when there is one.
/// Rules apply in reading order.
pub open spec fn spec_section_header(sb: Seq<u8>, entry: Option<TocEntry>) -> Result<
    (SectionHeader, u16),
    DecodeError,
> {
    let format_version = le_u16(sb, 4);
    let rules_version = le_u16(sb, 6);
    let kind = SectionKind::spec_from_u8(sb[8])->0;
    let flags = sb[9];
    let book = spec_read_book(sb.subrange(10, 13));
    let directory_count = le_u16(sb, 20);
    let header = SectionHeader {
        format_version,
        rules_version,
        kind,
        flags,
        book: book->Ok_0,
        record_count: le_u32(sb, 16),
        source_hash: le_u64(sb, 24),
        section_len: le_u64(sb, 32),
        checksum: le_u64(sb, 40),
        source_len: le_u64(sb, 48),
        catalog_stamp: le_u64(sb, 56),
    };
    if sb.len() < SECTION_HEADER_LEN {
        Err(DecodeError::Truncated)
    } else if !has_magic(sb, 0, section_magic()) {
        Err(DecodeError::BadMagic)
    } else if format_version != FORMAT_VERSION {
        Err(DecodeError::UnsupportedVersion { found: format_version })
    } else if SectionKind::spec_from_u8(sb[8]) is None {
        Err(DecodeError::InvalidDiscriminant)
    } else if book is Err {
        Err(book->Err_0)
    } else if !all_zero(sb, 13, 16) {
        Err(DecodeError::InvalidSection)
    } else if le_u16(sb, 22) != DIRECTORY_ENTRY_LEN {
        Err(DecodeError::InvalidSection)
    } else if entry matches Some(e) && !header_matches_entry(header, e) {
        Err(DecodeError::InvalidSection)
    } else if flags & !kind.spec_known_section_flags() != 0 {
        Err(DecodeError::UnsupportedFlags { found: flags as u32 })
    } else if kind == SectionKind::Token && rules_version != TOKEN_SECTION_RULES_VERSION {
        Err(DecodeError::InvalidSection)
    } else if SECTION_HEADER_LEN + directory_count * DIRECTORY_ENTRY_LEN > header.section_len {
        Err(DecodeError::Truncated)
    } else {
        Ok((header, directory_count))
    }
}

/// Reads and validates a section header; the directory entry count is a
/// layout detail the public header deliberately does not carry.
pub fn read_section_header(sb: &[u8], entry: Option<&TocEntry>) -> (out: Result<
    (SectionHeader, u16),
    DecodeError,
>)
    ensures
        out == spec_section_header(
            sb@,
            match entry {
                Some(e) => Some(*e),
                None => None,
            },
        ),
{
    if sb.len() < SECTION_HEADER_LEN {
        return Err(DecodeError::Truncated);
    }
    if !check_magic(sb, 0, crate::schema::section_magic_bytes()) {
        return Err(DecodeError::BadMagic);
    }
    let format_version = read_u16(sb, 4);
    if format_version != FORMAT_VERSION {
        return Err(DecodeError::UnsupportedVersion { found: format_version });
    }
    let rules_version = read_u16(sb, 6);
    let kind = match SectionKind::from_u8(sb[8]) {
        Some(kind) => kind,
        None => { return Err(DecodeError::InvalidDiscriminant); },
    };
    let flags = sb[9];
    let book = read_book(vstd::slice::slice_subrange(sb, 10, 13))?;
    if !check_zero(sb, 13, 16) {
        return Err(DecodeError::InvalidSection);
    }
    let record_count = read_u32(sb, 16);
    let directory_count = read_u16(sb, 20);
    if read_u16(sb, 22) as usize != DIRECTORY_ENTRY_LEN {
        return Err(DecodeError::InvalidSection);
    }
    let header = SectionHeader {
        format_version,
        rules_version,
        kind,
        flags,
        book,
        record_count,
        source_hash: read_u64(sb, 24),
        section_len: read_u64(sb, 32),
        checksum: read_u64(sb, 40),
        source_len: read_u64(sb, 48),
        catalog_stamp: read_u64(sb, 56),
    };
    // A decoder trusting the TOC and indexing with the header would hand back
    // a different book's bytes than the caller asked for.
    if let Some(e) = entry {
        if header.kind != e.kind || header.book != e.book || header.source_hash != e.source_hash
            || header.section_len != e.byte_len {
            return Err(DecodeError::InvalidSection);
        }
    }
    // Flag bits are kind-specific: the token-only positional-ids bit is not a
    // meaningful statement about a finding section.
    if flags & !kind.known_section_flags() != 0 {
        return Err(DecodeError::UnsupportedFlags { found: flags as u32 });
    }
    if kind == SectionKind::Token && rules_version != crate::schema::TOKEN_SECTION_RULES_VERSION {
        return Err(DecodeError::InvalidSection);
    }
    let directory_len = (directory_count as u64) * (DIRECTORY_ENTRY_LEN as u64);
    if (SECTION_HEADER_LEN as u64) + directory_len > header.section_len {
        return Err(DecodeError::Truncated);
    }
    Ok((header, directory_count))
}

// ------------------------------------------------------------ field directory

/// One field-directory entry as the wire states it.
#[derive(Debug, Clone, Copy)]
pub struct DirEntry {
    pub id: u16,
    pub width: ElementWidth,
    pub required: bool,
    pub offset: u32,
    pub byte_len: u32,
    pub count: u32,
}

/// Some earlier entry already used field id `id`.
pub open spec fn id_seen(prev: Seq<DirEntry>, id: u16) -> bool {
    exists|k: int| 0 <= k < prev.len() && #[trigger] prev[k].id == id
}

/// What the 16-byte directory entry at `at` decodes to, given the entries
/// before it. Rules apply in reading order.
pub open spec fn spec_dir_entry(
    sb: Seq<u8>,
    at: int,
    kind: SectionKind,
    payload_start: int,
    prev: Seq<DirEntry>,
) -> Result<DirEntry, DecodeError> {
    let id = le_u16(sb, at);
    let width = ElementWidth::spec_from_u8(sb[at + 2]);
    let flags = sb[at + 3];
    let offset = le_u32(sb, at + 4);
    let byte_len = le_u32(sb, at + 8);
    let count = le_u32(sb, at + 12);
    let required = flags & FIELD_FLAG_REQUIRED != 0;
    let known = kind.spec_field(id);
    if width is None {
        Err(DecodeError::InvalidSection)
    } else if flags & !FIELD_FLAGS_KNOWN != 0 {
        Err(DecodeError::UnsupportedFlags { found: flags as u32 })
    } else if known matches Some(f) && f.required != required {
        Err(DecodeError::InvalidSection)
    } else if known matches Some(f) && f.element_width matches Some(w) && w
        != width->0.spec_as_u8() {
        Err(DecodeError::InvalidSection)
    } else if known is None && required {
        Err(DecodeError::InvalidSection)
    } else if id_seen(prev, id) {
        Err(DecodeError::InvalidSection)
    } else if offset < payload_start {
        Err(DecodeError::InvalidSection)
    } else if (offset as int) % (width->0.spec_align() as int) != 0 {
        Err(DecodeError::InvalidSection)
    } else if width->0 != ElementWidth::Variable && count * width->0.spec_as_u8() != byte_len {
        Err(DecodeError::InvalidSection)
    } else if spec_window(sb, offset as int, byte_len as int) is Err {
        Err(spec_window(sb, offset as int, byte_len as int)->Err_0)
    } else {
        Ok(DirEntry { id, width: width->0, required, offset, byte_len, count })
    }
}

/// The first `n` directory entries, or the first error among them.
pub open spec fn spec_dir_entries(sb: Seq<u8>, kind: SectionKind, payload_start: int, n: nat) -> Result<
    Seq<DirEntry>,
    DecodeError,
>
    decreases n,
{
    if n == 0 {
        Ok(Seq::empty())
    } else {
        match spec_dir_entries(sb, kind, payload_start, (n - 1) as nat) {
            Err(e) => Err(e),
            Ok(prev) => match spec_dir_entry(
                sb,
                SECTION_HEADER_LEN + DIRECTORY_ENTRY_LEN * (n - 1),
                kind,
                payload_start,
                prev,
            ) {
                Err(e) => Err(e),
                Ok(entry) => Ok(prev.push(entry)),
            },
        }
    }
}

/// No two field payloads share a byte.
pub open spec fn dir_disjoint(es: Seq<DirEntry>) -> bool {
    forall|i: int, j: int|
        0 <= i < es.len() && 0 <= j < es.len() && i != j ==> !#[trigger] ranges_overlap(
            es[i].offset as int,
            es[i].offset + es[i].byte_len,
            es[j].offset as int,
            es[j].offset + es[j].byte_len,
        )
}

/// Some entry carries field id `id`.
pub open spec fn has_field_id(es: Seq<DirEntry>, id: u16) -> bool {
    exists|k: int| 0 <= k < es.len() && #[trigger] es[k].id == id
}

/// Every field the schema requires for `kind` is present.
pub open spec fn required_present(kind: SectionKind, es: Seq<DirEntry>) -> bool {
    forall|i: int|
        0 <= i < kind.spec_field_table().len() && #[trigger] kind.spec_field_table()[i].required
            ==> has_field_id(es, kind.spec_field_table()[i].id)
}

/// A section claiming positional ids carries neither explicit-id column.
pub open spec fn positional_consistent(header: SectionHeader, es: Seq<DirEntry>) -> bool {
    (header.kind == SectionKind::Token && header.flags & SECTION_FLAG_POSITIONAL_IDS != 0)
        ==> forall|k: int| 0 <= k < es.len() ==> !is_positional_id_exclusive(#[trigger] es[k].id)
}

/// The payload an entry names, as a field.
pub open spec fn entry_field(sb: Seq<u8>, e: DirEntry) -> SpecField {
    SpecField {
        id: e.id,
        width: e.width,
        required: e.required,
        count: e.count,
        bytes: sb.subrange(e.offset as int, e.offset + e.byte_len),
    }
}

/// The fields of the entries whose id the schema knows, in directory order;
/// unknown optional entries are skipped.
pub open spec fn known_fields(sb: Seq<u8>, kind: SectionKind, es: Seq<DirEntry>) -> Seq<SpecField>
    decreases es.len(),
{
    if es.len() == 0 {
        Seq::empty()
    } else {
        let prev = known_fields(sb, kind, es.drop_last());
        if kind.spec_field(es.last().id) is Some {
            prev.push(entry_field(sb, es.last()))
        } else {
            prev
        }
    }
}

/// What the field directory of a validated section header decodes to.
pub open spec fn spec_directory(sb: Seq<u8>, header: SectionHeader, directory_count: u16) -> Result<
    Seq<SpecField>,
    DecodeError,
> {
    let directory_len = directory_count * DIRECTORY_ENTRY_LEN;
    let payload_start = SECTION_HEADER_LEN + directory_len;
    if spec_window(sb, SECTION_HEADER_LEN as int, directory_len) is Err {
        Err(spec_window(sb, SECTION_HEADER_LEN as int, directory_len)->Err_0)
    } else {
        match spec_dir_entries(sb, header.kind, payload_start, directory_count as nat) {
            Err(e) => Err(e),
            Ok(es) => if !dir_disjoint(es) {
                Err(DecodeError::InvalidSection)
            } else if !required_present(header.kind, es) {
                Err(DecodeError::InvalidSection)
            } else if !positional_consistent(header, es) {
                Err(DecodeError::InvalidSection)
            } else {
                Ok(known_fields(sb, header.kind, es))
            },
        }
    }
}

/// Whether some entry already uses field id `id`.
fn id_in(prev: &Vec<DirEntry>, id: u16) -> (seen: bool)
    ensures
        seen == id_seen(prev@, id),
{
    let mut k: usize = 0;
    while k < prev.len()
        invariant
            k <= prev@.len(),
            forall|j: int| 0 <= j < k ==> prev@[j].id != id,
        decreases prev@.len() - k,
    {
        if prev[k].id == id {
            return true;
        }
        k = k + 1;
    }
    false
}

fn read_dir_entry(sb: &[u8], at: usize, kind: SectionKind, payload_start: u64, prev: &Vec<DirEntry>) -> (entry: Result<
    DirEntry,
    DecodeError,
>)
    requires
        at + DIRECTORY_ENTRY_LEN <= sb@.len(),
    ensures
        entry == spec_dir_entry(sb@, at as int, kind, payload_start as int, prev@),
{
    let len = sb.len();
    assert(at + DIRECTORY_ENTRY_LEN <= len);
    let id = read_u16(sb, at);
    let width = match ElementWidth::from_u8(sb[at + 2]) {
        Some(width) => width,
        None => { return Err(DecodeError::InvalidSection); },
    };
    let flags = sb[at + 3];
    if flags & !FIELD_FLAGS_KNOWN != 0 {
        return Err(DecodeError::UnsupportedFlags { found: flags as u32 });
    }
    let required = flags & FIELD_FLAG_REQUIRED != 0;
    let offset = read_u32(sb, at + 4);
    let byte_len = read_u32(sb, at + 8);
    let count = read_u32(sb, at + 12);
    match kind.field(id) {
        // A known id's required-ness and width are fixed by the schema; a
        // producer that disagrees is describing a different format.
        Some(known) => {
            if known.required != required {
                return Err(DecodeError::InvalidSection);
            }
            if let Some(w) = known.element_width {
                if w != width.as_u8() {
                    return Err(DecodeError::InvalidSection);
                }
            }
        },
        // Unknown ids are the forward-compatibility hinge: skip an optional
        // one, refuse a required one.
        None => {
            if required {
                return Err(DecodeError::InvalidSection);
            }
        },
    }
    if id_in(prev, id) {
        return Err(DecodeError::InvalidSection);
    }
    // A payload inside the header/directory region would alias the very bytes
    // that describe it.
    if (offset as u64) < payload_start {
        return Err(DecodeError::InvalidSection);
    }
    let align = width.align() as u32;
    assert(align == width.spec_align());
    if offset % align != 0 {
        assert((offset as int) % (width.spec_align() as int) != 0);
        return Err(DecodeError::InvalidSection);
    }
    let w = width.as_u8() as u64;
    assert((count as u64) * w <= u64::MAX) by (nonlinear_arith)
        requires
            w <= 16,
    ;
    if width != ElementWidth::Variable && (count as u64) * w != byte_len as u64 {
        return Err(DecodeError::InvalidSection);
    }
    window(sb, offset as u64, byte_len as u64)?;
    Ok(DirEntry { id, width, required, offset, byte_len, count })
}

/// Once an entry fails, every longer prefix fails with the same error.
proof fn lemma_dir_entries_stop(
    sb: Seq<u8>,
    kind: SectionKind,
    payload_start: int,
    i: nat,
    n: nat,
    prev: Seq<DirEntry>,
)
    requires
        i < n,
        spec_dir_entries(sb, kind, payload_start, i) == Ok::<Seq<DirEntry>, DecodeError>(prev),
        spec_dir_entry(sb, SECTION_HEADER_LEN + DIRECTORY_ENTRY_LEN * i, kind, payload_start, prev)
            is Err,
    ensures
        spec_dir_entries(sb, kind, payload_start, n) == Err::<Seq<DirEntry>, DecodeError>(
            spec_dir_entry(
                sb,
                SECTION_HEADER_LEN + DIRECTORY_ENTRY_LEN * i,
                kind,
                payload_start,
                prev,
            )->Err_0,
        ),
    decreases n - i,
{
    if n == i + 1 {
    } else {
        lemma_dir_entries_stop(sb, kind, payload_start, i, (n - 1) as nat, prev);
    }
}

/// Every decoded entry names a payload inside the section, and there are as
/// many entries as asked for.
proof fn lemma_dir_entries_extents(sb: Seq<u8>, kind: SectionKind, payload_start: int, n: nat)
    requires
        spec_dir_entries(sb, kind, payload_start, n) is Ok,
    ensures
        spec_dir_entries(sb, kind, payload_start, n)->Ok_0.len() == n,
        forall|i: int|
            0 <= i < n ==> #[trigger] spec_dir_entries(sb, kind, payload_start, n)->Ok_0[i].offset
                + spec_dir_entries(sb, kind, payload_start, n)->Ok_0[i].byte_len <= sb.len(),
    decreases n,
{
    if n > 0 {
        lemma_dir_entries_extents(sb, kind, payload_start, (n - 1) as nat);
    }
}

fn read_dir_entries(sb: &[u8], kind: SectionKind, payload_start: u64, count: u16) -> (entries: Result<
    Vec<DirEntry>,
    DecodeError,
>)
    requires
        payload_start == SECTION_HEADER_LEN + count * DIRECTORY_ENTRY_LEN,
        payload_start <= sb@.len(),
    ensures
        match entries {
            Ok(v) => spec_dir_entries(sb@, kind, payload_start as int, count as nat) == Ok::<
                Seq<DirEntry>,
                DecodeError,
            >(v@),
            Err(e) => spec_dir_entries(sb@, kind, payload_start as int, count as nat) == Err::<
                Seq<DirEntry>,
                DecodeError,
            >(e),
        },
{
    let n = count as usize;
    let mut entries: Vec<DirEntry> = Vec::with_capacity(n);
    let mut i: usize = 0;
    while i < n
        invariant
            i <= n,
            n == count,
            payload_start == SECTION_HEADER_LEN + count * DIRECTORY_ENTRY_LEN,
            payload_start <= sb@.len(),
            spec_dir_entries(sb@, kind, payload_start as int, i as nat) == Ok::<
                Seq<DirEntry>,
                DecodeError,
            >(entries@),
        decreases n - i,
    {
        let at = SECTION_HEADER_LEN + DIRECTORY_ENTRY_LEN * i;
        match read_dir_entry(sb, at, kind, payload_start, &entries) {
            Ok(entry) => {
                entries.push(entry);
            },
            Err(e) => {
                proof {
                    lemma_dir_entries_stop(
                        sb@,
                        kind,
                        payload_start as int,
                        i as nat,
                        count as nat,
                        entries@,
                    );
                }
                return Err(e);
            },
        }
        i = i + 1;
    }
    Ok(entries)
}

/// Whether no two field payloads share a byte, checked pair by pair.
fn dir_entries_disjoint(es: &Vec<DirEntry>) -> (ok: bool)
    ensures
        ok == dir_disjoint(es@),
{
    let n = es.len();
    let mut i: usize = 0;
    while i < n
        invariant
            n == es@.len(),
            i <= n,
            forall|a: int, b: int|
                0 <= a < i && 0 <= b < n && a != b ==> !#[trigger] ranges_overlap(
                    es@[a].offset as int,
                    es@[a].offset + es@[a].byte_len,
                    es@[b].offset as int,
                    es@[b].offset + es@[b].byte_len,
                ),
        decreases n - i,
    {
        let mut j: usize = 0;
        while j < n
            invariant
                n == es@.len(),
                i < n,
                j <= n,
                forall|a: int, b: int|
                    0 <= a < i && 0 <= b < n && a != b ==> !#[trigger] ranges_overlap(
                        es@[a].offset as int,
                        es@[a].offset + es@[a].byte_len,
                        es@[b].offset as int,
                        es@[b].offset + es@[b].byte_len,
                    ),
                forall|b: int|
                    0 <= b < j && b != i ==> !#[trigger] ranges_overlap(
                        es@[i as int].offset as int,
                        es@[i as int].offset + es@[i as int].byte_len,
                        es@[b].offset as int,
                        es@[b].offset + es@[b].byte_len,
                    ),
            decreases n - j,
        {
            let a = es[i];
            let b = es[j];
            if j != i && (a.offset as u64) < (b.offset as u64) + (b.byte_len as u64) && (b.offset as u64)
                < (a.offset as u64) + (a.byte_len as u64) {
                assert(ranges_overlap(
                    es@[i as int].offset as int,
                    es@[i as int].offset + es@[i as int].byte_len,
                    es@[j as int].offset as int,
                    es@[j as int].offset + es@[j as int].byte_len,
                ));
                return false;
            }
            j = j + 1;
        }
        i = i + 1;
    }
    true
}

/// Whether some entry carries field id `id`.
fn find_field_id(es: &Vec<DirEntry>, id: u16) -> (found: bool)
    ensures
        found == has_field_id(es@, id),
{
    let mut k: usize = 0;
    while k < es.len()
        invariant
            k <= es@.len(),
            forall|j: int| 0 <= j < k ==> es@[j].id != id,
        decreases es@.len() - k,
    {
        if es[k].id == id {
            return true;
        }
        k = k + 1;
    }
    false
}

/// Whether every schema-required field of `kind` is present.
fn required_fields_present(kind: SectionKind, es: &Vec<DirEntry>) -> (ok: bool)
    ensures
        ok == required_present(kind, es@),
{
    let table = kind.field_table();
    let mut i: usize = 0;
    while i < table.len()
        invariant
            table@ == kind.spec_field_table(),
            i <= table@.len(),
            forall|k: int|
                0 <= k < i && #[trigger] kind.spec_field_table()[k].required ==> has_field_id(
                    es@,
                    kind.spec_field_table()[k].id,
                ),
        decreases table@.len() - i,
    {
        let spec = table[i];
        if spec.required && !find_field_id(es, spec.id) {
            return false;
        }
        i = i + 1;
    }
    true
}

/// Whether the positional-ids flag agrees with the absence of the columns it
/// claims are omitted.
fn positional_ids_consistent(header: &SectionHeader, es: &Vec<DirEntry>) -> (ok: bool)
    ensures
        ok == positional_consistent(*header, es@),
{
    if header.kind == SectionKind::Token && header.flags & SECTION_FLAG_POSITIONAL_IDS != 0 {
        let mut k: usize = 0;
        while k < es.len()
            invariant
                k <= es@.len(),
                header.kind == SectionKind::Token && header.flags & SECTION_FLAG_POSITIONAL_IDS != 0,
                forall|j: int| 0 <= j < k ==> !is_positional_id_exclusive(#[trigger] es@[j].id),
            decreases es@.len() - k,
        {
            if es[k].id == crate::schema::token_field::TOKEN_ID_INDEX || es[k].id
                == crate::schema::token_field::TOKEN_ID_DICTIONARY {
                assert(is_positional_id_exclusive(es@[k as int].id));
                return false;
            }
            k = k + 1;
        }
    }
    true
}

/// The payloads of the entries whose id the schema knows.
fn collect_known_fields<'a>(sb: &'a [u8], kind: SectionKind, es: &Vec<DirEntry>) -> (fields: Vec<
    SectionField<'a>,
>)
    requires
        forall|i: int| 0 <= i < es@.len() ==> #[trigger] es@[i].offset + es@[i].byte_len <= sb@.len(),
    ensures
        fields_view(fields@) == known_fields(sb@, kind, es@),
{
    let len = sb.len();
    let mut fields: Vec<SectionField<'a>> = Vec::new();
    let mut i: usize = 0;
    while i < es.len()
        invariant
            i <= es@.len(),
            len == sb@.len(),
            forall|i: int| 0 <= i < es@.len() ==> #[trigger] es@[i].offset + es@[i].byte_len <= sb@.len(),
            fields_view(fields@) == known_fields(sb@, kind, es@.take(i as int)),
        decreases es@.len() - i,
    {
        let e = es[i];
        proof {
            assert(es@.take(i + 1).drop_last() =~= es@.take(i as int));
            assert(es@.take(i + 1).last() == e);
        }
        if kind.field(e.id).is_some() {
            let start = e.offset as usize;
            let end = start + e.byte_len as usize;
            let bytes = vstd::slice::slice_subrange(sb, start, end);
            let ghost before = fields@;
            fields.push(
                SectionField { id: e.id, width: e.width, required: e.required, count: e.count, bytes },
            );
            proof {
                assert(fields_view(fields@) =~= fields_view(before).push(entry_field(sb@, e)));
            }
        }
        i = i + 1;
    }
    proof {
        assert(es@.take(i as int) =~= es@);
    }
    fields
}

/// Reads the field directory of a validated section header.
pub fn read_directory<'a>(sb: &'a [u8], header: &SectionHeader, directory_count: u16) -> (fields: Result<
    Vec<SectionField<'a>>,
    DecodeError,
>)
    ensures
        match fields {
            Ok(v) => spec_directory(sb@, *header, directory_count) == Ok::<
                Seq<SpecField>,
                DecodeError,
            >(fields_view(v@)),
            Err(e) => spec_directory(sb@, *header, directory_count) == Err::<
                Seq<SpecField>,
                DecodeError,
            >(e),
        },
{
    let directory_len = (directory_count as u64) * (DIRECTORY_ENTRY_LEN as u64);
    let payload_start = SECTION_HEADER_LEN as u64 + directory_len;
    window(sb, SECTION_HEADER_LEN as u64, directory_len)?;
    let es = read_dir_entries(sb, header.kind, payload_start, directory_count)?;
    proof {
        lemma_dir_entries_extents(sb@, header.kind, payload_start as int, directory_count as nat);
    }
    if !dir_entries_disjoint(&es) {
        return Err(DecodeError::InvalidSection);
    }
    if !required_fields_present(header.kind, &es) {
        return Err(DecodeError::InvalidSection);
    }
    if !positional_ids_consistent(header, &es) {
        return Err(DecodeError::InvalidSection);
    }
    Ok(collect_known_fields(sb, header.kind, &es))
}

// ------------------------------------------------------------ sections and containers

/// What the section a TOC entry names decodes to: its bytes, its header
/// cross-checked against the entry, its own checksum, then its directory.
pub open spec fn spec_read_section(bytes: Seq<u8>, entry: TocEntry, allow_omitted: bool) -> Result<
    SpecSection,
    DecodeError,
> {
    match spec_window(bytes, entry.offset as int, entry.byte_len as int) {
        Err(e) => Err(e),
        Ok(sb) => match spec_section_header(sb, Some(entry)) {
            Err(e) => Err(e),
            Ok((header, directory_count)) => match spec_validate_checksum(
                sb,
                SECTION_CHECKSUM_OFFSET as int,
                header.checksum,
                allow_omitted,
            ) {
                Err(e) => Err(e),
                Ok(_) => match spec_directory(sb, header, directory_count) {
                    Err(e) => Err(e),
                    Ok(fields) => Ok(SpecSection { header, fields }),
                },
            },
        },
    }
}

/// A section result agrees with its specification.
pub open spec fn section_result_is(r: Result<Section<'_>, DecodeError>, s: Result<SpecSection, DecodeError>) -> bool {
    match r {
        Ok(section) => s == Ok::<SpecSection, DecodeError>(section@),
        Err(e) => s == Err::<SpecSection, DecodeError>(e),
    }
}

/// Reads and validates the section `entry` names.
pub fn read_section<'a>(bytes: &'a [u8], entry: &TocEntry, allow_omitted: bool) -> (section: Result<
    Section<'a>,
    DecodeError,
>)
    ensures
        section_result_is(section, spec_read_section(bytes@, *entry, allow_omitted)),
{
    let sb = window(bytes, entry.offset, entry.byte_len)?;
    let (header, directory_count) = read_section_header(sb, Some(entry))?;
    validate_checksum(sb, SECTION_CHECKSUM_OFFSET, header.checksum, allow_omitted)?;
    let fields = read_directory(sb, &header, directory_count)?;
    Ok(Section::new(header, fields))
}

/// What standalone section bytes say they are: the same header, checksum and
/// directory rules as inside a container, with no TOC entry to agree with, an
/// omitted checksum refused, and no trailing bytes.
pub open spec fn spec_inspect_section(b: Seq<u8>) -> Result<SectionHeader, DecodeError> {
    match spec_section_header(b, None) {
        Err(e) => Err(e),
        Ok((header, directory_count)) => if header.section_len > usize::MAX {
            Err(DecodeError::OffsetOverflow)
        } else if header.section_len > b.len() {
            Err(DecodeError::Truncated)
        } else if header.section_len != b.len() {
            Err(DecodeError::InvalidSection)
        } else {
            match spec_validate_checksum(b, SECTION_CHECKSUM_OFFSET as int, header.checksum, false) {
                Err(e) => Err(e),
                Ok(_) => match spec_directory(b, header, directory_count) {
                    Err(e) => Err(e),
                    Ok(_) => Ok(header),
                },
            }
        }
    }
}

/// Validates standalone section bytes and returns what they say they are.
/// A section validated here is one a reader accepts in any container it is
/// spliced into, because a section's bytes mean the same thing wherever they
/// sit on the 16-byte grid.
pub fn inspect_section(bytes: &[u8]) -> (header: Result<SectionHeader, DecodeError>)
    ensures
        header == spec_inspect_section(bytes@),
{
    let (header, directory_count) = read_section_header(bytes, None)?;
    let len = index_from_u64(header.section_len)?;
    if len > bytes.len() {
        return Err(DecodeError::Truncated);
    }
    // Trailing bytes are not a harmless tail: the checksum covers exactly the
    // section, so extra bytes mean this slice is not one section.
    if len != bytes.len() {
        return Err(DecodeError::InvalidSection);
    }
    validate_checksum(bytes, SECTION_CHECKSUM_OFFSET, header.checksum, false)?;
    read_directory(bytes, &header, directory_count)?;
    Ok(header)
}

/// What a container decodes to: its header, its integrity checksum (checked
/// before any count the TOC declares is acted on), then its TOC.
pub open spec fn spec_read_container(b: Seq<u8>, allow_omitted: bool) -> Result<
    (ContainerHeader, Seq<TocEntry>),
    DecodeError,
> {
    match spec_container_header(b) {
        Err(e) => Err(e),
        Ok(header) => match spec_validate_checksum(
            b,
            CONTAINER_CHECKSUM_OFFSET as int,
            header.checksum,
            allow_omitted,
        ) {
            Err(e) => Err(e),
            Ok(_) => match spec_read_toc(b, header) {
                Err(e) => Err(e),
                Ok(toc) => Ok((header, toc)),
            },
        },
    }
}

/// A container result agrees with its specification.
pub open spec fn container_result_is(
    r: Result<Container<'_>, DecodeError>,
    b: Seq<u8>,
    allow_omitted: bool,
) -> bool {
    match r {
        Ok(c) => spec_read_container(b, allow_omitted) == Ok::<
            (ContainerHeader, Seq<TocEntry>),
            DecodeError,
        >((c@.header, c@.toc)) && c@.bytes == b && c@.allow_omitted_checksums == allow_omitted,
        Err(e) => spec_read_container(b, allow_omitted) == Err::<
            (ContainerHeader, Seq<TocEntry>),
            DecodeError,
        >(e),
    }
}

fn read_container_with_policy(bytes: &[u8], allow_omitted: bool) -> (container: Result<
    Container<'_>,
    DecodeError,
>)
    ensures
        container_result_is(container, bytes@, allow_omitted),
{
    let header = read_container_header(bytes)?;
    // Checked before the TOC is parsed: if the buffer is corrupt there is no
    // reason to act on any count it declares.
    validate_checksum(bytes, CONTAINER_CHECKSUM_OFFSET, header.checksum, allow_omitted)?;
    let toc = read_toc(bytes, &header)?;
    Ok(Container::new(bytes, header, toc, allow_omitted))
}

/// Validates a container header, its integrity checksum, and its whole TOC.
pub fn read_container(bytes: &[u8]) -> (container: Result<Container<'_>, DecodeError>)
    ensures
        container_result_is(container, bytes@, false),
{
    read_container_with_policy(bytes, false)
}

/// Explicit transient-data entry point: omitted checksums are accepted, while
/// present checksums and all structural invariants are still validated.
pub fn read_container_unchecked(bytes: &[u8]) -> (container: Result<Container<'_>, DecodeError>)
    ensures
        container_result_is(container, bytes@, true),
{
    read_container_with_policy(bytes, true)
}

} // verus!
