//! Per-book reusable sidecars split off a finished container: each book's
//! encoded sections, concatenated, with their extents, so a later publication
//! can offer them back for reuse.

use vstd::prelude::*;

use crate::book::BookId;
use crate::container::read::spec_read_container;
use crate::container::{read_container, PublishedSection, TocEntry};
use crate::error::{EncodeError, LayoutRefusal};
use crate::primitives::Writer;

verus! {

/// One book's reusable sidecar: its encoded sections and the facts that
/// decide whether they may be reused.
#[derive(Debug, Clone, PartialEq, Eq)]
pub struct PublishedBook {
    pub book: BookId,
    pub source_hash: u64,
    pub bytes: Vec<u8>,
    pub sections: Vec<PublishedSection>,
}

/// A sidecar offered back as reuse input for the next publication.
#[derive(Debug, Clone, Copy)]
pub struct CachedBookSections<'a> {
    pub book: BookId,
    pub source_hash: u64,
    pub sections: &'a [PublishedSection],
    pub bytes: &'a [u8],
}

impl PublishedBook {
    /// The sidecar as reuse input for the next publication.
    pub fn as_cached(&self) -> (cached: CachedBookSections<'_>)
        ensures
            cached.book == self.book,
            cached.source_hash == self.source_hash,
            cached.sections@ == self.sections@,
            cached.bytes@ == self.bytes@,
    {
        CachedBookSections {
            book: self.book,
            source_hash: self.source_hash,
            sections: self.sections.as_slice(),
            bytes: self.bytes.as_slice(),
        }
    }
}

/// A published book as plain values: book, source hash, bytes, sections.
pub type PublishedView = (BookId, u64, Seq<u8>, Seq<PublishedSection>);

pub open spec fn published_view(book: PublishedBook) -> PublishedView {
    (book.book, book.source_hash, book.bytes@, book.sections@)
}

/// The bytes a TOC entry names inside `bytes`, when they are there.
pub open spec fn entry_slice(bytes: Seq<u8>, entry: TocEntry) -> Option<Seq<u8>> {
    if entry.offset > bytes.len() || entry.byte_len > bytes.len() - entry.offset {
        None
    } else {
        Some(bytes.subrange(entry.offset as int, entry.offset + entry.byte_len))
    }
}

/// The book of the first of the first `k` entries whose bytes are not there.
pub open spec fn first_unreadable(bytes: Seq<u8>, toc: Seq<TocEntry>, k: nat) -> Option<BookId>
    decreases k,
{
    if k == 0 {
        None
    } else {
        match first_unreadable(bytes, toc, (k - 1) as nat) {
            Some(book) => Some(book),
            None => if entry_slice(bytes, toc[k - 1]) is None {
                Some(toc[k - 1].book)
            } else {
                None
            },
        }
    }
}

/// The distinct books of the first `k` entries, in first-appearance order.
pub open spec fn first_books(toc: Seq<TocEntry>, k: nat) -> Seq<BookId>
    decreases k,
{
    if k == 0 {
        Seq::empty()
    } else {
        let seen = first_books(toc, (k - 1) as nat);
        if seen.contains(toc[k - 1].book) {
            seen
        } else {
            seen.push(toc[k - 1].book)
        }
    }
}

/// The entries of `book`, in TOC order.
pub open spec fn book_entries(toc: Seq<TocEntry>, book: BookId) -> Seq<TocEntry>
    decreases toc.len(),
{
    if toc.len() == 0 {
        Seq::empty()
    } else {
        let earlier = book_entries(toc.drop_last(), book);
        if toc.last().book == book {
            earlier.push(toc.last())
        } else {
            earlier
        }
    }
}

/// The concatenated bytes of `entries`.
pub open spec fn concat_sections(bytes: Seq<u8>, entries: Seq<TocEntry>) -> Seq<u8>
    decreases entries.len(),
{
    if entries.len() == 0 {
        Seq::empty()
    } else {
        concat_sections(bytes, entries.drop_last()) + entry_slice(bytes, entries.last())->0
    }
}

/// The extents of `entries` inside their concatenated bytes.
pub open spec fn section_extents(bytes: Seq<u8>, entries: Seq<TocEntry>) -> Seq<PublishedSection>
    decreases entries.len(),
{
    if entries.len() == 0 {
        Seq::empty()
    } else {
        section_extents(bytes, entries.drop_last()).push(
            PublishedSection {
                kind: entries.last().kind,
                offset: concat_sections(bytes, entries.drop_last()).len() as usize,
                len: entries.last().byte_len as usize,
            },
        )
    }
}

/// The sidecar of `book`: the source hash of its first section, its
/// sections' bytes in TOC order, and their extents.
pub open spec fn book_sidecar(bytes: Seq<u8>, toc: Seq<TocEntry>, book: BookId) -> PublishedView {
    let entries = book_entries(toc, book);
    (book, entries[0].source_hash, concat_sections(bytes, entries), section_extents(bytes, entries))
}

/// What splitting a container into per-book sidecars gives: one sidecar per
/// book in first-appearance order, read back off the container, or a
/// refusal when the bytes are not a readable container.
pub open spec fn spec_published_books(bytes: Seq<u8>) -> Result<Seq<PublishedView>, EncodeError> {
    match spec_read_container(bytes, false) {
        Err(_) => Err(
            EncodeError::InvalidSectionLayout {
                book: BookId::spec_unknown(),
                reason: LayoutRefusal::CachedSectionUnreadable,
            },
        ),
        Ok((_, toc)) => match first_unreadable(bytes, toc, toc.len()) {
            Some(book) => Err(
                EncodeError::InvalidSectionLayout {
                    book,
                    reason: LayoutRefusal::CachedSectionUnreadable,
                },
            ),
            None => Ok(
                first_books(toc, toc.len()).map_values(|book: BookId| book_sidecar(bytes, toc, book)),
            ),
        },
    }
}

proof fn lemma_readable_each(bytes: Seq<u8>, toc: Seq<TocEntry>, k: nat, i: int)
    requires
        first_unreadable(bytes, toc, k) is None,
        0 <= i < k,
    ensures
        entry_slice(bytes, toc[i]) is Some,
    decreases k,
{
    if i < k - 1 {
        lemma_readable_each(bytes, toc, (k - 1) as nat, i);
    }
}

proof fn lemma_first_books_seen(toc: Seq<TocEntry>, k: nat, book: BookId)
    requires
        k <= toc.len(),
        first_books(toc, k).contains(book),
    ensures
        book_entries(toc.take(k as int), book).len() > 0,
    decreases k,
{
    let t = toc.take(k as int);
    assert(t.drop_last() =~= toc.take(k - 1));
    if toc[k - 1].book != book {
        lemma_first_books_seen(toc, (k - 1) as nat, book);
    }
}

proof fn lemma_unreadable_stop(bytes: Seq<u8>, toc: Seq<TocEntry>, k: nat, n: nat)
    requires
        k < n,
        first_unreadable(bytes, toc, k) is None,
        entry_slice(bytes, toc[k as int]) is None,
    ensures
        first_unreadable(bytes, toc, n) == Some(toc[k as int].book),
    decreases n - k,
{
    if n > k + 1 {
        lemma_unreadable_stop(bytes, toc, k, (n - 1) as nat);
    }
}

fn unreadable_entry(bytes: &[u8], toc: &[TocEntry]) -> (book: Option<BookId>)
    ensures
        book == first_unreadable(bytes@, toc@, toc@.len()),
{
    let len = bytes.len() as u64;
    let mut k: usize = 0;
    while k < toc.len()
        invariant
            len == bytes@.len(),
            k <= toc@.len(),
            first_unreadable(bytes@, toc@, k as nat) is None,
        decreases toc@.len() - k,
    {
        let entry = toc[k];
        if entry.offset > len || entry.byte_len > len - entry.offset {
            proof {
                lemma_unreadable_stop(bytes@, toc@, k as nat, toc@.len());
            }
            return Some(entry.book);
        }
        k = k + 1;
    }
    None
}

fn distinct_books(toc: &[TocEntry]) -> (books: Vec<BookId>)
    ensures
        books@ == first_books(toc@, toc@.len()),
{
    let mut books: Vec<BookId> = Vec::new();
    let mut k: usize = 0;
    while k < toc.len()
        invariant
            k <= toc@.len(),
            books@ == first_books(toc@, k as nat),
        decreases toc@.len() - k,
    {
        let book = toc[k].book;
        let mut seen = false;
        let mut j: usize = 0;
        while j < books.len()
            invariant
                j <= books@.len(),
                seen <==> exists|m: int| 0 <= m < j && books@[m] == book,
            decreases books@.len() - j,
        {
            if books[j] == book {
                seen = true;
            }
            j = j + 1;
        }
        proof {
            if seen {
                let m = choose|m: int| 0 <= m < j && books@[m] == book;
                assert(books@.contains(book));
            } else {
                assert(!books@.contains(book));
            }
        }
        if !seen {
            books.push(book);
        }
        k = k + 1;
    }
    books
}

fn sidecar(bytes: &[u8], toc: &[TocEntry], book: BookId) -> (published: PublishedBook)
    requires
        first_unreadable(bytes@, toc@, toc@.len()) is None,
        book_entries(toc@, book).len() > 0,
    ensures
        published_view(published) == book_sidecar(bytes@, toc@, book),
{
    let blen = bytes.len();
    let mut out = Writer::new();
    let mut sections: Vec<PublishedSection> = Vec::new();
    let mut source_hash: u64 = 0;
    let mut found = false;
    let mut k: usize = 0;
    while k < toc.len()
        invariant
            first_unreadable(bytes@, toc@, toc@.len()) is None,
            blen == bytes@.len(),
            k <= toc@.len(),
            out@ == concat_sections(bytes@, book_entries(toc@.take(k as int), book)),
            sections@ == section_extents(bytes@, book_entries(toc@.take(k as int), book)),
            found == (book_entries(toc@.take(k as int), book).len() > 0),
            found ==> source_hash == book_entries(toc@.take(k as int), book)[0].source_hash,
        decreases toc@.len() - k,
    {
        let entry = toc[k];
        proof {
            let t = toc@.take(k + 1);
            assert(t.drop_last() =~= toc@.take(k as int));
            assert(t.last() == entry);
            lemma_readable_each(bytes@, toc@, toc@.len(), k as int);
        }
        if entry.book == book {
            let start = entry.offset as usize;
            let len = entry.byte_len as usize;
            let slice = vstd::slice::slice_subrange(bytes, start, start + len);
            if !found {
                source_hash = entry.source_hash;
                found = true;
            }
            let ghost before = book_entries(toc@.take(k as int), book);
            sections.push(PublishedSection { kind: entry.kind, offset: out.len(), len });
            out.bytes(slice);
            proof {
                let now = book_entries(toc@.take(k + 1), book);
                assert(now == before.push(entry));
                assert(now.drop_last() =~= before);
            }
        }
        k = k + 1;
    }
    proof {
        assert(toc@.take(toc@.len() as int) =~= toc@);
    }
    PublishedBook { book, source_hash, bytes: out.finish(), sections }
}

/// Splits a finished container into per-book reusable sidecars, read back
/// off the container rather than accumulated while writing it, so a sidecar
/// can only describe bytes that are actually in the publication.
pub fn published_books(bytes: &[u8]) -> (books: Result<Vec<PublishedBook>, EncodeError>)
    ensures
        match books {
            Ok(books) => spec_published_books(bytes@) == Ok::<Seq<PublishedView>, EncodeError>(
                books@.map_values(|book: PublishedBook| published_view(book)),
            ),
            Err(e) => spec_published_books(bytes@) == Err::<Seq<PublishedView>, EncodeError>(e),
        },
{
    let container = match read_container(bytes) {
        Ok(container) => container,
        Err(_) => {
            return Err(
                EncodeError::InvalidSectionLayout {
                    book: BookId::unknown(),
                    reason: LayoutRefusal::CachedSectionUnreadable,
                },
            );
        },
    };
    let toc = container.toc();
    if let Some(book) = unreadable_entry(bytes, toc) {
        return Err(
            EncodeError::InvalidSectionLayout { book, reason: LayoutRefusal::CachedSectionUnreadable },
        );
    }
    let distinct = distinct_books(toc);
    let ghost wanted = first_books(toc@, toc@.len()).map_values(
        |book: BookId| book_sidecar(bytes@, toc@, book),
    );
    let mut books: Vec<PublishedBook> = Vec::new();
    let mut i: usize = 0;
    while i < distinct.len()
        invariant
            first_unreadable(bytes@, toc@, toc@.len()) is None,
            distinct@ == first_books(toc@, toc@.len()),
            wanted == first_books(toc@, toc@.len()).map_values(
                |book: BookId| book_sidecar(bytes@, toc@, book),
            ),
            i <= distinct@.len(),
            books@.len() == i,
            forall|m: int| 0 <= m < i ==> published_view(#[trigger] books@[m]) == wanted[m],
        decreases distinct@.len() - i,
    {
        proof {
            assert(distinct@.contains(distinct@[i as int]));
            lemma_first_books_seen(toc@, toc@.len(), distinct@[i as int]);
            assert(toc@.take(toc@.len() as int) =~= toc@);
        }
        books.push(sidecar(bytes, toc, distinct[i]));
        i = i + 1;
    }
    proof {
        assert(books@.map_values(|book: PublishedBook| published_view(book)) =~= wanted);
    }
    Ok(books)
}

// ------------------------------------------------------------ laws

/// Length of the concatenated bytes of the first `j` entries.
pub open spec fn extent_start(bytes: Seq<u8>, entries: Seq<TocEntry>, j: int) -> int {
    concat_sections(bytes, entries.take(j)).len() as int
}

proof fn lemma_concat_prefix(bytes: Seq<u8>, entries: Seq<TocEntry>, j: int)
    requires
        0 <= j <= entries.len(),
    ensures
        extent_start(bytes, entries, j) <= concat_sections(bytes, entries).len(),
        concat_sections(bytes, entries).subrange(0, extent_start(bytes, entries, j))
            == concat_sections(bytes, entries.take(j)),
    decreases entries.len(),
{
    if j == entries.len() {
        assert(entries.take(j) =~= entries);
        assert(concat_sections(bytes, entries).subrange(0, extent_start(bytes, entries, j))
            =~= concat_sections(bytes, entries));
    } else {
        lemma_concat_prefix(bytes, entries.drop_last(), j);
        assert(entries.drop_last().take(j) =~= entries.take(j));
        let a = concat_sections(bytes, entries.drop_last());
        let b = entry_slice(bytes, entries.last())->0;
        assert(concat_sections(bytes, entries) == a + b);
        assert((a + b).subrange(0, extent_start(bytes, entries, j)) =~= a.subrange(
            0,
            extent_start(bytes, entries, j),
        ));
    }
}

/// Entry `j`'s bytes sit in the concatenation right after those before it,
/// and its extent says so.
proof fn lemma_section_at(bytes: Seq<u8>, entries: Seq<TocEntry>, j: int)
    requires
        0 <= j < entries.len(),
        entry_slice(bytes, entries[j]) is Some,
    ensures
        section_extents(bytes, entries).len() == entries.len(),
        section_extents(bytes, entries)[j] == (PublishedSection {
            kind: entries[j].kind,
            offset: extent_start(bytes, entries, j) as usize,
            len: entries[j].byte_len as usize,
        }),
        concat_sections(bytes, entries).subrange(
            extent_start(bytes, entries, j),
            extent_start(bytes, entries, j) + entries[j].byte_len,
        ) == bytes.subrange(entries[j].offset as int, entries[j].offset + entries[j].byte_len),
    decreases entries.len(),
{
    let t = entries.take(j + 1);
    assert(t.drop_last() =~= entries.take(j));
    assert(t.last() == entries[j]);
    lemma_concat_prefix(bytes, entries, j + 1);
    let whole = concat_sections(bytes, entries);
    let start = extent_start(bytes, entries, j);
    let slice = entry_slice(bytes, entries[j])->0;
    assert(concat_sections(bytes, t) == concat_sections(bytes, entries.take(j)) + slice);
    assert(whole.subrange(start, start + entries[j].byte_len) =~= whole.subrange(
        0,
        extent_start(bytes, entries, j + 1),
    ).subrange(start, start + entries[j].byte_len));
    assert(concat_sections(bytes, t).subrange(start, start + entries[j].byte_len) =~= slice);
    lemma_extents(bytes, entries, j);
}

proof fn lemma_extents_len(bytes: Seq<u8>, entries: Seq<TocEntry>)
    ensures
        section_extents(bytes, entries).len() == entries.len(),
    decreases entries.len(),
{
    if entries.len() > 0 {
        lemma_extents_len(bytes, entries.drop_last());
    }
}

proof fn lemma_extents(bytes: Seq<u8>, entries: Seq<TocEntry>, j: int)
    requires
        0 <= j < entries.len(),
    ensures
        section_extents(bytes, entries).len() == entries.len(),
        section_extents(bytes, entries)[j] == (PublishedSection {
            kind: entries[j].kind,
            offset: extent_start(bytes, entries, j) as usize,
            len: entries[j].byte_len as usize,
        }),
    decreases entries.len(),
{
    let rest = entries.drop_last();
    lemma_extents_len(bytes, entries);
    lemma_extents_len(bytes, rest);
    if j == entries.len() - 1 {
        assert(entries.take(j) =~= rest);
    } else {
        lemma_extents(bytes, rest, j);
        assert(rest.take(j) =~= entries.take(j));
    }
}

/// Every section a sidecar describes holds, at its extent inside the
/// sidecar's bytes, exactly the container bytes its TOC entry names: a
/// sidecar can only describe bytes that are in the publication.
pub proof fn law_sidecars_hold_published_bytes(bytes: Seq<u8>, k: int, j: int)
    requires
        spec_published_books(bytes) is Ok,
        0 <= k < spec_published_books(bytes)->Ok_0.len(),
        0 <= j < spec_published_books(bytes)->Ok_0[k].3.len(),
    ensures
        ({
            let toc = spec_read_container(bytes, false)->Ok_0.1;
            let (book, _, data, sections) = spec_published_books(bytes)->Ok_0[k];
            let entries = book_entries(toc, book);
            let start = extent_start(bytes, entries, j);
            &&& sections[j] == (PublishedSection {
                kind: entries[j].kind,
                offset: start as usize,
                len: entries[j].byte_len as usize,
            })
            &&& data.subrange(start, start + entries[j].byte_len) == bytes.subrange(
                entries[j].offset as int,
                entries[j].offset + entries[j].byte_len,
            )
        }),
{
    let toc = spec_read_container(bytes, false)->Ok_0.1;
    let books = first_books(toc, toc.len());
    let book = books[k];
    let entries = book_entries(toc, book);
    assert(spec_published_books(bytes)->Ok_0[k] == book_sidecar(bytes, toc, book));
    lemma_extents_len(bytes, entries);
    lemma_extents(bytes, entries, j);
    lemma_entries_in_toc(toc, book, j);
    let i = choose|i: int| 0 <= i < toc.len() && toc[i] == entries[j];
    lemma_readable_each(bytes, toc, toc.len(), i);
    lemma_section_at(bytes, entries, j);
}

/// Every entry of a book's entries is an entry of the TOC.
proof fn lemma_entries_in_toc(toc: Seq<TocEntry>, book: BookId, j: int)
    requires
        0 <= j < book_entries(toc, book).len(),
    ensures
        exists|i: int| 0 <= i < toc.len() && toc[i] == book_entries(toc, book)[j],
    decreases toc.len(),
{
    let rest = toc.drop_last();
    if j < book_entries(rest, book).len() {
        lemma_entries_in_toc(rest, book, j);
        let i = choose|i: int| 0 <= i < rest.len() && rest[i] == book_entries(rest, book)[j];
        assert(toc[i] == rest[i]);
    } else {
        assert(toc[toc.len() - 1] == book_entries(toc, book)[j]);
    }
}

} // verus!
