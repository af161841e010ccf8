//! Checked views over the fixed token columns and the packed SID dictionary:
//! the narrow boundary between a structurally valid generic section and the
//! token-specific readers.

use std::collections::HashMap;

use vstd::prelude::*;
use vstd::utf8::valid_utf8;

use crate::book::{is_book_code, BookId};
use crate::container::read::book_of_code;
use crate::container::{Section, SectionField, SpecField, SpecSection};
use crate::error::{DecodeError, EncodeError};
use crate::outside::utf8_str;
use crate::primitives::{
    le_u16, le_u32, le_u64, lemma_le_u16_at, lemma_le_u64_injective, read_u16, read_u32, read_u64,
    u16_bytes, Writer,
};
use crate::schema::token_field;
use crate::schema::{
    SectionKind, TokenKindTag, INDEX_NONE_U16, MAX_DISTINCT_SIDS, PACKED_SID_LEN, SECTION_FLAG_POSITIONAL_IDS,
    SID_DELTA_MASK, SID_FIDELITY_BIT,
};
use crate::token_payload::laws::lemma_checks_all;
use crate::token_payload::{checks_upto, lemma_checks_each, lemma_checks_stop, record_total, spec_string_dictionary, StringDictionary};

verus! {

// ------------------------------------------------------------ anchors

/// Whether a packed anchor records its verse range exactly or only its
/// first verse.
#[derive(Debug, Clone, Copy, PartialEq, Eq, Structural)]
pub enum SidFidelity {
    Exact,
    AnchorOnly,
}

/// A verse anchor: book, chapter, first verse and last verse.
#[derive(Debug, Clone, Copy, PartialEq, Eq, Structural)]
pub struct Sid {
    pub book: BookId,
    pub chapter: u16,
    pub verse: u16,
    pub verse_end: u16,
}

impl Sid {
    /// The anchor of one verse.
    pub fn new(book: BookId, chapter: u16, verse: u16) -> (sid: Sid)
        ensures
            sid == (Sid { book, chapter, verse, verse_end: verse }),
    {
        Sid { book, chapter, verse, verse_end: verse }
    }

    /// The anchor of the verses `verse..=verse_end`.
    pub fn with_range(book: BookId, chapter: u16, verse: u16, verse_end: u16) -> (sid: Sid)
        ensures
            sid == (Sid { book, chapter, verse, verse_end }),
    {
        Sid { book, chapter, verse, verse_end }
    }

    /// The last verse the anchor covers.
    pub fn verse_end(&self) -> (end: u16)
        ensures
            end == self.verse_end,
    {
        self.verse_end
    }
}

/// How far an anchor's range reaches past its first verse; zero for a range
/// that does not go forward.
pub open spec fn sid_delta(sid: Sid) -> int {
    if sid.verse_end > sid.verse {
        sid.verse_end - sid.verse
    } else {
        0
    }
}

/// The eight packed bytes of an anchor: the book code, chapter and verse as
/// little-endian `u16`s, then the range delta with the fidelity bit. A delta
/// too wide for seven bits is dropped and the anchor marked anchor-only.
pub open spec fn packed_sid_bytes(sid: Sid, fidelity: SidFidelity) -> Seq<u8> {
    let wide = sid_delta(sid) > SID_DELTA_MASK;
    let delta: u8 = if wide {
        0
    } else {
        sid_delta(sid) as u8
    };
    let anchor_only = wide || fidelity == SidFidelity::AnchorOnly;
    sid.book.code() + u16_bytes(sid.chapter) + u16_bytes(sid.verse) + seq![
        delta | (if anchor_only { SID_FIDELITY_BIT } else { 0u8 }),
    ]
}

/// `verse + delta`, held at `u16::MAX`.
pub open spec fn saturating_verse(verse: u16, delta: u8) -> u16 {
    if verse + delta > u16::MAX {
        u16::MAX
    } else {
        (verse + delta) as u16
    }
}

/// What eight packed bytes decode to: the book code must be well-formed
/// UTF-8 naming a book; the low seven bits of the last byte extend the
/// verse into a range, the high bit marks the anchor as anchor-only.
pub open spec fn spec_decode_sid(b: Seq<u8>) -> Result<(Sid, SidFidelity), DecodeError> {
    let raw = b.subrange(0, 3);
    let verse = le_u16(b, 5);
    let delta = b[7] & SID_DELTA_MASK;
    if !valid_utf8(raw) {
        Err(DecodeError::InvalidUtf8)
    } else if !is_book_code(raw) {
        Err(DecodeError::InvalidSection)
    } else {
        Ok(
            (
                Sid {
                    book: book_of_code(raw),
                    chapter: le_u16(b, 3),
                    verse,
                    verse_end: if delta == 0 {
                        verse
                    } else {
                        saturating_verse(verse, delta)
                    },
                },
                if b[7] & SID_FIDELITY_BIT == 0 {
                    SidFidelity::Exact
                } else {
                    SidFidelity::AnchorOnly
                },
            ),
        )
    }
}

/// Eight-byte wire anchor. Its representation is explicit so layout changes
/// elsewhere cannot alter persisted bytes.
#[derive(Debug, Clone, Copy, PartialEq, Eq)]
pub struct PackedSid([u8; 8]);

impl View for PackedSid {
    type V = Seq<u8>;

    closed spec fn view(&self) -> Seq<u8> {
        self.0@
    }
}

fn decode_book(raw: &[u8]) -> (book: Result<BookId, DecodeError>)
    requires
        raw@.len() == 3,
    ensures
        match book {
            Ok(b) => valid_utf8(raw@) && is_book_code(raw@) && b == book_of_code(raw@),
            Err(e) => (!valid_utf8(raw@) && e == DecodeError::InvalidUtf8) || (valid_utf8(raw@)
                && !is_book_code(raw@) && e == DecodeError::InvalidSection),
        },
{
    if utf8_str(raw).is_none() {
        return Err(DecodeError::InvalidUtf8);
    }
    match BookId::from_bytes(raw) {
        Some(book) => {
            proof {
                let c = book_of_code(raw@);
                book.lemma_code(c);
            }
            Ok(book)
        },
        None => Err(DecodeError::InvalidSection),
    }
}

impl PackedSid {
    /// Packs an anchor. `requested_fidelity` comes from the caller, which
    /// alone can tell an exact range from a sequence or suffixed verse.
    pub fn encode(sid: Sid, requested_fidelity: SidFidelity) -> (packed: PackedSid)
        ensures
            packed@ == packed_sid_bytes(sid, requested_fidelity),
    {
        let source_delta: u16 = if sid.verse_end() > sid.verse {
            sid.verse_end() - sid.verse
        } else {
            0
        };
        let (delta, fidelity) = if source_delta > SID_DELTA_MASK as u16 {
            (0u8, SidFidelity::AnchorOnly)
        } else {
            (source_delta as u8, requested_fidelity)
        };
        let code = sid.book.as_bytes();
        let chapter = crate::primitives::u16_to_le(sid.chapter);
        let verse = crate::primitives::u16_to_le(sid.verse);
        let last = delta | if fidelity == SidFidelity::AnchorOnly {
            SID_FIDELITY_BIT
        } else {
            0
        };
        let packed = PackedSid([code[0], code[1], code[2], chapter[0], chapter[1], verse[0], verse[1], last]);
        proof {
            assert(packed@ =~= packed_sid_bytes(sid, requested_fidelity));
        }
        packed
    }

    pub fn as_bytes(&self) -> (bytes: &[u8; 8])
        ensures
            bytes@ == self@,
    {
        &self.0
    }

    pub fn from_bytes(bytes: [u8; 8]) -> (packed: PackedSid)
        ensures
            packed@ == bytes@,
    {
        PackedSid(bytes)
    }

    pub fn decode(self) -> (decoded: Result<(Sid, SidFidelity), DecodeError>)
        ensures
            decoded == spec_decode_sid(self@),
    {
        let raw = vstd::slice::slice_subrange(self.0.as_slice(), 0, 3);
        let book = match decode_book(raw) {
            Ok(book) => book,
            Err(e) => return Err(e),
        };
        let chapter = read_u16(self.0.as_slice(), 3);
        let verse = read_u16(self.0.as_slice(), 5);
        let delta = self.0[7] & SID_DELTA_MASK;
        let fidelity = if self.0[7] & SID_FIDELITY_BIT == 0 {
            SidFidelity::Exact
        } else {
            SidFidelity::AnchorOnly
        };
        let sid = if delta == 0 {
            Sid::new(book, chapter, verse)
        } else {
            let end: u16 = if (verse as u32) + (delta as u32) > 0xffff {
                0xffff
            } else {
                verse + delta as u16
            };
            Sid::with_range(book, chapter, verse, end)
        };
        Ok((sid, fidelity))
    }
}

// ------------------------------------------------------------ field lookup

/// Field `i` is the first with id `id`.
pub open spec fn is_first_field(fields: Seq<SpecField>, id: u16, i: int) -> bool {
    &&& 0 <= i < fields.len()
    &&& fields[i].id == id
    &&& forall|j: int| 0 <= j < i ==> #[trigger] fields[j].id != id
}

/// The first field with id `id`, if any.
pub open spec fn first_field(fields: Seq<SpecField>, id: u16) -> Option<SpecField> {
    if exists|i: int| #[trigger] is_first_field(fields, id, i) {
        Some(fields[choose|i: int| #[trigger] is_first_field(fields, id, i)])
    } else {
        None
    }
}

pub(crate) fn field_of<'s, 'a>(section: &'s Section<'a>, id: u16) -> (field: Option<&'s SectionField<'a>>)
    ensures
        match field {
            Some(f) => first_field(section.spec_fields(), id) == Some(f.view()),
            None => first_field(section.spec_fields(), id) is None,
        },
{
    let found = section.field(id);
    proof {
        let fields = section.spec_fields();
        match found {
            Some(f) => {
                let i = choose|i: int|
                    0 <= i < fields.len() && fields[i] == f.view() && f.id == id && forall|j: int|
                        0 <= j < i ==> #[trigger] fields[j].id != id;
                assert(is_first_field(fields, id, i));
                let k = choose|k: int| #[trigger] is_first_field(fields, id, k);
                if k < i {
                    assert(fields[k].id != id);
                } else if k > i {
                    assert(fields[i].id != id);
                }
            },
            None => {
                assert forall|i: int| !#[trigger] is_first_field(fields, id, i) by {
                    if 0 <= i < fields.len() {
                        assert(fields[i].id != id);
                    }
                }
            },
        }
    }
    found
}

/// The field with id `id` holding one entry per token.
pub open spec fn per_row_field(fields: Seq<SpecField>, id: u16, record_count: u32) -> Result<SpecField, DecodeError> {
    match first_field(fields, id) {
        None => Err(DecodeError::InvalidSection),
        Some(f) => if f.count != record_count {
            Err(DecodeError::InvalidSection)
        } else {
            Ok(f)
        },
    }
}

pub(crate) fn per_row<'s, 'a>(section: &'s Section<'a>, field_id: u16, record_count: u32) -> (field: Result<
    &'s SectionField<'a>,
    DecodeError,
>)
    ensures
        match field {
            Ok(f) => per_row_field(section.spec_fields(), field_id, record_count) == Ok::<
                SpecField,
                DecodeError,
            >(f.view()),
            Err(e) => per_row_field(section.spec_fields(), field_id, record_count) == Err::<
                SpecField,
                DecodeError,
            >(e),
        },
{
    let field = match field_of(section, field_id) {
        Some(field) => field,
        None => return Err(DecodeError::InvalidSection),
    };
    if let Err(e) = require_count(field, record_count) {
        return Err(e);
    }
    Ok(field)
}

fn require_count(field: &SectionField<'_>, record_count: u32) -> (checked: Result<(), DecodeError>)
    ensures
        checked is Ok <==> field.count == record_count,
        checked matches Err(e) ==> e == DecodeError::InvalidSection,
{
    if field.count != record_count {
        return Err(DecodeError::InvalidSection);
    }
    Ok(())
}

// ------------------------------------------------------------ SID dictionary

/// The check of packed anchor `i`: it must decode.
pub open spec fn sid_record_check(b: Seq<u8>, i: int) -> Result<(), DecodeError> {
    match spec_decode_sid(b.subrange(PACKED_SID_LEN * i, PACKED_SID_LEN * i + 8)) {
        Ok(_) => Ok(()),
        Err(e) => Err(e),
    }
}

pub open spec fn sid_checks(b: Seq<u8>) -> spec_fn(int) -> Result<(), DecodeError> {
    |i: int| sid_record_check(b, i)
}

/// What validating a section's packed-SID dictionary gives: its declared
/// count, which the `0xffff` sentinel of the index column caps, once every
/// record decodes.
pub open spec fn spec_sid_dictionary(fields: Seq<SpecField>) -> Result<u32, DecodeError> {
    match first_field(fields, token_field::PACKED_SID_DICTIONARY) {
        None => Err(DecodeError::InvalidSection),
        Some(f) => if f.count > MAX_DISTINCT_SIDS {
            Err(DecodeError::TooManySids { found: f.count })
        } else {
            match checks_upto(sid_checks(f.bytes), record_total(f.bytes, PACKED_SID_LEN as int) as nat) {
                Err(e) => Err(e),
                Ok(_) => Ok(f.count),
            }
        },
    }
}

/// The anchor stored at record `i`.
pub open spec fn sid_at(b: Seq<u8>, i: int) -> (Sid, SidFidelity) {
    spec_decode_sid(b.subrange(PACKED_SID_LEN * i, PACKED_SID_LEN * i + 8))->Ok_0
}

proof fn lemma_sid_in_bounds(len: int, i: int)
    by (nonlinear_arith)
    requires
        len >= 0,
        0 <= i < len / 8,
    ensures
        8 * i + 8 <= len,
{
}

/// Validated packed-SID dictionary.
#[derive(Debug, Clone, Copy, PartialEq, Eq)]
pub struct SidDictionary<'wire> {
    records: &'wire [u8],
    count: u16,
}

impl<'wire> SidDictionary<'wire> {
    /// Every whole record decodes.
    pub closed spec fn wf(&self) -> bool {
        forall|i: int|
            0 <= i < record_total(self.records@, PACKED_SID_LEN as int) ==> #[trigger] sid_record_check(
                self.records@,
                i,
            ) is Ok
    }

    /// The record bytes.
    pub closed spec fn spec_records(&self) -> Seq<u8> {
        self.records@
    }

    /// The declared count.
    pub closed spec fn spec_count(&self) -> u16 {
        self.count
    }

    fn from_section(section: &Section<'wire>) -> (dictionary: Result<Self, DecodeError>)
        ensures
            match dictionary {
                Ok(d) => {
                    &&& d.wf()
                    &&& spec_sid_dictionary(section.spec_fields()) == Ok::<u32, DecodeError>(
                        d.spec_count() as u32,
                    )
                    &&& first_field(section.spec_fields(), token_field::PACKED_SID_DICTIONARY) is Some
                    &&& d.spec_records() == first_field(
                        section.spec_fields(),
                        token_field::PACKED_SID_DICTIONARY,
                    )->0.bytes
                },
                Err(e) => spec_sid_dictionary(section.spec_fields()) == Err::<u32, DecodeError>(e),
            },
    {
        let field = match field_of(section, token_field::PACKED_SID_DICTIONARY) {
            Some(field) => field,
            None => return Err(DecodeError::InvalidSection),
        };
        // The `0xffff` sentinel consumes one index value, so the count
        // ceiling is 65,535; checked before the records are walked.
        if field.count > MAX_DISTINCT_SIDS {
            return Err(DecodeError::TooManySids { found: field.count });
        }
        let bytes = field.bytes;
        let len = bytes.len();
        let n = len / PACKED_SID_LEN;
        let ghost check = sid_checks(bytes@);
        let mut i: usize = 0;
        while i < n
            invariant
                len == bytes@.len(),
                n == record_total(bytes@, PACKED_SID_LEN as int),
                check == sid_checks(bytes@),
                first_field(section.spec_fields(), token_field::PACKED_SID_DICTIONARY) == Some(field.view()),
                field.count <= MAX_DISTINCT_SIDS,
                bytes@ == field.bytes@,
                i <= n,
                checks_upto(check, i as nat) is Ok,
            decreases n - i,
        {
            proof {
                lemma_sid_in_bounds(len as int, i as int);
            }
            let at = PACKED_SID_LEN * i;
            let record = vstd::slice::slice_subrange(bytes, at, at + 8);
            let raw: [u8; 8] = [record[0], record[1], record[2], record[3], record[4], record[5], record[6], record[7]];
            assert(raw@ =~= bytes@.subrange(PACKED_SID_LEN * i, PACKED_SID_LEN * i + 8));
            match PackedSid::from_bytes(raw).decode() {
                Err(e) => {
                    proof {
                        assert(check(i as int) == sid_record_check(bytes@, i as int));
                        lemma_checks_stop(check, i as nat, n as nat);
                    }
                    return Err(e);
                },
                Ok(_) => {
                    assert(check(i as int) == sid_record_check(bytes@, i as int));
                },
            }
            i = i + 1;
        }
        proof {
            assert forall|k: int| 0 <= k < n implies #[trigger] sid_record_check(bytes@, k) is Ok by {
                lemma_checks_each(check, n as nat, k);
                assert(check(k) == sid_record_check(bytes@, k));
            }
        }
        Ok(SidDictionary { records: bytes, count: field.count as u16 })
    }

    pub fn len(&self) -> (count: u16)
        ensures
            count == self.spec_count(),
    {
        self.count
    }

    pub fn is_empty(&self) -> (empty: bool)
        ensures
            empty == (self.spec_count() == 0),
    {
        self.count == 0
    }

    /// The anchor of record `index`; `None` for the "no SID" sentinel or an
    /// index past the records.
    pub fn get(&self, index: u16) -> (anchor: Option<(Sid, SidFidelity)>)
        requires
            self.wf(),
        ensures
            anchor == (if index == INDEX_NONE_U16 || index >= record_total(
                self.spec_records(),
                PACKED_SID_LEN as int,
            ) {
                None
            } else {
                Some(sid_at(self.spec_records(), index as int))
            }),
    {
        if index == INDEX_NONE_U16 {
            return None;
        }
        let bytes = self.records;
        let len = bytes.len();
        if index as usize >= len / PACKED_SID_LEN {
            return None;
        }
        proof {
            lemma_sid_in_bounds(len as int, index as int);
            assert(sid_record_check(bytes@, index as int) is Ok);
        }
        let at = PACKED_SID_LEN * (index as usize);
        let record = vstd::slice::slice_subrange(bytes, at, at + 8);
        let raw: [u8; 8] = [record[0], record[1], record[2], record[3], record[4], record[5], record[6], record[7]];
        assert(raw@ =~= bytes@.subrange(PACKED_SID_LEN * index, PACKED_SID_LEN * index + 8));
        match PackedSid::from_bytes(raw).decode() {
            Ok(anchor) => Some(anchor),
            Err(_) => None,
        }
    }
}

// ------------------------------------------------------------ SID dictionary builder

/// The eight-byte records of a packed payload.
pub open spec fn packed_records(b: Seq<u8>) -> Seq<Seq<u8>> {
    Seq::new(
        record_total(b, PACKED_SID_LEN as int) as nat,
        |i: int| b.subrange(PACKED_SID_LEN * i, PACKED_SID_LEN * i + 8),
    )
}

fn index_get(index: &HashMap<u64, u16>, key: u64) -> (found: Option<u16>)
    ensures
        found == (if index@.contains_key(key) {
            Some(index@[key])
        } else {
            None
        }),
{
    broadcast use vstd::std_specs::hash::group_hash_axioms;

    match index.get(&key) {
        Some(ordinal) => Some(*ordinal),
        None => None,
    }
}

fn index_insert(index: &mut HashMap<u64, u16>, key: u64, ordinal: u16)
    ensures
        final(index)@ == old(index)@.insert(key, ordinal),
{
    broadcast use vstd::std_specs::hash::group_hash_axioms;

    index.insert(key, ordinal);
}

/// Appending a record that is not yet interned keeps the lookup index exact.
proof fn lemma_push_index(
    before: Seq<Seq<u8>>,
    after: Seq<Seq<u8>>,
    old_map: Map<u64, u16>,
    new_map: Map<u64, u16>,
    p: Seq<u8>,
)
    requires
        p.len() == 8,
        forall|i: int| 0 <= i < before.len() ==> (#[trigger] before[i]).len() == 8,
        !before.contains(p),
        after == before.push(p),
        before.len() < 0xffff,
        new_map == old_map.insert(le_u64(p, 0), before.len() as u16),
        forall|i: int|
            0 <= i < before.len() ==> #[trigger] old_map.contains_key(le_u64(before[i], 0))
                && old_map[le_u64(before[i], 0)] == i,
        forall|k: u64|
            #[trigger] old_map.contains_key(k) ==> exists|i: int|
                0 <= i < before.len() && #[trigger] le_u64(before[i], 0) == k,
    ensures
        forall|i: int|
            0 <= i < after.len() ==> #[trigger] new_map.contains_key(le_u64(after[i], 0))
                && new_map[le_u64(after[i], 0)] == i,
        forall|k: u64|
            #[trigger] new_map.contains_key(k) ==> exists|i: int|
                0 <= i < after.len() && #[trigger] le_u64(after[i], 0) == k,
{
    let key = le_u64(p, 0);
    assert forall|i: int| 0 <= i < after.len() implies #[trigger] new_map.contains_key(
        le_u64(after[i], 0),
    ) && new_map[le_u64(after[i], 0)] == i by {
        if i < before.len() {
            assert(after[i] == before[i]);
            if le_u64(before[i], 0) == key {
                lemma_le_u64_injective(before[i], p);
                assert(before.contains(p));
            }
        }
    }
    assert forall|k: u64| #[trigger] new_map.contains_key(k) implies exists|i: int|
        0 <= i < after.len() && #[trigger] le_u64(after[i], 0) == k by {
        if k == key {
            assert(le_u64(after[before.len() as int], 0) == k);
        } else {
            assert(old_map.contains_key(k));
            let i = choose|i: int| 0 <= i < before.len() && #[trigger] le_u64(before[i], 0) == k;
            assert(after[i] == before[i]);
        }
    }
}

/// Interns anchors into a packed dictionary in first-use order, so the
/// output is a function of the token order alone. The map is a lookup index
/// only and is never iterated, so no map ordering reaches the bytes.
pub struct SidDictionaryBuilder {
    book: BookId,
    records: Writer,
    ordinals: HashMap<u64, u16>,
}

impl View for SidDictionaryBuilder {
    type V = Seq<Seq<u8>>;

    /// The packed anchors interned, in ordinal order.
    closed spec fn view(&self) -> Seq<Seq<u8>> {
        packed_records(self.records@)
    }
}

impl SidDictionaryBuilder {
    /// The book whose anchors are interned, named in refusals.
    pub closed spec fn spec_book(&self) -> BookId {
        self.book
    }

    /// The payload is whole records, each interned once, no more than the
    /// `u16` index column can name, and the lookup index maps each record's
    /// value to its ordinal and nothing else.
    pub closed spec fn wf(&self) -> bool {
        &&& (self.records@.len() as int) % (PACKED_SID_LEN as int) == 0
        &&& self@.len() <= MAX_DISTINCT_SIDS
        &&& forall|i: int|
            0 <= i < self@.len() ==> #[trigger] self.ordinals@.contains_key(le_u64(self@[i], 0))
                && self.ordinals@[le_u64(self@[i], 0)] == i
        &&& forall|k: u64|
            #[trigger] self.ordinals@.contains_key(k) ==> exists|i: int|
                0 <= i < self@.len() && #[trigger] le_u64(self@[i], 0) == k
    }

    pub fn new(book: BookId) -> (builder: Self)
        ensures
            builder.wf(),
            builder@ == Seq::<Seq<u8>>::empty(),
            builder.spec_book() == book,
    {
        let builder = SidDictionaryBuilder { book, records: Writer::new(), ordinals: HashMap::new() };
        proof {
            assert(builder@ =~= Seq::<Seq<u8>>::empty());
        }
        builder
    }

    /// The ordinal of the packed anchor, interning it first when it is new.
    /// Refuses rather than truncating once `0xffff` anchors exist: reusing
    /// the sentinel would corrupt every row.
    pub fn intern(&mut self, sid: Sid, fidelity: SidFidelity) -> (ordinal: Result<u16, EncodeError>)
        requires
            old(self).wf(),
        ensures
            final(self).wf(),
            final(self).spec_book() == old(self).spec_book(),
            old(self)@.contains(packed_sid_bytes(sid, fidelity)) ==> (ordinal matches Ok(k) && k
                < old(self)@.len() && old(self)@[k as int] == packed_sid_bytes(sid, fidelity)
                && final(self)@ == old(self)@),
            !old(self)@.contains(packed_sid_bytes(sid, fidelity)) && old(self)@.len()
                >= MAX_DISTINCT_SIDS ==> (ordinal == Err::<u16, EncodeError>(
                EncodeError::TooManySids { book: old(self).spec_book(), found: (MAX_DISTINCT_SIDS + 1) as u32 },
            ) && final(self)@ == old(self)@),
            !old(self)@.contains(packed_sid_bytes(sid, fidelity)) && old(self)@.len()
                < MAX_DISTINCT_SIDS ==> (ordinal == Ok::<u16, EncodeError>(old(self)@.len() as u16)
                && final(self)@ == old(self)@.push(packed_sid_bytes(sid, fidelity))),
    {
        let packed = PackedSid::encode(sid, fidelity);
        let ghost p = packed_sid_bytes(sid, fidelity);
        let key = read_u64(packed.as_bytes().as_slice(), 0);
        assert(p.len() == 8);
        match index_get(&self.ordinals, key) {
            Some(ordinal) => {
                proof {
                    let i = choose|i: int| 0 <= i < self@.len() && #[trigger] le_u64(self@[i], 0) == key;
                    assert(self.ordinals@[le_u64(self@[i], 0)] == i);
                    lemma_le_u64_injective(self@[i], p);
                }
                return Ok(ordinal);
            },
            None => {
                proof {
                    if self@.contains(p) {
                        let i = choose|i: int| 0 <= i < self@.len() && self@[i] == p;
                        assert(self.ordinals@.contains_key(le_u64(self@[i], 0)));
                    }
                }
            },
        }
        let next = self.records.len() / PACKED_SID_LEN;
        if next >= MAX_DISTINCT_SIDS as usize {
            return Err(EncodeError::TooManySids { book: self.book, found: MAX_DISTINCT_SIDS + 1 });
        }
        let ghost before = self@;
        let ghost old_map = self.ordinals@;
        self.records.bytes(packed.as_bytes().as_slice());
        index_insert(&mut self.ordinals, key, next as u16);
        proof {
            assert(self@ =~= before.push(p)) by {
                assert forall|i: int| 0 <= i < before.len() implies #[trigger] self@[i] == before[i] by {
                    assert(self@[i] =~= before[i]);
                }
                assert(self@[before.len() as int] =~= p);
            }
            lemma_push_index(before, self@, old_map, self.ordinals@, p);
        }
        Ok(next as u16)
    }

    /// Directory count for the packed-SID field.
    pub fn len(&self) -> (count: u32)
        requires
            self.wf(),
        ensures
            count == self@.len(),
    {
        (self.records.len() / PACKED_SID_LEN) as u32
    }

    /// The packed-SID payload.
    pub fn bytes(&self) -> (payload: &[u8])
        requires
            self.wf(),
        ensures
            packed_records(payload@) == self@,
            payload@.len() == PACKED_SID_LEN * self@.len(),
    {
        self.records.as_slice()
    }
}

// ------------------------------------------------------------ token columns

/// Every kind byte names a token kind.
pub open spec fn kinds_known(b: Seq<u8>) -> bool {
    forall|i: int| 0 <= i < b.len() ==> (#[trigger] TokenKindTag::spec_from_u8(b[i])) is Some
}

/// Every SID index is the sentinel or names one of `count` records.
pub open spec fn sid_indices_ok(b: Seq<u8>, count: u32) -> bool {
    forall|i: int|
        0 <= i < record_total(b, 2) ==> #[trigger] le_u16(b, 2 * i) == INDEX_NONE_U16 || le_u16(
            b,
            2 * i,
        ) < count
}

/// Every token-id index names a non-empty string of `ids`: a stable id is
/// identity, and an empty one could not be told from a missing one.
pub open spec fn token_ids_ok(b: Seq<u8>, ids: Seq<Seq<char>>) -> bool {
    forall|i: int|
        0 <= i < record_total(b, 4) ==> #[trigger] le_u32(b, 4 * i) < ids.len() && ids[le_u32(
            b,
            4 * i,
        ) as int].len() != 0
}

/// The explicit token ids of a section: the id index column and its
/// dictionary, both checked, or none for a positional-id section.
pub open spec fn spec_token_ids(section: SpecSection) -> Result<Option<(Seq<u8>, Seq<Seq<char>>)>, DecodeError> {
    let fields = section.fields;
    match first_field(fields, token_field::TOKEN_ID_INDEX) {
        Some(f) => if f.count != section.header.record_count {
            Err(DecodeError::InvalidSection)
        } else {
            match first_field(fields, token_field::TOKEN_ID_DICTIONARY) {
                None => Err(DecodeError::InvalidSection),
                Some(d) => match spec_string_dictionary(d.bytes, d.count) {
                    Err(e) => Err(e),
                    Ok(ids) => if !token_ids_ok(f.bytes, ids) {
                        Err(DecodeError::InvalidSection)
                    } else {
                        Ok(Some((f.bytes, ids)))
                    },
                },
            }
        },
        None => if section.header.flags & SECTION_FLAG_POSITIONAL_IDS != 0 {
            Ok(None)
        } else {
            Err(DecodeError::InvalidSection)
        },
    }
}

/// What validating a token section's fixed columns gives: a token section;
/// kind, span and index columns with one entry per token; known kinds; a
/// valid SID dictionary every SID index resolves in; and checked explicit
/// ids, or the positional-id flag.
pub open spec fn spec_token_columns(section: SpecSection) -> Result<(), DecodeError> {
    let fields = section.fields;
    let rc = section.header.record_count;
    if section.header.kind != SectionKind::Token {
        Err(DecodeError::InvalidSection)
    } else {
        match per_row_field(fields, token_field::KIND, rc) {
            Err(e) => Err(e),
            Ok(kinds) => if !kinds_known(kinds.bytes) {
                Err(DecodeError::InvalidDiscriminant)
            } else {
                match (
                    per_row_field(fields, token_field::SPAN_START, rc),
                    per_row_field(fields, token_field::SPAN_END, rc),
                    per_row_field(fields, token_field::SID_INDEX, rc),
                ) {
                    (Err(e), _, _) => Err(e),
                    (Ok(_), Err(e), _) => Err(e),
                    (Ok(_), Ok(_), Err(e)) => Err(e),
                    (Ok(_), Ok(_), Ok(sid_indices)) => match spec_sid_dictionary(fields) {
                        Err(e) => Err(e),
                        Ok(sid_count) => if !sid_indices_ok(sid_indices.bytes, sid_count) {
                            Err(DecodeError::InvalidSection)
                        } else {
                            match per_row_field(fields, token_field::MARKER_DESCRIPTOR_INDEX, rc) {
                                Err(e) => Err(e),
                                Ok(_) => match spec_token_ids(section) {
                                    Err(e) => Err(e),
                                    Ok(_) => Ok(()),
                                },
                            }
                        },
                    },
                }
            },
        }
    }
}

/// The little-endian `u16` of row `row` of a two-byte column.
pub open spec fn row_u16(b: Seq<u8>, row: u32) -> Option<u16> {
    if 2 * row + 2 <= b.len() {
        Some(le_u16(b, 2 * row))
    } else {
        None
    }
}

/// The little-endian `u32` of row `row` of a four-byte column.
pub open spec fn row_u32(b: Seq<u8>, row: u32) -> Option<u32> {
    if 4 * row + 4 <= b.len() {
        Some(le_u32(b, 4 * row))
    } else {
        None
    }
}

fn u16_at(bytes: &[u8], row: u32) -> (v: Option<u16>)
    ensures
        v == row_u16(bytes@, row),
{
    let len = bytes.len();
    if (row as u64) * 2 + 2 > len as u64 {
        return None;
    }
    Some(read_u16(bytes, 2 * (row as usize)))
}

fn u32_at(bytes: &[u8], row: u32) -> (v: Option<u32>)
    ensures
        v == row_u32(bytes@, row),
{
    let len = bytes.len();
    if (row as u64) * 4 + 4 > len as u64 {
        return None;
    }
    Some(read_u32(bytes, 4 * (row as usize)))
}

fn check_kinds(kinds: &[u8]) -> (known: bool)
    ensures
        known == kinds_known(kinds@),
{
    let mut i: usize = 0;
    while i < kinds.len()
        invariant
            i <= kinds@.len(),
            forall|k: int| 0 <= k < i ==> (#[trigger] TokenKindTag::spec_from_u8(kinds@[k])) is Some,
        decreases kinds@.len() - i,
    {
        if TokenKindTag::from_u8(kinds[i]).is_none() {
            return false;
        }
        i = i + 1;
    }
    true
}

fn check_sid_indices(indices: &[u8], count: u16) -> (ok: bool)
    ensures
        ok == sid_indices_ok(indices@, count as u32),
{
    let len = indices.len();
    let n = len / 2;
    let mut i: usize = 0;
    while i < n
        invariant
            len == indices@.len(),
            n == record_total(indices@, 2),
            i <= n,
            forall|k: int|
                0 <= k < i ==> #[trigger] le_u16(indices@, 2 * k) == INDEX_NONE_U16 || le_u16(
                    indices@,
                    2 * k,
                ) < count,
        decreases n - i,
    {
        let index = read_u16(indices, 2 * i);
        if index != INDEX_NONE_U16 && index >= count {
            return false;
        }
        i = i + 1;
    }
    true
}

fn check_token_ids(indices: &[u8], ids: &StringDictionary) -> (ok: bool)
    requires
        ids.wf(),
    ensures
        ok == token_ids_ok(indices@, ids@),
{
    let len = indices.len();
    let n = len / 4;
    let mut i: usize = 0;
    while i < n
        invariant
            ids.wf(),
            len == indices@.len(),
            n == record_total(indices@, 4),
            i <= n,
            forall|k: int|
                0 <= k < i ==> #[trigger] le_u32(indices@, 4 * k) < ids@.len() && ids@[le_u32(
                    indices@,
                    4 * k,
                ) as int].len() != 0,
        decreases n - i,
    {
        let index = read_u32(indices, 4 * i);
        match ids.get(index) {
            Some(id) => {
                if id.unicode_len() == 0 {
                    return false;
                }
            },
            None => {
                return false;
            },
        }
        i = i + 1;
    }
    true
}

/// Borrowed, token-specific view over the per-row columns: each fixed column
/// has exactly one entry per token and every kind tag is known.
#[derive(Debug, Clone, Copy)]
pub struct TokenColumns<'wire> {
    record_count: u32,
    kinds: &'wire [u8],
    span_starts: &'wire [u8],
    span_ends: &'wire [u8],
    token_id_indices: Option<&'wire [u8]>,
    token_ids: Option<StringDictionary<'wire>>,
    sid_indices: &'wire [u8],
    marker_descriptor_indices: &'wire [u8],
    sids: SidDictionary<'wire>,
}

impl<'wire> TokenColumns<'wire> {
    pub closed spec fn spec_record_count(&self) -> u32 {
        self.record_count
    }

    pub closed spec fn spec_kinds(&self) -> Seq<u8> {
        self.kinds@
    }

    pub closed spec fn spec_span_starts(&self) -> Seq<u8> {
        self.span_starts@
    }

    pub closed spec fn spec_span_ends(&self) -> Seq<u8> {
        self.span_ends@
    }

    pub closed spec fn spec_sid_indices(&self) -> Seq<u8> {
        self.sid_indices@
    }

    pub closed spec fn spec_marker_descriptor_indices(&self) -> Seq<u8> {
        self.marker_descriptor_indices@
    }

    /// The id index column with the decoded id strings, when ids are explicit.
    pub closed spec fn spec_token_ids(&self) -> Option<(Seq<u8>, Seq<Seq<char>>)> {
        match (self.token_id_indices, self.token_ids) {
            (Some(indices), Some(ids)) => Some((indices@, ids@)),
            _ => None,
        }
    }

    pub closed spec fn spec_sids(&self) -> SidDictionary<'wire> {
        self.sids
    }

    pub closed spec fn wf(&self) -> bool {
        &&& self.sids.wf()
        &&& self.token_id_indices is Some <==> self.token_ids is Some
        &&& (self.token_ids matches Some(ids) ==> ids.wf())
    }

    /// The view holds the columns of `section`.
    pub open spec fn holds(&self, section: SpecSection) -> bool {
        let fields = section.fields;
        let rc = section.header.record_count;
        &&& self.wf()
        &&& self.spec_record_count() == rc
        &&& self.spec_kinds() == per_row_field(fields, token_field::KIND, rc)->Ok_0.bytes
        &&& self.spec_span_starts() == per_row_field(fields, token_field::SPAN_START, rc)->Ok_0.bytes
        &&& self.spec_span_ends() == per_row_field(fields, token_field::SPAN_END, rc)->Ok_0.bytes
        &&& self.spec_sid_indices() == per_row_field(fields, token_field::SID_INDEX, rc)->Ok_0.bytes
        &&& self.spec_marker_descriptor_indices() == per_row_field(
            fields,
            token_field::MARKER_DESCRIPTOR_INDEX,
            rc,
        )->Ok_0.bytes
        &&& spec_token_ids(section) == Ok::<Option<(Seq<u8>, Seq<Seq<char>>)>, DecodeError>(
            self.spec_token_ids(),
        )
        &&& spec_sid_dictionary(fields) == Ok::<u32, DecodeError>(self.spec_sids().spec_count() as u32)
        &&& self.spec_sids().spec_records() == first_field(
            fields,
            token_field::PACKED_SID_DICTIONARY,
        )->0.bytes
    }

    /// Validates a token section's fixed columns.
    pub fn from_section(section: &Section<'wire>) -> (columns: Result<Self, DecodeError>)
        ensures
            match columns {
                Ok(c) => spec_token_columns(section@) is Ok && c.holds(section@),
                Err(e) => spec_token_columns(section@) == Err::<(), DecodeError>(e),
            },
    {
        let header = section.header();
        if header.kind != SectionKind::Token {
            return Err(DecodeError::InvalidSection);
        }
        let record_count = header.record_count;
        let kinds = match per_row(section, token_field::KIND, record_count) {
            Ok(field) => field.bytes,
            Err(e) => return Err(e),
        };
        if !check_kinds(kinds) {
            return Err(DecodeError::InvalidDiscriminant);
        }
        let span_starts = match per_row(section, token_field::SPAN_START, record_count) {
            Ok(field) => field.bytes,
            Err(e) => return Err(e),
        };
        let span_ends = match per_row(section, token_field::SPAN_END, record_count) {
            Ok(field) => field.bytes,
            Err(e) => return Err(e),
        };
        let sid_indices = match per_row(section, token_field::SID_INDEX, record_count) {
            Ok(field) => field.bytes,
            Err(e) => return Err(e),
        };
        let sids = match SidDictionary::from_section(section) {
            Ok(sids) => sids,
            Err(e) => return Err(e),
        };
        // A row's SID index is either the sentinel or names a record that
        // exists: established once here so the per-row accessor is
        // infallible.
        if !check_sid_indices(sid_indices, sids.len()) {
            return Err(DecodeError::InvalidSection);
        }
        let marker_descriptor_indices = match per_row(
            section,
            token_field::MARKER_DESCRIPTOR_INDEX,
            record_count,
        ) {
            Ok(field) => field.bytes,
            Err(e) => return Err(e),
        };
        let (token_id_indices, token_ids) = match field_of(section, token_field::TOKEN_ID_INDEX) {
            Some(field) => {
                if let Err(e) = require_count(field, record_count) {
                    return Err(e);
                }
                let dictionary = match field_of(section, token_field::TOKEN_ID_DICTIONARY) {
                    Some(dictionary) => dictionary,
                    None => return Err(DecodeError::InvalidSection),
                };
                // The id dictionary carries opaque caller identity, so it
                // earns the same scrutiny as every other dictionary.
                let dictionary = match StringDictionary::from_field(dictionary) {
                    Ok(dictionary) => dictionary,
                    Err(e) => return Err(e),
                };
                if !check_token_ids(field.bytes, &dictionary) {
                    return Err(DecodeError::InvalidSection);
                }
                (Some(field.bytes), Some(dictionary))
            },
            None => {
                if !section.positional_ids() {
                    return Err(DecodeError::InvalidSection);
                }
                (None, None)
            },
        };
        Ok(TokenColumns {
            record_count,
            kinds,
            span_starts,
            span_ends,
            token_id_indices,
            token_ids,
            sid_indices,
            marker_descriptor_indices,
            sids,
        })
    }

    pub fn len(&self) -> (count: u32)
        ensures
            count == self.spec_record_count(),
    {
        self.record_count
    }

    pub fn is_empty(&self) -> (empty: bool)
        ensures
            empty == (self.spec_record_count() == 0),
    {
        self.record_count == 0
    }

    /// The raw kind column.
    pub fn kinds(&self) -> (kinds: &'wire [u8])
        ensures
            kinds@ == self.spec_kinds(),
    {
        self.kinds
    }

    pub fn kind(&self, row: u32) -> (kind: Option<TokenKindTag>)
        ensures
            kind == (if row < self.spec_kinds().len() {
                TokenKindTag::spec_from_u8(self.spec_kinds()[row as int])
            } else {
                None
            }),
    {
        if row as usize >= self.kinds.len() {
            return None;
        }
        TokenKindTag::from_u8(self.kinds[row as usize])
    }

    /// `(start, end)` of the row's source span.
    pub fn span(&self, row: u32) -> (span: Option<(u32, u32)>)
        ensures
            span == (match (row_u32(self.spec_span_starts(), row), row_u32(self.spec_span_ends(), row)) {
                (Some(start), Some(end)) => Some((start, end)),
                _ => None,
            }),
    {
        let start = match u32_at(self.span_starts, row) {
            Some(start) => start,
            None => return None,
        };
        let end = match u32_at(self.span_ends, row) {
            Some(end) => end,
            None => return None,
        };
        Some((start, end))
    }

    pub fn token_id_index(&self, row: u32) -> (index: Option<u32>)
        requires
            self.wf(),
        ensures
            index == (match self.spec_token_ids() {
                Some((indices, _)) => row_u32(indices, row),
                None => None,
            }),
    {
        match self.token_id_indices {
            Some(indices) => u32_at(indices, row),
            None => None,
        }
    }

    /// The row's explicit stable id; `None` for a positional-id section.
    pub fn token_id(&self, row: u32) -> (id: Option<&'wire str>)
        requires
            self.wf(),
        ensures
            (match id {
                Some(t) => Some(t@),
                None => None,
            }) == (match self.spec_token_ids() {
                Some((indices, ids)) => match row_u32(indices, row) {
                    Some(index) => if index < ids.len() {
                        Some(ids[index as int])
                    } else {
                        None
                    },
                    None => None,
                },
                None => None,
            }),
    {
        let ids = match self.token_ids {
            Some(ids) => ids,
            None => return None,
        };
        let index = match self.token_id_index(row) {
            Some(index) => index,
            None => return None,
        };
        ids.get(index)
    }

    /// True when this section carries opaque caller ids rather than
    /// positional ones.
    pub fn has_explicit_ids(&self) -> (explicit: bool)
        requires
            self.wf(),
        ensures
            explicit == self.spec_token_ids() is Some,
    {
        self.token_ids.is_some()
    }

    pub fn sid_index(&self, row: u32) -> (index: Option<u16>)
        ensures
            index == row_u16(self.spec_sid_indices(), row),
    {
        u16_at(self.sid_indices, row)
    }

    pub fn marker_descriptor_index(&self, row: u32) -> (index: Option<u16>)
        ensures
            index == row_u16(self.spec_marker_descriptor_indices(), row),
    {
        u16_at(self.marker_descriptor_indices, row)
    }

    /// The row's anchor, or `None` when the row has no SID or is out of
    /// range.
    pub fn sid(&self, row: u32) -> (anchor: Option<(Sid, SidFidelity)>)
        requires
            self.wf(),
        ensures
            anchor == (match row_u16(self.spec_sid_indices(), row) {
                Some(index) => if index == INDEX_NONE_U16 || index >= record_total(
                    self.spec_sids().spec_records(),
                    PACKED_SID_LEN as int,
                ) {
                    None
                } else {
                    Some(sid_at(self.spec_sids().spec_records(), index as int))
                },
                None => None,
            }),
    {
        match self.sid_index(row) {
            Some(index) => self.sids.get(index),
            None => None,
        }
    }

    pub fn sids(&self) -> (sids: SidDictionary<'wire>)
        ensures
            sids == self.spec_sids(),
    {
        self.sids
    }
}

// ------------------------------------------------------------ laws

/// The anchor a packed anchor reads back as: the range survives when it fits
/// seven bits, and is otherwise dropped to its first verse.
pub open spec fn packed_sid_reads_as(sid: Sid, fidelity: SidFidelity) -> (Sid, SidFidelity) {
    let delta = sid_delta(sid);
    (
        Sid {
            book: sid.book,
            chapter: sid.chapter,
            verse: sid.verse,
            verse_end: if 0 < delta <= SID_DELTA_MASK {
                sid.verse_end
            } else {
                sid.verse
            },
        },
        if delta > SID_DELTA_MASK {
            SidFidelity::AnchorOnly
        } else {
            fidelity
        },
    )
}

/// A packed anchor of a valid book decodes to the anchor packed, with its
/// range kept when it fits seven bits and the requested fidelity kept; a
/// wider range reads back as its first verse, anchor-only.
pub proof fn law_packed_sid_round_trip(sid: Sid, fidelity: SidFidelity)
    requires
        sid.book.is_valid(),
    ensures
        spec_decode_sid(packed_sid_bytes(sid, fidelity)) == Ok::<(Sid, SidFidelity), DecodeError>(
            packed_sid_reads_as(sid, fidelity),
        ),
{
    let b = packed_sid_bytes(sid, fidelity);
    let code = sid.book.code();
    sid.book.lemma_code(book_of_code(code));
    sid.book.lemma_code_ascii();
    assert(b.subrange(0, 3) =~= code);
    let c = book_of_code(code);
    assert(c.is_valid() && c.code() == code);
    sid.book.lemma_code(c);
    assert(b.subrange(3, 5) =~= u16_bytes(sid.chapter));
    assert(b.subrange(5, 7) =~= u16_bytes(sid.verse));
    lemma_le_u16_at(b, 3, sid.chapter);
    lemma_le_u16_at(b, 5, sid.verse);
    let wide = sid_delta(sid) > SID_DELTA_MASK;
    let delta: u8 = if wide {
        0
    } else {
        sid_delta(sid) as u8
    };
    let anchor_only = wide || fidelity == SidFidelity::AnchorOnly;
    let flag: u8 = if anchor_only { SID_FIDELITY_BIT } else { 0u8 };
    assert(b[7] == delta | flag);
    assert(delta <= 0x7f ==> (delta | 0x80u8) & 0x7fu8 == delta && (delta | 0x80u8) & 0x80u8 != 0)
        by (bit_vector);
    assert(delta <= 0x7f ==> (delta | 0u8) & 0x7fu8 == delta && (delta | 0u8) & 0x80u8 == 0)
        by (bit_vector);
}

/// A kind column is accepted exactly when every byte names one of the nine
/// token kinds (a byte below 9), so a column written from any kinds, markers
/// included, is accepted.
pub proof fn law_kind_column(b: Seq<u8>, kinds: Seq<TokenKindTag>)
    ensures
        kinds_known(b) <==> forall|i: int| 0 <= i < b.len() ==> #[trigger] b[i] < 9,
        kinds_known(kinds.map_values(|t: TokenKindTag| t.spec_as_u8())),
{
    assert forall|i: int| 0 <= i < b.len() implies (TokenKindTag::spec_from_u8(#[trigger] b[i]) is Some <==> b[i]
        < 9) by {}
    let m = kinds.map_values(|t: TokenKindTag| t.spec_as_u8());
    assert forall|i: int| 0 <= i < m.len() implies (#[trigger] TokenKindTag::spec_from_u8(m[i])) is Some by {
        assert(m[i] == kinds[i].spec_as_u8());
    }
}

/// A packed-SID dictionary holding the packed anchors of valid books, one
/// eight-byte record each and no more than the index column can name (what
/// [`SidDictionaryBuilder::bytes`] gives for the anchors interned), is
/// accepted with its count, and each record reads back as its anchor: the
/// book, chapter and verse, the verse bridge kept when it spans at most 127
/// verses, and the fidelity packed.
pub proof fn law_sid_dictionary_reads_anchors(
    anchors: Seq<(Sid, SidFidelity)>,
    fields: Seq<SpecField>,
    f: SpecField,
)
    requires
        forall|k: int| 0 <= k < anchors.len() ==> (#[trigger] anchors[k]).0.book.is_valid(),
        anchors.len() <= MAX_DISTINCT_SIDS,
        first_field(fields, token_field::PACKED_SID_DICTIONARY) == Some(f),
        f.count == anchors.len(),
        f.bytes.len() == PACKED_SID_LEN * anchors.len(),
        packed_records(f.bytes) == anchors.map_values(|a: (Sid, SidFidelity)| packed_sid_bytes(a.0, a.1)),
    ensures
        spec_sid_dictionary(fields) == Ok::<u32, DecodeError>(anchors.len() as u32),
        forall|k: int|
            0 <= k < anchors.len() ==> #[trigger] sid_at(f.bytes, k) == packed_sid_reads_as(
                anchors[k].0,
                anchors[k].1,
            ),
{
    let n = anchors.len();
    assert(record_total(f.bytes, PACKED_SID_LEN as int) == n) by {
        assert((8 * (n as int)) / 8 == n as int) by (nonlinear_arith);
    }
    assert forall|k: int| 0 <= k < n implies #[trigger] f.bytes.subrange(PACKED_SID_LEN * k, PACKED_SID_LEN * k + 8)
        == packed_sid_bytes(anchors[k].0, anchors[k].1) by {
        assert(packed_records(f.bytes)[k] == f.bytes.subrange(PACKED_SID_LEN * k, PACKED_SID_LEN * k + 8));
        assert(anchors.map_values(|a: (Sid, SidFidelity)| packed_sid_bytes(a.0, a.1))[k] == packed_sid_bytes(
            anchors[k].0,
            anchors[k].1,
        ));
    }
    assert forall|k: int| 0 <= k < n implies #[trigger] sid_checks(f.bytes)(k) is Ok by {
        assert(f.bytes.subrange(PACKED_SID_LEN * k, PACKED_SID_LEN * k + 8) == packed_sid_bytes(
            anchors[k].0,
            anchors[k].1,
        ));
        law_packed_sid_round_trip(anchors[k].0, anchors[k].1);
    }
    lemma_checks_all(sid_checks(f.bytes), n as nat);
    assert forall|k: int| 0 <= k < n implies #[trigger] sid_at(f.bytes, k) == packed_sid_reads_as(
        anchors[k].0,
        anchors[k].1,
    ) by {
        assert(f.bytes.subrange(PACKED_SID_LEN * k, PACKED_SID_LEN * k + 8) == packed_sid_bytes(
            anchors[k].0,
            anchors[k].1,
        ));
        law_packed_sid_round_trip(anchors[k].0, anchors[k].1);
    }
}

} // verus!
