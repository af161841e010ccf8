//! Checked little-endian read/write primitives.
//!
//! Every read is bounds-checked and every offset/length computation is checked
//! arithmetic, so no decode path can index out of range or size an allocation
//! from an unvalidated count. Length trouble is a [`DecodeError`], never a
//! panic. v1 is little-endian only.

use vstd::prelude::*;
use vstd::string::StringSliceAdditionalSpecFns;
use vstd::utf8::{decode_utf8, encode_utf8, encode_utf8_decode_utf8};

use crate::error::DecodeError;
use crate::outside::{xxh3_64, xxh3_64_hash};

verus! {

// ------------------------------------------------------------ byte encodings

/// Little-endian `u16` at `at`.
pub open spec fn le_u16(s: Seq<u8>, at: int) -> u16 {
    (s[at] as u16) | ((s[at + 1] as u16) << 8u16)
}

/// Little-endian `u32` at `at`.
pub open spec fn le_u32(s: Seq<u8>, at: int) -> u32 {
    (s[at] as u32) | ((s[at + 1] as u32) << 8u32) | ((s[at + 2] as u32) << 16u32) | ((s[at
        + 3] as u32) << 24u32)
}

/// Little-endian `u64` at `at`.
pub open spec fn le_u64(s: Seq<u8>, at: int) -> u64 {
    (s[at] as u64) | ((s[at + 1] as u64) << 8u64) | ((s[at + 2] as u64) << 16u64) | ((s[at
        + 3] as u64) << 24u64) | ((s[at + 4] as u64) << 32u64) | ((s[at + 5] as u64) << 40u64)
        | ((s[at + 6] as u64) << 48u64) | ((s[at + 7] as u64) << 56u64)
}

/// The two little-endian bytes of `v`.
pub open spec fn u16_bytes(v: u16) -> Seq<u8> {
    seq![(v & 0xff) as u8, ((v >> 8u16) & 0xff) as u8]
}

/// The four little-endian bytes of `v`.
pub open spec fn u32_bytes(v: u32) -> Seq<u8> {
    seq![
        (v & 0xff) as u8,
        ((v >> 8u32) & 0xff) as u8,
        ((v >> 16u32) & 0xff) as u8,
        ((v >> 24u32) & 0xff) as u8,
    ]
}

/// The eight little-endian bytes of `v`.
pub open spec fn u64_bytes(v: u64) -> Seq<u8> {
    seq![
        (v & 0xff) as u8,
        ((v >> 8u64) & 0xff) as u8,
        ((v >> 16u64) & 0xff) as u8,
        ((v >> 24u64) & 0xff) as u8,
        ((v >> 32u64) & 0xff) as u8,
        ((v >> 40u64) & 0xff) as u8,
        ((v >> 48u64) & 0xff) as u8,
        ((v >> 56u64) & 0xff) as u8,
    ]
}

/// Reading back the encoding of a value gives the value.
pub proof fn lemma_u16_round_trip(v: u16)
    ensures
        le_u16(u16_bytes(v), 0) == v,
{
    let b0 = (v & 0xff) as u8;
    let b1 = ((v >> 8u16) & 0xff) as u8;
    assert(((b0 == (v & 0xff) as u8) && (b1 == ((v >> 8u16) & 0xff) as u8)) ==> v == ((b0 as u16)
        | ((b1 as u16) << 8u16))) by (bit_vector);
}

/// Reading back the encoding of a value gives the value.
pub proof fn lemma_u32_round_trip(v: u32)
    ensures
        le_u32(u32_bytes(v), 0) == v,
{
    let b0 = (v & 0xff) as u8;
    let b1 = ((v >> 8u32) & 0xff) as u8;
    let b2 = ((v >> 16u32) & 0xff) as u8;
    let b3 = ((v >> 24u32) & 0xff) as u8;
    assert((b0 == (v & 0xff) as u8 && b1 == ((v >> 8u32) & 0xff) as u8 && b2 == ((v >> 16u32)
        & 0xff) as u8 && b3 == ((v >> 24u32) & 0xff) as u8) ==> v == ((b0 as u32) | ((b1 as u32)
        << 8u32) | ((b2 as u32) << 16u32) | ((b3 as u32) << 24u32))) by (bit_vector);
}

/// Reading back the encoding of a value gives the value.
pub proof fn lemma_u64_round_trip(v: u64)
    ensures
        le_u64(u64_bytes(v), 0) == v,
{
    let b0 = (v & 0xff) as u8;
    let b1 = ((v >> 8u64) & 0xff) as u8;
    let b2 = ((v >> 16u64) & 0xff) as u8;
    let b3 = ((v >> 24u64) & 0xff) as u8;
    let b4 = ((v >> 32u64) & 0xff) as u8;
    let b5 = ((v >> 40u64) & 0xff) as u8;
    let b6 = ((v >> 48u64) & 0xff) as u8;
    let b7 = ((v >> 56u64) & 0xff) as u8;
    assert((b0 == (v & 0xff) as u8 && b1 == ((v >> 8u64) & 0xff) as u8 && b2 == ((v >> 16u64)
        & 0xff) as u8 && b3 == ((v >> 24u64) & 0xff) as u8 && b4 == ((v >> 32u64) & 0xff) as u8
        && b5 == ((v >> 40u64) & 0xff) as u8 && b6 == ((v >> 48u64) & 0xff) as u8 && b7 == ((v
        >> 56u64) & 0xff) as u8) ==> v == ((b0 as u64) | ((b1 as u64) << 8u64) | ((b2 as u64)
        << 16u64) | ((b3 as u64) << 24u64) | ((b4 as u64) << 32u64) | ((b5 as u64) << 40u64) | ((
    b6 as u64) << 48u64) | ((b7 as u64) << 56u64))) by (bit_vector);
}

/// Eight bytes are determined by the little-endian `u64` they read as.
pub proof fn lemma_le_u64_injective(a: Seq<u8>, b: Seq<u8>)
    requires
        a.len() == 8,
        b.len() == 8,
        le_u64(a, 0) == le_u64(b, 0),
    ensures
        a == b,
{
    let (a0, a1, a2, a3, a4, a5, a6, a7) = (a[0], a[1], a[2], a[3], a[4], a[5], a[6], a[7]);
    let (b0, b1, b2, b3, b4, b5, b6, b7) = (b[0], b[1], b[2], b[3], b[4], b[5], b[6], b[7]);
    assert(((a0 as u64) | ((a1 as u64) << 8u64) | ((a2 as u64) << 16u64) | ((a3 as u64) << 24u64)
        | ((a4 as u64) << 32u64) | ((a5 as u64) << 40u64) | ((a6 as u64) << 48u64) | ((a7 as u64)
        << 56u64)) == ((b0 as u64) | ((b1 as u64) << 8u64) | ((b2 as u64) << 16u64) | ((b3 as u64)
        << 24u64) | ((b4 as u64) << 32u64) | ((b5 as u64) << 40u64) | ((b6 as u64) << 48u64) | ((
    b7 as u64) << 56u64)) ==> a0 == b0 && a1 == b1 && a2 == b2 && a3 == b3 && a4 == b4 && a5 == b5
        && a6 == b6 && a7 == b7) by (bit_vector);
    assert(a =~= b);
}

/// Reading at `at` gives `v` when the bytes there are `v`'s encoding.
pub proof fn lemma_le_u16_at(b: Seq<u8>, at: int, v: u16)
    requires
        0 <= at,
        at + 2 <= b.len(),
        b.subrange(at, at + 2) == u16_bytes(v),
    ensures
        le_u16(b, at) == v,
{
    lemma_u16_round_trip(v);
    assert(b[at] == b.subrange(at, at + 2)[0]);
    assert(b[at + 1] == b.subrange(at, at + 2)[1]);
}

/// Reading at `at` gives `v` when the bytes there are `v`'s encoding.
pub proof fn lemma_le_u32_at(b: Seq<u8>, at: int, v: u32)
    requires
        0 <= at,
        at + 4 <= b.len(),
        b.subrange(at, at + 4) == u32_bytes(v),
    ensures
        le_u32(b, at) == v,
{
    lemma_u32_round_trip(v);
    let w = b.subrange(at, at + 4);
    assert(b[at] == w[0] && b[at + 1] == w[1] && b[at + 2] == w[2] && b[at + 3] == w[3]);
}

/// Reading at `at` gives `v` when the bytes there are `v`'s encoding.
pub proof fn lemma_le_u64_at(b: Seq<u8>, at: int, v: u64)
    requires
        0 <= at,
        at + 8 <= b.len(),
        b.subrange(at, at + 8) == u64_bytes(v),
    ensures
        le_u64(b, at) == v,
{
    lemma_u64_round_trip(v);
    let w = b.subrange(at, at + 8);
    assert(b[at] == w[0] && b[at + 1] == w[1] && b[at + 2] == w[2] && b[at + 3] == w[3]);
    assert(b[at + 4] == w[4] && b[at + 5] == w[5] && b[at + 6] == w[6] && b[at + 7] == w[7]);
}

/// The encoding of zero is eight zero bytes.
pub proof fn lemma_u64_zero_bytes()
    ensures
        u64_bytes(0) == Seq::new(8, |i: int| 0u8),
{
    let z: u64 = 0;
    assert((z & 0xff) as u8 == 0 && ((z >> 8u64) & 0xff) as u8 == 0 && ((z >> 16u64) & 0xff) as u8
        == 0 && ((z >> 24u64) & 0xff) as u8 == 0 && ((z >> 32u64) & 0xff) as u8 == 0 && ((z
        >> 40u64) & 0xff) as u8 == 0 && ((z >> 48u64) & 0xff) as u8 == 0 && ((z >> 56u64) & 0xff)
        as u8 == 0) by (bit_vector)
        requires
            z == 0,
    ;
    assert(u64_bytes(0) =~= Seq::new(8, |i: int| 0u8));
}

/// Little-endian bytes of a `u16`.
pub fn u16_to_le(v: u16) -> (bytes: [u8; 2])
    ensures
        bytes@ == u16_bytes(v),
{
    let bytes = [(v & 0xff) as u8, ((v >> 8u16) & 0xff) as u8];
    proof {
        assert(bytes@ =~= u16_bytes(v));
    }
    bytes
}

/// Little-endian bytes of a `u32`.
pub fn u32_to_le(v: u32) -> (bytes: [u8; 4])
    ensures
        bytes@ == u32_bytes(v),
{
    let bytes = [
        (v & 0xff) as u8,
        ((v >> 8u32) & 0xff) as u8,
        ((v >> 16u32) & 0xff) as u8,
        ((v >> 24u32) & 0xff) as u8,
    ];
    proof {
        assert(bytes@ =~= u32_bytes(v));
    }
    bytes
}

/// Little-endian bytes of a `u64`.
pub fn u64_to_le(v: u64) -> (bytes: [u8; 8])
    ensures
        bytes@ == u64_bytes(v),
{
    let bytes = [
        (v & 0xff) as u8,
        ((v >> 8u64) & 0xff) as u8,
        ((v >> 16u64) & 0xff) as u8,
        ((v >> 24u64) & 0xff) as u8,
        ((v >> 32u64) & 0xff) as u8,
        ((v >> 40u64) & 0xff) as u8,
        ((v >> 48u64) & 0xff) as u8,
        ((v >> 56u64) & 0xff) as u8,
    ];
    proof {
        assert(bytes@ =~= u64_bytes(v));
    }
    bytes
}

/// The little-endian `u16` at `at`.
pub fn read_u16(bytes: &[u8], at: usize) -> (v: u16)
    requires
        at + 2 <= bytes@.len(),
    ensures
        v == le_u16(bytes@, at as int),
{
    (bytes[at] as u16) | ((bytes[at + 1] as u16) << 8u16)
}

/// The little-endian `u32` at `at`.
pub fn read_u32(bytes: &[u8], at: usize) -> (v: u32)
    requires
        at + 4 <= bytes@.len(),
    ensures
        v == le_u32(bytes@, at as int),
{
    (bytes[at] as u32) | ((bytes[at + 1] as u32) << 8u32) | ((bytes[at + 2] as u32) << 16u32) | ((
    bytes[at + 3] as u32) << 24u32)
}

/// The little-endian `u64` at `at`.
pub fn read_u64(bytes: &[u8], at: usize) -> (v: u64)
    requires
        at + 8 <= bytes@.len(),
    ensures
        v == le_u64(bytes@, at as int),
{
    (bytes[at] as u64) | ((bytes[at + 1] as u64) << 8u64) | ((bytes[at + 2] as u64) << 16u64) | ((
    bytes[at + 3] as u64) << 24u64) | ((bytes[at + 4] as u64) << 32u64) | ((bytes[at + 5] as u64)
        << 40u64) | ((bytes[at + 6] as u64) << 48u64) | ((bytes[at + 7] as u64) << 56u64)
}

// ------------------------------------------------------------ range checks

/// The byte view of a borrowed-slice result.
pub open spec fn bytes_of(r: Result<&[u8], DecodeError>) -> Result<Seq<u8>, DecodeError> {
    match r {
        Ok(s) => Ok(s@),
        Err(e) => Err(e),
    }
}

/// Converts a wire-declared `u64` to a host index: too large to be an address on
/// this platform is [`DecodeError::OffsetOverflow`].
pub fn index_from_u64(value: u64) -> (index: Result<usize, DecodeError>)
    ensures
        value <= usize::MAX ==> index == Ok::<usize, DecodeError>(value as usize),
        value > usize::MAX ==> index == Err::<usize, DecodeError>(DecodeError::OffsetOverflow),
{
    if value <= usize::MAX as u64 {
        Ok(value as usize)
    } else {
        Err(DecodeError::OffsetOverflow)
    }
}

/// What [`window`] returns: overflowing arithmetic, or an end past this
/// platform's address range, is an overflow; a sound range that runs off the end
/// of the bytes is truncation.
pub open spec fn spec_window(bytes: Seq<u8>, offset: int, len: int) -> Result<Seq<u8>, DecodeError> {
    if offset + len > usize::MAX {
        Err(DecodeError::OffsetOverflow)
    } else if offset + len > bytes.len() {
        Err(DecodeError::Truncated)
    } else {
        Ok(bytes.subrange(offset, offset + len))
    }
}

/// Borrows `len` bytes at absolute `offset`, validating the arithmetic before
/// the range.
pub fn window<'a>(bytes: &'a [u8], offset: u64, len: u64) -> (out: Result<&'a [u8], DecodeError>)
    ensures
        bytes_of(out) == spec_window(bytes@, offset as int, len as int),
{
    let end = match offset.checked_add(len) {
        Some(end) => end,
        None => { return Err(DecodeError::OffsetOverflow); },
    };
    let start = index_from_u64(offset)?;
    let end = index_from_u64(end)?;
    if end > bytes.len() {
        return Err(DecodeError::Truncated);
    }
    Ok(vstd::slice::slice_subrange(bytes, start, end))
}

/// `count * width` as a `u64`, refusing the overflow rather than wrapping into a
/// small, plausible-looking size.
pub fn checked_extent(count: u64, width: u64) -> (extent: Result<u64, DecodeError>)
    ensures
        count * width <= u64::MAX ==> extent == Ok::<u64, DecodeError>((count * width) as u64),
        count * width > u64::MAX ==> extent == Err::<u64, DecodeError>(DecodeError::OffsetOverflow),
{
    match count.checked_mul(width) {
        Some(extent) => Ok(extent),
        None => Err(DecodeError::OffsetOverflow),
    }
}

// ------------------------------------------------------------ checksums

/// The concatenation of byte parts.
pub open spec fn concat_parts(parts: Seq<&[u8]>) -> Seq<u8> {
    parts.map_values(|part: &[u8]| part@).flatten()
}

/// xxhash3-64 over the concatenation of `parts`.
///
/// The encoder hashes its still-unassembled header and body through this;
/// [`integrity_checksum`] hashes an assembled buffer through the same hash with
/// the checksum field read as zeros, so the two directions agree.
pub fn integrity_checksum_parts(parts: &[&[u8]]) -> (hash: u64)
    ensures
        hash == xxh3_64_hash(concat_parts(parts@)),
{
    let mut joined: Vec<u8> = Vec::new();
    let mut i: usize = 0;
    while i < parts.len()
        invariant
            i <= parts@.len(),
            joined@ == concat_parts(parts@.take(i as int)),
        decreases parts@.len() - i,
    {
        let part = parts[i];
        let mut j: usize = 0;
        let ghost before = joined@;
        while j < part.len()
            invariant
                j <= part@.len(),
                joined@ == before + part@.take(j as int),
            decreases part@.len() - j,
        {
            joined.push(part[j]);
            proof {
                assert(part@.take(j + 1) =~= part@.take(j as int).push(part@[j as int]));
            }
            j = j + 1;
        }
        proof {
            assert(part@.take(j as int) =~= part@);
            let taken = parts@.take(i + 1);
            assert(taken.drop_last() =~= parts@.take(i as int));
            assert(taken.map_values(|p: &[u8]| p@) =~= parts@.take(i as int).map_values(
                |p: &[u8]| p@,
            ).push(part@));
            parts@.take(i as int).map_values(|p: &[u8]| p@).lemma_flatten_push(part@);
        }
        i = i + 1;
    }
    proof {
        assert(parts@.take(i as int) =~= parts@);
    }
    xxh3_64(joined.as_slice())
}

/// The bytes the integrity checksum covers: `bytes` with the eight bytes at
/// `hole` read as zero, or `bytes` as-is when the slice is too short to contain
/// the hole.
pub open spec fn checksum_input(bytes: Seq<u8>, hole: int) -> Seq<u8> {
    let after = if hole + 8 > usize::MAX { usize::MAX as int } else { hole + 8 };
    if hole <= bytes.len() && after <= bytes.len() {
        bytes.subrange(0, hole) + Seq::new(8, |i: int| 0u8) + bytes.subrange(after, bytes.len() as int)
    } else {
        bytes
    }
}

/// xxhash3-64 over `bytes` with the eight bytes at `hole` read as zero: the
/// integrity-checksum rule for the container header and every section header.
pub fn integrity_checksum(bytes: &[u8], hole: usize) -> (hash: u64)
    ensures
        hash == xxh3_64_hash(checksum_input(bytes@, hole as int)),
{
    let after = hole.saturating_add(8);
    if hole <= bytes.len() && after <= bytes.len() {
        let before = vstd::slice::slice_subrange(bytes, 0, hole);
        let zeros = [0u8; 8];
        let rest = vstd::slice::slice_subrange(bytes, after, bytes.len());
        let parts = [before, zeros.as_slice(), rest];
        let hash = integrity_checksum_parts(parts.as_slice());
        proof {
            let views = parts@.map_values(|part: &[u8]| part@);
            assert(views =~= seq![before@, zeros@, rest@]);
            lemma_flatten_three(before@, zeros@, rest@);
            assert(zeros@ =~= Seq::new(8, |i: int| 0u8));
        }
        hash
    } else {
        xxh3_64(bytes)
    }
}

/// Flattening three parts is their concatenation.
pub proof fn lemma_flatten_three(a: Seq<u8>, b: Seq<u8>, c: Seq<u8>)
    ensures
        seq![a, b, c].flatten() == a + b + c,
{
    let s = seq![a, b, c];
    reveal_with_fuel(Seq::<_>::flatten, 4);
    assert(s.drop_first() =~= seq![b, c]);
    assert(seq![b, c].drop_first() =~= seq![c]);
    assert(seq![c].drop_first() =~= Seq::<Seq<u8>>::empty());
    assert(seq![c].flatten() =~= c);
    assert(seq![b, c].flatten() =~= b + c);
    assert(s.flatten() =~= a + (b + c));
}

/// xxhash3-64 of a book's exact source bytes.
pub fn source_hash(source: &str) -> (hash: u64)
    ensures
        hash == xxh3_64_hash(source.spec_bytes()),
{
    xxh3_64(source.as_bytes())
}

// ------------------------------------------------------------ strings

/// Two strings are equal exactly when their characters are.
pub fn str_eq(a: &str, b: &str) -> (equal: bool)
    ensures
        equal == (a@ == b@),
{
    let x = a.as_bytes();
    let y = b.as_bytes();
    proof {
        encode_utf8_decode_utf8(a@);
        encode_utf8_decode_utf8(b@);
    }
    if x.len() != y.len() {
        return false;
    }
    let mut i: usize = 0;
    while i < x.len()
        invariant
            i <= x@.len(),
            x@.len() == y@.len(),
            x@ == encode_utf8(a@),
            y@ == encode_utf8(b@),
            decode_utf8(x@) == a@,
            decode_utf8(y@) == b@,
            x@.take(i as int) == y@.take(i as int),
        decreases x@.len() - i,
    {
        if x[i] != y[i] {
            return false;
        }
        proof {
            assert(x@.take(i + 1) =~= x@.take(i as int).push(x@[i as int]));
            assert(y@.take(i + 1) =~= y@.take(i as int).push(y@[i as int]));
        }
        i = i + 1;
    }
    proof {
        assert(x@.take(i as int) =~= x@);
        assert(y@.take(i as int) =~= y@);
    }
    true
}

// ------------------------------------------------------------ cursor

/// Sequential little-endian reader over a validated byte window.
pub struct Cursor<'a> {
    bytes: &'a [u8],
    pos: usize,
}

impl<'a> Cursor<'a> {
    /// The bytes under the cursor.
    pub closed spec fn data(&self) -> Seq<u8> {
        self.bytes@
    }

    /// The read position.
    pub closed spec fn position(&self) -> int {
        self.pos as int
    }

    /// The position never passes the end of the bytes.
    pub closed spec fn wf(&self) -> bool {
        self.pos <= self.bytes@.len()
    }

    /// What reading `len` bytes at the current position does.
    pub open spec fn spec_take(&self, len: int) -> Result<Seq<u8>, DecodeError> {
        if self.position() + len > usize::MAX {
            Err(DecodeError::OffsetOverflow)
        } else if self.position() + len > self.data().len() {
            Err(DecodeError::Truncated)
        } else {
            Ok(self.data().subrange(self.position(), self.position() + len))
        }
    }

    pub fn new(bytes: &'a [u8]) -> (cursor: Self)
        ensures
            cursor.data() == bytes@,
            cursor.position() == 0,
            cursor.wf(),
    {
        Self { bytes, pos: 0 }
    }

    /// Borrows the next `len` bytes and advances past them; on failure nothing
    /// moves.
    pub fn take(&mut self, len: usize) -> (out: Result<&'a [u8], DecodeError>)
        requires
            old(self).wf(),
        ensures
            final(self).wf(),
            final(self).data() == old(self).data(),
            bytes_of(out) == old(self).spec_take(len as int),
            out is Ok ==> final(self).position() == old(self).position() + len,
            out is Err ==> final(self).position() == old(self).position(),
    {
        let end = match self.pos.checked_add(len) {
            Some(end) => end,
            None => { return Err(DecodeError::OffsetOverflow); },
        };
        if end > self.bytes.len() {
            return Err(DecodeError::Truncated);
        }
        let slice = vstd::slice::slice_subrange(self.bytes, self.pos, end);
        self.pos = end;
        Ok(slice)
    }

    pub fn u8(&mut self) -> (out: Result<u8, DecodeError>)
        requires
            old(self).wf(),
        ensures
            final(self).wf(),
            final(self).data() == old(self).data(),
            match old(self).spec_take(1) {
                Ok(_) => out == Ok::<u8, DecodeError>(old(self).data()[old(self).position()])
                    && final(self).position() == old(self).position() + 1,
                Err(e) => out == Err::<u8, DecodeError>(e)
                    && final(self).position() == old(self).position(),
            },
    {
        let end = match self.pos.checked_add(1) {
            Some(end) => end,
            None => { return Err(DecodeError::OffsetOverflow); },
        };
        if end > self.bytes.len() {
            return Err(DecodeError::Truncated);
        }
        let v = self.bytes[self.pos];
        self.pos = end;
        Ok(v)
    }

    pub fn u16(&mut self) -> (out: Result<u16, DecodeError>)
        requires
            old(self).wf(),
        ensures
            final(self).wf(),
            final(self).data() == old(self).data(),
            match old(self).spec_take(2) {
                Ok(_) => out == Ok::<u16, DecodeError>(le_u16(old(self).data(), old(self).position()))
                    && final(self).position() == old(self).position() + 2,
                Err(e) => out == Err::<u16, DecodeError>(e)
                    && final(self).position() == old(self).position(),
            },
    {
        let end = match self.pos.checked_add(2) {
            Some(end) => end,
            None => { return Err(DecodeError::OffsetOverflow); },
        };
        if end > self.bytes.len() {
            return Err(DecodeError::Truncated);
        }
        let v = read_u16(self.bytes, self.pos);
        self.pos = end;
        Ok(v)
    }

    pub fn u32(&mut self) -> (out: Result<u32, DecodeError>)
        requires
            old(self).wf(),
        ensures
            final(self).wf(),
            final(self).data() == old(self).data(),
            match old(self).spec_take(4) {
                Ok(_) => out == Ok::<u32, DecodeError>(le_u32(old(self).data(), old(self).position()))
                    && final(self).position() == old(self).position() + 4,
                Err(e) => out == Err::<u32, DecodeError>(e)
                    && final(self).position() == old(self).position(),
            },
    {
        let end = match self.pos.checked_add(4) {
            Some(end) => end,
            None => { return Err(DecodeError::OffsetOverflow); },
        };
        if end > self.bytes.len() {
            return Err(DecodeError::Truncated);
        }
        let v = read_u32(self.bytes, self.pos);
        self.pos = end;
        Ok(v)
    }

    pub fn u64(&mut self) -> (out: Result<u64, DecodeError>)
        requires
            old(self).wf(),
        ensures
            final(self).wf(),
            final(self).data() == old(self).data(),
            match old(self).spec_take(8) {
                Ok(_) => out == Ok::<u64, DecodeError>(le_u64(old(self).data(), old(self).position()))
                    && final(self).position() == old(self).position() + 8,
                Err(e) => out == Err::<u64, DecodeError>(e)
                    && final(self).position() == old(self).position(),
            },
    {
        let end = match self.pos.checked_add(8) {
            Some(end) => end,
            None => { return Err(DecodeError::OffsetOverflow); },
        };
        if end > self.bytes.len() {
            return Err(DecodeError::Truncated);
        }
        let v = read_u64(self.bytes, self.pos);
        self.pos = end;
        Ok(v)
    }
}

// ------------------------------------------------------------ writer

/// Zero bytes needed to bring `position` up to a multiple of `align`.
pub open spec fn padding(position: int, align: int) -> int {
    if align <= 1 || position % align == 0 {
        0
    } else {
        align - position % align
    }
}

/// Append-only little-endian writer. Emission order alone decides the output
/// bytes, so a given input sequence always produces the same buffer.
pub struct Writer {
    bytes: Vec<u8>,
}

impl View for Writer {
    type V = Seq<u8>;

    closed spec fn view(&self) -> Seq<u8> {
        self.bytes@
    }
}

impl Default for Writer {
    fn default() -> (writer: Self)
        ensures
            writer@ == Seq::<u8>::empty(),
    {
        Writer { bytes: Vec::new() }
    }
}

impl Writer {
    pub fn new() -> (writer: Self)
        ensures
            writer@ == Seq::<u8>::empty(),
    {
        Writer { bytes: Vec::new() }
    }

    pub fn with_capacity(capacity: usize) -> (writer: Self)
        ensures
            writer@ == Seq::<u8>::empty(),
    {
        Writer { bytes: Vec::with_capacity(capacity) }
    }

    pub fn len(&self) -> (len: usize)
        ensures
            len == self@.len(),
    {
        self.bytes.len()
    }

    pub fn u8(&mut self, value: u8)
        ensures
            final(self)@ == old(self)@.push(value),
    {
        self.bytes.push(value);
    }

    pub fn u16(&mut self, value: u16)
        ensures
            final(self)@ == old(self)@ + u16_bytes(value),
    {
        let b = u16_to_le(value);
        self.bytes(b.as_slice());
    }

    pub fn u32(&mut self, value: u32)
        ensures
            final(self)@ == old(self)@ + u32_bytes(value),
    {
        let b = u32_to_le(value);
        self.bytes(b.as_slice());
    }

    pub fn u64(&mut self, value: u64)
        ensures
            final(self)@ == old(self)@ + u64_bytes(value),
    {
        let b = u64_to_le(value);
        self.bytes(b.as_slice());
    }

    pub fn bytes(&mut self, value: &[u8])
        ensures
            final(self)@ == old(self)@ + value@,
    {
        let mut j: usize = 0;
        while j < value.len()
            invariant
                j <= value@.len(),
                self@ == old(self)@ + value@.take(j as int),
            decreases value@.len() - j,
        {
            self.bytes.push(value[j]);
            proof {
                assert(value@.take(j + 1) =~= value@.take(j as int).push(value@[j as int]));
                assert(self@ =~= old(self)@ + value@.take(j + 1));
            }
            j = j + 1;
        }
        proof {
            assert(value@.take(j as int) =~= value@);
        }
    }

    /// Zero-pads until `base + len()` is a multiple of `align`. `base` is where
    /// this buffer sits in the structure being built, so alignment is computed
    /// against the final position rather than the local one.
    pub fn pad_to_from(&mut self, base: usize, align: usize)
        requires
            base + old(self)@.len() <= usize::MAX,
        ensures
            final(self)@ == old(self)@ + Seq::new(
                padding(base + old(self)@.len(), align as int) as nat,
                |i: int| 0u8,
            ),
    {
        if align > 1 {
            let position = base + self.bytes.len();
            let rem = position % align;
            if rem != 0 {
                let mut k: usize = 0;
                let count = align - rem;
                while k < count
                    invariant
                        k <= count,
                        count == padding(base + old(self)@.len(), align as int),
                        self@ == old(self)@ + Seq::new(k as nat, |i: int| 0u8),
                    decreases count - k,
                {
                    self.bytes.push(0u8);
                    proof {
                        assert(self@ =~= old(self)@ + Seq::new((k + 1) as nat, |i: int| 0u8));
                    }
                    k = k + 1;
                }
                return;
            }
        }
        proof {
            assert(old(self)@ + Seq::new(0, |i: int| 0u8) =~= old(self)@);
        }
    }

    /// The bytes written so far.
    pub fn as_slice(&self) -> (bytes: &[u8])
        ensures
            bytes@ == self@,
    {
        self.bytes.as_slice()
    }

    /// Overwrites the four bytes at `at` with `value` in little-endian order.
    pub fn set_u32(&mut self, at: usize, value: u32)
        requires
            at + 4 <= old(self)@.len(),
        ensures
            final(self)@ == old(self)@.subrange(0, at as int) + u32_bytes(value) + old(self)@.subrange(
                at + 4,
                old(self)@.len() as int,
            ),
    {
        let _len = self.bytes.len();
        let b = u32_to_le(value);
        self.bytes.set(at, b[0]);
        self.bytes.set(at + 1, b[1]);
        self.bytes.set(at + 2, b[2]);
        self.bytes.set(at + 3, b[3]);
        proof {
            assert(self@ =~= old(self)@.subrange(0, at as int) + u32_bytes(value) + old(self)@.subrange(
                at + 4,
                old(self)@.len() as int,
            ));
        }
    }

    pub fn finish(self) -> (bytes: Vec<u8>)
        ensures
            bytes@ == self@,
    {
        self.bytes
    }
}

} // verus!
