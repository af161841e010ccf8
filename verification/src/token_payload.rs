//! Mixed and sparse token-section payloads: the UTF-8 string dictionary, the
//! marker descriptor dictionary, and the sparse number, book-code, and
//! attribute records.
//!
//! Each view validates its whole payload at construction (extents, index
//! ranges, discriminants, reserved bytes, and ascending record order) so every
//! accessor is infallible and no caller repeats the arithmetic. Sparse records
//! are keyed by `token_idx` in strictly ascending order, which is what lets
//! lookup be a binary search with no map and no allocation.

use vstd::prelude::*;
use vstd::utf8::{decode_utf8, encode_utf8, valid_utf8};

use crate::container::read::{all_zero, check_zero};
use crate::container::SectionField;
use crate::error::DecodeError;
use crate::outside::utf8_str;
use crate::primitives::{le_u32, read_u32, str_eq, u32_bytes, Writer};
use crate::schema::{
    NumberRangeKindTag, ATTRIBUTE_ENTRY_LEN, ATTRIBUTE_FLAG_DEFAULT, ATTRIBUTE_ROW_LEN, SPAN_ABSENT,
    BOOK_CODE_FLAG_VALID, BOOK_CODE_RECORD_LEN, DESCRIPTOR_FLAGS_KNOWN,
    DESCRIPTOR_FLAG_NESTED, DESCRIPTOR_RECORD_LEN, MAX_MARKER_DESCRIPTORS, NUMBER_FLAGS_KNOWN,
    NUMBER_FLAG_HAS_END, NUMBER_RECORD_LEN,
};

pub mod attribute_laws;
pub mod laws;

verus! {

// ------------------------------------------------------------ record checks

/// The checks of records `0..n`, in order: the first failure, if any.
pub open spec fn checks_upto(check: spec_fn(int) -> Result<(), DecodeError>, n: nat) -> Result<
    (),
    DecodeError,
>
    decreases n,
{
    if n == 0 {
        Ok(())
    } else {
        match checks_upto(check, (n - 1) as nat) {
            Err(e) => Err(e),
            Ok(_) => check(n - 1),
        }
    }
}

/// Once a record fails, every longer run of checks fails the same way.
pub proof fn lemma_checks_stop(check: spec_fn(int) -> Result<(), DecodeError>, i: nat, n: nat)
    requires
        i < n,
        checks_upto(check, i) is Ok,
        check(i as int) is Err,
    ensures
        checks_upto(check, n) == check(i as int),
    decreases n - i,
{
    if n > i + 1 {
        lemma_checks_stop(check, i, (n - 1) as nat);
    }
}

/// Passing every check means passing each one.
pub proof fn lemma_checks_each(check: spec_fn(int) -> Result<(), DecodeError>, n: nat, k: int)
    requires
        checks_upto(check, n) is Ok,
        0 <= k < n,
    ensures
        check(k) is Ok,
    decreases n,
{
    if k < n - 1 {
        lemma_checks_each(check, (n - 1) as nat, k);
    }
}

/// The little-endian `u32` at `at`, when four bytes are there.
pub open spec fn spec_u32_at(bytes: Seq<u8>, at: int) -> Option<u32> {
    if 0 <= at && at + 4 <= bytes.len() {
        Some(le_u32(bytes, at))
    } else {
        None
    }
}

fn u32_at(bytes: &[u8], at: usize) -> (v: Option<u32>)
    ensures
        v == spec_u32_at(bytes@, at as int),
{
    if at <= bytes.len() && bytes.len() - at >= 4 {
        Some(read_u32(bytes, at))
    } else {
        None
    }
}

// ------------------------------------------------------------ source spans

/// A byte span into the bound book source.
#[derive(Debug, Clone, Copy, PartialEq, Eq, Structural)]
pub struct SourceSpan {
    pub start: u32,
    pub len: u32,
}

impl SourceSpan {
    /// The span lies inside a source of `source_len` bytes.
    pub open spec fn spec_validate(self, source_len: u64) -> Result<SourceSpan, DecodeError> {
        if self.start + self.len > source_len {
            Err(DecodeError::InvalidSection)
        } else {
            Ok(self)
        }
    }

    pub fn validate(self, source_len: u64) -> (span: Result<SourceSpan, DecodeError>)
        ensures
            span == self.spec_validate(source_len),
    {
        let end = (self.start as u64) + (self.len as u64);
        if end > source_len {
            return Err(DecodeError::InvalidSection);
        }
        Ok(self)
    }
}

// ------------------------------------------------------------ string dictionary

/// Start offset of string `i`.
pub open spec fn dict_start(offsets: Seq<u8>, i: int) -> int {
    le_u32(offsets, 4 * i) as int
}

/// End offset of string `i`: the next start, or the end of the data.
pub open spec fn dict_end(offsets: Seq<u8>, data_len: int, count: int, i: int) -> int {
    if i + 1 < count {
        dict_start(offsets, i + 1)
    } else {
        data_len
    }
}

/// The bytes of string `i`.
pub open spec fn dict_entry(offsets: Seq<u8>, data: Seq<u8>, count: int, i: int) -> Seq<u8> {
    data.subrange(dict_start(offsets, i), dict_end(offsets, data.len() as int, count, i))
}

/// Starts ascend from zero and stay inside the data.
pub open spec fn dict_starts_ok(offsets: Seq<u8>, data_len: int, count: int) -> bool {
    &&& count > 0 ==> dict_start(offsets, 0) == 0
    &&& forall|i: int| 0 <= i < count ==> #[trigger] dict_start(offsets, i) <= data_len
    &&& forall|i: int| 0 < i < count ==> dict_start(offsets, i - 1) <= #[trigger] dict_start(offsets, i)
}

/// Every string is well-formed UTF-8.
pub open spec fn dict_utf8_ok(offsets: Seq<u8>, data: Seq<u8>, count: int) -> bool {
    forall|i: int| 0 <= i < count ==> valid_utf8(#[trigger] dict_entry(offsets, data, count, i))
}

/// What a string-dictionary payload of `count` strings decodes to: `count`
/// little-endian start offsets followed by the concatenated character data.
/// An empty dictionary is zero bytes; offsets must ascend from zero inside the
/// data; every string must be well-formed UTF-8.
pub open spec fn spec_string_dictionary(bytes: Seq<u8>, count: u32) -> Result<
    Seq<Seq<char>>,
    DecodeError,
> {
    let offsets = bytes.subrange(0, 4 * count);
    let data = bytes.subrange(4 * count, bytes.len() as int);
    if count == 0 {
        if bytes.len() != 0 {
            Err(DecodeError::InvalidSection)
        } else {
            Ok(Seq::empty())
        }
    } else if 4 * count > bytes.len() {
        Err(DecodeError::Truncated)
    } else if !dict_starts_ok(offsets, data.len() as int, count as int) {
        Err(DecodeError::InvalidSection)
    } else if !dict_utf8_ok(offsets, data, count as int) {
        Err(DecodeError::InvalidUtf8)
    } else {
        Ok(Seq::new(count as nat, |i: int| decode_utf8(dict_entry(offsets, data, count as int, i))))
    }
}

/// Whether `count` starts ascend from zero and stay within `data_len`.
fn starts_ascend(offsets: &[u8], count: u32, data_len: usize) -> (ok: bool)
    requires
        offsets@.len() == 4 * count,
    ensures
        ok == dict_starts_ok(offsets@, data_len as int, count as int),
{
    let olen = offsets.len();
    let mut previous: u32 = 0;
    let mut index: u32 = 0;
    while index < count
        invariant
            offsets@.len() == 4 * count,
            olen == offsets@.len(),
            index <= count,
            index > 0 ==> previous == dict_start(offsets@, index - 1),
            index == 0 ==> previous == 0,
            forall|i: int| 0 <= i < index ==> #[trigger] dict_start(offsets@, i) <= data_len,
            forall|i: int| 0 < i < index ==> dict_start(offsets@, i - 1) <= #[trigger] dict_start(offsets@, i),
        decreases count - index,
    {
        let start = read_u32(offsets, 4 * (index as usize));
        if start < previous || start as usize > data_len {
            proof {
                if start < previous {
                    assert(dict_start(offsets@, index - 1) > dict_start(offsets@, index as int));
                } else {
                    assert(dict_start(offsets@, index as int) > data_len);
                }
            }
            return false;
        }
        previous = start;
        index = index + 1;
    }
    if count > 0 && read_u32(offsets, 0) != 0 {
        return false;
    }
    true
}

/// Validated UTF-8 string dictionary.
#[derive(Debug, Clone, Copy, PartialEq, Eq)]
pub struct StringDictionary<'wire> {
    offsets: &'wire [u8],
    data: &'wire [u8],
    count: u32,
}

impl<'wire> View for StringDictionary<'wire> {
    type V = Seq<Seq<char>>;

    /// The strings, in index order.
    closed spec fn view(&self) -> Seq<Seq<char>> {
        Seq::new(
            self.count as nat,
            |i: int| decode_utf8(dict_entry(self.offsets@, self.data@, self.count as int, i)),
        )
    }
}

impl<'wire> StringDictionary<'wire> {
    /// The layout facts every constructed dictionary keeps.
    pub closed spec fn wf(&self) -> bool {
        &&& self.offsets@.len() == 4 * self.count
        &&& dict_starts_ok(self.offsets@, self.data@.len() as int, self.count as int)
        &&& dict_utf8_ok(self.offsets@, self.data@, self.count as int)
    }

    /// The dictionary with no strings.
    pub fn empty() -> (dict: Self)
        ensures
            dict.wf(),
            dict@ == Seq::<Seq<char>>::empty(),
    {
        let dict = StringDictionary { offsets: &[], data: &[], count: 0 };
        proof {
            assert(dict@ =~= Seq::<Seq<char>>::empty());
        }
        dict
    }

    pub fn from_field(field: &SectionField<'wire>) -> (dict: Result<Self, DecodeError>)
        ensures
            match dict {
                Ok(d) => d.wf() && spec_string_dictionary(field.bytes@, field.count)
                    == Ok::<Seq<Seq<char>>, DecodeError>(d@),
                Err(e) => spec_string_dictionary(field.bytes@, field.count) == Err::<
                    Seq<Seq<char>>,
                    DecodeError,
                >(e),
            },
    {
        let bytes = field.bytes;
        let count = field.count;
        // An empty dictionary is zero bytes, not a lone terminating offset:
        // storing starts rather than bounds is what buys that.
        if count == 0 {
            if bytes.len() != 0 {
                return Err(DecodeError::InvalidSection);
            }
            let d = Self::empty();
            return Ok(d);
        }
        if (count as u64) * 4 > bytes.len() as u64 {
            return Err(DecodeError::Truncated);
        }
        let offsets_len = (count as usize) * 4;
        let offsets = vstd::slice::slice_subrange(bytes, 0, offsets_len);
        let data = vstd::slice::slice_subrange(bytes, offsets_len, bytes.len());
        let dictionary = StringDictionary { offsets, data, count };
        // Two passes on purpose: offsets are validated as a set first, so a
        // bad offset reports the shape violation it is, and only then are
        // strings decoded, so `InvalidUtf8` means genuinely bad bytes.
        if !starts_ascend(offsets, count, data.len()) {
            return Err(DecodeError::InvalidSection);
        }
        if !dictionary.all_utf8() {
            return Err(DecodeError::InvalidUtf8);
        }
        proof {
            assert(bytes@.subrange(0, 4 * count) =~= offsets@);
            assert(bytes@.subrange(4 * count, bytes@.len() as int) =~= data@);
        }
        Ok(dictionary)
    }

    /// Whether every string is well-formed UTF-8.
    fn all_utf8(&self) -> (ok: bool)
        requires
            self.offsets@.len() == 4 * self.count,
            dict_starts_ok(self.offsets@, self.data@.len() as int, self.count as int),
        ensures
            ok == dict_utf8_ok(self.offsets@, self.data@, self.count as int),
    {
        let mut k: u32 = 0;
        while k < self.count
            invariant
                self.offsets@.len() == 4 * self.count,
                dict_starts_ok(self.offsets@, self.data@.len() as int, self.count as int),
                k <= self.count,
                forall|i: int| 0 <= i < k ==> valid_utf8(#[trigger] dict_entry(self.offsets@, self.data@, self.count as int, i)),
            decreases self.count - k,
        {
            if utf8_str(self.entry_bytes(k)).is_none() {
                return false;
            }
            k = k + 1;
        }
        true
    }

    /// The bytes of string `index`, given starts that ascend inside the data.
    fn entry_bytes(&self, index: u32) -> (entry: &'wire [u8])
        requires
            index < self.count,
            self.offsets@.len() == 4 * self.count,
            dict_starts_ok(self.offsets@, self.data@.len() as int, self.count as int),
        ensures
            entry@ == dict_entry(self.offsets@, self.data@, self.count as int, index as int),
    {
        let olen = self.offsets.len();
        let start = read_u32(self.offsets, 4 * (index as usize)) as usize;
        assert(dict_start(self.offsets@, index as int) <= self.data@.len());
        let end = if index + 1 < self.count {
            assert(dict_start(self.offsets@, index as int) <= dict_start(self.offsets@, index + 1));
            read_u32(self.offsets, 4 * ((index + 1) as usize)) as usize
        } else {
            self.data.len()
        };
        vstd::slice::slice_subrange(self.data, start, end)
    }

    pub fn len(&self) -> (count: u32)
        ensures
            count == self@.len(),
    {
        self.count
    }

    /// The string at `index`, or `None` when the index is past the
    /// dictionary.
    pub fn get(&self, index: u32) -> (text: Option<&'wire str>)
        requires
            self.wf(),
        ensures
            index < self@.len() ==> (text matches Some(t) && t@ == self@[index as int]),
            index >= self@.len() ==> text is None,
    {
        if index >= self.count {
            return None;
        }
        utf8_str(self.entry_bytes(index))
    }

    /// The string at `index`, or `InvalidSection` when the index is past the
    /// dictionary.
    pub fn require(&self, index: u32) -> (text: Result<&'wire str, DecodeError>)
        requires
            self.wf(),
        ensures
            index < self@.len() ==> (text matches Ok(t) && t@ == self@[index as int]),
            index >= self@.len() ==> text == Err::<&str, DecodeError>(DecodeError::InvalidSection),
    {
        match self.get(index) {
            Some(t) => Ok(t),
            None => Err(DecodeError::InvalidSection),
        }
    }
}

// ------------------------------------------------------------ dictionary builders

/// The concatenated UTF-8 encodings of `strings`.
pub open spec fn utf8_concat(strings: Seq<Seq<char>>) -> Seq<u8>
    decreases strings.len(),
{
    if strings.len() == 0 {
        Seq::empty()
    } else {
        utf8_concat(strings.drop_last()) + encode_utf8(strings.last())
    }
}

/// The stored start offsets of `strings`: where each string's encoding
/// begins in the concatenated data, as little-endian `u32`s.
pub open spec fn starts_bytes(strings: Seq<Seq<char>>) -> Seq<u8>
    decreases strings.len(),
{
    if strings.len() == 0 {
        Seq::empty()
    } else {
        starts_bytes(strings.drop_last()) + u32_bytes(
            utf8_concat(strings.drop_last()).len() as u32,
        )
    }
}

/// The string-dictionary payload of `strings`: the starts, then the data.
pub open spec fn dictionary_bytes(strings: Seq<Seq<char>>) -> Seq<u8> {
    starts_bytes(strings) + utf8_concat(strings)
}

/// No value occurs twice.
pub open spec fn all_distinct<T>(s: Seq<T>) -> bool {
    forall|i: int, j: int| 0 <= i < j < s.len() ==> s[i] != s[j]
}

/// Interning one more string would put its start or its index past `u32`.
pub open spec fn dictionary_full(strings: Seq<Seq<char>>) -> bool {
    utf8_concat(strings).len() > u32::MAX || strings.len() > u32::MAX
}

/// Interns strings in first-use order and writes the dictionary payload.
pub struct StringDictionaryBuilder {
    starts: Writer,
    data: Writer,
    values: Vec<String>,
}

impl View for StringDictionaryBuilder {
    type V = Seq<Seq<char>>;

    /// The interned strings, in index order.
    closed spec fn view(&self) -> Seq<Seq<char>> {
        self.values@.map_values(|v: String| v@)
    }
}

impl Default for StringDictionaryBuilder {
    fn default() -> (builder: Self)
        ensures
            builder.wf(),
            builder@ == Seq::<Seq<char>>::empty(),
    {
        StringDictionaryBuilder::new()
    }
}

impl StringDictionaryBuilder {
    /// The payload written so far matches the interned strings, each once.
    pub closed spec fn wf(&self) -> bool {
        &&& self.starts@ == starts_bytes(self@)
        &&& self.data@ == utf8_concat(self@)
        &&& all_distinct(self@)
        &&& self@.len() <= u32::MAX + 1
        &&& self@.len() > 0 ==> utf8_concat(self@.drop_last()).len() <= u32::MAX
    }

    /// A well-formed builder holds each string once.
    pub proof fn lemma_distinct(&self)
        requires
            self.wf(),
        ensures
            all_distinct(self@),
    {
    }

    pub fn new() -> (builder: Self)
        ensures
            builder.wf(),
            builder@ == Seq::<Seq<char>>::empty(),
    {
        let builder = StringDictionaryBuilder {
            starts: Writer::new(),
            data: Writer::new(),
            values: Vec::new(),
        };
        proof {
            assert(builder@ =~= Seq::<Seq<char>>::empty());
        }
        builder
    }

    /// The index of `value`, interning it first when it is new. Refused with
    /// `OffsetOverflow` when a new string's start or index would not fit a
    /// `u32`.
    pub fn intern(&mut self, value: &str) -> (index: Result<u32, DecodeError>)
        requires
            old(self).wf(),
        ensures
            final(self).wf(),
            old(self)@.contains(value@) ==> (index matches Ok(k) && k < old(self)@.len()
                && old(self)@[k as int] == value@ && final(self)@ == old(self)@),
            !old(self)@.contains(value@) && dictionary_full(old(self)@) ==> (index == Err::<
                u32,
                DecodeError,
            >(DecodeError::OffsetOverflow) && final(self)@ == old(self)@),
            !old(self)@.contains(value@) && !dictionary_full(old(self)@) ==> (index == Ok::<
                u32,
                DecodeError,
            >(old(self)@.len() as u32) && final(self)@ == old(self)@.push(value@)),
    {
        let n = self.values.len();
        let mut k: usize = 0;
        while k < n
            invariant
                self.wf(),
                n == self.values@.len(),
                n == self@.len(),
                k <= n,
                forall|m: int| 0 <= m < k ==> self@[m] != value@,
            decreases n - k,
        {
            if str_eq(self.values[k].as_str(), value) {
                assert(self@[k as int] == self.values@[k as int]@);
                return Ok(k as u32);
            }
            k = k + 1;
        }
        assert(!self@.contains(value@));
        let start = self.data.len();
        if start > u32::MAX as usize {
            return Err(DecodeError::OffsetOverflow);
        }
        if n > u32::MAX as usize {
            return Err(DecodeError::OffsetOverflow);
        }
        let ghost before = self@;
        self.starts.u32(start as u32);
        self.data.bytes(value.as_bytes());
        self.values.push(value.to_owned());
        proof {
            assert(self@ =~= before.push(value@));
            assert(self@.drop_last() =~= before);
        }
        Ok(n as u32)
    }

    /// The number of strings interned.
    pub fn len(&self) -> (count: u32)
        ensures
            count == self@.len() as u32,
    {
        self.values.len() as u32
    }

    /// The string-dictionary payload: the starts, then the data.
    pub fn bytes(&self) -> (payload: Vec<u8>)
        requires
            self.wf(),
        ensures
            payload@ == dictionary_bytes(self@),
    {
        let mut out = Writer::new();
        out.bytes(self.starts.as_slice());
        out.bytes(self.data.as_slice());
        out.finish()
    }
}

/// The eight bytes of a marker descriptor record.
pub open spec fn descriptor_record_bytes(name_index: u32, nested: bool) -> Seq<u8> {
    u32_bytes(name_index) + seq![if nested { DESCRIPTOR_FLAG_NESTED } else { 0u8 }, 0u8, 0u8, 0u8]
}

/// The descriptor payload of `descriptors`, in index order.
pub open spec fn descriptor_bytes(descriptors: Seq<(u32, bool)>) -> Seq<u8>
    decreases descriptors.len(),
{
    if descriptors.len() == 0 {
        Seq::empty()
    } else {
        descriptor_bytes(descriptors.drop_last()) + descriptor_record_bytes(
            descriptors.last().0,
            descriptors.last().1,
        )
    }
}

/// Interns `(name index, nested)` pairs in first-use order.
pub struct MarkerDescriptorBuilder {
    records: Writer,
    ordinals: Vec<(u32, bool)>,
}

impl View for MarkerDescriptorBuilder {
    type V = Seq<(u32, bool)>;

    /// The interned descriptors, in index order.
    closed spec fn view(&self) -> Seq<(u32, bool)> {
        self.ordinals@
    }
}

impl Default for MarkerDescriptorBuilder {
    fn default() -> (builder: Self)
        ensures
            builder.wf(),
            builder@ == Seq::<(u32, bool)>::empty(),
    {
        MarkerDescriptorBuilder::new()
    }
}

impl MarkerDescriptorBuilder {
    /// The payload written so far matches the interned descriptors, each
    /// once, and no more than the `u16` index column can name.
    pub closed spec fn wf(&self) -> bool {
        &&& self.records@ == descriptor_bytes(self@)
        &&& all_distinct(self@)
        &&& self@.len() <= MAX_MARKER_DESCRIPTORS
    }

    pub fn new() -> (builder: Self)
        ensures
            builder.wf(),
            builder@ == Seq::<(u32, bool)>::empty(),
    {
        MarkerDescriptorBuilder { records: Writer::new(), ordinals: Vec::new() }
    }

    /// The index of `(name_index, nested)`, interning it first when it is
    /// new; `None` once `0xffff` descriptors exist.
    pub fn intern(&mut self, name_index: u32, nested: bool) -> (index: Option<u16>)
        requires
            old(self).wf(),
        ensures
            final(self).wf(),
            old(self)@.contains((name_index, nested)) ==> (index matches Some(k) && k < old(self)@.len() && old(self)@[k as int] == (name_index, nested) && final(self)@ == old(self)@),
            !old(self)@.contains((name_index, nested)) && old(self)@.len()
                >= MAX_MARKER_DESCRIPTORS ==> (index is None && final(self)@ == old(self)@),
            !old(self)@.contains((name_index, nested)) && old(self)@.len()
                < MAX_MARKER_DESCRIPTORS ==> (index == Some(old(self)@.len() as u16) && final(self)@ == old(self)@.push((name_index, nested))),
    {
        let n = self.ordinals.len();
        let mut k: usize = 0;
        while k < n
            invariant
                self.wf(),
                n == self@.len(),
                k <= n,
                forall|m: int| 0 <= m < k ==> self@[m] != (name_index, nested),
            decreases n - k,
        {
            let (name, flag) = self.ordinals[k];
            if name == name_index && flag == nested {
                return Some(k as u16);
            }
            k = k + 1;
        }
        assert(!self@.contains((name_index, nested)));
        if n >= MAX_MARKER_DESCRIPTORS as usize {
            return None;
        }
        let ghost before = self@;
        self.records.u32(name_index);
        self.records.u8(if nested { DESCRIPTOR_FLAG_NESTED } else { 0 });
        self.records.u8(0);
        self.records.u8(0);
        self.records.u8(0);
        self.ordinals.push((name_index, nested));
        proof {
            assert(self@.drop_last() =~= before);
            assert(self.records@ =~= descriptor_bytes(before) + descriptor_record_bytes(
                name_index,
                nested,
            ));
        }
        Some(n as u16)
    }

    /// The number of descriptors interned.
    pub fn len(&self) -> (count: u32)
        requires
            self.wf(),
        ensures
            count == self@.len(),
    {
        self.ordinals.len() as u32
    }

    /// The descriptor payload.
    pub fn bytes(&self) -> (payload: &[u8])
        requires
            self.wf(),
        ensures
            payload@ == descriptor_bytes(self@),
    {
        self.records.as_slice()
    }
}

// ------------------------------------------------------------ sparse records

/// The `token_idx` key that opens record `i` of `width`-byte records.
pub open spec fn key_at(records: Seq<u8>, width: int, i: int) -> u32 {
    le_u32(records, width * i)
}

/// Number of whole `width`-byte records in `records`.
pub open spec fn record_total(records: Seq<u8>, width: int) -> int {
    (records.len() as int) / width
}

/// Keys strictly ascend across all whole records.
pub open spec fn keys_ascend(records: Seq<u8>, width: int) -> bool {
    forall|i: int, j: int|
        0 <= i < j < record_total(records, width) ==> #[trigger] key_at(records, width, i)
            < #[trigger] key_at(records, width, j)
}

/// Record `i`'s key names a token below `limit` and follows the previous
/// record's key.
pub open spec fn key_in_order(records: Seq<u8>, width: int, limit: u32, i: int) -> bool {
    &&& key_at(records, width, i) < limit
    &&& i > 0 ==> key_at(records, width, i - 1) < key_at(records, width, i)
}

/// The value stored for `key` among `(key, value)` entries with distinct keys.
pub open spec fn lookup<V>(entries: Seq<(u32, V)>, key: u32) -> Option<V> {
    if exists|i: int| 0 <= i < entries.len() && #[trigger] entries[i].0 == key {
        Some(entries[choose|i: int| 0 <= i < entries.len() && #[trigger] entries[i].0 == key].1)
    } else {
        None
    }
}

proof fn lemma_record_in_bounds(len: int, width: int, i: int)
    by (nonlinear_arith)
    requires
        width > 0,
        len >= 0,
        0 <= i < len / width,
    ensures
        0 <= width * i,
        width * i + width <= len,
{
    assert(width * (i + 1) <= width * (len / width));
}

proof fn lemma_ascend_pair(records: Seq<u8>, width: int, limit: u32, i: int, j: int)
    requires
        0 <= i < j,
        forall|k: int| 0 <= k <= j ==> #[trigger] key_in_order(records, width, limit, k),
    ensures
        key_at(records, width, i) < key_at(records, width, j),
    decreases j - i,
{
    assert(key_in_order(records, width, limit, j));
    if i < j - 1 {
        lemma_ascend_pair(records, width, limit, i, j - 1);
    }
}

/// Records whose keys each follow the previous one ascend as a whole.
proof fn lemma_keys_ascend(records: Seq<u8>, width: int, limit: u32)
    requires
        forall|k: int|
            0 <= k < record_total(records, width) ==> #[trigger] key_in_order(
                records,
                width,
                limit,
                k,
            ),
    ensures
        keys_ascend(records, width),
{
    assert forall|i: int, j: int|
        0 <= i < j < record_total(records, width) implies #[trigger] key_at(records, width, i)
        < #[trigger] key_at(records, width, j) by {
        lemma_ascend_pair(records, width, limit, i, j);
    }
}

fn key_in_order_at(records: &[u8], width: usize, limit: u32, i: usize) -> (ok: bool)
    requires
        width >= 4,
        i < record_total(records@, width as int),
    ensures
        ok == key_in_order(records@, width as int, limit, i as int),
{
    let len = records.len();
    proof {
        lemma_record_in_bounds(len as int, width as int, i as int);
    }
    let key = read_u32(records, width * i);
    if key >= limit {
        return false;
    }
    if i > 0 {
        proof {
            lemma_record_in_bounds(len as int, width as int, i - 1);
        }
        let previous = read_u32(records, width * (i - 1));
        if key <= previous {
            return false;
        }
    }
    true
}

/// Binary search for the record keyed `token_idx` over records whose keys
/// strictly ascend: its index, or `None` when no record has that key.
fn find_record(records: &[u8], width: usize, token_idx: u32) -> (found: Option<usize>)
    requires
        width >= 4,
        keys_ascend(records@, width as int),
    ensures
        found matches Some(i) ==> i < record_total(records@, width as int) && key_at(
            records@,
            width as int,
            i as int,
        ) == token_idx,
        found is None ==> forall|i: int|
            0 <= i < record_total(records@, width as int) ==> key_at(records@, width as int, i)
                != token_idx,
{
    let count = records.len() / width;
    let mut low: usize = 0;
    let mut high: usize = count;
    while low < high
        invariant
            width >= 4,
            records@.len() <= usize::MAX,
            count == record_total(records@, width as int),
            keys_ascend(records@, width as int),
            low <= high <= count,
            forall|i: int| 0 <= i < low ==> #[trigger] key_at(records@, width as int, i) < token_idx,
            forall|i: int|
                high <= i < count ==> #[trigger] key_at(records@, width as int, i) > token_idx,
        decreases high - low,
    {
        let mid = low + (high - low) / 2;
        proof {
            lemma_record_in_bounds(records@.len() as int, width as int, mid as int);
        }
        let key = read_u32(records, width * mid);
        if key < token_idx {
            assert forall|i: int| 0 <= i < mid + 1 implies #[trigger] key_at(
                records@,
                width as int,
                i,
            ) < token_idx by {
                if i < mid {
                    assert(key_at(records@, width as int, i) < key_at(records@, width as int, mid as int));
                }
            }
            low = mid + 1;
        } else if key > token_idx {
            assert forall|i: int| mid <= i < count implies #[trigger] key_at(
                records@,
                width as int,
                i,
            ) > token_idx by {
                if i > mid {
                    assert(key_at(records@, width as int, mid as int) < key_at(records@, width as int, i));
                }
            }
            high = mid;
        } else {
            return Some(mid);
        }
    }
    None
}

// ------------------------------------------------------------ number records

/// One decoded number payload.
#[derive(Debug, Clone, Copy, PartialEq, Eq)]
pub struct WireNumber {
    pub start: u32,
    pub end: Option<u32>,
    pub kind: NumberRangeKindTag,
}

/// The checks of number record `i`: key order, kind discriminant, known
/// flags, a zero end when none is flagged, and zero reserved bytes.
pub open spec fn number_record_check(b: Seq<u8>, record_count: u32, i: int) -> Result<(), DecodeError> {
    let at = NUMBER_RECORD_LEN * i;
    let flags = b[at + 13];
    if !key_in_order(b, NUMBER_RECORD_LEN as int, record_count, i) {
        Err(DecodeError::InvalidSection)
    } else if NumberRangeKindTag::spec_from_u8(b[at + 12]) is None {
        Err(DecodeError::InvalidDiscriminant)
    } else if flags & !NUMBER_FLAGS_KNOWN != 0 {
        Err(DecodeError::UnsupportedFlags { found: flags as u32 })
    } else if flags & NUMBER_FLAG_HAS_END == 0 && le_u32(b, at + 8) != 0 {
        Err(DecodeError::InvalidSection)
    } else if !all_zero(b, at + 14, at + 16) {
        Err(DecodeError::InvalidSection)
    } else {
        Ok(())
    }
}

pub open spec fn number_checks(b: Seq<u8>, record_count: u32) -> spec_fn(int) -> Result<(), DecodeError> {
    |i: int| number_record_check(b, record_count, i)
}

/// What validating a number-record payload for `record_count` tokens gives:
/// the first failing record's refusal, if any.
pub open spec fn spec_number_records(b: Seq<u8>, record_count: u32) -> Result<(), DecodeError> {
    checks_upto(number_checks(b, record_count), record_total(b, NUMBER_RECORD_LEN as int) as nat)
}

/// The number stored in record `i`.
pub open spec fn number_at(b: Seq<u8>, i: int) -> WireNumber {
    let at = NUMBER_RECORD_LEN * i;
    WireNumber {
        start: le_u32(b, at + 4),
        end: if b[at + 13] & NUMBER_FLAG_HAS_END != 0 {
            Some(le_u32(b, at + 8))
        } else {
            None
        },
        kind: NumberRangeKindTag::spec_from_u8(b[at + 12]).unwrap(),
    }
}

/// The `(token_idx, number)` entries of a number-record payload.
pub open spec fn number_entries(b: Seq<u8>) -> Seq<(u32, WireNumber)> {
    Seq::new(
        record_total(b, NUMBER_RECORD_LEN as int) as nat,
        |i: int| (key_at(b, NUMBER_RECORD_LEN as int, i), number_at(b, i)),
    )
}

fn check_number_record(b: &[u8], record_count: u32, i: usize) -> (r: Result<(), DecodeError>)
    requires
        i < record_total(b@, NUMBER_RECORD_LEN as int),
    ensures
        r == number_record_check(b@, record_count, i as int),
{
    let len = b.len();
    proof {
        lemma_record_in_bounds(len as int, NUMBER_RECORD_LEN as int, i as int);
    }
    let at = NUMBER_RECORD_LEN * i;
    if !key_in_order_at(b, NUMBER_RECORD_LEN, record_count, i) {
        return Err(DecodeError::InvalidSection);
    }
    if NumberRangeKindTag::from_u8(b[at + 12]).is_none() {
        return Err(DecodeError::InvalidDiscriminant);
    }
    let flags = b[at + 13];
    if flags & !NUMBER_FLAGS_KNOWN != 0 {
        return Err(DecodeError::UnsupportedFlags { found: flags as u32 });
    }
    // One encoding per value: an absent end must be zero, so two encoders
    // cannot disagree about the same number.
    if flags & NUMBER_FLAG_HAS_END == 0 && read_u32(b, at + 8) != 0 {
        return Err(DecodeError::InvalidSection);
    }
    if !check_zero(b, at + 14, at + 16) {
        return Err(DecodeError::InvalidSection);
    }
    Ok(())
}

/// Validated sparse number records, ascending by `token_idx`.
#[derive(Debug, Clone, Copy, PartialEq, Eq)]
pub struct NumberRecords<'wire> {
    records: &'wire [u8],
}

impl<'wire> View for NumberRecords<'wire> {
    type V = Seq<(u32, WireNumber)>;

    /// The `(token_idx, number)` entries, in ascending key order.
    closed spec fn view(&self) -> Seq<(u32, WireNumber)> {
        number_entries(self.records@)
    }
}

impl<'wire> NumberRecords<'wire> {
    /// The facts every constructed view keeps.
    pub closed spec fn wf(&self) -> bool {
        &&& keys_ascend(self.records@, NUMBER_RECORD_LEN as int)
        &&& forall|i: int|
            0 <= i < record_total(self.records@, NUMBER_RECORD_LEN as int) ==> NumberRangeKindTag::spec_from_u8(
                #[trigger] self.records@[NUMBER_RECORD_LEN * i + 12],
            ) is Some
    }

    /// Validates a number-record payload for `record_count` tokens.
    pub fn from_field(field: &SectionField<'wire>, record_count: u32) -> (records: Result<
        Self,
        DecodeError,
    >)
        ensures
            match records {
                Ok(r) => r.wf() && spec_number_records(field.bytes@, record_count) is Ok && r@
                    == number_entries(field.bytes@),
                Err(e) => spec_number_records(field.bytes@, record_count) == Err::<(), DecodeError>(
                    e,
                ),
            },
    {
        let bytes = field.bytes;
        let n = bytes.len() / NUMBER_RECORD_LEN;
        let ghost check = number_checks(bytes@, record_count);
        let mut i: usize = 0;
        while i < n
            invariant
                bytes@ == field.bytes@,
                n == record_total(bytes@, NUMBER_RECORD_LEN as int),
                check == number_checks(bytes@, record_count),
                i <= n,
                checks_upto(check, i as nat) is Ok,
            decreases n - i,
        {
            match check_number_record(bytes, record_count, i) {
                Err(e) => {
                    proof {
                        assert(check(i as int) == number_record_check(bytes@, record_count, i as int));
                        lemma_checks_stop(check, i as nat, n as nat);
                        assert(checks_upto(check, n as nat) == Err::<(), DecodeError>(e));
                        assert(spec_number_records(bytes@, record_count) == checks_upto(check, n as nat));
                    }
                    return Err(e);
                },
                Ok(()) => {
                    assert(check(i as int) == number_record_check(bytes@, record_count, i as int));
                },
            }
            i = i + 1;
        }
        proof {
            assert forall|k: int| 0 <= k < n implies #[trigger] key_in_order(
                bytes@,
                NUMBER_RECORD_LEN as int,
                record_count,
                k,
            ) && NumberRangeKindTag::spec_from_u8(bytes@[NUMBER_RECORD_LEN * k + 12]) is Some by {
                lemma_checks_each(check, n as nat, k);
                assert(check(k) == number_record_check(bytes@, record_count, k));
            }
            lemma_keys_ascend(bytes@, NUMBER_RECORD_LEN as int, record_count);
            assert forall|k: int| 0 <= k < n implies NumberRangeKindTag::spec_from_u8(
                #[trigger] bytes@[NUMBER_RECORD_LEN * k + 12],
            ) is Some by {
                assert(key_in_order(bytes@, NUMBER_RECORD_LEN as int, record_count, k));
            }
        }
        Ok(NumberRecords { records: bytes })
    }

    /// The number stored for `token_idx`, if any.
    pub fn get(&self, token_idx: u32) -> (number: Option<WireNumber>)
        requires
            self.wf(),
        ensures
            number == lookup(self@, token_idx),
    {
        let b = self.records;
        let len = b.len();
        match find_record(b, NUMBER_RECORD_LEN, token_idx) {
            None => {
                proof {
                    assert(!exists|i: int| 0 <= i < self@.len() && #[trigger] self@[i].0 == token_idx);
                }
                None
            },
            Some(i) => {
                proof {
                    lemma_record_in_bounds(b@.len() as int, NUMBER_RECORD_LEN as int, i as int);
                    assert(self@[i as int].0 == token_idx);
                    let j = choose|j: int| 0 <= j < self@.len() && #[trigger] self@[j].0 == token_idx;
                    if j != i {
                        if j < i {
                            assert(key_at(b@, NUMBER_RECORD_LEN as int, j) < key_at(b@, NUMBER_RECORD_LEN as int, i as int));
                        } else {
                            assert(key_at(b@, NUMBER_RECORD_LEN as int, i as int) < key_at(b@, NUMBER_RECORD_LEN as int, j));
                        }
                    }
                }
                let at = NUMBER_RECORD_LEN * i;
                let flags = b[at + 13];
                let end = if flags & NUMBER_FLAG_HAS_END != 0 {
                    Some(read_u32(b, at + 8))
                } else {
                    None
                };
                match NumberRangeKindTag::from_u8(b[at + 12]) {
                    Some(kind) => Some(WireNumber { start: read_u32(b, at + 4), end, kind }),
                    None => None,
                }
            },
        }
    }
}

// ------------------------------------------------------------ book-code records

/// The checks of book-code record `i`: key order, a string index inside a
/// dictionary of `string_count` strings, known flags, zero reserved bytes.
pub open spec fn book_code_record_check(b: Seq<u8>, record_count: u32, string_count: int, i: int) -> Result<
    (),
    DecodeError,
> {
    let at = BOOK_CODE_RECORD_LEN * i;
    let flags = b[at + 8];
    if !key_in_order(b, BOOK_CODE_RECORD_LEN as int, record_count, i) {
        Err(DecodeError::InvalidSection)
    } else if le_u32(b, at + 4) >= string_count {
        Err(DecodeError::InvalidSection)
    } else if flags & !BOOK_CODE_FLAG_VALID != 0 {
        Err(DecodeError::UnsupportedFlags { found: flags as u32 })
    } else if !all_zero(b, at + 9, at + 16) {
        Err(DecodeError::InvalidSection)
    } else {
        Ok(())
    }
}

pub open spec fn book_code_checks(b: Seq<u8>, record_count: u32, string_count: int) -> spec_fn(int) -> Result<
    (),
    DecodeError,
> {
    |i: int| book_code_record_check(b, record_count, string_count, i)
}

/// What validating a book-code payload for `record_count` tokens against a
/// dictionary of `string_count` strings gives.
pub open spec fn spec_book_code_records(b: Seq<u8>, record_count: u32, string_count: int) -> Result<
    (),
    DecodeError,
> {
    checks_upto(
        book_code_checks(b, record_count, string_count),
        record_total(b, BOOK_CODE_RECORD_LEN as int) as nat,
    )
}

/// The `(token_idx, (code as written, is_valid))` entries of a book-code
/// payload.
pub open spec fn book_code_entries(b: Seq<u8>, strings: Seq<Seq<char>>) -> Seq<(u32, (Seq<char>, bool))> {
    Seq::new(
        record_total(b, BOOK_CODE_RECORD_LEN as int) as nat,
        |i: int|
            (
                key_at(b, BOOK_CODE_RECORD_LEN as int, i),
                (
                    strings[le_u32(b, BOOK_CODE_RECORD_LEN * i + 4) as int],
                    b[BOOK_CODE_RECORD_LEN * i + 8] & BOOK_CODE_FLAG_VALID != 0,
                ),
            ),
    )
}

fn check_book_code_record(b: &[u8], record_count: u32, string_count: u32, i: usize) -> (r: Result<
    (),
    DecodeError,
>)
    requires
        i < record_total(b@, BOOK_CODE_RECORD_LEN as int),
    ensures
        r == book_code_record_check(b@, record_count, string_count as int, i as int),
{
    let len = b.len();
    proof {
        lemma_record_in_bounds(len as int, BOOK_CODE_RECORD_LEN as int, i as int);
    }
    let at = BOOK_CODE_RECORD_LEN * i;
    if !key_in_order_at(b, BOOK_CODE_RECORD_LEN, record_count, i) {
        return Err(DecodeError::InvalidSection);
    }
    if read_u32(b, at + 4) >= string_count {
        return Err(DecodeError::InvalidSection);
    }
    let flags = b[at + 8];
    if flags & !BOOK_CODE_FLAG_VALID != 0 {
        return Err(DecodeError::UnsupportedFlags { found: flags as u32 });
    }
    if !check_zero(b, at + 9, at + 16) {
        return Err(DecodeError::InvalidSection);
    }
    Ok(())
}

/// The value found for a key, with the text taken by its view.
pub open spec fn text_flag_view(found: Option<(&str, bool)>) -> Option<(Seq<char>, bool)> {
    match found {
        Some((text, flag)) => Some((text@, flag)),
        None => None,
    }
}

/// Validated sparse book-code records, ascending by `token_idx`.
#[derive(Debug, Clone, Copy, PartialEq, Eq)]
pub struct BookCodeRecords<'wire> {
    records: &'wire [u8],
    strings: StringDictionary<'wire>,
}

impl<'wire> View for BookCodeRecords<'wire> {
    type V = Seq<(u32, (Seq<char>, bool))>;

    /// The `(token_idx, (code, is_valid))` entries, in ascending key order.
    closed spec fn view(&self) -> Seq<(u32, (Seq<char>, bool))> {
        book_code_entries(self.records@, self.strings@)
    }
}

impl<'wire> BookCodeRecords<'wire> {
    /// The facts every constructed view keeps.
    pub closed spec fn wf(&self) -> bool {
        &&& self.strings.wf()
        &&& keys_ascend(self.records@, BOOK_CODE_RECORD_LEN as int)
        &&& forall|i: int|
            0 <= i < record_total(self.records@, BOOK_CODE_RECORD_LEN as int) ==> #[trigger] le_u32(
                self.records@,
                BOOK_CODE_RECORD_LEN * i + 4,
            ) < self.strings@.len()
    }

    /// Validates a book-code payload for `record_count` tokens whose codes
    /// index `strings`.
    #[verifier::rlimit(40)]
    pub fn from_field(field: &SectionField<'wire>, record_count: u32, strings: StringDictionary<'wire>) -> (records:
        Result<Self, DecodeError>)
        requires
            strings.wf(),
        ensures
            match records {
                Ok(r) => r.wf() && spec_book_code_records(
                    field.bytes@,
                    record_count,
                    strings@.len() as int,
                ) is Ok && r@ == book_code_entries(field.bytes@, strings@),
                Err(e) => spec_book_code_records(field.bytes@, record_count, strings@.len() as int)
                    == Err::<(), DecodeError>(e),
            },
    {
        let bytes = field.bytes;
        let string_count = strings.len();
        let n = bytes.len() / BOOK_CODE_RECORD_LEN;
        let ghost check = book_code_checks(bytes@, record_count, string_count as int);
        let mut i: usize = 0;
        while i < n
            invariant
                bytes@ == field.bytes@,
                n == record_total(bytes@, BOOK_CODE_RECORD_LEN as int),
                check == book_code_checks(bytes@, record_count, string_count as int),
                string_count == strings@.len(),
                i <= n,
                checks_upto(check, i as nat) is Ok,
            decreases n - i,
        {
            match check_book_code_record(bytes, record_count, string_count, i) {
                Err(e) => {
                    proof {
                        assert(check(i as int) == book_code_record_check(bytes@, record_count, string_count as int, i as int));
                        lemma_checks_stop(check, i as nat, n as nat);
                    }
                    return Err(e);
                },
                Ok(()) => {
                    assert(check(i as int) == book_code_record_check(bytes@, record_count, string_count as int, i as int));
                },
            }
            i = i + 1;
        }
        proof {
            assert forall|k: int| 0 <= k < n implies #[trigger] key_in_order(
                bytes@,
                BOOK_CODE_RECORD_LEN as int,
                record_count,
                k,
            ) by {
                lemma_checks_each(check, n as nat, k);
                assert(check(k) == book_code_record_check(bytes@, record_count, string_count as int, k));
            }
            assert forall|k: int| 0 <= k < n implies #[trigger] le_u32(
                bytes@,
                BOOK_CODE_RECORD_LEN * k + 4,
            ) < string_count by {
                lemma_checks_each(check, n as nat, k);
                assert(check(k) == book_code_record_check(bytes@, record_count, string_count as int, k));
            }
            lemma_keys_ascend(bytes@, BOOK_CODE_RECORD_LEN as int, record_count);
        }
        Ok(BookCodeRecords { records: bytes, strings })
    }

    /// `(code as written, is_valid)` for `token_idx`, if a record has it.
    pub fn get(&self, token_idx: u32) -> (code: Option<(&'wire str, bool)>)
        requires
            self.wf(),
        ensures
            text_flag_view(code) == lookup(self@, token_idx),
    {
        let b = self.records;
        let len = b.len();
        match find_record(b, BOOK_CODE_RECORD_LEN, token_idx) {
            None => {
                proof {
                    assert(!exists|i: int| 0 <= i < self@.len() && #[trigger] self@[i].0 == token_idx);
                }
                None
            },
            Some(i) => {
                proof {
                    lemma_record_in_bounds(len as int, BOOK_CODE_RECORD_LEN as int, i as int);
                    assert(self@[i as int].0 == token_idx);
                    let j = choose|j: int| 0 <= j < self@.len() && #[trigger] self@[j].0 == token_idx;
                    if j != i {
                        if j < i {
                            assert(key_at(b@, BOOK_CODE_RECORD_LEN as int, j) < key_at(b@, BOOK_CODE_RECORD_LEN as int, i as int));
                        } else {
                            assert(key_at(b@, BOOK_CODE_RECORD_LEN as int, i as int) < key_at(b@, BOOK_CODE_RECORD_LEN as int, j));
                        }
                    }
                }
                let at = BOOK_CODE_RECORD_LEN * i;
                let index = read_u32(b, at + 4);
                assert(index < self.strings@.len()) by {
                    assert(le_u32(b@, BOOK_CODE_RECORD_LEN * i + 4) < self.strings@.len());
                }
                match self.strings.get(index) {
                    Some(text) => Some((text, b[at + 8] & BOOK_CODE_FLAG_VALID != 0)),
                    None => None,
                }
            },
        }
    }
}

// ------------------------------------------------------------ marker descriptors

/// The checks of descriptor record `i`: a name index inside a dictionary of
/// `string_count` strings, known flags, zero reserved bytes.
pub open spec fn descriptor_record_check(b: Seq<u8>, string_count: int, i: int) -> Result<(), DecodeError> {
    let at = DESCRIPTOR_RECORD_LEN * i;
    let flags = b[at + 4];
    if le_u32(b, at) >= string_count {
        Err(DecodeError::InvalidSection)
    } else if flags & !DESCRIPTOR_FLAGS_KNOWN != 0 {
        Err(DecodeError::UnsupportedFlags { found: flags as u32 })
    } else if !all_zero(b, at + 5, at + 8) {
        Err(DecodeError::InvalidSection)
    } else {
        Ok(())
    }
}

pub open spec fn descriptor_checks(b: Seq<u8>, string_count: int) -> spec_fn(int) -> Result<(), DecodeError> {
    |i: int| descriptor_record_check(b, string_count, i)
}

/// What validating a descriptor payload declared to hold `count`
/// descriptors against a dictionary of `string_count` strings gives. The
/// `0xffff` sentinel of the index column takes one value, so at most
/// `0xffff` descriptors can be named.
pub open spec fn spec_marker_descriptors(b: Seq<u8>, count: u32, string_count: int) -> Result<
    (),
    DecodeError,
> {
    if count > MAX_MARKER_DESCRIPTORS {
        Err(DecodeError::InvalidSection)
    } else {
        checks_upto(
            descriptor_checks(b, string_count),
            record_total(b, DESCRIPTOR_RECORD_LEN as int) as nat,
        )
    }
}

/// The `(marker name, nested)` descriptors a payload names: one per declared
/// descriptor whose record is present.
pub open spec fn descriptor_entries(b: Seq<u8>, count: int, strings: Seq<Seq<char>>) -> Seq<(Seq<char>, bool)> {
    let total = record_total(b, DESCRIPTOR_RECORD_LEN as int);
    Seq::new(
        (if count <= total { count } else { total }) as nat,
        |i: int|
            (
                strings[le_u32(b, DESCRIPTOR_RECORD_LEN * i) as int],
                b[DESCRIPTOR_RECORD_LEN * i + 4] & DESCRIPTOR_FLAG_NESTED != 0,
            ),
    )
}

fn check_descriptor_record(b: &[u8], string_count: u32, i: usize) -> (r: Result<(), DecodeError>)
    requires
        i < record_total(b@, DESCRIPTOR_RECORD_LEN as int),
    ensures
        r == descriptor_record_check(b@, string_count as int, i as int),
{
    let len = b.len();
    proof {
        lemma_record_in_bounds(len as int, DESCRIPTOR_RECORD_LEN as int, i as int);
    }
    let at = DESCRIPTOR_RECORD_LEN * i;
    if read_u32(b, at) >= string_count {
        return Err(DecodeError::InvalidSection);
    }
    let flags = b[at + 4];
    if flags & !DESCRIPTOR_FLAGS_KNOWN != 0 {
        return Err(DecodeError::UnsupportedFlags { found: flags as u32 });
    }
    if !check_zero(b, at + 5, at + 8) {
        return Err(DecodeError::InvalidSection);
    }
    Ok(())
}

/// Validated marker descriptor dictionary: a name plus the `nested` flag per
/// descriptor.
#[derive(Debug, Clone, Copy, PartialEq, Eq)]
pub struct MarkerDescriptors<'wire> {
    records: &'wire [u8],
    count: u16,
    strings: StringDictionary<'wire>,
}

impl<'wire> View for MarkerDescriptors<'wire> {
    type V = Seq<(Seq<char>, bool)>;

    /// The `(marker name as written, nested)` descriptors, in index order.
    closed spec fn view(&self) -> Seq<(Seq<char>, bool)> {
        descriptor_entries(self.records@, self.count as int, self.strings@)
    }
}

impl<'wire> MarkerDescriptors<'wire> {
    /// The facts every constructed dictionary keeps.
    pub closed spec fn wf(&self) -> bool {
        &&& self.strings.wf()
        &&& forall|i: int|
            0 <= i < record_total(self.records@, DESCRIPTOR_RECORD_LEN as int) ==> #[trigger] le_u32(
                self.records@,
                DESCRIPTOR_RECORD_LEN * i,
            ) < self.strings@.len()
    }

    /// The number of descriptors the field declared.
    pub closed spec fn declared(&self) -> u16 {
        self.count
    }

    /// Validates a descriptor payload whose names index `strings`.
    pub fn from_field(field: &SectionField<'wire>, strings: StringDictionary<'wire>) -> (descriptors:
        Result<Self, DecodeError>)
        requires
            strings.wf(),
        ensures
            match descriptors {
                Ok(d) => d.wf() && spec_marker_descriptors(
                    field.bytes@,
                    field.count,
                    strings@.len() as int,
                ) is Ok && d.declared() == field.count && d@ == descriptor_entries(
                    field.bytes@,
                    field.count as int,
                    strings@,
                ),
                Err(e) => spec_marker_descriptors(field.bytes@, field.count, strings@.len() as int)
                    == Err::<(), DecodeError>(e),
            },
    {
        // The `0xffff` sentinel on the index column consumes one value,
        // exactly as it does for the SID dictionary.
        if field.count > MAX_MARKER_DESCRIPTORS {
            return Err(DecodeError::InvalidSection);
        }
        let bytes = field.bytes;
        let string_count = strings.len();
        let n = bytes.len() / DESCRIPTOR_RECORD_LEN;
        let ghost check = descriptor_checks(bytes@, string_count as int);
        let mut i: usize = 0;
        while i < n
            invariant
                bytes@ == field.bytes@,
                n == record_total(bytes@, DESCRIPTOR_RECORD_LEN as int),
                check == descriptor_checks(bytes@, string_count as int),
                string_count == strings@.len(),
                field.count <= MAX_MARKER_DESCRIPTORS,
                i <= n,
                checks_upto(check, i as nat) is Ok,
            decreases n - i,
        {
            match check_descriptor_record(bytes, string_count, i) {
                Err(e) => {
                    proof {
                        assert(check(i as int) == descriptor_record_check(bytes@, string_count as int, i as int));
                        lemma_checks_stop(check, i as nat, n as nat);
                    }
                    return Err(e);
                },
                Ok(()) => {
                    assert(check(i as int) == descriptor_record_check(bytes@, string_count as int, i as int));
                },
            }
            i = i + 1;
        }
        proof {
            assert forall|k: int| 0 <= k < n implies #[trigger] le_u32(
                bytes@,
                DESCRIPTOR_RECORD_LEN * k,
            ) < string_count by {
                lemma_checks_each(check, n as nat, k);
                assert(check(k) == descriptor_record_check(bytes@, string_count as int, k));
            }
        }
        Ok(MarkerDescriptors { records: bytes, count: field.count as u16, strings })
    }

    /// The number of descriptors declared.
    pub fn len(&self) -> (count: u16)
        ensures
            count == self.declared(),
    {
        self.count
    }

    /// `(marker name as written, nested)` of descriptor `index`, or `None`
    /// past the dictionary.
    pub fn get(&self, index: u16) -> (descriptor: Option<(&'wire str, bool)>)
        requires
            self.wf(),
        ensures
            text_flag_view(descriptor) == (if index < self@.len() {
                Some(self@[index as int])
            } else {
                None
            }),
    {
        if index >= self.count {
            return None;
        }
        let b = self.records;
        let len = b.len();
        let total = len / DESCRIPTOR_RECORD_LEN;
        if (index as usize) >= total {
            return None;
        }
        proof {
            lemma_record_in_bounds(len as int, DESCRIPTOR_RECORD_LEN as int, index as int);
        }
        let at = DESCRIPTOR_RECORD_LEN * (index as usize);
        let name_index = read_u32(b, at);
        assert(name_index < self.strings@.len()) by {
            assert(le_u32(b@, DESCRIPTOR_RECORD_LEN * index) < self.strings@.len());
        }
        match self.strings.get(name_index) {
            Some(name) => Some((name, b[at + 4] & DESCRIPTOR_FLAG_NESTED != 0)),
            None => None,
        }
    }
}

// ------------------------------------------------------------ attribute records

/// One decoded attribute.
#[derive(Debug, Clone, Copy, PartialEq, Eq)]
pub struct WireAttribute<'wire> {
    pub key: &'wire str,
    pub value: &'wire str,
    pub source: SourceSpan,
    pub is_default: bool,
}

/// One decoded attribute list. `list_source` is `None` when the token had no
/// verbatim list slice at all, which differs from a present empty one.
#[derive(Debug, Clone, PartialEq, Eq)]
pub struct WireAttributeList<'wire> {
    pub list_source: Option<SourceSpan>,
    pub attributes: Vec<WireAttribute<'wire>>,
}

/// An attribute as plain values: key, value, source span, default flag.
pub type AttributeView = (Seq<char>, Seq<char>, SourceSpan, bool);

/// An attribute list as plain values.
pub type AttributeListView = (Option<SourceSpan>, Seq<AttributeView>);

pub open spec fn attribute_view(a: WireAttribute) -> AttributeView {
    (a.key@, a.value@, a.source, a.is_default)
}

pub open spec fn attribute_list_view(list: WireAttributeList) -> AttributeListView {
    (list.list_source, list.attributes@.map_values(|a: WireAttribute| attribute_view(a)))
}

/// First attribute entry of row `i`.
pub open spec fn row_first(rows: Seq<u8>, i: int) -> int {
    le_u32(rows, ATTRIBUTE_ROW_LEN * i + 4) as int
}

/// Number of attribute entries of row `i`.
pub open spec fn row_count(rows: Seq<u8>, i: int) -> int {
    le_u32(rows, ATTRIBUTE_ROW_LEN * i + 8) as int
}

/// The entry the row after the first `n` rows must start at: rows are
/// contiguous, so it is where row `n - 1` ends.
pub open spec fn rows_end(rows: Seq<u8>, n: int) -> int {
    if n <= 0 {
        0
    } else {
        row_first(rows, n - 1) + row_count(rows, n - 1)
    }
}

/// The verbatim list span of row `i`, absent when its start is the sentinel.
pub open spec fn list_source_at(rows: Seq<u8>, i: int) -> Option<SourceSpan> {
    let start = le_u32(rows, ATTRIBUTE_ROW_LEN * i + 12);
    if start == SPAN_ABSENT {
        None
    } else {
        Some(SourceSpan { start, len: le_u32(rows, ATTRIBUTE_ROW_LEN * i + 16) })
    }
}

/// The checks of attribute row `i` over `entry_count` entries: key order,
/// contiguous coverage of the entries, a well-formed list span, zero reserved
/// bytes.
pub open spec fn attribute_row_check(
    rows: Seq<u8>,
    entry_count: int,
    record_count: u32,
    source_len: u64,
    i: int,
) -> Result<(), DecodeError> {
    let at = ATTRIBUTE_ROW_LEN * i;
    let list_start = le_u32(rows, at + 12);
    let list_len = le_u32(rows, at + 16);
    if !key_in_order(rows, ATTRIBUTE_ROW_LEN as int, record_count, i) {
        Err(DecodeError::InvalidSection)
    } else if row_first(rows, i) != rows_end(rows, i) {
        Err(DecodeError::InvalidSection)
    } else if row_first(rows, i) + row_count(rows, i) > entry_count {
        Err(DecodeError::InvalidSection)
    } else if list_start == SPAN_ABSENT && list_len != 0 {
        Err(DecodeError::InvalidSection)
    } else if list_start != SPAN_ABSENT && list_start + list_len > source_len {
        Err(DecodeError::InvalidSection)
    } else if !all_zero(rows, at + 20, at + 24) {
        Err(DecodeError::InvalidSection)
    } else {
        Ok(())
    }
}

pub open spec fn attribute_row_checks(
    rows: Seq<u8>,
    entry_count: int,
    record_count: u32,
    source_len: u64,
) -> spec_fn(int) -> Result<(), DecodeError> {
    |i: int| attribute_row_check(rows, entry_count, record_count, source_len, i)
}

/// The checks of attribute entry `j`: key and value inside the dictionary,
/// a source span inside the source, known flags, no key on the default
/// shorthand, zero reserved bytes.
pub open spec fn attribute_entry_check(
    entries: Seq<u8>,
    strings: Seq<Seq<char>>,
    source_len: u64,
    j: int,
) -> Result<(), DecodeError> {
    let at = ATTRIBUTE_ENTRY_LEN * j;
    let key = le_u32(entries, at);
    let flags = entries[at + 16];
    if key >= strings.len() || le_u32(entries, at + 4) >= strings.len() {
        Err(DecodeError::InvalidSection)
    } else if le_u32(entries, at + 8) + le_u32(entries, at + 12) > source_len {
        Err(DecodeError::InvalidSection)
    } else if flags & !ATTRIBUTE_FLAG_DEFAULT != 0 {
        Err(DecodeError::UnsupportedFlags { found: flags as u32 })
    } else if flags & ATTRIBUTE_FLAG_DEFAULT != 0 && strings[key as int].len() != 0 {
        Err(DecodeError::InvalidSection)
    } else if !all_zero(entries, at + 17, at + 20) {
        Err(DecodeError::InvalidSection)
    } else {
        Ok(())
    }
}

pub open spec fn attribute_entry_checks(entries: Seq<u8>, strings: Seq<Seq<char>>, source_len: u64) -> spec_fn(
    int,
) -> Result<(), DecodeError> {
    |j: int| attribute_entry_check(entries, strings, source_len, j)
}

/// The row bytes of an attribute payload declaring `count` rows.
pub open spec fn attribute_rows(b: Seq<u8>, count: u32) -> Seq<u8> {
    b.subrange(0, ATTRIBUTE_ROW_LEN * count)
}

/// The entry bytes that follow the rows.
pub open spec fn attribute_entry_bytes(b: Seq<u8>, count: u32) -> Seq<u8> {
    b.subrange(ATTRIBUTE_ROW_LEN * count, b.len() as int)
}

/// What validating an attribute payload of `count` rows gives: the rows,
/// then the entries they partition; every row and entry is checked, and the
/// rows must cover the entries exactly.
pub open spec fn spec_attribute_records(
    b: Seq<u8>,
    count: u32,
    record_count: u32,
    source_len: u64,
    strings: Seq<Seq<char>>,
) -> Result<(), DecodeError> {
    let rows_len = ATTRIBUTE_ROW_LEN * count;
    let rows = attribute_rows(b, count);
    let entries = attribute_entry_bytes(b, count);
    let entry_count = record_total(entries, ATTRIBUTE_ENTRY_LEN as int);
    if rows_len > usize::MAX {
        Err(DecodeError::OffsetOverflow)
    } else if rows_len > b.len() {
        Err(DecodeError::Truncated)
    } else if (entries.len() as int) % (ATTRIBUTE_ENTRY_LEN as int) != 0 {
        Err(DecodeError::InvalidSection)
    } else {
        match checks_upto(
            attribute_row_checks(rows, entry_count, record_count, source_len),
            count as nat,
        ) {
            Err(e) => Err(e),
            Ok(_) => if rows_end(rows, count as int) != entry_count {
                Err(DecodeError::InvalidSection)
            } else {
                checks_upto(attribute_entry_checks(entries, strings, source_len), entry_count as nat)
            },
        }
    }
}

/// Attribute entry `j` as plain values.
pub open spec fn attribute_at(entries: Seq<u8>, strings: Seq<Seq<char>>, j: int) -> AttributeView {
    let at = ATTRIBUTE_ENTRY_LEN * j;
    (
        strings[le_u32(entries, at) as int],
        strings[le_u32(entries, at + 4) as int],
        SourceSpan { start: le_u32(entries, at + 8), len: le_u32(entries, at + 12) },
        entries[at + 16] & ATTRIBUTE_FLAG_DEFAULT != 0,
    )
}

/// The `(token_idx, attribute list)` entries of validated rows and entries.
pub open spec fn attribute_entries(rows: Seq<u8>, entries: Seq<u8>, strings: Seq<Seq<char>>) -> Seq<
    (u32, AttributeListView),
> {
    Seq::new(
        record_total(rows, ATTRIBUTE_ROW_LEN as int) as nat,
        |i: int|
            (
                key_at(rows, ATTRIBUTE_ROW_LEN as int, i),
                (
                    list_source_at(rows, i),
                    Seq::new(
                        row_count(rows, i) as nat,
                        |k: int| attribute_at(entries, strings, row_first(rows, i) + k),
                    ),
                ),
            ),
    )
}

fn check_attribute_row(
    rows: &[u8],
    entry_count: u64,
    record_count: u32,
    source_len: u64,
    i: usize,
    expected_first: u64,
) -> (r: Result<(), DecodeError>)
    requires
        i < record_total(rows@, ATTRIBUTE_ROW_LEN as int),
        expected_first == rows_end(rows@, i as int),
    ensures
        r == attribute_row_check(rows@, entry_count as int, record_count, source_len, i as int),
{
    let len = rows.len();
    proof {
        lemma_record_in_bounds(len as int, ATTRIBUTE_ROW_LEN as int, i as int);
    }
    let at = ATTRIBUTE_ROW_LEN * i;
    if !key_in_order_at(rows, ATTRIBUTE_ROW_LEN, record_count, i) {
        return Err(DecodeError::InvalidSection);
    }
    let first = read_u32(rows, at + 4) as u64;
    let count = read_u32(rows, at + 8) as u64;
    // Contiguous and ascending, together covering exactly the entry array:
    // that is what lets a row's attributes be sliced without a search and
    // guarantees no entry is orphaned or shared.
    if first != expected_first {
        return Err(DecodeError::InvalidSection);
    }
    if first + count > entry_count {
        return Err(DecodeError::InvalidSection);
    }
    let list_start = read_u32(rows, at + 12);
    let list_len = read_u32(rows, at + 16);
    if list_start == SPAN_ABSENT {
        if list_len != 0 {
            return Err(DecodeError::InvalidSection);
        }
    } else {
        if (SourceSpan { start: list_start, len: list_len }).validate(source_len).is_err() {
            return Err(DecodeError::InvalidSection);
        }
    }
    if !check_zero(rows, at + 20, at + 24) {
        return Err(DecodeError::InvalidSection);
    }
    Ok(())
}

fn check_attribute_entry(entries: &[u8], strings: &StringDictionary, source_len: u64, j: usize) -> (r: Result<
    (),
    DecodeError,
>)
    requires
        strings.wf(),
        j < record_total(entries@, ATTRIBUTE_ENTRY_LEN as int),
    ensures
        r == attribute_entry_check(entries@, strings@, source_len, j as int),
{
    let len = entries.len();
    proof {
        lemma_record_in_bounds(len as int, ATTRIBUTE_ENTRY_LEN as int, j as int);
    }
    let at = ATTRIBUTE_ENTRY_LEN * j;
    let key = match strings.require(read_u32(entries, at)) {
        Ok(key) => key,
        Err(e) => return Err(e),
    };
    if let Err(e) = strings.require(read_u32(entries, at + 4)) {
        return Err(e);
    }
    let span = SourceSpan { start: read_u32(entries, at + 8), len: read_u32(entries, at + 12) };
    if let Err(e) = span.validate(source_len) {
        return Err(e);
    }
    let flags = entries[at + 16];
    if flags & !ATTRIBUTE_FLAG_DEFAULT != 0 {
        return Err(DecodeError::UnsupportedFlags { found: flags as u32 });
    }
    // The default-attribute shorthand has no key; a keyed entry claiming to
    // be default would round-trip as a different token.
    if flags & ATTRIBUTE_FLAG_DEFAULT != 0 && key.unicode_len() != 0 {
        return Err(DecodeError::InvalidSection);
    }
    if !check_zero(entries, at + 17, at + 20) {
        return Err(DecodeError::InvalidSection);
    }
    Ok(())
}

/// Validated sparse attribute records: ascending rows followed by the
/// attribute entries they partition.
#[derive(Debug, Clone, Copy, PartialEq, Eq)]
pub struct AttributeRecords<'wire> {
    rows: &'wire [u8],
    entries: &'wire [u8],
    strings: StringDictionary<'wire>,
}

impl<'wire> View for AttributeRecords<'wire> {
    type V = Seq<(u32, AttributeListView)>;

    /// The `(token_idx, attribute list)` entries, in ascending key order.
    closed spec fn view(&self) -> Seq<(u32, AttributeListView)> {
        attribute_entries(self.rows@, self.entries@, self.strings@)
    }
}

impl<'wire> AttributeRecords<'wire> {
    /// The facts every constructed view keeps.
    pub closed spec fn wf(&self) -> bool {
        &&& self.strings.wf()
        &&& keys_ascend(self.rows@, ATTRIBUTE_ROW_LEN as int)
        &&& forall|i: int|
            0 <= i < record_total(self.rows@, ATTRIBUTE_ROW_LEN as int) ==> #[trigger] row_first(
                self.rows@,
                i,
            ) + row_count(self.rows@, i) <= record_total(self.entries@, ATTRIBUTE_ENTRY_LEN as int)
        &&& forall|j: int|
            0 <= j < record_total(self.entries@, ATTRIBUTE_ENTRY_LEN as int) ==> (#[trigger] le_u32(
                self.entries@,
                ATTRIBUTE_ENTRY_LEN * j,
            ) < self.strings@.len() && le_u32(self.entries@, ATTRIBUTE_ENTRY_LEN * j + 4)
                < self.strings@.len())
    }

    /// Validates an attribute payload of `field.count` rows for
    /// `record_count` tokens over a source of `source_len` bytes.
    pub fn from_field(
        field: &SectionField<'wire>,
        record_count: u32,
        source_len: u64,
        strings: StringDictionary<'wire>,
    ) -> (records: Result<Self, DecodeError>)
        requires
            strings.wf(),
        ensures
            match records {
                Ok(r) => r.wf() && spec_attribute_records(
                    field.bytes@,
                    field.count,
                    record_count,
                    source_len,
                    strings@,
                ) is Ok && r@ == attribute_entries(
                    attribute_rows(field.bytes@, field.count),
                    attribute_entry_bytes(field.bytes@, field.count),
                    strings@,
                ),
                Err(e) => spec_attribute_records(
                    field.bytes@,
                    field.count,
                    record_count,
                    source_len,
                    strings@,
                ) == Err::<(), DecodeError>(e),
            },
    {
        let bytes = field.bytes;
        let wide = (field.count as u64) * (ATTRIBUTE_ROW_LEN as u64);
        if wide > usize::MAX as u64 {
            return Err(DecodeError::OffsetOverflow);
        }
        let rows_len = wide as usize;
        if rows_len > bytes.len() {
            return Err(DecodeError::Truncated);
        }
        let rows = vstd::slice::slice_subrange(bytes, 0, rows_len);
        let entries = vstd::slice::slice_subrange(bytes, rows_len, bytes.len());
        proof {
            assert(rows@ == attribute_rows(bytes@, field.count));
            assert(entries@ == attribute_entry_bytes(bytes@, field.count));
        }
        // The entry count is derived, never stored, so the two counts cannot
        // disagree.
        if entries.len() % ATTRIBUTE_ENTRY_LEN != 0 {
            return Err(DecodeError::InvalidSection);
        }
        let entry_count = entries.len() / ATTRIBUTE_ENTRY_LEN;
        let n = field.count as usize;
        assert(n == record_total(rows@, ATTRIBUTE_ROW_LEN as int));
        let ghost row_check = attribute_row_checks(rows@, entry_count as int, record_count, source_len);
        let mut expected_first: u64 = 0;
        let mut i: usize = 0;
        while i < n
            invariant
                n == field.count,
                n == record_total(rows@, ATTRIBUTE_ROW_LEN as int),
                rows@ == attribute_rows(field.bytes@, field.count),
                entries@ == attribute_entry_bytes(field.bytes@, field.count),
                entry_count == record_total(entries@, ATTRIBUTE_ENTRY_LEN as int),
                row_check == attribute_row_checks(rows@, entry_count as int, record_count, source_len),
                ATTRIBUTE_ROW_LEN * field.count <= field.bytes@.len(),
                (entries@.len() as int) % (ATTRIBUTE_ENTRY_LEN as int) == 0,
                rows@.len() <= usize::MAX,
                i <= n,
                expected_first == rows_end(rows@, i as int),
                checks_upto(row_check, i as nat) is Ok,
            decreases n - i,
        {
            match check_attribute_row(rows, entry_count as u64, record_count, source_len, i, expected_first) {
                Err(e) => {
                    proof {
                        assert(row_check(i as int) == attribute_row_check(rows@, entry_count as int, record_count, source_len, i as int));
                        lemma_checks_stop(row_check, i as nat, n as nat);
                    }
                    return Err(e);
                },
                Ok(()) => {
                    assert(row_check(i as int) == attribute_row_check(rows@, entry_count as int, record_count, source_len, i as int));
                },
            }
            proof {
                lemma_record_in_bounds(rows@.len() as int, ATTRIBUTE_ROW_LEN as int, i as int);
            }
            let at = ATTRIBUTE_ROW_LEN * i;
            expected_first = (read_u32(rows, at + 4) as u64) + (read_u32(rows, at + 8) as u64);
            i = i + 1;
        }
        if expected_first != entry_count as u64 {
            return Err(DecodeError::InvalidSection);
        }
        let ghost entry_check = attribute_entry_checks(entries@, strings@, source_len);
        let mut j: usize = 0;
        while j < entry_count
            invariant
                strings.wf(),
                entries@ == attribute_entry_bytes(field.bytes@, field.count),
                entry_count == record_total(entries@, ATTRIBUTE_ENTRY_LEN as int),
                entry_check == attribute_entry_checks(entries@, strings@, source_len),
                n == field.count,
                rows@ == attribute_rows(field.bytes@, field.count),
                ATTRIBUTE_ROW_LEN * field.count <= field.bytes@.len(),
                (entries@.len() as int) % (ATTRIBUTE_ENTRY_LEN as int) == 0,
                checks_upto(attribute_row_checks(rows@, entry_count as int, record_count, source_len), n as nat) is Ok,
                rows_end(rows@, n as int) == entry_count,
                field.bytes@.len() <= usize::MAX,
                j <= entry_count,
                checks_upto(entry_check, j as nat) is Ok,
            decreases entry_count - j,
        {
            match check_attribute_entry(entries, &strings, source_len, j) {
                Err(e) => {
                    proof {
                        assert(entry_check(j as int) == attribute_entry_check(entries@, strings@, source_len, j as int));
                        lemma_checks_stop(entry_check, j as nat, entry_count as nat);
                    }
                    return Err(e);
                },
                Ok(()) => {
                    assert(entry_check(j as int) == attribute_entry_check(entries@, strings@, source_len, j as int));
                },
            }
            j = j + 1;
        }
        let records = AttributeRecords { rows, entries, strings };
        proof {
            lemma_attribute_records_wf(records, n as nat, entry_count as nat, record_count, source_len);
        }
        Ok(records)
    }

    /// The attribute list stored for `token_idx`, if a row has it.
    pub fn get(&self, token_idx: u32) -> (list: Option<WireAttributeList<'wire>>)
        requires
            self.wf(),
        ensures
            (match list {
                Some(l) => Some(attribute_list_view(l)),
                None => None,
            }) == lookup(self@, token_idx),
    {
        let rows = self.rows;
        let len = rows.len();
        let i = match find_record(rows, ATTRIBUTE_ROW_LEN, token_idx) {
            None => {
                proof {
                    assert(!exists|i: int| 0 <= i < self@.len() && #[trigger] self@[i].0 == token_idx);
                }
                return None;
            },
            Some(i) => i,
        };
        proof {
            lemma_record_in_bounds(len as int, ATTRIBUTE_ROW_LEN as int, i as int);
            assert(self@[i as int].0 == token_idx);
            let j = choose|j: int| 0 <= j < self@.len() && #[trigger] self@[j].0 == token_idx;
            if j != i {
                if j < i {
                    assert(key_at(rows@, ATTRIBUTE_ROW_LEN as int, j) < key_at(rows@, ATTRIBUTE_ROW_LEN as int, i as int));
                } else {
                    assert(key_at(rows@, ATTRIBUTE_ROW_LEN as int, i as int) < key_at(rows@, ATTRIBUTE_ROW_LEN as int, j));
                }
            }
            assert(row_first(rows@, i as int) + row_count(rows@, i as int) <= record_total(
                self.entries@,
                ATTRIBUTE_ENTRY_LEN as int,
            ));
        }
        let at = ATTRIBUTE_ROW_LEN * i;
        let first = read_u32(rows, at + 4) as usize;
        let count = read_u32(rows, at + 8) as usize;
        let list_start = read_u32(rows, at + 12);
        let list_source = if list_start != SPAN_ABSENT {
            Some(SourceSpan { start: list_start, len: read_u32(rows, at + 16) })
        } else {
            None
        };
        let entries = self.entries;
        let entries_len = entries.len();
        let mut attributes: Vec<WireAttribute<'wire>> = Vec::new();
        let mut k: usize = 0;
        while k < count
            invariant
                self.wf(),
                entries == self.entries,
                entries_len == entries@.len(),
                first == row_first(rows@, i as int),
                count == row_count(rows@, i as int),
                first + count <= record_total(entries@, ATTRIBUTE_ENTRY_LEN as int),
                k <= count,
                attributes@.len() == k,
                forall|m: int|
                    0 <= m < k ==> attribute_view(#[trigger] attributes@[m]) == attribute_at(
                        entries@,
                        self.strings@,
                        first + m,
                    ),
            decreases count - k,
        {
            let index = first + k;
            proof {
                lemma_record_in_bounds(entries_len as int, ATTRIBUTE_ENTRY_LEN as int, index as int);
                assert(le_u32(entries@, ATTRIBUTE_ENTRY_LEN * index) < self.strings@.len());
            }
            let e = ATTRIBUTE_ENTRY_LEN * index;
            let key = match self.strings.get(read_u32(entries, e)) {
                Some(key) => key,
                None => return None,
            };
            let value = match self.strings.get(read_u32(entries, e + 4)) {
                Some(value) => value,
                None => return None,
            };
            let attribute = WireAttribute {
                key,
                value,
                source: SourceSpan { start: read_u32(entries, e + 8), len: read_u32(entries, e + 12) },
                is_default: entries[e + 16] & ATTRIBUTE_FLAG_DEFAULT != 0,
            };
            attributes.push(attribute);
            k = k + 1;
        }
        let list = WireAttributeList { list_source, attributes };
        proof {
            assert(attribute_list_view(list).1 =~= self@[i as int].1.1);
        }
        Some(list)
    }
}

proof fn lemma_attribute_records_wf(
    r: AttributeRecords,
    n: nat,
    entry_count: nat,
    record_count: u32,
    source_len: u64,
)
    requires
        r.strings.wf(),
        n == record_total(r.rows@, ATTRIBUTE_ROW_LEN as int),
        entry_count == record_total(r.entries@, ATTRIBUTE_ENTRY_LEN as int),
        checks_upto(attribute_row_checks(r.rows@, entry_count as int, record_count, source_len), n) is Ok,
        checks_upto(attribute_entry_checks(r.entries@, r.strings@, source_len), entry_count) is Ok,
    ensures
        r.wf(),
{
    let row_check = attribute_row_checks(r.rows@, entry_count as int, record_count, source_len);
    let entry_check = attribute_entry_checks(r.entries@, r.strings@, source_len);
    assert forall|k: int| 0 <= k < n implies #[trigger] key_in_order(
        r.rows@,
        ATTRIBUTE_ROW_LEN as int,
        record_count,
        k,
    ) by {
        lemma_checks_each(row_check, n, k);
        assert(row_check(k) == attribute_row_check(r.rows@, entry_count as int, record_count, source_len, k));
    }
    lemma_keys_ascend(r.rows@, ATTRIBUTE_ROW_LEN as int, record_count);
    assert forall|k: int| 0 <= k < n implies #[trigger] row_first(r.rows@, k) + row_count(r.rows@, k)
        <= entry_count by {
        lemma_checks_each(row_check, n, k);
        assert(row_check(k) == attribute_row_check(r.rows@, entry_count as int, record_count, source_len, k));
    }
    assert forall|j: int| 0 <= j < entry_count implies (#[trigger] le_u32(
        r.entries@,
        ATTRIBUTE_ENTRY_LEN * j,
    ) < r.strings@.len() && le_u32(r.entries@, ATTRIBUTE_ENTRY_LEN * j + 4) < r.strings@.len()) by {
        lemma_checks_each(entry_check, entry_count, j);
        assert(entry_check(j) == attribute_entry_check(r.entries@, r.strings@, source_len, j));
    }
}

// ------------------------------------------------------------ sparse builders

/// The sixteen bytes of a number record.
pub open spec fn number_record_bytes(token_idx: u32, number: WireNumber) -> Seq<u8> {
    u32_bytes(token_idx) + u32_bytes(number.start) + u32_bytes(
        match number.end {
            Some(end) => end,
            None => 0,
        },
    ) + seq![
        number.kind.spec_as_u8(),
        if number.end is Some { NUMBER_FLAG_HAS_END } else { 0u8 },
        0u8,
        0u8,
    ]
}

/// The number-record payload of `(token_idx, number)` entries pushed in
/// order.
pub open spec fn number_payload(entries: Seq<(u32, WireNumber)>) -> Seq<u8>
    decreases entries.len(),
{
    if entries.len() == 0 {
        Seq::empty()
    } else {
        number_payload(entries.drop_last()) + number_record_bytes(
            entries.last().0,
            entries.last().1,
        )
    }
}

/// The sixteen bytes of a book-code record.
pub open spec fn book_code_record_bytes(token_idx: u32, code_index: u32, is_valid: bool) -> Seq<u8> {
    u32_bytes(token_idx) + u32_bytes(code_index) + seq![
        if is_valid { 1u8 } else { 0u8 },
        0u8,
        0u8,
        0u8,
        0u8,
        0u8,
        0u8,
        0u8,
    ]
}

/// The book-code payload of `(token_idx, (code index, is_valid))` entries
/// pushed in order.
pub open spec fn book_code_payload(entries: Seq<(u32, (u32, bool))>) -> Seq<u8>
    decreases entries.len(),
{
    if entries.len() == 0 {
        Seq::empty()
    } else {
        book_code_payload(entries.drop_last()) + book_code_record_bytes(
            entries.last().0,
            entries.last().1.0,
            entries.last().1.1,
        )
    }
}

/// The twenty-four bytes of an attribute row of `count` entries from
/// `first`; an absent list span is stored as the sentinel start and length 0.
pub open spec fn attribute_row_record(
    token_idx: u32,
    first: u32,
    count: u32,
    list_source: Option<SourceSpan>,
) -> Seq<u8> {
    let span = match list_source {
        Some(span) => span,
        None => SourceSpan { start: SPAN_ABSENT, len: 0 },
    };
    u32_bytes(token_idx) + u32_bytes(first) + u32_bytes(count) + u32_bytes(span.start) + u32_bytes(
        span.len,
    ) + seq![0u8, 0u8, 0u8, 0u8]
}

/// The bytes of an attribute row whose entry count is still zero.
pub open spec fn attribute_row_bytes(token_idx: u32, first: u32, list_source: Option<SourceSpan>) -> Seq<u8> {
    attribute_row_record(token_idx, first, 0, list_source)
}

/// The twenty bytes of an attribute entry.
pub open spec fn attribute_entry_record_bytes(
    key_index: u32,
    value_index: u32,
    source: SourceSpan,
    is_default: bool,
) -> Seq<u8> {
    u32_bytes(key_index) + u32_bytes(value_index) + u32_bytes(source.start) + u32_bytes(source.len)
        + seq![if is_default { 1u8 } else { 0u8 }, 0u8, 0u8, 0u8]
}

/// An attribute to push: key and value string indices, source span,
/// default flag.
pub type AttributeInput = (u32, u32, SourceSpan, bool);

/// An attribute row to push: token index, list span, attributes.
pub type AttributeRowInput = (u32, Option<SourceSpan>, Seq<AttributeInput>);

/// Number of attributes of `rows`.
pub open spec fn attribute_total(rows: Seq<AttributeRowInput>) -> int
    decreases rows.len(),
{
    if rows.len() == 0 {
        0
    } else {
        attribute_total(rows.drop_last()) + rows.last().2.len()
    }
}

/// The finished rows of `rows`, each naming the entries it owns.
pub open spec fn attribute_rows_payload(rows: Seq<AttributeRowInput>) -> Seq<u8>
    decreases rows.len(),
{
    if rows.len() == 0 {
        Seq::empty()
    } else {
        attribute_rows_payload(rows.drop_last()) + attribute_row_record(
            rows.last().0,
            attribute_total(rows.drop_last()) as u32,
            rows.last().2.len() as u32,
            rows.last().1,
        )
    }
}

/// The entries of one row.
pub open spec fn row_entries_payload(attributes: Seq<AttributeInput>) -> Seq<u8>
    decreases attributes.len(),
{
    if attributes.len() == 0 {
        Seq::empty()
    } else {
        row_entries_payload(attributes.drop_last()) + attribute_entry_record_bytes(
            attributes.last().0,
            attributes.last().1,
            attributes.last().2,
            attributes.last().3,
        )
    }
}

/// The entries of all rows, row after row.
pub open spec fn attribute_entries_payload(rows: Seq<AttributeRowInput>) -> Seq<u8>
    decreases rows.len(),
{
    if rows.len() == 0 {
        Seq::empty()
    } else {
        attribute_entries_payload(rows.drop_last()) + row_entries_payload(rows.last().2)
    }
}

/// The sealed attribute payload of `rows`: the rows, then the entries.
pub open spec fn attribute_payload(rows: Seq<AttributeRowInput>) -> Seq<u8> {
    attribute_rows_payload(rows) + attribute_entries_payload(rows)
}

/// Builds the sparse and mixed payload buffers. Records are pushed in
/// ascending `token_idx` because the caller walks rows in order, so canonical
/// ordering is a property of the walk rather than a sort.
pub struct SparseBuilders {
    numbers: Writer,
    book_codes: Writer,
    attribute_rows: Writer,
    attribute_entries: Writer,
    /// Rows followed by entries, assembled once the walk is done.
    attributes: Vec<u8>,
}

impl Default for SparseBuilders {
    fn default() -> (builders: Self)
        ensures
            builders.spec_numbers() == Seq::<u8>::empty(),
            builders.spec_book_codes() == Seq::<u8>::empty(),
            builders.spec_attribute_rows() == Seq::<u8>::empty(),
            builders.spec_attribute_entries() == Seq::<u8>::empty(),
            builders.spec_attributes() == Seq::<u8>::empty(),
    {
        SparseBuilders::new()
    }
}

impl SparseBuilders {
    /// The number records pushed so far.
    pub closed spec fn spec_numbers(&self) -> Seq<u8> {
        self.numbers@
    }

    /// The book-code records pushed so far.
    pub closed spec fn spec_book_codes(&self) -> Seq<u8> {
        self.book_codes@
    }

    /// The attribute rows pushed so far.
    pub closed spec fn spec_attribute_rows(&self) -> Seq<u8> {
        self.attribute_rows@
    }

    /// The attribute entries pushed so far.
    pub closed spec fn spec_attribute_entries(&self) -> Seq<u8> {
        self.attribute_entries@
    }

    /// The sealed attribute payload.
    pub closed spec fn spec_attributes(&self) -> Seq<u8> {
        self.attributes@
    }

    pub fn new() -> (builders: Self)
        ensures
            builders.spec_numbers() == Seq::<u8>::empty(),
            builders.spec_book_codes() == Seq::<u8>::empty(),
            builders.spec_attribute_rows() == Seq::<u8>::empty(),
            builders.spec_attribute_entries() == Seq::<u8>::empty(),
            builders.spec_attributes() == Seq::<u8>::empty(),
    {
        SparseBuilders {
            numbers: Writer::new(),
            book_codes: Writer::new(),
            attribute_rows: Writer::new(),
            attribute_entries: Writer::new(),
            attributes: Vec::new(),
        }
    }

    /// Appends the number record of `token_idx`.
    pub fn push_number(&mut self, token_idx: u32, number: WireNumber)
        ensures
            final(self).spec_numbers() == old(self).spec_numbers() + number_record_bytes(
                token_idx,
                number,
            ),
            final(self).spec_book_codes() == old(self).spec_book_codes(),
            final(self).spec_attribute_rows() == old(self).spec_attribute_rows(),
            final(self).spec_attribute_entries() == old(self).spec_attribute_entries(),
            final(self).spec_attributes() == old(self).spec_attributes(),
    {
        self.numbers.u32(token_idx);
        self.numbers.u32(number.start);
        self.numbers.u32(
            match number.end {
                Some(end) => end,
                None => 0,
            },
        );
        self.numbers.u8(number.kind.as_u8());
        self.numbers.u8(if number.end.is_some() { NUMBER_FLAG_HAS_END } else { 0 });
        self.numbers.u8(0);
        self.numbers.u8(0);
        proof {
            assert(self.numbers@ =~= old(self).numbers@ + number_record_bytes(token_idx, number));
        }
    }

    /// Appends the book-code record of `token_idx`.
    pub fn push_book_code(&mut self, token_idx: u32, code_index: u32, is_valid: bool)
        ensures
            final(self).spec_book_codes() == old(self).spec_book_codes() + book_code_record_bytes(
                token_idx,
                code_index,
                is_valid,
            ),
            final(self).spec_numbers() == old(self).spec_numbers(),
            final(self).spec_attribute_rows() == old(self).spec_attribute_rows(),
            final(self).spec_attribute_entries() == old(self).spec_attribute_entries(),
            final(self).spec_attributes() == old(self).spec_attributes(),
    {
        self.book_codes.u32(token_idx);
        self.book_codes.u32(code_index);
        self.book_codes.u8(if is_valid { 1 } else { 0 });
        let mut k: usize = 0;
        while k < 7
            invariant
                k <= 7,
                self.book_codes@ == old(self).book_codes@ + u32_bytes(token_idx) + u32_bytes(code_index)
                    + seq![if is_valid { 1u8 } else { 0u8 }] + Seq::new(k as nat, |i: int| 0u8),
                self.numbers == old(self).numbers,
                self.attribute_rows == old(self).attribute_rows,
                self.attribute_entries == old(self).attribute_entries,
                self.attributes == old(self).attributes,
            decreases 7 - k,
        {
            self.book_codes.u8(0);
            proof {
                assert(self.book_codes@ =~= old(self).book_codes@ + u32_bytes(token_idx) + u32_bytes(
                    code_index,
                ) + seq![if is_valid { 1u8 } else { 0u8 }] + Seq::new((k + 1) as nat, |i: int| 0u8));
            }
            k = k + 1;
        }
        proof {
            assert(self.book_codes@ =~= old(self).book_codes@ + book_code_record_bytes(
                token_idx,
                code_index,
                is_valid,
            ));
        }
    }

    /// Starts the attribute row of `token_idx` at the next entry; its count
    /// is written by `finish_attribute_row`. Returns that first entry.
    pub fn push_attribute_row(&mut self, token_idx: u32, list_source: Option<SourceSpan>) -> (first: u32)
        requires
            record_total(old(self).spec_attribute_entries(), ATTRIBUTE_ENTRY_LEN as int) <= u32::MAX,
        ensures
            first == record_total(old(self).spec_attribute_entries(), ATTRIBUTE_ENTRY_LEN as int),
            final(self).spec_attribute_rows() == old(self).spec_attribute_rows()
                + attribute_row_bytes(token_idx, first, list_source),
            final(self).spec_numbers() == old(self).spec_numbers(),
            final(self).spec_book_codes() == old(self).spec_book_codes(),
            final(self).spec_attribute_entries() == old(self).spec_attribute_entries(),
            final(self).spec_attributes() == old(self).spec_attributes(),
    {
        let first = (self.attribute_entries.len() / ATTRIBUTE_ENTRY_LEN) as u32;
        let span = match list_source {
            Some(span) => span,
            None => SourceSpan { start: SPAN_ABSENT, len: 0 },
        };
        self.attribute_rows.u32(token_idx);
        self.attribute_rows.u32(first);
        self.attribute_rows.u32(0);
        self.attribute_rows.u32(span.start);
        self.attribute_rows.u32(span.len);
        self.attribute_rows.u8(0);
        self.attribute_rows.u8(0);
        self.attribute_rows.u8(0);
        self.attribute_rows.u8(0);
        proof {
            assert(self.attribute_rows@ =~= old(self).attribute_rows@ + attribute_row_bytes(
                token_idx,
                first,
                list_source,
            ));
        }
        first
    }

    /// Appends one attribute entry to the row started last.
    pub fn push_attribute_entry(
        &mut self,
        key_index: u32,
        value_index: u32,
        source: SourceSpan,
        is_default: bool,
    )
        ensures
            final(self).spec_attribute_entries() == old(self).spec_attribute_entries()
                + attribute_entry_record_bytes(key_index, value_index, source, is_default),
            final(self).spec_numbers() == old(self).spec_numbers(),
            final(self).spec_book_codes() == old(self).spec_book_codes(),
            final(self).spec_attribute_rows() == old(self).spec_attribute_rows(),
            final(self).spec_attributes() == old(self).spec_attributes(),
    {
        self.attribute_entries.u32(key_index);
        self.attribute_entries.u32(value_index);
        self.attribute_entries.u32(source.start);
        self.attribute_entries.u32(source.len);
        self.attribute_entries.u8(if is_default { 1 } else { 0 });
        self.attribute_entries.u8(0);
        self.attribute_entries.u8(0);
        self.attribute_entries.u8(0);
        proof {
            assert(self.attribute_entries@ =~= old(self).attribute_entries@
                + attribute_entry_record_bytes(key_index, value_index, source, is_default));
        }
    }

    /// Writes the attribute count into the row started most recently: the
    /// entries pushed since `first`.
    pub fn finish_attribute_row(&mut self, first: u32)
        requires
            old(self).spec_attribute_rows().len() >= ATTRIBUTE_ROW_LEN,
            first <= record_total(old(self).spec_attribute_entries(), ATTRIBUTE_ENTRY_LEN as int)
                <= u32::MAX,
        ensures
            ({
                let rows = old(self).spec_attribute_rows();
                let at = rows.len() - ATTRIBUTE_ROW_LEN + 8;
                let count = (record_total(old(self).spec_attribute_entries(), ATTRIBUTE_ENTRY_LEN as int)
                    - first) as u32;
                final(self).spec_attribute_rows() == rows.subrange(0, at) + u32_bytes(count)
                    + rows.subrange(at + 4, rows.len() as int)
            }),
            final(self).spec_numbers() == old(self).spec_numbers(),
            final(self).spec_book_codes() == old(self).spec_book_codes(),
            final(self).spec_attribute_entries() == old(self).spec_attribute_entries(),
            final(self).spec_attributes() == old(self).spec_attributes(),
    {
        let row_start = self.attribute_rows.len() - ATTRIBUTE_ROW_LEN;
        let now = (self.attribute_entries.len() / ATTRIBUTE_ENTRY_LEN) as u32;
        self.attribute_rows.set_u32(row_start + 8, now - first);
    }

    /// Concatenates rows and entries into the attribute payload. Called once,
    /// after the last row, because a row's entry count is only known then.
    pub fn seal_attributes(&mut self)
        ensures
            final(self).spec_attributes() == old(self).spec_attribute_rows() + old(self).spec_attribute_entries(),
            final(self).spec_numbers() == old(self).spec_numbers(),
            final(self).spec_book_codes() == old(self).spec_book_codes(),
            final(self).spec_attribute_rows() == old(self).spec_attribute_rows(),
            final(self).spec_attribute_entries() == old(self).spec_attribute_entries(),
    {
        let mut sealed = Writer::new();
        sealed.bytes(self.attribute_rows.as_slice());
        sealed.bytes(self.attribute_entries.as_slice());
        self.attributes = sealed.finish();
    }

    /// The sealed attribute payload.
    pub fn attributes(&self) -> (bytes: &[u8])
        ensures
            bytes@ == self.spec_attributes(),
    {
        self.attributes.as_slice()
    }

    /// The number-record payload.
    pub fn numbers(&self) -> (bytes: &[u8])
        ensures
            bytes@ == self.spec_numbers(),
    {
        self.numbers.as_slice()
    }

    /// The book-code payload.
    pub fn book_codes(&self) -> (bytes: &[u8])
        ensures
            bytes@ == self.spec_book_codes(),
    {
        self.book_codes.as_slice()
    }

    /// Rows pushed so far.
    pub fn attribute_row_count(&self) -> (count: u32)
        ensures
            count == (record_total(self.spec_attribute_rows(), ATTRIBUTE_ROW_LEN as int)) as u32,
    {
        (self.attribute_rows.len() / ATTRIBUTE_ROW_LEN) as u32
    }

    /// Number records pushed so far.
    pub fn number_count(&self) -> (count: u32)
        ensures
            count == (record_total(self.spec_numbers(), NUMBER_RECORD_LEN as int)) as u32,
    {
        (self.numbers.len() / NUMBER_RECORD_LEN) as u32
    }

    /// Book-code records pushed so far.
    pub fn book_code_count(&self) -> (count: u32)
        ensures
            count == (record_total(self.spec_book_codes(), BOOK_CODE_RECORD_LEN as int)) as u32,
    {
        (self.book_codes.len() / BOOK_CODE_RECORD_LEN) as u32
    }
}

} // verus!
