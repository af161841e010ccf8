//! What the payload readers recover from what the builders wrote.

use vstd::prelude::*;
use vstd::utf8::{decode_utf8, encode_utf8, encode_utf8_decode_utf8, encode_utf8_valid_utf8, valid_utf8};

use crate::container::read::all_zero;
use crate::error::DecodeError;
use crate::primitives::{le_u32, lemma_le_u32_at, u32_bytes};
use crate::schema::{
    NumberRangeKindTag, BOOK_CODE_FLAG_VALID, BOOK_CODE_RECORD_LEN, DESCRIPTOR_FLAG_NESTED, DESCRIPTOR_RECORD_LEN, MAX_MARKER_DESCRIPTORS,
    NUMBER_FLAG_HAS_END, NUMBER_RECORD_LEN,
};

use super::{
    checks_upto, dict_end, dict_entry, dict_start, dict_starts_ok, dict_utf8_ok, dictionary_bytes,
    number_checks, number_entries, number_payload, number_record_bytes, number_record_check,
    record_total, spec_number_records, spec_string_dictionary, starts_bytes, utf8_concat,
    StringDictionaryBuilder, WireNumber, descriptor_bytes, descriptor_checks, descriptor_entries,
    descriptor_record_bytes, descriptor_record_check, spec_marker_descriptors, book_code_checks,
    book_code_entries, book_code_payload, book_code_record_bytes, book_code_record_check,
    spec_book_code_records,
};

verus! {

/// Length of the concatenated data of the first `k` strings.
spec fn prefix_len(s: Seq<Seq<char>>, k: int) -> int {
    utf8_concat(s.take(k)).len() as int
}

proof fn lemma_starts_len(s: Seq<Seq<char>>)
    ensures
        starts_bytes(s).len() == 4 * s.len(),
    decreases s.len(),
{
    if s.len() > 0 {
        lemma_starts_len(s.drop_last());
    }
}

/// The data of a prefix of the strings is a prefix of the data.
proof fn lemma_concat_prefix(s: Seq<Seq<char>>, j: int)
    requires
        0 <= j <= s.len(),
    ensures
        prefix_len(s, j) <= utf8_concat(s).len(),
        utf8_concat(s).subrange(0, prefix_len(s, j)) == utf8_concat(s.take(j)),
    decreases s.len(),
{
    if j == s.len() {
        assert(s.take(j) =~= s);
        assert(utf8_concat(s).subrange(0, prefix_len(s, j)) =~= utf8_concat(s));
    } else {
        lemma_concat_prefix(s.drop_last(), j);
        assert(s.drop_last().take(j) =~= s.take(j));
        let a = utf8_concat(s.drop_last());
        let b = encode_utf8(s.last());
        assert(utf8_concat(s) == a + b);
        assert((a + b).subrange(0, prefix_len(s, j)) =~= a.subrange(0, prefix_len(s, j)));
    }
}

/// Prefix lengths grow with the prefix.
proof fn lemma_prefix_monotone(s: Seq<Seq<char>>, i: int, j: int)
    requires
        0 <= i <= j <= s.len(),
    ensures
        prefix_len(s, i) <= prefix_len(s, j),
{
    lemma_concat_prefix(s.take(j), i);
    assert(s.take(j).take(i) =~= s.take(i));
}

/// String `i`'s encoding lies between the starts of strings `i` and `i + 1`.
proof fn lemma_concat_entry(s: Seq<Seq<char>>, i: int)
    requires
        0 <= i < s.len(),
    ensures
        prefix_len(s, i + 1) == prefix_len(s, i) + encode_utf8(s[i]).len(),
        utf8_concat(s).subrange(prefix_len(s, i), prefix_len(s, i + 1)) == encode_utf8(s[i]),
{
    let t = s.take(i + 1);
    assert(t.drop_last() =~= s.take(i));
    assert(t.last() == s[i]);
    assert(utf8_concat(t) == utf8_concat(s.take(i)) + encode_utf8(s[i]));
    lemma_concat_prefix(s, i + 1);
    let whole = utf8_concat(s);
    assert(whole.subrange(prefix_len(s, i), prefix_len(s, i + 1)) =~= whole.subrange(
        0,
        prefix_len(s, i + 1),
    ).subrange(prefix_len(s, i), prefix_len(s, i + 1)));
    assert(utf8_concat(t).subrange(prefix_len(s, i), prefix_len(s, i + 1)) =~= encode_utf8(s[i]));
}

/// The stored start of string `i` is the length of the data before it.
proof fn lemma_start_at(s: Seq<Seq<char>>, i: int)
    requires
        0 <= i < s.len(),
        utf8_concat(s.drop_last()).len() <= u32::MAX,
    ensures
        le_u32(starts_bytes(s), 4 * i) == prefix_len(s, i),
    decreases s.len(),
{
    let p = starts_bytes(s.drop_last());
    let last = utf8_concat(s.drop_last()).len() as u32;
    lemma_starts_len(s.drop_last());
    assert(starts_bytes(s) == p + u32_bytes(last));
    if i == s.len() - 1 {
        assert(s.take(i) =~= s.drop_last());
        assert(starts_bytes(s).subrange(4 * i, 4 * i + 4) =~= u32_bytes(last));
        lemma_le_u32_at(starts_bytes(s), 4 * i, last);
    } else {
        let d = s.drop_last();
        assert(d.drop_last() =~= d.take(d.len() - 1));
        lemma_prefix_monotone(d, d.len() - 1, d.len() as int);
        assert(d.take(d.len() as int) =~= d);
        lemma_start_at(d, i);
        assert(d.take(i) =~= s.take(i));
        let b = starts_bytes(s);
        assert(b[4 * i] == p[4 * i]);
        assert(b[4 * i + 1] == p[4 * i + 1]);
        assert(b[4 * i + 2] == p[4 * i + 2]);
        assert(b[4 * i + 3] == p[4 * i + 3]);
    }
}

/// The stored starts of strings whose starts fit a `u32`.
proof fn lemma_dictionary_starts(s: Seq<Seq<char>>)
    requires
        s.len() > 0,
        utf8_concat(s.drop_last()).len() <= u32::MAX,
    ensures
        forall|i: int| 0 <= i < s.len() ==> #[trigger] dict_start(starts_bytes(s), i) == prefix_len(s, i),
{
    assert forall|i: int| 0 <= i < s.len() implies #[trigger] dict_start(starts_bytes(s), i)
        == prefix_len(s, i) by {
        lemma_start_at(s, i);
    }
}

/// Each stored string is the encoding of the string interned.
proof fn lemma_dictionary_entries(s: Seq<Seq<char>>)
    requires
        s.len() > 0,
        forall|i: int| 0 <= i < s.len() ==> #[trigger] dict_start(starts_bytes(s), i) == prefix_len(s, i),
    ensures
        forall|i: int|
            0 <= i < s.len() ==> #[trigger] dict_entry(starts_bytes(s), utf8_concat(s), s.len() as int, i)
                == encode_utf8(s[i]),
{
    let offsets = starts_bytes(s);
    let data = utf8_concat(s);
    assert forall|i: int| 0 <= i < s.len() implies #[trigger] dict_entry(offsets, data, s.len() as int, i)
        == encode_utf8(s[i]) by {
        lemma_concat_entry(s, i);
        assert(dict_start(offsets, i) == prefix_len(s, i));
        if i + 1 < s.len() {
            assert(dict_start(offsets, i + 1) == prefix_len(s, i + 1));
        } else {
            assert(s.take(i + 1) =~= s);
        }
    }
}

/// Strings whose every start fits a `u32` decode from their dictionary
/// payload as themselves.
#[verifier::rlimit(100)]
pub(crate) proof fn lemma_dictionary_round_trip(s: Seq<Seq<char>>)
    requires
        s.len() <= u32::MAX,
        s.len() > 0 ==> utf8_concat(s.drop_last()).len() <= u32::MAX,
    ensures
        spec_string_dictionary(dictionary_bytes(s), s.len() as u32) == Ok::<
            Seq<Seq<char>>,
            DecodeError,
        >(s),
{
    let count = s.len() as u32;
    let bytes = dictionary_bytes(s);
    lemma_starts_len(s);
    if count == 0 {
        assert(starts_bytes(s) =~= Seq::<u8>::empty());
        assert(utf8_concat(s) =~= Seq::<u8>::empty());
        assert(bytes.len() == 0);
        assert(Seq::<Seq<char>>::empty() =~= s);
    } else {
        let offsets = bytes.subrange(0, 4 * count);
        let data = bytes.subrange(4 * count, bytes.len() as int);
        assert(offsets =~= starts_bytes(s));
        assert(data =~= utf8_concat(s));
        lemma_dictionary_starts(s);
        assert(s.take(s.len() as int) =~= s);
        assert(s.take(0) =~= Seq::<Seq<char>>::empty());
        assert forall|i: int| 0 <= i < count implies #[trigger] dict_start(offsets, i)
            <= data.len() by {
            lemma_prefix_monotone(s, i, s.len() as int);
        }
        assert forall|i: int| 0 < i < count implies dict_start(offsets, i - 1) <= #[trigger] dict_start(
            offsets,
            i,
        ) by {
            lemma_prefix_monotone(s, i - 1, i);
        }
        assert(dict_starts_ok(offsets, data.len() as int, count as int));
        lemma_dictionary_entries(s);
        assert(dict_utf8_ok(offsets, data, count as int)) by {
            broadcast use encode_utf8_valid_utf8;
        }
        let decoded = Seq::new(
            count as nat,
            |i: int| decode_utf8(dict_entry(offsets, data, count as int, i)),
        );
        assert(decoded =~= s) by {
            broadcast use encode_utf8_decode_utf8;
        }
    }
}

/// What a string-dictionary builder writes, the dictionary reader decodes as
/// the strings interned, in index order, whenever their count fits a `u32`.
pub proof fn law_string_dictionary_round_trip(builder: StringDictionaryBuilder)
    requires
        builder.wf(),
        builder@.len() <= u32::MAX,
    ensures
        spec_string_dictionary(dictionary_bytes(builder@), builder@.len() as u32) == Ok::<
            Seq<Seq<char>>,
            DecodeError,
        >(builder@),
{
    lemma_dictionary_round_trip(builder@);
}


/// Every check of records `0..n` passing means the run passes.
pub(crate) proof fn lemma_checks_all(check: spec_fn(int) -> Result<(), DecodeError>, n: nat)
    requires
        forall|k: int| 0 <= k < n ==> #[trigger] check(k) is Ok,
    ensures
        checks_upto(check, n) is Ok,
    decreases n,
{
    if n > 0 {
        lemma_checks_all(check, (n - 1) as nat);
    }
}

/// Record `i` of a number payload sits at `16 * i`.
proof fn lemma_number_payload_at(entries: Seq<(u32, WireNumber)>, i: int)
    requires
        0 <= i < entries.len(),
    ensures
        number_payload(entries).len() == NUMBER_RECORD_LEN * entries.len(),
        number_payload(entries).subrange(NUMBER_RECORD_LEN * i, NUMBER_RECORD_LEN * i + 16)
            == number_record_bytes(entries[i].0, entries[i].1),
    decreases entries.len(),
{
    let rest = entries.drop_last();
    lemma_number_payload_len(rest);
    let b = number_payload(entries);
    let r = number_record_bytes(entries.last().0, entries.last().1);
    assert(b == number_payload(rest) + r);
    if i == entries.len() - 1 {
        assert(b.subrange(NUMBER_RECORD_LEN * i, NUMBER_RECORD_LEN * i + 16) =~= r);
    } else {
        lemma_number_payload_at(rest, i);
        assert(b.subrange(NUMBER_RECORD_LEN * i, NUMBER_RECORD_LEN * i + 16) =~= number_payload(
            rest,
        ).subrange(NUMBER_RECORD_LEN * i, NUMBER_RECORD_LEN * i + 16));
    }
}

proof fn lemma_number_payload_len(entries: Seq<(u32, WireNumber)>)
    ensures
        number_payload(entries).len() == NUMBER_RECORD_LEN * entries.len(),
    decreases entries.len(),
{
    if entries.len() > 0 {
        lemma_number_payload_len(entries.drop_last());
    }
}

/// The fields of record `i` of a number payload read back as written.
proof fn lemma_number_record_fields(entries: Seq<(u32, WireNumber)>, i: int)
    requires
        0 <= i < entries.len(),
    ensures
        ({
            let b = number_payload(entries);
            let at = NUMBER_RECORD_LEN * i;
            let (key, number) = entries[i];
            &&& le_u32(b, at) == key
            &&& le_u32(b, at + 4) == number.start
            &&& le_u32(b, at + 8) == match number.end {
                Some(end) => end,
                None => 0u32,
            }
            &&& b[at + 12] == number.kind.spec_as_u8()
            &&& b[at + 13] == (if number.end is Some { NUMBER_FLAG_HAS_END } else { 0u8 })
            &&& b[at + 14] == 0 && b[at + 15] == 0
        }),
{
    lemma_number_payload_at(entries, i);
    let b = number_payload(entries);
    let at = NUMBER_RECORD_LEN * i;
    let (key, number) = entries[i];
    let r = number_record_bytes(key, number);
    let end = match number.end {
        Some(end) => end,
        None => 0u32,
    };
    let w = b.subrange(at, at + 16);
    assert(w == r);
    assert(r.subrange(0, 4) =~= u32_bytes(key));
    assert(r.subrange(4, 8) =~= u32_bytes(number.start));
    assert(r.subrange(8, 12) =~= u32_bytes(end));
    assert(b.subrange(at, at + 4) =~= w.subrange(0, 4));
    assert(b.subrange(at + 4, at + 8) =~= w.subrange(4, 8));
    assert(b.subrange(at + 8, at + 12) =~= w.subrange(8, 12));
    assert(b[at + 12] == w[12] && b[at + 13] == w[13] && b[at + 14] == w[14] && b[at + 15] == w[15]);
    lemma_le_u32_at(b, at, key);
    lemma_le_u32_at(b, at + 4, number.start);
    lemma_le_u32_at(b, at + 8, end);
}

/// A number-range tag read back from its wire value is the tag.
proof fn lemma_number_kind_round_trip(kind: NumberRangeKindTag)
    ensures
        NumberRangeKindTag::spec_from_u8(kind.spec_as_u8()) == Some(kind),
{
}

proof fn lemma_number_payload_total(entries: Seq<(u32, WireNumber)>)
    ensures
        record_total(number_payload(entries), NUMBER_RECORD_LEN as int) == entries.len(),
{
    lemma_number_payload_len(entries);
    let n = entries.len() as int;
    assert((16 * n) / 16 == n) by (nonlinear_arith);
}

/// Record `k` of an ascending number payload passes its checks.
proof fn lemma_number_check_ok(entries: Seq<(u32, WireNumber)>, record_count: u32, k: int)
    requires
        0 <= k < entries.len(),
        forall|i: int| 0 <= i < entries.len() ==> #[trigger] entries[i].0 < record_count,
        forall|i: int, j: int| 0 <= i < j < entries.len() ==> entries[i].0 < entries[j].0,
    ensures
        number_record_check(number_payload(entries), record_count, k) is Ok,
{
    let b = number_payload(entries);
    lemma_number_record_fields(entries, k);
    if k > 0 {
        lemma_number_record_fields(entries, k - 1);
        assert(entries[k - 1].0 < entries[k].0);
    }
    assert(entries[k].0 < record_count);
    let at = NUMBER_RECORD_LEN * k;
    let flags = b[at + 13];
    lemma_number_kind_round_trip(entries[k].1.kind);
    assert(flags == 0 || flags == 1);
    assert((flags == 0u8 || flags == 1u8) ==> flags & !1u8 == 0) by (bit_vector);
    assert(flags == 0u8 ==> flags & 1u8 == 0) by (bit_vector);
    assert(flags & 1u8 == 0 ==> flags == 0u8) by (bit_vector)
        requires
            flags == 0u8 || flags == 1u8,
    ;
    assert(all_zero(b, at + 14, at + 16));
}

/// Entry `k` read back from a number payload is the entry written.
proof fn lemma_number_entry_back(entries: Seq<(u32, WireNumber)>, k: int)
    requires
        0 <= k < entries.len(),
    ensures
        number_entries(number_payload(entries))[k] == entries[k],
{
    let b = number_payload(entries);
    lemma_number_payload_total(entries);
    lemma_number_record_fields(entries, k);
    lemma_number_kind_round_trip(entries[k].1.kind);
    let flags = b[NUMBER_RECORD_LEN * k + 13];
    assert(flags == 1u8 ==> flags & 1u8 != 0) by (bit_vector);
    assert(flags == 0u8 ==> flags & 1u8 == 0) by (bit_vector);
}

/// What the sparse builders write for numbers pushed in ascending
/// `token_idx` order below `record_count`, the number-record reader accepts
/// and reads back as the same `(token_idx, number)` entries.
pub proof fn law_number_records_round_trip(entries: Seq<(u32, WireNumber)>, record_count: u32)
    requires
        forall|i: int| 0 <= i < entries.len() ==> #[trigger] entries[i].0 < record_count,
        forall|i: int, j: int| 0 <= i < j < entries.len() ==> entries[i].0 < entries[j].0,
    ensures
        spec_number_records(number_payload(entries), record_count) is Ok,
        number_entries(number_payload(entries)) == entries,
{
    let b = number_payload(entries);
    let n = entries.len();
    lemma_number_payload_total(entries);
    let check = number_checks(b, record_count);
    assert forall|k: int| 0 <= k < n implies #[trigger] check(k) is Ok by {
        lemma_number_check_ok(entries, record_count, k);
    }
    lemma_checks_all(check, n);
    assert forall|k: int| 0 <= k < n implies #[trigger] number_entries(b)[k] == entries[k] by {
        lemma_number_entry_back(entries, k);
    }
    assert(number_entries(b) =~= entries);
}

proof fn lemma_descriptor_bytes_len(d: Seq<(u32, bool)>)
    ensures
        descriptor_bytes(d).len() == DESCRIPTOR_RECORD_LEN * d.len(),
    decreases d.len(),
{
    if d.len() > 0 {
        lemma_descriptor_bytes_len(d.drop_last());
    }
}

/// Record `i` of a descriptor payload sits at `8 * i`.
proof fn lemma_descriptor_bytes_at(d: Seq<(u32, bool)>, i: int)
    requires
        0 <= i < d.len(),
    ensures
        descriptor_bytes(d).subrange(DESCRIPTOR_RECORD_LEN * i, DESCRIPTOR_RECORD_LEN * i + 8)
            == descriptor_record_bytes(d[i].0, d[i].1),
    decreases d.len(),
{
    let rest = d.drop_last();
    lemma_descriptor_bytes_len(rest);
    let b = descriptor_bytes(d);
    let r = descriptor_record_bytes(d.last().0, d.last().1);
    assert(b == descriptor_bytes(rest) + r);
    if i == d.len() - 1 {
        assert(b.subrange(DESCRIPTOR_RECORD_LEN * i, DESCRIPTOR_RECORD_LEN * i + 8) =~= r);
    } else {
        lemma_descriptor_bytes_at(rest, i);
        assert(b.subrange(DESCRIPTOR_RECORD_LEN * i, DESCRIPTOR_RECORD_LEN * i + 8) =~= descriptor_bytes(
            rest,
        ).subrange(DESCRIPTOR_RECORD_LEN * i, DESCRIPTOR_RECORD_LEN * i + 8));
    }
}

/// The fields of descriptor record `i` read back as written.
proof fn lemma_descriptor_fields(d: Seq<(u32, bool)>, i: int)
    requires
        0 <= i < d.len(),
    ensures
        ({
            let b = descriptor_bytes(d);
            let at = DESCRIPTOR_RECORD_LEN * i;
            &&& le_u32(b, at) == d[i].0
            &&& b[at + 4] == (if d[i].1 { DESCRIPTOR_FLAG_NESTED } else { 0u8 })
            &&& b[at + 5] == 0 && b[at + 6] == 0 && b[at + 7] == 0
        }),
{
    lemma_descriptor_bytes_at(d, i);
    lemma_descriptor_bytes_len(d);
    let b = descriptor_bytes(d);
    let at = DESCRIPTOR_RECORD_LEN * i;
    let r = descriptor_record_bytes(d[i].0, d[i].1);
    let w = b.subrange(at, at + 8);
    assert(w == r);
    assert(r.subrange(0, 4) =~= u32_bytes(d[i].0));
    assert(b.subrange(at, at + 4) =~= w.subrange(0, 4));
    assert(b[at + 4] == w[4] && b[at + 5] == w[5] && b[at + 6] == w[6] && b[at + 7] == w[7]);
    lemma_le_u32_at(b, at, d[i].0);
}

proof fn lemma_descriptor_check_ok(d: Seq<(u32, bool)>, string_count: int, k: int)
    requires
        0 <= k < d.len(),
        forall|i: int| 0 <= i < d.len() ==> (#[trigger] d[i]).0 < string_count,
    ensures
        descriptor_record_check(descriptor_bytes(d), string_count, k) is Ok,
{
    let b = descriptor_bytes(d);
    lemma_descriptor_fields(d, k);
    assert(d[k].0 < string_count);
    let flags = b[DESCRIPTOR_RECORD_LEN * k + 4];
    assert((flags == 0u8 || flags == 1u8) ==> flags & !1u8 == 0) by (bit_vector);
    assert(all_zero(b, DESCRIPTOR_RECORD_LEN * k + 5, DESCRIPTOR_RECORD_LEN * k + 8));
}

/// What the descriptor builder writes, the descriptor reader accepts and
/// reads back as the interned `(name, nested)` pairs, names resolved in
/// `strings`, whenever every interned name indexes `strings`.
pub proof fn law_marker_descriptors_round_trip(descriptors: Seq<(u32, bool)>, strings: Seq<Seq<char>>)
    requires
        descriptors.len() <= MAX_MARKER_DESCRIPTORS,
        forall|i: int| 0 <= i < descriptors.len() ==> (#[trigger] descriptors[i]).0 < strings.len(),
    ensures
        spec_marker_descriptors(
            descriptor_bytes(descriptors),
            descriptors.len() as u32,
            strings.len() as int,
        ) is Ok,
        descriptor_entries(descriptor_bytes(descriptors), descriptors.len() as int, strings)
            == descriptors.map_values(|d: (u32, bool)| (strings[d.0 as int], d.1)),
{
    let b = descriptor_bytes(descriptors);
    let n = descriptors.len();
    lemma_descriptor_bytes_len(descriptors);
    let m = n as int;
    assert((8 * m) / 8 == m) by (nonlinear_arith);
    assert(record_total(b, DESCRIPTOR_RECORD_LEN as int) == n);
    let check = descriptor_checks(b, strings.len() as int);
    assert forall|k: int| 0 <= k < n implies #[trigger] check(k) is Ok by {
        lemma_descriptor_check_ok(descriptors, strings.len() as int, k);
    }
    lemma_checks_all(check, n);
    assert forall|k: int| 0 <= k < n implies #[trigger] descriptor_entries(b, n as int, strings)[k]
        == (strings[descriptors[k].0 as int], descriptors[k].1) by {
        lemma_descriptor_fields(descriptors, k);
        let flags = b[DESCRIPTOR_RECORD_LEN * k + 4];
        assert(flags == 1u8 ==> flags & 1u8 != 0) by (bit_vector);
        assert(flags == 0u8 ==> flags & 1u8 == 0) by (bit_vector);
    }
    assert(descriptor_entries(b, n as int, strings) =~= descriptors.map_values(
        |d: (u32, bool)| (strings[d.0 as int], d.1),
    ));
}

proof fn lemma_book_code_payload_len(entries: Seq<(u32, (u32, bool))>)
    ensures
        book_code_payload(entries).len() == BOOK_CODE_RECORD_LEN * entries.len(),
    decreases entries.len(),
{
    if entries.len() > 0 {
        lemma_book_code_payload_len(entries.drop_last());
    }
}

proof fn lemma_book_code_payload_at(entries: Seq<(u32, (u32, bool))>, i: int)
    requires
        0 <= i < entries.len(),
    ensures
        book_code_payload(entries).subrange(BOOK_CODE_RECORD_LEN * i, BOOK_CODE_RECORD_LEN * i + 16)
            == book_code_record_bytes(entries[i].0, entries[i].1.0, entries[i].1.1),
    decreases entries.len(),
{
    let rest = entries.drop_last();
    lemma_book_code_payload_len(rest);
    let b = book_code_payload(entries);
    let r = book_code_record_bytes(entries.last().0, entries.last().1.0, entries.last().1.1);
    assert(b == book_code_payload(rest) + r);
    if i == entries.len() - 1 {
        assert(b.subrange(BOOK_CODE_RECORD_LEN * i, BOOK_CODE_RECORD_LEN * i + 16) =~= r);
    } else {
        lemma_book_code_payload_at(rest, i);
        assert(b.subrange(BOOK_CODE_RECORD_LEN * i, BOOK_CODE_RECORD_LEN * i + 16) =~= book_code_payload(
            rest,
        ).subrange(BOOK_CODE_RECORD_LEN * i, BOOK_CODE_RECORD_LEN * i + 16));
    }
}

proof fn lemma_book_code_fields(entries: Seq<(u32, (u32, bool))>, i: int)
    requires
        0 <= i < entries.len(),
    ensures
        ({
            let b = book_code_payload(entries);
            let at = BOOK_CODE_RECORD_LEN * i;
            &&& le_u32(b, at) == entries[i].0
            &&& le_u32(b, at + 4) == entries[i].1.0
            &&& b[at + 8] == (if entries[i].1.1 { 1u8 } else { 0u8 })
            &&& all_zero(b, at + 9, at + 16)
        }),
{
    lemma_book_code_payload_at(entries, i);
    lemma_book_code_payload_len(entries);
    let b = book_code_payload(entries);
    let at = BOOK_CODE_RECORD_LEN * i;
    let r = book_code_record_bytes(entries[i].0, entries[i].1.0, entries[i].1.1);
    let w = b.subrange(at, at + 16);
    assert(w == r);
    assert(r.subrange(0, 4) =~= u32_bytes(entries[i].0));
    assert(r.subrange(4, 8) =~= u32_bytes(entries[i].1.0));
    assert(b.subrange(at, at + 4) =~= w.subrange(0, 4));
    assert(b.subrange(at + 4, at + 8) =~= w.subrange(4, 8));
    assert(b[at + 8] == w[8]);
    assert forall|k: int| at + 9 <= k < at + 16 implies #[trigger] b[k] == 0 by {
        assert(b[k] == w[k - at]);
    }
    lemma_le_u32_at(b, at, entries[i].0);
    lemma_le_u32_at(b, at + 4, entries[i].1.0);
}

proof fn lemma_book_code_check_ok(
    entries: Seq<(u32, (u32, bool))>,
    record_count: u32,
    string_count: int,
    k: int,
)
    requires
        0 <= k < entries.len(),
        forall|i: int| 0 <= i < entries.len() ==> #[trigger] entries[i].0 < record_count,
        forall|i: int| 0 <= i < entries.len() ==> (#[trigger] entries[i]).1.0 < string_count,
        forall|i: int, j: int| 0 <= i < j < entries.len() ==> entries[i].0 < entries[j].0,
    ensures
        book_code_record_check(book_code_payload(entries), record_count, string_count, k) is Ok,
{
    let b = book_code_payload(entries);
    lemma_book_code_fields(entries, k);
    if k > 0 {
        lemma_book_code_fields(entries, k - 1);
        assert(entries[k - 1].0 < entries[k].0);
    }
    assert(entries[k].0 < record_count);
    assert(entries[k].1.0 < string_count);
    let flags = b[BOOK_CODE_RECORD_LEN * k + 8];
    assert((flags == 0u8 || flags == 1u8) ==> flags & !1u8 == 0) by (bit_vector);
}

/// What the sparse builders write for book codes pushed in ascending
/// `token_idx` order below `record_count`, naming strings of `strings`, the
/// book-code reader accepts and reads back as `(token_idx, (code, is_valid))`
/// with each code resolved in `strings`.
pub proof fn law_book_code_records_round_trip(
    entries: Seq<(u32, (u32, bool))>,
    record_count: u32,
    strings: Seq<Seq<char>>,
)
    requires
        forall|i: int| 0 <= i < entries.len() ==> #[trigger] entries[i].0 < record_count,
        forall|i: int| 0 <= i < entries.len() ==> (#[trigger] entries[i]).1.0 < strings.len(),
        forall|i: int, j: int| 0 <= i < j < entries.len() ==> entries[i].0 < entries[j].0,
    ensures
        spec_book_code_records(book_code_payload(entries), record_count, strings.len() as int) is Ok,
        book_code_entries(book_code_payload(entries), strings) == entries.map_values(
            |e: (u32, (u32, bool))| (e.0, (strings[e.1.0 as int], e.1.1)),
        ),
{
    let b = book_code_payload(entries);
    let n = entries.len();
    lemma_book_code_payload_len(entries);
    let m = n as int;
    assert((16 * m) / 16 == m) by (nonlinear_arith);
    assert(record_total(b, BOOK_CODE_RECORD_LEN as int) == n);
    let check = book_code_checks(b, record_count, strings.len() as int);
    assert forall|k: int| 0 <= k < n implies #[trigger] check(k) is Ok by {
        lemma_book_code_check_ok(entries, record_count, strings.len() as int, k);
    }
    lemma_checks_all(check, n);
    assert forall|k: int| 0 <= k < n implies #[trigger] book_code_entries(b, strings)[k] == (
        entries[k].0,
        (strings[entries[k].1.0 as int], entries[k].1.1),
    ) by {
        lemma_book_code_fields(entries, k);
        let flags = b[BOOK_CODE_RECORD_LEN * k + 8];
        assert(flags == 1u8 ==> flags & 1u8 != 0) by (bit_vector);
        assert(flags == 0u8 ==> flags & 1u8 == 0) by (bit_vector);
    }
    assert(book_code_entries(b, strings) =~= entries.map_values(
        |e: (u32, (u32, bool))| (e.0, (strings[e.1.0 as int], e.1.1)),
    ));
}

} // verus!
