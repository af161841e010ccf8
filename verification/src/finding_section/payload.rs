//! The finding-section payload table: message parameters stored as rows of
//! key/value pairs over a string dictionary, addressed per finding.

use vstd::prelude::*;

use crate::container::SectionField;
use crate::error::DecodeError;
use crate::primitives::{le_u32, read_u32};
use crate::token_payload::{
    checks_upto, lemma_checks_each, lemma_checks_stop, record_total, spec_string_dictionary,
    StringDictionary,
};

verus! {

/// Length of a payload row: first pair and pair count.
pub const PAYLOAD_ROW_LEN: usize = 8;

/// Length of a payload pair: key and value string indices.
pub const PAYLOAD_PAIR_LEN: usize = 8;

/// The string-column sentinel for "absent".
pub const INDEX_NONE: u32 = 0xffff_ffff;

// ------------------------------------------------------------ key order

/// `a` sorts strictly before `b`, character by character.
pub open spec fn text_less(a: Seq<char>, b: Seq<char>) -> bool
    decreases a.len(),
{
    if a.len() == 0 {
        b.len() > 0
    } else if b.len() == 0 {
        false
    } else if a[0] != b[0] {
        (a[0] as u32) < (b[0] as u32)
    } else {
        text_less(a.drop_first(), b.drop_first())
    }
}

proof fn lemma_text_less_skip(a: Seq<char>, b: Seq<char>, i: int)
    requires
        0 <= i <= a.len(),
        i <= b.len(),
        a.take(i) == b.take(i),
    ensures
        text_less(a, b) == text_less(a.skip(i), b.skip(i)),
    decreases i,
{
    if i > 0 {
        assert(a[0] == a.take(i)[0] && b[0] == b.take(i)[0]);
        assert(a.drop_first().take(i - 1) =~= a.take(i).drop_first());
        assert(b.drop_first().take(i - 1) =~= b.take(i).drop_first());
        lemma_text_less_skip(a.drop_first(), b.drop_first(), i - 1);
        assert(a.drop_first().skip(i - 1) =~= a.skip(i));
        assert(b.drop_first().skip(i - 1) =~= b.skip(i));
    } else {
        assert(a.skip(0) =~= a);
        assert(b.skip(0) =~= b);
    }
}

/// Whether `a` sorts strictly before `b`.
pub fn str_less(a: &str, b: &str) -> (less: bool)
    ensures
        less == text_less(a@, b@),
{
    let n = a.unicode_len();
    let m = b.unicode_len();
    let mut i: usize = 0;
    while i < n && i < m
        invariant
            n == a@.len(),
            m == b@.len(),
            i <= n,
            i <= m,
            a@.take(i as int) == b@.take(i as int),
        decreases n - i,
    {
        let x = a.get_char(i);
        let y = b.get_char(i);
        if x != y {
            proof {
                lemma_text_less_skip(a@, b@, i as int);
                assert(a@.skip(i as int)[0] == x && b@.skip(i as int)[0] == y);
            }
            return (x as u32) < (y as u32);
        }
        proof {
            assert(a@.take(i + 1) =~= a@.take(i as int).push(x));
            assert(b@.take(i + 1) =~= b@.take(i as int).push(y));
        }
        i = i + 1;
    }
    proof {
        lemma_text_less_skip(a@, b@, i as int);
    }
    i == n && i < m
}

// ------------------------------------------------------------ payload table

/// First pair of payload row `i`.
pub open spec fn payload_first(rows: Seq<u8>, i: int) -> int {
    le_u32(rows, PAYLOAD_ROW_LEN * i) as int
}

/// Pair count of payload row `i`.
pub open spec fn payload_count(rows: Seq<u8>, i: int) -> int {
    le_u32(rows, PAYLOAD_ROW_LEN * i + 4) as int
}

/// Where the rows before row `i` end: rows are contiguous.
pub open spec fn payload_rows_end(rows: Seq<u8>, i: int) -> int {
    if i <= 0 {
        0
    } else {
        payload_first(rows, i - 1) + payload_count(rows, i - 1)
    }
}

/// Key index of pair `j`.
pub open spec fn pair_key(pairs: Seq<u8>, j: int) -> u32 {
    le_u32(pairs, PAYLOAD_PAIR_LEN * j)
}

/// Value index of pair `j`.
pub open spec fn pair_value(pairs: Seq<u8>, j: int) -> u32 {
    le_u32(pairs, PAYLOAD_PAIR_LEN * j + 4)
}

/// Pairs `from..to` name strings, keys strictly ascending.
pub open spec fn pairs_ok(pairs: Seq<u8>, strings: Seq<Seq<char>>, from: int, to: int) -> bool {
    &&& forall|j: int|
        from <= j < to ==> #[trigger] pair_key(pairs, j) < strings.len() && pair_value(pairs, j)
            < strings.len()
    &&& forall|j: int|
        from < j < to ==> text_less(
            strings[pair_key(pairs, j - 1) as int],
            strings[#[trigger] pair_key(pairs, j) as int],
        )
}

/// The checks of payload row `i` over `pair_count` pairs.
pub open spec fn payload_row_check(
    rows: Seq<u8>,
    pairs: Seq<u8>,
    strings: Seq<Seq<char>>,
    pair_count: int,
    i: int,
) -> Result<(), DecodeError> {
    let first = payload_first(rows, i);
    let end = first + payload_count(rows, i);
    if first != payload_rows_end(rows, i) {
        Err(DecodeError::InvalidSection)
    } else if end > u32::MAX {
        Err(DecodeError::OffsetOverflow)
    } else if end > pair_count {
        Err(DecodeError::InvalidSection)
    } else if !pairs_ok(pairs, strings, first, end) {
        Err(DecodeError::InvalidSection)
    } else {
        Ok(())
    }
}

pub open spec fn payload_row_checks(
    rows: Seq<u8>,
    pairs: Seq<u8>,
    strings: Seq<Seq<char>>,
    pair_count: int,
) -> spec_fn(int) -> Result<(), DecodeError> {
    |i: int| payload_row_check(rows, pairs, strings, pair_count, i)
}

/// Every per-finding payload index names one of `count` rows.
pub open spec fn payload_indices_ok(indices: Seq<u8>, count: u32) -> bool {
    forall|i: int| 0 <= i < record_total(indices, 4) ==> #[trigger] le_u32(indices, 4 * i) < count
}

/// What validating a payload table gives: its string dictionary decodes;
/// `count` rows partition the pairs that follow them contiguously; every pair
/// names strings, with strictly ascending keys per row; and every
/// per-finding index names a row.
pub open spec fn spec_payload_table(
    indices: Option<Seq<u8>>,
    strings_bytes: Seq<u8>,
    strings_count: u32,
    table: Seq<u8>,
    count: u32,
) -> Result<(), DecodeError> {
    let rows_len = PAYLOAD_ROW_LEN * count;
    let rows = table.subrange(0, rows_len);
    let pairs = table.subrange(rows_len, table.len() as int);
    let pair_count = record_total(pairs, PAYLOAD_PAIR_LEN as int);
    match spec_string_dictionary(strings_bytes, strings_count) {
        Err(e) => Err(e),
        Ok(strings) => if rows_len > usize::MAX {
            Err(DecodeError::OffsetOverflow)
        } else if rows_len > table.len() {
            Err(DecodeError::Truncated)
        } else if (pairs.len() as int) % (PAYLOAD_PAIR_LEN as int) != 0 {
            Err(DecodeError::InvalidSection)
        } else if pair_count > u32::MAX {
            Err(DecodeError::OffsetOverflow)
        } else {
            match checks_upto(payload_row_checks(rows, pairs, strings, pair_count), count as nat) {
                Err(e) => Err(e),
                Ok(_) => if payload_rows_end(rows, count as int) != pair_count {
                    Err(DecodeError::InvalidSection)
                } else if indices matches Some(ix) && !payload_indices_ok(ix, count) {
                    Err(DecodeError::InvalidSection)
                } else {
                    Ok(())
                },
            }
        },
    }
}

proof fn lemma_in_bounds(len: int, width: int, i: int)
    by (nonlinear_arith)
    requires
        width > 0,
        len >= 0,
        0 <= i < len / width,
    ensures
        0 <= width * i,
        width * i + width <= len,
{
    assert(width * (i + 1) <= width * (len / width));
}

fn check_pairs(pairs: &[u8], strings: &StringDictionary, from: u32, to: u32) -> (ok: bool)
    requires
        strings.wf(),
        from <= to <= record_total(pairs@, PAYLOAD_PAIR_LEN as int),
    ensures
        ok == pairs_ok(pairs@, strings@, from as int, to as int),
{
    let len = pairs.len();
    let mut previous: Option<&str> = None;
    let mut j: u32 = from;
    while j < to
        invariant
            strings.wf(),
            len == pairs@.len(),
            from <= j <= to <= record_total(pairs@, PAYLOAD_PAIR_LEN as int),
            pairs_ok(pairs@, strings@, from as int, j as int),
            j > from ==> (previous matches Some(p) && p@ == strings@[pair_key(pairs@, j - 1) as int]),
            j == from ==> previous is None,
        decreases to - j,
    {
        proof {
            lemma_in_bounds(len as int, PAYLOAD_PAIR_LEN as int, j as int);
        }
        let at = PAYLOAD_PAIR_LEN * (j as usize);
        let key = match strings.get(read_u32(pairs, at)) {
            Some(key) => key,
            None => {
                assert(!(pair_key(pairs@, j as int) < strings@.len()));
                return false;
            },
        };
        if strings.get(read_u32(pairs, at + 4)).is_none() {
            assert(!(pair_value(pairs@, j as int) < strings@.len()));
            assert(pair_key(pairs@, j as int) < strings@.len());
            return false;
        }
        if let Some(p) = previous {
            if !str_less(p, key) {
                assert(!text_less(
                    strings@[pair_key(pairs@, j - 1) as int],
                    strings@[pair_key(pairs@, j as int) as int],
                ));
                return false;
            }
        }
        previous = Some(key);
        j = j + 1;
    }
    true
}

/// The validated payload table.
#[derive(Debug, Clone, Copy)]
pub struct PayloadTable<'wire> {
    /// The per-finding payload column, when the section has one.
    indices: Option<&'wire [u8]>,
    strings: StringDictionary<'wire>,
    rows: &'wire [u8],
    pairs: &'wire [u8],
    count: u32,
}

/// The `(key, value)` texts of payload row `i`.
pub open spec fn payload_pairs(rows: Seq<u8>, pairs: Seq<u8>, strings: Seq<Seq<char>>, i: int) -> Seq<
    (Seq<char>, Seq<char>),
> {
    Seq::new(
        payload_count(rows, i) as nat,
        |k: int|
            (
                strings[pair_key(pairs, payload_first(rows, i) + k) as int],
                strings[pair_value(pairs, payload_first(rows, i) + k) as int],
            ),
    )
}

/// Pairs as texts.
pub open spec fn pair_texts(pairs: Seq<(&str, &str)>) -> Seq<(Seq<char>, Seq<char>)> {
    pairs.map_values(|p: (&str, &str)| (p.0@, p.1@))
}

impl<'wire> PayloadTable<'wire> {
    pub closed spec fn wf(&self) -> bool {
        &&& self.strings.wf()
        &&& self.rows@.len() == PAYLOAD_ROW_LEN * self.count
        &&& record_total(self.pairs@, PAYLOAD_PAIR_LEN as int) <= u32::MAX
        &&& forall|i: int|
            0 <= i < self.count ==> #[trigger] payload_first(self.rows@, i) + payload_count(
                self.rows@,
                i,
            ) <= record_total(self.pairs@, PAYLOAD_PAIR_LEN as int)
        &&& forall|i: int|
            0 <= i < self.count ==> pairs_ok(
                self.pairs@,
                self.strings@,
                #[trigger] payload_first(self.rows@, i),
                payload_first(self.rows@, i) + payload_count(self.rows@, i),
            )
    }

    /// The per-finding payload column.
    pub closed spec fn spec_indices(&self) -> Option<Seq<u8>> {
        match self.indices {
            Some(ix) => Some(ix@),
            None => None,
        }
    }

    /// The strings of the dictionary.
    pub closed spec fn spec_strings(&self) -> Seq<Seq<char>> {
        self.strings@
    }

    /// The rows, as `(key, value)` texts.
    pub closed spec fn spec_rows(&self) -> Seq<Seq<(Seq<char>, Seq<char>)>> {
        Seq::new(self.count as nat, |i: int| payload_pairs(self.rows@, self.pairs@, self.strings@, i))
    }

    /// Validates the payload table of `table.count` rows, its string
    /// dictionary, and the per-finding column when the section has one.
    pub fn from_fields(
        indices: Option<&'wire [u8]>,
        strings: SectionField<'wire>,
        table: SectionField<'wire>,
    ) -> (payload: Result<Self, DecodeError>)
        ensures
            match payload {
                Ok(p) => p.wf() && spec_payload_table(
                    match indices {
                        Some(ix) => Some(ix@),
                        None => None,
                    },
                    strings.bytes@,
                    strings.count,
                    table.bytes@,
                    table.count,
                ) is Ok && p.spec_indices() == (match indices {
                    Some(ix) => Some(ix@),
                    None => None,
                }) && spec_string_dictionary(strings.bytes@, strings.count) == Ok::<
                    Seq<Seq<char>>,
                    DecodeError,
                >(p.spec_strings()) && p.spec_rows() == Seq::new(
                    table.count as nat,
                    |i: int|
                        payload_pairs(
                            table.bytes@.subrange(0, PAYLOAD_ROW_LEN * table.count),
                            table.bytes@.subrange(
                                PAYLOAD_ROW_LEN * table.count,
                                table.bytes@.len() as int,
                            ),
                            p.spec_strings(),
                            i,
                        ),
                ),
                Err(e) => spec_payload_table(
                    match indices {
                        Some(ix) => Some(ix@),
                        None => None,
                    },
                    strings.bytes@,
                    strings.count,
                    table.bytes@,
                    table.count,
                ) == Err::<(), DecodeError>(e),
            },
    {
        let dictionary = match StringDictionary::from_field(&strings) {
            Ok(dictionary) => dictionary,
            Err(e) => return Err(e),
        };
        let bytes = table.bytes;
        let wide = (table.count as u64) * (PAYLOAD_ROW_LEN as u64);
        if wide > usize::MAX as u64 {
            return Err(DecodeError::OffsetOverflow);
        }
        let rows_len = wide as usize;
        if rows_len > bytes.len() {
            return Err(DecodeError::Truncated);
        }
        let rows = vstd::slice::slice_subrange(bytes, 0, rows_len);
        let pairs = vstd::slice::slice_subrange(bytes, rows_len, bytes.len());
        if pairs.len() % PAYLOAD_PAIR_LEN != 0 {
            return Err(DecodeError::InvalidSection);
        }
        let pair_total = pairs.len() / PAYLOAD_PAIR_LEN;
        if pair_total > u32::MAX as usize {
            return Err(DecodeError::OffsetOverflow);
        }
        let pair_count = pair_total as u32;
        let n = table.count;
        let ghost check = payload_row_checks(rows@, pairs@, dictionary@, pair_count as int);
        let mut expected_first: u32 = 0;
        let mut i: u32 = 0;
        while i < n
            invariant
                dictionary.wf(),
                spec_string_dictionary(strings.bytes@, strings.count) == Ok::<
                    Seq<Seq<char>>,
                    DecodeError,
                >(dictionary@),
                n == table.count,
                rows@ == table.bytes@.subrange(0, PAYLOAD_ROW_LEN * table.count),
                pairs@ == table.bytes@.subrange(PAYLOAD_ROW_LEN * table.count, table.bytes@.len() as int),
                rows@.len() == PAYLOAD_ROW_LEN * n,
                PAYLOAD_ROW_LEN * table.count <= table.bytes@.len(),
                table.bytes@.len() <= usize::MAX,
                (pairs@.len() as int) % (PAYLOAD_PAIR_LEN as int) == 0,
                pair_count == record_total(pairs@, PAYLOAD_PAIR_LEN as int),
                check == payload_row_checks(rows@, pairs@, dictionary@, pair_count as int),
                i <= n,
                expected_first == payload_rows_end(rows@, i as int),
                checks_upto(check, i as nat) is Ok,
            decreases n - i,
        {
            let at = PAYLOAD_ROW_LEN * (i as usize);
            let first = read_u32(rows, at);
            let count = read_u32(rows, at + 4);
            proof {
                assert(check(i as int) == payload_row_check(rows@, pairs@, dictionary@, pair_count as int, i as int));
            }
            if first != expected_first {
                proof {
                    lemma_checks_stop(check, i as nat, n as nat);
                }
                return Err(DecodeError::InvalidSection);
            }
            if count > u32::MAX - first {
                proof {
                    lemma_checks_stop(check, i as nat, n as nat);
                }
                return Err(DecodeError::OffsetOverflow);
            }
            let end = first + count;
            if end > pair_count {
                proof {
                    lemma_checks_stop(check, i as nat, n as nat);
                }
                return Err(DecodeError::InvalidSection);
            }
            if !check_pairs(pairs, &dictionary, first, end) {
                proof {
                    lemma_checks_stop(check, i as nat, n as nat);
                }
                return Err(DecodeError::InvalidSection);
            }
            expected_first = end;
            i = i + 1;
        }
        if expected_first != pair_count {
            return Err(DecodeError::InvalidSection);
        }
        if let Some(ix) = indices {
            if !check_payload_indices(ix, n) {
                return Err(DecodeError::InvalidSection);
            }
        }
        let payload = PayloadTable { indices, strings: dictionary, rows, pairs, count: n };
        proof {
            assert forall|r: int| 0 <= r < n implies #[trigger] payload_first(rows@, r) + payload_count(
                rows@,
                r,
            ) <= record_total(pairs@, PAYLOAD_PAIR_LEN as int) && pairs_ok(
                pairs@,
                dictionary@,
                payload_first(rows@, r),
                payload_first(rows@, r) + payload_count(rows@, r),
            ) by {
                lemma_checks_each(check, n as nat, r);
                assert(check(r) == payload_row_check(rows@, pairs@, dictionary@, pair_count as int, r));
            }
            assert(payload.spec_rows() =~= Seq::new(
                table.count as nat,
                |i: int| payload_pairs(rows@, pairs@, dictionary@, i),
            ));
        }
        Ok(payload)
    }

    /// The `(key, value)` pairs of payload row `payload_index`.
    pub fn pairs_at(&self, payload_index: u32) -> (pairs: Result<Vec<(&'wire str, &'wire str)>, DecodeError>)
        requires
            self.wf(),
        ensures
            payload_index >= self.spec_rows().len() ==> pairs == Err::<
                Vec<(&'wire str, &'wire str)>,
                DecodeError,
            >(DecodeError::InvalidSection),
            payload_index < self.spec_rows().len() ==> (pairs matches Ok(ps) && pair_texts(ps@)
                == self.spec_rows()[payload_index as int]),
    {
        if payload_index >= self.count {
            return Err(DecodeError::InvalidSection);
        }
        let rlen = self.rows.len();
        let at = PAYLOAD_ROW_LEN * (payload_index as usize);
        let first = read_u32(self.rows, at);
        let count = read_u32(self.rows, at + 4);
        proof {
            assert(payload_first(self.rows@, payload_index as int) + payload_count(
                self.rows@,
                payload_index as int,
            ) <= record_total(self.pairs@, PAYLOAD_PAIR_LEN as int));
            assert(pairs_ok(
                self.pairs@,
                self.strings@,
                payload_first(self.rows@, payload_index as int),
                payload_first(self.rows@, payload_index as int) + payload_count(
                    self.rows@,
                    payload_index as int,
                ),
            ));
        }
        let len = self.pairs.len();
        let mut out: Vec<(&'wire str, &'wire str)> = Vec::new();
        let mut k: u32 = 0;
        while k < count
            invariant
                self.wf(),
                len == self.pairs@.len(),
                payload_index < self.count,
                first == payload_first(self.rows@, payload_index as int),
                count == payload_count(self.rows@, payload_index as int),
                first + count <= record_total(self.pairs@, PAYLOAD_PAIR_LEN as int),
                record_total(self.pairs@, PAYLOAD_PAIR_LEN as int) <= u32::MAX,
                pairs_ok(self.pairs@, self.strings@, first as int, first + count),
                k <= count,
                out@.len() == k,
                forall|m: int|
                    0 <= m < k ==> (#[trigger] out@[m]).0@ == self.strings@[pair_key(
                        self.pairs@,
                        first + m,
                    ) as int] && out@[m].1@ == self.strings@[pair_value(self.pairs@, first + m) as int],
            decreases count - k,
        {
            let pair = first + k;
            proof {
                lemma_in_bounds(len as int, PAYLOAD_PAIR_LEN as int, pair as int);
                assert(pair_key(self.pairs@, pair as int) < self.strings@.len());
            }
            let at = PAYLOAD_PAIR_LEN * (pair as usize);
            let key = match self.strings.get(read_u32(self.pairs, at)) {
                Some(key) => key,
                None => return Err(DecodeError::InvalidSection),
            };
            let value = match self.strings.get(read_u32(self.pairs, at + 4)) {
                Some(value) => value,
                None => return Err(DecodeError::InvalidSection),
            };
            out.push((key, value));
            k = k + 1;
        }
        proof {
            assert(pair_texts(out@) =~= self.spec_rows()[payload_index as int]);
        }
        Ok(out)
    }

    /// The parameters of finding `row`, through the per-finding column.
    pub fn params(&self, row: u32) -> (pairs: Result<Vec<(&'wire str, &'wire str)>, DecodeError>)
        requires
            self.wf(),
        ensures
            match (self.spec_indices(), pairs) {
                (None, r) => r == Err::<Vec<(&'wire str, &'wire str)>, DecodeError>(
                    DecodeError::InvalidSection,
                ),
                (Some(ix), r) => match finding_payload_index(ix, row) {
                    None => r == Err::<Vec<(&'wire str, &'wire str)>, DecodeError>(
                        DecodeError::Truncated,
                    ),
                    Some(p) => if p >= self.spec_rows().len() {
                        r == Err::<Vec<(&'wire str, &'wire str)>, DecodeError>(
                            DecodeError::InvalidSection,
                        )
                    } else {
                        r matches Ok(ps) && pair_texts(ps@) == self.spec_rows()[p as int]
                    },
                },
            },
    {
        let indices = match self.indices {
            Some(indices) => indices,
            None => return Err(DecodeError::InvalidSection),
        };
        match finding_index(indices, row) {
            Some(p) => self.pairs_at(p),
            None => Err(DecodeError::Truncated),
        }
    }

    /// Whether finding `row` points at payload row zero, the filler of a
    /// finding without parameters.
    pub fn is_zero_filler(&self, row: u32) -> (zero: Result<bool, DecodeError>)
        ensures
            match self.spec_indices() {
                None => zero == Err::<bool, DecodeError>(DecodeError::InvalidSection),
                Some(ix) => match finding_payload_index(ix, row) {
                    None => zero == Err::<bool, DecodeError>(DecodeError::Truncated),
                    Some(p) => zero == Ok::<bool, DecodeError>(p == 0),
                },
            },
    {
        let indices = match self.indices {
            Some(indices) => indices,
            None => return Err(DecodeError::InvalidSection),
        };
        match finding_index(indices, row) {
            Some(p) => Ok(p == 0),
            None => Err(DecodeError::Truncated),
        }
    }

    /// The string at `index`.
    pub fn string(&self, index: u32) -> (text: Result<&'wire str, DecodeError>)
        requires
            self.wf(),
        ensures
            index < self.spec_strings().len() ==> (text matches Ok(t) && t@ == self.spec_strings()[index as int]),
            index >= self.spec_strings().len() ==> text == Err::<&str, DecodeError>(DecodeError::InvalidSection),
    {
        self.strings.require(index)
    }

    /// A patch-row string column, where `u32::MAX` means the field is absent.
    pub fn optional_string(&self, index: u32) -> (text: Result<Option<&'wire str>, DecodeError>)
        requires
            self.wf(),
        ensures
            index == INDEX_NONE ==> text == Ok::<Option<&str>, DecodeError>(None),
            index != INDEX_NONE && index < self.spec_strings().len() ==> (text matches Ok(Some(t))
                && t@ == self.spec_strings()[index as int]),
            index != INDEX_NONE && index >= self.spec_strings().len() ==> text == Err::<
                Option<&str>,
                DecodeError,
            >(DecodeError::InvalidSection),
    {
        if index == INDEX_NONE {
            return Ok(None);
        }
        match self.string(index) {
            Ok(text) => Ok(Some(text)),
            Err(e) => Err(e),
        }
    }
}

fn check_payload_indices(ix: &[u8], n: u32) -> (ok: bool)
    ensures
        ok == payload_indices_ok(ix@, n),
{
    let ilen = ix.len();
    let m = ilen / 4;
    let mut k: usize = 0;
    while k < m
        invariant
            ilen == ix@.len(),
            m == record_total(ix@, 4),
            k <= m,
            forall|j: int| 0 <= j < k ==> #[trigger] le_u32(ix@, 4 * j) < n,
        decreases m - k,
    {
        if read_u32(ix, 4 * k) >= n {
            return false;
        }
        k = k + 1;
    }
    true
}

/// The payload index stored for finding `row`, when the column reaches it.
pub open spec fn finding_payload_index(indices: Seq<u8>, row: u32) -> Option<u32> {
    if 4 * row + 4 <= indices.len() {
        Some(le_u32(indices, 4 * row))
    } else {
        None
    }
}

fn finding_index(indices: &[u8], row: u32) -> (index: Option<u32>)
    ensures
        index == finding_payload_index(indices@, row),
{
    let len = indices.len();
    if (row as u64) * 4 + 4 > len as u64 {
        return None;
    }
    Some(read_u32(indices, 4 * (row as usize)))
}

} // verus!
