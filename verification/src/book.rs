//! Book identifiers: the USFM 3 three-character book codes.
//!
//! A [`BookId`] built by this module always names one entry of the fixed book
//! table below, so a value read off the wire is a legal code by construction.
//! The wire stores the three code bytes; decoding them goes through
//! [`BookId::from_bytes`], which refuses any triple outside the table.

use vstd::prelude::*;
use vstd::string::StringSliceAdditionalSpecFns;

verus! {

/// Number of book identifiers in the table.
pub const BOOK_COUNT: u8 = 123;

/// The three ASCII bytes of the book at `ordinal` in the table; three zero
/// bytes, which no book uses, past its end.
pub open spec fn book_code(ordinal: u8) -> Seq<u8> {
    match ordinal {
        0 => seq![71u8, 69u8, 78u8],
        1 => seq![69u8, 88u8, 79u8],
        2 => seq![76u8, 69u8, 86u8],
        3 => seq![78u8, 85u8, 77u8],
        4 => seq![68u8, 69u8, 85u8],
        5 => seq![74u8, 79u8, 83u8],
        6 => seq![74u8, 68u8, 71u8],
        7 => seq![82u8, 85u8, 84u8],
        8 => seq![49u8, 83u8, 65u8],
        9 => seq![50u8, 83u8, 65u8],
        10 => seq![49u8, 75u8, 73u8],
        11 => seq![50u8, 75u8, 73u8],
        12 => seq![49u8, 67u8, 72u8],
        13 => seq![50u8, 67u8, 72u8],
        14 => seq![69u8, 90u8, 82u8],
        15 => seq![78u8, 69u8, 72u8],
        16 => seq![69u8, 83u8, 84u8],
        17 => seq![74u8, 79u8, 66u8],
        18 => seq![80u8, 83u8, 65u8],
        19 => seq![80u8, 82u8, 79u8],
        20 => seq![69u8, 67u8, 67u8],
        21 => seq![83u8, 78u8, 71u8],
        22 => seq![73u8, 83u8, 65u8],
        23 => seq![74u8, 69u8, 82u8],
        24 => seq![76u8, 65u8, 77u8],
        25 => seq![69u8, 90u8, 75u8],
        26 => seq![68u8, 65u8, 78u8],
        27 => seq![72u8, 79u8, 83u8],
        28 => seq![74u8, 79u8, 76u8],
        29 => seq![65u8, 77u8, 79u8],
        30 => seq![79u8, 66u8, 65u8],
        31 => seq![74u8, 79u8, 78u8],
        32 => seq![77u8, 73u8, 67u8],
        33 => seq![78u8, 65u8, 77u8],
        34 => seq![72u8, 65u8, 66u8],
        35 => seq![90u8, 69u8, 80u8],
        36 => seq![72u8, 65u8, 71u8],
        37 => seq![90u8, 69u8, 67u8],
        38 => seq![77u8, 65u8, 76u8],
        39 => seq![77u8, 65u8, 84u8],
        40 => seq![77u8, 82u8, 75u8],
        41 => seq![76u8, 85u8, 75u8],
        42 => seq![74u8, 72u8, 78u8],
        43 => seq![65u8, 67u8, 84u8],
        44 => seq![82u8, 79u8, 77u8],
        45 => seq![49u8, 67u8, 79u8],
        46 => seq![50u8, 67u8, 79u8],
        47 => seq![71u8, 65u8, 76u8],
        48 => seq![69u8, 80u8, 72u8],
        49 => seq![80u8, 72u8, 80u8],
        50 => seq![67u8, 79u8, 76u8],
        51 => seq![49u8, 84u8, 72u8],
        52 => seq![50u8, 84u8, 72u8],
        53 => seq![49u8, 84u8, 73u8],
        54 => seq![50u8, 84u8, 73u8],
        55 => seq![84u8, 73u8, 84u8],
        56 => seq![80u8, 72u8, 77u8],
        57 => seq![72u8, 69u8, 66u8],
        58 => seq![74u8, 65u8, 83u8],
        59 => seq![49u8, 80u8, 69u8],
        60 => seq![50u8, 80u8, 69u8],
        61 => seq![49u8, 74u8, 78u8],
        62 => seq![50u8, 74u8, 78u8],
        63 => seq![51u8, 74u8, 78u8],
        64 => seq![74u8, 85u8, 68u8],
        65 => seq![82u8, 69u8, 86u8],
        66 => seq![84u8, 79u8, 66u8],
        67 => seq![74u8, 68u8, 84u8],
        68 => seq![69u8, 83u8, 71u8],
        69 => seq![87u8, 73u8, 83u8],
        70 => seq![83u8, 73u8, 82u8],
        71 => seq![66u8, 65u8, 82u8],
        72 => seq![76u8, 74u8, 69u8],
        73 => seq![83u8, 51u8, 89u8],
        74 => seq![83u8, 85u8, 83u8],
        75 => seq![66u8, 69u8, 76u8],
        76 => seq![49u8, 77u8, 65u8],
        77 => seq![50u8, 77u8, 65u8],
        78 => seq![51u8, 77u8, 65u8],
        79 => seq![52u8, 77u8, 65u8],
        80 => seq![49u8, 69u8, 83u8],
        81 => seq![50u8, 69u8, 83u8],
        82 => seq![77u8, 65u8, 78u8],
        83 => seq![80u8, 83u8, 50u8],
        84 => seq![79u8, 68u8, 65u8],
        85 => seq![80u8, 83u8, 83u8],
        86 => seq![74u8, 83u8, 65u8],
        87 => seq![74u8, 68u8, 66u8],
        88 => seq![84u8, 66u8, 83u8],
        89 => seq![83u8, 83u8, 84u8],
        90 => seq![68u8, 78u8, 84u8],
        91 => seq![66u8, 76u8, 84u8],
        92 => seq![51u8, 69u8, 83u8],
        93 => seq![69u8, 90u8, 65u8],
        94 => seq![53u8, 69u8, 90u8],
        95 => seq![54u8, 69u8, 90u8],
        96 => seq![68u8, 65u8, 71u8],
        97 => seq![80u8, 83u8, 51u8],
        98 => seq![50u8, 66u8, 65u8],
        99 => seq![76u8, 66u8, 65u8],
        100 => seq![74u8, 85u8, 66u8],
        101 => seq![69u8, 78u8, 79u8],
        102 => seq![49u8, 77u8, 81u8],
        103 => seq![50u8, 77u8, 81u8],
        104 => seq![51u8, 77u8, 81u8],
        105 => seq![82u8, 69u8, 80u8],
        106 => seq![52u8, 66u8, 65u8],
        107 => seq![76u8, 65u8, 79u8],
        108 => seq![70u8, 82u8, 84u8],
        109 => seq![66u8, 65u8, 75u8],
        110 => seq![79u8, 84u8, 72u8],
        111 => seq![73u8, 78u8, 84u8],
        112 => seq![67u8, 78u8, 67u8],
        113 => seq![71u8, 76u8, 79u8],
        114 => seq![84u8, 68u8, 88u8],
        115 => seq![78u8, 68u8, 88u8],
        116 => seq![88u8, 88u8, 65u8],
        117 => seq![88u8, 88u8, 66u8],
        118 => seq![88u8, 88u8, 67u8],
        119 => seq![88u8, 88u8, 68u8],
        120 => seq![88u8, 88u8, 69u8],
        121 => seq![88u8, 88u8, 70u8],
        122 => seq![88u8, 88u8, 71u8],
        _ => seq![0u8, 0u8, 0u8],
    }
}

/// The code of the book at `ordinal` as characters.
pub open spec fn book_chars(ordinal: u8) -> Seq<char> {
    match ordinal {
        0 => seq!['G', 'E', 'N'],
        1 => seq!['E', 'X', 'O'],
        2 => seq!['L', 'E', 'V'],
        3 => seq!['N', 'U', 'M'],
        4 => seq!['D', 'E', 'U'],
        5 => seq!['J', 'O', 'S'],
        6 => seq!['J', 'D', 'G'],
        7 => seq!['R', 'U', 'T'],
        8 => seq!['1', 'S', 'A'],
        9 => seq!['2', 'S', 'A'],
        10 => seq!['1', 'K', 'I'],
        11 => seq!['2', 'K', 'I'],
        12 => seq!['1', 'C', 'H'],
        13 => seq!['2', 'C', 'H'],
        14 => seq!['E', 'Z', 'R'],
        15 => seq!['N', 'E', 'H'],
        16 => seq!['E', 'S', 'T'],
        17 => seq!['J', 'O', 'B'],
        18 => seq!['P', 'S', 'A'],
        19 => seq!['P', 'R', 'O'],
        20 => seq!['E', 'C', 'C'],
        21 => seq!['S', 'N', 'G'],
        22 => seq!['I', 'S', 'A'],
        23 => seq!['J', 'E', 'R'],
        24 => seq!['L', 'A', 'M'],
        25 => seq!['E', 'Z', 'K'],
        26 => seq!['D', 'A', 'N'],
        27 => seq!['H', 'O', 'S'],
        28 => seq!['J', 'O', 'L'],
        29 => seq!['A', 'M', 'O'],
        30 => seq!['O', 'B', 'A'],
        31 => seq!['J', 'O', 'N'],
        32 => seq!['M', 'I', 'C'],
        33 => seq!['N', 'A', 'M'],
        34 => seq!['H', 'A', 'B'],
        35 => seq!['Z', 'E', 'P'],
        36 => seq!['H', 'A', 'G'],
        37 => seq!['Z', 'E', 'C'],
        38 => seq!['M', 'A', 'L'],
        39 => seq!['M', 'A', 'T'],
        40 => seq!['M', 'R', 'K'],
        41 => seq!['L', 'U', 'K'],
        42 => seq!['J', 'H', 'N'],
        43 => seq!['A', 'C', 'T'],
        44 => seq!['R', 'O', 'M'],
        45 => seq!['1', 'C', 'O'],
        46 => seq!['2', 'C', 'O'],
        47 => seq!['G', 'A', 'L'],
        48 => seq!['E', 'P', 'H'],
        49 => seq!['P', 'H', 'P'],
        50 => seq!['C', 'O', 'L'],
        51 => seq!['1', 'T', 'H'],
        52 => seq!['2', 'T', 'H'],
        53 => seq!['1', 'T', 'I'],
        54 => seq!['2', 'T', 'I'],
        55 => seq!['T', 'I', 'T'],
        56 => seq!['P', 'H', 'M'],
        57 => seq!['H', 'E', 'B'],
        58 => seq!['J', 'A', 'S'],
        59 => seq!['1', 'P', 'E'],
        60 => seq!['2', 'P', 'E'],
        61 => seq!['1', 'J', 'N'],
        62 => seq!['2', 'J', 'N'],
        63 => seq!['3', 'J', 'N'],
        64 => seq!['J', 'U', 'D'],
        65 => seq!['R', 'E', 'V'],
        66 => seq!['T', 'O', 'B'],
        67 => seq!['J', 'D', 'T'],
        68 => seq!['E', 'S', 'G'],
        69 => seq!['W', 'I', 'S'],
        70 => seq!['S', 'I', 'R'],
        71 => seq!['B', 'A', 'R'],
        72 => seq!['L', 'J', 'E'],
        73 => seq!['S', '3', 'Y'],
        74 => seq!['S', 'U', 'S'],
        75 => seq!['B', 'E', 'L'],
        76 => seq!['1', 'M', 'A'],
        77 => seq!['2', 'M', 'A'],
        78 => seq!['3', 'M', 'A'],
        79 => seq!['4', 'M', 'A'],
        80 => seq!['1', 'E', 'S'],
        81 => seq!['2', 'E', 'S'],
        82 => seq!['M', 'A', 'N'],
        83 => seq!['P', 'S', '2'],
        84 => seq!['O', 'D', 'A'],
        85 => seq!['P', 'S', 'S'],
        86 => seq!['J', 'S', 'A'],
        87 => seq!['J', 'D', 'B'],
        88 => seq!['T', 'B', 'S'],
        89 => seq!['S', 'S', 'T'],
        90 => seq!['D', 'N', 'T'],
        91 => seq!['B', 'L', 'T'],
        92 => seq!['3', 'E', 'S'],
        93 => seq!['E', 'Z', 'A'],
        94 => seq!['5', 'E', 'Z'],
        95 => seq!['6', 'E', 'Z'],
        96 => seq!['D', 'A', 'G'],
        97 => seq!['P', 'S', '3'],
        98 => seq!['2', 'B', 'A'],
        99 => seq!['L', 'B', 'A'],
        100 => seq!['J', 'U', 'B'],
        101 => seq!['E', 'N', 'O'],
        102 => seq!['1', 'M', 'Q'],
        103 => seq!['2', 'M', 'Q'],
        104 => seq!['3', 'M', 'Q'],
        105 => seq!['R', 'E', 'P'],
        106 => seq!['4', 'B', 'A'],
        107 => seq!['L', 'A', 'O'],
        108 => seq!['F', 'R', 'T'],
        109 => seq!['B', 'A', 'K'],
        110 => seq!['O', 'T', 'H'],
        111 => seq!['I', 'N', 'T'],
        112 => seq!['C', 'N', 'C'],
        113 => seq!['G', 'L', 'O'],
        114 => seq!['T', 'D', 'X'],
        115 => seq!['N', 'D', 'X'],
        116 => seq!['X', 'X', 'A'],
        117 => seq!['X', 'X', 'B'],
        118 => seq!['X', 'X', 'C'],
        119 => seq!['X', 'X', 'D'],
        120 => seq!['X', 'X', 'E'],
        121 => seq!['X', 'X', 'F'],
        122 => seq!['X', 'X', 'G'],
        _ => seq![],
    }
}

/// True when `code` is one of the book codes in the table.
pub open spec fn is_book_code(code: Seq<u8>) -> bool {
    exists|ordinal: u8| ordinal < BOOK_COUNT && #[trigger] book_code(ordinal) == code
}

/// A book identifier.
#[derive(Debug, Clone, Copy, PartialEq, Eq, PartialOrd, Ord, Hash, Structural)]
pub struct BookId {
    ordinal: u8,
}

impl BookId {
    /// Position of this book in the table.
    pub closed spec fn spec_ordinal(self) -> u8 {
        self.ordinal
    }

    /// True when this identifier names an entry of the table; every value the
    /// constructors of this module return does.
    pub open spec fn is_valid(self) -> bool {
        self.spec_ordinal() < BOOK_COUNT
    }

    /// The three code bytes of this book.
    pub open spec fn code(self) -> Seq<u8> {
        book_code(self.spec_ordinal())
    }

    /// A valid identifier's code is a table code, and the code determines the
    /// identifier.
    pub proof fn lemma_code(self, other: BookId)
        requires
            self.is_valid(),
        ensures
            self.code().len() == 3,
            is_book_code(self.code()),
            other.code() == self.code() ==> other == self,
    {
        if other.code() == self.code() {
            lemma_table_injective(self.ordinal, other.ordinal);
        }
    }

    /// A book's code is three ASCII bytes, so it is well-formed UTF-8.
    pub proof fn lemma_code_ascii(self)
        requires
            self.is_valid(),
        ensures
            vstd::utf8::valid_utf8(self.code()),
    {
        let c = self.code();
        assert(c.len() == 3 && c[0] <= 0x7f && c[1] <= 0x7f && c[2] <= 0x7f);
        assert(vstd::utf8::valid_utf8(c.subrange(0, 0))) by {
            assert(c.subrange(0, 0).len() == 0);
        }
        vstd::utf8::partial_valid_utf8_extend_ascii_block(c, 0, 3);
        assert(c.subrange(0, 3) =~= c);
    }

    /// The ordinal determines the identifier.
    pub proof fn lemma_ordinal(self, other: BookId)
        ensures
            self.spec_ordinal() == other.spec_ordinal() ==> self == other,
    {
    }

    /// Position of this book in the table, which is also the order books sort
    /// in.
    pub fn ordinal(&self) -> (ordinal: u8)
        ensures
            ordinal == self.spec_ordinal(),
    {
        self.ordinal
    }

    /// The book's three code bytes.
    pub fn as_bytes(&self) -> (code: [u8; 3])
        ensures
            code@ == self.code(),
    {
        code_bytes(self.ordinal)
    }

    /// The book's code as text.
    pub fn as_str(&self) -> (code: &'static str)
        ensures
            code@ == book_chars(self.spec_ordinal()),
    {
        let code = match self.ordinal {
            0 => "GEN",
            1 => "EXO",
            2 => "LEV",
            3 => "NUM",
            4 => "DEU",
            5 => "JOS",
            6 => "JDG",
            7 => "RUT",
            8 => "1SA",
            9 => "2SA",
            10 => "1KI",
            11 => "2KI",
            12 => "1CH",
            13 => "2CH",
            14 => "EZR",
            15 => "NEH",
            16 => "EST",
            17 => "JOB",
            18 => "PSA",
            19 => "PRO",
            20 => "ECC",
            21 => "SNG",
            22 => "ISA",
            23 => "JER",
            24 => "LAM",
            25 => "EZK",
            26 => "DAN",
            27 => "HOS",
            28 => "JOL",
            29 => "AMO",
            30 => "OBA",
            31 => "JON",
            32 => "MIC",
            33 => "NAM",
            34 => "HAB",
            35 => "ZEP",
            36 => "HAG",
            37 => "ZEC",
            38 => "MAL",
            39 => "MAT",
            40 => "MRK",
            41 => "LUK",
            42 => "JHN",
            43 => "ACT",
            44 => "ROM",
            45 => "1CO",
            46 => "2CO",
            47 => "GAL",
            48 => "EPH",
            49 => "PHP",
            50 => "COL",
            51 => "1TH",
            52 => "2TH",
            53 => "1TI",
            54 => "2TI",
            55 => "TIT",
            56 => "PHM",
            57 => "HEB",
            58 => "JAS",
            59 => "1PE",
            60 => "2PE",
            61 => "1JN",
            62 => "2JN",
            63 => "3JN",
            64 => "JUD",
            65 => "REV",
            66 => "TOB",
            67 => "JDT",
            68 => "ESG",
            69 => "WIS",
            70 => "SIR",
            71 => "BAR",
            72 => "LJE",
            73 => "S3Y",
            74 => "SUS",
            75 => "BEL",
            76 => "1MA",
            77 => "2MA",
            78 => "3MA",
            79 => "4MA",
            80 => "1ES",
            81 => "2ES",
            82 => "MAN",
            83 => "PS2",
            84 => "ODA",
            85 => "PSS",
            86 => "JSA",
            87 => "JDB",
            88 => "TBS",
            89 => "SST",
            90 => "DNT",
            91 => "BLT",
            92 => "3ES",
            93 => "EZA",
            94 => "5EZ",
            95 => "6EZ",
            96 => "DAG",
            97 => "PS3",
            98 => "2BA",
            99 => "LBA",
            100 => "JUB",
            101 => "ENO",
            102 => "1MQ",
            103 => "2MQ",
            104 => "3MQ",
            105 => "REP",
            106 => "4BA",
            107 => "LAO",
            108 => "FRT",
            109 => "BAK",
            110 => "OTH",
            111 => "INT",
            112 => "CNC",
            113 => "GLO",
            114 => "TDX",
            115 => "NDX",
            116 => "XXA",
            117 => "XXB",
            118 => "XXC",
            119 => "XXD",
            120 => "XXE",
            121 => "XXF",
            122 => "XXG",
            _ => "",
        };
        proof {
            reveal_strlit("");
            reveal_strlit("GEN");
            reveal_strlit("EXO");
            reveal_strlit("LEV");
            reveal_strlit("NUM");
            reveal_strlit("DEU");
            reveal_strlit("JOS");
            reveal_strlit("JDG");
            reveal_strlit("RUT");
            reveal_strlit("1SA");
            reveal_strlit("2SA");
            reveal_strlit("1KI");
            reveal_strlit("2KI");
            reveal_strlit("1CH");
            reveal_strlit("2CH");
            reveal_strlit("EZR");
            reveal_strlit("NEH");
            reveal_strlit("EST");
            reveal_strlit("JOB");
            reveal_strlit("PSA");
            reveal_strlit("PRO");
            reveal_strlit("ECC");
            reveal_strlit("SNG");
            reveal_strlit("ISA");
            reveal_strlit("JER");
            reveal_strlit("LAM");
            reveal_strlit("EZK");
            reveal_strlit("DAN");
            reveal_strlit("HOS");
            reveal_strlit("JOL");
            reveal_strlit("AMO");
            reveal_strlit("OBA");
            reveal_strlit("JON");
            reveal_strlit("MIC");
            reveal_strlit("NAM");
            reveal_strlit("HAB");
            reveal_strlit("ZEP");
            reveal_strlit("HAG");
            reveal_strlit("ZEC");
            reveal_strlit("MAL");
            reveal_strlit("MAT");
            reveal_strlit("MRK");
            reveal_strlit("LUK");
            reveal_strlit("JHN");
            reveal_strlit("ACT");
            reveal_strlit("ROM");
            reveal_strlit("1CO");
            reveal_strlit("2CO");
            reveal_strlit("GAL");
            reveal_strlit("EPH");
            reveal_strlit("PHP");
            reveal_strlit("COL");
            reveal_strlit("1TH");
            reveal_strlit("2TH");
            reveal_strlit("1TI");
            reveal_strlit("2TI");
            reveal_strlit("TIT");
            reveal_strlit("PHM");
            reveal_strlit("HEB");
            reveal_strlit("JAS");
            reveal_strlit("1PE");
            reveal_strlit("2PE");
            reveal_strlit("1JN");
            reveal_strlit("2JN");
            reveal_strlit("3JN");
            reveal_strlit("JUD");
            reveal_strlit("REV");
            reveal_strlit("TOB");
            reveal_strlit("JDT");
            reveal_strlit("ESG");
            reveal_strlit("WIS");
            reveal_strlit("SIR");
            reveal_strlit("BAR");
            reveal_strlit("LJE");
            reveal_strlit("S3Y");
            reveal_strlit("SUS");
            reveal_strlit("BEL");
            reveal_strlit("1MA");
            reveal_strlit("2MA");
            reveal_strlit("3MA");
            reveal_strlit("4MA");
            reveal_strlit("1ES");
            reveal_strlit("2ES");
            reveal_strlit("MAN");
            reveal_strlit("PS2");
            reveal_strlit("ODA");
            reveal_strlit("PSS");
            reveal_strlit("JSA");
            reveal_strlit("JDB");
            reveal_strlit("TBS");
            reveal_strlit("SST");
            reveal_strlit("DNT");
            reveal_strlit("BLT");
            reveal_strlit("3ES");
            reveal_strlit("EZA");
            reveal_strlit("5EZ");
            reveal_strlit("6EZ");
            reveal_strlit("DAG");
            reveal_strlit("PS3");
            reveal_strlit("2BA");
            reveal_strlit("LBA");
            reveal_strlit("JUB");
            reveal_strlit("ENO");
            reveal_strlit("1MQ");
            reveal_strlit("2MQ");
            reveal_strlit("3MQ");
            reveal_strlit("REP");
            reveal_strlit("4BA");
            reveal_strlit("LAO");
            reveal_strlit("FRT");
            reveal_strlit("BAK");
            reveal_strlit("OTH");
            reveal_strlit("INT");
            reveal_strlit("CNC");
            reveal_strlit("GLO");
            reveal_strlit("TDX");
            reveal_strlit("NDX");
            reveal_strlit("XXA");
            reveal_strlit("XXB");
            reveal_strlit("XXC");
            reveal_strlit("XXD");
            reveal_strlit("XXE");
            reveal_strlit("XXF");
            reveal_strlit("XXG");
        }
        code
    }

    /// The identifier of no book in the table.
    pub closed spec fn spec_unknown() -> BookId {
        BookId { ordinal: BOOK_COUNT }
    }

    /// The identifier of no book, named where a refusal concerns no book in
    /// particular.
    pub fn unknown() -> (book: BookId)
        ensures
            book == BookId::spec_unknown(),
            !book.is_valid(),
    {
        BookId { ordinal: BOOK_COUNT }
    }

    /// The identifier whose code is exactly `code`, if the table has one.
    pub fn from_bytes(code: &[u8]) -> (book: Option<BookId>)
        ensures
            book matches Some(b) ==> b.is_valid() && b.code() == code@,
            book is Some <==> is_book_code(code@),
    {
        let mut ordinal: u8 = 0;
        while ordinal < BOOK_COUNT
            invariant
                0 <= ordinal <= BOOK_COUNT,
                forall|o: u8| o < ordinal ==> #[trigger] book_code(o) != code@,
            decreases BOOK_COUNT - ordinal,
        {
            let candidate = code_bytes(ordinal);
            if code.len() == 3 && candidate[0] == code[0] && candidate[1] == code[1]
                && candidate[2] == code[2] {
                proof {
                    assert(candidate@ =~= code@);
                }
                return Some(BookId { ordinal });
            }
            proof {
                if code@ == book_code(ordinal) {
                    assert(code@[0] == candidate@[0]);
                    assert(code@[1] == candidate@[1]);
                    assert(code@[2] == candidate@[2]);
                }
            }
            ordinal = ordinal + 1;
        }
        None
    }

    /// The identifier spelled by `text`, if the table has one.
    pub fn from_str(text: &str) -> (book: Option<BookId>)
        ensures
            book matches Some(b) ==> b.is_valid() && b.code() == text.spec_bytes(),
            book is Some <==> is_book_code(text.spec_bytes()),
    {
        BookId::from_bytes(text.as_bytes())
    }
}

/// Distinct table positions carry distinct codes.
pub proof fn lemma_table_injective(a: u8, b: u8)
    requires
        a < BOOK_COUNT,
        book_code(a) == book_code(b),
    ensures
        a == b,
{
    assert(book_code(a)[0] == book_code(b)[0]);
    assert(book_code(a)[1] == book_code(b)[1]);
    assert(book_code(a)[2] == book_code(b)[2]);
}

fn code_bytes(ordinal: u8) -> (code: [u8; 3])
    ensures
        code@ == book_code(ordinal),
{
    let code = match ordinal {
        0 => [71u8, 69u8, 78u8],
        1 => [69u8, 88u8, 79u8],
        2 => [76u8, 69u8, 86u8],
        3 => [78u8, 85u8, 77u8],
        4 => [68u8, 69u8, 85u8],
        5 => [74u8, 79u8, 83u8],
        6 => [74u8, 68u8, 71u8],
        7 => [82u8, 85u8, 84u8],
        8 => [49u8, 83u8, 65u8],
        9 => [50u8, 83u8, 65u8],
        10 => [49u8, 75u8, 73u8],
        11 => [50u8, 75u8, 73u8],
        12 => [49u8, 67u8, 72u8],
        13 => [50u8, 67u8, 72u8],
        14 => [69u8, 90u8, 82u8],
        15 => [78u8, 69u8, 72u8],
        16 => [69u8, 83u8, 84u8],
        17 => [74u8, 79u8, 66u8],
        18 => [80u8, 83u8, 65u8],
        19 => [80u8, 82u8, 79u8],
        20 => [69u8, 67u8, 67u8],
        21 => [83u8, 78u8, 71u8],
        22 => [73u8, 83u8, 65u8],
        23 => [74u8, 69u8, 82u8],
        24 => [76u8, 65u8, 77u8],
        25 => [69u8, 90u8, 75u8],
        26 => [68u8, 65u8, 78u8],
        27 => [72u8, 79u8, 83u8],
        28 => [74u8, 79u8, 76u8],
        29 => [65u8, 77u8, 79u8],
        30 => [79u8, 66u8, 65u8],
        31 => [74u8, 79u8, 78u8],
        32 => [77u8, 73u8, 67u8],
        33 => [78u8, 65u8, 77u8],
        34 => [72u8, 65u8, 66u8],
        35 => [90u8, 69u8, 80u8],
        36 => [72u8, 65u8, 71u8],
        37 => [90u8, 69u8, 67u8],
        38 => [77u8, 65u8, 76u8],
        39 => [77u8, 65u8, 84u8],
        40 => [77u8, 82u8, 75u8],
        41 => [76u8, 85u8, 75u8],
        42 => [74u8, 72u8, 78u8],
        43 => [65u8, 67u8, 84u8],
        44 => [82u8, 79u8, 77u8],
        45 => [49u8, 67u8, 79u8],
        46 => [50u8, 67u8, 79u8],
        47 => [71u8, 65u8, 76u8],
        48 => [69u8, 80u8, 72u8],
        49 => [80u8, 72u8, 80u8],
        50 => [67u8, 79u8, 76u8],
        51 => [49u8, 84u8, 72u8],
        52 => [50u8, 84u8, 72u8],
        53 => [49u8, 84u8, 73u8],
        54 => [50u8, 84u8, 73u8],
        55 => [84u8, 73u8, 84u8],
        56 => [80u8, 72u8, 77u8],
        57 => [72u8, 69u8, 66u8],
        58 => [74u8, 65u8, 83u8],
        59 => [49u8, 80u8, 69u8],
        60 => [50u8, 80u8, 69u8],
        61 => [49u8, 74u8, 78u8],
        62 => [50u8, 74u8, 78u8],
        63 => [51u8, 74u8, 78u8],
        64 => [74u8, 85u8, 68u8],
        65 => [82u8, 69u8, 86u8],
        66 => [84u8, 79u8, 66u8],
        67 => [74u8, 68u8, 84u8],
        68 => [69u8, 83u8, 71u8],
        69 => [87u8, 73u8, 83u8],
        70 => [83u8, 73u8, 82u8],
        71 => [66u8, 65u8, 82u8],
        72 => [76u8, 74u8, 69u8],
        73 => [83u8, 51u8, 89u8],
        74 => [83u8, 85u8, 83u8],
        75 => [66u8, 69u8, 76u8],
        76 => [49u8, 77u8, 65u8],
        77 => [50u8, 77u8, 65u8],
        78 => [51u8, 77u8, 65u8],
        79 => [52u8, 77u8, 65u8],
        80 => [49u8, 69u8, 83u8],
        81 => [50u8, 69u8, 83u8],
        82 => [77u8, 65u8, 78u8],
        83 => [80u8, 83u8, 50u8],
        84 => [79u8, 68u8, 65u8],
        85 => [80u8, 83u8, 83u8],
        86 => [74u8, 83u8, 65u8],
        87 => [74u8, 68u8, 66u8],
        88 => [84u8, 66u8, 83u8],
        89 => [83u8, 83u8, 84u8],
        90 => [68u8, 78u8, 84u8],
        91 => [66u8, 76u8, 84u8],
        92 => [51u8, 69u8, 83u8],
        93 => [69u8, 90u8, 65u8],
        94 => [53u8, 69u8, 90u8],
        95 => [54u8, 69u8, 90u8],
        96 => [68u8, 65u8, 71u8],
        97 => [80u8, 83u8, 51u8],
        98 => [50u8, 66u8, 65u8],
        99 => [76u8, 66u8, 65u8],
        100 => [74u8, 85u8, 66u8],
        101 => [69u8, 78u8, 79u8],
        102 => [49u8, 77u8, 81u8],
        103 => [50u8, 77u8, 81u8],
        104 => [51u8, 77u8, 81u8],
        105 => [82u8, 69u8, 80u8],
        106 => [52u8, 66u8, 65u8],
        107 => [76u8, 65u8, 79u8],
        108 => [70u8, 82u8, 84u8],
        109 => [66u8, 65u8, 75u8],
        110 => [79u8, 84u8, 72u8],
        111 => [73u8, 78u8, 84u8],
        112 => [67u8, 78u8, 67u8],
        113 => [71u8, 76u8, 79u8],
        114 => [84u8, 68u8, 88u8],
        115 => [78u8, 68u8, 88u8],
        116 => [88u8, 88u8, 65u8],
        117 => [88u8, 88u8, 66u8],
        118 => [88u8, 88u8, 67u8],
        119 => [88u8, 88u8, 68u8],
        120 => [88u8, 88u8, 69u8],
        121 => [88u8, 88u8, 70u8],
        122 => [88u8, 88u8, 71u8],
        _ => [0u8, 0u8, 0u8],
    };
    proof {
        assert(code@ =~= book_code(ordinal));
    }
    code
}

} // verus!
