//! Token-section field ids. The id space is per section kind: the same integer
//! in a finding section names an unrelated field.

use vstd::prelude::*;

use super::FieldSpec;

verus! {

pub const KIND: u16 = 0;
pub const SPAN_START: u16 = 1;
pub const SPAN_END: u16 = 2;
pub const TOKEN_ID_INDEX: u16 = 3;
pub const SID_INDEX: u16 = 4;
pub const MARKER_DESCRIPTOR_INDEX: u16 = 5;
pub const NUMBER_RECORDS: u16 = 6;
pub const BOOK_CODE_RECORDS: u16 = 7;
pub const ATTRIBUTE_RECORDS: u16 = 8;
pub const TOKEN_ID_DICTIONARY: u16 = 9;
pub const STRING_DICTIONARY: u16 = 10;
pub const MARKER_DESCRIPTOR_DICTIONARY: u16 = 11;
/// The eight-byte packed-SID records that `SID_INDEX` points into; required
/// even when empty.
pub const PACKED_SID_DICTIONARY: u16 = 12;

/// Field requirements and any fixed uniform width, in stable id order.
pub open spec fn table() -> Seq<FieldSpec> {
    seq![
        FieldSpec { id: KIND, element_width: Some(1u8), required: true },
        FieldSpec { id: SPAN_START, element_width: Some(4u8), required: true },
        FieldSpec { id: SPAN_END, element_width: Some(4u8), required: true },
        FieldSpec { id: TOKEN_ID_INDEX, element_width: Some(4u8), required: false },
        FieldSpec { id: SID_INDEX, element_width: Some(2u8), required: true },
        FieldSpec { id: MARKER_DESCRIPTOR_INDEX, element_width: Some(2u8), required: true },
        FieldSpec { id: NUMBER_RECORDS, element_width: Some(16u8), required: false },
        FieldSpec { id: BOOK_CODE_RECORDS, element_width: Some(16u8), required: false },
        FieldSpec { id: ATTRIBUTE_RECORDS, element_width: None, required: false },
        FieldSpec { id: TOKEN_ID_DICTIONARY, element_width: None, required: false },
        FieldSpec { id: STRING_DICTIONARY, element_width: None, required: true },
        FieldSpec { id: MARKER_DESCRIPTOR_DICTIONARY, element_width: Some(8u8), required: true },
        FieldSpec { id: PACKED_SID_DICTIONARY, element_width: Some(8u8), required: true },
    ]
}

/// [`table`] as a vector.
pub fn table_vec() -> (out: Vec<FieldSpec>)
    ensures
        out@ == table(),
{
    let mut table: Vec<FieldSpec> = Vec::new();
    table.push(FieldSpec { id: KIND, element_width: Some(1u8), required: true });
    table.push(FieldSpec { id: SPAN_START, element_width: Some(4u8), required: true });
    table.push(FieldSpec { id: SPAN_END, element_width: Some(4u8), required: true });
    table.push(FieldSpec { id: TOKEN_ID_INDEX, element_width: Some(4u8), required: false });
    table.push(FieldSpec { id: SID_INDEX, element_width: Some(2u8), required: true });
    table.push(FieldSpec { id: MARKER_DESCRIPTOR_INDEX, element_width: Some(2u8), required: true });
    table.push(FieldSpec { id: NUMBER_RECORDS, element_width: Some(16u8), required: false });
    table.push(FieldSpec { id: BOOK_CODE_RECORDS, element_width: Some(16u8), required: false });
    table.push(FieldSpec { id: ATTRIBUTE_RECORDS, element_width: None, required: false });
    table.push(FieldSpec { id: TOKEN_ID_DICTIONARY, element_width: None, required: false });
    table.push(FieldSpec { id: STRING_DICTIONARY, element_width: None, required: true });
    table.push(FieldSpec { id: MARKER_DESCRIPTOR_DICTIONARY, element_width: Some(8u8), required: true });
    table.push(FieldSpec { id: PACKED_SID_DICTIONARY, element_width: Some(8u8), required: true });
    proof {
        assert(table@ =~= self::table());
    }
    table
}

/// Fields that exist only when ids are explicit; their presence alongside the
/// positional-ids flag is a contradiction.
pub open spec fn is_positional_id_exclusive(id: u16) -> bool {
    id == TOKEN_ID_INDEX || id == TOKEN_ID_DICTIONARY
}

} // verus!
