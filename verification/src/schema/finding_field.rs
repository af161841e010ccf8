//! Finding-section field ids.

use vstd::prelude::*;

use super::FieldSpec;

verus! {

pub const COMMON_ROW: u16 = 0;
/// 16-byte record `{token_idx, offset, len, reserved}`; `reserved` is zero.
pub const RELATED_TOKEN_IDX: u16 = 1;
pub const OVERFLOW_SPAN: u16 = 2;
pub const MESSAGE_PAYLOAD_IDX: u16 = 3;
/// Tagged 8-byte marker reference `{tag, span_len, ordinal, span_offset}`.
pub const MARKER_REF: u16 = 4;
pub const PATCH_ID: u16 = 5;
pub const PATCH_TABLE: u16 = 6;
/// UTF-8 dictionary for message parameter keys and values.
pub const STRING_DICTIONARY: u16 = 7;
/// Message payload rows followed by their key/value pairs.
pub const MESSAGE_PAYLOAD_TABLE: u16 = 8;

/// Field requirements and any fixed uniform width, in stable id order.
pub open spec fn table() -> Seq<FieldSpec> {
    seq![
        FieldSpec { id: COMMON_ROW, element_width: Some(16u8), required: true },
        FieldSpec { id: RELATED_TOKEN_IDX, element_width: Some(16u8), required: false },
        FieldSpec { id: OVERFLOW_SPAN, element_width: Some(8u8), required: false },
        FieldSpec { id: MESSAGE_PAYLOAD_IDX, element_width: Some(4u8), required: false },
        FieldSpec { id: MARKER_REF, element_width: Some(8u8), required: false },
        FieldSpec { id: PATCH_ID, element_width: Some(4u8), required: false },
        FieldSpec { id: PATCH_TABLE, element_width: None, required: false },
        FieldSpec { id: STRING_DICTIONARY, element_width: None, required: false },
        FieldSpec { id: MESSAGE_PAYLOAD_TABLE, element_width: None, required: false },
    ]
}

/// [`table`] as a vector.
pub fn table_vec() -> (out: Vec<FieldSpec>)
    ensures
        out@ == table(),
{
    let mut table: Vec<FieldSpec> = Vec::new();
    table.push(FieldSpec { id: COMMON_ROW, element_width: Some(16u8), required: true });
    table.push(FieldSpec { id: RELATED_TOKEN_IDX, element_width: Some(16u8), required: false });
    table.push(FieldSpec { id: OVERFLOW_SPAN, element_width: Some(8u8), required: false });
    table.push(FieldSpec { id: MESSAGE_PAYLOAD_IDX, element_width: Some(4u8), required: false });
    table.push(FieldSpec { id: MARKER_REF, element_width: Some(8u8), required: false });
    table.push(FieldSpec { id: PATCH_ID, element_width: Some(4u8), required: false });
    table.push(FieldSpec { id: PATCH_TABLE, element_width: None, required: false });
    table.push(FieldSpec { id: STRING_DICTIONARY, element_width: None, required: false });
    table.push(FieldSpec { id: MESSAGE_PAYLOAD_TABLE, element_width: None, required: false });
    proof {
        assert(table@ =~= self::table());
    }
    table
}

} // verus!
