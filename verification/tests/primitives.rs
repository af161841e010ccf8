//! Byte-level primitives: ranges, the cursor, checksums and padding.

use usfm_onion_wire::error::DecodeError;
use usfm_onion_wire::primitives::{
    checked_extent, integrity_checksum, integrity_checksum_parts, window, Cursor, Writer,
};

#[test]
fn window_separates_overflow_from_truncation() {
    let bytes = [0u8; 8];
    assert_eq!(window(&bytes, u64::MAX, 1), Err(DecodeError::OffsetOverflow));
    assert_eq!(window(&bytes, 4, 8), Err(DecodeError::Truncated));
    assert_eq!(window(&bytes, 8, 0).map(<[u8]>::len), Ok(0));
}

#[test]
fn cursor_never_panics_at_the_end_of_its_window() {
    let mut cursor = Cursor::new(&[1u8, 2, 3]);
    assert_eq!(cursor.u16(), Ok(0x0201));
    assert_eq!(cursor.u32(), Err(DecodeError::Truncated));
    assert_eq!(cursor.u8(), Ok(3));
    assert_eq!(cursor.u8(), Err(DecodeError::Truncated));
}

#[test]
fn checksum_ignores_the_hole_contents() {
    let mut a = vec![7u8; 32];
    let mut b = a.clone();
    a[24..32].copy_from_slice(&u64::MAX.to_le_bytes());
    b[24..32].copy_from_slice(&1u64.to_le_bytes());
    assert_eq!(integrity_checksum(&a, 24), integrity_checksum(&b, 24));
    assert_ne!(integrity_checksum(&a, 24), integrity_checksum(&a, 16));
}

#[test]
fn padding_aligns_the_final_position_not_the_local_one() {
    let mut writer = Writer::default();
    writer.u8(1);
    writer.pad_to_from(48, 16);
    assert_eq!(writer.len(), 16);
    let bytes = writer.finish();
    assert!(bytes[1..].iter().all(|byte| *byte == 0));

    let mut writer = Writer::default();
    writer.u8(1);
    writer.pad_to_from(47, 16);
    assert_eq!(writer.len(), 1);
}

#[test]
fn assembled_and_part_wise_checksums_agree() {
    // The encoder hashes parts it has not assembled yet; the decoder hashes
    // the assembled buffer with the checksum field zeroed. They must be the
    // same hash.
    let header = [1u8; 32];
    let body = [2u8; 40];
    let mut assembled = Vec::new();
    assembled.extend_from_slice(&header);
    assembled.extend_from_slice(&body);
    assembled[24..32].copy_from_slice(&0x1234_5678_9abc_def0u64.to_le_bytes());
    let mut hole_free = header;
    hole_free[24..32].copy_from_slice(&[0u8; 8]);
    assert_eq!(
        integrity_checksum(&assembled, 24),
        integrity_checksum_parts(&[&hole_free, &body])
    );
}

#[test]
fn checked_extent_refuses_the_overflow() {
    assert_eq!(checked_extent(3, 16), Ok(48));
    assert_eq!(checked_extent(u64::MAX, 2), Err(DecodeError::OffsetOverflow));
}

#[test]
fn the_integrity_checksum_is_xxh3_of_the_hole_free_bytes() {
    let bytes = [5u8; 16];
    let mut hole_free = bytes;
    hole_free[4..12].copy_from_slice(&[0u8; 8]);
    assert_eq!(
        integrity_checksum(&bytes, 4),
        xxhash_rust::xxh3::xxh3_64(&hole_free)
    );
    // A hole that does not fit leaves the bytes as they are.
    assert_eq!(integrity_checksum(&bytes, 12), xxhash_rust::xxh3::xxh3_64(&bytes));
}

#[test]
fn the_writer_appends_little_endian_values() {
    let mut writer = Writer::new();
    writer.u16(0x0102);
    writer.u32(0x0304_0506);
    writer.u64(0x0708_090a_0b0c_0d0e);
    writer.bytes(&[0xaa]);
    assert_eq!(
        writer.finish(),
        vec![2, 1, 6, 5, 4, 3, 0x0e, 0x0d, 0x0c, 0x0b, 0x0a, 0x09, 0x08, 0x07, 0xaa]
    );
}
