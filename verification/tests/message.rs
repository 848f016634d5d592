//! The message frame, Q9 values, and filling and reading frames by layout.

use j1939::bitfield::{decode_bitfield, encode_bitfield, sign_extend};
use j1939::fixed_point::Q9;
use j1939::message::{
    check_layout, marshall_fields, message_length_bytes, raw_word, unmarshall_fields,
    FieldLayout, FieldValue, J1939Message, RawKind,
};
use j1939::wide_field::{read_field, sign_extend_wide, write_field};
use j1939::Error;

#[test]
fn default_message_has_priority_six_and_zeros() {
    let msg = J1939Message::default();
    assert_eq!(msg.priority, 6);
    assert_eq!(msg.pgn, 0);
    assert_eq!(msg.source_address, 0);
    assert_eq!(msg.length, 0);
    assert!(msg.data.iter().all(|&b| b == 0));
}

#[test]
fn q9_raw_values_roundtrip() {
    for raw in [0i16, 1, -1, 256, -256, 511, -512, i16::MIN, i16::MAX] {
        let q = Q9::from_raw(raw);
        assert_eq!(q.to_raw(), raw);
        assert_eq!(Q9::from_raw(q.to_raw()), q);
    }
    assert_ne!(Q9::from_raw(256), Q9::from_raw(257));
}

#[test]
fn length_in_bytes_rounds_up() {
    assert_eq!(message_length_bytes(64), 8);
    assert_eq!(message_length_bytes(0), 0);
    assert_eq!(message_length_bytes(1), 1);
    assert_eq!(message_length_bytes(63), 8);
    assert_eq!(message_length_bytes(223), 28);
    assert_eq!(message_length_bytes(248), 31);
}

fn layout() -> Vec<FieldLayout> {
    vec![
        FieldLayout { bit_start: 0, bit_length: 8, kind: RawKind::Unsigned },
        FieldLayout { bit_start: 8, bit_length: 12, kind: RawKind::Signed },
        FieldLayout { bit_start: 20, bit_length: 3, kind: RawKind::Unsigned },
        FieldLayout { bit_start: 23, bit_length: 41, kind: RawKind::Reserved },
    ]
}

#[test]
fn marshall_then_unmarshall_gives_values_back() {
    let mut msg = J1939Message::default();
    msg.source_address = 0x17;
    msg.data = [0xFF; 223];
    let values = vec![42u32, (-5i32) as u32, 3, 0xFFFF_FFFF];
    marshall_fields(&mut msg, 12345, 3, 8, &layout(), &values);
    assert_eq!(msg.pgn, 12345);
    assert_eq!(msg.priority, 3);
    assert_eq!(msg.length, 8);
    assert_eq!(msg.source_address, 0x17);
    assert_eq!(msg.data[0], 42);
    // Reserved bits and everything past the fields are cleared.
    assert!(msg.data[3..].iter().all(|&b| b == 0));
    assert_eq!(msg.data[2] & 0x80, 0);
    let read = unmarshall_fields(&msg, 12345, 8, &layout()).unwrap();
    assert_eq!(
        read,
        vec![
            FieldValue::Unsigned(42),
            FieldValue::Signed(-5),
            FieldValue::Unsigned(3),
            FieldValue::Reserved
        ]
    );
}

#[test]
fn marshall_cuts_values_to_the_field_width() {
    let mut msg = J1939Message::default();
    let values = vec![0x1234u32, 0x0FFF, 0xF, 0];
    marshall_fields(&mut msg, 1, 6, 8, &layout(), &values);
    let read = unmarshall_fields(&msg, 1, 8, &layout()).unwrap();
    assert_eq!(read[0], FieldValue::Unsigned(0x34));
    assert_eq!(read[1], FieldValue::Signed(-1));
    assert_eq!(read[2], FieldValue::Unsigned(7));
}

#[test]
fn unmarshall_checks_pgn_before_length() {
    let mut msg = J1939Message::default();
    marshall_fields(&mut msg, 61444, 3, 8, &layout(), &vec![0, 0, 0, 0]);
    assert_eq!(unmarshall_fields(&msg, 61445, 8, &layout()), Err(Error::InvalidPgn));
    assert_eq!(unmarshall_fields(&msg, 61445, 9, &layout()), Err(Error::InvalidPgn));
    assert_eq!(unmarshall_fields(&msg, 61444, 9, &layout()), Err(Error::InvalidLength));
    assert!(unmarshall_fields(&msg, 61444, 8, &layout()).is_ok());
}

#[test]
fn decode_reads_zero_past_the_end_and_wraps_long_fields() {
    let data = [0xFFu8];
    assert_eq!(decode_bitfield(&data, 4, 8), 0x0F);
    assert_eq!(decode_bitfield(&data, 8, 8), 0);
    // Field bit 16 lands on bit 0 of the result.
    let data = [0x00u8, 0x00, 0x01];
    assert_eq!(decode_bitfield(&data, 0, 17), 0x0001);
    assert_eq!(decode_bitfield(&data, 0, 16), 0x0000);
}

#[test]
fn encode_keeps_neighbouring_fields() {
    let mut data = [0u8; 4];
    encode_bitfield(&mut data, 0, 5, 0x15);
    encode_bitfield(&mut data, 13, 7, 0x55);
    let before = decode_bitfield(&data, 5, 8);
    encode_bitfield(&mut data, 5, 8, 0xA5);
    assert_eq!(before, 0);
    assert_eq!(decode_bitfield(&data, 0, 5), 0x15);
    assert_eq!(decode_bitfield(&data, 13, 7), 0x55);
    assert_eq!(decode_bitfield(&data, 5, 8), 0xA5);
    // Writing twice leaves what writing the second value alone leaves.
    let mut once = data;
    encode_bitfield(&mut data, 5, 8, 0x11);
    encode_bitfield(&mut data, 5, 8, 0x3C);
    encode_bitfield(&mut once, 5, 8, 0x3C);
    assert_eq!(data, once);
}

#[test]
fn sign_extend_keeps_garbage_above_a_positive_field() {
    // Bits above the field are kept when the sign bit is clear.
    assert_eq!(sign_extend(0x0F07, 4), 0x0F07);
    // And overwritten with ones when it is set.
    assert_eq!(sign_extend(0x0F08, 4), -8);
}

#[test]
fn signed_values_survive_a_narrow_field() {
    for len in 1usize..=16 {
        let half = 1i32 << (len - 1);
        for v in [-half, -1, 0, half - 1] {
            let v = v as i16;
            let mut data = [0u8; 4];
            encode_bitfield(&mut data, 3, len, v as u16);
            assert_eq!(sign_extend(decode_bitfield(&data, 3, len), len), v);
        }
    }
}

#[test]
fn raw_words_keep_the_low_thirty_two_bits() {
    assert_eq!(raw_word(42), 42);
    assert_eq!(raw_word(-1), 0xFFFF_FFFF);
    assert_eq!(raw_word(-5i32 as i64), (-5i32) as u32);
    assert_eq!(raw_word(0x1_2345), 0x1_2345);
    assert_eq!(raw_word(0x1_0000_2345), 0x2345);
    assert_eq!(raw_word(u32::MAX as i64), 0xFFFF_FFFF);
}

#[test]
fn read_values_convert_with_as() {
    assert_eq!(FieldValue::Unsigned(0xFFFF).as_i64(), 65535);
    assert_eq!(FieldValue::Unsigned(0xFFFF_FFFF).as_i64(), 4_294_967_295);
    assert_eq!(FieldValue::Signed(-2).as_i64(), -2);
    assert_eq!(FieldValue::Reserved.as_i64(), 0);
    assert_eq!(FieldValue::Signed(-2).as_i64() as i8, -2);
    assert_eq!(FieldValue::Unsigned(200).as_i64() as u8, 200);
    assert_eq!(FieldValue::Unsigned(0xDEAD_BEEF).as_i64() as u32, 0xDEAD_BEEF);
}

#[test]
fn thirty_two_bit_fields_roundtrip_through_a_frame() {
    let fields = vec![
        FieldLayout { bit_start: 3, bit_length: 32, kind: RawKind::Unsigned },
        FieldLayout { bit_start: 35, bit_length: 20, kind: RawKind::Signed },
        FieldLayout { bit_start: 55, bit_length: 17, kind: RawKind::Unsigned },
    ];
    assert!(check_layout(&fields));
    let mut msg = J1939Message::default();
    let values = vec![0xDEAD_BEEFu32, (-5i32) as u32, 0x1_FFFF];
    marshall_fields(&mut msg, 65_280, 6, 9, &fields, &values);
    let read = unmarshall_fields(&msg, 65_280, 9, &fields).unwrap();
    assert_eq!(
        read,
        vec![
            FieldValue::Unsigned(0xDEAD_BEEF),
            FieldValue::Signed(-5),
            FieldValue::Unsigned(0x1_FFFF)
        ]
    );
    // The lowest three bits of the frame are not part of any field.
    assert_eq!(msg.data[0] & 0x07, 0);
    assert_eq!(msg.data[0] >> 3, 0xEF & 0x1F);
}

#[test]
fn wide_writes_and_reads_cover_all_lengths() {
    for len in 0usize..=32 {
        let mut data = [0xA5u8; 6];
        let value = 0x9ABC_DEF1u32;
        write_field(&mut data, 5, len, value);
        let mask = if len == 32 { u32::MAX } else { (1u32 << len) - 1 };
        assert_eq!(read_field(&data, 5, len), value & mask);
        // Bits outside the field keep their value.
        assert_eq!(data[0] & 0x1F, 0x05);
        if len <= 27 {
            assert_eq!(read_field(&data, 5 + len, 8) & 0x01, 1 & ((0xA5u32 >> ((5 + len) % 8)) & 1));
        }
    }
}

#[test]
fn wide_reads_past_the_end_give_zero_bits() {
    let data = [0xFFu8, 0xFF];
    assert_eq!(read_field(&data, 4, 24), 0x0FFF);
    assert_eq!(read_field(&data, 16, 32), 0);
}

#[test]
fn wide_sign_extension() {
    assert_eq!(sign_extend_wide(0x8_0000, 20), -524_288);
    assert_eq!(sign_extend_wide(0x7_FFFF, 20), 524_287);
    assert_eq!(sign_extend_wide(0xF_FFFB, 20), -5);
    assert_eq!(sign_extend_wide(0xFFFF_FFFF, 32), -1);
    assert_eq!(sign_extend_wide(0x1234, 0), 0x1234);
    // Bits above a positive field are kept.
    assert_eq!(sign_extend_wide(0xF000_0007, 4), 0xF000_0007u32 as i32);
}

#[test]
fn layout_check_refuses_wide_outside_and_overlapping_fields() {
    assert!(check_layout(&layout()));
    assert!(check_layout(&[]));
    let wide = [FieldLayout { bit_start: 0, bit_length: 33, kind: RawKind::Unsigned }];
    assert!(!check_layout(&wide));
    let word = [FieldLayout { bit_start: 0, bit_length: 32, kind: RawKind::Signed }];
    assert!(check_layout(&word));
    // Reserved fields are not written, so they may be wider.
    let wide_reserved = [FieldLayout { bit_start: 0, bit_length: 64, kind: RawKind::Reserved }];
    assert!(check_layout(&wide_reserved));
    let outside = [FieldLayout { bit_start: 1780, bit_length: 8, kind: RawKind::Unsigned }];
    assert!(!check_layout(&outside));
    let edge = [FieldLayout { bit_start: 1776, bit_length: 8, kind: RawKind::Unsigned }];
    assert!(check_layout(&edge));
    let overlapping = [
        FieldLayout { bit_start: 0, bit_length: 8, kind: RawKind::Unsigned },
        FieldLayout { bit_start: 7, bit_length: 2, kind: RawKind::Signed },
    ];
    assert!(!check_layout(&overlapping));
}

#[test]
fn writes_to_disjoint_fields_commute() {
    let start = [0x3Cu8, 0xC3, 0x5A, 0xA5];
    let mut a = start;
    encode_bitfield(&mut a, 0, 4, 0xA);
    encode_bitfield(&mut a, 4, 4, 0x5);
    let mut b = start;
    encode_bitfield(&mut b, 4, 4, 0x5);
    encode_bitfield(&mut b, 0, 4, 0xA);
    assert_eq!(a, b);
    assert_eq!(a[0], 0x5A);
    let mut c = start;
    encode_bitfield(&mut c, 3, 13, 0x1ABC);
    encode_bitfield(&mut c, 16, 16, 0xBEEF);
    let mut d = start;
    encode_bitfield(&mut d, 16, 16, 0xBEEF);
    encode_bitfield(&mut d, 3, 13, 0x1ABC);
    assert_eq!(c, d);
}
