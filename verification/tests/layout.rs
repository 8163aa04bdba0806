use bitbuf::{BitBuf, BitBufError};

#[test]
fn new_buffer_is_zeroed_with_cursor_at_start() {
    let buf = BitBuf::with_len(5).unwrap();
    assert_eq!(buf.bit_size(), 40);
    assert_eq!(buf.bit_pos(), 0);
    assert_eq!(buf.byte_pos(), 0);
    assert_eq!(buf.to_vec(), vec![0u8, 0, 0, 0, 0]);
}

#[test]
fn empty_buffer_holds_nothing() {
    let mut buf = BitBuf::with_len(0).unwrap();
    assert_eq!(buf.bit_size(), 0);
    assert!(buf.can_write_bits(0));
    assert!(!buf.can_write_bits(1));
    assert_eq!(buf.write_bool(true), Err(BitBufError::OutOfBounds));
    assert_eq!(buf.read_bool(), Err(BitBufError::OutOfBounds));
    assert_eq!(buf.write_u8_slice(&[]), Ok(()));
    assert_eq!(buf.read_vec_u8(0), Ok(Vec::new()));
    assert_eq!(buf.to_vec(), Vec::<u8>::new());
}

#[test]
fn length_without_bit_capacity_is_a_construction_error() {
    assert!(matches!(BitBuf::with_len(usize::MAX), Err(BitBufError::ConstructionError)));
    assert!(matches!(BitBuf::with_len(usize::MAX / 8 + 1), Err(BitBufError::ConstructionError)));
}

#[test]
fn byte_pos_is_cursor_divided_by_eight() {
    let mut buf = BitBuf::with_len(4).unwrap();
    buf.write_u8_part(1, 7).unwrap();
    assert_eq!(buf.bit_pos(), 7);
    assert_eq!(buf.byte_pos(), 0);
    buf.write_bool(true).unwrap();
    assert_eq!(buf.bit_pos(), 8);
    assert_eq!(buf.byte_pos(), 1);
    buf.write_u16_part(0, 9).unwrap();
    assert_eq!(buf.bit_pos(), 17);
    assert_eq!(buf.byte_pos(), 2);
}

#[test]
fn predicates_answer_cursor_plus_count_within_capacity() {
    let mut buf = BitBuf::with_len(2).unwrap();
    assert!(buf.can_write_bits(16));
    assert!(buf.can_read_bits(16));
    assert!(!buf.can_write_bits(17));
    assert!(!buf.can_read_bits(17));
    assert!(buf.can_write_bytes(2));
    assert!(buf.can_read_bytes(2));
    assert!(!buf.can_write_bytes(3));
    assert!(!buf.can_read_bytes(3));
    buf.write_u8_part(0, 3).unwrap();
    assert!(buf.can_write_bits(13));
    assert!(!buf.can_write_bits(14));
    assert!(buf.can_read_bits(13));
    assert!(!buf.can_read_bits(14));
    assert!(buf.can_write_bytes(1));
    assert!(!buf.can_write_bytes(2));
    assert!(buf.can_read_bytes(1));
    assert!(!buf.can_read_bytes(2));
    assert!(!buf.can_write_bits(usize::MAX));
    assert!(!buf.can_read_bytes(usize::MAX));
}

#[test]
fn set_bit_pos_moves_within_capacity_only() {
    let mut buf = BitBuf::with_len(2).unwrap();
    assert_eq!(buf.set_bit_pos(16), Ok(()));
    assert_eq!(buf.bit_pos(), 16);
    assert_eq!(buf.set_bit_pos(17), Err(BitBufError::OutOfBounds));
    assert_eq!(buf.bit_pos(), 16);
    assert_eq!(buf.set_bit_pos(5), Ok(()));
    assert_eq!(buf.bit_pos(), 5);
}

#[test]
fn u32_part_is_stored_low_byte_first() {
    let mut buf = BitBuf::with_len(4).unwrap();
    buf.write_u32_part(839011, 27).unwrap();
    assert_eq!(buf.bit_pos(), 27);
    assert_eq!(buf.to_vec(), vec![0x63u8, 0xCD, 0x0C, 0x00]);
}

#[test]
fn field_inside_a_byte_is_merged_above_the_bits_in_use() {
    let mut buf = BitBuf::with_len(2).unwrap();
    buf.write_bool(true).unwrap();
    buf.write_u16_part(448, 13).unwrap();
    assert_eq!(buf.bit_pos(), 14);
    assert_eq!(buf.to_vec(), vec![0x81u8, 0x03]);
}

#[test]
fn value_is_masked_to_its_width() {
    let mut buf = BitBuf::with_len(2).unwrap();
    buf.write_u8_part(0xFF, 3).unwrap();
    buf.write_u8_part(0xFF, 2).unwrap();
    assert_eq!(buf.to_vec(), vec![0x1Fu8, 0x00]);
    let mut buf = BitBuf::with_len(4).unwrap();
    buf.write_u32_part(0xFFFF_FFFF, 11).unwrap();
    buf.set_bit_pos(0).unwrap();
    assert_eq!(buf.read_u32_part(11), Ok(0x7FF));
    assert_eq!(buf.to_vec(), vec![0xFFu8, 0x07, 0x00, 0x00]);
}

#[test]
fn aligned_write_overwrites_the_byte_outright() {
    let mut buf = BitBuf::with_len(2).unwrap();
    buf.write_u16(0xFFFF).unwrap();
    buf.set_bit_pos(0).unwrap();
    buf.write_u8_part(0b0101, 4).unwrap();
    assert_eq!(buf.to_vec(), vec![0x05u8, 0xFF]);
}

#[test]
fn write_inside_a_byte_preserves_every_other_bit() {
    let mut buf = BitBuf::with_len(3).unwrap();
    buf.write_u8_slice(&[0xFF, 0xFF, 0xFF]).unwrap();
    buf.set_bit_pos(2).unwrap();
    buf.write_u8_part(0, 3).unwrap();
    assert_eq!(buf.clone().to_vec(), vec![0xE3u8, 0xFF, 0xFF]);
    buf.set_bit_pos(13).unwrap();
    buf.write_u8_part(0, 6).unwrap();
    assert_eq!(buf.clone().to_vec(), vec![0xE3u8, 0x1F, 0xF8]);
    buf.set_bit_pos(5).unwrap();
    buf.write_u8_part(0b010, 3).unwrap();
    assert_eq!(buf.to_vec(), vec![0x43u8, 0x1F, 0xF8]);
}

#[test]
fn read_takes_the_rest_of_one_byte_and_the_start_of_the_next() {
    let mut buf = BitBuf::with_len(2).unwrap();
    buf.write_u8_slice(&[0b1010_0000, 0b0000_0110]).unwrap();
    buf.set_bit_pos(5).unwrap();
    assert_eq!(buf.read_u8_part(6), Ok(0b11_0101));
    assert_eq!(buf.bit_pos(), 11);
    buf.set_bit_pos(5).unwrap();
    assert_eq!(buf.read_u8_part(3), Ok(0b101));
    buf.set_bit_pos(8).unwrap();
    assert_eq!(buf.read_u8(), Ok(0b0000_0110));
    buf.set_bit_pos(4).unwrap();
    assert_eq!(buf.read_u8(), Ok(0b0110_1010));
}

#[test]
fn reads_leave_the_bits_as_they_are() {
    let mut buf = BitBuf::with_len(3).unwrap();
    buf.write_u8_slice(&[0x12, 0x34, 0x56]).unwrap();
    buf.set_bit_pos(3).unwrap();
    buf.read_u16_part(13).unwrap();
    buf.read_bool().unwrap();
    assert_eq!(buf.to_vec(), vec![0x12u8, 0x34, 0x56]);
}

#[test]
fn sixty_four_bits_go_out_as_two_halves_low_half_first() {
    let mut buf = BitBuf::with_len(8).unwrap();
    buf.write_u64(0x0102_0304_0506_0708).unwrap();
    assert_eq!(buf.to_vec(), vec![0x08u8, 0x07, 0x06, 0x05, 0x04, 0x03, 0x02, 0x01]);
    let mut buf = BitBuf::with_len(8).unwrap();
    buf.write_u64_part(0x0102_0304_0506_0708, 40).unwrap();
    assert_eq!(buf.bit_pos(), 40);
    assert_eq!(buf.to_vec(), vec![0x08u8, 0x07, 0x06, 0x05, 0x04, 0x00, 0x00, 0x00]);
}

#[test]
fn float_patterns_travel_as_whole_bytes_low_byte_first() {
    let mut buf = BitBuf::with_len(12).unwrap();
    buf.write_f32_bits(1.0f32.to_bits()).unwrap();
    buf.write_f64_bits((-2.0f64).to_bits()).unwrap();
    assert_eq!(buf.bit_pos(), 96);
    assert_eq!(
        buf.to_vec(),
        vec![0x00u8, 0x00, 0x80, 0x3F, 0x00, 0x00, 0x00, 0x00, 0x00, 0x00, 0x00, 0xC0]
    );
}

#[test]
fn float_patterns_come_back_bit_for_bit() {
    let mut buf = BitBuf::with_len(13).unwrap();
    buf.write_bool(true).unwrap();
    buf.write_f32_bits(f32::NAN.to_bits()).unwrap();
    buf.write_f64_bits(f64::NEG_INFINITY.to_bits()).unwrap();
    buf.set_bit_pos(1).unwrap();
    assert_eq!(buf.read_f32_bits(), Ok(f32::NAN.to_bits()));
    assert_eq!(buf.read_f64_bits(), Ok(f64::NEG_INFINITY.to_bits()));
    assert_eq!(buf.write_f32_bits(0), Err(BitBufError::OutOfBounds));
    assert_eq!(buf.read_f64_bits(), Err(BitBufError::OutOfBounds));
}

#[test]
fn string_is_a_four_byte_length_and_the_utf8_bytes() {
    let mut buf = BitBuf::with_len(8).unwrap();
    buf.write_string("hé").unwrap();
    assert_eq!(buf.bit_pos(), 56);
    assert_eq!(buf.to_vec(), vec![3u8, 0, 0, 0, b'h', 0xC3, 0xA9, 0]);
}

#[test]
fn clone_is_independent_of_its_source() {
    let mut buf = BitBuf::with_len(2).unwrap();
    buf.write_u8(7).unwrap();
    let mut copy = buf.clone();
    assert_eq!(copy.bit_pos(), 8);
    copy.write_u8(9).unwrap();
    assert_eq!(buf.bit_pos(), 8);
    assert_eq!(buf.to_vec(), vec![7u8, 0]);
    assert_eq!(copy.to_vec(), vec![7u8, 9]);
}
