use playerinfo::bitbuf::BitBuf;
use playerinfo::error::PlayerInfoError;

#[test]
fn single_bits_fill_a_byte_from_the_top() {
    let mut buf = BitBuf::new();
    for bit in [true, false, true, true, false, true, true, true] {
        buf.write_bit(bit);
    }
    assert_eq!(buf.into_bytes(), vec![0b1011_0111]);
}

#[test]
fn fields_are_written_most_significant_bit_first() {
    let mut buf = BitBuf::new();
    assert!(buf.write(1, 0b1).is_ok());
    assert!(buf.write(2, 0b01).is_ok());
    assert!(buf.write(5, 0b10111).is_ok());
    assert_eq!(buf.into_bytes(), vec![0b1011_0111]);
}

#[test]
fn a_field_may_span_bytes() {
    let mut buf = BitBuf::new();
    assert!(buf.write(3, 0b101).is_ok());
    assert!(buf.write(11, 0b111_0000_1111).is_ok());
    assert!(buf.write(2, 0b10).is_ok());
    assert_eq!(buf.into_bytes(), vec![0b1011_1100, 0b0011_1110]);
}

#[test]
fn a_field_of_fourteen_bits() {
    let mut buf = BitBuf::new();
    assert!(buf.write(14, 0x3FFF).is_ok());
    assert!(buf.write(2, 0).is_ok());
    assert_eq!(buf.into_bytes(), vec![0xFF, 0xFC]);
}

#[test]
fn a_field_of_thirty_two_bits_takes_any_value() {
    let mut buf = BitBuf::new();
    assert!(buf.write(32, 0xDEAD_BEEF).is_ok());
    assert_eq!(buf.into_bytes(), vec![0xDE, 0xAD, 0xBE, 0xEF]);
}

#[test]
fn byte_align_pads_with_zero_bits() {
    let mut buf = BitBuf::new();
    assert!(buf.write(1, 0).is_ok());
    buf.byte_align();
    assert!(buf.write(8, 0xFF).is_ok());
    assert_eq!(buf.into_bytes(), vec![0x00, 0xFF]);
}

#[test]
fn byte_align_on_a_boundary_adds_nothing() {
    let mut buf = BitBuf::new();
    buf.byte_align();
    assert!(buf.write(8, 0xA5).is_ok());
    buf.byte_align();
    buf.byte_align();
    assert_eq!(buf.into_bytes(), vec![0xA5]);
}

#[test]
fn an_empty_stream_has_no_bytes() {
    let buf = BitBuf::new();
    assert_eq!(buf.into_bytes(), Vec::<u8>::new());
}

#[test]
fn bits_of_a_partial_byte_are_lost() {
    let mut buf = BitBuf::new();
    assert!(buf.write(8, 0x12).is_ok());
    assert!(buf.write(3, 0b111).is_ok());
    assert_eq!(buf.into_bytes(), vec![0x12]);
}

#[test]
fn a_value_too_large_for_its_width_is_refused() {
    let mut buf = BitBuf::new();
    assert_eq!(buf.write(1, 2), Err(PlayerInfoError::Io));
    assert_eq!(buf.write(2, 4), Err(PlayerInfoError::Io));
    assert_eq!(buf.write(3, 8), Err(PlayerInfoError::Io));
    assert_eq!(buf.write(31, 0x8000_0000), Err(PlayerInfoError::Io));
    assert!(buf.write(8, 0x5A).is_ok());
    assert_eq!(buf.into_bytes(), vec![0x5A]);
}

#[test]
fn a_width_above_thirty_two_is_refused() {
    let mut buf = BitBuf::new();
    assert_eq!(buf.write(33, 0), Err(PlayerInfoError::Io));
    assert!(buf.write(8, 1).is_ok());
    assert_eq!(buf.into_bytes(), vec![1]);
}

#[test]
fn a_width_of_zero_takes_only_zero() {
    let mut buf = BitBuf::new();
    assert!(buf.write(0, 0).is_ok());
    assert_eq!(buf.write(0, 1), Err(PlayerInfoError::Io));
    assert!(buf.write(8, 0x80).is_ok());
    assert_eq!(buf.into_bytes(), vec![0x80]);
}
