use playerinfo::bytebuf::ByteWriter;

#[test]
fn a_new_writer_is_empty() {
    let w = ByteWriter::new(5);
    assert_eq!(w.len(), 0);
    assert_eq!(w.room(), 5);
    assert_eq!(w.to_vec(), Vec::<u8>::new());
}

#[test]
fn write_i8_appends_the_byte() {
    let mut w = ByteWriter::new(3);
    w.write_i8(-67);
    w.write_i8(1);
    assert_eq!(w.to_vec(), vec![189, 1]);
    assert_eq!(w.len(), 2);
    assert_eq!(w.room(), 1);
}

#[test]
fn write_i16_is_big_endian() {
    let mut w = ByteWriter::new(4);
    w.write_i16(-14632);
    w.write_i16(274);
    assert_eq!(w.to_vec(), vec![198, 216, 0x01, 0x12]);
}

#[test]
fn write_i32_is_big_endian() {
    let mut w = ByteWriter::new(8);
    w.write_i32(-131045);
    w.write_i32(0x0102_0304);
    assert_eq!(w.to_vec(), vec![255, 254, 0, 27, 1, 2, 3, 4]);
}

#[test]
fn write_i16_add_adds_128_to_the_low_byte() {
    let mut w = ByteWriter::new(6);
    w.write_i16_add(-9867);
    w.write_i16_add(1536);
    w.write_i16_add(0x01FF);
    assert_eq!(w.to_vec(), vec![217, 245, 0x06, 0x80, 0x01, 0x7F]);
}

#[test]
fn write_i16_add_near_the_upper_end() {
    let mut w = ByteWriter::new(8);
    w.write_i16_add(32639);
    w.write_i16_add(32640);
    w.write_i16_add(32700);
    w.write_i16_add(i16::MAX);
    assert_eq!(
        w.to_vec(),
        vec![0x7F, 0xFF, 0x7F, 0x00, 0x7F, 0x3C, 0x7F, 0x7F]
    );
}

#[test]
fn write_i16_add_at_the_lower_end() {
    let mut w = ByteWriter::new(2);
    w.write_i16_add(i16::MIN);
    assert_eq!(w.to_vec(), vec![0x80, 0x80]);
}

#[test]
fn write_c_string_closes_with_zero() {
    let mut w = ByteWriter::new(8);
    w.write_c_string("hello");
    assert_eq!(w.to_vec(), vec![104, 101, 108, 108, 111, 0]);
    assert_eq!(w.room(), 2);
}

#[test]
fn write_c_string_of_nothing_is_one_zero() {
    let mut w = ByteWriter::new(1);
    w.write_c_string("");
    assert_eq!(w.to_vec(), vec![0]);
}

#[test]
fn write_c_string_beyond_ascii_writes_utf8() {
    let mut w = ByteWriter::new(4);
    w.write_c_string("\u{e9}a");
    assert_eq!(w.to_vec(), vec![0xC3, 0xA9, 0x61, 0]);
}

#[test]
fn reverse_add_copy_reverses_and_adds_128() {
    let mut src = ByteWriter::new(3);
    src.write_i8(1);
    src.write_i8(2);
    src.write_i8(3);
    let mut w = ByteWriter::new(4);
    w.write_i8(9);
    w.reverse_add_copy(&src);
    assert_eq!(w.to_vec(), vec![9, 131, 130, 129]);
    assert_eq!(src.to_vec(), vec![1, 2, 3]);
}

#[test]
fn reverse_add_copy_wraps_at_256() {
    let mut src = ByteWriter::new(2);
    src.write_i8(-1);
    src.write_i8(-128);
    let mut w = ByteWriter::new(2);
    w.reverse_add_copy(&src);
    assert_eq!(w.to_vec(), vec![0, 127]);
}

#[test]
fn reverse_add_copy_of_nothing_adds_nothing() {
    let src = ByteWriter::new(0);
    let mut w = ByteWriter::new(0);
    w.reverse_add_copy(&src);
    assert_eq!(w.to_vec(), Vec::<u8>::new());
}
