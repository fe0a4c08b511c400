use muscleman::buffer::Buffer;
use muscleman::byte_order::ByteOrder;

#[test]
fn read_single_byte() {
    let mut buffer = Buffer::new();
    let value = 0x01;
    buffer.write_byte(value);
    let res = buffer.read_byte();
    assert_eq!(res, Some(value));
}

#[test]
fn read_bytes() {
    let mut buffer = Buffer::new();
    let value = Vec::from([0x01, 0x02, 0x03, 0x04]);
    buffer.write_bytes(&value);
    let res = buffer.read_bytes(4);
    assert_eq!(res, Some(value));
}

#[test]
fn read_bool() {
    let mut buffer = Buffer::new();
    let value = 0x1;
    buffer.write_byte(value);
    let res = buffer.read_boolean();
    assert_eq!(res, Some(value == 0x1));
}

#[test]
fn read_i8() {
    let mut buffer = Buffer::new();
    let value = 0x01;
    buffer.write_i8(value);
    let res = buffer.read_i8();
    assert_eq!(res, Some(value));
}

#[test]
fn read_i16() {
    let mut buffer = Buffer::new();
    let value = 0x0102;
    buffer.write_i16(value);
    let res = buffer.read_i16();
    assert_eq!(res, Some(value));
}

#[test]
fn read_i32() {
    let mut buffer = Buffer::new();
    let value = 0x01020304;
    buffer.write_i32(value);
    let res = buffer.read_i32();
    assert_eq!(res, Some(value));
}

#[test]
fn read_i64() {
    let mut buffer = Buffer::new();
    let value = 0x0102030405060708;
    buffer.write_i64(value);
    let res = buffer.read_i64();
    assert_eq!(res, Some(value));
}

#[test]
fn read_u8() {
    let mut buffer = Buffer::new();
    let value = 0x01;
    buffer.write_u8(value);
    let res = buffer.read_u8();
    assert_eq!(res, Some(value));
}

#[test]
fn read_u16() {
    let mut buffer = Buffer::new();
    let value = 0x0102;
    buffer.write_u16(value);
    let res = buffer.read_u16();
    assert_eq!(res, Some(value));
}

#[test]
fn read_u32() {
    let mut buffer = Buffer::new();
    let value = 0x01020304;
    buffer.write_u32(value);
    let res = buffer.read_u32();
    assert_eq!(res, Some(value));
}

#[test]
fn read_u64() {
    let mut buffer = Buffer::new();
    let value = 0x0102030405060708;
    buffer.write_u64(value);
    let res = buffer.read_u64();
    assert_eq!(res, Some(value));
}

#[test]
fn read_null_terminated_string() {
    let mut buffer = Buffer::new();
    let value = "Hello, world!";
    buffer.write_string(value);
    let res = buffer.read_string();
    assert_eq!(res, Some(value.to_string()));
}

// The length-prefixed read expects the length-prefixed write: a terminated
// string read this way takes "Hell" as its length and fails.
#[test]
fn read_string_with_length() {
    let mut buffer = Buffer::new();
    let value = "Hello, world!";
    buffer.write_string_with_length(value);
    let res = buffer.read_string_with_length();
    assert_eq!(res, Some(value.to_string()));
}

#[test]
fn length_prefixed_read_of_terminated_string_fails() {
    let mut buffer = Buffer::new();
    buffer.write_string("Hello, world!");
    assert_eq!(buffer.read_string_with_length(), None);
    // the partial read consumed every byte that remained
    assert_eq!(buffer.read_byte(), None);
}

#[test]
fn all_reads_in_order() {
    let mut buffer = Buffer::new();
    buffer.write_byte(0x01);
    buffer.write_byte(true as u8);
    buffer.write_i8(0x01);
    buffer.write_i16(0x0102);
    buffer.write_i32(0x01020304);
    buffer.write_i64(0x0102030405060708);
    buffer.write_u8(0x01);
    buffer.write_u16(0x0102);
    buffer.write_u32(0x01020304);
    buffer.write_u64(0x0102030405060708);
    buffer.write_string("Hello, world!");
    buffer.write_string_with_length("Hello, world!");

    assert_eq!(buffer.read_byte(), Some(0x01));
    assert_eq!(buffer.read_boolean(), Some(true));
    assert_eq!(buffer.read_i8(), Some(0x01));
    assert_eq!(buffer.read_i16(), Some(0x0102));
    assert_eq!(buffer.read_i32(), Some(0x01020304));
    assert_eq!(buffer.read_i64(), Some(0x0102030405060708));
    assert_eq!(buffer.read_u8(), Some(0x01));
    assert_eq!(buffer.read_u16(), Some(0x0102));
    assert_eq!(buffer.read_u32(), Some(0x01020304));
    assert_eq!(buffer.read_u64(), Some(0x0102030405060708));
    assert_eq!(buffer.read_string(), Some("Hello, world!".to_string()));
    assert_eq!(buffer.read_string_with_length(), Some("Hello, world!".to_string()));
    assert_eq!(buffer.read_byte(), None);
}

#[test]
fn negative_values_round_trip() {
    let mut buffer = Buffer::new();
    buffer.write_i8(-1);
    buffer.write_i16(-2);
    buffer.write_i32(-3);
    buffer.write_i64(i64::MIN);
    buffer.write_i8(i8::MIN);
    buffer.write_i64(-1);
    assert_eq!(buffer.read_i8(), Some(-1));
    assert_eq!(buffer.read_i16(), Some(-2));
    assert_eq!(buffer.read_i32(), Some(-3));
    assert_eq!(buffer.read_i64(), Some(i64::MIN));
    assert_eq!(buffer.read_i8(), Some(i8::MIN));
    assert_eq!(buffer.read_i64(), Some(-1));
}

#[test]
fn negative_values_are_twos_complement() {
    let mut buffer = Buffer::new();
    buffer.write_i16(-2);
    buffer.write_i8(-128);
    assert_eq!(buffer.data(), &vec![0xFF, 0xFE, 0x80]);
}

#[test]
fn extreme_unsigned_values_round_trip() {
    let mut buffer = Buffer::new();
    buffer.write_u64(u64::MAX);
    buffer.write_u32(0);
    buffer.write_u16(u16::MAX);
    buffer.write_u8(u8::MAX);
    assert_eq!(buffer.read_u64(), Some(u64::MAX));
    assert_eq!(buffer.read_u32(), Some(0));
    assert_eq!(buffer.read_u16(), Some(u16::MAX));
    assert_eq!(buffer.read_u8(), Some(u8::MAX));
}

#[test]
fn short_reads_leave_cursor_in_place() {
    let mut buffer = Buffer::new();
    buffer.write_bytes(&[0x01, 0x02, 0x03]);
    assert_eq!(buffer.read_u32(), None);
    assert_eq!(buffer.read_i32(), None);
    assert_eq!(buffer.read_u64(), None);
    assert_eq!(buffer.read_i64(), None);
    assert_eq!(buffer.read_bytes(4), None);
    assert_eq!(buffer.read_string_with_length(), None);
    assert_eq!(buffer.read_u16(), Some(0x0102));
    assert_eq!(buffer.read_u16(), None);
    assert_eq!(buffer.read_i16(), None);
    assert_eq!(buffer.read_u8(), Some(0x03));
    assert_eq!(buffer.read_u8(), None);
    assert_eq!(buffer.read_i8(), None);
    assert_eq!(buffer.read_byte(), None);
    assert_eq!(buffer.read_boolean(), None);
}

#[test]
fn empty_buffer_reads() {
    let mut buffer = Buffer::new();
    assert_eq!(buffer.data(), &Vec::<u8>::new());
    assert_eq!(buffer.read_byte(), None);
    assert_eq!(buffer.read_bytes(0), Some(Vec::new()));
    assert_eq!(buffer.read_string(), Some(String::new()));
    assert_eq!(buffer.read_string_with_length(), None);
}

#[test]
fn read_boolean_zero_and_nonzero() {
    let mut buffer = Buffer::new();
    buffer.write_byte(0);
    buffer.write_byte(7);
    assert_eq!(buffer.read_boolean(), Some(false));
    assert_eq!(buffer.read_boolean(), Some(true));
}

#[test]
fn big_endian_u32_bytes() {
    let mut buffer = Buffer::new();
    buffer.write_u32(0x01020304);
    assert_eq!(buffer.data(), &vec![0x01, 0x02, 0x03, 0x04]);
}

#[test]
fn big_endian_widths() {
    let mut buffer = Buffer::new();
    buffer.write_u16(0x0A0B);
    buffer.write_i32(0x01020304);
    buffer.write_u64(0x0102030405060708);
    assert_eq!(
        buffer.data(),
        &vec![0x0A, 0x0B, 1, 2, 3, 4, 1, 2, 3, 4, 5, 6, 7, 8]
    );
}

#[test]
fn terminated_string_bytes_and_read() {
    let mut buffer = Buffer::new();
    buffer.write_string("Hi");
    assert_eq!(buffer.data(), &vec![0x48, 0x69, 0x00]);
    assert_eq!(buffer.read_string(), Some("Hi".to_string()));
    // the cursor stands past the zero byte
    assert_eq!(buffer.read_byte(), None);
}

#[test]
fn terminated_string_read_stops_at_zero() {
    let mut buffer = Buffer::new();
    buffer.write_bytes(&[0x61, 0x00, 0x62]);
    assert_eq!(buffer.read_string(), Some("a".to_string()));
    assert_eq!(buffer.read_byte(), Some(0x62));
}

#[test]
fn terminated_string_without_zero_reads_to_end() {
    let mut buffer = Buffer::new();
    buffer.write_bytes(&[0x61, 0x62]);
    assert_eq!(buffer.read_string(), Some("ab".to_string()));
    assert_eq!(buffer.read_string(), Some(String::new()));
}

#[test]
fn length_prefixed_string_bytes_and_read() {
    let mut buffer = Buffer::new();
    buffer.write_string_with_length("Hi");
    assert_eq!(buffer.data(), &vec![0x00, 0x00, 0x00, 0x02, 0x48, 0x69]);
    assert_eq!(buffer.read_string_with_length(), Some("Hi".to_string()));
}

#[test]
fn empty_strings() {
    let mut buffer = Buffer::new();
    buffer.write_string("");
    buffer.write_string_with_length("");
    assert_eq!(buffer.data(), &vec![0x00, 0x00, 0x00, 0x00, 0x00]);
    assert_eq!(buffer.read_string(), Some(String::new()));
    assert_eq!(buffer.read_string_with_length(), Some(String::new()));
    assert_eq!(buffer.read_byte(), None);
}

#[test]
fn strings_carry_one_byte_per_character() {
    let mut buffer = Buffer::new();
    buffer.write_string_with_length("é\u{0101}");
    assert_eq!(buffer.data(), &vec![0x00, 0x00, 0x00, 0x02, 0xE9, 0x01]);
    assert_eq!(buffer.read_string_with_length(), Some("é\u{1}".to_string()));
}

#[test]
fn length_prefixed_read_fails_midway() {
    let mut buffer = Buffer::new();
    buffer.write_u32(5);
    buffer.write_bytes(&[0x61, 0x62]);
    buffer.write_u8(0x63);
    assert_eq!(buffer.read_string_with_length(), None);
    assert_eq!(buffer.read_byte(), None);
}

#[test]
fn end_to_end_scenario() {
    let mut buffer = Buffer::new();
    buffer.write_u8(5);
    buffer.write_u16(0x0102);
    buffer.write_string_with_length("ab");
    assert_eq!(
        buffer.data(),
        &vec![0x05, 0x01, 0x02, 0x00, 0x00, 0x00, 0x02, 0x61, 0x62]
    );
    assert_eq!(buffer.read_u8(), Some(5));
    assert_eq!(buffer.read_u16(), Some(0x0102));
    assert_eq!(buffer.read_string_with_length(), Some("ab".to_string()));
    assert_eq!(buffer.read_byte(), None);
}

#[test]
fn constructed_with_all_args() {
    let mut buffer = Buffer::new_with_all_args(4, ByteOrder::LittleEndian, "ascii", "\n");
    buffer.write_u32(0x01020304);
    buffer.write_u8(9);
    // the wire format stays big-endian and grows past the capacity
    assert_eq!(buffer.data(), &vec![0x01, 0x02, 0x03, 0x04, 0x09]);
    assert_eq!(buffer.read_u32(), Some(0x01020304));
}
