use mc_login::error::ProtocolError;
use mc_login::reader::Reader;
use mc_login::var_int::{read_varint, write_varint};

fn encoded(v: i32) -> Vec<u8> {
    let mut out = Vec::new();
    write_varint(&mut out, v);
    out
}

#[test]
fn zero_is_a_single_zero_byte() {
    let mut out = Vec::new();
    assert_eq!(write_varint(&mut out, 0), 1);
    assert_eq!(out, vec![0u8]);
}

#[test]
fn minus_one_takes_five_bytes() {
    let mut out = Vec::new();
    assert_eq!(write_varint(&mut out, -1), 5);
    assert_eq!(out, vec![0xffu8, 0xff, 0xff, 0xff, 0x0f]);
    for b in &out[..4] {
        assert_eq!(b & 0x80, 0x80);
        assert_eq!(b & 0x7f, 0x7f);
    }
    assert_eq!(out[4] & 0x80, 0);
}

#[test]
fn known_encodings() {
    assert_eq!(encoded(1), vec![0x01]);
    assert_eq!(encoded(2), vec![0x02]);
    assert_eq!(encoded(127), vec![0x7f]);
    assert_eq!(encoded(128), vec![0x80, 0x01]);
    assert_eq!(encoded(255), vec![0xff, 0x01]);
    assert_eq!(encoded(25565), vec![0xdd, 0xc7, 0x01]);
    assert_eq!(encoded(2097151), vec![0xff, 0xff, 0x7f]);
    assert_eq!(encoded(2147483647), vec![0xff, 0xff, 0xff, 0xff, 0x07]);
    assert_eq!(encoded(-2147483648), vec![0x80, 0x80, 0x80, 0x80, 0x08]);
}

#[test]
fn a_multiple_of_128_is_written_in_full() {
    assert_eq!(encoded(0x80), vec![0x80, 0x01]);
    assert_eq!(encoded(0x4000), vec![0x80, 0x80, 0x01]);
    assert_eq!(encoded(0x100), vec![0x80, 0x02]);
}

#[test]
fn write_appends_and_counts() {
    let mut out = vec![9u8, 9];
    assert_eq!(write_varint(&mut out, 300), 2);
    assert_eq!(out, vec![9, 9, 0xac, 0x02]);
}

#[test]
fn round_trip_of_sample_values() {
    let samples = [
        0,
        1,
        -1,
        127,
        128,
        -128,
        16383,
        16384,
        2097151,
        2097152,
        268435455,
        268435456,
        i32::MAX,
        i32::MIN,
        -123456789,
        123456789,
    ];
    for v in samples {
        let bytes = encoded(v);
        assert!(bytes.len() >= 1 && bytes.len() <= 5);
        let mut r = Reader::new(&bytes);
        assert_eq!(read_varint(&mut r), Ok(v));
        assert_eq!(r.consumed(), bytes.len());
        assert_eq!(r.remaining_len(), 0);
    }
}

#[test]
fn read_stops_at_the_first_byte_without_high_bit() {
    let bytes = [0xac, 0x02, 0x7f, 0x01];
    let mut r = Reader::new(&bytes);
    assert_eq!(read_varint(&mut r), Ok(300));
    assert_eq!(r.consumed(), 2);
    assert_eq!(read_varint(&mut r), Ok(127));
    assert_eq!(read_varint(&mut r), Ok(1));
    assert_eq!(read_varint(&mut r), Err(ProtocolError::TruncatedRead));
}

#[test]
fn five_bytes_that_all_continue_are_malformed() {
    let bytes = [0x80, 0x80, 0x80, 0x80, 0x80, 0x00];
    let mut r = Reader::new(&bytes);
    assert_eq!(read_varint(&mut r), Err(ProtocolError::MalformedVarInt));
    assert_eq!(r.consumed(), 0);
    let exactly_five = [0xff, 0xff, 0xff, 0xff, 0xff];
    let mut r = Reader::new(&exactly_five);
    assert_eq!(read_varint(&mut r), Err(ProtocolError::MalformedVarInt));
}

#[test]
fn input_that_ends_early_is_truncated() {
    let empty: [u8; 0] = [];
    let mut r = Reader::new(&empty);
    assert_eq!(read_varint(&mut r), Err(ProtocolError::TruncatedRead));
    let bytes = [0x80, 0x80];
    let mut r = Reader::new(&bytes);
    assert_eq!(read_varint(&mut r), Err(ProtocolError::TruncatedRead));
    assert_eq!(r.consumed(), 0);
}

#[test]
fn bits_beyond_the_thirty_second_are_dropped() {
    let bytes = [0xff, 0xff, 0xff, 0xff, 0x7f];
    let mut r = Reader::new(&bytes);
    assert_eq!(read_varint(&mut r), Ok(-1));
    let bytes = [0x00 | 0x80, 0x80, 0x80, 0x80, 0x10];
    let mut r = Reader::new(&bytes);
    assert_eq!(read_varint(&mut r), Ok(0));
}

#[test]
fn padded_encodings_are_read() {
    let bytes = [0x80, 0x00];
    let mut r = Reader::new(&bytes);
    assert_eq!(read_varint(&mut r), Ok(0));
    assert_eq!(r.consumed(), 2);
}
