use mc_login::codec::{
    read_bool, read_byte_array, read_byte_vec, read_i64, read_string, read_u128, read_u16, write_bool,
    write_byte_vec, write_i64, write_string, write_u128, write_u16, write_u8,
};
use mc_login::error::ProtocolError;
use mc_login::reader::Reader;

#[test]
fn string_prefix_counts_bytes_not_characters() {
    let mut out = Vec::new();
    write_string(&mut out, "h\u{e9}llo");
    assert_eq!(out, vec![6, b'h', 0xc3, 0xa9, b'l', b'l', b'o']);
    let mut r = Reader::new(&out);
    assert_eq!(read_string(&mut r), Ok(String::from("h\u{e9}llo")));
    assert_eq!(r.consumed(), 7);
}

#[test]
fn string_round_trip() {
    let long = "x".repeat(300);
    let samples = ["", "Steve", "\u{1f600} and \u{4e2d}\u{6587}", long.as_str()];
    for s in samples {
        let mut out = Vec::new();
        write_string(&mut out, s);
        out.push(0xaa);
        let mut r = Reader::new(&out);
        assert_eq!(read_string(&mut r), Ok(String::from(s)));
        assert_eq!(r.remaining_len(), 1);
    }
}

#[test]
fn long_string_has_a_two_byte_prefix() {
    let long = "x".repeat(300);
    let mut out = Vec::new();
    write_string(&mut out, &long);
    assert_eq!(out.len(), 302);
    assert_eq!(&out[..2], &[0xac, 0x02]);
}

#[test]
fn invalid_utf8_is_refused() {
    let bytes = [2, 0xc3, 0x28];
    let mut r = Reader::new(&bytes);
    assert_eq!(read_string(&mut r), Err(ProtocolError::InvalidUtf8));
    assert_eq!(r.consumed(), 0);
    let lone = [1, 0xff];
    let mut r = Reader::new(&lone);
    assert_eq!(read_string(&mut r), Err(ProtocolError::InvalidUtf8));
}

#[test]
fn string_that_runs_past_the_end_is_truncated() {
    let bytes = [5, b'a', b'b'];
    let mut r = Reader::new(&bytes);
    assert_eq!(read_string(&mut r), Err(ProtocolError::TruncatedRead));
    assert_eq!(r.consumed(), 0);
}

#[test]
fn negative_length_is_truncated() {
    let bytes = [0xff, 0xff, 0xff, 0xff, 0x0f, 1, 2, 3];
    let mut r = Reader::new(&bytes);
    assert_eq!(read_byte_vec(&mut r), Err(ProtocolError::TruncatedRead));
    assert_eq!(r.consumed(), 0);
    let mut r = Reader::new(&bytes);
    assert_eq!(read_string(&mut r), Err(ProtocolError::TruncatedRead));
}

#[test]
fn malformed_length_is_reported() {
    let bytes = [0x80, 0x80, 0x80, 0x80, 0x80, 1];
    let mut r = Reader::new(&bytes);
    assert_eq!(read_byte_vec(&mut r), Err(ProtocolError::MalformedVarInt));
}

#[test]
fn byte_vec_round_trip() {
    let data: Vec<u8> = (0..200u16).map(|i| (i % 251) as u8).collect();
    let mut out = Vec::new();
    write_byte_vec(&mut out, &data);
    assert_eq!(out.len(), 202);
    assert_eq!(&out[..2], &[0xc8, 0x01]);
    let mut r = Reader::new(&out);
    assert_eq!(read_byte_vec(&mut r), Ok(data));
    assert_eq!(r.remaining_len(), 0);
    let mut empty = Vec::new();
    write_byte_vec(&mut empty, &[]);
    assert_eq!(empty, vec![0]);
}

#[test]
fn only_one_is_true() {
    for b in 0..=255u8 {
        let bytes = [b];
        let mut r = Reader::new(&bytes);
        assert_eq!(read_bool(&mut r), Ok(b == 1));
        assert_eq!(r.consumed(), 1);
    }
    let empty: [u8; 0] = [];
    let mut r = Reader::new(&empty);
    assert_eq!(read_bool(&mut r), Err(ProtocolError::TruncatedRead));
}

#[test]
fn bool_is_written_as_one_or_zero() {
    let mut out = Vec::new();
    write_bool(&mut out, true);
    write_bool(&mut out, false);
    assert_eq!(out, vec![1, 0]);
}

#[test]
fn fixed_width_numbers_are_big_endian() {
    let bytes = [0x63, 0xdd];
    let mut r = Reader::new(&bytes);
    assert_eq!(read_u16(&mut r), Ok(25565));
    let bytes = [0xff, 0xff, 0xff, 0xff, 0xff, 0xff, 0xff, 0xfe];
    let mut r = Reader::new(&bytes);
    assert_eq!(read_i64(&mut r), Ok(-2));
    let bytes = [0, 0, 0, 0, 0, 0, 1, 2];
    let mut r = Reader::new(&bytes);
    assert_eq!(read_i64(&mut r), Ok(258));
    let bytes = [
        0x01, 0x23, 0x45, 0x67, 0x89, 0xab, 0xcd, 0xef, 0x0f, 0xed, 0xcb, 0xa9, 0x87, 0x65, 0x43,
        0x21,
    ];
    let mut r = Reader::new(&bytes);
    assert_eq!(read_u128(&mut r), Ok(0x0123456789abcdef0fedcba987654321));
    assert_eq!(r.consumed(), 16);
}

#[test]
fn fixed_width_numbers_are_written_big_endian() {
    let mut out = Vec::new();
    write_u16(&mut out, 25565);
    assert_eq!(out, vec![0x63, 0xdd]);
    let mut out = Vec::new();
    write_i64(&mut out, -2);
    assert_eq!(out, vec![0xff, 0xff, 0xff, 0xff, 0xff, 0xff, 0xff, 0xfe]);
    let mut out = Vec::new();
    write_i64(&mut out, i64::MIN);
    assert_eq!(out, vec![0x80, 0, 0, 0, 0, 0, 0, 0]);
    let mut out = Vec::new();
    write_u128(&mut out, 0x0123456789abcdef0fedcba987654321);
    assert_eq!(
        out,
        vec![
            0x01, 0x23, 0x45, 0x67, 0x89, 0xab, 0xcd, 0xef, 0x0f, 0xed, 0xcb, 0xa9, 0x87, 0x65,
            0x43, 0x21
        ]
    );
    let mut out = Vec::new();
    write_u8(&mut out, 0);
    write_u8(&mut out, 0xfe);
    assert_eq!(out, vec![0, 0xfe]);
}

#[test]
fn fixed_width_round_trip() {
    for v in [0u16, 1, 255, 256, u16::MAX] {
        let mut out = Vec::new();
        write_u16(&mut out, v);
        let mut r = Reader::new(&out);
        assert_eq!(read_u16(&mut r), Ok(v));
    }
    for v in [0i64, 1, -1, i64::MAX, i64::MIN, 1234567890123] {
        let mut out = Vec::new();
        write_i64(&mut out, v);
        let mut r = Reader::new(&out);
        assert_eq!(read_i64(&mut r), Ok(v));
    }
    for v in [0u128, 1, u128::MAX, 1u128 << 127, 0xdead_beef] {
        let mut out = Vec::new();
        write_u128(&mut out, v);
        assert_eq!(out.len(), 16);
        let mut r = Reader::new(&out);
        assert_eq!(read_u128(&mut r), Ok(v));
    }
}

#[test]
fn short_fixed_width_input_is_truncated() {
    let bytes = [1u8; 15];
    let mut r = Reader::new(&bytes);
    assert_eq!(read_u128(&mut r), Err(ProtocolError::TruncatedRead));
    assert_eq!(r.consumed(), 0);
    let mut r = Reader::new(&bytes[..7]);
    assert_eq!(read_i64(&mut r), Err(ProtocolError::TruncatedRead));
    let mut r = Reader::new(&bytes[..1]);
    assert_eq!(read_u16(&mut r), Err(ProtocolError::TruncatedRead));
}

#[test]
fn reader_take_and_peek() {
    let bytes = [1u8, 2, 3, 4];
    let mut r = Reader::new(&bytes);
    assert_eq!(r.peek(0), Some(1));
    assert_eq!(r.peek(3), Some(4));
    assert_eq!(r.peek(4), None);
    assert_eq!(r.take(3), Ok(&bytes[..3]));
    assert_eq!(r.take(2), Err(ProtocolError::TruncatedRead));
    assert_eq!(r.consumed(), 3);
    r.advance_back(2);
    assert_eq!(r.peek(0), Some(2));
    r.advance(3);
    assert_eq!(r.remaining_len(), 0);
}

#[test]
fn byte_array_of_known_length() {
    let bytes = [4, 1, 2, 3, 4, 9];
    let mut r = Reader::new(&bytes);
    assert_eq!(read_byte_array::<4>(&mut r), Ok([1, 2, 3, 4]));
    assert_eq!(r.consumed(), 5);
    let short = [4, 1, 2];
    let mut r = Reader::new(&short);
    assert_eq!(read_byte_array::<4>(&mut r), Err(ProtocolError::TruncatedRead));
    assert_eq!(r.consumed(), 0);
    let none: [u8; 0] = [];
    let mut r = Reader::new(&none);
    assert_eq!(read_byte_array::<16>(&mut r), Err(ProtocolError::TruncatedRead));
}
