use vstd::prelude::*;
use vstd::slice::slice_to_vec;
use vstd::string::StringSliceAdditionalSpecFns;
use vstd::utf8::{
    decode_utf8, decode_utf8_encode_utf8, encode_utf8, encode_utf8_decode_utf8,
    encode_utf8_valid_utf8, valid_utf8,
};
use crate::error::ProtocolError;
use crate::reader::Reader;
use crate::var_int::{
    decode_varint, encode_varint, lemma_decode_takes_encoding_len, lemma_encode_bits_len,
    lemma_varint_round_trip, read_varint, to_bits, write_varint,
};

verus! {

/// The longest run of bytes that a length prefix can announce.
pub const MAX_LEN: usize = 0x7fff_ffff;

/// 256 to the power `n`.
pub open spec fn pow256(n: nat) -> nat
    decreases n,
{
    if n == 0 {
        1
    } else {
        256 * pow256((n - 1) as nat)
    }
}

/// The number that `s` is when read as big-endian digits to the base 256.
pub open spec fn be_value(s: Seq<u8>) -> nat
    decreases s.len(),
{
    if s.len() == 0 {
        0
    } else {
        be_value(s.drop_last()) * 256 + s.last() as nat
    }
}

/// The last `n` big-endian digits of `v` to the base 256.
pub open spec fn be_bytes(v: nat, n: nat) -> Seq<u8>
    decreases n,
{
    if n == 0 {
        Seq::empty()
    } else {
        be_bytes(v / 256, (n - 1) as nat).push((v % 256) as u8)
    }
}

/// The signed number whose 64-bit pattern is `u`.
pub open spec fn from_bits64(u: u64) -> i64 {
    if u < 0x8000_0000_0000_0000 {
        u as i64
    } else {
        (u - 0x1_0000_0000_0000_0000) as i64
    }
}

/// The 64-bit pattern of `v`.
pub open spec fn to_bits64(v: i64) -> u64 {
    if v >= 0 {
        v as u64
    } else {
        (v + 0x1_0000_0000_0000_0000) as u64
    }
}

/// The powers of 256 that the fixed widths need.
pub proof fn lemma_pow256_values()
    ensures
        pow256(0) == 1,
        pow256(1) == 0x100,
        pow256(2) == 0x1_0000,
        pow256(8) == 0x1_0000_0000_0000_0000,
        pow256(15) == 0x1_0000_0000_0000_0000_0000_0000_0000_00,
        pow256(16) == 0x1_0000_0000_0000_0000_0000_0000_0000_0000,
{
    reveal_with_fuel(pow256, 17);
}

/// Powers of 256 are positive and grow with the exponent.
pub proof fn lemma_pow256_grows(a: nat, b: nat)
    requires
        a <= b,
    ensures
        0 < pow256(a) <= pow256(b),
    decreases b,
{
    if b == 0 {
    } else if a == b {
        lemma_pow256_grows((a - 1) as nat, (b - 1) as nat);
    } else {
        lemma_pow256_grows(a, (b - 1) as nat);
    }
}

/// `n` digits stand for a number below 256 to the power `n`.
pub proof fn lemma_be_value_bound(s: Seq<u8>)
    ensures
        be_value(s) < pow256(s.len()),
    decreases s.len(),
{
    if s.len() > 0 {
        lemma_be_value_bound(s.drop_last());
    }
}

/// `n` digits are `n` bytes.
pub proof fn lemma_be_bytes_len(v: nat, n: nat)
    ensures
        be_bytes(v, n).len() == n,
    decreases n,
{
    if n > 0 {
        lemma_be_bytes_len(v / 256, (n - 1) as nat);
    }
}

/// The digits of a number that fits in `n` digits stand for that number.
pub proof fn lemma_be_round_trip(v: nat, n: nat)
    requires
        v < pow256(n),
    ensures
        be_value(be_bytes(v, n)) == v,
    decreases n,
{
    if n > 0 {
        let init = be_bytes(v / 256, (n - 1) as nat);
        assert(be_bytes(v, n).drop_last() =~= init);
        lemma_be_round_trip(v / 256, (n - 1) as nat);
    }
}

/// The first `n` bytes of `s` as a big-endian number, or `TruncatedRead` where
/// `s` is shorter.
pub open spec fn parse_be(s: Seq<u8>, n: nat) -> Result<(nat, nat), ProtocolError> {
    if s.len() < n {
        Err(ProtocolError::TruncatedRead)
    } else {
        Ok((be_value(s.take(n as int)), n))
    }
}

/// Two bytes as an unsigned number.
pub open spec fn parse_u16(s: Seq<u8>) -> Result<(u16, nat), ProtocolError> {
    match parse_be(s, 2) {
        Ok((v, n)) => Ok((v as u16, n)),
        Err(e) => Err(e),
    }
}

/// Eight bytes as a signed number in two's complement.
pub open spec fn parse_i64(s: Seq<u8>) -> Result<(i64, nat), ProtocolError> {
    match parse_be(s, 8) {
        Ok((v, n)) => Ok((from_bits64(v as u64), n)),
        Err(e) => Err(e),
    }
}

/// Sixteen bytes as an unsigned number.
pub open spec fn parse_u128(s: Seq<u8>) -> Result<(u128, nat), ProtocolError> {
    match parse_be(s, 16) {
        Ok((v, n)) => Ok((v as u128, n)),
        Err(e) => Err(e),
    }
}

/// One byte: 1 is true, every other value false.
pub open spec fn parse_bool(s: Seq<u8>) -> Result<(bool, nat), ProtocolError> {
    if s.len() < 1 {
        Err(ProtocolError::TruncatedRead)
    } else {
        Ok((s[0] == 1, 1))
    }
}

/// A length and that many bytes. A length that is negative or that runs past
/// the end of `s` is a `TruncatedRead`.
pub open spec fn parse_byte_vec(s: Seq<u8>) -> Result<(Seq<u8>, nat), ProtocolError> {
    match decode_varint(s) {
        Err(e) => Err(e),
        Ok((len, n)) => if len < 0 || s.len() < n + len {
            Err(ProtocolError::TruncatedRead)
        } else {
            Ok((s.subrange(n as int, n + len), (n + len) as nat))
        },
    }
}

/// A length in bytes and that many bytes of UTF-8.
pub open spec fn parse_string(s: Seq<u8>) -> Result<(Seq<char>, nat), ProtocolError> {
    match parse_byte_vec(s) {
        Err(e) => Err(e),
        Ok((body, n)) => if valid_utf8(body) {
            Ok((decode_utf8(body), n))
        } else {
            Err(ProtocolError::InvalidUtf8)
        },
    }
}

/// One byte as it is.
pub open spec fn encode_u8(v: u8) -> Seq<u8> {
    seq![v]
}

/// Two bytes, the high byte first.
pub open spec fn encode_u16(v: u16) -> Seq<u8> {
    be_bytes(v as nat, 2)
}

/// Eight bytes in two's complement, the high byte first.
pub open spec fn encode_i64(v: i64) -> Seq<u8> {
    be_bytes(to_bits64(v) as nat, 8)
}

/// Sixteen bytes, the high byte first.
pub open spec fn encode_u128(v: u128) -> Seq<u8> {
    be_bytes(v as nat, 16)
}

/// One byte: 1 for true, 0 for false.
pub open spec fn encode_bool(b: bool) -> Seq<u8> {
    seq![if b { 1u8 } else { 0u8 }]
}

/// The length of `b` as a variable-length integer, then `b`.
pub open spec fn encode_byte_vec(b: Seq<u8>) -> Seq<u8> {
    encode_varint(b.len() as i32) + b
}

/// The length of the UTF-8 form of `s` in bytes (not in characters), then
/// that form.
pub open spec fn encode_string(s: Seq<char>) -> Seq<u8> {
    encode_byte_vec(encode_utf8(s))
}

/// Reads `n` bytes as a big-endian number.
fn read_be(r: &mut Reader, n: usize) -> (res: Result<u128, ProtocolError>)
    requires
        n <= 16,
    ensures
        final(r).bytes() == old(r).bytes(),
        match parse_be(old(r).remaining(), n as nat) {
            Ok((v, k)) => res == Ok::<u128, ProtocolError>(v as u128) && v <= u128::MAX
                && final(r).position() == old(r).position() + k,
            Err(e) => res == Err::<u128, ProtocolError>(e)
                && final(r).position() == old(r).position(),
        },
{
    let bytes = r.take(n)?;
    let mut acc: u128 = 0;
    let mut i: usize = 0;
    while i < n
        invariant
            i <= n <= 16,
            bytes@.len() == n,
            acc == be_value(bytes@.take(i as int)),
        decreases n - i,
    {
        proof {
            let next = bytes@.take(i + 1);
            assert(next.drop_last() =~= bytes@.take(i as int));
            assert(next.last() == bytes@[i as int]);
            lemma_be_value_bound(bytes@.take(i as int));
            lemma_pow256_grows(i as nat, 15);
            lemma_pow256_values();
        }
        acc = acc * 256 + bytes[i] as u128;
        i = i + 1;
    }
    assert(bytes@.take(n as int) =~= bytes@);
    Ok(acc)
}

/// Reads two bytes as an unsigned number, the high byte first.
pub fn read_u16(r: &mut Reader) -> (res: Result<u16, ProtocolError>)
    ensures
        final(r).bytes() == old(r).bytes(),
        match parse_u16(old(r).remaining()) {
            Ok((v, n)) => res == Ok::<u16, ProtocolError>(v)
                && final(r).position() == old(r).position() + n,
            Err(e) => res == Err::<u16, ProtocolError>(e)
                && final(r).position() == old(r).position(),
        },
{
    proof {
        lemma_be_value_bound(r.remaining().take(2));
        lemma_pow256_values();
    }
    let v = read_be(r, 2)?;
    Ok(v as u16)
}

/// Reads eight bytes as a signed number in two's complement, the high byte
/// first.
pub fn read_i64(r: &mut Reader) -> (res: Result<i64, ProtocolError>)
    ensures
        final(r).bytes() == old(r).bytes(),
        match parse_i64(old(r).remaining()) {
            Ok((v, n)) => res == Ok::<i64, ProtocolError>(v)
                && final(r).position() == old(r).position() + n,
            Err(e) => res == Err::<i64, ProtocolError>(e)
                && final(r).position() == old(r).position(),
        },
{
    proof {
        lemma_be_value_bound(r.remaining().take(8));
        lemma_pow256_values();
    }
    let v = read_be(r, 8)?;
    if v < 0x8000_0000_0000_0000 {
        Ok(v as i64)
    } else {
        Ok((v as i128 - 0x1_0000_0000_0000_0000) as i64)
    }
}

/// Reads sixteen bytes as an unsigned number, the high byte first.
pub fn read_u128(r: &mut Reader) -> (res: Result<u128, ProtocolError>)
    ensures
        final(r).bytes() == old(r).bytes(),
        match parse_u128(old(r).remaining()) {
            Ok((v, n)) => res == Ok::<u128, ProtocolError>(v)
                && final(r).position() == old(r).position() + n,
            Err(e) => res == Err::<u128, ProtocolError>(e)
                && final(r).position() == old(r).position(),
        },
{
    read_be(r, 16)
}

/// Reads one byte as a truth value. No value of the byte is refused.
pub fn read_bool(r: &mut Reader) -> (res: Result<bool, ProtocolError>)
    ensures
        final(r).bytes() == old(r).bytes(),
        match parse_bool(old(r).remaining()) {
            Ok((v, n)) => res == Ok::<bool, ProtocolError>(v)
                && final(r).position() == old(r).position() + n,
            Err(e) => res == Err::<bool, ProtocolError>(e)
                && final(r).position() == old(r).position(),
        },
{
    let bytes = r.take(1)?;
    Ok(bytes[0] == 1)
}

/// Where the fields of three begin in what they are written as, one after the
/// other and followed by `rest`.
pub proof fn lemma_fields3(a: Seq<u8>, b: Seq<u8>, c: Seq<u8>, rest: Seq<u8>)
    ensures
        a + b + c + rest == a + (b + c + rest),
        (a + b + c + rest).skip(a.len() as int) == b + (c + rest),
        (a + b + c + rest).skip((a.len() + b.len()) as int) == c + rest,
        (a + b + c + rest).skip((a.len() + b.len() + c.len()) as int) == rest,
        (a + b + c).len() == a.len() + b.len() + c.len(),
{
    let s = a + b + c + rest;
    assert(s =~= a + (b + c + rest));
    assert(s.skip(a.len() as int) =~= b + (c + rest));
    assert(s.skip((a.len() + b.len()) as int) =~= c + rest);
    assert(s.skip((a.len() + b.len() + c.len()) as int) =~= rest);
}

/// The same for four fields.
pub proof fn lemma_fields4(a: Seq<u8>, b: Seq<u8>, c: Seq<u8>, d: Seq<u8>, rest: Seq<u8>)
    ensures
        a + b + c + d + rest == a + (b + c + d + rest),
        (a + b + c + d + rest).skip(a.len() as int) == b + (c + d + rest),
        (a + b + c + d + rest).skip((a.len() + b.len()) as int) == c + (d + rest),
        (a + b + c + d + rest).skip((a.len() + b.len() + c.len()) as int) == d + rest,
        (a + b + c + d).len() == a.len() + b.len() + c.len() + d.len(),
{
    let s = a + b + c + d + rest;
    assert(s =~= a + (b + c + d + rest));
    assert(s.skip(a.len() as int) =~= b + (c + d + rest));
    assert(s.skip((a.len() + b.len()) as int) =~= c + (d + rest));
    assert(s.skip((a.len() + b.len() + c.len()) as int) =~= d + rest);
}

/// A number of two bytes is read back as it was written, whatever follows
/// it. The same holds of the other fixed widths, of truth values, of byte
/// vectors and of strings, and each takes as many bytes as were written.
pub proof fn lemma_u16_round_trip(v: u16, rest: Seq<u8>)
    ensures
        encode_u16(v).len() == 2,
        parse_u16(encode_u16(v) + rest) == Ok::<(u16, nat), ProtocolError>((v, 2)),
{
    lemma_be_bytes_len(v as nat, 2);
    lemma_pow256_values();
    lemma_be_round_trip(v as nat, 2);
    assert((encode_u16(v) + rest).take(2) =~= encode_u16(v));
}

/// A signed number of eight bytes is read back.
pub proof fn lemma_i64_round_trip(v: i64, rest: Seq<u8>)
    ensures
        encode_i64(v).len() == 8,
        parse_i64(encode_i64(v) + rest) == Ok::<(i64, nat), ProtocolError>((v, 8)),
{
    lemma_be_bytes_len(to_bits64(v) as nat, 8);
    lemma_pow256_values();
    lemma_be_round_trip(to_bits64(v) as nat, 8);
    assert((encode_i64(v) + rest).take(8) =~= encode_i64(v));
}

/// A number of sixteen bytes is read back.
pub proof fn lemma_u128_round_trip(v: u128, rest: Seq<u8>)
    ensures
        encode_u128(v).len() == 16,
        parse_u128(encode_u128(v) + rest) == Ok::<(u128, nat), ProtocolError>((v, 16)),
{
    lemma_be_bytes_len(v as nat, 16);
    lemma_pow256_values();
    lemma_be_round_trip(v as nat, 16);
    assert((encode_u128(v) + rest).take(16) =~= encode_u128(v));
}

/// A truth value is read back.
pub proof fn lemma_bool_round_trip(b: bool, rest: Seq<u8>)
    ensures
        encode_bool(b).len() == 1,
        parse_bool(encode_bool(b) + rest) == Ok::<(bool, nat), ProtocolError>((b, 1)),
{
}

/// A byte vector is read back, if it is short enough for its length to be
/// written.
pub proof fn lemma_byte_vec_round_trip(b: Seq<u8>, rest: Seq<u8>)
    requires
        b.len() <= MAX_LEN,
    ensures
        parse_byte_vec(encode_byte_vec(b) + rest) == Ok::<(Seq<u8>, nat), ProtocolError>(
            (b, encode_byte_vec(b).len()),
        ),
{
    let len = b.len() as i32;
    let head = encode_varint(len);
    let s = encode_byte_vec(b) + rest;
    assert(s =~= head + (b + rest));
    lemma_varint_round_trip(len, b + rest);
    assert(s.subrange(head.len() as int, head.len() + len) =~= b);
}

/// A string is read back as it was written, and the length written before it
/// is the number of bytes of its UTF-8 form.
pub proof fn lemma_string_round_trip(s: Seq<char>, rest: Seq<u8>)
    requires
        encode_utf8(s).len() <= MAX_LEN,
    ensures
        parse_string(encode_string(s) + rest) == Ok::<(Seq<char>, nat), ProtocolError>(
            (s, encode_string(s).len()),
        ),
        encode_string(s) == encode_varint(encode_utf8(s).len() as i32) + encode_utf8(s),
        decode_varint(encode_string(s) + rest) matches Ok((len, _)) && len == encode_utf8(s).len(),
{
    lemma_byte_vec_round_trip(encode_utf8(s), rest);
    encode_utf8_valid_utf8(s);
    encode_utf8_decode_utf8(s);
    let head = encode_varint(encode_utf8(s).len() as i32);
    assert(encode_string(s) + rest =~= head + (encode_utf8(s) + rest));
    lemma_varint_round_trip(encode_utf8(s).len() as i32, encode_utf8(s) + rest);
}

/// A string that was read takes no more bytes when written than it took
/// where it was read, its length prefix left aside.
pub proof fn lemma_parse_string_len(s: Seq<u8>)
    ensures
        parse_string(s) matches Ok((v, n)) ==> encode_utf8(v).len() < n <= s.len(),
{
    if parse_string(s) is Ok {
        let body = parse_byte_vec(s)->Ok_0.0;
        decode_utf8_encode_utf8(body);
        lemma_encode_bits_len(to_bits(decode_varint(s)->Ok_0.0));
        lemma_decode_takes_encoding_len(s);
    }
}

/// `String::from_utf8`, with its error dropped: a string where `bytes` are
/// UTF-8, and then the string whose bytes they are; nothing where they are not.
#[verifier::external_body]
fn string_from_utf8(bytes: Vec<u8>) -> (res: Option<String>)
    ensures
        res is Some <==> valid_utf8(bytes@),
        res matches Some(s) ==> encode_utf8(s@) == bytes@,
{
    String::from_utf8(bytes).ok()
}

/// Reads a length and that many bytes.
pub fn read_byte_vec(r: &mut Reader) -> (res: Result<Vec<u8>, ProtocolError>)
    ensures
        final(r).bytes() == old(r).bytes(),
        match parse_byte_vec(old(r).remaining()) {
            Ok((v, n)) => res is Ok && res->Ok_0@ == v && v.len() <= MAX_LEN
                && final(r).position() == old(r).position() + n,
            Err(e) => res == Err::<Vec<u8>, ProtocolError>(e)
                && final(r).position() == old(r).position(),
        },
{
    let ghost rest = r.remaining();
    let start = r.consumed();
    let left = r.remaining_len();
    let len = read_varint(r)?;
    let ghost n = decode_varint(rest)->Ok_0.1;
    let used = r.consumed() - start;
    if len < 0 || (len as usize) > left - used {
        r.advance_back(used);
        return Err(ProtocolError::TruncatedRead);
    }
    let bytes = r.take(len as usize)?;
    assert(bytes@ == rest.subrange(n as int, n + len));
    Ok(slice_to_vec(bytes))
}

/// Reads a byte vector whose length is known beforehand to be `L`.
///
/// The length on the wire has to be `L`: it is for the caller to know that it
/// is.
pub fn read_byte_array<const L: usize>(r: &mut Reader) -> (res: Result<[u8; L], ProtocolError>)
    requires
        decode_varint(old(r).remaining()) matches Ok((len, _)) ==> len == L,
    ensures
        final(r).bytes() == old(r).bytes(),
        match parse_byte_vec(old(r).remaining()) {
            Ok((v, n)) => res is Ok && res->Ok_0@ == v
                && final(r).position() == old(r).position() + n,
            Err(e) => res == Err::<[u8; L], ProtocolError>(e)
                && final(r).position() == old(r).position(),
        },
{
    let bytes = read_byte_vec(r)?;
    let mut arr = [0u8; L];
    let mut i: usize = 0;
    while i < L
        invariant
            i <= L,
            bytes@.len() == L,
            forall|j: int| 0 <= j < i ==> arr@[j] == bytes@[j],
        decreases L - i,
    {
        arr[i] = bytes[i];
        i = i + 1;
    }
    assert(arr@ =~= bytes@);
    Ok(arr)
}

/// Reads a length in bytes and that many bytes of UTF-8.
pub fn read_string(r: &mut Reader) -> (res: Result<String, ProtocolError>)
    ensures
        final(r).bytes() == old(r).bytes(),
        match parse_string(old(r).remaining()) {
            Ok((v, n)) => res is Ok && res->Ok_0@ == v && encode_utf8(v).len() <= MAX_LEN
                && final(r).position() == old(r).position() + n,
            Err(e) => res == Err::<String, ProtocolError>(e)
                && final(r).position() == old(r).position(),
        },
{
    let start = r.consumed();
    let bytes = read_byte_vec(r)?;
    match string_from_utf8(bytes) {
        Some(s) => {
            proof {
                encode_utf8_decode_utf8(s@);
            }
            Ok(s)
        },
        None => {
            let used = r.consumed() - start;
            r.advance_back(used);
            Err(ProtocolError::InvalidUtf8)
        },
    }
}

/// Appends the last `n` big-endian digits of `v`.
fn write_be(w: &mut Vec<u8>, v: u128, n: usize)
    ensures
        final(w)@ == old(w)@ + be_bytes(v as nat, n as nat),
    decreases n,
{
    if n > 0 {
        write_be(w, v / 256, n - 1);
        assert(w@.push((v % 256) as u8) =~= old(w)@ + be_bytes(v as nat, n as nat));
        w.push((v % 256) as u8);
    } else {
        assert(w@ =~= old(w)@ + be_bytes(v as nat, n as nat));
    }
}

/// Appends one byte.
pub fn write_u8(w: &mut Vec<u8>, value: u8)
    ensures
        final(w)@ == old(w)@ + encode_u8(value),
{
    assert(w@.push(value) =~= w@ + encode_u8(value));
    w.push(value);
}

/// Appends a truth value: one byte, 1 for true and 0 for false.
pub fn write_bool(w: &mut Vec<u8>, value: bool)
    ensures
        final(w)@ == old(w)@ + encode_bool(value),
{
    let byte: u8 = if value { 1 } else { 0 };
    assert(w@.push(byte) =~= w@ + encode_bool(value));
    w.push(byte);
}

/// Appends an unsigned number as two bytes, the high byte first.
pub fn write_u16(w: &mut Vec<u8>, value: u16)
    ensures
        final(w)@ == old(w)@ + encode_u16(value),
{
    write_be(w, value as u128, 2);
}

/// Appends a signed number as eight bytes in two's complement, the high byte
/// first.
pub fn write_i64(w: &mut Vec<u8>, value: i64)
    ensures
        final(w)@ == old(w)@ + encode_i64(value),
{
    let bits: u64 = if value >= 0 {
        value as u64
    } else {
        (value as i128 + 0x1_0000_0000_0000_0000) as u64
    };
    write_be(w, bits as u128, 8);
}

/// Appends an unsigned number as sixteen bytes, the high byte first.
pub fn write_u128(w: &mut Vec<u8>, value: u128)
    ensures
        final(w)@ == old(w)@ + encode_u128(value),
{
    write_be(w, value, 16);
}

/// Appends the length of `buf` and then `buf`.
pub fn write_byte_vec(w: &mut Vec<u8>, buf: &[u8])
    requires
        buf@.len() <= MAX_LEN,
    ensures
        final(w)@ == old(w)@ + encode_byte_vec(buf@),
{
    write_varint(w, buf.len() as i32);
    let ghost mid = w@;
    w.extend_from_slice(buf);
    assert(w@ =~= mid + buf@);
    assert(w@ =~= old(w)@ + encode_byte_vec(buf@));
}

/// Appends the length of `s` in bytes and then its bytes.
pub fn write_string(w: &mut Vec<u8>, s: &str)
    requires
        s.spec_bytes().len() <= MAX_LEN,
    ensures
        final(w)@ == old(w)@ + encode_string(s@),
{
    write_byte_vec(w, s.as_bytes());
}

} // verus!
