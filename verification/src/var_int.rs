use vstd::prelude::*;
use crate::error::ProtocolError;
use crate::reader::Reader;

verus! {

/// The most bytes a variable-length integer takes on the wire.
pub const MAX_VARINT_LEN: usize = 5;

/// The 32-bit pattern of `v`, read as an unsigned number (two's complement).
pub open spec fn to_bits(v: i32) -> u32 {
    if v >= 0 {
        v as u32
    } else {
        (v + 0x1_0000_0000) as u32
    }
}

/// The signed number whose 32-bit pattern is `u`.
pub open spec fn from_bits(u: u32) -> i32 {
    if u < 0x8000_0000 {
        u as i32
    } else {
        (u - 0x1_0000_0000) as i32
    }
}

/// The weight of the seven data bits of the byte at `position`: 128 to that power.
pub open spec fn weight(position: nat) -> nat
    decreases position,
{
    if position == 0 {
        1
    } else {
        128 * weight((position - 1) as nat)
    }
}

/// The bytes that stand for the unsigned pattern `u`: seven bits to a byte, the
/// low ones first, the high bit set on every byte but the last.
pub open spec fn encode_bits(u: u32) -> Seq<u8>
    decreases u,
{
    if u < 128 {
        seq![u as u8]
    } else {
        seq![(u % 128 + 128) as u8] + encode_bits(u / 128)
    }
}

/// The bytes that stand for `v`.
pub open spec fn encode_varint(v: i32) -> Seq<u8> {
    encode_bits(to_bits(v))
}

/// Reads on from the byte at `position`, with `acc` the sum of the weighted
/// data bits of the bytes before it.
pub open spec fn decode_from(s: Seq<u8>, position: nat, acc: nat) -> Result<
    (i32, nat),
    ProtocolError,
>
    decreases 5 - position,
{
    if position >= 5 {
        Err(ProtocolError::MalformedVarInt)
    } else if position >= s.len() {
        Err(ProtocolError::TruncatedRead)
    } else {
        let sum = acc + (s[position as int] % 128) as nat * weight(position);
        if s[position as int] < 128 {
            Ok((from_bits((sum % 0x1_0000_0000) as u32), position + 1))
        } else {
            decode_from(s, position + 1, sum)
        }
    }
}

/// The integer that `s` begins with and the number of bytes it takes, or why
/// there is none: `MalformedVarInt` where the first five bytes all ask for
/// another, `TruncatedRead` where `s` ends before a byte that ends the integer.
/// Bits beyond the thirty-second are dropped.
pub open spec fn decode_varint(s: Seq<u8>) -> Result<(i32, nat), ProtocolError> {
    decode_from(s, 0, 0)
}

/// The unsigned pattern of `v`.
fn bits_of(v: i32) -> (u: u32)
    ensures
        u == to_bits(v),
{
    if v >= 0 {
        v as u32
    } else {
        (v as i64 + 0x1_0000_0000) as u32
    }
}

/// The signed number with the pattern `u`.
fn signed_of(u: u32) -> (v: i32)
    ensures
        v == from_bits(u),
{
    if u < 0x8000_0000 {
        u as i32
    } else {
        (u as i64 - 0x1_0000_0000) as i32
    }
}

/// The weights of the five positions.
pub proof fn lemma_weights()
    ensures
        weight(0) == 1,
        weight(1) == 0x80,
        weight(2) == 0x4000,
        weight(3) == 0x20_0000,
        weight(4) == 0x1000_0000,
        weight(5) == 0x8_0000_0000,
{
    reveal_with_fuel(weight, 6);
}

/// An encoding has from one to five bytes, by the size of the pattern.
pub proof fn lemma_encode_bits_len(u: u32)
    ensures
        encode_bits(u).len() == if u < 0x80 {
            1nat
        } else if u < 0x4000 {
            2nat
        } else if u < 0x20_0000 {
            3nat
        } else if u < 0x1000_0000 {
            4nat
        } else {
            5nat
        },
{
    reveal_with_fuel(encode_bits, 5);
}

/// Reading on from `position` over the bytes of `u` adds `u`, weighted, to
/// what was read before.
proof fn lemma_decode_from_encoding(s: Seq<u8>, position: nat, acc: nat, u: u32)
    requires
        position + encode_bits(u).len() <= 5,
        position + encode_bits(u).len() <= s.len(),
        s.subrange(position as int, (position + encode_bits(u).len()) as int) == encode_bits(u),
    ensures
        decode_from(s, position, acc) == Ok::<(i32, nat), ProtocolError>(
            (
                from_bits(((acc + u * weight(position)) % 0x1_0000_0000) as u32),
                position + encode_bits(u).len(),
            ),
        ),
    decreases u,
{
    let enc = encode_bits(u);
    let len = enc.len();
    assert(s[position as int] == s.subrange(position as int, (position + len) as int)[0]);
    if u < 128 {
        assert(s[position as int] == u);
    } else {
        let tail = encode_bits(u / 128);
        assert(enc == seq![(u % 128 + 128) as u8] + tail);
        assert(s[position as int] == u % 128 + 128);
        let sum = acc + (u % 128) as nat * weight(position);
        assert(s.subrange((position + 1) as int, (position + 1 + tail.len()) as int) =~= tail) by {
            assert forall|i: int| 0 <= i < tail.len() implies s[position + 1 + i] == tail[i] by {
                let here = s.subrange(position as int, (position + len) as int);
                assert(s[position + 1 + i] == here[1 + i]);
                assert(enc[1 + i] == tail[i]);
            }
        }
        lemma_decode_from_encoding(s, position + 1, sum, u / 128);
        assert(weight(position + 1) == 128 * weight(position));
        assert(sum + (u / 128) * weight(position + 1) == acc + u * weight(position)) by {
            let w = weight(position) as int;
            let q = (u / 128) as int;
            let r = (u % 128) as int;
            assert(u == 128 * q + r);
            assert(q * (128 * w) == (128 * q) * w) by (nonlinear_arith);
            assert((128 * q + r) * w == (128 * q) * w + r * w) by (nonlinear_arith);
        }
    }
}

/// What was written is read back: the bytes of `v`, whatever follows them, are
/// read as `v`, and as many bytes are taken as were written.
pub proof fn lemma_varint_round_trip(v: i32, rest: Seq<u8>)
    ensures
        decode_varint(encode_varint(v) + rest) == Ok::<(i32, nat), ProtocolError>(
            (v, encode_varint(v).len()),
        ),
{
    let u = to_bits(v);
    let s = encode_varint(v) + rest;
    lemma_encode_bits_len(u);
    assert(s.subrange(0, encode_bits(u).len() as int) =~= encode_bits(u));
    lemma_decode_from_encoding(s, 0, 0, u);
    assert(u * weight(0) == u) by (nonlinear_arith)
        requires
            weight(0) == 1,
    ;
}

/// An integer that is read takes from one to five bytes, all of them there.
pub proof fn lemma_decode_takes_encoding_len(s: Seq<u8>)
    ensures
        decode_varint(s) matches Ok((_, n)) ==> 1 <= n <= 5 && n <= s.len(),
{
    reveal_with_fuel(decode_from, 6);
}

/// Appends the encoding of `number` to `w` and returns how many bytes that took.
///
/// The shift that moves on to the next seven bits is an unsigned one, so a
/// negative number takes five bytes and its sign bits end in the last of them.
pub fn write_varint(w: &mut Vec<u8>, number: i32) -> (count: usize)
    ensures
        final(w)@ == old(w)@ + encode_varint(number),
        count == encode_varint(number).len(),
        1 <= count <= MAX_VARINT_LEN,
{
    let ghost start = w@;
    let before = w.len();
    let mut value: u32 = bits_of(number);
    while value >= 0x80
        invariant
            start + encode_varint(number) == w@ + encode_bits(value),
        decreases value,
    {
        assert(value & 0x7f < 128) by (bit_vector);
        let byte = ((value & 0x7f) as u8) | 0x80;
        assert(byte == (value % 128 + 128) as u8) by (bit_vector)
            requires
                byte == ((value & 0x7f) as u8) | 0x80,
        ;
        assert(value >> 7 == value / 128) by (bit_vector);
        assert(w@.push(byte) + encode_bits(value / 128) =~= w@ + encode_bits(value));
        w.push(byte);
        value = value >> 7;
    }
    assert(w@.push(value as u8) =~= w@ + encode_bits(value));
    w.push(value as u8);
    proof {
        lemma_encode_bits_len(to_bits(number));
        assert(w@.len() == start.len() + encode_varint(number).len());
    }
    w.len() - before
}

/// Reads one integer at the position of `r`.
///
/// On success the position has moved past the integer's bytes; on failure it
/// has not moved.
pub fn read_varint(r: &mut Reader) -> (res: Result<i32, ProtocolError>)
    ensures
        final(r).bytes() == old(r).bytes(),
        match decode_varint(old(r).remaining()) {
            Ok((v, n)) => res == Ok::<i32, ProtocolError>(v)
                && final(r).position() == old(r).position() + n,
            Err(e) => res == Err::<i32, ProtocolError>(e)
                && final(r).position() == old(r).position(),
        },
{
    let mut acc: u64 = 0;
    let mut scale: u64 = 1;
    let mut i: usize = 0;
    while i < MAX_VARINT_LEN
        invariant
            i <= 5,
            r.bytes() == old(r).bytes(),
            r.position() == old(r).position(),
            scale == weight(i as nat),
            scale <= 0x8_0000_0000,
            acc < scale,
            decode_varint(r.remaining()) == decode_from(r.remaining(), i as nat, acc as nat),
        decreases 5 - i,
    {
        match r.peek(i) {
            None => {
                return Err(ProtocolError::TruncatedRead);
            },
            Some(b) => {
                let low = b & 0x7f;
                assert(low == b % 128) by (bit_vector)
                    requires
                        low == b & 0x7f,
                ;
                assert(b & 0x80 == 0 <==> b < 128) by (bit_vector);
                proof {
                    lemma_weights();
                }
                assert(low as u64 * scale <= 127 * scale) by (nonlinear_arith)
                    requires
                        low <= 127,
                        scale >= 0,
                ;
                acc = acc + low as u64 * scale;
                if b & 0x80 == 0 {
                    r.advance(i + 1);
                    return Ok(signed_of((acc % 0x1_0000_0000) as u32));
                }
                scale = scale * 128;
                i = i + 1;
            },
        }
    }
    Err(ProtocolError::MalformedVarInt)
}

} // verus!
