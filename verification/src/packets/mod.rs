pub mod handshake;
pub mod login_start;
pub mod login_success;
pub mod request_encryption;
pub mod response_encryption;

use vstd::prelude::*;
use vstd::slice::{slice_subrange, slice_to_vec};
use crate::cipher::{cfb8_encrypt, register_after, AesCryptor, CipherState};
use crate::codec::{
    encode_byte_vec, lemma_byte_vec_round_trip, parse_byte_vec, write_byte_vec, MAX_LEN,
};
use crate::error::ProtocolError;
use crate::reader::Reader;
use crate::var_int::{
    decode_varint, encode_varint, lemma_decode_takes_encoding_len, lemma_encode_bits_len,
    lemma_varint_round_trip, read_varint, to_bits, write_varint, MAX_VARINT_LEN,
};

verus! {

/// A kind of packet: how its fields are written and read.
///
/// `encoding` and `parse` are the two directions on plain values;
/// `lemma_round_trip` is the law that holds them together, and `encode` and
/// `decode` are the functions that run.
pub trait Packet: View + Sized {
    /// The bytes that the fields are written as, in their order.
    spec fn encoding(v: Self::V) -> Seq<u8>;

    /// Whether each string and byte vector in `v` is short enough for its
    /// length to be written before it.
    spec fn fits(v: Self::V) -> bool;

    /// The fields that `s` begins with and the number of bytes they take, or
    /// the error of the first field that cannot be read.
    spec fn parse(s: Seq<u8>) -> Result<(Self::V, nat), ProtocolError>;

    /// What was written is read back, whatever follows it.
    proof fn lemma_round_trip(v: Self::V, rest: Seq<u8>)
        requires
            Self::fits(v),
        ensures
            Self::parse(Self::encoding(v) + rest) == Ok::<(Self::V, nat), ProtocolError>(
                (v, Self::encoding(v).len()),
            ),
    ;

    /// The payload of this packet.
    fn encode(&self) -> (out: Vec<u8>)
        requires
            Self::fits(self@),
        ensures
            out@ == Self::encoding(self@),
    ;

    /// Reads a packet from the start of `payload`. Bytes after its last field
    /// are left unread.
    fn decode(payload: &[u8]) -> (res: Result<Self, ProtocolError>)
        ensures
            match Self::parse(payload@) {
                Ok((v, _)) => res is Ok && res->Ok_0@ == v && Self::fits(v),
                Err(e) => res is Err && res->Err_0 == e,
            },
    ;
}

/// A payload of at most this many bytes fits in one packet whatever the id.
pub const MAX_PAYLOAD_LEN: usize = 0x7fff_fffa;

/// Whether a packet with this id and this payload can be written: the id and
/// the payload together have to be short enough for their length to be
/// written before them.
pub open spec fn fits_in_packet(id: i32, payload: Seq<u8>) -> bool {
    encode_varint(id).len() + payload.len() <= MAX_LEN
}

/// A payload of at most `MAX_PAYLOAD_LEN` bytes fits in a packet.
pub proof fn lemma_fits_in_packet(id: i32, payload: Seq<u8>)
    requires
        payload.len() <= MAX_PAYLOAD_LEN,
    ensures
        fits_in_packet(id, payload),
{
    lemma_encode_bits_len(to_bits(id));
}

/// A packet on the wire: the length of what follows, the packet's id, the
/// payload. The length counts the bytes of the id and of the payload.
pub open spec fn frame(id: i32, payload: Seq<u8>) -> Seq<u8> {
    encode_byte_vec(encode_varint(id) + payload)
}

/// The packet that `s` begins with: its id, its payload and the number of
/// bytes that the whole packet takes. The id is read from within the bytes
/// that the length announces.
pub open spec fn parse_frame(s: Seq<u8>) -> Result<(i32, Seq<u8>, nat), ProtocolError> {
    match parse_byte_vec(s) {
        Err(e) => Err(e),
        Ok((body, n)) => match decode_varint(body) {
            Err(e) => Err(e),
            Ok((id, k)) => Ok((id, body.skip(k as int), n)),
        },
    }
}

/// A packet is read back with the id and the payload it was written with, and
/// the length it starts with is that of its id plus that of its payload.
pub proof fn lemma_frame_round_trip(id: i32, payload: Seq<u8>, rest: Seq<u8>)
    requires
        fits_in_packet(id, payload),
    ensures
        parse_frame(frame(id, payload) + rest) == Ok::<(i32, Seq<u8>, nat), ProtocolError>(
            (id, payload, frame(id, payload).len()),
        ),
        decode_varint(frame(id, payload) + rest) matches Ok((len, _)) && len == encode_varint(
            id,
        ).len() + payload.len(),
        missing(frame(id, payload) + rest) == Ok::<nat, ProtocolError>(0),
{
    let head = encode_varint(id);
    let body = head + payload;
    lemma_encode_bits_len(to_bits(id));
    lemma_byte_vec_round_trip(body, rest);
    lemma_varint_round_trip(id, payload);
    assert(body.skip(head.len() as int) =~= payload);
    let prefix = encode_varint(body.len() as i32);
    assert(frame(id, payload) + rest =~= prefix + (body + rest));
    lemma_varint_round_trip(body.len() as i32, body + rest);
}

/// A length prefix takes at most five bytes.
pub proof fn lemma_byte_vec_len(b: Seq<u8>)
    ensures
        b.len() + 1 <= encode_byte_vec(b).len() <= b.len() + MAX_VARINT_LEN,
{
    lemma_encode_bits_len(to_bits(b.len() as i32));
}

/// The length that the packet at the start of `s` announces: the number of
/// bytes that follow the length itself, those of the id among them.
pub open spec fn announced_len(s: Seq<u8>) -> int {
    decode_varint(s)->Ok_0.0 as int
}

/// The announced length is that of the id and of the payload together, and
/// the whole packet is longer by the bytes of the length itself.
pub proof fn lemma_announced_len(s: Seq<u8>)
    ensures
        parse_frame(s) matches Ok((id, payload, n)) ==> {
            &&& announced_len(s) == n - decode_varint(s)->Ok_0.1
            &&& announced_len(s) == decode_varint(
                s.subrange(decode_varint(s)->Ok_0.1 as int, n as int),
            )->Ok_0.1 + payload.len()
            &&& payload.len() < announced_len(s)
        },
{
    if parse_frame(s) is Ok {
        let body = parse_byte_vec(s)->Ok_0.0;
        lemma_decode_takes_encoding_len(body);
    }
}

/// Reads the head of a packet: the length, and within it the id. Returns
/// the announced length, which counts the id and the payload, and the id,
/// and leaves the position at the first byte of the payload, all of which
/// is there to be read: as many bytes as the announced length less the
/// bytes that the id took.
pub fn read_packet(r: &mut Reader) -> (res: Result<(usize, i32), ProtocolError>)
    ensures
        final(r).bytes() == old(r).bytes(),
        match parse_frame(old(r).remaining()) {
            Ok((id, payload, n)) => {
                &&& res == Ok::<(usize, i32), ProtocolError>(
                    (announced_len(old(r).remaining()) as usize, id),
                )
                &&& final(r).position() == old(r).position() + n - payload.len()
                &&& payload.len() <= final(r).remaining().len()
                &&& final(r).remaining().take(payload.len() as int) == payload
            },
            Err(e) => res == Err::<(usize, i32), ProtocolError>(e)
                && final(r).position() == old(r).position(),
        },
{
    let ghost rest = r.remaining();
    let start = r.consumed();
    let left = r.remaining_len();
    let len = read_varint(r)?;
    let used = r.consumed() - start;
    if len < 0 || (len as usize) > left - used {
        r.advance_back(used);
        return Err(ProtocolError::TruncatedRead);
    }
    let body = r.take(len as usize)?;
    assert(body@ == rest.subrange(used as int, used + len));
    let mut inner = Reader::new(body);
    assert(inner.remaining() =~= body@);
    match read_varint(&mut inner) {
        Err(e) => {
            r.advance_back(used + len as usize);
            Err(e)
        },
        Ok(id) => {
            let k = inner.consumed();
            let payload_len = len as usize - k;
            r.advance_back(payload_len);
            assert(r.remaining().take(payload_len as int) =~= body@.skip(k as int));
            Ok((len as usize, id))
        },
    }
}

/// What taking a packet off a buffer comes to.
#[derive(Debug, PartialEq, Eq)]
pub enum Framing {
    /// A whole packet was there and has been taken.
    Packet { id: i32, payload: Vec<u8> },
    /// The packet ends this many bytes further on; at least one is missing.
    Missing(usize),
}

/// How many bytes of the packet that `s` begins with have yet to arrive:
/// one while the length is not all there, then as many as the length
/// announces beyond what is there, and none once the packet is whole. A
/// length that cannot be read, or that is negative, is an error.
pub open spec fn missing(s: Seq<u8>) -> Result<nat, ProtocolError> {
    match decode_varint(s) {
        Err(ProtocolError::TruncatedRead) => Ok(1),
        Err(e) => Err(e),
        Ok((len, n)) => if len < 0 {
            Err(ProtocolError::TruncatedRead)
        } else if s.len() < n + len {
            Ok((n + len - s.len()) as nat)
        } else {
            Ok(0)
        },
    }
}

/// While bytes are missing there is no packet to read, and once none is
/// missing the only thing that can still be wrong is the id.
pub proof fn lemma_missing(s: Seq<u8>)
    ensures
        missing(s) matches Ok(k) && k > 0 ==> parse_frame(s) == Err::<
            (i32, Seq<u8>, nat),
            ProtocolError,
        >(ProtocolError::TruncatedRead),
        missing(s) matches Err(e) ==> parse_frame(s) == Err::<(i32, Seq<u8>, nat), ProtocolError>(
            e,
        ),
        parse_frame(s) is Ok ==> missing(s) == Ok::<nat, ProtocolError>(0),
{
}

/// Takes the first packet off `buffer`, if all of it is there.
///
/// Where `buffer` begins with a whole packet, its id and payload are
/// returned and its bytes leave the buffer. Where the packet's end has not
/// arrived yet, the number of bytes still missing is returned and the buffer
/// stays. Where what is there can be no packet, that is an error, and the
/// buffer stays as well.
pub fn take_packet(buffer: &mut Vec<u8>) -> (res: Result<Framing, ProtocolError>)
    ensures
        match missing(old(buffer)@) {
            Err(e) => res matches Err(f) && f == e && final(buffer)@ == old(buffer)@,
            Ok(k) => if k > 0 {
                res matches Ok(Framing::Missing(m)) && m == k && final(buffer)@ == old(buffer)@
            } else {
                match parse_frame(old(buffer)@) {
                    Ok((id, payload, n)) => res matches Ok(Framing::Packet { id: i, payload: p })
                        && i == id && p@ == payload && final(buffer)@ == old(buffer)@.skip(
                        n as int,
                    ),
                    Err(e) => res matches Err(f) && f == e && final(buffer)@ == old(buffer)@,
                }
            },
        },
{
    let total = buffer.len();
    let mut r = Reader::new(buffer.as_slice());
    assert(r.remaining() =~= buffer@);
    let ghost parsed = parse_frame(buffer@);
    match read_varint(&mut r) {
        Err(ProtocolError::TruncatedRead) => {
            return Ok(Framing::Missing(1));
        },
        Err(e) => {
            return Err(e);
        },
        Ok(len) => {
            let used = r.consumed();
            if len < 0 {
                return Err(ProtocolError::TruncatedRead);
            }
            if len as usize > total - used {
                return Ok(Framing::Missing(len as usize - (total - used)));
            }
        },
    }
    let prefix = r.consumed();
    r.advance_back(prefix);
    let (announced, id) = read_packet(&mut r)?;
    let start = r.consumed();
    let ghost payload_seq = parsed->Ok_0.1;
    let ghost n = parsed->Ok_0.2;
    proof {
        lemma_announced_len(buffer@);
    }
    let len = prefix + announced - start;
    assert(r.remaining() =~= buffer@.skip(start as int));
    assert(n == start + len);
    assert(start + len <= total);
    let payload = slice_to_vec(slice_subrange(buffer.as_slice(), start, start + len));
    assert(payload@ =~= payload_seq) by {
        assert(buffer@.subrange(start as int, start + len) =~= buffer@.skip(start as int).take(
            len as int,
        ));
    }
    let rest = buffer.split_off(start + len);
    assert(rest@ =~= old(buffer)@.skip(n as int));
    *buffer = rest;
    Ok(Framing::Packet { id, payload })
}

/// Appends to `w` the packet with the id `packet_id` and the payload
/// `packet_data`.
pub fn write_packet(w: &mut Vec<u8>, packet_data: &[u8], packet_id: i32)
    requires
        fits_in_packet(packet_id, packet_data@),
    ensures
        final(w)@ == old(w)@ + frame(packet_id, packet_data@),
{
    let mut packet: Vec<u8> = Vec::new();
    write_varint(&mut packet, packet_id);
    let ghost head = packet@;
    packet.extend_from_slice(packet_data);
    assert(packet@ =~= encode_varint(packet_id) + packet_data@);
    write_byte_vec(w, packet.as_slice());
}

/// Appends to `w` the same packet, encrypted: the whole of it, length and id
/// included, goes through the cipher as the next bytes of the outbound stream.
pub fn write_packet_encrypted(
    w: &mut Vec<u8>,
    packet_data: &[u8],
    packet_id: i32,
    cryptor: &mut AesCryptor,
)
    requires
        fits_in_packet(packet_id, packet_data@),
    ensures
        final(w)@ == old(w)@ + cfb8_encrypt(
            old(cryptor)@.key,
            old(cryptor)@.encrypt_register,
            frame(packet_id, packet_data@),
        ),
        final(cryptor)@ == (CipherState {
            encrypt_register: register_after(
                old(cryptor)@.encrypt_register,
                cfb8_encrypt(
                    old(cryptor)@.key,
                    old(cryptor)@.encrypt_register,
                    frame(packet_id, packet_data@),
                ),
            ),
            ..old(cryptor)@
        }),
{
    let mut plain: Vec<u8> = Vec::new();
    write_packet(&mut plain, packet_data, packet_id);
    assert(plain@ =~= frame(packet_id, packet_data@));
    cryptor.encrypt(&mut plain);
    let ghost before = w@;
    w.extend_from_slice(plain.as_slice());
    assert(w@ =~= before + plain@);
}

} // verus!
