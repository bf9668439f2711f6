use vstd::prelude::*;
use vstd::utf8::encode_utf8;
use crate::codec::{
    encode_string, encode_u16, lemma_fields4, lemma_string_round_trip, lemma_u16_round_trip,
    parse_string, parse_u16, read_string, read_u16, write_string, write_u16, MAX_LEN,
};
use crate::connection::{Connection, ConnectionState, ConnectionView};
use crate::error::ProtocolError;
use crate::packets::Packet;
use crate::reader::Reader;
use crate::var_int::{
    decode_varint, encode_varint, lemma_varint_round_trip, read_varint, write_varint,
};

verus! {

/// The first packet of a connection: the client says which protocol it
/// speaks, which address it dialled, and which state it wants next.
#[derive(Debug, PartialEq, Eq)]
pub struct Handshake {
    pub protocol_version: i32,
    pub server_address: String,
    pub server_port: u16,
    pub next_state: i32,
}

/// A handshake as plain values.
pub struct HandshakeView {
    pub protocol_version: i32,
    pub server_address: Seq<char>,
    pub server_port: u16,
    pub next_state: i32,
}

impl View for Handshake {
    type V = HandshakeView;

    open spec fn view(&self) -> HandshakeView {
        HandshakeView {
            protocol_version: self.protocol_version,
            server_address: self.server_address@,
            server_port: self.server_port,
            next_state: self.next_state,
        }
    }
}

impl Packet for Handshake {
    open spec fn encoding(v: HandshakeView) -> Seq<u8> {
        encode_varint(v.protocol_version) + encode_string(v.server_address) + encode_u16(
            v.server_port,
        ) + encode_varint(v.next_state)
    }

    open spec fn fits(v: HandshakeView) -> bool {
        encode_utf8(v.server_address).len() <= MAX_LEN
    }

    open spec fn parse(s: Seq<u8>) -> Result<(HandshakeView, nat), ProtocolError> {
        match decode_varint(s) {
            Err(e) => Err(e),
            Ok((protocol_version, n1)) => match parse_string(s.skip(n1 as int)) {
                Err(e) => Err(e),
                Ok((server_address, n2)) => match parse_u16(s.skip((n1 + n2) as int)) {
                    Err(e) => Err(e),
                    Ok((server_port, n3)) => match decode_varint(s.skip((n1 + n2 + n3) as int)) {
                        Err(e) => Err(e),
                        Ok((next_state, n4)) => Ok(
                            (
                                HandshakeView {
                                    protocol_version,
                                    server_address,
                                    server_port,
                                    next_state,
                                },
                                n1 + n2 + n3 + n4,
                            ),
                        ),
                    },
                },
            },
        }
    }

    proof fn lemma_round_trip(v: HandshakeView, rest: Seq<u8>) {
        let e1 = encode_varint(v.protocol_version);
        let e2 = encode_string(v.server_address);
        let e3 = encode_u16(v.server_port);
        let e4 = encode_varint(v.next_state);
        lemma_fields4(e1, e2, e3, e4, rest);
        lemma_varint_round_trip(v.protocol_version, e2 + e3 + e4 + rest);
        lemma_string_round_trip(v.server_address, e3 + e4 + rest);
        lemma_u16_round_trip(v.server_port, e4 + rest);
        lemma_varint_round_trip(v.next_state, rest);
    }

    fn encode(&self) -> (out: Vec<u8>) {
        let mut out: Vec<u8> = Vec::new();
        write_varint(&mut out, self.protocol_version);
        write_string(&mut out, self.server_address.as_str());
        write_u16(&mut out, self.server_port);
        write_varint(&mut out, self.next_state);
        assert(out@ =~= Self::encoding(self@));
        out
    }

    fn decode(payload: &[u8]) -> (res: Result<Self, ProtocolError>) {
        let mut r = Reader::new(payload);
        assert(r.remaining() =~= payload@);
        let protocol_version = read_varint(&mut r)?;
        let server_address = read_string(&mut r)?;
        let server_port = read_u16(&mut r)?;
        let next_state = read_varint(&mut r)?;
        Ok(Handshake { protocol_version, server_address, server_port, next_state })
    }
}

impl Handshake {
    /// What a handshake makes of a connection: in the `Handshake` state, and
    /// there only, a payload that reads as a handshake moves the connection
    /// to the state it asks for, if it asks for `Status` or `Login`. In any
    /// other state, and on a request for any other state, it is an
    /// `UnexpectedState`.
    pub open spec fn outcome(c: ConnectionView, payload: Seq<u8>) -> Result<
        ConnectionView,
        ProtocolError,
    > {
        if c.state != ConnectionState::Handshake {
            Err(ProtocolError::UnexpectedState)
        } else {
            match Self::parse(payload) {
                Err(e) => Err(e),
                Ok((h, _)) => match ConnectionState::requested(h.next_state) {
                    None => Err(ProtocolError::UnexpectedState),
                    Some(state) => Ok(ConnectionView { state, ..c }),
                },
            }
        }
    }

    /// Takes the payload of the first packet and sets the state that it
    /// asks for. On failure the connection is as it was.
    pub fn handle(payload: &[u8], connection: &mut Connection) -> (res: Result<(), ProtocolError>)
        requires
            old(connection).wf(),
        ensures
            final(connection).wf(),
            match Self::outcome(old(connection)@, payload@) {
                Ok(v) => res is Ok && final(connection)@ == v,
                Err(e) => res == Err::<(), ProtocolError>(e)
                    && final(connection)@ == old(connection)@,
            },
    {
        if connection.state != ConnectionState::Handshake {
            return Err(ProtocolError::UnexpectedState);
        }
        let packet = Handshake::decode(payload)?;
        match ConnectionState::from_next_state(packet.next_state) {
            None => Err(ProtocolError::UnexpectedState),
            Some(state) => {
                connection.state = state;
                Ok(())
            },
        }
    }
}

} // verus!
