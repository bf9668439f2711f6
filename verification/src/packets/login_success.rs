use vstd::prelude::*;
use vstd::utf8::encode_utf8;
use crate::codec::{
    encode_string, encode_u128, encode_u8, lemma_fields3, lemma_string_round_trip,
    lemma_u128_round_trip, parse_string, parse_u128, read_string, read_u128, write_string,
    write_u128, write_u8, MAX_LEN,
};
use crate::cipher::{cfb8_encrypt, register_after, CipherState};
use crate::connection::{Connection, ConnectionState, ConnectionView, LoginPhase};
use crate::error::ProtocolError;
use crate::packets::{frame, lemma_byte_vec_len, lemma_fits_in_packet, write_packet_encrypted};
use crate::packets::Packet;
use crate::reader::Reader;

verus! {

/// The id that a login success is sent under.
pub const LOGIN_SUCCESS_ID: i32 = 0x02;

/// The packet that ends the login: the identifier that the identity provider
/// gave the player, and the player's name. On the wire a count of properties
/// follows, which is always written as zero.
#[derive(Debug, PartialEq, Eq)]
pub struct LoginSuccess {
    pub uuid: u128,
    pub username: String,
}

/// A login success as plain values.
pub struct LoginSuccessView {
    pub uuid: u128,
    pub username: Seq<char>,
}

impl View for LoginSuccess {
    type V = LoginSuccessView;

    open spec fn view(&self) -> LoginSuccessView {
        LoginSuccessView { uuid: self.uuid, username: self.username@ }
    }
}

impl Packet for LoginSuccess {
    open spec fn encoding(v: LoginSuccessView) -> Seq<u8> {
        encode_u128(v.uuid) + encode_string(v.username) + encode_u8(0)
    }

    open spec fn fits(v: LoginSuccessView) -> bool {
        encode_utf8(v.username).len() <= MAX_LEN
    }

    /// The count of properties has to be there; its value is not looked at.
    open spec fn parse(s: Seq<u8>) -> Result<(LoginSuccessView, nat), ProtocolError> {
        match parse_u128(s) {
            Err(e) => Err(e),
            Ok((uuid, n1)) => match parse_string(s.skip(n1 as int)) {
                Err(e) => Err(e),
                Ok((username, n2)) => if s.len() < n1 + n2 + 1 {
                    Err(ProtocolError::TruncatedRead)
                } else {
                    Ok((LoginSuccessView { uuid, username }, n1 + n2 + 1))
                },
            },
        }
    }

    proof fn lemma_round_trip(v: LoginSuccessView, rest: Seq<u8>) {
        let e1 = encode_u128(v.uuid);
        let e2 = encode_string(v.username);
        let e3 = encode_u8(0);
        lemma_fields3(e1, e2, e3, rest);
        lemma_u128_round_trip(v.uuid, e2 + e3 + rest);
        lemma_string_round_trip(v.username, e3 + rest);
    }

    fn encode(&self) -> (out: Vec<u8>) {
        let mut out: Vec<u8> = Vec::new();
        write_u128(&mut out, self.uuid);
        write_string(&mut out, self.username.as_str());
        write_u8(&mut out, 0);
        assert(out@ =~= Self::encoding(self@));
        out
    }

    fn decode(payload: &[u8]) -> (res: Result<Self, ProtocolError>) {
        let mut r = Reader::new(payload);
        assert(r.remaining() =~= payload@);
        let uuid = read_u128(&mut r)?;
        let username = read_string(&mut r)?;
        let _properties = r.take(1)?;
        Ok(LoginSuccess { uuid, username })
    }
}

impl LoginSuccess {
    /// The bytes of a login success on the wire, before encryption.
    pub open spec fn wire(uuid: u128, username: Seq<char>) -> Seq<u8> {
        frame(LOGIN_SUCCESS_ID, Self::encoding(LoginSuccessView { uuid, username }))
    }

    /// What the login success sends, and what it makes of a connection: once
    /// the identity is known, and then only, the packet with the identifier
    /// and the name goes out through the cipher, and the connection is in
    /// play.
    pub open spec fn outcome(c: ConnectionView) -> Result<
        (Seq<u8>, ConnectionView),
        ProtocolError,
    > {
        if c.state == ConnectionState::Login && c.phase == LoginPhase::LoginSuccess {
            let cipher = c.cipher->Some_0;
            let sent = cfb8_encrypt(
                cipher.key,
                cipher.encrypt_register,
                Self::wire(c.user_uuid->Some_0, c.user_name->Some_0),
            );
            Ok(
                (
                    sent,
                    ConnectionView {
                        state: ConnectionState::Play,
                        cipher: Some(
                            CipherState {
                                encrypt_register: register_after(cipher.encrypt_register, sent),
                                ..cipher
                            },
                        ),
                        ..c
                    },
                ),
            )
        } else {
            Err(ProtocolError::UnexpectedState)
        }
    }

    /// Makes the login success of a connection, returns its encrypted
    /// packet, and puts the connection in play. On failure the connection is
    /// as it was.
    pub fn handle(connection: &mut Connection) -> (res: Result<Vec<u8>, ProtocolError>)
        requires
            old(connection).wf(),
        ensures
            final(connection).wf(),
            match Self::outcome(old(connection)@) {
                Ok((sent, v)) => res is Ok && res->Ok_0@ == sent && final(connection)@ == v,
                Err(e) => res == Err::<Vec<u8>, ProtocolError>(e)
                    && final(connection)@ == old(connection)@,
            },
    {
        if !(connection.state == ConnectionState::Login && connection.phase
            == LoginPhase::LoginSuccess) {
            return Err(ProtocolError::UnexpectedState);
        }
        let mut out: Vec<u8> = Vec::new();
        match (&connection.user_name, connection.user_uuid, &mut connection.aes_cryptor) {
            (Some(name), Some(uuid), Some(cryptor)) => {
                let packet = LoginSuccess { uuid, username: name.clone() };
                proof {
                    lemma_byte_vec_len(encode_utf8(name@));
                    lemma_u128_round_trip(uuid, Seq::empty());
                    lemma_fields3(
                        encode_u128(uuid),
                        encode_string(name@),
                        encode_u8(0),
                        Seq::empty(),
                    );
                }
                let payload = packet.encode();
                proof {
                    lemma_fits_in_packet(LOGIN_SUCCESS_ID, payload@);
                }
                write_packet_encrypted(&mut out, payload.as_slice(), LOGIN_SUCCESS_ID, cryptor);
            },
            _ => {},
        }
        connection.state = ConnectionState::Play;
        Ok(out)
    }
}

} // verus!
