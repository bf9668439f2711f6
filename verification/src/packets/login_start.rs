use vstd::prelude::*;
use vstd::utf8::encode_utf8;
use crate::codec::{
    encode_bool, encode_byte_vec, encode_i64, encode_string, encode_u128, lemma_bool_round_trip,
    lemma_byte_vec_round_trip, lemma_fields3, lemma_i64_round_trip, lemma_parse_string_len,
    lemma_string_round_trip,
    lemma_u128_round_trip, parse_bool, parse_byte_vec, parse_i64, parse_string, parse_u128,
    read_bool, read_byte_vec, read_i64, read_string, read_u128, write_bool, write_byte_vec,
    write_i64, write_string, write_u128, MAX_LEN,
};
use crate::connection::{Connection, ConnectionState, ConnectionView, LoginPhase, MAX_NAME_LEN};
use crate::error::ProtocolError;
use crate::packets::Packet;
use crate::reader::Reader;

verus! {

/// The signed key that a client may send with its name. It is read and kept
/// with the packet; nothing in the login depends on it.
#[derive(Debug, PartialEq, Eq)]
pub struct SignatureData {
    pub timestamp: i64,
    pub public_key: Vec<u8>,
    pub signature: Vec<u8>,
}

/// A signed key as plain values.
pub struct SignatureDataView {
    pub timestamp: i64,
    pub public_key: Seq<u8>,
    pub signature: Seq<u8>,
}

impl View for SignatureData {
    type V = SignatureDataView;

    open spec fn view(&self) -> SignatureDataView {
        SignatureDataView {
            timestamp: self.timestamp,
            public_key: self.public_key@,
            signature: self.signature@,
        }
    }
}

/// The packet that opens the login: the name the client claims, and
/// optionally a signed key and an identifier. The identifier is a hint that
/// nothing has verified.
#[derive(Debug, PartialEq, Eq)]
pub struct LoginStart {
    pub username: String,
    pub signature: Option<SignatureData>,
    pub player_uuid: Option<u128>,
}

/// A login start as plain values.
pub struct LoginStartView {
    pub username: Seq<char>,
    pub signature: Option<SignatureDataView>,
    pub player_uuid: Option<u128>,
}

impl View for LoginStart {
    type V = LoginStartView;

    open spec fn view(&self) -> LoginStartView {
        LoginStartView {
            username: self.username@,
            signature: match self.signature {
                Some(d) => Some(d@),
                None => None,
            },
            player_uuid: self.player_uuid,
        }
    }
}

/// A flag, and after a set flag the three fields of the signed key.
pub open spec fn encode_signature(d: Option<SignatureDataView>) -> Seq<u8> {
    match d {
        None => encode_bool(false),
        Some(d) => encode_bool(true) + encode_i64(d.timestamp) + encode_byte_vec(d.public_key)
            + encode_byte_vec(d.signature),
    }
}

/// The flag and, after a set flag, the signed key that `s` begins with.
pub open spec fn parse_signature(s: Seq<u8>) -> Result<
    (Option<SignatureDataView>, nat),
    ProtocolError,
> {
    match parse_bool(s) {
        Err(e) => Err(e),
        Ok((false, n0)) => Ok((None, n0)),
        Ok((true, n0)) => match parse_i64(s.skip(n0 as int)) {
            Err(e) => Err(e),
            Ok((timestamp, n1)) => match parse_byte_vec(s.skip((n0 + n1) as int)) {
                Err(e) => Err(e),
                Ok((public_key, n2)) => match parse_byte_vec(s.skip((n0 + n1 + n2) as int)) {
                    Err(e) => Err(e),
                    Ok((signature, n3)) => Ok(
                        (
                            Some(SignatureDataView { timestamp, public_key, signature }),
                            n0 + n1 + n2 + n3,
                        ),
                    ),
                },
            },
        },
    }
}

/// Whether the byte vectors of the signed key are short enough to be written.
pub open spec fn signature_fits(d: Option<SignatureDataView>) -> bool {
    d matches Some(d) ==> d.public_key.len() <= MAX_LEN && d.signature.len() <= MAX_LEN
}

/// A signed key, or its absence, is read back as it was written.
pub proof fn lemma_signature_round_trip(d: Option<SignatureDataView>, rest: Seq<u8>)
    requires
        signature_fits(d),
    ensures
        parse_signature(encode_signature(d) + rest) == Ok::<
            (Option<SignatureDataView>, nat),
            ProtocolError,
        >((d, encode_signature(d).len())),
{
    match d {
        None => {
            lemma_bool_round_trip(false, rest);
        },
        Some(v) => {
            let e0 = encode_bool(true);
            let e1 = encode_i64(v.timestamp);
            let e2 = encode_byte_vec(v.public_key);
            let e3 = encode_byte_vec(v.signature);
            let s = encode_signature(d) + rest;
            assert(s =~= e0 + (e1 + e2 + e3 + rest));
            lemma_bool_round_trip(true, e1 + e2 + e3 + rest);
            assert(s.skip(1) =~= e1 + (e2 + e3 + rest));
            lemma_i64_round_trip(v.timestamp, e2 + e3 + rest);
            assert(s.skip(9) =~= e2 + (e3 + rest));
            lemma_byte_vec_round_trip(v.public_key, e3 + rest);
            assert(s.skip((9 + e2.len()) as int) =~= e3 + rest);
            lemma_byte_vec_round_trip(v.signature, rest);
        },
    }
}

/// A flag, and after a set flag the identifier.
pub open spec fn encode_uuid_hint(u: Option<u128>) -> Seq<u8> {
    match u {
        None => encode_bool(false),
        Some(u) => encode_bool(true) + encode_u128(u),
    }
}

/// The flag and, after a set flag, the identifier that `s` begins with.
pub open spec fn parse_uuid_hint(s: Seq<u8>) -> Result<(Option<u128>, nat), ProtocolError> {
    match parse_bool(s) {
        Err(e) => Err(e),
        Ok((false, n0)) => Ok((None, n0)),
        Ok((true, n0)) => match parse_u128(s.skip(n0 as int)) {
            Err(e) => Err(e),
            Ok((u, n1)) => Ok((Some(u), n0 + n1)),
        },
    }
}

/// An identifier, or its absence, is read back as it was written.
pub proof fn lemma_uuid_hint_round_trip(u: Option<u128>, rest: Seq<u8>)
    ensures
        parse_uuid_hint(encode_uuid_hint(u) + rest) == Ok::<(Option<u128>, nat), ProtocolError>(
            (u, encode_uuid_hint(u).len()),
        ),
{
    match u {
        None => {
            lemma_bool_round_trip(false, rest);
        },
        Some(v) => {
            let s = encode_uuid_hint(u) + rest;
            assert(s =~= encode_bool(true) + (encode_u128(v) + rest));
            lemma_bool_round_trip(true, encode_u128(v) + rest);
            assert(s.skip(1) =~= encode_u128(v) + rest);
            lemma_u128_round_trip(v, rest);
        },
    }
}

fn read_signature(r: &mut Reader) -> (res: Result<Option<SignatureData>, ProtocolError>)
    ensures
        final(r).bytes() == old(r).bytes(),
        match parse_signature(old(r).remaining()) {
            Ok((v, n)) => res is Ok && signature_fits(v) && v == match res->Ok_0 {
                Some(d) => Some(d@),
                None => None,
            } && final(r).position() == old(r).position() + n,
            Err(e) => res is Err && res->Err_0 == e,
        },
{
    let ghost start = *r;
    if read_bool(r)? {
        proof {
            start.lemma_remaining_after(*r);
        }
        let timestamp = read_i64(r)?;
        proof {
            start.lemma_remaining_after(*r);
        }
        let public_key = read_byte_vec(r)?;
        proof {
            start.lemma_remaining_after(*r);
        }
        let signature = read_byte_vec(r)?;
        Ok(Some(SignatureData { timestamp, public_key, signature }))
    } else {
        Ok(None)
    }
}

fn read_uuid_hint(r: &mut Reader) -> (res: Result<Option<u128>, ProtocolError>)
    ensures
        final(r).bytes() == old(r).bytes(),
        match parse_uuid_hint(old(r).remaining()) {
            Ok((v, n)) => res == Ok::<Option<u128>, ProtocolError>(v) && final(r).position()
                == old(r).position() + n,
            Err(e) => res is Err && res->Err_0 == e,
        },
{
    let ghost start = *r;
    if read_bool(r)? {
        proof {
            start.lemma_remaining_after(*r);
        }
        Ok(Some(read_u128(r)?))
    } else {
        Ok(None)
    }
}

impl Packet for LoginStart {
    open spec fn encoding(v: LoginStartView) -> Seq<u8> {
        encode_string(v.username) + encode_signature(v.signature) + encode_uuid_hint(
            v.player_uuid,
        )
    }

    open spec fn fits(v: LoginStartView) -> bool {
        encode_utf8(v.username).len() <= MAX_LEN && signature_fits(v.signature)
    }

    open spec fn parse(s: Seq<u8>) -> Result<(LoginStartView, nat), ProtocolError> {
        match parse_string(s) {
            Err(e) => Err(e),
            Ok((username, n1)) => match parse_signature(s.skip(n1 as int)) {
                Err(e) => Err(e),
                Ok((signature, n2)) => match parse_uuid_hint(s.skip((n1 + n2) as int)) {
                    Err(e) => Err(e),
                    Ok((player_uuid, n3)) => Ok(
                        (LoginStartView { username, signature, player_uuid }, n1 + n2 + n3),
                    ),
                },
            },
        }
    }

    proof fn lemma_round_trip(v: LoginStartView, rest: Seq<u8>) {
        let e1 = encode_string(v.username);
        let e2 = encode_signature(v.signature);
        let e3 = encode_uuid_hint(v.player_uuid);
        lemma_fields3(e1, e2, e3, rest);
        lemma_string_round_trip(v.username, e2 + e3 + rest);
        lemma_signature_round_trip(v.signature, e3 + rest);
        lemma_uuid_hint_round_trip(v.player_uuid, rest);
    }

    fn encode(&self) -> (out: Vec<u8>) {
        let mut out: Vec<u8> = Vec::new();
        write_string(&mut out, self.username.as_str());
        match &self.signature {
            Some(d) => {
                write_bool(&mut out, true);
                write_i64(&mut out, d.timestamp);
                write_byte_vec(&mut out, d.public_key.as_slice());
                write_byte_vec(&mut out, d.signature.as_slice());
            },
            None => {
                write_bool(&mut out, false);
            },
        }
        assert(out@ =~= encode_string(self@.username) + encode_signature(self@.signature));
        match self.player_uuid {
            Some(u) => {
                write_bool(&mut out, true);
                write_u128(&mut out, u);
            },
            None => {
                write_bool(&mut out, false);
            },
        }
        assert(out@ =~= Self::encoding(self@));
        out
    }

    fn decode(payload: &[u8]) -> (res: Result<Self, ProtocolError>) {
        let mut r = Reader::new(payload);
        assert(r.remaining() =~= payload@);
        let ghost start = r;
        let username = read_string(&mut r)?;
        proof {
            start.lemma_remaining_after(r);
        }
        let signature = read_signature(&mut r)?;
        proof {
            start.lemma_remaining_after(r);
        }
        let player_uuid = read_uuid_hint(&mut r)?;
        Ok(LoginStart { username, signature, player_uuid })
    }
}

impl LoginStart {
    /// What a login start makes of a connection: at the start of a login,
    /// and there only, a payload that reads as a login start gives the
    /// connection its name. The identifier that the client may have sent is
    /// not recorded.
    pub open spec fn outcome(c: ConnectionView, payload: Seq<u8>) -> Result<
        ConnectionView,
        ProtocolError,
    > {
        if !(c.state == ConnectionState::Login && c.phase == LoginPhase::LoginStart) {
            Err(ProtocolError::UnexpectedState)
        } else {
            match Self::parse(payload) {
                Err(e) => Err(e),
                Ok((p, _)) => Ok(
                    ConnectionView {
                        phase: LoginPhase::EncryptionRequest,
                        user_name: Some(p.username),
                        ..c
                    },
                ),
            }
        }
    }

    /// Takes the payload of a login start and records the name in it. On
    /// failure the connection is as it was.
    ///
    /// The payload may have at most `MAX_NAME_LEN` bytes: a longer name could
    /// not be sent back.
    pub fn handle(payload: &[u8], connection: &mut Connection) -> (res: Result<(), ProtocolError>)
        requires
            old(connection).wf(),
            payload@.len() <= MAX_NAME_LEN,
        ensures
            final(connection).wf(),
            match Self::outcome(old(connection)@, payload@) {
                Ok(v) => res is Ok && final(connection)@ == v,
                Err(e) => res == Err::<(), ProtocolError>(e)
                    && final(connection)@ == old(connection)@,
            },
    {
        if !(connection.state == ConnectionState::Login && connection.phase
            == LoginPhase::LoginStart) {
            return Err(ProtocolError::UnexpectedState);
        }
        let packet = LoginStart::decode(payload)?;
        proof {
            lemma_parse_string_len(payload@);
        }
        connection.user_name = Some(packet.username);
        connection.phase = LoginPhase::EncryptionRequest;
        Ok(())
    }
}

} // verus!
