use vstd::prelude::*;
use crate::codec::{
    encode_bool, encode_byte_vec, encode_i64, lemma_bool_round_trip, lemma_byte_vec_round_trip,
    lemma_fields4, lemma_i64_round_trip, parse_bool, parse_byte_vec, parse_i64, read_bool,
    read_byte_vec, read_i64, write_bool, write_byte_vec, write_i64, MAX_LEN,
};
use crate::connection::{Connection, ConnectionState, ConnectionView, LoginPhase};
use crate::error::ProtocolError;
use crate::server::{Server, ServerView};
use crate::packets::Packet;
use crate::reader::Reader;

verus! {

/// The client's answer to an encryption request: the shared secret,
/// encrypted under the server's public key, and either the encrypted token
/// or none, then in both cases a salt and a signature.
#[derive(Debug, PartialEq, Eq)]
pub struct EncryptionResponse {
    pub shared_secret: Vec<u8>,
    pub verify_token: Option<Vec<u8>>,
    pub salt: i64,
    pub message_signature: Vec<u8>,
}

/// An encryption response as plain values.
pub struct EncryptionResponseView {
    pub shared_secret: Seq<u8>,
    pub verify_token: Option<Seq<u8>>,
    pub salt: i64,
    pub message_signature: Seq<u8>,
}

impl View for EncryptionResponse {
    type V = EncryptionResponseView;

    open spec fn view(&self) -> EncryptionResponseView {
        EncryptionResponseView {
            shared_secret: self.shared_secret@,
            verify_token: match self.verify_token {
                Some(t) => Some(t@),
                None => None,
            },
            salt: self.salt,
            message_signature: self.message_signature@,
        }
    }
}

/// A flag, and after a set flag the token.
pub open spec fn encode_token(t: Option<Seq<u8>>) -> Seq<u8> {
    match t {
        None => encode_bool(false),
        Some(t) => encode_bool(true) + encode_byte_vec(t),
    }
}

/// The flag and, after a set flag, the token that `s` begins with.
pub open spec fn parse_token(s: Seq<u8>) -> Result<(Option<Seq<u8>>, nat), ProtocolError> {
    match parse_bool(s) {
        Err(e) => Err(e),
        Ok((false, n0)) => Ok((None, n0)),
        Ok((true, n0)) => match parse_byte_vec(s.skip(n0 as int)) {
            Err(e) => Err(e),
            Ok((t, n1)) => Ok((Some(t), n0 + n1)),
        },
    }
}

/// Whether the token is short enough to be written.
pub open spec fn token_fits(t: Option<Seq<u8>>) -> bool {
    t matches Some(t) ==> t.len() <= MAX_LEN
}

/// A token, or its absence, is read back as it was written.
pub proof fn lemma_token_round_trip(t: Option<Seq<u8>>, rest: Seq<u8>)
    requires
        token_fits(t),
    ensures
        parse_token(encode_token(t) + rest) == Ok::<(Option<Seq<u8>>, nat), ProtocolError>(
            (t, encode_token(t).len()),
        ),
{
    match t {
        None => {
            lemma_bool_round_trip(false, rest);
        },
        Some(v) => {
            let s = encode_token(t) + rest;
            assert(s =~= encode_bool(true) + (encode_byte_vec(v) + rest));
            lemma_bool_round_trip(true, encode_byte_vec(v) + rest);
            assert(s.skip(1) =~= encode_byte_vec(v) + rest);
            lemma_byte_vec_round_trip(v, rest);
        },
    }
}

fn read_token(r: &mut Reader) -> (res: Result<Option<Vec<u8>>, ProtocolError>)
    ensures
        final(r).bytes() == old(r).bytes(),
        match parse_token(old(r).remaining()) {
            Ok((v, n)) => res is Ok && token_fits(v) && v == match res->Ok_0 {
                Some(t) => Some(t@),
                None => None,
            } && final(r).position() == old(r).position() + n,
            Err(e) => res is Err && res->Err_0 == e,
        },
{
    let ghost start = *r;
    if read_bool(r)? {
        proof {
            start.lemma_remaining_after(*r);
        }
        Ok(Some(read_byte_vec(r)?))
    } else {
        Ok(None)
    }
}

impl Packet for EncryptionResponse {
    open spec fn encoding(v: EncryptionResponseView) -> Seq<u8> {
        encode_byte_vec(v.shared_secret) + encode_token(v.verify_token) + encode_i64(v.salt)
            + encode_byte_vec(v.message_signature)
    }

    open spec fn fits(v: EncryptionResponseView) -> bool {
        &&& v.shared_secret.len() <= MAX_LEN
        &&& token_fits(v.verify_token)
        &&& v.message_signature.len() <= MAX_LEN
    }

    open spec fn parse(s: Seq<u8>) -> Result<(EncryptionResponseView, nat), ProtocolError> {
        match parse_byte_vec(s) {
            Err(e) => Err(e),
            Ok((shared_secret, n1)) => match parse_token(s.skip(n1 as int)) {
                Err(e) => Err(e),
                Ok((verify_token, n2)) => match parse_i64(s.skip((n1 + n2) as int)) {
                    Err(e) => Err(e),
                    Ok((salt, n3)) => match parse_byte_vec(s.skip((n1 + n2 + n3) as int)) {
                        Err(e) => Err(e),
                        Ok((message_signature, n4)) => Ok(
                            (
                                EncryptionResponseView {
                                    shared_secret,
                                    verify_token,
                                    salt,
                                    message_signature,
                                },
                                n1 + n2 + n3 + n4,
                            ),
                        ),
                    },
                },
            },
        }
    }

    proof fn lemma_round_trip(v: EncryptionResponseView, rest: Seq<u8>) {
        let e1 = encode_byte_vec(v.shared_secret);
        let e2 = encode_token(v.verify_token);
        let e3 = encode_i64(v.salt);
        let e4 = encode_byte_vec(v.message_signature);
        lemma_fields4(e1, e2, e3, e4, rest);
        lemma_byte_vec_round_trip(v.shared_secret, e2 + e3 + e4 + rest);
        lemma_token_round_trip(v.verify_token, e3 + e4 + rest);
        lemma_i64_round_trip(v.salt, e4 + rest);
        lemma_byte_vec_round_trip(v.message_signature, rest);
    }

    fn encode(&self) -> (out: Vec<u8>) {
        let mut out: Vec<u8> = Vec::new();
        write_byte_vec(&mut out, self.shared_secret.as_slice());
        match &self.verify_token {
            Some(t) => {
                write_bool(&mut out, true);
                write_byte_vec(&mut out, t.as_slice());
            },
            None => {
                write_bool(&mut out, false);
            },
        }
        assert(out@ =~= encode_byte_vec(self@.shared_secret) + encode_token(self@.verify_token));
        write_i64(&mut out, self.salt);
        write_byte_vec(&mut out, self.message_signature.as_slice());
        assert(out@ =~= Self::encoding(self@));
        out
    }

    fn decode(payload: &[u8]) -> (res: Result<Self, ProtocolError>) {
        let mut r = Reader::new(payload);
        assert(r.remaining() =~= payload@);
        let ghost start = r;
        let shared_secret = read_byte_vec(&mut r)?;
        proof {
            start.lemma_remaining_after(r);
        }
        let verify_token = read_token(&mut r)?;
        proof {
            start.lemma_remaining_after(r);
        }
        let salt = read_i64(&mut r)?;
        let message_signature = read_byte_vec(&mut r)?;
        Ok(EncryptionResponse { shared_secret, verify_token, salt, message_signature })
    }
}

impl EncryptionResponse {
    /// What the client's answer makes of a connection: at the one moment of
    /// a login at which it is awaited, and then only, a payload that reads
    /// as an answer and whose shared secret the server's key decrypts to
    /// sixteen bytes installs the cipher, with that secret as its key and
    /// as the start of both streams. At any other moment it is an
    /// `UnexpectedState`; a payload that does not read fails with the error
    /// of the reading; a secret that does not decrypt, or not to sixteen
    /// bytes, is a `DecryptionFailure`.
    pub open spec fn outcome(c: ConnectionView, server: ServerView, payload: Seq<u8>) -> Result<
        ConnectionView,
        ProtocolError,
    > {
        if !(c.state == ConnectionState::Login && c.phase == LoginPhase::EncryptionResponse) {
            Err(ProtocolError::UnexpectedState)
        } else {
            match Self::parse(payload) {
                Err(e) => Err(e),
                Ok((answer, _)) => match server.secret(answer.shared_secret) {
                    Err(e) => Err(e),
                    Ok(secret) => Connection::with_cipher(c, secret),
                },
            }
        }
    }

    /// Takes the payload of the client's answer, decrypts the shared secret
    /// in it with the key of `server`, and installs the cipher. On failure
    /// the connection is as it was.
    pub fn handle(payload: &[u8], server: &Server, connection: &mut Connection) -> (res: Result<
        (),
        ProtocolError,
    >)
        requires
            old(connection).wf(),
        ensures
            final(connection).wf(),
            match Self::outcome(old(connection)@, server@, payload@) {
                Ok(v) => res is Ok && final(connection)@ == v,
                Err(e) => res == Err::<(), ProtocolError>(e)
                    && final(connection)@ == old(connection)@,
            },
    {
        if !(connection.state == ConnectionState::Login && connection.phase
            == LoginPhase::EncryptionResponse) {
            return Err(ProtocolError::UnexpectedState);
        }
        let packet = EncryptionResponse::decode(payload)?;
        let secret = server.decrypt_shared_secret(packet.shared_secret.as_slice())?;
        connection.install_cipher(secret)
    }
}

} // verus!
