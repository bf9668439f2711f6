use rand::Rng;
use vstd::prelude::*;
use vstd::slice::slice_to_vec;
use vstd::utf8::encode_utf8;
use crate::connection::{Connection, ConnectionState, ConnectionView, LoginPhase};
use crate::packets::{frame, lemma_byte_vec_len, lemma_fits_in_packet, write_packet};
use crate::server::{lemma_server_id_bytes, server_id, server_id_string, Server};
use crate::codec::{
    encode_byte_vec, encode_string, lemma_byte_vec_round_trip, lemma_fields3,
    lemma_string_round_trip, parse_byte_vec, parse_string, read_byte_vec, read_string,
    write_byte_vec, write_string, MAX_LEN,
};
use crate::error::ProtocolError;
use crate::packets::Packet;
use crate::reader::Reader;

verus! {

/// The id that an encryption request is sent under.
pub const ENCRYPTION_REQUEST_ID: i32 = 0x01;

/// The server's answer to a login start: its name for the session, its
/// public key in DER form, and a token for the client to send back.
#[derive(Debug, PartialEq, Eq)]
pub struct EncryptionRequest {
    pub server_id: String,
    pub public_key: Vec<u8>,
    pub verify_token: Vec<u8>,
}

/// An encryption request as plain values.
pub struct EncryptionRequestView {
    pub server_id: Seq<char>,
    pub public_key: Seq<u8>,
    pub verify_token: Seq<u8>,
}

impl View for EncryptionRequest {
    type V = EncryptionRequestView;

    open spec fn view(&self) -> EncryptionRequestView {
        EncryptionRequestView {
            server_id: self.server_id@,
            public_key: self.public_key@,
            verify_token: self.verify_token@,
        }
    }
}

impl Packet for EncryptionRequest {
    open spec fn encoding(v: EncryptionRequestView) -> Seq<u8> {
        encode_string(v.server_id) + encode_byte_vec(v.public_key) + encode_byte_vec(
            v.verify_token,
        )
    }

    open spec fn fits(v: EncryptionRequestView) -> bool {
        &&& encode_utf8(v.server_id).len() <= MAX_LEN
        &&& v.public_key.len() <= MAX_LEN
        &&& v.verify_token.len() <= MAX_LEN
    }

    open spec fn parse(s: Seq<u8>) -> Result<(EncryptionRequestView, nat), ProtocolError> {
        match parse_string(s) {
            Err(e) => Err(e),
            Ok((server_id, n1)) => match parse_byte_vec(s.skip(n1 as int)) {
                Err(e) => Err(e),
                Ok((public_key, n2)) => match parse_byte_vec(s.skip((n1 + n2) as int)) {
                    Err(e) => Err(e),
                    Ok((verify_token, n3)) => Ok(
                        (
                            EncryptionRequestView { server_id, public_key, verify_token },
                            n1 + n2 + n3,
                        ),
                    ),
                },
            },
        }
    }

    proof fn lemma_round_trip(v: EncryptionRequestView, rest: Seq<u8>) {
        let e1 = encode_string(v.server_id);
        let e2 = encode_byte_vec(v.public_key);
        let e3 = encode_byte_vec(v.verify_token);
        lemma_fields3(e1, e2, e3, rest);
        lemma_string_round_trip(v.server_id, e2 + e3 + rest);
        lemma_byte_vec_round_trip(v.public_key, e3 + rest);
        lemma_byte_vec_round_trip(v.verify_token, rest);
    }

    fn encode(&self) -> (out: Vec<u8>) {
        let mut out: Vec<u8> = Vec::new();
        write_string(&mut out, self.server_id.as_str());
        write_byte_vec(&mut out, self.public_key.as_slice());
        write_byte_vec(&mut out, self.verify_token.as_slice());
        assert(out@ =~= Self::encoding(self@));
        out
    }

    fn decode(payload: &[u8]) -> (res: Result<Self, ProtocolError>) {
        let mut r = Reader::new(payload);
        assert(r.remaining() =~= payload@);
        let server_id = read_string(&mut r)?;
        let public_key = read_byte_vec(&mut r)?;
        let verify_token = read_byte_vec(&mut r)?;
        Ok(EncryptionRequest { server_id, public_key, verify_token })
    }
}

/// The length of a verify token in bytes.
pub const VERIFY_TOKEN_LEN: usize = 4;

/// `rand::Rng::gen` on the thread's generator: four bytes, each time others.
#[verifier::external_body]
fn random_token() -> [u8; VERIFY_TOKEN_LEN] {
    rand::thread_rng().gen()
}

impl EncryptionRequest {
    /// The request that goes with a public key and a token: the server's
    /// name for the session is always the same.
    pub open spec fn for_key(public_key: Seq<u8>, verify_token: Seq<u8>) -> EncryptionRequestView {
        EncryptionRequestView { server_id: server_id(), public_key, verify_token }
    }

    /// The bytes of that request on the wire.
    pub open spec fn wire(public_key: Seq<u8>, verify_token: Seq<u8>) -> Seq<u8> {
        frame(ENCRYPTION_REQUEST_ID, Self::encoding(Self::for_key(public_key, verify_token)))
    }

    /// The request of `server` with the token `verify_token`.
    pub fn new(server: &Server, verify_token: [u8; VERIFY_TOKEN_LEN]) -> (packet: EncryptionRequest)
        ensures
            packet@ == Self::for_key(server@.encoded_public_key, verify_token@),
            Self::fits(packet@),
            server@.wf(),
    {
        proof {
            lemma_server_id_bytes();
        }
        EncryptionRequest {
            server_id: server_id_string(),
            public_key: slice_to_vec(server.encoded_public_key().as_slice()),
            verify_token: slice_to_vec(verify_token.as_slice()),
        }
    }

    /// The packet that carries the request of `server` with the token
    /// `verify_token`.
    pub fn packet(server: &Server, verify_token: [u8; VERIFY_TOKEN_LEN]) -> (out: Vec<u8>)
        ensures
            out@ == Self::wire(server@.encoded_public_key, verify_token@),
    {
        let request = EncryptionRequest::new(server, verify_token);
        proof {
            lemma_server_id_bytes();
            lemma_byte_vec_len(encode_utf8(server_id()));
            lemma_byte_vec_len(request@.public_key);
            lemma_byte_vec_len(request@.verify_token);
        }
        let payload = request.encode();
        proof {
            lemma_fits_in_packet(ENCRYPTION_REQUEST_ID, payload@);
        }
        let mut out: Vec<u8> = Vec::new();
        write_packet(&mut out, payload.as_slice(), ENCRYPTION_REQUEST_ID);
        assert(out@ =~= Self::wire(server@.encoded_public_key, verify_token@));
        out
    }

    /// Makes the encryption request of a login, with a new token, and
    /// returns its packet. It is due once, after the login start; at any
    /// other time this fails with `UnexpectedState` and the connection is as
    /// it was.
    pub fn handle(server: &Server, connection: &mut Connection) -> (res: Result<
        Vec<u8>,
        ProtocolError,
    >)
        requires
            old(connection).wf(),
        ensures
            final(connection).wf(),
            if old(connection)@.state == ConnectionState::Login && old(connection)@.phase
                == LoginPhase::EncryptionRequest {
                &&& res is Ok
                &&& final(connection)@ == (ConnectionView {
                    phase: LoginPhase::EncryptionResponse,
                    ..old(connection)@
                })
                &&& exists|token: Seq<u8>|
                    token.len() == VERIFY_TOKEN_LEN && res->Ok_0@ == #[trigger] Self::wire(
                        server@.encoded_public_key,
                        token,
                    )
            } else {
                res == Err::<Vec<u8>, ProtocolError>(ProtocolError::UnexpectedState)
                    && final(connection)@ == old(connection)@
            },
    {
        if !(connection.state == ConnectionState::Login && connection.phase
            == LoginPhase::EncryptionRequest) {
            return Err(ProtocolError::UnexpectedState);
        }
        let token = random_token();
        let out = EncryptionRequest::packet(server, token);
        connection.phase = LoginPhase::EncryptionResponse;
        assert(out@ == Self::wire(server@.encoded_public_key, token@));
        Ok(out)
    }
}

} // verus!
