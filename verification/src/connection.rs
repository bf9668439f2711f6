use vstd::prelude::*;
use vstd::utf8::encode_utf8;
use crate::cipher::{
    cfb8_decrypt, cfb8_encrypt, register_after, AesCryptor, CipherState, KEY_LEN,
};
use crate::error::ProtocolError;

verus! {

/// The most bytes a name may have, so that the login success that carries it
/// back still fits in a packet.
pub const MAX_NAME_LEN: usize = 0x7fff_ffe0;

/// What the identity provider says of a client: the identifier it knows the
/// player by, and the player's name.
#[derive(Debug, PartialEq, Eq)]
pub struct Identity {
    pub id: u128,
    pub name: String,
}

/// The state of the protocol on one connection.
#[derive(Clone, Copy, Debug, PartialEq, Eq, Structural)]
pub enum ConnectionState {
    Handshake,
    Status,
    Login,
    Play,
}

impl ConnectionState {
    /// The state that a handshake's last field asks for: 1 is `Status`, 2 is
    /// `Login`, and no other value asks for a state.
    pub open spec fn requested(next_state: i32) -> Option<ConnectionState> {
        if next_state == 1 {
            Some(ConnectionState::Status)
        } else if next_state == 2 {
            Some(ConnectionState::Login)
        } else {
            None
        }
    }

    /// The state that the last field of a handshake asks for, if any.
    pub fn from_next_state(next_state: i32) -> (res: Option<ConnectionState>)
        ensures
            res == Self::requested(next_state),
    {
        if next_state == 1 {
            Some(ConnectionState::Status)
        } else if next_state == 2 {
            Some(ConnectionState::Login)
        } else {
            None
        }
    }
}

impl Default for ConnectionState {
    fn default() -> (s: Self)
        ensures
            s == ConnectionState::Handshake,
    {
        ConnectionState::Handshake
    }
}

/// How far a login has come. It has a meaning in the `Login` state only.
#[derive(Clone, Copy, Debug, PartialEq, Eq, Structural)]
pub enum LoginPhase {
    /// The client has yet to say who it is.
    LoginStart,
    /// The client's name is known; the encryption request is due.
    EncryptionRequest,
    /// The encryption request is out; the client's answer is awaited.
    EncryptionResponse,
    /// The cipher is installed; the identity provider's answer is awaited.
    Authentication,
    /// The identity is known; the login success is due.
    LoginSuccess,
}

/// A connection as plain values.
pub struct ConnectionView {
    pub state: ConnectionState,
    pub phase: LoginPhase,
    pub user_name: Option<Seq<char>>,
    pub user_uuid: Option<u128>,
    pub cipher: Option<CipherState>,
}

impl ConnectionView {
    /// What holds of every connection:
    /// before the login nothing is known of the client and nothing is
    /// encrypted; within the login the name, the cipher and the identifier
    /// come in that order, each once; in play all three are there. So a
    /// cipher is never installed but during a login.
    pub open spec fn wf(self) -> bool {
        let named = self.user_name is Some;
        let identified = self.user_uuid is Some;
        let encrypted = self.cipher is Some;
        &&& match self.state {
            ConnectionState::Handshake | ConnectionState::Status => self.phase
                == LoginPhase::LoginStart && !named && !identified && !encrypted,
            ConnectionState::Login => match self.phase {
                LoginPhase::LoginStart => !named && !identified && !encrypted,
                LoginPhase::EncryptionRequest | LoginPhase::EncryptionResponse => named
                    && !identified && !encrypted,
                LoginPhase::Authentication => named && !identified && encrypted,
                LoginPhase::LoginSuccess => named && identified && encrypted,
            },
            ConnectionState::Play => self.phase == LoginPhase::LoginSuccess && named && identified
                && encrypted,
        }
        &&& self.user_name matches Some(name) ==> encode_utf8(name).len() <= MAX_NAME_LEN
    }

    /// Whether the next packet is to be the login start.
    pub open spec fn awaits_login_start(self) -> bool {
        self.state == ConnectionState::Login && self.phase == LoginPhase::LoginStart
    }

    /// A connection on which nothing has happened yet.
    pub open spec fn initial() -> ConnectionView {
        ConnectionView {
            state: ConnectionState::Handshake,
            phase: LoginPhase::LoginStart,
            user_name: None,
            user_uuid: None,
            cipher: None,
        }
    }
}

/// One connection: the state of the protocol, who the client is as far as
/// that is known, and the cipher once there is one.
pub struct Connection {
    pub(crate) user_name: Option<String>,
    pub(crate) user_uuid: Option<u128>,
    pub(crate) state: ConnectionState,
    pub(crate) phase: LoginPhase,
    pub(crate) aes_cryptor: Option<AesCryptor>,
}

impl View for Connection {
    type V = ConnectionView;

    open(crate) spec fn view(&self) -> ConnectionView {
        ConnectionView {
            state: self.state,
            phase: self.phase,
            user_name: match self.user_name {
                Some(name) => Some(name@),
                None => None,
            },
            user_uuid: self.user_uuid,
            cipher: match self.aes_cryptor {
                Some(c) => Some(c@),
                None => None,
            },
        }
    }
}

impl Default for Connection {
    fn default() -> (c: Self)
        ensures
            c@ == ConnectionView::initial(),
            c.wf(),
    {
        Connection {
            user_name: None,
            user_uuid: None,
            state: ConnectionState::Handshake,
            phase: LoginPhase::LoginStart,
            aes_cryptor: None,
        }
    }
}

impl Connection {
    /// The connection is as `ConnectionView::wf` says.
    pub open spec fn wf(&self) -> bool {
        self@.wf()
    }

    /// A connection in its first state.
    pub fn new() -> (c: Self)
        ensures
            c@ == ConnectionView::initial(),
            c.wf(),
    {
        Connection {
            user_name: None,
            user_uuid: None,
            state: ConnectionState::Handshake,
            phase: LoginPhase::LoginStart,
            aes_cryptor: None,
        }
    }

    /// The state of the protocol.
    pub fn state(&self) -> (s: ConnectionState)
        ensures
            s == self@.state,
    {
        self.state
    }

    /// How far the login has come.
    pub fn phase(&self) -> (p: LoginPhase)
        ensures
            p == self@.phase,
    {
        self.phase
    }

    /// The name that the client gave, once it has.
    pub fn user_name(&self) -> (name: Option<&String>)
        ensures
            match name {
                Some(n) => self@.user_name == Some(n@),
                None => self@.user_name is None,
            },
    {
        self.user_name.as_ref()
    }

    /// The identifier that the identity provider gave, once it has.
    pub fn user_uuid(&self) -> (id: Option<u128>)
        ensures
            id == self@.user_uuid,
    {
        self.user_uuid
    }

    /// What a shared secret makes of a connection: where the client's answer
    /// to the encryption request is awaited, and there only, a cipher is
    /// installed with the secret as its key and as the start of both streams.
    pub open spec fn with_cipher(c: ConnectionView, secret: Seq<u8>) -> Result<
        ConnectionView,
        ProtocolError,
    > {
        if c.state == ConnectionState::Login && c.phase == LoginPhase::EncryptionResponse {
            Ok(
                ConnectionView {
                    phase: LoginPhase::Authentication,
                    cipher: Some(
                        CipherState {
                            key: secret,
                            encrypt_register: secret,
                            decrypt_register: secret,
                        },
                    ),
                    ..c
                },
            )
        } else {
            Err(ProtocolError::UnexpectedState)
        }
    }

    /// Installs the cipher for the shared secret `secret`. On failure the
    /// connection is as it was.
    pub fn install_cipher(&mut self, secret: [u8; KEY_LEN]) -> (res: Result<(), ProtocolError>)
        requires
            old(self).wf(),
        ensures
            final(self).wf(),
            match Self::with_cipher(old(self)@, secret@) {
                Ok(v) => res is Ok && final(self)@ == v,
                Err(e) => res == Err::<(), ProtocolError>(e) && final(self)@ == old(self)@,
            },
    {
        if !(self.state == ConnectionState::Login && self.phase
            == LoginPhase::EncryptionResponse) {
            return Err(ProtocolError::UnexpectedState);
        }
        self.aes_cryptor = Some(AesCryptor::new(secret, secret));
        self.phase = LoginPhase::Authentication;
        Ok(())
    }

    /// What the identity provider's answer makes of a connection: where that
    /// answer is awaited, and there only, its identifier becomes the
    /// connection's. The name that the client gave stays.
    pub open spec fn with_identity(c: ConnectionView, id: u128) -> Result<
        ConnectionView,
        ProtocolError,
    > {
        if c.state == ConnectionState::Login && c.phase == LoginPhase::Authentication {
            Ok(ConnectionView { phase: LoginPhase::LoginSuccess, user_uuid: Some(id), ..c })
        } else {
            Err(ProtocolError::UnexpectedState)
        }
    }

    /// Records the identifier that the identity provider gave. On failure
    /// the connection is as it was.
    pub fn record_identity(&mut self, identity: &Identity) -> (res: Result<(), ProtocolError>)
        requires
            old(self).wf(),
        ensures
            final(self).wf(),
            match Self::with_identity(old(self)@, identity.id) {
                Ok(v) => res is Ok && final(self)@ == v,
                Err(e) => res == Err::<(), ProtocolError>(e) && final(self)@ == old(self)@,
            },
    {
        if !(self.state == ConnectionState::Login && self.phase == LoginPhase::Authentication) {
            return Err(ProtocolError::UnexpectedState);
        }
        self.user_uuid = Some(identity.id);
        self.phase = LoginPhase::LoginSuccess;
        Ok(())
    }

    /// What the inbound stream makes of bytes that arrive: without a cipher
    /// they are what they are, with one they are the next bytes to decrypt.
    pub open spec fn received(c: ConnectionView, bytes: Seq<u8>) -> (Seq<u8>, ConnectionView) {
        match c.cipher {
            None => (bytes, c),
            Some(cipher) => (
                cfb8_decrypt(cipher.key, cipher.decrypt_register, bytes),
                ConnectionView {
                    cipher: Some(
                        CipherState {
                            decrypt_register: register_after(cipher.decrypt_register, bytes),
                            ..cipher
                        },
                    ),
                    ..c
                },
            ),
        }
    }

    /// What the outbound stream makes of bytes that leave: without a cipher
    /// they are what they are, with one they are the next bytes to encrypt.
    pub open spec fn sent(c: ConnectionView, bytes: Seq<u8>) -> (Seq<u8>, ConnectionView) {
        match c.cipher {
            None => (bytes, c),
            Some(cipher) => {
                let out = cfb8_encrypt(cipher.key, cipher.encrypt_register, bytes);
                (
                    out,
                    ConnectionView {
                        cipher: Some(
                            CipherState {
                                encrypt_register: register_after(cipher.encrypt_register, out),
                                ..cipher
                            },
                        ),
                        ..c
                    },
                )
            },
        }
    }

    /// Turns bytes as they came from the transport into bytes to read
    /// packets from. Every byte that arrives goes through here once, in the
    /// order of arrival.
    pub fn decrypt_inbound(&mut self, buf: &mut Vec<u8>)
        requires
            old(self).wf(),
        ensures
            final(self).wf(),
            (final(buf)@, final(self)@) == Self::received(old(self)@, old(buf)@),
    {
        match &mut self.aes_cryptor {
            Some(cryptor) => {
                cryptor.decrypt(buf);
            },
            None => {},
        }
    }

    /// Turns the bytes of packets into bytes for the transport. Every byte
    /// that leaves goes through here once, in the order of leaving.
    pub fn encrypt_outbound(&mut self, buf: &mut Vec<u8>)
        requires
            old(self).wf(),
        ensures
            final(self).wf(),
            (final(buf)@, final(self)@) == Self::sent(old(self)@, old(buf)@),
    {
        match &mut self.aes_cryptor {
            Some(cryptor) => {
                cryptor.encrypt(buf);
            },
            None => {},
        }
    }

    /// Whether a cipher is installed.
    pub fn is_encrypted(&self) -> (b: bool)
        ensures
            b == self@.cipher is Some,
    {
        self.aes_cryptor.is_some()
    }
}

} // verus!
