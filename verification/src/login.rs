use vstd::prelude::*;
use crate::cipher::cfb8_encrypt;
use crate::codec::lemma_parse_string_len;
use crate::connection::{
    Connection, ConnectionState, ConnectionView, Identity, LoginPhase, MAX_NAME_LEN,
};
use crate::digest::{session_digest, session_hash};
use crate::error::ProtocolError;
use crate::packets::handshake::Handshake;
use crate::packets::login_start::LoginStart;
use crate::packets::login_success::LoginSuccess;
use crate::packets::request_encryption::{EncryptionRequest, VERIFY_TOKEN_LEN};
use crate::packets::response_encryption::EncryptionResponse;
use crate::packets::Packet;
use crate::server::{lemma_server_id_bytes, server_id, server_id_string, Server, ServerView};

verus! {

/// What can happen to a connection from outside.
#[derive(Debug, PartialEq, Eq)]
pub enum Event {
    /// The payload of the next packet from the client.
    Packet(Vec<u8>),
    /// The identity provider has answered.
    Identity(Identity),
    /// The identity provider could not be reached, or refused.
    IdentityFailure,
}

/// What is to be done for a connection next.
#[derive(Debug, PartialEq, Eq)]
pub enum Action {
    /// Wait for the next packet.
    Receive,
    /// Send these bytes, then wait for the next packet.
    Send(Vec<u8>),
    /// Ask the identity provider whether `username` has joined the session
    /// with the hash `server_hash`.
    Authenticate { username: String, server_hash: String },
    /// Send these bytes. The login is over: the connection is in play.
    Finish(Vec<u8>),
}

/// An event as plain values.
pub enum EventView {
    Packet(Seq<u8>),
    Identity { id: u128, name: Seq<char> },
    IdentityFailure,
}

/// An action as plain values.
pub enum ActionView {
    Receive,
    Send(Seq<u8>),
    Authenticate { username: Seq<char>, server_hash: Seq<char> },
    Finish(Seq<u8>),
}

impl View for Event {
    type V = EventView;

    open spec fn view(&self) -> EventView {
        match self {
            Event::Packet(p) => EventView::Packet(p@),
            Event::Identity(i) => EventView::Identity { id: i.id, name: i.name@ },
            Event::IdentityFailure => EventView::IdentityFailure,
        }
    }
}

impl View for Action {
    type V = ActionView;

    open spec fn view(&self) -> ActionView {
        match self {
            Action::Receive => ActionView::Receive,
            Action::Send(b) => ActionView::Send(b@),
            Action::Authenticate { username, server_hash } => ActionView::Authenticate {
                username: username@,
                server_hash: server_hash@,
            },
            Action::Finish(b) => ActionView::Finish(b@),
        }
    }
}

/// The step has failed with `e` and has left the connection as it was.
pub open spec fn fails_with(
    e: ProtocolError,
    res: Result<ActionView, ProtocolError>,
    before: ConnectionView,
    after: ConnectionView,
) -> bool {
    res == Err::<ActionView, ProtocolError>(e) && after == before
}

/// The first packet: the handshake decides, and nothing is sent.
pub open spec fn step_handshake(
    before: ConnectionView,
    payload: Seq<u8>,
    res: Result<ActionView, ProtocolError>,
    after: ConnectionView,
) -> bool {
    match Handshake::outcome(before, payload) {
        Ok(v) => res == Ok::<ActionView, ProtocolError>(ActionView::Receive) && after == v,
        Err(e) => fails_with(e, res, before, after),
    }
}

/// The login start: the name is recorded and the encryption request goes
/// out, with the server's key and some token of four bytes.
pub open spec fn step_login_start(
    before: ConnectionView,
    server: ServerView,
    payload: Seq<u8>,
    res: Result<ActionView, ProtocolError>,
    after: ConnectionView,
) -> bool {
    match LoginStart::outcome(before, payload) {
        Ok(v) => {
            &&& after == ConnectionView { phase: LoginPhase::EncryptionResponse, ..v }
            &&& res matches Ok(ActionView::Send(bytes))
            &&& exists|token: Seq<u8>|
                token.len() == VERIFY_TOKEN_LEN && bytes == #[trigger] EncryptionRequest::wire(
                    server.encoded_public_key,
                    token,
                )
        },
        Err(e) => fails_with(e, res, before, after),
    }
}

/// The client's answer to the encryption request: the cipher is installed
/// with the secret that the server's key decrypts from it, and with the
/// cipher comes the question to the identity provider, about the name that
/// the client gave and the hash of this session. An answer that does not
/// read fails with the error of the reading, and one whose secret does not
/// decrypt to sixteen bytes with a `DecryptionFailure`.
pub open spec fn step_encryption_response(
    before: ConnectionView,
    server: ServerView,
    payload: Seq<u8>,
    res: Result<ActionView, ProtocolError>,
    after: ConnectionView,
) -> bool {
    match EncryptionResponse::outcome(before, server, payload) {
        Err(e) => fails_with(e, res, before, after),
        Ok(v) => {
            &&& after == v
            &&& res == Ok::<ActionView, ProtocolError>(
                ActionView::Authenticate {
                    username: before.user_name->Some_0,
                    server_hash: session_hash(
                        server_id(),
                        v.cipher->Some_0.key,
                        server.encoded_public_key,
                    ),
                },
            )
        },
    }
}

/// The identity provider's answer: its identifier is recorded, the login
/// success goes out through the cipher, and the connection is in play.
pub open spec fn step_identity(
    before: ConnectionView,
    id: u128,
    res: Result<ActionView, ProtocolError>,
    after: ConnectionView,
) -> bool {
    match Connection::with_identity(before, id) {
        Ok(v) => match LoginSuccess::outcome(v) {
            Ok((sent, w)) => res == Ok::<ActionView, ProtocolError>(ActionView::Finish(sent))
                && after == w,
            Err(e) => fails_with(e, res, before, after),
        },
        Err(e) => fails_with(e, res, before, after),
    }
}

/// One step of a connection. The steps of a login come in one order, and an
/// event that is not the next in that order is an `UnexpectedState`. Every
/// failure leaves the connection as it was.
pub open spec fn step(
    before: ConnectionView,
    server: ServerView,
    event: EventView,
    res: Result<ActionView, ProtocolError>,
    after: ConnectionView,
) -> bool {
    let awaited = if before.state == ConnectionState::Login {
        Some(before.phase)
    } else {
        None
    };
    match event {
        EventView::Packet(payload) => {
            if before.state == ConnectionState::Handshake {
                step_handshake(before, payload, res, after)
            } else if awaited == Some(LoginPhase::LoginStart) {
                step_login_start(before, server, payload, res, after)
            } else if awaited == Some(LoginPhase::EncryptionResponse) {
                step_encryption_response(before, server, payload, res, after)
            } else {
                fails_with(ProtocolError::UnexpectedState, res, before, after)
            }
        },
        EventView::Identity { id, name } => {
            if awaited == Some(LoginPhase::Authentication) {
                step_identity(before, id, res, after)
            } else {
                fails_with(ProtocolError::UnexpectedState, res, before, after)
            }
        },
        EventView::IdentityFailure => {
            if awaited == Some(LoginPhase::Authentication) {
                fails_with(ProtocolError::IdentityProviderError, res, before, after)
            } else {
                fails_with(ProtocolError::UnexpectedState, res, before, after)
            }
        },
    }
}

/// What holds of every step of a connection that is as it should be: the
/// connection stays so; a failure changes nothing; a name, an identifier
/// and a key, once there, stay what they are; a cipher comes during a
/// login and at no other time; and the state only moves forward, from the
/// handshake to the status or the login, and from the login to play.
pub proof fn lemma_step_laws(
    before: ConnectionView,
    server: ServerView,
    event: EventView,
    res: Result<ActionView, ProtocolError>,
    after: ConnectionView,
)
    requires
        before.wf(),
        before.awaits_login_start() ==> (event matches EventView::Packet(p) ==> p.len()
            <= MAX_NAME_LEN),
        step(before, server, event, res, after),
    ensures
        after.wf(),
        res is Err ==> after == before,
        before.user_name is Some ==> after.user_name == before.user_name,
        before.user_uuid is Some ==> after.user_uuid == before.user_uuid,
        before.cipher matches Some(c) ==> after.cipher matches Some(d) && d.key == c.key,
        before.cipher is None && after.cipher is Some ==> before.state == ConnectionState::Login
            && after.state == ConnectionState::Login,
        after.state == before.state || (before.state == ConnectionState::Handshake && (after.state
            == ConnectionState::Status || after.state == ConnectionState::Login)) || (before.state
            == ConnectionState::Login && after.state == ConnectionState::Play),
{
    if let EventView::Packet(p) = event {
        lemma_parse_string_len(p);
    }
}

/// A login start that comes at any other time than the start of a login, so
/// also one that comes before the handshake, is an `UnexpectedState`,
/// whatever is in it. `LoginStart::handle` then leaves the connection as it
/// was, without a name.
pub proof fn lemma_login_start_out_of_turn(before: ConnectionView, payload: Seq<u8>)
    requires
        !(before.state == ConnectionState::Login && before.phase == LoginPhase::LoginStart),
    ensures
        LoginStart::outcome(before, payload) == Err::<ConnectionView, ProtocolError>(
            ProtocolError::UnexpectedState,
        ),
{
}

/// An answer to the encryption request whose secret the server's key does
/// not decrypt to sixteen bytes ends in a `DecryptionFailure`; the
/// connection is as before and has no cipher.
pub proof fn lemma_failed_response_installs_nothing(
    before: ConnectionView,
    server: ServerView,
    payload: Seq<u8>,
    res: Result<ActionView, ProtocolError>,
    after: ConnectionView,
)
    requires
        before.wf(),
        before.state == ConnectionState::Login,
        before.phase == LoginPhase::EncryptionResponse,
        step(before, server, EventView::Packet(payload), res, after),
        EncryptionResponse::parse(payload) matches Ok((answer, _)) && server.secret(
            answer.shared_secret,
        ) is Err,
    ensures
        res == Err::<ActionView, ProtocolError>(ProtocolError::DecryptionFailure),
        after == before,
        after.cipher is None,
{
}

/// A whole login. From a new connection, a handshake that asks for the
/// login, a login start, an answer to the encryption request whose secret
/// the server's key decrypts to sixteen bytes, and an answer of the identity
/// provider lead to play. The cipher's key is that secret. The connection
/// then has the name from the login start and the identifier from the
/// identity provider; the identity provider was asked about that name and
/// the hash of this session; and the login success is the first thing to go
/// through the cipher, whose stream starts from the secret.
pub proof fn lemma_login_reaches_play(
    server: ServerView,
    handshake: Seq<u8>,
    login_start: Seq<u8>,
    response: Seq<u8>,
    id: u128,
    name: Seq<char>,
    steps: (
        Result<ActionView, ProtocolError>,
        Result<ActionView, ProtocolError>,
        Result<ActionView, ProtocolError>,
        Result<ActionView, ProtocolError>,
    ),
    states: (ConnectionView, ConnectionView, ConnectionView, ConnectionView),
)
    requires
        login_start.len() <= MAX_NAME_LEN,
        step(ConnectionView::initial(), server, EventView::Packet(handshake), steps.0, states.0),
        steps.0 is Ok,
        states.0.state == ConnectionState::Login,
        step(states.0, server, EventView::Packet(login_start), steps.1, states.1),
        steps.1 is Ok,
        step(states.1, server, EventView::Packet(response), steps.2, states.2),
        EncryptionResponse::parse(response) matches Ok((answer, _)) && server.secret(
            answer.shared_secret,
        ) is Ok,
        step(states.2, server, EventView::Identity { id, name }, steps.3, states.3),
    ensures
        LoginStart::parse(login_start) matches Ok((start, _)) && EncryptionResponse::parse(
            response,
        ) matches Ok((answer, _)) && server.secret(answer.shared_secret) matches Ok(secret) && {
            let username = start.username;
            let sent = cfb8_encrypt(secret, secret, LoginSuccess::wire(id, username));
            &&& secret.len() == 16
            &&& states.2.cipher matches Some(c) && c.key == secret
            &&& steps.2 == Ok::<ActionView, ProtocolError>(
                ActionView::Authenticate {
                    username,
                    server_hash: session_hash(server_id(), secret, server.encoded_public_key),
                },
            )
            &&& steps.3 == Ok::<ActionView, ProtocolError>(ActionView::Finish(sent))
            &&& states.3.state == ConnectionState::Play
            &&& states.3.user_name == Some(username)
            &&& states.3.user_uuid == Some(id)
            &&& states.3.cipher matches Some(c) && c.key == secret
            &&& states.3.wf()
        },
{
    lemma_parse_string_len(login_start);
}

/// The view of a result.
pub open spec fn result_view(res: Result<Action, ProtocolError>) -> Result<
    ActionView,
    ProtocolError,
> {
    match res {
        Ok(a) => Ok(a@),
        Err(e) => Err(e),
    }
}

/// Takes a connection one step on: decides from its state and from what
/// happened what the state is next and what is to be done.
///
/// Where the login start is awaited, the payload may have at most
/// `MAX_NAME_LEN` bytes: a longer name could not be sent back.
pub fn handle_client(connection: &mut Connection, server: &Server, event: Event) -> (res: Result<
    Action,
    ProtocolError,
>)
    requires
        old(connection).wf(),
        old(connection)@.awaits_login_start() ==> (event matches Event::Packet(p) ==> p@.len()
            <= MAX_NAME_LEN),
    ensures
        final(connection).wf(),
        step(old(connection)@, server@, event@, result_view(res), final(connection)@),
{
    match event {
        Event::Packet(payload) => match connection.state() {
            ConnectionState::Handshake => {
                Handshake::handle(payload.as_slice(), connection)?;
                Ok(Action::Receive)
            },
            ConnectionState::Login => match connection.phase() {
                LoginPhase::LoginStart => {
                    LoginStart::handle(payload.as_slice(), connection)?;
                    let bytes = EncryptionRequest::handle(server, connection)?;
                    Ok(Action::Send(bytes))
                },
                LoginPhase::EncryptionResponse => {
                    EncryptionResponse::handle(payload.as_slice(), server, connection)?;
                    match (&connection.user_name, &connection.aes_cryptor) {
                        (Some(name), Some(cryptor)) => {
                            let secret = cryptor.shared_secret();
                            let id = server_id_string();
                            proof {
                                lemma_server_id_bytes();
                            }
                            let server_hash = session_digest(
                                id.as_str(),
                                secret.as_slice(),
                                server.encoded_public_key().as_slice(),
                            );
                            Ok(Action::Authenticate { username: name.clone(), server_hash })
                        },
                        _ => Err(ProtocolError::UnexpectedState),
                    }
                },
                _ => Err(ProtocolError::UnexpectedState),
            },
            _ => Err(ProtocolError::UnexpectedState),
        },
        Event::Identity(identity) => {
            connection.record_identity(&identity)?;
            let bytes = LoginSuccess::handle(connection)?;
            Ok(Action::Finish(bytes))
        },
        Event::IdentityFailure => {
            if connection.state() == ConnectionState::Login && connection.phase()
                == LoginPhase::Authentication {
                Err(ProtocolError::IdentityProviderError)
            } else {
                Err(ProtocolError::UnexpectedState)
            }
        },
    }
}

} // verus!
