use mc_login::cipher::AesCryptor;
use mc_login::connection::{Connection, ConnectionState, Identity, LoginPhase};
use mc_login::digest::session_digest;
use mc_login::error::ProtocolError;
use mc_login::login::{handle_client, Action, Event};
use mc_login::packets::handshake::Handshake;
use mc_login::packets::login_start::LoginStart;
use mc_login::packets::login_success::LoginSuccess;
use mc_login::packets::request_encryption::EncryptionRequest;
use mc_login::packets::response_encryption::EncryptionResponse;
use mc_login::packets::{read_packet, Packet};
use mc_login::reader::Reader;
use mc_login::server::Server;
use rsa::{BigUint, PaddingScheme, PublicKey, RsaPrivateKey, RsaPublicKey};

const N: [&str; 4] = [
    "b0075e7d9142420aaf7aa3b72c9cd075fb46fa8b74187365f042ef322d4e5254",
    "54b7ea6f49f4fb4eaf6eb9e67e1c691230054467a2bad5fbec33946b090ce6e5",
    "116915687cb35001b0321f241a3da0062001a0a81acdc3165ec8ca4416d3f262",
    "d6c8a69bdab1152f3c80672ac722e1f202e8959e3ea50fc03c2b4ffd8f7f49cd",
];
const D: [&str; 4] = [
    "98e7cdcc854168dc9f5188a4b4bc02d8794d4e95946328da83b9a0cd954d5376",
    "ada094a3d73a56922311aba9ec2201a32ad368781d82ee1dc72f86dcf31fa1f0",
    "28394c6698d00101ccadae5447360feca6a51eb4ca417874de45d08920517b7e",
    "3a23f4d7b4b72323f10c7ccbf604b2c455cc64dd06fe56da32e2c7a60900bc1",
];
const P: [&str; 2] = [
    "d767abe12e0e584dcbf56d661281e9de294ba6156b4b798678dd76a9be016518",
    "5227ab06a9a5f88b06827899b08b058b7bced7316f74525182f09a399fef23a9",
];
const Q: [&str; 2] = [
    "d133f8ff95c617b66b94109075ea3b409cfb06f9d2854c0d47138d624b2d15a3",
    "7edcec0f9bc051e82f71473e6788db10948d5206713e6b961bd0adf47fdd8b85",
];
const GOOD: [&str; 4] = [
    "184731cc956f67ef166a29dd6934e25f4e2971dd9b1a1ce35099c5c618b80f80",
    "2dd7ba30551adf99c953f968a798d298ed60459d5422ae7c6ae8b8e2dc2dad44",
    "b9221931434e0344a0aff1ec2251a182748e87c321ea3a967f956c7852c584cf",
    "12648c0f9f8b9269363ce192412e4f0d0eefb6a3f7d7c81dfbe9e483975dd552",
];
const BAD_PADDING: [&str; 4] = [
    "9ddfe92ee173b81e2d09ccdab4a797a23f5e7e3f4cf4f7973866aa3314a8187e",
    "dc3ea511896a80654b24d86059e995ce52c5ad9c5f524b85afbdbe4e5de7ecfa",
    "ecfa5f14a504f4d3636cdc4e58c18be088e41b09232b8cfa56c10d322afa94f2",
    "043e920c12f065da2f78135b70eaffeea5a5df2f4d30f7929bddb7fc88ebea80",
];
const SECRET: [u8; 16] = [0, 1, 2, 3, 4, 5, 6, 7, 8, 9, 10, 11, 12, 13, 14, 15];
const UUID: u128 = 0x0123456789abcdef0fedcba987654321;

fn hex(lines: &[&str]) -> Vec<u8> {
    let digits: Vec<u8> =
        lines.concat().bytes().map(|c| (c as char).to_digit(16).unwrap() as u8).collect();
    digits.chunks(2).map(|p| p[0] * 16 + p[1]).collect()
}

fn number(lines: &[&str]) -> BigUint {
    BigUint::parse_bytes(lines.concat().as_bytes(), 16).unwrap()
}

fn fixed_server() -> Server {
    let key = RsaPrivateKey::from_components(
        number(&N),
        BigUint::from(65537u32),
        number(&D),
        vec![number(&P), number(&Q)],
    );
    Server::with_key(key).ok().unwrap()
}

fn handshake(next_state: i32) -> Vec<u8> {
    Handshake {
        protocol_version: 759,
        server_address: String::from("localhost"),
        server_port: 25565,
        next_state,
    }
    .encode()
}

fn login_start(name: &str) -> Vec<u8> {
    LoginStart { username: String::from(name), signature: None, player_uuid: None }.encode()
}

fn response(ciphertext: Vec<u8>) -> Vec<u8> {
    EncryptionResponse {
        shared_secret: ciphertext,
        verify_token: Some(vec![0; 128]),
        salt: 0,
        message_signature: vec![],
    }
    .encode()
}

fn in_login() -> Connection {
    let mut c = Connection::new();
    Handshake::handle(&handshake(2), &mut c).unwrap();
    c
}

fn awaiting_response(server: &Server) -> Connection {
    let mut c = in_login();
    LoginStart::handle(&login_start("Steve"), &mut c).unwrap();
    EncryptionRequest::handle(server, &mut c).unwrap();
    c
}

fn unchanged_and_fresh(c: &Connection) -> bool {
    c.state() == ConnectionState::Handshake
        && c.user_name().is_none()
        && c.user_uuid().is_none()
        && !c.is_encrypted()
}

#[test]
fn a_new_connection_knows_nothing() {
    let c = Connection::new();
    assert!(unchanged_and_fresh(&c));
    assert_eq!(c.phase(), LoginPhase::LoginStart);
    let d = Connection::default();
    assert!(unchanged_and_fresh(&d));
    assert_eq!(ConnectionState::default(), ConnectionState::Handshake);
}

#[test]
fn next_state_of_a_handshake() {
    assert_eq!(ConnectionState::from_next_state(1), Some(ConnectionState::Status));
    assert_eq!(ConnectionState::from_next_state(2), Some(ConnectionState::Login));
    assert_eq!(ConnectionState::from_next_state(0), None);
    assert_eq!(ConnectionState::from_next_state(3), None);
    assert_eq!(ConnectionState::from_next_state(-1), None);
}

#[test]
fn handshake_selects_the_state() {
    let mut c = Connection::new();
    assert_eq!(Handshake::handle(&handshake(2), &mut c), Ok(()));
    assert_eq!(c.state(), ConnectionState::Login);
    let mut c = Connection::new();
    assert_eq!(Handshake::handle(&handshake(1), &mut c), Ok(()));
    assert_eq!(c.state(), ConnectionState::Status);
}

#[test]
fn handshake_for_an_unknown_state_is_refused() {
    for next in [0, 3, 4, -1, 1000] {
        let mut c = Connection::new();
        assert_eq!(Handshake::handle(&handshake(next), &mut c), Err(ProtocolError::UnexpectedState));
        assert!(unchanged_and_fresh(&c));
    }
}

#[test]
fn second_handshake_is_refused() {
    let mut c = in_login();
    assert_eq!(Handshake::handle(&handshake(2), &mut c), Err(ProtocolError::UnexpectedState));
    assert_eq!(c.state(), ConnectionState::Login);
}

#[test]
fn malformed_handshake_leaves_the_connection() {
    let mut c = Connection::new();
    assert_eq!(Handshake::handle(&[0xf7], &mut c), Err(ProtocolError::TruncatedRead));
    assert!(unchanged_and_fresh(&c));
}

#[test]
fn login_start_before_handshake_is_a_state_violation() {
    let mut c = Connection::new();
    assert_eq!(
        LoginStart::handle(&login_start("Steve"), &mut c),
        Err(ProtocolError::UnexpectedState)
    );
    assert!(unchanged_and_fresh(&c));
    assert_eq!(
        LoginStart::handle(&[0xff, 0xff], &mut c),
        Err(ProtocolError::UnexpectedState)
    );
}

#[test]
fn login_start_in_status_is_a_state_violation() {
    let mut c = Connection::new();
    Handshake::handle(&handshake(1), &mut c).unwrap();
    assert_eq!(
        LoginStart::handle(&login_start("Steve"), &mut c),
        Err(ProtocolError::UnexpectedState)
    );
    assert_eq!(c.user_name(), None);
    let server = fixed_server();
    assert_eq!(
        handle_client(&mut c, &server, Event::Packet(login_start("Steve"))),
        Err(ProtocolError::UnexpectedState)
    );
    assert_eq!(c.state(), ConnectionState::Status);
}

#[test]
fn login_start_records_the_name_only() {
    let mut c = in_login();
    let packet = LoginStart {
        username: String::from("Alex"),
        signature: None,
        player_uuid: Some(UUID),
    };
    assert_eq!(LoginStart::handle(&packet.encode(), &mut c), Ok(()));
    assert_eq!(c.user_name(), Some(&String::from("Alex")));
    assert_eq!(c.user_uuid(), None);
    assert_eq!(c.phase(), LoginPhase::EncryptionRequest);
    assert_eq!(
        LoginStart::handle(&login_start("Other"), &mut c),
        Err(ProtocolError::UnexpectedState)
    );
    assert_eq!(c.user_name(), Some(&String::from("Alex")));
}

#[test]
fn malformed_login_start_records_nothing() {
    let mut c = in_login();
    assert_eq!(LoginStart::handle(&[2, 0xc3, 0x28, 0, 0], &mut c), Err(ProtocolError::InvalidUtf8));
    assert_eq!(c.user_name(), None);
    assert_eq!(c.phase(), LoginPhase::LoginStart);
}

#[test]
fn encryption_request_carries_key_and_token() {
    let server = fixed_server();
    let mut c = in_login();
    assert_eq!(EncryptionRequest::handle(&server, &mut c), Err(ProtocolError::UnexpectedState));
    LoginStart::handle(&login_start("Steve"), &mut c).unwrap();
    let bytes = EncryptionRequest::handle(&server, &mut c).unwrap();
    let mut r = Reader::new(&bytes);
    let (len, id) = read_packet(&mut r).unwrap();
    assert_eq!(id, 0x01);
    let payload = r.take(len - 1).unwrap();
    assert_eq!(r.remaining_len(), 0);
    let request = EncryptionRequest::decode(payload).unwrap();
    assert_eq!(request.server_id, " ".repeat(20));
    assert_eq!(&request.public_key, server.encoded_public_key());
    assert_eq!(request.verify_token.len(), 4);
    assert_eq!(c.phase(), LoginPhase::EncryptionResponse);
    assert_eq!(EncryptionRequest::handle(&server, &mut c), Err(ProtocolError::UnexpectedState));
}

#[test]
fn encryption_request_with_a_given_token() {
    let server = fixed_server();
    let bytes = EncryptionRequest::packet(&server, [1, 2, 3, 4]);
    let request = EncryptionRequest::new(&server, [1, 2, 3, 4]);
    assert_eq!(request.verify_token, vec![1, 2, 3, 4]);
    let payload = request.encode();
    assert_eq!(payload.len(), 21 + 2 + 161 + 5);
    let mut expected = vec![0xbe, 0x01, 0x01];
    expected.extend_from_slice(&payload);
    assert_eq!(bytes, expected);
}

#[test]
fn tokens_differ_from_login_to_login() {
    let server = fixed_server();
    let mut seen = Vec::new();
    for _ in 0..8 {
        let mut c = in_login();
        LoginStart::handle(&login_start("Steve"), &mut c).unwrap();
        let bytes = EncryptionRequest::handle(&server, &mut c).unwrap();
        seen.push(bytes[bytes.len() - 4..].to_vec());
    }
    seen.sort();
    seen.dedup();
    assert!(seen.len() > 1);
}

#[test]
fn encryption_response_installs_the_cipher() {
    let server = fixed_server();
    let mut c = awaiting_response(&server);
    assert_eq!(EncryptionResponse::handle(&response(hex(&GOOD)), &server, &mut c), Ok(()));
    assert!(c.is_encrypted());
    assert_eq!(c.phase(), LoginPhase::Authentication);
    assert_eq!(c.state(), ConnectionState::Login);
    assert_eq!(c.user_name(), Some(&String::from("Steve")));
}

#[test]
fn undecryptable_secret_is_a_decryption_failure() {
    let server = fixed_server();
    let mut c = awaiting_response(&server);
    assert_eq!(
        EncryptionResponse::handle(&response(hex(&BAD_PADDING)), &server, &mut c),
        Err(ProtocolError::DecryptionFailure)
    );
    assert!(!c.is_encrypted());
    assert_eq!(c.phase(), LoginPhase::EncryptionResponse);
    assert_eq!(c.state(), ConnectionState::Login);

    let mut c = awaiting_response(&server);
    assert_eq!(
        handle_client(&mut c, &server, Event::Packet(response(vec![0x17; 128]))),
        Err(ProtocolError::DecryptionFailure)
    );
    assert!(!c.is_encrypted());
    assert_eq!(c.user_uuid(), None);
}

#[test]
fn encryption_response_out_of_turn() {
    let server = fixed_server();
    let mut c = Connection::new();
    assert_eq!(
        EncryptionResponse::handle(&response(hex(&GOOD)), &server, &mut c),
        Err(ProtocolError::UnexpectedState)
    );
    assert!(unchanged_and_fresh(&c));
    let mut c = in_login();
    assert_eq!(
        EncryptionResponse::handle(&response(hex(&GOOD)), &server, &mut c),
        Err(ProtocolError::UnexpectedState)
    );
    assert!(!c.is_encrypted());
}

#[test]
fn malformed_encryption_response() {
    let server = fixed_server();
    let mut c = awaiting_response(&server);
    assert_eq!(
        EncryptionResponse::handle(&[3, 1, 2], &server, &mut c),
        Err(ProtocolError::TruncatedRead)
    );
    assert!(!c.is_encrypted());
}

#[test]
fn cipher_cannot_be_installed_out_of_turn() {
    let mut c = Connection::new();
    assert_eq!(c.install_cipher(SECRET), Err(ProtocolError::UnexpectedState));
    assert!(unchanged_and_fresh(&c));
    let mut c = in_login();
    assert_eq!(c.install_cipher(SECRET), Err(ProtocolError::UnexpectedState));
    assert!(!c.is_encrypted());
    let server = fixed_server();
    let mut c = awaiting_response(&server);
    assert_eq!(c.install_cipher(SECRET), Ok(()));
    assert!(c.is_encrypted());
    assert_eq!(c.install_cipher(SECRET), Err(ProtocolError::UnexpectedState));
}

#[test]
fn identity_out_of_turn() {
    let identity = Identity { id: UUID, name: String::from("Steve") };
    let mut c = Connection::new();
    assert_eq!(c.record_identity(&identity), Err(ProtocolError::UnexpectedState));
    assert_eq!(c.user_uuid(), None);
    assert_eq!(LoginSuccess::handle(&mut c), Err(ProtocolError::UnexpectedState));
    assert!(unchanged_and_fresh(&c));
    let server = fixed_server();
    let mut c = awaiting_response(&server);
    assert_eq!(
        handle_client(&mut c, &server, Event::Identity(identity)),
        Err(ProtocolError::UnexpectedState)
    );
    assert_eq!(c.user_uuid(), None);
    assert_eq!(
        handle_client(&mut c, &server, Event::IdentityFailure),
        Err(ProtocolError::UnexpectedState)
    );
}

#[test]
fn refusal_of_the_identity_provider_ends_the_login() {
    let server = fixed_server();
    let mut c = awaiting_response(&server);
    EncryptionResponse::handle(&response(hex(&GOOD)), &server, &mut c).unwrap();
    assert_eq!(
        handle_client(&mut c, &server, Event::IdentityFailure),
        Err(ProtocolError::IdentityProviderError)
    );
    assert_eq!(c.state(), ConnectionState::Login);
    assert_eq!(c.user_uuid(), None);
}

#[test]
fn login_with_a_known_key_and_secret() {
    let server = fixed_server();
    let mut c = Connection::new();

    assert_eq!(handle_client(&mut c, &server, Event::Packet(handshake(2))), Ok(Action::Receive));
    assert_eq!(c.state(), ConnectionState::Login);

    let sent = match handle_client(&mut c, &server, Event::Packet(login_start("Steve"))) {
        Ok(Action::Send(bytes)) => bytes,
        other => panic!("no encryption request: {:?}", other),
    };
    let mut r = Reader::new(&sent);
    let (len, id) = read_packet(&mut r).unwrap();
    assert_eq!(id, 1);
    let request = EncryptionRequest::decode(r.take(len - 1).unwrap()).unwrap();
    assert_eq!(&request.public_key, server.encoded_public_key());
    assert!(!c.is_encrypted());

    let action = handle_client(&mut c, &server, Event::Packet(response(hex(&GOOD))));
    assert_eq!(
        action,
        Ok(Action::Authenticate {
            username: String::from("Steve"),
            server_hash: String::from("cc52bff45f39738fe5c54ed228b1a7770a2bc3f"),
        })
    );
    assert!(c.is_encrypted());
    assert_eq!(c.state(), ConnectionState::Login);

    let identity = Identity { id: UUID, name: String::from("Steve") };
    let done = handle_client(&mut c, &server, Event::Identity(identity));
    assert_eq!(
        done,
        Ok(Action::Finish(vec![
            0x12, 0x17, 0x03, 0xc9, 0x63, 0x26, 0xd9, 0x90, 0xfa, 0xcb, 0x13, 0x54, 0x56, 0xaa,
            0x3d, 0xf7, 0x0a, 0x1e, 0xe2, 0xaf, 0x28, 0xbe, 0xea, 0xc8, 0xbc
        ]))
    );
    assert_eq!(c.state(), ConnectionState::Play);
    assert_eq!(c.user_uuid(), Some(UUID));
    assert_eq!(c.user_name(), Some(&String::from("Steve")));
    assert!(c.is_encrypted());

    assert_eq!(
        handle_client(&mut c, &server, Event::Packet(vec![0])),
        Err(ProtocolError::UnexpectedState)
    );
    assert_eq!(c.state(), ConnectionState::Play);
}

#[test]
fn login_from_end_to_end() {
    let server = Server::new().ok().unwrap();
    let mut c = Connection::new();

    assert_eq!(handle_client(&mut c, &server, Event::Packet(handshake(2))), Ok(Action::Receive));
    let sent = match handle_client(&mut c, &server, Event::Packet(login_start("Steve"))) {
        Ok(Action::Send(bytes)) => bytes,
        other => panic!("no encryption request: {:?}", other),
    };
    let mut r = Reader::new(&sent);
    let (len, id) = read_packet(&mut r).unwrap();
    assert_eq!(id, 1);
    let request = EncryptionRequest::decode(r.take(len - 1).unwrap()).unwrap();
    assert_eq!(request.server_id, " ".repeat(20));
    assert_eq!(request.verify_token.len(), 4);

    let der = &request.public_key;
    assert_eq!(der.len(), 161);
    let public = RsaPublicKey::new(
        BigUint::from_bytes_be(&der[28..156]),
        BigUint::from_bytes_be(&der[158..]),
    )
    .unwrap();
    let secret: [u8; 16] = [0xc3, 1, 0xff, 3, 4, 5, 6, 7, 8, 9, 10, 11, 12, 13, 14, 0x80];
    let mut rng = rand::thread_rng();
    let encrypted_secret =
        public.encrypt(&mut rng, PaddingScheme::new_pkcs1v15_encrypt(), &secret).unwrap();
    let encrypted_token = public
        .encrypt(&mut rng, PaddingScheme::new_pkcs1v15_encrypt(), &request.verify_token)
        .unwrap();
    let answer = EncryptionResponse {
        shared_secret: encrypted_secret,
        verify_token: Some(encrypted_token),
        salt: 0,
        message_signature: vec![],
    };

    let action = handle_client(&mut c, &server, Event::Packet(answer.encode()));
    let expected_hash = session_digest(&" ".repeat(20), &secret, server.encoded_public_key());
    assert_eq!(
        action,
        Ok(Action::Authenticate { username: String::from("Steve"), server_hash: expected_hash })
    );
    assert!(c.is_encrypted());

    let identity = Identity { id: UUID, name: String::from("Steve") };
    let mut bytes = match handle_client(&mut c, &server, Event::Identity(identity)) {
        Ok(Action::Finish(bytes)) => bytes,
        other => panic!("no login success: {:?}", other),
    };
    assert_eq!(c.state(), ConnectionState::Play);

    let mut client = AesCryptor::new(secret, secret);
    let ciphertext = bytes.clone();
    client.decrypt(&mut bytes);
    assert_ne!(bytes, ciphertext);
    let mut r = Reader::new(&bytes);
    let (len, id) = read_packet(&mut r).unwrap();
    assert_eq!(id, 2);
    let success = LoginSuccess::decode(r.take(len - 1).unwrap()).unwrap();
    assert_eq!(success, LoginSuccess { uuid: UUID, username: String::from("Steve") });
    assert_eq!(r.remaining_len(), 0);
}

#[test]
fn login_success_by_steps() {
    let server = fixed_server();
    let mut c = awaiting_response(&server);
    EncryptionResponse::handle(&response(hex(&GOOD)), &server, &mut c).unwrap();
    assert_eq!(LoginSuccess::handle(&mut c), Err(ProtocolError::UnexpectedState));
    assert_eq!(c.state(), ConnectionState::Login);
    let identity = Identity { id: 7, name: String::from("someone") };
    assert_eq!(c.record_identity(&identity), Ok(()));
    assert_eq!(c.user_uuid(), Some(7));
    assert_eq!(c.user_name(), Some(&String::from("Steve")));
    assert_eq!(c.phase(), LoginPhase::LoginSuccess);
    assert_eq!(c.record_identity(&identity), Err(ProtocolError::UnexpectedState));
    let mut bytes = LoginSuccess::handle(&mut c).unwrap();
    assert_eq!(c.state(), ConnectionState::Play);
    let mut client = AesCryptor::new(SECRET, SECRET);
    client.decrypt(&mut bytes);
    assert_eq!(bytes[0] as usize, bytes.len() - 1);
    assert_eq!(bytes[1], 2);
    assert_eq!(
        LoginSuccess::decode(&bytes[2..]),
        Ok(LoginSuccess { uuid: 7, username: String::from("Steve") })
    );
    assert_eq!(LoginSuccess::handle(&mut c), Err(ProtocolError::UnexpectedState));
}

#[test]
fn bytes_pass_unchanged_before_the_cipher() {
    let mut c = in_login();
    let mut bytes = vec![1, 2, 3];
    c.decrypt_inbound(&mut bytes);
    assert_eq!(bytes, vec![1, 2, 3]);
    c.encrypt_outbound(&mut bytes);
    assert_eq!(bytes, vec![1, 2, 3]);
}

#[test]
fn bytes_go_through_the_cipher_once_it_is_there() {
    let server = fixed_server();
    let mut c = awaiting_response(&server);
    EncryptionResponse::handle(&response(hex(&GOOD)), &server, &mut c).unwrap();
    let mut client = AesCryptor::new(SECRET, SECRET);

    let mut up = b"to the server".to_vec();
    client.encrypt(&mut up);
    assert_ne!(up, b"to the server".to_vec());
    let (mut first, mut second) = (up[..4].to_vec(), up[4..].to_vec());
    c.decrypt_inbound(&mut first);
    c.decrypt_inbound(&mut second);
    first.extend_from_slice(&second);
    assert_eq!(first, b"to the server".to_vec());

    let mut down = b"to the client".to_vec();
    c.encrypt_outbound(&mut down);
    assert_ne!(down, b"to the client".to_vec());
    client.decrypt(&mut down);
    assert_eq!(down, b"to the client".to_vec());

    let identity = Identity { id: UUID, name: String::from("Steve") };
    c.record_identity(&identity).unwrap();
    let mut success = LoginSuccess::handle(&mut c).unwrap();
    client.decrypt(&mut success);
    assert_eq!(success[1], 2);
    assert_eq!(&success[18..24], &[5, b'S', b't', b'e', b'v', b'e']);
}

#[test]
fn items_are_found_at_the_root() {
    let _c: mc_login::Connection = mc_login::Connection::new();
    let _s: mc_login::ConnectionState = mc_login::ConnectionState::Handshake;
    let _k = mc_login::AesCryptor::new(SECRET, SECRET);
    let h = mc_login::Handshake {
        protocol_version: 1,
        server_address: String::new(),
        server_port: 0,
        next_state: 1,
    };
    assert_eq!(<mc_login::Handshake as mc_login::Packet>::encode(&h), vec![1, 0, 0, 0, 1]);
}
