//! The start of a connection to a game server, without the sockets: the
//! wire format of its packets, the handshake and the login with their
//! fixed order of steps, the key exchange that leads to an encrypted stream,
//! and the hash by which an identity provider knows the session.
//!
//! Nothing here reads or writes a socket. Bytes come in as arguments and go
//! out as results, and `login::handle_client` says after each event what is
//! to be done next.

pub mod cipher;
pub mod codec;
pub mod connection;
pub mod digest;
pub mod error;
pub mod login;
pub mod packets;
pub mod reader;
pub mod server;
pub mod var_int;

pub use cipher::AesCryptor;
pub use connection::{Connection, ConnectionState};
pub use packets::handshake::Handshake;
pub use packets::login_start::LoginStart;
pub use packets::login_success::LoginSuccess;
pub use packets::request_encryption::EncryptionRequest;
pub use packets::response_encryption::EncryptionResponse;
pub use packets::Packet;
pub use server::Server;
