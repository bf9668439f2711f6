use vstd::prelude::*;

verus! {

/// The ways a connection can fail. Every kind is fatal to the connection it
/// arises on and to no other.
#[derive(Clone, Copy, Debug, PartialEq, Eq, Structural)]
pub enum ProtocolError {
    /// Five bytes went by without one that ends the variable-length integer.
    MalformedVarInt,
    /// The input ended in the middle of a field.
    TruncatedRead,
    /// The bytes of a string are not UTF-8.
    InvalidUtf8,
    /// A packet or an event arrived in a state that does not expect it.
    UnexpectedState,
    /// The shared secret did not decrypt, or not to sixteen bytes.
    DecryptionFailure,
    /// The identity provider could not be reached or refused the login.
    IdentityProviderError,
}

} // verus!
