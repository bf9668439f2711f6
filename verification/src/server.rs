use rsa::PublicKeyParts;
use vstd::arithmetic::power::pow;
use vstd::prelude::*;
use vstd::string::StringExecFns;
use vstd::utf8::{encode_utf8, is_ascii_chars_encode_utf8};
use crate::codec::be_value;
use crate::error::ProtocolError;

verus! {

/// The size of the server's key in bits.
pub const KEY_BITS: usize = 1024;

/// The length of the secret that the two ends share, in bytes.
pub const SECRET_LEN: usize = 16;

/// The most bytes an encoded public key may have, so that an encryption
/// request with it still fits in a packet.
pub const MAX_ENCODED_KEY_LEN: usize = 0x7fff_ff00;

/// The most bytes a modulus or an exponent may have to be encoded.
pub const MAX_KEY_PART_LEN: usize = 0x00ff_ffff;

/// By how many bytes at most an encoded public key is longer than its
/// modulus and its exponent together.
pub const DER_OVERHEAD: usize = 80;

/// The name that the server gives every session: twenty spaces.
pub open spec fn server_id() -> Seq<char> {
    Seq::new(20, |i: int| ' ')
}

/// The name is twenty bytes long when written.
pub proof fn lemma_server_id_bytes()
    ensures
        encode_utf8(server_id()).len() == 20,
{
    is_ascii_chars_encode_utf8(server_id());
}

/// The name that the server gives every session, as a string.
pub fn server_id_string() -> (id: String)
    ensures
        id@ == server_id(),
{
    let id = String::from_str("                    ");
    proof {
        reveal_strlit("                    ");
        assert(id@ =~= server_id());
    }
    id
}

/// `rsa::RsaPrivateKey`: a key pair. What is in it is seen through the names
/// below only.
#[verifier::external_type_specification]
#[verifier::external_body]
pub struct ExRsaPrivateKey(rsa::RsaPrivateKey);

/// `rsa::errors::Error`: why an operation on a key failed. It is only
/// told apart from success.
#[verifier::external_type_specification]
#[verifier::external_body]
pub struct ExRsaError(rsa::errors::Error);

/// The modulus of `key`, big-endian: `n` of `rsa::PublicKeyParts`.
pub uninterp spec fn key_modulus(key: rsa::RsaPrivateKey) -> Seq<u8>;

/// The public exponent of `key`, big-endian: `e` of `rsa::PublicKeyParts`.
pub uninterp spec fn key_exponent(key: rsa::RsaPrivateKey) -> Seq<u8>;

/// The prime factors that `key` holds, each big-endian:
/// `rsa::RsaPrivateKey::primes`.
pub uninterp spec fn key_primes(key: rsa::RsaPrivateKey) -> Seq<Seq<u8>>;

/// Whether `key` passes its own validation: `rsa::RsaPrivateKey::validate`.
pub uninterp spec fn key_is_sound(key: rsa::RsaPrivateKey) -> bool;

/// What `key` decrypts `ciphertext` to with the padding of PKCS#1 v1.5, if
/// to anything: `rsa::RsaPrivateKey::decrypt`, which draws no random number
/// and so depends on the key and the ciphertext alone.
pub uninterp spec fn rsa_plaintext(key: rsa::RsaPrivateKey, ciphertext: Seq<u8>) -> Option<
    Seq<u8>,
>;

/// The DER form of the public key with the modulus `n` and the exponent `e`,
/// both big-endian, as `rsa_der` writes it.
pub uninterp spec fn der_public_key(n: Seq<u8>, e: Seq<u8>) -> Seq<u8>;

/// Whether every factor is a number of at least two.
pub open spec fn factors_are_proper(primes: Seq<Seq<u8>>) -> bool {
    forall|i: int| 0 <= i < primes.len() ==> be_value(#[trigger] primes[i]) >= 2
}

/// Whether `key` can be used: its factors are proper, and it passes its own
/// validation.
pub open spec fn key_is_usable(key: rsa::RsaPrivateKey) -> bool {
    factors_are_proper(key_primes(key)) && key_is_sound(key)
}

/// Why a server could not be set up.
#[derive(Clone, Copy, Debug, PartialEq, Eq, Structural)]
pub enum ServerError {
    /// No key pair could be generated.
    KeyGeneration,
    /// The key cannot be used, or its public part is not the one given.
    InvalidKey,
    /// The key is too large to be encoded and sent.
    KeyTooLarge,
}

/// `rsa::RsaPrivateKey::new` with the thread's random number generator: a
/// new key pair, or the error of the generator. Of a key that comes out:
/// the modulus has exactly `bits` bits, for the generator starts over until
/// it has; the public exponent is 65537; and the key can be used, for its
/// factors are large primes, its modulus is their product, and its private
/// exponent is the inverse of the public one modulo the product of the
/// factors less one each.
#[verifier::external_body]
fn generate_private_key(bits: usize) -> (res: Result<rsa::RsaPrivateKey, rsa::errors::Error>)
    requires
        bits == KEY_BITS,
    ensures
        res matches Ok(key) ==> {
            &&& key_modulus(key).len() * 8 == bits
            &&& key_exponent(key) == seq![1u8, 0u8, 1u8]
            &&& key_is_usable(key)
        },
{
    rsa::RsaPrivateKey::new(&mut rand::thread_rng(), bits)
}

/// The modulus of `key` (`rsa::PublicKeyParts::n`), big-endian.
#[verifier::external_body]
fn modulus_of(key: &rsa::RsaPrivateKey) -> (n: Vec<u8>)
    ensures
        n@ == key_modulus(*key),
{
    key.n().to_bytes_be()
}

/// The public exponent of `key` (`rsa::PublicKeyParts::e`), big-endian.
#[verifier::external_body]
fn exponent_of(key: &rsa::RsaPrivateKey) -> (e: Vec<u8>)
    ensures
        e@ == key_exponent(*key),
{
    key.e().to_bytes_be()
}

/// The prime factors of `key` (`rsa::RsaPrivateKey::primes`), each
/// big-endian.
#[verifier::external_body]
fn primes_of(key: &rsa::RsaPrivateKey) -> (primes: Vec<Vec<u8>>)
    ensures
        primes@.len() == key_primes(*key).len(),
        forall|i: int| 0 <= i < primes@.len() ==> (#[trigger] primes@[i])@ == key_primes(*key)[i],
{
    key.primes().iter().map(|p| p.to_bytes_be()).collect()
}

/// `rsa::RsaPrivateKey::validate`: whether the key passes its own
/// validation. The validation divides by each factor less one, so no factor
/// may be below two.
#[verifier::external_body]
fn key_validates(key: &rsa::RsaPrivateKey) -> (sound: bool)
    requires
        factors_are_proper(key_primes(*key)),
    ensures
        sound == key_is_sound(*key),
{
    key.validate().is_ok()
}

/// `rsa_der::public_key_to_der`: the DER form of the public key with the
/// modulus `n` and the exponent `e`, which depends on these two alone. It
/// holds the two numbers, in no more bytes than they were given in, and
/// around them five tags with their lengths and the fifteen bytes that name
/// the algorithm: less than `DER_OVERHEAD` bytes in all.
#[verifier::external_body]
fn public_key_to_der(n: &[u8], e: &[u8]) -> (der: Vec<u8>)
    requires
        n@.len() <= MAX_KEY_PART_LEN,
        e@.len() <= MAX_KEY_PART_LEN,
    ensures
        der@ == der_public_key(n@, e@),
        der@.len() <= n@.len() + e@.len() + DER_OVERHEAD,
{
    rsa_der::public_key_to_der(n, e)
}

/// Whether `filling` can fill a padded message: at least eight bytes, and
/// none of them zero.
pub open spec fn is_filling(filling: Seq<u8>) -> bool {
    filling.len() >= 8 && forall|i: int| 0 <= i < filling.len() ==> filling[i] != 0
}

/// `message` as PKCS#1 v1.5 pads it for encryption: a zero, a two, the
/// filling, a zero, the message.
pub open spec fn padded(filling: Seq<u8>, message: Seq<u8>) -> Seq<u8> {
    seq![0u8, 2u8] + filling + seq![0u8] + message
}

/// Whether `ciphertext` is an encryption of `message` under the public key
/// with the modulus `modulus` and the exponent `exponent`: there is a
/// filling with which the padded message is as long as the modulus and,
/// raised to the exponent, leaves the ciphertext as its remainder by the
/// modulus. All four are numbers written big-endian.
pub open spec fn encrypts_to(
    modulus: Seq<u8>,
    exponent: Seq<u8>,
    message: Seq<u8>,
    ciphertext: Seq<u8>,
) -> bool {
    exists|filling: Seq<u8>|
        {
            &&& #[trigger] is_filling(filling)
            &&& padded(filling, message).len() == modulus.len()
            &&& pow(be_value(padded(filling, message)) as int, be_value(exponent)) % (be_value(
                modulus,
            ) as int) == be_value(ciphertext)
        }
}

/// The plaintext of a decryption, if there is one.
pub open spec fn plaintext_of(decrypted: Result<Vec<u8>, rsa::errors::Error>) -> Option<Seq<u8>> {
    match decrypted {
        Ok(p) => Some(p@),
        Err(_) => None,
    }
}

/// `rsa::RsaPrivateKey::decrypt` with the padding of PKCS#1 v1.5, on a key
/// that can be used. What comes out is what the key makes of the
/// ciphertext, each time the same. A plaintext comes out only where the
/// key's own check has passed: padded with some filling and encrypted under
/// the key's public part, it gives `ciphertext`.
#[verifier::external_body]
fn rsa_decrypt(key: &rsa::RsaPrivateKey, ciphertext: &[u8]) -> (res: Result<
    Vec<u8>,
    rsa::errors::Error,
>)
    requires
        key_is_usable(*key),
    ensures
        plaintext_of(res) == rsa_plaintext(*key, ciphertext@),
        res matches Ok(message) ==> encrypts_to(
            key_modulus(*key),
            key_exponent(*key),
            message@,
            ciphertext@,
        ),
{
    key.decrypt(rsa::PaddingScheme::new_pkcs1v15_encrypt(), ciphertext)
}

/// Whether two runs of bytes are the same.
fn same_bytes(a: &[u8], b: &[u8]) -> (same: bool)
    ensures
        same == (a@ == b@),
{
    if a.len() != b.len() {
        return false;
    }
    let mut i: usize = 0;
    while i < a.len()
        invariant
            i <= a@.len(),
            a@.len() == b@.len(),
            forall|j: int| 0 <= j < i ==> a@[j] == b@[j],
        decreases a@.len() - i,
    {
        if a[i] != b[i] {
            return false;
        }
        i = i + 1;
    }
    assert(a@ =~= b@);
    true
}

/// Adding a digit at the end multiplies by 256 and adds the digit.
proof fn lemma_be_value_push(s: Seq<u8>, b: u8)
    ensures
        be_value(s.push(b)) == be_value(s) * 256 + b,
{
    assert(s.push(b).drop_last() =~= s);
}

/// Whether `bytes` stand for a number of at least two.
fn at_least_two(bytes: &[u8]) -> (yes: bool)
    ensures
        yes == (be_value(bytes@) >= 2),
{
    let mut seen: u8 = 0;
    let mut i: usize = 0;
    while i < bytes.len()
        invariant
            i <= bytes@.len(),
            seen <= 2,
            seen < 2 ==> be_value(bytes@.take(i as int)) == seen,
            seen == 2 ==> be_value(bytes@.take(i as int)) >= 2,
        decreases bytes@.len() - i,
    {
        proof {
            lemma_be_value_push(bytes@.take(i as int), bytes@[i as int]);
            assert(bytes@.take(i as int).push(bytes@[i as int]) =~= bytes@.take(i + 1));
        }
        if seen == 1 || bytes[i] >= 2 {
            seen = 2;
        } else if seen == 0 {
            seen = bytes[i];
        }
        i = i + 1;
    }
    assert(bytes@.take(i as int) =~= bytes@);
    seen == 2
}

/// Whether every factor in `primes` is at least two.
fn all_at_least_two(primes: &Vec<Vec<u8>>) -> (yes: bool)
    ensures
        yes == (forall|i: int| 0 <= i < primes@.len() ==> be_value((#[trigger] primes@[i])@) >= 2),
{
    let mut i: usize = 0;
    while i < primes.len()
        invariant
            i <= primes@.len(),
            forall|j: int| 0 <= j < i ==> be_value((#[trigger] primes@[j])@) >= 2,
        decreases primes@.len() - i,
    {
        if !at_least_two(primes[i].as_slice()) {
            return false;
        }
        i = i + 1;
    }
    true
}

/// A server as plain values and names: its key pair, and the public part
/// of it as the server shows and sends it.
pub struct ServerView {
    pub private_key: rsa::RsaPrivateKey,
    pub modulus: Seq<u8>,
    pub exponent: Seq<u8>,
    pub encoded_public_key: Seq<u8>,
}

/// The key pair of a server process, made once and only read afterwards.
pub struct Server {
    private_key: rsa::RsaPrivateKey,
    modulus: Vec<u8>,
    exponent: Vec<u8>,
    encoded_public_key: Vec<u8>,
}

impl View for Server {
    type V = ServerView;

    closed spec fn view(&self) -> ServerView {
        ServerView {
            private_key: self.private_key,
            modulus: self.modulus@,
            exponent: self.exponent@,
            encoded_public_key: self.encoded_public_key@,
        }
    }
}

/// The secret that a decryption yields: the plaintext where it has exactly
/// the length of a secret; anything else is a failure.
pub open spec fn secret_of(plaintext: Option<Seq<u8>>) -> Result<Seq<u8>, ProtocolError> {
    match plaintext {
        Some(p) => if p.len() == SECRET_LEN {
            Ok(p)
        } else {
            Err(ProtocolError::DecryptionFailure)
        },
        None => Err(ProtocolError::DecryptionFailure),
    }
}

/// Takes the shared secret out of what the decryption returned.
pub fn shared_secret_from(decrypted: Result<Vec<u8>, rsa::errors::Error>) -> (res: Result<
    [u8; SECRET_LEN],
    ProtocolError,
>)
    ensures
        match secret_of(plaintext_of(decrypted)) {
            Ok(p) => res is Ok && res->Ok_0@ == p,
            Err(e) => res == Err::<[u8; SECRET_LEN], ProtocolError>(e),
        },
{
    match decrypted {
        Ok(plaintext) => {
            if plaintext.len() != SECRET_LEN {
                return Err(ProtocolError::DecryptionFailure);
            }
            let mut secret = [0u8; SECRET_LEN];
            let mut i: usize = 0;
            while i < SECRET_LEN
                invariant
                    i <= 16,
                    plaintext@.len() == 16,
                    forall|j: int| 0 <= j < i ==> secret@[j] == plaintext@[j],
                decreases 16 - i,
            {
                secret[i] = plaintext[i];
                i = i + 1;
            }
            assert(secret@ =~= plaintext@);
            Ok(secret)
        },
        Err(_) => Err(ProtocolError::DecryptionFailure),
    }
}

/// Whether a key pair with this public part can make a server, and why not
/// where it cannot. The public part has to be short enough to be encoded,
/// the key has to be one that can be used, the public part has to be the
/// key's, and its encoded form has to be short enough to be sent.
pub open spec fn makes_server(
    private_key: rsa::RsaPrivateKey,
    modulus: Seq<u8>,
    exponent: Seq<u8>,
) -> Result<(), ServerError> {
    if modulus.len() > MAX_KEY_PART_LEN || exponent.len() > MAX_KEY_PART_LEN {
        Err(ServerError::KeyTooLarge)
    } else if !(key_is_usable(private_key) && modulus == key_modulus(private_key) && exponent
        == key_exponent(private_key)) {
        Err(ServerError::InvalidKey)
    } else if der_public_key(modulus, exponent).len() > MAX_ENCODED_KEY_LEN {
        Err(ServerError::KeyTooLarge)
    } else {
        Ok(())
    }
}

impl ServerView {
    /// The key can be used; the modulus and the exponent are the key's; the
    /// encoded key is their DER form, and short enough to be sent.
    pub open spec fn wf(self) -> bool {
        &&& key_is_usable(self.private_key)
        &&& self.modulus == key_modulus(self.private_key)
        &&& self.exponent == key_exponent(self.private_key)
        &&& self.encoded_public_key == der_public_key(self.modulus, self.exponent)
        &&& self.encoded_public_key.len() <= MAX_ENCODED_KEY_LEN
    }

    /// The shared secret that the server takes from `ciphertext`: what its
    /// key decrypts the ciphertext to, if that has the length of a secret.
    /// A ciphertext that the key decrypts to nothing, or to something of
    /// another length, is a `DecryptionFailure`.
    pub open spec fn secret(self, ciphertext: Seq<u8>) -> Result<Seq<u8>, ProtocolError> {
        secret_of(rsa_plaintext(self.private_key, ciphertext))
    }
}

impl Server {
    /// Every server is as `ServerView::wf` says.
    #[verifier::type_invariant]
    spec fn inv(self) -> bool {
        self@.wf()
    }

    /// A server with a newly generated key pair of `KEY_BITS` bits. It
    /// fails only where the generator does.
    pub fn new() -> (res: Result<Server, ServerError>)
        ensures
            match res {
                Ok(s) => s@.wf() && s@.modulus.len() * 8 == KEY_BITS && s@.exponent == seq![
                    1u8,
                    0u8,
                    1u8,
                ],
                Err(e) => e == ServerError::KeyGeneration,
            },
    {
        match generate_private_key(KEY_BITS) {
            Ok(key) => Server::with_key(key),
            Err(_) => Err(ServerError::KeyGeneration),
        }
    }

    /// A server with the key pair `private_key`. It fails with `InvalidKey`
    /// where the key cannot be used, and with `KeyTooLarge` where its
    /// public part is too long to be encoded and sent; `makes_server` says
    /// which comes when.
    pub fn with_key(private_key: rsa::RsaPrivateKey) -> (res: Result<Server, ServerError>)
        ensures
            match makes_server(
                private_key,
                key_modulus(private_key),
                key_exponent(private_key),
            ) {
                Ok(_) => res matches Ok(s) && s@.wf() && s@.private_key == private_key,
                Err(e) => res matches Err(f) && f == e,
            },
            key_modulus(private_key).len() <= MAX_KEY_PART_LEN && key_exponent(private_key).len()
                <= MAX_KEY_PART_LEN && key_is_usable(private_key) ==> der_public_key(
                key_modulus(private_key),
                key_exponent(private_key),
            ).len() <= key_modulus(private_key).len() + key_exponent(private_key).len()
                + DER_OVERHEAD,
    {
        let modulus = modulus_of(&private_key);
        let exponent = exponent_of(&private_key);
        Server::from_parts(private_key, modulus, exponent)
    }

    /// A server with the key pair `private_key`, whose modulus and public
    /// exponent are `modulus` and `exponent`. It fails with `KeyTooLarge`
    /// where one of the two has more than `MAX_KEY_PART_LEN` bytes or the
    /// encoded public key more than `MAX_ENCODED_KEY_LEN`, and with
    /// `InvalidKey` where the key cannot be used or the two are not the
    /// key's; `makes_server` says which comes when.
    pub fn from_parts(private_key: rsa::RsaPrivateKey, modulus: Vec<u8>, exponent: Vec<u8>) -> (res:
        Result<Server, ServerError>)
        ensures
            match makes_server(private_key, modulus@, exponent@) {
                Ok(_) => res matches Ok(s) && s@.wf() && s@.private_key == private_key,
                Err(e) => res matches Err(f) && f == e,
            },
            modulus@.len() <= MAX_KEY_PART_LEN && exponent@.len() <= MAX_KEY_PART_LEN
                && key_is_usable(private_key) && modulus@ == key_modulus(private_key)
                && exponent@ == key_exponent(private_key) ==> der_public_key(
                modulus@,
                exponent@,
            ).len() <= modulus@.len() + exponent@.len() + DER_OVERHEAD,
    {
        if modulus.len() > MAX_KEY_PART_LEN || exponent.len() > MAX_KEY_PART_LEN {
            return Err(ServerError::KeyTooLarge);
        }
        let primes = primes_of(&private_key);
        let proper = all_at_least_two(&primes);
        assert(proper == factors_are_proper(key_primes(private_key))) by {
            if proper {
                assert forall|i: int| 0 <= i < key_primes(private_key).len() implies be_value(
                    #[trigger] key_primes(private_key)[i],
                ) >= 2 by {
                    assert(primes@[i]@ == key_primes(private_key)[i]);
                }
            } else {
                let i = choose|i: int|
                    0 <= i < primes@.len() && !(be_value((#[trigger] primes@[i])@) >= 2);
                assert(primes@[i]@ == key_primes(private_key)[i]);
            }
        }
        if !proper {
            return Err(ServerError::InvalidKey);
        }
        if !key_validates(&private_key) {
            return Err(ServerError::InvalidKey);
        }
        let n = modulus_of(&private_key);
        let e = exponent_of(&private_key);
        if !same_bytes(n.as_slice(), modulus.as_slice()) || !same_bytes(
            e.as_slice(),
            exponent.as_slice(),
        ) {
            return Err(ServerError::InvalidKey);
        }
        let encoded_public_key = public_key_to_der(modulus.as_slice(), exponent.as_slice());
        if encoded_public_key.len() > MAX_ENCODED_KEY_LEN {
            return Err(ServerError::KeyTooLarge);
        }
        Ok(Server { private_key, modulus, exponent, encoded_public_key })
    }

    /// The public key in DER form, as it is sent to clients.
    pub fn encoded_public_key(&self) -> (key: &Vec<u8>)
        ensures
            key@ == self@.encoded_public_key,
            self@.wf(),
    {
        proof {
            use_type_invariant(self);
        }
        &self.encoded_public_key
    }

    /// The modulus of the key pair, big-endian.
    pub fn modulus(&self) -> (n: &Vec<u8>)
        ensures
            n@ == self@.modulus,
    {
        &self.modulus
    }

    /// The public exponent of the key pair, big-endian.
    pub fn exponent(&self) -> (e: &Vec<u8>)
        ensures
            e@ == self@.exponent,
    {
        &self.exponent
    }

    /// Decrypts what a client sent as its shared secret.
    ///
    /// The result is `self@.secret(ciphertext@)`: the secret that the key
    /// decrypts the ciphertext to, or a `DecryptionFailure` where it
    /// decrypts it to nothing or to something that has not sixteen bytes.
    /// A secret that comes out is one that `ciphertext` is an encryption of
    /// under the public key that this server sends.
    pub fn decrypt_shared_secret(&self, ciphertext: &[u8]) -> (res: Result<
        [u8; SECRET_LEN],
        ProtocolError,
    >)
        ensures
            match self@.secret(ciphertext@) {
                Ok(p) => res is Ok && res->Ok_0@ == p,
                Err(e) => res == Err::<[u8; SECRET_LEN], ProtocolError>(e),
            },
            res matches Ok(secret) ==> encrypts_to(
                self@.modulus,
                self@.exponent,
                secret@,
                ciphertext@,
            ),
    {
        proof {
            use_type_invariant(self);
        }
        shared_secret_from(rsa_decrypt(&self.private_key, ciphertext))
    }
}

} // verus!
