use aes::cipher::{AsyncStreamCipher, KeyIvInit};
use vstd::prelude::*;

verus! {

/// The length of the key, of the initialization vector and of the feedback
/// register, in bytes.
pub const KEY_LEN: usize = 16;

/// The block that `aes::Aes128`, keyed with `key`, encrypts the one block
/// `block` to.
pub uninterp spec fn aes128_encrypt_block(key: Seq<u8>, block: Seq<u8>) -> Seq<u8>;

/// The byte that masks the next byte of the stream: the first byte of the
/// encrypted register.
pub open spec fn mask(key: Seq<u8>, register: Seq<u8>) -> u8 {
    aes128_encrypt_block(key, register)[0]
}

/// The register after the ciphertext byte `c` has been fed back: its first
/// byte leaves, `c` comes in at the end.
pub open spec fn shift_in(register: Seq<u8>, c: u8) -> Seq<u8> {
    register.drop_first().push(c)
}

/// The register after all of `ciphertext` has been fed back.
pub open spec fn register_after(register: Seq<u8>, ciphertext: Seq<u8>) -> Seq<u8>
    decreases ciphertext.len(),
{
    if ciphertext.len() == 0 {
        register
    } else {
        register_after(shift_in(register, ciphertext[0]), ciphertext.drop_first())
    }
}

/// The ciphertext of `plain` in feedback mode with eight bits of feedback:
/// each byte is masked, and the masked byte is fed back into the register.
pub open spec fn cfb8_encrypt(key: Seq<u8>, register: Seq<u8>, plain: Seq<u8>) -> Seq<u8>
    decreases plain.len(),
{
    if plain.len() == 0 {
        Seq::empty()
    } else {
        let c = plain[0] ^ mask(key, register);
        seq![c] + cfb8_encrypt(key, shift_in(register, c), plain.drop_first())
    }
}

/// The plaintext of `ciphertext`: each byte is unmasked, and the byte as it
/// came is fed back into the register.
pub open spec fn cfb8_decrypt(key: Seq<u8>, register: Seq<u8>, ciphertext: Seq<u8>) -> Seq<u8>
    decreases ciphertext.len(),
{
    if ciphertext.len() == 0 {
        Seq::empty()
    } else {
        let p = ciphertext[0] ^ mask(key, register);
        seq![p] + cfb8_decrypt(key, shift_in(register, ciphertext[0]), ciphertext.drop_first())
    }
}

/// The register after some ciphertext holds the last bytes of the old
/// register followed by that ciphertext.
pub proof fn lemma_register_is_tail(register: Seq<u8>, ciphertext: Seq<u8>)
    requires
        register.len() > 0,
    ensures
        register_after(register, ciphertext) == (register + ciphertext).skip(
            ciphertext.len() as int,
        ),
    decreases ciphertext.len(),
{
    if ciphertext.len() == 0 {
        assert((register + ciphertext).skip(0) =~= register);
    } else {
        let next = shift_in(register, ciphertext[0]);
        let rest = ciphertext.drop_first();
        lemma_register_is_tail(next, rest);
        assert((next + rest).skip(rest.len() as int) =~= (register + ciphertext).skip(
            ciphertext.len() as int,
        ));
    }
}

/// Decrypting, with the same key and from the same register, what was
/// encrypted gives the plaintext back.
pub proof fn lemma_decrypt_inverts_encrypt(key: Seq<u8>, register: Seq<u8>, plain: Seq<u8>)
    ensures
        cfb8_decrypt(key, register, cfb8_encrypt(key, register, plain)) == plain,
    decreases plain.len(),
{
    let ciphertext = cfb8_encrypt(key, register, plain);
    if plain.len() == 0 {
        assert(cfb8_decrypt(key, register, ciphertext) =~= plain);
    } else {
        let m = mask(key, register);
        let p = plain[0];
        let c = p ^ m;
        assert(c ^ m == p) by (bit_vector)
            requires
                c == p ^ m,
        ;
        let next = shift_in(register, c);
        let tail = cfb8_encrypt(key, next, plain.drop_first());
        assert(ciphertext.drop_first() =~= tail);
        lemma_decrypt_inverts_encrypt(key, next, plain.drop_first());
        assert(cfb8_decrypt(key, register, ciphertext) =~= plain);
    }
}

/// Two ciphers with the same key and the same register make the same
/// ciphertext of the same plaintext.
pub proof fn lemma_encrypt_is_determined(a: CipherState, b: CipherState, plain: Seq<u8>)
    requires
        a.key == b.key,
        a.encrypt_register == b.encrypt_register,
    ensures
        cfb8_encrypt(a.key, a.encrypt_register, plain) == cfb8_encrypt(
            b.key,
            b.encrypt_register,
            plain,
        ),
{
}

/// Encryption is one stream: the ciphertext of `a` followed by `b` is the
/// ciphertext of `a`, then that of `b` from the register that `a` left.
pub proof fn lemma_encrypt_continues(key: Seq<u8>, register: Seq<u8>, a: Seq<u8>, b: Seq<u8>)
    ensures
        cfb8_encrypt(key, register, a + b) == cfb8_encrypt(key, register, a) + cfb8_encrypt(
            key,
            register_after(register, cfb8_encrypt(key, register, a)),
            b,
        ),
    decreases a.len(),
{
    if a.len() == 0 {
        assert(a + b =~= b);
        assert(cfb8_encrypt(key, register, a) + cfb8_encrypt(key, register, b) =~= cfb8_encrypt(
            key,
            register,
            b,
        ));
    } else {
        let c = a[0] ^ mask(key, register);
        let next = shift_in(register, c);
        assert((a + b).drop_first() =~= a.drop_first() + b);
        assert((a + b)[0] == a[0]);
        lemma_encrypt_continues(key, next, a.drop_first(), b);
        let head = cfb8_encrypt(key, register, a);
        assert(head.drop_first() =~= cfb8_encrypt(key, next, a.drop_first()));
        assert(head[0] == c);
        assert(cfb8_encrypt(key, register, a + b) =~= head + cfb8_encrypt(
            key,
            register_after(register, head),
            b,
        ));
    }
}

/// Decryption is one stream as well.
pub proof fn lemma_decrypt_continues(key: Seq<u8>, register: Seq<u8>, a: Seq<u8>, b: Seq<u8>)
    ensures
        cfb8_decrypt(key, register, a + b) == cfb8_decrypt(key, register, a) + cfb8_decrypt(
            key,
            register_after(register, a),
            b,
        ),
    decreases a.len(),
{
    if a.len() == 0 {
        assert(a + b =~= b);
        assert(cfb8_decrypt(key, register, a) + cfb8_decrypt(key, register, b) =~= cfb8_decrypt(
            key,
            register,
            b,
        ));
    } else {
        let next = shift_in(register, a[0]);
        assert((a + b).drop_first() =~= a.drop_first() + b);
        assert((a + b)[0] == a[0]);
        lemma_decrypt_continues(key, next, a.drop_first(), b);
        assert(cfb8_decrypt(key, register, a + b) =~= cfb8_decrypt(key, register, a)
            + cfb8_decrypt(key, register_after(register, a), b));
    }
}

/// A ciphertext is fixed by its bytes one by one: each is the plaintext byte
/// masked under the register of sixteen bytes that precede it in the old
/// register followed by the ciphertext.
proof fn lemma_encrypt_bytewise(key: Seq<u8>, register: Seq<u8>, plain: Seq<u8>, out: Seq<u8>)
    requires
        register.len() == 16,
        out.len() == plain.len(),
        forall|i: int|
            0 <= i < plain.len() ==> #[trigger] out[i] == plain[i] ^ aes128_encrypt_block(
                key,
                (register + out).subrange(i, i + 16),
            )[0],
    ensures
        out == cfb8_encrypt(key, register, plain),
    decreases plain.len(),
{
    if plain.len() == 0 {
        assert(out =~= cfb8_encrypt(key, register, plain));
    } else {
        let c = out[0];
        assert((register + out).subrange(0, 16) =~= register);
        let next = shift_in(register, c);
        let tail = out.drop_first();
        let rest = plain.drop_first();
        assert forall|i: int| 0 <= i < tail.len() implies #[trigger] tail[i] == rest[i]
            ^ aes128_encrypt_block(key, (next + tail).subrange(i, i + 16))[0] by {
            assert(tail[i] == out[i + 1]);
            assert((next + tail).subrange(i, i + 16) =~= (register + out).subrange(i + 1, i + 17));
        }
        lemma_encrypt_bytewise(key, next, rest, tail);
        assert(out =~= seq![c] + tail);
    }
}

/// The same for a plaintext, where the register is fed from what came in.
proof fn lemma_decrypt_bytewise(key: Seq<u8>, register: Seq<u8>, ciphertext: Seq<u8>, out: Seq<u8>)
    requires
        register.len() == 16,
        out.len() == ciphertext.len(),
        forall|i: int|
            0 <= i < ciphertext.len() ==> #[trigger] out[i] == ciphertext[i]
                ^ aes128_encrypt_block(key, (register + ciphertext).subrange(i, i + 16))[0],
    ensures
        out == cfb8_decrypt(key, register, ciphertext),
    decreases ciphertext.len(),
{
    if ciphertext.len() == 0 {
        assert(out =~= cfb8_decrypt(key, register, ciphertext));
    } else {
        assert((register + ciphertext).subrange(0, 16) =~= register);
        let next = shift_in(register, ciphertext[0]);
        let rest = ciphertext.drop_first();
        let tail = out.drop_first();
        assert forall|i: int| 0 <= i < rest.len() implies #[trigger] tail[i] == rest[i]
            ^ aes128_encrypt_block(key, (next + rest).subrange(i, i + 16))[0] by {
            assert(tail[i] == out[i + 1]);
            assert((next + rest).subrange(i, i + 16) =~= (register + ciphertext).subrange(
                i + 1,
                i + 17,
            ));
        }
        lemma_decrypt_bytewise(key, next, rest, tail);
        assert(out =~= seq![out[0]] + tail);
    }
}

/// `cfb8::Encryptor<aes::Aes128>`, made from `key` and `register` and run once
/// over `buf` in place. Each byte of the result is the byte that was there,
/// masked with the first byte of the AES block made from the sixteen bytes
/// before it in `register` followed by the result.
#[verifier::external_body]
fn encrypt_in_place(key: &[u8; KEY_LEN], register: &[u8; KEY_LEN], buf: &mut Vec<u8>)
    ensures
        final(buf)@.len() == old(buf)@.len(),
        forall|i: int|
            0 <= i < old(buf)@.len() ==> #[trigger] final(buf)@[i] == old(buf)@[i]
                ^ aes128_encrypt_block(key@, (register@ + final(buf)@).subrange(i, i + 16))[0],
{
    cfb8::Encryptor::<aes::Aes128>::new(&(*key).into(), &(*register).into()).encrypt(buf)
}

/// `cfb8::Decryptor<aes::Aes128>`, made from `key` and `register` and run once
/// over `buf` in place. Each byte of the result is the byte that was there,
/// masked with the first byte of the AES block made from the sixteen bytes
/// before it in `register` followed by what was there.
#[verifier::external_body]
fn decrypt_in_place(key: &[u8; KEY_LEN], register: &[u8; KEY_LEN], buf: &mut Vec<u8>)
    ensures
        final(buf)@.len() == old(buf)@.len(),
        forall|i: int|
            0 <= i < old(buf)@.len() ==> #[trigger] final(buf)@[i] == old(buf)@[i]
                ^ aes128_encrypt_block(key@, (register@ + old(buf)@).subrange(i, i + 16))[0],
{
    cfb8::Decryptor::<aes::Aes128>::new(&(*key).into(), &(*register).into()).decrypt(buf)
}

/// What a cipher is, as plain values: its key and the register of each
/// direction.
pub struct CipherState {
    pub key: Seq<u8>,
    pub encrypt_register: Seq<u8>,
    pub decrypt_register: Seq<u8>,
}

/// The stream cipher of one connection: AES-128 in feedback mode with eight
/// bits of feedback, one stream for each direction under one key.
///
/// Each direction keeps its register from call to call, so successive calls
/// continue one stream.
pub struct AesCryptor {
    key: [u8; KEY_LEN],
    encrypt_register: [u8; KEY_LEN],
    decrypt_register: [u8; KEY_LEN],
}

impl View for AesCryptor {
    type V = CipherState;

    closed spec fn view(&self) -> CipherState {
        CipherState {
            key: self.key@,
            encrypt_register: self.encrypt_register@,
            decrypt_register: self.decrypt_register@,
        }
    }
}

/// The register that follows `register` once `ciphertext` has gone through.
fn next_register(register: &[u8; KEY_LEN], ciphertext: &Vec<u8>) -> (next: [u8; KEY_LEN])
    ensures
        next@ == register_after(register@, ciphertext@),
{
    let n = ciphertext.len();
    let mut next = [0u8; KEY_LEN];
    let mut i: usize = 0;
    while i < 16
        invariant
            i <= 16,
            n == ciphertext@.len(),
            forall|j: int| 0 <= j < i ==> next@[j] == (register@ + ciphertext@)[n + j],
        decreases 16 - i,
    {
        if n >= 16 - i {
            next[i] = ciphertext[n - (16 - i)];
        } else {
            next[i] = register[n + i];
        }
        i = i + 1;
    }
    proof {
        lemma_register_is_tail(register@, ciphertext@);
        assert(next@ =~= (register@ + ciphertext@).skip(n as int));
    }
    next
}

impl AesCryptor {
    /// A cipher whose two directions both start from `iv`.
    pub fn new(key: [u8; KEY_LEN], iv: [u8; KEY_LEN]) -> (c: Self)
        ensures
            c@ == (CipherState { key: key@, encrypt_register: iv@, decrypt_register: iv@ }),
    {
        AesCryptor { key, encrypt_register: iv, decrypt_register: iv }
    }

    /// The key, which is the secret that the two ends share.
    pub fn shared_secret(&self) -> (key: [u8; KEY_LEN])
        ensures
            key@ == self@.key,
    {
        self.key
    }

    /// Encrypts `buf` in place as the next bytes of the outbound stream.
    pub fn encrypt(&mut self, buf: &mut Vec<u8>)
        ensures
            final(buf)@.len() == old(buf)@.len(),
            final(buf)@ == cfb8_encrypt(old(self)@.key, old(self)@.encrypt_register, old(buf)@),
            final(self)@ == (CipherState {
                encrypt_register: register_after(old(self)@.encrypt_register, final(buf)@),
                ..old(self)@
            }),
    {
        encrypt_in_place(&self.key, &self.encrypt_register, buf);
        proof {
            lemma_encrypt_bytewise(self.key@, self.encrypt_register@, old(buf)@, buf@);
        }
        self.encrypt_register = next_register(&self.encrypt_register, buf);
    }

    /// Decrypts `buf` in place as the next bytes of the inbound stream.
    pub fn decrypt(&mut self, buf: &mut Vec<u8>)
        ensures
            final(buf)@.len() == old(buf)@.len(),
            final(buf)@ == cfb8_decrypt(old(self)@.key, old(self)@.decrypt_register, old(buf)@),
            final(self)@ == (CipherState {
                decrypt_register: register_after(old(self)@.decrypt_register, old(buf)@),
                ..old(self)@
            }),
    {
        let next = next_register(&self.decrypt_register, buf);
        decrypt_in_place(&self.key, &self.decrypt_register, buf);
        proof {
            lemma_decrypt_bytewise(self.key@, self.decrypt_register@, old(buf)@, buf@);
        }
        self.decrypt_register = next;
    }
}

} // verus!
