use vstd::prelude::*;
use vstd::string::StringSliceAdditionalSpecFns;
use vstd::utf8::encode_utf8;
use crate::codec::{be_value, lemma_be_value_bound, pow256};

verus! {

/// The length of a digest in bytes.
pub const DIGEST_LEN: usize = 20;

/// The SHA-1 digest of `data`, as `sha1::Sha1` computes it.
pub uninterp spec fn sha1_digest(data: Seq<u8>) -> Seq<u8>;

/// The length from which on a message has no SHA-1 digest: its length in
/// bits has to fit in sixty-four bits.
pub open spec fn sha1_limit() -> nat {
    0x2000_0000_0000_0000
}

/// The number that `bytes` stand for as a big-endian two's complement: the
/// first bit is the sign. No bytes stand for zero.
pub open spec fn signed_value(bytes: Seq<u8>) -> int {
    if bytes.len() > 0 && bytes[0] >= 0x80 {
        be_value(bytes) - pow256(bytes.len())
    } else {
        be_value(bytes) as int
    }
}

/// The digit for `d`, in lower case.
pub open spec fn hex_digit(d: nat) -> char {
    seq!['0', '1', '2', '3', '4', '5', '6', '7', '8', '9', 'a', 'b', 'c', 'd', 'e', 'f'][d as int]
}

/// `n` to the base sixteen, without leading zeros; zero is one digit.
pub open spec fn hex_digits(n: nat) -> Seq<char>
    decreases n,
{
    if n < 16 {
        seq![hex_digit(n)]
    } else {
        hex_digits(n / 16).push(hex_digit(n % 16))
    }
}

/// `v` to the base sixteen, with a minus sign before the digits of a negative
/// number.
pub open spec fn signed_hex(v: int) -> Seq<char> {
    if v < 0 {
        seq!['-'] + hex_digits((-v) as nat)
    } else {
        hex_digits(v as nat)
    }
}

/// The string that the identity provider is asked about: the digest of the
/// server's name for the session, the shared secret and the encoded public
/// key, in that order, read as a signed number and written to the base
/// sixteen.
pub open spec fn session_hash(
    server_id: Seq<char>,
    shared_secret: Seq<u8>,
    public_key: Seq<u8>,
) -> Seq<char> {
    signed_hex(signed_value(sha1_digest(encode_utf8(server_id) + shared_secret + public_key)))
}

/// No number starts with a minus sign unless it is negative.
pub proof fn lemma_hex_digits_start(n: nat)
    ensures
        hex_digits(n).len() >= 1,
        hex_digits(n)[0] != '-',
    decreases n,
{
    if n >= 16 {
        lemma_hex_digits_start(n / 16);
    }
}

/// A digest whose first bit is set stands for a negative number and is
/// written with a minus sign; any other is written without.
pub proof fn lemma_sign_of_digest(bytes: Seq<u8>)
    ensures
        signed_hex(signed_value(bytes))[0] == '-' <==> bytes.len() > 0 && bytes[0] >= 0x80,
        bytes.len() > 0 && bytes[0] >= 0x80 ==> signed_value(bytes) < 0,
{
    lemma_be_value_bound(bytes);
    let v = signed_value(bytes);
    if v >= 0 {
        lemma_hex_digits_start(v as nat);
    }
}

/// `sha1::Sha1`: a fresh hasher, `update` with all of `data`, and the bytes of
/// its `digest`.
#[verifier::external_body]
fn sha1(data: &[u8]) -> (out: [u8; DIGEST_LEN])
    requires
        data@.len() < sha1_limit(),
    ensures
        out@ == sha1_digest(data@),
{
    let mut hasher = sha1::Sha1::new();
    hasher.update(data);
    hasher.digest().bytes()
}

/// `num_bigint::BigInt::from_signed_bytes_be` and the number's `{:x}` form:
/// `bytes` read as a big-endian two's complement number, and that number
/// in lower-case digits to the base sixteen, with a minus sign if negative.
#[verifier::external_body]
fn signed_hex_of(bytes: &[u8]) -> (out: String)
    ensures
        out@ == signed_hex(signed_value(bytes@)),
{
    format!("{:x}", num_bigint::BigInt::from_signed_bytes_be(bytes))
}

/// A digest as the signed number it stands for, to the base sixteen.
pub fn digest_to_hex(digest: &[u8]) -> (out: String)
    ensures
        out@ == signed_hex(signed_value(digest@)),
        out@[0] == '-' <==> digest@.len() > 0 && digest@[0] >= 0x80,
{
    proof {
        lemma_sign_of_digest(digest@);
    }
    signed_hex_of(digest)
}

/// The session hash of a login. The three parts together have to be
/// shorter than `sha1_limit()`.
pub fn session_digest(server_id: &str, shared_secret: &[u8], public_key: &[u8]) -> (out: String)
    requires
        server_id.spec_bytes().len() + shared_secret@.len() + public_key@.len() < sha1_limit(),
    ensures
        out@ == session_hash(server_id@, shared_secret@, public_key@),
{
    let mut data: Vec<u8> = Vec::new();
    data.extend_from_slice(server_id.as_bytes());
    data.extend_from_slice(shared_secret);
    data.extend_from_slice(public_key);
    assert(data@ =~= encode_utf8(server_id@) + shared_secret@ + public_key@);
    let digest = sha1(data.as_slice());
    digest_to_hex(digest.as_slice())
}

} // verus!
