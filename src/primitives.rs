//! The outside primitives this library relies on, each behind one trusted item.

use vstd::prelude::*;
use crypto::aead::{AeadDecryptor, AeadEncryptor};
use ring::rand::SecureRandom;

verus! {

/// The ChaCha20 keystream that ChaCha20-Poly1305 xors with the data under
/// `key` and `nonce`, `len` bytes long (it starts after the block that keys
/// the MAC).
pub uninterp spec fn chacha20_keystream(key: Seq<u8>, nonce: Seq<u8>, len: nat) -> Seq<u8>;

/// The Poly1305 tag that ChaCha20-Poly1305 computes under `key` and `nonce`
/// over empty associated data and the ciphertext `ct`.
pub uninterp spec fn poly1305_tag(key: Seq<u8>, nonce: Seq<u8>, ct: Seq<u8>) -> Seq<u8>;

/// The 32-byte key that scrypt derives from a password and a salt.
pub uninterp spec fn scrypt_key(
    password: Seq<u8>,
    salt: Seq<u8>,
    log_n: u8,
    r: u32,
    p: u32,
) -> Seq<u8>;

/// The bytes that bincode writes for an optional `(seconds, nanoseconds)`
/// pair followed by a sequence of string/byte-vector pairs.
pub uninterp spec fn bincode_encoding(
    expires: Option<(i64, u32)>,
    entries: Seq<(Seq<char>, Seq<u8>)>,
) -> Seq<u8>;

/// What bincode reads from `bytes` as an optional `(seconds, nanoseconds)`
/// pair followed by a sequence of string/byte-vector pairs; `None` where it
/// reports an error.
pub uninterp spec fn bincode_decoded(bytes: Seq<u8>) -> Option<
    (Option<(i64, u32)>, Seq<(Seq<char>, Seq<u8>)>),
>;

/// Byte-wise exclusive or of `a` with the first `a.len()` bytes of `k`.
pub open spec fn xor_bytes(a: Seq<u8>, k: Seq<u8>) -> Seq<u8> {
    Seq::new(a.len(), |i: int| a[i] ^ k[i])
}

/// Plain view of a list of entries.
pub open spec fn pairs_view(es: Seq<(String, Vec<u8>)>) -> Seq<(Seq<char>, Seq<u8>)> {
    es.map_values(|e: (String, Vec<u8>)| (e.0@, e.1@))
}

/// Parameters that `crypto::scrypt::ScryptParams::new` accepts without panicking.
pub open spec fn scrypt_params_valid(log_n: u8, r: u32, p: u32) -> bool {
    &&& 0 < log_n < 64
    &&& r > 0
    &&& p > 0
    &&& (log_n as int) < 16 * r
    &&& 128 * (r as int) * vstd::arithmetic::power2::pow2(log_n as nat) <= usize::MAX
    &&& 128 * (r as int) * (p as int) <= usize::MAX
    &&& (r as int) * (p as int) < 0x40000000
}

#[verifier::external_type_specification]
#[verifier::external_body]
pub struct ExSystemRandom(ring::rand::SystemRandom);

#[verifier::external_type_specification]
#[verifier::external_body]
pub struct ExUnspecified(ring::error::Unspecified);

#[verifier::external_type_specification]
#[verifier::external_body]
pub struct ExBincodeErrorKind(bincode::ErrorKind);

pub assume_specification[ ring::rand::SystemRandom::new ]() -> ring::rand::SystemRandom;

/// Relies on ring's `SecureRandom::fill` for `SystemRandom`: on success all
/// `len` bytes come from the operating system's secure generator.
#[verifier::external_body]
pub(crate) fn random_bytes(rng: &ring::rand::SystemRandom, len: usize) -> (r: Result<
    Vec<u8>,
    ring::error::Unspecified,
>)
    ensures
        r matches Ok(v) ==> v@.len() == len,
{
    let mut buf = vec![0u8; len];
    rng.fill(&mut buf).map(|_| buf)
}

/// Relies on rust-crypto's `ChaCha20Poly1305::new` and `encrypt` with empty
/// associated data: the ciphertext is the plaintext xored with the keystream,
/// and the tag is Poly1305 over that ciphertext.
#[verifier::external_body]
pub(crate) fn chacha20poly1305_seal(key: &[u8], nonce: &[u8], plaintext: &[u8]) -> (r: (
    Vec<u8>,
    [u8; 16],
))
    requires
        key@.len() == 32,
        nonce@.len() == 8,
    ensures
        r.0@ == xor_bytes(plaintext@, chacha20_keystream(key@, nonce@, plaintext@.len())),
        r.1@ == poly1305_tag(key@, nonce@, r.0@),
{
    let mut aead = crypto::chacha20poly1305::ChaCha20Poly1305::new(key, nonce, &[]);
    let mut ciphertext = vec![0u8; plaintext.len()];
    let mut tag = [0u8; 16];
    aead.encrypt(plaintext, &mut ciphertext, &mut tag);
    (ciphertext, tag)
}

/// Relies on rust-crypto's `ChaCha20Poly1305::new` and `decrypt` with empty
/// associated data: it accepts exactly when `tag` equals the Poly1305 tag of
/// the ciphertext, and only then yields the ciphertext xored with the keystream.
#[verifier::external_body]
pub(crate) fn chacha20poly1305_open(
    key: &[u8],
    nonce: &[u8],
    tag: &[u8],
    ciphertext: &[u8],
) -> (r: Option<Vec<u8>>)
    requires
        key@.len() == 32,
        nonce@.len() == 8,
        tag@.len() == 16,
    ensures
        r is Some <==> tag@ == poly1305_tag(key@, nonce@, ciphertext@),
        r matches Some(p) ==> p@ == xor_bytes(
            ciphertext@,
            chacha20_keystream(key@, nonce@, ciphertext@.len()),
        ),
{
    let mut aead = crypto::chacha20poly1305::ChaCha20Poly1305::new(key, nonce, &[]);
    let mut plaintext = vec![0u8; ciphertext.len()];
    if aead.decrypt(ciphertext, &mut plaintext, tag) {
        Some(plaintext)
    } else {
        None
    }
}

/// Relies on rust-crypto's `ScryptParams::new` and `scrypt`: a 32-byte key
/// that depends on the password, salt and cost parameters alone.
#[verifier::external_body]
pub(crate) fn scrypt_derive(password: &[u8], salt: &[u8], log_n: u8, r: u32, p: u32) -> (k: [u8; 32])
    requires
        scrypt_params_valid(log_n, r, p),
    ensures
        k@ == scrypt_key(password@, salt@, log_n, r, p),
{
    let params = crypto::scrypt::ScryptParams::new(log_n, r, p);
    let mut key = [0u8; 32];
    crypto::scrypt::scrypt(password, salt, &params, &mut key);
    key
}

/// Relies on `bincode::serialize` of an optional `(i64, u32)` and a vector of
/// `(String, Vec<u8>)`: with the default, unlimited size and a vector that
/// reports its length it writes into a `Vec` without failing; the bytes depend
/// on the values alone, `bincode::deserialize` of the same shape reads the
/// same values back, and they hold at least the option's tag byte and the
/// vector's eight-byte length.
#[verifier::external_body]
pub(crate) fn bincode_encode(expires: Option<(i64, u32)>, entries: &Vec<(String, Vec<u8>)>) -> (r: Result<
    Vec<u8>,
    Box<bincode::ErrorKind>,
>)
    ensures
        r is Ok,
        r matches Ok(b) ==> b@ == bincode_encoding(expires, pairs_view(entries@)),
        r matches Ok(b) ==> bincode_decoded(b@) == Some((expires, pairs_view(entries@))),
        r matches Ok(b) ==> b@.len() >= 9,
{
    bincode::serialize(&(expires, entries))
}

/// Relies on `bincode::deserialize` of an optional `(i64, u32)` and a vector
/// of `(String, Vec<u8>)`.
#[verifier::external_body]
pub(crate) fn bincode_decode(bytes: &[u8]) -> (r: Result<
    (Option<(i64, u32)>, Vec<(String, Vec<u8>)>),
    Box<bincode::ErrorKind>,
>)
    ensures
        r is Ok <==> bincode_decoded(bytes@) is Some,
        r matches Ok(v) ==> bincode_decoded(bytes@) == Some((v.0, pairs_view(v.1@))),
{
    bincode::deserialize(bytes)
}

} // verus!
