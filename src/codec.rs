//! The ChaCha20-Poly1305 transport codec.
//!
//! A blob is laid out as
//! `nonce (8 bytes) ‖ tag (16 bytes) ‖ ciphertext`, where the ciphertext
//! decrypts to 16 random padding bytes followed by the bincode form of the
//! transport.

use vstd::prelude::*;
use crate::error::SessionError;
use crate::primitives::{
    bincode_decode, bincode_decoded, bincode_encode, bincode_encoding, chacha20_keystream, chacha20poly1305_open,
    chacha20poly1305_seal, poly1305_tag, random_bytes, scrypt_derive, scrypt_key,
    scrypt_params_valid, xor_bytes,
};
use crate::session::{expiry_of_pair, expiry_pair, map_of_entries, Expiry, Session, SessionTransport};

verus! {

/// Length of the nonce at the start of a blob.
pub const NONCE_LEN: usize = 8;

/// Length of the authentication tag that follows the nonce.
pub const TAG_LEN: usize = 16;

/// Length of the random padding in front of the encoded transport.
pub const PADDING_LEN: usize = 16;

/// Offset of the ciphertext in a blob.
pub const HEADER_LEN: usize = 24;

/// Blobs of this length or shorter are rejected before any decryption.
pub const MAX_REJECTED_LEN: usize = 40;

/// Salt that `from_password` hands to scrypt.
pub const SCRYPT_SALT: [u8; 31] = [
    114, 117, 115, 116, 45, 115, 101, 99, 117, 114, 101, 45, 115, 101, 115, 115, 105, 111, 110, 45,
    115, 99, 114, 121, 112, 116, 45, 115, 97, 108, 116,
];

/// scrypt cost `log2(N)` used by `from_password`.
pub const SCRYPT_LOG_N: u8 = 12;

/// scrypt block size `r` used by `from_password`.
pub const SCRYPT_R: u32 = 8;

/// scrypt parallelism `p` used by `from_password`.
pub const SCRYPT_P: u32 = 1;

/// The nonce field of a blob.
pub open spec fn blob_nonce(b: Seq<u8>) -> Seq<u8> {
    b.subrange(0, NONCE_LEN as int)
}

/// The tag field of a blob.
pub open spec fn blob_tag(b: Seq<u8>) -> Seq<u8> {
    b.subrange(NONCE_LEN as int, HEADER_LEN as int)
}

/// The ciphertext field of a blob.
pub open spec fn blob_ciphertext(b: Seq<u8>) -> Seq<u8> {
    b.subrange(HEADER_LEN as int, b.len() as int)
}

/// The blob is long enough and its tag authenticates its ciphertext under `key`.
pub open spec fn authentic(key: Seq<u8>, b: Seq<u8>) -> bool {
    &&& b.len() > MAX_REJECTED_LEN
    &&& blob_tag(b) == poly1305_tag(key, blob_nonce(b), blob_ciphertext(b))
}

/// The ciphertext of a blob decrypted under `key`.
pub open spec fn blob_plaintext(key: Seq<u8>, b: Seq<u8>) -> Seq<u8> {
    let c = blob_ciphertext(b);
    xor_bytes(c, chacha20_keystream(key, blob_nonce(b), c.len()))
}

/// The decrypted blob without its padding.
pub open spec fn blob_payload(key: Seq<u8>, b: Seq<u8>) -> Seq<u8> {
    let p = blob_plaintext(key, b);
    p.subrange(PADDING_LEN as int, p.len() as int)
}

/// The transport that decoded bincode values stand for.
pub open spec fn transport_of_decoded(
    v: (Option<(i64, u32)>, Seq<(Seq<char>, Seq<u8>)>),
) -> (Option<Expiry>, Map<Seq<char>, Seq<u8>>) {
    (expiry_of_pair(v.0), map_of_entries(v.1))
}

/// What opening blob `b` under `key` yields.
pub open spec fn opened(key: Seq<u8>, b: Seq<u8>) -> Result<
    (Option<Expiry>, Map<Seq<char>, Seq<u8>>),
    SessionError,
> {
    if !authentic(key, b) {
        Err(SessionError::ValidationError)
    } else {
        match bincode_decoded(blob_payload(key, b)) {
            Some(v) => Ok(transport_of_decoded(v)),
            None => Err(SessionError::DeserializationError),
        }
    }
}

/// `b` is a blob sealed under `key` around `payload` with some padding.
pub open spec fn sealed_payload(key: Seq<u8>, b: Seq<u8>, payload: Seq<u8>) -> bool {
    &&& payload.len() > 0
    &&& b.len() == HEADER_LEN + PADDING_LEN + payload.len()
    &&& exists|pad: Seq<u8>|
        pad.len() == PADDING_LEN && #[trigger] blob_ciphertext(b) == xor_bytes(
            pad + payload,
            chacha20_keystream(key, blob_nonce(b), (PADDING_LEN + payload.len()) as nat),
        )
    &&& blob_tag(b) == poly1305_tag(key, blob_nonce(b), blob_ciphertext(b))
}

/// `b` is a blob sealed under `key` around a bincode form of transport `t`.
pub open spec fn sealed_transport(
    key: Seq<u8>,
    b: Seq<u8>,
    t: (Option<Expiry>, Map<Seq<char>, Seq<u8>>),
) -> bool {
    exists|payload: Seq<u8>|
        #[trigger] sealed_payload(key, b, payload) && (bincode_decoded(payload) matches Some(v)
            && transport_of_decoded(v) == t)
}

/// The bincode form of a transport: its expiry as a pair, then its entries
/// in order.
pub open spec fn transport_encoding(t: &SessionTransport) -> Seq<u8> {
    bincode_encoding(expiry_pair(t.expires), t.session.entries_spec())
}

/// The blob that sealing `payload` under `key`, `nonce` and `padding` gives:
/// `nonce ‖ tag ‖ ciphertext`, the ciphertext being the padding followed by
/// the payload, xored with the keystream.
pub open spec fn sealed_blob(key: Seq<u8>, nonce: Seq<u8>, padding: Seq<u8>, payload: Seq<u8>) -> Seq<u8> {
    let pt = padding + payload;
    let ct = xor_bytes(pt, chacha20_keystream(key, nonce, pt.len()));
    nonce + poly1305_tag(key, nonce, ct) + ct
}

/// The key that `from_password` derives from `password`.
pub open spec fn derived_key(password: Seq<u8>) -> Seq<u8> {
    scrypt_key(password, SCRYPT_SALT@, SCRYPT_LOG_N, SCRYPT_R, SCRYPT_P)
}

proof fn lemma_decrypts_to(key: Seq<u8>, b: Seq<u8>, plaintext: Seq<u8>)
    requires
        b.len() == HEADER_LEN + plaintext.len(),
        blob_ciphertext(b) == xor_bytes(
            plaintext,
            chacha20_keystream(key, blob_nonce(b), plaintext.len()),
        ),
    ensures
        blob_plaintext(key, b) == plaintext,
{
    let ks = chacha20_keystream(key, blob_nonce(b), plaintext.len());
    assert forall|i: int| 0 <= i < plaintext.len() implies #[trigger] xor_bytes(
        xor_bytes(plaintext, ks),
        ks,
    )[i] == plaintext[i] by {
        let x = plaintext[i];
        let y = ks[i];
        assert((x ^ y) ^ y == x) by (bit_vector);
    }
    assert(xor_bytes(xor_bytes(plaintext, ks), ks) =~= plaintext);
}

/// Round trip: a blob sealed under `key` around the bincode form of a
/// transport opens under the same key to that transport.
pub proof fn lemma_round_trip(
    key: Seq<u8>,
    b: Seq<u8>,
    t: (Option<Expiry>, Map<Seq<char>, Seq<u8>>),
)
    requires
        sealed_transport(key, b, t),
    ensures
        opened(key, b) == Ok::<_, SessionError>(t),
{
    let payload = choose|payload: Seq<u8>|
        #[trigger] sealed_payload(key, b, payload) && (bincode_decoded(payload) matches Some(v)
            && transport_of_decoded(v) == t);
    let pad = choose|pad: Seq<u8>|
        pad.len() == PADDING_LEN && #[trigger] blob_ciphertext(b) == xor_bytes(
            pad + payload,
            chacha20_keystream(key, blob_nonce(b), (PADDING_LEN + payload.len()) as nat),
        );
    lemma_decrypts_to(key, b, pad + payload);
    assert(blob_payload(key, b) =~= payload);
}

/// Determinism of key derivation: the same password always gives the same key.
pub proof fn lemma_key_derivation_deterministic(p1: Seq<u8>, p2: Seq<u8>)
    requires
        p1 == p2,
    ensures
        derived_key(p1) == derived_key(p2),
{
}

/// Copy `b[start..end]` into a new vector.
fn copy_range(b: &[u8], start: usize, end: usize) -> (r: Vec<u8>)
    requires
        start <= end <= b@.len(),
    ensures
        r@ == b@.subrange(start as int, end as int),
{
    let mut out: Vec<u8> = Vec::with_capacity(end - start);
    let mut i: usize = start;
    while i < end
        invariant
            start <= i <= end,
            end <= b@.len(),
            out@ == b@.subrange(start as int, i as int),
        decreases end - i,
    {
        out.push(b[i]);
        assert(out@ =~= b@.subrange(start as int, i + 1));
        i = i + 1;
    }
    out
}

/// Append `src` to `dst`.
fn append_bytes(dst: &mut Vec<u8>, src: &[u8])
    ensures
        final(dst)@ == old(dst)@ + src@,
{
    let mut i: usize = 0;
    while i < src.len()
        invariant
            i <= src@.len(),
            dst@ == old(dst)@ + src@.subrange(0, i as int),
        decreases src@.len() - i,
    {
        dst.push(src[i]);
        assert(dst@ =~= old(dst)@ + src@.subrange(0, i + 1));
        i = i + 1;
    }
    assert(src@.subrange(0, i as int) =~= src@);
}

/// A way of turning a transport into bytes for the client and back.
pub trait SessionManager: Sized + Send + Sync {
    /// A manager whose key material is derived from `password`.
    fn from_password(password: &[u8]) -> Self;

    /// Open bytes received from a client: decrypt if the scheme encrypts,
    /// check the authentication, and decode the transport.
    /// Bytes too short to hold a nonce, a tag and padded data are rejected.
    fn deserialize(&self, bytes: &[u8]) -> (r: Result<SessionTransport, SessionError>)
        ensures
            bytes@.len() <= MAX_REJECTED_LEN ==> (r matches Err(e) && e
                == SessionError::ValidationError),
            r matches Ok(t) ==> t.session.wf(),
    ;

    /// Seal a transport into bytes for a client. The only failure is the
    /// host's, reported as `InternalError`; a sealed blob is longer than the
    /// shortest that `deserialize` rejects.
    fn serialize(&self, transport: &SessionTransport) -> (r: Result<Vec<u8>, SessionError>)
        requires
            transport.session.wf(),
        ensures
            r matches Err(e) ==> e == SessionError::InternalError,
            r matches Ok(b) ==> b@.len() > MAX_REJECTED_LEN,
    ;

    /// Whether the sealed bytes are encrypted.
    fn is_encrypted(&self) -> bool;
}

/// The blob `nonce ‖ tag ‖ ciphertext`.
pub fn frame_blob(nonce: &[u8], tag: &[u8], ciphertext: &[u8]) -> (r: Vec<u8>)
    requires
        nonce@.len() == NONCE_LEN,
        tag@.len() == TAG_LEN,
    ensures
        r@ == nonce@ + tag@ + ciphertext@,
        blob_nonce(r@) == nonce@,
        blob_tag(r@) == tag@,
        blob_ciphertext(r@) == ciphertext@,
{
    let mut blob: Vec<u8> = Vec::new();
    append_bytes(&mut blob, nonce);
    append_bytes(&mut blob, tag);
    append_bytes(&mut blob, ciphertext);
    assert(blob@ =~= nonce@ + tag@ + ciphertext@);
    assert(blob_nonce(blob@) =~= nonce@);
    assert(blob_tag(blob@) =~= tag@);
    assert(blob_ciphertext(blob@) =~= ciphertext@);
    blob
}

/// The nonce, tag and ciphertext of a blob, or `None` for a blob that is too
/// short to hold a nonce, a tag and a padded plaintext.
pub fn split_blob(bytes: &[u8]) -> (r: Option<(Vec<u8>, Vec<u8>, Vec<u8>)>)
    ensures
        r is None <==> bytes@.len() <= MAX_REJECTED_LEN,
        r matches Some(parts) ==> parts.0@ == blob_nonce(bytes@) && parts.1@ == blob_tag(bytes@)
            && parts.2@ == blob_ciphertext(bytes@),
{
    if bytes.len() <= MAX_REJECTED_LEN {
        return None;
    }
    let nonce = copy_range(bytes, 0, NONCE_LEN);
    let tag = copy_range(bytes, NONCE_LEN, HEADER_LEN);
    let ciphertext = copy_range(bytes, HEADER_LEN, bytes.len());
    Some((nonce, tag, ciphertext))
}

/// Seals and opens sessions with the ChaCha20-Poly1305 AEAD.
pub struct ChaCha20Poly1305SessionManager {
    rng: ring::rand::SystemRandom,
    aead_key: [u8; 32],
}

impl ChaCha20Poly1305SessionManager {
    /// The key that blobs are sealed and opened under.
    pub closed spec fn key(&self) -> Seq<u8> {
        self.aead_key@
    }

    /// A manager that uses a saved key.
    pub fn from_key(aead_key: [u8; 32]) -> (r: ChaCha20Poly1305SessionManager)
        ensures
            r.key() == aead_key@,
    {
        ChaCha20Poly1305SessionManager { rng: ring::rand::SystemRandom::new(), aead_key }
    }

    /// A manager whose key scrypt derives from `password` and `salt` at the
    /// given cost.
    pub fn from_password_with_params(password: &[u8], salt: &[u8], log_n: u8, r: u32, p: u32) -> (m:
        ChaCha20Poly1305SessionManager)
        requires
            scrypt_params_valid(log_n, r, p),
        ensures
            m.key() == scrypt_key(password@, salt@, log_n, r, p),
    {
        let key = scrypt_derive(password, salt, log_n, r, p);
        ChaCha20Poly1305SessionManager::from_key(key)
    }

    /// A manager whose key scrypt derives from `password`, with the built-in
    /// salt and `log2(N) = 12`, `r = 8`, `p = 1`.
    pub fn from_password(password: &[u8]) -> (m: ChaCha20Poly1305SessionManager)
        ensures
            m.key() == derived_key(password@),
    {
        proof {
            vstd::arithmetic::power2::lemma2_to64();
        }
        let salt: &[u8] = SCRYPT_SALT.as_slice();
        ChaCha20Poly1305SessionManager::from_password_with_params(
            password,
            salt,
            SCRYPT_LOG_N,
            SCRYPT_R,
            SCRYPT_P,
        )
    }

    /// Open a blob: check its length and tag, decrypt it, drop the padding and
    /// decode the transport.
    pub fn deserialize(&self, bytes: &[u8]) -> (r: Result<SessionTransport, SessionError>)
        ensures
            bytes@.len() <= MAX_REJECTED_LEN ==> (r matches Err(e) && e
                == SessionError::ValidationError),
            r matches Ok(t) ==> t.session.wf() && opened(self.key(), bytes@) == Ok::<
                _,
                SessionError,
            >(t@),
            r matches Err(e) ==> opened(self.key(), bytes@) == Err::<
                (Option<Expiry>, Map<Seq<char>, Seq<u8>>),
                _,
            >(e),
    {
        let (nonce, tag, ciphertext) = match split_blob(bytes) {
            Some(parts) => parts,
            None => {
                return Err(SessionError::ValidationError);
            },
        };
        let plaintext = match chacha20poly1305_open(
            self.aead_key.as_slice(),
            nonce.as_slice(),
            tag.as_slice(),
            ciphertext.as_slice(),
        ) {
            Some(p) => p,
            None => {
                return Err(SessionError::ValidationError);
            },
        };
        let payload = copy_range(plaintext.as_slice(), PADDING_LEN, plaintext.len());
        match bincode_decode(payload.as_slice()) {
            Ok(v) => {
                let expires = match v.0 {
                    Some(e) => Some(Expiry { secs: e.0, nanos: e.1 }),
                    None => None,
                };
                let session = Session::from_entries(&v.1);
                Ok(SessionTransport { expires, session })
            },
            Err(_) => Err(SessionError::DeserializationError),
        }
    }

    /// Seal a transport under a given nonce and padding: ChaCha20-Poly1305
    /// over the padding followed by the bincode form of the transport, framed
    /// as `nonce ‖ tag ‖ ciphertext`.
    pub fn seal_with(&self, nonce: &[u8], padding: &[u8], transport: &SessionTransport) -> (r:
        Result<Vec<u8>, SessionError>)
        requires
            nonce@.len() == NONCE_LEN,
            padding@.len() == PADDING_LEN,
            transport.session.wf(),
        ensures
            r is Ok,
            r matches Ok(b) ==> b@ == sealed_blob(
                self.key(),
                nonce@,
                padding@,
                transport_encoding(transport),
            ),
            r matches Ok(b) ==> b@.len() == HEADER_LEN + PADDING_LEN + transport_encoding(
                transport,
            ).len(),
            r matches Ok(b) ==> blob_nonce(b@) == nonce@ && sealed_transport(
                self.key(),
                b@,
                transport@,
            ) && blob_plaintext(self.key(), b@).subrange(0, PADDING_LEN as int) == padding@,
            r matches Ok(b) ==> opened(self.key(), b@) == Ok::<_, SessionError>(transport@),
            r matches Err(e) ==> e == SessionError::InternalError,
    {
        let expires = match transport.expires {
            Some(e) => Some((e.secs, e.nanos)),
            None => None,
        };
        let entries = transport.session.entries_to_vec();
        let payload = match bincode_encode(expires, &entries) {
            Ok(p) => p,
            Err(_) => {
                return Err(SessionError::InternalError);
            },
        };
        let mut plaintext: Vec<u8> = Vec::new();
        append_bytes(&mut plaintext, padding);
        append_bytes(&mut plaintext, payload.as_slice());
        let (ciphertext, tag) = chacha20poly1305_seal(
            self.aead_key.as_slice(),
            nonce,
            plaintext.as_slice(),
        );
        let blob = frame_blob(nonce, tag.as_slice(), ciphertext.as_slice());
        proof {
            let b = blob@;
            assert(plaintext@ == padding@ + payload@);
            assert(sealed_payload(self.key(), b, payload@));
            let v = bincode_decoded(payload@).unwrap();
            assert(transport_of_decoded(v) =~= transport@);
            lemma_round_trip(self.key(), b, transport@);
            lemma_decrypts_to(self.key(), b, padding@ + payload@);
            assert((padding@ + payload@).subrange(0, PADDING_LEN as int) =~= padding@);
            assert(payload@ == transport_encoding(transport));
            assert(b =~= sealed_blob(self.key(), nonce@, padding@, payload@));
        }
        Ok(blob)
    }

    /// Seal a transport: a fresh random nonce and fresh random padding, then
    /// `seal_with`.
    pub fn serialize(&self, transport: &SessionTransport) -> (r: Result<Vec<u8>, SessionError>)
        requires
            transport.session.wf(),
        ensures
            r matches Ok(b) ==> exists|nonce: Seq<u8>, padding: Seq<u8>|
                nonce.len() == NONCE_LEN && padding.len() == PADDING_LEN && b@ == #[trigger] sealed_blob(
                    self.key(),
                    nonce,
                    padding,
                    transport_encoding(transport),
                ),
            r matches Ok(b) ==> b@.len() == HEADER_LEN + PADDING_LEN + transport_encoding(
                transport,
            ).len(),
            r matches Ok(b) ==> sealed_transport(self.key(), b@, transport@),
            r matches Ok(b) ==> opened(self.key(), b@) == Ok::<_, SessionError>(transport@),
            r matches Err(e) ==> e == SessionError::InternalError,
    {
        let nonce = match random_bytes(&self.rng, NONCE_LEN) {
            Ok(n) => n,
            Err(_) => {
                return Err(SessionError::InternalError);
            },
        };
        let padding = match random_bytes(&self.rng, PADDING_LEN) {
            Ok(p) => p,
            Err(_) => {
                return Err(SessionError::InternalError);
            },
        };
        let r = self.seal_with(nonce.as_slice(), padding.as_slice(), transport);
        proof {
            let b = r.unwrap()@;
            assert(b == sealed_blob(self.key(), nonce@, padding@, transport_encoding(transport)));
        }
        r
    }

    /// Blobs of this manager are encrypted.
    pub fn is_encrypted(&self) -> (r: bool)
        ensures
            r,
    {
        true
    }
}

impl SessionManager for ChaCha20Poly1305SessionManager {
    fn from_password(password: &[u8]) -> Self {
        ChaCha20Poly1305SessionManager::from_password(password)
    }

    fn deserialize(&self, bytes: &[u8]) -> Result<SessionTransport, SessionError> {
        ChaCha20Poly1305SessionManager::deserialize(self, bytes)
    }

    fn serialize(&self, transport: &SessionTransport) -> Result<Vec<u8>, SessionError> {
        ChaCha20Poly1305SessionManager::serialize(self, transport)
    }

    fn is_encrypted(&self) -> bool {
        ChaCha20Poly1305SessionManager::is_encrypted(self)
    }
}

} // verus!
