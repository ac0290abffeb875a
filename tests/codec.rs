use crypto::aead::{AeadDecryptor, AeadEncryptor};
use crypto::chacha20poly1305::ChaCha20Poly1305;
use secure_session::codec::{frame_blob, split_blob, ChaCha20Poly1305SessionManager};
use secure_session::error::SessionError;
use secure_session::session::{Expiry, Session, SessionManager, SessionTransport};

const KEY: [u8; 32] = *b"01234567012345670123456701234567";

fn sample_transport() -> SessionTransport {
    let mut session = Session::new();
    let _ = session.insert_bytes("user", b"alice".to_vec());
    let _ = session.insert_bytes("csrf", vec![0, 1, 2, 3, 255]);
    SessionTransport::new(Some(Expiry { secs: 1_500_000_000, nanos: 42 }), session)
}

#[test]
fn serde_happy_path() {
    let manager = ChaCha20Poly1305SessionManager::from_key(KEY);
    let mut session = Session::new();
    let key = "lol".to_string();
    let value = b"wat".to_vec();
    assert!(session.insert_bytes(&key, value.clone()).is_none());

    let transport = SessionTransport { expires: None, session: session };

    let bytes = manager.serialize(&transport).expect("couldn't serialize");
    let parsed_transport = manager.deserialize(&bytes).expect("couldn't deserialize");
    assert_eq!(parsed_transport, transport);
    assert_eq!(parsed_transport.session.get_bytes(&key), Some(&value));
}

#[test]
fn round_trip_with_expiry_and_several_keys() {
    let manager = ChaCha20Poly1305SessionManager::from_key(KEY);
    let transport = sample_transport();
    let bytes = manager.serialize(&transport).unwrap();
    let parsed = manager.deserialize(&bytes).unwrap();
    assert_eq!(parsed, transport);
    assert_eq!(parsed.expires, Some(Expiry { secs: 1_500_000_000, nanos: 42 }));
    assert_eq!(parsed.session.get_bytes("csrf"), Some(&vec![0, 1, 2, 3, 255]));
}

#[test]
fn round_trip_empty_session() {
    let manager = ChaCha20Poly1305SessionManager::from_key(KEY);
    let transport = SessionTransport::new(None, Session::new());
    let bytes = manager.serialize(&transport).unwrap();
    assert!(bytes.len() > 40);
    assert_eq!(manager.deserialize(&bytes).unwrap(), transport);
}

fn via_trait<M: SessionManager>(m: &M, t: &SessionTransport) -> SessionTransport {
    let bytes = m.serialize(t).unwrap();
    m.deserialize(&bytes).unwrap()
}

#[test]
fn trait_round_trip() {
    let manager = ChaCha20Poly1305SessionManager::from_key(KEY);
    let transport = sample_transport();
    assert_eq!(via_trait(&manager, &transport), transport);
    assert!(SessionManager::is_encrypted(&manager));
}

#[test]
fn blob_layout_and_ciphertext_hides_plaintext() {
    let manager = ChaCha20Poly1305SessionManager::from_key(KEY);
    let transport = sample_transport();
    let bytes = manager.serialize(&transport).unwrap();
    // option tag, secs, nanos, entry count, then two (len, key, len, value) entries
    let payload_len = 1 + 8 + 4 + 8 + (8 + 4 + 8 + 5) + (8 + 4 + 8 + 5);
    assert_eq!(bytes.len(), 8 + 16 + 16 + payload_len);
    let needle = b"alice";
    assert!(!bytes.windows(needle.len()).any(|w| w == needle));
}

#[test]
fn flipping_any_bit_in_tag_or_ciphertext_is_rejected() {
    let manager = ChaCha20Poly1305SessionManager::from_key(KEY);
    let bytes = manager.serialize(&sample_transport()).unwrap();
    for i in 8..bytes.len() {
        for bit in 0..8 {
            let mut tampered = bytes.clone();
            tampered[i] ^= 1 << bit;
            assert_eq!(manager.deserialize(&tampered), Err(SessionError::ValidationError));
        }
    }
}

#[test]
fn flipping_a_nonce_bit_is_rejected() {
    let manager = ChaCha20Poly1305SessionManager::from_key(KEY);
    let bytes = manager.serialize(&sample_transport()).unwrap();
    let mut tampered = bytes.clone();
    tampered[0] ^= 0x80;
    assert_eq!(manager.deserialize(&tampered), Err(SessionError::ValidationError));
}

#[test]
fn two_encodings_use_distinct_nonces() {
    let manager = ChaCha20Poly1305SessionManager::from_key(KEY);
    let transport = sample_transport();
    let a = manager.serialize(&transport).unwrap();
    let b = manager.serialize(&transport).unwrap();
    assert_ne!(a[0..8], b[0..8]);
    assert_ne!(a[24..], b[24..]);
    assert_eq!(manager.deserialize(&a).unwrap(), manager.deserialize(&b).unwrap());
}

#[test]
fn every_prefix_is_rejected() {
    let manager = ChaCha20Poly1305SessionManager::from_key(KEY);
    let bytes = manager.serialize(&sample_transport()).unwrap();
    for n in 0..bytes.len() {
        assert_eq!(manager.deserialize(&bytes[..n]), Err(SessionError::ValidationError));
    }
}

#[test]
fn short_inputs_are_rejected() {
    let manager = ChaCha20Poly1305SessionManager::from_key(KEY);
    assert_eq!(manager.deserialize(&[]), Err(SessionError::ValidationError));
    assert_eq!(manager.deserialize(&[0u8; 40]), Err(SessionError::ValidationError));
    assert_eq!(manager.deserialize(&[0u8; 41]), Err(SessionError::ValidationError));
}

#[test]
fn wrong_key_is_rejected() {
    let manager = ChaCha20Poly1305SessionManager::from_key(KEY);
    let other = ChaCha20Poly1305SessionManager::from_key([7u8; 32]);
    let bytes = manager.serialize(&sample_transport()).unwrap();
    assert_eq!(other.deserialize(&bytes), Err(SessionError::ValidationError));
}

#[test]
fn authentic_blob_with_malformed_payload_is_a_deserialization_error() {
    // 16 bytes of padding, then an option tag that bincode does not accept
    let mut plaintext = vec![0u8; 16];
    plaintext.extend_from_slice(&[2, 0, 0, 0, 0, 0, 0, 0, 0]);
    let nonce = [9u8; 8];
    let mut aead = ChaCha20Poly1305::new(&KEY, &nonce, &[]);
    let mut ciphertext = vec![0u8; plaintext.len()];
    let mut tag = [0u8; 16];
    aead.encrypt(&plaintext, &mut ciphertext, &mut tag);
    let mut blob = nonce.to_vec();
    blob.extend_from_slice(&tag);
    blob.extend_from_slice(&ciphertext);

    let manager = ChaCha20Poly1305SessionManager::from_key(KEY);
    assert_eq!(manager.deserialize(&blob), Err(SessionError::DeserializationError));
}

#[test]
fn is_encrypted_is_true() {
    let manager = ChaCha20Poly1305SessionManager::from_key(KEY);
    assert!(manager.is_encrypted());
}

#[test]
fn from_password_is_deterministic() {
    let a = ChaCha20Poly1305SessionManager::from_password(b"hunter2");
    let b = <ChaCha20Poly1305SessionManager as SessionManager>::from_password(b"hunter2");
    let bytes = a.serialize(&sample_transport()).unwrap();
    assert_eq!(b.deserialize(&bytes).unwrap(), sample_transport());
}

#[test]
fn distinct_passwords_give_distinct_keys() {
    let salt = b"test-salt";
    let a = ChaCha20Poly1305SessionManager::from_password_with_params(b"one", salt, 4, 8, 1);
    let a2 = ChaCha20Poly1305SessionManager::from_password_with_params(b"one", salt, 4, 8, 1);
    let b = ChaCha20Poly1305SessionManager::from_password_with_params(b"two", salt, 4, 8, 1);
    let bytes = a.serialize(&sample_transport()).unwrap();
    assert_eq!(a2.deserialize(&bytes).unwrap(), sample_transport());
    assert_eq!(b.deserialize(&bytes), Err(SessionError::ValidationError));
}

#[test]
fn salt_changes_the_key() {
    let a = ChaCha20Poly1305SessionManager::from_password_with_params(b"pw", b"salt-a", 4, 8, 1);
    let b = ChaCha20Poly1305SessionManager::from_password_with_params(b"pw", b"salt-b", 4, 8, 1);
    let bytes = a.serialize(&sample_transport()).unwrap();
    assert_eq!(b.deserialize(&bytes), Err(SessionError::ValidationError));
}

#[test]
fn error_descriptions() {
    assert_eq!(SessionError::ValidationError.description(), "session failed validation");
    assert_eq!(SessionError::InternalError.description(), "internal error");
    assert_ne!(SessionError::DeserializationError.description(), "");
}

#[test]
fn frame_and_split_blob() {
    let nonce = [1u8; 8];
    let tag = [2u8; 16];
    let ciphertext = vec![3u8; 17];
    let blob = frame_blob(&nonce, &tag, &ciphertext);
    assert_eq!(blob.len(), 41);
    assert_eq!(&blob[0..8], &nonce[..]);
    assert_eq!(&blob[8..24], &tag[..]);
    assert_eq!(&blob[24..], &ciphertext[..]);
    let (n, t, c) = split_blob(&blob).unwrap();
    assert_eq!(n, nonce.to_vec());
    assert_eq!(t, tag.to_vec());
    assert_eq!(c, ciphertext);
    assert!(split_blob(&blob[..40]).is_none());
}

#[test]
fn seal_with_is_deterministic_and_encrypts() {
    let manager = ChaCha20Poly1305SessionManager::from_key(KEY);
    let nonce = [5u8; 8];
    let padding = [6u8; 16];
    let transport = sample_transport();
    let a = manager.seal_with(&nonce, &padding, &transport).unwrap();
    let b = manager.seal_with(&nonce, &padding, &transport).unwrap();
    assert_eq!(a, b);
    assert_eq!(&a[0..8], &nonce[..]);
    // the ciphertext is not the plaintext, and decrypts to the padding first
    assert_ne!(&a[24..40], &padding[..]);
    let mut aead = ChaCha20Poly1305::new(&KEY, &nonce, &[]);
    let mut plaintext = vec![0u8; a.len() - 24];
    assert!(aead.decrypt(&a[24..], &mut plaintext, &a[8..24]));
    assert_eq!(&plaintext[..16], &padding[..]);
    assert_eq!(manager.deserialize(&a).unwrap(), transport);
}

#[test]
fn blob_length_depends_on_the_transport_alone() {
    let a = ChaCha20Poly1305SessionManager::from_key(KEY);
    let b = ChaCha20Poly1305SessionManager::from_key([9u8; 32]);
    let transport = sample_transport();
    let x = a.serialize(&transport).unwrap();
    let y = b.serialize(&transport).unwrap();
    let z = a.seal_with(&[0u8; 8], &[0u8; 16], &transport).unwrap();
    assert_eq!(x.len(), y.len());
    assert_eq!(x.len(), z.len());
}
