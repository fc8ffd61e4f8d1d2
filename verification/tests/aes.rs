use rust_croc::crypto::aes::{AesEncryptor, CryptoError};
use rust_croc::crypto::pake::Role;
use rust_croc::proto::croc_enc::{ChannelError, EncryptedSession};
use rust_croc::proto::croc_raw::ProtoError;

fn session_key() -> [u8; 32] {
    let mut key = [0u8; 32];
    for i in 0..32 {
        key[i] = i as u8;
    }
    key
}

#[test]
fn the_key_is_stretched_with_a_hundred_rounds() {
    let encryptor = AesEncryptor::new(&session_key(), Some([0, 1, 2, 3, 4, 5, 6, 7]));
    assert_eq!(encryptor.salt, [0, 1, 2, 3, 4, 5, 6, 7]);
    assert_eq!(
        encryptor.key.to_vec(),
        hex::decode("e1f6e215893127bc010105fa2aad038f3fa87c7f3fbefe57e449ca095993541d").unwrap()
    );
}

#[test]
fn a_salt_is_drawn_where_none_is_given() {
    let a = AesEncryptor::new(&session_key(), None);
    let b = AesEncryptor::new(&session_key(), Some(a.salt));
    assert_eq!(a.key, b.key);
}

#[test]
fn what_is_sealed_opens_to_itself() {
    let encryptor = AesEncryptor::new(&session_key(), None);
    let data = b"Hello, world!";
    let sealed = encryptor.encrypt(data).unwrap();
    assert_eq!(sealed.len(), 12 + data.len() + 16);
    assert_eq!(encryptor.decrypt(&sealed).unwrap(), data.to_vec());
}

#[test]
fn the_empty_message_opens_to_itself() {
    let encryptor = AesEncryptor::new(&session_key(), None);
    let sealed = encryptor.encrypt(b"").unwrap();
    assert_eq!(sealed.len(), 28);
    assert_eq!(encryptor.decrypt(&sealed).unwrap(), Vec::<u8>::new());
}

#[test]
fn sealing_is_aes_256_gcm() {
    // key and nonce of zeros, sixteen zero bytes of plaintext
    let encryptor = AesEncryptor { key: [0u8; 32], salt: [0u8; 8] };
    let sealed = encryptor.encrypt_with_nonce(&[0u8; 12], &[0u8; 16]).unwrap();
    let mut expected = vec![0u8; 12];
    expected.extend(hex::decode("cea7403d4d606b6e074ec5d3baf39d18").unwrap());
    expected.extend(hex::decode("d0d1c8a799996bf0265b98b5d48ab919").unwrap());
    assert_eq!(sealed, expected);
    assert_eq!(encryptor.decrypt(&sealed).unwrap(), vec![0u8; 16]);
}

#[test]
fn the_nonce_comes_first() {
    let encryptor = AesEncryptor::new(&session_key(), Some([9u8; 8]));
    let nonce = [7u8; 12];
    let sealed = encryptor.encrypt_with_nonce(&nonce, b"abc").unwrap();
    assert_eq!(&sealed[..12], &nonce[..]);
    assert_eq!(encryptor.decrypt(&sealed).unwrap(), b"abc".to_vec());
}

#[test]
fn nonces_differ_from_message_to_message() {
    let encryptor = AesEncryptor::new(&session_key(), None);
    let a = encryptor.encrypt(b"same").unwrap();
    let b = encryptor.encrypt(b"same").unwrap();
    assert_ne!(a[..12], b[..12]);
}

#[test]
fn a_changed_message_does_not_open() {
    let encryptor = AesEncryptor::new(&session_key(), None);
    let mut sealed = encryptor.encrypt(b"Hello, world!").unwrap();
    let last = sealed.len() - 1;
    sealed[last] ^= 1;
    assert_eq!(encryptor.decrypt(&sealed), Err(CryptoError::Authentication));
    sealed[last] ^= 1;
    sealed[0] ^= 1;
    assert_eq!(encryptor.decrypt(&sealed), Err(CryptoError::Authentication));
}

#[test]
fn another_key_does_not_open() {
    let a = AesEncryptor::new(&session_key(), Some([1u8; 8]));
    let b = AesEncryptor::new(&session_key(), Some([2u8; 8]));
    let sealed = a.encrypt(b"secret").unwrap();
    assert_eq!(b.decrypt(&sealed), Err(CryptoError::Authentication));
}

#[test]
fn a_short_message_does_not_open() {
    let encryptor = AesEncryptor::new(&session_key(), None);
    assert_eq!(encryptor.decrypt(&[]), Err(CryptoError::Authentication));
    assert_eq!(encryptor.decrypt(&[0u8; 11]), Err(CryptoError::Authentication));
    assert_eq!(encryptor.decrypt(&[0u8; 12]), Err(CryptoError::Authentication));
    assert_eq!(encryptor.decrypt(&[0u8; 27]), Err(CryptoError::Authentication));
}

#[test]
fn the_opener_sends_its_salt_and_the_other_side_takes_it() {
    let (sender, to_send) = EncryptedSession::new(&session_key(), Role::Sender, &[]).unwrap();
    let salt = to_send.unwrap();
    assert_eq!(salt, sender.encryptor.salt.to_vec());
    let (receiver, nothing) =
        EncryptedSession::new(&session_key(), Role::Reciever, &salt).unwrap();
    assert!(nothing.is_none());
    assert_eq!(receiver.encryptor.key, sender.encryptor.key);
    assert_eq!(receiver.as_encryptor().salt, sender.as_encryptor().salt);
}

#[test]
fn a_salt_of_the_wrong_length_is_refused() {
    assert!(matches!(
        EncryptedSession::new(&session_key(), Role::Reciever, &[1, 2, 3]),
        Err(CryptoError::KDF)
    ));
    assert!(matches!(
        EncryptedSession::new(&session_key(), Role::Reciever, &[0u8; 9]),
        Err(CryptoError::KDF)
    ));
}

#[test]
fn the_channel_frames_what_it_seals() {
    let session =
        EncryptedSession::from_encryptor(AesEncryptor::new(&session_key(), Some([3u8; 8])));
    let bytes = session.write(b"pass123").unwrap();
    assert_eq!(&bytes[..4], b"croc");
    assert_eq!(&bytes[4..8], &[(12 + 7 + 16) as u8, 0, 0, 0]);
    assert_eq!(bytes.len(), 8 + 12 + 7 + 16);
    assert_eq!(session.read(&bytes[8..]).unwrap(), b"pass123".to_vec());
    assert_eq!(session.read(&bytes[9..]), Err(CryptoError::Authentication));
}

#[test]
fn channel_errors_tell_their_layer() {
    assert_ne!(
        ChannelError::Crypto(CryptoError::TooLong),
        ChannelError::Proto(ProtoError::BadFrameLength)
    );
}
