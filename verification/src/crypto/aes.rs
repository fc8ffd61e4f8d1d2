//! The AEAD envelope: AES-256-GCM under a key stretched from the session key.
//!
//! A sealed message is the 12-byte nonce, then the ciphertext, then the
//! 16-byte tag.

use crate::crypto::random::random_bytes;
use aes_gcm::aead::Aead;
use aes_gcm::aead::OsRng;
use aes_gcm::AeadCore;
use aes_gcm::Aes256Gcm;
use aes_gcm::KeyInit;
use pbkdf2::pbkdf2_hmac_array;
use sha2::Sha256;
use vstd::prelude::*;

verus! {

/// Rounds of key stretching.
pub const KDF_ROUNDS: u32 = 100;

/// Length of a nonce.
pub const NONCE_LEN: usize = 12;

/// Length of the authentication tag.
pub const TAG_LEN: usize = 16;

/// The longest plaintext that AES-GCM takes, in bytes.
pub open spec fn max_plaintext() -> int {
    0x10_0000_0000
}

/// PBKDF2-HMAC-SHA256 of `password` and `salt` after `rounds` rounds, 32 bytes.
pub uninterp spec fn pbkdf2_hmac_sha256(password: Seq<u8>, salt: Seq<u8>, rounds: u32) -> Seq<u8>;

/// Ciphertext and tag of `plaintext` under AES-256-GCM with `key` and `nonce`,
/// without associated data.
pub uninterp spec fn aes256_gcm_seal(key: Seq<u8>, nonce: Seq<u8>, plaintext: Seq<u8>) -> Seq<u8>;

/// Why a message could not be sealed or opened.
#[derive(PartialEq, Eq, Structural, Clone, Copy, Debug)]
pub enum CryptoError {
    /// The tag does not fit the message, or the message is too short to hold
    /// a nonce and a tag.
    Authentication,
    /// The plaintext is longer than AES-GCM takes.
    TooLong,
    /// No key can be derived: the salt is not eight bytes.
    KDF,
}

/// An AEAD session: the stretched key and the salt it was stretched with.
#[derive(Clone, Copy, Debug)]
pub struct AesEncryptor {
    pub key: [u8; 32],
    pub salt: [u8; 8],
}

/// Key stretching, by `pbkdf2_hmac_array` with SHA-256 and 32 bytes of output.
///
/// Trusted: the key is a function of password, salt and rounds.
#[verifier::external_body]
fn stretch_key(password: &[u8; 32], salt: &[u8; 8], rounds: u32) -> (r: [u8; 32])
    ensures
        r@ == pbkdf2_hmac_sha256(password@, salt@, rounds),
{
    pbkdf2_hmac_array::<Sha256, 32>(password, salt, rounds)
}

/// A nonce from the operating system's generator, by
/// `AeadCore::generate_nonce` with `OsRng`.
///
/// Trusted: the call returns. Nothing is promised of the bytes.
#[verifier::external_body]
fn fresh_nonce() -> (r: [u8; 12]) {
    Aes256Gcm::generate_nonce(&mut OsRng).into()
}

/// Encryption, by `Aead::encrypt` of `Aes256Gcm`.
///
/// Trusted: the call fails exactly on a plaintext above the limit, and the
/// failure is handed on as `None`; what it returns is a function of key, nonce
/// and plaintext, sixteen bytes longer than the plaintext.
#[verifier::external_body]
fn gcm_seal(key: &[u8; 32], nonce: &[u8; 12], plaintext: &[u8]) -> (r: Option<Vec<u8>>)
    ensures
        r is Some <==> plaintext@.len() <= max_plaintext(),
        r matches Some(c) ==> c@ == aes256_gcm_seal(key@, nonce@, plaintext@) && c@.len()
            == plaintext@.len() + 16,
{
    Aes256Gcm::new(key.into()).encrypt(nonce.into(), plaintext).ok()
}

/// Decryption, by `Aead::decrypt` of `Aes256Gcm`.
///
/// Trusted: what is given back is sixteen bytes shorter than what was opened
/// and seals to it under that key and nonce, and nothing else does; the call
/// fails, handed on as `None`, only where no plaintext seals to the bytes.
/// `requires` leaves out what is longer than a sealed message can be: of such
/// bytes the cipher opens a few that it would not have sealed.
#[verifier::external_body]
fn gcm_open(key: &[u8; 32], nonce: &[u8; 12], sealed: &[u8]) -> (r: Option<Vec<u8>>)
    requires
        sealed@.len() <= max_plaintext() + 16,
    ensures
        r matches Some(out) ==> out@.len() + 16 == sealed@.len() && sealed@ == aes256_gcm_seal(
            key@,
            nonce@,
            out@,
        ),
        r matches Some(out) ==> forall|p: Seq<u8>|
            p.len() <= max_plaintext() && sealed@ == #[trigger] aes256_gcm_seal(key@, nonce@, p)
                ==> out@ == p,
        r is None ==> forall|p: Seq<u8>|
            p.len() <= max_plaintext() ==> sealed@ != #[trigger] aes256_gcm_seal(key@, nonce@, p),
{
    Aes256Gcm::new(key.into()).decrypt(nonce.into(), sealed).ok()
}

impl AesEncryptor {
    /// Whether the key is the session key stretched with this salt.
    pub open spec fn derived_from(&self, session_key: Seq<u8>) -> bool {
        self.key@ == pbkdf2_hmac_sha256(session_key, self.salt@, KDF_ROUNDS)
    }

    /// Whether `blob` is `plaintext` sealed by this session under the nonce
    /// that `blob` starts with: nonce, ciphertext and tag, and so 28 bytes
    /// longer than the plaintext.
    pub open spec fn is_sealed(&self, blob: Seq<u8>, plaintext: Seq<u8>) -> bool {
        &&& blob.len() == NONCE_LEN + plaintext.len() + TAG_LEN
        &&& plaintext.len() <= max_plaintext()
        &&& blob.subrange(NONCE_LEN as int, blob.len() as int) == aes256_gcm_seal(
            self.key@,
            blob.subrange(0, NONCE_LEN as int),
            plaintext,
        )
    }

    /// Whether nothing was sealed into `blob` by this session.
    pub open spec fn is_no_message(&self, blob: Seq<u8>) -> bool {
        forall|p: Seq<u8>| !#[trigger] self.is_sealed(blob, p)
    }

    /// A session under `session_key`, with the given salt or, where none is
    /// given, eight random bytes.
    pub fn new(session_key: &[u8; 32], salt: Option<[u8; 8]>) -> (r: Self)
        ensures
            r.derived_from(session_key@),
            salt matches Some(s) ==> r.salt == s,
    {
        let salt: [u8; 8] = match salt {
            Some(salt) => salt,
            None => random_bytes::<8>(),
        };
        // Derive a strong key using PBKDF2-HMAC-SHA256
        let key = stretch_key(session_key, &salt, KDF_ROUNDS);
        AesEncryptor { key, salt }
    }

    /// Seals `data` under `nonce`: the nonce, then ciphertext and tag.
    pub fn encrypt_with_nonce(&self, nonce: &[u8; 12], data: &[u8]) -> (r: Result<
        Vec<u8>,
        CryptoError,
    >)
        ensures
            match r {
                Ok(blob) => data@.len() <= max_plaintext() && blob@ == nonce@ + aes256_gcm_seal(
                    self.key@,
                    nonce@,
                    data@,
                ) && blob@.len() == NONCE_LEN + data@.len() + TAG_LEN && self.is_sealed(
                    blob@,
                    data@,
                ),
                Err(e) => data@.len() > max_plaintext() && e == CryptoError::TooLong,
            },
    {
        let sealed = match gcm_seal(&self.key, nonce, data) {
            Some(c) => c,
            None => { return Err(CryptoError::TooLong); },
        };
        // Prepend the nonce to the ciphertext and return the result
        let mut full_cipher: Vec<u8> = Vec::new();
        let mut i: usize = 0;
        while i < 12
            invariant
                i <= 12,
                full_cipher@ == nonce@.take(i as int),
            decreases 12 - i,
        {
            full_cipher.push(nonce[i]);
            proof {
                assert(full_cipher@ =~= nonce@.take(i + 1));
            }
            i = i + 1;
        }
        let mut j: usize = 0;
        while j < sealed.len()
            invariant
                j <= sealed.len(),
                full_cipher@ == nonce@ + sealed@.take(j as int),
                nonce@.len() == 12,
            decreases sealed.len() - j,
        {
            full_cipher.push(sealed[j]);
            proof {
                assert(full_cipher@ =~= nonce@ + sealed@.take(j + 1));
            }
            j = j + 1;
        }
        proof {
            assert(sealed@.take(sealed.len() as int) =~= sealed@);
            assert(full_cipher@.subrange(0, 12) =~= nonce@);
            assert(full_cipher@.subrange(12, full_cipher@.len() as int) =~= sealed@);
        }
        Ok(full_cipher)
    }

    /// Seals `data` under a fresh random nonce.
    pub fn encrypt(&self, data: &[u8]) -> (r: Result<Vec<u8>, CryptoError>)
        ensures
            match r {
                Ok(blob) => blob@.len() == NONCE_LEN + data@.len() + TAG_LEN && self.is_sealed(
                    blob@,
                    data@,
                ),
                Err(e) => data@.len() > max_plaintext() && e == CryptoError::TooLong,
            },
    {
        // Generate a random nonce for encryption
        let nonce = fresh_nonce();
        self.encrypt_with_nonce(&nonce, data)
    }

    /// Opens a sealed message: the plaintext that was sealed into `data` by
    /// this session, whatever it was, or `Authentication` where `data` is no
    /// such message, be it too short, too long, or of a tag that does not fit.
    pub fn decrypt(&self, data: &[u8]) -> (r: Result<Vec<u8>, CryptoError>)
        ensures
            forall|p: Seq<u8>| #[trigger]
                self.is_sealed(data@, p) ==> (r matches Ok(out) && out@ == p),
            match r {
                Ok(out) => self.is_sealed(data@, out@) && out@.len() + NONCE_LEN + TAG_LEN
                    == data@.len(),
                Err(e) => e == CryptoError::Authentication && self.is_no_message(data@),
            },
    {
        if data.len() < 12 {
            return Err(CryptoError::Authentication);
        }
        // Nothing that was sealed is longer than this.
        if data.len() as u64 - 12 > 0x10_0000_0010u64 {
            return Err(CryptoError::Authentication);
        }
        // Extract the nonce from the encrypted data (first 12 bytes)
        let mut nonce = [0u8; 12];
        let mut i: usize = 0;
        while i < 12
            invariant
                i <= 12,
                data@.len() >= 12,
                forall|j: int| 0 <= j < i ==> nonce@[j] == data@[j],
            decreases 12 - i,
        {
            nonce[i] = data[i];
            i = i + 1;
        }
        proof {
            assert(nonce@ =~= data@.subrange(0, 12));
        }
        let rest = vstd::slice::slice_subrange(data, 12, data.len());
        match gcm_open(&self.key, &nonce, rest) {
            Some(out) => Ok(out),
            None => Err(CryptoError::Authentication),
        }
    }
}

} // verus!
