//! The encrypted channel: messages sealed by the AEAD envelope inside frames.
//!
//! The side that opens the channel picks the salt and sends it in clear as the
//! first framed message; the other side derives its key from the salt it
//! reads.

use crate::crypto::aes::{AesEncryptor, CryptoError, NONCE_LEN, TAG_LEN};
use crate::crypto::aes::max_plaintext;
use crate::crypto::pake::Role;
use crate::proto::croc_raw::{frame, frame_of, ProtoError};
use vstd::prelude::*;

verus! {

/// Why a message could not be put on, or taken off, the encrypted channel.
#[derive(PartialEq, Eq, Structural, Clone, Copy, Debug)]
pub enum ChannelError {
    Crypto(CryptoError),
    Proto(ProtoError),
}

/// One side of an encrypted channel.
#[derive(Clone, Copy, Debug)]
pub struct EncryptedSession {
    pub encryptor: AesEncryptor,
}

impl EncryptedSession {
    /// Opens the channel under `session_key`.
    ///
    /// The sender draws a salt; the second part of the result is that salt,
    /// which it must write as a framed message. The receiver takes the salt
    /// from `received_salt`, the payload of the frame it read, which must be
    /// eight bytes, and has nothing to write.
    pub fn new(session_key: &[u8; 32], role: Role, received_salt: &[u8]) -> (r: Result<
        (EncryptedSession, Option<Vec<u8>>),
        CryptoError,
    >)
        ensures
            match r {
                Ok((session, to_send)) => {
                    &&& session.encryptor.derived_from(session_key@)
                    &&& match role {
                        Role::Sender => to_send matches Some(salt) && salt@
                            == session.encryptor.salt@,
                        Role::Reciever => to_send is None && session.encryptor.salt@
                            == received_salt@,
                    }
                },
                Err(e) => role == Role::Reciever && received_salt@.len() != 8 && e
                    == CryptoError::KDF,
            },
    {
        match role {
            Role::Sender => {
                let encryptor = AesEncryptor::new(session_key, None);
                // Let the server know the salt
                let mut salt: Vec<u8> = Vec::new();
                let mut i: usize = 0;
                while i < 8
                    invariant
                        i <= 8,
                        salt@ == encryptor.salt@.take(i as int),
                    decreases 8 - i,
                {
                    salt.push(encryptor.salt[i]);
                    proof {
                        assert(salt@ =~= encryptor.salt@.take(i + 1));
                    }
                    i = i + 1;
                }
                proof {
                    assert(encryptor.salt@.take(8) =~= encryptor.salt@);
                }
                Ok((EncryptedSession { encryptor }, Some(salt)))
            },
            Role::Reciever => {
                if received_salt.len() != 8 {
                    return Err(CryptoError::KDF);
                }
                let mut salt = [0u8; 8];
                let mut i: usize = 0;
                while i < 8
                    invariant
                        i <= 8,
                        received_salt@.len() == 8,
                        forall|j: int| 0 <= j < i ==> salt@[j] == received_salt@[j],
                    decreases 8 - i,
                {
                    salt[i] = received_salt[i];
                    i = i + 1;
                }
                proof {
                    assert(salt@ =~= received_salt@);
                }
                let encryptor = AesEncryptor::new(session_key, Some(salt));
                Ok((EncryptedSession { encryptor }, None))
            },
        }
    }

    /// A channel that seals with `encryptor`.
    pub fn from_encryptor(encryptor: AesEncryptor) -> (r: EncryptedSession)
        ensures
            r.encryptor == encryptor,
    {
        EncryptedSession { encryptor }
    }

    /// The envelope that this channel seals with.
    pub fn as_encryptor(&self) -> (r: &AesEncryptor)
        ensures
            *r == self.encryptor,
    {
        &self.encryptor
    }

    /// The bytes to put on the wire for `msg`: the frame of `msg` sealed.
    pub fn write(&self, msg: &[u8]) -> (r: Result<Vec<u8>, ChannelError>)
        ensures
            match r {
                Ok(bytes) => exists|blob: Seq<u8>| #[trigger]
                    self.encryptor.is_sealed(blob, msg@) && blob.len() == NONCE_LEN + msg@.len()
                        + TAG_LEN && bytes@ == frame_of(blob),
                Err(e) => if msg@.len() > max_plaintext() {
                    e == ChannelError::Crypto(CryptoError::TooLong)
                } else {
                    NONCE_LEN + msg@.len() + TAG_LEN > u32::MAX && e == ChannelError::Proto(
                        ProtoError::BadFrameLength,
                    )
                },
            },
    {
        let encrypted_data = match self.encryptor.encrypt(msg) {
            Ok(blob) => blob,
            Err(e) => { return Err(ChannelError::Crypto(e)); },
        };
        match frame(encrypted_data.as_slice()) {
            Ok(bytes) => Ok(bytes),
            Err(e) => Err(ChannelError::Proto(e)),
        }
    }

    /// The message inside `payload`, the payload of a frame that was read.
    pub fn read(&self, payload: &[u8]) -> (r: Result<Vec<u8>, CryptoError>)
        ensures
            forall|p: Seq<u8>| #[trigger]
                self.encryptor.is_sealed(payload@, p) ==> (r matches Ok(out) && out@ == p),
            match r {
                Ok(out) => self.encryptor.is_sealed(payload@, out@),
                Err(e) => e == CryptoError::Authentication && self.encryptor.is_no_message(
                    payload@,
                ),
            },
    {
        self.encryptor.decrypt(payload)
    }
}

} // verus!
