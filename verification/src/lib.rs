//! Core of a peer-to-peer file transfer over a rendezvous relay: the framed
//! transport, the password-authenticated key exchange, the AEAD envelope, the
//! relay's room broker and the client session, each as verified logic on plain
//! values. Sockets, files and prompts are left to the caller.

pub mod crypto;
pub mod proto;
pub mod relay;
