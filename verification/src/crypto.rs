//! Cryptographic building blocks of the transfer protocol.

pub mod aes;
pub mod bignum;
pub mod curve;
pub mod hash;
pub mod pake;
pub mod random;
