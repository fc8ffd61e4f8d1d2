//! Wire protocol: frames, control messages, the encrypted channel and the
//! client session.

pub mod client_session;
pub mod croc_enc;
pub mod croc_msg;
pub mod croc_raw;
