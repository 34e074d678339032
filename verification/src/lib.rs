//! Protocol core of a listen-only Jamulus client: the checksummed control
//! envelope, the peer roster payload, the twin-frame audio datagram, the
//! jitter buffer, the silence generator and the session's reaction to every
//! inbound datagram.
//!
//! Nothing here touches a socket, a clock or a codec. The host feeds in the
//! datagrams it received and sends out the datagrams it is handed back.

pub mod crc;
pub mod wire;
pub mod message;
pub mod jitter;
pub mod silence;
pub mod text;
pub mod client_info;
pub mod protocol;
pub mod client;
pub mod audio;

pub use crate::client::{Discard, Handler, JamulusClient};
