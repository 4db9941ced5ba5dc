//! The publisher: MMTP packets and opaque datagrams onto tracks.

pub mod datagram;
pub mod dispatch;
pub mod framing;
pub mod observe;
pub mod parse;
pub mod reconnect;
pub mod router;
pub mod udp;
