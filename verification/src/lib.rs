//! MMTP media over the MoQ transport: wire coding, stream life cycles, track
//! retention, catalogs and packet routing.

pub mod canary;
pub mod carriage;
pub mod catalog;
pub mod draft19;
pub mod kvp;
pub mod mmt;
pub mod params;
pub mod profile;
pub mod publisher;
pub mod quic;
pub mod serve;
pub mod session;
pub mod sub_raw;
pub mod table;
pub mod text;
pub mod vi64;
pub mod watch;
pub mod wire;
