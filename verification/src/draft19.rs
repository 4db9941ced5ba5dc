//! The draft-19 profile: framing, GOAWAY and the life cycles of its streams.

pub mod goaway;
pub mod setup;
pub mod stream;
