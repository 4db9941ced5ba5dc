//! Sessions: what the two ends of one do with each other's messages.

use vstd::prelude::*;

use crate::serve::ServeError;
use crate::wire::{DecodeError, EncodeError};

pub mod draft19;
pub mod receive;
pub mod subscribe;
pub mod subscriber;

verus! {

/// Why a session, or a stream of it, cannot go on.
#[derive(Copy, Clone, Debug, PartialEq, Eq, Structural)]
pub enum SessionError {
    /// The connection failed.
    Connection,
    Decode(DecodeError),
    Encode(EncodeError),
    Serve(ServeError),
    /// The state contradicts itself.
    Internal,
    /// An identity that must be unique came twice.
    Duplicate,
    /// The peer allows no further request.
    TooManyRequests,
    /// A stream ended within a payload.
    WrongSize,
    /// The number of an object runs past 64 bits.
    ObjectIdOverflow,
    /// An object that is not a normal one carries extension headers.
    StatusWithExtensionHeaders,
    /// This is not implemented.
    Unimplemented,
}

impl SessionError {
    /// Whether bytes of the peer could not be read.
    pub open spec fn spec_is_decode(self) -> bool {
        self is Decode
    }

    pub fn is_decode(&self) -> (r: bool)
        ensures
            r == self.spec_is_decode(),
    {
        matches!(self, SessionError::Decode(_))
    }
}

} // verus!
