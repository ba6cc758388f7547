//! Error kinds shared by the telemetry and video components.
//!
//! Failures are local to the store or stream they name and never poison the
//! rest of the registry.

use vstd::prelude::*;

verus! {

/// Why a store, stream or recording operation was refused.
#[derive(Clone, Copy, Debug, PartialEq, Eq, Structural)]
pub enum MiddlewareError {
    /// The named store, stream or field does not exist.
    NotFound,
    /// A store with this name already exists.
    AlreadyExists,
    /// Recording was already active on this store or stream.
    AlreadyRecording,
    /// Recording was not active on this store or stream.
    NotRecording,
    /// A frame's byte length does not match the configured geometry.
    GeometryMismatch,
    /// A file or subprocess could not be created or written.
    IoFailure,
    /// The background task for this store or stream is gone.
    ChannelClosed,
    /// No frame has ever been pushed, so recording geometry cannot be inferred.
    NoFrame,
}

impl MiddlewareError {
    /// A short human-readable description of the error.
    pub fn message(&self) -> (r: &'static str)
        ensures
            r@ =~= self.message_text(),
    {
        proof {
            reveal_strlit("not found");
            reveal_strlit("already exists");
            reveal_strlit("already recording");
            reveal_strlit("not recording");
            reveal_strlit("geometry mismatch");
            reveal_strlit("io failure");
            reveal_strlit("channel closed");
            reveal_strlit("no frame");
        }
        match self {
            MiddlewareError::NotFound => "not found",
            MiddlewareError::AlreadyExists => "already exists",
            MiddlewareError::AlreadyRecording => "already recording",
            MiddlewareError::NotRecording => "not recording",
            MiddlewareError::GeometryMismatch => "geometry mismatch",
            MiddlewareError::IoFailure => "io failure",
            MiddlewareError::ChannelClosed => "channel closed",
            MiddlewareError::NoFrame => "no frame",
        }
    }

    /// The text `message` returns for each variant.
    pub open spec fn message_text(self) -> Seq<char> {
        match self {
            MiddlewareError::NotFound => "not found"@,
            MiddlewareError::AlreadyExists => "already exists"@,
            MiddlewareError::AlreadyRecording => "already recording"@,
            MiddlewareError::NotRecording => "not recording"@,
            MiddlewareError::GeometryMismatch => "geometry mismatch"@,
            MiddlewareError::IoFailure => "io failure"@,
            MiddlewareError::ChannelClosed => "channel closed"@,
            MiddlewareError::NoFrame => "no frame"@,
        }
    }
}

} // verus!
