//! Error taxonomy of the relay core.

use vstd::prelude::*;

verus! {

/// Every failure the relay core can report.
///
/// `NotFound`, `Conflict` and `RoomEnded` are user-visible rejections with a
/// distinguishing status.  `StoreUnavailable` is a durable-store I/O failure
/// and is fatal to the request that needed the store.  `TransportError` is a
/// send/receive failure on one connection; it is isolated to that connection
/// and raised by the transport layer around this crate.  `QueueFull` is a
/// non-fatal per-message drop signal: the recipient's bounded outbound queue
/// was full, the message is dropped for that recipient only and the drop is
/// counted, never surfaced to the sender.
#[derive(Debug, Clone, Copy, PartialEq, Eq, Structural)]
pub enum RelayError {
    /// The room (or its durable record) does not exist.
    NotFound,
    /// A room with this identifier already exists.
    Conflict,
    /// The room has its end-of-life timestamp set; new joins are rejected.
    RoomEnded,
    /// The durable metadata store could not be reached.
    StoreUnavailable,
    /// Sending or receiving on a connection failed.
    TransportError,
    /// A recipient's bounded outbound queue was full; the message was dropped
    /// for that one recipient.
    QueueFull,
}

impl RelayError {
    /// A short stable description, for logs and status mapping in the
    /// surrounding application.
    pub fn describe(&self) -> (r: &'static str)
        ensures
            *self == RelayError::NotFound ==> r@ == "room not found"@,
            *self == RelayError::Conflict ==> r@ == "room already exists"@,
            *self == RelayError::RoomEnded ==> r@ == "room has ended"@,
            *self == RelayError::StoreUnavailable ==> r@ == "store unavailable"@,
            *self == RelayError::TransportError ==> r@ == "transport error"@,
            *self == RelayError::QueueFull ==> r@ == "outbound queue full"@,
    {
        match self {
            RelayError::NotFound => "room not found",
            RelayError::Conflict => "room already exists",
            RelayError::RoomEnded => "room has ended",
            RelayError::StoreUnavailable => "store unavailable",
            RelayError::TransportError => "transport error",
            RelayError::QueueFull => "outbound queue full",
        }
    }
}

} // verus!
