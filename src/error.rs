use vstd::prelude::*;

verus! {

/// The kinds of failure that the framework reports.
#[derive(Debug, Clone, Copy, PartialEq, Eq, Structural)]
pub enum Failure {
    /// Malformed framing, a value that does not deserialize, an empty path or
    /// an unknown status byte.
    InvalidData,
    /// A path that resolves to no service, or a key that is absent.
    NotFound,
    /// A registry key that is already occupied.
    InUse,
    /// The transport ended before a whole record arrived.
    ConnectionClosed,
    /// A record whose declared length exceeds the ceiling.
    TooLarge,
    /// A cryptographic or other foreign failure.
    Other,
}

} // verus!
