//! Errors surfaced by the session layer.

use vstd::prelude::*;

verus! {

/// What can go wrong while processing a packet. A sequence number that is
/// unknown or already resolved is never an error: such references are
/// normal races between send and acknowledgment timing and are absorbed
/// silently by the resolution logic.
#[derive(PartialEq, Eq, Structural, Clone, Copy, Debug)]
pub enum NetworkError {
    /// Wire encoding of an outbound packet failed, in which case the
    /// message is not left pending. The session layer's own encoder is
    /// shown never to fail, so its operations never produce this; it is
    /// declared for callers that encode through other means.
    SerializationFailed,
    /// The shared connection registry could not be accessed. The verified
    /// registry itself cannot fail; the shell that shares it across
    /// threads maps a poisoned lock to this.
    RegistryUnavailable,
}

} // verus!
