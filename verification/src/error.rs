//! Why a byte stream was rejected.

use vstd::prelude::*;

verus! {

/// A decode stops at the first fault and reports it; nothing decoded so far
/// is handed out.
#[derive(Clone, Copy, Debug, PartialEq, Eq, Structural)]
pub enum DecodeError {
    /// A read needed more bytes than the buffer still holds.
    TruncatedInput,
    /// A child chunk declares more bytes than its parent has left, or a
    /// fixed-size chunk declares another size than its own.
    MalformedChunkTree,
    /// The buffer does not open with the container's signature.
    BadSignature,
}

} // verus!
