//! Why a buffer could not be decoded into a packet.

use vstd::prelude::*;

verus! {

/// A failure to decode a header or a whole packet from its bytes.
#[derive(Clone, Copy, Debug, PartialEq, Eq, Structural)]
pub enum PacketError {
    /// The buffer holds fewer bytes than the fields to be read from it.
    BufferTooShort,
    /// A header field holds a code outside its defined domain.
    MalformedHeader,
    /// The checksum over the whole frame is not the valid value.
    ChecksumMismatch,
}

} // verus!
