//! Decoding of a byte stream into space packets: a six-byte primary header
//! followed by a data field of optional secondary header, optional user data
//! and a trailing CRC-16 checksum.

pub mod io;
pub mod protocol;

pub use io::reader::{Action, Event, Reader, ReaderError, ReaderState};
pub use protocol::{Packet, PacketError, PktType, PrimaryHeader, SecondaryHeader, UserDataField};
