//! Framing of a byte stream into packets.

pub mod reader;
pub mod stream;

pub use reader::Reader;
