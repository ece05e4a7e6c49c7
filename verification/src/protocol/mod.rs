//! The packet data model and its wire encoding.

pub mod error;
pub mod hasher;
pub mod packet;
pub mod primary_header;
pub mod secondary_header;
pub mod user_data_field;
pub mod wire;

pub use error::PacketError;
pub use packet::Packet;
pub use primary_header::PktType;
pub use primary_header::PrimaryHeader;
pub use secondary_header::SecondaryHeader;
pub use user_data_field::UserDataField;
