//! Codec for the packets of a micro transport protocol: a fixed 20-byte
//! header, a forward-linked chain of extensions, and a payload.
//!
//! `Packet::decode` reads any byte sequence, refusing malformed ones with a
//! `ParseError`; `Packet::bytes` writes a packet back. Both are verified
//! against the models in `packet` (`spec_decode`, `spec_encode`), and
//! `lemmas` proves the laws that relate them.

pub mod error;
pub mod extension;
pub mod header;
pub mod lemmas;
pub mod packet;

pub use error::ParseError;
pub use extension::{Extension, ExtensionType};
pub use header::{PacketHeader, PacketType, HEADER_SIZE};
pub use packet::Packet;
