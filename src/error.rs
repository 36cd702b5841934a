use vstd::prelude::*;

verus! {

/// Why a byte buffer could not be read as a packet.
#[derive(Debug, Clone, Copy, PartialEq, Eq, Structural)]
pub enum ParseError {
    /// An extension's length is zero, not a multiple of 4, or runs past the
    /// end of the buffer; or an extension is declared with no byte after the
    /// header.
    InvalidExtensionLength,
    /// The buffer is shorter than the header, or the extension chain is cut
    /// short.
    InvalidPacketLength,
    /// The version nibble of the header is not 1.
    UnsupportedVersion,
    /// The type nibble of the header names no packet type.
    UnknownPacketType,
}

impl ParseError {
    /// A sentence that describes the error.
    pub fn description(&self) -> (r: &'static str)
        ensures
            *self == ParseError::InvalidExtensionLength ==> r@
                == "Invalid extension length (must be a non-zero multiple of 4)"@,
            *self == ParseError::InvalidPacketLength ==> r@ == "The packet is too small"@,
            *self == ParseError::UnsupportedVersion ==> r@ == "Unsupported packet version"@,
            *self == ParseError::UnknownPacketType ==> r@ == "Unknown packet type"@,
    {
        match self {
            ParseError::InvalidExtensionLength => {
                "Invalid extension length (must be a non-zero multiple of 4)"
            },
            ParseError::InvalidPacketLength => "The packet is too small",
            ParseError::UnsupportedVersion => "Unsupported packet version",
            ParseError::UnknownPacketType => "Unknown packet type",
        }
    }
}

} // verus!
