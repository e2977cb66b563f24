//! What is said of a TRB file that cannot be read.

use crate::serialize::trb::TrbError;
use crate::text::{decimal, hexadecimal, push_decimal, push_hexadecimal};
use vstd::prelude::*;
use vstd::string::StringExecFns;

verus! {

/// Four bytes as a list in decimal.
pub open spec fn byte_list(bytes: Seq<u8>) -> Seq<char> {
    "["@ + decimal(bytes[0] as nat) + ", "@ + decimal(bytes[1] as nat) + ", "@ + decimal(bytes[2] as nat) + ", "@
        + decimal(bytes[3] as nat) + "]"@
}

impl TrbError {
    /// The text of the error.
    pub open spec fn text(&self) -> Seq<char> {
        match *self {
            TrbError::TooSmallForFormat => "File too small for TRB format"@,
            TrbError::InvalidMagic { got } => "Invalid TRB magic: expected [84, 82, 66, 49], got "@ + byte_list(got@),
            TrbError::TooSmallForHeaderSize => "File too small for header size"@,
            TrbError::TooSmallForHeader => "File too small for header"@,
            TrbError::TruncatedBase => "File truncated: missing base blob or CRC"@,
            TrbError::BaseCrcMismatch { stored, computed } => "Base blob CRC mismatch: stored=0x"@ + hexadecimal(
                stored as nat,
            ) + ", computed=0x"@ + hexadecimal(computed as nat),
        }
    }

    /// The text of the error.
    pub fn message(&self) -> (message: String)
        ensures
            message@ == self.text(),
    {
        match self {
            TrbError::TooSmallForFormat => "File too small for TRB format".to_owned(),
            TrbError::InvalidMagic { got } => {
                let mut message: String = "Invalid TRB magic: expected [84, 82, 66, 49], got ".to_owned();
                message.append("[");
                push_decimal(&mut message, got[0] as u64);
                message.append(", ");
                push_decimal(&mut message, got[1] as u64);
                message.append(", ");
                push_decimal(&mut message, got[2] as u64);
                message.append(", ");
                push_decimal(&mut message, got[3] as u64);
                message.append("]");
                assert(message@ =~= self.text());
                message
            },
            TrbError::TooSmallForHeaderSize => "File too small for header size".to_owned(),
            TrbError::TooSmallForHeader => "File too small for header".to_owned(),
            TrbError::TruncatedBase => "File truncated: missing base blob or CRC".to_owned(),
            TrbError::BaseCrcMismatch { stored, computed } => {
                let mut message: String = "Base blob CRC mismatch: stored=0x".to_owned();
                push_hexadecimal(&mut message, *stored as u64);
                message.append(", computed=0x");
                push_hexadecimal(&mut message, *computed as u64);
                message
            },
        }
    }
}

} // verus!
