//! Tools to look into what the node exchanges.

use crate::hex;
use crate::text::trim;
use crate::text::trimmed;
use vstd::prelude::*;
use vstd::string::StringSliceAdditionalSpecFns;
use vstd::utf8::encode_utf8;

verus! {

/// A message as it was read: its bytes in hexadecimal digits, with white
/// space around them or without.
#[derive(Debug)]
pub struct Message {
    pub input: String,
}

/// The commands that look into what the node exchanges.
#[derive(Debug)]
pub enum Debug {
    /// Decode a hex-encoded message.
    Message(Message),
}

/// Why a command could not do its work.
#[derive(Clone, Copy, Debug, PartialEq, Eq, Structural)]
pub enum Error {
    HexMalformed { source: hex::Error },
}

/// What decoding the text `input` comes to: the white space around it is
/// taken off, and what is left is read as hexadecimal digits.
pub open spec fn message_bytes(input: Seq<char>, r: Result<Vec<u8>, Error>) -> bool {
    hex::decoded(
        encode_utf8(trimmed(input)),
        match r {
            Ok(bytes) => Ok(bytes@),
            Err(Error::HexMalformed { source }) => Err(source),
        },
    )
}

impl Message {
    /// The bytes of the message.
    pub fn exec(self) -> (r: Result<Vec<u8>, Error>)
        ensures
            message_bytes(self.input@, r),
    {
        let text = trim(self.input.as_str());
        match hex::decode(text.as_bytes()) {
            Ok(bytes) => Ok(bytes),
            Err(source) => Err(Error::HexMalformed { source }),
        }
    }
}

impl Debug {
    pub fn exec(self) -> (r: Result<Vec<u8>, Error>)
        ensures
            match self {
                Debug::Message(message) => message_bytes(message.input@, r),
            },
    {
        match self {
            Debug::Message(message) => message.exec(),
        }
    }
}

} // verus!
