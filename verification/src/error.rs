//! The failures a message reader can report, each carrying the message that
//! a client-visible error response surfaces.

use vstd::prelude::*;

verus! {

/// Why reading a message failed.
#[derive(Debug)]
pub enum HttpError {
    /// The request line did not hold exactly three tokens.
    MalformedRequestLine(String),
    /// The status line did not hold a version, a 16-bit numeric code and a
    /// reason.
    MalformedStatusLine(String),
    /// A destination string was present but could not be parsed; carries the
    /// destination parser's message.
    DestinationError(String),
    /// No proxy-destination header and no configured default.
    NoDestination(String),
    /// A chunk-size line that is not a hexadecimal number.
    InvalidChunkSize(String),
    /// A chunk's declared bytes were not followed by a line ending.
    MissingChunkTerminator(String),
}

impl HttpError {
    /// The text a client-visible error response carries.
    pub open spec fn spec_message(&self) -> Seq<char> {
        match self {
            HttpError::MalformedRequestLine(m) => m@,
            HttpError::MalformedStatusLine(m) => m@,
            HttpError::DestinationError(m) => m@,
            HttpError::NoDestination(m) => m@,
            HttpError::InvalidChunkSize(m) => m@,
            HttpError::MissingChunkTerminator(m) => m@,
        }
    }

    pub fn message(&self) -> (r: &String)
        ensures
            r@ == self.spec_message(),
    {
        match self {
            HttpError::MalformedRequestLine(m) => m,
            HttpError::MalformedStatusLine(m) => m,
            HttpError::DestinationError(m) => m,
            HttpError::NoDestination(m) => m,
            HttpError::InvalidChunkSize(m) => m,
            HttpError::MissingChunkTerminator(m) => m,
        }
    }
}

} // verus!
