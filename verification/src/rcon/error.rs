//! The ways in which a connection, a frame or a request can fail.

use vstd::prelude::*;

verus! {

/// Every failure the protocol engine reports.
#[derive(Debug, PartialEq, Eq)]
pub enum RconError {
    /// The connection could not be opened.
    ConnectError { reason: String },
    /// Fewer than twelve bytes were offered as a header, or the header
    /// announces a frame outside the accepted sizes.
    MalformedHeader,
    /// A word is cut short, lacks its terminator, is empty or is not ASCII.
    MalformedWord,
    /// The buffer ends before the announced number of words.
    WordCountMismatch,
    /// The words do not end where the header says the packet ends.
    SizeMismatch,
    /// No response arrived within the timeout.
    RequestTimeout,
    /// The connection went away while the request was outstanding.
    ConnectionLost,
    /// A word to be sent is empty.
    EmptyWord,
    /// A word to be sent holds a character outside ASCII.
    NonAsciiWord,
    /// The packet does not fit the 32-bit size field.
    FrameTooLarge,
}

impl Clone for RconError {
    fn clone(&self) -> (error: RconError)
        ensures
            error == *self,
    {
        match self {
            RconError::ConnectError { reason } => RconError::ConnectError {
                reason: reason.clone(),
            },
            RconError::MalformedHeader => RconError::MalformedHeader,
            RconError::MalformedWord => RconError::MalformedWord,
            RconError::WordCountMismatch => RconError::WordCountMismatch,
            RconError::SizeMismatch => RconError::SizeMismatch,
            RconError::RequestTimeout => RconError::RequestTimeout,
            RconError::ConnectionLost => RconError::ConnectionLost,
            RconError::EmptyWord => RconError::EmptyWord,
            RconError::NonAsciiWord => RconError::NonAsciiWord,
            RconError::FrameTooLarge => RconError::FrameTooLarge,
        }
    }
}

} // verus!
