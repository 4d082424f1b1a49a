//! Codec and I/O errors that may occur while processing Telnet events.

use vstd::prelude::*;

verus! {

/// The two kinds of error the codec layer distinguishes.
#[derive(Debug)]
pub enum TelnetErrorType {
    /// Malformed input at the codec layer.
    Codec,
    /// A transport I/O error observed by the host, tunneled through.
    Io,
}

/// An error of the codec layer, with a display message.
#[derive(Debug)]
pub struct TelnetError {
    /// Which kind of error this is.
    pub kind: TelnetErrorType,
    /// A human-readable description.
    pub message: String,
}

impl TelnetError {
    /// A codec-layer error with the given message.
    pub fn codec(message: String) -> (r: TelnetError)
        ensures
            r.kind is Codec,
            r.message@ == message@,
    {
        TelnetError { kind: TelnetErrorType::Codec, message }
    }

    /// An I/O error with the given message.
    pub fn io(message: String) -> (r: TelnetError)
        ensures
            r.kind is Io,
            r.message@ == message@,
    {
        TelnetError { kind: TelnetErrorType::Io, message }
    }
}

} // verus!
