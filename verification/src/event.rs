//! Top-level Telnet events: messages, negotiations, subnegotiations, and
//! control signals.

use vstd::prelude::*;
use vstd::utf8::encode_utf8;

use crate::option::TelnetOption;
use crate::subnegotiation::{SubnegotiationType, SubnegotiationView};

verus! {

/// A Telnet event, as decoded from or encoded to the wire.
#[derive(Debug, PartialEq, Eq)]
pub enum TelnetEvent {
    /// A single byte passed through.
    Character(u8),
    /// A single decoded character, produced in unicode character mode.
    Unicode(char),
    /// A completed line, its newline stripped, or a flushed buffer.
    Message(String),
    /// A message sent without an enforced trailing newline. Used for
    /// outgoing messages only.
    RawMessage(String),
    /// A request that the other side perform an option.
    Do(TelnetOption),
    /// An intent to perform an option.
    Will(TelnetOption),
    /// A demand that the other side stop an option.
    Dont(TelnetOption),
    /// A refusal to perform an option.
    Wont(TelnetOption),
    /// A structured subnegotiation.
    Subnegotiate(SubnegotiationType),
    /// The data stream should resume.
    GoAhead,
    /// No operation.
    Nop,
}

/// The mathematical value of a [`TelnetEvent`].
pub enum TelnetEventView {
    /// See [`TelnetEvent::Character`].
    Character(u8),
    /// See [`TelnetEvent::Unicode`].
    Unicode(char),
    /// See [`TelnetEvent::Message`].
    Message(Seq<char>),
    /// See [`TelnetEvent::RawMessage`].
    RawMessage(Seq<char>),
    /// See [`TelnetEvent::Do`].
    Do(TelnetOption),
    /// See [`TelnetEvent::Will`].
    Will(TelnetOption),
    /// See [`TelnetEvent::Dont`].
    Dont(TelnetOption),
    /// See [`TelnetEvent::Wont`].
    Wont(TelnetOption),
    /// See [`TelnetEvent::Subnegotiate`].
    Subnegotiate(SubnegotiationView),
    /// See [`TelnetEvent::GoAhead`].
    GoAhead,
    /// See [`TelnetEvent::Nop`].
    Nop,
}

impl View for TelnetEvent {
    type V = TelnetEventView;

    open spec fn view(&self) -> TelnetEventView {
        match self {
            TelnetEvent::Character(byte) => TelnetEventView::Character(*byte),
            TelnetEvent::Unicode(c) => TelnetEventView::Unicode(*c),
            TelnetEvent::Message(message) => TelnetEventView::Message(message@),
            TelnetEvent::RawMessage(message) => TelnetEventView::RawMessage(message@),
            TelnetEvent::Do(option) => TelnetEventView::Do(*option),
            TelnetEvent::Will(option) => TelnetEventView::Will(*option),
            TelnetEvent::Dont(option) => TelnetEventView::Dont(*option),
            TelnetEvent::Wont(option) => TelnetEventView::Wont(*option),
            TelnetEvent::Subnegotiate(sub) => TelnetEventView::Subnegotiate(sub@),
            TelnetEvent::GoAhead => TelnetEventView::GoAhead,
            TelnetEvent::Nop => TelnetEventView::Nop,
        }
    }
}

impl TelnetEventView {
    /// The length in bytes of the event: the byte length of a message
    /// payload, 3 for a negotiation, 1 for a character, the framed length
    /// of a subnegotiation, and 5 for the signals.
    pub open spec fn spec_len(self) -> nat {
        match self {
            TelnetEventView::Message(message) => encode_utf8(message).len(),
            TelnetEventView::RawMessage(message) => encode_utf8(message).len(),
            TelnetEventView::Subnegotiate(sub) => 5 + sub.spec_len(),
            TelnetEventView::Character(_) => 1,
            TelnetEventView::Do(_) => 3,
            TelnetEventView::Will(_) => 3,
            TelnetEventView::Dont(_) => 3,
            TelnetEventView::Wont(_) => 3,
            _ => 5,
        }
    }
}

impl TelnetEvent {
    /// The length in bytes of the event.
    pub fn len(&self) -> (r: usize)
        requires
            self@.spec_len() <= usize::MAX,
        ensures
            r == self@.spec_len(),
    {
        match self {
            TelnetEvent::Message(message) => message.as_str().len(),
            TelnetEvent::RawMessage(message) => message.as_str().len(),
            TelnetEvent::Subnegotiate(subnegotiation) => {
                // The 5 counts IAC SB, the option byte, and IAC SE.
                5 + subnegotiation.len()
            },
            TelnetEvent::Character(_) => 1,
            TelnetEvent::Do(_) => 3,
            TelnetEvent::Will(_) => 3,
            TelnetEvent::Dont(_) => 3,
            TelnetEvent::Wont(_) => 3,
            _ => 5,
        }
    }

    /// True when the event has a length of 0.
    pub fn is_empty(&self) -> (r: bool)
        requires
            self@.spec_len() <= usize::MAX,
        ensures
            r == (self@.spec_len() == 0),
    {
        self.len() == 0
    }
}

} // verus!
