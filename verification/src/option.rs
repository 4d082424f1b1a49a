//! Telnet options such as `Echo`, `GoAhead`, and `SuppressGoAhead`.

use vstd::prelude::*;

use crate::constants::{CHARSET, ECHO, GA, GMCP, MCCP2, MSP, MSSP, MXP, SGA, TELOPT_EOR};

verus! {

/// A Telnet option named in a negotiation or a subnegotiation.
#[derive(Debug, Copy, Clone, PartialEq, Eq, Structural)]
pub enum TelnetOption {
    /// Echo a message back to the other side.
    Echo,
    /// The receiver may now send data (half-duplex turn-around).
    GoAhead,
    /// The stream is bi-directional; no Go Ahead markers are needed.
    SuppressGoAhead,
    /// Negotiates how End Of Record is marked on the stream.
    EndOfRecord,
    /// Charset negotiation.
    Charset,
    /// Mud Client Compression Protocol, version 2.
    MCCP2,
    /// Generic Mud Communication Protocol.
    GMCP,
    /// Mud Server Status Protocol.
    MSSP,
    /// Mud Sound Protocol.
    MSP,
    /// Mud eXtension Protocol.
    MXP,
    /// Any option byte this library does not know by name.
    Unknown(u8),
}

impl TelnetOption {
    /// The option named by the given wire byte.
    pub open spec fn spec_from_byte(byte: u8) -> TelnetOption {
        if byte == ECHO {
            TelnetOption::Echo
        } else if byte == GA {
            TelnetOption::GoAhead
        } else if byte == SGA {
            TelnetOption::SuppressGoAhead
        } else if byte == TELOPT_EOR {
            TelnetOption::EndOfRecord
        } else if byte == CHARSET {
            TelnetOption::Charset
        } else if byte == MCCP2 {
            TelnetOption::MCCP2
        } else if byte == GMCP {
            TelnetOption::GMCP
        } else if byte == MSSP {
            TelnetOption::MSSP
        } else if byte == MSP {
            TelnetOption::MSP
        } else if byte == MXP {
            TelnetOption::MXP
        } else {
            TelnetOption::Unknown(byte)
        }
    }

    /// The wire byte of this option.
    pub open spec fn spec_byte(self) -> u8 {
        match self {
            TelnetOption::Echo => ECHO,
            TelnetOption::GoAhead => GA,
            TelnetOption::SuppressGoAhead => SGA,
            TelnetOption::EndOfRecord => TELOPT_EOR,
            TelnetOption::Charset => CHARSET,
            TelnetOption::MCCP2 => MCCP2,
            TelnetOption::GMCP => GMCP,
            TelnetOption::MSSP => MSSP,
            TelnetOption::MSP => MSP,
            TelnetOption::MXP => MXP,
            TelnetOption::Unknown(byte) => byte,
        }
    }

    /// An `Unknown` value is in canonical form only when its byte has no name.
    pub open spec fn is_canonical(self) -> bool {
        self == TelnetOption::spec_from_byte(self.spec_byte())
    }

    /// Reads an option from its wire byte.
    pub fn from_byte(byte: u8) -> (r: TelnetOption)
        ensures
            r == TelnetOption::spec_from_byte(byte),
    {
        if byte == ECHO {
            TelnetOption::Echo
        } else if byte == GA {
            TelnetOption::GoAhead
        } else if byte == SGA {
            TelnetOption::SuppressGoAhead
        } else if byte == TELOPT_EOR {
            TelnetOption::EndOfRecord
        } else if byte == CHARSET {
            TelnetOption::Charset
        } else if byte == MCCP2 {
            TelnetOption::MCCP2
        } else if byte == GMCP {
            TelnetOption::GMCP
        } else if byte == MSSP {
            TelnetOption::MSSP
        } else if byte == MSP {
            TelnetOption::MSP
        } else if byte == MXP {
            TelnetOption::MXP
        } else {
            TelnetOption::Unknown(byte)
        }
    }

    /// Writes this option as its wire byte.
    pub fn byte(self) -> (r: u8)
        ensures
            r == self.spec_byte(),
    {
        match self {
            TelnetOption::Echo => ECHO,
            TelnetOption::GoAhead => GA,
            TelnetOption::SuppressGoAhead => SGA,
            TelnetOption::EndOfRecord => TELOPT_EOR,
            TelnetOption::Charset => CHARSET,
            TelnetOption::MCCP2 => MCCP2,
            TelnetOption::GMCP => GMCP,
            TelnetOption::MSSP => MSSP,
            TelnetOption::MSP => MSP,
            TelnetOption::MXP => MXP,
            TelnetOption::Unknown(byte) => byte,
        }
    }
}

/// Every byte names exactly one option: reading an option from a byte and
/// writing it back yields the byte again.
pub proof fn lemma_option_byte_round_trip(byte: u8)
    ensures
        TelnetOption::spec_from_byte(byte).spec_byte() == byte,
{
}

/// An option read from the wire is always in canonical form, so writing it
/// and reading it back yields the same option.
pub proof fn lemma_option_canonical_round_trip(option: TelnetOption)
    requires
        option.is_canonical(),
    ensures
        TelnetOption::spec_from_byte(option.spec_byte()) == option,
{
}

} // verus!
