//! Byte values of the Telnet protocol and its extensions.

use vstd::prelude::*;

verus! {

/// Echo a message back to the other side (RFC 857).
pub const ECHO: u8 = 1;

/// Go Ahead: the receiver may now send data.
pub const GA: u8 = 249;

/// Suppress Go Ahead (RFC 858).
pub const SGA: u8 = 3;

/// Interpret As Command: the in-band escape byte.
pub const IAC: u8 = 255;

/// Subnegotiation Begin.
pub const SB: u8 = 250;

/// Negotiate About Window Size (RFC 1073).
pub const NAWS: u8 = 31;

/// Subnegotiation End.
pub const SE: u8 = 240;

/// Erase Line.
pub const EL: u8 = 248;

/// No Operation.
pub const NOP: u8 = 241;

/// The NUL byte.
pub const NULL: u8 = 0;

/// Carriage Return.
pub const CR: u8 = 13;

/// Line Feed.
pub const LF: u8 = 10;

/// Linemode option (RFC 1184).
pub const LINEMODE: u8 = 34;

/// LINEMODE suboption MODE.
pub const MODE: u8 = 1;

/// LINEMODE suboption SLC (Special Linemode Characters).
pub const LINEMODE_SLC: u8 = 3;

/// LINEMODE forward-mask suboption, sent after DO/DONT/WILL/WONT.
pub const LINEMODE_FORWARD_MASK: u8 = 2;

/// LINEMODE MODE flag: the client edits complete lines locally.
pub const LINEMODE_EDIT: u8 = 1;

/// LINEMODE MODE flag: the client translates signals to their Telnet forms.
pub const LINEMODE_TRAPSIG: u8 = 2;

/// Will perform the indicated option.
pub const WILL: u8 = 251;

/// Refuses to perform the indicated option.
pub const WONT: u8 = 252;

/// Requests that the other party perform the indicated option.
pub const DO: u8 = 253;

/// Demands that the other party stop performing the indicated option.
pub const DONT: u8 = 254;

/// End of Record negotiation (RFC 885).
pub const TELOPT_EOR: u8 = 25;

/// STATUS: verify the current status of options (RFC 859).
pub const STATUS: u8 = 5;

/// TIMING MARK (RFC 860).
pub const TIMING_MARK: u8 = 6;

/// Remote flow control (RFC 1372).
pub const REMOTE_FLOW_CONTROL: u8 = 33;

/// End of Record marker.
pub const EOR: u8 = 239;

/// Mud Server Status Protocol.
pub const MSSP: u8 = 70;

/// Mud Client Compression Protocol, version 2.
pub const MCCP2: u8 = 86;

/// Mud Sound Protocol.
pub const MSP: u8 = 90;

/// Mud eXtension Protocol.
pub const MXP: u8 = 91;

/// Generic Mud Communication Protocol.
pub const GMCP: u8 = 201;

/// CHARSET negotiation (RFC 2066).
pub const CHARSET: u8 = 42;

/// CHARSET subcommand: request a list of charsets.
pub const CHARSET_REQUEST: u8 = 1;

/// CHARSET subcommand: a charset was accepted.
pub const CHARSET_ACCEPTED: u8 = 2;

/// CHARSET subcommand: the request was rejected.
pub const CHARSET_REJECTED: u8 = 3;

/// CHARSET subcommand: a translation table follows.
pub const CHARSET_TTABLE_IS: u8 = 4;

/// CHARSET subcommand: the translation table was rejected.
pub const CHARSET_TTABLE_REJECTED: u8 = 5;

/// CHARSET subcommand: the translation table was acknowledged.
pub const CHARSET_TTABLE_ACK: u8 = 6;

/// CHARSET subcommand: the translation table was refused.
pub const CHARSET_TTABLE_NAK: u8 = 7;

/// SLC level: take the default action for this function.
pub const SLC_DEFAULT: u8 = 3;

/// SLC level: a specific value is assigned to this function.
pub const SLC_VALUE: u8 = 2;

/// SLC level: the current setting cannot be changed.
pub const SLC_CANTCHANGE: u8 = 1;

/// SLC level: the function is not supported.
pub const SLC_NOSUPPORT: u8 = 0;

/// Mask isolating the level bits of an SLC modifier byte.
pub const SLC_LEVELBITS: u8 = 3;

/// SLC modifier flag: acknowledge the setting.
pub const SLC_ACK: u8 = 128;

/// SLC modifier flag: flush queued input.
pub const SLC_FLUSHIN: u8 = 64;

/// SLC modifier flag: flush queued output.
pub const SLC_FLUSHOUT: u8 = 32;

/// SLC function: Synchronize.
pub const SLC_SYNCH: u8 = 1;

/// SLC function: Break.
pub const SLC_BRK: u8 = 2;

/// SLC function: Interrupt Process.
pub const SLC_IP: u8 = 3;

/// SLC function: Abort Output.
pub const SLC_AO: u8 = 4;

/// SLC function: Are You There.
pub const SLC_AYT: u8 = 5;

/// SLC function: End of Record.
pub const SLC_EOR: u8 = 6;

/// SLC function: Abort.
pub const SLC_ABORT: u8 = 7;

/// SLC function: End of File.
pub const SLC_EOF: u8 = 8;

/// SLC function: Suspend Process.
pub const SLC_SUSP: u8 = 9;

/// SLC function: Erase Character.
pub const SLC_EC: u8 = 10;

/// SLC function: Erase Line.
pub const SLC_EL: u8 = 11;

/// SLC function: Erase Word.
pub const SLC_EW: u8 = 12;

/// SLC function: Repaint.
pub const SLC_RP: u8 = 13;

/// SLC function: Literal Next.
pub const SLC_LNEXT: u8 = 14;

/// SLC function: Resume Transmission.
pub const SLC_XON: u8 = 15;

/// SLC function: Stop Transmission.
pub const SLC_XOFF: u8 = 16;

/// SLC function: Forward Character.
pub const SLC_FORW1: u8 = 17;

/// SLC function: Forward Line.
pub const SLC_FORW2: u8 = 18;

/// SLC function: Move Cursor Left.
pub const SLC_MCL: u8 = 19;

/// SLC function: Move Cursor Right.
pub const SLC_MCR: u8 = 20;

/// SLC function: Move Cursor Word Left.
pub const SLC_MCWL: u8 = 21;

/// SLC function: Move Cursor Word Right.
pub const SLC_MCWR: u8 = 22;

/// SLC function: Move Cursor Up One Line.
pub const SLC_MCUB: u8 = 23;

/// SLC function: Move Cursor Down One Line.
pub const SLC_MCUF: u8 = 24;

/// SLC function: Local Print.
pub const SLC_LP: u8 = 25;

/// SLC function: XON Character.
pub const SLC_XONC: u8 = 26;

/// SLC function: XOFF Character.
pub const SLC_XOFFC: u8 = 27;

/// SLC function: Exit.
pub const SLC_EXIT: u8 = 28;

/// SLC function: Suspend Current Process.
pub const SLC_SUSPC: u8 = 29;

/// SLC function: Delayed Suspend Current Process.
pub const SLC_DSUSPC: u8 = 30;

/// SLC function: Reprint Unread Input.
pub const SLC_REPRINT: u8 = 31;

/// SLC function: Abort Output Character.
pub const SLC_ABORTC: u8 = 32;

/// SLC function: End of File Character.
pub const SLC_EOFCHAR: u8 = 33;

/// SLC function: Suspend Process Character.
pub const SLC_SUSPCHAR: u8 = 34;

/// SLC function: Break Character.
pub const SLC_BRKC: u8 = 35;

/// SLC function: End of Record Character.
pub const SLC_EORC: u8 = 36;

/// Negotiate About Environment Variables (RFC 1572).
pub const ENVIRON: u8 = 39;

/// NEW-ENVIRON operation: variable definitions follow.
pub const ENV_IS: u8 = 0;

/// NEW-ENVIRON operation: request to send environment variables.
pub const ENV_SEND: u8 = 1;

/// NEW-ENVIRON operation: notification of a variable change.
pub const ENV_INFO: u8 = 2;

/// NEW-ENVIRON tag: a well-known variable name follows.
pub const ENV_VAR: u8 = 0;

/// NEW-ENVIRON tag: a variable value follows.
pub const ENV_VALUE: u8 = 1;

/// NEW-ENVIRON tag: the next byte is literal data.
pub const ENV_ESC: u8 = 2;

/// NEW-ENVIRON tag: a user-defined variable name follows.
pub const ENV_USERVAR: u8 = 3;

/// Binary Transmission (RFC 856).
pub const BINARY: u8 = 0;

} // verus!
