//! Telnet LINEMODE types: SLC functions, modifier bytes, and forward masks.

use vstd::prelude::*;

use crate::constants::{
    SLC_ABORT, SLC_ABORTC, SLC_ACK, SLC_AO, SLC_AYT, SLC_BRK, SLC_BRKC, SLC_DSUSPC, SLC_EC,
    SLC_EL, SLC_EOF, SLC_EOFCHAR, SLC_EOR, SLC_EORC, SLC_EW, SLC_EXIT, SLC_FLUSHIN, SLC_FLUSHOUT,
    SLC_FORW1, SLC_FORW2, SLC_IP, SLC_LEVELBITS, SLC_LNEXT, SLC_LP, SLC_MCL, SLC_MCR, SLC_MCUB,
    SLC_MCUF, SLC_MCWL, SLC_MCWR, SLC_REPRINT, SLC_RP, SLC_SUSP, SLC_SUSPC, SLC_SUSPCHAR,
    SLC_SYNCH, SLC_XOFF, SLC_XOFFC, SLC_XON, SLC_XONC, DO, DONT, WILL, WONT,
};

verus! {

/// The support level of an SLC function, carried in the low two bits of the
/// modifier byte.
#[derive(Debug, PartialEq, Copy, Clone, Eq, Structural)]
pub enum Level {
    /// The SLC function is not supported.
    NoSupport,
    /// The current setting of the SLC function cannot be changed.
    CantChange,
    /// The SLC function carries a specific, assigned value.
    Value,
    /// The default action applies to the SLC function.
    Default,
}

impl Level {
    /// The level named by the low two bits of a modifier byte.
    pub open spec fn spec_from_byte(value: u8) -> Level {
        if value & SLC_LEVELBITS == 0 {
            Level::NoSupport
        } else if value & SLC_LEVELBITS == 1 {
            Level::CantChange
        } else if value & SLC_LEVELBITS == 2 {
            Level::Value
        } else {
            Level::Default
        }
    }

    /// The two-bit value of this level.
    pub open spec fn spec_byte(self) -> u8 {
        match self {
            Level::NoSupport => 0,
            Level::CantChange => 1,
            Level::Value => 2,
            Level::Default => 3,
        }
    }

    /// Reads a level from the low two bits of a modifier byte.
    pub fn from_byte(value: u8) -> (r: Level)
        ensures
            r == Level::spec_from_byte(value),
    {
        let bits = value & SLC_LEVELBITS;
        if bits == 0 {
            Level::NoSupport
        } else if bits == 1 {
            Level::CantChange
        } else if bits == 2 {
            Level::Value
        } else {
            Level::Default
        }
    }

    /// Writes this level as its two-bit value.
    pub fn byte(self) -> (r: u8)
        ensures
            r == self.spec_byte(),
    {
        match self {
            Level::NoSupport => 0,
            Level::CantChange => 1,
            Level::Value => 2,
            Level::Default => 3,
        }
    }
}

/// The modifiers of an SLC function: its support level and three flag bits,
/// packed into a single byte on the wire (low two bits the level, bit 7
/// acknowledge, bit 6 flush input, bit 5 flush output).
#[derive(Debug, PartialEq, Copy, Clone, Eq, Structural)]
pub struct Modifiers {
    /// The support level of the SLC function.
    pub level: Level,
    /// The setting has been acknowledged.
    pub ack: bool,
    /// Queued input should be discarded.
    pub flush_in: bool,
    /// Queued output should be discarded.
    pub flush_out: bool,
}

impl Modifiers {
    /// The modifiers carried by a wire byte.
    pub open spec fn spec_from_byte(value: u8) -> Modifiers {
        Modifiers {
            level: Level::spec_from_byte(value),
            ack: value & SLC_ACK != 0,
            flush_in: value & SLC_FLUSHIN != 0,
            flush_out: value & SLC_FLUSHOUT != 0,
        }
    }

    /// The wire byte of these modifiers.
    pub open spec fn spec_byte(self) -> u8 {
        self.level.spec_byte() | (if self.ack {
            SLC_ACK
        } else {
            0
        }) | (if self.flush_in {
            SLC_FLUSHIN
        } else {
            0
        }) | (if self.flush_out {
            SLC_FLUSHOUT
        } else {
            0
        })
    }

    /// Reads modifiers from a wire byte.
    pub fn from_byte(value: u8) -> (r: Modifiers)
        ensures
            r == Modifiers::spec_from_byte(value),
    {
        Modifiers {
            level: Level::from_byte(value),
            ack: value & SLC_ACK != 0,
            flush_in: value & SLC_FLUSHIN != 0,
            flush_out: value & SLC_FLUSHOUT != 0,
        }
    }

    /// Writes these modifiers as a wire byte.
    pub fn byte(self) -> (r: u8)
        ensures
            r == self.spec_byte(),
    {
        let ack_bit: u8 = if self.ack {
            SLC_ACK
        } else {
            0
        };
        let flush_in_bit: u8 = if self.flush_in {
            SLC_FLUSHIN
        } else {
            0
        };
        let flush_out_bit: u8 = if self.flush_out {
            SLC_FLUSHOUT
        } else {
            0
        };
        self.level.byte() | ack_bit | flush_in_bit | flush_out_bit
    }
}

/// Modifiers survive a trip through their wire byte: writing modifiers and
/// reading the byte back yields the same modifiers.
pub proof fn lemma_modifiers_round_trip(m: Modifiers)
    ensures
        Modifiers::spec_from_byte(m.spec_byte()) == m,
{
    let l = m.level.spec_byte();
    let a: u8 = if m.ack { SLC_ACK } else { 0 };
    let fi: u8 = if m.flush_in { SLC_FLUSHIN } else { 0 };
    let fo: u8 = if m.flush_out { SLC_FLUSHOUT } else { 0 };
    let b = m.spec_byte();
    assert(b == l | a | fi | fo);
    assert((l | a | fi | fo) & 3 == l && (l | a | fi | fo) & 128 == a && (l | a | fi | fo) & 64
        == fi && (l | a | fi | fo) & 32 == fo) by (bit_vector)
        requires
            l < 4,
            a == 128 || a == 0,
            fi == 64 || fi == 0,
            fo == 32 || fo == 0,
    ;
    assert(SLC_LEVELBITS == 3 && SLC_ACK == 128 && SLC_FLUSHIN == 64 && SLC_FLUSHOUT == 32);
}

/// An SLC function paired with its modifiers: one entry of an SLC triple.
#[derive(Debug, PartialEq, Copy, Clone, Eq, Structural)]
pub struct Dispatch {
    /// The SLC function being configured.
    pub function: SlcFunction,
    /// How the function is supported, and its flag bits.
    pub modifiers: Modifiers,
}

impl Dispatch {
    /// The dispatch carried by a (function, modifiers) byte pair.
    pub open spec fn spec_from_bytes(function: u8, modifiers: u8) -> Dispatch {
        Dispatch {
            function: SlcFunction::spec_from_byte(function),
            modifiers: Modifiers::spec_from_byte(modifiers),
        }
    }

    /// Reads a dispatch from a (function, modifiers) byte pair.
    pub fn from_bytes(function: u8, modifiers: u8) -> (r: Dispatch)
        ensures
            r == Dispatch::spec_from_bytes(function, modifiers),
    {
        Dispatch {
            function: SlcFunction::from_byte(function),
            modifiers: Modifiers::from_byte(modifiers),
        }
    }

    /// Writes this dispatch as its (function, modifiers) byte pair.
    pub fn bytes(self) -> (r: (u8, u8))
        ensures
            r.0 == self.function.spec_byte(),
            r.1 == self.modifiers.spec_byte(),
    {
        (self.function.byte(), self.modifiers.byte())
    }
}

/// A forward-mask suboption of LINEMODE. Only `Do` carries a mask payload.
#[derive(Debug, PartialEq, Eq, Clone)]
pub enum ForwardMaskOption {
    /// Asks the other side to forward on the masked characters.
    Do(Vec<u8>),
    /// Withdraws a forward-mask request.
    Dont,
    /// Agrees to forward on the masked characters.
    Will,
    /// Refuses to forward on the masked characters.
    Wont,
    /// Any other introducing byte.
    Unknown(u8),
}

/// The mathematical value of a [`ForwardMaskOption`]: the mask as a byte
/// sequence.
pub enum ForwardMaskView {
    /// See [`ForwardMaskOption::Do`].
    Do(Seq<u8>),
    /// See [`ForwardMaskOption::Dont`].
    Dont,
    /// See [`ForwardMaskOption::Will`].
    Will,
    /// See [`ForwardMaskOption::Wont`].
    Wont,
    /// See [`ForwardMaskOption::Unknown`].
    Unknown(u8),
}

impl View for ForwardMaskOption {
    type V = ForwardMaskView;

    open spec fn view(&self) -> ForwardMaskView {
        match self {
            ForwardMaskOption::Do(mask) => ForwardMaskView::Do(mask@),
            ForwardMaskOption::Dont => ForwardMaskView::Dont,
            ForwardMaskOption::Will => ForwardMaskView::Will,
            ForwardMaskOption::Wont => ForwardMaskView::Wont,
            ForwardMaskOption::Unknown(byte) => ForwardMaskView::Unknown(*byte),
        }
    }
}

impl ForwardMaskView {
    /// The wire byte introducing this suboption. `Do` is written as DO.
    pub open spec fn spec_byte(self) -> u8 {
        match self {
            ForwardMaskView::Do(_) => DO,
            ForwardMaskView::Dont => DONT,
            ForwardMaskView::Will => WILL,
            ForwardMaskView::Wont => WONT,
            ForwardMaskView::Unknown(byte) => byte,
        }
    }
}

impl ForwardMaskOption {
    /// The empty-payload suboption named by a wire byte. DO maps to `Do`
    /// with an empty mask; the mask itself is read separately.
    pub open spec fn spec_from_byte(byte: u8) -> ForwardMaskView {
        if byte == WILL {
            ForwardMaskView::Will
        } else if byte == WONT {
            ForwardMaskView::Wont
        } else if byte == DONT {
            ForwardMaskView::Dont
        } else if byte == DO {
            ForwardMaskView::Do(Seq::empty())
        } else {
            ForwardMaskView::Unknown(byte)
        }
    }

    /// Reads the empty-payload suboption named by a wire byte.
    pub fn from_byte(byte: u8) -> (r: ForwardMaskOption)
        ensures
            r@ == ForwardMaskOption::spec_from_byte(byte),
    {
        if byte == WILL {
            ForwardMaskOption::Will
        } else if byte == WONT {
            ForwardMaskOption::Wont
        } else if byte == DONT {
            ForwardMaskOption::Dont
        } else if byte == DO {
            let r = ForwardMaskOption::Do(Vec::new());
            assert(r@ =~= ForwardMaskView::Do(Seq::empty()));
            r
        } else {
            ForwardMaskOption::Unknown(byte)
        }
    }

    /// Writes the introducing wire byte of this suboption.
    pub fn byte(&self) -> (r: u8)
        ensures
            r == self@.spec_byte(),
    {
        match self {
            ForwardMaskOption::Do(_) => DO,
            ForwardMaskOption::Dont => DONT,
            ForwardMaskOption::Will => WILL,
            ForwardMaskOption::Wont => WONT,
            ForwardMaskOption::Unknown(byte) => *byte,
        }
    }
}

/// A Special Linemode Character function (RFC 1184).
#[derive(Debug, PartialEq, Eq, Copy, Clone, Structural)]
pub enum SlcFunction {
    /// Synchronize: an urgent data stream follows.
    Synch,
    /// Break.
    Brk,
    /// Interrupt Process.
    Ip,
    /// Abort Output.
    Ao,
    /// Are You There.
    Ayt,
    /// End of Record.
    Eor,
    /// Abort.
    Abort,
    /// End of File.
    Eof,
    /// Suspend Process.
    Susp,
    /// Erase Character.
    Ec,
    /// Erase Line.
    El,
    /// Erase Word.
    Ew,
    /// Repaint the current line.
    Rp,
    /// Literal Next: the next character is literal input.
    Lnext,
    /// Resume transmission.
    Xon,
    /// Pause transmission.
    Xoff,
    /// Forward Character.
    Forw1,
    /// Forward Line.
    Forw2,
    /// Move Cursor Left.
    Mcl,
    /// Move Cursor Right.
    Mcr,
    /// Move Cursor Word Left.
    Mcwl,
    /// Move Cursor Word Right.
    Mcwr,
    /// Move Cursor Up One Line.
    Mcub,
    /// Move Cursor Down One Line.
    Mcuf,
    /// Local Print.
    Lp,
    /// The character used to resume transmission.
    Xonc,
    /// The character used to pause transmission.
    Xoffc,
    /// Exit.
    Exit,
    /// Suspend the current process.
    Suspc,
    /// Suspend the current process with a delay.
    Dsuspc,
    /// Reprint unread input.
    Reprint,
    /// Abort Output Character.
    Abortc,
    /// End of File Character.
    Eofchar,
    /// Suspend Process Character.
    Suspchar,
    /// Break Character.
    Brkc,
    /// End of Record Character.
    Eorc,
    /// Any SLC function code this library does not know by name.
    Unknown(u8),
}

impl SlcFunction {
    /// The SLC function named by a wire byte.
    pub open spec fn spec_from_byte(value: u8) -> SlcFunction {
        if value == SLC_SYNCH {
            SlcFunction::Synch
        } else if value == SLC_BRK {
            SlcFunction::Brk
        } else if value == SLC_IP {
            SlcFunction::Ip
        } else if value == SLC_AO {
            SlcFunction::Ao
        } else if value == SLC_AYT {
            SlcFunction::Ayt
        } else if value == SLC_EOR {
            SlcFunction::Eor
        } else if value == SLC_ABORT {
            SlcFunction::Abort
        } else if value == SLC_EOF {
            SlcFunction::Eof
        } else if value == SLC_SUSP {
            SlcFunction::Susp
        } else if value == SLC_EC {
            SlcFunction::Ec
        } else if value == SLC_EL {
            SlcFunction::El
        } else if value == SLC_EW {
            SlcFunction::Ew
        } else if value == SLC_RP {
            SlcFunction::Rp
        } else if value == SLC_LNEXT {
            SlcFunction::Lnext
        } else if value == SLC_XON {
            SlcFunction::Xon
        } else if value == SLC_XOFF {
            SlcFunction::Xoff
        } else if value == SLC_FORW1 {
            SlcFunction::Forw1
        } else if value == SLC_FORW2 {
            SlcFunction::Forw2
        } else if value == SLC_MCL {
            SlcFunction::Mcl
        } else if value == SLC_MCR {
            SlcFunction::Mcr
        } else if value == SLC_MCWL {
            SlcFunction::Mcwl
        } else if value == SLC_MCWR {
            SlcFunction::Mcwr
        } else if value == SLC_MCUB {
            SlcFunction::Mcub
        } else if value == SLC_MCUF {
            SlcFunction::Mcuf
        } else if value == SLC_LP {
            SlcFunction::Lp
        } else if value == SLC_XONC {
            SlcFunction::Xonc
        } else if value == SLC_XOFFC {
            SlcFunction::Xoffc
        } else if value == SLC_EXIT {
            SlcFunction::Exit
        } else if value == SLC_SUSPC {
            SlcFunction::Suspc
        } else if value == SLC_DSUSPC {
            SlcFunction::Dsuspc
        } else if value == SLC_REPRINT {
            SlcFunction::Reprint
        } else if value == SLC_ABORTC {
            SlcFunction::Abortc
        } else if value == SLC_EOFCHAR {
            SlcFunction::Eofchar
        } else if value == SLC_SUSPCHAR {
            SlcFunction::Suspchar
        } else if value == SLC_BRKC {
            SlcFunction::Brkc
        } else if value == SLC_EORC {
            SlcFunction::Eorc
        } else {
            SlcFunction::Unknown(value)
        }
    }

    /// The wire byte of this SLC function.
    pub open spec fn spec_byte(self) -> u8 {
        match self {
            SlcFunction::Synch => SLC_SYNCH,
            SlcFunction::Brk => SLC_BRK,
            SlcFunction::Ip => SLC_IP,
            SlcFunction::Ao => SLC_AO,
            SlcFunction::Ayt => SLC_AYT,
            SlcFunction::Eor => SLC_EOR,
            SlcFunction::Abort => SLC_ABORT,
            SlcFunction::Eof => SLC_EOF,
            SlcFunction::Susp => SLC_SUSP,
            SlcFunction::Ec => SLC_EC,
            SlcFunction::El => SLC_EL,
            SlcFunction::Ew => SLC_EW,
            SlcFunction::Rp => SLC_RP,
            SlcFunction::Lnext => SLC_LNEXT,
            SlcFunction::Xon => SLC_XON,
            SlcFunction::Xoff => SLC_XOFF,
            SlcFunction::Forw1 => SLC_FORW1,
            SlcFunction::Forw2 => SLC_FORW2,
            SlcFunction::Mcl => SLC_MCL,
            SlcFunction::Mcr => SLC_MCR,
            SlcFunction::Mcwl => SLC_MCWL,
            SlcFunction::Mcwr => SLC_MCWR,
            SlcFunction::Mcub => SLC_MCUB,
            SlcFunction::Mcuf => SLC_MCUF,
            SlcFunction::Lp => SLC_LP,
            SlcFunction::Xonc => SLC_XONC,
            SlcFunction::Xoffc => SLC_XOFFC,
            SlcFunction::Exit => SLC_EXIT,
            SlcFunction::Suspc => SLC_SUSPC,
            SlcFunction::Dsuspc => SLC_DSUSPC,
            SlcFunction::Reprint => SLC_REPRINT,
            SlcFunction::Abortc => SLC_ABORTC,
            SlcFunction::Eofchar => SLC_EOFCHAR,
            SlcFunction::Suspchar => SLC_SUSPCHAR,
            SlcFunction::Brkc => SLC_BRKC,
            SlcFunction::Eorc => SLC_EORC,
            SlcFunction::Unknown(value) => value,
        }
    }

    /// An `Unknown` value is in canonical form only when its byte has no
    /// name.
    pub open spec fn is_canonical(self) -> bool {
        self == SlcFunction::spec_from_byte(self.spec_byte())
    }

    /// Reads an SLC function from its wire byte.
    pub fn from_byte(value: u8) -> (r: SlcFunction)
        ensures
            r == SlcFunction::spec_from_byte(value),
    {
        match value {
            SLC_SYNCH => SlcFunction::Synch,
            SLC_BRK => SlcFunction::Brk,
            SLC_IP => SlcFunction::Ip,
            SLC_AO => SlcFunction::Ao,
            SLC_AYT => SlcFunction::Ayt,
            SLC_EOR => SlcFunction::Eor,
            SLC_ABORT => SlcFunction::Abort,
            SLC_EOF => SlcFunction::Eof,
            SLC_SUSP => SlcFunction::Susp,
            SLC_EC => SlcFunction::Ec,
            SLC_EL => SlcFunction::El,
            SLC_EW => SlcFunction::Ew,
            SLC_RP => SlcFunction::Rp,
            SLC_LNEXT => SlcFunction::Lnext,
            SLC_XON => SlcFunction::Xon,
            SLC_XOFF => SlcFunction::Xoff,
            SLC_FORW1 => SlcFunction::Forw1,
            SLC_FORW2 => SlcFunction::Forw2,
            SLC_MCL => SlcFunction::Mcl,
            SLC_MCR => SlcFunction::Mcr,
            SLC_MCWL => SlcFunction::Mcwl,
            SLC_MCWR => SlcFunction::Mcwr,
            SLC_MCUB => SlcFunction::Mcub,
            SLC_MCUF => SlcFunction::Mcuf,
            SLC_LP => SlcFunction::Lp,
            SLC_XONC => SlcFunction::Xonc,
            SLC_XOFFC => SlcFunction::Xoffc,
            SLC_EXIT => SlcFunction::Exit,
            SLC_SUSPC => SlcFunction::Suspc,
            SLC_DSUSPC => SlcFunction::Dsuspc,
            SLC_REPRINT => SlcFunction::Reprint,
            SLC_ABORTC => SlcFunction::Abortc,
            SLC_EOFCHAR => SlcFunction::Eofchar,
            SLC_SUSPCHAR => SlcFunction::Suspchar,
            SLC_BRKC => SlcFunction::Brkc,
            SLC_EORC => SlcFunction::Eorc,
            _ => SlcFunction::Unknown(value),
        }
    }

    /// Writes this SLC function as its wire byte.
    pub fn byte(self) -> (r: u8)
        ensures
            r == self.spec_byte(),
    {
        match self {
            SlcFunction::Synch => SLC_SYNCH,
            SlcFunction::Brk => SLC_BRK,
            SlcFunction::Ip => SLC_IP,
            SlcFunction::Ao => SLC_AO,
            SlcFunction::Ayt => SLC_AYT,
            SlcFunction::Eor => SLC_EOR,
            SlcFunction::Abort => SLC_ABORT,
            SlcFunction::Eof => SLC_EOF,
            SlcFunction::Susp => SLC_SUSP,
            SlcFunction::Ec => SLC_EC,
            SlcFunction::El => SLC_EL,
            SlcFunction::Ew => SLC_EW,
            SlcFunction::Rp => SLC_RP,
            SlcFunction::Lnext => SLC_LNEXT,
            SlcFunction::Xon => SLC_XON,
            SlcFunction::Xoff => SLC_XOFF,
            SlcFunction::Forw1 => SLC_FORW1,
            SlcFunction::Forw2 => SLC_FORW2,
            SlcFunction::Mcl => SLC_MCL,
            SlcFunction::Mcr => SLC_MCR,
            SlcFunction::Mcwl => SLC_MCWL,
            SlcFunction::Mcwr => SLC_MCWR,
            SlcFunction::Mcub => SLC_MCUB,
            SlcFunction::Mcuf => SLC_MCUF,
            SlcFunction::Lp => SLC_LP,
            SlcFunction::Xonc => SLC_XONC,
            SlcFunction::Xoffc => SLC_XOFFC,
            SlcFunction::Exit => SLC_EXIT,
            SlcFunction::Suspc => SLC_SUSPC,
            SlcFunction::Dsuspc => SLC_DSUSPC,
            SlcFunction::Reprint => SLC_REPRINT,
            SlcFunction::Abortc => SLC_ABORTC,
            SlcFunction::Eofchar => SLC_EOFCHAR,
            SlcFunction::Suspchar => SLC_SUSPCHAR,
            SlcFunction::Brkc => SLC_BRKC,
            SlcFunction::Eorc => SLC_EORC,
            SlcFunction::Unknown(value) => value,
        }
    }
}

/// Every byte names exactly one SLC function: reading a function from a byte
/// and writing it back yields the byte again.
pub proof fn lemma_slc_byte_round_trip(byte: u8)
    ensures
        SlcFunction::spec_from_byte(byte).spec_byte() == byte,
{
}

} // verus!
