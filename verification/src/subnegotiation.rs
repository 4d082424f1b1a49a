//! Telnet subnegotiation events: window size, charset negotiation,
//! LINEMODE, NEW-ENVIRON, and opaque unknown options.

use vstd::prelude::*;

use crate::env::{spec_env_op_bytes, write_env_op, EnvironmentOperation, EnvironmentOperationView};
use crate::linemode::{Dispatch, ForwardMaskOption, ForwardMaskView};
use crate::option::TelnetOption;

verus! {

/// A structured Telnet subnegotiation.
#[derive(Debug, PartialEq, Eq)]
pub enum SubnegotiationType {
    /// A window size: width, then height, in characters.
    WindowSize(u16, u16),
    /// An intent to begin CHARSET subnegotiation, with the charsets offered.
    CharsetRequest(Vec<Vec<u8>>),
    /// The receiver accepted the named charset.
    CharsetAccepted(Vec<u8>),
    /// The receiver acknowledged the request but will use none of the
    /// charsets.
    CharsetRejected,
    /// The receiver acknowledged a TTABLE-IS message but cannot handle it.
    CharsetTTableRejected,
    /// A LINEMODE suboption.
    LineMode(LineModeOption),
    /// A NEW-ENVIRON operation.
    Environment(EnvironmentOperation),
    /// A subnegotiation for an option this library does not know, with its
    /// raw payload.
    Unknown(TelnetOption, Vec<u8>),
}

/// A LINEMODE suboption.
#[derive(Debug, PartialEq, Eq, Clone)]
pub enum LineModeOption {
    /// The MODE mask byte.
    Mode(u8),
    /// A list of SLC triples: a dispatch and the character assigned to it.
    SLC(Vec<(Dispatch, char)>),
    /// A forward-mask suboption.
    ForwardMask(ForwardMaskOption),
    /// A suboption this library does not know, with its raw payload.
    Unknown(u8, Vec<u8>),
}

/// The mathematical value of a [`LineModeOption`].
pub enum LineModeView {
    /// See [`LineModeOption::Mode`].
    Mode(u8),
    /// See [`LineModeOption::SLC`].
    SLC(Seq<(Dispatch, char)>),
    /// See [`LineModeOption::ForwardMask`].
    ForwardMask(ForwardMaskView),
    /// See [`LineModeOption::Unknown`].
    Unknown(u8, Seq<u8>),
}

impl View for LineModeOption {
    type V = LineModeView;

    open spec fn view(&self) -> LineModeView {
        match self {
            LineModeOption::Mode(mask) => LineModeView::Mode(*mask),
            LineModeOption::SLC(triples) => LineModeView::SLC(triples@),
            LineModeOption::ForwardMask(option) => LineModeView::ForwardMask(option@),
            LineModeOption::Unknown(byte, data) => LineModeView::Unknown(*byte, data@),
        }
    }
}

/// The mathematical value of a [`SubnegotiationType`].
pub enum SubnegotiationView {
    /// See [`SubnegotiationType::WindowSize`].
    WindowSize(u16, u16),
    /// See [`SubnegotiationType::CharsetRequest`].
    CharsetRequest(Seq<Seq<u8>>),
    /// See [`SubnegotiationType::CharsetAccepted`].
    CharsetAccepted(Seq<u8>),
    /// See [`SubnegotiationType::CharsetRejected`].
    CharsetRejected,
    /// See [`SubnegotiationType::CharsetTTableRejected`].
    CharsetTTableRejected,
    /// See [`SubnegotiationType::LineMode`].
    LineMode(LineModeView),
    /// See [`SubnegotiationType::Environment`].
    Environment(EnvironmentOperationView),
    /// See [`SubnegotiationType::Unknown`].
    Unknown(TelnetOption, Seq<u8>),
}

impl View for SubnegotiationType {
    type V = SubnegotiationView;

    open spec fn view(&self) -> SubnegotiationView {
        match self {
            SubnegotiationType::WindowSize(width, height) => SubnegotiationView::WindowSize(
                *width,
                *height,
            ),
            SubnegotiationType::CharsetRequest(charsets) => SubnegotiationView::CharsetRequest(
                charsets@.map_values(|c: Vec<u8>| c@),
            ),
            SubnegotiationType::CharsetAccepted(charset) => SubnegotiationView::CharsetAccepted(
                charset@,
            ),
            SubnegotiationType::CharsetRejected => SubnegotiationView::CharsetRejected,
            SubnegotiationType::CharsetTTableRejected => SubnegotiationView::CharsetTTableRejected,
            SubnegotiationType::LineMode(mode) => SubnegotiationView::LineMode(mode@),
            SubnegotiationType::Environment(op) => SubnegotiationView::Environment(op@),
            SubnegotiationType::Unknown(option, bytes) => SubnegotiationView::Unknown(
                *option,
                bytes@,
            ),
        }
    }
}

/// The summed length of a list of charset names.
pub open spec fn spec_charsets_len(charsets: Seq<Seq<u8>>) -> nat
    decreases charsets.len(),
{
    if charsets.len() == 0 {
        0
    } else {
        charsets[0].len() + spec_charsets_len(charsets.skip(1))
    }
}

impl SubnegotiationView {
    /// The length in bytes of the subnegotiation data: the payload between
    /// `IAC SB option` and `IAC SE`, counting unknown payloads and
    /// NEW-ENVIRON text before escaping.
    pub open spec fn spec_len(self) -> nat {
        match self {
            SubnegotiationView::WindowSize(_, _) => 4,
            SubnegotiationView::CharsetRequest(charsets) => spec_charsets_len(charsets)
                + charsets.len() + 1,
            SubnegotiationView::CharsetAccepted(charset) => charset.len() + 1,
            SubnegotiationView::CharsetRejected => 1,
            SubnegotiationView::CharsetTTableRejected => 1,
            SubnegotiationView::LineMode(mode) => match mode {
                LineModeView::SLC(triples) => triples.len() * 3 + 1,
                LineModeView::Mode(_) => 2,
                LineModeView::ForwardMask(ForwardMaskView::Do(_)) => 18,
                LineModeView::ForwardMask(_) => 2,
                LineModeView::Unknown(_, data) => 1 + data.len(),
            },
            SubnegotiationView::Environment(op) => spec_env_op_bytes(op).len(),
            SubnegotiationView::Unknown(_, bytes) => bytes.len(),
        }
    }
}

impl SubnegotiationType {
    /// The length in bytes of the subnegotiation data. This does _not_
    /// include the `IAC SB` and `IAC SE` frame, nor the single byte naming
    /// the option.
    pub fn len(&self) -> (r: usize)
        requires
            self@.spec_len() <= usize::MAX,
        ensures
            r == self@.spec_len(),
    {
        match self {
            SubnegotiationType::WindowSize(_, _) => 4,
            SubnegotiationType::CharsetRequest(charsets) => {
                let ghost views = charsets@.map_values(|c: Vec<u8>| c@);
                let mut len: usize = charsets.len();
                let mut i: usize = 0;
                proof {
                    assert(views.take(0) =~= Seq::<Seq<u8>>::empty());
                }
                while i < charsets.len()
                    invariant
                        i <= charsets@.len(),
                        charsets@.map_values(|c: Vec<u8>| c@) == views,
                        len == charsets@.len() + spec_charsets_len(views.take(i as int)),
                        spec_charsets_len(views) + views.len() + 1 <= usize::MAX,
                    decreases charsets@.len() - i,
                {
                    proof {
                        lemma_charsets_len_append(views.take(i as int), seq![views[i as int]]);
                        assert(views.take(i + 1) =~= views.take(i as int) + seq![
                            views[i as int],
                        ]);
                        assert(seq![views[i as int]].skip(1) =~= Seq::<Seq<u8>>::empty());
                        assert(spec_charsets_len(Seq::<Seq<u8>>::empty()) == 0);
                        assert(spec_charsets_len(seq![views[i as int]]) == views[i as int].len());
                        lemma_charsets_len_prefix(views, i + 1);
                    }
                    len = len + charsets[i].len();
                    i = i + 1;
                }
                proof {
                    assert(views.take(views.len() as int) =~= views);
                }
                len + 1
            },
            SubnegotiationType::CharsetAccepted(charset) => charset.len() + 1,
            SubnegotiationType::CharsetRejected => 1,
            SubnegotiationType::CharsetTTableRejected => 1,
            SubnegotiationType::LineMode(mode) => match mode {
                LineModeOption::SLC(triples) => triples.len() * 3 + 1,
                LineModeOption::Mode(_) => 2,
                LineModeOption::ForwardMask(ForwardMaskOption::Do(_)) => 18,
                LineModeOption::ForwardMask(_) => 2,
                LineModeOption::Unknown(_, data) => 1 + data.len(),
            },
            SubnegotiationType::Environment(op) => {
                let mut bytes: Vec<u8> = Vec::new();
                write_env_op(op, &mut bytes);
                proof {
                    assert(Seq::<u8>::empty() + spec_env_op_bytes(op@) =~= spec_env_op_bytes(
                        op@,
                    ));
                }
                bytes.len()
            },
            SubnegotiationType::Unknown(_, bytes) => bytes.len(),
        }
    }

    /// True when the subnegotiation data has a length of 0.
    pub fn is_empty(&self) -> (r: bool)
        requires
            self@.spec_len() <= usize::MAX,
        ensures
            r == (self@.spec_len() == 0),
    {
        self.len() == 0
    }
}

/// Summed charset length distributes over concatenation.
pub proof fn lemma_charsets_len_append(a: Seq<Seq<u8>>, b: Seq<Seq<u8>>)
    ensures
        spec_charsets_len(a + b) == spec_charsets_len(a) + spec_charsets_len(b),
    decreases a.len(),
{
    if a.len() == 0 {
        assert(a + b =~= b);
    } else {
        lemma_charsets_len_append(a.skip(1), b);
        assert((a + b).skip(1) =~= a.skip(1) + b);
        assert((a + b)[0] == a[0]);
    }
}

/// The summed length of a prefix never exceeds the summed length of the
/// whole list.
pub proof fn lemma_charsets_len_prefix(s: Seq<Seq<u8>>, i: int)
    requires
        0 <= i <= s.len(),
    ensures
        spec_charsets_len(s.take(i)) <= spec_charsets_len(s),
{
    lemma_charsets_len_append(s.take(i), s.skip(i));
    assert(s.take(i) + s.skip(i) =~= s);
}

} // verus!
