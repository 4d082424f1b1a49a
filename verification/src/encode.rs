//! Builds the wire bytes of Telnet events: negotiations, subnegotiation
//! frames, and messages with their `IAC` doubling.

use vstd::prelude::*;
use vstd::utf8::encode_utf8;

use crate::constants::{
    CHARSET, CHARSET_ACCEPTED, CHARSET_REJECTED, CHARSET_REQUEST, CHARSET_TTABLE_REJECTED, CR, DO,
    DONT, ENVIRON, IAC, LF, LINEMODE, LINEMODE_FORWARD_MASK, LINEMODE_SLC, MODE, NAWS, SB, SE,
    WILL, WONT,
};
use crate::env::{spec_env_op_bytes, write_env_op};
use crate::event::{TelnetEvent, TelnetEventView};
use crate::linemode::{ForwardMaskOption, ForwardMaskView};
use crate::option::TelnetOption;
use crate::subnegotiation::{
    LineModeOption, LineModeView, SubnegotiationType, SubnegotiationView,
};

verus! {

/// The given bytes with every `IAC` doubled.
pub open spec fn spec_escape_iac(s: Seq<u8>) -> Seq<u8>
    decreases s.len(),
{
    if s.len() == 0 {
        Seq::empty()
    } else if s[0] == IAC {
        seq![IAC, IAC] + spec_escape_iac(s.skip(1))
    } else {
        seq![s[0]] + spec_escape_iac(s.skip(1))
    }
}

/// `IAC` doubling distributes over concatenation.
pub proof fn lemma_escape_iac_append(a: Seq<u8>, b: Seq<u8>)
    ensures
        spec_escape_iac(a + b) == spec_escape_iac(a) + spec_escape_iac(b),
    decreases a.len(),
{
    if a.len() == 0 {
        assert(a + b =~= b);
        assert(spec_escape_iac(a) + spec_escape_iac(b) =~= spec_escape_iac(b));
    } else {
        lemma_escape_iac_append(a.skip(1), b);
        assert((a + b).skip(1) =~= a.skip(1) + b);
        assert((a + b)[0] == a[0]);
        assert(spec_escape_iac(a + b) =~= spec_escape_iac(a) + spec_escape_iac(b));
    }
}

/// Appends the given bytes to `out` with every `IAC` doubled.
pub fn write_escaped_iac(data: &[u8], out: &mut Vec<u8>)
    ensures
        final(out)@ == old(out)@ + spec_escape_iac(data@),
{
    let ghost base = out@;
    let mut i: usize = 0;
    proof {
        assert(data@.take(0) =~= Seq::<u8>::empty());
        assert(base + Seq::<u8>::empty() =~= base);
    }
    while i < data.len()
        invariant
            i <= data@.len(),
            out@ == base + spec_escape_iac(data@.take(i as int)),
        decreases data@.len() - i,
    {
        let b = data[i];
        if b == IAC {
            out.push(IAC);
            out.push(IAC);
        } else {
            out.push(b);
        }
        proof {
            assert(data@.take(i + 1) =~= data@.take(i as int) + seq![data@[i as int]]);
            lemma_escape_iac_append(data@.take(i as int), seq![data@[i as int]]);
            assert(seq![data@[i as int]].skip(1) =~= Seq::<u8>::empty());
            assert(spec_escape_iac(Seq::<u8>::empty()) =~= Seq::<u8>::empty());
            if b == IAC {
                assert(spec_escape_iac(seq![data@[i as int]]) =~= seq![IAC, IAC]);
            } else {
                assert(spec_escape_iac(seq![data@[i as int]]) =~= seq![data@[i as int]]);
            }
            assert(out@ =~= base + spec_escape_iac(data@.take(i + 1)));
        }
        i = i + 1;
    }
    proof {
        assert(data@.take(data@.len() as int) =~= data@);
    }
}

/// Charset names joined by the separator placed after the first, as the
/// tail of a `REQUEST` payload: each name after the first is preceded by
/// one separator byte.
pub open spec fn spec_join_tail(charsets: Seq<Seq<u8>>, sep: u8) -> Seq<u8>
    decreases charsets.len(),
{
    if charsets.len() == 0 {
        Seq::empty()
    } else {
        seq![sep] + charsets[0] + spec_join_tail(charsets.skip(1), sep)
    }
}

/// Charset names joined by a separator byte.
pub open spec fn spec_join_charsets(charsets: Seq<Seq<u8>>, sep: u8) -> Seq<u8> {
    if charsets.len() == 0 {
        Seq::empty()
    } else {
        charsets[0] + spec_join_tail(charsets.skip(1), sep)
    }
}

/// Joining distributes over appending one more name to the tail.
pub proof fn lemma_join_tail_append(a: Seq<Seq<u8>>, x: Seq<u8>, sep: u8)
    ensures
        spec_join_tail(a.push(x), sep) == spec_join_tail(a, sep) + seq![sep] + x,
    decreases a.len(),
{
    if a.len() == 0 {
        assert(a.push(x).skip(1) =~= Seq::<Seq<u8>>::empty());
        assert(spec_join_tail(Seq::<Seq<u8>>::empty(), sep) =~= Seq::<u8>::empty());
        assert(spec_join_tail(a.push(x), sep) =~= spec_join_tail(a, sep) + seq![sep] + x);
    } else {
        lemma_join_tail_append(a.skip(1), x, sep);
        assert(a.push(x).skip(1) =~= a.skip(1).push(x));
        assert(a.push(x)[0] == a[0]);
        assert(spec_join_tail(a.push(x), sep) =~= spec_join_tail(a, sep) + seq![sep] + x);
    }
}

/// The wire byte naming the option of a subnegotiation.
pub open spec fn spec_sub_option_byte(sub: SubnegotiationView) -> u8 {
    match sub {
        SubnegotiationView::WindowSize(_, _) => NAWS,
        SubnegotiationView::CharsetRequest(_) => CHARSET,
        SubnegotiationView::CharsetAccepted(_) => CHARSET,
        SubnegotiationView::CharsetRejected => CHARSET,
        SubnegotiationView::CharsetTTableRejected => CHARSET,
        SubnegotiationView::LineMode(_) => LINEMODE,
        SubnegotiationView::Environment(_) => ENVIRON,
        SubnegotiationView::Unknown(option, _) => option.spec_byte(),
    }
}

/// A forward mask brought to exactly 16 bytes: truncated, or padded with
/// zeros.
pub open spec fn spec_fmask_bytes(mask: Seq<u8>) -> Seq<u8> {
    if mask.len() >= 16 {
        mask.take(16)
    } else {
        mask + Seq::new((16 - mask.len()) as nat, |i: int| 0u8)
    }
}

/// The wire bytes of a list of SLC triples: function byte, modifier byte,
/// and the character truncated to a byte.
pub open spec fn spec_slc_bytes(triples: Seq<(crate::linemode::Dispatch, char)>) -> Seq<u8>
    decreases triples.len(),
{
    if triples.len() == 0 {
        Seq::empty()
    } else {
        let d = triples[0].0;
        seq![d.function.spec_byte(), d.modifiers.spec_byte(), (triples[0].1 as u32) as u8]
            + spec_slc_bytes(triples.skip(1))
    }
}

/// SLC encoding distributes over appending one more triple.
pub proof fn lemma_slc_bytes_append(a: Seq<(crate::linemode::Dispatch, char)>, x: (
    crate::linemode::Dispatch,
    char,
))
    ensures
        spec_slc_bytes(a.push(x)) == spec_slc_bytes(a) + seq![
            x.0.function.spec_byte(),
            x.0.modifiers.spec_byte(),
            (x.1 as u32) as u8,
        ],
    decreases a.len(),
{
    if a.len() == 0 {
        assert(a.push(x).skip(1) =~= Seq::<(crate::linemode::Dispatch, char)>::empty());
        assert(spec_slc_bytes(Seq::<(crate::linemode::Dispatch, char)>::empty()) =~= Seq::<
            u8,
        >::empty());
        assert(a.push(x)[0] == x);
        assert(spec_slc_bytes(a.push(x)) =~= spec_slc_bytes(a) + seq![
            x.0.function.spec_byte(),
            x.0.modifiers.spec_byte(),
            (x.1 as u32) as u8,
        ]);
    } else {
        lemma_slc_bytes_append(a.skip(1), x);
        assert(a.push(x).skip(1) =~= a.skip(1).push(x));
        assert(a.push(x)[0] == a[0]);
        assert(spec_slc_bytes(a.push(x)) =~= spec_slc_bytes(a) + seq![
            x.0.function.spec_byte(),
            x.0.modifiers.spec_byte(),
            (x.1 as u32) as u8,
        ]);
    }
}

/// The payload of a subnegotiation: the bytes between `IAC SB option` and
/// `IAC SE` as the encoder writes them. Only `Unknown` payloads have their
/// `IAC` bytes doubled; NEW-ENVIRON text carries its own escaping.
pub open spec fn spec_sub_payload(sub: SubnegotiationView) -> Seq<u8> {
    match sub {
        SubnegotiationView::WindowSize(width, height) => seq![
            (width / 256) as u8,
            (width % 256) as u8,
            (height / 256) as u8,
            (height % 256) as u8,
        ],
        SubnegotiationView::CharsetRequest(charsets) => seq![CHARSET_REQUEST, 32u8]
            + spec_join_charsets(charsets, 32u8),
        SubnegotiationView::CharsetAccepted(charset) => seq![CHARSET_ACCEPTED] + charset,
        SubnegotiationView::CharsetRejected => seq![CHARSET_REJECTED],
        SubnegotiationView::CharsetTTableRejected => seq![CHARSET_TTABLE_REJECTED],
        SubnegotiationView::Environment(op) => spec_env_op_bytes(op),
        SubnegotiationView::Unknown(_, bytes) => spec_escape_iac(bytes),
        SubnegotiationView::LineMode(mode) => match mode {
            LineModeView::Mode(value) => seq![MODE, value],
            LineModeView::SLC(triples) => seq![LINEMODE_SLC] + spec_slc_bytes(triples),
            LineModeView::ForwardMask(ForwardMaskView::Do(mask)) => seq![
                DO,
                LINEMODE_FORWARD_MASK,
            ] + spec_fmask_bytes(mask),
            LineModeView::ForwardMask(other) => seq![other.spec_byte(), LINEMODE_FORWARD_MASK],
            LineModeView::Unknown(option, data) => seq![option] + data,
        },
    }
}

/// The whole frame of a subnegotiation on the wire.
pub open spec fn spec_sub_frame(sub: SubnegotiationView) -> Seq<u8> {
    seq![IAC, SB, spec_sub_option_byte(sub)] + spec_sub_payload(sub) + seq![IAC, SE]
}

/// The bytes the encoder appends for an event, given the bytes already in
/// the output buffer: a `Message` gets a trailing `CR LF` unless the buffer
/// then already ends with one, and `Character`, `Unicode`, `GoAhead` and
/// `Nop` are dropped.
pub open spec fn spec_event_bytes(event: TelnetEventView, prior: Seq<u8>) -> Seq<u8> {
    match event {
        TelnetEventView::Do(option) => seq![IAC, DO, option.spec_byte()],
        TelnetEventView::Dont(option) => seq![IAC, DONT, option.spec_byte()],
        TelnetEventView::Will(option) => seq![IAC, WILL, option.spec_byte()],
        TelnetEventView::Wont(option) => seq![IAC, WONT, option.spec_byte()],
        TelnetEventView::Subnegotiate(sub) => spec_sub_frame(sub),
        TelnetEventView::Message(message) => {
            let body = spec_escape_iac(encode_utf8(message));
            if ends_with_crlf(prior + body) {
                body
            } else {
                body + seq![CR, LF]
            }
        },
        TelnetEventView::RawMessage(message) => spec_escape_iac(encode_utf8(message)),
        _ => Seq::empty(),
    }
}

/// True when the byte sequence ends with `CR LF`.
pub open spec fn ends_with_crlf(s: Seq<u8>) -> bool {
    s.len() >= 2 && s[s.len() - 2] == CR && s[s.len() - 1] == LF
}

/// Appends the wire form of a subnegotiation frame to `out`.
pub fn write_sub_frame(sub: &SubnegotiationType, out: &mut Vec<u8>)
    ensures
        final(out)@ == old(out)@ + spec_sub_frame(sub@),
{
    out.push(IAC);
    out.push(SB);
    match sub {
        SubnegotiationType::WindowSize(width, height) => {
            out.push(NAWS);
            out.push((*width / 256) as u8);
            out.push((*width % 256) as u8);
            out.push((*height / 256) as u8);
            out.push((*height % 256) as u8);
        },
        SubnegotiationType::CharsetRequest(charsets) => {
            out.push(CHARSET);
            out.push(CHARSET_REQUEST);
            out.push(32u8);
            let ghost views = charsets@.map_values(|c: Vec<u8>| c@);
            let ghost base = out@;
            let mut i: usize = 0;
            while i < charsets.len()
                invariant
                    i <= charsets@.len(),
                    charsets@.map_values(|c: Vec<u8>| c@) == views,
                    out@ == base + spec_join_charsets(views.take(i as int), 32u8),
                decreases charsets@.len() - i,
            {
                let ghost before = out@;
                if i > 0 {
                    out.push(32u8);
                }
                out.extend_from_slice(charsets[i].as_slice());
                proof {
                    assert(views.take(i + 1) =~= views.take(i as int).push(views[i as int]));
                    if i == 0 {
                        assert(views.take(1)[0] == views[0]);
                        assert(views.take(1).skip(1) =~= Seq::<Seq<u8>>::empty());
                        assert(spec_join_tail(Seq::<Seq<u8>>::empty(), 32u8) =~= Seq::<
                            u8,
                        >::empty());
                        assert(spec_join_charsets(views.take(1), 32u8) =~= views[0]);
                        assert(out@ =~= base + spec_join_charsets(views.take(i + 1), 32u8));
                    } else {
                        let t = views.take(i as int);
                        assert(t.len() >= 1);
                        lemma_join_tail_append(t.skip(1), views[i as int], 32u8);
                        assert(t.push(views[i as int]).skip(1) =~= t.skip(1).push(
                            views[i as int],
                        ));
                        assert(t.push(views[i as int])[0] == t[0]);
                        assert(spec_join_charsets(t.push(views[i as int]), 32u8)
                            =~= spec_join_charsets(t, 32u8) + seq![32u8] + views[i as int]);
                        assert(out@ =~= base + spec_join_charsets(views.take(i + 1), 32u8));
                    }
                }
                i = i + 1;
            }
            proof {
                assert(views.take(views.len() as int) =~= views);
            }
        },
        SubnegotiationType::CharsetAccepted(charset) => {
            out.push(CHARSET);
            out.push(CHARSET_ACCEPTED);
            out.extend_from_slice(charset.as_slice());
        },
        SubnegotiationType::CharsetRejected => {
            out.push(CHARSET);
            out.push(CHARSET_REJECTED);
        },
        SubnegotiationType::CharsetTTableRejected => {
            out.push(CHARSET);
            out.push(CHARSET_TTABLE_REJECTED);
        },
        SubnegotiationType::Environment(op) => {
            out.push(ENVIRON);
            write_env_op(op, out);
        },
        SubnegotiationType::Unknown(option, bytes) => {
            out.push(option.byte());
            write_escaped_iac(bytes.as_slice(), out);
        },
        SubnegotiationType::LineMode(mode) => {
            out.push(LINEMODE);
            match mode {
                LineModeOption::Mode(value) => {
                    out.push(MODE);
                    out.push(*value);
                },
                LineModeOption::SLC(triples) => {
                    out.push(LINEMODE_SLC);
                    let ghost base = out@;
                    let mut i: usize = 0;
                    proof {
                        assert(triples@.take(0) =~= Seq::<
                            (crate::linemode::Dispatch, char),
                        >::empty());
                        assert(spec_slc_bytes(triples@.take(0)) =~= Seq::<u8>::empty());
                        assert(base + Seq::<u8>::empty() =~= base);
                    }
                    while i < triples.len()
                        invariant
                            i <= triples@.len(),
                            out@ == base + spec_slc_bytes(triples@.take(i as int)),
                        decreases triples@.len() - i,
                    {
                        let (dispatch, ch) = triples[i];
                        let (first, second) = dispatch.bytes();
                        out.push(first);
                        out.push(second);
                        out.push((ch as u32) as u8);
                        proof {
                            assert(triples@.take(i + 1) =~= triples@.take(i as int).push(
                                triples@[i as int],
                            ));
                            lemma_slc_bytes_append(triples@.take(i as int), triples@[i as int]);
                            assert(out@ =~= base + spec_slc_bytes(triples@.take(i + 1)));
                        }
                        i = i + 1;
                    }
                    proof {
                        assert(triples@.take(triples@.len() as int) =~= triples@);
                    }
                },
                LineModeOption::ForwardMask(ForwardMaskOption::Do(mask)) => {
                    out.push(DO);
                    out.push(LINEMODE_FORWARD_MASK);
                    let ghost base = out@;
                    let mut i: usize = 0;
                    while i < 16
                        invariant
                            i <= 16,
                            out@ == base + spec_fmask_bytes(mask@).take(i as int),
                            spec_fmask_bytes(mask@).len() == 16,
                        decreases 16 - i,
                    {
                        if i < mask.len() {
                            out.push(mask[i]);
                        } else {
                            out.push(0u8);
                        }
                        proof {
                            assert(spec_fmask_bytes(mask@).take(i + 1) =~= spec_fmask_bytes(
                                mask@,
                            ).take(i as int).push(spec_fmask_bytes(mask@)[i as int]));
                        }
                        i = i + 1;
                    }
                    proof {
                        assert(spec_fmask_bytes(mask@).take(16) =~= spec_fmask_bytes(mask@));
                    }
                },
                LineModeOption::ForwardMask(other) => {
                    out.push(other.byte());
                    out.push(LINEMODE_FORWARD_MASK);
                },
                LineModeOption::Unknown(option, data) => {
                    out.push(*option);
                    out.extend_from_slice(data.as_slice());
                },
            }
        },
    }
    out.push(IAC);
    out.push(SE);
    proof {
        assert(out@ =~= old(out)@ + spec_sub_frame(sub@));
    }
}

/// Appends the wire form of a negotiation to `out`: `IAC`, the verb, and
/// the option byte.
pub fn write_negotiation(verb: u8, option: TelnetOption, out: &mut Vec<u8>)
    ensures
        final(out)@ == old(out)@ + seq![IAC, verb, option.spec_byte()],
{
    out.push(IAC);
    out.push(verb);
    out.push(option.byte());
    proof {
        assert(out@ =~= old(out)@ + seq![IAC, verb, option.spec_byte()]);
    }
}

} // verus!
