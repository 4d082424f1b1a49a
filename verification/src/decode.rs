//! Decodes the wire bytes of Telnet events: the byte-level scan across
//! chunk boundaries, the `IAC SB … IAC SE` frame, and the payload parsers
//! for NAWS, CHARSET and LINEMODE.

use vstd::prelude::*;
use vstd::utf8::{decode_utf8, valid_utf8};

use crate::constants::{
    CHARSET, CHARSET_ACCEPTED, CHARSET_REJECTED, CHARSET_REQUEST, CHARSET_TTABLE_REJECTED, CR, DO,
    DONT, ENVIRON, IAC, LF, LINEMODE, LINEMODE_FORWARD_MASK, LINEMODE_SLC, MODE, NAWS, NOP, SB,
    SE, WILL, WONT,
};
use crate::env::spec_decode_env;
use crate::event::{TelnetEvent, TelnetEventView};
use crate::linemode::{Dispatch, ForwardMaskOption, ForwardMaskView};
use crate::option::TelnetOption;
use crate::subnegotiation::{LineModeOption, LineModeView, SubnegotiationType, SubnegotiationView};
use crate::text::lossy_utf8;

verus! {

/// The first position at or after `i` holding the separator byte, or the
/// end of the input.
pub open spec fn spec_sep_end(s: Seq<u8>, sep: u8, i: int) -> int
    decreases s.len() - i,
{
    if i < 0 || i >= s.len() {
        s.len() as int
    } else if s[i] == sep {
        i
    } else {
        spec_sep_end(s, sep, i + 1)
    }
}

/// The position yielded by [`spec_sep_end`] lies between the scan start and
/// the end of the input.
pub proof fn lemma_sep_end_bounds(s: Seq<u8>, sep: u8, i: int)
    requires
        0 <= i <= s.len(),
    ensures
        i <= spec_sep_end(s, sep, i) <= s.len(),
    decreases s.len() - i,
{
    if i < s.len() && s[i] != sep {
        lemma_sep_end_bounds(s, sep, i + 1);
    }
}

/// Shifting the start of the input shifts the position of the separator by
/// the same amount.
pub proof fn lemma_sep_end_shift(s: Seq<u8>, sep: u8, base: int, i: int)
    requires
        0 <= base,
        0 <= i,
        base + i <= s.len(),
    ensures
        spec_sep_end(s.skip(base), sep, i) == spec_sep_end(s, sep, base + i) - base,
    decreases s.len() - base - i,
{
    if base + i < s.len() {
        assert(s.skip(base)[i] == s[base + i]);
        if s[base + i] != sep {
            lemma_sep_end_shift(s, sep, base, i + 1);
        }
    }
}

/// The input split on a separator byte: the parts between separators, in
/// order. Splitting never yields an empty list; an input without the
/// separator is one part, and each separator closes a part.
pub open spec fn spec_split_bytes(s: Seq<u8>, sep: u8) -> Seq<Seq<u8>>
    decreases s.len() via spec_split_bytes_decreases
{
    let j = spec_sep_end(s, sep, 0);
    if j >= s.len() {
        seq![s]
    } else {
        seq![s.take(j)] + spec_split_bytes(s.skip(j + 1), sep)
    }
}

#[via_fn]
proof fn spec_split_bytes_decreases(s: Seq<u8>, sep: u8) {
    lemma_sep_end_bounds(s, sep, 0);
}

/// What a NAWS payload decodes to: exactly four bytes give a window size,
/// two big-endian 16-bit values; any other length is rejected.
pub open spec fn spec_decode_naws(p: Seq<u8>) -> Option<SubnegotiationView> {
    if p.len() == 4 {
        Some(
            SubnegotiationView::WindowSize(
                ((p[0] as int) * 256 + (p[1] as int)) as u16,
                ((p[2] as int) * 256 + (p[3] as int)) as u16,
            ),
        )
    } else {
        None
    }
}

/// What a CHARSET payload decodes to. The first byte selects the
/// subcommand; a `REQUEST` carries a separator byte and the offered names,
/// split on that separator.
pub open spec fn spec_decode_charset(p: Seq<u8>) -> Option<SubnegotiationView> {
    if p.len() == 0 {
        None
    } else if p[0] == CHARSET_REQUEST {
        if p.len() == 1 {
            None
        } else {
            Some(SubnegotiationView::CharsetRequest(spec_split_bytes(p.skip(2), p[1])))
        }
    } else if p[0] == CHARSET_ACCEPTED {
        Some(SubnegotiationView::CharsetAccepted(p.skip(1)))
    } else if p[0] == CHARSET_REJECTED {
        Some(SubnegotiationView::CharsetRejected)
    } else if p[0] == CHARSET_TTABLE_REJECTED {
        Some(SubnegotiationView::CharsetTTableRejected)
    } else {
        None
    }
}

/// The SLC triples read from a payload in chunks of three bytes: function,
/// modifiers, character. A trailing partial chunk is ignored.
pub open spec fn spec_slc_triples(d: Seq<u8>) -> Seq<(Dispatch, char)>
    decreases d.len(),
{
    if d.len() < 3 {
        Seq::empty()
    } else {
        seq![(Dispatch::spec_from_bytes(d[0], d[1]), d[2] as char)] + spec_slc_triples(d.skip(3))
    }
}

/// What a LINEMODE payload decodes to. The first byte selects the
/// suboption: MODE and a forward mask need a second byte, SLC reads triples
/// of three bytes, and anything else is kept verbatim.
pub open spec fn spec_decode_linemode(p: Seq<u8>) -> Option<SubnegotiationView> {
    if p.len() == 0 {
        None
    } else if p[0] == WILL || p[0] == WONT || p[0] == DO || p[0] == DONT || p[0]
        == LINEMODE_FORWARD_MASK {
        if p.len() < 2 {
            None
        } else if p[0] == DO {
            Some(
                SubnegotiationView::LineMode(
                    LineModeView::ForwardMask(ForwardMaskView::Do(p.skip(2))),
                ),
            )
        } else {
            Some(
                SubnegotiationView::LineMode(
                    LineModeView::ForwardMask(ForwardMaskOption::spec_from_byte(p[0])),
                ),
            )
        }
    } else if p[0] == MODE {
        if p.len() < 2 {
            None
        } else {
            Some(SubnegotiationView::LineMode(LineModeView::Mode(p[1])))
        }
    } else if p[0] == LINEMODE_SLC {
        Some(SubnegotiationView::LineMode(LineModeView::SLC(spec_slc_triples(p.skip(1)))))
    } else {
        Some(SubnegotiationView::LineMode(LineModeView::Unknown(p[0], p.skip(1))))
    }
}

/// What a subnegotiation payload decodes to, by option byte. NAWS, CHARSET,
/// LINEMODE and NEW-ENVIRON have parsers; any other option keeps its
/// payload verbatim.
pub open spec fn spec_decode_sub(opt: u8, p: Seq<u8>) -> Option<SubnegotiationView> {
    if opt == NAWS {
        spec_decode_naws(p)
    } else if opt == CHARSET {
        spec_decode_charset(p)
    } else if opt == LINEMODE {
        spec_decode_linemode(p)
    } else if opt == ENVIRON {
        match spec_decode_env(p) {
            Some(op) => Some(SubnegotiationView::Environment(op)),
            None => None,
        }
    } else {
        Some(SubnegotiationView::Unknown(TelnetOption::spec_from_byte(opt), p))
    }
}

/// Decodes a NAWS payload. A payload whose length is not exactly four
/// yields no event.
fn decode_negotiate_about_window_size(subvec: &[u8]) -> (r: Option<TelnetEvent>)
    ensures
        match (r, spec_decode_naws(subvec@)) {
            (Some(ev), Some(sub)) => ev@ == TelnetEventView::Subnegotiate(sub),
            (None, None) => true,
            _ => false,
        },
        subvec@.len() != 4 ==> r is None,
{
    if subvec.len() == 4 {
        let cols: u16 = (subvec[0] as u16) * 256 + (subvec[1] as u16);
        let rows: u16 = (subvec[2] as u16) * 256 + (subvec[3] as u16);
        Some(TelnetEvent::Subnegotiate(SubnegotiationType::WindowSize(cols, rows)))
    } else {
        None
    }
}

/// Decodes a CHARSET payload.
fn decode_charset(subvec: &[u8]) -> (r: Option<TelnetEvent>)
    ensures
        match (r, spec_decode_charset(subvec@)) {
            (Some(ev), Some(sub)) => ev@ == TelnetEventView::Subnegotiate(sub),
            (None, None) => true,
            _ => false,
        },
{
    if subvec.len() == 0 {
        return None;
    }
    if subvec[0] == CHARSET_REQUEST {
        if subvec.len() == 1 {
            return None;
        }
        let separator = subvec[1];
        let rest = vstd::slice::slice_subrange(subvec, 2, subvec.len());
        proof {
            assert(rest@ =~= subvec@.skip(2));
        }
        let charsets = split_bytes(rest, separator);
        Some(TelnetEvent::Subnegotiate(SubnegotiationType::CharsetRequest(charsets)))
    } else if subvec[0] == CHARSET_ACCEPTED {
        let rest = vstd::slice::slice_subrange(subvec, 1, subvec.len());
        proof {
            assert(rest@ =~= subvec@.skip(1));
        }
        Some(
            TelnetEvent::Subnegotiate(
                SubnegotiationType::CharsetAccepted(vstd::slice::slice_to_vec(rest)),
            ),
        )
    } else if subvec[0] == CHARSET_REJECTED {
        Some(TelnetEvent::Subnegotiate(SubnegotiationType::CharsetRejected))
    } else if subvec[0] == CHARSET_TTABLE_REJECTED {
        Some(TelnetEvent::Subnegotiate(SubnegotiationType::CharsetTTableRejected))
    } else {
        None
    }
}

/// Splits a byte slice on a separator byte.
fn split_bytes(data: &[u8], sep: u8) -> (r: Vec<Vec<u8>>)
    ensures
        r@.map_values(|c: Vec<u8>| c@) == spec_split_bytes(data@, sep),
{
    let ghost s = data@;
    let mut parts: Vec<Vec<u8>> = Vec::new();
    let mut pos: usize = 0;
    proof {
        assert(s.skip(0) =~= s);
        assert(parts@.map_values(|c: Vec<u8>| c@) =~= Seq::<Seq<u8>>::empty());
    }
    loop
        invariant
            pos <= s.len(),
            data@ == s,
            spec_split_bytes(s, sep) == parts@.map_values(|c: Vec<u8>| c@) + spec_split_bytes(
                s.skip(pos as int),
                sep,
            ),
        decreases s.len() - pos + 1,
    {
        let mut j: usize = pos;
        while j < data.len() && data[j] != sep
            invariant
                pos <= j <= s.len(),
                data@ == s,
                spec_sep_end(s, sep, pos as int) == spec_sep_end(s, sep, j as int),
            decreases s.len() - j,
        {
            j = j + 1;
        }
        proof {
            assert(spec_sep_end(s, sep, j as int) == j);
            lemma_sep_end_shift(s, sep, pos as int, 0);
            assert(spec_sep_end(s.skip(pos as int), sep, 0) == j - pos);
        }
        let part = vstd::slice::slice_to_vec(
            vstd::slice::slice_subrange(data, pos, j),
        );
        let ghost prev = parts@;
        let ghost part_view = part@;
        parts.push(part);
        proof {
            assert(parts@.map_values(|c: Vec<u8>| c@) =~= prev.map_values(|c: Vec<u8>| c@)
                + seq![part_view]);
            assert(part_view =~= s.skip(pos as int).take(j - pos));
        }
        if j >= data.len() {
            proof {
                assert(s.skip(pos as int).take(j - pos) =~= s.skip(pos as int));
                assert(spec_split_bytes(s.skip(pos as int), sep) =~= seq![s.skip(pos as int)]);
                assert(parts@.map_values(|c: Vec<u8>| c@) =~= spec_split_bytes(s, sep));
            }
            return parts;
        }
        proof {
            assert(s.skip(pos as int).skip(j - pos + 1) =~= s.skip(j + 1));
            assert(spec_split_bytes(s.skip(pos as int), sep) =~= seq![
                s.skip(pos as int).take(j - pos),
            ] + spec_split_bytes(s.skip(j + 1), sep));
        }
        pos = j + 1;
    }
}

/// Decodes a LINEMODE payload. A forward-mask suboption introduced by
/// `DO` carries the mask bytes to the end of the payload; `WILL`, `WONT`
/// and `DONT` yield the matching nullary variant.
fn decode_linemode(subvec: &[u8]) -> (r: Option<TelnetEvent>)
    ensures
        match (r, spec_decode_linemode(subvec@)) {
            (Some(ev), Some(sub)) => ev@ == TelnetEventView::Subnegotiate(sub),
            (None, None) => true,
            _ => false,
        },
        subvec@.len() >= 2 && subvec@[0] == DO ==> (match r {
            Some(ev) => ev@ == TelnetEventView::Subnegotiate(
                SubnegotiationView::LineMode(
                    LineModeView::ForwardMask(ForwardMaskView::Do(subvec@.skip(2))),
                ),
            ),
            None => false,
        }),
        subvec@.len() >= 2 && (subvec@[0] == WILL || subvec@[0] == WONT || subvec@[0] == DONT)
            ==> (match r {
            Some(ev) => ev@ == TelnetEventView::Subnegotiate(
                SubnegotiationView::LineMode(
                    LineModeView::ForwardMask(ForwardMaskOption::spec_from_byte(subvec@[0])),
                ),
            ),
            None => false,
        }),
{
    if subvec.len() == 0 {
        return None;
    }
    let first = subvec[0];
    if first == WILL || first == WONT || first == DO || first == DONT || first
        == LINEMODE_FORWARD_MASK {
        if subvec.len() < 2 {
            return None;
        }
        let option = if first == DO {
            let data = vstd::slice::slice_subrange(subvec, 2, subvec.len());
            proof {
                assert(data@ =~= subvec@.skip(2));
            }
            ForwardMaskOption::Do(vstd::slice::slice_to_vec(data))
        } else {
            ForwardMaskOption::from_byte(first)
        };
        Some(
            TelnetEvent::Subnegotiate(
                SubnegotiationType::LineMode(LineModeOption::ForwardMask(option)),
            ),
        )
    } else if first == MODE {
        if subvec.len() < 2 {
            return None;
        }
        Some(
            TelnetEvent::Subnegotiate(SubnegotiationType::LineMode(LineModeOption::Mode(
                subvec[1],
            ))),
        )
    } else if first == LINEMODE_SLC {
        let slc_data = vstd::slice::slice_subrange(subvec, 1, subvec.len());
        proof {
            assert(slc_data@ =~= subvec@.skip(1));
        }
        let triples = decode_slc_triples(slc_data);
        Some(
            TelnetEvent::Subnegotiate(SubnegotiationType::LineMode(LineModeOption::SLC(triples))),
        )
    } else {
        let data = vstd::slice::slice_subrange(subvec, 1, subvec.len());
        proof {
            assert(data@ =~= subvec@.skip(1));
        }
        Some(
            TelnetEvent::Subnegotiate(
                SubnegotiationType::LineMode(
                    LineModeOption::Unknown(first, vstd::slice::slice_to_vec(data)),
                ),
            ),
        )
    }
}

/// Reads SLC triples from a payload in chunks of three bytes; a trailing
/// partial chunk is ignored.
fn decode_slc_triples(data: &[u8]) -> (r: Vec<(Dispatch, char)>)
    ensures
        r@ == spec_slc_triples(data@),
{
    let ghost s = data@;
    let mut triples: Vec<(Dispatch, char)> = Vec::new();
    let mut k: usize = 0;
    proof {
        assert(s.skip(0) =~= s);
        assert(Seq::<(Dispatch, char)>::empty() + spec_slc_triples(s) =~= spec_slc_triples(s));
    }
    while k < data.len() && data.len() - k >= 3
        invariant
            k <= s.len(),
            data@ == s,
            spec_slc_triples(s) == triples@ + spec_slc_triples(s.skip(k as int)),
        decreases s.len() - k,
    {
        let dispatch = Dispatch::from_bytes(data[k], data[k + 1]);
        let ch = data[k + 2] as char;
        let ghost prev = triples@;
        triples.push((dispatch, ch));
        proof {
            let rest = s.skip(k as int);
            assert(rest[0] == s[k as int] && rest[1] == s[k + 1] && rest[2] == s[k + 2]);
            assert(rest.skip(3) =~= s.skip(k + 3));
            assert(spec_slc_triples(rest) =~= seq![
                (Dispatch::spec_from_bytes(s[k as int], s[k + 1]), s[k + 2] as char),
            ] + spec_slc_triples(s.skip(k + 3)));
            assert(triples@ =~= prev.push(
                (Dispatch::spec_from_bytes(s[k as int], s[k + 1]), s[k + 2] as char),
            ));
            assert(triples@ + spec_slc_triples(s.skip(k + 3)) =~= spec_slc_triples(s));
        }
        k = k + 3;
    }
    proof {
        assert(s.skip(k as int).len() < 3);
        assert(spec_slc_triples(s.skip(k as int)) =~= Seq::<(Dispatch, char)>::empty());
        assert(triples@ =~= spec_slc_triples(s));
    }
    triples
}

/// The result of scanning for the end of an `IAC SB … IAC SE` frame.
pub enum SubScan {
    /// The frame is complete: its unescaped payload, whether an ill-formed
    /// inner escape was seen, and the position just past `IAC SE`.
    Done { payload: Seq<u8>, invalid: bool, end: int },
    /// The input ends before `IAC SE`.
    More,
}

/// Scans for the end of a subnegotiation frame from position `j`, with the
/// unescaped `payload` and `invalid` flag so far. Inside the frame
/// `IAC IAC` stands for one literal `IAC`, `IAC SE` ends the frame, and
/// `IAC` before anything else marks the frame ill-formed but is skipped.
pub open spec fn spec_sub_scan(s: Seq<u8>, j: int, payload: Seq<u8>, invalid: bool) -> SubScan
    decreases s.len() - j,
{
    if j < 0 || j >= s.len() {
        SubScan::More
    } else if s[j] == IAC {
        if j + 1 >= s.len() {
            SubScan::More
        } else if s[j + 1] == SE {
            SubScan::Done { payload, invalid, end: j + 2 }
        } else if s[j + 1] == IAC {
            spec_sub_scan(s, j + 2, payload.push(IAC), invalid)
        } else {
            spec_sub_scan(s, j + 2, payload, true)
        }
    } else {
        spec_sub_scan(s, j + 1, payload.push(s[j]), invalid)
    }
}

/// The end position of a completed frame lies within the input, past the
/// scan start.
pub proof fn lemma_sub_scan_bounds(s: Seq<u8>, j: int, payload: Seq<u8>, invalid: bool)
    requires
        0 <= j <= s.len(),
    ensures
        match spec_sub_scan(s, j, payload, invalid) {
            SubScan::Done { end, .. } => j < end <= s.len(),
            SubScan::More => true,
        },
    decreases s.len() - j,
{
    if j < s.len() {
        if s[j] == IAC {
            if j + 1 < s.len() {
                lemma_sub_scan_bounds(s, j + 2, payload.push(IAC), invalid);
                lemma_sub_scan_bounds(s, j + 2, payload, true);
            }
        } else {
            lemma_sub_scan_bounds(s, j + 1, payload.push(s[j]), invalid);
        }
    }
}

/// One step of the byte-level scan: the event produced, how many input
/// bytes it consumed, and the line accumulator afterwards. No event with a
/// zero advance means the input holds no complete event yet.
pub struct ScanOutcome {
    /// The decoded event, if the input holds a complete one.
    pub event: Option<TelnetEventView>,
    /// How many bytes of the input the event consumed.
    pub advance: int,
    /// The line accumulator after the scan.
    pub acc: Seq<u8>,
}

/// The byte count of a UTF-8 sequence led by the given byte, from its
/// leading-byte range; anything else counts as a single byte.
pub open spec fn spec_utf8_width(b: u8) -> int {
    if 0xC2 <= b && b <= 0xDF {
        2
    } else if 0xE0 <= b && b <= 0xEF {
        3
    } else if 0xF0 <= b && b <= 0xF4 {
        4
    } else {
        1
    }
}

/// The byte-level scan of the transport bytes `s` from position `i` with
/// line accumulator `acc`, capped at `max` bytes.
///
/// In every mode, `IAC IAC` appends one literal `IAC` to the accumulator,
/// `IAC` before a negotiation verb yields that negotiation, `IAC SB` opens
/// a subnegotiation frame whose whole span is consumed once complete —
/// with no event if its payload is ill-formed or malformed — `IAC NOP` and
/// an `IAC` before any other byte are skipped, and a truncated command is
/// held: the scan ends with no event and the input consumed exactly up to
/// the command's leading `IAC`, so every byte already folded into the
/// accumulator or skipped is consumed and is never scanned again. A line
/// feed yields the accumulated line as a `Message` and clears the
/// accumulator when the accumulator ends with a carriage return, which is
/// stripped, or when the accumulator stands at the cap — an over-long line
/// flushes whatever was retained, even though the cap dropped its carriage
/// return. Any other byte: in message mode it is appended to the
/// accumulator if under the cap; in character mode it yields a `Character`
/// event, or, with `unicode` set, a decoded `Unicode` character read from
/// a leading byte and its sequence, with `Nop` for an invalid sequence.
pub open spec fn spec_scan(
    s: Seq<u8>,
    i: int,
    acc: Seq<u8>,
    max: nat,
    message_mode: bool,
    unicode: bool,
) -> ScanOutcome
    decreases s.len() - i,
{
    if i < 0 || i >= s.len() {
        ScanOutcome { event: None, advance: i, acc }
    } else {
        let b = s[i];
        if b == IAC {
            if i + 1 >= s.len() {
                ScanOutcome { event: None, advance: i, acc }
            } else {
                let c = s[i + 1];
                if c == IAC {
                    spec_scan(
                        s,
                        i + 2,
                        if acc.len() < max {
                            acc.push(IAC)
                        } else {
                            acc
                        },
                        max,
                        message_mode,
                        unicode,
                    )
                } else if c == DO || c == DONT || c == WILL || c == WONT {
                    if i + 2 >= s.len() {
                        ScanOutcome { event: None, advance: i, acc }
                    } else {
                        let option = TelnetOption::spec_from_byte(s[i + 2]);
                        let ev = if c == DO {
                            TelnetEventView::Do(option)
                        } else if c == DONT {
                            TelnetEventView::Dont(option)
                        } else if c == WILL {
                            TelnetEventView::Will(option)
                        } else {
                            TelnetEventView::Wont(option)
                        };
                        ScanOutcome { event: Some(ev), advance: i + 3, acc }
                    }
                } else if c == SB {
                    if i + 2 >= s.len() {
                        ScanOutcome { event: None, advance: i, acc }
                    } else {
                        match spec_sub_scan(s, i + 3, Seq::empty(), false) {
                            SubScan::More => ScanOutcome { event: None, advance: i, acc },
                            SubScan::Done { payload, invalid, end } => {
                                if invalid {
                                    ScanOutcome { event: None, advance: end, acc }
                                } else {
                                    match spec_decode_sub(s[i + 2], payload) {
                                        Some(sub) => ScanOutcome {
                                            event: Some(TelnetEventView::Subnegotiate(sub)),
                                            advance: end,
                                            acc,
                                        },
                                        None => ScanOutcome { event: None, advance: end, acc },
                                    }
                                }
                            },
                        }
                    }
                } else if c == NOP {
                    spec_scan(s, i + 2, acc, max, message_mode, unicode)
                } else {
                    spec_scan(s, i + 1, acc, max, message_mode, unicode)
                }
            }
        } else if b == LF {
            if acc.len() > 0 && acc[acc.len() - 1] == CR {
                ScanOutcome {
                    event: Some(TelnetEventView::Message(lossy_utf8(acc.take(acc.len() - 1)))),
                    advance: i + 1,
                    acc: Seq::empty(),
                }
            } else if acc.len() >= max {
                ScanOutcome {
                    event: Some(TelnetEventView::Message(lossy_utf8(acc))),
                    advance: i + 1,
                    acc: Seq::empty(),
                }
            } else {
                spec_scan(
                    s,
                    i + 1,
                    if acc.len() < max {
                        acc.push(LF)
                    } else {
                        acc
                    },
                    max,
                    message_mode,
                    unicode,
                )
            }
        } else if !message_mode {
            if !unicode {
                ScanOutcome {
                    event: Some(TelnetEventView::Character(b)),
                    advance: i + 1,
                    acc: Seq::empty(),
                }
            } else {
                let w = spec_utf8_width(b);
                if w == 1 {
                    ScanOutcome {
                        event: Some(TelnetEventView::Unicode(b as char)),
                        advance: i + 1,
                        acc,
                    }
                } else if i + w > s.len() {
                    ScanOutcome { event: None, advance: i, acc }
                } else {
                    let window = s.subrange(i, i + w);
                    if valid_utf8(window) && decode_utf8(window).len() == 1 {
                        ScanOutcome {
                            event: Some(TelnetEventView::Unicode(decode_utf8(window)[0])),
                            advance: i + w,
                            acc,
                        }
                    } else {
                        ScanOutcome { event: Some(TelnetEventView::Nop), advance: i + w, acc }
                    }
                }
            }
        } else {
            spec_scan(
                s,
                i + 1,
                if acc.len() < max {
                    acc.push(b)
                } else {
                    acc
                },
                max,
                message_mode,
                unicode,
            )
        }
    }
}

/// The scan consumes between zero bytes and the whole input.
pub proof fn lemma_scan_bounds(
    s: Seq<u8>,
    i: int,
    acc: Seq<u8>,
    max: nat,
    message_mode: bool,
    unicode: bool,
)
    requires
        0 <= i <= s.len(),
    ensures
        0 <= spec_scan(s, i, acc, max, message_mode, unicode).advance <= s.len(),
    decreases s.len() - i,
{
    if i < s.len() {
        let b = s[i];
        if b == IAC && i + 1 < s.len() {
            let c = s[i + 1];
            if c == IAC {
                lemma_scan_bounds(
                    s,
                    i + 2,
                    if acc.len() < max {
                        acc.push(IAC)
                    } else {
                        acc
                    },
                    max,
                    message_mode,
                    unicode,
                );
            } else if c == SB {
                if i + 2 < s.len() {
                    lemma_sub_scan_bounds(s, i + 3, Seq::empty(), false);
                }
            } else if c == NOP {
                lemma_scan_bounds(s, i + 2, acc, max, message_mode, unicode);
            } else if !(c == DO || c == DONT || c == WILL || c == WONT) {
                lemma_scan_bounds(s, i + 1, acc, max, message_mode, unicode);
            }
        } else if b != IAC && b == LF && !(acc.len() > 0 && acc[acc.len() - 1] == CR) {
            lemma_scan_bounds(
                s,
                i + 1,
                if acc.len() < max {
                    acc.push(LF)
                } else {
                    acc
                },
                max,
                message_mode,
                unicode,
            );
        } else if b != IAC && b != LF && message_mode {
            lemma_scan_bounds(
                s,
                i + 1,
                if acc.len() < max {
                    acc.push(b)
                } else {
                    acc
                },
                max,
                message_mode,
                unicode,
            );
        }
    }
}

/// Runs the byte-level scan over the whole transport input in line or
/// character mode, mutating the codec's line accumulator, and yields the
/// decoded event together with the count of input bytes it consumed.
pub(crate) fn decode_bytes(codec: &mut crate::TelnetCodec, input: &Vec<u8>) -> (r: (
    Option<TelnetEvent>,
    usize,
))
    ensures
        ({
            let out = spec_scan(
                input@,
                0,
                old(codec).buffer@,
                old(codec).max_buffer_length as nat,
                old(codec).message_mode,
                old(codec).unicode,
            );
            &&& final(codec).sga == old(codec).sga
            &&& final(codec).message_mode == old(codec).message_mode
            &&& final(codec).unicode == old(codec).unicode
            &&& final(codec).max_buffer_length == old(codec).max_buffer_length
            &&& final(codec).buffer@ == out.acc
            &&& r.1 == out.advance
            &&& (match (r.0, out.event) {
                (Some(ev), Some(em)) => ev@ == em,
                (None, None) => true,
                _ => false,
            })
        }),
{
    let ghost s = input@;
    let ghost max = old(codec).max_buffer_length as nat;
    let ghost mm = old(codec).message_mode;
    let ghost uni = old(codec).unicode;
    let ghost acc0 = old(codec).buffer@;
    let mut i: usize = 0;
    loop
        invariant
            i <= s.len(),
            input@ == s,
            codec.sga == old(codec).sga,
            codec.message_mode == old(codec).message_mode,
            codec.unicode == old(codec).unicode,
            codec.max_buffer_length == old(codec).max_buffer_length,
            mm == old(codec).message_mode,
            uni == old(codec).unicode,
            max == old(codec).max_buffer_length as nat,
            acc0 == old(codec).buffer@,
            spec_scan(s, 0, acc0, max, mm, uni) == spec_scan(s, i as int, codec.buffer@, max, mm, uni),
        decreases s.len() - i,
    {
        if i >= input.len() {
            return (None, i);
        }
        let b = input[i];
        if b == IAC {
            if i + 1 >= input.len() {
                return (None, i);
            }
            let c = input[i + 1];
            if c == IAC {
                let ghost before = codec.buffer@;
                if codec.buffer.len() < codec.max_buffer_length {
                    codec.buffer.push(IAC);
                }
                proof {
                    assert(spec_scan(s, i as int, before, max, mm, uni) == spec_scan(
                        s,
                        i + 2,
                        codec.buffer@,
                        max,
                        mm,
                        uni,
                    ));
                }
                i = i + 2;
            } else if c == DO || c == DONT || c == WILL || c == WONT {
                if i + 2 >= input.len() {
                    return (None, i);
                }
                let option = TelnetOption::from_byte(input[i + 2]);
                let ev = if c == DO {
                    TelnetEvent::Do(option)
                } else if c == DONT {
                    TelnetEvent::Dont(option)
                } else if c == WILL {
                    TelnetEvent::Will(option)
                } else {
                    TelnetEvent::Wont(option)
                };
                return (Some(ev), i + 3);
            } else if c == SB {
                if i + 2 >= input.len() {
                    return (None, i);
                }
                let opt = input[i + 2];
                let mut subvec: Vec<u8> = Vec::new();
                let mut invalid = false;
                let mut j = i + 3;
                proof {
                    assert(subvec@ =~= Seq::<u8>::empty());
                }
                loop
                    invariant
                        i + 3 <= j <= s.len(),
                        i + 2 < s.len(),
                        input@ == s,
                        s[i as int] == IAC && s[i + 1] == SB,
                        opt == s[i + 2],
                        codec.sga == old(codec).sga,
                        codec.message_mode == old(codec).message_mode,
                        codec.unicode == old(codec).unicode,
                        codec.max_buffer_length == old(codec).max_buffer_length,
                        mm == old(codec).message_mode,
                        uni == old(codec).unicode,
                        max == old(codec).max_buffer_length as nat,
                        acc0 == old(codec).buffer@,
                        spec_scan(s, 0, acc0, max, mm, uni) == spec_scan(
                            s,
                            i as int,
                            codec.buffer@,
                            max,
                            mm,
                            uni,
                        ),
                        spec_sub_scan(s, i + 3, Seq::empty(), false) == spec_sub_scan(
                            s,
                            j as int,
                            subvec@,
                            invalid,
                        ),
                    decreases s.len() - j,
                {
                    if j >= input.len() {
                        return (None, i);
                    }
                    if input[j] == IAC {
                        if j + 1 >= input.len() {
                            return (None, i);
                        }
                        let d = input[j + 1];
                        if d == SE {
                            let end = j + 2;
                            proof {
                                assert(spec_sub_scan(s, j as int, subvec@, invalid)
                                    == (SubScan::Done { payload: subvec@, invalid, end: end as int }));
                            }
                            if invalid {
                                return (None, end);
                            }
                            match decode_subnegotiation_end(opt, subvec) {
                                Some(ev) => {
                                    return (Some(ev), end);
                                },
                                None => {
                                    return (None, end);
                                },
                            }
                        } else if d == IAC {
                            subvec.push(IAC);
                            j = j + 2;
                        } else {
                            invalid = true;
                            j = j + 2;
                        }
                    } else {
                        subvec.push(input[j]);
                        j = j + 1;
                    }
                }
            } else if c == NOP {
                proof {
                    assert(spec_scan(s, i as int, codec.buffer@, max, mm, uni) == spec_scan(
                        s,
                        i + 2,
                        codec.buffer@,
                        max,
                        mm,
                        uni,
                    ));
                }
                i = i + 2;
            } else {
                proof {
                    assert(spec_scan(s, i as int, codec.buffer@, max, mm, uni) == spec_scan(
                        s,
                        i + 1,
                        codec.buffer@,
                        max,
                        mm,
                        uni,
                    ));
                }
                i = i + 1;
            }
        } else if b == LF {
            let ghost before = codec.buffer@;
            if codec.buffer.len() > 0 && codec.buffer[codec.buffer.len() - 1] == CR {
                let _popped = codec.buffer.pop();
                let mut taken: Vec<u8> = Vec::new();
                core::mem::swap(&mut codec.buffer, &mut taken);
                proof {
                    assert(taken@ =~= before.take(before.len() - 1));
                }
                let message = crate::text::string_from_utf8_lossy(&taken);
                return (Some(TelnetEvent::Message(message)), i + 1);
            } else if codec.buffer.len() >= codec.max_buffer_length {
                let mut taken: Vec<u8> = Vec::new();
                core::mem::swap(&mut codec.buffer, &mut taken);
                let message = crate::text::string_from_utf8_lossy(&taken);
                return (Some(TelnetEvent::Message(message)), i + 1);
            } else {
                if codec.buffer.len() < codec.max_buffer_length {
                    codec.buffer.push(LF);
                }
                proof {
                    assert(spec_scan(s, i as int, before, max, mm, uni) == spec_scan(
                        s,
                        i + 1,
                        codec.buffer@,
                        max,
                        mm,
                        uni,
                    ));
                }
                i = i + 1;
            }
        } else if !codec.message_mode {
            if !codec.unicode {
                codec.buffer.clear();
                return (Some(TelnetEvent::Character(b)), i + 1);
            }
            let width: usize = if 0xC2 <= b && b <= 0xDF {
                2
            } else if 0xE0 <= b && b <= 0xEF {
                3
            } else if 0xF0 <= b && b <= 0xF4 {
                4
            } else {
                1
            };
            if width == 1 {
                return (Some(TelnetEvent::Unicode(b as char)), i + 1);
            }
            if width > input.len() - i {
                return (None, i);
            }
            let window = vstd::slice::slice_subrange(input.as_slice(), i, i + width);
            proof {
                assert(window@ =~= s.subrange(i as int, i + width));
            }
            match crate::text::string_from_utf8(vstd::slice::slice_to_vec(window)) {
                Some(st) => {
                    if st.as_str().unicode_len() == 1 {
                        let ch = st.as_str().get_char(0);
                        return (Some(TelnetEvent::Unicode(ch)), i + width);
                    }
                    return (Some(TelnetEvent::Nop), i + width);
                },
                None => {
                    return (Some(TelnetEvent::Nop), i + width);
                },
            }
        } else {
            let ghost before = codec.buffer@;
            if codec.buffer.len() < codec.max_buffer_length {
                codec.buffer.push(b);
            }
            proof {
                assert(spec_scan(s, i as int, before, max, mm, uni) == spec_scan(
                    s,
                    i + 1,
                    codec.buffer@,
                    max,
                    mm,
                    uni,
                ));
            }
            i = i + 1;
        }
    }
}

/// Decodes a completed subnegotiation payload by its option byte.
fn decode_subnegotiation_end(option: u8, subvec: Vec<u8>) -> (r: Option<TelnetEvent>)
    ensures
        match (r, spec_decode_sub(option, subvec@)) {
            (Some(ev), Some(sub)) => ev@ == TelnetEventView::Subnegotiate(sub),
            (None, None) => true,
            _ => false,
        },
{
    if option == NAWS {
        decode_negotiate_about_window_size(subvec.as_slice())
    } else if option == CHARSET {
        decode_charset(subvec.as_slice())
    } else if option == LINEMODE {
        decode_linemode(subvec.as_slice())
    } else if option == ENVIRON {
        crate::env::decode_env(subvec.as_slice())
    } else {
        Some(
            TelnetEvent::Subnegotiate(
                SubnegotiationType::Unknown(TelnetOption::from_byte(option), subvec),
            ),
        )
    }
}

} // verus!
