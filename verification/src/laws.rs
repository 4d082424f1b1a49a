//! The laws the codec obeys: round trips between the encoder and the
//! decoder, rejection of malformed frames, the accumulator cap, and the
//! agreement of the length model with the encoder's output.

use vstd::prelude::*;

use crate::constants::{
    CHARSET, CHARSET_ACCEPTED, CHARSET_REJECTED, CHARSET_REQUEST, CHARSET_TTABLE_REJECTED, CR, DO,
    DONT, IAC, LF, LINEMODE, LINEMODE_FORWARD_MASK, LINEMODE_SLC, MODE, NAWS, NOP, SB, SE, WILL,
    WONT,
};
use crate::decode::{
    spec_decode_sub, spec_scan, spec_sub_scan, spec_utf8_width, ScanOutcome, SubScan,
};
use crate::encode::{
    spec_escape_iac, spec_fmask_bytes, spec_sub_frame, spec_sub_option_byte, spec_sub_payload,
};
use crate::event::TelnetEventView;
use crate::linemode::ForwardMaskView;
use crate::option::TelnetOption;
use crate::subnegotiation::{LineModeView, SubnegotiationView};

verus! {

/// A byte sequence with no `IAC` byte anywhere.
pub open spec fn iac_free(s: Seq<u8>) -> bool {
    forall|k: int| 0 <= k < s.len() ==> s[k] != IAC
}

/// Scanning a subnegotiation frame whose payload holds no `IAC` reads the
/// payload verbatim and ends just past the closing `IAC SE`.
pub proof fn lemma_sub_scan_clean(s: Seq<u8>, j: int, p: Seq<u8>, acc_p: Seq<u8>, invalid: bool)
    requires
        0 <= j <= s.len(),
        s.skip(j) == p + seq![IAC, SE],
        iac_free(p),
    ensures
        spec_sub_scan(s, j, acc_p, invalid) == (SubScan::Done {
            payload: acc_p + p,
            invalid,
            end: s.len() as int,
        }),
    decreases p.len(),
{
    assert(s.skip(j).len() == p.len() + 2);
    if p.len() == 0 {
        assert(s[j] == s.skip(j)[0]);
        assert(s[j + 1] == s.skip(j)[1]);
        assert(s[j] == IAC && s[j + 1] == SE);
        assert(j + 2 == s.len());
        assert(acc_p + p =~= acc_p);
    } else {
        assert(s[j] == s.skip(j)[0]);
        assert(s[j] == p[0]);
        assert(p[0] != IAC);
        assert(s.skip(j + 1) =~= s.skip(j).skip(1));
        assert(s.skip(j).skip(1) =~= p.skip(1) + seq![IAC, SE]);
        assert(iac_free(p.skip(1)));
        lemma_sub_scan_clean(s, j + 1, p.skip(1), acc_p.push(p[0]), invalid);
        assert(acc_p.push(p[0]) + p.skip(1) =~= acc_p + p);
    }
}

/// Scanning a subnegotiation frame whose payload is a byte sequence with
/// every `IAC` doubled reads back the original bytes and ends just past
/// the closing `IAC SE`.
pub proof fn lemma_sub_scan_escaped(s: Seq<u8>, j: int, d: Seq<u8>, acc_p: Seq<u8>)
    requires
        0 <= j <= s.len(),
        s.skip(j) == spec_escape_iac(d) + seq![IAC, SE],
    ensures
        spec_sub_scan(s, j, acc_p, false) == (SubScan::Done {
            payload: acc_p + d,
            invalid: false,
            end: s.len() as int,
        }),
    decreases d.len(),
{
    if d.len() == 0 {
        assert(spec_escape_iac(d) =~= Seq::<u8>::empty());
        assert(s.skip(j) =~= seq![IAC, SE]);
        assert(s[j] == s.skip(j)[0]);
        assert(s[j + 1] == s.skip(j)[1]);
        assert(j + 2 == s.len());
        assert(acc_p + d =~= acc_p);
    } else {
        let b = d[0];
        let head: Seq<u8> = if b == IAC {
            seq![IAC, IAC]
        } else {
            seq![b]
        };
        assert(spec_escape_iac(d) == head + spec_escape_iac(d.skip(1)));
        assert(s.skip(j).len() == head.len() + spec_escape_iac(d.skip(1)).len() + 2);
        if b == IAC {
            assert(s[j] == s.skip(j)[0]);
            assert(s[j + 1] == s.skip(j)[1]);
            assert(s[j] == IAC && s[j + 1] == IAC);
            assert(s.skip(j + 2) =~= s.skip(j).skip(2));
            assert(s.skip(j).skip(2) =~= spec_escape_iac(d.skip(1)) + seq![IAC, SE]);
            lemma_sub_scan_escaped(s, j + 2, d.skip(1), acc_p.push(IAC));
            assert(acc_p.push(b) + d.skip(1) =~= acc_p + d);
        } else {
            assert(s[j] == s.skip(j)[0]);
            assert(s[j] == b);
            assert(s.skip(j + 1) =~= s.skip(j).skip(1));
            assert(s.skip(j).skip(1) =~= spec_escape_iac(d.skip(1)) + seq![IAC, SE]);
            lemma_sub_scan_escaped(s, j + 1, d.skip(1), acc_p.push(b));
            assert(acc_p.push(b) + d.skip(1) =~= acc_p + d);
        }
    }
}

/// Scanning a whole `IAC SB option payload IAC SE` frame with an
/// `IAC`-free payload consumes the frame exactly, leaves the accumulator
/// alone, and yields whatever the payload decodes to — no event if the
/// payload is malformed for its option.
pub proof fn lemma_scan_frame(
    opt: u8,
    p: Seq<u8>,
    acc: Seq<u8>,
    max: nat,
    message_mode: bool,
    unicode: bool,
)
    requires
        iac_free(p),
    ensures
        ({
            let frame = seq![IAC, SB, opt] + p + seq![IAC, SE];
            spec_scan(frame, 0, acc, max, message_mode, unicode) == (ScanOutcome {
                event: match spec_decode_sub(opt, p) {
                    Some(sub) => Some(TelnetEventView::Subnegotiate(sub)),
                    None => None,
                },
                advance: frame.len() as int,
                acc,
            })
        }),
{
    let frame = seq![IAC, SB, opt] + p + seq![IAC, SE];
    assert(frame.len() == p.len() + 5);
    assert(frame[0] == IAC && frame[1] == SB && frame[2] == opt);
    assert(frame.skip(3) =~= p + seq![IAC, SE]);
    lemma_sub_scan_clean(frame, 3, p, Seq::empty(), false);
    assert(Seq::<u8>::empty() + p =~= p);
}

/// The counterpart of [`lemma_scan_frame`] for a payload written with its
/// `IAC` bytes doubled, as the encoder writes `Unknown` payloads: the
/// decoder hands the unescaped bytes to the payload parser.
pub proof fn lemma_scan_frame_escaped(
    opt: u8,
    d: Seq<u8>,
    acc: Seq<u8>,
    max: nat,
    message_mode: bool,
    unicode: bool,
)
    ensures
        ({
            let frame = seq![IAC, SB, opt] + spec_escape_iac(d) + seq![IAC, SE];
            spec_scan(frame, 0, acc, max, message_mode, unicode) == (ScanOutcome {
                event: match spec_decode_sub(opt, d) {
                    Some(sub) => Some(TelnetEventView::Subnegotiate(sub)),
                    None => None,
                },
                advance: frame.len() as int,
                acc,
            })
        }),
{
    let frame = seq![IAC, SB, opt] + spec_escape_iac(d) + seq![IAC, SE];
    assert(frame.len() == spec_escape_iac(d).len() + 5);
    assert(frame[0] == IAC && frame[1] == SB && frame[2] == opt);
    assert(frame.skip(3) =~= spec_escape_iac(d) + seq![IAC, SE]);
    lemma_sub_scan_escaped(frame, 3, d, Seq::empty());
    assert(Seq::<u8>::empty() + d =~= d);
}

/// NAWS length rejection: a `SB NAWS` frame whose payload length is not
/// exactly four produces no event, and the whole frame is still consumed.
pub proof fn lemma_naws_length_rejection(
    p: Seq<u8>,
    acc: Seq<u8>,
    max: nat,
    message_mode: bool,
    unicode: bool,
)
    requires
        iac_free(p),
        p.len() != 4,
    ensures
        ({
            let frame = seq![IAC, SB, NAWS] + p + seq![IAC, SE];
            spec_scan(frame, 0, acc, max, message_mode, unicode) == (ScanOutcome {
                event: None,
                advance: frame.len() as int,
                acc,
            })
        }),
{
    lemma_scan_frame(NAWS, p, acc, max, message_mode, unicode);
}

/// The accumulator cap: a scan never grows the accumulator beyond the cap
/// it was under when the scan began.
pub proof fn lemma_scan_preserves_cap(
    s: Seq<u8>,
    i: int,
    acc: Seq<u8>,
    max: nat,
    message_mode: bool,
    unicode: bool,
)
    requires
        acc.len() <= max,
    ensures
        spec_scan(s, i, acc, max, message_mode, unicode).acc.len() <= max,
    decreases s.len() - i,
{
    if 0 <= i < s.len() {
        let b = s[i];
        if b == IAC && i + 1 < s.len() {
            let c = s[i + 1];
            if c == IAC {
                lemma_scan_preserves_cap(
                    s,
                    i + 2,
                    if acc.len() < max {
                        acc.push(IAC)
                    } else {
                        acc
                    },
                    max,
                    message_mode,
                    unicode,
                );
            } else if c == NOP {
                lemma_scan_preserves_cap(s, i + 2, acc, max, message_mode, unicode);
            } else if !(c == DO || c == DONT || c == WILL || c == WONT || c == SB) {
                lemma_scan_preserves_cap(s, i + 1, acc, max, message_mode, unicode);
            }
        } else if b != IAC && b == LF && !(acc.len() > 0 && acc[acc.len() - 1] == CR) {
            lemma_scan_preserves_cap(
                s,
                i + 1,
                if acc.len() < max {
                    acc.push(LF)
                } else {
                    acc
                },
                max,
                message_mode,
                unicode,
            );
        } else if b != IAC && b != LF && message_mode {
            lemma_scan_preserves_cap(
                s,
                i + 1,
                if acc.len() < max {
                    acc.push(b)
                } else {
                    acc
                },
                max,
                message_mode,
                unicode,
            );
        }
    }
}

/// Encode/decode round trip for negotiations: a `Do`, `Dont`, `Will` or
/// `Wont` of a canonical option decodes from its own three wire bytes,
/// which are consumed exactly, with the accumulator untouched.
pub proof fn lemma_round_trip_negotiation(
    event: TelnetEventView,
    acc: Seq<u8>,
    max: nat,
    message_mode: bool,
    unicode: bool,
)
    requires
        match event {
            TelnetEventView::Do(option) => option.is_canonical(),
            TelnetEventView::Dont(option) => option.is_canonical(),
            TelnetEventView::Will(option) => option.is_canonical(),
            TelnetEventView::Wont(option) => option.is_canonical(),
            _ => false,
        },
    ensures
        ({
            let bytes = crate::encode::spec_event_bytes(event, Seq::empty());
            spec_scan(bytes, 0, acc, max, message_mode, unicode) == (ScanOutcome {
                event: Some(event),
                advance: bytes.len() as int,
                acc,
            })
        }),
{
}

/// Encode/decode round trip for window sizes: provided none of the four
/// size bytes equals `IAC`, the encoded NAWS frame decodes to the same
/// width and height.
pub proof fn lemma_round_trip_window_size(
    width: u16,
    height: u16,
    acc: Seq<u8>,
    max: nat,
    message_mode: bool,
    unicode: bool,
)
    requires
        width / 256 != 255,
        width % 256 != 255,
        height / 256 != 255,
        height % 256 != 255,
    ensures
        ({
            let sub = SubnegotiationView::WindowSize(width, height);
            let frame = spec_sub_frame(sub);
            spec_scan(frame, 0, acc, max, message_mode, unicode) == (ScanOutcome {
                event: Some(TelnetEventView::Subnegotiate(sub)),
                advance: frame.len() as int,
                acc,
            })
        }),
{
    let sub = SubnegotiationView::WindowSize(width, height);
    let p = spec_sub_payload(sub);
    assert(iac_free(p)) by {
        assert(p[0] == (width / 256) as u8 && p[1] == (width % 256) as u8);
        assert(p[2] == (height / 256) as u8 && p[3] == (height % 256) as u8);
    }
    lemma_scan_frame(NAWS, p, acc, max, message_mode, unicode);
    assert(spec_sub_frame(sub) =~= seq![IAC, SB, NAWS] + p + seq![IAC, SE]);
    assert(spec_decode_sub(NAWS, p) == Some(sub)) by {
        assert(((p[0] as int) * 256 + (p[1] as int)) as u16 == width);
        assert(((p[2] as int) * 256 + (p[3] as int)) as u16 == height);
    }
}

/// Encode/decode round trip for an accepted charset whose name holds no
/// `IAC`.
pub proof fn lemma_round_trip_charset_accepted(
    charset: Seq<u8>,
    acc: Seq<u8>,
    max: nat,
    message_mode: bool,
    unicode: bool,
)
    requires
        iac_free(charset),
    ensures
        ({
            let sub = SubnegotiationView::CharsetAccepted(charset);
            let frame = spec_sub_frame(sub);
            spec_scan(frame, 0, acc, max, message_mode, unicode) == (ScanOutcome {
                event: Some(TelnetEventView::Subnegotiate(sub)),
                advance: frame.len() as int,
                acc,
            })
        }),
{
    let sub = SubnegotiationView::CharsetAccepted(charset);
    let p = spec_sub_payload(sub);
    assert(iac_free(p)) by {
        assert(forall|k: int| 1 <= k < p.len() ==> p[k] == charset[k - 1]);
        assert(p[0] == CHARSET_ACCEPTED);
    }
    lemma_scan_frame(CHARSET, p, acc, max, message_mode, unicode);
    assert(spec_sub_frame(sub) =~= seq![IAC, SB, CHARSET] + p + seq![IAC, SE]);
    assert(p.skip(1) =~= charset);
}

/// Encode/decode round trip for the two nullary charset answers.
pub proof fn lemma_round_trip_charset_nullary(
    sub: SubnegotiationView,
    acc: Seq<u8>,
    max: nat,
    message_mode: bool,
    unicode: bool,
)
    requires
        sub is CharsetRejected || sub is CharsetTTableRejected,
    ensures
        ({
            let frame = spec_sub_frame(sub);
            spec_scan(frame, 0, acc, max, message_mode, unicode) == (ScanOutcome {
                event: Some(TelnetEventView::Subnegotiate(sub)),
                advance: frame.len() as int,
                acc,
            })
        }),
{
    let p = spec_sub_payload(sub);
    lemma_scan_frame(CHARSET, p, acc, max, message_mode, unicode);
    assert(spec_sub_frame(sub) =~= seq![IAC, SB, CHARSET] + p + seq![IAC, SE]);
}

/// Encode/decode round trip for a LINEMODE mode mask other than `IAC`.
pub proof fn lemma_round_trip_linemode_mode(
    mask: u8,
    acc: Seq<u8>,
    max: nat,
    message_mode: bool,
    unicode: bool,
)
    requires
        mask != IAC,
    ensures
        ({
            let sub = SubnegotiationView::LineMode(LineModeView::Mode(mask));
            let frame = spec_sub_frame(sub);
            spec_scan(frame, 0, acc, max, message_mode, unicode) == (ScanOutcome {
                event: Some(TelnetEventView::Subnegotiate(sub)),
                advance: frame.len() as int,
                acc,
            })
        }),
{
    let sub = SubnegotiationView::LineMode(LineModeView::Mode(mask));
    let p = spec_sub_payload(sub);
    assert(iac_free(p)) by {
        assert(p[0] == MODE && p[1] == mask);
    }
    lemma_scan_frame(LINEMODE, p, acc, max, message_mode, unicode);
    assert(spec_sub_frame(sub) =~= seq![IAC, SB, LINEMODE] + p + seq![IAC, SE]);
}

/// ForwardMask::Do padding: the encoded mask payload is always exactly 16
/// bytes, the given mask zero-padded or truncated.
pub proof fn lemma_fmask_padding(mask: Seq<u8>)
    ensures
        spec_fmask_bytes(mask).len() == 16,
        mask.len() <= 16 ==> spec_fmask_bytes(mask) == mask + Seq::new(
            (16 - mask.len()) as nat,
            |i: int| 0u8,
        ),
        mask.len() >= 16 ==> spec_fmask_bytes(mask) == mask.take(16),
{
    if mask.len() == 16 {
        assert(mask.take(16) =~= mask + Seq::new(0, |i: int| 0u8));
    }
}

/// Encode/decode round trip for a forward mask request: decoding the
/// encoded `Do(mask)` yields exactly the 16-byte zero-padded or truncated
/// mask, so a mask of 16 bytes round-trips unchanged.
pub proof fn lemma_round_trip_forward_mask_do(
    mask: Seq<u8>,
    acc: Seq<u8>,
    max: nat,
    message_mode: bool,
    unicode: bool,
)
    requires
        iac_free(spec_fmask_bytes(mask)),
    ensures
        ({
            let sub = SubnegotiationView::LineMode(
                LineModeView::ForwardMask(ForwardMaskView::Do(mask)),
            );
            let frame = spec_sub_frame(sub);
            &&& spec_scan(frame, 0, acc, max, message_mode, unicode) == (ScanOutcome {
                event: Some(
                    TelnetEventView::Subnegotiate(
                        SubnegotiationView::LineMode(
                            LineModeView::ForwardMask(ForwardMaskView::Do(spec_fmask_bytes(mask))),
                        ),
                    ),
                ),
                advance: frame.len() as int,
                acc,
            })
            &&& (mask.len() == 16 ==> spec_fmask_bytes(mask) == mask)
        }),
{
    let sub = SubnegotiationView::LineMode(LineModeView::ForwardMask(ForwardMaskView::Do(mask)));
    let p = spec_sub_payload(sub);
    lemma_fmask_padding(mask);
    assert(iac_free(p)) by {
        assert(p[0] == DO && p[1] == LINEMODE_FORWARD_MASK);
        assert(forall|k: int| 2 <= k < p.len() ==> p[k] == spec_fmask_bytes(mask)[k - 2]);
    }
    lemma_scan_frame(LINEMODE, p, acc, max, message_mode, unicode);
    assert(spec_sub_frame(sub) =~= seq![IAC, SB, LINEMODE] + p + seq![IAC, SE]);
    assert(p.skip(2) =~= spec_fmask_bytes(mask));
    if mask.len() == 16 {
        assert(spec_fmask_bytes(mask) =~= mask);
    }
}

/// Encode/decode round trip for the three nullary forward-mask answers.
pub proof fn lemma_round_trip_forward_mask_simple(
    fm: ForwardMaskView,
    acc: Seq<u8>,
    max: nat,
    message_mode: bool,
    unicode: bool,
)
    requires
        fm is Dont || fm is Will || fm is Wont,
    ensures
        ({
            let sub = SubnegotiationView::LineMode(LineModeView::ForwardMask(fm));
            let frame = spec_sub_frame(sub);
            spec_scan(frame, 0, acc, max, message_mode, unicode) == (ScanOutcome {
                event: Some(TelnetEventView::Subnegotiate(sub)),
                advance: frame.len() as int,
                acc,
            })
        }),
{
    let sub = SubnegotiationView::LineMode(LineModeView::ForwardMask(fm));
    let p = spec_sub_payload(sub);
    assert(iac_free(p)) by {
        assert(p[0] == fm.spec_byte() && p[1] == LINEMODE_FORWARD_MASK);
    }
    lemma_scan_frame(LINEMODE, p, acc, max, message_mode, unicode);
    assert(spec_sub_frame(sub) =~= seq![IAC, SB, LINEMODE] + p + seq![IAC, SE]);
}

/// Encode/decode round trip for an unknown LINEMODE suboption whose
/// introducing byte collides with no known suboption and whose payload
/// holds no `IAC`.
pub proof fn lemma_round_trip_linemode_unknown(
    option: u8,
    data: Seq<u8>,
    acc: Seq<u8>,
    max: nat,
    message_mode: bool,
    unicode: bool,
)
    requires
        iac_free(data),
        option != MODE,
        option != LINEMODE_FORWARD_MASK,
        option != LINEMODE_SLC,
        option != WILL,
        option != WONT,
        option != DO,
        option != DONT,
        option != IAC,
    ensures
        ({
            let sub = SubnegotiationView::LineMode(LineModeView::Unknown(option, data));
            let frame = spec_sub_frame(sub);
            spec_scan(frame, 0, acc, max, message_mode, unicode) == (ScanOutcome {
                event: Some(TelnetEventView::Subnegotiate(sub)),
                advance: frame.len() as int,
                acc,
            })
        }),
{
    let sub = SubnegotiationView::LineMode(LineModeView::Unknown(option, data));
    let p = spec_sub_payload(sub);
    assert(iac_free(p)) by {
        assert(p[0] == option);
        assert(forall|k: int| 1 <= k < p.len() ==> p[k] == data[k - 1]);
    }
    lemma_scan_frame(LINEMODE, p, acc, max, message_mode, unicode);
    assert(spec_sub_frame(sub) =~= seq![IAC, SB, LINEMODE] + p + seq![IAC, SE]);
    assert(p.skip(1) =~= data);
}

/// Encode/decode round trip for a subnegotiation of an unknown option: the
/// payload is written with `IAC` doubled and decoded back verbatim,
/// provided the option is canonical and not one of the parsed options.
pub proof fn lemma_round_trip_sub_unknown(
    option: TelnetOption,
    data: Seq<u8>,
    acc: Seq<u8>,
    max: nat,
    message_mode: bool,
    unicode: bool,
)
    requires
        option.is_canonical(),
        option.spec_byte() != NAWS,
        option.spec_byte() != CHARSET,
        option.spec_byte() != LINEMODE,
        option.spec_byte() != crate::constants::ENVIRON,
    ensures
        ({
            let sub = SubnegotiationView::Unknown(option, data);
            let frame = spec_sub_frame(sub);
            spec_scan(frame, 0, acc, max, message_mode, unicode) == (ScanOutcome {
                event: Some(TelnetEventView::Subnegotiate(sub)),
                advance: frame.len() as int,
                acc,
            })
        }),
{
    let sub = SubnegotiationView::Unknown(option, data);
    lemma_scan_frame_escaped(
        option.spec_byte(),
        data,
        acc,
        max,
        message_mode,
        unicode,
    );
    assert(spec_sub_frame(sub) =~= seq![IAC, SB, option.spec_byte()] + spec_escape_iac(data)
        + seq![IAC, SE]);
    assert(spec_decode_sub(option.spec_byte(), data) == Some(sub));
}

/// A separator-free run ends where the separator or the end of input
/// stands.
pub proof fn lemma_sep_end_at(s: Seq<u8>, sep: u8, i: int, m: int)
    requires
        0 <= i <= m <= s.len(),
        forall|k: int| i <= k < m ==> s[k] != sep,
        m == s.len() || s[m] == sep,
    ensures
        crate::decode::spec_sep_end(s, sep, i) == m,
    decreases m - i,
{
    if i < m {
        lemma_sep_end_at(s, sep, i + 1, m);
    }
}

/// Splitting a joined list of separator-free names recovers the names.
pub proof fn lemma_split_join(names: Seq<Seq<u8>>, sep: u8)
    requires
        names.len() >= 1,
        forall|j: int, k: int|
            0 <= j < names.len() && 0 <= k < names[j].len() ==> names[j][k] != sep,
    ensures
        crate::decode::spec_split_bytes(crate::encode::spec_join_charsets(names, sep), sep)
            == names,
    decreases names.len(),
{
    let s = crate::encode::spec_join_charsets(names, sep);
    let n0 = names[0];
    if names.len() == 1 {
        assert(names.skip(1) =~= Seq::<Seq<u8>>::empty());
        assert(crate::encode::spec_join_tail(Seq::<Seq<u8>>::empty(), sep) =~= Seq::<u8>::empty());
        assert(s =~= n0);
        lemma_sep_end_at(s, sep, 0, s.len() as int);
        assert(crate::decode::spec_split_bytes(s, sep) =~= seq![s]);
        assert(seq![s] =~= names);
    } else {
        let rest = names.skip(1);
        assert(crate::encode::spec_join_tail(rest, sep) == seq![sep] + rest[0]
            + crate::encode::spec_join_tail(rest.skip(1), sep));
        assert(crate::encode::spec_join_charsets(rest, sep) == rest[0]
            + crate::encode::spec_join_tail(rest.skip(1), sep));
        let joined_rest = crate::encode::spec_join_charsets(rest, sep);
        assert(s =~= n0 + seq![sep] + joined_rest);
        assert(forall|k: int| 0 <= k < n0.len() ==> s[k] != sep);
        assert(s[n0.len() as int] == sep);
        lemma_sep_end_at(s, sep, 0, n0.len() as int);
        assert(s.take(n0.len() as int) =~= n0);
        assert(s.skip(n0.len() as int + 1) =~= joined_rest);
        lemma_split_join(rest, sep);
        assert(crate::decode::spec_split_bytes(s, sep) =~= seq![n0] + rest);
        assert(seq![n0] + rest =~= names);
    }
}

/// Encode/decode round trip for a charset request: a non-empty list of
/// names, none holding a space or an `IAC`, decodes from its own frame.
/// The encoder places a space as the separator.
pub proof fn lemma_round_trip_charset_request(
    charsets: Seq<Seq<u8>>,
    acc: Seq<u8>,
    max: nat,
    message_mode: bool,
    unicode: bool,
)
    requires
        charsets.len() >= 1,
        forall|j: int, k: int|
            0 <= j < charsets.len() && 0 <= k < charsets[j].len() ==> charsets[j][k] != 32u8,
        forall|j: int, k: int|
            0 <= j < charsets.len() && 0 <= k < charsets[j].len() ==> charsets[j][k] != IAC,
    ensures
        ({
            let sub = SubnegotiationView::CharsetRequest(charsets);
            let frame = spec_sub_frame(sub);
            spec_scan(frame, 0, acc, max, message_mode, unicode) == (ScanOutcome {
                event: Some(TelnetEventView::Subnegotiate(sub)),
                advance: frame.len() as int,
                acc,
            })
        }),
{
    let sub = SubnegotiationView::CharsetRequest(charsets);
    let joined = crate::encode::spec_join_charsets(charsets, 32u8);
    let p = spec_sub_payload(sub);
    assert(p =~= seq![CHARSET_REQUEST, 32u8] + joined);
    lemma_join_iac_free(charsets, 32u8);
    assert(iac_free(p)) by {
        assert(p[0] == CHARSET_REQUEST && p[1] == 32u8);
        assert(forall|k: int| 2 <= k < p.len() ==> p[k] == joined[k - 2]);
    }
    lemma_scan_frame(CHARSET, p, acc, max, message_mode, unicode);
    assert(spec_sub_frame(sub) =~= seq![IAC, SB, CHARSET] + p + seq![IAC, SE]);
    assert(p.skip(2) =~= joined);
    lemma_split_join(charsets, 32u8);
}

/// A join of `IAC`-free names with a non-`IAC` separator is `IAC`-free.
proof fn lemma_join_iac_free(names: Seq<Seq<u8>>, sep: u8)
    requires
        sep != IAC,
        forall|j: int, k: int|
            0 <= j < names.len() && 0 <= k < names[j].len() ==> names[j][k] != IAC,
    ensures
        iac_free(crate::encode::spec_join_charsets(names, sep)),
    decreases names.len(),
{
    if names.len() != 0 {
        lemma_join_tail_iac_free(names.skip(1), sep);
    }
}

/// The tail of a join of `IAC`-free names is `IAC`-free.
proof fn lemma_join_tail_iac_free(names: Seq<Seq<u8>>, sep: u8)
    requires
        sep != IAC,
        forall|j: int, k: int|
            0 <= j < names.len() && 0 <= k < names[j].len() ==> names[j][k] != IAC,
    ensures
        iac_free(crate::encode::spec_join_tail(names, sep)),
    decreases names.len(),
{
    if names.len() != 0 {
        assert(forall|j: int, k: int|
            0 <= j < names.skip(1).len() && 0 <= k < names.skip(1)[j].len() ==> names.skip(
                1,
            )[j][k] != IAC);
        lemma_join_tail_iac_free(names.skip(1), sep);
    }
}

/// The modifier byte of a dispatch never equals `IAC`.
pub proof fn lemma_modifier_byte_not_iac(m: crate::linemode::Modifiers)
    ensures
        m.spec_byte() != IAC,
{
    let l = m.level.spec_byte();
    let a: u8 = if m.ack {
        128
    } else {
        0
    };
    let fi: u8 = if m.flush_in {
        64
    } else {
        0
    };
    let fo: u8 = if m.flush_out {
        32
    } else {
        0
    };
    assert(crate::constants::SLC_ACK == 128 && crate::constants::SLC_FLUSHIN == 64
        && crate::constants::SLC_FLUSHOUT == 32);
    assert(m.spec_byte() == l | a | fi | fo);
    assert((l | a | fi | fo) != 255u8) by (bit_vector)
        requires
            l < 4,
            a == 128 || a == 0,
            fi == 64 || fi == 0,
            fo == 32 || fo == 0,
    ;
}

/// Reading SLC triples back from their own wire bytes yields the same
/// triples, provided each function is canonical and each character fits in
/// one byte.
pub proof fn lemma_slc_triples_round_trip(triples: Seq<(crate::linemode::Dispatch, char)>)
    requires
        forall|j: int|
            0 <= j < triples.len() ==> (#[trigger] triples[j]).0.function.is_canonical(),
        forall|j: int| 0 <= j < triples.len() ==> ((#[trigger] triples[j]).1 as u32) < 256,
    ensures
        crate::decode::spec_slc_triples(crate::encode::spec_slc_bytes(triples)) == triples,
    decreases triples.len(),
{
    broadcast use vstd::utf8::char_u32_cast;

    let bytes = crate::encode::spec_slc_bytes(triples);
    if triples.len() == 0 {
        assert(bytes =~= Seq::<u8>::empty());
        assert(crate::decode::spec_slc_triples(bytes) =~= triples);
    } else {
        let d = triples[0].0;
        let ch = triples[0].1;
        let head = seq![d.function.spec_byte(), d.modifiers.spec_byte(), (ch as u32) as u8];
        let tail = crate::encode::spec_slc_bytes(triples.skip(1));
        assert(bytes == head + tail);
        assert(bytes.len() >= 3);
        assert(bytes[0] == d.function.spec_byte() && bytes[1] == d.modifiers.spec_byte()
            && bytes[2] == (ch as u32) as u8);
        crate::linemode::lemma_modifiers_round_trip(d.modifiers);
        let y: u8 = (ch as u32) as u8;
        assert(y as u32 == ch as u32);
        assert((y as char) as u32 == y as u32);
        vstd::utf8::char_u32_cast(ch, ch as u32);
        vstd::utf8::char_u32_cast(y as char, (y as char) as u32);
        assert((y as char) == ch);
        assert(crate::linemode::Dispatch::spec_from_bytes(bytes[0], bytes[1]) == d);
        assert(forall|j: int|
            0 <= j < triples.skip(1).len() ==> (#[trigger] triples.skip(
                1,
            )[j]).0.function.is_canonical());
        assert(forall|j: int|
            0 <= j < triples.skip(1).len() ==> ((#[trigger] triples.skip(1)[j]).1 as u32) < 256);
        lemma_slc_triples_round_trip(triples.skip(1));
        assert(bytes.skip(3) =~= tail);
        assert(crate::decode::spec_slc_triples(bytes) =~= seq![
            (crate::linemode::Dispatch::spec_from_bytes(bytes[0], bytes[1]), bytes[2] as char),
        ] + crate::decode::spec_slc_triples(bytes.skip(3)));
        assert(crate::decode::spec_slc_triples(bytes) =~= triples);
    }
}

/// SLC round trip: encoding a list of SLC triples and decoding the frame
/// yields the same list, provided each function is canonical with a wire
/// byte other than `IAC` and each character's codepoint fits below 255.
pub proof fn lemma_round_trip_slc(
    triples: Seq<(crate::linemode::Dispatch, char)>,
    acc: Seq<u8>,
    max: nat,
    message_mode: bool,
    unicode: bool,
)
    requires
        triples.len() >= 1,
        forall|j: int|
            0 <= j < triples.len() ==> (#[trigger] triples[j]).0.function.is_canonical(),
        forall|j: int|
            0 <= j < triples.len() ==> (#[trigger] triples[j]).0.function.spec_byte() != IAC,
        forall|j: int| 0 <= j < triples.len() ==> ((#[trigger] triples[j]).1 as u32) < 255,
    ensures
        ({
            let sub = SubnegotiationView::LineMode(LineModeView::SLC(triples));
            let frame = spec_sub_frame(sub);
            spec_scan(frame, 0, acc, max, message_mode, unicode) == (ScanOutcome {
                event: Some(TelnetEventView::Subnegotiate(sub)),
                advance: frame.len() as int,
                acc,
            })
        }),
{
    let sub = SubnegotiationView::LineMode(LineModeView::SLC(triples));
    let body = crate::encode::spec_slc_bytes(triples);
    let p = spec_sub_payload(sub);
    assert(p =~= seq![LINEMODE_SLC] + body);
    lemma_slc_bytes_iac_free(triples);
    assert(iac_free(p)) by {
        assert(p[0] == LINEMODE_SLC);
        assert(forall|k: int| 1 <= k < p.len() ==> p[k] == body[k - 1]);
    }
    lemma_scan_frame(LINEMODE, p, acc, max, message_mode, unicode);
    assert(spec_sub_frame(sub) =~= seq![IAC, SB, LINEMODE] + p + seq![IAC, SE]);
    assert(p.skip(1) =~= body);
    assert(forall|j: int| 0 <= j < triples.len() ==> ((#[trigger] triples[j]).1 as u32) < 256);
    lemma_slc_triples_round_trip(triples);
    assert(p[0] != WILL && p[0] != WONT && p[0] != DO && p[0] != DONT && p[0]
        != LINEMODE_FORWARD_MASK && p[0] != MODE);
}

/// The wire bytes of SLC triples hold no `IAC` when no function byte and
/// no character byte equals `IAC`.
proof fn lemma_slc_bytes_iac_free(triples: Seq<(crate::linemode::Dispatch, char)>)
    requires
        forall|j: int|
            0 <= j < triples.len() ==> (#[trigger] triples[j]).0.function.spec_byte() != IAC,
        forall|j: int| 0 <= j < triples.len() ==> ((#[trigger] triples[j]).1 as u32) < 255,
    ensures
        iac_free(crate::encode::spec_slc_bytes(triples)),
    decreases triples.len(),
{
    if triples.len() != 0 {
        lemma_modifier_byte_not_iac(triples[0].0.modifiers);
        assert(forall|j: int|
            0 <= j < triples.skip(1).len() ==> (#[trigger] triples.skip(
                1,
            )[j]).0.function.spec_byte() != IAC);
        assert(forall|j: int|
            0 <= j < triples.skip(1).len() ==> ((#[trigger] triples.skip(1)[j]).1 as u32) < 255);
        lemma_slc_bytes_iac_free(triples.skip(1));
        assert(((triples[0].1 as u32) as u8) != IAC);
    }
}

/// Scanning a run of escaped data bytes in message mode accumulates the
/// original bytes: every doubled `IAC` becomes one literal `IAC`, and the
/// scan continues past the run.
pub proof fn lemma_scan_escaped_run(
    s: Seq<u8>,
    i: int,
    acc: Seq<u8>,
    d: Seq<u8>,
    max: nat,
    unicode: bool,
)
    requires
        0 <= i <= s.len(),
        s.skip(i) == spec_escape_iac(d) + s.skip(i + spec_escape_iac(d).len()),
        i + spec_escape_iac(d).len() <= s.len(),
        forall|k: int| 0 <= k < d.len() ==> d[k] != LF,
        acc.len() + d.len() <= max,
    ensures
        spec_scan(s, i, acc, max, true, unicode) == spec_scan(
            s,
            i + spec_escape_iac(d).len(),
            acc + d,
            max,
            true,
            unicode,
        ),
    decreases d.len(),
{
    if d.len() == 0 {
        assert(acc + d =~= acc);
    } else {
        let b = d[0];
        let e = spec_escape_iac(d);
        let head: Seq<u8> = if b == IAC {
            seq![IAC, IAC]
        } else {
            seq![b]
        };
        assert(e == head + spec_escape_iac(d.skip(1)));
        let step = head.len() as int;
        assert forall|k: int| 0 <= k < e.len() implies s[i + k] == e[k] by {
            assert(s.skip(i)[k] == (spec_escape_iac(d) + s.skip(i + e.len()))[k]);
            assert(s.skip(i)[k] == s[i + k]);
        }
        assert(s.skip(i + step) =~= s.skip(i).skip(step));
        assert(s.skip(i).skip(step) =~= spec_escape_iac(d.skip(1)) + s.skip(i + e.len()));
        assert(s.skip(i + step) == spec_escape_iac(d.skip(1)) + s.skip(
            i + step + spec_escape_iac(d.skip(1)).len(),
        ));
        lemma_scan_escaped_run(s, i + step, acc.push(b), d.skip(1), max, unicode);
        assert(acc.push(b) + d.skip(1) =~= acc + d);
        if b == IAC {
            assert(e[0] == IAC && e[1] == IAC);
            assert(s[i + 0] == e[0] && s[i + 1] == e[1]);
            assert(s[i] == IAC && s[i + 1] == IAC);
        } else {
            assert(e[0] == b);
            assert(s[i + 0] == e[0]);
            assert(s[i] == b && b != IAC && b != LF);
        }
    }
}

/// IAC escaping of messages: the wire form of a message payload is its
/// bytes with each `IAC` doubled followed by `CR LF`, and decoding that
/// output in message mode reconstructs the original bytes as one message,
/// provided the payload holds no line feed and fits the accumulator
/// together with the carriage return.
pub proof fn lemma_message_iac_escaping(d: Seq<u8>, max: nat, unicode: bool)
    requires
        forall|k: int| 0 <= k < d.len() ==> d[k] != LF,
        d.len() + 1 <= max,
    ensures
        ({
            let wire = spec_escape_iac(d) + seq![CR, LF];
            spec_scan(wire, 0, Seq::empty(), max, true, unicode) == (ScanOutcome {
                event: Some(TelnetEventView::Message(crate::text::lossy_utf8(d))),
                advance: wire.len() as int,
                acc: Seq::empty(),
            })
        }),
{
    let wire = spec_escape_iac(d) + seq![CR, LF];
    let dd = d.push(CR);
    crate::encode::lemma_escape_iac_append(d, seq![CR]);
    assert(d + seq![CR] =~= dd);
    assert(spec_escape_iac(seq![CR]) =~= seq![CR]) by {
        assert(seq![CR].skip(1) =~= Seq::<u8>::empty());
        assert(spec_escape_iac(Seq::<u8>::empty()) =~= Seq::<u8>::empty());
    }
    assert(spec_escape_iac(dd) =~= spec_escape_iac(d) + seq![CR]);
    assert(wire.skip(0) =~= wire);
    assert(wire.skip(spec_escape_iac(dd).len() as int) =~= seq![LF]);
    assert(wire.skip(0) == spec_escape_iac(dd) + wire.skip(spec_escape_iac(dd).len() as int));
    assert(forall|k: int| 0 <= k < dd.len() ==> dd[k] != LF);
    lemma_scan_escaped_run(wire, 0, Seq::empty(), dd, max, unicode);
    let acc1 = Seq::<u8>::empty() + dd;
    assert(acc1 =~= dd);
    let pos = spec_escape_iac(dd).len() as int;
    assert(wire[pos] == LF);
    assert(acc1.len() > 0 && acc1[acc1.len() - 1] == CR);
    assert(acc1.take(acc1.len() - 1) =~= d);
    assert(pos + 1 == wire.len());
}

/// Encode/decode round trip for messages: a message whose UTF-8 bytes hold
/// no line feed and fit the accumulator decodes from its own wire bytes,
/// emitted into an empty output buffer, as the same message.
pub proof fn lemma_round_trip_message(message: Seq<char>, max: nat, unicode: bool)
    requires
        forall|k: int|
            0 <= k < vstd::utf8::encode_utf8(message).len() ==> vstd::utf8::encode_utf8(
                message,
            )[k] != LF,
        vstd::utf8::encode_utf8(message).len() + 1 <= max,
    ensures
        ({
            let wire = crate::encode::spec_event_bytes(
                TelnetEventView::Message(message),
                Seq::empty(),
            );
            spec_scan(wire, 0, Seq::empty(), max, true, unicode) == (ScanOutcome {
                event: Some(TelnetEventView::Message(message)),
                advance: wire.len() as int,
                acc: Seq::empty(),
            })
        }),
{
    broadcast use vstd::utf8::encode_utf8_valid_utf8;
    broadcast use vstd::utf8::encode_utf8_decode_utf8;

    let bytes = vstd::utf8::encode_utf8(message);
    let body = spec_escape_iac(bytes);
    let prior = Seq::<u8>::empty();
    assert(!crate::encode::ends_with_crlf(prior + body)) by {
        if (prior + body).len() >= 2 {
            lemma_escape_iac_last_not_lf(bytes);
            assert((prior + body)[(prior + body).len() - 1] == body[body.len() - 1]);
        }
    }
    let wire = crate::encode::spec_event_bytes(TelnetEventView::Message(message), prior);
    assert(wire =~= body + seq![CR, LF]);
    lemma_message_iac_escaping(bytes, max, unicode);
    assert(crate::text::lossy_utf8(bytes) == message) by {
        assert(vstd::utf8::valid_utf8(bytes));
    }
}

/// A completed subnegotiation frame scan is unchanged by bytes that arrive
/// after the input.
pub proof fn lemma_sub_scan_extend(s: Seq<u8>, t: Seq<u8>, j: int, p: Seq<u8>, invalid: bool)
    requires
        0 <= j <= s.len(),
        spec_sub_scan(s, j, p, invalid) is Done,
    ensures
        spec_sub_scan(s + t, j, p, invalid) == spec_sub_scan(s, j, p, invalid),
    decreases s.len() - j,
{
    assert(forall|k: int| 0 <= k < s.len() ==> (s + t)[k] == s[k]);
    if j < s.len() {
        if s[j] == IAC {
            if j + 1 < s.len() {
                if s[j + 1] == SE {
                } else if s[j + 1] == IAC {
                    lemma_sub_scan_extend(s, t, j + 2, p.push(IAC), invalid);
                } else {
                    lemma_sub_scan_extend(s, t, j + 2, p, true);
                }
            }
        } else {
            lemma_sub_scan_extend(s, t, j + 1, p.push(s[j]), invalid);
        }
    }
}

/// True when the scan from `i` ends by needing more input: it ran out of
/// bytes, or it stopped at a truncated command or a truncated UTF-8
/// sequence. A scan that is not held is complete: it either yielded an
/// event or consumed and discarded a whole malformed frame.
pub open spec fn spec_scan_needs_more(
    s: Seq<u8>,
    i: int,
    acc: Seq<u8>,
    max: nat,
    message_mode: bool,
    unicode: bool,
) -> bool
    decreases s.len() - i,
{
    if i < 0 || i >= s.len() {
        true
    } else {
        let b = s[i];
        if b == IAC {
            if i + 1 >= s.len() {
                true
            } else {
                let c = s[i + 1];
                if c == IAC {
                    spec_scan_needs_more(
                        s,
                        i + 2,
                        if acc.len() < max {
                            acc.push(IAC)
                        } else {
                            acc
                        },
                        max,
                        message_mode,
                        unicode,
                    )
                } else if c == DO || c == DONT || c == WILL || c == WONT {
                    i + 2 >= s.len()
                } else if c == SB {
                    i + 2 >= s.len() || spec_sub_scan(s, i + 3, Seq::empty(), false) is More
                } else if c == NOP {
                    spec_scan_needs_more(s, i + 2, acc, max, message_mode, unicode)
                } else {
                    spec_scan_needs_more(s, i + 1, acc, max, message_mode, unicode)
                }
            }
        } else if b == LF {
            if acc.len() > 0 && acc[acc.len() - 1] == CR {
                false
            } else if acc.len() >= max {
                false
            } else {
                spec_scan_needs_more(
                    s,
                    i + 1,
                    if acc.len() < max {
                        acc.push(LF)
                    } else {
                        acc
                    },
                    max,
                    message_mode,
                    unicode,
                )
            }
        } else if !message_mode {
            if !unicode {
                false
            } else {
                let w = spec_utf8_width(b);
                w != 1 && i + w > s.len()
            }
        } else {
            spec_scan_needs_more(
                s,
                i + 1,
                if acc.len() < max {
                    acc.push(b)
                } else {
                    acc
                },
                max,
                message_mode,
                unicode,
            )
        }
    }
}

/// A held scan yields no event.
pub proof fn lemma_needs_more_no_event(
    s: Seq<u8>,
    i: int,
    acc: Seq<u8>,
    max: nat,
    message_mode: bool,
    unicode: bool,
)
    requires
        spec_scan_needs_more(s, i, acc, max, message_mode, unicode),
    ensures
        spec_scan(s, i, acc, max, message_mode, unicode).event is None,
    decreases s.len() - i,
{
    if 0 <= i < s.len() {
        let b = s[i];
        if b == IAC && i + 1 < s.len() {
            let c = s[i + 1];
            if c == IAC {
                lemma_needs_more_no_event(
                    s,
                    i + 2,
                    if acc.len() < max {
                        acc.push(IAC)
                    } else {
                        acc
                    },
                    max,
                    message_mode,
                    unicode,
                );
            } else if c == NOP {
                lemma_needs_more_no_event(s, i + 2, acc, max, message_mode, unicode);
            } else if !(c == DO || c == DONT || c == WILL || c == WONT || c == SB) {
                lemma_needs_more_no_event(s, i + 1, acc, max, message_mode, unicode);
            }
        } else if b != IAC && b == LF {
            if !(acc.len() > 0 && acc[acc.len() - 1] == CR) && acc.len() < max {
                lemma_needs_more_no_event(s, i + 1, acc.push(LF), max, message_mode, unicode);
            }
        } else if b != IAC && b != LF && message_mode {
            lemma_needs_more_no_event(
                s,
                i + 1,
                if acc.len() < max {
                    acc.push(b)
                } else {
                    acc
                },
                max,
                message_mode,
                unicode,
            );
        }
    }
}

/// Byte chunk invariance, first half: a complete scan — one that yielded
/// an event or consumed a whole discarded frame — is unchanged by bytes
/// that arrive after the input. Together with [`lemma_scan_resume`], which
/// covers held scans, this makes decoding insensitive to where the wire is
/// cut: at every chunk boundary the scan either already reached the same
/// outcome the whole wire gives, or resumes exactly where it held.
pub proof fn lemma_scan_complete_stable(
    s: Seq<u8>,
    t: Seq<u8>,
    i: int,
    acc: Seq<u8>,
    max: nat,
    message_mode: bool,
    unicode: bool,
)
    requires
        0 <= i <= s.len(),
        !spec_scan_needs_more(s, i, acc, max, message_mode, unicode),
    ensures
        spec_scan(s + t, i, acc, max, message_mode, unicode) == spec_scan(
            s,
            i,
            acc,
            max,
            message_mode,
            unicode,
        ),
    decreases s.len() - i,
{
    assert(forall|k: int| 0 <= k < s.len() ==> (s + t)[k] == s[k]);
    let b = s[i];
    if b == IAC {
        if i + 1 < s.len() {
            let c = s[i + 1];
            if c == IAC {
                lemma_scan_complete_stable(
                    s,
                    t,
                    i + 2,
                    if acc.len() < max {
                        acc.push(IAC)
                    } else {
                        acc
                    },
                    max,
                    message_mode,
                    unicode,
                );
            } else if c == DO || c == DONT || c == WILL || c == WONT {
            } else if c == SB {
                match spec_sub_scan(s, i + 3, Seq::empty(), false) {
                    SubScan::Done { .. } => {
                        lemma_sub_scan_extend(s, t, i + 3, Seq::empty(), false);
                    },
                    SubScan::More => {},
                }
            } else if c == NOP {
                lemma_scan_complete_stable(s, t, i + 2, acc, max, message_mode, unicode);
            } else {
                lemma_scan_complete_stable(s, t, i + 1, acc, max, message_mode, unicode);
            }
        }
    } else if b == LF {
        if !(acc.len() > 0 && acc[acc.len() - 1] == CR) && acc.len() < max {
            lemma_scan_complete_stable(s, t, i + 1, acc.push(LF), max, message_mode, unicode);
        }
    } else if !message_mode {
        if unicode {
            let w = crate::decode::spec_utf8_width(b);
            if w != 1 && i + w <= s.len() {
                assert((s + t).subrange(i, i + w) =~= s.subrange(i, i + w));
            }
        }
    } else {
        lemma_scan_complete_stable(
            s,
            t,
            i + 1,
            if acc.len() < max {
                acc.push(b)
            } else {
                acc
            },
            max,
            message_mode,
            unicode,
        );
    }
}

/// A subnegotiation frame scan looks only forward: scanning from a shifted
/// position in the whole input equals scanning the suffix, with the end
/// position shifted back.
pub proof fn lemma_sub_scan_shift(w: Seq<u8>, base: int, j: int, p: Seq<u8>, invalid: bool)
    requires
        0 <= base,
        0 <= j,
        base + j <= w.len(),
    ensures
        ({
            match spec_sub_scan(w.skip(base), j, p, invalid) {
                SubScan::Done { payload, invalid: inv2, end } => spec_sub_scan(
                    w,
                    base + j,
                    p,
                    invalid,
                ) == (SubScan::Done { payload, invalid: inv2, end: base + end }),
                SubScan::More => spec_sub_scan(w, base + j, p, invalid) is More,
            }
        }),
    decreases w.len() - base - j,
{
    let sk = w.skip(base);
    if base + j < w.len() {
        assert(sk[j] == w[base + j]);
        if w[base + j] == IAC {
            if base + j + 1 < w.len() {
                assert(sk[j + 1] == w[base + j + 1]);
                if w[base + j + 1] == SE {
                } else if w[base + j + 1] == IAC {
                    lemma_sub_scan_shift(w, base, j + 2, p.push(IAC), invalid);
                } else {
                    lemma_sub_scan_shift(w, base, j + 2, p, true);
                }
            }
        } else {
            lemma_sub_scan_shift(w, base, j + 1, p.push(w[base + j]), invalid);
        }
    }
}

/// The scan looks only forward: scanning from a shifted position in the
/// whole input equals scanning the suffix, with the consumed count shifted
/// back.
pub proof fn lemma_scan_shift(
    w: Seq<u8>,
    base: int,
    i: int,
    acc: Seq<u8>,
    max: nat,
    message_mode: bool,
    unicode: bool,
)
    requires
        0 <= base,
        0 <= i,
        base + i <= w.len(),
    ensures
        ({
            let r = spec_scan(w.skip(base), i, acc, max, message_mode, unicode);
            spec_scan(w, base + i, acc, max, message_mode, unicode) == (ScanOutcome {
                event: r.event,
                advance: base + r.advance,
                acc: r.acc,
            })
        }),
    decreases w.len() - base - i,
{
    let sk = w.skip(base);
    if base + i < w.len() {
        let b = w[base + i];
        assert(sk[i] == b);
        if b == IAC {
            if base + i + 1 < w.len() {
                let c = w[base + i + 1];
                assert(sk[i + 1] == c);
                if c == IAC {
                    lemma_scan_shift(
                        w,
                        base,
                        i + 2,
                        if acc.len() < max {
                            acc.push(IAC)
                        } else {
                            acc
                        },
                        max,
                        message_mode,
                        unicode,
                    );
                } else if c == DO || c == DONT || c == WILL || c == WONT {
                    if base + i + 2 < w.len() {
                        assert(sk[i + 2] == w[base + i + 2]);
                    }
                } else if c == SB {
                    if base + i + 2 < w.len() {
                        assert(sk[i + 2] == w[base + i + 2]);
                        lemma_sub_scan_shift(w, base, i + 3, Seq::empty(), false);
                    }
                } else if c == NOP {
                    lemma_scan_shift(w, base, i + 2, acc, max, message_mode, unicode);
                } else {
                    lemma_scan_shift(w, base, i + 1, acc, max, message_mode, unicode);
                }
            }
        } else if b == LF {
            if !(acc.len() > 0 && acc[acc.len() - 1] == CR) && acc.len() < max {
                lemma_scan_shift(w, base, i + 1, acc.push(LF), max, message_mode, unicode);
            }
        } else if !message_mode {
            if unicode {
                let wd = crate::decode::spec_utf8_width(b);
                if wd != 1 && base + i + wd <= w.len() {
                    assert forall|k: int|
                        0 <= k < wd implies #[trigger] w.subrange(base + i, base + i + wd)[k]
                        == sk.subrange(i, i + wd)[k] by {
                        assert(w.subrange(base + i, base + i + wd)[k] == w[base + i + k]);
                        assert(sk.subrange(i, i + wd)[k] == sk[i + k]);
                        assert(sk[i + k] == w[base + i + k]);
                    }
                    assert(w.subrange(base + i, base + i + wd) =~= sk.subrange(i, i + wd));
                }
            }
        } else {
            lemma_scan_shift(
                w,
                base,
                i + 1,
                if acc.len() < max {
                    acc.push(b)
                } else {
                    acc
                },
                max,
                message_mode,
                unicode,
            );
        }
    }
}

/// Byte chunk invariance, second half: a held scan resumes exactly. When
/// the scan of `s` ends by needing more input, scanning `s` extended by
/// later bytes `t` yields precisely what a fresh scan of the unconsumed
/// tail of `s` followed by `t` yields, starting from the held accumulator,
/// with the consumed counts adding up. Held bytes are therefore never
/// scanned twice, and decoding chunk by chunk emits the same events as
/// decoding the whole wire.
pub proof fn lemma_scan_resume(
    s: Seq<u8>,
    t: Seq<u8>,
    i: int,
    acc: Seq<u8>,
    max: nat,
    message_mode: bool,
    unicode: bool,
)
    requires
        0 <= i <= s.len(),
        spec_scan_needs_more(s, i, acc, max, message_mode, unicode),
    ensures
        ({
            let held = spec_scan(s, i, acc, max, message_mode, unicode);
            let cont = spec_scan(
                s.skip(held.advance) + t,
                0,
                held.acc,
                max,
                message_mode,
                unicode,
            );
            spec_scan(s + t, i, acc, max, message_mode, unicode) == (ScanOutcome {
                event: cont.event,
                advance: held.advance + cont.advance,
                acc: cont.acc,
            })
        }),
    decreases s.len() - i,
{
    assert(forall|k: int| 0 <= k < s.len() ==> (s + t)[k] == s[k]);
    let held = spec_scan(s, i, acc, max, message_mode, unicode);
    if i >= s.len() {
        assert(held == ScanOutcome { event: None, advance: i, acc });
        assert((s + t).skip(i) =~= s.skip(i) + t);
        lemma_scan_shift(s + t, i, 0, acc, max, message_mode, unicode);
    } else {
        let b = s[i];
        if b == IAC {
            if i + 1 >= s.len() {
                assert(held == ScanOutcome { event: None, advance: i, acc });
                assert((s + t).skip(i) =~= s.skip(i) + t);
                lemma_scan_shift(s + t, i, 0, acc, max, message_mode, unicode);
            } else {
                let c = s[i + 1];
                if c == IAC {
                    lemma_scan_resume(
                        s,
                        t,
                        i + 2,
                        if acc.len() < max {
                            acc.push(IAC)
                        } else {
                            acc
                        },
                        max,
                        message_mode,
                        unicode,
                    );
                } else if c == DO || c == DONT || c == WILL || c == WONT {
                    assert(i + 2 >= s.len());
                    assert(held == ScanOutcome { event: None, advance: i, acc });
                    assert((s + t).skip(i) =~= s.skip(i) + t);
                    lemma_scan_shift(s + t, i, 0, acc, max, message_mode, unicode);
                } else if c == SB {
                    assert(held == ScanOutcome { event: None, advance: i, acc });
                    assert((s + t).skip(i) =~= s.skip(i) + t);
                    lemma_scan_shift(s + t, i, 0, acc, max, message_mode, unicode);
                } else if c == NOP {
                    lemma_scan_resume(s, t, i + 2, acc, max, message_mode, unicode);
                } else {
                    lemma_scan_resume(s, t, i + 1, acc, max, message_mode, unicode);
                }
            }
        } else if b == LF {
            lemma_scan_resume(s, t, i + 1, acc.push(LF), max, message_mode, unicode);
        } else if !message_mode {
            assert(unicode);
            let wd = crate::decode::spec_utf8_width(b);
            assert(wd != 1 && i + wd > s.len());
            assert(held == ScanOutcome { event: None, advance: i, acc });
            assert((s + t).skip(i) =~= s.skip(i) + t);
            lemma_scan_shift(s + t, i, 0, acc, max, message_mode, unicode);
        } else {
            lemma_scan_resume(
                s,
                t,
                i + 1,
                if acc.len() < max {
                    acc.push(b)
                } else {
                    acc
                },
                max,
                message_mode,
                unicode,
            );
        }
    }
}

/// An `IAC`-free byte sequence is unchanged by `IAC` doubling.
pub proof fn lemma_escape_iac_id(d: Seq<u8>)
    requires
        iac_free(d),
    ensures
        spec_escape_iac(d) == d,
    decreases d.len(),
{
    if d.len() == 0 {
        assert(spec_escape_iac(d) =~= d);
    } else {
        assert(iac_free(d.skip(1)));
        lemma_escape_iac_id(d.skip(1));
        assert(spec_escape_iac(d) =~= d);
    }
}

/// The wire bytes of SLC triples are three per triple.
pub proof fn lemma_slc_bytes_len(triples: Seq<(crate::linemode::Dispatch, char)>)
    ensures
        crate::encode::spec_slc_bytes(triples).len() == triples.len() * 3,
    decreases triples.len(),
{
    if triples.len() != 0 {
        lemma_slc_bytes_len(triples.skip(1));
    }
}

/// A join of `n` names totals their summed length plus `n - 1` separators.
pub proof fn lemma_join_len(names: Seq<Seq<u8>>, sep: u8)
    requires
        names.len() >= 1,
    ensures
        crate::encode::spec_join_charsets(names, sep).len()
            == crate::subnegotiation::spec_charsets_len(names) + names.len() - 1,
    decreases names.len(),
{
    if names.len() == 1 {
        assert(names.skip(1) =~= Seq::<Seq<u8>>::empty());
        assert(crate::encode::spec_join_tail(Seq::<Seq<u8>>::empty(), sep) =~= Seq::<u8>::empty());
        assert(crate::subnegotiation::spec_charsets_len(names.skip(1)) == 0);
    } else {
        let rest = names.skip(1);
        lemma_join_len(rest, sep);
        assert(crate::encode::spec_join_tail(rest, sep) == seq![sep] + rest[0]
            + crate::encode::spec_join_tail(rest.skip(1), sep));
        assert(crate::encode::spec_join_charsets(rest, sep) == rest[0]
            + crate::encode::spec_join_tail(rest.skip(1), sep));
    }
}

/// The length model agrees with the encoder: for every subnegotiation the
/// declared data length equals the byte count the encoder writes between
/// `IAC SB option` and `IAC SE` — for an unknown option provided its
/// payload holds no `IAC` (doubling would add bytes), and for a charset
/// request provided the name list is non-empty, as the protocol requires.
/// NEW-ENVIRON lengths are defined as the encoder's output and agree by
/// definition.
pub proof fn lemma_len_model_matches_encoder(sub: SubnegotiationView)
    requires
        match sub {
            SubnegotiationView::Unknown(_, data) => iac_free(data),
            SubnegotiationView::CharsetRequest(charsets) => charsets.len() >= 1,
            _ => true,
        },
    ensures
        spec_sub_payload(sub).len() == sub.spec_len(),
{
    match sub {
        SubnegotiationView::CharsetRequest(charsets) => {
            lemma_join_len(charsets, 32u8);
        },
        SubnegotiationView::LineMode(LineModeView::SLC(triples)) => {
            lemma_slc_bytes_len(triples);
        },
        SubnegotiationView::LineMode(LineModeView::ForwardMask(ForwardMaskView::Do(mask))) => {
            lemma_fmask_padding(mask);
        },
        SubnegotiationView::Unknown(_, data) => {
            lemma_escape_iac_id(data);
        },
        _ => {},
    }
}

/// The event length model agrees with the encoder for negotiations and
/// subnegotiations: the declared length equals the byte count the encoder
/// appends, whatever the output buffer already holds.
pub proof fn lemma_event_len_matches_encoder(event: TelnetEventView, prior: Seq<u8>)
    requires
        match event {
            TelnetEventView::Do(_) => true,
            TelnetEventView::Dont(_) => true,
            TelnetEventView::Will(_) => true,
            TelnetEventView::Wont(_) => true,
            TelnetEventView::Subnegotiate(sub) => match sub {
                SubnegotiationView::Unknown(_, data) => iac_free(data),
                SubnegotiationView::CharsetRequest(charsets) => charsets.len() >= 1,
                _ => true,
            },
            _ => false,
        },
    ensures
        crate::encode::spec_event_bytes(event, prior).len() == event.spec_len(),
{
    match event {
        TelnetEventView::Subnegotiate(sub) => {
            lemma_len_model_matches_encoder(sub);
        },
        _ => {},
    }
}

/// Valid UTF-8 never contains the byte `0xff`, so UTF-8 text passes
/// through Telnet framing without `IAC` escaping.
pub proof fn lemma_valid_utf8_iac_free(bytes: Seq<u8>)
    requires
        vstd::utf8::valid_utf8(bytes),
    ensures
        iac_free(bytes),
    decreases bytes.len(),
{
    if bytes.len() != 0 {
        let l = vstd::utf8::length_of_first_scalar(bytes);
        let b0 = bytes[0];
        assert(vstd::utf8::valid_first_scalar(bytes));
        assert(1 <= l <= 4 && l <= bytes.len());
        assert(b0 != IAC);
        assert(forall|k: int| 1 <= k < l ==> vstd::utf8::is_continuation_byte(bytes[k]));
        let rest = vstd::utf8::pop_first_scalar(bytes);
        lemma_valid_utf8_iac_free(rest);
        assert forall|k: int| 0 <= k < bytes.len() implies bytes[k] != IAC by {
            if k >= l {
                assert(rest[k - l] == bytes[k]);
            }
        }
    }
}

/// The UTF-8 encoding of a non-empty character sequence is non-empty.
pub proof fn lemma_encode_utf8_nonempty(chars: Seq<char>)
    requires
        chars.len() >= 1,
    ensures
        vstd::utf8::encode_utf8(chars).len() >= 1,
{
    broadcast use vstd::utf8::char_is_scalar;

    assert(vstd::utf8::encode_utf8(chars) == vstd::utf8::encode_scalar(chars[0] as u32)
        + vstd::utf8::encode_utf8(chars.skip(1)));
    assert(vstd::utf8::encode_scalar(chars[0] as u32).len() >= 1);
}

/// NEW-ENVIRON escaping never grows shorter than its input.
pub proof fn lemma_escape_env_len(x: Seq<u8>)
    ensures
        crate::env::spec_escape_env(x).len() >= x.len(),
    decreases x.len(),
{
    if x.len() != 0 {
        lemma_escape_env_len(x.skip(1));
    }
}

/// An `Is`/`Info` entry survives a round trip through the wire when it
/// carries a non-empty name and, for a well-known variable, the name reads
/// back as the same variable.
pub open spec fn env_entry_round_trips(e: (
    crate::env::EnvironmentKindView,
    Option<Seq<u8>>,
)) -> bool {
    match e.0 {
        crate::env::EnvironmentKindView::WellKnown(Some(w)) =>
            crate::env::WellKnownVariableView::spec_from_name(w.name_chars()) == w
            && w.name_chars().len() >= 1,
        crate::env::EnvironmentKindView::UserDefined(Some(n)) => n.len() >= 1,
        _ => false,
    }
}

/// Decoding one encoded variable reads back its name, its value, and
/// exactly its own bytes, whatever compatible input follows: the next byte
/// after the variable, if any, must be a `VAR` or `USERVAR` tag.
pub proof fn lemma_env_var_round_trip(
    e: (crate::env::EnvironmentKindView, Option<Seq<u8>>),
    s: Seq<u8>,
)
    requires
        env_entry_round_trips(e),
        ({
            let body = crate::env::spec_env_var_bytes(e).skip(1);
            &&& body.len() <= s.len()
            &&& s.subrange(0, body.len() as int) == body
            &&& (body.len() < s.len() ==> (s[body.len() as int] == crate::constants::ENV_VAR
                || s[body.len() as int] == crate::constants::ENV_USERVAR))
        }),
    ensures
        ({
            let body = crate::env::spec_env_var_bytes(e).skip(1);
            match e.0.name_view() {
                Some(name) => crate::env::spec_decode_env_var(s) == Some(
                    (name, e.1, body.len() as int),
                ),
                None => false,
            }
        }),
{
    broadcast use vstd::utf8::encode_utf8_valid_utf8;
    broadcast use vstd::utf8::encode_utf8_decode_utf8;

    let name = match e.0.name_view() {
        Some(n) => n,
        None => Seq::empty(),
    };
    let nb = vstd::utf8::encode_utf8(name);
    let escaped_name = crate::env::spec_escape_env(nb);
    let body = crate::env::spec_env_var_bytes(e).skip(1);
    let tagged = crate::env::spec_env_var_bytes(e);
    assert(name.len() >= 1);
    lemma_encode_utf8_nonempty(name);
    lemma_escape_env_len(nb);
    match e.1 {
        Some(v) => {
            let escaped_value = crate::env::spec_escape_env(v);
            assert(tagged == seq![e.0.spec_byte()] + escaped_name + (seq![
                crate::constants::ENV_VALUE,
            ] + escaped_value));
            assert(body =~= escaped_name + seq![crate::constants::ENV_VALUE] + escaped_value);
            let e1 = escaped_name.len() as int;
            assert forall|k: int| 0 <= k < body.len() implies s[k] == body[k] by {
                assert(s.subrange(0, body.len() as int)[k] == body[k]);
            }
            assert(s.subrange(0, e1) =~= escaped_name);
            assert(s[e1] == crate::constants::ENV_VALUE);
            crate::env::lemma_scan_escaped_prefix(nb, s, 0, Seq::empty());
            assert(Seq::<u8>::empty() + nb =~= nb);
            assert(crate::env::spec_decode_env_name(s) == Some((nb, e1)));
            let after = s.skip(e1 + 1);
            assert forall|k: int|
                0 <= k < escaped_value.len() implies after.subrange(
                0,
                escaped_value.len() as int,
            )[k] == escaped_value[k] by {
                assert(after[k] == s[e1 + 1 + k]);
                assert(body[e1 + 1 + k] == escaped_value[k]);
            }
            assert(after.subrange(0, escaped_value.len() as int) =~= escaped_value);
            if escaped_value.len() < after.len() {
                assert(after[escaped_value.len() as int] == s[body.len() as int]);
            }
            crate::env::lemma_scan_escaped_prefix(v, after, 0, Seq::empty());
            assert(Seq::<u8>::empty() + v =~= v);
            assert(crate::env::spec_decode_env_value(after) == Some(
                (v, escaped_value.len() as int),
            ));
            assert(e1 + 1 + escaped_value.len() == body.len());
        },
        None => {
            assert(tagged == seq![e.0.spec_byte()] + escaped_name + Seq::<u8>::empty());
            assert(body =~= escaped_name);
            let e1 = escaped_name.len() as int;
            assert forall|k: int| 0 <= k < body.len() implies s[k] == body[k] by {
                assert(s.subrange(0, body.len() as int)[k] == body[k]);
            }
            assert(s.subrange(0, e1) =~= escaped_name);
            crate::env::lemma_scan_escaped_prefix(nb, s, 0, Seq::empty());
            assert(Seq::<u8>::empty() + nb =~= nb);
            assert(crate::env::spec_decode_env_name(s) == Some((nb, e1)));
            assert(e1 < s.len() ==> s[e1] != crate::constants::ENV_VALUE);
        },
    }
}

/// Decoding an encoded `Is`/`Info` entry list reads back the same entries.
pub proof fn lemma_env_is_round_trip(
    vars: Seq<(crate::env::EnvironmentKindView, Option<Seq<u8>>)>,
)
    requires
        forall|j: int| 0 <= j < vars.len() ==> env_entry_round_trips(#[trigger] vars[j]),
    ensures
        crate::env::spec_decode_env_is(crate::env::spec_env_vars_bytes(vars)) == Some(vars),
    decreases vars.len(),
{
    let s = crate::env::spec_env_vars_bytes(vars);
    if vars.len() == 0 {
        assert(s =~= Seq::<u8>::empty());
        assert(crate::env::spec_decode_env_is(s) =~= Some(Seq::<
            (crate::env::EnvironmentKindView, Option<Seq<u8>>),
        >::empty()));
        assert(Seq::<(crate::env::EnvironmentKindView, Option<Seq<u8>>)>::empty() =~= vars);
    } else {
        let e0 = vars[0];
        let rest = vars.skip(1);
        let tagged = crate::env::spec_env_var_bytes(e0);
        let body = tagged.skip(1);
        let rest_bytes = crate::env::spec_env_vars_bytes(rest);
        assert(s == tagged + rest_bytes);
        assert(e0.0.name_view() is Some);
        assert(tagged[0] == e0.0.spec_byte());
        assert(tagged.len() >= 1);
        assert(s[0] == e0.0.spec_byte());
        assert(s[0] == crate::constants::ENV_VAR || s[0] == crate::constants::ENV_USERVAR);
        let after_tag = s.skip(1);
        assert(after_tag =~= body + rest_bytes);
        assert forall|k: int|
            0 <= k < body.len() implies after_tag.subrange(0, body.len() as int)[k]
            == body[k] by {
            assert(after_tag.subrange(0, body.len() as int)[k] == after_tag[k]);
        }
        assert(after_tag.subrange(0, body.len() as int) =~= body);
        if body.len() < after_tag.len() {
            assert(rest.len() >= 1);
            assert(forall|j: int|
                0 <= j < rest.len() ==> env_entry_round_trips(#[trigger] rest[j]));
            assert(rest[0].0.name_view() is Some);
            assert(crate::env::spec_env_var_bytes(rest[0])[0] == rest[0].0.spec_byte());
            assert(rest_bytes == crate::env::spec_env_var_bytes(rest[0])
                + crate::env::spec_env_vars_bytes(rest.skip(1)));
            assert(after_tag[body.len() as int] == rest_bytes[0]);
            assert(rest_bytes[0] == rest[0].0.spec_byte());
        }
        lemma_env_var_round_trip(e0, after_tag);
        let name = match e0.0.name_view() {
            Some(n) => n,
            None => Seq::empty(),
        };
        assert(crate::env::spec_decode_env_var(after_tag) == Some(
            (name, e0.1, body.len() as int),
        ));
        assert(s.skip(1 + body.len() as int) =~= rest_bytes);
        assert(forall|j: int| 0 <= j < rest.len() ==> env_entry_round_trips(#[trigger] rest[j]));
        lemma_env_is_round_trip(rest);
        let kind = if s[0] == crate::constants::ENV_USERVAR {
            crate::env::EnvironmentKindView::UserDefined(Some(name))
        } else {
            crate::env::EnvironmentKindView::WellKnown(
                Some(crate::env::WellKnownVariableView::spec_from_name(name)),
            )
        };
        assert(kind == e0.0);
        assert(seq![(kind, e0.1)] + rest =~= vars);
    }
}

/// A `Send` request survives a round trip through the wire when it is a
/// wildcard, or carries a non-empty name whose UTF-8 bytes hold no `VAR`
/// or `USERVAR` tag and, for a well-known variable, the name reads back as
/// the same variable.
pub open spec fn env_send_kind_round_trips(k: crate::env::EnvironmentKindView) -> bool {
    match k.name_view() {
        Some(name) => {
            let nb = vstd::utf8::encode_utf8(name);
            &&& name.len() >= 1
            &&& (forall|j: int|
                0 <= j < nb.len() ==> nb[j] != crate::constants::ENV_VAR && #[trigger] nb[j]
                    != crate::constants::ENV_USERVAR)
            &&& (match k {
                crate::env::EnvironmentKindView::WellKnown(Some(w)) =>
                    crate::env::WellKnownVariableView::spec_from_name(w.name_chars()) == w,
                _ => true,
            })
        },
        None => true,
    }
}

/// A tag-free run inside a `SEND` payload ends where the next tag or the
/// end of the input stands.
proof fn lemma_send_name_end_at(s: Seq<u8>, i: int, m: int)
    requires
        0 <= i <= m <= s.len(),
        forall|k: int|
            i <= k < m ==> s[k] != crate::constants::ENV_VAR && #[trigger] s[k]
                != crate::constants::ENV_USERVAR,
        m == s.len() || s[m] == crate::constants::ENV_VAR || s[m]
            == crate::constants::ENV_USERVAR,
    ensures
        crate::env::spec_send_name_end(s, i) == m,
    decreases m - i,
{
    if i < m {
        lemma_send_name_end_at(s, i + 1, m);
    }
}

/// Decoding an encoded `Send` request list reads back the same requests.
pub proof fn lemma_env_send_round_trip(ks: Seq<crate::env::EnvironmentKindView>)
    requires
        forall|j: int| 0 <= j < ks.len() ==> env_send_kind_round_trips(#[trigger] ks[j]),
    ensures
        crate::env::spec_decode_env_send(crate::env::spec_env_send_bytes(ks)) == Some(ks),
    decreases ks.len(),
{
    broadcast use vstd::utf8::encode_utf8_valid_utf8;
    broadcast use vstd::utf8::encode_utf8_decode_utf8;

    let s = crate::env::spec_env_send_bytes(ks);
    if ks.len() == 0 {
        assert(s =~= Seq::<u8>::empty());
        assert(crate::env::spec_decode_env_send(s) =~= Some(Seq::<
            crate::env::EnvironmentKindView,
        >::empty()));
        assert(Seq::<crate::env::EnvironmentKindView>::empty() =~= ks);
    } else {
        let k0 = ks[0];
        let rest = ks.skip(1);
        let nb = match k0.name_view() {
            Some(n) => vstd::utf8::encode_utf8(n),
            None => Seq::<u8>::empty(),
        };
        let head = crate::env::spec_env_send_kind_bytes(k0);
        let rest_bytes = crate::env::spec_env_send_bytes(rest);
        assert(head =~= seq![k0.spec_byte()] + nb);
        assert(s == head + rest_bytes);
        match k0.name_view() {
            Some(n) => {
                lemma_encode_utf8_nonempty(n);
            },
            None => {},
        }
        assert(s[0] == k0.spec_byte());
        let m = 1 + nb.len() as int;
        assert forall|k: int|
            1 <= k < m implies s[k] != crate::constants::ENV_VAR && #[trigger] s[k]
            != crate::constants::ENV_USERVAR by {
            assert(s[k] == head[k]);
            assert(head[k] == nb[k - 1]);
        }
        if m < s.len() {
            assert(rest.len() >= 1);
            assert(forall|j: int|
                0 <= j < rest.len() ==> env_send_kind_round_trips(#[trigger] rest[j]));
            assert(rest_bytes == crate::env::spec_env_send_kind_bytes(rest[0])
                + crate::env::spec_env_send_bytes(rest.skip(1)));
            assert(crate::env::spec_env_send_kind_bytes(rest[0])[0] == rest[0].spec_byte());
            assert(s[m] == rest_bytes[0]);
            assert(s[m] == rest[0].spec_byte());
        }
        lemma_send_name_end_at(s, 1, m);
        assert(crate::env::spec_send_name_end(s, 1) == m);
        assert(s.subrange(1, m) =~= nb);
        assert(crate::env::spec_decode_env_send_var(s[0], nb) == Some(k0));
        assert(s.skip(m) =~= rest_bytes);
        assert(forall|j: int|
            0 <= j < rest.len() ==> env_send_kind_round_trips(#[trigger] rest[j]));
        lemma_env_send_round_trip(rest);
        assert(seq![k0] + rest =~= ks);
    }
}

/// A NEW-ENVIRON operation survives a round trip through the wire.
pub open spec fn env_op_round_trips(op: crate::env::EnvironmentOperationView) -> bool {
    match op {
        crate::env::EnvironmentOperationView::Is(vars) => forall|j: int|
            0 <= j < vars.len() ==> env_entry_round_trips(#[trigger] vars[j]),
        crate::env::EnvironmentOperationView::Info(vars) => forall|j: int|
            0 <= j < vars.len() ==> env_entry_round_trips(#[trigger] vars[j]),
        crate::env::EnvironmentOperationView::Send(ks) => forall|j: int|
            0 <= j < ks.len() ==> env_send_kind_round_trips(#[trigger] ks[j]),
        crate::env::EnvironmentOperationView::Unknown(b, _) => b != crate::constants::ENV_IS && b
            != crate::constants::ENV_SEND && b != crate::constants::ENV_INFO,
    }
}

/// Encode/decode round trip for NEW-ENVIRON operations at the payload
/// level: decoding the encoded operation yields the operation back.
pub proof fn lemma_env_op_round_trip(op: crate::env::EnvironmentOperationView)
    requires
        env_op_round_trips(op),
    ensures
        crate::env::spec_decode_env(crate::env::spec_env_op_bytes(op)) == Some(op),
{
    let s = crate::env::spec_env_op_bytes(op);
    match op {
        crate::env::EnvironmentOperationView::Is(vars) => {
            assert(s.skip(1) =~= crate::env::spec_env_vars_bytes(vars));
            lemma_env_is_round_trip(vars);
        },
        crate::env::EnvironmentOperationView::Info(vars) => {
            assert(s.skip(1) =~= crate::env::spec_env_vars_bytes(vars));
            lemma_env_is_round_trip(vars);
        },
        crate::env::EnvironmentOperationView::Send(ks) => {
            assert(s.skip(1) =~= crate::env::spec_env_send_bytes(ks));
            lemma_env_send_round_trip(ks);
        },
        crate::env::EnvironmentOperationView::Unknown(b, data) => {
            assert(s.skip(1) =~= data);
        },
    }
}

/// NEW-ENVIRON escaping of an `IAC`-free sequence yields an `IAC`-free
/// sequence: only a literal `IAC` is written as a doubled `IAC`.
pub proof fn lemma_escape_env_iac_free(x: Seq<u8>)
    requires
        iac_free(x),
    ensures
        iac_free(crate::env::spec_escape_env(x)),
    decreases x.len(),
{
    if x.len() != 0 {
        assert(iac_free(x.skip(1)));
        lemma_escape_env_iac_free(x.skip(1));
        let head = crate::env::spec_escape_env_byte(x[0]);
        let tail = crate::env::spec_escape_env(x.skip(1));
        assert(iac_free(head));
        assert forall|k: int|
            0 <= k < crate::env::spec_escape_env(x).len() implies crate::env::spec_escape_env(
            x,
        )[k] != IAC by {
            if k < head.len() {
                assert(crate::env::spec_escape_env(x)[k] == head[k]);
            } else {
                assert(crate::env::spec_escape_env(x)[k] == tail[k - head.len()]);
            }
        }
    }
}

/// Whether the raw bytes an operation carries — the values of `Is`/`Info`
/// entries and the payload of an unknown operation — hold no `IAC`. Names
/// are UTF-8 and never hold one.
pub open spec fn env_op_iac_free(op: crate::env::EnvironmentOperationView) -> bool {
    match op {
        crate::env::EnvironmentOperationView::Is(vars) => forall|j: int|
            0 <= j < vars.len() ==> (match (#[trigger] vars[j]).1 {
                Some(v) => iac_free(v),
                None => true,
            }),
        crate::env::EnvironmentOperationView::Info(vars) => forall|j: int|
            0 <= j < vars.len() ==> (match (#[trigger] vars[j]).1 {
                Some(v) => iac_free(v),
                None => true,
            }),
        crate::env::EnvironmentOperationView::Send(_) => true,
        crate::env::EnvironmentOperationView::Unknown(b, data) => b != IAC && iac_free(data),
    }
}

/// The wire bytes of one entry hold no `IAC` when its value does not.
proof fn lemma_env_var_bytes_iac_free(e: (crate::env::EnvironmentKindView, Option<Seq<u8>>))
    requires
        match e.1 {
            Some(v) => iac_free(v),
            None => true,
        },
    ensures
        iac_free(crate::env::spec_env_var_bytes(e)),
{
    broadcast use vstd::utf8::encode_utf8_valid_utf8;

    match e.0.name_view() {
        None => {
            assert(crate::env::spec_env_var_bytes(e) =~= Seq::<u8>::empty());
        },
        Some(name) => {
            let nb = vstd::utf8::encode_utf8(name);
            lemma_valid_utf8_iac_free(nb);
            lemma_escape_env_iac_free(nb);
            let escaped_name = crate::env::spec_escape_env(nb);
            let bytes = crate::env::spec_env_var_bytes(e);
            match e.1 {
                Some(v) => {
                    lemma_escape_env_iac_free(v);
                    let escaped_value = crate::env::spec_escape_env(v);
                    assert(bytes == seq![e.0.spec_byte()] + escaped_name + (seq![
                        crate::constants::ENV_VALUE,
                    ] + escaped_value));
                    assert forall|k: int| 0 <= k < bytes.len() implies bytes[k] != IAC by {
                        if k == 0 {
                        } else if k < 1 + escaped_name.len() {
                            assert(bytes[k] == escaped_name[k - 1]);
                        } else if k == 1 + escaped_name.len() {
                            assert(bytes[k] == crate::constants::ENV_VALUE);
                        } else {
                            assert(bytes[k] == escaped_value[k - 2 - escaped_name.len()]);
                        }
                    }
                },
                None => {
                    assert(bytes == seq![e.0.spec_byte()] + escaped_name + Seq::<u8>::empty());
                    assert forall|k: int| 0 <= k < bytes.len() implies bytes[k] != IAC by {
                        if k != 0 {
                            assert(bytes[k] == escaped_name[k - 1]);
                        }
                    }
                },
            }
        },
    }
}

/// The wire bytes of an entry list hold no `IAC` when no value does.
proof fn lemma_env_vars_bytes_iac_free(
    vars: Seq<(crate::env::EnvironmentKindView, Option<Seq<u8>>)>,
)
    requires
        forall|j: int|
            0 <= j < vars.len() ==> (match (#[trigger] vars[j]).1 {
                Some(v) => iac_free(v),
                None => true,
            }),
    ensures
        iac_free(crate::env::spec_env_vars_bytes(vars)),
    decreases vars.len(),
{
    if vars.len() != 0 {
        lemma_env_var_bytes_iac_free(vars[0]);
        assert(forall|j: int|
            0 <= j < vars.skip(1).len() ==> (match (#[trigger] vars.skip(1)[j]).1 {
                Some(v) => iac_free(v),
                None => true,
            }));
        lemma_env_vars_bytes_iac_free(vars.skip(1));
        let head = crate::env::spec_env_var_bytes(vars[0]);
        let tail = crate::env::spec_env_vars_bytes(vars.skip(1));
        assert forall|k: int|
            0 <= k < crate::env::spec_env_vars_bytes(vars).len()
            implies crate::env::spec_env_vars_bytes(vars)[k] != IAC by {
            if k < head.len() {
                assert(crate::env::spec_env_vars_bytes(vars)[k] == head[k]);
            } else {
                assert(crate::env::spec_env_vars_bytes(vars)[k] == tail[k - head.len()]);
            }
        }
    }
}

/// The wire bytes of a `Send` request list hold no `IAC`: names are UTF-8.
proof fn lemma_env_send_bytes_iac_free(ks: Seq<crate::env::EnvironmentKindView>)
    ensures
        iac_free(crate::env::spec_env_send_bytes(ks)),
    decreases ks.len(),
{
    broadcast use vstd::utf8::encode_utf8_valid_utf8;

    if ks.len() != 0 {
        lemma_env_send_bytes_iac_free(ks.skip(1));
        let head = crate::env::spec_env_send_kind_bytes(ks[0]);
        let tail = crate::env::spec_env_send_bytes(ks.skip(1));
        assert(iac_free(head)) by {
            match ks[0].name_view() {
                None => {
                    assert(head =~= seq![ks[0].spec_byte()]);
                },
                Some(name) => {
                    let nb = vstd::utf8::encode_utf8(name);
                    lemma_valid_utf8_iac_free(nb);
                    assert forall|k: int| 0 <= k < head.len() implies head[k] != IAC by {
                        if k != 0 {
                            assert(head[k] == nb[k - 1]);
                        }
                    }
                },
            }
        }
        assert forall|k: int|
            0 <= k < crate::env::spec_env_send_bytes(ks).len()
            implies crate::env::spec_env_send_bytes(ks)[k] != IAC by {
            if k < head.len() {
                assert(crate::env::spec_env_send_bytes(ks)[k] == head[k]);
            } else {
                assert(crate::env::spec_env_send_bytes(ks)[k] == tail[k - head.len()]);
            }
        }
    }
}

/// The wire bytes of a whole operation hold no `IAC` when its raw bytes do
/// not.
pub proof fn lemma_env_op_bytes_iac_free(op: crate::env::EnvironmentOperationView)
    requires
        env_op_iac_free(op),
    ensures
        iac_free(crate::env::spec_env_op_bytes(op)),
{
    let s = crate::env::spec_env_op_bytes(op);
    match op {
        crate::env::EnvironmentOperationView::Is(vars) => {
            lemma_env_vars_bytes_iac_free(vars);
            assert forall|k: int| 0 <= k < s.len() implies s[k] != IAC by {
                if k != 0 {
                    assert(s[k] == crate::env::spec_env_vars_bytes(vars)[k - 1]);
                }
            }
        },
        crate::env::EnvironmentOperationView::Info(vars) => {
            lemma_env_vars_bytes_iac_free(vars);
            assert forall|k: int| 0 <= k < s.len() implies s[k] != IAC by {
                if k != 0 {
                    assert(s[k] == crate::env::spec_env_vars_bytes(vars)[k - 1]);
                }
            }
        },
        crate::env::EnvironmentOperationView::Send(ks) => {
            lemma_env_send_bytes_iac_free(ks);
            assert forall|k: int| 0 <= k < s.len() implies s[k] != IAC by {
                if k != 0 {
                    assert(s[k] == crate::env::spec_env_send_bytes(ks)[k - 1]);
                }
            }
        },
        crate::env::EnvironmentOperationView::Unknown(b, data) => {
            assert forall|k: int| 0 <= k < s.len() implies s[k] != IAC by {
                if k != 0 {
                    assert(s[k] == data[k - 1]);
                }
            }
        },
    }
}

/// Encode/decode round trip for NEW-ENVIRON subnegotiations: the encoded
/// frame decodes to the same operation, provided the operation survives
/// the payload round trip and its raw bytes hold no `IAC`.
pub proof fn lemma_round_trip_environment(
    op: crate::env::EnvironmentOperationView,
    acc: Seq<u8>,
    max: nat,
    message_mode: bool,
    unicode: bool,
)
    requires
        env_op_round_trips(op),
        env_op_iac_free(op),
    ensures
        ({
            let sub = SubnegotiationView::Environment(op);
            let frame = spec_sub_frame(sub);
            spec_scan(frame, 0, acc, max, message_mode, unicode) == (ScanOutcome {
                event: Some(TelnetEventView::Subnegotiate(sub)),
                advance: frame.len() as int,
                acc,
            })
        }),
{
    let sub = SubnegotiationView::Environment(op);
    let p = crate::env::spec_env_op_bytes(op);
    lemma_env_op_bytes_iac_free(op);
    lemma_scan_frame(crate::constants::ENVIRON, p, acc, max, message_mode, unicode);
    assert(spec_sub_frame(sub) =~= seq![IAC, SB, crate::constants::ENVIRON] + p + seq![IAC, SE]);
    lemma_env_op_round_trip(op);
}

/// The last byte of an escaped run is never a line feed when the run holds
/// no line feed.
proof fn lemma_escape_iac_last_not_lf(d: Seq<u8>)
    requires
        forall|k: int| 0 <= k < d.len() ==> d[k] != LF,
    ensures
        spec_escape_iac(d).len() >= 1 ==> spec_escape_iac(d)[spec_escape_iac(d).len() - 1] != LF,
    decreases d.len(),
{
    if d.len() != 0 {
        assert(forall|k: int| 0 <= k < d.skip(1).len() ==> d.skip(1)[k] != LF);
        lemma_escape_iac_last_not_lf(d.skip(1));
        let head: Seq<u8> = if d[0] == IAC {
            seq![IAC, IAC]
        } else {
            seq![d[0]]
        };
        assert(spec_escape_iac(d) == head + spec_escape_iac(d.skip(1)));
        if spec_escape_iac(d.skip(1)).len() == 0 {
            assert(spec_escape_iac(d)[spec_escape_iac(d).len() - 1] == head[head.len() - 1]);
        }
    }
}

} // verus!
