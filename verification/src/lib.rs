//! A streaming codec for the Telnet protocol (RFC 854 and its major
//! extensions): messages, option negotiations, subnegotiations (NAWS,
//! CHARSET, LINEMODE, NEW-ENVIRON, and opaque unknown options), and control
//! signals, decoded from and encoded to a raw byte stream.

use vstd::prelude::*;

pub mod constants;
pub mod decode;
pub mod encode;
pub mod env;
pub mod error;
pub mod event;
pub mod laws;
pub mod linemode;
pub mod option;
pub mod subnegotiation;
pub mod text;
pub mod transport;

use crate::constants::{CR, DO, DONT, IAC, LF, WILL, WONT};
use crate::decode::{lemma_scan_bounds, spec_scan};
use crate::encode::{
    spec_event_bytes, write_escaped_iac, write_negotiation, write_sub_frame,
};
use crate::error::TelnetError;
use crate::event::{TelnetEvent, TelnetEventView};
use crate::text::lossy_utf8;
use crate::transport::{buf_advance, buf_byte, buf_extend, buf_len, buf_to_vec, contents};

verus! {

/// A Telnet codec for one connection: it holds the framing flags and the
/// partial line accumulated between `decode` calls.
#[derive(Debug)]
pub struct TelnetCodec {
    /// Whether the Suppress Go Ahead option is in force; when true,
    /// framing is character-at-a-time and only doubled `IAC` bytes are
    /// decoded.
    pub sga: bool,
    /// The cap on the line accumulator; data bytes beyond it are dropped.
    pub max_buffer_length: usize,
    /// The partial line held between `decode` calls.
    pub buffer: Vec<u8>,
    /// When false, each data byte is emitted as a `Character` event
    /// instead of being accumulated into a line.
    pub message_mode: bool,
    /// When set, character mode groups UTF-8 sequences into `Unicode`
    /// events.
    pub unicode: bool,
}

impl TelnetCodec {
    /// A fresh codec: line-buffered message mode, no Suppress Go Ahead, an
    /// empty accumulator capped at `max_buffer_length` bytes.
    pub fn new(max_buffer_length: usize) -> (r: TelnetCodec)
        ensures
            r.sga == false,
            r.max_buffer_length == max_buffer_length,
            r.buffer@ == Seq::<u8>::empty(),
            r.message_mode == true,
            r.unicode == false,
    {
        TelnetCodec {
            sga: false,
            max_buffer_length,
            buffer: Vec::new(),
            message_mode: true,
            unicode: false,
        }
    }

    /// Decodes one event from the transport buffer, advancing the buffer
    /// past the event's wire bytes. `Ok(None)` means the buffer holds no
    /// complete event yet: data bytes scanned on the way are folded into
    /// the accumulator and consumed, and only a truncated command is left
    /// in place for the next call, so no byte is ever scanned twice. This
    /// never returns an error.
    ///
    /// With Suppress Go Ahead in force, a non-empty accumulator is first
    /// flushed as one `Message` without touching the transport; after
    /// that, only a doubled `IAC` is decoded, as a literal `Character`.
    /// Otherwise the buffer is scanned as [`spec_scan`] describes.
    pub fn decode(&mut self, buffer: &mut bytes::BytesMut) -> (r: Result<
        Option<TelnetEvent>,
        TelnetError,
    >)
        ensures
            r is Ok,
            final(self).sga == old(self).sga,
            final(self).message_mode == old(self).message_mode,
            final(self).unicode == old(self).unicode,
            final(self).max_buffer_length == old(self).max_buffer_length,
            ({
                let pre = contents(*old(buffer));
                let acc0 = old(self).buffer@;
                if old(self).sga && acc0.len() > 0 {
                    &&& final(self).buffer@ == Seq::<u8>::empty()
                    &&& contents(*final(buffer)) == pre
                    &&& (match r {
                        Ok(Some(ev)) => ev@ == TelnetEventView::Message(lossy_utf8(acc0)),
                        _ => false,
                    })
                } else if pre.len() == 0 {
                    &&& final(self).buffer@ == acc0
                    &&& contents(*final(buffer)) == pre
                    &&& (match r {
                        Ok(None) => true,
                        _ => false,
                    })
                } else if old(self).sga {
                    if pre[0] == IAC && pre.len() >= 2 && pre[1] == IAC {
                        &&& final(self).buffer@ == acc0
                        &&& contents(*final(buffer)) == pre.skip(2)
                        &&& (match r {
                            Ok(Some(ev)) => ev@ == TelnetEventView::Character(IAC),
                            _ => false,
                        })
                    } else {
                        &&& final(self).buffer@ == acc0
                        &&& contents(*final(buffer)) == pre
                        &&& (match r {
                            Ok(None) => true,
                            _ => false,
                        })
                    }
                } else {
                    let out = spec_scan(
                        pre,
                        0,
                        acc0,
                        old(self).max_buffer_length as nat,
                        old(self).message_mode,
                        old(self).unicode,
                    );
                    &&& final(self).buffer@ == out.acc
                    &&& contents(*final(buffer)) == pre.skip(out.advance)
                    &&& (match (r, out.event) {
                        (Ok(Some(ev)), Some(em)) => ev@ == em,
                        (Ok(None), None) => true,
                        _ => false,
                    })
                }
            }),
    {
        if self.sga && self.buffer.len() > 0 {
            let mut taken: Vec<u8> = Vec::new();
            core::mem::swap(&mut self.buffer, &mut taken);
            let message = crate::text::string_from_utf8_lossy(&taken);
            return Ok(Some(TelnetEvent::Message(message)));
        }
        if buf_len(buffer) == 0 {
            return Ok(None);
        }
        if self.sga {
            if buf_byte(buffer, 0) == IAC {
                if buf_len(buffer) < 2 {
                    return Ok(None);
                }
                if buf_byte(buffer, 1) == IAC {
                    buf_advance(buffer, 2);
                    return Ok(Some(TelnetEvent::Character(IAC)));
                }
                return Ok(None);
            }
            return Ok(None);
        }
        let input = buf_to_vec(buffer);
        proof {
            lemma_scan_bounds(
                input@,
                0,
                self.buffer@,
                self.max_buffer_length as nat,
                self.message_mode,
                self.unicode,
            );
        }
        let (event, advance) = crate::decode::decode_bytes(self, &input);
        buf_advance(buffer, advance);
        Ok(event)
    }

    /// Appends the wire bytes of an event to the output buffer: see
    /// [`spec_event_bytes`]. A `Message` is followed by `CR LF` unless the
    /// buffer then already ends with one; `Character`, `Unicode`,
    /// `GoAhead` and `Nop` produce nothing. This never returns an error.
    pub fn encode(&mut self, event: TelnetEvent, buffer: &mut bytes::BytesMut) -> (r: Result<
        (),
        TelnetError,
    >)
        ensures
            r is Ok,
            *final(self) == *old(self),
            contents(*final(buffer)) == contents(*old(buffer)) + spec_event_bytes(
                event@,
                contents(*old(buffer)),
            ),
    {
        let ghost pre = contents(*buffer);
        match event {
            TelnetEvent::Do(option) => {
                let mut out: Vec<u8> = Vec::new();
                write_negotiation(DO, option, &mut out);
                buf_extend(buffer, out.as_slice());
            },
            TelnetEvent::Dont(option) => {
                let mut out: Vec<u8> = Vec::new();
                write_negotiation(DONT, option, &mut out);
                buf_extend(buffer, out.as_slice());
            },
            TelnetEvent::Will(option) => {
                let mut out: Vec<u8> = Vec::new();
                write_negotiation(WILL, option, &mut out);
                buf_extend(buffer, out.as_slice());
            },
            TelnetEvent::Wont(option) => {
                let mut out: Vec<u8> = Vec::new();
                write_negotiation(WONT, option, &mut out);
                buf_extend(buffer, out.as_slice());
            },
            TelnetEvent::Subnegotiate(sub) => {
                let mut out: Vec<u8> = Vec::new();
                write_sub_frame(&sub, &mut out);
                buf_extend(buffer, out.as_slice());
            },
            TelnetEvent::Message(message) => {
                let mut out: Vec<u8> = Vec::new();
                write_escaped_iac(message.as_str().as_bytes(), &mut out);
                buf_extend(buffer, out.as_slice());
                let n = buf_len(buffer);
                let ends = n >= 2 && buf_byte(buffer, n - 2) == CR && buf_byte(buffer, n - 1)
                    == LF;
                if !ends {
                    let mut crlf: Vec<u8> = Vec::new();
                    crlf.push(CR);
                    crlf.push(LF);
                    buf_extend(buffer, crlf.as_slice());
                    proof {
                        assert(contents(*buffer) =~= pre + spec_event_bytes(event@, pre));
                    }
                }
            },
            TelnetEvent::RawMessage(message) => {
                let mut out: Vec<u8> = Vec::new();
                write_escaped_iac(message.as_str().as_bytes(), &mut out);
                buf_extend(buffer, out.as_slice());
            },
            TelnetEvent::Character(_) => {},
            TelnetEvent::Unicode(_) => {},
            TelnetEvent::GoAhead => {},
            TelnetEvent::Nop => {},
        }
        proof {
            assert(contents(*buffer) =~= pre + spec_event_bytes(event@, pre));
        }
        Ok(())
    }
}

} // verus!
