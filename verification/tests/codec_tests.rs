//! Tests for the codec's decode and encode paths: negotiations,
//! subnegotiations, messages, and the framing flags.

use bytes::BytesMut;
use nectar::constants::{
    CHARSET, CHARSET_ACCEPTED, CHARSET_REJECTED, CHARSET_REQUEST, CHARSET_TTABLE_REJECTED, DO,
    DONT, ECHO, IAC, LINEMODE, LINEMODE_EDIT, LINEMODE_FORWARD_MASK, LINEMODE_SLC, MODE, NAWS,
    NOP, SB, SE, SLC_ABORT, SLC_BRK, SLC_SYNCH, WILL, WONT,
};
use nectar::event::TelnetEvent;
use nectar::linemode::{Dispatch, ForwardMaskOption, SlcFunction};
use nectar::option::TelnetOption;
use nectar::subnegotiation::{LineModeOption, SubnegotiationType};
use nectar::TelnetCodec;

fn setup() -> (TelnetCodec, BytesMut) {
    let codec = TelnetCodec::new(16);
    let buffer = BytesMut::new();
    (codec, buffer)
}

#[test]
fn test_sga_true() {
    let (mut codec, mut buffer) = setup();
    codec.sga = true;

    // when both the codec's internal buffer, and the input buffer are
    // empty, there's nothing going on.
    assert!(codec.decode(&mut buffer).unwrap().is_none());

    // when the codec's internal buffer is not empty, clear it out and
    // send it as a message
    codec
        .buffer
        .extend([b'h', b'i', b'y', b'a', b' ', 0xf0, 0x9f, 0x98, 0x81]);
    assert_eq!(
        codec.decode(&mut buffer).unwrap().unwrap(),
        TelnetEvent::Message("hiya 😁".to_string())
    );
    assert!(codec.buffer.is_empty());

    // when the codec's internal buffer is empty, and the input buffer
    // has data, decode as a SuppressGoAhead
    buffer.extend([IAC]);
    assert!(codec.decode(&mut buffer).unwrap().is_none());
    assert!(codec.buffer.is_empty());
    assert_eq!(buffer.as_ref(), &[IAC]);
    buffer.extend([IAC]); // Add a second, as two are interpreted as a single IAC
    assert_eq!(
        codec.decode(&mut buffer).unwrap().unwrap(),
        TelnetEvent::Character(IAC)
    );
    assert!(codec.buffer.is_empty());
    assert!(buffer.is_empty());

    // Ignore IAC followed by non-IAC
    buffer.extend([IAC, WILL]);
    assert!(codec.decode(&mut buffer).unwrap().is_none());
    assert!(codec.buffer.is_empty());
    assert_eq!(buffer.as_ref(), &[IAC, WILL]);

    // Ignore non-IAC followed by IAC
    buffer.extend([WILL, IAC]);
    assert!(codec.decode(&mut buffer).unwrap().is_none());
    assert!(codec.buffer.is_empty());
    assert_eq!(buffer.as_ref(), &[IAC, WILL, WILL, IAC]); // previous stuff is still there
}

#[test]
fn test_buffer_starts_with_newline() {
    let (mut codec, mut buffer) = setup();

    codec.buffer.extend([b'c', b'o', b'o', b'l', b'!', b'\r']);
    buffer.extend([b'\n', b'y', b'e', b's']);

    // when the newline completes a \r\n sequence, send the contents
    // of the codec's internal buffer as a message
    assert_eq!(
        codec.decode(&mut buffer).unwrap().unwrap(),
        TelnetEvent::Message("cool!".to_string())
    );
    assert!(codec.buffer.is_empty());
    assert_eq!(buffer.as_ref(), &[b'y', b'e', b's']);

    // When the bytes do not complete a \r\n sequence, they are appended
    // to the codec's internal buffer and consumed from the input buffer,
    // so a later call never scans them again.
    assert_eq!(codec.decode(&mut buffer).unwrap(), None);
    assert_eq!(&codec.buffer, &[b'y', b'e', b's']);
    assert!(buffer.is_empty());
}

#[test]
fn test_overflow() {
    let (mut codec, mut buffer) = setup();

    buffer.extend([b'a'; 10]);
    buffer.extend([b'z'; 10]);

    assert!(codec.decode(&mut buffer).unwrap().is_none());

    assert_eq!(&codec.buffer[..=9], &[b'a'; 10]);
    assert_eq!(&codec.buffer[10..], &[b'z'; 6]);

    // The scanned bytes are consumed, the overflow beyond the cap dropped.
    assert!(buffer.is_empty());
}

#[test]
fn test_double_iac() {
    let (mut codec, mut buffer) = setup();

    // a doubled IAC on the wire is interpreted as a single byte of
    // data; both wire bytes are consumed
    buffer.extend([IAC, IAC]);
    assert_eq!(codec.decode(&mut buffer).unwrap(), None);
    assert_eq!(&codec.buffer, &[IAC]);
    assert!(buffer.is_empty());
}

#[test]
fn test_do() {
    let (mut codec, mut buffer) = setup();

    buffer.extend([IAC, DO, ECHO]);
    assert_eq!(
        codec.decode(&mut buffer).unwrap().unwrap(),
        TelnetEvent::Do(TelnetOption::Echo)
    );
    assert!(codec.buffer.is_empty());
    assert!(buffer.is_empty());
}

#[test]
fn test_dont() {
    let (mut codec, mut buffer) = setup();

    buffer.extend([IAC, DONT, ECHO]);
    assert_eq!(
        codec.decode(&mut buffer).unwrap().unwrap(),
        TelnetEvent::Dont(TelnetOption::Echo)
    );
    assert!(codec.buffer.is_empty());
    assert!(buffer.is_empty());
}

#[test]
fn test_will() {
    let (mut codec, mut buffer) = setup();

    buffer.extend([IAC, WILL, ECHO]);
    assert_eq!(
        codec.decode(&mut buffer).unwrap().unwrap(),
        TelnetEvent::Will(TelnetOption::Echo)
    );
    assert!(codec.buffer.is_empty());
    assert!(buffer.is_empty());
}

#[test]
fn test_wont() {
    let (mut codec, mut buffer) = setup();

    buffer.extend([IAC, WONT, ECHO]);
    assert_eq!(
        codec.decode(&mut buffer).unwrap().unwrap(),
        TelnetEvent::Wont(TelnetOption::Echo)
    );
    assert!(codec.buffer.is_empty());
    assert!(buffer.is_empty());
}

#[test]
fn test_nop() {
    let (mut codec, mut buffer) = setup();

    buffer.extend([IAC, NOP]);
    assert_eq!(codec.decode(&mut buffer).unwrap(), None);
    assert!(codec.buffer.is_empty());
    assert!(buffer.is_empty());
}

#[test]
fn test_sb_naws() {
    let (mut codec, mut buffer) = setup();

    buffer.extend([IAC, SB, NAWS, 0x00, 0x50, 0x00, 0x50, IAC, SE]);
    assert_eq!(
        codec.decode(&mut buffer).unwrap().unwrap(),
        TelnetEvent::Subnegotiate(SubnegotiationType::WindowSize(80, 80))
    );
    assert!(codec.buffer.is_empty());
    assert!(buffer.is_empty());
}

#[test]
fn test_sb_charset_request() {
    let (mut codec, mut buffer) = setup();

    buffer.extend([IAC, SB, CHARSET, CHARSET_REQUEST, b' ']);
    buffer.extend("UTF-8".bytes());
    buffer.extend([b' ']);
    buffer.extend("US-ASCII".bytes());
    buffer.extend([IAC, SE]);

    assert_eq!(
        codec.decode(&mut buffer).unwrap().unwrap(),
        TelnetEvent::Subnegotiate(SubnegotiationType::CharsetRequest(vec![
            b"UTF-8".to_vec(),
            b"US-ASCII".to_vec()
        ]))
    );
    assert!(codec.buffer.is_empty());
    assert!(buffer.is_empty());
}

#[test]
fn test_sb_charset_accepted() {
    let (mut codec, mut buffer) = setup();

    buffer.extend([IAC, SB, CHARSET, CHARSET_ACCEPTED]);
    buffer.extend("UTF-8".bytes());
    buffer.extend([IAC, SE]);

    assert_eq!(
        codec.decode(&mut buffer).unwrap().unwrap(),
        TelnetEvent::Subnegotiate(SubnegotiationType::CharsetAccepted(b"UTF-8".to_vec()))
    );
    assert!(codec.buffer.is_empty());
    assert!(buffer.is_empty());
}

#[test]
fn test_sb_charset_rejected() {
    let (mut codec, mut buffer) = setup();

    buffer.extend([IAC, SB, CHARSET, CHARSET_REJECTED, IAC, SE]);

    assert_eq!(
        codec.decode(&mut buffer).unwrap().unwrap(),
        TelnetEvent::Subnegotiate(SubnegotiationType::CharsetRejected)
    );
    assert!(codec.buffer.is_empty());
    assert!(buffer.is_empty());
}

#[test]
fn test_sb_charset_ttable_rejected() {
    let (mut codec, mut buffer) = setup();

    buffer.extend([IAC, SB, CHARSET, CHARSET_TTABLE_REJECTED, IAC, SE]);

    assert_eq!(
        codec.decode(&mut buffer).unwrap().unwrap(),
        TelnetEvent::Subnegotiate(SubnegotiationType::CharsetTTableRejected)
    );
    assert!(codec.buffer.is_empty());
    assert!(buffer.is_empty());
}

#[test]
fn test_message() {
    let (mut codec, mut buffer) = setup();
    codec
        .encode(TelnetEvent::Message("hiya 😁".to_string()), &mut buffer)
        .unwrap();
    assert_eq!(buffer.as_ref(), b"hiya \xF0\x9F\x98\x81\r\n");

    let (mut codec, mut buffer) = setup();
    let msg = "this message is larger than the max buffer length".to_string();
    assert!(msg.len() > codec.max_buffer_length);
    codec.encode(TelnetEvent::Message(msg), &mut buffer).unwrap();
    assert_eq!(
        buffer.as_ref(),
        b"this message is larger than the max buffer length\r\n"
    );
}

#[test]
fn test_unicode() {
    let (mut codec, mut buffer) = setup();
    codec.message_mode = false;
    codec.unicode = true;
    codec.sga = false;

    buffer.extend(b"\xC3\xA4");

    let result = codec.decode(&mut buffer);

    assert!(matches!(result, Ok(Some(TelnetEvent::Unicode('ä')))));
}

#[test]
fn test_raw_message() {
    let (mut codec, mut buffer) = setup();
    codec
        .encode(TelnetEvent::RawMessage("hiya 😁".to_string()), &mut buffer)
        .unwrap();
    assert_eq!(buffer.as_ref(), b"hiya \xF0\x9F\x98\x81");
}

#[test]
fn lib_test_do() {
    let (mut codec, mut buffer) = setup();
    codec
        .encode(TelnetEvent::Do(TelnetOption::Echo), &mut buffer)
        .unwrap();
    assert_eq!(buffer.as_ref(), &[IAC, DO, ECHO]);
}

#[test]
fn lib_test_dont() {
    let (mut codec, mut buffer) = setup();
    codec
        .encode(TelnetEvent::Dont(TelnetOption::Echo), &mut buffer)
        .unwrap();
    assert_eq!(buffer.as_ref(), &[IAC, DONT, ECHO]);
}

#[test]
fn lib_test_will() {
    let (mut codec, mut buffer) = setup();
    codec
        .encode(TelnetEvent::Will(TelnetOption::Echo), &mut buffer)
        .unwrap();
    assert_eq!(buffer.as_ref(), &[IAC, WILL, ECHO]);
}

#[test]
fn lib_test_wont() {
    let (mut codec, mut buffer) = setup();
    codec
        .encode(TelnetEvent::Wont(TelnetOption::Echo), &mut buffer)
        .unwrap();
    assert_eq!(buffer.as_ref(), &[IAC, WONT, ECHO]);
}

#[test]
fn lib_test_sb_naws() {
    let (mut codec, mut buffer) = setup();
    codec
        .encode(
            TelnetEvent::Subnegotiate(SubnegotiationType::WindowSize(80, 80)),
            &mut buffer,
        )
        .unwrap();
    assert_eq!(
        buffer.as_ref(),
        &[IAC, SB, NAWS, 0x00, 0x50, 0x00, 0x50, IAC, SE]
    );
}

#[test]
fn lib_test_sb_charset_request() {
    let (mut codec, mut buffer) = setup();
    codec
        .encode(
            TelnetEvent::Subnegotiate(SubnegotiationType::CharsetRequest(vec![
                b"UTF-8".to_vec(),
                b"US-ASCII".to_vec(),
            ])),
            &mut buffer,
        )
        .unwrap();
    assert_eq!(
        &buffer.as_ref()[0..=4],
        &[IAC, SB, CHARSET, CHARSET_REQUEST, b' ']
    );
    assert_eq!(&buffer.as_ref()[5..], b"UTF-8 US-ASCII\xFF\xF0" as &[u8]);
}

#[test]
fn lib_test_sb_charset_accepted() {
    let (mut codec, mut buffer) = setup();
    codec
        .encode(
            TelnetEvent::Subnegotiate(SubnegotiationType::CharsetAccepted(b"UTF-8".to_vec())),
            &mut buffer,
        )
        .unwrap();
    assert_eq!(&buffer.as_ref()[0..=3], &[IAC, SB, CHARSET, CHARSET_ACCEPTED]);
    assert_eq!(&buffer.as_ref()[4..], b"UTF-8\xFF\xF0" as &[u8]);
}

#[test]
fn lib_test_sb_charset_rejected() {
    let (mut codec, mut buffer) = setup();
    codec
        .encode(
            TelnetEvent::Subnegotiate(SubnegotiationType::CharsetRejected),
            &mut buffer,
        )
        .unwrap();
    assert_eq!(buffer.as_ref(), &[IAC, SB, CHARSET, CHARSET_REJECTED, IAC, SE]);
}

#[test]
fn lib_test_sb_charset_ttable_rejected() {
    let (mut codec, mut buffer) = setup();
    codec
        .encode(
            TelnetEvent::Subnegotiate(SubnegotiationType::CharsetTTableRejected),
            &mut buffer,
        )
        .unwrap();
    assert_eq!(
        buffer.as_ref(),
        &[IAC, SB, CHARSET, CHARSET_TTABLE_REJECTED, IAC, SE]
    );
}

#[test]
fn test_sb_linemode_mode_encode() {
    let (mut codec, mut buffer) = setup();
    codec
        .encode(
            TelnetEvent::Subnegotiate(SubnegotiationType::LineMode(LineModeOption::Mode(
                LINEMODE_EDIT,
            ))),
            &mut buffer,
        )
        .unwrap();

    assert_eq!(buffer.as_ref(), &[IAC, SB, LINEMODE, MODE, LINEMODE_EDIT, IAC, SE]);
}

#[test]
fn test_sb_linemode_mode_decode() {
    let (mut codec, mut buffer) = setup();
    buffer.extend([IAC, SB, LINEMODE, MODE, LINEMODE_EDIT, IAC, SE]);
    let event = codec.decode(&mut buffer).unwrap().unwrap();
    match event {
        TelnetEvent::Subnegotiate(SubnegotiationType::LineMode(LineModeOption::Mode(mode))) => {
            assert_eq!(mode, LINEMODE_EDIT);
        }
        _ => panic!("Bad decode!"),
    };
}

#[test]
fn test_sb_linemode_slc_encode() {
    let (mut codec, mut buffer) = setup();
    let triples = [
        (Dispatch::from_bytes(SLC_ABORT, 0), '0'),
        (Dispatch::from_bytes(SLC_SYNCH, 0), '1'),
        (Dispatch::from_bytes(SLC_BRK, 0), '2'),
    ];

    codec
        .encode(
            TelnetEvent::Subnegotiate(SubnegotiationType::LineMode(LineModeOption::SLC(
                triples.to_vec(),
            ))),
            &mut buffer,
        )
        .unwrap();

    assert_eq!(
        buffer.as_ref(),
        &[
            IAC,
            SB,
            LINEMODE,
            LINEMODE_SLC,
            SLC_ABORT,
            0,
            b'0',
            SLC_SYNCH,
            0,
            b'1',
            SLC_BRK,
            0,
            b'2',
            IAC,
            SE
        ]
    )
}

#[test]
fn test_sb_linemode_unk_decode() {
    let (mut codec, mut buffer) = setup();

    buffer.extend([IAC, SB, LINEMODE, 123, 1, 2, 3, 4, 5, 6, IAC, SE]);

    let event = codec.decode(&mut buffer).unwrap().unwrap();

    match event {
        TelnetEvent::Subnegotiate(SubnegotiationType::LineMode(LineModeOption::Unknown(
            123,
            data,
        ))) => {
            assert_eq!(data.as_slice(), &[1, 2, 3, 4, 5, 6]);
        }
        _ => panic!("Bad decode!"),
    }
}

#[test]
fn test_sb_linemode_unk_encode() {
    let (mut codec, mut buffer) = setup();

    codec
        .encode(
            TelnetEvent::Subnegotiate(SubnegotiationType::LineMode(LineModeOption::Unknown(
                123,
                [1, 2, 3, 4, 5, 6].to_vec(),
            ))),
            &mut buffer,
        )
        .unwrap();

    assert_eq!(buffer.as_ref(), &[IAC, SB, LINEMODE, 123, 1, 2, 3, 4, 5, 6, IAC, SE]);
}

#[test]
fn test_sb_linemode_slc_decode() {
    let (mut codec, mut buffer) = setup();

    buffer.extend([
        IAC,
        SB,
        LINEMODE,
        LINEMODE_SLC,
        SLC_ABORT,
        0,
        b'0',
        SLC_SYNCH,
        0,
        b'1',
        SLC_BRK,
        0,
        b'2',
        IAC,
        SE,
    ]);

    let event = codec.decode(&mut buffer).unwrap().unwrap();

    match event {
        TelnetEvent::Subnegotiate(SubnegotiationType::LineMode(LineModeOption::SLC(triples))) => {
            assert_eq!(triples.len(), 3);

            const CHARS: [char; 3] = ['0', '1', '2'];
            const FUNCS: [u8; 3] = [SLC_ABORT, SLC_SYNCH, SLC_BRK];

            for (index, &(dispatch, ch)) in triples.iter().enumerate() {
                assert_eq!(dispatch.function, SlcFunction::from_byte(FUNCS[index]));
                assert_eq!(ch, CHARS[index]);
            }
        }
        _ => panic!("Bad decode!"),
    }
}

#[test]
fn test_sb_linemode_fmask_decode() {
    let (mut codec, mut buffer) = setup();
    buffer.extend([
        IAC,
        SB,
        LINEMODE,
        DO,
        LINEMODE_FORWARD_MASK,
        0,
        0,
        0,
        0,
        0,
        0,
        0,
        0,
        0,
        0,
        0,
        0,
        0,
        0,
        0,
        123,
        IAC,
        SE,
    ]);

    let event = codec.decode(&mut buffer).unwrap().unwrap();

    match event {
        TelnetEvent::Subnegotiate(SubnegotiationType::LineMode(LineModeOption::ForwardMask(
            ForwardMaskOption::Do(data),
        ))) => {
            assert_eq!(data.len(), 16);
            assert_eq!(data[15], 123)
        }
        _ => panic!("Bad decode!"),
    }
}

#[test]
fn test_sb_linemode_fmask_encode() {
    let (mut codec, mut buffer) = setup();
    codec
        .encode(
            TelnetEvent::Subnegotiate(SubnegotiationType::LineMode(LineModeOption::ForwardMask(
                ForwardMaskOption::Do(Vec::with_capacity(16)),
            ))),
            &mut buffer,
        )
        .unwrap();

    assert_eq!(
        buffer.as_ref(),
        &[
            IAC,
            SB,
            LINEMODE,
            DO,
            LINEMODE_FORWARD_MASK,
            0,
            0,
            0,
            0,
            0,
            0,
            0,
            0,
            0,
            0,
            0,
            0,
            0,
            0,
            0,
            0,
            IAC,
            SE
        ]
    )
}
