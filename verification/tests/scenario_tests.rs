//! End-to-end scenarios on concrete wire bytes, and concrete checks of the
//! codec's laws: round trips, malformed-frame rejection, the accumulator
//! cap, and the length model.

use bytes::BytesMut;
use nectar::env::{EnvironmentKind, EnvironmentOperation, WellKnownVariable};
use nectar::event::TelnetEvent;
use nectar::linemode::{Dispatch, ForwardMaskOption, SlcFunction};
use nectar::option::TelnetOption;
use nectar::subnegotiation::{LineModeOption, SubnegotiationType};
use nectar::TelnetCodec;

fn decode_all(codec: &mut TelnetCodec, bytes: &[u8]) -> Vec<TelnetEvent> {
    let mut buffer = BytesMut::new();
    buffer.extend(bytes.iter().copied());
    let mut events = Vec::new();
    while let Some(event) = codec.decode(&mut buffer).unwrap() {
        events.push(event);
    }
    events
}

#[test]
fn scenario_will_echo() {
    let mut codec = TelnetCodec::new(16);
    let mut buffer = BytesMut::new();
    buffer.extend([0xFF, 0xFB, 0x01]);
    assert_eq!(
        codec.decode(&mut buffer).unwrap().unwrap(),
        TelnetEvent::Will(TelnetOption::Echo)
    );
    assert!(buffer.is_empty());
}

#[test]
fn scenario_dont_suppress_go_ahead() {
    let mut codec = TelnetCodec::new(16);
    let mut buffer = BytesMut::new();
    buffer.extend([0xFF, 0xFE, 0x03]);
    assert_eq!(
        codec.decode(&mut buffer).unwrap().unwrap(),
        TelnetEvent::Dont(TelnetOption::SuppressGoAhead)
    );
    assert!(buffer.is_empty());
}

#[test]
fn scenario_line_hi() {
    let mut codec = TelnetCodec::new(16);
    let mut buffer = BytesMut::new();
    buffer.extend([0x68, 0x69, 0x0D, 0x0A]);
    assert_eq!(
        codec.decode(&mut buffer).unwrap().unwrap(),
        TelnetEvent::Message("hi".to_string())
    );
    assert!(buffer.is_empty());
}

#[test]
fn scenario_naws_80_by_80() {
    let mut codec = TelnetCodec::new(16);
    let mut buffer = BytesMut::new();
    buffer.extend([0xFF, 0xFA, 0x1F, 0x00, 0x50, 0x00, 0x50, 0xFF, 0xF0]);
    assert_eq!(
        codec.decode(&mut buffer).unwrap().unwrap(),
        TelnetEvent::Subnegotiate(SubnegotiationType::WindowSize(80, 80))
    );
    assert!(buffer.is_empty());
}

#[test]
fn scenario_charset_request_utf8_ascii() {
    let mut codec = TelnetCodec::new(16);
    let mut buffer = BytesMut::new();
    buffer.extend([
        0xFF, 0xFA, 0x2A, 0x01, 0x20, 0x55, 0x54, 0x46, 0x2D, 0x38, 0x20, 0x55, 0x53, 0x2D,
        0x41, 0x53, 0x43, 0x49, 0x49, 0xFF, 0xF0,
    ]);
    assert_eq!(
        codec.decode(&mut buffer).unwrap().unwrap(),
        TelnetEvent::Subnegotiate(SubnegotiationType::CharsetRequest(vec![
            b"UTF-8".to_vec(),
            b"US-ASCII".to_vec()
        ]))
    );
    assert!(buffer.is_empty());
}

#[test]
fn scenario_linemode_edit() {
    let mut codec = TelnetCodec::new(16);
    let mut buffer = BytesMut::new();
    buffer.extend([0xFF, 0xFA, 0x22, 0x01, 0x01, 0xFF, 0xF0]);
    assert_eq!(
        codec.decode(&mut buffer).unwrap().unwrap(),
        TelnetEvent::Subnegotiate(SubnegotiationType::LineMode(LineModeOption::Mode(1)))
    );
    assert!(buffer.is_empty());
}

#[test]
fn scenario_linemode_slc_triples() {
    let mut codec = TelnetCodec::new(16);
    let mut buffer = BytesMut::new();
    buffer.extend([
        0xFF, 0xFA, 0x22, 0x03, 0x07, 0x00, 0x30, 0x01, 0x00, 0x31, 0x02, 0x00, 0x32, 0xFF,
        0xF0,
    ]);
    let expected = vec![
        (Dispatch::from_bytes(0x07, 0x00), '0'),
        (Dispatch::from_bytes(0x01, 0x00), '1'),
        (Dispatch::from_bytes(0x02, 0x00), '2'),
    ];
    assert_eq!(expected[0].0.function, SlcFunction::Abort);
    assert_eq!(expected[1].0.function, SlcFunction::Synch);
    assert_eq!(expected[2].0.function, SlcFunction::Brk);
    assert_eq!(
        codec.decode(&mut buffer).unwrap().unwrap(),
        TelnetEvent::Subnegotiate(SubnegotiationType::LineMode(LineModeOption::SLC(expected)))
    );
    assert!(buffer.is_empty());
}

#[test]
fn chunked_line_decodes_whole_message() {
    // A line split in the middle of its data decodes to the same single
    // message: the first call consumes what it accumulated, so nothing is
    // scanned twice.
    let mut codec = TelnetCodec::new(16);
    let mut buffer = BytesMut::new();
    buffer.extend(b"h".iter().copied());
    assert!(codec.decode(&mut buffer).unwrap().is_none());
    assert!(buffer.is_empty());
    assert_eq!(codec.buffer, b"h".to_vec());
    buffer.extend(b"i\r\n".iter().copied());
    assert_eq!(
        codec.decode(&mut buffer).unwrap().unwrap(),
        TelnetEvent::Message("hi".to_string())
    );
    assert!(buffer.is_empty());
    assert!(codec.buffer.is_empty());
}

#[test]
fn byte_by_byte_feeding_matches_whole_feed() {
    // Chunk invariance: a mixed stream fed one byte at a time yields
    // exactly the events of feeding it whole, wherever the cuts fall —
    // inside lines, negotiations, and subnegotiation frames alike.
    let wire: Vec<u8> = [
        b"ab" as &[u8],
        &[0xFF, 0xFB, 0x01],
        b"cd\r\n",
        &[0xFF, 0xFA, 0x1F, 0x00, 0x50, 0x00, 0x50, 0xFF, 0xF0],
        b"x\r\n",
    ]
    .concat();

    let mut whole = TelnetCodec::new(16);
    let whole_events = decode_all(&mut whole, &wire);

    let mut chunked = TelnetCodec::new(16);
    let mut buffer = BytesMut::new();
    let mut chunked_events = Vec::new();
    for byte in &wire {
        buffer.extend([*byte]);
        while let Some(event) = chunked.decode(&mut buffer).unwrap() {
            chunked_events.push(event);
        }
    }

    assert_eq!(chunked_events, whole_events);
    assert_eq!(
        chunked_events,
        vec![
            TelnetEvent::Will(TelnetOption::Echo),
            TelnetEvent::Message("abcd".to_string()),
            TelnetEvent::Subnegotiate(SubnegotiationType::WindowSize(80, 80)),
            TelnetEvent::Message("x".to_string()),
        ]
    );
}

#[test]
fn chunked_negotiation_decodes_once_complete() {
    // A negotiation split across two chunks: the first call sees a
    // truncated command, leaves it in place, and the completed frame
    // decodes on the next call.
    let mut codec = TelnetCodec::new(16);
    let mut buffer = BytesMut::new();
    buffer.extend([0xFF]);
    assert!(codec.decode(&mut buffer).unwrap().is_none());
    assert_eq!(buffer.as_ref(), &[0xFF]);
    buffer.extend([0xFB, 0x01]);
    assert_eq!(
        codec.decode(&mut buffer).unwrap().unwrap(),
        TelnetEvent::Will(TelnetOption::Echo)
    );
    assert!(buffer.is_empty());
}

#[test]
fn chunked_subnegotiation_decodes_once_complete() {
    let mut codec = TelnetCodec::new(16);
    let mut buffer = BytesMut::new();
    buffer.extend([0xFF, 0xFA, 0x1F, 0x00, 0x50]);
    assert!(codec.decode(&mut buffer).unwrap().is_none());
    assert_eq!(buffer.len(), 5);
    buffer.extend([0x00, 0x50, 0xFF, 0xF0]);
    assert_eq!(
        codec.decode(&mut buffer).unwrap().unwrap(),
        TelnetEvent::Subnegotiate(SubnegotiationType::WindowSize(80, 80))
    );
    assert!(buffer.is_empty());
}

#[test]
fn naws_wrong_length_produces_no_event() {
    // A NAWS payload of three bytes is discarded: the frame is consumed
    // and no event is emitted.
    let mut codec = TelnetCodec::new(16);
    let mut buffer = BytesMut::new();
    buffer.extend([0xFF, 0xFA, 0x1F, 0x00, 0x50, 0x00, 0xFF, 0xF0]);
    assert!(codec.decode(&mut buffer).unwrap().is_none());
    assert!(buffer.is_empty());
    // A following event still decodes normally.
    buffer.extend([0xFF, 0xFB, 0x01]);
    assert_eq!(
        codec.decode(&mut buffer).unwrap().unwrap(),
        TelnetEvent::Will(TelnetOption::Echo)
    );
}

#[test]
fn invalid_subnegotiation_escape_is_discarded() {
    // An IAC inside a frame followed by anything but IAC or SE marks the
    // frame invalid; it is consumed without an event.
    let mut codec = TelnetCodec::new(16);
    let mut buffer = BytesMut::new();
    buffer.extend([0xFF, 0xFA, 0x1F, 0x00, 0xFF, 0x07, 0x00, 0x50, 0xFF, 0xF0]);
    assert!(codec.decode(&mut buffer).unwrap().is_none());
    assert!(buffer.is_empty());
}

#[test]
fn accumulator_cap_drops_overflow() {
    // With a cap of 16, twenty data bytes leave exactly 16 in the
    // accumulator and the four beyond the cap are silently dropped; the
    // line terminator still flushes whatever was retained.
    let mut codec = TelnetCodec::new(16);
    let mut buffer = BytesMut::new();
    buffer.extend([b'a'; 20]);
    buffer.extend(b"\r\n");
    assert_eq!(
        codec.decode(&mut buffer).unwrap().unwrap(),
        TelnetEvent::Message("aaaaaaaaaaaaaaaa".to_string())
    );
    assert!(codec.buffer.is_empty());
    assert!(buffer.is_empty());
}

#[test]
fn accumulator_cap_flush_is_chunk_invariant() {
    // The over-long line flushes the same message when its terminator
    // arrives in a later chunk.
    let mut codec = TelnetCodec::new(16);
    let mut buffer = BytesMut::new();
    buffer.extend([b'a'; 20]);
    buffer.extend(b"\r");
    assert!(codec.decode(&mut buffer).unwrap().is_none());
    assert!(buffer.is_empty());
    assert_eq!(codec.buffer.len(), 16);
    buffer.extend(b"\n");
    assert_eq!(
        codec.decode(&mut buffer).unwrap().unwrap(),
        TelnetEvent::Message("aaaaaaaaaaaaaaaa".to_string())
    );
    assert!(codec.buffer.is_empty());
}

#[test]
fn accumulator_flushes_line_under_cap() {
    // A line that fits the cap together with its carriage return is
    // emitted whole.
    let mut codec = TelnetCodec::new(16);
    let mut buffer = BytesMut::new();
    buffer.extend(b"fifteen chars!!\r\n");
    assert_eq!(
        codec.decode(&mut buffer).unwrap().unwrap(),
        TelnetEvent::Message("fifteen chars!!".to_string())
    );
    assert!(codec.buffer.is_empty());
}

#[test]
fn message_iac_round_trip() {
    // Encoding a message and decoding its wire bytes yields the message
    // back.
    let mut codec = TelnetCodec::new(64);
    let mut buffer = BytesMut::new();
    codec
        .encode(TelnetEvent::Message("look: 2 > 1".to_string()), &mut buffer)
        .unwrap();
    assert_eq!(
        codec.decode(&mut buffer).unwrap().unwrap(),
        TelnetEvent::Message("look: 2 > 1".to_string())
    );
    assert!(buffer.is_empty());
    assert!(codec.buffer.is_empty());
}

#[test]
fn unknown_subnegotiation_iac_doubling_round_trip() {
    // An unknown option's payload has its IAC bytes doubled on the wire
    // and restored on decode.
    let mut codec = TelnetCodec::new(16);
    let mut buffer = BytesMut::new();
    let payload = vec![1u8, 0xFF, 2u8, 0xFF, 0xFF];
    codec
        .encode(
            TelnetEvent::Subnegotiate(SubnegotiationType::Unknown(
                TelnetOption::GMCP,
                payload.clone(),
            )),
            &mut buffer,
        )
        .unwrap();
    assert_eq!(
        buffer.as_ref(),
        &[0xFF, 0xFA, 201, 1, 0xFF, 0xFF, 2, 0xFF, 0xFF, 0xFF, 0xFF, 0xFF, 0xF0]
    );
    assert_eq!(
        codec.decode(&mut buffer).unwrap().unwrap(),
        TelnetEvent::Subnegotiate(SubnegotiationType::Unknown(TelnetOption::GMCP, payload))
    );
    assert!(buffer.is_empty());
}

#[test]
fn forward_mask_padding_round_trip() {
    // Encoding a short mask pads it to 16 bytes with zeros; decoding
    // yields the padded 16-byte mask.
    let mut codec = TelnetCodec::new(16);
    let mut buffer = BytesMut::new();
    codec
        .encode(
            TelnetEvent::Subnegotiate(SubnegotiationType::LineMode(LineModeOption::ForwardMask(
                ForwardMaskOption::Do(vec![7, 8, 9]),
            ))),
            &mut buffer,
        )
        .unwrap();
    let mut expected_mask = vec![7u8, 8, 9];
    expected_mask.extend([0u8; 13]);
    assert_eq!(
        codec.decode(&mut buffer).unwrap().unwrap(),
        TelnetEvent::Subnegotiate(SubnegotiationType::LineMode(LineModeOption::ForwardMask(
            ForwardMaskOption::Do(expected_mask)
        )))
    );
}

#[test]
fn slc_round_trip() {
    // A non-empty list of SLC triples survives encoding and decoding.
    let mut codec = TelnetCodec::new(16);
    let mut buffer = BytesMut::new();
    let triples = vec![
        (Dispatch::from_bytes(8, 0b1000_0010), 'q'),
        (Dispatch::from_bytes(15, 3), '\x11'),
    ];
    codec
        .encode(
            TelnetEvent::Subnegotiate(SubnegotiationType::LineMode(LineModeOption::SLC(
                triples.clone(),
            ))),
            &mut buffer,
        )
        .unwrap();
    assert_eq!(
        codec.decode(&mut buffer).unwrap().unwrap(),
        TelnetEvent::Subnegotiate(SubnegotiationType::LineMode(LineModeOption::SLC(triples)))
    );
}

#[test]
fn environment_is_end_to_end() {
    // A NEW-ENVIRON IS frame decodes into structured variables through the
    // codec.
    let mut codec = TelnetCodec::new(16);
    let mut events = decode_all(
        &mut codec,
        &[
            0xFF, 0xFA, 0x27, 0x00, 0x00, b'U', b'S', b'E', b'R', 0x01, b'b', b'o', b'b', 0xFF,
            0xF0,
        ],
    );
    assert_eq!(events.len(), 1);
    match events.remove(0) {
        TelnetEvent::Subnegotiate(SubnegotiationType::Environment(EnvironmentOperation::Is(
            vars,
        ))) => {
            assert_eq!(vars.len(), 1);
            assert!(matches!(
                vars[0].0,
                EnvironmentKind::WellKnown(Some(WellKnownVariable::User))
            ));
            assert_eq!(vars[0].1, Some(b"bob".to_vec()));
        }
        other => panic!("unexpected event: {:?}", other),
    }
}

#[test]
fn environment_round_trip_through_codec() {
    // Encoding a NEW-ENVIRON operation and decoding its frame yields the
    // operation back.
    let mut codec = TelnetCodec::new(16);
    let mut buffer = BytesMut::new();
    let op = EnvironmentOperation::Is(vec![
        (
            EnvironmentKind::WellKnown(Some(WellKnownVariable::User)),
            Some(b"bob".to_vec()),
        ),
        (
            EnvironmentKind::UserDefined(Some("LANG".to_string())),
            Some(vec![2u8, 1u8]),
        ),
    ]);
    codec
        .encode(
            TelnetEvent::Subnegotiate(SubnegotiationType::Environment(op.clone())),
            &mut buffer,
        )
        .unwrap();
    assert_eq!(
        codec.decode(&mut buffer).unwrap().unwrap(),
        TelnetEvent::Subnegotiate(SubnegotiationType::Environment(op))
    );
    assert!(buffer.is_empty());
}

#[test]
fn environment_send_round_trip_through_codec() {
    let mut codec = TelnetCodec::new(16);
    let mut buffer = BytesMut::new();
    let op = EnvironmentOperation::Send(vec![
        EnvironmentKind::WellKnown(Some(WellKnownVariable::Display)),
        EnvironmentKind::UserDefined(Some("TERM".to_string())),
        EnvironmentKind::WellKnown(None),
        EnvironmentKind::UserDefined(None),
    ]);
    codec
        .encode(
            TelnetEvent::Subnegotiate(SubnegotiationType::Environment(op.clone())),
            &mut buffer,
        )
        .unwrap();
    assert_eq!(
        codec.decode(&mut buffer).unwrap().unwrap(),
        TelnetEvent::Subnegotiate(SubnegotiationType::Environment(op))
    );
}

#[test]
fn option_byte_round_trip() {
    for byte in 0u8..=255 {
        assert_eq!(TelnetOption::from_byte(byte).byte(), byte);
    }
    assert_eq!(TelnetOption::from_byte(1), TelnetOption::Echo);
    assert_eq!(TelnetOption::from_byte(3), TelnetOption::SuppressGoAhead);
    assert_eq!(TelnetOption::from_byte(201), TelnetOption::GMCP);
    assert_eq!(TelnetOption::from_byte(4), TelnetOption::Unknown(4));
}

#[test]
fn length_model_matches_encoder_output() {
    // The declared lengths agree with the byte counts the encoder writes.
    let mut codec = TelnetCodec::new(16);

    let naws = TelnetEvent::Subnegotiate(SubnegotiationType::WindowSize(80, 80));
    assert_eq!(naws.len(), 9);
    let mut buffer = BytesMut::new();
    codec.encode(naws, &mut buffer).unwrap();
    assert_eq!(buffer.len(), 9);

    let request = TelnetEvent::Subnegotiate(SubnegotiationType::CharsetRequest(vec![
        b"UTF-8".to_vec(),
        b"US-ASCII".to_vec(),
    ]));
    // 5 + 8 name bytes + 2 names + 1 = 21
    assert_eq!(request.len(), 21);
    let mut buffer = BytesMut::new();
    codec.encode(request, &mut buffer).unwrap();
    assert_eq!(buffer.len(), 21);

    let negotiation = TelnetEvent::Do(TelnetOption::Echo);
    assert_eq!(negotiation.len(), 3);

    let message = TelnetEvent::Message("hello".to_string());
    assert_eq!(message.len(), 5);

    let fmask = TelnetEvent::Subnegotiate(SubnegotiationType::LineMode(
        LineModeOption::ForwardMask(ForwardMaskOption::Do(vec![1])),
    ));
    assert_eq!(fmask.len(), 5 + 18);
    let mut buffer = BytesMut::new();
    codec.encode(fmask, &mut buffer).unwrap();
    assert_eq!(buffer.len(), 23);
}

#[test]
fn character_mode_emits_per_byte() {
    let mut codec = TelnetCodec::new(16);
    codec.message_mode = false;
    let events = decode_all(&mut codec, b"hi");
    assert_eq!(
        events,
        vec![TelnetEvent::Character(b'h'), TelnetEvent::Character(b'i')]
    );
}

#[test]
fn character_mode_sga_double_iac() {
    let mut codec = TelnetCodec::new(16);
    codec.sga = true;
    let mut buffer = BytesMut::new();
    buffer.extend([0xFF, 0xFF, 0xFF, 0xFF]);
    assert_eq!(
        codec.decode(&mut buffer).unwrap().unwrap(),
        TelnetEvent::Character(0xFF)
    );
    assert_eq!(
        codec.decode(&mut buffer).unwrap().unwrap(),
        TelnetEvent::Character(0xFF)
    );
    assert!(buffer.is_empty());
}

#[test]
fn unicode_mode_invalid_sequence_yields_nop() {
    let mut codec = TelnetCodec::new(16);
    codec.message_mode = false;
    codec.unicode = true;
    let mut buffer = BytesMut::new();
    // 0xC3 expects a continuation byte; 0x41 is not one.
    buffer.extend([0xC3, 0x41]);
    assert_eq!(codec.decode(&mut buffer).unwrap().unwrap(), TelnetEvent::Nop);
    assert!(buffer.is_empty());
}

#[test]
fn error_constructors_keep_kind_and_message() {
    let err = nectar::error::TelnetError::codec("bad frame".to_string());
    assert!(matches!(err.kind, nectar::error::TelnetErrorType::Codec));
    assert_eq!(err.message, "bad frame");
    let err = nectar::error::TelnetError::io("broken pipe".to_string());
    assert!(matches!(err.kind, nectar::error::TelnetErrorType::Io));
    assert_eq!(err.message, "broken pipe");
}

#[test]
fn empty_charset_request_is_discarded() {
    // A CHARSET REQUEST with no separator byte after the subcommand is
    // malformed and consumed without an event.
    let mut codec = TelnetCodec::new(16);
    let mut buffer = BytesMut::new();
    buffer.extend([0xFF, 0xFA, 0x2A, 0x01, 0xFF, 0xF0]);
    assert!(codec.decode(&mut buffer).unwrap().is_none());
    assert!(buffer.is_empty());
}

#[test]
fn message_interrupted_by_negotiation() {
    // A negotiation embedded in a partial line is emitted first; the
    // accumulated prefix stays and the line completes afterwards.
    let mut codec = TelnetCodec::new(16);
    let mut buffer = BytesMut::new();
    buffer.extend(b"ab".iter().copied());
    buffer.extend([0xFF, 0xFB, 0x01]);
    assert_eq!(
        codec.decode(&mut buffer).unwrap().unwrap(),
        TelnetEvent::Will(TelnetOption::Echo)
    );
    assert_eq!(codec.buffer, b"ab".to_vec());
    assert!(buffer.is_empty());
    buffer.extend(b"cd\r\n".iter().copied());
    assert_eq!(
        codec.decode(&mut buffer).unwrap().unwrap(),
        TelnetEvent::Message("abcd".to_string())
    );
}

#[test]
fn unknown_command_after_iac_is_skipped() {
    // IAC before an unrecognized command byte drops the IAC and rescans
    // the next byte as data.
    let mut codec = TelnetCodec::new(16);
    let mut buffer = BytesMut::new();
    buffer.extend([0xFF, 0xF8]); // IAC EL: EL is not handled
    buffer.extend(b"ok\r\n");
    // The stray EL byte lands in the accumulator and, not being UTF-8,
    // comes out as the replacement character.
    assert_eq!(
        codec.decode(&mut buffer).unwrap().unwrap(),
        TelnetEvent::Message("\u{fffd}ok".to_string())
    );
}

#[test]
fn nop_is_skipped_before_line() {
    let mut codec = TelnetCodec::new(16);
    let mut buffer = BytesMut::new();
    buffer.extend([0xFF, 0xF1]); // IAC NOP
    buffer.extend(b"hi\r\n");
    assert_eq!(
        codec.decode(&mut buffer).unwrap().unwrap(),
        TelnetEvent::Message("hi".to_string())
    );
    assert!(buffer.is_empty());
}

#[test]
fn forward_mask_simple_answers_decode() {
    for (byte, expected) in [
        (0xFCu8, ForwardMaskOption::Wont),
        (0xFEu8, ForwardMaskOption::Dont),
    ] {
        let mut codec = TelnetCodec::new(16);
        let mut buffer = BytesMut::new();
        buffer.extend([0xFF, 0xFA, 0x22, byte, 0x02, 0xFF, 0xF0]);
        assert_eq!(
            codec.decode(&mut buffer).unwrap().unwrap(),
            TelnetEvent::Subnegotiate(SubnegotiationType::LineMode(
                LineModeOption::ForwardMask(expected)
            ))
        );
    }
    // WILL round-trips through the encoder too.
    let mut codec = TelnetCodec::new(16);
    let mut buffer = BytesMut::new();
    codec
        .encode(
            TelnetEvent::Subnegotiate(SubnegotiationType::LineMode(LineModeOption::ForwardMask(
                ForwardMaskOption::Will,
            ))),
            &mut buffer,
        )
        .unwrap();
    assert_eq!(buffer.as_ref(), &[0xFF, 0xFA, 0x22, 0xFB, 0x02, 0xFF, 0xF0]);
    assert_eq!(
        codec.decode(&mut buffer).unwrap().unwrap(),
        TelnetEvent::Subnegotiate(SubnegotiationType::LineMode(LineModeOption::ForwardMask(
            ForwardMaskOption::Will
        )))
    );
}

#[test]
fn unknown_charset_subcommand_is_discarded() {
    let mut codec = TelnetCodec::new(16);
    let mut buffer = BytesMut::new();
    buffer.extend([0xFF, 0xFA, 0x2A, 0x06, 0x01, 0xFF, 0xF0]); // TTABLE-ACK
    assert!(codec.decode(&mut buffer).unwrap().is_none());
    assert!(buffer.is_empty());
}

#[test]
fn unknown_environ_operation_keeps_payload() {
    let mut codec = TelnetCodec::new(16);
    let mut buffer = BytesMut::new();
    buffer.extend([0xFF, 0xFA, 0x27, 0x09, 0x61, 0x62, 0xFF, 0xF0]);
    assert_eq!(
        codec.decode(&mut buffer).unwrap().unwrap(),
        TelnetEvent::Subnegotiate(SubnegotiationType::Environment(
            EnvironmentOperation::Unknown(9, b"ab".to_vec())
        ))
    );
}

#[test]
fn event_length_model() {
    assert_eq!(TelnetEvent::Character(7).len(), 1);
    assert_eq!(TelnetEvent::GoAhead.len(), 5);
    assert_eq!(TelnetEvent::Nop.len(), 5);
    assert_eq!(TelnetEvent::RawMessage("abc".to_string()).len(), 3);
    assert!(TelnetEvent::Message(String::new()).is_empty());
    let sub = SubnegotiationType::LineMode(LineModeOption::Mode(1));
    assert_eq!(sub.len(), 2);
    assert!(!sub.is_empty());
    let sub = SubnegotiationType::LineMode(LineModeOption::SLC(vec![
        (Dispatch::from_bytes(1, 0), 'a'),
        (Dispatch::from_bytes(2, 0), 'b'),
    ]));
    assert_eq!(sub.len(), 7);
    let sub = SubnegotiationType::Unknown(TelnetOption::MSSP, vec![1, 2, 3]);
    assert_eq!(sub.len(), 3);
    let sub = SubnegotiationType::Environment(EnvironmentOperation::Is(vec![(
        EnvironmentKind::WellKnown(Some(WellKnownVariable::User)),
        Some(vec![9]),
    )]));
    // IS byte + VAR tag + "USER" + VALUE tag + one value byte
    assert_eq!(sub.len(), 8);
}

#[test]
fn sga_flush_takes_priority_over_transport() {
    // With Suppress Go Ahead set, a retained partial line is flushed
    // before any transport byte is looked at.
    let mut codec = TelnetCodec::new(16);
    codec.sga = true;
    codec.buffer.extend(b"held".iter().copied());
    let mut buffer = BytesMut::new();
    buffer.extend([0xFF, 0xFF]);
    assert_eq!(
        codec.decode(&mut buffer).unwrap().unwrap(),
        TelnetEvent::Message("held".to_string())
    );
    assert_eq!(buffer.len(), 2);
    assert_eq!(
        codec.decode(&mut buffer).unwrap().unwrap(),
        TelnetEvent::Character(0xFF)
    );
}
