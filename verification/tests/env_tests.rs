//! Tests for the NEW-ENVIRON codec: names, values, variables, and
//! operation encoding.

use bytes::BytesMut;
use nectar::constants::{
    ENV_ESC, ENV_INFO, ENV_IS, ENV_SEND, ENV_USERVAR, ENV_VALUE, ENV_VAR, IAC,
};
use nectar::env::{
    decode_env_is, decode_env_name, decode_env_send, decode_env_send_var, decode_env_value,
    decode_env_var, encode_bytes, encode_env_op, EnvironmentKind, EnvironmentOperation,
    WellKnownVariable,
};

#[test]
fn test_decode_env_name_empty_input() {
    let input = &[];
    let decoded = decode_env_name(input);
    assert_eq!(decoded, None);
}

#[test]
fn test_decode_env_name_unescaped_chars_only() {
    let input = b"abcxyz";
    let decoded = decode_env_name(input);
    assert_eq!(decoded, Some((vec![97, 98, 99, 120, 121, 122], 6)));
}

#[test]
fn test_decode_env_name_esc_sequences() {
    let input = &[
        ENV_ESC, ENV_VAR, ENV_ESC, ENV_USERVAR, ENV_ESC, ENV_VALUE, ENV_ESC, ENV_ESC, IAC, IAC,
    ];
    let decoded = decode_env_name(input);
    assert_eq!(
        decoded,
        Some((vec![ENV_VAR, ENV_USERVAR, ENV_VALUE, ENV_ESC, IAC], 10))
    );
}

#[test]
fn test_decode_env_name_non_escaped_special_chars() {
    let input = &[ENV_VAR, ENV_USERVAR, ENV_VALUE];
    let decoded = decode_env_name(input);
    // The first tag encountered ends the name.
    assert_eq!(decoded, Some((vec![], 0)));
}

#[test]
fn test_decode_env_name_invalid_data() {
    let input = &[ENV_ESC]; // insufficient data to construct an escape sequence
    let decoded = decode_env_name(input);
    assert_eq!(decoded, None);
}

#[test]
fn test_decode_env_name_invalid_esc_seq() {
    let input = &[ENV_ESC, 99]; // 'c' does not form a valid escape sequence
    let decoded = decode_env_name(input);
    assert_eq!(decoded, None);
}

#[test]
fn test_decode_env_value_empty_input() {
    let input = &[];
    let decoded = decode_env_value(input);
    assert_eq!(decoded, Some((Vec::new(), 0)));
}

#[test]
fn test_decode_env_value_unescaped_chars_only() {
    let input = b"abcxyz";
    let decoded = decode_env_value(input);
    assert_eq!(decoded, Some((vec![97, 98, 99, 120, 121, 122], 6)));
}

#[test]
fn test_decode_env_value_esc_sequences() {
    let input = &[
        ENV_ESC, ENV_VAR, ENV_ESC, ENV_USERVAR, ENV_ESC, ENV_VALUE, ENV_ESC, ENV_ESC, IAC, IAC,
    ];
    let decoded = decode_env_value(input);
    assert_eq!(
        decoded,
        Some((vec![ENV_VAR, ENV_USERVAR, ENV_VALUE, ENV_ESC, IAC], 10))
    );
}

#[test]
fn test_decode_env_value_non_escaped_special_chars() {
    let input = &[ENV_VAR, ENV_USERVAR, ENV_VALUE];
    let decoded = decode_env_value(input);
    // The first tag encountered ends the value.
    assert_eq!(decoded, Some((vec![], 0)));
}

#[test]
fn test_decode_env_value_invalid_data() {
    let input = &[ENV_ESC]; // insufficient data to construct an escape sequence
    let decoded = decode_env_value(input);
    assert_eq!(decoded, None);
}

#[test]
fn test_decode_env_value_invalid_esc_seq() {
    let input = &[ENV_ESC, 99]; // 'c' does not form a valid escape sequence
    let decoded = decode_env_value(input);
    assert_eq!(decoded, None);
}

#[test]
fn test_decode_env_uservar() {
    let (name, value, size) = decode_env_var(b"USER\x01test\x03HOME\x03DISPLAY\x01:0.0").unwrap();

    assert_eq!(name, "USER");

    assert_eq!(value, Some(vec![116, 101, 115, 116]));
    assert_eq!(size, 9);
}

#[test]
fn test_decode_env_vars() {
    let decoded = decode_env_is(b"\x00USER\x01test\x03HOME\x03DISPLAY\x01:0.0").unwrap();

    assert_eq!(decoded.len(), 3);

    let (kind, value) = &decoded[0];
    assert_eq!(value, &Some(vec![116, 101, 115, 116]));
    assert!(matches!(
        kind,
        EnvironmentKind::WellKnown(Some(WellKnownVariable::User))
    ));
    let (kind, value) = &decoded[1];
    assert!(matches!(kind, EnvironmentKind::UserDefined(Some(_))));
    assert_eq!(kind.name().unwrap(), "HOME");
    assert!(value.is_none());
    let (kind, value) = &decoded[2];
    assert!(matches!(kind, EnvironmentKind::UserDefined(Some(_))));
    assert_eq!(kind.name().unwrap(), "DISPLAY");
    assert_eq!(value, &Some(vec![58, 48, 46, 48]));
}

#[test]
fn test_decode_env_vars_invalid() {
    let decoded = decode_env_is(b"\x00USER\x01test\x03\x03DISPLAY\x01:0.0");
    assert!(decoded.is_none());

    let decoded = decode_env_is(b"\x00USER\x01te\x02st\x03HOME\x03DISPLAY\x01:0.0");
    assert!(decoded.is_none());
}

#[test]
fn test_decode_env_vars_empty() {
    let decoded = decode_env_is(&[]).unwrap();
    assert!(decoded.is_empty());
}

#[test]
fn test_encode_env_op_is() {
    let mut buffer = BytesMut::new();
    let env_var = EnvironmentKind::WellKnown(Some(WellKnownVariable::Job));
    let op = EnvironmentOperation::Is(vec![(env_var, Some(vec![1]))]); // Using Job as example
    encode_env_op(op, &mut buffer);
    assert_eq!(buffer[0], ENV_IS);
    assert_eq!(buffer[1], ENV_VAR);
    assert_eq!(buffer.last(), Some(&1));
}

#[test]
fn test_encode_env_op_send() {
    let mut buffer = BytesMut::new();
    let env_var = EnvironmentKind::UserDefined(Some("VarExample".into()));
    let op = EnvironmentOperation::Send(vec![env_var]);
    encode_env_op(op, &mut buffer);
    assert_eq!(buffer[0], ENV_SEND);
    assert_eq!(buffer[1], ENV_USERVAR);
    assert_eq!(buffer[2..12], *b"VarExample");
}

#[test]
fn test_encode_env_op_info() {
    let mut buffer = BytesMut::new();
    let env_var = EnvironmentKind::WellKnown(Some(WellKnownVariable::User));
    let op = EnvironmentOperation::Info(vec![(env_var, Some(vec![2, 3, 4]))]); // Using User as example with some example bytes for value
    encode_env_op(op, &mut buffer);
    assert_eq!(buffer[0], ENV_INFO);
    assert_eq!(buffer[1], ENV_VAR);
    assert_eq!(&buffer[2..6], b"USER");
    assert_eq!(buffer[6], ENV_VALUE);

    assert_eq!(buffer[7..12], [ENV_ESC, 2, ENV_ESC, 3, 4]);
}

#[test]
fn test_encode_env_op_unknown() {
    let mut buffer = BytesMut::new();
    let buf = b"unknown data".to_vec();
    let op = EnvironmentOperation::Unknown(5, buf);
    encode_env_op(op, &mut buffer);
    assert_eq!(buffer[0], 5);
    assert_eq!(&buffer[1..], b"unknown data");
}

#[test]
fn env_escape_law_concrete() {
    // Escaping then decoding as a name yields the original bytes and
    // consumes the whole escaped input, even for the escaped tags and IAC.
    let raw = vec![ENV_ESC, ENV_VAR, ENV_VALUE, ENV_USERVAR, IAC, b'x', 200u8];
    let escaped = encode_bytes(&raw);
    assert_eq!(
        escaped,
        vec![
            ENV_ESC, ENV_ESC, ENV_ESC, ENV_VAR, ENV_ESC, ENV_VALUE, ENV_ESC, ENV_USERVAR, IAC,
            IAC, b'x', 200u8
        ]
    );
    let decoded = decode_env_name(&escaped).unwrap();
    assert_eq!(decoded.0, raw);
    assert_eq!(decoded.1, escaped.len());
    let decoded_value = decode_env_value(&escaped).unwrap();
    assert_eq!(decoded_value.0, raw);
    assert_eq!(decoded_value.1, escaped.len());
}

#[test]
fn env_escape_law_empty_value() {
    // The empty sequence escapes to nothing and still decodes as a value;
    // as a name it is rejected, since a name must not be empty.
    let escaped = encode_bytes(&[]);
    assert!(escaped.is_empty());
    assert_eq!(decode_env_value(&escaped), Some((Vec::new(), 0)));
    assert_eq!(decode_env_name(&escaped), None);
}

#[test]
fn env_send_var_mapping() {
    // VAR names a well-known variable, USERVAR a user-defined one, and an
    // empty name is a wildcard.
    let kind = decode_env_send_var(ENV_VAR, b"USER").unwrap();
    assert!(matches!(
        kind,
        EnvironmentKind::WellKnown(Some(WellKnownVariable::User))
    ));
    let kind = decode_env_send_var(ENV_USERVAR, b"HOME").unwrap();
    assert_eq!(kind.name().unwrap(), "HOME");
    let kind = decode_env_send_var(ENV_VAR, b"").unwrap();
    assert!(matches!(kind, EnvironmentKind::WellKnown(None)));
    assert!(kind.is_wildcard());
    let kind = decode_env_send_var(ENV_USERVAR, b"").unwrap();
    assert!(matches!(kind, EnvironmentKind::UserDefined(None)));
    assert!(decode_env_send_var(7, b"x").is_none());
}

#[test]
fn env_send_list_decoding() {
    // A SEND payload is a run of tagged, possibly empty names.
    let decoded = decode_env_send(b"\x00USER\x03HOME\x00").unwrap();
    assert_eq!(decoded.len(), 3);
    assert!(matches!(
        decoded[0],
        EnvironmentKind::WellKnown(Some(WellKnownVariable::User))
    ));
    assert_eq!(decoded[1].name().unwrap(), "HOME");
    assert!(matches!(decoded[2], EnvironmentKind::WellKnown(None)));

    // A payload that does not start with a tag is malformed.
    assert!(decode_env_send(b"xUSER").is_none());
    // An empty payload is an empty request list.
    assert!(decode_env_send(&[]).unwrap().is_empty());
}

#[test]
fn env_send_wildcard_emits_tag() {
    // A wildcard Send request emits its tag byte alone, asking for every
    // variable of its kind.
    let mut buffer = BytesMut::new();
    let op = EnvironmentOperation::Send(vec![
        EnvironmentKind::WellKnown(None),
        EnvironmentKind::UserDefined(None),
    ]);
    encode_env_op(op, &mut buffer);
    assert_eq!(buffer.as_ref(), &[ENV_SEND, ENV_VAR, ENV_USERVAR]);
    // Decoding the emitted payload recovers both wildcards.
    let decoded = decode_env_send(&buffer.as_ref()[1..]).unwrap();
    assert_eq!(decoded.len(), 2);
    assert!(matches!(decoded[0], EnvironmentKind::WellKnown(None)));
    assert!(matches!(decoded[1], EnvironmentKind::UserDefined(None)));
}

#[test]
fn env_is_rejects_invalid_utf8_name() {
    // A name that is not UTF-8 rejects the whole frame; this fails if the
    // string conversion accepted arbitrary bytes.
    let decoded = decode_env_is(&[ENV_VAR, 0xC3, 0x28, ENV_VALUE, b'x']);
    assert!(decoded.is_none());
}

#[test]
fn env_kind_accessors() {
    let kind = EnvironmentKind::WellKnown(Some(WellKnownVariable::Display));
    assert_eq!(kind.as_u8(), ENV_VAR);
    assert!(!kind.is_wildcard());
    assert_eq!(kind.name().unwrap(), "DISPLAY");
    assert_eq!(kind.encoded_size(), 8);
    let kind = EnvironmentKind::UserDefined(Some("LANG".to_string()));
    assert_eq!(kind.as_u8(), ENV_USERVAR);
    assert_eq!(kind.encoded_size(), 5);
    let kind = EnvironmentKind::UserDefined(None);
    assert_eq!(kind.encoded_size(), 1);
    assert!(kind.name().is_none());
}

#[test]
fn well_known_variable_names() {
    assert_eq!(WellKnownVariable::User.as_str(), "USER");
    assert_eq!(WellKnownVariable::Job.as_str(), "JOB");
    assert_eq!(WellKnownVariable::Acct.as_str(), "ACCT");
    assert_eq!(WellKnownVariable::Printer.as_str(), "PRINTER");
    assert_eq!(WellKnownVariable::SystemType.as_str(), "SYSTEMTYPE");
    assert_eq!(WellKnownVariable::Display.as_str(), "DISPLAY");
    assert_eq!(WellKnownVariable::User.encoded_size(), 4);
    let other = WellKnownVariable::Unknown("SHELL".to_string());
    assert_eq!(other.as_str(), "SHELL");
    assert_eq!(other.encoded_size(), 5);
    assert!(matches!(
        WellKnownVariable::from_name("USER"),
        WellKnownVariable::User
    ));
    assert!(matches!(
        WellKnownVariable::from_name("SHELL"),
        WellKnownVariable::Unknown(_)
    ));
}
