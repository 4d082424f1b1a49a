//! Tests for the LINEMODE types: SLC functions and modifier bytes.

use nectar::constants::{
    SLC_ACK, SLC_FLUSHIN, SLC_FLUSHOUT, SLC_SYNCH,
};
use nectar::linemode::{Level, Modifiers, SlcFunction};

#[test]
fn test_parse_slc_function() {
    let input = SLC_SYNCH; // Use a constant that represents a known SLC function
    let expected = SlcFunction::Synch;
    let result = SlcFunction::from_byte(input);
    assert_eq!(
        result, expected,
        "Failed to parse SLC_SYNCH into SlcFunction::Synch"
    );
}

#[test]
fn test_modifiers_from_byte() {
    let input = SLC_ACK | SLC_FLUSHIN; // Example combining two modifier flags
    let result = Modifiers::from_byte(input);
    assert!(
        result.ack && result.flush_in,
        "Modifiers did not correctly interpret ACK and FLUSHIN flags"
    );
}

#[test]
fn modifiers_byte_round_trip() {
    // Writing modifiers as a byte and reading the byte back yields the
    // same modifiers.
    let m = Modifiers {
        level: Level::Value,
        ack: true,
        flush_in: false,
        flush_out: true,
    };
    let byte = m.byte();
    assert_eq!(byte, 2 | SLC_ACK | SLC_FLUSHOUT);
    assert_eq!(Modifiers::from_byte(byte), m);
}

#[test]
fn level_from_low_bits() {
    assert_eq!(Level::from_byte(0), Level::NoSupport);
    assert_eq!(Level::from_byte(1), Level::CantChange);
    assert_eq!(Level::from_byte(2), Level::Value);
    assert_eq!(Level::from_byte(3), Level::Default);
    // Only the low two bits matter.
    assert_eq!(Level::from_byte(0b1110_0111), Level::Default);
    assert_eq!(Level::Value.byte(), 2);
}

#[test]
fn slc_function_byte_round_trip() {
    for byte in 0u8..=255 {
        assert_eq!(SlcFunction::from_byte(byte).byte(), byte);
    }
    assert_eq!(SlcFunction::Unknown(200).byte(), 200);
}
