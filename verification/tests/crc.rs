use wire_thermometer::address::DeviceAddress;
use wire_thermometer::crc::{check_seal, checksum};
use wire_thermometer::wire::{bits_to_byte, byte_to_bits, get_bit, reset_outcome, with_bit, RESET_LOW_US};
use wire_thermometer::error::Error;

#[test]
fn checksum_of_check_string() {
    assert_eq!(checksum(b"123456789"), 0xA1);
}

#[test]
fn checksum_of_nothing_is_zero() {
    assert_eq!(checksum(&[]), 0);
}

#[test]
fn checksum_of_single_bytes() {
    assert_eq!(checksum(&[0x00]), 0x00);
    assert_eq!(checksum(&[0x01]), 0x5E);
    assert_eq!(checksum(&[0x80]), 0x8C);
}

#[test]
fn checksum_of_address_body() {
    assert_eq!(checksum(&[0x28, 0xFF, 0x64, 0x1E, 0x0F, 0x2E, 0x2E]), 0x15);
    assert_eq!(checksum(&[0x28, 0x01, 0x02, 0x03, 0x04, 0x05, 0x06]), 0x9E);
}

#[test]
fn sealed_frame_is_accepted() {
    assert!(check_seal(&[0x28, 0xFF, 0x64, 0x1E, 0x0F, 0x2E, 0x2E, 0x15]));
    assert!(check_seal(&[0x91, 0x01, 0x4B, 0x46, 0x7F, 0xFF, 0x0F, 0x10, 0x25]));
    assert!(check_seal(&[0x00]));
}

#[test]
fn empty_frame_is_not_sealed() {
    assert!(!check_seal(&[]));
}

#[test]
fn any_one_changed_byte_breaks_the_seal() {
    let frame = [0x91u8, 0x01, 0x4B, 0x46, 0x7F, 0xFF, 0x0F, 0x10, 0x25];
    for k in 0..frame.len() {
        for v in 0..=255u8 {
            if v != frame[k] {
                let mut changed = frame;
                changed[k] = v;
                assert!(!check_seal(&changed));
            }
        }
    }
}

#[test]
fn byte_splits_least_significant_bit_first() {
    assert_eq!(byte_to_bits(0x01), [true, false, false, false, false, false, false, false]);
    assert_eq!(byte_to_bits(0x80), [false, false, false, false, false, false, false, true]);
    assert_eq!(byte_to_bits(0xF0), [false, false, false, false, true, true, true, true]);
    assert_eq!(byte_to_bits(0x55), [true, false, true, false, true, false, true, false]);
}

#[test]
fn bits_assemble_least_significant_bit_first() {
    assert_eq!(bits_to_byte(&[true, false, false, false, false, false, false, false]), 0x01);
    assert_eq!(bits_to_byte(&[false, false, true, true, false, false, true, false]), 0x4C);
}

#[test]
fn framing_round_trips_every_byte() {
    for byte in 0..=255u8 {
        assert_eq!(bits_to_byte(&byte_to_bits(byte)), byte);
    }
}

#[test]
fn single_bits_read_and_write() {
    assert!(get_bit(0x28, 3));
    assert!(get_bit(0x28, 5));
    assert!(!get_bit(0x28, 0));
    assert_eq!(with_bit(0x00, 7, true), 0x80);
    assert_eq!(with_bit(0xFF, 0, false), 0xFE);
    assert_eq!(with_bit(0x28, 3, true), 0x28);
    assert_eq!(with_bit(0x28, 3, false), 0x20);
}

#[test]
fn reset_reports_presence() {
    assert_eq!(reset_outcome(true, &[true, true, false, true, true, true, true]), Ok(true));
    assert_eq!(reset_outcome(true, &[false]), Ok(true));
}

#[test]
fn reset_reports_absence() {
    assert_eq!(reset_outcome(true, &[true, true, true, true, true, true, true]), Ok(false));
    assert_eq!(reset_outcome(true, &[]), Ok(false));
}

#[test]
fn stuck_line_is_a_bus_error() {
    assert_eq!(reset_outcome(false, &[false, false, false]), Err(Error::Bus));
    assert_eq!(reset_outcome(false, &[]), Err(Error::Bus));
}

#[test]
fn reset_holds_the_line_long_enough() {
    assert!(RESET_LOW_US >= 480);
}

#[test]
fn address_parts() {
    let address = DeviceAddress::from_bytes([0x28, 0xFF, 0x64, 0x1E, 0x0F, 0x2E, 0x2E, 0x15]);
    assert_eq!(address.family_code(), 0x28);
    assert_eq!(address.checksum_byte(), 0x15);
    assert_eq!(address.bytes(), [0x28, 0xFF, 0x64, 0x1E, 0x0F, 0x2E, 0x2E, 0x15]);
    assert!(address.is_valid());
}

#[test]
fn address_with_wrong_checksum_is_not_valid() {
    let address = DeviceAddress::from_bytes([0x28, 0xFF, 0x64, 0x1E, 0x0F, 0x2E, 0x2E, 0x16]);
    assert!(!address.is_valid());
}

#[test]
fn address_slots_run_byte_by_byte() {
    let address = DeviceAddress::from_bytes([0x28, 0x01, 0, 0, 0, 0, 0, 0x80]);
    let expected_ones = [3u8, 5, 8, 63];
    for i in 0..64u8 {
        assert_eq!(address.bit(i), expected_ones.contains(&i));
    }
}

#[test]
fn address_survives_the_slots() {
    let address = DeviceAddress::from_bytes([0x28, 0xFF, 0x64, 0x1E, 0x0F, 0x2E, 0x2E, 0x15]);
    let slots = address.to_bits();
    assert_eq!(DeviceAddress::from_bits(&slots), address);
    let mut other = [false; 64];
    other[0] = true;
    other[9] = true;
    assert_eq!(DeviceAddress::from_bits(&other).bytes(), [0x01, 0x02, 0, 0, 0, 0, 0, 0]);
}
