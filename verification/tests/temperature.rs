use wire_thermometer::address::DeviceAddress;
use wire_thermometer::error::Error;
use wire_thermometer::temperature::{
    decode, read_scratchpad, BusAction, Phase, Resolution, Select, Temperature,
    COMMAND_CONVERT, COMMAND_READ_SCRATCHPAD, COMMAND_SELECT, COMMAND_SKIP_SELECT,
    THERMOMETER_FAMILY,
};

const THERMOMETER: [u8; 8] = [0x28, 0xFF, 0x64, 0x1E, 0x0F, 0x2E, 0x2E, 0x15];
const OTHER_FAMILY: [u8; 8] = [0x10, 0x01, 0x02, 0x03, 0x04, 0x05, 0x06, 0x7B];
const SCRATCHPAD_25: [u8; 9] = [0x91, 0x01, 0x4B, 0x46, 0x7F, 0xFF, 0x0F, 0x10, 0x25];
const SCRATCHPAD_85: [u8; 9] = [0x50, 0x05, 0x4B, 0x46, 0x7F, 0xFF, 0x0C, 0x10, 0x1C];

fn thermometer() -> Temperature {
    Temperature::new(Some(DeviceAddress::from_bytes(THERMOMETER)))
}

#[test]
fn decode_truncates_at_every_step() {
    assert_eq!(decode(401), (25, 0));
    assert_eq!(decode(0x0191), (25, 0));
}

#[test]
fn decode_known_readings() {
    assert_eq!(decode(0x0000), (0, 0));
    assert_eq!(decode(0x0008), (0, 5));
    assert_eq!(decode(0x00A2), (10, 1));
    assert_eq!(decode(0x0550), (85, 0));
    assert_eq!(decode(0x07D0), (125, 0));
    assert_eq!(decode(0x019F), (25, 9));
    assert_eq!(decode(0x0192), (25, 1));
}

#[test]
fn decode_takes_the_bit_pattern_as_it_is() {
    assert_eq!(decode(0xFFF8), (4095, 5));
    assert_eq!(decode(0xFFFF), (4095, 9));
    assert_eq!(decode(0x8000), (2048, 0));
}

#[test]
fn decode_matches_the_formula_everywhere() {
    for raw in 0..=u16::MAX {
        assert_eq!(decode(raw), (raw / 16, (raw % 16) * 10 / 16));
    }
}

#[test]
fn sealed_scratchpad_is_decoded() {
    assert_eq!(read_scratchpad(&SCRATCHPAD_25), Ok((25, 0)));
    assert_eq!(read_scratchpad(&SCRATCHPAD_85), Ok((85, 0)));
}

#[test]
fn broken_scratchpad_is_a_read_error() {
    let mut scratchpad = SCRATCHPAD_25;
    scratchpad[8] ^= 0x01;
    assert_eq!(read_scratchpad(&scratchpad), Err(Error::Read));
}

#[test]
fn thermometer_is_kept() {
    let driver = thermometer();
    assert!(driver.has_device());
    assert_eq!(driver.device(), Some(DeviceAddress::from_bytes(THERMOMETER)));
    assert_eq!(driver.phase(), Phase::Idle);
    assert_eq!(THERMOMETER_FAMILY, 0x28);
}

#[test]
fn nothing_found_means_no_device() {
    let driver = Temperature::new(None);
    assert!(!driver.has_device());
    assert_eq!(driver.device(), None);
}

#[test]
fn other_family_is_not_kept() {
    let driver = Temperature::new(Some(DeviceAddress::from_bytes(OTHER_FAMILY)));
    assert!(!driver.has_device());
}

#[test]
fn unsealed_address_is_not_kept() {
    let mut bytes = THERMOMETER;
    bytes[7] = 0x16;
    let driver = Temperature::new(Some(DeviceAddress::from_bytes(bytes)));
    assert!(!driver.has_device());
}

#[test]
fn get_decodes_a_full_cycle() {
    let mut driver = thermometer();
    assert_eq!(driver.get(&SCRATCHPAD_25), Ok((25, 0)));
    assert_eq!(driver.phase(), Phase::Idle);
    assert_eq!(driver.get(&SCRATCHPAD_85), Ok((85, 0)));
}

#[test]
fn get_without_device_is_the_zero_pair() {
    let mut driver = Temperature::new(None);
    assert_eq!(driver.get(&SCRATCHPAD_25), Ok((0, 0)));
    assert_eq!(driver.get(&[0xFF; 9]), Ok((0, 0)));
}

#[test]
fn get_reports_no_value_for_any_one_changed_byte() {
    for k in 0..9 {
        for v in 0..=255u8 {
            if v != SCRATCHPAD_25[k] {
                let mut scratchpad = SCRATCHPAD_25;
                scratchpad[k] = v;
                let mut driver = thermometer();
                assert_eq!(driver.get(&scratchpad), Err(Error::Read));
                assert_eq!(driver.phase(), Phase::Idle);
            }
        }
    }
}

#[test]
fn cycle_runs_in_order() {
    let address = DeviceAddress::from_bytes(THERMOMETER);
    let mut driver = thermometer();
    assert_eq!(
        driver.begin_conversion(),
        BusAction::Convert { select: Select::Device(address), wait_ms: 750 }
    );
    assert_eq!(driver.phase(), Phase::Converting);
    assert_eq!(driver.begin_read(), BusAction::ReadScratchpad { select: Select::Device(address) });
    assert_eq!(driver.phase(), Phase::Reading);
    assert_eq!(driver.finish(&SCRATCHPAD_25), Ok((25, 0)));
    assert_eq!(driver.phase(), Phase::Idle);
}

#[test]
fn steps_out_of_order_leave_the_bus_alone() {
    let mut driver = thermometer();
    assert_eq!(driver.begin_read(), BusAction::Stay);
    assert_eq!(driver.phase(), Phase::Idle);
    assert!(driver.begin_conversion() != BusAction::Stay);
    assert_eq!(driver.begin_conversion(), BusAction::Stay);
    assert_eq!(driver.phase(), Phase::Converting);
}

#[test]
fn failed_read_ends_the_cycle_without_retry() {
    let mut driver = thermometer();
    driver.begin_conversion();
    driver.begin_read();
    let mut scratchpad = SCRATCHPAD_25;
    scratchpad[0] = 0x92;
    assert_eq!(driver.finish(&scratchpad), Err(Error::Read));
    assert_eq!(driver.phase(), Phase::Idle);
    assert_eq!(driver.begin_read(), BusAction::Stay);
}

#[test]
fn abort_returns_to_idle() {
    let mut driver = thermometer();
    driver.begin_conversion();
    driver.abort();
    assert_eq!(driver.phase(), Phase::Idle);
    assert!(driver.has_device());
}

#[test]
fn absent_device_never_asks_for_the_bus() {
    let mut driver = Temperature::new(None);
    for _ in 0..10 {
        assert_eq!(driver.begin_conversion(), BusAction::Stay);
        assert_eq!(driver.begin_read(), BusAction::Stay);
        assert_eq!(driver.get(&SCRATCHPAD_25), Ok((0, 0)));
        driver.abort();
        assert!(!driver.has_device());
        assert_eq!(driver.phase(), Phase::Idle);
    }
}

#[test]
fn single_device_skips_the_addressing() {
    let mut driver = thermometer().alone_on_bus(true);
    let action = driver.begin_conversion();
    assert_eq!(action, BusAction::Convert { select: Select::Skip, wait_ms: 750 });
    assert_eq!(action.bytes_to_write(), vec![COMMAND_SKIP_SELECT, COMMAND_CONVERT]);
    assert_eq!(action.bytes_to_write(), vec![0xCC, 0x44]);
}

#[test]
fn action_bytes_address_then_command() {
    let mut driver = thermometer();
    let convert = driver.begin_conversion();
    assert_eq!(
        convert.bytes_to_write(),
        vec![0x55, 0x28, 0xFF, 0x64, 0x1E, 0x0F, 0x2E, 0x2E, 0x15, 0x44]
    );
    assert_eq!(convert.reply_len(), 0);
    let read = driver.begin_read();
    assert_eq!(
        read.bytes_to_write(),
        vec![COMMAND_SELECT, 0x28, 0xFF, 0x64, 0x1E, 0x0F, 0x2E, 0x2E, 0x15, COMMAND_READ_SCRATCHPAD]
    );
    assert_eq!(read.reply_len(), 9);
    assert_eq!(BusAction::Stay.bytes_to_write(), Vec::<u8>::new());
    assert_eq!(BusAction::Stay.reply_len(), 0);
}

#[test]
fn conversion_time_follows_the_resolution() {
    assert_eq!(Resolution::Bits9.conversion_time_ms(), 94);
    assert_eq!(Resolution::Bits10.conversion_time_ms(), 188);
    assert_eq!(Resolution::Bits11.conversion_time_ms(), 375);
    assert_eq!(Resolution::Bits12.conversion_time_ms(), 750);
}

#[test]
fn resolution_sets_the_wait() {
    let mut driver = thermometer().with_resolution(Resolution::Bits9);
    let address = DeviceAddress::from_bytes(THERMOMETER);
    assert_eq!(
        driver.begin_conversion(),
        BusAction::Convert { select: Select::Device(address), wait_ms: 94 }
    );
}
