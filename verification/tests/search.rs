use wire_thermometer::address::DeviceAddress;
use wire_thermometer::bus::SimulatedBus;
use wire_thermometer::error::Error;
use wire_thermometer::search::{SearchCursor, Step, COMMAND_SEARCH};
use wire_thermometer::temperature::Temperature;

const A1: [u8; 8] = [0x10, 0x01, 0x02, 0x03, 0x04, 0x05, 0x06, 0x7B];
const A2: [u8; 8] = [0x28, 0x01, 0x02, 0x03, 0x04, 0x05, 0x06, 0x9E];
const A3: [u8; 8] = [0x28, 0x01, 0x02, 0x03, 0x04, 0x05, 0x07, 0xC0];
const A4: [u8; 8] = [0x28, 0x81, 0x02, 0x03, 0x04, 0x05, 0x06, 0x74];
const A5: [u8; 8] = [0x28, 0xFF, 0x64, 0x1E, 0x0F, 0x2E, 0x2E, 0x15];

fn bus_of(addresses: &[[u8; 8]]) -> SimulatedBus {
    let mut bus = SimulatedBus::new();
    for bytes in addresses {
        bus.attach(DeviceAddress::from_bytes(*bytes));
    }
    bus
}

fn addresses(list: &[[u8; 8]]) -> Vec<DeviceAddress> {
    list.iter().map(|bytes| DeviceAddress::from_bytes(*bytes)).collect()
}

#[test]
fn single_device_is_found_at_once() {
    let mut bus = bus_of(&[A5]);
    let mut cursor = SearchCursor::new();
    let found = bus.search_next(&mut cursor);
    assert_eq!(found, Ok(Some(DeviceAddress::from_bytes(A5))));
    assert!(found.unwrap().unwrap().is_valid());
    assert!(cursor.is_exhausted());
    assert_eq!(cursor.last_discrepancy(), None);
    assert_eq!(bus.search_next(&mut cursor), Ok(None));
    assert_eq!(bus.search_next(&mut cursor), Ok(None));
}

#[test]
fn single_device_enumerates_to_itself() {
    for bytes in [A1, A2, A3, A4, A5] {
        let mut bus = bus_of(&[bytes]);
        assert_eq!(bus.enumerate(), addresses(&[bytes]));
    }
}

#[test]
fn overlapping_prefixes_are_each_visited_once() {
    let mut bus = bus_of(&[A5, A3, A1, A4, A2]);
    assert_eq!(bus.device_count(), 5);
    assert_eq!(bus.enumerate(), addresses(&[A1, A2, A3, A4, A5]));
}

#[test]
fn successive_calls_resume_from_the_marker() {
    let mut bus = bus_of(&[A2, A3, A4]);
    let mut cursor = SearchCursor::new();
    assert_eq!(bus.search_next(&mut cursor), Ok(Some(DeviceAddress::from_bytes(A2))));
    assert!(!cursor.is_exhausted());
    assert_eq!(cursor.last_discrepancy(), Some(48));
    assert_eq!(bus.search_next(&mut cursor), Ok(Some(DeviceAddress::from_bytes(A3))));
    assert!(!cursor.is_exhausted());
    assert_eq!(cursor.last_discrepancy(), Some(15));
    assert_eq!(bus.search_next(&mut cursor), Ok(Some(DeviceAddress::from_bytes(A4))));
    assert!(cursor.is_exhausted());
    assert_eq!(cursor.last_discrepancy(), None);
    assert_eq!(bus.search_next(&mut cursor), Ok(None));
}

#[test]
fn attaching_order_does_not_matter() {
    let mut one = bus_of(&[A1, A2, A3, A4, A5]);
    let mut two = bus_of(&[A4, A5, A2, A1, A3]);
    assert_eq!(one.enumerate(), two.enumerate());
}

#[test]
fn a_device_attached_twice_is_visited_once() {
    let mut bus = bus_of(&[A2, A5, A2]);
    assert_eq!(bus.enumerate(), addresses(&[A2, A5]));
}

#[test]
fn dense_small_tree_is_walked_depth_first() {
    let mut list = Vec::new();
    for low in 0..8u8 {
        list.push(DeviceAddress::from_bytes([low, 0, 0, 0, 0, 0, 0, 0]));
    }
    let mut bus = SimulatedBus::new();
    for address in list.iter().rev() {
        bus.attach(*address);
    }
    let mut cursor = SearchCursor::new();
    let mut visited = Vec::new();
    let mut failures = 0;
    while !cursor.is_exhausted() {
        match bus.search_next(&mut cursor) {
            Ok(Some(address)) => visited.push(address.bytes()[0]),
            Ok(None) => unreachable!(),
            Err(e) => {
                assert_eq!(e, Error::Checksum);
                failures += 1;
            }
        }
        assert!(visited.len() + failures <= 8);
    }
    assert_eq!(visited.len() + failures, 8);
    assert_eq!(visited, vec![0]);
}

#[test]
fn empty_bus_finds_nothing() {
    let mut bus = SimulatedBus::new();
    let mut cursor = SearchCursor::new();
    assert!(!bus.reset());
    assert_eq!(bus.search_next(&mut cursor), Err(Error::NoDevice));
    assert!(!cursor.is_exhausted());
    assert_eq!(bus.enumerate(), Vec::<DeviceAddress>::new());
}

#[test]
fn unsealed_address_is_a_checksum_error() {
    let mut bytes = A5;
    bytes[7] = 0x16;
    let mut bus = bus_of(&[bytes]);
    let mut cursor = SearchCursor::new();
    assert_eq!(bus.search_next(&mut cursor), Err(Error::Checksum));
    assert!(cursor.is_exhausted());
    assert_eq!(bus.enumerate(), Vec::<DeviceAddress>::new());
}

#[test]
fn unsealed_address_is_passed_over() {
    let mut broken = A3;
    broken[7] = 0x00;
    let mut bus = bus_of(&[A2, broken, A4]);
    assert_eq!(bus.enumerate(), addresses(&[A2, A4]));
}

#[test]
fn slot_answered_by_nobody_gives_the_pass_up() {
    let mut cursor = SearchCursor::new();
    assert_eq!(cursor.step(false, true), Ok(Step::Next(false)));
    assert_eq!(cursor.step(true, false), Ok(Step::Next(true)));
    assert_eq!(cursor.position(), 2);
    assert_eq!(cursor.step(true, true), Err(Error::NoDevice));
    assert_eq!(cursor.position(), 0);
    assert!(!cursor.is_exhausted());
}

#[test]
fn fork_turns_to_zero_first() {
    let mut cursor = SearchCursor::new();
    assert_eq!(cursor.step(false, false), Ok(Step::Next(false)));
    assert_eq!(cursor.step(true, false), Ok(Step::Next(true)));
    assert_eq!(cursor.step(false, true), Ok(Step::Next(false)));
}

#[test]
fn cursor_driven_by_hand_matches_the_bus_call() {
    let mut bus = bus_of(&[A2, A3, A4]);
    let mut cursor = SearchCursor::new();
    let mut visited = Vec::new();
    while !cursor.is_exhausted() {
        assert!(bus.reset());
        loop {
            let (id_bit, inverse) = bus.read_slot();
            match cursor.step(id_bit, inverse) {
                Ok(Step::Next(direction)) => bus.write_bit(direction),
                Ok(Step::Found(direction, address)) => {
                    bus.write_bit(direction);
                    visited.push(address);
                    break;
                }
                Err(e) => panic!("{:?}", e),
            }
        }
    }
    assert_eq!(visited, addresses(&[A2, A3, A4]));
    assert_eq!(bus.read_slot(), (true, true));
}

#[test]
fn abandoned_pass_starts_over() {
    let mut bus = bus_of(&[A5]);
    let mut cursor = SearchCursor::new();
    bus.reset();
    for _ in 0..10 {
        let (id_bit, inverse) = bus.read_slot();
        match cursor.step(id_bit, inverse) {
            Ok(Step::Next(direction)) => bus.write_bit(direction),
            _ => unreachable!(),
        }
    }
    assert_eq!(cursor.position(), 10);
    cursor.abandon();
    assert_eq!(cursor.position(), 0);
    assert_eq!(bus.search_next(&mut cursor), Ok(Some(DeviceAddress::from_bytes(A5))));
}

#[test]
fn absent_device_at_boot_means_no_bus_read() {
    let mut bus = SimulatedBus::new();
    let mut cursor = SearchCursor::new();
    let discovered = bus.search_next(&mut cursor).ok().flatten();
    let mut driver = Temperature::new(discovered);
    assert!(!driver.has_device());
    assert_eq!(driver.begin_conversion().bytes_to_write(), Vec::<u8>::new());
    assert_eq!(driver.begin_read().reply_len(), 0);
}

#[test]
fn first_discovered_thermometer_is_driven() {
    let mut bus = bus_of(&[A5, A4]);
    let mut cursor = SearchCursor::new();
    let discovered = bus.search_next(&mut cursor).ok().flatten();
    assert_eq!(discovered, Some(DeviceAddress::from_bytes(A4)));
    assert!(Temperature::new(discovered).has_device());
}

#[test]
fn first_discovered_device_of_another_family_is_ignored() {
    let mut bus = bus_of(&[A5, A1]);
    let mut cursor = SearchCursor::new();
    let discovered = bus.search_next(&mut cursor).ok().flatten();
    assert_eq!(discovered, Some(DeviceAddress::from_bytes(A1)));
    assert!(!Temperature::new(discovered).has_device());
}

#[test]
fn pass_opens_with_the_search_command() {
    assert_eq!(COMMAND_SEARCH, 0xF0);
}
