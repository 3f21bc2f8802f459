//! The thermometer driver: one read cycle, cut into the steps between which
//! the caller touches the bus.
//!
//! A cycle runs Idle -> Converting -> Reading -> Idle. The driver says what
//! to put on the bus at each step ([`BusAction`]) and turns the nine bytes
//! that come back into a reading. It never touches a pin and never waits:
//! the caller does both.

use vstd::prelude::*;
use crate::address::DeviceAddress;
use crate::crc::{check_seal, is_sealed, law_one_changed_byte_breaks_seal};
use crate::error::Error;
use onewire::ds18b20::MeasureResolution;

verus! {

/// The family code of the thermometers this driver talks to.
pub const THERMOMETER_FAMILY: u8 = 0x28;

/// Addresses every device at once; only sound with a single device.
pub const COMMAND_SKIP_SELECT: u8 = 0xCC;

/// Addresses the one device whose eight address bytes follow.
pub const COMMAND_SELECT: u8 = 0x55;

/// Starts a temperature conversion.
pub const COMMAND_CONVERT: u8 = 0x44;

/// Asks for the nine scratchpad bytes.
pub const COMMAND_READ_SCRATCHPAD: u8 = 0xBE;

/// The number of bytes in a scratchpad, checksum byte included.
pub const SCRATCHPAD_BYTES: usize = 9;

/// How many bits the sensor resolves, which fixes how long it converts.
#[derive(Clone, Copy, Debug, PartialEq, Eq, Structural)]
pub enum Resolution {
    /// 9 bits.
    Bits9,
    /// 10 bits.
    Bits10,
    /// 11 bits.
    Bits11,
    /// 12 bits, the sensor's power-on setting.
    Bits12,
}

impl Resolution {
    /// The rated conversion latency in milliseconds.
    pub open spec fn latency_ms(self) -> u16 {
        match self {
            Resolution::Bits9 => 94,
            Resolution::Bits10 => 188,
            Resolution::Bits11 => 375,
            Resolution::Bits12 => 750,
        }
    }

    /// The rated conversion latency in milliseconds. The sensor gives no
    /// completion signal: the caller blocks for this long.
    pub fn conversion_time_ms(self) -> (ms: u16)
        ensures
            ms == self.latency_ms(),
    {
        rated_time_ms(self)
    }
}

/// `onewire::ds18b20::MeasureResolution::time_ms`, taken on trust.
///
/// The claim: for the resolution of 9, 10, 11 and 12 bits the method returns
/// 94, 188, 375 and 750.
#[verifier::external_body]
fn rated_time_ms(resolution: Resolution) -> (ms: u16)
    ensures
        ms == resolution.latency_ms(),
{
    let rated = match resolution {
        Resolution::Bits9 => MeasureResolution::TC8,
        Resolution::Bits10 => MeasureResolution::TC4,
        Resolution::Bits11 => MeasureResolution::TC2,
        Resolution::Bits12 => MeasureResolution::TC,
    };
    rated.time_ms()
}

/// Where a read cycle stands.
#[derive(Clone, Copy, Debug, PartialEq, Eq, Structural)]
pub enum Phase {
    /// No cycle is running.
    Idle,
    /// A conversion was started; the sensor is busy.
    Converting,
    /// The scratchpad was asked for; nine bytes are due.
    Reading,
}

/// How the device is addressed at the start of a bus transaction.
#[derive(Clone, Copy, Debug, PartialEq, Eq)]
pub enum Select {
    /// Skip addressing: every device listens.
    Skip,
    /// Address the device with this address.
    Device(DeviceAddress),
}

/// What the caller is to do on the bus.
#[derive(Clone, Copy, Debug, PartialEq, Eq)]
pub enum BusAction {
    /// Nothing: leave the bus alone.
    Stay,
    /// Reset, address, send the convert command, then block for `wait_ms`.
    Convert { select: Select, wait_ms: u16 },
    /// Reset, address, send the read command, then read nine bytes.
    ReadScratchpad { select: Select },
}

/// The bytes that address a device.
pub open spec fn select_bytes(select: Select) -> Seq<u8> {
    match select {
        Select::Skip => seq![COMMAND_SKIP_SELECT],
        Select::Device(address) => seq![COMMAND_SELECT] + address@,
    }
}

/// The bytes to write after the reset for `action`, in order.
pub open spec fn action_bytes(action: BusAction) -> Seq<u8> {
    match action {
        BusAction::Stay => Seq::empty(),
        BusAction::Convert { select, wait_ms } => select_bytes(select).push(COMMAND_CONVERT),
        BusAction::ReadScratchpad { select } => select_bytes(select).push(COMMAND_READ_SCRATCHPAD),
    }
}

/// The number of bytes to read back after writing for `action`.
pub open spec fn action_reply_len(action: BusAction) -> nat {
    match action {
        BusAction::ReadScratchpad { select } => 9,
        _ => 0,
    }
}

impl BusAction {
    /// The bytes to write after the reset, in order: the addressing, then
    /// the command. Empty when there is nothing to do.
    pub fn bytes_to_write(&self) -> (bytes: Vec<u8>)
        ensures
            bytes@ == action_bytes(*self),
    {
        let mut bytes: Vec<u8> = Vec::new();
        match self {
            BusAction::Stay => {},
            BusAction::Convert { select, wait_ms } => {
                push_select(&mut bytes, select);
                bytes.push(COMMAND_CONVERT);
            },
            BusAction::ReadScratchpad { select } => {
                push_select(&mut bytes, select);
                bytes.push(COMMAND_READ_SCRATCHPAD);
            },
        }
        bytes
    }

    /// The number of bytes to read back once the bytes are written.
    pub fn reply_len(&self) -> (len: usize)
        ensures
            len == action_reply_len(*self),
    {
        match self {
            BusAction::ReadScratchpad { select } => SCRATCHPAD_BYTES,
            _ => 0,
        }
    }
}

fn push_select(bytes: &mut Vec<u8>, select: &Select)
    requires
        old(bytes)@.len() == 0,
    ensures
        final(bytes)@ == select_bytes(*select),
{
    match select {
        Select::Skip => {
            bytes.push(COMMAND_SKIP_SELECT);
        },
        Select::Device(address) => {
            bytes.push(COMMAND_SELECT);
            let raw = address.bytes();
            let mut i: usize = 0;
            while i < 8
                invariant
                    i <= 8,
                    raw@ == address@,
                    bytes@ == seq![COMMAND_SELECT] + raw@.take(i as int),
                decreases 8 - i,
            {
                bytes.push(raw[i]);
                i = i + 1;
            }
            assert(raw@.take(8) == raw@);
        },
    }
}

/// The raw 16-bit value of a scratchpad: its first two bytes, low byte first.
pub open spec fn raw_of(scratchpad: Seq<u8>) -> u16 {
    (scratchpad[0] + 256 * scratchpad[1]) as u16
}

/// The display value of a raw reading in sixteenths of a degree: the whole
/// degrees, and one decimal digit of the remainder. Both divisions truncate.
pub open spec fn decoded(raw: u16) -> (u16, u16) {
    ((raw / 16) as u16, ((raw % 16) * 10 / 16) as u16)
}

/// What a scratchpad read amounts to: the decoded value if the scratchpad is
/// sealed, a read failure if it is not.
pub open spec fn reading_of(scratchpad: Seq<u8>) -> Result<(u16, u16), Error> {
    if is_sealed(scratchpad) {
        Ok(decoded(raw_of(scratchpad)))
    } else {
        Err(Error::Read)
    }
}

/// Splits a raw reading into whole degrees and one decimal digit.
///
/// The raw value counts sixteenths of a degree. Nothing is rounded: 401
/// sixteenths are 25 degrees and a remainder of one sixteenth, whose first
/// decimal digit is 0. The bit pattern is taken as it is, so a reading below
/// zero, which the sensor sends in two's complement, comes out as the large
/// value its bits spell.
pub fn decode(raw: u16) -> (reading: (u16, u16))
    ensures
        reading == decoded(raw),
        reading.0 <= 4095,
        reading.1 <= 9,
{
    let remainder = (raw % 16) * 10;
    (raw / 16, remainder / 16)
}

/// Checks the seal of a scratchpad and decodes it.
pub fn read_scratchpad(scratchpad: &[u8; 9]) -> (reading: Result<(u16, u16), Error>)
    ensures
        reading == reading_of(scratchpad@),
{
    if check_seal(scratchpad.as_slice()) {
        let raw: u16 = scratchpad[0] as u16 + 256 * (scratchpad[1] as u16);
        Ok(decode(raw))
    } else {
        Err(Error::Read)
    }
}

/// The mathematical content of a [`Temperature`].
pub struct DriverModel {
    /// The thermometer found at start, if any.
    pub device: Option<DeviceAddress>,
    /// Where the current cycle stands.
    pub phase: Phase,
    /// Whether the thermometer is known to be the only device on the bus.
    pub alone: bool,
    /// The resolution the sensor converts at.
    pub resolution: Resolution,
}

impl DriverModel {
    /// The driver at start: it keeps `discovered` if that is a thermometer
    /// with a sealed address, and nothing otherwise.
    pub open spec fn boot(discovered: Option<DeviceAddress>) -> DriverModel {
        DriverModel {
            device: match discovered {
                Some(address) => if address@[0] == THERMOMETER_FAMILY && address.valid() {
                    Some(address)
                } else {
                    None
                },
                None => None,
            },
            phase: Phase::Idle,
            alone: false,
            resolution: Resolution::Bits12,
        }
    }

    /// How the driver addresses its device.
    pub open spec fn select(self) -> Select {
        if self.alone {
            Select::Skip
        } else {
            Select::Device(self.device->0)
        }
    }

    /// Idle -> Converting, if there is a device and no cycle is running.
    pub open spec fn begun(self) -> (DriverModel, BusAction) {
        if self.device is Some && self.phase == Phase::Idle {
            (
                DriverModel { phase: Phase::Converting, ..self },
                BusAction::Convert { select: self.select(), wait_ms: self.resolution.latency_ms() },
            )
        } else {
            (self, BusAction::Stay)
        }
    }

    /// Converting -> Reading.
    pub open spec fn asked(self) -> (DriverModel, BusAction) {
        if self.device is Some && self.phase == Phase::Converting {
            (
                DriverModel { phase: Phase::Reading, ..self },
                BusAction::ReadScratchpad { select: self.select() },
            )
        } else {
            (self, BusAction::Stay)
        }
    }

    /// Back to Idle, whatever the phase.
    pub open spec fn idle(self) -> DriverModel {
        DriverModel { phase: Phase::Idle, ..self }
    }

    /// What a full cycle reports when `scratchpad` is what came back: the
    /// pair of zeros if there is no device, else what the scratchpad
    /// amounts to.
    pub open spec fn cycle(self, scratchpad: Seq<u8>) -> Result<(u16, u16), Error> {
        if self.device is None {
            Ok((0u16, 0u16))
        } else {
            reading_of(scratchpad)
        }
    }
}

/// The temperature subsystem: the thermometer found at start, and the state
/// of the cycle that reads it.
#[derive(Clone, Copy, Debug)]
pub struct Temperature {
    device: Option<DeviceAddress>,
    phase: Phase,
    alone: bool,
    resolution: Resolution,
}

impl View for Temperature {
    type V = DriverModel;

    closed spec fn view(&self) -> DriverModel {
        DriverModel {
            device: self.device,
            phase: self.phase,
            alone: self.alone,
            resolution: self.resolution,
        }
    }
}

impl Temperature {
    /// The driver for what the enumeration found first.
    ///
    /// The device is kept only if its family code is that of the thermometer
    /// and its address is sealed. Absence is final: the driver never looks
    /// for a device again.
    pub fn new(discovered: Option<DeviceAddress>) -> (driver: Self)
        ensures
            driver@ == DriverModel::boot(discovered),
    {
        let device = match discovered {
            Some(address) => {
                if address.family_code() == THERMOMETER_FAMILY && address.is_valid() {
                    Some(address)
                } else {
                    None
                }
            },
            None => None,
        };
        Temperature { device, phase: Phase::Idle, alone: false, resolution: Resolution::Bits12 }
    }

    /// The same driver, told whether its device is the only one on the bus.
    /// If it is, transactions skip the addressing.
    pub fn alone_on_bus(self, alone: bool) -> (driver: Self)
        ensures
            driver@ == (DriverModel { alone, ..self@ }),
    {
        Temperature { alone, ..self }
    }

    /// The same driver for a sensor set to `resolution`.
    pub fn with_resolution(self, resolution: Resolution) -> (driver: Self)
        ensures
            driver@ == (DriverModel { resolution, ..self@ }),
    {
        Temperature { resolution, ..self }
    }

    /// Whether a thermometer was found at start.
    pub fn has_device(&self) -> (present: bool)
        ensures
            present == (self@.device is Some),
    {
        !self.device.is_none()
    }

    /// The thermometer found at start.
    pub fn device(&self) -> (device: Option<DeviceAddress>)
        ensures
            device == self@.device,
    {
        self.device
    }

    /// Where the current cycle stands.
    pub fn phase(&self) -> (phase: Phase)
        ensures
            phase == self@.phase,
    {
        self.phase
    }

    fn select(&self) -> (select: Select)
        requires
            self@.device is Some,
        ensures
            select == self@.select(),
    {
        if self.alone {
            Select::Skip
        } else {
            match self.device {
                Some(address) => Select::Device(address),
                None => Select::Skip,
            }
        }
    }

    /// Starts a cycle: Idle -> Converting.
    ///
    /// Returns the conversion to start and how long to block for it. Without
    /// a device, or with a cycle already running, nothing changes and the
    /// bus is left alone.
    pub fn begin_conversion(&mut self) -> (action: BusAction)
        ensures
            (*final(self))@ == old(self)@.begun().0,
            action == old(self)@.begun().1,
    {
        if self.device.is_some() && self.phase == Phase::Idle {
            let action = BusAction::Convert {
                select: self.select(),
                wait_ms: self.resolution.conversion_time_ms(),
            };
            self.phase = Phase::Converting;
            action
        } else {
            BusAction::Stay
        }
    }

    /// Moves on once the conversion time has passed: Converting -> Reading.
    ///
    /// Returns the read to perform. In any other phase nothing changes and
    /// the bus is left alone.
    pub fn begin_read(&mut self) -> (action: BusAction)
        ensures
            (*final(self))@ == old(self)@.asked().0,
            action == old(self)@.asked().1,
    {
        if self.device.is_some() && self.phase == Phase::Converting {
            let action = BusAction::ReadScratchpad { select: self.select() };
            self.phase = Phase::Reading;
            action
        } else {
            BusAction::Stay
        }
    }

    /// Ends the cycle with the nine bytes that were read: back to Idle.
    ///
    /// A scratchpad whose seal is broken is a read failure; its content is
    /// discarded and nothing is retried within the cycle.
    pub fn finish(&mut self, scratchpad: &[u8; 9]) -> (reading: Result<(u16, u16), Error>)
        ensures
            (*final(self))@ == old(self)@.idle(),
            reading == reading_of(scratchpad@),
    {
        self.phase = Phase::Idle;
        read_scratchpad(scratchpad)
    }

    /// Gives the cycle up after a bus failure: back to Idle.
    pub fn abort(&mut self)
        ensures
            (*final(self))@ == old(self)@.idle(),
    {
        self.phase = Phase::Idle;
    }

    /// The outcome of one full cycle in which `scratchpad` came back.
    ///
    /// Without a device the result is the pair of zeros, whatever the bytes:
    /// ask [`Temperature::has_device`] to tell that from a reading of zero.
    /// With a device it is the decoded scratchpad, or a read failure if the
    /// seal is broken. The driver ends Idle.
    pub fn get(&mut self, scratchpad: &[u8; 9]) -> (reading: Result<(u16, u16), Error>)
        ensures
            (*final(self))@ == old(self)@.idle(),
            reading == old(self)@.cycle(scratchpad@),
    {
        self.phase = Phase::Idle;
        if self.device.is_none() {
            Ok((0, 0))
        } else {
            read_scratchpad(scratchpad)
        }
    }
}

/// One call on the driver, as far as the bus is concerned.
pub enum DriverCall {
    /// [`Temperature::begin_conversion`].
    BeginConversion,
    /// [`Temperature::begin_read`].
    BeginRead,
    /// [`Temperature::finish`], [`Temperature::get`] or
    /// [`Temperature::abort`]: each only returns the driver to Idle.
    End,
}

impl DriverModel {
    /// The driver after `call`, and what the call asks of the bus.
    pub open spec fn after(self, call: DriverCall) -> (DriverModel, BusAction) {
        match call {
            DriverCall::BeginConversion => self.begun(),
            DriverCall::BeginRead => self.asked(),
            DriverCall::End => (self.idle(), BusAction::Stay),
        }
    }

    /// The driver after all of `calls`, in order.
    pub open spec fn after_all(self, calls: Seq<DriverCall>) -> DriverModel
        decreases calls.len(),
    {
        if calls.len() == 0 {
            self
        } else {
            self.after_all(calls.drop_last()).after(calls.last()).0
        }
    }
}

/// A scratchpad that was sealed and had any one byte replaced by another
/// value yields no reading: the cycle of a driver with a device ends in a
/// read failure.
pub proof fn law_changed_scratchpad_yields_no_reading(
    driver: DriverModel,
    scratchpad: Seq<u8>,
    k: int,
    v: u8,
)
    requires
        driver.device is Some,
        is_sealed(scratchpad),
        0 <= k < scratchpad.len(),
        v != scratchpad[k],
    ensures
        reading_of(scratchpad.update(k, v)) == Err::<(u16, u16), Error>(Error::Read),
        driver.cycle(scratchpad.update(k, v)) == Err::<(u16, u16), Error>(Error::Read),
{
    law_one_changed_byte_breaks_seal(scratchpad, k, v);
}

/// A driver that found no device at start never finds one, and no call on
/// it, after any history of calls, ever asks for the bus.
pub proof fn law_absent_device_leaves_bus_alone(
    discovered: Option<DeviceAddress>,
    calls: Seq<DriverCall>,
    next: DriverCall,
)
    requires
        DriverModel::boot(discovered).device is None,
    ensures
        DriverModel::boot(discovered).after_all(calls).device is None,
        DriverModel::boot(discovered).after_all(calls).after(next).1 == BusAction::Stay,
    decreases calls.len(),
{
    if calls.len() > 0 {
        law_absent_device_leaves_bus_alone(discovered, calls.drop_last(), calls.last());
    }
}

/// A cycle that runs in order asks for one conversion, then one read, and
/// ends Idle, ready for the next.
pub proof fn law_cycle_runs_in_order(driver: DriverModel)
    requires
        driver.device is Some,
        driver.phase == Phase::Idle,
    ensures
        driver.begun().0.phase == Phase::Converting,
        driver.begun().1 == (BusAction::Convert {
            select: driver.select(),
            wait_ms: driver.resolution.latency_ms(),
        }),
        driver.begun().0.asked().0.phase == Phase::Reading,
        driver.begun().0.asked().1 == (BusAction::ReadScratchpad { select: driver.select() }),
        driver.begun().0.asked().0.idle() == driver,
{
}

} // verus!
