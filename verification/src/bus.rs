//! A bus in memory: a set of addresses that answer enumeration slots the way
//! devices on one open-drain line do.
//!
//! Every device that has followed the directions written so far sends its
//! next address bit, then the complement. The line is the wired AND of what
//! is sent: a read is high only if nobody pulled it low.

use vstd::prelude::*;
use crate::address::DeviceAddress;
use crate::error::Error;
use crate::order::{agrees, lemma_rank_bounds};
use crate::passes::{
    lemma_listing_complete, lemma_listing_grows, listed_so_far, lists_in_order, passes_left,
    settled,
};
use crate::search::{CursorModel, SearchCursor, Step};

verus! {

/// Whether some device has followed the first `n` slots of `path` and sends
/// `bit` in slot `n`.
pub open spec fn answers(devices: Seq<DeviceAddress>, path: Seq<bool>, n: int, bit: bool) -> bool {
    exists|k: int|
        0 <= k < devices.len() && #[trigger] agrees(devices[k].bits(), path, n)
            && devices[k].bits()[n] == bit
}

/// What the two reads of the slot after `path` return: the bit and its
/// complement, each high unless some device pulls it low.
pub open spec fn reply(devices: Seq<DeviceAddress>, path: Seq<bool>) -> (bool, bool) {
    (
        !answers(devices, path, path.len() as int, false),
        !answers(devices, path, path.len() as int, true),
    )
}

/// The rest of a pass on `devices`, from the cursor `c` to its end: the
/// cursor it leaves and what it reports.
pub open spec fn walk(devices: Seq<DeviceAddress>, c: CursorModel) -> (
    CursorModel,
    Result<Option<DeviceAddress>, Error>,
)
    decreases 64 - c.path.len(),
{
    if c.path.len() >= 64 {
        (c, Err(Error::Bus))
    } else {
        let (id_bit, inverse) = reply(devices, c.path);
        match c.outcome(id_bit, inverse) {
            Ok(Step::Next(_)) => walk(devices, c.after(id_bit, inverse)),
            Ok(Step::Found(_, address)) => (c.after(id_bit, inverse), Ok(Some(address))),
            Err(e) => (c.after(id_bit, inverse), Err(e)),
        }
    }
}

/// One enumeration call on `devices` with the cursor `c`.
///
/// An exhausted cursor reports nothing and stays as it is. A bus without
/// devices gives no presence pulse, and the call fails. Otherwise a pass
/// runs from slot 0.
pub open spec fn scan(devices: Seq<DeviceAddress>, c: CursorModel) -> (
    CursorModel,
    Result<Option<DeviceAddress>, Error>,
) {
    if c.exhausted {
        (c, Ok(None))
    } else if devices.len() == 0 {
        (c.abandoned(), Err(Error::NoDevice))
    } else {
        walk(devices, c.abandoned())
    }
}

/// The mathematical content of a [`SimulatedBus`].
pub struct BusModel {
    /// The addresses of the devices on the bus.
    pub devices: Seq<DeviceAddress>,
    /// The directions written since the last reset.
    pub written: Seq<bool>,
}

/// Devices on one line, without the line.
#[derive(Debug)]
pub struct SimulatedBus {
    devices: Vec<DeviceAddress>,
    written: Vec<bool>,
}

impl View for SimulatedBus {
    type V = BusModel;

    closed spec fn view(&self) -> BusModel {
        BusModel { devices: self.devices@, written: self.written@ }
    }
}

impl SimulatedBus {
    /// A bus with no device on it.
    pub fn new() -> (bus: Self)
        ensures
            bus@.devices.len() == 0,
            bus@.written.len() == 0,
    {
        SimulatedBus { devices: Vec::new(), written: Vec::new() }
    }

    /// Puts one more device on the bus.
    pub fn attach(&mut self, address: DeviceAddress)
        ensures
            final(self)@.devices == old(self)@.devices.push(address),
            final(self)@.written == old(self)@.written,
    {
        self.devices.push(address);
    }

    /// The number of devices on the bus.
    pub fn device_count(&self) -> (count: usize)
        ensures
            count == self@.devices.len(),
    {
        self.devices.len()
    }

    /// Resets the bus: every device takes part again. Returns whether any
    /// device answered with a presence pulse.
    pub fn reset(&mut self) -> (presence: bool)
        ensures
            final(self)@.devices == old(self)@.devices,
            final(self)@.written.len() == 0,
            presence == (old(self)@.devices.len() > 0),
    {
        self.written.clear();
        self.devices.len() > 0
    }

    fn follows(&self, k: usize) -> (yes: bool)
        requires
            k < self@.devices.len(),
            self@.written.len() <= 64,
        ensures
            yes == agrees(self@.devices[k as int].bits(), self@.written, self@.written.len() as int),
    {
        let n = self.written.len();
        let mut j: usize = 0;
        while j < n
            invariant
                j <= n,
                n == self.written@.len(),
                n <= 64,
                k < self.devices@.len(),
                agrees(self.devices@[k as int].bits(), self.written@, j as int),
            decreases n - j,
        {
            if self.devices[k].bit(j as u8) != self.written[j] {
                return false;
            }
            j = j + 1;
        }
        true
    }

    /// Reads one enumeration slot: the bit, then its complement.
    ///
    /// Once 64 directions are written no device takes part any more and
    /// both reads are high.
    pub fn read_slot(&self) -> (read: (bool, bool))
        ensures
            self@.written.len() < 64 ==> read == reply(self@.devices, self@.written),
            self@.written.len() >= 64 ==> read == (true, true),
    {
        let n = self.written.len();
        if n >= 64 {
            return (true, true);
        }
        let mut zero = false;
        let mut one = false;
        let mut k: usize = 0;
        while k < self.devices.len()
            invariant
                k <= self.devices@.len(),
                n == self.written@.len(),
                n < 64,
                zero == exists|i: int|
                    0 <= i < k && #[trigger] agrees(
                        self.devices@[i].bits(),
                        self.written@,
                        n as int,
                    ) && self.devices@[i].bits()[n as int] == false,
                one == exists|i: int|
                    0 <= i < k && #[trigger] agrees(
                        self.devices@[i].bits(),
                        self.written@,
                        n as int,
                    ) && self.devices@[i].bits()[n as int] == true,
            decreases self.devices@.len() - k,
        {
            if self.follows(k) {
                if self.devices[k].bit(n as u8) {
                    one = true;
                } else {
                    zero = true;
                }
            }
            k = k + 1;
        }
        (!zero, !one)
    }

    /// Writes the direction taken in the slot that was just read. Devices
    /// that sent the other bit drop out until the next reset.
    pub fn write_bit(&mut self, bit: bool)
        ensures
            final(self)@.devices == old(self)@.devices,
            old(self)@.written.len() < 64 ==> final(self)@.written == old(self)@.written.push(bit),
            old(self)@.written.len() >= 64 ==> final(self)@.written == old(self)@.written,
    {
        if self.written.len() < 64 {
            self.written.push(bit);
        }
    }

    /// Enumerates the bus from the start: calls until the cursor is
    /// exhausted and collects what the calls report.
    ///
    /// The result holds every sealed address of the bus once, in the order
    /// of the walk. An address that is not sealed is passed over.
    pub fn enumerate(&mut self) -> (found: Vec<DeviceAddress>)
        ensures
            final(self)@.devices == old(self)@.devices,
            lists_in_order(old(self)@.devices, found@),
    {
        let mut found: Vec<DeviceAddress> = Vec::new();
        let mut cursor = SearchCursor::new();
        let ghost devices = self@.devices;
        if self.devices.len() == 0 {
            return found;
        }
        proof {
            lemma_rank_bounds(cursor@.last, 64);
        }
        while !cursor.is_exhausted()
            invariant
                devices == old(self)@.devices,
                self@.devices == devices,
                devices.len() > 0,
                settled(devices, cursor@),
                listed_so_far(devices, cursor@, found@),
                0 <= passes_left(cursor@),
            decreases passes_left(cursor@),
        {
            proof {
                lemma_listing_grows(devices, cursor@, found@);
            }
            match self.search_next(&mut cursor) {
                Ok(Some(address)) => {
                    found.push(address);
                },
                _ => {},
            }
        }
        proof {
            lemma_listing_complete(devices, cursor@, found@);
        }
        found
    }

    /// One enumeration call: runs a pass of `cursor` over this bus.
    ///
    /// Returns the address the pass ended on, or nothing if the cursor was
    /// exhausted before the call.
    pub fn search_next(&mut self, cursor: &mut SearchCursor) -> (found: Result<
        Option<DeviceAddress>,
        Error,
    >)
        ensures
            final(self)@.devices == old(self)@.devices,
            (final(cursor)@, found) == scan(old(self)@.devices, old(cursor)@),
    {
        if cursor.is_exhausted() {
            return Ok(None);
        }
        cursor.abandon();
        if !self.reset() {
            return Err(Error::NoDevice);
        }
        let ghost devices = self@.devices;
        let ghost start = cursor@;
        loop
            invariant
                cursor@.wf(),
                devices == old(self)@.devices,
                devices.len() > 0,
                !old(cursor)@.exhausted,
                start == old(cursor)@.abandoned(),
                self@.devices == devices,
                self@.written == cursor@.path,
                walk(devices, cursor@) == walk(devices, start),
            decreases 64 - cursor@.path.len(),
        {
            let (id_bit, inverse) = self.read_slot();
            match cursor.step(id_bit, inverse) {
                Ok(Step::Next(direction)) => {
                    self.write_bit(direction);
                },
                Ok(Step::Found(direction, address)) => {
                    self.write_bit(direction);
                    return Ok(Some(address));
                },
                Err(e) => {
                    return Err(e);
                },
            }
        }
    }
}

} // verus!
