//! The failures that a poll cycle can end in.

use vstd::prelude::*;

verus! {

/// Why a bus operation produced no value.
///
/// Every failure is scoped to the poll cycle in which it occurred; the next
/// periodic trigger is the only retry.
#[derive(Clone, Copy, Debug, PartialEq, Eq, Structural)]
pub enum Error {
    /// The line stayed low: it is stuck, or shorted to ground.
    Bus,
    /// An enumeration slot was answered by no device.
    NoDevice,
    /// The checksum byte of an address does not match the address.
    Checksum,
    /// The checksum byte of a scratchpad does not match its content.
    Read,
}

} // verus!
