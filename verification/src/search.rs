//! The enumeration walk: finding the addresses on a bus one pass at a time.
//!
//! A pass has 64 slots. In each slot the devices still taking part send one
//! address bit and then its complement; the line reads low when any of them
//! pulls it low. Both reads low means the devices disagree, both high means
//! nobody is left, and otherwise the one bit that was sent is the bit of
//! every device taking part. The walker answers each slot with the direction
//! it takes, and the devices on the other side drop out.
//!
//! Where devices disagree the walk turns to 0 first and remembers the
//! deepest such fork. The next pass repeats the path down to that fork and
//! turns to 1 there. So the passes visit the addresses depth first, and the
//! walk is over when a pass leaves no fork behind.
//!
//! The cursor holds no bus: it is fed what each slot read and says what to
//! write.

use vstd::prelude::*;
use crate::address::DeviceAddress;
use crate::error::Error;

verus! {

/// The command that opens a pass: written after the reset, before slot 0.
pub const COMMAND_SEARCH: u8 = 0xF0;

/// What the walker does after a slot.
#[derive(Clone, Copy, Debug, PartialEq, Eq)]
pub enum Step {
    /// Write this direction; the pass goes on.
    Next(bool),
    /// Write this direction; the pass is over and found this address.
    Found(bool, DeviceAddress),
}

/// The mathematical content of a [`SearchCursor`].
pub struct CursorModel {
    /// The 64 slots of the address the last complete pass ended on.
    pub last: Seq<bool>,
    /// The deepest fork of the last complete pass at which it turned to 0.
    pub marker: Option<int>,
    /// Whether the last complete pass left no fork behind.
    pub exhausted: bool,
    /// The directions taken so far in the running pass.
    pub path: Seq<bool>,
    /// The deepest fork of the running pass at which it turned to 0.
    pub last_zero: Option<int>,
}

impl CursorModel {
    /// The cursor before any pass.
    pub open spec fn fresh() -> CursorModel {
        CursorModel {
            last: Seq::new(64, |i: int| false),
            marker: None,
            exhausted: false,
            path: Seq::empty(),
            last_zero: None,
        }
    }

    /// The slot the running pass has reached.
    pub open spec fn position(self) -> int {
        self.path.len() as int
    }

    /// What holds of every cursor: the last address has 64 slots, the
    /// running pass is short of its 64th, and both forks lie where they can.
    pub open spec fn wf(self) -> bool {
        &&& self.last.len() == 64
        &&& self.path.len() < 64
        &&& (self.marker matches Some(m) ==> 0 <= m < 64)
        &&& (self.last_zero matches Some(z) ==> 0 <= z < self.path.len())
    }

    /// Whether no pass is under way.
    pub open spec fn at_rest(self) -> bool {
        self.path.len() == 0 && self.last_zero is None
    }

    /// The direction to take when the slot reads `id_bit`, then `inverse`;
    /// none when both read high.
    ///
    /// A single bit is adopted. At a fork the walk repeats the last pass
    /// above the marker, turns to 1 at the marker, and turns to 0 below it.
    pub open spec fn direction(self, id_bit: bool, inverse: bool) -> Option<bool> {
        if id_bit && inverse {
            None
        } else if id_bit != inverse {
            Some(id_bit)
        } else {
            match self.marker {
                Some(m) => Some(
                    if self.position() < m {
                        self.last[self.position()]
                    } else {
                        self.position() == m
                    },
                ),
                None => Some(false),
            }
        }
    }

    /// The cursor one slot further, having taken `direction`; `fork` says
    /// whether the devices disagreed.
    pub open spec fn advanced(self, direction: bool, fork: bool) -> CursorModel {
        CursorModel {
            path: self.path.push(direction),
            last_zero: if fork && !direction {
                Some(self.position())
            } else {
                self.last_zero
            },
            ..self
        }
    }

    /// The cursor after a pass that was given up: back at rest, the last
    /// complete pass untouched.
    pub open spec fn abandoned(self) -> CursorModel {
        CursorModel { path: Seq::empty(), last_zero: None, ..self }
    }

    /// The cursor after the 64th slot: the path becomes the last address and
    /// the deepest fork the marker.
    pub open spec fn completed(self) -> CursorModel {
        CursorModel {
            last: self.path,
            marker: self.last_zero,
            exhausted: self.last_zero is None,
            path: Seq::empty(),
            last_zero: None,
        }
    }

    /// The cursor after the slot read `id_bit`, then `inverse`.
    pub open spec fn after(self, id_bit: bool, inverse: bool) -> CursorModel {
        match self.direction(id_bit, inverse) {
            None => self.abandoned(),
            Some(direction) => {
                let next = self.advanced(direction, !id_bit && !inverse);
                if next.position() == 64 {
                    next.completed()
                } else {
                    next
                }
            },
        }
    }

    /// What the walker is told after the slot read `id_bit`, then `inverse`.
    ///
    /// Both high is the failure of a slot that nobody answered. The 64th
    /// slot ends the pass: with the address if it is sealed, with a checksum
    /// failure if it is not.
    pub open spec fn outcome(self, id_bit: bool, inverse: bool) -> Result<Step, Error> {
        match self.direction(id_bit, inverse) {
            None => Err(Error::NoDevice),
            Some(direction) => {
                if self.position() + 1 == 64 {
                    let address = DeviceAddress::with_bits(self.path.push(direction));
                    if address.valid() {
                        Ok(Step::Found(direction, address))
                    } else {
                        Err(Error::Checksum)
                    }
                } else {
                    Ok(Step::Next(direction))
                }
            },
        }
    }
}

/// The state of an enumeration: where the last pass ended, and how far the
/// running one has come.
#[derive(Clone, Copy, Debug)]
pub struct SearchCursor {
    last: [bool; 64],
    marker: Option<u8>,
    exhausted: bool,
    path: [bool; 64],
    position: u8,
    last_zero: Option<u8>,
}

impl View for SearchCursor {
    type V = CursorModel;

    closed spec fn view(&self) -> CursorModel {
        CursorModel {
            last: self.last@,
            marker: match self.marker {
                Some(m) => Some(m as int),
                None => None,
            },
            exhausted: self.exhausted,
            path: self.path@.take(self.position as int),
            last_zero: match self.last_zero {
                Some(z) => Some(z as int),
                None => None,
            },
        }
    }
}

impl SearchCursor {
    #[verifier::type_invariant]
    spec fn inv(self) -> bool {
        &&& self.position < 64
        &&& (self.marker matches Some(m) ==> m < 64)
        &&& (self.last_zero matches Some(z) ==> z < self.position)
    }

    /// The cursor before any pass.
    pub fn new() -> (cursor: Self)
        ensures
            cursor@ == CursorModel::fresh(),
            cursor@.wf(),
    {
        let cursor = SearchCursor {
            last: [false; 64],
            marker: None,
            exhausted: false,
            path: [false; 64],
            position: 0,
            last_zero: None,
        };
        assert(cursor@.last =~= CursorModel::fresh().last);
        assert(cursor@.path =~= CursorModel::fresh().path);
        cursor
    }

    /// Whether the last complete pass left no fork behind: every address
    /// has been visited.
    pub fn is_exhausted(&self) -> (done: bool)
        ensures
            done == self@.exhausted,
            self@.wf(),
    {
        proof {
            use_type_invariant(self);
        }
        self.exhausted
    }

    /// The slot the running pass has reached, counted from 0.
    pub fn position(&self) -> (slot: u8)
        ensures
            slot == self@.position(),
            slot < 64,
    {
        proof {
            use_type_invariant(self);
        }
        self.position
    }

    /// The deepest fork of the last complete pass at which it turned to 0.
    pub fn last_discrepancy(&self) -> (marker: Option<u8>)
        ensures
            marker is Some == self@.marker is Some,
            marker matches Some(m) ==> self@.marker == Some(m as int) && m < 64,
    {
        proof {
            use_type_invariant(self);
        }
        self.marker
    }

    /// Gives the running pass up; the next slot is slot 0 again.
    pub fn abandon(&mut self)
        ensures
            final(self)@ == old(self)@.abandoned(),
            final(self)@.wf(),
    {
        proof {
            use_type_invariant(&*self);
        }
        self.last_zero = None;
        self.position = 0;
        assert(self@.path =~= old(self)@.abandoned().path);
    }

    /// Takes one slot: `id_bit` is what the first read returned, `inverse`
    /// the second.
    ///
    /// Returns the direction to write. After the 64th slot the pass is over
    /// and the address comes with it. A slot that nobody answered gives the
    /// pass up.
    pub fn step(&mut self, id_bit: bool, inverse: bool) -> (result: Result<Step, Error>)
        ensures
            result == old(self)@.outcome(id_bit, inverse),
            final(self)@ == old(self)@.after(id_bit, inverse),
            old(self)@.wf(),
            final(self)@.wf(),
    {
        proof {
            use_type_invariant(&*self);
        }
        if id_bit && inverse {
            self.abandon();
            return Err(Error::NoDevice);
        }
        let at = self.position;
        let fork = !id_bit && !inverse;
        let direction = if !fork {
            id_bit
        } else {
            match self.marker {
                Some(m) => if at < m {
                    self.last[at as usize]
                } else {
                    at == m
                },
                None => false,
            }
        };
        assert(old(self)@.direction(id_bit, inverse) == Some(direction));
        self.path[at as usize] = direction;
        let last_zero = if fork && !direction {
            Some(at)
        } else {
            self.last_zero
        };
        assert(self.path@.take(at + 1) =~= old(self)@.path.push(direction));
        if at == 63 {
            assert(self.path@.take(64) =~= self.path@);
            let address = DeviceAddress::from_bits(&self.path);
            self.last = self.path;
            self.marker = last_zero;
            self.exhausted = last_zero.is_none();
            self.last_zero = None;
            self.position = 0;
            assert(self@.path =~= Seq::<bool>::empty());
            if address.is_valid() {
                Ok(Step::Found(direction, address))
            } else {
                Err(Error::Checksum)
            }
        } else {
            self.position = at + 1;
            self.last_zero = last_zero;
            Ok(Step::Next(direction))
        }
    }
}

} // verus!
