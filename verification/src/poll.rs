//! The hand-off of timer ticks from interrupt context to the main context.
//!
//! The interrupt calls [`SharedPollState::fire`] on every period; the main
//! loop calls [`SharedPollState::take_update_flag`] and
//! [`SharedPollState::read_elapsed_ticks`]. The state itself is plain data:
//! whoever owns it is responsible for wrapping each call in the one critical
//! section that both contexts share.

use vstd::prelude::*;

verus! {

/// The mathematical content of a [`SharedPollState`].
pub struct PollModel {
    /// Whether a firing has happened that the consumer has not yet taken.
    pub update_needed: bool,
    /// Firings since start, modulo 2^32.
    pub elapsed_ticks: u32,
}

impl PollModel {
    /// The state before any firing: armed, nothing elapsed.
    pub open spec fn initial() -> PollModel {
        PollModel { update_needed: false, elapsed_ticks: 0 }
    }

    /// The state after one periodic firing.
    pub open spec fn fired(self) -> PollModel {
        PollModel {
            update_needed: true,
            elapsed_ticks: if self.elapsed_ticks == u32::MAX {
                0u32
            } else {
                (self.elapsed_ticks + 1) as u32
            },
        }
    }

    /// The state after `n` periodic firings in a row.
    pub open spec fn fired_times(self, n: nat) -> PollModel
        decreases n,
    {
        if n == 0 {
            self
        } else {
            self.fired_times((n - 1) as nat).fired()
        }
    }

    /// What one consumer poll returns, and the state it leaves.
    pub open spec fn taken(self) -> (bool, PollModel) {
        (self.update_needed, PollModel { update_needed: false, elapsed_ticks: self.elapsed_ticks })
    }
}

/// Whether the coordinator is waiting for a firing or holds one.
#[derive(Clone, Copy, Debug, PartialEq, Eq, Structural)]
pub enum PollPhase {
    /// The flag is clear.
    Armed,
    /// The flag is set and not yet consumed.
    Pending,
}

/// The two values shared between the timer interrupt and the main loop.
#[derive(Clone, Copy, Debug)]
pub struct SharedPollState {
    update_needed: bool,
    elapsed_ticks: u32,
}

impl View for SharedPollState {
    type V = PollModel;

    closed spec fn view(&self) -> PollModel {
        PollModel { update_needed: self.update_needed, elapsed_ticks: self.elapsed_ticks }
    }
}

impl SharedPollState {
    /// Starts armed, with no tick elapsed.
    pub fn new() -> (state: Self)
        ensures
            state@ == PollModel::initial(),
    {
        SharedPollState { update_needed: false, elapsed_ticks: 0 }
    }

    /// Records one periodic firing: the counter advances by one, wrapping at
    /// the width of `u32`, and the flag is raised.
    pub fn fire(&mut self)
        ensures
            final(self)@ == old(self)@.fired(),
    {
        self.elapsed_ticks = self.elapsed_ticks.wrapping_add(1);
        self.update_needed = true;
    }

    /// Reads the flag and clears it in the same step.
    ///
    /// Any number of firings since the last call yield a single `true`.
    pub fn take_update_flag(&mut self) -> (taken: bool)
        ensures
            (taken, final(self)@) == old(self)@.taken(),
    {
        let taken = self.update_needed;
        if taken {
            self.update_needed = false;
        }
        taken
    }

    /// The number of firings so far, modulo 2^32. Never reset.
    pub fn read_elapsed_ticks(&self) -> (ticks: u32)
        ensures
            ticks == self@.elapsed_ticks,
    {
        self.elapsed_ticks
    }

    /// Where the coordinator stands.
    pub fn phase(&self) -> (phase: PollPhase)
        ensures
            phase == (if self@.update_needed {
                PollPhase::Pending
            } else {
                PollPhase::Armed
            }),
    {
        if self.update_needed {
            PollPhase::Pending
        } else {
            PollPhase::Armed
        }
    }
}

/// Firings coalesce: after one or more firings the next poll returns `true`
/// and clears the flag, and the poll right after it returns `false`.
pub proof fn law_firings_coalesce(s: PollModel, n: nat)
    requires
        n >= 1,
    ensures
        s.fired_times(n).taken().0,
        !s.fired_times(n).taken().1.update_needed,
        !s.fired_times(n).taken().1.taken().0,
{
}

/// A poll never touches the counter, and a poll on an armed coordinator
/// changes nothing at all.
pub proof fn law_take_keeps_ticks(s: PollModel)
    ensures
        s.taken().1.elapsed_ticks == s.elapsed_ticks,
        !s.update_needed ==> s.taken() == (false, s),
{
}

/// The counter advances by exactly the number of firings, modulo 2^32.
pub proof fn law_ticks_count_firings(s: PollModel, k: nat)
    ensures
        s.fired_times(k).elapsed_ticks == (s.elapsed_ticks + k) % 0x1_0000_0000,
    decreases k,
{
    if k > 0 {
        law_ticks_count_firings(s, (k - 1) as nat);
    }
}

} // verus!
