//! The schedule of one physics tick.

use vstd::prelude::*;

verus! {

/// One of the three phases of a physics round.
#[derive(Debug, Clone, Copy, PartialEq, Eq, Structural)]
pub enum Phase {
    /// Every body gathers the pull of every other body into its momentum.
    Gravity,
    /// Every body moves by its momentum and extends its trail.
    Movement,
    /// Bodies that touch are dealt with as the collision mode says.
    Collision,
}

/// The phase that stands at place `k` of a schedule: gravity, movement,
/// collision, and round again.
pub open spec fn phase_at(k: int) -> Phase {
    if k % 3 == 0 {
        Phase::Gravity
    } else if k % 3 == 1 {
        Phase::Movement
    } else {
        Phase::Collision
    }
}

/// The schedule of `n` whole rounds.
pub open spec fn rounds(n: nat) -> Seq<Phase> {
    Seq::new(3 * n, |k: int| phase_at(k))
}

/// The place of a phase within its round.
pub open spec fn place_of(phase: Phase) -> int {
    match phase {
        Phase::Gravity => 0,
        Phase::Movement => 1,
        Phase::Collision => 2,
    }
}

/// The progress of one physics tick: the phases that are still to run. The
/// caller runs each phase that `next_phase` hands out, until none is left.
#[derive(Debug, Clone, Copy, PartialEq, Eq, Structural)]
pub struct Tick {
    rounds_left: u32,
    next: Phase,
}

impl Tick {
    /// The phases still to run, the next one first.
    pub closed spec fn remaining(&self) -> Seq<Phase> {
        if self.rounds_left == 0 {
            Seq::empty()
        } else {
            Seq::new(
                (3 * self.rounds_left - place_of(self.next)) as nat,
                |k: int| phase_at(k + place_of(self.next)),
            )
        }
    }

    /// A tick of `count` rounds, none of them begun.
    pub fn new(count: u32) -> (tick: Tick)
        ensures
            tick.remaining() == rounds(count as nat),
    {
        let tick = Tick { rounds_left: count, next: Phase::Gravity };
        assert(tick.remaining() =~= rounds(count as nat));
        tick
    }

    /// Whether every phase has been handed out.
    pub fn is_done(&self) -> (done: bool)
        ensures
            done == (self.remaining().len() == 0),
    {
        self.rounds_left == 0
    }

    /// Hands out the next phase to run, and none once the tick is over.
    pub fn next_phase(&mut self) -> (phase: Option<Phase>)
        ensures
            old(self).remaining().len() == 0 ==> phase.is_none() && final(self).remaining()
                == old(self).remaining(),
            old(self).remaining().len() > 0 ==> phase == Some(old(self).remaining()[0])
                && final(self).remaining() == old(self).remaining().skip(1),
    {
        if self.rounds_left == 0 {
            return None;
        }
        let phase = self.next;
        match phase {
            Phase::Gravity => {
                self.next = Phase::Movement;
            },
            Phase::Movement => {
                self.next = Phase::Collision;
            },
            Phase::Collision => {
                self.next = Phase::Gravity;
                self.rounds_left = self.rounds_left - 1;
            },
        }
        assert(self.remaining() =~= old(self).remaining().skip(1));
        Some(phase)
    }
}

} // verus!
