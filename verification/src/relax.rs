//! The course of a relaxation: sweeps of six passes, a check of the residual
//! when the changes have become small, and an end when it is small too or the
//! sweeps are used up.

use crate::schedule;
use crate::schedule::Pass;
use vstd::prelude::*;

verus! {

/// What a relaxation does next.
#[derive(Clone, Copy, PartialEq, Eq, Structural, Debug)]
pub enum Stage {
    /// The pass of this number, of the six of a sweep.
    Pass(usize),
    /// The check of the residual.
    Residual,
    /// Nothing.
    Done,
}

/// A relaxation under way.
pub struct Relaxation {
    /// Most sweeps.
    pub max_sweeps: usize,
    /// Sweeps completed.
    pub used: usize,
    pub stage: Stage,
}

/// The pass of number `k`: the parities in turn, and within each the colours.
pub open spec fn numbered(k: int) -> Pass {
    Pass { parity: (k / 3) as usize, colour: (k % 3) as i32 }
}

/// The six numbers name the six passes, each once.
pub proof fn passes_are_numbered(pass: Pass)
    requires
        pass.valid(),
    ensures
        exists|k: int| 0 <= k < 6 && #[trigger] numbered(k) == pass,
        forall|k: int, l: int|
            0 <= k < 6 && 0 <= l < 6 && #[trigger] numbered(k) == #[trigger] numbered(l) ==> k == l,
        forall|k: int| 0 <= k < 6 ==> (#[trigger] numbered(k)).valid(),
{
    let k = 3 * pass.parity + pass.colour;
    assert(numbered(k) == pass);
}

/// The pass of number `k` of a sweep.
pub fn pass_number(k: usize) -> (pass: Pass)
    requires
        k < 6,
    ensures
        pass == numbered(k as int),
        pass.valid(),
{
    Pass { parity: k / 3, colour: (k % 3) as i32 }
}

impl Relaxation {
    pub open spec fn wf(self) -> bool {
        &&& self.used <= self.max_sweeps
        &&& match self.stage {
            Stage::Pass(k) => k < 6 && self.used < self.max_sweeps,
            Stage::Residual => self.used >= 1,
            Stage::Done => true,
        }
    }

    /// Passes and checks that are left at most.
    pub open spec fn left(self) -> int {
        match self.stage {
            Stage::Pass(k) => 7 * (self.max_sweeps - self.used) - k,
            Stage::Residual => 7 * (self.max_sweeps - self.used) + 1,
            Stage::Done => 0,
        }
    }

    /// A relaxation of at most `max_sweeps` sweeps.
    pub fn new(max_sweeps: usize) -> (relaxation: Relaxation)
        ensures
            relaxation.wf(),
            relaxation.max_sweeps == max_sweeps,
            relaxation.used == 0,
            relaxation.stage == if max_sweeps == 0 {
                Stage::Done
            } else {
                Stage::Pass(0)
            },
    {
        let stage: Stage = if max_sweeps == 0 {
            Stage::Done
        } else {
            Stage::Pass(0)
        };
        Relaxation { max_sweeps, used: 0, stage }
    }

    /// The relaxation after the pass under way.
    pub open spec fn passed(self, small: bool) -> Relaxation {
        let k = self.stage->Pass_0;
        let used = if k < 5 {
            self.used as int
        } else {
            self.used + 1
        };
        let due = small && (self.used as int % 4 == 1 || used == self.max_sweeps);
        Relaxation {
            used: used as usize,
            stage: if k < 5 {
                Stage::Pass((k + 1) as usize)
            } else if due {
                Stage::Residual
            } else if used < self.max_sweeps {
                Stage::Pass(0)
            } else {
                Stage::Done
            },
            ..self
        }
    }

    /// The relaxation after the check of the residual.
    pub open spec fn checked(self, converged: bool) -> Relaxation {
        Relaxation {
            stage: if converged || self.used >= self.max_sweeps {
                Stage::Done
            } else {
                Stage::Pass(0)
            },
            ..self
        }
    }

    /// Where a relaxation goes after a sweep, or a residual that is too large.
    pub open spec fn onward(self) -> Stage {
        if self.used < self.max_sweeps {
            Stage::Pass(0)
        } else {
            Stage::Done
        }
    }

    /// Record the pass under way as done; `small` says whether the largest
    /// change of the sweep is below the tolerance, and matters after its last
    /// pass.
    pub fn finish_pass(&mut self, small: bool)
        requires
            old(self).wf(),
            old(self).stage is Pass,
        ensures
            final(self).wf(),
            *final(self) == old(self).passed(small),
            final(self).max_sweeps == old(self).max_sweeps,
            final(self).left() < old(self).left(),
            ({
                let k = old(self).stage->Pass_0;
                let due = small && (old(self).used as int % 4 == 1 || old(self).used + 1 == old(
                    self,
                ).max_sweeps);
                if k < 5 {
                    final(self).used == old(self).used && final(self).stage == Stage::Pass(
                        (k + 1) as usize,
                    )
                } else {
                    final(self).used == old(self).used + 1 && final(self).stage == if due {
                        Stage::Residual
                    } else {
                        final(self).onward()
                    }
                }
            }),
    {
        if let Stage::Pass(k) = self.stage {
            if k < 5 {
                self.stage = Stage::Pass(k + 1);
            } else {
                let due: bool = schedule::residual_due(small, self.used, self.max_sweeps);
                self.used = self.used + 1;
                self.stage = if due {
                    Stage::Residual
                } else if self.used < self.max_sweeps {
                    Stage::Pass(0)
                } else {
                    Stage::Done
                };
            }
        }
    }

    /// Record the check of the residual as done; `converged` says whether it is
    /// below the tolerance.
    pub fn finish_check(&mut self, converged: bool)
        requires
            old(self).wf(),
            old(self).stage is Residual,
        ensures
            final(self).wf(),
            *final(self) == old(self).checked(converged),
            final(self).max_sweeps == old(self).max_sweeps,
            final(self).used == old(self).used,
            final(self).left() < old(self).left(),
            final(self).stage == if converged {
                Stage::Done
            } else {
                final(self).onward()
            },
    {
        self.stage = if converged || self.used >= self.max_sweeps {
            Stage::Done
        } else {
            Stage::Pass(0)
        };
    }
}

impl Relaxation {
    /// A sweep is six passes, in the order of their numbers, and counts as one
    /// sweep when the last of them is done.
    pub proof fn sweeps_are_six_passes(self, small: bool)
        requires
            self.wf(),
            self.stage == Stage::Pass(0),
        ensures
            ({
                let one = self.passed(small);
                let two = one.passed(small);
                let three = two.passed(small);
                let four = three.passed(small);
                let five = four.passed(small);
                &&& one.stage == Stage::Pass(1) && two.stage == Stage::Pass(2)
                &&& three.stage == Stage::Pass(3) && four.stage == Stage::Pass(4)
                &&& five.stage == Stage::Pass(5) && five.used == self.used
                &&& five.passed(small).used == self.used + 1
                &&& !(five.passed(small).stage is Pass) || five.passed(small).stage == Stage::Pass(0)
            }),
    {
    }

    /// A relaxation ends only when all its sweeps are used up, or when a check
    /// finds the residual small.  A check follows a sweep only where the largest
    /// change was small, and then at the latest after four sweeps and after the
    /// last one; if it fails, the sweeps go on.
    pub proof fn relaxations_end_converged_or_used_up(self, small: bool, converged: bool)
        requires
            self.wf(),
        ensures
            self.stage is Pass ==> {
                let next = self.passed(small);
                &&& next.wf() && next.max_sweeps == self.max_sweeps
                &&& next.stage is Done ==> next.used == self.max_sweeps
                &&& next.stage is Residual ==> small && self.stage == Stage::Pass(5)
                &&& self.stage == Stage::Pass(5) && small && next.used == self.max_sweeps
                    ==> next.stage is Residual
                &&& self.stage == Stage::Pass(5) && small && next.used as int % 4 == 2
                    ==> next.stage is Residual
                &&& next.stage is Residual ==> next.used as int % 4 == 2 || next.used
                    == self.max_sweeps
            },
            self.stage is Residual ==> {
                let next = self.checked(converged);
                &&& next.wf() && next.max_sweeps == self.max_sweeps && next.used == self.used
                &&& next.stage is Done <==> converged || self.used == self.max_sweeps
                &&& !(next.stage is Done) ==> next.stage == Stage::Pass(0)
            },
    {
    }
}

/// Most rounds in which the field is converged and its far boundary adjusted.
pub const CONVERGE_ROUNDS: usize = 12;

/// Whether the field is converged for another round, after `rounds` of them:
/// the far boundary follows the crystal, it has not settled, and rounds are
/// left.
pub fn converges_again(far_field: bool, settled: bool, rounds: usize) -> (again: bool)
    ensures
        again == (far_field && !settled && rounds < CONVERGE_ROUNDS),
{
    far_field && !settled && rounds < CONVERGE_ROUNDS
}

} // verus!
