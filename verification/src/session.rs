//! The course of a growth run: which frames are due, when the run is over, and
//! why it stopped.

use crate::hex;
use crate::number;
use vstd::prelude::*;

verus! {

/// Safety cap on the number of growth steps of one run.
pub const MAX_STEPS: u64 = 2_000_000;

/// Why a run goes on or stops after a growth step.
#[derive(Clone, Copy, PartialEq, Eq, Structural, Debug)]
pub enum Outcome {
    /// It goes on.
    Growing,
    /// The crystal nears the edge of the lattice.
    Edge,
    /// The crystal holds the wanted number of molecules.
    Molecules,
}

/// Crystal radius at which a run on a lattice of the given radius stops.
pub open spec fn stop_of(radius: int) -> int {
    radius - hex::max(radius / 16, 6)
}

/// A run stops at least six cells and a sixteenth of the lattice's radius short
/// of its edge, the sixteenth counted in whole cells, and no sooner than one of
/// the two asks for.
pub proof fn runs_stop_short_of_the_edge(radius: int)
    requires
        radius >= 0,
    ensures
        radius - stop_of(radius) >= 6,
        16 * (radius - stop_of(radius)) > radius - 16,
        radius - stop_of(radius) == 6 || 16 * (radius - stop_of(radius)) <= radius,
{
}

/// Crystal radius at which a run on a lattice of the given radius stops,
/// before the crystal feels the fixed-vapour boundary: a sixteenth short of
/// the lattice, and at least six cells.
pub fn stop_radius(radius: i32) -> (stop: i32)
    requires
        radius >= i32::MIN + 6,
    ensures
        radius >= 0 ==> stop == radius - hex::max(radius as int / 16, 6),
        radius >= 0 ==> stop == stop_of(radius as int),
        radius < 0 ==> stop == radius - 6,
{
    let margin: i32 = if radius >= 0 && radius / 16 > 6 {
        radius / 16
    } else {
        6
    };
    radius - margin
}

/// The outcome of a step that left the crystal with the given radius and number
/// of molecules (patterns of doubles).
pub open spec fn outcome_of(
    radius: i32,
    stop: i32,
    molecules: u64,
    limit: Option<u64>,
) -> Outcome {
    if radius >= stop {
        Outcome::Edge
    } else if limit matches Some(l) && reached(molecules, l) {
        Outcome::Molecules
    } else {
        Outcome::Growing
    }
}

/// A step ends a run exactly where the crystal has reached the stop radius, or
/// else holds at least as many molecules as asked for.
pub proof fn steps_end_runs_at_the_edge_or_the_limit(
    radius: i32,
    stop: i32,
    molecules: u64,
    limit: Option<u64>,
)
    ensures
        ({
            let outcome = outcome_of(radius, stop, molecules, limit);
            &&& outcome is Edge <==> radius >= stop
            &&& outcome is Molecules <==> radius < stop && limit is Some && !number::is_nan(
                molecules,
            ) && !number::is_nan(limit.unwrap()) && number::double(molecules) >= number::double(
                limit.unwrap(),
            )
        }),
{
    if let Some(l) = limit {
        number::codes_are_ordered(molecules, l);
    }
}

/// Whether the number of molecules is at least the limit.
pub open spec fn reached(molecules: u64, limit: u64) -> bool {
    !number::is_nan(molecules) && !number::is_nan(limit) && number::code_of(molecules)
        >= number::code_of(limit)
}

/// Why a run goes on or stops after a growth step.
pub fn after_step(radius: i32, stop: i32, molecules: u64, limit: Option<u64>) -> (outcome: Outcome)
    ensures
        outcome == outcome_of(radius, stop, molecules, limit),
{
    if radius >= stop {
        return Outcome::Edge;
    }
    match limit {
        Some(l) => match (number::order_code(molecules), number::order_code(l)) {
            (Some(m), Some(n)) => {
                if m >= n {
                    Outcome::Molecules
                } else {
                    Outcome::Growing
                }
            },
            _ => Outcome::Growing,
        },
        None => Outcome::Growing,
    }
}

/// Frames of an animation taken in the course of a run.
pub struct Frames {
    /// Times at which frames are due, in order (order codes).
    pub times: Vec<i64>,
    /// The next of them.
    pub next: usize,
    /// Growth step of the last frame taken.
    pub last_step: Option<u64>,
}

/// The first of the frames from `next` on that is not due at time `now`.
pub open spec fn awaited(times: Seq<i64>, next: int, now: i64) -> int
    decreases times.len() - next,
{
    if 0 <= next < times.len() && times[next] <= now {
        awaited(times, next + 1, now)
    } else {
        next
    }
}

proof fn awaited_is_first(times: Seq<i64>, next: int, now: i64)
    requires
        0 <= next <= times.len(),
    ensures
        next <= awaited(times, next, now) <= times.len(),
        forall|k: int| next <= k < awaited(times, next, now) ==> #[trigger] times[k] <= now,
        awaited(times, next, now) < times.len() ==> times[awaited(times, next, now)] > now,
    decreases times.len() - next,
{
    if next < times.len() && times[next] <= now {
        awaited_is_first(times, next + 1, now);
    }
}

impl Frames {
    pub open spec fn wf(self) -> bool {
        self.next <= self.times@.len()
    }

    /// The frames once those due at time `now` are taken, at the given step.
    pub open spec fn with_due(self, now: i64, step: u64) -> Frames {
        let next = awaited(self.times@, self.next as int, now) as usize;
        Frames {
            times: self.times,
            next,
            last_step: if next > self.next {
                Some(step)
            } else {
                self.last_step
            },
        }
    }

    /// Frames due at the given times; none was taken yet.
    pub fn new(times: Vec<i64>) -> (frames: Frames)
        ensures
            frames.wf(),
            frames.times == times,
            frames.next == 0,
            frames.last_step is None,
    {
        Frames { times, next: 0, last_step: None }
    }

    /// Take the frames that are due at time `now`, at the given growth step:
    /// the next one and those after it whose time has come, up to the first
    /// whose time has not.  Returns how many.
    pub fn take_due(&mut self, now: i64, step: u64) -> (due: usize)
        requires
            old(self).wf(),
        ensures
            final(self).wf(),
            *final(self) == old(self).with_due(now, step),
            final(self).next == old(self).next + due,
            forall|k: int|
                old(self).next <= k < final(self).next ==> #[trigger] final(self).times@[k] <= now,
            ({
                let next = final(self).next as int;
                next < final(self).times@.len() ==> final(self).times@[next] > now
            }),
    {
        let ghost before = *self;
        let first: usize = self.next;
        while self.next < self.times.len() && self.times[self.next] <= now
            invariant
                self.wf(),
                self.times == before.times,
                first == before.next,
                first <= self.next,
                self.last_step == before.last_step,
                forall|k: int| first <= k < self.next ==> #[trigger] self.times@[k] <= now,
                awaited(self.times@, first as int, now) == awaited(
                    self.times@,
                    self.next as int,
                    now,
                ),
            decreases self.times@.len() - self.next,
        {
            self.next = self.next + 1;
        }
        let due: usize = self.next - first;
        if due > 0 {
            self.last_step = Some(step);
        }
        due
    }

    /// Take a frame out of turn, at the given growth step.
    pub fn take_extra(&mut self, step: u64)
        requires
            old(self).wf(),
        ensures
            final(self).wf(),
            final(self).times == old(self).times,
            final(self).next == old(self).next,
            final(self).last_step == Some(step),
    {
        self.last_step = Some(step);
    }

    /// Whether the end of a run, at the given growth step, still has to be
    /// shown: the last frame is of another step, or there is none.
    pub fn closing_due(&self, step: u64) -> (due: bool)
        ensures
            due == (self.last_step != Some(step)),
    {
        match self.last_step {
            Some(s) => s != step,
            None => true,
        }
    }

    /// Taking frames at one time and then at a later one takes as many, up to
    /// the same one, as taking them at the later time alone.
    pub proof fn frames_are_taken_once(self, now: i64, then: i64, first: u64, second: u64)
        requires
            self.wf(),
            now <= then,
        ensures
            self.with_due(now, first).with_due(then, second).next == self.with_due(
                then,
                second,
            ).next,
    {
        assert(self.times.len() == self.times@.len());
        awaited_is_first(self.times@, self.next as int, now);
        awaited_twice(self.times@, self.next as int, now, then);
    }
}

proof fn awaited_twice(times: Seq<i64>, next: int, now: i64, then: i64)
    requires
        0 <= next <= times.len(),
        now <= then,
    ensures
        awaited(times, awaited(times, next, now), then) == awaited(times, next, then),
    decreases times.len() - next,
{
    if next < times.len() && times[next] <= now {
        awaited_twice(times, next + 1, now, then);
    }
}

/// Whether a run goes on: time is left, and the step cap is not reached.
pub fn goes_on(time_left: bool, steps: u64) -> (b: bool)
    ensures
        b == (time_left && steps < MAX_STEPS),
{
    time_left && steps < MAX_STEPS
}

/// A growth run that records frames.
pub struct Run {
    pub frames: Frames,
    /// Crystal radius at which it stops.
    pub stop: i32,
    /// Number of molecules at which it stops (the pattern of a double).
    pub limit: Option<u64>,
    /// Whether it is over.
    pub over: bool,
}

impl Run {
    pub open spec fn wf(self) -> bool {
        self.frames.wf()
    }

    /// The run after [`Run::before_step`].
    pub open spec fn looked(self, now: i64, time_left: bool, steps: u64) -> Run {
        Run {
            frames: self.frames.with_due(now, steps),
            over: self.over || !time_left || steps >= MAX_STEPS,
            ..self
        }
    }

    /// The run after [`Run::after_step`].
    pub open spec fn stepped(self, radius: i32, molecules: u64, steps: u64) -> Run {
        if outcome_of(radius, self.stop, molecules, self.limit) == Outcome::Growing {
            self
        } else {
            Run {
                frames: Frames { last_step: Some(steps), ..self.frames },
                over: true,
                ..self
            }
        }
    }

    /// A run on a lattice of the given radius, with frames at the given times.
    pub fn new(radius: i32, limit: Option<u64>, times: Vec<i64>) -> (run: Run)
        requires
            radius >= 0,
        ensures
            run.wf(),
            run.frames.times == times,
            run.frames.next == 0,
            run.frames.last_step is None,
            run.stop == radius - hex::max(radius as int / 16, 6),
            run.stop == stop_of(radius as int),
            run.limit == limit,
            !run.over,
    {
        Run { frames: Frames::new(times), stop: stop_radius(radius), limit, over: false }
    }

    /// Before a growth step, at time `now` and after `steps` steps: take the
    /// frames that are due, and end the run where no time or no steps are left.
    /// Returns how many frames to take.
    pub fn before_step(&mut self, now: i64, time_left: bool, steps: u64) -> (due: usize)
        requires
            old(self).wf(),
        ensures
            final(self).wf(),
            *final(self) == old(self).looked(now, time_left, steps),
            final(self).frames.next == old(self).frames.next + due,
            forall|k: int|
                old(self).frames.next <= k < final(self).frames.next
                    ==> #[trigger] final(self).frames.times@[k] <= now,
            ({
                let next = final(self).frames.next as int;
                next < final(self).frames.times@.len() ==> final(self).frames.times@[next] > now
            }),
    {
        let due: usize = self.frames.take_due(now, steps);
        if !goes_on(time_left, steps) {
            self.over = true;
        }
        due
    }

    /// After growth step number `steps`, which left the crystal with the given
    /// radius and number of molecules: end the run, with a last frame, where
    /// the crystal nears the lattice's edge or holds enough molecules.
    pub fn after_step(&mut self, radius: i32, molecules: u64, steps: u64) -> (outcome: Outcome)
        requires
            old(self).wf(),
        ensures
            final(self).wf(),
            outcome == outcome_of(radius, old(self).stop, molecules, old(self).limit),
            *final(self) == old(self).stepped(radius, molecules, steps),
    {
        let outcome: Outcome = after_step(radius, self.stop, molecules, self.limit);
        if outcome != Outcome::Growing {
            self.over = true;
            self.frames.take_extra(steps);
        }
        outcome
    }
}

impl Run {
    /// A run goes on while time is left, fewer than two million steps are taken,
    /// the crystal is inside the stop radius and its molecules below the limit,
    /// and is over once one of these fails, for good.  A step that ends it is
    /// shown, so that no closing frame is due for it.
    pub proof fn runs_go_on_while_they_can(
        self,
        now: i64,
        time_left: bool,
        steps: u64,
        radius: i32,
        molecules: u64,
    )
        ensures
            self.looked(now, time_left, steps).over <==> self.over || !time_left || steps
                >= 2_000_000,
            self.stepped(radius, molecules, steps).over <==> self.over || radius >= self.stop || (
            self.limit is Some && !number::is_nan(molecules) && !number::is_nan(self.limit.unwrap())
                && number::double(molecules) >= number::double(self.limit.unwrap())),
            !self.over && self.stepped(radius, molecules, steps).over ==> self.stepped(
                radius,
                molecules,
                steps,
            ).frames.last_step == Some(steps),
            !self.stepped(radius, molecules, steps).over ==> self.stepped(radius, molecules, steps)
                == self,
            self.looked(now, time_left, steps).stop == self.stop && self.stepped(
                radius,
                molecules,
                steps,
            ).stop == self.stop,
            self.looked(now, time_left, steps).limit == self.limit && self.stepped(
                radius,
                molecules,
                steps,
            ).limit == self.limit,
            self.stepped(radius, molecules, steps).frames.next == self.frames.next,
            self.stepped(radius, molecules, steps).frames.times == self.frames.times,
    {
        steps_end_runs_at_the_edge_or_the_limit(radius, self.stop, molecules, self.limit);
    }

    /// Before a step a run takes the frames whose time has come, up to the first
    /// whose time has not, and remembers the step if it took any.
    pub proof fn frames_are_taken_when_due(self, now: i64, time_left: bool, steps: u64)
        requires
            self.wf(),
        ensures
            ({
                let after = self.looked(now, time_left, steps).frames;
                let times = self.frames.times@;
                &&& after.times == self.frames.times
                &&& self.frames.next <= after.next <= times.len()
                &&& forall|k: int| self.frames.next <= k < after.next ==> #[trigger] times[k] <= now
                &&& after.next < times.len() ==> times[after.next as int] > now
                &&& after.last_step == if after.next == self.frames.next {
                    self.frames.last_step
                } else {
                    Some(steps)
                }
            }),
    {
        assert(self.frames.times.len() == self.frames.times@.len());
        awaited_is_first(self.frames.times@, self.frames.next as int, now);
    }
}

/// One turn of a run: what [`Run::before_step`] is told and, where a step is
/// then taken, what [`Run::after_step`] is told of it.
pub struct Turn {
    pub now: i64,
    pub time_left: bool,
    pub steps: u64,
    pub radius: i32,
    pub molecules: u64,
    pub steps_after: u64,
}

impl Run {
    /// The run after [`Run::before_step`] of a turn.
    pub open spec fn looked_at(self, turn: Turn) -> Run {
        self.looked(turn.now, turn.time_left, turn.steps)
    }

    /// The run after a turn in which a step is taken.
    pub open spec fn turned(self, turn: Turn) -> Run {
        self.looked_at(turn).stepped(turn.radius, turn.molecules, turn.steps_after)
    }

    /// The run after the first `m` turns.
    pub open spec fn course(self, turns: Seq<Turn>, m: nat) -> Run
        decreases m,
    {
        if m == 0 {
            self
        } else {
            self.course(turns, (m - 1) as nat).turned(turns[m - 1])
        }
    }

    /// Whether the run takes a step in turn `m`, and goes on after it.
    pub open spec fn outlasts(self, turns: Seq<Turn>, m: nat) -> bool {
        !self.course(turns, m).looked_at(turns[m as int]).over && !self.course(turns, m + 1).over
    }

    /// Whether `turns` are all the turns of the run: it goes on after each of
    /// them but the last, and is over then.
    pub open spec fn completed(self, turns: Seq<Turn>) -> bool {
        let last = (turns.len() - 1) as nat;
        &&& turns.len() > 0
        &&& forall|m: nat| m < last ==> #[trigger] self.outlasts(turns, m)
        &&& self.course(turns, last).looked_at(turns[last as int]).over || self.course(
            turns,
            turns.len(),
        ).over
    }

    /// Whether the last turn takes a step.
    pub open spec fn ends_with_a_step(self, turns: Seq<Turn>) -> bool {
        let last = (turns.len() - 1) as nat;
        !self.course(turns, last).looked_at(turns[last as int]).over
    }

    /// The run when it is over.
    pub open spec fn end_of(self, turns: Seq<Turn>) -> Run {
        let last = (turns.len() - 1) as nat;
        if self.ends_with_a_step(turns) {
            self.course(turns, turns.len())
        } else {
            self.course(turns, last).looked_at(turns[last as int])
        }
    }

    /// Growth steps taken when the run is over.
    pub open spec fn steps_after(self, turns: Seq<Turn>) -> u64 {
        if self.ends_with_a_step(turns) {
            turns.last().steps_after
        } else {
            turns.last().steps
        }
    }

    /// Frames that the run takes in all: those that fell due, the one with
    /// which a step ended it, and the closing one where that is due.
    pub open spec fn frames_taken(self, turns: Seq<Turn>) -> int {
        let end = self.end_of(turns);
        end.frames.next + (if self.ends_with_a_step(turns) {
            1int
        } else {
            0
        }) + (if end.frames.last_step != Some(self.steps_after(turns)) {
            1int
        } else {
            0
        })
    }

    /// Whether every step of the run is taken before its last frame is due.
    pub open spec fn steps_in_time(self, turns: Seq<Turn>) -> bool {
        forall|m: nat|
            m < turns.len() && (m + 1 < turns.len() || self.ends_with_a_step(turns))
                ==> (#[trigger] turns[m as int]).now < self.frames.times@.last()
    }

    proof fn frames_are_left(self, turns: Seq<Turn>, m: nat)
        requires
            self.wf(),
            self.frames.times@.len() > 0,
            self.frames.next == 0,
            self.frames.last_step is None,
            !self.over,
            self.completed(turns),
            self.steps_in_time(turns),
            m < turns.len(),
        ensures
            self.course(turns, m).wf(),
            self.course(turns, m).frames.times == self.frames.times,
            self.course(turns, m).frames.next < self.frames.times@.len(),
            self.course(turns, m).frames.last_step is Some ==> self.course(turns, m).frames.next > 0,
        decreases m,
    {
        if m > 0 {
            let p = (m - 1) as nat;
            self.frames_are_left(turns, p);
            let before = self.course(turns, p);
            let turn = turns[p as int];
            assert(self.outlasts(turns, p));
            assert(p + 1 == m);
            assert(self.course(turns, m) == before.turned(turn));
            assert(before.frames.times.len() == before.frames.times@.len());
            awaited_is_first(before.frames.times@, before.frames.next as int, turn.now);
            assert(turn.now < self.frames.times@.last());
        }
    }

    /// A run takes at most as many frames as it was planned for, and at least
    /// one: the early last frame and the closing one take the place of frames
    /// that did not fall due.
    pub proof fn frames_stay_within_the_plan(self, turns: Seq<Turn>)
        requires
            self.wf(),
            self.frames.times@.len() > 0,
            self.frames.next == 0,
            self.frames.last_step is None,
            !self.over,
            self.completed(turns),
            self.steps_in_time(turns),
        ensures
            1 <= self.frames_taken(turns) <= self.frames.times@.len(),
    {
        let last = (turns.len() - 1) as nat;
        self.frames_are_left(turns, last);
        let before = self.course(turns, last);
        let turn = turns[last as int];
        assert(before.frames.times.len() == before.frames.times@.len());
        awaited_is_first(before.frames.times@, before.frames.next as int, turn.now);
        if self.ends_with_a_step(turns) {
            assert(self.course(turns, turns.len()) == before.turned(turn));
            assert(turn.now < self.frames.times@.last());
        }
    }
}

} // verus!
