//! Keyframes and the validated, interpolable history that they describe.

use crate::config;
use crate::config::{MINUS_EIGHTY, P_STANDARD, FIVE, TEN, TWO_THOUSAND};
use crate::number;
use vstd::prelude::*;

verus! {

/// Environmental conditions at one instant (patterns of doubles).
#[derive(Clone, Copy, PartialEq, Eq, Structural, Debug)]
pub struct Conditions {
    /// Air temperature, degrees Celsius.
    pub temperature: u64,
    /// Excess vapour density over ice saturation, grams per cubic metre.
    pub supersaturation: u64,
    /// Air pressure, hPa.
    pub pressure: u64,
}

/// One entry of a history file (patterns of doubles).
#[derive(Clone, Copy, PartialEq, Eq, Structural, Debug)]
pub struct Keyframe {
    /// Seconds since the start of growth.
    pub time: u64,
    /// Air temperature, degrees Celsius.
    pub temperature: u64,
    /// Excess vapour density over ice saturation, grams per cubic metre.
    pub supersaturation: Option<u64>,
    /// Relative humidity with respect to liquid water, per cent.
    pub humidity: Option<u64>,
    /// Air pressure, hPa.
    pub pressure: Option<u64>,
}

/// How a keyframe gives the vapour in the air.
#[derive(Clone, Copy, PartialEq, Eq, Structural, Debug)]
pub enum Vapour {
    Supersaturation(u64),
    Humidity(u64),
}

/// Why a keyframe is refused.
#[derive(Clone, Copy, PartialEq, Eq, Structural, Debug)]
pub enum KeyframeError {
    /// Both `supersaturation` and `humidity` are given.
    TwoVapours,
    /// Neither is given.
    NoVapour,
    /// The temperature is outside the range of ice growth.
    Temperature,
    /// The pressure is out of range.
    Pressure,
}

/// Why a history is refused; keyframes are counted from zero.
#[derive(Clone, Copy, PartialEq, Eq, Structural, Debug)]
pub enum HistoryError {
    /// Fewer than two keyframes.
    TooFew,
    /// The keyframe's time is negative or not a finite number.
    InvalidTime(usize),
    /// The keyframe comes before the one listed ahead of it.
    Unsorted(usize),
    /// The keyframe's conditions are refused.
    Keyframe(usize, KeyframeError),
    /// All keyframes are at the same time.
    ZeroDuration,
}

impl HistoryError {
    /// The keyframe that is at fault, if one is by itself; -1 otherwise.
    pub open spec fn keyframe(self) -> int {
        match self {
            HistoryError::InvalidTime(i) => i as int,
            HistoryError::Unsorted(i) => i as int,
            HistoryError::Keyframe(i, _) => i as int,
            _ => -1,
        }
    }
}

impl Keyframe {
    /// How the keyframe gives the vapour, if in exactly one way.
    pub open spec fn vapour_of(self) -> Result<Vapour, KeyframeError> {
        match (self.supersaturation, self.humidity) {
            (Some(s), None) => Ok(Vapour::Supersaturation(s)),
            (None, Some(h)) => Ok(Vapour::Humidity(h)),
            (Some(_), Some(_)) => Err(KeyframeError::TwoVapours),
            (None, None) => Err(KeyframeError::NoVapour),
        }
    }

    pub open spec fn pressure_of(self) -> u64 {
        match self.pressure {
            Some(p) => p,
            None => P_STANDARD,
        }
    }

    /// The first fault of the keyframe's conditions, if any.
    pub open spec fn fault_of(self) -> Option<KeyframeError> {
        match self.vapour_of() {
            Err(e) => Some(e),
            Ok(_) => if !(number::above(self.temperature, MINUS_EIGHTY) && number::below(
                self.temperature,
                FIVE,
            )) {
                Some(KeyframeError::Temperature)
            } else if !(number::above(self.pressure_of(), TEN) && number::below(
                self.pressure_of(),
                TWO_THOUSAND,
            )) {
                Some(KeyframeError::Pressure)
            } else {
                None
            },
        }
    }

    /// How the keyframe gives the vapour in the air.
    pub fn vapour(&self) -> (v: Result<Vapour, KeyframeError>)
        ensures
            v == self.vapour_of(),
    {
        match (self.supersaturation, self.humidity) {
            (Some(s), None) => Ok(Vapour::Supersaturation(s)),
            (None, Some(h)) => Ok(Vapour::Humidity(h)),
            (Some(_), Some(_)) => Err(KeyframeError::TwoVapours),
            (None, None) => Err(KeyframeError::NoVapour),
        }
    }

    /// Conditions at the keyframe: those given, at the standard pressure unless
    /// another is given.  `converted` is the supersaturation at the keyframe's
    /// humidity, read where the humidity is given.
    pub fn conditions(&self, converted: u64) -> (c: Result<Conditions, KeyframeError>)
        ensures
            match c {
                Ok(c) => self.fault_of() is None && c == self.conditions_of(converted),
                Err(e) => self.fault_of() == Some(e),
            },
    {
        let supersaturation: u64 = match self.vapour() {
            Ok(Vapour::Supersaturation(s)) => s,
            Ok(Vapour::Humidity(_)) => converted,
            Err(e) => {
                return Err(e);
            },
        };
        if !number::is_above(self.temperature, MINUS_EIGHTY) || !number::is_below(
            self.temperature,
            FIVE,
        ) {
            return Err(KeyframeError::Temperature);
        }
        let pressure: u64 = match self.pressure {
            Some(p) => p,
            None => P_STANDARD,
        };
        if !number::is_above(pressure, TEN) || !number::is_below(pressure, TWO_THOUSAND) {
            return Err(KeyframeError::Pressure);
        }
        Ok(Conditions { temperature: self.temperature, supersaturation, pressure })
    }

    /// Conditions at the keyframe.
    pub open spec fn conditions_of(self, converted: u64) -> Conditions {
        Conditions {
            temperature: self.temperature,
            supersaturation: match self.supersaturation {
                Some(s) => s,
                None => converted,
            },
            pressure: self.pressure_of(),
        }
    }

    /// Whether the keyframe's time is a finite number and not negative.
    pub open spec fn timed(self) -> bool {
        !number::is_nan(self.time) && 0 <= number::code_of(self.time) < 0x7ff0_0000_0000_0000
    }
}

/// The conditions with sub-saturated air taken as saturated (sublimation is
/// not modelled).
pub open spec fn growable(c: Conditions) -> Conditions {
    if number::below(c.supersaturation, 0) {
        Conditions { supersaturation: 0, ..c }
    } else {
        c
    }
}

/// A keyframe is accepted exactly where it gives the vapour in one way, a
/// temperature between -80 and 5 degrees, and either no pressure or one between
/// 10 and 2000 hPa.
pub proof fn keyframes_are_accepted_in_their_ranges(k: Keyframe)
    ensures
        k.fault_of() is None <==> {
            let h = number::double_half();
            &&& k.supersaturation is Some != k.humidity is Some
            &&& !number::is_nan(k.temperature)
            &&& -160 * h < number::double(k.temperature) < 10 * h
            &&& k.pressure matches Some(p) ==> !number::is_nan(p) && 20 * h < number::double(p)
                < 4000 * h
        },
        match k.fault_of() {
            Some(KeyframeError::TwoVapours) => k.supersaturation is Some && k.humidity is Some,
            Some(KeyframeError::NoVapour) => k.supersaturation is None && k.humidity is None,
            Some(KeyframeError::Temperature) => number::is_nan(k.temperature) || number::double(
                k.temperature,
            ) <= -160 * number::double_half() || number::double(k.temperature) >= 10
                * number::double_half(),
            Some(KeyframeError::Pressure) => k.pressure is Some,
            None => true,
        },
{
    config::bounds_are_their_numbers();
    number::codes_are_ordered(k.temperature, 0xc054_0000_0000_0000u64);
    number::codes_are_ordered(k.temperature, FIVE as u64);
    if let Some(p) = k.pressure {
        number::codes_are_ordered(p, TEN as u64);
        number::codes_are_ordered(p, TWO_THOUSAND as u64);
    }
}

/// The conditions at a keyframe are those that it gives: its temperature, its
/// pressure, or 1013.25 hPa only where it gives none, and its supersaturation,
/// or what its humidity amounts to.  A history has the same there, with
/// sub-saturated air at zero.
pub proof fn conditions_are_those_given(k: Keyframe, converted: u64)
    requires
        k.fault_of() is None,
    ensures
        ({
            let c = k.conditions_of(converted);
            let g = growable(c);
            &&& c.temperature == k.temperature && g.temperature == k.temperature
            &&& k.pressure matches Some(p) ==> c.pressure == p && g.pressure == p
            &&& k.pressure is None ==> 2 * number::double(c.pressure) == 4053
                * number::double_half() && g.pressure == c.pressure
            &&& k.supersaturation matches Some(s) ==> c.supersaturation == s
            &&& k.humidity is Some ==> c.supersaturation == converted
            &&& number::is_nan(c.supersaturation) || number::double(c.supersaturation) >= 0
                ==> g.supersaturation == c.supersaturation
            &&& !number::is_nan(c.supersaturation) && number::double(c.supersaturation) < 0
                ==> number::double(g.supersaturation) == 0
        }),
{
    config::bounds_are_their_numbers();
    number::codes_are_ordered(k.conditions_of(converted).supersaturation, 0);
}

/// Whether keyframe `i` is in order by itself and after the one before it.
spec fn in_order(keyframes: Seq<Keyframe>, i: int) -> bool {
    &&& keyframes[i].timed()
    &&& i > 0 ==> number::code_of(keyframes[i - 1].time) <= number::code_of(keyframes[i].time)
    &&& keyframes[i].fault_of() is None
}

proof fn faults_are_out_of_order(keyframes: Seq<Keyframe>, m: nat)
    requires
        m <= keyframes.len() <= usize::MAX,
    ensures
        fault_among(keyframes, m) is None <==> forall|i: int|
            0 <= i < m ==> #[trigger] in_order(keyframes, i),
        fault_among(keyframes, m) matches Some(e) ==> {
            let i = e.keyframe();
            &&& 0 <= i < m
            &&& forall|k: int| 0 <= k < i ==> #[trigger] in_order(keyframes, k)
            &&& e is InvalidTime ==> !keyframes[i].timed()
            &&& e is Unsorted ==> i > 0 && number::code_of(keyframes[i].time) < number::code_of(
                keyframes[i - 1].time,
            )
            &&& e matches HistoryError::Keyframe(_, f) ==> keyframes[i].fault_of() == Some(f)
        },
    decreases m,
{
    if m > 0 {
        faults_are_out_of_order(keyframes, (m - 1) as nat);
        if fault_among(keyframes, (m - 1) as nat) is None {
            assert forall|i: int| 0 <= i < m - 1 implies #[trigger] in_order(keyframes, i) by {}
            assert(fault_among(keyframes, m) is None <==> in_order(keyframes, m - 1));
        }
    }
}

proof fn times_in_order_are_sorted(keyframes: Seq<Keyframe>, a: int, b: int)
    requires
        0 <= a <= b < keyframes.len(),
        forall|i: int| 0 <= i < keyframes.len() ==> #[trigger] in_order(keyframes, i),
    ensures
        number::code_of(keyframes[a].time) <= number::code_of(keyframes[b].time),
    decreases b - a,
{
    if a < b {
        times_in_order_are_sorted(keyframes, a, b - 1);
        assert(in_order(keyframes, b));
    }
}

/// A list of keyframes is accepted exactly where there are at least two, each is
/// accepted, their times are numbers from zero on and never fall back, and the
/// last is later than the first.
pub proof fn histories_are_accepted_in_order(keyframes: Seq<Keyframe>)
    requires
        keyframes.len() <= usize::MAX,
    ensures
        history_fault(keyframes) is None <==> {
            &&& keyframes.len() >= 2
            &&& forall|i: int|
                0 <= i < keyframes.len() ==> (#[trigger] keyframes[i]).fault_of() is None
                    && !number::is_nan(keyframes[i].time) && number::double(keyframes[i].time) >= 0
                    && number::code_of(keyframes[i].time) < 0x7ff0_0000_0000_0000
            &&& forall|i: int, j: int|
                0 <= i < j < keyframes.len() ==> number::double((#[trigger] keyframes[i]).time)
                    <= number::double((#[trigger] keyframes[j]).time)
            &&& number::double(keyframes[0].time) < number::double(keyframes.last().time)
        },
{
    faults_are_out_of_order(keyframes, keyframes.len());
    config::bounds_are_their_numbers();
    let n = keyframes.len() as int;
    assert forall|i: int, j: int| 0 <= i < n && 0 <= j < n implies (number::code_of(
        (#[trigger] keyframes[i]).time,
    ) < number::code_of((#[trigger] keyframes[j]).time) <==> number::double(keyframes[i].time)
        < number::double(keyframes[j].time)) by {
        number::codes_are_ordered(keyframes[i].time, keyframes[j].time);
    }
    assert forall|i: int| 0 <= i < n implies (0 <= number::code_of((#[trigger] keyframes[i]).time)
        <==> 0 <= number::double(keyframes[i].time)) by {
        number::codes_are_ordered(keyframes[i].time, 0);
    }
    if n >= 2 {
        if history_fault(keyframes) is None {
            assert forall|i: int| 0 <= i < n implies (#[trigger] keyframes[i]).fault_of() is None
                && keyframes[i].timed() by {
                assert(in_order(keyframes, i));
            }
            assert forall|i: int, j: int| 0 <= i < j < n implies number::double(
                (#[trigger] keyframes[i]).time,
            ) <= number::double((#[trigger] keyframes[j]).time) by {
                times_in_order_are_sorted(keyframes, i, j);
            }
            assert(keyframes[0].timed() && keyframes[n - 1].timed());
        } else if fault_among(keyframes, keyframes.len()) is Some {
            let i = choose|i: int| 0 <= i < n && !#[trigger] in_order(keyframes, i);
            let prior = keyframes[i - 1];
        }
    }
}

/// A refused history is refused for its first keyframe that is out of order: the
/// ones before it are accepted, and it has the fault that is reported.
pub proof fn the_first_fault_is_reported(keyframes: Seq<Keyframe>, e: HistoryError)
    requires
        keyframes.len() <= usize::MAX,
        history_fault(keyframes) == Some(e),
    ensures
        e is TooFew <==> keyframes.len() < 2,
        e matches HistoryError::InvalidTime(i) ==> i < keyframes.len()
            && !keyframes[i as int].timed(),
        e matches HistoryError::Unsorted(i) ==> 0 < i < keyframes.len() && number::double(
            keyframes[i as int].time,
        ) < number::double(keyframes[i - 1].time),
        e matches HistoryError::Keyframe(i, f) ==> i < keyframes.len()
            && keyframes[i as int].fault_of() == Some(f),
        forall|k: int|
            0 <= k < e.keyframe() ==> (#[trigger] keyframes[k]).timed() && keyframes[k].fault_of() is None,
{
    faults_are_out_of_order(keyframes, keyframes.len());
    if let HistoryError::Unsorted(i) = e {
        number::codes_are_ordered(keyframes[i as int].time, keyframes[i - 1].time);
    }
    assert forall|k: int| 0 <= k < e.keyframe() implies (#[trigger] keyframes[k]).timed()
        && keyframes[k].fault_of() is None by {
        assert(in_order(keyframes, k));
    }
}

/// The first fault among the first `m` keyframes, if any.
pub open spec fn fault_among(keyframes: Seq<Keyframe>, m: nat) -> Option<HistoryError>
    decreases m,
{
    if m == 0 {
        None
    } else {
        let i = m - 1;
        let k = keyframes[i];
        match fault_among(keyframes, i as nat) {
            Some(e) => Some(e),
            None => if !k.timed() {
                Some(HistoryError::InvalidTime(i as usize))
            } else if i > 0 && number::code_of(k.time) < number::code_of(keyframes[i - 1].time) {
                Some(HistoryError::Unsorted(i as usize))
            } else {
                match k.fault_of() {
                    Some(e) => Some(HistoryError::Keyframe(i as usize, e)),
                    None => None,
                }
            },
        }
    }
}

/// The first fault of a list of keyframes, if any.
pub open spec fn history_fault(keyframes: Seq<Keyframe>) -> Option<HistoryError> {
    let n = keyframes.len();
    if n < 2 {
        Some(HistoryError::TooFew)
    } else {
        match fault_among(keyframes, n) {
            Some(e) => Some(e),
            None => if number::code_of(keyframes[n - 1].time) > number::code_of(keyframes[0].time) {
                None
            } else {
                Some(HistoryError::ZeroDuration)
            },
        }
    }
}

/// A validated, interpolable environmental history.  Times are order codes of
/// doubles.
pub struct History {
    pub times: Vec<i64>,
    pub conditions: Vec<Conditions>,
    /// Keyframes whose air is sub-saturated, and taken as saturated.
    pub dry: Vec<usize>,
}

/// Where a time lies in a history.
#[derive(Clone, Copy, PartialEq, Eq, Structural, Debug)]
pub enum Moment {
    /// At the first keyframe or before it, or at the last one or after it.
    At(usize),
    /// After the keyframe before this one, and before this one.
    Before(usize),
}

impl History {
    /// Whether the history has at least two keyframes, in order, from one time
    /// to a later one.
    pub open spec fn wf(self) -> bool {
        &&& self.times@.len() >= 2
        &&& self.conditions@.len() == self.times@.len()
        &&& forall|i: int, j: int| 0 <= i <= j < self.times@.len() ==> self.times@[i] <= self.times@[j]
        &&& self.times@[0] < self.times@[self.times@.len() - 1]
        &&& self.times@[0] >= 0
        &&& self.times@[self.times@.len() - 1] < 0x7ff0_0000_0000_0000
    }

    /// Whether this is the history that keyframes describe.
    pub open spec fn made_of(self, keyframes: Seq<Keyframe>, converted: Seq<u64>) -> bool {
        &&& self.times@.len() == keyframes.len()
        &&& self.conditions@.len() == keyframes.len()
        &&& forall|i: int|
            0 <= i < keyframes.len() ==> #[trigger] self.times@[i] == number::code_of(
                keyframes[i].time,
            )
        &&& forall|i: int|
            0 <= i < keyframes.len() ==> #[trigger] self.conditions@[i] == growable(
                keyframes[i].conditions_of(converted[i]),
            )
        &&& forall|i: usize|
            #[trigger] self.dry@.contains(i) <==> i < keyframes.len() && number::below(
                keyframes[i as int].conditions_of(converted[i as int]).supersaturation,
                0,
            )
    }

    /// A history keeps its keyframes, in their order: each one's time, temperature
    /// and pressure, the latter 1013.25 hPa only where none is given, and its
    /// supersaturation, or what its humidity amounts to, with less than none taken
    /// as none.  The keyframes with less than none are the dry ones.
    pub proof fn histories_keep_their_keyframes(
        self,
        keyframes: Seq<Keyframe>,
        converted: Seq<u64>,
        i: int,
        j: int,
    )
        requires
            self.made_of(keyframes, converted),
            history_fault(keyframes) is None,
            keyframes.len() <= usize::MAX,
            0 <= i < keyframes.len(),
            0 <= j < keyframes.len(),
        ensures
            ({
                let (k, c) = (keyframes[i], self.conditions@[i]);
                let given = match k.supersaturation {
                    Some(s) => s,
                    None => converted[i],
                };
                &&& c.temperature == k.temperature
                &&& k.pressure matches Some(p) ==> c.pressure == p
                &&& k.pressure is None ==> 2 * number::double(c.pressure) == 4053
                    * number::double_half()
                &&& self.dry@.contains(i as usize) <==> !number::is_nan(given) && number::double(
                    given,
                ) < 0
                &&& self.dry@.contains(i as usize) ==> number::double(c.supersaturation) == 0
                &&& !self.dry@.contains(i as usize) ==> c.supersaturation == given
                &&& self.times@[i] < self.times@[j] <==> number::double(k.time) < number::double(
                    keyframes[j].time,
                )
            }),
    {
        histories_are_accepted_in_order(keyframes);
        config::bounds_are_their_numbers();
        let (k, l) = (keyframes[i], keyframes[j]);
        assert(k.fault_of() is None);
        assert(self.conditions@[i] == growable(k.conditions_of(converted[i])));
        keyframes_are_accepted_in_their_ranges(k);
        conditions_are_those_given(k, converted[i]);
        number::codes_are_ordered(k.conditions_of(converted[i]).supersaturation, 0);
        number::codes_are_ordered(k.time, l.time);
        assert(self.times@[i] == number::code_of(k.time));
        assert(self.times@[j] == number::code_of(l.time));
    }

    /// A moment brackets its time: it is at an end of the history only at that end
    /// or past it, and elsewhere between two keyframes next to each other, the first
    /// no later and the second later than the time.
    pub proof fn moments_bracket_their_time(self, t: i64, moment: Moment)
        requires
            self.wf(),
            self.is_moment(t, moment),
        ensures
            match moment {
                Moment::At(i) => (i == 0 && t <= self.times@[0]) || (i == self.times@.len() - 1 && t
                    >= self.times@[i as int]),
                Moment::Before(i) => 1 <= i < self.times@.len() && self.times@[i - 1] <= t
                    < self.times@[i as int],
            },
            moment is At <==> t <= self.times@[0] || t >= self.times@[self.times@.len() - 1],
    {
    }

    /// Build a history from keyframes.  `converted` holds, for each keyframe
    /// that gives a humidity, the supersaturation that this means.
    pub fn from_keyframes(keyframes: &Vec<Keyframe>, converted: &Vec<u64>) -> (history: Result<
        History,
        HistoryError,
    >)
        requires
            converted@.len() == keyframes@.len(),
        ensures
            match history {
                Ok(h) => history_fault(keyframes@) is None && h.wf() && h.made_of(
                    keyframes@,
                    converted@,
                ) && h.times@.len() == keyframes@.len() && (forall|i: int|
                    0 <= i < keyframes@.len() ==> #[trigger] h.times@[i] == number::code_of(
                        keyframes@[i].time,
                    )) && (forall|i: int|
                    0 <= i < keyframes@.len() ==> #[trigger] h.conditions@[i] == growable(
                        keyframes@[i].conditions_of(converted@[i]),
                    )) && (forall|i: usize|
                    #[trigger] h.dry@.contains(i) <==> i < keyframes@.len() && number::below(
                        keyframes@[i as int].conditions_of(converted@[i as int]).supersaturation,
                        0,
                    )) && (forall|a: int, b: int|
                    0 <= a < b < h.dry@.len() ==> h.dry@[a] < h.dry@[b]),
                Err(e) => history_fault(keyframes@) == Some(e),
            },
    {
        if keyframes.len() < 2 {
            return Err(HistoryError::TooFew);
        }
        let mut times: Vec<i64> = Vec::new();
        let mut conditions: Vec<Conditions> = Vec::new();
        let mut dry: Vec<usize> = Vec::new();
        let mut i: usize = 0;
        while i < keyframes.len()
            invariant
                keyframes@.len() >= 2,
                converted@.len() == keyframes@.len(),
                i <= keyframes@.len(),
                fault_among(keyframes@, i as nat) is None,
                times@.len() == i,
                conditions@.len() == i,
                forall|k: int|
                    0 <= k < i ==> #[trigger] times@[k] == number::code_of(keyframes@[k].time),
                forall|k: int| 0 <= k < i ==> 0 <= #[trigger] times@[k] < 0x7ff0_0000_0000_0000,
                forall|a: int, b: int| 0 <= a <= b < i ==> times@[a] <= times@[b],
                forall|k: int|
                    0 <= k < i ==> #[trigger] conditions@[k] == growable(
                        keyframes@[k].conditions_of(converted@[k]),
                    ),
                forall|k: usize|
                    #[trigger] dry@.contains(k) <==> k < i && number::below(
                        keyframes@[k as int].conditions_of(converted@[k as int]).supersaturation,
                        0,
                    ),
                forall|a: int| 0 <= a < dry@.len() ==> #[trigger] dry@[a] < i,
                forall|a: int, b: int| 0 <= a < b < dry@.len() ==> dry@[a] < dry@[b],
            decreases keyframes@.len() - i,
        {
            let k: Keyframe = keyframes[i];
            let time: i64 = match number::order_code(k.time) {
                Some(c) => c,
                None => {
                    proof {
                        fault_stays(keyframes@, (i + 1) as nat, keyframes@.len());
                    }
                    return Err(HistoryError::InvalidTime(i));
                },
            };
            if time < 0 || time >= 0x7ff0_0000_0000_0000 {
                proof {
                    fault_stays(keyframes@, (i + 1) as nat, keyframes@.len());
                }
                return Err(HistoryError::InvalidTime(i));
            }
            if i > 0 && time < times[i - 1] {
                proof {
                    fault_stays(keyframes@, (i + 1) as nat, keyframes@.len());
                }
                return Err(HistoryError::Unsorted(i));
            }
            let c: Conditions = match k.conditions(converted[i]) {
                Ok(c) => c,
                Err(e) => {
                    proof {
                        fault_stays(keyframes@, (i + 1) as nat, keyframes@.len());
                    }
                    return Err(HistoryError::Keyframe(i, e));
                },
            };
            times.push(time);
            let ghost prior = dry@;
            if number::is_below(c.supersaturation, 0) {
                conditions.push(
                    Conditions {
                        temperature: c.temperature,
                        supersaturation: 0,
                        pressure: c.pressure,
                    },
                );
                dry.push(i);
                proof {
                    assert forall|k: usize| #[trigger] dry@.contains(k) <==> k < i + 1
                        && number::below(
                        keyframes@[k as int].conditions_of(converted@[k as int]).supersaturation,
                        0,
                    ) by {
                        assert(dry@[prior.len() as int] == i);
                        if prior.contains(k) {
                            let p = choose|p: int| 0 <= p < prior.len() && prior[p] == k;
                            assert(dry@[p] == k);
                        }
                        if dry@.contains(k) && k != i {
                            let p = choose|p: int| 0 <= p < dry@.len() && dry@[p] == k;
                            assert(prior[p] == k);
                        }
                    }
                }
            } else {
                conditions.push(c);
            }
            i = i + 1;
        }
        if !(times[times.len() - 1] > times[0]) {
            return Err(HistoryError::ZeroDuration);
        }
        Ok(History { times, conditions, dry })
    }

    /// Start of the history.
    pub fn start(&self) -> (t: i64)
        requires
            self.wf(),
        ensures
            t == self.times@[0],
    {
        self.times[0]
    }

    /// End of the history.
    pub fn end(&self) -> (t: i64)
        requires
            self.wf(),
        ensures
            t == self.times@[self.times@.len() - 1],
    {
        self.times[self.times.len() - 1]
    }

    /// The keyframes, in order.
    pub fn keyframes(&self) -> (frames: Vec<(i64, Conditions)>)
        requires
            self.wf(),
        ensures
            frames@.len() == self.times@.len(),
            forall|i: int|
                0 <= i < frames@.len() ==> #[trigger] frames@[i] == (
                    self.times@[i],
                    self.conditions@[i],
                ),
    {
        let mut frames: Vec<(i64, Conditions)> = Vec::new();
        let mut i: usize = 0;
        while i < self.times.len()
            invariant
                self.wf(),
                i <= self.times@.len(),
                frames@.len() == i,
                forall|k: int|
                    0 <= k < i ==> #[trigger] frames@[k] == (self.times@[k], self.conditions@[k]),
            decreases self.times@.len() - i,
        {
            frames.push((self.times[i], self.conditions[i]));
            i = i + 1;
        }
        frames
    }

    /// Where time `t` lies: clamped to the history's span, else in the segment
    /// that ends at the first keyframe after it.
    pub open spec fn is_moment(self, t: i64, moment: Moment) -> bool {
        let last = self.times@.len() - 1;
        match moment {
            Moment::At(i) => (t <= self.times@[0] && i == 0) || (t > self.times@[0] && t
                >= self.times@[last] && i == last),
            Moment::Before(i) => 0 < i <= last && self.times@[0] < t < self.times@[last]
                && self.times@[i - 1] <= t < self.times@[i as int],
        }
    }

    /// Where time `t` lies in the history.
    pub fn at(&self, t: i64) -> (moment: Moment)
        requires
            self.wf(),
        ensures
            self.is_moment(t, moment),
    {
        if t <= self.start() {
            return Moment::At(0);
        }
        if t >= self.end() {
            return Moment::At(self.times.len() - 1);
        }
        let mut lo: usize = 0;
        let mut hi: usize = self.times.len() - 1;
        while hi - lo > 1
            invariant
                self.wf(),
                lo < hi < self.times@.len(),
                self.times@[lo as int] <= t < self.times@[hi as int],
            decreases hi - lo,
        {
            let mid: usize = lo + (hi - lo) / 2;
            if self.times[mid] <= t {
                lo = mid;
            } else {
                hi = mid;
            }
        }
        Moment::Before(hi)
    }

    /// A time lies in one place of the history only.
    pub proof fn moments_are_unique(self, t: i64, a: Moment, b: Moment)
        requires
            self.wf(),
            self.is_moment(t, a),
            self.is_moment(t, b),
        ensures
            a == b,
    {
        match (a, b) {
            (Moment::Before(i), Moment::Before(j)) => {
                if i < j {
                    assert(self.times@[i as int] <= self.times@[j - 1]);
                } else if j < i {
                    assert(self.times@[j as int] <= self.times@[i - 1]);
                }
            },
            _ => {},
        }
    }

    /// Outside the history's span the conditions are those of its ends, and
    /// where two keyframes share a time inside it, the later one holds from
    /// then on.
    pub proof fn history_is_clamped_and_steps(self, t: i64, moment: Moment, i: int)
        requires
            self.wf(),
            self.is_moment(t, moment),
            0 <= i < self.times@.len() - 1,
        ensures
            t <= self.times@[0] ==> moment == Moment::At(0),
            t >= self.times@[self.times@.len() - 1] ==> moment == Moment::At(
                (self.times@.len() - 1) as usize,
            ),
            self.times@[0] < t < self.times@[self.times@.len() - 1] && t == self.times@[i]
                ==> moment is Before && moment->Before_0 > i,
    {
        if let Moment::Before(j) = moment {
            if t == self.times@[i] && j <= i {
                assert(self.times@[j as int] <= self.times@[i]);
            }
        }
    }
}

proof fn fault_stays(keyframes: Seq<Keyframe>, m: nat, n: nat)
    requires
        m <= n,
        fault_among(keyframes, m) is Some,
    ensures
        fault_among(keyframes, n) == fault_among(keyframes, m),
    decreases n,
{
    if m < n {
        fault_stays(keyframes, m, (n - 1) as nat);
    }
}

} // verus!
