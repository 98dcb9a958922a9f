//! The static road network: lanes, turns and intersections.
//!
//! The map is built once by the caller and never mutated by the simulation.
//! The core consumes lane and turn topology, lane kinds, parking capacity
//! and the conflict relation between turns; it never computes routes.

use vstd::prelude::*;

use crate::types::{IntersectionID, LaneID, Traversable, TurnID, MAX_DIST, SPOT_LENGTH};

verus! {

/// What a lane is for. Cars drive on driving lanes, cars park on parking
/// lanes, pedestrians walk on sidewalks.
#[derive(Clone, Copy, PartialEq, Eq, Structural, Debug)]
pub enum LaneType {
    Driving,
    Parking,
    Sidewalk,
}

#[derive(Clone, Copy, PartialEq, Eq, Structural, Debug)]
pub struct Lane {
    pub lane_type: LaneType,
    /// Length in centimeters.
    pub length: u64,
    /// Number of parking spots on this lane; zero unless it is a parking lane.
    pub spots: usize,
}

/// A connector between two lanes through an intersection.
#[derive(Clone, Copy, PartialEq, Eq, Structural, Debug)]
pub struct Turn {
    pub src: LaneID,
    pub dst: LaneID,
    pub parent: IntersectionID,
    /// Length in centimeters.
    pub length: u64,
}

/// One phase of a traffic signal: the turns that may proceed while the
/// phase is active.
pub struct Phase {
    pub turns: Vec<TurnID>,
}

/// A cyclic signal schedule: phases take turns, each active for the same
/// number of ticks.
pub struct SignalTiming {
    pub phases: Vec<Phase>,
    /// Ticks each phase stays active; the cycle then wraps around.
    pub phase_duration: u64,
}

/// How an intersection decides which turns may proceed.
pub enum ControlType {
    /// First come, first served among non-conflicting turns.
    StopSign,
    /// Only turns in the currently active phase may proceed.
    Signal(SignalTiming),
    /// Free passage whenever no conflicting turn is already granted.
    Uncontrolled,
}

pub struct Intersection {
    pub control: ControlType,
}

pub struct RoadMap {
    pub lanes: Vec<Lane>,
    pub turns: Vec<Turn>,
    pub intersections: Vec<Intersection>,
    /// Symmetric, irreflexive conflict relation: each pair of turns that
    /// share geometry and must never be granted at the same time.
    pub conflicts: Vec<(TurnID, TurnID)>,
}

impl RoadMap {
    pub open spec fn valid_lane(self, l: LaneID) -> bool {
        l.id < self.lanes.len()
    }

    pub open spec fn valid_turn(self, t: TurnID) -> bool {
        t.id < self.turns.len()
    }

    pub open spec fn valid_intersection(self, i: IntersectionID) -> bool {
        i.id < self.intersections.len()
    }

    pub open spec fn valid_traversable(self, on: Traversable) -> bool {
        match on {
            Traversable::Lane(l) => self.valid_lane(l),
            Traversable::Turn(t) => self.valid_turn(t),
        }
    }

    /// Length of a lane or turn, in centimeters.
    pub open spec fn spec_length_of(self, on: Traversable) -> u64 {
        match on {
            Traversable::Lane(l) => self.lanes[l.id as int].length,
            Traversable::Turn(t) => self.turns[t.id as int].length,
        }
    }

    /// A well-formed map: every cross-reference is in bounds, every length
    /// is positive and bounded, parking spots fit on their lane, and the
    /// conflict relation never pits a turn against itself.
    pub open spec fn wf(self) -> bool {
        &&& forall|i: int| 0 <= i < self.lanes.len() ==> {
            &&& 0 < (#[trigger] self.lanes[i]).length <= MAX_DIST
            &&& self.lanes[i].spots * SPOT_LENGTH <= self.lanes[i].length
            &&& self.lanes[i].spots <= 0x1000
        }
        &&& forall|i: int| 0 <= i < self.turns.len() ==> {
            &&& 0 < (#[trigger] self.turns[i]).length <= MAX_DIST
            &&& self.valid_lane(self.turns[i].src)
            &&& self.valid_lane(self.turns[i].dst)
            &&& self.valid_intersection(self.turns[i].parent)
        }
        &&& forall|i: int| 0 <= i < self.conflicts.len() ==> {
            &&& self.valid_turn((#[trigger] self.conflicts[i]).0)
            &&& self.valid_turn(self.conflicts[i].1)
            &&& self.conflicts[i].0 != self.conflicts[i].1
        }
        &&& forall|i: int|
            0 <= i < self.intersections.len() ==> match (#[trigger] self.intersections[i]).control {
                ControlType::Signal(s) => s.phases.len() > 0 && s.phase_duration > 0,
                _ => true,
            }
    }

    /// Index of the signal phase active at the given time; meaningful only
    /// for an intersection under signal control.
    pub open spec fn active_phase(self, i: IntersectionID, time: u64) -> int {
        match self.intersections[i.id as int].control {
            ControlType::Signal(s) => ((time as int) / (s.phase_duration as int)) % (
            s.phases.len() as int),
            _ => 0,
        }
    }

    /// Whether the signal's currently active phase lists the turn.
    pub open spec fn in_active_phase(self, i: IntersectionID, t: TurnID, time: u64) -> bool {
        match self.intersections[i.id as int].control {
            ControlType::Signal(s) => {
                let p = s.phases[self.active_phase(i, time)];
                exists|k: int| 0 <= k < p.turns.len() && p.turns[k] == t
            },
            _ => true,
        }
    }

    /// Two turns conflict when the map lists them together, in either order.
    pub open spec fn turns_conflict(self, a: TurnID, b: TurnID) -> bool {
        exists|i: int|
            0 <= i < self.conflicts.len() && ((#[trigger] self.conflicts[i]) == (a, b)
                || self.conflicts[i] == (b, a))
    }

    pub fn length_of(&self, on: Traversable) -> (r: u64)
        requires
            self.valid_traversable(on),
        ensures
            r == self.spec_length_of(on),
    {
        match on {
            Traversable::Lane(l) => self.lanes[l.id].length,
            Traversable::Turn(t) => self.turns[t.id].length,
        }
    }

    pub fn get_lane(&self, l: LaneID) -> (r: &Lane)
        requires
            self.valid_lane(l),
        ensures
            *r == self.lanes[l.id as int],
    {
        &self.lanes[l.id]
    }

    pub fn get_turn(&self, t: TurnID) -> (r: &Turn)
        requires
            self.valid_turn(t),
        ensures
            *r == self.turns[t.id as int],
    {
        &self.turns[t.id]
    }

    pub fn get_intersection(&self, i: IntersectionID) -> (r: &Intersection)
        requires
            self.valid_intersection(i),
        ensures
            *r == self.intersections[i.id as int],
    {
        &self.intersections[i.id]
    }

    /// Decides whether the turn may proceed as far as signal timing goes:
    /// always, except under a signal whose active phase omits the turn.
    #[verifier::loop_isolation(false)]
    pub fn turn_in_active_phase(&self, i: IntersectionID, t: TurnID, time: u64) -> (r: bool)
        requires
            self.wf(),
            self.valid_intersection(i),
        ensures
            r == self.in_active_phase(i, t, time),
    {
        match &self.intersections[i.id].control {
            ControlType::Signal(s) => {
                let phase_idx = ((time / s.phase_duration) % (s.phases.len() as u64)) as usize;
                proof {
                    assert(phase_idx == self.active_phase(i, time));
                }
                let p = &s.phases[phase_idx];
                let mut k: usize = 0;
                while k < p.turns.len()
                    invariant
                        k <= p.turns.len(),
                        forall|j: int| 0 <= j < k ==> (#[trigger] p.turns[j]) != t,
                    decreases p.turns.len() - k,
                {
                    if p.turns[k] == t {
                        proof {
                            assert(s.phases[self.active_phase(i, time)].turns[k as int] == t);
                        }
                        return true;
                    }
                    k = k + 1;
                }
                false
            },
            _ => true,
        }
    }

    /// Decides the conflict relation by scanning the map's conflict table.
    pub fn conflict(&self, a: TurnID, b: TurnID) -> (r: bool)
        ensures
            r == self.turns_conflict(a, b),
    {
        let mut i: usize = 0;
        while i < self.conflicts.len()
            invariant
                i <= self.conflicts.len(),
                forall|j: int|
                    0 <= j < i ==> (#[trigger] self.conflicts[j]) != (a, b) && self.conflicts[j]
                        != (b, a),
            decreases self.conflicts.len() - i,
        {
            let (x, y) = self.conflicts[i];
            if (x == a && y == b) || (x == b && y == a) {
                return true;
            }
            i = i + 1;
        }
        false
    }
}

} // verus!
