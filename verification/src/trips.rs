//! The trip tracker: each trip is an ordered sequence of legs, and its
//! state machine moves from leg to leg until it is done, or aborts.
//!
//! Between a completed leg and the start of the next one a trip sits in a
//! mode change: it exists, but no agent currently carries it, and queries
//! must not treat that window as an error.

use vstd::prelude::*;

use crate::driving::CarGoal;
use crate::types::{AgentID, ParkedCar, PedestrianID, Traversable, TripID, Vehicle};

verus! {

/// One contiguous leg of a trip.
pub enum TripLeg {
    /// Drive this vehicle along the path, pulling out of a spot first if
    /// one is named, and park or stop at the end.
    Drive {
        vehicle: Vehicle,
        path: Vec<Traversable>,
        start_dist: u64,
        end_dist: u64,
        goal: CarGoal,
        unpark: Option<ParkedCar>,
    },
    /// Walk along the path to the final sidewalk spot.
    Walk { ped: PedestrianID, path: Vec<Traversable>, start_dist: u64, end_dist: u64 },
}

impl TripLeg {
    /// The agent that carries the trip during this leg.
    pub open spec fn agent(self) -> AgentID {
        match self {
            TripLeg::Drive { vehicle, .. } => AgentID::Car(vehicle.id),
            TripLeg::Walk { ped, .. } => AgentID::Pedestrian(ped),
        }
    }
}

/// The lifecycle of one trip.
#[derive(Clone, Copy, PartialEq, Eq, Structural, Debug)]
pub enum TripState {
    /// An agent is underway on the given leg.
    InProgress { leg: usize },
    /// The previous leg finished; the next one has not started yet.
    ModeChange { next_leg: usize },
    Done,
    Aborted,
}

/// The trip state after one leg-completion report: underway moves to the
/// mode change before the next leg, or to done after the last one;
/// anything else is unchanged.
pub open spec fn after_leg_done(s: TripState, nlegs: int) -> TripState {
    match s {
        TripState::InProgress { leg } => if leg + 1 < nlegs {
            TripState::ModeChange { next_leg: (leg + 1) as usize }
        } else {
            TripState::Done
        },
        _ => s,
    }
}

pub struct Trip {
    pub id: TripID,
    pub legs: Vec<TripLeg>,
    pub state: TripState,
}

/// What a trip-to-agent query can answer. A mode change is not an error:
/// the trip exists while its agent handle is being swapped.
#[derive(Clone, Copy, PartialEq, Eq, Structural, Debug)]
pub enum TripResult {
    /// The trip is underway and this agent carries it.
    Agent(AgentID),
    ModeChange,
    TripDone,
    TripDoesntExist,
}

pub struct TripManager {
    /// Trip `i` lives at index `i`.
    pub trips: Vec<Trip>,
}

impl TripManager {
    pub open spec fn wf(self) -> bool {
        forall|i: int|
            0 <= i < self.trips.len() ==> {
                &&& (#[trigger] self.trips[i]).id.id == i
                &&& self.trips[i].legs.len() > 0
                &&& match self.trips[i].state {
                    TripState::InProgress { leg } => leg < self.trips[i].legs.len(),
                    TripState::ModeChange { next_leg } => next_leg < self.trips[i].legs.len(),
                    _ => true,
                }
            }
    }

    pub open spec fn valid_trip(self, t: TripID) -> bool {
        t.id < self.trips.len()
    }

    pub open spec fn state_of(self, t: TripID) -> TripState {
        self.trips[t.id as int].state
    }

    /// What `trip_to_agent` answers, as a function of the trip state.
    pub open spec fn spec_trip_to_agent(self, t: TripID) -> TripResult {
        if !self.valid_trip(t) {
            TripResult::TripDoesntExist
        } else {
            match self.state_of(t) {
                TripState::InProgress { leg } => TripResult::Agent(
                    self.trips[t.id as int].legs[leg as int].agent(),
                ),
                TripState::ModeChange { .. } => TripResult::ModeChange,
                TripState::Done => TripResult::TripDone,
                TripState::Aborted => TripResult::TripDone,
            }
        }
    }

    pub fn new() -> (r: TripManager)
        ensures
            r.wf(),
            r.trips@.len() == 0,
    {
        TripManager { trips: Vec::new() }
    }

    /// Registers a trip with its precomputed legs; the first leg counts as
    /// underway at once.
    pub fn new_trip(&mut self, legs: Vec<TripLeg>) -> (t: TripID)
        requires
            old(self).wf(),
            legs.len() > 0,
        ensures
            final(self).wf(),
            t.id == old(self).trips.len(),
            final(self).trips.len() == old(self).trips.len() + 1,
            forall|i: int|
                0 <= i < old(self).trips.len() ==> (#[trigger] final(self).trips[i]) == old(
                    self,
                ).trips[i],
            final(self).state_of(t) == (TripState::InProgress { leg: 0 }),
    {
        let t = TripID { id: self.trips.len() };
        self.trips.push(Trip { id: t, legs, state: TripState::InProgress { leg: 0 } });
        t
    }

    /// Which trip an agent is currently carrying, if any.
    #[verifier::loop_isolation(false)]
    pub fn agent_to_trip(&self, a: AgentID) -> (r: Option<TripID>)
        requires
            self.wf(),
        ensures
            match r {
                Some(t) => self.valid_trip(t) && match self.state_of(t) {
                    TripState::InProgress { leg } => self.trips[t.id as int].legs[leg as int].agent()
                        == a,
                    _ => false,
                },
                None => forall|i: int|
                    0 <= i < self.trips.len() ==> match (#[trigger] self.trips[i]).state {
                        TripState::InProgress { leg } => self.trips[i].legs[leg as int].agent() != a,
                        _ => true,
                    },
            },
    {
        let mut i: usize = 0;
        while i < self.trips.len()
            invariant
                i <= self.trips.len(),
                forall|j: int|
                    0 <= j < i ==> match (#[trigger] self.trips[j]).state {
                        TripState::InProgress { leg } => self.trips[j].legs[leg as int].agent() != a,
                        _ => true,
                    },
            decreases self.trips.len() - i,
        {
            let tr = &self.trips[i];
            if let TripState::InProgress { leg } = tr.state {
                let is_it = match &tr.legs[leg] {
                    TripLeg::Drive { vehicle, .. } => a == AgentID::Car(vehicle.id),
                    TripLeg::Walk { ped, .. } => a == AgentID::Pedestrian(*ped),
                };
                if is_it {
                    return Some(tr.id);
                }
            }
            i = i + 1;
        }
        None
    }

    /// The current agent of a trip, a mode change, or the end states.
    pub fn trip_to_agent(&self, t: TripID) -> (r: TripResult)
        requires
            self.wf(),
        ensures
            r == self.spec_trip_to_agent(t),
    {
        if t.id >= self.trips.len() {
            return TripResult::TripDoesntExist;
        }
        let tr = &self.trips[t.id];
        match tr.state {
            TripState::InProgress { leg } => {
                let a = match &tr.legs[leg] {
                    TripLeg::Drive { vehicle, .. } => AgentID::Car(vehicle.id),
                    TripLeg::Walk { ped, .. } => AgentID::Pedestrian(*ped),
                };
                TripResult::Agent(a)
            },
            TripState::ModeChange { .. } => TripResult::ModeChange,
            TripState::Done => TripResult::TripDone,
            TripState::Aborted => TripResult::TripDone,
        }
    }

    /// The leg underway has finished: move to a mode change before the
    /// next leg, or to done after the last one. Anything but a trip in
    /// progress is left untouched.
    pub fn leg_done(&mut self, t: TripID)
        requires
            old(self).wf(),
        ensures
            final(self).wf(),
            final(self).trips.len() == old(self).trips.len(),
            forall|i: int|
                0 <= i < final(self).trips.len() && i != t.id as int ==> (
                #[trigger] final(self).trips[i]) == old(self).trips[i],
            old(self).valid_trip(t) ==> {
                &&& final(self).trips[t.id as int].legs == old(self).trips[t.id as int].legs
                &&& final(self).trips[t.id as int].id == old(self).trips[t.id as int].id
                &&& final(self).state_of(t) == match old(self).state_of(t) {
                    TripState::InProgress { leg } => if leg + 1 < old(
                        self,
                    ).trips[t.id as int].legs.len() {
                        TripState::ModeChange { next_leg: (leg + 1) as usize }
                    } else {
                        TripState::Done
                    },
                    s => s,
                }
            },
            !old(self).valid_trip(t) ==> final(self).trips@ == old(self).trips@,
    {
        if t.id >= self.trips.len() {
            return;
        }
        let n_legs = self.trips[t.id].legs.len();
        match self.trips[t.id].state {
            TripState::InProgress { leg } => {
                if leg + 1 < n_legs {
                    self.trips[t.id].state = TripState::ModeChange { next_leg: leg + 1 };
                } else {
                    self.trips[t.id].state = TripState::Done;
                }
            },
            _ => {},
        }
    }

    /// Reports every trip of the list as having completed its current
    /// leg, in order. Each listed trip ends up exactly one
    /// `after_leg_done` step further; reporting a trip twice leaves it
    /// where the first report put it, and everything unlisted is
    /// untouched.
    #[verifier::loop_isolation(false)]
    pub fn legs_done(&mut self, done: &Vec<TripID>)
        requires
            old(self).wf(),
        ensures
            final(self).wf(),
            final(self).trips.len() == old(self).trips.len(),
            forall|t: int|
                0 <= t < final(self).trips.len() ==> {
                    &&& (#[trigger] final(self).trips[t]).legs == old(self).trips[t].legs
                    &&& final(self).trips[t].id == old(self).trips[t].id
                    &&& final(self).trips[t].state == (if exists|k: int|
                        0 <= k < done.len() && (#[trigger] done@[k]).id as int == t {
                        after_leg_done(
                            old(self).trips[t].state,
                            old(self).trips[t].legs.len() as int,
                        )
                    } else {
                        old(self).trips[t].state
                    })
                },
    {
        let mut i: usize = 0;
        while i < done.len()
            invariant
                i <= done.len(),
                self.wf(),
                self.trips.len() == old(self).trips.len(),
                forall|t: int|
                    0 <= t < self.trips.len() ==> {
                        &&& (#[trigger] self.trips[t]).legs == old(self).trips[t].legs
                        &&& self.trips[t].id == old(self).trips[t].id
                        &&& self.trips[t].state == (if exists|k: int|
                            0 <= k < i && (#[trigger] done@[k]).id as int == t {
                            after_leg_done(
                                old(self).trips[t].state,
                                old(self).trips[t].legs.len() as int,
                            )
                        } else {
                            old(self).trips[t].state
                        })
                    },
            decreases done.len() - i,
        {
            let ghost t_pre = *self;
            self.leg_done(done[i]);
            proof {
                let t0 = done@[i as int];
                assert forall|t: int| 0 <= t < self.trips.len() implies {
                    &&& (#[trigger] self.trips[t]).legs == old(self).trips[t].legs
                    &&& self.trips[t].id == old(self).trips[t].id
                    &&& self.trips[t].state == (if exists|k: int|
                        0 <= k < i + 1 && (#[trigger] done@[k]).id as int == t {
                        after_leg_done(
                            old(self).trips[t].state,
                            old(self).trips[t].legs.len() as int,
                        )
                    } else {
                        old(self).trips[t].state
                    })
                } by {
                    if t != t0.id as int {
                        assert(self.trips[t] == t_pre.trips[t]);
                        assert forall|k: int|
                            0 <= k < i + 1 && (#[trigger] done@[k]).id as int == t implies k
                            < i by {}
                    } else {
                        assert(done@[i as int].id as int == t);
                    }
                }
            }
            i = i + 1;
        }
    }

    /// Reports two batches of completed legs, one after the other. Each
    /// trip listed in either batch ends up exactly one `after_leg_done`
    /// step further, however often it is listed; everything unlisted is
    /// untouched.
    pub fn legs_done_both(&mut self, a: &Vec<TripID>, b: &Vec<TripID>)
        requires
            old(self).wf(),
        ensures
            final(self).wf(),
            final(self).trips.len() == old(self).trips.len(),
            forall|t: int|
                0 <= t < final(self).trips.len() ==> {
                    &&& (#[trigger] final(self).trips[t]).legs == old(self).trips[t].legs
                    &&& final(self).trips[t].id == old(self).trips[t].id
                    &&& final(self).trips[t].state == (if (exists|k: int|
                        0 <= k < a.len() && (#[trigger] a@[k]).id as int == t) || (exists|k: int|
                        0 <= k < b.len() && (#[trigger] b@[k]).id as int == t) {
                        after_leg_done(
                            old(self).trips[t].state,
                            old(self).trips[t].legs.len() as int,
                        )
                    } else {
                        old(self).trips[t].state
                    })
                },
    {
        let ghost s0 = *self;
        self.legs_done(a);
        let ghost s1 = *self;
        self.legs_done(b);
        proof {
            assert forall|t: int| 0 <= t < self.trips.len() implies {
                &&& (#[trigger] self.trips[t]).legs == s0.trips[t].legs
                &&& self.trips[t].id == s0.trips[t].id
                &&& self.trips[t].state == (if (exists|k: int|
                    0 <= k < a.len() && (#[trigger] a@[k]).id as int == t) || (exists|k: int|
                    0 <= k < b.len() && (#[trigger] b@[k]).id as int == t) {
                    after_leg_done(s0.trips[t].state, s0.trips[t].legs.len() as int)
                } else {
                    s0.trips[t].state
                })
            } by {
                // One report moves an underway trip off `InProgress`, so a
                // second report of the same trip changes nothing more.
                if exists|k: int| 0 <= k < a.len() && (#[trigger] a@[k]).id as int == t {
                    assert(s1.trips[t].state == after_leg_done(
                        s0.trips[t].state,
                        s0.trips[t].legs.len() as int,
                    ));
                } else {
                    assert(s1.trips[t].state == s0.trips[t].state);
                }
            }
        }
    }

    /// The next leg has been spawned: the mode change window closes and
    /// the trip is underway again. Anything else is left untouched.
    pub fn leg_started(&mut self, t: TripID)
        requires
            old(self).wf(),
        ensures
            final(self).wf(),
            final(self).trips.len() == old(self).trips.len(),
            forall|i: int|
                0 <= i < final(self).trips.len() && i != t.id as int ==> (
                #[trigger] final(self).trips[i]) == old(self).trips[i],
            old(self).valid_trip(t) ==> {
                &&& final(self).trips[t.id as int].legs == old(self).trips[t.id as int].legs
                &&& final(self).trips[t.id as int].id == old(self).trips[t.id as int].id
                &&& final(self).state_of(t) == match old(self).state_of(t) {
                    TripState::ModeChange { next_leg } => TripState::InProgress { leg: next_leg },
                    s => s,
                }
            },
            !old(self).valid_trip(t) ==> final(self).trips@ == old(self).trips@,
    {
        if t.id >= self.trips.len() {
            return;
        }
        match self.trips[t.id].state {
            TripState::ModeChange { next_leg } => {
                self.trips[t.id].state = TripState::InProgress { leg: next_leg };
            },
            _ => {},
        }
    }

    /// Abort: an absorbing end state, reachable while the trip is underway
    /// or mid mode change, e.g. when its next leg can no longer start.
    pub fn abort_trip(&mut self, t: TripID)
        requires
            old(self).wf(),
        ensures
            final(self).wf(),
            final(self).trips.len() == old(self).trips.len(),
            forall|i: int|
                0 <= i < final(self).trips.len() && i != t.id as int ==> (
                #[trigger] final(self).trips[i]) == old(self).trips[i],
            old(self).valid_trip(t) ==> {
                &&& final(self).trips[t.id as int].legs == old(self).trips[t.id as int].legs
                &&& final(self).trips[t.id as int].id == old(self).trips[t.id as int].id
                &&& final(self).state_of(t) == match old(self).state_of(t) {
                    TripState::InProgress { .. } => TripState::Aborted,
                    TripState::ModeChange { .. } => TripState::Aborted,
                    s => s,
                }
            },
            !old(self).valid_trip(t) ==> final(self).trips@ == old(self).trips@,
    {
        if t.id >= self.trips.len() {
            return;
        }
        match self.trips[t.id].state {
            TripState::InProgress { .. } => {
                self.trips[t.id].state = TripState::Aborted;
            },
            TripState::ModeChange { .. } => {
                self.trips[t.id].state = TripState::Aborted;
            },
            _ => {},
        }
    }
}

} // verus!
