//! The facade the shell talks to: it owns every component, advances the
//! whole world one tick at a time, and answers queries between ticks.
//!
//! Intersection and parking state are owned here and handed to the
//! driving and walking steps in sequence, never at the same time, so
//! shared mutable access is always exclusive.

use vstd::prelude::*;

use crate::driving::{copy_path, Car, CarGoal, CarState, DrivingSimState, SpawnError};
use crate::intersection::IntersectionSimState;
use crate::map::{LaneType, RoadMap};
use crate::parking::{ParkingSimState, SpotState};
use crate::trips::{after_leg_done, TripLeg, TripManager, TripResult, TripState};
use crate::types::{
    AgentID, LaneID, ParkedCar, ParkingSpot, PedestrianID, Position, Traversable, TripID, Vehicle,
    SPOT_LENGTH,
};
use crate::view::{DrawCarInput, DrawPedestrianInput, WorldView};
use crate::walking::{walk_cap, walked, PedSpawnError, Pedestrian, PedState, WalkingSimState};

verus! {

/// An owned copy of one leg's spawn data, taken out of the trip store so
/// the spawn can mutate the other components.
enum LegPlan {
    Drive {
        vehicle: Vehicle,
        path: Vec<Traversable>,
        start_dist: u64,
        end_dist: u64,
        goal: CarGoal,
        unpark: Option<ParkedCar>,
    },
    Walk { ped: PedestrianID, path: Vec<Traversable>, start_dist: u64, end_dist: u64 },
}

/// The draw record of a car of physique `v` parked in spot `idx` of lane
/// `l`: at rest, its front one vehicle length past the spot's start.
pub open spec fn parked_draw(l: LaneID, idx: int, v: Vehicle) -> DrawCarInput {
    DrawCarInput {
        id: v.id,
        on: Traversable::Lane(l),
        front: (idx * SPOT_LENGTH + v.length) as u64,
        length: v.length,
        speed: 0,
    }
}

pub struct Sim {
    pub driving: DrivingSimState,
    pub parking: ParkingSimState,
    pub walking: WalkingSimState,
    pub intersections: IntersectionSimState,
    pub trips: TripManager,
    /// The last simulated time a tick was processed for.
    pub time: u64,
}

impl Sim {
    /// Every component healthy, and the driving goals tied to live
    /// parking reservations.
    pub open spec fn wf(self, map: RoadMap) -> bool {
        &&& self.driving.wf(map)
        &&& self.parking.wf(map)
        &&& self.walking.wf(map)
        &&& self.intersections.wf(map)
        &&& self.trips.wf()
        &&& self.driving.goals_consistent(self.parking)
    }

    /// An empty world over the map: no agents, no trips, every spot free,
    /// no turn granted and nobody waiting for one.
    pub fn new(map: &RoadMap) -> (r: Sim)
        ensures
            r.wf(*map),
            r.time == 0,
            r.driving.cars@.len() == 0,
            r.walking.peds@.len() == 0,
            r.trips.trips@.len() == 0,
            r.intersections.granted@.len() == 0,
            r.intersections.waiting@.len() == 0,
            forall|s: ParkingSpot| r.parking.valid_spot(s) ==> r.parking.is_free(s),
    {
        Sim {
            driving: DrivingSimState::new(map),
            parking: ParkingSimState::new(map),
            walking: WalkingSimState::new(),
            intersections: IntersectionSimState::new(map),
            trips: TripManager::new(),
            time: 0,
        }
    }

    /// All currently free spots on a lane, ascending; empty for a lane
    /// with no parking capacity, never an error.
    pub fn get_free_spots(&self, l: LaneID) -> (r: Vec<ParkingSpot>)
        requires
            l.id < self.parking.spots.len(),
        ensures
            r@ == self.parking.spec_free_spots(l),
            forall|k: int|
                0 <= k < r.len() ==> {
                    &&& (#[trigger] r[k]).lane == l
                    &&& self.parking.valid_spot(r[k])
                    &&& self.parking.is_free(r[k])
                },
            forall|k1: int, k2: int| 0 <= k1 < k2 < r.len() ==> r[k1].idx < r[k2].idx,
            forall|i: int|
                0 <= i < self.parking.spots[l.id as int].len() && self.parking.spots[l.id as int][i]
                    == SpotState::Free ==> exists|k: int|
                    0 <= k < r.len() && (#[trigger] r[k]).idx == i,
            self.parking.spots[l.id as int].len() == 0 ==> r.len() == 0,
    {
        let r = self.parking.get_free_spots(l);
        proof {
            if r@.len() > 0 {
                assert(self.parking.valid_spot(r@[0]));
            }
        }
        r
    }

    /// Claims a free spot for a car about to be spawned toward it.
    /// Returns false, changing nothing, if the spot is unknown or not
    /// free.
    pub fn reserve_spot(&mut self, s: ParkingSpot) -> (r: bool)
        ensures
            r == (old(self).parking.valid_spot(s) && old(self).parking.is_free(s)),
            r ==> final(self).parking.state_of(s) == SpotState::Reserved
                && ParkingSimState::same_but(old(self).parking, final(self).parking, s),
            !r ==> *final(self) == *old(self),
            final(self).driving == old(self).driving,
            final(self).walking == old(self).walking,
            final(self).intersections == old(self).intersections,
            final(self).trips == old(self).trips,
            final(self).time == old(self).time,
    {
        match self.parking.spot_state_of(s) {
            Some(SpotState::Free) => {
                self.parking.reserve_spot(s);
                true
            },
            _ => false,
        }
    }

    /// Where a car pulling out of a spot starts on the adjacent driving
    /// lane. Purely geometric; mutates nothing.
    pub fn spot_to_driving_pos(
        &self,
        spot: ParkingSpot,
        vehicle: &Vehicle,
        driving_lane: LaneID,
        map: &RoadMap,
    ) -> (r: Position)
        requires
            map.wf(),
            self.parking.wf(*map),
            self.parking.valid_spot(spot),
            vehicle.valid(),
            map.valid_lane(driving_lane),
            (spot.idx + 1) * SPOT_LENGTH <= map.lanes[driving_lane.id as int].length,
        ensures
            r.lane == driving_lane,
            r.dist == spot.idx * SPOT_LENGTH + vehicle.length,
    {
        self.parking.spot_to_driving_pos(spot, vehicle, driving_lane, map)
    }

    /// Loads an initial condition: reserves a free spot and occupies it
    /// with the given car in one call. Returns false, changing nothing,
    /// when the spot is unknown, not free, or the vehicle out of bounds.
    pub fn seed_parked_car(&mut self, parked_car: ParkedCar) -> (r: bool)
        ensures
            r == (old(self).parking.valid_spot(parked_car.spot) && old(self).parking.is_free(
                parked_car.spot,
            ) && parked_car.vehicle.valid()),
            r ==> final(self).parking.state_of(parked_car.spot) == SpotState::Occupied(
                parked_car.vehicle,
            ) && ParkingSimState::same_but(
                old(self).parking,
                final(self).parking,
                parked_car.spot,
            ),
            !r ==> *final(self) == *old(self),
            final(self).driving == old(self).driving,
            final(self).walking == old(self).walking,
            final(self).intersections == old(self).intersections,
            final(self).trips == old(self).trips,
            final(self).time == old(self).time,
    {
        if !parked_car.vehicle.is_valid() {
            return false;
        }
        match self.parking.spot_state_of(parked_car.spot) {
            Some(SpotState::Free) => {
                self.parking.reserve_spot(parked_car.spot);
                self.parking.add_parked_car(parked_car);
                true
            },
            _ => false,
        }
    }

    /// Registers a trip whose first leg drives this vehicle, and puts the
    /// car on the road at once. A walking continuation after parking may
    /// follow. Nothing changes when a check fails; the error says which.
    pub fn spawn_car(
        &mut self,
        vehicle: Vehicle,
        path: Vec<Traversable>,
        start_dist: u64,
        end_dist: u64,
        goal: CarGoal,
        unpark: Option<ParkedCar>,
        walk_after: Option<TripLeg>,
        map: &RoadMap,
    ) -> (r: Result<TripID, SpawnError>)
        requires
            map.wf(),
            old(self).wf(*map),
            match walk_after {
                Some(l) => l is Walk,
                None => true,
            },
        ensures
            final(self).wf(*map),
            final(self).time == old(self).time,
            match r {
                Ok(t) => {
                    &&& old(self).driving.spawn_outcome(
                        old(self).parking,
                        *map,
                        vehicle,
                        path@,
                        start_dist,
                        end_dist,
                        goal,
                        unpark,
                    ) is Ok
                    &&& t.id == old(self).trips.trips.len()
                    &&& final(self).trips.trips.len() == old(self).trips.trips.len() + 1
                    &&& final(self).trips.state_of(t) == (TripState::InProgress { leg: 0 })
                    &&& final(self).driving.has_car(vehicle.id)
                    // The new car sits at its start distance on the first
                    // element of its path, at rest, aiming for its goal.
                    &&& final(self).driving.cars.len() == old(self).driving.cars.len() + 1
                    &&& exists|k: int|
                        0 <= k < final(self).driving.cars.len() && final(self).driving.cars[k]
                            == (Car {
                            vehicle,
                            trip: t,
                            path,
                            path_idx: 0,
                            dist: start_dist,
                            speed: 0,
                            end_dist,
                            goal,
                            state: CarState::Moving,
                        })
                    // Pulling out of a spot frees exactly that spot;
                    // otherwise the parking ledger is untouched.
                    &&& match unpark {
                        Some(p) => ParkingSimState::same_but(
                            old(self).parking,
                            final(self).parking,
                            p.spot,
                        ) && final(self).parking.state_of(p.spot) == SpotState::Free,
                        None => final(self).parking == old(self).parking,
                    }
                    &&& final(self).walking == old(self).walking
                    &&& final(self).intersections == old(self).intersections
                },
                Err(e) => {
                    &&& old(self).driving.spawn_outcome(
                        old(self).parking,
                        *map,
                        vehicle,
                        path@,
                        start_dist,
                        end_dist,
                        goal,
                        unpark,
                    ) == Err::<(), SpawnError>(e)
                    &&& final(self).driving.cars@ == old(self).driving.cars@
                    &&& final(self).parking == old(self).parking
                    &&& final(self).trips == old(self).trips
                    &&& final(self).walking == old(self).walking
                    &&& final(self).intersections == old(self).intersections
                },
            },
    {
        let path_copy = copy_path(&path);
        let ghost pre = *self;
        let spawned = self.driving.spawn_car(
            vehicle,
            TripID { id: self.trips.trips.len() },
            path,
            start_dist,
            end_dist,
            goal,
            unpark,
            map,
            &mut self.parking,
        );
        match spawned {
            Ok(_) => {
                let mut legs: Vec<TripLeg> = Vec::new();
                legs.push(
                    TripLeg::Drive {
                        vehicle,
                        path: path_copy,
                        start_dist,
                        end_dist,
                        goal,
                        unpark,
                    },
                );
                match walk_after {
                    Some(l) => legs.push(l),
                    None => {},
                }
                let t = self.trips.new_trip(legs);
                Ok(t)
            },
            Err(e) => Err(e),
        }
    }

    /// Registers a single-leg walking trip and puts the pedestrian on its
    /// sidewalk path at once. Nothing changes when a check fails.
    pub fn spawn_ped(
        &mut self,
        id: PedestrianID,
        path: Vec<Traversable>,
        start_dist: u64,
        end_dist: u64,
        map: &RoadMap,
    ) -> (r: Result<TripID, PedSpawnError>)
        requires
            map.wf(),
            old(self).wf(*map),
        ensures
            final(self).wf(*map),
            final(self).time == old(self).time,
            match r {
                Ok(t) => {
                    &&& old(self).walking.spawn_outcome(*map, id, path@, start_dist, end_dist) is Ok
                    &&& t.id == old(self).trips.trips.len()
                    &&& final(self).trips.trips.len() == old(self).trips.trips.len() + 1
                    &&& final(self).trips.state_of(t) == (TripState::InProgress { leg: 0 })
                    &&& final(self).walking.has_ped(id)
                    // The new pedestrian stands at its start distance on
                    // the first element of its path.
                    &&& final(self).walking.peds.len() == old(self).walking.peds.len() + 1
                    &&& exists|k: int|
                        0 <= k < final(self).walking.peds.len() && final(self).walking.peds[k]
                            == (Pedestrian {
                            id,
                            trip: t,
                            path,
                            path_idx: 0,
                            dist: start_dist,
                            end_dist,
                            state: PedState::Moving,
                        })
                    &&& final(self).driving == old(self).driving
                    &&& final(self).parking == old(self).parking
                    &&& final(self).intersections == old(self).intersections
                },
                Err(e) => {
                    &&& old(self).walking.spawn_outcome(*map, id, path@, start_dist, end_dist)
                        == Err::<(), PedSpawnError>(e)
                    &&& final(self).walking.peds@ == old(self).walking.peds@
                    &&& final(self).trips == old(self).trips
                    &&& final(self).driving == old(self).driving
                    &&& final(self).parking == old(self).parking
                    &&& final(self).intersections == old(self).intersections
                },
            },
    {
        let path_copy = copy_path(&path);
        let spawned = self.walking.spawn_ped(
            id,
            TripID { id: self.trips.trips.len() },
            path,
            start_dist,
            end_dist,
            map,
        );
        match spawned {
            Ok(_) => {
                let mut legs: Vec<TripLeg> = Vec::new();
                legs.push(TripLeg::Walk { ped: id, path: path_copy, start_dist, end_dist });
                let t = self.trips.new_trip(legs);
                Ok(t)
            },
            Err(e) => Err(e),
        }
    }

    /// No trip is waiting in a mode-change window, so a tick starts no
    /// new leg.
    pub open spec fn no_pending_legs(self) -> bool {
        forall|j: int|
            0 <= j < self.trips.trips.len() ==> !((#[trigger] self.trips.trips[j]).state
                is ModeChange)
    }

    /// Car `j` has the whole world's road to itself ahead: it is underway,
    /// short of its cap, and no other car and no pedestrian stands ahead
    /// of it on its lane or turn.
    pub open spec fn open_road(self, map: RoadMap, j: int) -> bool {
        let c = self.driving.cars[j];
        &&& c.moving()
        &&& c.dist < DrivingSimState::cap_of(map, c)
        &&& (forall|k: int|
            0 <= k < self.driving.cars.len() ==> !self.driving.ahead_of(c.on(), c.dist, k))
        &&& (forall|k: int|
            0 <= k < self.walking.peds.len() ==> !((#[trigger] self.walking.peds[k]).moving()
                && self.walking.peds[k].on() == c.on() && self.walking.peds[k].dist > c.dist))
    }

    /// Starts every leg whose mode-change window opened last tick: the
    /// next leg's agent is spawned, or the trip aborts if it no longer
    /// can start.
    #[verifier::loop_isolation(false)]
    fn start_pending_legs(&mut self, map: &RoadMap)
        requires
            map.wf(),
            old(self).wf(*map),
        ensures
            final(self).wf(*map),
            final(self).time == old(self).time,
            old(self).no_pending_legs() ==> *final(self) == *old(self),
    {
        let mut i: usize = 0;
        while i < self.trips.trips.len()
            invariant
                self.wf(*map),
                self.time == old(self).time,
                old(self).no_pending_legs() ==> *self == *old(self),
            decreases self.trips.trips.len() - i,
        {
            let t = TripID { id: i };
            if i >= self.trips.trips.len() {
                break;
            }
            let st = self.trips.trips[i].state;
            if let TripState::ModeChange { next_leg } = st {
                let plan = match &self.trips.trips[i].legs[next_leg] {
                    TripLeg::Drive { vehicle, path, start_dist, end_dist, goal, unpark } => (
                    LegPlan::Drive {
                        vehicle: *vehicle,
                        path: copy_path(path),
                        start_dist: *start_dist,
                        end_dist: *end_dist,
                        goal: *goal,
                        unpark: *unpark,
                    }),
                    TripLeg::Walk { ped, path, start_dist, end_dist } => (LegPlan::Walk {
                        ped: *ped,
                        path: copy_path(path),
                        start_dist: *start_dist,
                        end_dist: *end_dist,
                    }),
                };
                let ok = match plan {
                    LegPlan::Drive { vehicle, path, start_dist, end_dist, goal, unpark } => {
                        let r = self.driving.spawn_car(
                            vehicle,
                            t,
                            path,
                            start_dist,
                            end_dist,
                            goal,
                            unpark,
                            map,
                            &mut self.parking,
                        );
                        r.is_ok()
                    },
                    LegPlan::Walk { ped, path, start_dist, end_dist } => {
                        let r = self.walking.spawn_ped(ped, t, path, start_dist, end_dist, map);
                        r.is_ok()
                    },
                };
                if ok {
                    self.trips.leg_started(t);
                } else {
                    self.trips.abort_trip(t);
                }
            }
            i = i + 1;
        }
    }

    /// The only mutating entry point: advances the whole world exactly
    /// once when `time` is newer than the last processed time, else does
    /// nothing at all. Within a tick, pending legs start first, then every
    /// car and every pedestrian advances against the same snapshot, then
    /// completed legs are reported to the trip tracker.
    #[verifier::loop_isolation(false)]
    #[verifier::rlimit(100)]
    #[verifier::spinoff_prover]
    pub fn step_if_needed(&mut self, time: u64, map: &RoadMap)
        requires
            map.wf(),
            old(self).wf(*map),
        ensures
            final(self).wf(*map),
            // Idempotence: a tick for a time not newer than the last one
            // mutates nothing.
            time <= old(self).time ==> *final(self) == *old(self),
            time > old(self).time ==> final(self).time == time,
            // After a tick, every finished leg has been swept: only
            // active agents remain.
            time > old(self).time ==> {
                &&& forall|k: int|
                    0 <= k < final(self).driving.cars.len() ==> (
                    #[trigger] final(self).driving.cars[k]).moving()
                &&& forall|k: int|
                    0 <= k < final(self).walking.peds.len() ==> (
                    #[trigger] final(self).walking.peds[k]).moving()
            },
            // With no pending leg to start, the tick advances every agent
            // by exactly one step of its relation and reports every leg
            // completed this tick to the trip tracker.
            time > old(self).time && old(self).no_pending_legs() ==> {
                // A car with an open road ahead drives its exact
                // kinematic step.
                &&& forall|j: int|
                    0 <= j < old(self).driving.cars.len() && #[trigger] old(self).open_road(
                        *map,
                        j,
                    ) ==> exists|k: int|
                        0 <= k < final(self).driving.cars.len() && final(self).driving.cars[k]
                            == DrivingSimState::cruised(*map, old(self).driving.cars[j])
                // A mid-segment pedestrian walks its exact step.
                &&& forall|j: int|
                    0 <= j < old(self).walking.peds.len() && (
                    #[trigger] old(self).walking.peds[j]).moving() && old(self).walking.peds[j].dist
                        < walk_cap(*map, old(self).walking.peds[j]) ==> exists|k: int|
                        0 <= k < final(self).walking.peds.len() && final(self).walking.peds[k]
                            == walked(*map, old(self).walking.peds[j])
                // A driving leg that starts the tick at its goal moves its
                // trip to the next leg's mode change, or to done.
                &&& forall|j: int|
                    0 <= j < old(self).driving.cars.len() && (
                    #[trigger] old(self).driving.cars[j]).moving() && old(
                        self,
                    ).driving.cars[j].path_idx + 1 == old(self).driving.cars[j].path.len() && old(
                        self,
                    ).driving.cars[j].dist == old(self).driving.cars[j].end_dist && old(
                        self,
                    ).trips.valid_trip(old(self).driving.cars[j].trip) ==> final(self).trips.state_of(
                        old(self).driving.cars[j].trip,
                    ) == after_leg_done(
                        old(self).trips.state_of(old(self).driving.cars[j].trip),
                        old(
                            self,
                        ).trips.trips[old(self).driving.cars[j].trip.id as int].legs.len() as int,
                    )
                // A walking leg that starts the tick at its goal does the
                // same.
                &&& forall|j: int|
                    0 <= j < old(self).walking.peds.len() && (
                    #[trigger] old(self).walking.peds[j]).moving() && old(
                        self,
                    ).walking.peds[j].path_idx + 1 == old(self).walking.peds[j].path.len() && old(
                        self,
                    ).walking.peds[j].dist == old(self).walking.peds[j].end_dist && old(
                        self,
                    ).trips.valid_trip(old(self).walking.peds[j].trip) ==> final(self).trips.state_of(
                        old(self).walking.peds[j].trip,
                    ) == after_leg_done(
                        old(self).trips.state_of(old(self).walking.peds[j].trip),
                        old(
                            self,
                        ).trips.trips[old(self).walking.peds[j].trip.id as int].legs.len() as int,
                    )
            },
    {
        if time <= self.time {
            return;
        }
        self.time = time;
        self.start_pending_legs(map);
        let ghost s1 = *self;
        let (done_driving, done_walking) = self.advance_agents(time, map);
        let ghost s2 = *self;
        let ghost trips0 = self.trips;
        self.trips.legs_done_both(&done_driving, &done_walking);
        proof {
            if old(self).no_pending_legs() {
                assert(s1.driving == old(self).driving);
                assert(s1.walking == old(self).walking);
                assert(trips0 == old(self).trips);
                assert forall|j2: int|
                    0 <= j2 < old(self).driving.cars.len() && #[trigger] old(self).open_road(
                        *map,
                        j2,
                    ) implies exists|k: int|
                    0 <= k < self.driving.cars.len() && self.driving.cars[k]
                        == DrivingSimState::cruised(*map, old(self).driving.cars[j2]) by {
                    assert(s1.open_road(*map, j2));
                    assert(s1.driving.cars[j2] == old(self).driving.cars[j2]);
                    assert(self.driving == s2.driving);
                    let k0 = choose|k0: int|
                        0 <= k0 < s2.driving.cars.len() && s2.driving.cars[k0]
                            == DrivingSimState::cruised(*map, s1.driving.cars[j2]);
                    assert(self.driving.cars[k0] == DrivingSimState::cruised(
                        *map,
                        old(self).driving.cars[j2],
                    ));
                }
                assert forall|j2: int|
                    0 <= j2 < old(self).walking.peds.len() && (
                    #[trigger] old(self).walking.peds[j2]).moving() && old(
                        self,
                    ).walking.peds[j2].dist < walk_cap(*map, old(self).walking.peds[j2]) implies exists|
                    k: int,
                |
                    0 <= k < self.walking.peds.len() && self.walking.peds[k] == walked(
                        *map,
                        old(self).walking.peds[j2],
                    ) by {
                    assert(s1.walking.peds[j2] == old(self).walking.peds[j2]);
                    assert(self.walking == s2.walking);
                    let k0 = choose|k0: int|
                        0 <= k0 < s2.walking.peds.len() && s2.walking.peds[k0] == walked(
                            *map,
                            s1.walking.peds[j2],
                        );
                    assert(self.walking.peds[k0] == walked(*map, old(self).walking.peds[j2]));
                }
                assert forall|j2: int|
                    0 <= j2 < old(self).driving.cars.len() && (
                    #[trigger] old(self).driving.cars[j2]).moving() && old(
                        self,
                    ).driving.cars[j2].path_idx + 1 == old(self).driving.cars[j2].path.len() && old(
                        self,
                    ).driving.cars[j2].dist == old(self).driving.cars[j2].end_dist && old(
                        self,
                    ).trips.valid_trip(old(self).driving.cars[j2].trip) implies self.trips.state_of(
                    old(self).driving.cars[j2].trip,
                ) == after_leg_done(
                    old(self).trips.state_of(old(self).driving.cars[j2].trip),
                    old(self).trips.trips[old(self).driving.cars[j2].trip.id as int].legs.len()
                        as int,
                ) by {
                    let t = old(self).driving.cars[j2].trip;
                    assert(s1.driving.cars[j2] == old(self).driving.cars[j2]);
                    assert(done_driving@.contains(t));
                    let k2 = choose|k2: int|
                        0 <= k2 < done_driving@.len() && done_driving@[k2] == t;
                    assert(done_driving@[k2].id as int == t.id as int);
                }
                assert forall|j2: int|
                    0 <= j2 < old(self).walking.peds.len() && (
                    #[trigger] old(self).walking.peds[j2]).moving() && old(
                        self,
                    ).walking.peds[j2].path_idx + 1 == old(self).walking.peds[j2].path.len() && old(
                        self,
                    ).walking.peds[j2].dist == old(self).walking.peds[j2].end_dist && old(
                        self,
                    ).trips.valid_trip(old(self).walking.peds[j2].trip) implies self.trips.state_of(
                    old(self).walking.peds[j2].trip,
                ) == after_leg_done(
                    old(self).trips.state_of(old(self).walking.peds[j2].trip),
                    old(self).trips.trips[old(self).walking.peds[j2].trip.id as int].legs.len()
                        as int,
                ) by {
                    let t = old(self).walking.peds[j2].trip;
                    assert(s1.walking.peds[j2] == old(self).walking.peds[j2]);
                    assert(done_walking@.contains(t));
                    let k2 = choose|k2: int|
                        0 <= k2 < done_walking@.len() && done_walking@[k2] == t;
                    assert(done_walking@[k2].id as int == t.id as int);
                }
            }
        }
    }

    /// Advances every car and pedestrian exactly one tick against a
    /// snapshot of the current state, leaving the trip tracker alone, and
    /// returns the trips whose driving and walking legs completed, in
    /// processing order.
    #[verifier::loop_isolation(false)]
    #[verifier::rlimit(100)]
    fn advance_agents(&mut self, time: u64, map: &RoadMap) -> (dones: (
        Vec<TripID>,
        Vec<TripID>,
    ))
        requires
            map.wf(),
            old(self).wf(*map),
        ensures
            final(self).wf(*map),
            final(self).time == old(self).time,
            final(self).trips == old(self).trips,
            forall|k: int|
                0 <= k < final(self).driving.cars.len() ==> (
                #[trigger] final(self).driving.cars[k]).moving(),
            forall|k: int|
                0 <= k < final(self).walking.peds.len() ==> (
                #[trigger] final(self).walking.peds[k]).moving(),
            // A car with an open road ahead drives its exact kinematic
            // step.
            forall|j: int|
                0 <= j < old(self).driving.cars.len() && #[trigger] old(self).open_road(*map, j)
                    ==> exists|k: int|
                    0 <= k < final(self).driving.cars.len() && final(self).driving.cars[k]
                        == DrivingSimState::cruised(*map, old(self).driving.cars[j]),
            // A mid-segment pedestrian walks its exact step.
            forall|j: int|
                0 <= j < old(self).walking.peds.len() && (
                #[trigger] old(self).walking.peds[j]).moving() && old(self).walking.peds[j].dist
                    < walk_cap(*map, old(self).walking.peds[j]) ==> exists|k: int|
                    0 <= k < final(self).walking.peds.len() && final(self).walking.peds[k]
                        == walked(*map, old(self).walking.peds[j]),
            // Every leg that starts the tick at its goal is reported.
            forall|j: int|
                0 <= j < old(self).driving.cars.len() && (
                #[trigger] old(self).driving.cars[j]).moving() && old(
                    self,
                ).driving.cars[j].path_idx + 1 == old(self).driving.cars[j].path.len() && old(
                    self,
                ).driving.cars[j].dist == old(self).driving.cars[j].end_dist ==> dones.0@.contains(
                    old(self).driving.cars[j].trip,
                ),
            forall|j: int|
                0 <= j < old(self).walking.peds.len() && (
                #[trigger] old(self).walking.peds[j]).moving() && old(
                    self,
                ).walking.peds[j].path_idx + 1 == old(self).walking.peds[j].path.len() && old(
                    self,
                ).walking.peds[j].dist == old(self).walking.peds[j].end_dist ==> dones.1@.contains(
                    old(self).walking.peds[j].trip,
                ),
    {
        let mut view = WorldView::new();
        self.driving.append_agent_views(&mut view);
        let ghost vd = view;
        let ghost n1 = view.agents@.len();
        self.walking.append_agent_views(&mut view);
        proof {
            // An open road in the world is an open road in the snapshot:
            // every snapshot entry mirrors a moving car or pedestrian,
            // and none of those stands ahead.
            assert forall|j: int|
                0 <= j < old(self).driving.cars.len() && #[trigger] old(self).open_road(
                    *map,
                    j,
                ) implies self.driving.open_road(*map, view, j) by {
                let c = old(self).driving.cars[j];
                assert forall|k: int| 0 <= k < view.agents.len() implies !view.ahead_of(
                    c.on(),
                    c.dist,
                    k,
                ) by {
                    if k < n1 {
                        assert(view.agents[k] == vd.agents[k]);
                        let j2 = choose|j2: int|
                            0 <= j2 < self.driving.cars.len() && (
                            #[trigger] self.driving.cars[j2]).moving() && vd.agents[k]
                                == self.driving.cars[j2].view_entry();
                        assert(!old(self).driving.ahead_of(c.on(), c.dist, j2));
                    } else {
                        let j2 = choose|j2: int|
                            0 <= j2 < self.walking.peds.len() && (
                            #[trigger] self.walking.peds[j2]).moving() && view.agents[k]
                                == self.walking.peds[j2].view_entry();
                        assert(!(self.walking.peds[j2].moving() && self.walking.peds[j2].on()
                            == c.on() && self.walking.peds[j2].dist > c.dist));
                    }
                }
            }
        }
        let done_driving = self.driving.step_if_needed(
            time,
            map,
            &view,
            &mut self.parking,
            &mut self.intersections,
        );
        let done_walking = self.walking.step_if_needed(time, map, &mut self.intersections);
        (done_driving, done_walking)
    }

    /// The safety laws of a well-formed world, in one place. On every
    /// shared lane or turn, cars sit at strictly different distances and
    /// their bodies, extended by the following distance, never overlap;
    /// no parking spot binds two distinct vehicles; and no two granted
    /// turns conflict, under any control policy. Every constructor and
    /// mutator of `Sim` ensures `wf`, so these hold in every reachable
    /// state.
    pub proof fn lemma_world_safety(self, map: RoadMap)
        requires
            self.wf(map),
        ensures
            forall|i: int, j: int|
                0 <= i < self.driving.cars.len() && 0 <= j < self.driving.cars.len() && i != j && (
                #[trigger] self.driving.cars[i]).moving() && (
                #[trigger] self.driving.cars[j]).moving() && self.driving.cars[i].on()
                    == self.driving.cars[j].on() ==> self.driving.cars[i].dist
                    != self.driving.cars[j].dist && (self.driving.cars[i].back()
                    >= self.driving.cars[j].dist + crate::types::FOLLOWING_DISTANCE
                    || self.driving.cars[j].back() >= self.driving.cars[i].dist
                    + crate::types::FOLLOWING_DISTANCE),
            forall|s: ParkingSpot|
                self.parking.valid_spot(s) ==> ((#[trigger] self.parking.state_of(s)) is Free
                    || self.parking.state_of(s) is Reserved || self.parking.state_of(
                    s,
                ) is Occupied),
            forall|i: int, j: int|
                0 <= i < self.intersections.granted.len() && 0 <= j
                    < self.intersections.granted.len() && i != j ==> !map.turns_conflict(
                    (#[trigger] self.intersections.granted[i]).1,
                    (#[trigger] self.intersections.granted[j]).1,
                ),
    {
        assert forall|i: int, j: int|
            0 <= i < self.driving.cars.len() && 0 <= j < self.driving.cars.len() && i != j && (
            #[trigger] self.driving.cars[i]).moving() && (
            #[trigger] self.driving.cars[j]).moving() && self.driving.cars[i].on()
                == self.driving.cars[j].on() implies self.driving.cars[i].dist
            != self.driving.cars[j].dist && (self.driving.cars[i].back()
            >= self.driving.cars[j].dist + crate::types::FOLLOWING_DISTANCE
            || self.driving.cars[j].back() >= self.driving.cars[i].dist
            + crate::types::FOLLOWING_DISTANCE) by {
            self.driving.lemma_no_overlap(map, i, j);
        }
        assert forall|i: int, j: int|
            0 <= i < self.intersections.granted.len() && 0 <= j < self.intersections.granted.len()
                && i != j implies !map.turns_conflict(
            (#[trigger] self.intersections.granted[i]).1,
            (#[trigger] self.intersections.granted[j]).1,
        ) by {
            self.intersections.lemma_granted_nonconflicting(map, i, j);
        }
    }

    /// The current carrier of a trip, or why there is none.
    pub fn trip_to_agent(&self, t: TripID) -> (r: TripResult)
        requires
            self.trips.wf(),
        ensures
            r == self.trips.spec_trip_to_agent(t),
    {
        self.trips.trip_to_agent(t)
    }

    /// Which trip an agent is currently carrying, if any.
    pub fn agent_to_trip(&self, a: AgentID) -> (r: Option<TripID>)
        requires
            self.trips.wf(),
        ensures
            match r {
                Some(t) => self.trips.valid_trip(t) && match self.trips.state_of(t) {
                    TripState::InProgress { leg } => self.trips.trips[t.id as int].legs[leg as int].agent()
                        == a,
                    _ => false,
                },
                None => forall|i: int|
                    0 <= i < self.trips.trips.len() ==> match (#[trigger] self.trips.trips[i]).state {
                        TripState::InProgress { leg } => self.trips.trips[i].legs[leg as int].agent()
                            != a,
                        _ => true,
                    },
            },
    {
        self.trips.agent_to_trip(a)
    }

    /// The remaining path of an agent's current leg, as a renderable
    /// trace: the traversables still ahead of it, starting with the one
    /// underfoot. Nothing for an agent that is not underway.
    #[verifier::loop_isolation(false)]
    pub fn trace_route(&self, a: AgentID) -> (r: Option<Vec<Traversable>>)
        requires
            self.driving.cars_basic(),
            forall|i: int|
                0 <= i < self.walking.peds.len() ==> (#[trigger] self.walking.peds[i]).path_idx
                    < self.walking.peds[i].path.len(),
        ensures
            match r {
                Some(tr) => {
                    &&& tr.len() > 0
                    &&& match a {
                        AgentID::Car(id) => exists|i: int|
                            0 <= i < self.driving.cars.len() && {
                                let c = #[trigger] self.driving.cars[i];
                                c.vehicle.id == id && c.moving() && tr@ == c.path@.skip(
                                    c.path_idx as int,
                                )
                            },
                        AgentID::Pedestrian(id) => exists|i: int|
                            0 <= i < self.walking.peds.len() && {
                                let p = #[trigger] self.walking.peds[i];
                                p.id == id && p.moving() && tr@ == p.path@.skip(p.path_idx as int)
                            },
                    }
                },
                None => match a {
                    AgentID::Car(id) => !self.driving.has_car(id),
                    AgentID::Pedestrian(id) => !self.walking.has_ped(id),
                },
            },
    {
        match a {
            AgentID::Car(id) => {
                let mut i: usize = 0;
                while i < self.driving.cars.len()
                    invariant
                        i <= self.driving.cars.len(),
                        forall|j: int|
                            0 <= j < i ==> !((#[trigger] self.driving.cars[j]).vehicle.id == id
                                && self.driving.cars[j].moving()),
                    decreases self.driving.cars.len() - i,
                {
                    let c = &self.driving.cars[i];
                    if c.vehicle.id == id && matches!(c.state, crate::driving::CarState::Moving) {
                        let mut tr: Vec<Traversable> = Vec::new();
                        let mut k: usize = c.path_idx;
                        while k < c.path.len()
                            invariant
                                c.path_idx <= k <= c.path.len(),
                                tr@ == c.path@.subrange(c.path_idx as int, k as int),
                            decreases c.path.len() - k,
                        {
                            tr.push(c.path[k]);
                            proof {
                                assert(tr@ =~= c.path@.subrange(c.path_idx as int, k + 1));
                            }
                            k = k + 1;
                        }
                        proof {
                            assert(tr@ =~= c.path@.skip(c.path_idx as int));
                        }
                        return Some(tr);
                    }
                    i = i + 1;
                }
                None
            },
            AgentID::Pedestrian(id) => {
                let mut i: usize = 0;
                while i < self.walking.peds.len()
                    invariant
                        i <= self.walking.peds.len(),
                        forall|j: int|
                            0 <= j < i ==> !((#[trigger] self.walking.peds[j]).id == id
                                && self.walking.peds[j].moving()),
                    decreases self.walking.peds.len() - i,
                {
                    let p = &self.walking.peds[i];
                    if p.id == id && matches!(p.state, crate::walking::PedState::Moving) {
                        let mut tr: Vec<Traversable> = Vec::new();
                        let mut k: usize = p.path_idx;
                        while k < p.path.len()
                            invariant
                                p.path_idx <= k <= p.path.len(),
                                tr@ == p.path@.subrange(p.path_idx as int, k as int),
                            decreases p.path.len() - k,
                        {
                            tr.push(p.path[k]);
                            proof {
                                assert(tr@ =~= p.path@.subrange(p.path_idx as int, k + 1));
                            }
                            k = k + 1;
                        }
                        proof {
                            assert(tr@ =~= p.path@.skip(p.path_idx as int));
                        }
                        return Some(tr);
                    }
                    i = i + 1;
                }
                None
            },
        }
    }

    /// Draw records for every car: the ones on the road and the parked
    /// ones, each parked car as one record per occupied spot.
    #[verifier::loop_isolation(false)]
    pub fn get_all_draw_cars(&self, map: &RoadMap) -> (r: Vec<DrawCarInput>)
        requires
            map.wf(),
            self.wf(*map),
        ensures
            forall|j: int|
                0 <= j < self.driving.cars.len() && (#[trigger] self.driving.cars[j]).moving()
                    ==> exists|k: int|
                    0 <= k < r.len() && r[k] == DrivingSimState::draw_of(self.driving.cars[j]),
            forall|l: int, i: int|
                0 <= l < self.parking.spots.len() && 0 <= i < self.parking.spots[l].len() && (
                #[trigger] self.parking.spots[l][i]) is Occupied ==> exists|k: int|
                    0 <= k < r.len() && r[k] == parked_draw(
                        LaneID { id: l as usize },
                        i,
                        self.parking.spots[l][i]->Occupied_0,
                    ),
            // No record is fabricated: each mirrors a moving car or an
            // occupied spot.
            forall|k: int|
                #![trigger r@[k]]
                0 <= k < r.len() ==> (exists|j: int|
                    0 <= j < self.driving.cars.len() && (#[trigger] self.driving.cars[j]).moving()
                        && r[k] == DrivingSimState::draw_of(self.driving.cars[j])) || (exists|
                    l: int,
                    i: int,
                |
                    0 <= l < self.parking.spots.len() && 0 <= i < self.parking.spots[l].len() && (
                    #[trigger] self.parking.spots[l][i]) is Occupied && r[k] == parked_draw(
                        LaneID { id: l as usize },
                        i,
                        self.parking.spots[l][i]->Occupied_0,
                    )),
    {
        let mut r = self.driving.get_draw_cars(None);
        let ghost cars_part = r@;
        let mut l: usize = 0;
        while l < self.parking.spots.len()
            invariant
                l <= self.parking.spots.len(),
                self.wf(*map),
                forall|k: int| 0 <= k < cars_part.len() ==> r@[k] == cars_part[k],
                r@.len() >= cars_part.len(),
                forall|l2: int, i: int|
                    0 <= l2 < l && 0 <= i < self.parking.spots[l2].len() && (
                    #[trigger] self.parking.spots[l2][i]) is Occupied ==> exists|k: int|
                        0 <= k < r.len() && r@[k] == parked_draw(
                            LaneID { id: l2 as usize },
                            i,
                            self.parking.spots[l2][i]->Occupied_0,
                        ),
                forall|k: int|
                    #![trigger r@[k]]
                    0 <= k < r.len() ==> (exists|j: int|
                        0 <= j < self.driving.cars.len() && (
                        #[trigger] self.driving.cars[j]).moving() && r@[k]
                            == DrivingSimState::draw_of(self.driving.cars[j])) || (exists|
                        l2: int,
                        i: int,
                    |
                        0 <= l2 < self.parking.spots.len() && 0 <= i
                            < self.parking.spots[l2].len() && (
                        #[trigger] self.parking.spots[l2][i]) is Occupied && r@[k] == parked_draw(
                            LaneID { id: l2 as usize },
                            i,
                            self.parking.spots[l2][i]->Occupied_0,
                        )),
            decreases self.parking.spots.len() - l,
        {
            let parked = self.parking.get_parked_cars_on(LaneID { id: l });
            let mut m: usize = 0;
            while m < parked.len()
                invariant
                    m <= parked.len(),
                    l < self.parking.spots.len(),
                    forall|k: int| 0 <= k < cars_part.len() ==> r@[k] == cars_part[k],
                    r@.len() >= cars_part.len(),
                    forall|k: int|
                        0 <= k < parked.len() ==> {
                            &&& (#[trigger] parked[k]).vehicle.length <= SPOT_LENGTH
                            &&& parked[k].spot.idx <= 0x1000
                            &&& parked[k].spot.lane == (LaneID { id: l })
                            &&& self.parking.valid_spot(parked[k].spot)
                            &&& self.parking.parked_vehicle_at(parked[k].spot) == Some(
                                parked[k].vehicle,
                            )
                        },
                    forall|l2: int, i: int|
                        0 <= l2 < l && 0 <= i < self.parking.spots[l2].len() && (
                        #[trigger] self.parking.spots[l2][i]) is Occupied ==> exists|k: int|
                            0 <= k < r.len() && r@[k] == parked_draw(
                                LaneID { id: l2 as usize },
                                i,
                                self.parking.spots[l2][i]->Occupied_0,
                            ),
                    forall|k2: int|
                        0 <= k2 < m ==> exists|k: int|
                            0 <= k < r.len() && r@[k] == parked_draw(
                                LaneID { id: l },
                                (#[trigger] parked[k2]).spot.idx as int,
                                parked[k2].vehicle,
                            ),
                    forall|k: int|
                        #![trigger r@[k]]
                        0 <= k < r.len() ==> (exists|j: int|
                            0 <= j < self.driving.cars.len() && (
                            #[trigger] self.driving.cars[j]).moving() && r@[k]
                                == DrivingSimState::draw_of(self.driving.cars[j])) || (exists|
                            l2: int,
                            i: int,
                        |
                            0 <= l2 < self.parking.spots.len() && 0 <= i
                                < self.parking.spots[l2].len() && (
                            #[trigger] self.parking.spots[l2][i]) is Occupied && r@[k]
                                == parked_draw(
                                LaneID { id: l2 as usize },
                                i,
                                self.parking.spots[l2][i]->Occupied_0,
                            )),
                decreases parked.len() - m,
            {
                let p = &parked[m];
                let ghost r_pre = r@;
                r.push(
                    DrawCarInput {
                        id: p.vehicle.id,
                        on: Traversable::Lane(p.spot.lane),
                        front: (p.spot.idx as u64) * SPOT_LENGTH + p.vehicle.length,
                        length: p.vehicle.length,
                        speed: 0,
                    },
                );
                proof {
                    assert(self.parking.parked_vehicle_at(parked[m as int].spot) == Some(
                        parked[m as int].vehicle,
                    ));
                    assert(self.parking.spots[l as int][parked[m as int].spot.idx as int]
                        == SpotState::Occupied(parked[m as int].vehicle));
                    assert(r@[r_pre.len() as int] == parked_draw(
                        LaneID { id: l },
                        parked[m as int].spot.idx as int,
                        parked[m as int].vehicle,
                    ));
                    assert forall|l2: int, i: int|
                        0 <= l2 < l && 0 <= i < self.parking.spots[l2].len() && (
                        #[trigger] self.parking.spots[l2][i]) is Occupied implies exists|k: int|
                        0 <= k < r.len() && r@[k] == parked_draw(
                            LaneID { id: l2 as usize },
                            i,
                            self.parking.spots[l2][i]->Occupied_0,
                        ) by {
                        let k0 = choose|k0: int|
                            0 <= k0 < r_pre.len() && r_pre[k0] == parked_draw(
                                LaneID { id: l2 as usize },
                                i,
                                self.parking.spots[l2][i]->Occupied_0,
                            );
                        assert(r@[k0] == r_pre[k0]);
                    }
                    assert forall|k2: int| 0 <= k2 < m + 1 implies exists|k: int|
                        0 <= k < r.len() && r@[k] == parked_draw(
                            LaneID { id: l },
                            (#[trigger] parked[k2]).spot.idx as int,
                            parked[k2].vehicle,
                        ) by {
                        if k2 < m {
                            let k0 = choose|k0: int|
                                0 <= k0 < r_pre.len() && r_pre[k0] == parked_draw(
                                    LaneID { id: l },
                                    parked[k2].spot.idx as int,
                                    parked[k2].vehicle,
                                );
                            assert(r@[k0] == r_pre[k0]);
                        } else {
                            assert(r@[r_pre.len() as int] == parked_draw(
                                LaneID { id: l },
                                parked[k2].spot.idx as int,
                                parked[k2].vehicle,
                            ));
                        }
                    }
                    assert forall|k: int| #![trigger r@[k]] 0 <= k < r.len() implies (exists|
                        j: int,
                    |
                        0 <= j < self.driving.cars.len() && (
                        #[trigger] self.driving.cars[j]).moving() && r@[k]
                            == DrivingSimState::draw_of(self.driving.cars[j])) || (exists|
                        l2: int,
                        i: int,
                    |
                        0 <= l2 < self.parking.spots.len() && 0 <= i
                            < self.parking.spots[l2].len() && (
                        #[trigger] self.parking.spots[l2][i]) is Occupied && r@[k] == parked_draw(
                            LaneID { id: l2 as usize },
                            i,
                            self.parking.spots[l2][i]->Occupied_0,
                        )) by {
                        if k < r_pre.len() {
                            assert(r@[k] == r_pre[k]);
                        } else {
                            assert(r@[k] == parked_draw(
                                LaneID { id: l },
                                parked[m as int].spot.idx as int,
                                parked[m as int].vehicle,
                            ));
                        }
                    }
                }
                m = m + 1;
            }
            proof {
                // The lane just finished is fully covered: each of its
                // occupied spots produced its record.
                assert forall|i: int|
                    0 <= i < self.parking.spots[l as int].len() && (
                    #[trigger] self.parking.spots[l as int][i]) is Occupied implies exists|k: int|
                    0 <= k < r.len() && r@[k] == parked_draw(
                        LaneID { id: l },
                        i,
                        self.parking.spots[l as int][i]->Occupied_0,
                    ) by {
                    let k0 = choose|k0: int|
                        0 <= k0 < parked.len() && (#[trigger] parked[k0]).spot.idx == i;
                    assert(self.parking.parked_vehicle_at(parked[k0].spot) == Some(
                        parked[k0].vehicle,
                    ));
                    assert(parked[k0].spot == (ParkingSpot { lane: LaneID { id: l }, idx: i as usize }));
                    assert(self.parking.spots[l as int][i]->Occupied_0 == parked[k0].vehicle);
                    let k1 = choose|k1: int|
                        0 <= k1 < r.len() && r@[k1] == parked_draw(
                            LaneID { id: l },
                            parked[k0].spot.idx as int,
                            parked[k0].vehicle,
                        );
                    assert(r@[k1] == parked_draw(
                        LaneID { id: l },
                        i,
                        self.parking.spots[l as int][i]->Occupied_0,
                    ));
                }
            }
            l = l + 1;
        }
        proof {
            assert forall|j: int|
                0 <= j < self.driving.cars.len() && (
                #[trigger] self.driving.cars[j]).moving() implies exists|k: int|
                0 <= k < r.len() && r@[k] == DrivingSimState::draw_of(self.driving.cars[j]) by {
                let k0 = choose|k0: int|
                    0 <= k0 < cars_part.len() && cars_part[k0] == DrivingSimState::draw_of(
                        self.driving.cars[j],
                    );
                assert(r@[k0] == DrivingSimState::draw_of(self.driving.cars[j]));
            }
        }
        r
    }

    /// Draw records for the cars on one lane or turn: the parked cars for
    /// a parking lane, the moving ones otherwise.
    pub fn get_draw_cars_on(&self, on: Traversable, map: &RoadMap) -> (r: Vec<DrawCarInput>)
        requires
            map.wf(),
            self.wf(*map),
            map.valid_traversable(on),
        ensures
            // On a parking lane the answer is exactly the parked cars'
            // records, one per occupied spot.
            match on {
                Traversable::Lane(l) => map.lanes[l.id as int].lane_type == LaneType::Parking
                    ==> {
                    &&& forall|i: int|
                        0 <= i < self.parking.spots[l.id as int].len() && (
                        #[trigger] self.parking.spots[l.id as int][i]) is Occupied ==> exists|
                            k: int,
                        |
                            0 <= k < r.len() && r[k] == parked_draw(
                                l,
                                i,
                                self.parking.spots[l.id as int][i]->Occupied_0,
                            )
                    &&& forall|k: int|
                        #![trigger r@[k]]
                        0 <= k < r.len() ==> exists|i: int|
                            0 <= i < self.parking.spots[l.id as int].len() && (
                            #[trigger] self.parking.spots[l.id as int][i]) is Occupied && r[k]
                                == parked_draw(
                                l,
                                i,
                                self.parking.spots[l.id as int][i]->Occupied_0,
                            )
                },
                Traversable::Turn(_) => true,
            },
            // Anywhere else it is exactly the moving cars on the queried
            // lane or turn.
            !(on matches Traversable::Lane(l) && map.lanes[l.id as int].lane_type
                == LaneType::Parking) ==> {
                &&& forall|j: int|
                    0 <= j < self.driving.cars.len() && (#[trigger] self.driving.cars[j]).moving()
                        && self.driving.cars[j].on() == on ==> exists|k: int|
                        0 <= k < r.len() && r[k] == DrivingSimState::draw_of(self.driving.cars[j])
                &&& forall|k: int|
                    #![trigger r@[k]]
                    0 <= k < r.len() ==> exists|j: int|
                        0 <= j < self.driving.cars.len() && (
                        #[trigger] self.driving.cars[j]).moving() && self.driving.cars[j].on() == on
                            && r[k] == DrivingSimState::draw_of(self.driving.cars[j])
            },
    {
        if let Traversable::Lane(l) = on {
            if matches!(map.get_lane(l).lane_type, LaneType::Parking) {
                let parked = self.parking.get_parked_cars_on(l);
                let mut r: Vec<DrawCarInput> = Vec::new();
                let mut m: usize = 0;
                while m < parked.len()
                    invariant
                        m <= parked.len(),
                        self.wf(*map),
                        l.id < self.parking.spots.len(),
                        forall|k: int|
                            0 <= k < parked.len() ==> {
                                &&& (#[trigger] parked[k]).vehicle.length <= SPOT_LENGTH
                                &&& parked[k].spot.idx <= 0x1000
                                &&& parked[k].spot.lane == l
                                &&& self.parking.valid_spot(parked[k].spot)
                                &&& self.parking.parked_vehicle_at(parked[k].spot) == Some(
                                    parked[k].vehicle,
                                )
                            },
                        forall|k: int|
                            0 <= k < m ==> (#[trigger] r@[k]) == parked_draw(
                                l,
                                parked[k].spot.idx as int,
                                parked[k].vehicle,
                            ),
                        r.len() == m,
                    decreases parked.len() - m,
                {
                    let p = &parked[m];
                    r.push(
                        DrawCarInput {
                            id: p.vehicle.id,
                            on: Traversable::Lane(p.spot.lane),
                            front: (p.spot.idx as u64) * SPOT_LENGTH + p.vehicle.length,
                            length: p.vehicle.length,
                            speed: 0,
                        },
                    );
                    m = m + 1;
                }
                proof {
                    assert forall|i: int|
                        0 <= i < self.parking.spots[l.id as int].len() && (
                        #[trigger] self.parking.spots[l.id as int][i]) is Occupied implies exists|
                        k: int,
                    |
                        0 <= k < r.len() && r@[k] == parked_draw(
                            l,
                            i,
                            self.parking.spots[l.id as int][i]->Occupied_0,
                        ) by {
                        let k0 = choose|k0: int|
                            0 <= k0 < parked.len() && (#[trigger] parked[k0]).spot.idx == i;
                        assert(self.parking.parked_vehicle_at(parked[k0].spot) == Some(
                            parked[k0].vehicle,
                        ));
                        assert(parked[k0].spot == (ParkingSpot { lane: l, idx: i as usize }));
                        assert(self.parking.spots[l.id as int][i]->Occupied_0
                            == parked[k0].vehicle);
                        assert(r@[k0] == parked_draw(l, i, parked[k0].vehicle));
                    }
                    assert forall|k: int| #![trigger r@[k]] 0 <= k < r.len() implies exists|i: int|
                        0 <= i < self.parking.spots[l.id as int].len() && (
                        #[trigger] self.parking.spots[l.id as int][i]) is Occupied && r@[k]
                            == parked_draw(
                            l,
                            i,
                            self.parking.spots[l.id as int][i]->Occupied_0,
                        ) by {
                        assert(self.parking.parked_vehicle_at(parked[k].spot) == Some(
                            parked[k].vehicle,
                        ));
                        assert(self.parking.spots[l.id as int][parked[k].spot.idx as int]
                            == SpotState::Occupied(parked[k].vehicle));
                        assert(r@[k] == parked_draw(l, parked[k].spot.idx as int, parked[k].vehicle));
                    }
                }
                return r;
            }
        }
        self.driving.get_draw_cars(Some(on))
    }

    /// Draw records for every pedestrian underway.
    pub fn get_all_draw_peds(&self) -> (r: Vec<DrawPedestrianInput>)
        requires
            forall|i: int|
                0 <= i < self.walking.peds.len() ==> (#[trigger] self.walking.peds[i]).path_idx
                    < self.walking.peds[i].path.len(),
        ensures
            forall|j: int|
                0 <= j < self.walking.peds.len() && (#[trigger] self.walking.peds[j]).moving()
                    ==> exists|k: int|
                    0 <= k < r.len() && r[k] == (DrawPedestrianInput {
                        id: self.walking.peds[j].id,
                        on: self.walking.peds[j].on(),
                        dist: self.walking.peds[j].dist,
                    }),
    {
        self.walking.get_draw_peds(None)
    }

    /// Draw records for the pedestrians on one lane or turn: exactly the
    /// ones underway there.
    pub fn get_draw_peds_on(&self, on: Traversable) -> (r: Vec<DrawPedestrianInput>)
        requires
            forall|i: int|
                0 <= i < self.walking.peds.len() ==> (#[trigger] self.walking.peds[i]).path_idx
                    < self.walking.peds[i].path.len(),
        ensures
            forall|j: int|
                0 <= j < self.walking.peds.len() && (#[trigger] self.walking.peds[j]).moving()
                    && self.walking.peds[j].on() == on ==> exists|k: int|
                    0 <= k < r.len() && r[k] == (DrawPedestrianInput {
                        id: self.walking.peds[j].id,
                        on: self.walking.peds[j].on(),
                        dist: self.walking.peds[j].dist,
                    }),
            forall|k: int|
                #![trigger r@[k]]
                0 <= k < r.len() ==> exists|j: int|
                    0 <= j < self.walking.peds.len() && (#[trigger] self.walking.peds[j]).moving()
                        && self.walking.peds[j].on() == on && r[k] == (DrawPedestrianInput {
                        id: self.walking.peds[j].id,
                        on: self.walking.peds[j].on(),
                        dist: self.walking.peds[j].dist,
                    }),
    {
        self.walking.get_draw_peds(Some(on))
    }
}

} // verus!
