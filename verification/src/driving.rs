//! Per-tick advance of every active car.
//!
//! Each tick a car accelerates toward its maximum speed, is held back by
//! the car ahead on its lane or turn, stops at a segment boundary until
//! the next turn is granted and there is room beyond it, and parks when it
//! reaches its goal. The no-overtake invariant is enforced here: a car's
//! movement is always capped so that the gap to its leader never closes
//! below the following distance.

use vstd::prelude::*;

use crate::intersection::IntersectionSimState;
use crate::map::RoadMap;
use crate::parking::{ParkingSimState, SpotState};
use crate::types::{
    AgentID, CarID, ParkedCar, ParkingSpot, Traversable, TripID, Vehicle, FOLLOWING_DISTANCE,
};
use crate::view::{AgentView, DrawCarInput, WorldView};

verus! {

/// What a car is driving toward on the last leg of its path.
#[derive(Clone, Copy, PartialEq, Eq, Structural, Debug)]
pub enum CarGoal {
    /// Pull into this spot on arrival; it must stay reserved until then.
    Park(ParkingSpot),
    /// Simply stop at the end distance, e.g. at the edge of the map.
    Stop,
}

/// Whether a car is still on the road or done with its leg, awaiting the
/// end-of-tick sweep.
#[derive(Clone, Copy, PartialEq, Eq, Structural, Debug)]
pub enum CarState {
    Moving,
    Finished,
}

pub struct Car {
    pub vehicle: Vehicle,
    pub trip: TripID,
    /// The precomputed route, alternating lanes and turns.
    pub path: Vec<Traversable>,
    /// Index into `path` of the traversable the car is currently on.
    pub path_idx: usize,
    /// Distance of the car's front along the current traversable.
    pub dist: u64,
    /// Speed in centimeters per tick.
    pub speed: u64,
    /// Goal distance along the final path element.
    pub end_dist: u64,
    pub goal: CarGoal,
    pub state: CarState,
}

impl Car {
    pub open spec fn on(self) -> Traversable {
        self.path[self.path_idx as int]
    }

    /// Position of the car's rear bumper.
    pub open spec fn back(self) -> int {
        self.dist - self.vehicle.length
    }

    pub open spec fn moving(self) -> bool {
        self.state is Moving
    }

    /// How this car appears in a per-tick snapshot.
    pub open spec fn view_entry(self) -> AgentView {
        AgentView {
            id: AgentID::Car(self.vehicle.id),
            on: self.on(),
            dist: self.dist,
            speed: self.speed,
            vehicle: Some(self.vehicle),
        }
    }
}

/// Two consecutive path elements are physically connected: a lane flows
/// into a turn leaving it, a turn flows into the lane it reaches.
pub open spec fn linked(map: RoadMap, a: Traversable, b: Traversable) -> bool {
    match (a, b) {
        (Traversable::Lane(l), Traversable::Turn(t)) => map.turns[t.id as int].src == l,
        (Traversable::Turn(t), Traversable::Lane(l)) => map.turns[t.id as int].dst == l,
        _ => false,
    }
}

/// A usable route for a vehicle of the given length: nonempty, in bounds,
/// linked, and with every segment long enough to hold the vehicle.
pub open spec fn path_wf(map: RoadMap, path: Seq<Traversable>, vlen: u64) -> bool {
    &&& 0 < path.len()
    &&& forall|i: int| 0 <= i < path.len() ==> map.valid_traversable(#[trigger] path[i])
    &&& forall|i: int| 0 <= i < path.len() ==> vlen <= map.spec_length_of(#[trigger] path[i])
    &&& forall|i: int| 0 <= i < path.len() - 1 ==> linked(map, #[trigger] path[i], path[i + 1])
}

/// Why a spawn was refused. Each variant names the caller-side condition
/// that failed; nothing is mutated when one is returned.
#[derive(Clone, Copy, PartialEq, Eq, Structural, Debug)]
pub enum SpawnError {
    /// The vehicle's parameters are out of physical bounds.
    BadVehicle,
    /// The path is empty, unlinked, out of the map, or too short a
    /// segment for the vehicle.
    BadPath,
    /// The start or goal distance does not fit its segment.
    BadStart,
    /// A car with this id is already on the road.
    DuplicateCar,
    /// The goal spot is not reserved, or another car already aims for it.
    SpotUnavailable,
    /// The claimed parked car is not occupying that spot.
    NotParkedThere,
    /// Another car sits too close to the start position.
    Blocked,
}

/// An element-for-element copy of a route, so one stored in a trip leg
/// can also be handed to a spawned agent.
#[verifier::loop_isolation(false)]
pub fn copy_path(path: &Vec<Traversable>) -> (r: Vec<Traversable>)
    ensures
        r@ == path@,
{
    let mut r: Vec<Traversable> = Vec::new();
    let mut i: usize = 0;
    while i < path.len()
        invariant
            i <= path.len(),
            r@ == path@.take(i as int),
        decreases path.len() - i,
    {
        r.push(path[i]);
        proof {
            assert(r@ =~= path@.take(i + 1 as int));
        }
        i = i + 1;
    }
    proof {
        assert(r@ =~= path@);
    }
    r
}

/// Decides `linked`.
fn linked_exec(map: &RoadMap, a: Traversable, b: Traversable) -> (r: bool)
    requires
        map.valid_traversable(a),
        map.valid_traversable(b),
    ensures
        r == linked(*map, a, b),
{
    match (a, b) {
        (Traversable::Lane(l), Traversable::Turn(t)) => map.get_turn(t).src == l,
        (Traversable::Turn(t), Traversable::Lane(l)) => map.get_turn(t).dst == l,
        _ => false,
    }
}

/// Decides `path_wf`.
#[verifier::loop_isolation(false)]
pub fn check_path(map: &RoadMap, path: &Vec<Traversable>, vlen: u64) -> (r: bool)
    ensures
        r == path_wf(*map, path@, vlen),
{
    if path.len() == 0 {
        return false;
    }
    let mut i: usize = 0;
    while i < path.len()
        invariant
            i <= path.len(),
            forall|j: int|
                0 <= j < i ==> map.valid_traversable(#[trigger] path[j]) && vlen
                    <= map.spec_length_of(path[j]),
            forall|j: int| 0 <= j < i - 1 ==> linked(*map, #[trigger] path[j], path[j + 1]),
        decreases path.len() - i,
    {
        let t = path[i];
        let ok = match t {
            Traversable::Lane(l) => l.id < map.lanes.len(),
            Traversable::Turn(tn) => tn.id < map.turns.len(),
        };
        if !ok {
            return false;
        }
        if map.length_of(t) < vlen {
            return false;
        }
        if i > 0 {
            if !linked_exec(map, path[i - 1], t) {
                return false;
            }
        }
        i = i + 1;
    }
    true
}

/// One car within physical bounds: on its path, fully on its segment, not
/// past its goal, never over its maximum speed.
pub open spec fn car_wf(map: RoadMap, c: Car) -> bool {
    &&& c.vehicle.valid()
    &&& path_wf(map, c.path@, c.vehicle.length)
    &&& c.path_idx < c.path.len()
    &&& c.vehicle.length <= c.dist <= map.spec_length_of(c.on())
    &&& c.speed <= c.vehicle.max_speed
    &&& c.vehicle.length <= c.end_dist <= map.spec_length_of(c.path@.last())
    &&& (c.path_idx + 1 == c.path.len() ==> c.dist <= c.end_dist)
}

/// The no-overtake relation between two distinct cars: when both are on
/// the road and share a lane or turn, one is wholly ahead of the other
/// with at least the following distance between them.
pub open spec fn separated(a: Car, b: Car) -> bool {
    (a.moving() && b.moving() && a.on() == b.on()) ==> (a.back() >= b.dist + FOLLOWING_DISTANCE
        || b.back() >= a.dist + FOLLOWING_DISTANCE)
}

pub struct DrivingSimState {
    /// Every car on the road, in strictly ascending id order, so that a
    /// tick always processes cars in the same deterministic order.
    pub cars: Vec<Car>,
}

impl DrivingSimState {
    pub open spec fn wf(self, map: RoadMap) -> bool {
        &&& forall|i: int| 0 <= i < self.cars.len() ==> car_wf(map, #[trigger] self.cars[i])
        &&& forall|i: int, j: int|
            0 <= i < j < self.cars.len() ==> (#[trigger] self.cars[i]).vehicle.id.id < (
            #[trigger] self.cars[j]).vehicle.id.id
        &&& forall|i: int, j: int|
            0 <= i < self.cars.len() && 0 <= j < self.cars.len() && i != j ==> separated(
                #[trigger] self.cars[i],
                #[trigger] self.cars[j],
            )
    }

    /// The tie to the parking ledger: every active car aiming for a spot
    /// holds a live reservation on it, and no two cars aim for one spot.
    pub open spec fn goals_consistent(self, parking: ParkingSimState) -> bool {
        &&& forall|i: int|
            0 <= i < self.cars.len() && (#[trigger] self.cars[i]).moving() ==> match self.cars[i].goal {
                CarGoal::Park(s) => parking.valid_spot(s) && parking.state_of(s)
                    == SpotState::Reserved,
                CarGoal::Stop => true,
            }
        &&& forall|i: int, j: int|
            0 <= i < self.cars.len() && 0 <= j < self.cars.len() && i != j && (
            #[trigger] self.cars[i]).moving() && (#[trigger] self.cars[j]).moving()
                ==> match (self.cars[i].goal, self.cars[j].goal) {
                (CarGoal::Park(s1), CarGoal::Park(s2)) => s1 != s2,
                _ => true,
            }
    }

    pub open spec fn has_car(self, id: CarID) -> bool {
        exists|i: int|
            0 <= i < self.cars.len() && (#[trigger] self.cars[i]).vehicle.id == id
                && self.cars[i].moving()
    }

    /// The farthest point a car may reach on its current segment: the
    /// goal distance on the last path element, the segment end otherwise.
    pub open spec fn cap_of(map: RoadMap, c: Car) -> u64 {
        if c.path_idx + 1 == c.path.len() {
            c.end_dist
        } else {
            map.spec_length_of(c.on())
        }
    }

    /// One open-road step: accelerate by the vehicle's gain, never over
    /// its maximum speed, and stop at `cap_of`; nothing else about the
    /// car changes.
    pub open spec fn cruised(map: RoadMap, c: Car) -> Car {
        let cap_end = Self::cap_of(map, c);
        let v: u64 = if c.speed + c.vehicle.max_accel > c.vehicle.max_speed {
            c.vehicle.max_speed
        } else {
            (c.speed + c.vehicle.max_accel) as u64
        };
        let d2: u64 = if c.dist + v < cap_end {
            (c.dist + v) as u64
        } else {
            cap_end
        };
        Car {
            vehicle: c.vehicle,
            trip: c.trip,
            path: c.path,
            path_idx: c.path_idx,
            dist: d2,
            speed: (d2 - c.dist) as u64,
            end_dist: c.end_dist,
            goal: c.goal,
            state: c.state,
        }
    }

    /// Car `j` has the road to itself: it is underway, short of its cap,
    /// and neither the snapshot nor the live roster has any agent ahead
    /// of it on its lane or turn.
    pub open spec fn open_road(self, map: RoadMap, view: WorldView, j: int) -> bool {
        let c = self.cars[j];
        &&& c.moving()
        &&& c.dist < Self::cap_of(map, c)
        &&& (forall|k: int| 0 <= k < view.agents.len() ==> !view.ahead_of(c.on(), c.dist, k))
        &&& (forall|k: int| 0 <= k < self.cars.len() ==> !self.ahead_of(c.on(), c.dist, k))
    }

    pub fn new(_map: &RoadMap) -> (r: DrivingSimState)
        ensures
            r.cars@.len() == 0,
            r.wf(*_map),
            forall|p: ParkingSimState| r.goals_consistent(p),
    {
        DrivingSimState { cars: Vec::new() }
    }

    /// Every car can be read safely: its index is on its path and its
    /// vehicle is within physical bounds.
    pub open spec fn cars_basic(self) -> bool {
        forall|i: int|
            0 <= i < self.cars.len() ==> (#[trigger] self.cars[i]).path_idx < self.cars[i].path.len()
                && self.cars[i].vehicle.valid()
    }

    /// Whether car `j` is an active car strictly ahead of the probe point.
    pub open spec fn ahead_of(self, on: Traversable, dist: u64, j: int) -> bool {
        &&& self.cars[j].moving()
        &&& self.cars[j].on() == on
        &&& self.cars[j].dist > dist
    }

    /// The nearest active car strictly ahead on the same lane or turn: the
    /// leader whose rear bumper caps how far a follower may advance.
    #[verifier::loop_isolation(false)]
    fn nearest_leader(&self, on: Traversable, dist: u64) -> (r: Option<usize>)
        requires
            self.cars_basic(),
        ensures
            match r {
                Some(j) => {
                    &&& j < self.cars.len()
                    &&& self.ahead_of(on, dist, j as int)
                    &&& forall|k: int|
                        0 <= k < self.cars.len() && self.ahead_of(on, dist, k) ==> (
                        #[trigger] self.cars[k]).dist >= self.cars[j as int].dist
                },
                None => forall|k: int| 0 <= k < self.cars.len() ==> !self.ahead_of(on, dist, k),
            },
    {
        let mut best: Option<usize> = None;
        let mut i: usize = 0;
        while i < self.cars.len()
            invariant
                i <= self.cars.len(),
                match best {
                    Some(b) => {
                        &&& b < i
                        &&& self.ahead_of(on, dist, b as int)
                        &&& forall|k: int|
                            0 <= k < i && self.ahead_of(on, dist, k) ==> (
                            #[trigger] self.cars[k]).dist >= self.cars[b as int].dist
                    },
                    None => forall|k: int| 0 <= k < i ==> !self.ahead_of(on, dist, k),
                },
            decreases self.cars.len() - i,
        {
            let c = &self.cars[i];
            if matches!(c.state, CarState::Moving) && c.path[c.path_idx] == on && c.dist > dist {
                match best {
                    Some(b) => {
                        if c.dist < self.cars[b].dist {
                            best = Some(i);
                        }
                    },
                    None => {
                        best = Some(i);
                    },
                }
            }
            i = i + 1;
        }
        best
    }

    /// Whether a vehicle of the given length fits at the very start of a
    /// lane or turn without crowding anyone already on it.
    #[verifier::loop_isolation(false)]
    fn room_to_enter(&self, on: Traversable, vlen: u64) -> (r: bool)
        requires
            self.cars_basic(),
            vlen <= crate::types::SPOT_LENGTH,
        ensures
            r == forall|j: int|
                0 <= j < self.cars.len() && (#[trigger] self.cars[j]).moving() && self.cars[j].on()
                    == on ==> self.cars[j].back() >= vlen + FOLLOWING_DISTANCE,
    {
        let mut i: usize = 0;
        while i < self.cars.len()
            invariant
                i <= self.cars.len(),
                forall|j: int|
                    0 <= j < i && (#[trigger] self.cars[j]).moving() && self.cars[j].on() == on
                        ==> self.cars[j].back() >= vlen + FOLLOWING_DISTANCE,
            decreases self.cars.len() - i,
        {
            let c = &self.cars[i];
            if matches!(c.state, CarState::Moving) && c.path[c.path_idx] == on {
                if c.dist < c.vehicle.length + (vlen + FOLLOWING_DISTANCE) {
                    return false;
                }
            }
            i = i + 1;
        }
        true
    }

    /// Advances one car by one tick: accelerate toward the maximum speed,
    /// never closer to the snapshot leader than the car could stop within,
    /// clamped so the live gap to the car ahead stays open; cross into the
    /// next path element when at a boundary with a grant and room beyond;
    /// park or stop on arrival. Returns the trip whose driving leg
    /// completed this tick, if any.
    pub fn step_car(
        &mut self,
        i: usize,
        time: u64,
        map: &RoadMap,
        view: &WorldView,
        parking: &mut ParkingSimState,
        intersections: &mut IntersectionSimState,
    ) -> (evt: Option<TripID>)
        requires
            map.wf(),
            old(self).wf(*map),
            old(parking).wf(*map),
            old(self).goals_consistent(*old(parking)),
            old(intersections).wf(*map),
            i < old(self).cars.len(),
        ensures
            final(self).cars.len() == old(self).cars.len(),
            forall|j: int|
                0 <= j < final(self).cars.len() && j != i as int ==> final(self).cars[j] == old(
                    self,
                ).cars[j],
            final(self).cars[i as int].vehicle == old(self).cars[i as int].vehicle,
            final(self).cars[i as int].trip == old(self).cars[i as int].trip,
            final(self).cars[i as int].goal == old(self).cars[i as int].goal,
            final(self).cars[i as int].path == old(self).cars[i as int].path,
            final(self).cars[i as int].end_dist == old(self).cars[i as int].end_dist,
            // Cars only go forward: along the path, and along the segment
            // whenever they stay on it.
            old(self).cars[i as int].path_idx <= final(self).cars[i as int].path_idx,
            final(self).cars[i as int].path_idx <= old(self).cars[i as int].path_idx + 1,
            final(self).cars[i as int].path_idx == old(self).cars[i as int].path_idx
                ==> final(self).cars[i as int].dist >= old(self).cars[i as int].dist,
            final(self).wf(*map),
            final(parking).wf(*map),
            final(self).goals_consistent(*final(parking)),
            final(intersections).wf(*map),
            // On an open road the kinematics are exact: accelerate by at
            // most the vehicle's gain, never over its maximum speed, and
            // stop at the segment end or the goal.
            old(self).open_road(*map, *view, i as int) ==> final(self).cars[i as int]
                == Self::cruised(*map, old(self).cars[i as int]) && evt is None,
            // A leg that starts the tick at its goal is reported done.
            ({
                let c = old(self).cars[i as int];
                (c.moving() && c.path_idx + 1 == c.path.len() && c.dist == c.end_dist) ==> evt
                    == Some(c.trip) && !final(self).cars[i as int].moving()
            }),
            // No overtaking within a step: the stepped car never ends up
            // ahead of a moving car it was not already ahead of.
            forall|j: int|
                0 <= j < old(self).cars.len() && j != i as int && (
                #[trigger] old(self).cars[j]).moving() && !old(self).ahead_of(
                    old(self).cars[j].on(),
                    old(self).cars[j].dist,
                    i as int,
                ) ==> !final(self).ahead_of(
                    old(self).cars[j].on(),
                    old(self).cars[j].dist,
                    i as int,
                ),
            match evt {
                Some(t) => {
                    &&& t == old(self).cars[i as int].trip
                    &&& old(self).cars[i as int].moving()
                    &&& !final(self).cars[i as int].moving()
                    &&& match old(self).cars[i as int].goal {
                        CarGoal::Park(s) => ParkingSimState::same_but(
                            *old(parking),
                            *final(parking),
                            s,
                        ) && final(parking).state_of(s) == SpotState::Occupied(
                            old(self).cars[i as int].vehicle,
                        ),
                        CarGoal::Stop => *final(parking) == *old(parking),
                    }
                },
                None => *final(parking) == *old(parking) && final(self).cars[i as int].state == old(
                    self,
                ).cars[i as int].state,
            },
    {
        if matches!(self.cars[i].state, CarState::Finished) {
            return None;
        }
        let vlen = self.cars[i].vehicle.length;
        let cid = self.cars[i].vehicle.id;
        let idx = self.cars[i].path_idx;
        let on = self.cars[i].path[idx];
        let len = map.length_of(on);
        let last = idx + 1 == self.cars[i].path.len();
        let dist = self.cars[i].dist;
        let ghost pre = *self;
        if last && dist == self.cars[i].end_dist {
            let trip = self.cars[i].trip;
            // A leg may end on a turn; the grant is released with it.
            if let Traversable::Turn(t_here) = on {
                intersections.turn_finished(AgentID::Car(cid), t_here, map);
            }
            match self.cars[i].goal {
                CarGoal::Park(spot) => {
                    let vehicle = self.cars[i].vehicle;
                    proof {
                        assert(parking.state_of(spot) == SpotState::Reserved);
                    }
                    parking.add_parked_car(ParkedCar { vehicle, spot });
                    self.cars[i].state = CarState::Finished;
                    proof {
                        assert forall|j: int|
                            0 <= j < self.cars.len() && j != i as int && (
                            #[trigger] self.cars[j]).moving() implies match self.cars[j].goal {
                            CarGoal::Park(s) => parking.valid_spot(s) && parking.state_of(s)
                                == SpotState::Reserved,
                            CarGoal::Stop => true,
                        } by {
                            assert(self.cars[j] == pre.cars[j]);
                            match pre.cars[j].goal {
                                CarGoal::Park(s) => {
                                    assert(s != spot);
                                },
                                CarGoal::Stop => {},
                            }
                        }
                    }
                },
                CarGoal::Stop => {
                    self.cars[i].state = CarState::Finished;
                },
            }
            return Some(trip);
        }
        if dist == len {
            proof {
                // On the final element the cap is the goal distance, so a
                // car at the segment's very end has already arrived.
                assert(!last);
            }
            let next = self.cars[i].path[idx + 1];
            let granted = match next {
                Traversable::Turn(t) => intersections.request_turn(
                    AgentID::Car(cid),
                    t,
                    time,
                    map,
                ),
                Traversable::Lane(_) => true,
            };
            if granted && self.room_to_enter(next, vlen) {
                if let Traversable::Turn(t_old) = on {
                    intersections.turn_finished(AgentID::Car(cid), t_old, map);
                }
                self.cars[i].path_idx = idx + 1;
                self.cars[i].dist = vlen;
                proof {
                    assert(car_wf(*map, self.cars[i as int]));
                    assert forall|j: int|
                        0 <= j < self.cars.len() && j != i as int implies separated(
                        self.cars[i as int],
                        #[trigger] self.cars[j],
                    ) && separated(self.cars[j], self.cars[i as int]) by {
                        assert(self.cars[j] == pre.cars[j]);
                    }
                    // Entering the next segment behind everyone on it:
                    // `room_to_enter` kept every rear bumper ahead of the
                    // entry point.
                    assert forall|j: int|
                        0 <= j < self.cars.len() && j != i as int && (
                        #[trigger] pre.cars[j]).moving() && !pre.ahead_of(
                            pre.cars[j].on(),
                            pre.cars[j].dist,
                            i as int,
                        ) implies !self.ahead_of(
                        pre.cars[j].on(),
                        pre.cars[j].dist,
                        i as int,
                    ) by {
                        let cj = pre.cars[j];
                        if cj.on() == next {
                            assert(cj.back() >= vlen + FOLLOWING_DISTANCE);
                            assert(car_wf(*map, cj));
                        }
                    }
                }
            } else {
                self.cars[i].speed = 0;
                proof {
                    assert forall|j: int|
                        0 <= j < self.cars.len() && j != i as int implies separated(
                        self.cars[i as int],
                        #[trigger] self.cars[j],
                    ) && separated(self.cars[j], self.cars[i as int]) by {
                        assert(self.cars[j] == pre.cars[j]);
                        assert(separated(pre.cars[i as int], pre.cars[j]));
                        assert(separated(pre.cars[j], pre.cars[i as int]));
                    }
                }
            }
            return None;
        }
        // Cruising within the current segment.
        let c_speed = self.cars[i].speed;
        let c_acc = self.cars[i].vehicle.max_accel;
        let c_max = self.cars[i].vehicle.max_speed;
        let mut v_des = c_speed + c_acc;
        if v_des > c_max {
            v_des = c_max;
        }
        // Car-following decision from the consistent snapshot: with
        // instant braking, a safe speed never exceeds the open gap behind
        // the leader's rear bumper.
        match view.next_car_in_front_of(on, dist) {
            Some(a) => {
                proof {
                    let k = choose|k: int|
                        0 <= k < view.agents.len() && #[trigger] view.agents[k] == *a;
                    assert(view.ahead_of(on, dist, k));
                }
                let lead_len = match a.vehicle {
                    Some(v) => v.length,
                    None => 0,
                };
                let lead_back = if a.dist >= lead_len {
                    a.dist - lead_len
                } else {
                    0
                };
                let gap = if lead_back >= dist && lead_back - dist >= FOLLOWING_DISTANCE {
                    lead_back - dist - FOLLOWING_DISTANCE
                } else {
                    0
                };
                if v_des > gap {
                    v_des = gap;
                }
            },
            None => {},
        }
        let cap_end = if last {
            self.cars[i].end_dist
        } else {
            len
        };
        // Safety clamp against the live state: never close the gap to the
        // nearest car ahead below the following distance.
        let leader = self.nearest_leader(on, dist);
        let cap = match leader {
            Some(j) => {
                proof {
                    assert(separated(pre.cars[i as int], pre.cars[j as int]));
                }
                let lb = self.cars[j].dist - self.cars[j].vehicle.length - FOLLOWING_DISTANCE;
                if lb < cap_end {
                    lb
                } else {
                    cap_end
                }
            },
            None => cap_end,
        };
        let new_dist = if dist + v_des < cap {
            dist + v_des
        } else {
            cap
        };
        self.cars[i].speed = new_dist - dist;
        self.cars[i].dist = new_dist;
        proof {
            assert(car_wf(*map, self.cars[i as int]));
            let ci = self.cars[i as int];
            assert forall|j: int|
                0 <= j < self.cars.len() && j != i as int implies separated(
                ci,
                #[trigger] self.cars[j],
            ) && separated(self.cars[j], ci) by {
                assert(self.cars[j] == pre.cars[j]);
                let cj = pre.cars[j];
                if cj.moving() && cj.on() == on {
                    assert(separated(pre.cars[i as int], cj));
                    assert(separated(cj, pre.cars[i as int]));
                    if cj.dist > dist {
                        // `j` was ahead: the clamp kept the gap open.
                        assert(pre.ahead_of(on, dist, j));
                        match leader {
                            Some(jl) => {
                                if j != jl as int {
                                    assert(separated(pre.cars[jl as int], cj));
                                }
                            },
                            None => {
                                assert(false);
                            },
                        }
                    }
                }
            }
            // No overtaking: the clamp stops short of every car that was
            // ahead, and a car level with this one cannot exist.
            assert forall|j: int|
                0 <= j < self.cars.len() && j != i as int && (
                #[trigger] pre.cars[j]).moving() && !pre.ahead_of(
                    pre.cars[j].on(),
                    pre.cars[j].dist,
                    i as int,
                ) implies !self.ahead_of(pre.cars[j].on(), pre.cars[j].dist, i as int) by {
                let cj = pre.cars[j];
                if cj.on() == on {
                    assert(car_wf(*map, pre.cars[i as int]));
                    assert(car_wf(*map, cj));
                    assert(separated(pre.cars[i as int], cj));
                    assert(separated(cj, pre.cars[i as int]));
                    if cj.dist > dist {
                        assert(pre.ahead_of(on, dist, j));
                        match leader {
                            Some(jl) => {
                                assert(pre.cars[jl as int].dist <= cj.dist);
                            },
                            None => {
                                assert(false);
                            },
                        }
                    } else {
                        // level with this car: impossible under the
                        // separation invariant
                        assert(cj.dist == dist);
                        assert(false);
                    }
                }
            }
            // On an open road nothing reduced the desired speed, so the
            // step is the exact cruise.
            if pre.open_road(*map, *view, i as int) {
                match leader {
                    Some(jl) => {
                        assert(pre.ahead_of(on, dist, jl as int));
                        assert(false);
                    },
                    None => {},
                }
                assert(self.cars[i as int] == Self::cruised(*map, pre.cars[i as int]));
            }
        }
        None
    }

    /// Removes the cars whose leg completed this tick; every car still
    /// underway survives unchanged, in the same relative order.
    #[verifier::loop_isolation(false)]
    pub fn sweep_finished(&mut self, map: &RoadMap, parking: &ParkingSimState)
        requires
            old(self).wf(*map),
            old(self).goals_consistent(*parking),
        ensures
            final(self).wf(*map),
            final(self).goals_consistent(*parking),
            forall|k: int|
                0 <= k < final(self).cars.len() ==> (#[trigger] final(self).cars[k]).moving(),
            forall|j: int|
                0 <= j < old(self).cars.len() && (#[trigger] old(self).cars[j]).moving()
                    ==> exists|k: int|
                    0 <= k < final(self).cars.len() && final(self).cars[k] == old(self).cars[j],
    {
        proof {
            assert forall|j: int|
                0 <= j < old(self).cars.len() && (#[trigger] old(self).cars[j]).moving() implies exists|
                k: int,
            |
                0 <= k < self.cars.len() && self.cars[k] == old(self).cars[j] by {
                assert(self.cars[j] == old(self).cars[j]);
            }
        }
        let mut i: usize = 0;
        while i < self.cars.len()
            invariant
                self.wf(*map),
                self.goals_consistent(*parking),
                i <= self.cars.len(),
                forall|k: int| 0 <= k < i ==> (#[trigger] self.cars[k]).moving(),
                forall|j: int|
                    0 <= j < old(self).cars.len() && (#[trigger] old(self).cars[j]).moving()
                        ==> exists|k: int|
                        0 <= k < self.cars.len() && self.cars[k] == old(self).cars[j],
            decreases self.cars.len() - i,
        {
            if matches!(self.cars[i].state, CarState::Finished) {
                let ghost c0 = self.cars@;
                self.cars.remove(i);
                proof {
                    assert forall|j: int|
                        0 <= j < old(self).cars.len() && (
                        #[trigger] old(self).cars[j]).moving() implies exists|k: int|
                        0 <= k < self.cars.len() && self.cars[k] == old(self).cars[j] by {
                        let k0 = choose|k0: int|
                            0 <= k0 < c0.len() && c0[k0] == old(self).cars[j];
                        assert(c0[i as int].state is Finished);
                        assert(k0 != i);
                        if k0 < i {
                            assert(self.cars@[k0] == old(self).cars@[j]);
                        } else {
                            assert(self.cars@[k0 - 1] == old(self).cars@[j]);
                        }
                    }
                    assert forall|k: int| 0 <= k < self.cars.len() implies (
                    #[trigger] self.cars[k]) == c0[if k < i { k } else { k + 1 }] by {}
                    assert(self.wf(*map)) by {
                        assert forall|k: int, l: int|
                            0 <= k < l < self.cars.len() implies (
                        #[trigger] self.cars[k]).vehicle.id.id < (
                        #[trigger] self.cars[l]).vehicle.id.id by {
                            let k1: int = if k < i { k } else { k + 1 };
                            let l1: int = if l < i { l } else { l + 1 };
                            assert(self.cars[k] == c0[k1] && self.cars[l] == c0[l1]);
                        }
                        assert forall|k: int, l: int|
                            0 <= k < self.cars.len() && 0 <= l < self.cars.len() && k
                                != l implies separated(
                            #[trigger] self.cars[k],
                            #[trigger] self.cars[l],
                        ) by {
                            let k1: int = if k < i { k } else { k + 1 };
                            let l1: int = if l < i { l } else { l + 1 };
                            assert(self.cars[k] == c0[k1] && self.cars[l] == c0[l1]);
                        }
                    }
                    assert(self.goals_consistent(*parking)) by {
                        assert forall|k: int, l: int|
                            0 <= k < self.cars.len() && 0 <= l < self.cars.len() && k != l && (
                            #[trigger] self.cars[k]).moving() && (
                            #[trigger] self.cars[l]).moving() implies match (self.cars[k].goal,
                        self.cars[l].goal) {
                            (CarGoal::Park(s1), CarGoal::Park(s2)) => s1 != s2,
                            _ => true,
                        } by {
                            let k1: int = if k < i { k } else { k + 1 };
                            let l1: int = if l < i { l } else { l + 1 };
                            assert(self.cars[k] == c0[k1] && self.cars[l] == c0[l1]);
                        }
                    }
                }
            } else {
                i = i + 1;
            }
        }
    }

    /// Advances every car one tick, in ascending id order, then sweeps the
    /// cars whose driving leg just completed. Returns the trips whose
    /// driving legs completed, in processing order.
    #[verifier::loop_isolation(false)]
    pub fn step_if_needed(
        &mut self,
        time: u64,
        map: &RoadMap,
        view: &WorldView,
        parking: &mut ParkingSimState,
        intersections: &mut IntersectionSimState,
    ) -> (done: Vec<TripID>)
        requires
            map.wf(),
            old(self).wf(*map),
            old(parking).wf(*map),
            old(self).goals_consistent(*old(parking)),
            old(intersections).wf(*map),
        ensures
            final(self).wf(*map),
            final(parking).wf(*map),
            final(self).goals_consistent(*final(parking)),
            final(intersections).wf(*map),
            forall|k: int|
                0 <= k < final(self).cars.len() ==> (#[trigger] final(self).cars[k]).moving(),
            // Every car that starts the tick with an open road ahead
            // drives exactly one kinematic step and stays in the roster.
            forall|j: int|
                0 <= j < old(self).cars.len() && #[trigger] old(self).open_road(*map, *view, j)
                    ==> exists|k: int|
                    0 <= k < final(self).cars.len() && final(self).cars[k] == Self::cruised(
                        *map,
                        old(self).cars[j],
                    ),
            // Every driving leg that starts the tick at its goal is
            // reported done.
            forall|j: int|
                0 <= j < old(self).cars.len() && (#[trigger] old(self).cars[j]).moving() && old(
                    self,
                ).cars[j].path_idx + 1 == old(self).cars[j].path.len() && old(self).cars[j].dist
                    == old(self).cars[j].end_dist ==> done@.contains(old(self).cars[j].trip),
    {
        let mut done: Vec<TripID> = Vec::new();
        let mut i: usize = 0;
        while i < self.cars.len()
            invariant
                i <= self.cars.len(),
                self.cars.len() == old(self).cars.len(),
                self.wf(*map),
                parking.wf(*map),
                self.goals_consistent(*parking),
                intersections.wf(*map),
                forall|j: int| i <= j < self.cars.len() ==> self.cars[j] == old(self).cars[j],
                forall|j: int|
                    0 <= j < i && #[trigger] old(self).open_road(*map, *view, j) ==> self.cars[j]
                        == Self::cruised(*map, old(self).cars[j]),
                // Cars not yet stepped keep the road ahead of them open:
                // nobody steps past a car it was behind.
                forall|j: int|
                    i <= j < self.cars.len() && #[trigger] old(self).open_road(*map, *view, j)
                        ==> forall|k: int|
                        0 <= k < self.cars.len() ==> !self.ahead_of(
                            old(self).cars[j].on(),
                            old(self).cars[j].dist,
                            k,
                        ),
                forall|j: int|
                    0 <= j < i && (#[trigger] old(self).cars[j]).moving() && old(
                        self,
                    ).cars[j].path_idx + 1 == old(self).cars[j].path.len() && old(self).cars[j].dist
                        == old(self).cars[j].end_dist ==> done@.contains(old(self).cars[j].trip),
                forall|k: int|
                    #![trigger done@[k]]
                    0 <= k < done.len() ==> exists|j: int|
                        0 <= j < old(self).cars.len() && (#[trigger] old(self).cars[j]).moving()
                            && old(self).cars[j].trip == done[k],
            decreases self.cars.len() - i,
        {
            let ghost s_pre = *self;
            let ghost done_pre = done@;
            proof {
                if old(self).open_road(*map, *view, i as int) {
                    assert(s_pre.open_road(*map, *view, i as int));
                }
            }
            match self.step_car(i, time, map, view, parking, intersections) {
                Some(t) => done.push(t),
                None => {},
            }
            proof {
                assert forall|j: int|
                    i + 1 <= j < self.cars.len() && old(self).open_road(
                        *map,
                        *view,
                        j,
                    ) implies forall|k: int|
                    0 <= k < self.cars.len() ==> !self.ahead_of(
                        old(self).cars[j].on(),
                        old(self).cars[j].dist,
                        k,
                    ) by {
                    let cj = old(self).cars[j];
                    assert forall|k: int| 0 <= k < self.cars.len() implies !self.ahead_of(
                        cj.on(),
                        cj.dist,
                        k,
                    ) by {
                        if k != i as int {
                            assert(self.cars[k] == s_pre.cars[k]);
                            assert(!s_pre.ahead_of(cj.on(), cj.dist, k));
                        } else {
                            assert(s_pre.cars[j] == cj);
                            assert(cj.moving());
                            assert(!s_pre.ahead_of(cj.on(), cj.dist, i as int));
                        }
                    }
                }
                assert forall|k: int| #![trigger done@[k]] 0 <= k < done.len() implies exists|j: int|
                    0 <= j < old(self).cars.len() && (#[trigger] old(self).cars[j]).moving() && old(
                        self,
                    ).cars[j].trip == done@[k] by {
                    if k < done_pre.len() {
                        assert(done@[k] == done_pre[k]);
                    } else {
                        assert(s_pre.cars[i as int] == old(self).cars[i as int]);
                        assert(old(self).cars[i as int].moving());
                        assert(old(self).cars[i as int].trip == done@[k]);
                    }
                }
                assert forall|j: int|
                    0 <= j < i + 1 && (#[trigger] old(self).cars[j]).moving() && old(
                        self,
                    ).cars[j].path_idx + 1 == old(self).cars[j].path.len() && old(self).cars[j].dist
                        == old(self).cars[j].end_dist implies done@.contains(
                    old(self).cars[j].trip,
                ) by {
                    if j < i {
                        let k0 = choose|k0: int|
                            0 <= k0 < done_pre.len() && done_pre[k0] == old(self).cars[j].trip;
                        assert(done@[k0] == old(self).cars[j].trip);
                    } else {
                        assert(s_pre.cars[i as int] == old(self).cars[i as int]);
                        assert(done@[done@.len() - 1] == old(self).cars[j].trip);
                    }
                }
            }
            i = i + 1;
        }
        let ghost stepped = *self;
        self.sweep_finished(map, parking);
        proof {
            assert forall|j: int|
                0 <= j < old(self).cars.len() && #[trigger] old(self).open_road(
                    *map,
                    *view,
                    j,
                ) implies exists|k: int|
                0 <= k < self.cars.len() && self.cars[k] == Self::cruised(
                    *map,
                    old(self).cars[j],
                ) by {
                assert(stepped.cars[j] == Self::cruised(*map, old(self).cars[j]));
                assert(stepped.cars[j].moving());
            }
        }
        done
    }

    /// Appends one snapshot entry per active car, in car order.
    #[verifier::loop_isolation(false)]
    pub fn append_agent_views(&self, view: &mut WorldView)
        requires
            self.cars_basic(),
        ensures
            forall|k: int|
                0 <= k < old(view).agents.len() ==> (#[trigger] final(view).agents[k]) == old(
                    view,
                ).agents[k],
            forall|k: int|
                #![trigger final(view).agents[k]]
                old(view).agents.len() <= k < final(view).agents.len() ==> exists|j: int|
                    0 <= j < self.cars.len() && (#[trigger] self.cars[j]).moving() && final(view).agents[k] == self.cars[j].view_entry(),
            forall|j: int|
                0 <= j < self.cars.len() && (#[trigger] self.cars[j]).moving() ==> exists|k: int|
                    0 <= k < final(view).agents.len() && final(view).agents[k]
                        == self.cars[j].view_entry(),
    {
        let mut i: usize = 0;
        while i < self.cars.len()
            invariant
                i <= self.cars.len(),
                forall|k: int|
                    0 <= k < old(view).agents.len() ==> (#[trigger] view.agents[k]) == old(
                        view,
                    ).agents[k],
                view.agents.len() >= old(view).agents.len(),
                forall|k: int|
                    #![trigger view.agents[k]]
                    old(view).agents.len() <= k < view.agents.len() ==> exists|j: int|
                        0 <= j < self.cars.len() && (#[trigger] self.cars[j]).moving()
                            && view.agents[k] == self.cars[j].view_entry(),
                forall|j: int|
                    0 <= j < i && (#[trigger] self.cars[j]).moving() ==> exists|k: int|
                        0 <= k < view.agents.len() && view.agents[k] == self.cars[j].view_entry(),
            decreases self.cars.len() - i,
        {
            let c = &self.cars[i];
            if matches!(c.state, CarState::Moving) {
                let entry = AgentView {
                    id: AgentID::Car(c.vehicle.id),
                    on: c.path[c.path_idx],
                    dist: c.dist,
                    speed: c.speed,
                    vehicle: Some(c.vehicle),
                };
                let ghost v_pre = view.agents@;
                view.agents.push(entry);
                proof {
                    assert(view.agents@[v_pre.len() as int] == self.cars[i as int].view_entry());
                    assert forall|k: int|
                        #![trigger view.agents[k]]
                        old(view).agents.len() <= k < view.agents.len() implies exists|j: int|
                        0 <= j < self.cars.len() && (#[trigger] self.cars[j]).moving()
                            && view.agents[k] == self.cars[j].view_entry() by {
                        if k < v_pre.len() {
                            let j0 = choose|j0: int|
                                0 <= j0 < self.cars.len() && (#[trigger] self.cars[j0]).moving()
                                    && v_pre[k] == self.cars[j0].view_entry();
                            assert(view.agents[k] == self.cars[j0].view_entry());
                        } else {
                            assert(view.agents[k] == self.cars[i as int].view_entry());
                        }
                    }
                    assert forall|j: int|
                        0 <= j < i + 1 && (#[trigger] self.cars[j]).moving() implies exists|k: int|
                        0 <= k < view.agents.len() && view.agents[k]
                            == self.cars[j].view_entry() by {
                        if j < i {
                            let k0 = choose|k0: int|
                                0 <= k0 < v_pre.len() && v_pre[k0] == self.cars[j].view_entry();
                            assert(view.agents[k0] == self.cars[j].view_entry());
                        } else {
                            assert(view.agents[v_pre.len() as int] == self.cars[j].view_entry());
                        }
                    }
                }
            }
            i = i + 1;
        }
    }

    /// Whether the goal is an available target: a stop anywhere, or a spot
    /// that is reserved and that no other active car already aims for.
    pub open spec fn spot_ok(self, parking: ParkingSimState, goal: CarGoal) -> bool {
        match goal {
            CarGoal::Park(s) => parking.valid_spot(s) && parking.state_of(s)
                == SpotState::Reserved && forall|j: int|
                0 <= j < self.cars.len() && (#[trigger] self.cars[j]).moving()
                    ==> self.cars[j].goal != CarGoal::Park(s),
            CarGoal::Stop => true,
        }
    }

    /// Whether the vacated spot really holds this vehicle.
    pub open spec fn unpark_ok(
        parking: ParkingSimState,
        vehicle: Vehicle,
        unpark: Option<ParkedCar>,
    ) -> bool {
        match unpark {
            Some(p) => p.vehicle == vehicle && parking.valid_spot(p.spot) && parking.state_of(
                p.spot,
            ) == SpotState::Occupied(vehicle),
            None => true,
        }
    }

    /// Whether the start position leaves the required gap to every active
    /// car already on the first path element.
    pub open spec fn entry_clear(
        self,
        first: Traversable,
        vehicle: Vehicle,
        start_dist: u64,
    ) -> bool {
        forall|j: int|
            0 <= j < self.cars.len() && (#[trigger] self.cars[j]).moving() && self.cars[j].on()
                == first ==> (self.cars[j].back() >= start_dist + FOLLOWING_DISTANCE
                || start_dist - vehicle.length >= self.cars[j].dist + FOLLOWING_DISTANCE)
    }

    /// The exact outcome of a spawn attempt, checks in order.
    pub open spec fn spawn_outcome(
        self,
        parking: ParkingSimState,
        map: RoadMap,
        vehicle: Vehicle,
        path: Seq<Traversable>,
        start_dist: u64,
        end_dist: u64,
        goal: CarGoal,
        unpark: Option<ParkedCar>,
    ) -> Result<(), SpawnError> {
        if !vehicle.valid() {
            Err(SpawnError::BadVehicle)
        } else if !path_wf(map, path, vehicle.length) {
            Err(SpawnError::BadPath)
        } else if !(vehicle.length <= start_dist <= map.spec_length_of(path[0])
            && vehicle.length <= end_dist <= map.spec_length_of(path.last()) && (path.len() == 1
            ==> start_dist <= end_dist)) {
            Err(SpawnError::BadStart)
        } else if exists|j: int|
            0 <= j < self.cars.len() && (#[trigger] self.cars[j]).vehicle.id == vehicle.id {
            Err(SpawnError::DuplicateCar)
        } else if !self.spot_ok(parking, goal) {
            Err(SpawnError::SpotUnavailable)
        } else if !Self::unpark_ok(parking, vehicle, unpark) {
            Err(SpawnError::NotParkedThere)
        } else if !self.entry_clear(path[0], vehicle, start_dist) {
            Err(SpawnError::Blocked)
        } else {
            Ok(())
        }
    }

    /// Puts a new car on the road at the start of its precomputed path,
    /// vacating the spot it pulls out of, if any. Nothing changes when any
    /// check fails; the error says which one.
    #[verifier::loop_isolation(false)]
    #[verifier::rlimit(60)]
    pub fn spawn_car(
        &mut self,
        vehicle: Vehicle,
        trip: TripID,
        path: Vec<Traversable>,
        start_dist: u64,
        end_dist: u64,
        goal: CarGoal,
        unpark: Option<ParkedCar>,
        map: &RoadMap,
        parking: &mut ParkingSimState,
    ) -> (r: Result<(), SpawnError>)
        requires
            map.wf(),
            old(self).wf(*map),
            old(parking).wf(*map),
            old(self).goals_consistent(*old(parking)),
        ensures
            r == old(self).spawn_outcome(
                *old(parking),
                *map,
                vehicle,
                path@,
                start_dist,
                end_dist,
                goal,
                unpark,
            ),
            final(self).wf(*map),
            final(parking).wf(*map),
            final(self).goals_consistent(*final(parking)),
            match r {
                Ok(_) => {
                    &&& final(self).cars.len() == old(self).cars.len() + 1
                    &&& final(self).has_car(vehicle.id)
                    &&& exists|k: int|
                        0 <= k < final(self).cars.len() && final(self).cars[k] == (Car {
                            vehicle,
                            trip,
                            path,
                            path_idx: 0,
                            dist: start_dist,
                            speed: 0,
                            end_dist,
                            goal,
                            state: CarState::Moving,
                        })
                    &&& match unpark {
                        Some(p) => ParkingSimState::same_but(*old(parking), *final(parking), p.spot)
                            && final(parking).state_of(p.spot) == SpotState::Free,
                        None => *final(parking) == *old(parking),
                    }
                },
                Err(_) => final(self).cars@ == old(self).cars@ && *final(parking) == *old(parking),
            },
    {
        if !vehicle.is_valid() {
            return Err(SpawnError::BadVehicle);
        }
        if !check_path(map, &path, vehicle.length) {
            return Err(SpawnError::BadPath);
        }
        let first = path[0];
        let last_el = path[path.len() - 1];
        let len0 = map.length_of(first);
        let len_last = map.length_of(last_el);
        if !(vehicle.length <= start_dist && start_dist <= len0 && vehicle.length <= end_dist
            && end_dist <= len_last && (if path.len() == 1 {
            start_dist <= end_dist
        } else {
            true
        })) {
            return Err(SpawnError::BadStart);
        }
        // Duplicate id check.
        let mut i: usize = 0;
        while i < self.cars.len()
            invariant
                i <= self.cars.len(),
                forall|j: int| 0 <= j < i ==> (#[trigger] self.cars[j]).vehicle.id != vehicle.id,
            decreases self.cars.len() - i,
        {
            if self.cars[i].vehicle.id == vehicle.id {
                return Err(SpawnError::DuplicateCar);
            }
            i = i + 1;
        }
        // Goal spot check.
        match goal {
            CarGoal::Park(s) => {
                match parking.spot_state_of(s) {
                    Some(SpotState::Reserved) => {},
                    _ => {
                        return Err(SpawnError::SpotUnavailable);
                    },
                }
                let mut j: usize = 0;
                while j < self.cars.len()
                    invariant
                        j <= self.cars.len(),
                        forall|k: int|
                            0 <= k < j && (#[trigger] self.cars[k]).moving() ==> self.cars[k].goal
                                != CarGoal::Park(s),
                    decreases self.cars.len() - j,
                {
                    if matches!(self.cars[j].state, CarState::Moving) && self.cars[j].goal
                        == CarGoal::Park(s) {
                        return Err(SpawnError::SpotUnavailable);
                    }
                    j = j + 1;
                }
            },
            CarGoal::Stop => {},
        }
        // Unpark check.
        match unpark {
            Some(p) => {
                let held = match parking.spot_state_of(p.spot) {
                    Some(SpotState::Occupied(v)) => v == vehicle && p.vehicle == vehicle,
                    _ => false,
                };
                if !held {
                    return Err(SpawnError::NotParkedThere);
                }
            },
            None => {},
        }
        // Entry gap check against every active car on the first segment.
        let mut j: usize = 0;
        while j < self.cars.len()
            invariant
                j <= self.cars.len(),
                forall|k: int|
                    0 <= k < j && (#[trigger] self.cars[k]).moving() && self.cars[k].on() == first
                        ==> (self.cars[k].back() >= start_dist + FOLLOWING_DISTANCE
                        || start_dist - vehicle.length >= self.cars[k].dist + FOLLOWING_DISTANCE),
            decreases self.cars.len() - j,
        {
            let c = &self.cars[j];
            if matches!(c.state, CarState::Moving) && c.path[c.path_idx] == first {
                let clear_behind = c.dist >= c.vehicle.length && c.dist - c.vehicle.length
                    >= start_dist + FOLLOWING_DISTANCE;
                let clear_ahead = start_dist >= vehicle.length && start_dist - vehicle.length
                    >= c.dist + FOLLOWING_DISTANCE;
                if !clear_behind && !clear_ahead {
                    return Err(SpawnError::Blocked);
                }
            }
            j = j + 1;
        }
        // All checks passed: vacate the old spot and take the road.
        match unpark {
            Some(p) => {
                parking.remove_parked_car(p);
            },
            None => {},
        }
        let car = Car {
            vehicle,
            trip,
            path,
            path_idx: 0,
            dist: start_dist,
            speed: 0,
            end_dist,
            goal,
            state: CarState::Moving,
        };
        self.insert_car(car, map, parking);
        Ok(())
    }

    /// Places a fully checked car into the id-ordered roster.
    #[verifier::loop_isolation(false)]
    #[verifier::rlimit(60)]
    fn insert_car(&mut self, car: Car, map: &RoadMap, parking: &ParkingSimState)
        requires
            map.wf(),
            old(self).wf(*map),
            parking.wf(*map),
            old(self).goals_consistent(*parking),
            car_wf(*map, car),
            car.moving(),
            forall|j: int|
                0 <= j < old(self).cars.len() ==> (#[trigger] old(self).cars[j]).vehicle.id
                    != car.vehicle.id,
            match car.goal {
                CarGoal::Park(s) => parking.valid_spot(s) && parking.state_of(s)
                    == SpotState::Reserved && forall|j: int|
                    0 <= j < old(self).cars.len() && (#[trigger] old(self).cars[j]).moving() ==> old(
                        self,
                    ).cars[j].goal != CarGoal::Park(s),
                CarGoal::Stop => true,
            },
            old(self).entry_clear(car.on(), car.vehicle, car.dist),
        ensures
            final(self).wf(*map),
            final(self).goals_consistent(*parking),
            final(self).cars.len() == old(self).cars.len() + 1,
            final(self).has_car(car.vehicle.id),
            exists|k: int| 0 <= k < final(self).cars.len() && final(self).cars[k] == car,
    {
        let vehicle = car.vehicle;
        // Insert in ascending id order.
        let mut pos: usize = 0;
        while pos < self.cars.len() && self.cars[pos].vehicle.id.id < vehicle.id.id
            invariant
                pos <= self.cars.len(),
                forall|k: int| 0 <= k < pos ==> (#[trigger] self.cars[k]).vehicle.id.id < vehicle.id.id,
            decreases self.cars.len() - pos,
        {
            pos = pos + 1;
        }
        let ghost c0 = self.cars@;
        self.cars.insert(pos, car);
        proof {
            assert(self.cars@[pos as int] == car);
            assert(self.has_car(vehicle.id));
            assert forall|k: int| 0 <= k < self.cars.len() && k != pos implies (
            #[trigger] self.cars[k]) == c0[if k < pos { k } else { k - 1 }] by {}
            assert forall|k: int|
                0 <= k < self.cars.len() && k != pos implies (#[trigger] self.cars[k]).vehicle.id
                != vehicle.id by {
                let k1: int = if k < pos { k } else { k - 1 };
                assert(self.cars[k] == c0[k1]);
            }
            assert(self.wf(*map)) by {
                assert(car_wf(*map, car));
                assert forall|k: int, l: int|
                    0 <= k < l < self.cars.len() implies (#[trigger] self.cars[k]).vehicle.id.id < (
                #[trigger] self.cars[l]).vehicle.id.id by {
                    if k != pos && l != pos {
                        let k1: int = if k < pos { k } else { k - 1 };
                        let l1: int = if l < pos { l } else { l - 1 };
                        assert(self.cars[k] == c0[k1] && self.cars[l] == c0[l1]);
                    } else if k == pos {
                        assert(self.cars[l] == c0[l - 1]);
                        assert(l - 1 >= pos);
                        // The scan stopped at the first id not below ours,
                        // and ids are unique, so everything after is above.
                        if pos < c0.len() {
                            assert(c0[pos as int].vehicle.id.id >= vehicle.id.id);
                            assert(c0[pos as int].vehicle.id != vehicle.id);
                            if l - 1 > pos {
                                assert(c0[pos as int].vehicle.id.id < c0[l - 1].vehicle.id.id);
                            }
                        }
                    } else {
                        assert(self.cars[k] == c0[k as int]);
                        assert(k < pos);
                    }
                }
                assert forall|k: int, l: int|
                    0 <= k < self.cars.len() && 0 <= l < self.cars.len() && k != l implies separated(
                    #[trigger] self.cars[k],
                    #[trigger] self.cars[l],
                ) by {
                    if k == pos && l != pos {
                        let l1: int = if l < pos { l } else { l - 1 };
                        assert(self.cars[l] == c0[l1]);
                    } else if l == pos && k != pos {
                        let k1: int = if k < pos { k } else { k - 1 };
                        assert(self.cars[k] == c0[k1]);
                    } else if k != pos && l != pos {
                        let k1: int = if k < pos { k } else { k - 1 };
                        let l1: int = if l < pos { l } else { l - 1 };
                        assert(self.cars[k] == c0[k1] && self.cars[l] == c0[l1]);
                    }
                }
            }
            assert(self.goals_consistent(*parking)) by {
                assert forall|k: int|
                    0 <= k < self.cars.len() && (#[trigger] self.cars[k]).moving() implies match self.cars[k].goal {
                    CarGoal::Park(s) => parking.valid_spot(s) && parking.state_of(s)
                        == SpotState::Reserved,
                    CarGoal::Stop => true,
                } by {
                    if k != pos {
                        let k1: int = if k < pos { k } else { k - 1 };
                        assert(self.cars[k] == c0[k1]);
                    }
                }
                assert forall|k: int, l: int|
                    0 <= k < self.cars.len() && 0 <= l < self.cars.len() && k != l && (
                    #[trigger] self.cars[k]).moving() && (
                    #[trigger] self.cars[l]).moving() implies match (self.cars[k].goal,
                self.cars[l].goal) {
                    (CarGoal::Park(s1), CarGoal::Park(s2)) => s1 != s2,
                    _ => true,
                } by {
                    let k1: int = if k < pos {
                        k
                    } else {
                        k - 1
                    };
                    let l1: int = if l < pos {
                        l
                    } else {
                        l - 1
                    };
                    if k != pos && l != pos {
                        assert(self.cars[k] == c0[k1] && self.cars[l] == c0[l1]);
                    } else if k == pos {
                        assert(self.cars[l] == c0[l1]);
                    } else {
                        assert(self.cars[k] == c0[k1]);
                    }
                }
            }
        }
    }

    /// The draw record for one car.
    pub open spec fn draw_of(c: Car) -> DrawCarInput {
        DrawCarInput {
            id: c.vehicle.id,
            on: c.on(),
            front: c.dist,
            length: c.vehicle.length,
            speed: c.speed,
        }
    }

    /// Draw records for the active cars, in car order: all of them, or
    /// only those on one lane or turn.
    #[verifier::loop_isolation(false)]
    pub fn get_draw_cars(&self, filter: Option<Traversable>) -> (r: Vec<DrawCarInput>)
        requires
            self.cars_basic(),
        ensures
            forall|k: int|
                #![trigger r@[k]]
                0 <= k < r.len() ==> exists|j: int|
                    0 <= j < self.cars.len() && (#[trigger] self.cars[j]).moving() && (match filter {
                        Some(on) => self.cars[j].on() == on,
                        None => true,
                    }) && r[k] == Self::draw_of(self.cars[j]),
            forall|j: int|
                0 <= j < self.cars.len() && (#[trigger] self.cars[j]).moving() && (match filter {
                    Some(on) => self.cars[j].on() == on,
                    None => true,
                }) ==> exists|k: int| 0 <= k < r.len() && r[k] == Self::draw_of(self.cars[j]),
    {
        let mut r: Vec<DrawCarInput> = Vec::new();
        let mut i: usize = 0;
        while i < self.cars.len()
            invariant
                i <= self.cars.len(),
                forall|k: int|
                    #![trigger r@[k]]
                    0 <= k < r.len() ==> exists|j: int|
                        0 <= j < self.cars.len() && (#[trigger] self.cars[j]).moving() && (
                        match filter {
                            Some(on) => self.cars[j].on() == on,
                            None => true,
                        }) && r[k] == Self::draw_of(self.cars[j]),
                forall|j: int|
                    0 <= j < i && (#[trigger] self.cars[j]).moving() && (match filter {
                        Some(on) => self.cars[j].on() == on,
                        None => true,
                    }) ==> exists|k: int| 0 <= k < r.len() && r[k] == Self::draw_of(self.cars[j]),
            decreases self.cars.len() - i,
        {
            let c = &self.cars[i];
            let keep = matches!(c.state, CarState::Moving) && (match filter {
                Some(on) => c.path[c.path_idx] == on,
                None => true,
            });
            let ghost r_pre = r@;
            if keep {
                r.push(
                    DrawCarInput {
                        id: c.vehicle.id,
                        on: c.path[c.path_idx],
                        front: c.dist,
                        length: c.vehicle.length,
                        speed: c.speed,
                    },
                );
                proof {
                    assert(r@[r_pre.len() as int] == Self::draw_of(self.cars[i as int]));
                }
            }
            proof {
                assert forall|j: int|
                    0 <= j < i + 1 && (#[trigger] self.cars[j]).moving() && (match filter {
                        Some(on) => self.cars[j].on() == on,
                        None => true,
                    }) implies exists|k: int|
                    0 <= k < r.len() && r@[k] == Self::draw_of(self.cars[j]) by {
                    if j < i {
                        let k0 = choose|k0: int|
                            0 <= k0 < r_pre.len() && r_pre[k0] == Self::draw_of(self.cars[j]);
                        assert(r@[k0] == Self::draw_of(self.cars[j]));
                    } else {
                        assert(r@[r@.len() - 1] == Self::draw_of(self.cars[j]));
                    }
                }
            }
            i = i + 1;
        }
        r
    }

    /// The no-overtake law: two active cars sharing a lane or turn sit at
    /// strictly different distances, and their bodies, extended by the
    /// following distance, do not overlap.
    pub proof fn lemma_no_overlap(self, map: RoadMap, i: int, j: int)
        requires
            self.wf(map),
            0 <= i < self.cars.len(),
            0 <= j < self.cars.len(),
            i != j,
            self.cars[i].moving(),
            self.cars[j].moving(),
            self.cars[i].on() == self.cars[j].on(),
        ensures
            self.cars[i].dist != self.cars[j].dist,
            self.cars[i].back() >= self.cars[j].dist + FOLLOWING_DISTANCE || self.cars[j].back()
                >= self.cars[i].dist + FOLLOWING_DISTANCE,
    {
        assert(separated(self.cars[i], self.cars[j]));
        assert(self.cars[i].vehicle.valid());
    }
}

} // verus!
