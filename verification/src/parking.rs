//! The parking ledger: per-lane spot states and the geometry that links a
//! spot to a driving position.
//!
//! A spot is free, reserved or occupied. A reservation is a short-lived
//! claim made before a car physically arrives, so that two cars never
//! target the same empty spot; occupancy binds one vehicle to the spot.

use vstd::prelude::*;

use crate::map::RoadMap;
use crate::types::{LaneID, ParkedCar, ParkingSpot, Position, Vehicle, SPOT_LENGTH};

verus! {

/// The full lifecycle of one parking spot.
#[derive(Clone, Copy, PartialEq, Eq, Structural, Debug)]
pub enum SpotState {
    Free,
    Reserved,
    Occupied(Vehicle),
}

pub struct ParkingSimState {
    /// One entry per lane of the map; each inner vector has one state per
    /// parking spot of that lane, indexed by spot index.
    pub spots: Vec<Vec<SpotState>>,
}

impl ParkingSimState {
    /// Shape agreement with the map: one state vector per lane, one state
    /// per spot, and every parked vehicle within physical bounds.
    pub open spec fn wf(self, map: RoadMap) -> bool {
        &&& self.spots.len() == map.lanes.len()
        &&& forall|l: int|
            0 <= l < self.spots.len() ==> (#[trigger] self.spots[l]).len() == map.lanes[l].spots
        &&& forall|l: int, i: int|
            0 <= l < self.spots.len() && 0 <= i < self.spots[l].len() ==> match #[trigger] self
                .spots[l][i] {
                SpotState::Occupied(v) => v.valid(),
                _ => true,
            }
    }

    pub open spec fn valid_spot(self, s: ParkingSpot) -> bool {
        s.lane.id < self.spots.len() && s.idx < self.spots[s.lane.id as int].len()
    }

    pub open spec fn state_of(self, s: ParkingSpot) -> SpotState {
        self.spots[s.lane.id as int][s.idx as int]
    }

    pub open spec fn is_free(self, s: ParkingSpot) -> bool {
        self.state_of(s) == SpotState::Free
    }

    /// The one vehicle parked at a spot, if any.
    pub open spec fn parked_vehicle_at(self, s: ParkingSpot) -> Option<Vehicle> {
        match self.state_of(s) {
            SpotState::Occupied(v) => Some(v),
            _ => None,
        }
    }

    /// Everything except the one given spot is unchanged.
    pub open spec fn same_but(pre: Self, post: Self, s: ParkingSpot) -> bool {
        &&& post.spots.len() == pre.spots.len()
        &&& forall|l: int|
            0 <= l < pre.spots.len() ==> (#[trigger] post.spots[l]).len() == pre.spots[l].len()
        &&& forall|l: int, i: int|
            0 <= l < pre.spots.len() && 0 <= i < pre.spots[l].len() && !(l == s.lane.id && i
                == s.idx) ==> (#[trigger] post.spots[l][i]) == pre.spots[l][i]
    }

    /// One state vector per lane of the map, every spot initially free.
    pub fn new(map: &RoadMap) -> (r: ParkingSimState)
        ensures
            r.wf(*map),
            forall|s: ParkingSpot| r.valid_spot(s) ==> r.is_free(s),
    {
        let mut spots: Vec<Vec<SpotState>> = Vec::new();
        let mut l: usize = 0;
        while l < map.lanes.len()
            invariant
                l <= map.lanes.len(),
                spots.len() == l,
                forall|i: int| 0 <= i < l ==> (#[trigger] spots[i]).len() == map.lanes[i].spots,
                forall|i: int, j: int|
                    0 <= i < l && 0 <= j < spots[i].len() ==> (#[trigger] spots[i][j])
                        == SpotState::Free,
            decreases map.lanes.len() - l,
        {
            let n = map.lanes[l].spots;
            let mut lane_spots: Vec<SpotState> = Vec::new();
            let mut i: usize = 0;
            while i < n
                invariant
                    i <= n,
                    lane_spots.len() == i,
                    forall|j: int| 0 <= j < i ==> (#[trigger] lane_spots[j]) == SpotState::Free,
                decreases n - i,
            {
                lane_spots.push(SpotState::Free);
                i = i + 1;
            }
            spots.push(lane_spots);
            l = l + 1;
        }
        ParkingSimState { spots }
    }

    /// The free spots on lane `l` among the first `n` spot indexes, in
    /// ascending order.
    pub open spec fn free_spots_upto(self, l: LaneID, n: int) -> Seq<ParkingSpot>
        decreases n,
    {
        if n <= 0 {
            Seq::empty()
        } else if self.spots[l.id as int][n - 1] is Free {
            self.free_spots_upto(l, n - 1).push(ParkingSpot { lane: l, idx: (n - 1) as usize })
        } else {
            self.free_spots_upto(l, n - 1)
        }
    }

    /// The exact answer of the free-spot query: a function of the ledger
    /// alone, so repeated queries of the same state always agree.
    pub open spec fn spec_free_spots(self, l: LaneID) -> Seq<ParkingSpot> {
        self.free_spots_upto(l, self.spots[l.id as int].len() as int)
    }

    /// All currently free spots on a lane, in ascending spot order. A lane
    /// with no parking capacity yields an empty vector, never an error.
    pub fn get_free_spots(&self, l: LaneID) -> (r: Vec<ParkingSpot>)
        requires
            l.id < self.spots.len(),
        ensures
            r@ == self.spec_free_spots(l),
            forall|k: int|
                0 <= k < r.len() ==> {
                    &&& (#[trigger] r[k]).lane == l
                    &&& self.valid_spot(r[k])
                    &&& self.is_free(r[k])
                },
            forall|k1: int, k2: int| 0 <= k1 < k2 < r.len() ==> r[k1].idx < r[k2].idx,
            forall|i: int|
                0 <= i < self.spots[l.id as int].len() && self.spots[l.id as int][i]
                    == SpotState::Free ==> exists|k: int|
                    0 <= k < r.len() && (#[trigger] r[k]).idx == i,
    {
        let lane_spots = &self.spots[l.id];
        let mut r: Vec<ParkingSpot> = Vec::new();
        let mut i: usize = 0;
        while i < lane_spots.len()
            invariant
                i <= lane_spots.len(),
                lane_spots == self.spots[l.id as int],
                l.id < self.spots.len(),
                r@ == self.free_spots_upto(l, i as int),
                forall|k: int|
                    0 <= k < r.len() ==> {
                        &&& (#[trigger] r[k]).lane == l
                        &&& r[k].idx < i
                        &&& self.valid_spot(r[k])
                        &&& self.is_free(r[k])
                    },
                forall|k1: int, k2: int| 0 <= k1 < k2 < r.len() ==> r[k1].idx < r[k2].idx,
                forall|j: int|
                    0 <= j < i && lane_spots[j] == SpotState::Free ==> exists|k: int|
                        0 <= k < r.len() && (#[trigger] r[k]).idx == j,
            decreases lane_spots.len() - i,
        {
            let ghost r_pre = r@;
            if lane_spots[i] == SpotState::Free {
                r.push(ParkingSpot { lane: l, idx: i });
            }
            proof {
                assert(r@ == self.free_spots_upto(l, i + 1));
            }
            proof {
                assert forall|j: int|
                    0 <= j < i + 1 && lane_spots@[j] == SpotState::Free implies exists|k: int|
                    0 <= k < r.len() && (#[trigger] r@[k]).idx == j by {
                    if j < i {
                        let k = choose|k: int| 0 <= k < r_pre.len() && (#[trigger] r_pre[k]).idx == j;
                        assert(r@[k].idx == j);
                    } else {
                        assert(r@[r@.len() - 1].idx == j);
                    }
                }
            }
            i = i + 1;
        }
        r
    }

    /// The state of a spot, or nothing for a spot the map does not have.
    pub fn spot_state_of(&self, s: ParkingSpot) -> (r: Option<SpotState>)
        ensures
            r == if self.valid_spot(s) {
                Some(self.state_of(s))
            } else {
                None::<SpotState>
            },
    {
        if s.lane.id < self.spots.len() && s.idx < self.spots[s.lane.id].len() {
            Some(self.spots[s.lane.id][s.idx])
        } else {
            None
        }
    }

    /// Claims a free spot ahead of the car's arrival. Reserving a spot that
    /// is already reserved or occupied is a caller bug, ruled out here.
    pub fn reserve_spot(&mut self, s: ParkingSpot)
        requires
            old(self).valid_spot(s),
            old(self).is_free(s),
        ensures
            final(self).state_of(s) == SpotState::Reserved,
            Self::same_but(*old(self), *final(self), s),
    {
        self.spots[s.lane.id][s.idx] = SpotState::Reserved;
    }

    /// Moves a reserved spot to occupied, binding the arriving vehicle.
    /// The spot must have been reserved first by this call path.
    pub fn add_parked_car(&mut self, p: ParkedCar)
        requires
            old(self).valid_spot(p.spot),
            old(self).state_of(p.spot) == SpotState::Reserved,
            p.vehicle.valid(),
        ensures
            final(self).state_of(p.spot) == SpotState::Occupied(p.vehicle),
            Self::same_but(*old(self), *final(self), p.spot),
    {
        self.spots[p.spot.lane.id][p.spot.idx] = SpotState::Occupied(p.vehicle);
    }

    /// Releases a spot when its car pulls out to start a driving leg.
    pub fn remove_parked_car(&mut self, p: ParkedCar)
        requires
            old(self).valid_spot(p.spot),
            old(self).state_of(p.spot) == SpotState::Occupied(p.vehicle),
        ensures
            final(self).state_of(p.spot) == SpotState::Free,
            Self::same_but(*old(self), *final(self), p.spot),
    {
        self.spots[p.spot.lane.id][p.spot.idx] = SpotState::Free;
    }

    /// Every car currently parked on a lane, ascending by spot index.
    pub fn get_parked_cars_on(&self, l: LaneID) -> (r: Vec<ParkedCar>)
        requires
            l.id < self.spots.len(),
        ensures
            forall|k: int|
                0 <= k < r.len() ==> {
                    &&& (#[trigger] r[k]).spot.lane == l
                    &&& self.valid_spot(r[k].spot)
                    &&& self.parked_vehicle_at(r[k].spot) == Some(r[k].vehicle)
                },
            forall|k1: int, k2: int| 0 <= k1 < k2 < r.len() ==> r[k1].spot.idx < r[k2].spot.idx,
            forall|i: int|
                0 <= i < self.spots[l.id as int].len() && self.spots[l.id as int][i] is Occupied
                    ==> exists|k: int| 0 <= k < r.len() && (#[trigger] r[k]).spot.idx == i,
    {
        let lane_spots = &self.spots[l.id];
        let mut r: Vec<ParkedCar> = Vec::new();
        let mut i: usize = 0;
        while i < lane_spots.len()
            invariant
                i <= lane_spots.len(),
                lane_spots == self.spots[l.id as int],
                l.id < self.spots.len(),
                forall|k: int|
                    0 <= k < r.len() ==> {
                        &&& (#[trigger] r[k]).spot.lane == l
                        &&& r[k].spot.idx < i
                        &&& self.valid_spot(r[k].spot)
                        &&& self.parked_vehicle_at(r[k].spot) == Some(r[k].vehicle)
                    },
                forall|k1: int, k2: int|
                    0 <= k1 < k2 < r.len() ==> r[k1].spot.idx < r[k2].spot.idx,
                forall|j: int|
                    0 <= j < i && lane_spots[j] is Occupied ==> exists|k: int|
                        0 <= k < r.len() && (#[trigger] r[k]).spot.idx == j,
            decreases lane_spots.len() - i,
        {
            let ghost r_pre = r@;
            if let SpotState::Occupied(v) = lane_spots[i] {
                r.push(ParkedCar { vehicle: v, spot: ParkingSpot { lane: l, idx: i } });
            }
            proof {
                assert forall|j: int|
                    0 <= j < i + 1 && lane_spots@[j] is Occupied implies exists|k: int|
                    0 <= k < r.len() && (#[trigger] r@[k]).spot.idx == j by {
                    if j < i {
                        let k = choose|k: int|
                            0 <= k < r_pre.len() && (#[trigger] r_pre[k]).spot.idx == j;
                        assert(r@[k].spot.idx == j);
                    } else {
                        assert(r@[r@.len() - 1].spot.idx == j);
                    }
                }
            }
            i = i + 1;
        }
        r
    }

    /// Where a car's front sits on the adjacent driving lane right after
    /// pulling out of a spot. Purely geometric; mutates nothing.
    pub fn spot_to_driving_pos(
        &self,
        spot: ParkingSpot,
        vehicle: &Vehicle,
        driving_lane: LaneID,
        map: &RoadMap,
    ) -> (r: Position)
        requires
            map.wf(),
            self.wf(*map),
            self.valid_spot(spot),
            vehicle.valid(),
            map.valid_lane(driving_lane),
            (spot.idx + 1) * SPOT_LENGTH <= map.lanes[driving_lane.id as int].length,
        ensures
            r.lane == driving_lane,
            r.dist == spot.idx * SPOT_LENGTH + vehicle.length,
            r.dist <= map.lanes[driving_lane.id as int].length,
    {
        proof {
            assert(spot.idx * SPOT_LENGTH + SPOT_LENGTH == (spot.idx + 1) * SPOT_LENGTH)
                by (nonlinear_arith);
        }
        let dist = (spot.idx as u64) * SPOT_LENGTH + vehicle.length;
        Position { lane: driving_lane, dist }
    }

    /// The parking ledger's safety law: every spot is in exactly one of the
    /// three lifecycle states, and a spot never binds two distinct parked
    /// vehicles at once.
    pub proof fn lemma_spot_state_exclusive(self, s: ParkingSpot)
        requires
            self.valid_spot(s),
        ensures
            self.state_of(s) is Free || self.state_of(s) is Reserved || self.state_of(
                s,
            ) is Occupied,
            forall|v1: Vehicle, v2: Vehicle|
                self.parked_vehicle_at(s) == Some(v1) && self.parked_vehicle_at(s) == Some(v2)
                    ==> v1 == v2,
    {
    }
}

} // verus!
