//! Identifiers and plain value types shared by every component.
//!
//! Distances are in centimeters, time in ticks, speeds in centimeters per
//! tick and accelerations in centimeters per tick squared, all as integers
//! so that every kinematic computation is exact.

use vstd::prelude::*;

verus! {

/// Upper bound on any lane or turn length, in centimeters. Keeping every
/// distance below this bound makes all the per-tick arithmetic fit in u64.
pub const MAX_DIST: u64 = 0x1000_0000;

/// Upper bound on a vehicle's speed, in centimeters per tick.
pub const MAX_SPEED_LIMIT: u64 = 0x10_0000;

/// Minimum gap kept between the front of a follower and the back of its
/// leader on the same lane or turn, in centimeters.
pub const FOLLOWING_DISTANCE: u64 = 100;

/// Length of one parking spot along its lane, in centimeters.
pub const SPOT_LENGTH: u64 = 800;

#[derive(Clone, Copy, PartialEq, Eq, Structural, Debug, Hash)]
pub struct CarID {
    pub id: usize,
}

#[derive(Clone, Copy, PartialEq, Eq, Structural, Debug, Hash)]
pub struct PedestrianID {
    pub id: usize,
}

/// Every moving agent is a car or a pedestrian; each belongs to one trip.
#[derive(Clone, Copy, PartialEq, Eq, Structural, Debug, Hash)]
pub enum AgentID {
    Car(CarID),
    Pedestrian(PedestrianID),
}

#[derive(Clone, Copy, PartialEq, Eq, Structural, Debug, Hash)]
pub struct LaneID {
    pub id: usize,
}

#[derive(Clone, Copy, PartialEq, Eq, Structural, Debug, Hash)]
pub struct TurnID {
    pub id: usize,
}

#[derive(Clone, Copy, PartialEq, Eq, Structural, Debug, Hash)]
pub struct IntersectionID {
    pub id: usize,
}

#[derive(Clone, Copy, PartialEq, Eq, Structural, Debug, Hash)]
pub struct TripID {
    pub id: usize,
}

/// The unit of linear space an agent occupies: a lane or a turn.
#[derive(Clone, Copy, PartialEq, Eq, Structural, Debug, Hash)]
pub enum Traversable {
    Lane(LaneID),
    Turn(TurnID),
}

/// A point on a lane: the distance traveled from the lane's start.
#[derive(Clone, Copy, PartialEq, Eq, Structural, Debug)]
pub struct Position {
    pub lane: LaneID,
    pub dist: u64,
}

/// A parking spot, identified by its lane and its index along that lane.
#[derive(Clone, Copy, PartialEq, Eq, Structural, Debug)]
pub struct ParkingSpot {
    pub lane: LaneID,
    pub idx: usize,
}

/// Static physical parameters of a car, fixed for the lifetime of a trip leg.
#[derive(Clone, Copy, PartialEq, Eq, Structural, Debug)]
pub struct Vehicle {
    pub id: CarID,
    /// Length in centimeters.
    pub length: u64,
    /// Maximum speed in centimeters per tick.
    pub max_speed: u64,
    /// Maximum speed gain per tick, in centimeters per tick squared.
    pub max_accel: u64,
}

impl Vehicle {
    /// A vehicle whose parameters stay inside the bounds that every
    /// component's arithmetic relies on.
    pub open spec fn valid(self) -> bool {
        &&& 0 < self.length <= SPOT_LENGTH
        &&& 0 < self.max_speed <= MAX_SPEED_LIMIT
        &&& 0 < self.max_accel <= MAX_SPEED_LIMIT
    }

    /// Decides `valid`.
    pub fn is_valid(&self) -> (r: bool)
        ensures
            r == self.valid(),
    {
        0 < self.length && self.length <= SPOT_LENGTH && 0 < self.max_speed && self.max_speed
            <= MAX_SPEED_LIMIT && 0 < self.max_accel && self.max_accel <= MAX_SPEED_LIMIT
    }
}

/// A car physically occupying a parking spot.
#[derive(Clone, Copy, PartialEq, Eq, Structural, Debug)]
pub struct ParkedCar {
    pub vehicle: Vehicle,
    pub spot: ParkingSpot,
}

} // verus!
