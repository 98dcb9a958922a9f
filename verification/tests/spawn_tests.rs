use traffic_sim::driving::{CarGoal, SpawnError};
use traffic_sim::map::{ControlType, Intersection, Lane, LaneType, RoadMap, Turn};
use traffic_sim::sim::Sim;
use traffic_sim::trips::{TripLeg, TripManager, TripResult, TripState};
use traffic_sim::types::{
    CarID, IntersectionID, LaneID, ParkedCar, ParkingSpot, PedestrianID, Traversable, TripID,
    TurnID, Vehicle,
};
use traffic_sim::walking::PedSpawnError;

fn vehicle(id: usize) -> Vehicle {
    Vehicle { id: CarID { id }, length: 450, max_speed: 1400, max_accel: 270 }
}

fn lane(id: usize) -> Traversable {
    Traversable::Lane(LaneID { id })
}

fn map() -> RoadMap {
    RoadMap {
        lanes: vec![
            Lane { lane_type: LaneType::Driving, length: 10000, spots: 0 },
            Lane { lane_type: LaneType::Driving, length: 10000, spots: 0 },
            Lane { lane_type: LaneType::Parking, length: 4000, spots: 4 },
            Lane { lane_type: LaneType::Sidewalk, length: 10000, spots: 0 },
        ],
        turns: vec![Turn {
            src: LaneID { id: 0 },
            dst: LaneID { id: 1 },
            parent: IntersectionID { id: 0 },
            length: 900,
        }],
        intersections: vec![Intersection { control: ControlType::Uncontrolled }],
        conflicts: vec![],
    }
}

#[test]
fn spawn_rejects_bad_vehicle() {
    let m = map();
    let mut sim = Sim::new(&m);
    let bad = Vehicle { id: CarID { id: 1 }, length: 0, max_speed: 1400, max_accel: 270 };
    let r = sim.spawn_car(bad, vec![lane(0)], 450, 9000, CarGoal::Stop, None, None, &m);
    assert_eq!(r.unwrap_err(), SpawnError::BadVehicle);
}

#[test]
fn spawn_rejects_bad_path() {
    let m = map();
    let mut sim = Sim::new(&m);
    let empty = sim.spawn_car(vehicle(1), vec![], 450, 9000, CarGoal::Stop, None, None, &m);
    assert_eq!(empty.unwrap_err(), SpawnError::BadPath);
    // Two lanes cannot follow each other without a turn between them.
    let unlinked = sim.spawn_car(vehicle(1), vec![lane(0), lane(1)], 450, 9000, CarGoal::Stop, None, None, &m);
    assert_eq!(unlinked.unwrap_err(), SpawnError::BadPath);
    let out_of_map = sim.spawn_car(vehicle(1), vec![lane(9)], 450, 9000, CarGoal::Stop, None, None, &m);
    assert_eq!(out_of_map.unwrap_err(), SpawnError::BadPath);
}

#[test]
fn spawn_rejects_bad_start() {
    let m = map();
    let mut sim = Sim::new(&m);
    // The front cannot start before the car's own length.
    let r = sim.spawn_car(vehicle(1), vec![lane(0)], 100, 9000, CarGoal::Stop, None, None, &m);
    assert_eq!(r.unwrap_err(), SpawnError::BadStart);
    // Nor past the end of the lane.
    let r2 = sim.spawn_car(vehicle(1), vec![lane(0)], 10500, 9000, CarGoal::Stop, None, None, &m);
    assert_eq!(r2.unwrap_err(), SpawnError::BadStart);
    // Nor beyond the goal on a single segment.
    let r3 = sim.spawn_car(vehicle(1), vec![lane(0)], 9500, 9000, CarGoal::Stop, None, None, &m);
    assert_eq!(r3.unwrap_err(), SpawnError::BadStart);
}

#[test]
fn spawn_rejects_duplicate_car() {
    let m = map();
    let mut sim = Sim::new(&m);
    sim.spawn_car(vehicle(1), vec![lane(0)], 450, 9000, CarGoal::Stop, None, None, &m).unwrap();
    let r = sim.spawn_car(vehicle(1), vec![lane(1)], 450, 9000, CarGoal::Stop, None, None, &m);
    assert_eq!(r.unwrap_err(), SpawnError::DuplicateCar);
}

#[test]
fn spawn_rejects_unreserved_spot() {
    let m = map();
    let mut sim = Sim::new(&m);
    let spot = ParkingSpot { lane: LaneID { id: 2 }, idx: 0 };
    let r = sim.spawn_car(vehicle(1), vec![lane(1)], 450, 1250, CarGoal::Park(spot), None, None, &m);
    assert_eq!(r.unwrap_err(), SpawnError::SpotUnavailable);
}

#[test]
fn spawn_rejects_doubly_targeted_spot() {
    let m = map();
    let mut sim = Sim::new(&m);
    let spot = ParkingSpot { lane: LaneID { id: 2 }, idx: 0 };
    assert!(sim.reserve_spot(spot));
    sim.spawn_car(vehicle(1), vec![lane(1)], 450, 1250, CarGoal::Park(spot), None, None, &m).unwrap();
    let r = sim.spawn_car(vehicle(2), vec![lane(0)], 450, 1250, CarGoal::Park(spot), None, None, &m);
    assert_eq!(r.unwrap_err(), SpawnError::SpotUnavailable);
}

#[test]
fn spawn_rejects_wrong_unpark_claim() {
    let m = map();
    let mut sim = Sim::new(&m);
    let spot = ParkingSpot { lane: LaneID { id: 2 }, idx: 0 };
    let r = sim.spawn_car(
        vehicle(1),
        vec![lane(1)],
        450,
        9000,
        CarGoal::Stop,
        Some(ParkedCar { vehicle: vehicle(1), spot }),
        None,
        &m,
    );
    assert_eq!(r.unwrap_err(), SpawnError::NotParkedThere);
}

#[test]
fn spawn_unparks_a_seeded_car() {
    let m = map();
    let mut sim = Sim::new(&m);
    let spot = ParkingSpot { lane: LaneID { id: 2 }, idx: 2 };
    let v = vehicle(1);
    assert!(sim.seed_parked_car(ParkedCar { vehicle: v, spot }));
    assert!(sim.get_free_spots(LaneID { id: 2 }).iter().all(|f| f.idx != 2));
    let start = sim.spot_to_driving_pos(spot, &v, LaneID { id: 1 }, &m).dist;
    sim.spawn_car(
        v,
        vec![lane(1)],
        start,
        9000,
        CarGoal::Stop,
        Some(ParkedCar { vehicle: v, spot }),
        None,
        &m,
    )
    .unwrap();
    // Pulling out released the spot.
    assert!(sim.get_free_spots(LaneID { id: 2 }).iter().any(|f| f.idx == 2));
}

#[test]
fn spawn_rejects_blocked_start() {
    let m = map();
    let mut sim = Sim::new(&m);
    sim.spawn_car(vehicle(1), vec![lane(0)], 1000, 9000, CarGoal::Stop, None, None, &m).unwrap();
    // Overlapping the first car's body.
    let r = sim.spawn_car(vehicle(2), vec![lane(0)], 1200, 9000, CarGoal::Stop, None, None, &m);
    assert_eq!(r.unwrap_err(), SpawnError::Blocked);
    // Far enough behind is fine.
    sim.spawn_car(vehicle(3), vec![lane(0)], 450, 9000, CarGoal::Stop, None, None, &m).unwrap();
}

#[test]
fn ped_spawn_errors() {
    let m = map();
    let mut sim = Sim::new(&m);
    let bad_path = sim.spawn_ped(PedestrianID { id: 1 }, vec![], 0, 100, &m);
    assert_eq!(bad_path.unwrap_err(), PedSpawnError::BadPath);
    let bad_start = sim.spawn_ped(PedestrianID { id: 1 }, vec![lane(3)], 10500, 100, &m);
    assert_eq!(bad_start.unwrap_err(), PedSpawnError::BadStart);
    sim.spawn_ped(PedestrianID { id: 1 }, vec![lane(3)], 0, 9000, &m).unwrap();
    let dup = sim.spawn_ped(PedestrianID { id: 1 }, vec![lane(3)], 0, 9000, &m);
    assert_eq!(dup.unwrap_err(), PedSpawnError::DuplicatePed);
}

#[test]
fn unstartable_next_leg_aborts_the_trip() {
    let m = map();
    let mut sim = Sim::new(&m);
    // A pedestrian with id 9 is already underway on a long walk.
    sim.spawn_ped(PedestrianID { id: 9 }, vec![lane(3)], 0, 9000, &m).unwrap();
    // A short driving trip whose walking leg reuses that id.
    let spot = ParkingSpot { lane: LaneID { id: 2 }, idx: 0 };
    assert!(sim.reserve_spot(spot));
    let walk = TripLeg::Walk {
        ped: PedestrianID { id: 9 },
        path: vec![lane(3)],
        start_dist: 0,
        end_dist: 100,
    };
    let v = vehicle(1);
    let end = sim.spot_to_driving_pos(spot, &v, LaneID { id: 1 }, &m).dist;
    let trip = sim
        .spawn_car(v, vec![lane(1)], end, end, CarGoal::Park(spot), None, Some(walk), &m)
        .unwrap();
    let mut saw_done = false;
    for t in 1..=10u64 {
        sim.step_if_needed(t, &m);
        if sim.trip_to_agent(trip) == TripResult::TripDone {
            saw_done = true;
            break;
        }
    }
    // The duplicate id could not start, so the trip aborted; an aborted
    // trip answers like a finished one.
    assert!(saw_done, "the blocked trip never reached its end state");
}

#[test]
fn trip_state_machine_direct() {
    let mut trips = TripManager::new();
    let t = trips.new_trip(vec![
        TripLeg::Walk { ped: PedestrianID { id: 1 }, path: vec![lane(3)], start_dist: 0, end_dist: 100 },
        TripLeg::Walk { ped: PedestrianID { id: 2 }, path: vec![lane(3)], start_dist: 0, end_dist: 100 },
    ]);
    assert_eq!(trips.trip_to_agent(t), TripResult::Agent(traffic_sim::types::AgentID::Pedestrian(PedestrianID { id: 1 })));
    trips.leg_done(t);
    assert_eq!(trips.trip_to_agent(t), TripResult::ModeChange);
    trips.leg_started(t);
    assert_eq!(trips.trip_to_agent(t), TripResult::Agent(traffic_sim::types::AgentID::Pedestrian(PedestrianID { id: 2 })));
    trips.abort_trip(t);
    assert_eq!(trips.trip_to_agent(t), TripResult::TripDone);
    // The absorbing state stays put.
    trips.leg_done(t);
    assert_eq!(trips.trip_to_agent(t), TripResult::TripDone);
    assert!(matches!(trips.trips[t.id].state, TripState::Aborted));
}

#[test]
fn trip_queries_cover_every_variant() {
    let m = map();
    let mut sim = Sim::new(&m);
    assert_eq!(sim.trip_to_agent(TripID { id: 0 }), TripResult::TripDoesntExist);
    let t = sim.spawn_ped(PedestrianID { id: 2 }, vec![lane(3)], 0, 240, &m).unwrap();
    let a = traffic_sim::types::AgentID::Pedestrian(PedestrianID { id: 2 });
    assert_eq!(sim.agent_to_trip(a), Some(t));
    assert_eq!(sim.trip_to_agent(t), TripResult::Agent(a));
    for tick in 1..=4u64 {
        sim.step_if_needed(tick, &m);
    }
    assert_eq!(sim.trip_to_agent(t), TripResult::TripDone);
    assert_eq!(sim.agent_to_trip(a), None);
}
