use traffic_sim::map::{ControlType, Intersection, Lane, LaneType, RoadMap};
use traffic_sim::parking::{ParkingSimState, SpotState};
use traffic_sim::sim::Sim;
use traffic_sim::types::{CarID, LaneID, ParkedCar, ParkingSpot, Vehicle};

fn small_map() -> RoadMap {
    RoadMap {
        lanes: vec![
            Lane { lane_type: LaneType::Driving, length: 10000, spots: 0 },
            Lane { lane_type: LaneType::Parking, length: 4000, spots: 4 },
            Lane { lane_type: LaneType::Driving, length: 10000, spots: 0 },
        ],
        turns: vec![],
        intersections: vec![Intersection { control: ControlType::Uncontrolled }],
        conflicts: vec![],
    }
}

fn vehicle(id: usize) -> Vehicle {
    Vehicle { id: CarID { id }, length: 450, max_speed: 1400, max_accel: 270 }
}

fn spot(lane: usize, idx: usize) -> ParkingSpot {
    ParkingSpot { lane: LaneID { id: lane }, idx }
}

#[test]
fn free_spots_all_free_ascending() {
    let map = small_map();
    let parking = ParkingSimState::new(&map);
    let free = parking.get_free_spots(LaneID { id: 1 });
    assert_eq!(free.len(), 4);
    for (i, s) in free.iter().enumerate() {
        assert_eq!(s.lane, LaneID { id: 1 });
        assert_eq!(s.idx, i);
    }
}

#[test]
fn free_spots_zero_capacity_is_empty() {
    let map = small_map();
    let parking = ParkingSimState::new(&map);
    // A driving lane has no parking capacity: empty answer, not an error.
    let free = parking.get_free_spots(LaneID { id: 0 });
    assert!(free.is_empty());
}

#[test]
fn reserve_then_occupy_lifecycle() {
    let map = small_map();
    let mut parking = ParkingSimState::new(&map);
    let s = spot(1, 2);
    assert_eq!(parking.spot_state_of(s), Some(SpotState::Free));
    parking.reserve_spot(s);
    assert_eq!(parking.spot_state_of(s), Some(SpotState::Reserved));
    let v = vehicle(7);
    parking.add_parked_car(ParkedCar { vehicle: v, spot: s });
    assert_eq!(parking.spot_state_of(s), Some(SpotState::Occupied(v)));
    // The reserved-then-occupied spot never shows up as free.
    let free = parking.get_free_spots(LaneID { id: 1 });
    assert_eq!(free.len(), 3);
    assert!(free.iter().all(|f| f.idx != 2));
    parking.remove_parked_car(ParkedCar { vehicle: v, spot: s });
    assert_eq!(parking.spot_state_of(s), Some(SpotState::Free));
}

#[test]
fn unknown_spot_has_no_state() {
    let map = small_map();
    let parking = ParkingSimState::new(&map);
    assert_eq!(parking.spot_state_of(spot(1, 99)), None);
    assert_eq!(parking.spot_state_of(spot(9, 0)), None);
}

#[test]
fn seed_parked_car_occupies_in_one_call() {
    let map = small_map();
    let mut sim = Sim::new(&map);
    let p = ParkedCar { vehicle: vehicle(3), spot: spot(1, 0) };
    assert!(sim.seed_parked_car(p));
    // Seeding the same spot twice is refused and changes nothing.
    assert!(!sim.seed_parked_car(ParkedCar { vehicle: vehicle(4), spot: spot(1, 0) }));
    let free = sim.get_free_spots(LaneID { id: 1 });
    assert_eq!(free.len(), 3);
    assert!(free.iter().all(|f| f.idx != 0));
}

#[test]
fn seed_rejects_bad_vehicle() {
    let map = small_map();
    let mut sim = Sim::new(&map);
    let bad = Vehicle { id: CarID { id: 1 }, length: 0, max_speed: 1400, max_accel: 270 };
    assert!(!sim.seed_parked_car(ParkedCar { vehicle: bad, spot: spot(1, 0) }));
}

#[test]
fn spot_to_driving_pos_formula() {
    let map = small_map();
    let sim = Sim::new(&map);
    let v = vehicle(1);
    let pos = sim.spot_to_driving_pos(spot(1, 2), &v, LaneID { id: 2 }, &map);
    assert_eq!(pos.lane, LaneID { id: 2 });
    // Spot 2 starts at 1600; the front of the car sits its length beyond.
    assert_eq!(pos.dist, 2 * 800 + 450);
}

#[test]
fn parked_cars_listing_matches_occupancy() {
    let map = small_map();
    let mut parking = ParkingSimState::new(&map);
    let v5 = vehicle(5);
    let v6 = vehicle(6);
    parking.reserve_spot(spot(1, 1));
    parking.add_parked_car(ParkedCar { vehicle: v5, spot: spot(1, 1) });
    parking.reserve_spot(spot(1, 3));
    parking.add_parked_car(ParkedCar { vehicle: v6, spot: spot(1, 3) });
    let parked = parking.get_parked_cars_on(LaneID { id: 1 });
    assert_eq!(parked.len(), 2);
    assert_eq!(parked[0].spot.idx, 1);
    assert_eq!(parked[0].vehicle, v5);
    assert_eq!(parked[1].spot.idx, 3);
    assert_eq!(parked[1].vehicle, v6);
}
