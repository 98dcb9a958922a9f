use traffic_sim::driving::CarGoal;
use traffic_sim::map::{ControlType, Intersection, Lane, LaneType, Phase, RoadMap, SignalTiming, Turn};
use traffic_sim::sim::Sim;
use traffic_sim::trips::{TripLeg, TripResult};
use traffic_sim::types::{
    AgentID, CarID, IntersectionID, LaneID, ParkingSpot, PedestrianID, Traversable, TurnID, Vehicle,
};

fn vehicle(id: usize) -> Vehicle {
    Vehicle { id: CarID { id }, length: 450, max_speed: 1400, max_accel: 270 }
}

fn lane(id: usize) -> Traversable {
    Traversable::Lane(LaneID { id })
}

fn turn(id: usize) -> Traversable {
    Traversable::Turn(TurnID { id })
}

/// Two driving lanes joined by a turn, a parking lane, and a sidewalk.
fn park_map() -> RoadMap {
    RoadMap {
        lanes: vec![
            Lane { lane_type: LaneType::Driving, length: 10000, spots: 0 },
            Lane { lane_type: LaneType::Driving, length: 10000, spots: 0 },
            Lane { lane_type: LaneType::Parking, length: 4000, spots: 4 },
            Lane { lane_type: LaneType::Sidewalk, length: 10000, spots: 0 },
        ],
        turns: vec![Turn {
            src: LaneID { id: 0 },
            dst: LaneID { id: 1 },
            parent: IntersectionID { id: 0 },
            length: 900,
        }],
        intersections: vec![Intersection { control: ControlType::Uncontrolled }],
        conflicts: vec![],
    }
}

/// Spawns a car with a multi-segment path ending at a reserved spot, with
/// a walking leg afterwards; the trip must pass through every lifecycle
/// stage and the spot must never look free again.
#[test]
fn car_parks_then_walks() {
    let map = park_map();
    let mut sim = Sim::new(&map);
    let spot = ParkingSpot { lane: LaneID { id: 2 }, idx: 1 };
    assert_eq!(sim.get_free_spots(LaneID { id: 2 }).len(), 4);
    assert!(sim.reserve_spot(spot));
    // The reservation already takes the spot out of the free list.
    let free = sim.get_free_spots(LaneID { id: 2 });
    assert_eq!(free.len(), 3);
    assert!(free.iter().all(|f| f.idx != 1));

    let v = vehicle(1);
    let end = sim.spot_to_driving_pos(spot, &v, LaneID { id: 1 }, &map).dist;
    let walk = TripLeg::Walk {
        ped: PedestrianID { id: 1 },
        path: vec![lane(3)],
        start_dist: 0,
        end_dist: 600,
    };
    let trip = sim
        .spawn_car(v, vec![lane(0), turn(0), lane(1)], 450, end, CarGoal::Park(spot), None, Some(walk), &map)
        .unwrap();

    assert_eq!(sim.trip_to_agent(trip), TripResult::Agent(AgentID::Car(CarID { id: 1 })));

    let mut saw_car = false;
    let mut saw_mode_change = false;
    let mut saw_ped = false;
    let mut done_at = None;
    for t in 1..=60u64 {
        sim.step_if_needed(t, &map);
        // The spot never reappears among the free spots.
        assert!(sim.get_free_spots(LaneID { id: 2 }).iter().all(|f| f.idx != 1));
        match sim.trip_to_agent(trip) {
            TripResult::Agent(AgentID::Car(_)) => {
                assert!(!saw_mode_change, "car leg after the swap started");
                saw_car = true;
            }
            TripResult::ModeChange => {
                assert!(saw_car);
                saw_mode_change = true;
            }
            TripResult::Agent(AgentID::Pedestrian(_)) => {
                assert!(saw_mode_change);
                saw_ped = true;
            }
            TripResult::TripDone => {
                done_at = Some(t);
                break;
            }
            TripResult::TripDoesntExist => panic!("trip lost"),
        }
    }
    assert!(saw_car && saw_mode_change && saw_ped, "lifecycle misses a stage");
    assert!(done_at.is_some(), "trip never completed");
    // The spot stays occupied after the trip is over.
    assert!(sim.get_free_spots(LaneID { id: 2 }).iter().all(|f| f.idx != 1));
}

/// Two lanes feeding one uncontrolled intersection on conflicting turns.
fn conflict_map(control: ControlType) -> RoadMap {
    RoadMap {
        lanes: vec![
            Lane { lane_type: LaneType::Driving, length: 10000, spots: 0 },
            Lane { lane_type: LaneType::Driving, length: 10000, spots: 0 },
            Lane { lane_type: LaneType::Driving, length: 10000, spots: 0 },
            Lane { lane_type: LaneType::Driving, length: 10000, spots: 0 },
        ],
        turns: vec![
            Turn {
                src: LaneID { id: 0 },
                dst: LaneID { id: 2 },
                parent: IntersectionID { id: 0 },
                length: 900,
            },
            Turn {
                src: LaneID { id: 1 },
                dst: LaneID { id: 3 },
                parent: IntersectionID { id: 0 },
                length: 900,
            },
        ],
        intersections: vec![Intersection { control }],
        conflicts: vec![(TurnID { id: 0 }, TurnID { id: 1 })],
    }
}

/// Both cars reach the intersection at once; the lower id wins the first
/// grant, the other waits at the boundary with zero speed and stays off
/// the turn until the winner has cleared it.
#[test]
fn conflicting_turns_serialize() {
    let map = conflict_map(ControlType::Uncontrolled);
    let mut sim = Sim::new(&map);
    sim.spawn_car(vehicle(1), vec![lane(0), turn(0), lane(2)], 10000, 9000, CarGoal::Stop, None, None, &map)
        .unwrap();
    sim.spawn_car(vehicle(2), vec![lane(1), turn(1), lane(3)], 10000, 9000, CarGoal::Stop, None, None, &map)
        .unwrap();

    sim.step_if_needed(1, &map);
    let on_t0 = sim.get_draw_cars_on(turn(0), &map);
    let on_t1 = sim.get_draw_cars_on(turn(1), &map);
    assert_eq!(on_t0.len(), 1, "the first arrival enters its turn");
    assert_eq!(on_t0[0].id, CarID { id: 1 }, "the tie breaks by agent id");
    assert!(on_t1.is_empty(), "the conflicting turn stays empty");
    let waiting = sim.get_draw_cars_on(lane(1), &map);
    assert_eq!(waiting.len(), 1);
    assert_eq!(waiting[0].speed, 0, "the loser is held at the boundary");

    // Until the winner leaves the turn, the loser never enters its own.
    let mut car2_entered_at = None;
    for t in 2..=20u64 {
        sim.step_if_needed(t, &map);
        let t0_busy = !sim.get_draw_cars_on(turn(0), &map).is_empty();
        let t1_busy = !sim.get_draw_cars_on(turn(1), &map).is_empty();
        assert!(!(t0_busy && t1_busy), "conflicting turns occupied together");
        if t1_busy && car2_entered_at.is_none() {
            car2_entered_at = Some(t);
        }
    }
    assert!(car2_entered_at.is_some(), "the loser was starved");
}

/// Under a stop sign, requests are served in arrival order among
/// non-conflicting candidates: a newcomer whose turn conflicts with an
/// older waiting request yields to it, even though nothing granted
/// conflicts with the newcomer.
#[test]
fn stop_sign_honors_arrival_order() {
    let map = RoadMap {
        lanes: (0..6)
            .map(|_| Lane { lane_type: LaneType::Driving, length: 10000, spots: 0 })
            .collect(),
        turns: vec![
            Turn { src: LaneID { id: 0 }, dst: LaneID { id: 3 }, parent: IntersectionID { id: 0 }, length: 900 },
            Turn { src: LaneID { id: 1 }, dst: LaneID { id: 4 }, parent: IntersectionID { id: 0 }, length: 900 },
            Turn { src: LaneID { id: 2 }, dst: LaneID { id: 5 }, parent: IntersectionID { id: 0 }, length: 900 },
        ],
        intersections: vec![Intersection { control: ControlType::StopSign }],
        conflicts: vec![(TurnID { id: 0 }, TurnID { id: 1 }), (TurnID { id: 1 }, TurnID { id: 2 })],
    };
    let mut sim = Sim::new(&map);
    sim.spawn_car(vehicle(1), vec![lane(0), turn(0), lane(3)], 10000, 9000, CarGoal::Stop, None, None, &map)
        .unwrap();
    sim.spawn_car(vehicle(2), vec![lane(1), turn(1), lane(4)], 10000, 9000, CarGoal::Stop, None, None, &map)
        .unwrap();
    sim.spawn_car(vehicle(3), vec![lane(2), turn(2), lane(5)], 10000, 9000, CarGoal::Stop, None, None, &map)
        .unwrap();

    sim.step_if_needed(1, &map);
    // Car 1 got the first grant; car 2 conflicts with it and queues.
    assert!(!sim.get_draw_cars_on(turn(0), &map).is_empty());
    assert!(sim.get_draw_cars_on(turn(1), &map).is_empty());
    // Car 3 conflicts with nothing granted, but car 2 asked first and
    // conflicts with car 3, so the stop sign holds car 3 back too.
    assert!(sim.get_draw_cars_on(turn(2), &map).is_empty());

    let mut entered2 = None;
    let mut entered3 = None;
    for t in 2..=30u64 {
        sim.step_if_needed(t, &map);
        if entered2.is_none() && !sim.get_draw_cars_on(turn(1), &map).is_empty() {
            entered2 = Some(t);
        }
        if entered3.is_none() && !sim.get_draw_cars_on(turn(2), &map).is_empty() {
            entered3 = Some(t);
        }
    }
    let e2 = entered2.expect("car 2 was starved");
    let e3 = entered3.expect("car 3 was starved");
    assert!(e2 < e3, "arrival order was not kept: {} vs {}", e2, e3);
}

/// Under a signal, a turn outside the active phase is refused even with
/// nobody else around.
#[test]
fn signal_phase_gates_turns() {
    let timing = SignalTiming {
        phases: vec![
            Phase { turns: vec![TurnID { id: 0 }] },
            Phase { turns: vec![TurnID { id: 1 }] },
        ],
        phase_duration: 10,
    };
    let map = conflict_map(ControlType::Signal(timing));
    let mut sim = Sim::new(&map);
    // Car 2 wants turn 1, which is only in the second phase.
    sim.spawn_car(vehicle(2), vec![lane(1), turn(1), lane(3)], 10000, 9000, CarGoal::Stop, None, None, &map)
        .unwrap();
    for t in 1..=9u64 {
        sim.step_if_needed(t, &map);
        assert!(
            sim.get_draw_cars_on(turn(1), &map).is_empty(),
            "entered the turn against the signal at tick {}",
            t
        );
    }
    sim.step_if_needed(10, &map);
    sim.step_if_needed(11, &map);
    assert!(!sim.get_draw_cars_on(turn(1), &map).is_empty(), "green phase never let the car through");
}

/// One long lane: three cars, the leader slow, the rest fast. At every
/// tick the cars stay strictly ordered with the following gap open.
#[test]
fn no_overtaking_no_overlap() {
    let map = park_map();
    let mut sim = Sim::new(&map);
    let slow = Vehicle { id: CarID { id: 1 }, length: 450, max_speed: 200, max_accel: 80 };
    sim.spawn_car(slow, vec![lane(0)], 3000, 10000, CarGoal::Stop, None, None, &map).unwrap();
    sim.spawn_car(vehicle(2), vec![lane(0)], 1500, 10000, CarGoal::Stop, None, None, &map).unwrap();
    sim.spawn_car(vehicle(3), vec![lane(0)], 700, 10000, CarGoal::Stop, None, None, &map).unwrap();

    for t in 1..=40u64 {
        sim.step_if_needed(t, &map);
        let cars = sim.get_draw_cars_on(lane(0), &map);
        for a in &cars {
            for b in &cars {
                if a.id != b.id {
                    let a_clear = a.front - a.length >= b.front + 100;
                    let b_clear = b.front - b.length >= a.front + 100;
                    assert!(
                        a_clear || b_clear,
                        "tick {}: cars {:?} and {:?} overlap",
                        t,
                        a,
                        b
                    );
                }
            }
        }
    }
}

/// A second call for the same time performs no state mutation at all.
#[test]
fn step_if_needed_is_idempotent() {
    let map = park_map();
    let mut sim = Sim::new(&map);
    sim.spawn_car(vehicle(1), vec![lane(0), turn(0), lane(1)], 450, 9000, CarGoal::Stop, None, None, &map)
        .unwrap();
    for t in 1..=5u64 {
        sim.step_if_needed(t, &map);
    }
    let before = sim.get_all_draw_cars(&map);
    sim.step_if_needed(5, &map);
    sim.step_if_needed(3, &map);
    let after = sim.get_all_draw_cars(&map);
    assert_eq!(before, after, "an old tick time mutated state");
}

/// Replaying the same spawns and tick times from the same initial state
/// yields identical trajectories, tick by tick.
#[test]
fn replay_is_deterministic() {
    let map = park_map();
    let mut a = Sim::new(&map);
    let mut b = Sim::new(&map);
    for sim in [&mut a, &mut b] {
        let spot = ParkingSpot { lane: LaneID { id: 2 }, idx: 0 };
        assert!(sim.reserve_spot(spot));
        let v = vehicle(1);
        let end = sim.spot_to_driving_pos(spot, &v, LaneID { id: 1 }, &map).dist;
        sim.spawn_car(v, vec![lane(0), turn(0), lane(1)], 450, end, CarGoal::Park(spot), None, None, &map)
            .unwrap();
        sim.spawn_car(vehicle(2), vec![lane(0), turn(0), lane(1)], 1200, 9500, CarGoal::Stop, None, None, &map)
            .unwrap();
        sim.spawn_ped(PedestrianID { id: 1 }, vec![lane(3)], 0, 7000, &map).unwrap();
    }
    for t in 1..=30u64 {
        a.step_if_needed(t, &map);
        b.step_if_needed(t, &map);
        assert_eq!(a.get_all_draw_cars(&map), b.get_all_draw_cars(&map), "tick {} diverged", t);
        assert_eq!(a.get_all_draw_peds(), b.get_all_draw_peds(), "tick {} peds diverged", t);
    }
}

/// A lone car accelerates by its gain each tick until the speed cap, and
/// a pedestrian covers the fixed walking speed per tick: exact values.
#[test]
fn open_road_kinematics_exact() {
    let map = park_map();
    let mut sim = Sim::new(&map);
    sim.spawn_car(vehicle(1), vec![lane(0)], 450, 10000, CarGoal::Stop, None, None, &map).unwrap();
    sim.spawn_ped(PedestrianID { id: 1 }, vec![lane(3)], 0, 10000, &map).unwrap();

    sim.step_if_needed(1, &map);
    let car = &sim.get_draw_cars_on(lane(0), &map)[0];
    assert_eq!((car.front, car.speed), (450 + 270, 270));
    let ped = &sim.get_draw_peds_on(lane(3))[0];
    assert_eq!(ped.dist, 120);

    sim.step_if_needed(2, &map);
    let car = &sim.get_draw_cars_on(lane(0), &map)[0];
    assert_eq!((car.front, car.speed), (720 + 540, 540));

    for t in 3..=8u64 {
        sim.step_if_needed(t, &map);
    }
    // By now the speed has reached the vehicle's maximum and stays there.
    let car = &sim.get_draw_cars_on(lane(0), &map)[0];
    assert_eq!(car.speed, 1400);
}

/// A pedestrian reaches its goal and the single-leg trip completes.
#[test]
fn ped_walks_to_goal() {
    let map = park_map();
    let mut sim = Sim::new(&map);
    let trip = sim.spawn_ped(PedestrianID { id: 4 }, vec![lane(3)], 0, 600, &map).unwrap();
    assert_eq!(
        sim.trip_to_agent(trip),
        TripResult::Agent(AgentID::Pedestrian(PedestrianID { id: 4 }))
    );
    for t in 1..=10u64 {
        sim.step_if_needed(t, &map);
    }
    assert_eq!(sim.trip_to_agent(trip), TripResult::TripDone);
    assert!(sim.get_all_draw_peds().is_empty());
}

/// The remaining route of an agent shrinks as it advances and disappears
/// with the trip.
#[test]
fn trace_route_follows_agent() {
    let map = park_map();
    let mut sim = Sim::new(&map);
    sim.spawn_car(vehicle(1), vec![lane(0), turn(0), lane(1)], 9800, 9000, CarGoal::Stop, None, None, &map)
        .unwrap();
    let tr = sim.trace_route(AgentID::Car(CarID { id: 1 })).unwrap();
    assert_eq!(tr, vec![lane(0), turn(0), lane(1)]);
    for t in 1..=3u64 {
        sim.step_if_needed(t, &map);
    }
    let tr2 = sim.trace_route(AgentID::Car(CarID { id: 1 })).unwrap();
    assert!(tr2.len() < 3, "the trace should have dropped the finished lane");
    assert_eq!(sim.trace_route(AgentID::Car(CarID { id: 99 })), None);
}
