//! Discrete-time traffic simulation core.
//!
//! The library advances cars and pedestrians across a static road network
//! tick by tick, keeps agents on each lane or turn strictly ordered so that
//! nobody overtakes or collides, arbitrates conflicting turns at
//! intersections, manages the finite supply of parking spots, and tracks
//! each trip through its driving, walking and parked legs.

pub mod driving;
pub mod input;
pub mod intersection;
pub mod map;
pub mod menu;
pub mod parking;
pub mod sim;
pub mod trips;
pub mod types;
pub mod view;
pub mod walking;
