//! A bank of elevator cabins, the passengers that ride them and the
//! controller that dispatches floor requests to cabins.
//!
//! Every type has a mathematical model (its view); every operation states
//! its effect as a function on that model, and the invariants of the model
//! are proved to hold after each operation.
pub mod error;
pub mod lists;
pub mod cabin;
pub mod passenger;
pub mod dispatch;
pub mod request;
pub mod model;
pub mod laws;
pub mod controller;
mod random;
pub mod simulation;
pub mod gui;
pub mod liveness;

pub use crate::cabin::{CabinView, Door, DoorState, ElevatorState, Fahrkabine, DOOR_HOLD_TICKS};
pub use crate::controller::Controller;
pub use crate::dispatch::{cabin_cost, select_cabin};
pub use crate::error::ElevatorError;
pub use crate::gui::{ui_state, CabinSnapshot, UIState};
pub use crate::model::{ControllerView, DEFAULT_PATIENCE};
pub use crate::passenger::{BoardingPolicy, Direction, Passagier, PassengerState, IN_TRANSIT};
pub use crate::request::FloorRequest;
pub use crate::simulation::{
    build_simulation, debug_passenger_states, destination_from_draw, init_simulation,
    run_simulation,
};
