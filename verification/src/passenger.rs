use crate::cabin::{CabinView, DoorState, Fahrkabine};
use crate::controller::Controller;
use crate::error::ElevatorError;
use crate::lists::position_of;
use vstd::prelude::*;

verus! {

/// The floor recorded for a passenger who is inside a cabin.
pub const IN_TRANSIT: i32 = -1;

/// The states of a journey, in their order; `Exiting` is the last.
#[derive(Debug, PartialEq, Eq, Clone, Copy, Structural)]
pub enum PassengerState {
    Waiting,
    Boarding,
    Riding,
    Exiting,
}

/// The direction of a call.
#[derive(Debug, PartialEq, Eq, Clone, Copy, Structural)]
pub enum Direction {
    Up,
    Down,
}

/// What a passenger does when the cabin they wanted to board was full.
#[derive(Debug, PartialEq, Eq, Clone, Copy, Structural)]
pub enum BoardingPolicy {
    /// Go back to waiting and call a cabin again.
    Rejoin,
    /// Stay at the door and try the next cabin that opens there.
    WaitAtDoor,
}

/// The direction of a journey: up when the destination lies above the
/// origin, down otherwise.
pub open spec fn direction_of(origin: i32, destination: i32) -> Direction {
    if destination > origin {
        Direction::Up
    } else {
        Direction::Down
    }
}

/// One passenger. The value is its own model.
#[derive(Debug, PartialEq, Eq, Clone, Copy, Structural)]
pub struct Passagier {
    pub id: i32,
    /// The floor the passenger stands on; `IN_TRANSIT` while riding.
    pub current_floor: i32,
    pub destination_floor: i32,
    pub state: PassengerState,
    /// The floor the journey began on.
    pub origin_floor: i32,
    pub policy: BoardingPolicy,
    /// The passenger has called a cabin and the call has not failed since.
    pub requested: bool,
}

impl Passagier {
    /// A passenger who waits at `current_floor` and has not called a cabin yet.
    pub open spec fn fresh(id: i32, current_floor: i32, destination_floor: i32) -> Passagier {
        Passagier {
            id,
            current_floor,
            destination_floor,
            state: PassengerState::Waiting,
            origin_floor: current_floor,
            policy: BoardingPolicy::Rejoin,
            requested: false,
        }
    }

    /// `later` is this passenger at a later time: the same person on the
    /// same journey, and arrived for good if arrived before.
    pub open spec fn becomes(self, later: Passagier) -> bool {
        &&& later.id == self.id
        &&& later.origin_floor == self.origin_floor
        &&& later.destination_floor == self.destination_floor
        &&& later.policy == self.policy
        &&& (self.state == PassengerState::Exiting ==> later == self)
    }

    /// The passenger waits and has no live call.
    pub open spec fn must_call(self) -> bool {
        self.state == PassengerState::Waiting && !self.requested
    }

    /// The passenger stands before the open door of cabin `c` and wants in.
    pub open spec fn can_board(self, c: CabinView) -> bool {
        &&& self.state == PassengerState::Waiting || self.state == PassengerState::Boarding
        &&& c.floor == self.current_floor
        &&& c.door.state == DoorState::Open
    }

    /// How an attempt to board `c` ends: `Ok(false)` where the passenger is
    /// not before its open door, `InvalidFloor` where the cabin cannot reach
    /// the destination, `CapacityExceeded` where it is full, `Ok(true)` else.
    pub open spec fn board_result(self, c: CabinView) -> Result<bool, ElevatorError> {
        if !self.can_board(c) {
            Ok(false)
        } else if !c.valid_floor(self.destination_floor) {
            Err(ElevatorError::InvalidFloor)
        } else if c.is_full() {
            Err(ElevatorError::CapacityExceeded)
        } else {
            Ok(true)
        }
    }

    /// The passenger after an attempt to board `c`.
    pub open spec fn after_boarding(self, c: CabinView) -> Passagier {
        match self.board_result(c) {
            Ok(true) => Passagier { state: PassengerState::Riding, current_floor: IN_TRANSIT, ..self },
            Err(ElevatorError::CapacityExceeded) => match self.policy {
                BoardingPolicy::Rejoin => Passagier {
                    state: PassengerState::Waiting,
                    requested: false,
                    ..self
                },
                BoardingPolicy::WaitAtDoor => Passagier { state: PassengerState::Boarding, ..self },
            },
            _ => self,
        }
    }

    /// The cabin after the passenger's attempt to board it: on success the
    /// passenger is inside and the destination is called.
    pub open spec fn cabin_after_boarding(self, c: CabinView) -> CabinView {
        if self.board_result(c) == Ok::<bool, ElevatorError>(true) {
            c.add_passenger(self.id).enqueue_target(self.destination_floor)
        } else {
            c
        }
    }

    /// The passenger rides in `c`, which stands at the destination with its
    /// door open.
    pub open spec fn can_exit(self, c: CabinView) -> bool {
        &&& self.state == PassengerState::Riding
        &&& c.boarded.contains(self.id)
        &&& c.floor == self.destination_floor
        &&& c.door.state == DoorState::Open
    }

    /// The passenger after an attempt to leave `c`.
    pub open spec fn after_exiting(self, c: CabinView) -> Passagier {
        if self.can_exit(c) {
            Passagier {
                state: PassengerState::Exiting,
                current_floor: self.destination_floor,
                ..self
            }
        } else {
            self
        }
    }

    /// The cabin after the passenger's attempt to leave it.
    pub open spec fn cabin_after_exiting(self, c: CabinView) -> CabinView {
        if self.can_exit(c) {
            c.remove_passenger(self.id)
        } else {
            c
        }
    }

    /// Boarding and leaving keep the cabin's invariant.
    pub proof fn lemma_cabin_inv(self, c: CabinView)
        requires
            c.inv(),
        ensures
            self.cabin_after_boarding(c).inv(),
            self.cabin_after_exiting(c).inv(),
            self.cabin_after_boarding(c).num_floors == c.num_floors,
            self.cabin_after_exiting(c).num_floors == c.num_floors,
    {
        c.lemma_boarding_inv(self.id);
        c.add_passenger(self.id).lemma_enqueue_inv(self.destination_floor);
    }

    /// A passenger who waits at `current_floor` for a ride to
    /// `destination_floor`.
    pub fn new(id: i32, current_floor: i32, destination_floor: i32) -> (p: Passagier)
        ensures
            p == Passagier::fresh(id, current_floor, destination_floor),
    {
        Passagier {
            id,
            current_floor,
            destination_floor,
            state: PassengerState::Waiting,
            origin_floor: current_floor,
            policy: BoardingPolicy::Rejoin,
            requested: false,
        }
    }

    /// The same passenger with another policy for a full cabin.
    pub fn with_policy(self, policy: BoardingPolicy) -> (p: Passagier)
        ensures
            p == (Passagier { policy, ..self }),
    {
        Passagier { policy, ..self }
    }

    /// The direction of the journey.
    pub fn direction(&self) -> (d: Direction)
        ensures
            d == direction_of(self.origin_floor, self.destination_floor),
    {
        if self.destination_floor > self.origin_floor {
            Direction::Up
        } else {
            Direction::Down
        }
    }

    /// Tries to board `elevator`. Before its open door the passenger steps
    /// in, calls the destination and rides (`Ok(true)`); where the cabin is
    /// full the attempt fails with `CapacityExceeded` and the passenger
    /// follows their policy; a cabin that cannot reach the destination is
    /// refused as `InvalidFloor`. Anywhere else nothing happens (`Ok(false)`).
    pub fn board_elevator(&mut self, elevator: &mut Fahrkabine) -> (r: Result<bool, ElevatorError>)
        requires
            old(elevator).inv(),
        ensures
            final(elevator).inv(),
            r == old(self).board_result(old(elevator)@),
            *final(self) == old(self).after_boarding(old(elevator)@),
            final(elevator)@ == old(self).cabin_after_boarding(old(elevator)@),
    {
        proof {
            self.lemma_cabin_inv(elevator@);
        }
        let wants_in = self.state == PassengerState::Waiting || self.state
            == PassengerState::Boarding;
        if !(wants_in && elevator.current_floor() == self.current_floor && elevator.door().state
            == DoorState::Open) {
            return Ok(false);
        }
        if self.destination_floor < 0 || self.destination_floor >= elevator.num_floors() {
            return Err(ElevatorError::InvalidFloor);
        }
        self.state = PassengerState::Boarding;
        match elevator.add_passenger(self.id) {
            Ok(()) => {
                let called = elevator.enqueue_target(self.destination_floor);
                assert(called is Ok);
                self.state = PassengerState::Riding;
                self.current_floor = IN_TRANSIT;
                Ok(true)
            },
            Err(e) => {
                match self.policy {
                    BoardingPolicy::Rejoin => {
                        self.state = PassengerState::Waiting;
                        self.requested = false;
                    },
                    BoardingPolicy::WaitAtDoor => {},
                }
                Err(e)
            },
        }
    }

    /// Leaves `elevator` where the passenger rides in it and it stands at the
    /// destination with its door open, and tells whether the passenger left.
    pub fn exit_elevator(&mut self, elevator: &mut Fahrkabine) -> (left: bool)
        requires
            old(elevator).inv(),
        ensures
            final(elevator).inv(),
            left == old(self).can_exit(old(elevator)@),
            *final(self) == old(self).after_exiting(old(elevator)@),
            final(elevator)@ == old(self).cabin_after_exiting(old(elevator)@),
    {
        if self.state == PassengerState::Riding && elevator.current_floor()
            == self.destination_floor && elevator.door().state == DoorState::Open && position_of(
            elevator.passengers(),
            self.id,
        ).is_some() {
            elevator.remove_passenger(self.id);
            self.state = PassengerState::Exiting;
            self.current_floor = self.destination_floor;
            true
        } else {
            false
        }
    }

    /// Calls a cabin to the passenger's floor, unless the passenger does not
    /// wait or has a live call already (`Ok(false)`). The call joins the
    /// controller's ledger as `send_floor_request` records it, and its
    /// refusals are passed on.
    pub fn request_elevator(&mut self, controller: &mut Controller) -> (r: Result<bool, ElevatorError>)
        requires
            old(controller).inv(),
        ensures
            final(controller).inv(),
            match r {
                Ok(called) => called == old(self).must_call() && (called ==> old(
                    controller,
                )@.submit_result(old(self).current_floor, old(self).destination_floor) is Ok),
                Err(e) => old(self).must_call() && old(controller)@.submit_result(
                    old(self).current_floor,
                    old(self).destination_floor,
                ) == Err::<(), ElevatorError>(e),
            },
            final(controller)@ == (if old(self).must_call() {
                old(controller)@.submit(old(self).current_floor, old(self).destination_floor)
            } else {
                old(controller)@
            }),
            *final(self) == (if r == Ok::<bool, ElevatorError>(true) {
                Passagier { requested: true, ..*old(self) }
            } else {
                *old(self)
            }),
    {
        if !(self.state == PassengerState::Waiting && !self.requested) {
            return Ok(false);
        }
        match controller.send_floor_request(self.current_floor, self.destination_floor) {
            Ok(_) => {
                self.requested = true;
                Ok(true)
            },
            Err(e) => Err(e),
        }
    }
}

} // verus!
