use crate::cabin::{CabinView, DoorState, ElevatorState};
use crate::dispatch::select;
use crate::error::ElevatorError;
use crate::passenger::{direction_of, Direction, Passagier, PassengerState};
use crate::request::{has_ticket, ledger_sorted, ticket_position, FloorRequest};
use vstd::prelude::*;

verus! {

/// The number of cycles a simulation runs for unless another bound is set.
pub const DEFAULT_PATIENCE: u32 = 1000;

/// The mathematical model of a controller with its cabins, its passengers
/// and its ledger of pending calls.
#[verifier::ext_equal]
pub struct ControllerView {
    pub cabins: Seq<CabinView>,
    pub passengers: Seq<Passagier>,
    /// The pending calls, the oldest first.
    pub ledger: Seq<FloorRequest>,
    /// Counts the calls handed out in turn.
    pub next_cabin: usize,
    pub num_floors: i32,
    /// The time the next call is made at.
    pub clock: u64,
    /// The number of cycles after which a passenger who has not arrived is
    /// reported.
    pub patience: u32,
}

impl ControllerView {
    /// `f` is a floor of the building.
    pub open spec fn valid_floor(self, f: i32) -> bool {
        0 <= f < self.num_floors
    }

    /// A cabin is registered under `idx`.
    pub open spec fn known_cabin(self, idx: int) -> bool {
        0 <= idx < self.cabins.len()
    }

    /// What holds of every controller between two operations: there is a
    /// cabin, every cabin is well formed and of this building, and the
    /// pending calls are for floors of this building and stand in the order
    /// in which they were made.
    pub open spec fn inv(self) -> bool {
        &&& self.cabins.len() > 0
        &&& forall|i: int|
            0 <= i < self.cabins.len() ==> (#[trigger] self.cabins[i]).inv() && self.cabins[i].num_floors
                == self.num_floors
        &&& forall|k: int|
            0 <= k < self.ledger.len() ==> self.valid_floor((#[trigger] self.ledger[k]).floor)
                && self.ledger[k].time < self.clock
        &&& ledger_sorted(self.ledger)
    }

    /// The controller with `c` in the place of cabin `idx`.
    pub open spec fn with_cabin(self, idx: int, c: CabinView) -> ControllerView {
        ControllerView { cabins: self.cabins.update(idx, c), ..self }
    }

    // ----- construction -----
    /// The cabins can be put under one controller: there is one, and all
    /// are of the same building.
    pub open spec fn cabins_agree(cabins: Seq<CabinView>) -> bool {
        &&& cabins.len() > 0
        &&& forall|i: int|
            0 <= i < cabins.len() ==> (#[trigger] cabins[i]).num_floors == cabins[0].num_floors
    }

    /// A controller over `cabins` without passengers and without calls.
    pub open spec fn fresh(cabins: Seq<CabinView>) -> ControllerView {
        ControllerView {
            cabins,
            passengers: Seq::empty(),
            ledger: Seq::empty(),
            next_cabin: 0,
            num_floors: cabins[0].num_floors,
            clock: 0,
            patience: DEFAULT_PATIENCE,
        }
    }

    // ----- passengers -----
    /// Only a passenger whose floor and destination lie in the building is
    /// registered.
    pub open spec fn add_passenger_result(self, p: Passagier) -> Result<(), ElevatorError> {
        if self.valid_floor(p.current_floor) && self.valid_floor(p.destination_floor) {
            Ok(())
        } else {
            Err(ElevatorError::InvalidFloor)
        }
    }

    /// The passenger joins the end of the list of passengers.
    pub open spec fn add_passenger(self, p: Passagier) -> ControllerView {
        if self.add_passenger_result(p) is Ok {
            ControllerView { passengers: self.passengers.push(p), ..self }
        } else {
            self
        }
    }

    /// Every passenger has arrived.
    pub open spec fn all_exited(self) -> bool {
        forall|j: int|
            0 <= j < self.passengers.len() ==> (#[trigger] self.passengers[j]).state
                == PassengerState::Exiting
    }

    /// The ids of those among the first `n` passengers who have not arrived.
    pub open spec fn stuck_upto(self, n: int) -> Seq<i32>
        decreases n,
    {
        if n <= 0 {
            Seq::empty()
        } else {
            let before = self.stuck_upto(n - 1);
            if self.passengers[n - 1].state != PassengerState::Exiting {
                before.push(self.passengers[n - 1].id)
            } else {
                before
            }
        }
    }

    /// The ids of the passengers who have not arrived, in their order.
    pub open spec fn stuck(self) -> Seq<i32> {
        self.stuck_upto(self.passengers.len() as int)
    }

    // ----- the ledger -----
    /// How a call at `floor` ends: `InvalidFloor` for a floor outside the
    /// building, `LedgerConsistency` when the clock has run out.
    pub open spec fn post_result(self, floor: i32) -> Result<(), ElevatorError> {
        if !self.valid_floor(floor) {
            Err(ElevatorError::InvalidFloor)
        } else if self.clock == u64::MAX {
            Err(ElevatorError::LedgerConsistency)
        } else {
            Ok(())
        }
    }

    /// A call at `floor` joins the end of the ledger and the clock moves on.
    pub open spec fn post(self, floor: i32, direction: Direction) -> ControllerView {
        if self.post_result(floor) is Ok {
            ControllerView {
                ledger: self.ledger.push(FloorRequest { floor, direction, time: self.clock }),
                clock: (self.clock + 1) as u64,
                ..self
            }
        } else {
            self
        }
    }

    /// How the call of a journey ends: `InvalidFloor` for a destination
    /// outside the building, else as the call at the floor it starts from.
    pub open spec fn submit_result(self, current_floor: i32, destination_floor: i32) -> Result<
        (),
        ElevatorError,
    > {
        if !self.valid_floor(destination_floor) {
            Err(ElevatorError::InvalidFloor)
        } else {
            self.post_result(current_floor)
        }
    }

    /// The call of a journey from `current_floor` to `destination_floor`
    /// joins the end of the ledger.
    pub open spec fn submit(self, current_floor: i32, destination_floor: i32) -> ControllerView {
        if self.submit_result(current_floor, destination_floor) is Ok {
            self.post(current_floor, direction_of(current_floor, destination_floor))
        } else {
            self
        }
    }

    /// The call at position `k` leaves the ledger and cabin `idx` takes it on.
    pub open spec fn take(self, k: int, idx: int) -> ControllerView {
        ControllerView {
            ledger: self.ledger.remove(k),
            cabins: self.cabins.update(idx, self.cabins[idx].enqueue_target(self.ledger[k].floor)),
            ..self
        }
    }

    /// How handing a call to a cabin ends: `LedgerConsistency` for a call that
    /// is not pending, `UnknownCabin` for a cabin that is not registered.
    pub open spec fn dispatch_result(self, ticket: u64, idx: int) -> Result<(), ElevatorError> {
        if !has_ticket(self.ledger, ticket) {
            Err(ElevatorError::LedgerConsistency)
        } else if !self.known_cabin(idx) {
            Err(ElevatorError::UnknownCabin)
        } else {
            Ok(())
        }
    }

    /// The pending call made at `ticket` is handed to cabin `idx`.
    pub open spec fn dispatch(self, ticket: u64, idx: int) -> ControllerView {
        if self.dispatch_result(ticket, idx) is Ok {
            self.take(ticket_position(self.ledger, ticket), idx)
        } else {
            self
        }
    }

    /// The cabins after the first `n` pending calls have been considered,
    /// the oldest first: each call goes to the cabin that `select` names for
    /// its floor, if it names one.
    pub open spec fn assign_cabins(self, n: int) -> Seq<CabinView>
        decreases n,
    {
        if n <= 0 {
            self.cabins
        } else {
            let before = self.assign_cabins(n - 1);
            let floor = self.ledger[n - 1].floor;
            match select(before, floor) {
                Some(i) => before.update(i, before[i].enqueue_target(floor)),
                None => before,
            }
        }
    }

    /// Those of the first `n` pending calls that no cabin could take, in
    /// their old order.
    pub open spec fn kept(self, n: int) -> Seq<FloorRequest>
        decreases n,
    {
        if n <= 0 {
            Seq::empty()
        } else {
            let before = self.kept(n - 1);
            if select(self.assign_cabins(n - 1), self.ledger[n - 1].floor) is None {
                before.push(self.ledger[n - 1])
            } else {
                before
            }
        }
    }

    /// Among the first `n` pending calls is one for floor `f`, and `select`
    /// names cabin `i` for that floor.
    pub open spec fn assigned_before(self, n: int, f: i32, i: int) -> bool {
        exists|m: int|
            0 <= m < n && (#[trigger] self.ledger[m]).floor == f && select(self.cabins, f) == Some(i)
    }

    /// The call `q` is one of the first `n` pending calls.
    pub open spec fn from_ledger(self, n: int, q: FloorRequest) -> bool {
        exists|m: int| 0 <= m < n && #[trigger] self.ledger[m] == q
    }

    /// One pass over the ledger: every call that a cabin can take is handed
    /// to the best cabin and leaves the ledger, the others stay.
    pub open spec fn assign(self) -> ControllerView {
        ControllerView {
            cabins: self.assign_cabins(self.ledger.len() as int),
            ledger: self.kept(self.ledger.len() as int),
            ..self
        }
    }

    /// How a call for a named cabin ends: as the call itself, and
    /// `UnknownCabin` for a cabin that is not registered.
    pub open spec fn send_to_result(self, current_floor: i32, destination_floor: i32, idx: int) -> Result<
        (),
        ElevatorError,
    > {
        if self.submit_result(current_floor, destination_floor) is Err {
            self.submit_result(current_floor, destination_floor)
        } else if !self.known_cabin(idx) {
            Err(ElevatorError::UnknownCabin)
        } else {
            Ok(())
        }
    }

    /// A call is made and handed to cabin `idx` at once.
    pub open spec fn send_to(self, current_floor: i32, destination_floor: i32, idx: int) -> ControllerView {
        if self.send_to_result(current_floor, destination_floor, idx) is Ok {
            ControllerView {
                cabins: self.cabins.update(idx, self.cabins[idx].enqueue_target(current_floor)),
                clock: (self.clock + 1) as u64,
                ..self
            }
        } else {
            self
        }
    }

    /// The cabin whose turn it is.
    pub open spec fn turn(self) -> int {
        self.next_cabin as int % self.cabins.len() as int
    }

    /// A call is made and handed to the cabin whose turn it is; the turn
    /// passes on.
    pub open spec fn send_in_turn(self, current_floor: i32, destination_floor: i32) -> ControllerView {
        if self.send_to_result(current_floor, destination_floor, self.turn()) is Ok {
            ControllerView {
                next_cabin: if self.next_cabin == usize::MAX {
                    0
                } else {
                    (self.next_cabin + 1) as usize
                },
                ..self.send_to(current_floor, destination_floor, self.turn())
            }
        } else {
            self
        }
    }

    /// `after` differs from this controller at most in its passengers and
    /// in cabin `idx`.
    pub open spec fn only_served(self, after: ControllerView, idx: int) -> bool {
        &&& after.passengers.len() == self.passengers.len()
        &&& after.cabins.len() == self.cabins.len()
        &&& after.ledger == self.ledger
        &&& after.clock == self.clock
        &&& after.num_floors == self.num_floors
        &&& after.next_cabin == self.next_cabin
        &&& after.patience == self.patience
        &&& forall|i: int|
            0 <= i < self.cabins.len() && i != idx ==> #[trigger] after.cabins[i] == self.cabins[i]
    }

    /// `after` holds the same passengers at a later time.
    pub open spec fn same_people(self, after: ControllerView) -> bool {
        &&& after.passengers.len() == self.passengers.len()
        &&& forall|j: int|
            0 <= j < self.passengers.len() ==> (#[trigger] self.passengers[j]).becomes(
                after.passengers[j],
            )
    }

    // ----- service at an open door -----
    /// The first `n` passengers, in their order, have each tried to board
    /// cabin `idx`.
    pub open spec fn board_upto(self, idx: int, n: int) -> ControllerView
        decreases n,
    {
        if n <= 0 {
            self
        } else {
            let before = self.board_upto(idx, n - 1);
            let p = before.passengers[n - 1];
            let c = before.cabins[idx];
            ControllerView {
                passengers: before.passengers.update(n - 1, p.after_boarding(c)),
                cabins: before.cabins.update(idx, p.cabin_after_boarding(c)),
                ..before
            }
        }
    }

    /// The first `n` passengers, in their order, have each tried to leave
    /// cabin `idx`.
    pub open spec fn exit_upto(self, idx: int, n: int) -> ControllerView
        decreases n,
    {
        if n <= 0 {
            self
        } else {
            let before = self.exit_upto(idx, n - 1);
            let p = before.passengers[n - 1];
            let c = before.cabins[idx];
            ControllerView {
                passengers: before.passengers.update(n - 1, p.after_exiting(c)),
                cabins: before.cabins.update(idx, p.cabin_after_exiting(c)),
                ..before
            }
        }
    }

    /// At the door of cabin `idx` the passengers board, then those who have
    /// arrived leave.
    pub open spec fn exchange(self, idx: int) -> ControllerView {
        let boarded = self.board_upto(idx, self.passengers.len() as int);
        boarded.exit_upto(idx, boarded.passengers.len() as int)
    }

    /// How a service ends: `UnknownCabin` for a cabin that is not registered,
    /// else as the cabin's attending the floor.
    pub open spec fn serve_result(self, idx: int, target: i32) -> Result<(), ElevatorError> {
        if !self.known_cabin(idx) {
            Err(ElevatorError::UnknownCabin)
        } else {
            self.cabins[idx].attend_result(target)
        }
    }

    /// Cabin `idx` serves `target` in one go: it attends the floor, opens
    /// its door, passengers board and leave, and the door closes again.
    pub open spec fn serve(self, idx: int, target: i32) -> ControllerView {
        if self.serve_result(idx, target) is Ok {
            let arrived = self.with_cabin(idx, self.cabins[idx].attend(target).open_door());
            let exchanged = arrived.exchange(idx);
            exchanged.with_cabin(idx, exchanged.cabins[idx].close_door())
        } else {
            self
        }
    }

    /// Cabin `idx` takes the one action that is due. A moving cabin advances
    /// by a floor. At an open door passengers board and leave and the door
    /// closes. A stopped cabin opens its door. An idle cabin sets off to the
    /// floor to attend next, or is held where it is when that floor is its own.
    pub open spec fn advance(self, idx: int) -> ControllerView {
        let c = self.cabins[idx];
        if !self.known_cabin(idx) {
            self
        } else if c.motion == ElevatorState::Moving {
            self.with_cabin(idx, c.step())
        } else if c.door.state == DoorState::Open {
            let exchanged = self.exchange(idx);
            exchanged.with_cabin(idx, exchanged.cabins[idx].close_door())
        } else if c.motion == ElevatorState::Stopped {
            self.with_cabin(idx, c.open_door())
        } else {
            match c.next_target() {
                Some(t) => if t == c.floor {
                    self.with_cabin(idx, c.hold())
                } else {
                    self.with_cabin(idx, c.start_move(t))
                },
                None => self,
            }
        }
    }

    // ----- the cycle of a simulation -----
    /// Passenger `j` calls a cabin if they wait and have no live call.
    pub open spec fn request_one(self, j: int) -> ControllerView {
        let p = self.passengers[j];
        if p.must_call() && self.submit_result(p.current_floor, p.destination_floor) is Ok {
            ControllerView {
                passengers: self.passengers.update(j, Passagier { requested: true, ..p }),
                ..self.submit(p.current_floor, p.destination_floor)
            }
        } else {
            self
        }
    }

    /// The first `n` passengers have called where they had to.
    pub open spec fn request_upto(self, n: int) -> ControllerView
        decreases n,
    {
        if n <= 0 {
            self
        } else {
            self.request_upto(n - 1).request_one(n - 1)
        }
    }

    /// The first `n` cabins have each taken the action that was due.
    pub open spec fn advance_upto(self, n: int) -> ControllerView
        decreases n,
    {
        if n <= 0 {
            self
        } else {
            self.advance_upto(n - 1).advance(n - 1)
        }
    }

    /// One cycle: the waiting passengers call, the calls are assigned, and
    /// every cabin takes one action.
    pub open spec fn cycle(self) -> ControllerView {
        let called = self.request_upto(self.passengers.len() as int);
        let assigned = called.assign();
        assigned.advance_upto(assigned.cabins.len() as int)
    }

    /// The controller after at most `n` cycles; no cycle is run once every
    /// passenger has arrived.
    pub open spec fn run(self, n: int) -> ControllerView
        decreases n,
    {
        if n <= 0 || self.all_exited() {
            self
        } else {
            self.cycle().run(n - 1)
        }
    }
}

} // verus!
