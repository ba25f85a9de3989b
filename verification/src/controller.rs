use crate::cabin::{DoorState, ElevatorState, Fahrkabine};
use crate::dispatch::{cabin_views, is_best, select, select_cabin};
use crate::error::ElevatorError;
use crate::model::{ControllerView, DEFAULT_PATIENCE};
use crate::passenger::{Direction, Passagier, PassengerState};
use crate::random::random_below;
use crate::request::{find_ticket, FloorRequest};
use vstd::prelude::*;

verus! {

/// The models of a row of cabins follow a change of one cabin.
pub proof fn lemma_views_update(cabins: Seq<Fahrkabine>, i: int, c: Fahrkabine)
    requires
        0 <= i < cabins.len(),
    ensures
        cabin_views(cabins.update(i, c)) == cabin_views(cabins).update(i, c@),
{
    assert(cabin_views(cabins.update(i, c)) =~= cabin_views(cabins).update(i, c@));
}

/// The dispatch controller: it owns the cabins, the passengers and the
/// ledger of pending calls.
pub struct Controller {
    elevators: Vec<Fahrkabine>,
    passengers: Vec<Passagier>,
    ledger: Vec<FloorRequest>,
    next_elevator: usize,
    num_floors: i32,
    clock: u64,
    patience: u32,
}

impl View for Controller {
    type V = ControllerView;

    closed spec fn view(&self) -> ControllerView {
        ControllerView {
            cabins: cabin_views(self.elevators@),
            passengers: self.passengers@,
            ledger: self.ledger@,
            next_cabin: self.next_elevator,
            num_floors: self.num_floors,
            clock: self.clock,
            patience: self.patience,
        }
    }
}

impl Controller {
    /// The controller is well formed: its model satisfies the invariant.
    pub open spec fn inv(&self) -> bool {
        self@.inv()
    }

    /// Puts `elevators` under a new controller without passengers and
    /// without calls. An empty row, and cabins of different buildings, are
    /// refused as `InvalidConfig`.
    pub fn new(elevators: Vec<Fahrkabine>) -> (r: Result<Controller, ElevatorError>)
        requires
            forall|i: int| 0 <= i < elevators.len() ==> (#[trigger] elevators[i]).inv(),
        ensures
            match r {
                Ok(c) => ControllerView::cabins_agree(cabin_views(elevators@)) && c@
                    == ControllerView::fresh(cabin_views(elevators@)) && c.inv(),
                Err(e) => e == ElevatorError::InvalidConfig && !ControllerView::cabins_agree(
                    cabin_views(elevators@),
                ),
            },
    {
        let ghost views = cabin_views(elevators@);
        if elevators.len() == 0 {
            return Err(ElevatorError::InvalidConfig);
        }
        let num_floors = elevators[0].num_floors();
        let mut i: usize = 1;
        while i < elevators.len()
            invariant
                1 <= i <= elevators.len(),
                views == cabin_views(elevators@),
                num_floors == views[0].num_floors,
                forall|j: int| 0 <= j < i ==> (#[trigger] views[j]).num_floors == num_floors,
            decreases elevators.len() - i,
        {
            if elevators[i].num_floors() != num_floors {
                assert(views[i as int].num_floors != views[0].num_floors);
                return Err(ElevatorError::InvalidConfig);
            }
            i += 1;
        }
        proof {
            assert forall|j: int| 0 <= j < views.len() implies (#[trigger] views[j]).inv() by {
                assert(elevators[j].inv());
            }
            ControllerView::lemma_fresh_inv(views);
        }
        Ok(
            Controller {
                elevators,
                passengers: Vec::new(),
                ledger: Vec::new(),
                next_elevator: 0,
                num_floors,
                clock: 0,
                patience: DEFAULT_PATIENCE,
            },
        )
    }

    /// The number of floors of the building.
    pub fn num_floors(&self) -> (r: i32)
        ensures
            r == self@.num_floors,
    {
        self.num_floors
    }

    /// The cabins, in the order in which they were registered.
    pub fn elevators(&self) -> (r: &Vec<Fahrkabine>)
        ensures
            cabin_views(r@) == self@.cabins,
    {
        &self.elevators
    }

    /// The passengers, in the order in which they were registered.
    pub fn passengers(&self) -> (r: &Vec<Passagier>)
        ensures
            r@ == self@.passengers,
    {
        &self.passengers
    }

    /// The pending calls, the oldest first.
    pub fn pending(&self) -> (r: &Vec<FloorRequest>)
        ensures
            r@ == self@.ledger,
    {
        &self.ledger
    }

    /// The number of cycles after which a passenger who has not arrived is
    /// reported.
    pub fn patience(&self) -> (r: u32)
        ensures
            r == self@.patience,
    {
        self.patience
    }

    /// Sets the number of cycles after which a passenger who has not arrived
    /// is reported.
    pub fn set_patience(&mut self, cycles: u32)
        ensures
            final(self)@ == (ControllerView { patience: cycles, ..old(self)@ }),
    {
        self.patience = cycles;
    }

    fn valid_floor(&self, f: i32) -> (r: bool)
        ensures
            r == self@.valid_floor(f),
    {
        0 <= f && f < self.num_floors
    }

    /// Registers a passenger. One whose floor or destination lies outside
    /// the building is refused as `InvalidFloor`.
    pub fn add_passenger(&mut self, passenger: Passagier) -> (r: Result<(), ElevatorError>)
        requires
            old(self).inv(),
        ensures
            final(self).inv(),
            r == old(self)@.add_passenger_result(passenger),
            final(self)@ == old(self)@.add_passenger(passenger),
    {
        if !(self.valid_floor(passenger.current_floor) && self.valid_floor(
            passenger.destination_floor,
        )) {
            return Err(ElevatorError::InvalidFloor);
        }
        self.passengers.push(passenger);
        Ok(())
    }

    /// Records a call at `floor` in the given direction at the end of the
    /// ledger and returns the time of the call. A floor outside the building
    /// is refused as `InvalidFloor`, a call when the clock has run out as
    /// `LedgerConsistency`.
    pub fn submit_request(&mut self, floor: i32, direction: Direction) -> (r: Result<u64, ElevatorError>)
        requires
            old(self).inv(),
        ensures
            final(self).inv(),
            match r {
                Ok(ticket) => old(self)@.post_result(floor) is Ok && ticket == old(self)@.clock,
                Err(e) => old(self)@.post_result(floor) == Err::<(), ElevatorError>(e),
            },
            final(self)@ == old(self)@.post(floor, direction),
    {
        if !self.valid_floor(floor) {
            return Err(ElevatorError::InvalidFloor);
        }
        if self.clock == u64::MAX {
            return Err(ElevatorError::LedgerConsistency);
        }
        let ticket = self.clock;
        self.ledger.push(FloorRequest { floor, direction, time: ticket });
        self.clock = self.clock + 1;
        Ok(ticket)
    }

    /// Records the call of a journey from `current_floor` to
    /// `destination_floor` as `submit_request` does, in the direction of the
    /// journey, and returns the time of the call. A destination outside the
    /// building is refused as `InvalidFloor`, like a floor of the call.
    pub fn send_floor_request(&mut self, current_floor: i32, destination_floor: i32) -> (r: Result<
        u64,
        ElevatorError,
    >)
        requires
            old(self).inv(),
        ensures
            final(self).inv(),
            match r {
                Ok(ticket) => old(self)@.submit_result(current_floor, destination_floor) is Ok
                    && ticket == old(self)@.clock,
                Err(e) => old(self)@.submit_result(current_floor, destination_floor) == Err::<
                    (),
                    ElevatorError,
                >(e),
            },
            final(self)@ == old(self)@.submit(current_floor, destination_floor),
    {
        if !self.valid_floor(destination_floor) {
            return Err(ElevatorError::InvalidFloor);
        }
        let direction = if destination_floor > current_floor {
            Direction::Up
        } else {
            Direction::Down
        };
        self.submit_request(current_floor, direction)
    }

    /// Hands the pending call made at `ticket` to cabin `idx`: the call
    /// leaves the ledger and the cabin takes it on. A call that is not
    /// pending is refused as `LedgerConsistency`, a cabin that is not
    /// registered as `UnknownCabin`.
    pub fn dispatch(&mut self, ticket: u64, idx: usize) -> (r: Result<(), ElevatorError>)
        requires
            old(self).inv(),
        ensures
            final(self).inv(),
            r == old(self)@.dispatch_result(ticket, idx as int),
            final(self)@ == old(self)@.dispatch(ticket, idx as int),
    {
        let k = match find_ticket(&self.ledger, ticket) {
            Some(k) => k,
            None => {
                return Err(ElevatorError::LedgerConsistency);
            },
        };
        if idx >= self.elevators.len() {
            return Err(ElevatorError::UnknownCabin);
        }
        proof {
            self@.lemma_take_inv(k as int, idx as int);
        }
        let call = self.ledger.remove(k);
        let ghost before = self.elevators@;
        assert(before[idx as int].inv()) by {
            assert(old(self)@.cabins[idx as int].inv());
        }
        let _ = self.elevators[idx].enqueue_target(call.floor);
        proof {
            lemma_views_update(before, idx as int, self.elevators@[idx as int]);
            assert(self.elevators@ =~= before.update(idx as int, self.elevators@[idx as int]));
            assert(self@ =~= old(self)@.take(k as int, idx as int));
        }
        Ok(())
    }

    /// Chooses the cabin to send to a call at `floor`, as `select_cabin` does.
    pub fn select_cabin(&self, floor: i32) -> (r: Option<usize>)
        ensures
            match r {
                Some(i) => select(self@.cabins, floor) == Some(i as int)
                    && is_best(self@.cabins, floor, i as int),
                None => select(self@.cabins, floor) is None,
            },
    {
        select_cabin(&self.elevators, floor)
    }

    /// Makes a call for a journey from `current_floor` to `destination_floor`
    /// and hands it to cabin `idx` at once, whatever the other cabins do. A
    /// floor outside the building is refused as `InvalidFloor`, a call when
    /// the clock has run out as `LedgerConsistency`, a cabin that is not
    /// registered as `UnknownCabin`.
    pub fn send_floor_request_to(&mut self, idx: usize, current_floor: i32, destination_floor: i32) -> (r:
        Result<(), ElevatorError>)
        requires
            old(self).inv(),
        ensures
            final(self).inv(),
            r == old(self)@.send_to_result(current_floor, destination_floor, idx as int),
            final(self)@ == old(self)@.send_to(current_floor, destination_floor, idx as int),
    {
        if !self.valid_floor(destination_floor) || !self.valid_floor(current_floor) {
            return Err(ElevatorError::InvalidFloor);
        }
        if self.clock == u64::MAX {
            return Err(ElevatorError::LedgerConsistency);
        }
        if idx >= self.elevators.len() {
            return Err(ElevatorError::UnknownCabin);
        }
        let ghost before = self.elevators@;
        assert(before[idx as int].inv() && before[idx as int]@.num_floors == self.num_floors) by {
            assert(old(self)@.cabins[idx as int].inv());
        }
        let _ = self.elevators[idx].enqueue_target(current_floor);
        self.clock = self.clock + 1;
        proof {
            before[idx as int]@.lemma_enqueue_inv(current_floor);
            lemma_views_update(before, idx as int, self.elevators@[idx as int]);
            assert(self.elevators@ =~= before.update(idx as int, self.elevators@[idx as int]));
            assert(self@ =~= old(self)@.send_to(current_floor, destination_floor, idx as int));
            assert forall|i: int| 0 <= i < self@.cabins.len() implies (#[trigger] self@.cabins[i]).inv()
                && self@.cabins[i].num_floors == self@.num_floors by {
                if i != idx {
                    assert(self@.cabins[i] == old(self)@.cabins[i]);
                }
            }
        }
        Ok(())
    }

    /// Makes a call and hands it to the cabin whose turn it is, then passes
    /// the turn on. Returns the index of that cabin. Refusals are those of
    /// `send_floor_request_to`; a refused call leaves the turn where it was.
    pub fn send_rr_floor_request(&mut self, current_floor: i32, destination_floor: i32) -> (r: Result<
        usize,
        ElevatorError,
    >)
        requires
            old(self).inv(),
        ensures
            final(self).inv(),
            match r {
                Ok(idx) => idx as int == old(self)@.turn() && old(self)@.send_to_result(
                    current_floor,
                    destination_floor,
                    idx as int,
                ) is Ok,
                Err(e) => old(self)@.send_to_result(current_floor, destination_floor, old(self)@.turn())
                    == Err::<(), ElevatorError>(e),
            },
            final(self)@ == old(self)@.send_in_turn(current_floor, destination_floor),
    {
        let idx = self.next_elevator % self.elevators.len();
        match self.send_floor_request_to(idx, current_floor, destination_floor) {
            Ok(()) => {
                self.next_elevator = if self.next_elevator == usize::MAX {
                    0
                } else {
                    self.next_elevator + 1
                };
                assert(self@ =~= old(self)@.send_in_turn(current_floor, destination_floor));
                Ok(idx)
            },
            Err(e) => Err(e),
        }
    }

    /// Makes a call and hands it to a cabin drawn at random. Returns the
    /// index of that cabin: the controller is then as `send_floor_request_to`
    /// leaves it for that index. A floor outside the building is refused as
    /// `InvalidFloor`, a call when the clock has run out as
    /// `LedgerConsistency`; a refused call changes nothing.
    pub fn send_random_floor_request(&mut self, current_floor: i32, destination_floor: i32) -> (r:
        Result<usize, ElevatorError>)
        requires
            old(self).inv(),
        ensures
            final(self).inv(),
            match r {
                Ok(idx) => old(self)@.known_cabin(idx as int) && old(self)@.submit_result(
                    current_floor,
                    destination_floor,
                ) is Ok && final(self)@ == old(self)@.send_to(
                    current_floor,
                    destination_floor,
                    idx as int,
                ),
                Err(e) => old(self)@.submit_result(current_floor, destination_floor) == Err::<
                    (),
                    ElevatorError,
                >(e) && final(self)@ == old(self)@,
            },
    {
        let idx = random_below(self.elevators.len());
        match self.send_floor_request_to(idx, current_floor, destination_floor) {
            Ok(()) => Ok(idx),
            Err(e) => Err(e),
        }
    }

    /// Runs one pass over the ledger, the oldest call first. Each call goes
    /// to the cabin that `select_cabin` chooses for its floor and leaves the
    /// ledger; a call for which no cabin can be chosen stays pending.
    /// Returns the number of calls assigned.
    pub fn assign_requests(&mut self) -> (assigned: usize)
        requires
            old(self).inv(),
        ensures
            final(self).inv(),
            final(self)@ == old(self)@.assign(),
            assigned == old(self)@.ledger.len() - final(self)@.ledger.len(),
    {
        let n = self.ledger.len();
        let mut kept: Vec<FloorRequest> = Vec::new();
        let mut assigned: usize = 0;
        let mut k: usize = 0;
        while k < n
            invariant
                k <= n,
                n == self.ledger.len(),
                old(self).inv(),
                self.ledger@ == old(self).ledger@,
                self.passengers@ == old(self).passengers@,
                self.next_elevator == old(self).next_elevator,
                self.num_floors == old(self).num_floors,
                self.clock == old(self).clock,
                self.patience == old(self).patience,
                cabin_views(self.elevators@) == old(self)@.assign_cabins(k as int),
                kept@ == old(self)@.kept(k as int),
                assigned + kept.len() == k,
            decreases n - k,
        {
            let call = self.ledger[k];
            proof {
                old(self)@.lemma_assign_cabins(k as int);
            }
            match select_cabin(&self.elevators, call.floor) {
                Some(i) => {
                    let ghost before = self.elevators@;
                    assert(before[i as int].inv()) by {
                        assert(cabin_views(before)[i as int].inv());
                    }
                    let _ = self.elevators[i].enqueue_target(call.floor);
                    proof {
                        lemma_views_update(before, i as int, self.elevators@[i as int]);
                        assert(self.elevators@ =~= before.update(i as int, self.elevators@[i as int]));
                    }
                    assigned += 1;
                },
                None => {
                    kept.push(call);
                },
            }
            k += 1;
        }
        proof {
            old(self)@.lemma_assign();
        }
        self.ledger = kept;
        assert(self@ =~= old(self)@.assign());
        assigned
    }

    /// The floor that cabin `idx` is to attend next, if there is one.
    pub fn next_target(&self, idx: usize) -> (r: Option<i32>)
        ensures
            r == (if self@.known_cabin(idx as int) {
                self@.cabins[idx as int].next_target()
            } else {
                None
            }),
    {
        if idx < self.elevators.len() {
            self.elevators[idx].next_target()
        } else {
            None
        }
    }

    /// Plans the way of cabin `idx` anew: the cabin takes on a call at
    /// `floor` ahead of every floor in its queue, as `prepend_target` does. A
    /// cabin that is not registered is refused as `UnknownCabin`, a floor
    /// outside the building as `InvalidFloor`.
    pub fn replan(&mut self, idx: usize, floor: i32) -> (r: Result<(), ElevatorError>)
        requires
            old(self).inv(),
        ensures
            final(self).inv(),
            r == (if !old(self)@.known_cabin(idx as int) {
                Err::<(), ElevatorError>(ElevatorError::UnknownCabin)
            } else {
                old(self)@.cabins[idx as int].enqueue_result(floor)
            }),
            final(self)@ == (if old(self)@.known_cabin(idx as int) {
                old(self)@.with_cabin(idx as int, old(self)@.cabins[idx as int].prepend_target(floor))
            } else {
                old(self)@
            }),
    {
        if idx >= self.elevators.len() {
            return Err(ElevatorError::UnknownCabin);
        }
        let ghost start = *self;
        assert(self.elevators@[idx as int].inv()) by {
            assert(old(self)@.cabins[idx as int].inv());
        }
        proof {
            old(self)@.cabins[idx as int].lemma_prepend_inv(floor);
        }
        let planned = self.elevators[idx].prepend_target(floor);
        proof {
            assert(self.elevators@ =~= start.elevators@.update(
                idx as int,
                self.elevators@[idx as int],
            ));
            self.lemma_cabin_changed(start, idx as int);
        }
        planned
    }

    /// Sets or clears the obstruction of the door of cabin `idx`. A cabin
    /// that is not registered is refused as `UnknownCabin`.
    pub fn set_obstruction(&mut self, idx: usize, obstructed: bool) -> (r: Result<(), ElevatorError>)
        requires
            old(self).inv(),
        ensures
            final(self).inv(),
            r is Ok <==> old(self)@.known_cabin(idx as int),
            r matches Err(e) ==> e == ElevatorError::UnknownCabin,
            final(self)@ == (if old(self)@.known_cabin(idx as int) {
                old(self)@.with_cabin(
                    idx as int,
                    old(self)@.cabins[idx as int].set_obstruction(obstructed),
                )
            } else {
                old(self)@
            }),
    {
        if idx >= self.elevators.len() {
            return Err(ElevatorError::UnknownCabin);
        }
        let ghost before = self.elevators@;
        assert(before[idx as int].inv()) by {
            assert(old(self)@.cabins[idx as int].inv());
        }
        self.elevators[idx].set_obstruction(obstructed);
        proof {
            before[idx as int]@.lemma_door_inv(obstructed);
            lemma_views_update(before, idx as int, self.elevators@[idx as int]);
            assert(self.elevators@ =~= before.update(idx as int, self.elevators@[idx as int]));
            assert(self@ =~= old(self)@.with_cabin(
                idx as int,
                old(self)@.cabins[idx as int].set_obstruction(obstructed),
            ));
            assert forall|i: int| 0 <= i < self@.cabins.len() implies (#[trigger] self@.cabins[i]).inv()
                && self@.cabins[i].num_floors == self@.num_floors by {
                if i != idx {
                    assert(self@.cabins[i] == old(self)@.cabins[i]);
                }
            }
        }
        Ok(())
    }

    /// Tells whether every passenger has arrived.
    pub fn all_exited(&self) -> (r: bool)
        ensures
            r == self@.all_exited(),
    {
        let mut j: usize = 0;
        while j < self.passengers.len()
            invariant
                j <= self.passengers.len(),
                forall|i: int|
                    0 <= i < j ==> (#[trigger] self.passengers@[i]).state == PassengerState::Exiting,
            decreases self.passengers.len() - j,
        {
            if self.passengers[j].state != PassengerState::Exiting {
                return false;
            }
            j += 1;
        }
        true
    }

    /// The ids of the passengers who have not arrived, in the order in which
    /// the passengers were registered. Empty exactly when all have arrived.
    pub fn stuck_passengers(&self) -> (r: Vec<i32>)
        ensures
            r@ == self@.stuck(),
            r@.len() == 0 <==> self@.all_exited(),
    {
        let mut ids: Vec<i32> = Vec::new();
        let mut j: usize = 0;
        while j < self.passengers.len()
            invariant
                j <= self.passengers.len(),
                ids@ == self@.stuck_upto(j as int),
            decreases self.passengers.len() - j,
        {
            if self.passengers[j].state != PassengerState::Exiting {
                ids.push(self.passengers[j].id);
            }
            j += 1;
        }
        proof {
            self@.lemma_stuck(self.passengers.len() as int);
        }
        ids
    }

    /// At the door of cabin `idx` every passenger in turn tries to board,
    /// then every passenger in turn tries to leave.
    fn exchange(&mut self, idx: usize)
        requires
            old(self).inv(),
            old(self)@.known_cabin(idx as int),
        ensures
            final(self).inv(),
            final(self)@ == old(self)@.exchange(idx as int),
    {
        let n = self.passengers.len();
        let mut j: usize = 0;
        while j < n
            invariant
                j <= n,
                n == self.passengers.len(),
                n == old(self)@.passengers.len(),
                idx < self.elevators.len(),
                old(self).inv(),
                old(self)@.known_cabin(idx as int),
                self@ == old(self)@.board_upto(idx as int, j as int),
            decreases n - j,
        {
            proof {
                old(self)@.lemma_board_upto(idx as int, j as int);
                old(self)@.lemma_board_upto(idx as int, j as int + 1);
            }
            let ghost before = self.elevators@;
            let ghost model = self@;
            assert(before[idx as int].inv()) by {
                assert(model.cabins[idx as int].inv());
            }
            let _ = self.passengers[j].board_elevator(&mut self.elevators[idx]);
            proof {
                lemma_views_update(before, idx as int, self.elevators@[idx as int]);
                assert(self.elevators@ =~= before.update(idx as int, self.elevators@[idx as int]));
                assert(self.passengers@ =~= model.passengers.update(
                    j as int,
                    model.passengers[j as int].after_boarding(model.cabins[idx as int]),
                ));
                assert(self@ =~= old(self)@.board_upto(idx as int, j as int + 1));
            }
            j += 1;
        }
        let ghost boarded = self@;
        proof {
            old(self)@.lemma_board_upto(idx as int, n as int);
        }
        let mut j: usize = 0;
        while j < n
            invariant
                j <= n,
                n == self.passengers.len(),
                n == boarded.passengers.len(),
                idx < self.elevators.len(),
                boarded.inv(),
                boarded.known_cabin(idx as int),
                self@ == boarded.exit_upto(idx as int, j as int),
            decreases n - j,
        {
            proof {
                boarded.lemma_exit_upto(idx as int, j as int);
                boarded.lemma_exit_upto(idx as int, j as int + 1);
            }
            let ghost before = self.elevators@;
            let ghost model = self@;
            assert(before[idx as int].inv()) by {
                assert(model.cabins[idx as int].inv());
            }
            let _ = self.passengers[j].exit_elevator(&mut self.elevators[idx]);
            proof {
                lemma_views_update(before, idx as int, self.elevators@[idx as int]);
                assert(self.elevators@ =~= before.update(idx as int, self.elevators@[idx as int]));
                assert(self.passengers@ =~= model.passengers.update(
                    j as int,
                    model.passengers[j as int].after_exiting(model.cabins[idx as int]),
                ));
                assert(self@ =~= boarded.exit_upto(idx as int, j as int + 1));
            }
            j += 1;
        }
        proof {
            boarded.lemma_exit_upto(idx as int, n as int);
        }
    }

    /// Replaces cabin `idx` of the model by what the cabin is now.
    proof fn lemma_cabin_changed(&self, before: Controller, idx: int)
        requires
            before.inv(),
            before@.known_cabin(idx),
            self.elevators@ == before.elevators@.update(idx, self.elevators@[idx]),
            self.elevators@[idx].inv(),
            self.elevators@[idx]@.num_floors == before@.num_floors,
            self.passengers == before.passengers,
            self.ledger == before.ledger,
            self.next_elevator == before.next_elevator,
            self.num_floors == before.num_floors,
            self.clock == before.clock,
            self.patience == before.patience,
        ensures
            self@ == before@.with_cabin(idx, self.elevators@[idx]@),
            self.inv(),
    {
        lemma_views_update(before.elevators@, idx, self.elevators@[idx]);
        assert(self@ =~= before@.with_cabin(idx, self.elevators@[idx]@));
        assert forall|i: int| 0 <= i < self@.cabins.len() implies (#[trigger] self@.cabins[i]).inv()
            && self@.cabins[i].num_floors == self@.num_floors by {
            if i != idx {
                assert(self@.cabins[i] == before@.cabins[i]);
            }
        }
    }

    /// Lets cabin `idx` serve `target_floor` in one go: the cabin attends the
    /// floor, opens its door, every passenger in turn tries to board and
    /// then to leave, and the door closes unless it is obstructed. A cabin
    /// that is not registered is refused as `UnknownCabin`, a floor outside
    /// the building as `InvalidFloor`, a cabin that cannot set off as
    /// `InvalidState`; a refused call changes nothing.
    pub fn control_elevator(&mut self, idx: usize, target_floor: i32) -> (r: Result<(), ElevatorError>)
        requires
            old(self).inv(),
        ensures
            final(self).inv(),
            r == old(self)@.serve_result(idx as int, target_floor),
            final(self)@ == old(self)@.serve(idx as int, target_floor),
    {
        if idx >= self.elevators.len() {
            return Err(ElevatorError::UnknownCabin);
        }
        let ghost start = *self;
        let ghost c = self@.cabins[idx as int];
        assert(self.elevators@[idx as int].inv()) by {
            assert(c.inv());
        }
        proof {
            c.lemma_motion_inv(target_floor);
        }
        let attended = self.elevators[idx].attend(target_floor);
        if attended.is_err() {
            proof {
                assert(self.elevators@ =~= start.elevators@.update(
                    idx as int,
                    self.elevators@[idx as int],
                ));
                self.lemma_cabin_changed(start, idx as int);
                assert(self@ =~= old(self)@);
            }
            return attended;
        }
        let _ = self.elevators[idx].open_door();
        proof {
            assert(self.elevators@ =~= start.elevators@.update(idx as int, self.elevators@[idx as int]));
            self.lemma_cabin_changed(start, idx as int);
        }
        let ghost arrived = self@;
        self.exchange(idx);
        let ghost exchanged = *self;
        proof {
            arrived.lemma_service(idx as int, target_floor);
            assert(exchanged@.cabins[idx as int].inv());
        }
        let _ = self.elevators[idx].close_door();
        proof {
            assert(self.elevators@ =~= exchanged.elevators@.update(
                idx as int,
                self.elevators@[idx as int],
            ));
            self.lemma_cabin_changed(exchanged, idx as int);
        }
        Ok(())
    }

    /// Lets cabin `idx` take the one action that is due. A moving cabin
    /// advances by a floor and stops when it has arrived. At an open door
    /// every passenger in turn tries to board and then to leave, and the
    /// door closes unless it is obstructed. A stopped cabin opens its door.
    /// An idle cabin sets off to the floor it is to attend next, or is held
    /// where it is when that floor is its own. A cabin that is not
    /// registered is refused as `UnknownCabin`.
    pub fn advance(&mut self, idx: usize) -> (r: Result<(), ElevatorError>)
        requires
            old(self).inv(),
        ensures
            final(self).inv(),
            r is Ok <==> old(self)@.known_cabin(idx as int),
            r matches Err(e) ==> e == ElevatorError::UnknownCabin,
            final(self)@ == old(self)@.advance(idx as int),
    {
        if idx >= self.elevators.len() {
            return Err(ElevatorError::UnknownCabin);
        }
        let ghost start = *self;
        let ghost c = self@.cabins[idx as int];
        assert(self.elevators@[idx as int].inv()) by {
            assert(c.inv());
        }
        let state = self.elevators[idx].state();
        let door = self.elevators[idx].door();
        if state == ElevatorState::Moving {
            let _ = self.elevators[idx].step();
            proof {
                assert(self.elevators@ =~= start.elevators@.update(
                    idx as int,
                    self.elevators@[idx as int],
                ));
                self.lemma_cabin_changed(start, idx as int);
            }
        } else if door.state == DoorState::Open {
            self.exchange(idx);
            let ghost exchanged = *self;
            proof {
                start@.lemma_service(idx as int, 0);
                assert(exchanged@.cabins[idx as int].inv());
            }
            let _ = self.elevators[idx].close_door();
            proof {
                assert(self.elevators@ =~= exchanged.elevators@.update(
                    idx as int,
                    self.elevators@[idx as int],
                ));
                self.lemma_cabin_changed(exchanged, idx as int);
            }
        } else if state == ElevatorState::Stopped {
            let _ = self.elevators[idx].open_door();
            proof {
                assert(self.elevators@ =~= start.elevators@.update(
                    idx as int,
                    self.elevators@[idx as int],
                ));
                self.lemma_cabin_changed(start, idx as int);
            }
        } else {
            match self.elevators[idx].next_target() {
                Some(t) => {
                    if t == self.elevators[idx].current_floor() {
                        let _ = self.elevators[idx].hold();
                    } else {
                        let started = self.elevators[idx].start_move(t);
                        assert(started is Ok);
                    }
                    proof {
                        assert(self.elevators@ =~= start.elevators@.update(
                            idx as int,
                            self.elevators@[idx as int],
                        ));
                        self.lemma_cabin_changed(start, idx as int);
                    }
                },
                None => {},
            }
        }
        Ok(())
    }

    /// Lets every passenger who waits and has no live call make one.
    /// Returns the number of calls made.
    pub fn request_waiting(&mut self) -> (made: usize)
        requires
            old(self).inv(),
        ensures
            final(self).inv(),
            final(self)@ == old(self)@.request_upto(old(self)@.passengers.len() as int),
            made == final(self)@.ledger.len() - old(self)@.ledger.len(),
    {
        let n = self.passengers.len();
        let mut made: usize = 0;
        let mut j: usize = 0;
        while j < n
            invariant
                j <= n,
                n == self.passengers.len(),
                n == old(self)@.passengers.len(),
                old(self).inv(),
                self.inv(),
                self@ == old(self)@.request_upto(j as int),
                self@.ledger.len() == old(self)@.ledger.len() + made,
                made <= j,
            decreases n - j,
        {
            let mut p = self.passengers[j];
            let ghost model = self@;
            let called = p.request_elevator(self);
            if called.is_ok() && called.unwrap() {
                self.passengers[j] = p;
                made += 1;
                assert(self@ =~= model.request_one(j as int));
            }
            j += 1;
        }
        made
    }

    /// Runs one cycle: the waiting passengers call, the calls are assigned,
    /// and every cabin in turn takes the one action that is due.
    pub fn cycle(&mut self)
        requires
            old(self).inv(),
        ensures
            final(self).inv(),
            final(self)@ == old(self)@.cycle(),
    {
        self.request_waiting();
        self.assign_requests();
        let ghost assigned = self@;
        let n = self.elevators.len();
        let mut i: usize = 0;
        while i < n
            invariant
                i <= n,
                n == self.elevators.len(),
                n == assigned.cabins.len(),
                assigned.inv(),
                self.inv(),
                self@ == assigned.advance_upto(i as int),
            decreases n - i,
        {
            proof {
                self@.lemma_service(i as int, 0);
            }
            let _ = self.advance(i);
            i += 1;
        }
    }
}

} // verus!
