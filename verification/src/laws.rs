use crate::cabin::{CabinView, DoorState};
use crate::dispatch::{cost, is_best, lemma_best_unique, lemma_select, no_worse, select};
use crate::error::ElevatorError;
use crate::model::ControllerView;
use crate::passenger::{direction_of, BoardingPolicy, PassengerState};
use crate::request::{has_ticket, ledger_sorted, ticket_position};
use vstd::prelude::*;

verus! {

/// Two rows of cabins of equal length in which each cabin costs as much to
/// send as its counterpart have the same cabin selected.
pub proof fn lemma_select_by_cost(a: Seq<CabinView>, b: Seq<CabinView>, floor: i32)
    requires
        a.len() == b.len(),
        forall|i: int| 0 <= i < a.len() ==> cost(#[trigger] a[i], floor) == cost(b[i], floor),
    ensures
        select(a, floor) == select(b, floor),
{
    lemma_select(a, floor);
    lemma_select(b, floor);
    assert forall|i: int| is_best(a, floor, i) implies is_best(b, floor, i) by {
        assert(cost(a[i], floor) == cost(b[i], floor));
        assert forall|j: int| 0 <= j < b.len() implies #[trigger] no_worse(b, floor, i, j) by {
            assert(no_worse(a, floor, i, j));
            assert(cost(a[j], floor) == cost(b[j], floor));
        }
    }
    assert forall|i: int| is_best(b, floor, i) implies is_best(a, floor, i) by {
        assert(cost(a[i], floor) == cost(b[i], floor));
        assert forall|j: int| 0 <= j < a.len() implies #[trigger] no_worse(a, floor, i, j) by {
            assert(no_worse(b, floor, i, j));
            assert(cost(a[j], floor) == cost(b[j], floor));
        }
    }
    match (select(a, floor), select(b, floor)) {
        (Some(i), Some(j)) => {
            lemma_best_unique(b, floor, i, j);
        },
        (Some(i), None) => {
            assert(is_best(b, floor, i));
            assert(cost(b[i], floor) is None);
        },
        (None, Some(j)) => {
            assert(is_best(a, floor, j));
            assert(cost(a[j], floor) is None);
        },
        (None, None) => {},
    }
}

impl ControllerView {
    /// Well-formed cabins of one building make a well-formed controller.
    pub proof fn lemma_fresh_inv(cabins: Seq<CabinView>)
        requires
            Self::cabins_agree(cabins),
            forall|i: int| 0 <= i < cabins.len() ==> (#[trigger] cabins[i]).inv(),
        ensures
            Self::fresh(cabins).inv(),
    {
    }

    /// A new call keeps the controller well formed.
    pub proof fn lemma_submit_inv(self, current_floor: i32, destination_floor: i32)
        requires
            self.inv(),
        ensures
            self.post(current_floor, direction_of(current_floor, destination_floor)).inv(),
            self.submit(current_floor, destination_floor).inv(),
    {
    }

    /// Handing a pending call to a cabin keeps the controller well formed;
    /// the call is pending no more, every other call still is, and the cabin
    /// serves the floor of the call.
    pub proof fn lemma_take_inv(self, k: int, idx: int)
        requires
            self.inv(),
            0 <= k < self.ledger.len(),
            self.known_cabin(idx),
        ensures
            self.take(k, idx).inv(),
            !has_ticket(self.take(k, idx).ledger, self.ledger[k].time),
            self.take(k, idx).cabins[idx].serves(self.ledger[k].floor),
            self.dispatch(self.ledger[k].time, idx) == self.take(k, idx),
    {
        let after = self.take(k, idx);
        let c = self.cabins[idx];
        let floor = self.ledger[k].floor;
        c.lemma_enqueue_inv(floor);
        assert forall|i: int| 0 <= i < after.cabins.len() implies (#[trigger] after.cabins[i]).inv()
            && after.cabins[i].num_floors == after.num_floors by {
            if i != idx {
                assert(after.cabins[i] == self.cabins[i]);
            }
        }
        assert forall|j: int| 0 <= j < after.ledger.len() implies after.ledger[j] == self.ledger[if j
            < k {
            j
        } else {
            j + 1
        }] by {}
        assert(ledger_sorted(after.ledger));
        assert(!has_ticket(after.ledger, self.ledger[k].time)) by {
            if has_ticket(after.ledger, self.ledger[k].time) {
                let j = ticket_position(after.ledger, self.ledger[k].time);
                let jj = if j < k {
                    j
                } else {
                    j + 1
                };
                assert(self.ledger[jj].time == self.ledger[k].time);
            }
        }
        assert(has_ticket(self.ledger, self.ledger[k].time));
        let at = ticket_position(self.ledger, self.ledger[k].time);
        assert(at == k) by {
            if at < k {
                assert(self.ledger[at].time < self.ledger[k].time);
            } else if at > k {
                assert(self.ledger[k].time < self.ledger[at].time);
            }
        }
    }

    /// While calls are assigned the row of cabins keeps its length and
    /// every cabin stays well formed. Nothing but its queue and the call
    /// pending at its floor changes in a cabin, so that it costs what it cost
    /// before. A cabin goes on serving what it served, and a floor is newly
    /// served by a cabin only where a call for that floor was assigned to it.
    pub proof fn lemma_assign_cabins(self, n: int)
        requires
            self.inv(),
            0 <= n <= self.ledger.len(),
        ensures
            self.assign_cabins(n).len() == self.cabins.len(),
            forall|i: int|
                0 <= i < self.cabins.len() ==> (#[trigger] self.assign_cabins(n)[i]).inv()
                    && self.assign_cabins(n)[i].num_floors == self.num_floors,
            forall|i: int|
                0 <= i < self.cabins.len() ==> #[trigger] self.assign_cabins(n)[i] == (CabinView {
                    targets: self.assign_cabins(n)[i].targets,
                    call_here: self.assign_cabins(n)[i].call_here,
                    ..self.cabins[i]
                }),
            forall|i: int, f: i32|
                0 <= i < self.cabins.len() ==> #[trigger] cost(self.assign_cabins(n)[i], f) == cost(
                    self.cabins[i],
                    f,
                ),
            forall|i: int, f: i32|
                0 <= i < self.cabins.len() && self.cabins[i].serves(f) ==> #[trigger] self.assign_cabins(
                    n,
                )[i].serves(f),
            forall|m: int|
                0 <= m < n ==> (match select(self.cabins, (#[trigger] self.ledger[m]).floor) {
                    Some(i) => self.known_cabin(i) && self.assign_cabins(n)[i].serves(self.ledger[m].floor),
                    None => true,
                }),
            forall|i: int, f: i32|
                0 <= i < self.cabins.len() && #[trigger] self.assign_cabins(n)[i].serves(f)
                    ==> self.cabins[i].serves(f) || self.assigned_before(n, f, i),
        decreases n,
    {
        if n > 0 {
            self.lemma_assign_cabins(n - 1);
            let before = self.assign_cabins(n - 1);
            let after = self.assign_cabins(n);
            let floor = self.ledger[n - 1].floor;
            assert forall|i: int| 0 <= i < before.len() implies cost(#[trigger] before[i], floor)
                == cost(self.cabins[i], floor) by {}
            lemma_select_by_cost(before, self.cabins, floor);
            lemma_select(before, floor);
            match select(before, floor) {
                Some(b) => {
                    before[b].lemma_enqueue_inv(floor);
                    assert(after == before.update(b, before[b].enqueue_target(floor)));
                    assert forall|i: int, f: i32| 0 <= i < self.cabins.len() implies #[trigger] cost(
                        after[i],
                        f,
                    ) == cost(self.cabins[i], f) by {
                        assert(cost(before[i], f) == cost(self.cabins[i], f));
                    }
                    assert forall|i: int, f: i32|
                        0 <= i < self.cabins.len() && self.cabins[i].serves(f) implies #[trigger] after[i].serves(
                        f,
                    ) by {
                        assert(before[i].serves(f));
                    }
                    assert forall|m: int| 0 <= m < n implies (match select(
                        self.cabins,
                        (#[trigger] self.ledger[m]).floor,
                    ) {
                        Some(i) => self.known_cabin(i) && after[i].serves(self.ledger[m].floor),
                        None => true,
                    }) by {
                        if m < n - 1 {
                            match select(self.cabins, self.ledger[m].floor) {
                                Some(i) => {
                                    assert(before[i].serves(self.ledger[m].floor));
                                },
                                None => {},
                            }
                        }
                    }
                    assert forall|i: int, f: i32|
                        0 <= i < self.cabins.len() && #[trigger] after[i].serves(f) implies self.cabins[i].serves(
                        f,
                    ) || self.assigned_before(n, f, i) by {
                        if i == b && f == floor {
                            assert(self.ledger[n - 1].floor == f);
                        } else {
                            assert(before[i].serves(f));
                            if !self.cabins[i].serves(f) {
                                assert(self.assigned_before(n - 1, f, i));
                                let m = choose|m: int|
                                    0 <= m < n - 1 && (#[trigger] self.ledger[m]).floor == f && select(
                                        self.cabins,
                                        f,
                                    ) == Some(i);
                                assert(self.ledger[m].floor == f);
                            }
                        }
                    }
                },
                None => {
                    assert(after == before);
                    assert forall|i: int, f: i32|
                        0 <= i < self.cabins.len() && #[trigger] after[i].serves(f) implies self.cabins[i].serves(
                        f,
                    ) || self.assigned_before(n, f, i) by {
                        if !self.cabins[i].serves(f) {
                            assert(self.assigned_before(n - 1, f, i));
                            let m = choose|m: int|
                                0 <= m < n - 1 && (#[trigger] self.ledger[m]).floor == f && select(
                                    self.cabins,
                                    f,
                                ) == Some(i);
                            assert(self.ledger[m].floor == f);
                        }
                    }
                },
            }
        }
    }

    /// The calls that stay pending are, in their old order, exactly those
    /// for which no cabin could be selected.
    pub proof fn lemma_kept(self, n: int)
        requires
            self.inv(),
            0 <= n <= self.ledger.len(),
        ensures
            ledger_sorted(self.kept(n)),
            forall|j: int|
                0 <= j < self.kept(n).len() ==> self.valid_floor((#[trigger] self.kept(n)[j]).floor)
                    && self.kept(n)[j].time < self.clock,
            forall|j: int|
                0 <= j < self.kept(n).len() ==> self.from_ledger(n, #[trigger] self.kept(n)[j]),
            forall|m: int|
                0 <= m < n ==> (self.kept(n).contains(#[trigger] self.ledger[m]) <==> select(
                    self.cabins,
                    self.ledger[m].floor,
                ) is None),
        decreases n,
    {
        if n > 0 {
            self.lemma_kept(n - 1);
            self.lemma_assign_cabins(n - 1);
            let prev = self.kept(n - 1);
            let now = self.kept(n);
            let q = self.ledger[n - 1];
            assert forall|i: int| 0 <= i < self.cabins.len() implies cost(
                #[trigger] self.assign_cabins(n - 1)[i],
                q.floor,
            ) == cost(self.cabins[i], q.floor) by {}
            lemma_select_by_cost(self.assign_cabins(n - 1), self.cabins, q.floor);
            assert forall|j: int| 0 <= j < prev.len() implies (#[trigger] prev[j]).time < q.time by {
                assert(self.from_ledger(n - 1, prev[j]));
                let m = choose|m: int| 0 <= m < n - 1 && #[trigger] self.ledger[m] == prev[j];
                assert(self.ledger[m].time < self.ledger[n - 1].time);
            }
            assert forall|j: int| 0 <= j < now.len() implies self.from_ledger(n, #[trigger] now[j]) by {
                if j < prev.len() {
                    assert(self.from_ledger(n - 1, prev[j]));
                    let m = choose|m: int| 0 <= m < n - 1 && #[trigger] self.ledger[m] == prev[j];
                    assert(self.ledger[m] == now[j]);
                } else {
                    assert(self.ledger[n - 1] == now[j]);
                }
            }
            assert forall|m: int| 0 <= m < n implies (now.contains(#[trigger] self.ledger[m]) <==> select(
                self.cabins,
                self.ledger[m].floor,
            ) is None) by {
                if m < n - 1 {
                    if prev.contains(self.ledger[m]) {
                        let j = prev.index_of(self.ledger[m]);
                        assert(now[j] == self.ledger[m]);
                    }
                    if now.contains(self.ledger[m]) {
                        let j = now.index_of(self.ledger[m]);
                        if j < prev.len() {
                            assert(prev[j] == self.ledger[m]);
                        } else {
                            assert(self.ledger[m].time < self.ledger[n - 1].time);
                        }
                    }
                } else {
                    if select(self.cabins, q.floor) is None {
                        assert(now[prev.len() as int] == q);
                    } else {
                        if now.contains(q) {
                            let j = now.index_of(q);
                            assert(prev[j].time < q.time);
                        }
                    }
                }
            }
        }
    }

    /// A pass over the ledger keeps the controller well formed. No call is
    /// lost and none is assigned twice: a call for which a cabin is selected
    /// leaves the ledger and that cabin serves its floor, any other call
    /// stays pending, and nothing is pending that was not pending before. No
    /// cabin takes on a floor for which it was not selected, and nothing but
    /// its queue and the call pending at its floor changes in a cabin.
    pub proof fn lemma_assign(self)
        requires
            self.inv(),
        ensures
            self.assign().inv(),
            self.assign().passengers == self.passengers,
            forall|k: int|
                0 <= k < self.ledger.len() ==> (match select(
                    self.cabins,
                    (#[trigger] self.ledger[k]).floor,
                ) {
                    Some(i) => self.known_cabin(i) && !self.assign().ledger.contains(self.ledger[k])
                        && self.assign().cabins[i].serves(self.ledger[k].floor),
                    None => self.assign().ledger.contains(self.ledger[k]),
                }),
            forall|j: int|
                0 <= j < self.assign().ledger.len() ==> self.ledger.contains(
                    #[trigger] self.assign().ledger[j],
                ),
            forall|i: int, f: i32|
                0 <= i < self.cabins.len() && #[trigger] self.assign().cabins[i].serves(f)
                    ==> self.cabins[i].serves(f) || self.assigned_before(self.ledger.len() as int, f, i),
            self.assign().cabins.len() == self.cabins.len(),
            forall|i: int|
                0 <= i < self.cabins.len() ==> #[trigger] self.assign().cabins[i] == (CabinView {
                    targets: self.assign().cabins[i].targets,
                    call_here: self.assign().cabins[i].call_here,
                    ..self.cabins[i]
                }),
    {
        let n = self.ledger.len() as int;
        self.lemma_assign_cabins(n);
        self.lemma_kept(n);
        let after = self.assign();
        assert forall|j: int| 0 <= j < after.ledger.len() implies self.ledger.contains(
            #[trigger] after.ledger[j],
        ) by {
            assert(self.from_ledger(n, after.ledger[j]));
        }
    }

    /// Boarding at the door of one cabin touches that cabin and the
    /// passengers only and keeps the controller well formed.
    pub proof fn lemma_board_upto(self, idx: int, n: int)
        requires
            self.inv(),
            self.known_cabin(idx),
            0 <= n <= self.passengers.len(),
        ensures
            self.board_upto(idx, n).inv(),
            self.only_served(self.board_upto(idx, n), idx),
            self.same_people(self.board_upto(idx, n)),
            forall|j: int|
                n <= j < self.passengers.len() ==> #[trigger] self.board_upto(idx, n).passengers[j]
                    == self.passengers[j],
        decreases n,
    {
        if n > 0 {
            self.lemma_board_upto(idx, n - 1);
            let before = self.board_upto(idx, n - 1);
            before.passengers[n - 1].lemma_cabin_inv(before.cabins[idx]);
        }
    }

    /// Leaving at the door of one cabin touches that cabin and the
    /// passengers only and keeps the controller well formed.
    pub proof fn lemma_exit_upto(self, idx: int, n: int)
        requires
            self.inv(),
            self.known_cabin(idx),
            0 <= n <= self.passengers.len(),
        ensures
            self.exit_upto(idx, n).inv(),
            self.only_served(self.exit_upto(idx, n), idx),
            self.same_people(self.exit_upto(idx, n)),
            forall|j: int|
                n <= j < self.passengers.len() ==> #[trigger] self.exit_upto(idx, n).passengers[j]
                    == self.passengers[j],
        decreases n,
    {
        if n > 0 {
            self.lemma_exit_upto(idx, n - 1);
            let before = self.exit_upto(idx, n - 1);
            before.passengers[n - 1].lemma_cabin_inv(before.cabins[idx]);
        }
    }

    /// The exchange of passengers at a door, a whole service and a single
    /// action of a cabin each touch that cabin and the passengers only and
    /// keep the controller well formed.
    pub proof fn lemma_service(self, idx: int, target: i32)
        requires
            self.inv(),
            self.known_cabin(idx),
        ensures
            self.exchange(idx).inv(),
            self.only_served(self.exchange(idx), idx),
            self.same_people(self.exchange(idx)),
            self.serve(idx, target).inv(),
            self.only_served(self.serve(idx, target), idx),
            self.same_people(self.serve(idx, target)),
            self.advance(idx).inv(),
            self.only_served(self.advance(idx), idx),
            self.same_people(self.advance(idx)),
    {
        let n = self.passengers.len() as int;
        self.lemma_board_upto(idx, n);
        let boarded = self.board_upto(idx, n);
        boarded.lemma_exit_upto(idx, n);
        let exchanged = self.exchange(idx);
        exchanged.cabins[idx].lemma_door_inv(false);
        let c = self.cabins[idx];
        c.lemma_motion_inv(target);
        c.lemma_door_inv(false);
        if c.next_target() is Some {
            c.lemma_motion_inv(c.next_target()->0);
        }
        if self.serve_result(idx, target) is Ok {
            c.attend(target).lemma_door_inv(false);
            let arrived = self.with_cabin(idx, c.attend(target).open_door());
            assert(arrived.inv());
            arrived.lemma_board_upto(idx, n);
            let b2 = arrived.board_upto(idx, n);
            b2.lemma_exit_upto(idx, n);
            let e2 = arrived.exchange(idx);
            e2.cabins[idx].lemma_door_inv(false);
        }
    }

    /// The calls of the waiting passengers keep the controller well formed
    /// and leave the cabins as they are.
    pub proof fn lemma_request_upto(self, n: int)
        requires
            self.inv(),
            0 <= n <= self.passengers.len(),
        ensures
            self.request_upto(n).inv(),
            self.request_upto(n).cabins == self.cabins,
            self.same_people(self.request_upto(n)),
            forall|j: int|
                n <= j < self.passengers.len() ==> #[trigger] self.request_upto(n).passengers[j]
                    == self.passengers[j],
        decreases n,
    {
        if n > 0 {
            self.lemma_request_upto(n - 1);
            let before = self.request_upto(n - 1);
            let p = before.passengers[n - 1];
            before.lemma_submit_inv(p.current_floor, p.destination_floor);
        }
    }

    /// The actions of the cabins keep the controller well formed.
    pub proof fn lemma_advance_upto(self, n: int)
        requires
            self.inv(),
            0 <= n <= self.cabins.len(),
        ensures
            self.advance_upto(n).inv(),
            self.advance_upto(n).cabins.len() == self.cabins.len(),
            self.same_people(self.advance_upto(n)),
        decreases n,
    {
        if n > 0 {
            self.lemma_advance_upto(n - 1);
            self.advance_upto(n - 1).lemma_service(n - 1, 0);
        }
    }

    /// Every cycle, and so every run, keeps the controller well formed: at
    /// every instant between two operations no cabin holds more passengers
    /// than it may carry and a door is open only on a stopped cabin. The
    /// passengers stay who they are, and one who has arrived stays arrived.
    pub proof fn lemma_run_inv(self, n: int)
        requires
            self.inv(),
        ensures
            self.cycle().inv(),
            self.cycle().cabins.len() == self.cabins.len(),
            self.same_people(self.cycle()),
            self.run(n).inv(),
            self.run(n).cabins.len() == self.cabins.len(),
            self.same_people(self.run(n)),
        decreases n,
    {
        self.lemma_request_upto(self.passengers.len() as int);
        let called = self.request_upto(self.passengers.len() as int);
        called.lemma_assign();
        called.lemma_assign_cabins(called.ledger.len() as int);
        let assigned = called.assign();
        assigned.lemma_advance_upto(assigned.cabins.len() as int);
        if n > 0 && !self.all_exited() {
            self.cycle().lemma_run_inv(n - 1);
        }
    }

    /// Nobody is stuck exactly when everybody has arrived.
    pub proof fn lemma_stuck(self, n: int)
        requires
            0 <= n <= self.passengers.len(),
        ensures
            self.stuck_upto(n).len() == 0 <==> forall|j: int|
                0 <= j < n ==> (#[trigger] self.passengers[j]).state
                    == PassengerState::Exiting,
        decreases n,
    {
        if n > 0 {
            self.lemma_stuck(n - 1);
        }
    }

    /// Where two passengers wait before the open door of an empty cabin
    /// that may carry one, exactly one of them boards: the first rides, the
    /// second still waits and is not inside.
    pub proof fn lemma_one_of_two_boards(self, idx: int)
        requires
            self.inv(),
            self.known_cabin(idx),
            self.passengers.len() == 2,
            self.cabins[idx].capacity == 1,
            self.cabins[idx].boarded.len() == 0,
            self.cabins[idx].door.state == DoorState::Open,
            self.passengers[0].id != self.passengers[1].id,
            forall|j: int|
                0 <= j < 2 ==> {
                    let p = #[trigger] self.passengers[j];
                    &&& p.state == PassengerState::Waiting
                    &&& p.current_floor == self.cabins[idx].floor
                    &&& self.valid_floor(p.destination_floor)
                    &&& p.policy == BoardingPolicy::Rejoin
                },
        ensures
            self.board_upto(idx, 2).passengers[0].state == PassengerState::Riding,
            self.board_upto(idx, 2).passengers[1].state == PassengerState::Waiting,
            self.board_upto(idx, 2).cabins[idx].boarded == seq![self.passengers[0].id],
            !self.board_upto(idx, 2).cabins[idx].boarded.contains(self.passengers[1].id),
    {
        reveal_with_fuel(ControllerView::board_upto, 3);
        let c = self.cabins[idx];
        let p = self.passengers[0];
        let q = self.passengers[1];
        assert(p.board_result(c) == Ok::<bool, ElevatorError>(true));
        let first = self.board_upto(idx, 1);
        let inside = c.add_passenger(p.id);
        assert(inside.boarded =~= seq![p.id]);
        inside.lemma_enqueue_inv(p.destination_floor);
        assert(first.cabins[idx] == inside.enqueue_target(p.destination_floor));
        assert(first.cabins[idx].boarded == inside.boarded);
        assert(first.passengers[1] == q);
        assert(q.board_result(first.cabins[idx]) == Err::<bool, ElevatorError>(
            ElevatorError::CapacityExceeded,
        ));
        let both = self.board_upto(idx, 2);
        assert(both.cabins[idx] == first.cabins[idx]);
        assert(both.passengers[0] == first.passengers[0]);
        if both.cabins[idx].boarded.contains(q.id) {
            let k = both.cabins[idx].boarded.index_of(q.id);
            assert(k == 0);
        }
    }
}

} // verus!
