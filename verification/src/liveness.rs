use crate::cabin::{distance, CabinView, DoorState, ElevatorState};
use crate::dispatch::{cost, is_best, lemma_best_unique, lemma_select, no_worse, select};
use crate::error::ElevatorError;
use crate::lists::without;
use crate::model::ControllerView;
use crate::passenger::{Passagier, PassengerState};
use crate::simulation::{check_setup, initial_state};
use vstd::prelude::*;

verus! {

/// One cabin serves one passenger; no call is pending and none is to be
/// made, and nothing blocks the door.
spec fn solo(s: ControllerView) -> bool {
    &&& s.inv()
    &&& s.cabins.len() == 1
    &&& s.passengers.len() == 1
    &&& s.ledger.len() == 0
    &&& !s.cabins[0].door.obstructed
    &&& s.valid_floor(s.passengers[0].destination_floor)
    &&& !s.passengers[0].must_call()
}

/// The passenger waits while the empty cabin travels to their floor.
spec fn approaching(s: ControllerView) -> bool {
    let c = s.cabins[0];
    let p = s.passengers[0];
    &&& solo(s)
    &&& p.state == PassengerState::Waiting
    &&& c.motion == ElevatorState::Moving
    &&& c.heading == p.current_floor
    &&& c.boarded.len() == 0
    &&& c.targets.len() == 0
}

/// The passenger waits where the empty cabin has stopped, its door closed.
spec fn waiting_at_closed_door(s: ControllerView) -> bool {
    let c = s.cabins[0];
    let p = s.passengers[0];
    &&& solo(s)
    &&& p.state == PassengerState::Waiting
    &&& c.floor == p.current_floor
    &&& c.motion == ElevatorState::Stopped
    &&& c.door.state == DoorState::Closed
    &&& c.boarded.len() == 0
    &&& c.targets.len() == 0
}

/// The passenger waits before the open door of the empty cabin.
spec fn waiting_at_open_door(s: ControllerView) -> bool {
    let c = s.cabins[0];
    let p = s.passengers[0];
    &&& solo(s)
    &&& p.state == PassengerState::Waiting
    &&& c.floor == p.current_floor
    &&& c.door.state == DoorState::Open
    &&& c.boarded.len() == 0
    &&& c.targets.len() == 0
}

/// The passenger rides alone in the cabin, whose door is closed.
spec fn riding(s: ControllerView) -> bool {
    let c = s.cabins[0];
    let p = s.passengers[0];
    &&& solo(s)
    &&& p.state == PassengerState::Riding
    &&& c.door.state == DoorState::Closed
    &&& !c.call_here
    &&& c.boarded == seq![p.id]
}

/// The passenger rides in the idle cabin, which has been called to the
/// destination, another floor.
spec fn riding_idle(s: ControllerView) -> bool {
    let c = s.cabins[0];
    let p = s.passengers[0];
    &&& riding(s)
    &&& c.motion == ElevatorState::Idle
    &&& c.floor != p.destination_floor
    &&& c.targets == seq![p.destination_floor]
}

/// The passenger rides in the cabin, which travels to the destination.
spec fn riding_moving(s: ControllerView) -> bool {
    let c = s.cabins[0];
    let p = s.passengers[0];
    &&& riding(s)
    &&& c.motion == ElevatorState::Moving
    &&& c.heading == p.destination_floor
    &&& c.targets.len() == 0
}

/// The passenger rides in the cabin, which has stopped at the destination.
spec fn riding_stopped(s: ControllerView) -> bool {
    let c = s.cabins[0];
    let p = s.passengers[0];
    &&& riding(s)
    &&& c.motion == ElevatorState::Stopped
    &&& c.floor == p.destination_floor
}

/// The passenger rides in the cabin, which stands at the destination with
/// its door open.
spec fn riding_at_open_door(s: ControllerView) -> bool {
    let c = s.cabins[0];
    let p = s.passengers[0];
    &&& solo(s)
    &&& p.state == PassengerState::Riding
    &&& c.floor == p.destination_floor
    &&& c.door.state == DoorState::Open
    &&& c.boarded == seq![p.id]
}

/// The one passenger has arrived at the destination.
spec fn arrived(s: ControllerView) -> bool {
    &&& s.passengers.len() == 1
    &&& s.passengers[0].state == PassengerState::Exiting
    &&& s.passengers[0].current_floor == s.passengers[0].destination_floor
}

/// The controller once its moving cabin has reached its heading.
spec fn at_heading(s: ControllerView) -> ControllerView {
    let c = s.cabins[0];
    s.with_cabin(0, CabinView { floor: c.heading, motion: ElevatorState::Stopped, ..c })
}

/// Where nobody has to call and no call is pending, a cycle is the action
/// of the one cabin.
proof fn lemma_quiet_cycle(s: ControllerView)
    requires
        solo(s),
    ensures
        s.cycle() == s.advance(0),
        s.cycle().inv(),
        s.same_people(s.cycle()),
{
    reveal_with_fuel(ControllerView::request_upto, 2);
    reveal_with_fuel(ControllerView::advance_upto, 2);
    assert(s.request_upto(1) == s);
    assert(s.assign() =~= s);
    s.lemma_run_inv(1);
}

/// A run goes on by one cycle while somebody has not arrived, and stands
/// still once everybody has.
proof fn lemma_run_unfolds(s: ControllerView, cycles: int)
    requires
        s.passengers.len() == 1,
    ensures
        s.passengers[0].state != PassengerState::Exiting && cycles >= 1 ==> s.run(cycles)
            == s.cycle().run(cycles - 1),
        s.passengers[0].state == PassengerState::Exiting ==> s.run(cycles) == s,
{
    if s.passengers[0].state != PassengerState::Exiting {
        assert(!s.all_exited());
    }
}

/// In the first cycle the passenger calls and the cabin answers: it is
/// held where the passenger waits at the ground floor, and sets off to any
/// other floor.
proof fn lemma_first_cycle(s: ControllerView)
    requires
        s.inv(),
        s.cabins.len() == 1,
        s.passengers.len() == 1,
        s.ledger.len() == 0,
        s.clock < u64::MAX,
        s.cabins[0] == CabinView::fresh(s.cabins[0].id, 0, s.cabins[0].capacity, s.num_floors),
        s.passengers[0] == Passagier::fresh(
            s.passengers[0].id,
            s.passengers[0].current_floor,
            s.passengers[0].destination_floor,
        ),
        s.valid_floor(s.passengers[0].current_floor),
        s.valid_floor(s.passengers[0].destination_floor),
    ensures
        s.passengers[0].current_floor == 0 ==> waiting_at_closed_door(s.cycle()),
        s.passengers[0].current_floor != 0 ==> approaching(s.cycle()) && s.cycle().cabins[0].floor
            == 0,
        s.same_people(s.cycle()),
        s.cycle().passengers[0].current_floor == s.passengers[0].current_floor,
{
    reveal_with_fuel(ControllerView::request_upto, 2);
    reveal_with_fuel(ControllerView::advance_upto, 2);
    reveal_with_fuel(ControllerView::assign_cabins, 2);
    reveal_with_fuel(ControllerView::kept, 2);
    let origin = s.passengers[0].current_floor;
    let called = s.request_upto(1);
    assert(called == s.request_one(0));
    assert(called.ledger.len() == 1);
    assert(called.ledger[0].floor == origin);
    assert(called.cabins == s.cabins);
    assert(cost(s.cabins[0], origin) is Some);
    assert forall|j: int| 0 <= j < s.cabins.len() implies #[trigger] no_worse(
        s.cabins,
        origin,
        0,
        j,
    ) by {
        assert(j == 0);
    }
    assert(is_best(s.cabins, origin, 0));
    lemma_select(s.cabins, origin);
    lemma_best_unique(s.cabins, origin, 0, select(s.cabins, origin)->0);
    let assigned = called.assign();
    assert(assigned.cabins.len() == 1);
    let taken = s.cabins[0].enqueue_target(origin);
    assert(assigned.cabins[0] == taken);
    assert(assigned.ledger.len() == 0);
    if origin != 0 {
        assert(taken.targets =~= seq![origin]);
        assert(taken.targets[0] == origin);
        assert(taken.targets.contains(origin));
        assert(taken.targets.index_of(origin) == 0);
        assert(without(taken.targets, origin) =~= Seq::<i32>::empty());
    }
    s.lemma_run_inv(1);
}

/// A moving cabin reaches its heading after as many cycles as there are
/// floors on its way.
proof fn lemma_travel(s: ControllerView, cycles: int)
    requires
        solo(s),
        s.cabins[0].motion == ElevatorState::Moving,
        s.passengers[0].state != PassengerState::Exiting,
        cycles >= distance(s.cabins[0].floor, s.cabins[0].heading),
    ensures
        s.run(cycles) == at_heading(s).run(cycles - distance(s.cabins[0].floor, s.cabins[0].heading)),
        solo(at_heading(s)),
    decreases distance(s.cabins[0].floor, s.cabins[0].heading),
{
    let c = s.cabins[0];
    lemma_quiet_cycle(s);
    lemma_run_unfolds(s, cycles);
    let next = s.cycle();
    assert(next == s.with_cabin(0, c.step()));
    c.lemma_motion_inv(c.heading);
    if c.step().motion == ElevatorState::Stopped {
        assert(next =~= at_heading(s));
    } else {
        assert(next.passengers == s.passengers);
        lemma_travel(next, cycles - 1);
        assert(at_heading(next) =~= at_heading(s));
    }
}

proof fn lemma_door_opens(s: ControllerView)
    requires
        waiting_at_closed_door(s),
    ensures
        waiting_at_open_door(s.cycle()),
        s.cycle().passengers == s.passengers,
{
    lemma_quiet_cycle(s);
}

/// Before the open door the passenger boards; one who is where they want
/// to be leaves again at once, for any other the destination is called.
proof fn lemma_boards(s: ControllerView)
    requires
        waiting_at_open_door(s),
    ensures
        s.passengers[0].destination_floor == s.passengers[0].current_floor ==> arrived(s.cycle()),
        s.passengers[0].destination_floor != s.passengers[0].current_floor ==> riding_idle(s.cycle())
            && s.cycle().cabins[0].floor == s.cabins[0].floor,
        s.same_people(s.cycle()),
{
    lemma_quiet_cycle(s);
    reveal_with_fuel(ControllerView::board_upto, 2);
    reveal_with_fuel(ControllerView::exit_upto, 2);
    let p = s.passengers[0];
    let c = s.cabins[0];
    assert(p.can_board(c));
    assert(p.board_result(c) == Ok::<bool, ElevatorError>(true));
    let inside = c.add_passenger(p.id);
    assert(inside.boarded =~= seq![p.id]);
    assert(inside.boarded[0] == p.id);
    let called = inside.enqueue_target(p.destination_floor);
    let boarded = s.board_upto(0, 1);
    assert(boarded.cabins[0] == called);
    assert(called.boarded[0] == p.id);
    let rider = boarded.passengers[0];
    if p.destination_floor == p.current_floor {
        assert(inside.serves(p.destination_floor));
        assert(rider.can_exit(called));
    } else {
        assert(!inside.serves(p.destination_floor));
        assert(called.targets =~= seq![p.destination_floor]);
        assert(!rider.can_exit(called));
        let exchanged = s.exchange(0);
        assert(exchanged.cabins[0] == called);
    }
}

proof fn lemma_sets_off(s: ControllerView)
    requires
        riding_idle(s),
    ensures
        riding_moving(s.cycle()),
        s.cycle().passengers == s.passengers,
        s.cycle().cabins[0].floor == s.cabins[0].floor,
{
    lemma_quiet_cycle(s);
    let c = s.cabins[0];
    let d = s.passengers[0].destination_floor;
    assert(c.targets[0] == d);
    assert(c.next_target() == Some(d));
    assert(c.targets.contains(d));
    assert(c.targets.index_of(d) == 0);
    assert(without(c.targets, d) =~= Seq::<i32>::empty());
}

proof fn lemma_door_opens_again(s: ControllerView)
    requires
        riding_stopped(s),
    ensures
        riding_at_open_door(s.cycle()),
        s.cycle().passengers == s.passengers,
{
    lemma_quiet_cycle(s);
}

proof fn lemma_leaves(s: ControllerView)
    requires
        riding_at_open_door(s),
    ensures
        arrived(s.cycle()),
        s.same_people(s.cycle()),
{
    lemma_quiet_cycle(s);
    reveal_with_fuel(ControllerView::board_upto, 2);
    reveal_with_fuel(ControllerView::exit_upto, 2);
    let p = s.passengers[0];
    let c = s.cabins[0];
    assert(!p.can_board(c));
    let boarded = s.board_upto(0, 1);
    assert(boarded.passengers[0] == p);
    assert(boarded.cabins[0] == c);
    assert(c.boarded[0] == p.id);
    assert(p.can_exit(c));
}

/// From the closed door of the cabin that has come for them, the passenger
/// is inside two cycles later, or has arrived if they are where they want
/// to be.
proof fn lemma_pickup(s: ControllerView, cycles: int)
    requires
        waiting_at_closed_door(s),
        cycles >= 2,
    ensures
        s.run(cycles) == s.cycle().cycle().run(cycles - 2),
        s.same_people(s.cycle().cycle()),
        s.passengers[0].destination_floor == s.passengers[0].current_floor ==> arrived(
            s.cycle().cycle(),
        ),
        s.passengers[0].destination_floor != s.passengers[0].current_floor ==> riding_idle(
            s.cycle().cycle(),
        ) && s.cycle().cycle().cabins[0].floor == s.cabins[0].floor,
{
    lemma_door_opens(s);
    lemma_run_unfolds(s, cycles);
    let opened = s.cycle();
    lemma_boards(opened);
    lemma_run_unfolds(opened, cycles - 1);
}

/// The cabin that has taken the passenger in brings them to the
/// destination and lets them out: three cycles and the way.
proof fn lemma_delivery(s: ControllerView, cycles: int)
    requires
        riding_idle(s),
        cycles >= 3 + distance(s.cabins[0].floor, s.passengers[0].destination_floor),
    ensures
        arrived(s.run(cycles)),
        s.same_people(s.run(cycles)),
{
    let way = distance(s.cabins[0].floor, s.passengers[0].destination_floor);
    lemma_sets_off(s);
    lemma_run_unfolds(s, cycles);
    let moving = s.cycle();
    lemma_travel(moving, cycles - 1);
    let there = at_heading(moving);
    assert(s.run(cycles) == there.run(cycles - 1 - way));
    assert(riding_stopped(there));
    assert(there.passengers == s.passengers);
    lemma_door_opens_again(there);
    lemma_run_unfolds(there, cycles - 1 - way);
    let reopened = there.cycle();
    lemma_leaves(reopened);
    lemma_run_unfolds(reopened, cycles - 2 - way);
    let done = reopened.cycle();
    lemma_run_unfolds(done, cycles - 3 - way);
    assert(s.run(cycles) == done);
}

/// The number of cycles after which a passenger who travels alone from
/// `origin` to `destination` has arrived, when the cabin starts at the
/// ground floor: the way of the cabin to the passenger, the way of the
/// journey, and six cycles for calling, doors, boarding and leaving.
pub open spec fn journey_cycles(origin: i32, destination: i32) -> int {
    6 + origin + distance(origin, destination)
}

/// Without contention a passenger arrives: where one cabin of any capacity
/// serves one passenger in a building of any height, the passenger has
/// left the cabin at the destination after `journey_cycles` cycles, and so
/// at the end of every run that is given at least as many.
pub proof fn lemma_single_journey(
    num_floors: i32,
    capacity: usize,
    origin: i32,
    destination: i32,
    cycles: int,
)
    requires
        check_setup(1, num_floors, capacity, seq![origin], seq![destination]) is None,
        cycles >= journey_cycles(origin, destination),
    ensures
        initial_state(1, num_floors, capacity, seq![origin], seq![destination]).run(
            cycles,
        ).all_exited(),
        initial_state(1, num_floors, capacity, seq![origin], seq![destination]).run(
            cycles,
        ).passengers.len() == 1,
        initial_state(1, num_floors, capacity, seq![origin], seq![destination]).run(
            cycles,
        ).passengers[0].current_floor == destination,
{
    let s0 = initial_state(1, num_floors, capacity, seq![origin], seq![destination]);
    assert(0 <= seq![origin][0] < num_floors);
    assert(0 <= seq![destination][0] < num_floors);
    assert(s0.inv());
    lemma_first_cycle(s0);
    lemma_run_unfolds(s0, cycles);
    let s1 = s0.cycle();
    let (at_origin, left) = if origin == 0 {
        (s1, cycles - 1)
    } else {
        lemma_travel(s1, cycles - 1);
        (at_heading(s1), cycles - 1 - origin)
    };
    assert(s0.run(cycles) == at_origin.run(left));
    assert(waiting_at_closed_door(at_origin));
    assert(at_origin.passengers[0].destination_floor == destination);
    assert(at_origin.passengers[0].current_floor == origin);
    assert(at_origin.cabins[0].floor == origin);
    lemma_pickup(at_origin, left);
    let boarded = at_origin.cycle().cycle();
    if origin == destination {
        lemma_run_unfolds(boarded, left - 2);
    } else {
        lemma_delivery(boarded, left - 2);
        let done = boarded.run(left - 2);
        assert(done.passengers[0].state == PassengerState::Exiting);
        assert(done.all_exited());
    }
}

} // verus!
