use crate::error::ElevatorError;
use crate::lists::{lemma_push_fresh, lemma_without, position_of, remove_value, without};
use vstd::prelude::*;

verus! {

/// Number of ticks for which an open door waits before it is due to close.
pub const DOOR_HOLD_TICKS: u32 = 3;

/// The states a door passes through.
#[derive(Debug, PartialEq, Eq, Clone, Copy, Structural)]
pub enum DoorState {
    Open,
    Opening,
    Closing,
    Closed,
}

/// The states of motion of a cabin: idle with nothing to do, moving
/// between floors, or stopped at a floor to serve it.
#[derive(Debug, PartialEq, Eq, Clone, Copy, Structural)]
pub enum ElevatorState {
    Idle,
    Moving,
    Stopped,
}

/// The door of one cabin: its state, whether something blocks it, and the
/// ticks left until an open door is due to close.
#[derive(Debug, PartialEq, Eq, Clone, Copy, Structural)]
pub struct Door {
    pub state: DoorState,
    pub obstructed: bool,
    pub timer: u32,
}

/// The floor one step from `from` in the direction of `to`.
pub open spec fn step_floor(from: i32, to: i32) -> i32 {
    if from < to {
        (from + 1) as i32
    } else if from > to {
        (from - 1) as i32
    } else {
        from
    }
}

/// The number of floors between `a` and `b`.
pub open spec fn distance(a: i32, b: i32) -> int {
    if a >= b {
        a - b
    } else {
        b - a
    }
}

/// An open door with its timer started anew; any other door unchanged.
pub open spec fn restarted(door: Door) -> Door {
    if door.state == DoorState::Open {
        Door { timer: DOOR_HOLD_TICKS, ..door }
    } else {
        door
    }
}

/// The mathematical model of a cabin.
#[verifier::ext_equal]
pub struct CabinView {
    pub id: i32,
    /// The floor the cabin is at.
    pub floor: i32,
    /// Floors are numbered `0 .. num_floors`.
    pub num_floors: i32,
    pub door: Door,
    pub motion: ElevatorState,
    /// The floor a moving cabin travels to; the current floor of a cabin at rest.
    pub heading: i32,
    /// A call at the current floor waits for the door to open.
    pub call_here: bool,
    /// The passengers inside, in the order in which they boarded.
    pub boarded: Seq<i32>,
    pub capacity: usize,
    /// The floors still to visit, first come first served.
    pub targets: Seq<i32>,
}

impl CabinView {
    /// `f` is a floor of the building.
    pub open spec fn valid_floor(self, f: i32) -> bool {
        0 <= f < self.num_floors
    }

    /// What holds of every cabin between two operations.
    pub open spec fn inv(self) -> bool {
        &&& self.valid_floor(self.floor)
        &&& self.valid_floor(self.heading)
        &&& self.capacity > 0
        &&& self.boarded.len() <= self.capacity
        &&& self.boarded.no_duplicates()
        &&& self.targets.no_duplicates()
        &&& forall|i: int| 0 <= i < self.targets.len() ==> self.valid_floor(#[trigger] self.targets[i])
        &&& !self.targets.contains(self.heading)
        &&& (self.door.state != DoorState::Closed ==> self.motion == ElevatorState::Stopped)
        &&& (self.door.state != DoorState::Open ==> self.door.timer == 0)
        &&& self.door.timer <= DOOR_HOLD_TICKS
        &&& (self.motion == ElevatorState::Moving ==> self.heading != self.floor && !self.call_here)
        &&& (self.motion != ElevatorState::Moving ==> self.heading == self.floor)
        &&& (self.call_here ==> self.door.state != DoorState::Open)
    }

    /// Why a cabin with these parameters cannot be made, if it cannot.
    pub open spec fn check_new(current_floor: i32, max_passengers: usize, num_floors: i32) -> Option<
        ElevatorError,
    > {
        if num_floors <= 0 || max_passengers == 0 {
            Some(ElevatorError::InvalidConfig)
        } else if !(0 <= current_floor < num_floors) {
            Some(ElevatorError::InvalidFloor)
        } else {
            None
        }
    }

    /// An empty idle cabin with its door closed.
    pub open spec fn fresh(id: i32, current_floor: i32, max_passengers: usize, num_floors: i32) -> CabinView {
        CabinView {
            id,
            floor: current_floor,
            num_floors,
            door: Door { state: DoorState::Closed, obstructed: false, timer: 0 },
            motion: ElevatorState::Idle,
            heading: current_floor,
            call_here: false,
            boarded: Seq::empty(),
            capacity: max_passengers,
            targets: Seq::empty(),
        }
    }

    /// No further passenger can be let in.
    pub open spec fn is_full(self) -> bool {
        self.boarded.len() >= self.capacity
    }

    /// The cabin is committed to open its door at `f`: `f` is queued, or the
    /// cabin travels there, or it rests there with a call pending or the door open.
    pub open spec fn serves(self, f: i32) -> bool {
        ||| self.targets.contains(f)
        ||| (self.motion == ElevatorState::Moving && self.heading == f)
        ||| (self.motion != ElevatorState::Moving && self.floor == f && (self.call_here
            || self.door.state == DoorState::Open))
    }

    // ----- motion -----
    /// A move to `target` can begin: the floor exists and is another one, the
    /// cabin is at rest and its door is closed.
    pub open spec fn can_start(self, target: i32) -> bool {
        &&& self.valid_floor(target)
        &&& self.motion != ElevatorState::Moving
        &&& target != self.floor
        &&& self.door.state == DoorState::Closed
    }

    /// How a move to `target` ends: `InvalidFloor` for a floor outside the
    /// building, `InvalidState` for a cabin that is moving or, where the
    /// target is another floor, whose door is not closed.
    pub open spec fn move_to_result(self, target: i32) -> Result<(), ElevatorError> {
        if !self.valid_floor(target) {
            Err(ElevatorError::InvalidFloor)
        } else if self.motion == ElevatorState::Moving {
            Err(ElevatorError::InvalidState)
        } else if target == self.floor {
            Ok(())
        } else if self.door.state != DoorState::Closed {
            Err(ElevatorError::InvalidState)
        } else {
            Ok(())
        }
    }

    /// The cabin sets off towards `target`. The target leaves the queue; a
    /// call pending at the floor that is left behind joins it.
    pub open spec fn start_move(self, target: i32) -> CabinView {
        if self.can_start(target) {
            let rest = without(self.targets, target);
            CabinView {
                motion: ElevatorState::Moving,
                heading: target,
                call_here: false,
                targets: if self.call_here {
                    rest.push(self.floor)
                } else {
                    rest
                },
                ..self
            }
        } else {
            self
        }
    }

    /// A moving cabin advances by one floor and stops when it has arrived.
    pub open spec fn step(self) -> CabinView {
        if self.motion == ElevatorState::Moving {
            let f = step_floor(self.floor, self.heading);
            CabinView {
                floor: f,
                motion: if f == self.heading {
                    ElevatorState::Stopped
                } else {
                    ElevatorState::Moving
                },
                ..self
            }
        } else {
            self
        }
    }

    /// The cabin after the whole journey to `target`: stopped there.
    pub open spec fn move_to(self, target: i32) -> CabinView {
        if self.can_start(target) {
            CabinView { floor: target, motion: ElevatorState::Stopped, ..self.start_move(target) }
        } else {
            self
        }
    }

    /// Only a cabin at rest can be held.
    pub open spec fn hold_result(self) -> Result<(), ElevatorError> {
        if self.motion == ElevatorState::Moving {
            Err(ElevatorError::InvalidState)
        } else {
            Ok(())
        }
    }

    /// A cabin at rest is held at its floor, ready to open its door.
    pub open spec fn hold(self) -> CabinView {
        if self.motion == ElevatorState::Moving {
            self
        } else {
            CabinView { motion: ElevatorState::Stopped, ..self }
        }
    }

    /// How attending `target` ends: as holding, where the cabin is at the
    /// target, and as the move there else.
    pub open spec fn attend_result(self, target: i32) -> Result<(), ElevatorError> {
        if self.valid_floor(target) && target == self.floor {
            self.hold_result()
        } else {
            self.move_to_result(target)
        }
    }

    /// The cabin answers a call at `target`: it travels there, or is held
    /// where it is when it rests at `target` already.
    pub open spec fn attend(self, target: i32) -> CabinView {
        if self.valid_floor(target) && target == self.floor {
            self.hold()
        } else {
            self.move_to(target)
        }
    }

    // ----- door -----
    /// Only the door of a stopped cabin opens.
    pub open spec fn open_door_result(self) -> Result<(), ElevatorError> {
        if self.motion == ElevatorState::Stopped {
            Ok(())
        } else {
            Err(ElevatorError::InvalidState)
        }
    }

    /// The door of a stopped cabin opens and its timer starts; a call that
    /// was pending at this floor is thereby answered.
    pub open spec fn open_door(self) -> CabinView {
        if self.motion == ElevatorState::Stopped {
            CabinView {
                door: Door { state: DoorState::Open, timer: DOOR_HOLD_TICKS, ..self.door },
                call_here: false,
                ..self
            }
        } else {
            self
        }
    }

    /// How closing the door ends: `InvalidState` for a door that is not open
    /// or is obstructed, `CapacityExceeded` for a cabin over its capacity.
    pub open spec fn close_door_result(self) -> Result<(), ElevatorError> {
        if self.door.state != DoorState::Open || self.door.obstructed {
            Err(ElevatorError::InvalidState)
        } else if self.boarded.len() > self.capacity {
            Err(ElevatorError::CapacityExceeded)
        } else {
            Ok(())
        }
    }

    /// An open, unobstructed door of a cabin within its capacity closes, and
    /// the cabin becomes idle. Any other door stays as it is.
    pub open spec fn close_door(self) -> CabinView {
        if self.close_door_result() is Ok {
            CabinView {
                door: Door { state: DoorState::Closed, timer: 0, ..self.door },
                motion: ElevatorState::Idle,
                ..self
            }
        } else {
            self
        }
    }

    /// The cabin with the obstruction of its door set or cleared.
    pub open spec fn set_obstruction(self, obstructed: bool) -> CabinView {
        CabinView { door: Door { obstructed, ..self.door }, ..self }
    }

    /// The open door has waited long enough and nothing blocks it.
    pub open spec fn close_due(self) -> bool {
        self.door.state == DoorState::Open && !self.door.obstructed && self.door.timer == 0
    }

    /// One tick passes. The timer of an open door runs down unless the door
    /// is obstructed.
    pub open spec fn tick_door(self) -> CabinView {
        if self.door.state == DoorState::Open && !self.door.obstructed && self.door.timer > 0 {
            CabinView { door: Door { timer: (self.door.timer - 1) as u32, ..self.door }, ..self }
        } else {
            self
        }
    }

    // ----- passengers -----
    /// A full cabin lets nobody in.
    pub open spec fn add_passenger_result(self) -> Result<(), ElevatorError> {
        if self.is_full() {
            Err(ElevatorError::CapacityExceeded)
        } else {
            Ok(())
        }
    }

    /// A passenger steps in, unless the cabin is full or holds them already.
    pub open spec fn add_passenger(self, passenger_id: i32) -> CabinView {
        if self.is_full() || self.boarded.contains(passenger_id) {
            self
        } else {
            CabinView { boarded: self.boarded.push(passenger_id), door: restarted(self.door), ..self }
        }
    }

    /// A passenger steps out, if they are inside.
    pub open spec fn remove_passenger(self, passenger_id: i32) -> CabinView {
        if self.boarded.contains(passenger_id) {
            CabinView {
                boarded: without(self.boarded, passenger_id),
                door: restarted(self.door),
                ..self
            }
        } else {
            self
        }
    }

    // ----- target queue -----
    /// Only a floor of the building can be called.
    pub open spec fn enqueue_result(self, floor: i32) -> Result<(), ElevatorError> {
        if self.valid_floor(floor) {
            Ok(())
        } else {
            Err(ElevatorError::InvalidFloor)
        }
    }

    /// The cabin takes on a call at `floor`. Nothing changes where it serves
    /// that floor already. A call at the floor where it rests is noted as
    /// pending there; any other floor joins the end of the queue.
    pub open spec fn enqueue_target(self, floor: i32) -> CabinView {
        if !self.valid_floor(floor) || self.serves(floor) {
            self
        } else if self.motion != ElevatorState::Moving && floor == self.floor {
            CabinView { call_here: true, ..self }
        } else {
            CabinView { targets: self.targets.push(floor), ..self }
        }
    }

    /// The cabin takes on a call at `floor` ahead of every queued floor: the
    /// floor moves, or comes, to the head of the queue. A call at the floor
    /// where the cabin rests, or to which it travels, is taken on as any call.
    pub open spec fn prepend_target(self, floor: i32) -> CabinView {
        if !self.valid_floor(floor) {
            self
        } else if floor == self.heading {
            self.enqueue_target(floor)
        } else {
            CabinView { targets: without(self.targets, floor).insert(0, floor), ..self }
        }
    }

    /// The floor to attend next: the floor the cabin is at while a call is
    /// pending there or its door stands open, else the head of the queue.
    pub open spec fn next_target(self) -> Option<i32> {
        if self.call_here || self.door.state == DoorState::Open {
            Some(self.floor)
        } else if self.targets.len() > 0 {
            Some(self.targets[0])
        } else {
            None
        }
    }

    /// The cabin after the first `n` of `ids` have each tried to step in,
    /// in their order.
    pub open spec fn add_all(self, ids: Seq<i32>, n: int) -> CabinView
        decreases n,
    {
        if n <= 0 {
            self
        } else {
            self.add_all(ids, n - 1).add_passenger(ids[n - 1])
        }
    }

    /// How many of the first `n` of `ids` were let in.
    pub open spec fn admitted(self, ids: Seq<i32>, n: int) -> int
        decreases n,
    {
        if n <= 0 {
            0
        } else {
            self.admitted(ids, n - 1) + if self.add_all(ids, n - 1).add_passenger_result() is Ok {
                1int
            } else {
                0int
            }
        }
    }

    // ----- laws of the model -----
    /// A cabin that can be made is made well.
    pub proof fn lemma_fresh_inv(id: i32, current_floor: i32, max_passengers: usize, num_floors: i32)
        requires
            Self::check_new(current_floor, max_passengers, num_floors) is None,
        ensures
            Self::fresh(id, current_floor, max_passengers, num_floors).inv(),
    {
    }

    /// Setting off, stepping, the whole journey, holding and attending all
    /// keep the invariant: the door of a moving cabin is closed, and the
    /// queue of a cabin that has arrived does not hold the floor it is at.
    pub proof fn lemma_motion_inv(self, target: i32)
        requires
            self.inv(),
        ensures
            self.start_move(target).inv(),
            self.step().inv(),
            self.move_to(target).inv(),
            self.hold().inv(),
            self.attend(target).inv(),
            self.move_to_result(target) is Ok ==> self.move_to(target).floor == target
                && !self.move_to(target).targets.contains(target),
            self.attend_result(target) is Ok ==> self.attend(target).floor == target
                && self.attend(target).motion == ElevatorState::Stopped,
    {
        if self.can_start(target) {
            let rest = without(self.targets, target);
            lemma_without(self.targets, target);
            let started = self.start_move(target);
            if self.call_here {
                assert(!rest.contains(self.floor));
                lemma_push_fresh(rest, self.floor);
                assert forall|i: int| 0 <= i < started.targets.len() implies self.valid_floor(
                    #[trigger] started.targets[i],
                ) by {
                    if i < rest.len() {
                        assert(rest.contains(rest[i]));
                        let j = self.targets.index_of(rest[i]);
                        assert(self.valid_floor(self.targets[j]));
                    }
                }
            } else {
                assert forall|i: int| 0 <= i < started.targets.len() implies self.valid_floor(
                    #[trigger] started.targets[i],
                ) by {
                    assert(rest.contains(rest[i]));
                    let j = self.targets.index_of(rest[i]);
                    assert(self.valid_floor(self.targets[j]));
                }
            }
            assert(started.inv());
            assert(self.move_to(target).inv());
        }
    }

    /// Opening, closing, obstructing and ticking keep the invariant; in
    /// particular a door is open only on a stopped cabin.
    pub proof fn lemma_door_inv(self, obstructed: bool)
        requires
            self.inv(),
        ensures
            self.open_door().inv(),
            self.close_door().inv(),
            self.set_obstruction(obstructed).inv(),
            self.tick_door().inv(),
    {
    }

    /// Boarding and leaving keep the invariant; in particular the cabin
    /// never holds more passengers than its capacity.
    pub proof fn lemma_boarding_inv(self, passenger_id: i32)
        requires
            self.inv(),
        ensures
            self.add_passenger(passenger_id).inv(),
            self.remove_passenger(passenger_id).inv(),
            self.add_passenger(passenger_id).boarded.len() <= self.capacity,
    {
        lemma_without(self.boarded, passenger_id);
        if !self.is_full() && !self.boarded.contains(passenger_id) {
            lemma_push_fresh(self.boarded, passenger_id);
        }
    }

    /// However many passengers press to board, and in whatever order, as
    /// many are let in as there is room for and no more: of `n` passengers
    /// none of whom is inside, the first `min(n, room)` in the order of their
    /// attempts are let in, where `room` is the capacity less the number
    /// inside; everyone else is refused.
    pub proof fn lemma_boarding_count(self, ids: Seq<i32>, n: int)
        requires
            self.inv(),
            ids.no_duplicates(),
            forall|i: int| 0 <= i < ids.len() ==> !self.boarded.contains(#[trigger] ids[i]),
            0 <= n <= ids.len(),
        ensures
            self.admitted(ids, n) == if n <= self.capacity - self.boarded.len() {
                n
            } else {
                self.capacity - self.boarded.len()
            },
            self.add_all(ids, n).boarded == self.boarded + ids.take(self.admitted(ids, n)),
            self.add_all(ids, n).capacity == self.capacity,
            self.add_all(ids, n).inv(),
        decreases n,
    {
        if n > 0 {
            self.lemma_boarding_count(ids, n - 1);
            let before = self.add_all(ids, n - 1);
            let k = self.admitted(ids, n - 1);
            let x = ids[n - 1];
            before.lemma_boarding_inv(x);
            assert(before.boarded.len() == self.boarded.len() + k);
            assert(!before.boarded.contains(x)) by {
                if before.boarded.contains(x) {
                    let j = before.boarded.index_of(x);
                    if j < self.boarded.len() {
                        assert(self.boarded[j] == x);
                    } else {
                        assert(ids.take(k)[j - self.boarded.len()] == x);
                        assert(ids[j - self.boarded.len()] == ids[n - 1]);
                    }
                }
            }
            if before.is_full() {
                assert(self.admitted(ids, n) == k);
            } else {
                assert(k == n - 1);
                assert(self.add_all(ids, n).boarded =~= self.boarded + ids.take(n));
            }
        } else {
            assert(self.boarded + ids.take(0) =~= self.boarded);
        }
    }

    /// Taking on a call keeps the invariant, and afterwards the cabin serves
    /// every floor it served before and the floor of the call.
    pub proof fn lemma_enqueue_inv(self, floor: i32)
        requires
            self.inv(),
        ensures
            self.enqueue_target(floor).inv(),
            self.valid_floor(floor) ==> self.enqueue_target(floor).serves(floor),
            forall|f: i32| self.serves(f) ==> self.enqueue_target(floor).serves(f),
            forall|f: i32| self.enqueue_target(floor).serves(f) ==> self.serves(f) || f == floor,
            self.enqueue_target(floor).num_floors == self.num_floors,
            self.enqueue_target(floor).targets == self.targets || self.enqueue_target(floor).targets
                == self.targets.push(floor),
    {
        if self.valid_floor(floor) && !self.serves(floor) {
            if self.motion != ElevatorState::Moving && floor == self.floor {
            } else {
                lemma_push_fresh(self.targets, floor);
                let t = self.targets.push(floor);
                assert(t[self.targets.len() as int] == floor);
            }
        }
    }

    /// Taking on a call ahead of the queue keeps the invariant. Afterwards
    /// the cabin serves the floor of the call and every floor it served
    /// before, and no other; the floors that were queued keep their order
    /// among themselves.
    pub proof fn lemma_prepend_inv(self, floor: i32)
        requires
            self.inv(),
        ensures
            self.prepend_target(floor).inv(),
            self.valid_floor(floor) ==> self.prepend_target(floor).serves(floor),
            forall|f: i32| self.serves(f) ==> self.prepend_target(floor).serves(f),
            forall|f: i32| self.prepend_target(floor).serves(f) ==> self.serves(f) || f == floor,
            self.prepend_target(floor).num_floors == self.num_floors,
            self.valid_floor(floor) && floor != self.heading ==> self.prepend_target(floor).targets[0]
                == floor && self.prepend_target(floor).targets.skip(1) == without(
                self.targets,
                floor,
            ),
    {
        self.lemma_enqueue_inv(floor);
        if self.valid_floor(floor) && floor != self.heading {
            let rest = without(self.targets, floor);
            lemma_without(self.targets, floor);
            let t = rest.insert(0, floor);
            assert(t[0] == floor);
            assert forall|i: int| 1 <= i < t.len() implies t[i] == rest[i - 1] by {}
            assert(t.skip(1) =~= rest);
            assert forall|i: int, j: int| 0 <= i < t.len() && 0 <= j < t.len() && i != j implies t[i]
                != t[j] by {
                if i > 0 {
                    assert(rest.contains(rest[i - 1]));
                }
                if j > 0 {
                    assert(rest.contains(rest[j - 1]));
                }
            }
            assert forall|i: int| 0 <= i < t.len() implies self.valid_floor(#[trigger] t[i]) by {
                if i > 0 {
                    assert(rest.contains(rest[i - 1]));
                    let k = self.targets.index_of(rest[i - 1]);
                    assert(self.valid_floor(self.targets[k]));
                }
            }
            assert forall|f: i32| t.contains(f) <==> (f == floor || rest.contains(f)) by {
                if t.contains(f) {
                    let k = t.index_of(f);
                    if k > 0 {
                        assert(rest[k - 1] == f);
                    }
                }
                if rest.contains(f) {
                    let k = rest.index_of(f);
                    assert(t[k + 1] == f);
                }
            }
        }
    }
}

/// One elevator cabin.
#[derive(Debug)]
pub struct Fahrkabine {
    id: i32,
    current_floor: i32,
    door: Door,
    passengers: Vec<i32>,
    max_passengers: usize,
    state: ElevatorState,
    targets: Vec<i32>,
    heading: i32,
    call_here: bool,
    num_floors: i32,
}

impl View for Fahrkabine {
    type V = CabinView;

    closed spec fn view(&self) -> CabinView {
        CabinView {
            id: self.id,
            floor: self.current_floor,
            num_floors: self.num_floors,
            door: self.door,
            motion: self.state,
            heading: self.heading,
            call_here: self.call_here,
            boarded: self.passengers@,
            capacity: self.max_passengers,
            targets: self.targets@,
        }
    }
}

impl Fahrkabine {
    /// The cabin is well formed: its model satisfies the invariant.
    pub open spec fn inv(&self) -> bool {
        self@.inv()
    }

    /// Makes an empty idle cabin with its door closed, for a building of
    /// `num_floors` floors. A building without floors and a capacity of zero
    /// are refused as `InvalidConfig`, a floor outside the building as
    /// `InvalidFloor`.
    pub fn new(id: i32, current_floor: i32, max_passengers: usize, num_floors: i32) -> (r: Result<
        Fahrkabine,
        ElevatorError,
    >)
        ensures
            match r {
                Ok(c) => CabinView::check_new(current_floor, max_passengers, num_floors) is None
                    && c@ == CabinView::fresh(id, current_floor, max_passengers, num_floors)
                    && c.inv(),
                Err(e) => CabinView::check_new(current_floor, max_passengers, num_floors) == Some(e),
            },
    {
        if num_floors <= 0 || max_passengers == 0 {
            return Err(ElevatorError::InvalidConfig);
        }
        if current_floor < 0 || current_floor >= num_floors {
            return Err(ElevatorError::InvalidFloor);
        }
        let cabin = Fahrkabine {
            id,
            current_floor,
            door: Door { state: DoorState::Closed, obstructed: false, timer: 0 },
            passengers: Vec::new(),
            max_passengers,
            state: ElevatorState::Idle,
            targets: Vec::new(),
            heading: current_floor,
            call_here: false,
            num_floors,
        };
        proof {
            CabinView::lemma_fresh_inv(id, current_floor, max_passengers, num_floors);
        }
        Ok(cabin)
    }

    /// The id the cabin was made with.
    pub fn id(&self) -> (r: i32)
        ensures
            r == self@.id,
    {
        self.id
    }

    /// The floor the cabin is at.
    pub fn current_floor(&self) -> (r: i32)
        ensures
            r == self@.floor,
    {
        self.current_floor
    }

    /// The number of floors of the building.
    pub fn num_floors(&self) -> (r: i32)
        ensures
            r == self@.num_floors,
    {
        self.num_floors
    }

    /// The door as it is now.
    pub fn door(&self) -> (r: Door)
        ensures
            r == self@.door,
    {
        self.door
    }

    /// The state of motion.
    pub fn state(&self) -> (r: ElevatorState)
        ensures
            r == self@.motion,
    {
        self.state
    }

    /// The floor a moving cabin travels to; the floor of a cabin at rest.
    pub fn heading(&self) -> (r: i32)
        ensures
            r == self@.heading,
    {
        self.heading
    }

    /// The number of passengers the cabin may carry.
    pub fn max_passengers(&self) -> (r: usize)
        ensures
            r == self@.capacity,
    {
        self.max_passengers
    }

    /// The passengers inside, in the order in which they boarded.
    pub fn passengers(&self) -> (r: &Vec<i32>)
        ensures
            r@ == self@.boarded,
    {
        &self.passengers
    }

    /// The floors still to visit, the next one first.
    pub fn targets(&self) -> (r: &Vec<i32>)
        ensures
            r@ == self@.targets,
    {
        &self.targets
    }

    /// Tells whether no further passenger can be let in.
    pub fn is_full(&self) -> (r: bool)
        ensures
            r == self@.is_full(),
    {
        self.passengers.len() >= self.max_passengers
    }

    /// Sets the cabin off towards `target_floor` without travelling yet:
    /// the single steps follow by `step`. A floor outside the building is
    /// refused as `InvalidFloor`; a cabin that is moving, or whose door is not
    /// closed, as `InvalidState`. At the target already, nothing happens.
    pub fn start_move(&mut self, target_floor: i32) -> (r: Result<(), ElevatorError>)
        requires
            old(self).inv(),
        ensures
            final(self).inv(),
            r == old(self)@.move_to_result(target_floor),
            final(self)@ == (if r is Ok {
                old(self)@.start_move(target_floor)
            } else {
                old(self)@
            }),
    {
        if target_floor < 0 || target_floor >= self.num_floors {
            return Err(ElevatorError::InvalidFloor);
        }
        if self.state == ElevatorState::Moving {
            return Err(ElevatorError::InvalidState);
        }
        if target_floor == self.current_floor {
            return Ok(());
        }
        if self.door.state != DoorState::Closed {
            return Err(ElevatorError::InvalidState);
        }
        proof {
            self@.lemma_motion_inv(target_floor);
            lemma_without(self.targets@, target_floor);
        }
        remove_value(&mut self.targets, target_floor);
        if self.call_here {
            self.targets.push(self.current_floor);
            self.call_here = false;
        }
        self.heading = target_floor;
        self.state = ElevatorState::Moving;
        Ok(())
    }

    /// Moves a travelling cabin by one floor towards its heading and tells
    /// whether it has arrived and stopped. A cabin at rest stays as it is.
    pub fn step(&mut self) -> (arrived: bool)
        requires
            old(self).inv(),
        ensures
            final(self).inv(),
            final(self)@ == old(self)@.step(),
            arrived == (old(self)@.motion == ElevatorState::Moving && final(self)@.motion
                == ElevatorState::Stopped),
    {
        proof {
            self@.lemma_motion_inv(self.heading);
        }
        if self.state == ElevatorState::Moving {
            if self.current_floor < self.heading {
                self.current_floor = self.current_floor + 1;
            } else {
                self.current_floor = self.current_floor - 1;
            }
            if self.current_floor == self.heading {
                self.state = ElevatorState::Stopped;
                return true;
            }
        }
        false
    }

    /// Moves the cabin to `target_floor`, floor by floor, and stops it there.
    /// A floor outside the building is refused as `InvalidFloor`; a cabin that
    /// is moving, or whose door is not closed, as `InvalidState`. At the
    /// target already, nothing happens.
    pub fn move_to(&mut self, target_floor: i32) -> (r: Result<(), ElevatorError>)
        requires
            old(self).inv(),
        ensures
            final(self).inv(),
            r == old(self)@.move_to_result(target_floor),
            final(self)@ == (if r is Ok {
                old(self)@.move_to(target_floor)
            } else {
                old(self)@
            }),
            r is Ok ==> final(self)@.floor == target_floor && !final(self)@.targets.contains(
                target_floor,
            ),
    {
        proof {
            old(self)@.lemma_motion_inv(target_floor);
        }
        let started = self.start_move(target_floor);
        if started.is_err() {
            return started;
        }
        while self.state == ElevatorState::Moving
            invariant
                self.inv(),
                self@ == (CabinView {
                    floor: self@.floor,
                    motion: self@.motion,
                    ..old(self)@.start_move(target_floor)
                }),
                self@.motion == ElevatorState::Moving || self@ == old(self)@.move_to(target_floor),
                !old(self)@.can_start(target_floor) ==> self@ == old(self)@ && old(self)@.motion
                    != ElevatorState::Moving,
            decreases distance(self@.floor, self@.heading),
        {
            self.step();
        }
        Ok(())
    }

    /// Holds a cabin at rest at its floor, so that its door may open there.
    /// A moving cabin is refused as `InvalidState`.
    pub fn hold(&mut self) -> (r: Result<(), ElevatorError>)
        requires
            old(self).inv(),
        ensures
            final(self).inv(),
            r == old(self)@.hold_result(),
            final(self)@ == old(self)@.hold(),
    {
        if self.state == ElevatorState::Moving {
            return Err(ElevatorError::InvalidState);
        }
        self.state = ElevatorState::Stopped;
        Ok(())
    }

    /// Answers a call at `target_floor`: travels there as `move_to` does, or
    /// holds the cabin when it rests at that floor already. After success the
    /// cabin is stopped at `target_floor`.
    pub fn attend(&mut self, target_floor: i32) -> (r: Result<(), ElevatorError>)
        requires
            old(self).inv(),
        ensures
            final(self).inv(),
            r == old(self)@.attend_result(target_floor),
            final(self)@ == (if r is Ok {
                old(self)@.attend(target_floor)
            } else {
                old(self)@
            }),
    {
        if target_floor == self.current_floor {
            self.hold()
        } else {
            self.move_to(target_floor)
        }
    }

    /// Opens the door of a stopped cabin and starts its timer. A cabin that
    /// is not stopped is refused as `InvalidState` and stays as it is.
    pub fn open_door(&mut self) -> (r: Result<(), ElevatorError>)
        requires
            old(self).inv(),
        ensures
            final(self).inv(),
            r == old(self)@.open_door_result(),
            final(self)@ == old(self)@.open_door(),
    {
        if self.state != ElevatorState::Stopped {
            return Err(ElevatorError::InvalidState);
        }
        self.door.state = DoorState::Opening;
        self.door.state = DoorState::Open;
        self.door.timer = DOOR_HOLD_TICKS;
        self.call_here = false;
        Ok(())
    }

    /// Closes an open door, after which the cabin is idle. A door that is
    /// not open, or that is obstructed, is refused as `InvalidState`; the door
    /// of a cabin that holds more passengers than it may carry stays open and
    /// the call is refused as `CapacityExceeded`.
    pub fn close_door(&mut self) -> (r: Result<(), ElevatorError>)
        requires
            old(self).inv(),
        ensures
            final(self).inv(),
            r == old(self)@.close_door_result(),
            final(self)@ == old(self)@.close_door(),
    {
        if self.door.state != DoorState::Open || self.door.obstructed {
            return Err(ElevatorError::InvalidState);
        }
        if self.passengers.len() > self.max_passengers {
            return Err(ElevatorError::CapacityExceeded);
        }
        self.door.state = DoorState::Closing;
        self.door.state = DoorState::Closed;
        self.door.timer = 0;
        self.state = ElevatorState::Idle;
        Ok(())
    }

    /// Sets or clears the obstruction of the door.
    pub fn set_obstruction(&mut self, obstructed: bool)
        requires
            old(self).inv(),
        ensures
            final(self).inv(),
            final(self)@ == old(self)@.set_obstruction(obstructed),
    {
        self.door.obstructed = obstructed;
    }

    /// Lets one tick pass for the door timer and tells whether the door is
    /// now due to close.
    pub fn tick_door(&mut self) -> (due: bool)
        requires
            old(self).inv(),
        ensures
            final(self).inv(),
            final(self)@ == old(self)@.tick_door(),
            due == final(self)@.close_due(),
    {
        if self.door.state == DoorState::Open && !self.door.obstructed && self.door.timer > 0 {
            self.door.timer = self.door.timer - 1;
        }
        self.door.state == DoorState::Open && !self.door.obstructed && self.door.timer == 0
    }

    /// Lets a passenger in. A full cabin refuses with `CapacityExceeded` and
    /// stays as it is. A passenger who is inside already stays inside.
    pub fn add_passenger(&mut self, passenger_id: i32) -> (r: Result<(), ElevatorError>)
        requires
            old(self).inv(),
        ensures
            final(self).inv(),
            r == old(self)@.add_passenger_result(),
            final(self)@ == old(self)@.add_passenger(passenger_id),
    {
        proof {
            self@.lemma_boarding_inv(passenger_id);
        }
        if self.passengers.len() >= self.max_passengers {
            return Err(ElevatorError::CapacityExceeded);
        }
        if position_of(&self.passengers, passenger_id).is_none() {
            self.passengers.push(passenger_id);
            if self.door.state == DoorState::Open {
                self.door.timer = DOOR_HOLD_TICKS;
            }
        }
        Ok(())
    }

    /// Lets a passenger out and tells whether they were inside.
    pub fn remove_passenger(&mut self, passenger_id: i32) -> (found: bool)
        requires
            old(self).inv(),
        ensures
            final(self).inv(),
            found == old(self)@.boarded.contains(passenger_id),
            final(self)@ == old(self)@.remove_passenger(passenger_id),
    {
        proof {
            self@.lemma_boarding_inv(passenger_id);
        }
        let found = remove_value(&mut self.passengers, passenger_id);
        if found && self.door.state == DoorState::Open {
            self.door.timer = DOOR_HOLD_TICKS;
        }
        found
    }

    /// Tells whether the cabin is committed to open its door at `floor`.
    pub fn serves(&self, floor: i32) -> (r: bool)
        ensures
            r == self@.serves(floor),
    {
        if position_of(&self.targets, floor).is_some() {
            return true;
        }
        if self.state == ElevatorState::Moving {
            self.heading == floor
        } else {
            self.current_floor == floor && (self.call_here || self.door.state == DoorState::Open)
        }
    }

    /// Takes on a call at `floor`. A floor outside the building is refused as
    /// `InvalidFloor`. Afterwards the cabin serves `floor`.
    pub fn enqueue_target(&mut self, floor: i32) -> (r: Result<(), ElevatorError>)
        requires
            old(self).inv(),
        ensures
            final(self).inv(),
            r == old(self)@.enqueue_result(floor),
            final(self)@ == old(self)@.enqueue_target(floor),
            r is Ok ==> final(self)@.serves(floor),
    {
        proof {
            self@.lemma_enqueue_inv(floor);
        }
        if floor < 0 || floor >= self.num_floors {
            return Err(ElevatorError::InvalidFloor);
        }
        if self.serves(floor) {
            return Ok(());
        }
        if self.state != ElevatorState::Moving && floor == self.current_floor {
            self.call_here = true;
        } else {
            self.targets.push(floor);
        }
        Ok(())
    }

    /// Takes on a call at `floor` ahead of every queued floor: the one way
    /// in which a floor is served out of its turn. A floor outside the
    /// building is refused as `InvalidFloor`. Afterwards the cabin serves
    /// `floor`, and the floors that were queued follow in their old order.
    pub fn prepend_target(&mut self, floor: i32) -> (r: Result<(), ElevatorError>)
        requires
            old(self).inv(),
        ensures
            final(self).inv(),
            r == old(self)@.enqueue_result(floor),
            final(self)@ == old(self)@.prepend_target(floor),
            r is Ok ==> final(self)@.serves(floor),
    {
        proof {
            self@.lemma_prepend_inv(floor);
        }
        if floor < 0 || floor >= self.num_floors {
            return Err(ElevatorError::InvalidFloor);
        }
        if floor == self.heading {
            return self.enqueue_target(floor);
        }
        remove_value(&mut self.targets, floor);
        self.targets.insert(0, floor);
        Ok(())
    }

    /// The floor to attend next, if there is one.
    pub fn next_target(&self) -> (r: Option<i32>)
        ensures
            r == self@.next_target(),
    {
        if self.call_here || self.door.state == DoorState::Open {
            Some(self.current_floor)
        } else if self.targets.len() > 0 {
            Some(self.targets[0])
        } else {
            None
        }
    }
}

} // verus!
