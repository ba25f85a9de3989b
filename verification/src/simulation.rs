use crate::cabin::{CabinView, Fahrkabine};
use crate::controller::Controller;
use crate::dispatch::cabin_views;
use crate::error::ElevatorError;
use crate::model::ControllerView;
use crate::passenger::{Passagier, PassengerState};
use crate::random::random_below;
use vstd::prelude::*;

verus! {

/// Every floor of `floors` lies in a building of `num_floors` floors.
pub open spec fn floors_valid(floors: Seq<i32>, num_floors: i32) -> bool {
    forall|i: int| 0 <= i < floors.len() ==> 0 <= #[trigger] floors[i] < num_floors
}

/// Why a simulation with these parameters cannot be set up, if it cannot:
/// `InvalidConfig` where there is no cabin, no floor or no room in a cabin,
/// where cabins or passengers are too many to be numbered, or where the two
/// lists differ in length; `InvalidFloor` where a floor of a list lies
/// outside the building.
pub open spec fn check_setup(
    num_elevators: usize,
    num_floors: i32,
    max_passengers_per_cabin: usize,
    current_floors: Seq<i32>,
    destination_floors: Seq<i32>,
) -> Option<ElevatorError> {
    if num_elevators == 0 || num_elevators > i32::MAX || num_floors <= 0 || max_passengers_per_cabin
        == 0 || current_floors.len() != destination_floors.len() || current_floors.len()
        > i32::MAX {
        Some(ElevatorError::InvalidConfig)
    } else if !floors_valid(current_floors, num_floors) || !floors_valid(
        destination_floors,
        num_floors,
    ) {
        Some(ElevatorError::InvalidFloor)
    } else {
        None
    }
}

/// The cabins a simulation begins with: numbered from 0, empty, idle, at
/// the ground floor.
pub open spec fn initial_cabins(
    num_elevators: usize,
    num_floors: i32,
    max_passengers_per_cabin: usize,
) -> Seq<CabinView> {
    Seq::new(
        num_elevators as nat,
        |i: int| CabinView::fresh(i as i32, 0, max_passengers_per_cabin, num_floors),
    )
}

/// The passengers a simulation begins with: numbered from 0, each waiting
/// at their floor.
pub open spec fn initial_passengers(current_floors: Seq<i32>, destination_floors: Seq<i32>) -> Seq<
    Passagier,
> {
    Seq::new(
        current_floors.len(),
        |i: int| Passagier::fresh(i as i32, current_floors[i], destination_floors[i]),
    )
}

/// The controller a simulation begins with.
pub open spec fn initial_state(
    num_elevators: usize,
    num_floors: i32,
    max_passengers_per_cabin: usize,
    current_floors: Seq<i32>,
    destination_floors: Seq<i32>,
) -> ControllerView {
    ControllerView {
        passengers: initial_passengers(current_floors, destination_floors),
        ..ControllerView::fresh(initial_cabins(num_elevators, num_floors, max_passengers_per_cabin))
    }
}

/// Tells whether every floor of `floors` lies in the building.
fn all_floors_valid(floors: &Vec<i32>, num_floors: i32) -> (r: bool)
    ensures
        r == floors_valid(floors@, num_floors),
{
    let mut i: usize = 0;
    while i < floors.len()
        invariant
            i <= floors.len(),
            forall|j: int| 0 <= j < i ==> 0 <= #[trigger] floors@[j] < num_floors,
        decreases floors.len() - i,
    {
        if floors[i] < 0 || floors[i] >= num_floors {
            return false;
        }
        i += 1;
    }
    true
}

/// Sets up a simulation: `num_elevators` cabins at the ground floor under
/// one controller, and one waiting passenger for each pair of floors of the
/// two lists. Parameters that `check_setup` faults are refused with its
/// error.
pub fn build_simulation(
    num_elevators: usize,
    num_floors: i32,
    max_passengers_per_cabin: usize,
    current_floors: &Vec<i32>,
    destination_floors: &Vec<i32>,
) -> (r: Result<Controller, ElevatorError>)
    ensures
        match r {
            Ok(c) => check_setup(
                num_elevators,
                num_floors,
                max_passengers_per_cabin,
                current_floors@,
                destination_floors@,
            ) is None && c.inv() && c@ == initial_state(
                num_elevators,
                num_floors,
                max_passengers_per_cabin,
                current_floors@,
                destination_floors@,
            ),
            Err(e) => check_setup(
                num_elevators,
                num_floors,
                max_passengers_per_cabin,
                current_floors@,
                destination_floors@,
            ) == Some(e),
        },
{
    if num_elevators == 0 || num_elevators > i32::MAX as usize || num_floors <= 0
        || max_passengers_per_cabin == 0 || current_floors.len() != destination_floors.len()
        || current_floors.len() > i32::MAX as usize {
        return Err(ElevatorError::InvalidConfig);
    }
    if !all_floors_valid(current_floors, num_floors) || !all_floors_valid(
        destination_floors,
        num_floors,
    ) {
        return Err(ElevatorError::InvalidFloor);
    }
    let ghost cabins = initial_cabins(num_elevators, num_floors, max_passengers_per_cabin);
    let mut fahrkabinen: Vec<Fahrkabine> = Vec::new();
    let mut i: usize = 0;
    while i < num_elevators
        invariant
            i <= num_elevators <= i32::MAX,
            num_floors > 0,
            max_passengers_per_cabin > 0,
            fahrkabinen.len() == i,
            forall|j: int|
                0 <= j < i ==> (#[trigger] fahrkabinen[j]).inv() && fahrkabinen[j]@ == CabinView::fresh(
                    j as i32,
                    0,
                    max_passengers_per_cabin,
                    num_floors,
                ),
        decreases num_elevators - i,
    {
        match Fahrkabine::new(i as i32, 0, max_passengers_per_cabin, num_floors) {
            Ok(cabin) => {
                fahrkabinen.push(cabin);
            },
            Err(e) => {
                return Err(e);
            },
        }
        i += 1;
    }
    assert(cabin_views(fahrkabinen@) =~= cabins);
    let mut controller = match Controller::new(fahrkabinen) {
        Ok(c) => c,
        Err(e) => {
            return Err(e);
        },
    };
    let ghost empty = controller@;
    let n = current_floors.len();
    let mut j: usize = 0;
    while j < n
        invariant
            j <= n <= i32::MAX,
            n == current_floors.len(),
            n == destination_floors.len(),
            floors_valid(current_floors@, num_floors),
            floors_valid(destination_floors@, num_floors),
            controller.inv(),
            empty == ControllerView::fresh(cabins),
            empty.num_floors == num_floors,
            controller@ == (ControllerView {
                passengers: initial_passengers(current_floors@, destination_floors@).take(j as int),
                ..empty
            }),
        decreases n - j,
    {
        let p = Passagier::new(j as i32, current_floors[j], destination_floors[j]);
        let added = controller.add_passenger(p);
        assert(added is Ok);
        assert(controller@.passengers =~= initial_passengers(
            current_floors@,
            destination_floors@,
        ).take(j as int + 1));
        j += 1;
    }
    assert(controller@.passengers =~= initial_passengers(current_floors@, destination_floors@));
    Ok(controller)
}

/// The destination that a draw gives a passenger at `origin`: the draw
/// itself below the origin, the floor above it from the origin on.
pub open spec fn destination_of_draw(origin: i32, draw: usize) -> int {
    if draw < origin {
        draw as int
    } else {
        draw + 1
    }
}

/// A destination can be drawn for a passenger at `origin`: the building has
/// a second floor, the origin lies in it, and the draw is one of the
/// `num_floors - 1` other floors.
pub open spec fn draw_valid(origin: i32, draw: usize, num_floors: i32) -> bool {
    num_floors >= 2 && 0 <= origin < num_floors && draw < num_floors - 1
}

/// Turns a draw below `num_floors - 1` into a destination other than
/// `origin`: a floor of the building that `destination_of_draw` names.
/// `None` where no destination can be drawn.
pub fn destination_from_draw(origin: i32, draw: usize, num_floors: i32) -> (r: Option<i32>)
    ensures
        r is Some <==> draw_valid(origin, draw, num_floors),
        r matches Some(d) ==> d == destination_of_draw(origin, draw) && 0 <= d < num_floors && d
            != origin,
{
    if num_floors < 2 || origin < 0 || origin >= num_floors || draw >= (num_floors - 1) as usize {
        return None;
    }
    let k = draw as i32;
    if k < origin {
        Some(k)
    } else {
        Some(k + 1)
    }
}

/// What the parameters of `init_simulation` are faulted for, if they are:
/// as `check_setup` faults them, with a list that is left out counted as one
/// of as many floors as there are passengers; and `InvalidConfig` where
/// destinations are to be drawn for passengers in a building of one floor.
pub open spec fn check_init(
    num_elevators: usize,
    num_floors: i32,
    num_passengers: usize,
    max_passengers_per_cabin: usize,
    current_floors: Option<Seq<i32>>,
    destination_floors: Option<Seq<i32>>,
) -> Option<ElevatorError> {
    let n = match current_floors {
        Some(a) => a.len(),
        None => num_passengers as nat,
    };
    let m = match destination_floors {
        Some(b) => b.len(),
        None => n,
    };
    if num_elevators == 0 || num_elevators > i32::MAX || num_floors <= 0 || max_passengers_per_cabin
        == 0 || n != m || n > i32::MAX || (destination_floors is None && n > 0 && num_floors < 2) {
        Some(ElevatorError::InvalidConfig)
    } else if (current_floors matches Some(a) && !floors_valid(a, num_floors)) || (
    destination_floors matches Some(b) && !floors_valid(b, num_floors)) {
        Some(ElevatorError::InvalidFloor)
    } else {
        None
    }
}

/// Sets up a simulation as `build_simulation` does. A list of floors that
/// is left out is drawn at random: a current floor for each of
/// `num_passengers` passengers, a destination other than the current floor
/// for each passenger. Parameters that `check_init` faults are refused
/// with its error, whatever is drawn.
pub fn init_simulation(
    num_elevators: usize,
    num_floors: i32,
    num_passengers: usize,
    max_passengers_per_cabin: usize,
    current_floors: Option<Vec<i32>>,
    destination_floors: Option<Vec<i32>>,
) -> (r: Result<Controller, ElevatorError>)
    ensures
        match r {
            Ok(c) => check_init(
                num_elevators,
                num_floors,
                num_passengers,
                max_passengers_per_cabin,
                match current_floors {
                    Some(a) => Some(a@),
                    None => None,
                },
                match destination_floors {
                    Some(b) => Some(b@),
                    None => None,
                },
            ) is None && c.inv() && exists|origins: Seq<i32>, destinations: Seq<i32>|
                {
                    &&& #[trigger] initial_state(
                        num_elevators,
                        num_floors,
                        max_passengers_per_cabin,
                        origins,
                        destinations,
                    ) == c@
                    &&& check_setup(
                        num_elevators,
                        num_floors,
                        max_passengers_per_cabin,
                        origins,
                        destinations,
                    ) is None
                    &&& match current_floors {
                        Some(a) => origins == a@,
                        None => origins.len() == num_passengers,
                    }
                    &&& match destination_floors {
                        Some(b) => destinations == b@,
                        None => forall|i: int|
                            0 <= i < origins.len() ==> #[trigger] destinations[i] != origins[i],
                    }
                },
            Err(e) => check_init(
                num_elevators,
                num_floors,
                num_passengers,
                max_passengers_per_cabin,
                match current_floors {
                    Some(a) => Some(a@),
                    None => None,
                },
                match destination_floors {
                    Some(b) => Some(b@),
                    None => None,
                },
            ) == Some(e),
        },
{
    if num_elevators == 0 || num_elevators > i32::MAX as usize || num_floors <= 0
        || max_passengers_per_cabin == 0 {
        return Err(ElevatorError::InvalidConfig);
    }
    let origins: Vec<i32> = match current_floors {
        Some(list) => list,
        None => {
            if num_passengers > i32::MAX as usize {
                return Err(ElevatorError::InvalidConfig);
            }
            let mut drawn: Vec<i32> = Vec::new();
            let mut i: usize = 0;
            while i < num_passengers
                invariant
                    i <= num_passengers,
                    num_floors > 0,
                    drawn.len() == i,
                    floors_valid(drawn@, num_floors),
                decreases num_passengers - i,
            {
                let draw = random_below(num_floors as usize);
                drawn.push(draw as i32);
                i += 1;
            }
            drawn
        },
    };
    let destinations: Vec<i32> = match destination_floors {
        Some(list) => list,
        None => {
            if origins.len() > i32::MAX as usize || (origins.len() > 0 && num_floors < 2) {
                return Err(ElevatorError::InvalidConfig);
            }
            if !all_floors_valid(&origins, num_floors) {
                return Err(ElevatorError::InvalidFloor);
            }
            let mut drawn: Vec<i32> = Vec::new();
            let mut i: usize = 0;
            while i < origins.len()
                invariant
                    i <= origins.len(),
                    origins.len() > 0 ==> num_floors >= 2,
                    floors_valid(origins@, num_floors),
                    drawn.len() == i,
                    floors_valid(drawn@, num_floors),
                    forall|j: int| 0 <= j < i ==> #[trigger] drawn@[j] != origins@[j],
                decreases origins.len() - i,
            {
                let draw = random_below((num_floors - 1) as usize);
                assert(0 <= origins@[i as int] < num_floors);
                match destination_from_draw(origins[i], draw, num_floors) {
                    Some(d) => {
                        drawn.push(d);
                    },
                    None => {
                        return Err(ElevatorError::InvalidConfig);
                    },
                }
                i += 1;
            }
            drawn
        },
    };
    build_simulation(
        num_elevators,
        num_floors,
        max_passengers_per_cabin,
        &origins,
        &destinations,
    )
}

/// Runs cycles until every passenger has arrived, but no more of them than
/// the controller's patience allows. `Err(RequestTimeout)` tells that some
/// passenger has not arrived by then; `stuck_passengers` names them.
pub fn run_simulation(controller: &mut Controller) -> (r: Result<(), ElevatorError>)
    requires
        old(controller).inv(),
    ensures
        final(controller).inv(),
        final(controller)@ == old(controller)@.run(old(controller)@.patience as int),
        r == (if final(controller)@.all_exited() {
            Ok::<(), ElevatorError>(())
        } else {
            Err::<(), ElevatorError>(ElevatorError::RequestTimeout)
        }),
{
    let mut remaining = controller.patience();
    let mut done = controller.all_exited();
    while remaining > 0 && !done
        invariant
            controller.inv(),
            done == controller@.all_exited(),
            controller@.run(remaining as int) == old(controller)@.run(
                old(controller)@.patience as int,
            ),
        decreases remaining,
    {
        controller.cycle();
        remaining = remaining - 1;
        done = controller.all_exited();
    }
    if done {
        Ok(())
    } else {
        Err(ElevatorError::RequestTimeout)
    }
}

/// The state of every passenger, for a log: id, current floor, destination
/// and state, in the order in which the passengers were registered.
pub fn debug_passenger_states(controller: &Controller) -> (r: Vec<(i32, i32, i32, PassengerState)>)
    ensures
        r@.len() == controller@.passengers.len(),
        forall|j: int|
            0 <= j < r@.len() ==> #[trigger] r@[j] == (
                controller@.passengers[j].id,
                controller@.passengers[j].current_floor,
                controller@.passengers[j].destination_floor,
                controller@.passengers[j].state,
            ),
{
    let passengers = controller.passengers();
    let mut states: Vec<(i32, i32, i32, PassengerState)> = Vec::new();
    let mut j: usize = 0;
    while j < passengers.len()
        invariant
            j <= passengers.len(),
            passengers@ == controller@.passengers,
            states@.len() == j,
            forall|i: int|
                0 <= i < j ==> #[trigger] states@[i] == (
                    passengers@[i].id,
                    passengers@[i].current_floor,
                    passengers@[i].destination_floor,
                    passengers@[i].state,
                ),
        decreases passengers.len() - j,
    {
        let p = passengers[j];
        states.push((p.id, p.current_floor, p.destination_floor, p.state));
        j += 1;
    }
    states
}

} // verus!
