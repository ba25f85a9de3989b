use crate::cabin::{DoorState, ElevatorState};
use crate::controller::Controller;
use crate::dispatch::cabin_views;
use crate::passenger::PassengerState;
use vstd::prelude::*;

verus! {

/// What a display shows of one cabin at one instant.
pub struct CabinSnapshot {
    pub id: i32,
    pub floor: i32,
    pub door: DoorState,
    pub state: ElevatorState,
    pub passengers: Vec<i32>,
}

/// What a display shows at one instant: every cabin, and the id and state
/// of every passenger. It is a copy; later changes do not reach it.
pub struct UIState {
    pub elevators: Vec<CabinSnapshot>,
    pub passengers: Vec<(i32, PassengerState)>,
}

/// Takes a copy of what a display shows of `controller`.
pub fn ui_state(controller: &Controller) -> (ui: UIState)
    ensures
        ui.elevators@.len() == controller@.cabins.len(),
        forall|i: int|
            0 <= i < ui.elevators@.len() ==> {
                let shown = #[trigger] ui.elevators@[i];
                let cabin = controller@.cabins[i];
                &&& shown.id == cabin.id
                &&& shown.floor == cabin.floor
                &&& shown.door == cabin.door.state
                &&& shown.state == cabin.motion
                &&& shown.passengers@ == cabin.boarded
            },
        ui.passengers@.len() == controller@.passengers.len(),
        forall|j: int|
            0 <= j < ui.passengers@.len() ==> #[trigger] ui.passengers@[j] == (
                controller@.passengers[j].id,
                controller@.passengers[j].state,
            ),
{
    let cabins = controller.elevators();
    let mut elevators: Vec<CabinSnapshot> = Vec::new();
    let mut i: usize = 0;
    while i < cabins.len()
        invariant
            i <= cabins.len(),
            cabin_views(cabins@) == controller@.cabins,
            elevators@.len() == i,
            forall|k: int|
                0 <= k < i ==> {
                    let shown = #[trigger] elevators@[k];
                    let cabin = controller@.cabins[k];
                    &&& shown.id == cabin.id
                    &&& shown.floor == cabin.floor
                    &&& shown.door == cabin.door.state
                    &&& shown.state == cabin.motion
                    &&& shown.passengers@ == cabin.boarded
                },
        decreases cabins.len() - i,
    {
        let cabin = &cabins[i];
        assert(cabin@ == cabin_views(cabins@)[i as int]);
        let inside = cabin.passengers();
        let mut copy: Vec<i32> = Vec::new();
        let mut k: usize = 0;
        while k < inside.len()
            invariant
                k <= inside.len(),
                copy@ == inside@.take(k as int),
            decreases inside.len() - k,
        {
            copy.push(inside[k]);
            assert(copy@ =~= inside@.take(k as int + 1));
            k += 1;
        }
        assert(copy@ =~= inside@);
        elevators.push(
            CabinSnapshot {
                id: cabin.id(),
                floor: cabin.current_floor(),
                door: cabin.door().state,
                state: cabin.state(),
                passengers: copy,
            },
        );
        i += 1;
    }
    let people = controller.passengers();
    let mut passengers: Vec<(i32, PassengerState)> = Vec::new();
    let mut j: usize = 0;
    while j < people.len()
        invariant
            j <= people.len(),
            people@ == controller@.passengers,
            passengers@.len() == j,
            forall|k: int| 0 <= k < j ==> #[trigger] passengers@[k] == (people@[k].id, people@[k].state),
        decreases people.len() - j,
    {
        passengers.push((people[j].id, people[j].state));
        j += 1;
    }
    UIState { elevators, passengers }
}

} // verus!
