use elevator::{
    cabin_cost, Door, DoorState, ElevatorError, ElevatorState, Fahrkabine, DOOR_HOLD_TICKS,
};

fn cabin(floor: i32, capacity: usize, floors: i32) -> Fahrkabine {
    Fahrkabine::new(1, floor, capacity, floors).unwrap()
}

#[test]
fn new_cabin_is_idle_closed_and_empty() {
    let c = cabin(2, 3, 5);
    assert_eq!(c.id(), 1);
    assert_eq!(c.current_floor(), 2);
    assert_eq!(c.num_floors(), 5);
    assert_eq!(c.max_passengers(), 3);
    assert_eq!(c.state(), ElevatorState::Idle);
    assert_eq!(c.door(), Door { state: DoorState::Closed, obstructed: false, timer: 0 });
    assert!(c.passengers().is_empty());
    assert!(c.targets().is_empty());
    assert_eq!(c.heading(), 2);
    assert_eq!(c.next_target(), None);
    assert!(!c.is_full());
}

#[test]
fn new_refuses_malformed_parameters() {
    assert_eq!(Fahrkabine::new(0, 0, 0, 5).err(), Some(ElevatorError::InvalidConfig));
    assert_eq!(Fahrkabine::new(0, 0, 1, 0).err(), Some(ElevatorError::InvalidConfig));
    assert_eq!(Fahrkabine::new(0, 0, 1, -3).err(), Some(ElevatorError::InvalidConfig));
    assert_eq!(Fahrkabine::new(0, 5, 1, 5).err(), Some(ElevatorError::InvalidFloor));
    assert_eq!(Fahrkabine::new(0, -1, 1, 5).err(), Some(ElevatorError::InvalidFloor));
    assert!(Fahrkabine::new(0, 4, 1, 5).is_ok());
}

#[test]
fn move_to_arrives_and_stops() {
    let mut c = cabin(0, 2, 6);
    assert_eq!(c.move_to(4), Ok(()));
    assert_eq!(c.current_floor(), 4);
    assert_eq!(c.state(), ElevatorState::Stopped);
    assert_eq!(c.door().state, DoorState::Closed);
    assert_eq!(c.move_to(1), Ok(()));
    assert_eq!(c.current_floor(), 1);
    assert_eq!(c.state(), ElevatorState::Stopped);
}

#[test]
fn move_to_rejects_floors_outside_the_building() {
    let mut c = cabin(0, 2, 6);
    assert_eq!(c.move_to(6), Err(ElevatorError::InvalidFloor));
    assert_eq!(c.move_to(-1), Err(ElevatorError::InvalidFloor));
    assert_eq!(c.current_floor(), 0);
    assert_eq!(c.state(), ElevatorState::Idle);
}

#[test]
fn move_to_current_floor_changes_nothing() {
    let mut c = cabin(3, 2, 6);
    assert_eq!(c.move_to(3), Ok(()));
    assert_eq!(c.current_floor(), 3);
    assert_eq!(c.state(), ElevatorState::Idle);
}

#[test]
fn move_to_removes_the_target_from_the_queue() {
    let mut c = cabin(0, 2, 6);
    c.enqueue_target(4).unwrap();
    c.enqueue_target(2).unwrap();
    assert_eq!(c.targets(), &vec![4, 2]);
    assert_eq!(c.next_target(), Some(4));
    assert_eq!(c.move_to(4), Ok(()));
    assert_eq!(c.targets(), &vec![2]);
    assert!(!c.targets().contains(&c.current_floor()));
}

#[test]
fn cabin_with_open_door_does_not_move() {
    let mut c = cabin(0, 2, 6);
    c.hold().unwrap();
    c.open_door().unwrap();
    assert_eq!(c.move_to(3), Err(ElevatorError::InvalidState));
    assert_eq!(c.start_move(3), Err(ElevatorError::InvalidState));
    assert_eq!(c.current_floor(), 0);
    assert_eq!(c.door().state, DoorState::Open);
}

#[test]
fn single_steps_reach_the_heading() {
    let mut c = cabin(1, 2, 6);
    assert_eq!(c.start_move(4), Ok(()));
    assert_eq!(c.state(), ElevatorState::Moving);
    assert_eq!(c.heading(), 4);
    assert_eq!(c.current_floor(), 1);
    assert!(!c.step());
    assert_eq!(c.current_floor(), 2);
    assert_eq!(c.state(), ElevatorState::Moving);
    assert!(!c.step());
    assert_eq!(c.current_floor(), 3);
    assert!(c.step());
    assert_eq!(c.current_floor(), 4);
    assert_eq!(c.state(), ElevatorState::Stopped);
    assert!(!c.step());
    assert_eq!(c.current_floor(), 4);
}

#[test]
fn moving_cabin_refuses_moves_holds_and_doors() {
    let mut c = cabin(5, 2, 6);
    c.start_move(0).unwrap();
    assert_eq!(c.move_to(3), Err(ElevatorError::InvalidState));
    assert_eq!(c.hold(), Err(ElevatorError::InvalidState));
    assert_eq!(c.open_door(), Err(ElevatorError::InvalidState));
    assert_eq!(c.attend(5), Err(ElevatorError::InvalidState));
    c.step();
    assert_eq!(c.current_floor(), 4);
}

#[test]
fn door_opens_only_when_stopped() {
    let mut c = cabin(0, 2, 3);
    assert_eq!(c.open_door(), Err(ElevatorError::InvalidState));
    assert_eq!(c.door().state, DoorState::Closed);
    c.move_to(2).unwrap();
    assert_eq!(c.open_door(), Ok(()));
    assert_eq!(c.door().state, DoorState::Open);
    assert_eq!(c.door().timer, DOOR_HOLD_TICKS);
    assert_eq!(c.state(), ElevatorState::Stopped);
}

#[test]
fn close_door_returns_the_cabin_to_idle() {
    let mut c = cabin(0, 2, 3);
    assert_eq!(c.close_door(), Err(ElevatorError::InvalidState));
    c.attend(0).unwrap();
    assert_eq!(c.state(), ElevatorState::Stopped);
    c.open_door().unwrap();
    assert_eq!(c.close_door(), Ok(()));
    assert_eq!(c.door(), Door { state: DoorState::Closed, obstructed: false, timer: 0 });
    assert_eq!(c.state(), ElevatorState::Idle);
}

#[test]
fn obstructed_door_stays_open() {
    let mut c = cabin(0, 2, 3);
    c.hold().unwrap();
    c.open_door().unwrap();
    c.set_obstruction(true);
    assert_eq!(c.close_door(), Err(ElevatorError::InvalidState));
    assert_eq!(c.door().state, DoorState::Open);
    assert!(!c.tick_door());
    assert_eq!(c.door().timer, DOOR_HOLD_TICKS);
    c.set_obstruction(false);
    assert_eq!(c.close_door(), Ok(()));
    assert_eq!(c.door().state, DoorState::Closed);
}

#[test]
fn door_timer_runs_down_and_restarts_on_boarding() {
    let mut c = cabin(0, 2, 3);
    c.hold().unwrap();
    c.open_door().unwrap();
    assert_eq!(c.door().timer, 3);
    assert!(!c.tick_door());
    assert_eq!(c.door().timer, 2);
    c.add_passenger(9).unwrap();
    assert_eq!(c.door().timer, 3);
    assert!(!c.tick_door());
    assert!(!c.tick_door());
    c.remove_passenger(9);
    assert_eq!(c.door().timer, 3);
    assert!(!c.tick_door());
    assert!(!c.tick_door());
    assert!(c.tick_door());
    assert_eq!(c.door().timer, 0);
    assert!(c.tick_door());
}

#[test]
fn add_passenger_is_rejected_when_full() {
    let mut c = cabin(0, 2, 3);
    assert_eq!(c.add_passenger(10), Ok(()));
    assert_eq!(c.add_passenger(11), Ok(()));
    assert!(c.is_full());
    assert_eq!(c.add_passenger(12), Err(ElevatorError::CapacityExceeded));
    assert_eq!(c.passengers(), &vec![10, 11]);
}

#[test]
fn add_passenger_keeps_a_passenger_once() {
    let mut c = cabin(0, 3, 3);
    assert_eq!(c.add_passenger(10), Ok(()));
    assert_eq!(c.add_passenger(10), Ok(()));
    assert_eq!(c.passengers(), &vec![10]);
}

#[test]
fn remove_passenger_keeps_the_order_of_the_rest() {
    let mut c = cabin(0, 3, 3);
    c.add_passenger(1).unwrap();
    c.add_passenger(2).unwrap();
    c.add_passenger(3).unwrap();
    assert!(c.remove_passenger(2));
    assert_eq!(c.passengers(), &vec![1, 3]);
    assert!(!c.remove_passenger(2));
    assert_eq!(c.passengers(), &vec![1, 3]);
}

#[test]
fn enqueue_keeps_first_come_order_without_duplicates() {
    let mut c = cabin(0, 3, 6);
    assert_eq!(c.enqueue_target(3), Ok(()));
    assert_eq!(c.enqueue_target(1), Ok(()));
    assert_eq!(c.enqueue_target(3), Ok(()));
    assert_eq!(c.targets(), &vec![3, 1]);
    assert_eq!(c.enqueue_target(6), Err(ElevatorError::InvalidFloor));
    assert_eq!(c.enqueue_target(-1), Err(ElevatorError::InvalidFloor));
    assert_eq!(c.targets(), &vec![3, 1]);
    assert!(c.serves(3));
    assert!(c.serves(1));
    assert!(!c.serves(2));
}

#[test]
fn call_at_the_current_floor_is_pending_not_queued() {
    let mut c = cabin(2, 3, 6);
    assert!(!c.serves(2));
    assert_eq!(c.enqueue_target(2), Ok(()));
    assert!(c.targets().is_empty());
    assert!(c.serves(2));
    assert_eq!(c.next_target(), Some(2));
    c.attend(2).unwrap();
    c.open_door().unwrap();
    assert!(c.serves(2));
    c.close_door().unwrap();
    assert!(!c.serves(2));
    assert_eq!(c.next_target(), None);
}

#[test]
fn pending_call_joins_the_queue_when_the_cabin_leaves() {
    let mut c = cabin(2, 3, 6);
    c.enqueue_target(2).unwrap();
    c.enqueue_target(4).unwrap();
    c.start_move(4).unwrap();
    assert_eq!(c.targets(), &vec![2]);
    assert_eq!(c.enqueue_target(4), Ok(()));
    assert_eq!(c.targets(), &vec![2]);
    assert!(c.serves(4));
}

#[test]
fn cost_is_twice_the_distance_plus_one_when_busy() {
    let mut c = cabin(0, 1, 10);
    assert_eq!(cabin_cost(&c, 3), Some(6));
    assert_eq!(cabin_cost(&c, 0), Some(0));
    c.hold().unwrap();
    assert_eq!(cabin_cost(&c, 3), Some(7));
    c.open_door().unwrap();
    c.close_door().unwrap();
    c.start_move(5).unwrap();
    assert_eq!(cabin_cost(&c, 3), Some(7));
    assert_eq!(cabin_cost(&c, 0), None);
    c.step();
    c.step();
    c.step();
    assert_eq!(c.current_floor(), 3);
    assert_eq!(cabin_cost(&c, 3), None);
    assert_eq!(cabin_cost(&c, 2), None);
    assert_eq!(cabin_cost(&c, 9), Some(13));
}

#[test]
fn full_cabin_is_not_sent() {
    let mut c = cabin(0, 1, 10);
    c.add_passenger(1).unwrap();
    assert_eq!(cabin_cost(&c, 3), None);
    c.remove_passenger(1);
    assert_eq!(cabin_cost(&c, 3), Some(6));
}

fn successes(capacity: usize, ids: &[i32]) -> (usize, Vec<i32>) {
    let mut c = cabin(0, capacity, 2);
    let mut ok = 0;
    for id in ids {
        if c.add_passenger(*id).is_ok() {
            ok += 1;
        }
        assert!(c.passengers().len() <= c.max_passengers());
    }
    (ok, c.passengers().clone())
}

#[test]
fn as_many_board_as_there_is_room_in_any_order() {
    let orders: [[i32; 5]; 4] =
        [[1, 2, 3, 4, 5], [5, 4, 3, 2, 1], [3, 1, 5, 2, 4], [2, 5, 1, 4, 3]];
    for order in orders.iter() {
        for capacity in 1..8usize {
            let (ok, inside) = successes(capacity, order);
            assert_eq!(ok, capacity.min(5));
            assert_eq!(inside, order[..capacity.min(5)].to_vec());
        }
    }
}

#[test]
fn replanning_puts_a_floor_at_the_head_of_the_queue() {
    let mut c = cabin(0, 3, 8);
    c.enqueue_target(5).unwrap();
    c.enqueue_target(2).unwrap();
    c.enqueue_target(7).unwrap();
    assert_eq!(c.prepend_target(2), Ok(()));
    assert_eq!(c.targets(), &vec![2, 5, 7]);
    assert_eq!(c.prepend_target(3), Ok(()));
    assert_eq!(c.targets(), &vec![3, 2, 5, 7]);
    assert_eq!(c.next_target(), Some(3));
    assert_eq!(c.prepend_target(8), Err(ElevatorError::InvalidFloor));
    assert_eq!(c.prepend_target(-1), Err(ElevatorError::InvalidFloor));
    assert_eq!(c.targets(), &vec![3, 2, 5, 7]);
    assert_eq!(c.prepend_target(0), Ok(()));
    assert_eq!(c.targets(), &vec![3, 2, 5, 7]);
    assert_eq!(c.next_target(), Some(0));
    assert!(c.serves(0));
}

#[test]
fn replanning_leaves_the_heading_of_a_moving_cabin() {
    let mut c = cabin(0, 3, 8);
    c.enqueue_target(5).unwrap();
    c.enqueue_target(2).unwrap();
    c.start_move(5).unwrap();
    assert_eq!(c.prepend_target(5), Ok(()));
    assert_eq!(c.targets(), &vec![2]);
    assert_eq!(c.heading(), 5);
    assert_eq!(c.prepend_target(0), Ok(()));
    assert_eq!(c.targets(), &vec![0, 2]);
}
