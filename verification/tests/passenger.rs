use elevator::{
    BoardingPolicy, Controller, Direction, DoorState, ElevatorError, ElevatorState, Fahrkabine,
    Passagier, PassengerState, IN_TRANSIT,
};

fn open_cabin(floor: i32, capacity: usize, floors: i32) -> Fahrkabine {
    let mut c = Fahrkabine::new(0, floor, capacity, floors).unwrap();
    c.attend(floor).unwrap();
    c.open_door().unwrap();
    c
}

#[test]
fn new_passenger_waits_at_the_origin() {
    let p = Passagier::new(4, 2, 0);
    assert_eq!(p.id, 4);
    assert_eq!(p.current_floor, 2);
    assert_eq!(p.origin_floor, 2);
    assert_eq!(p.destination_floor, 0);
    assert_eq!(p.state, PassengerState::Waiting);
    assert_eq!(p.policy, BoardingPolicy::Rejoin);
    assert!(!p.requested);
}

#[test]
fn direction_is_up_only_when_the_destination_is_higher() {
    assert_eq!(Passagier::new(0, 1, 3).direction(), Direction::Up);
    assert_eq!(Passagier::new(0, 3, 1).direction(), Direction::Down);
    assert_eq!(Passagier::new(0, 2, 2).direction(), Direction::Down);
}

#[test]
fn boarding_puts_the_passenger_inside_and_calls_the_destination() {
    let mut c = open_cabin(0, 2, 5);
    let mut p = Passagier::new(7, 0, 3);
    assert_eq!(p.board_elevator(&mut c), Ok(true));
    assert_eq!(p.state, PassengerState::Riding);
    assert_eq!(p.current_floor, IN_TRANSIT);
    assert_eq!(IN_TRANSIT, -1);
    assert_eq!(c.passengers(), &vec![7]);
    assert_eq!(c.targets(), &vec![3]);
}

#[test]
fn passenger_does_not_board_a_closed_or_distant_cabin() {
    let mut closed = Fahrkabine::new(0, 0, 2, 5).unwrap();
    let mut p = Passagier::new(7, 0, 3);
    assert_eq!(p.board_elevator(&mut closed), Ok(false));
    assert_eq!(p.state, PassengerState::Waiting);
    assert!(closed.passengers().is_empty());

    let mut elsewhere = open_cabin(1, 2, 5);
    assert_eq!(p.board_elevator(&mut elsewhere), Ok(false));
    assert_eq!(p.state, PassengerState::Waiting);
    assert!(elsewhere.passengers().is_empty());
    assert!(elsewhere.targets().is_empty());
}

#[test]
fn passenger_with_a_destination_outside_the_building_is_refused() {
    let mut c = open_cabin(0, 2, 3);
    let mut p = Passagier::new(7, 0, 3);
    assert_eq!(p.board_elevator(&mut c), Err(ElevatorError::InvalidFloor));
    assert_eq!(p.state, PassengerState::Waiting);
    assert!(c.passengers().is_empty());
}

#[test]
fn capacity_one_lets_exactly_one_of_two_board() {
    let mut c = Fahrkabine::new(0, 0, 1, 2).unwrap();
    let mut first = Passagier::new(1, 0, 1);
    let mut second = Passagier::new(2, 0, 1);
    c.attend(0).unwrap();
    c.open_door().unwrap();
    assert_eq!(first.board_elevator(&mut c), Ok(true));
    assert_eq!(second.board_elevator(&mut c), Err(ElevatorError::CapacityExceeded));
    assert_eq!(first.state, PassengerState::Riding);
    assert_eq!(second.state, PassengerState::Waiting);
    assert_eq!(second.current_floor, 0);
    assert_eq!(c.passengers(), &vec![1]);
    assert!(!c.passengers().contains(&2));
}

#[test]
fn refused_passenger_follows_the_policy() {
    let mut c = open_cabin(0, 1, 2);
    c.add_passenger(99).unwrap();
    let mut rejoins = Passagier::new(1, 0, 1);
    rejoins.requested = true;
    assert_eq!(rejoins.board_elevator(&mut c), Err(ElevatorError::CapacityExceeded));
    assert_eq!(rejoins.state, PassengerState::Waiting);
    assert!(!rejoins.requested);

    let mut stays = Passagier::new(2, 0, 1).with_policy(BoardingPolicy::WaitAtDoor);
    stays.requested = true;
    assert_eq!(stays.policy, BoardingPolicy::WaitAtDoor);
    assert_eq!(stays.board_elevator(&mut c), Err(ElevatorError::CapacityExceeded));
    assert_eq!(stays.state, PassengerState::Boarding);
    assert!(stays.requested);

    c.remove_passenger(99);
    assert_eq!(stays.board_elevator(&mut c), Ok(true));
    assert_eq!(stays.state, PassengerState::Riding);
    assert_eq!(c.passengers(), &vec![2]);
}

#[test]
fn passenger_leaves_at_the_destination_only() {
    let mut c = open_cabin(0, 2, 3);
    let mut p = Passagier::new(7, 0, 2);
    p.board_elevator(&mut c).unwrap();
    assert!(!p.exit_elevator(&mut c));
    assert_eq!(p.state, PassengerState::Riding);
    c.close_door().unwrap();
    c.move_to(2).unwrap();
    assert!(!p.exit_elevator(&mut c));
    assert_eq!(c.passengers(), &vec![7]);
    c.open_door().unwrap();
    assert!(p.exit_elevator(&mut c));
    assert_eq!(p.state, PassengerState::Exiting);
    assert_eq!(p.current_floor, 2);
    assert!(c.passengers().is_empty());
    assert!(!p.exit_elevator(&mut c));
    assert_eq!(p.board_elevator(&mut c), Ok(false));
    assert_eq!(p.state, PassengerState::Exiting);
}

#[test]
fn passenger_who_is_not_inside_does_not_leave() {
    let mut c = open_cabin(2, 2, 3);
    c.add_passenger(8).unwrap();
    let mut p = Passagier::new(7, 0, 2);
    p.state = PassengerState::Riding;
    assert!(!p.exit_elevator(&mut c));
    assert_eq!(p.state, PassengerState::Riding);
    assert_eq!(c.passengers(), &vec![8]);
}

#[test]
fn passenger_calls_once() {
    let cabin = Fahrkabine::new(0, 0, 1, 4).unwrap();
    let mut controller = Controller::new(vec![cabin]).unwrap();
    let mut p = Passagier::new(3, 2, 0);
    assert_eq!(p.request_elevator(&mut controller), Ok(true));
    assert!(p.requested);
    assert_eq!(controller.pending().len(), 1);
    assert_eq!(controller.pending()[0].floor, 2);
    assert_eq!(controller.pending()[0].direction, Direction::Down);
    assert_eq!(controller.pending()[0].time, 0);
    assert_eq!(p.request_elevator(&mut controller), Ok(false));
    assert_eq!(controller.pending().len(), 1);
}

#[test]
fn call_from_outside_the_building_is_refused() {
    let cabin = Fahrkabine::new(0, 0, 1, 4).unwrap();
    let mut controller = Controller::new(vec![cabin]).unwrap();
    let mut p = Passagier::new(3, 4, 0);
    assert_eq!(p.request_elevator(&mut controller), Err(ElevatorError::InvalidFloor));
    assert!(!p.requested);
    assert!(controller.pending().is_empty());
    let mut riding = Passagier::new(3, 1, 0);
    riding.state = PassengerState::Riding;
    assert_eq!(riding.request_elevator(&mut controller), Ok(false));
    assert!(controller.pending().is_empty());
}

#[test]
fn door_is_open_only_on_a_stopped_cabin() {
    let mut c = Fahrkabine::new(0, 0, 2, 4).unwrap();
    let mut p = Passagier::new(1, 0, 3);
    let check = |c: &Fahrkabine| {
        if c.door().state == DoorState::Open {
            assert_eq!(c.state(), ElevatorState::Stopped);
        }
        assert!(c.passengers().len() <= c.max_passengers());
    };
    check(&c);
    c.attend(0).unwrap();
    check(&c);
    c.open_door().unwrap();
    check(&c);
    p.board_elevator(&mut c).unwrap();
    check(&c);
    c.close_door().unwrap();
    check(&c);
    c.start_move(3).unwrap();
    check(&c);
    while !c.step() {
        check(&c);
    }
    check(&c);
    c.open_door().unwrap();
    check(&c);
    p.exit_elevator(&mut c);
    check(&c);
}
