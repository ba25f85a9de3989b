use elevator::{
    build_simulation, debug_passenger_states, destination_from_draw, init_simulation,
    run_simulation, Controller, DoorState, ElevatorError, ElevatorState, Fahrkabine, Passagier,
    PassengerState,
};

fn check_invariants(c: &Controller) {
    for e in c.elevators() {
        assert!(e.passengers().len() <= e.max_passengers());
        if e.door().state == DoorState::Open {
            assert_eq!(e.state(), ElevatorState::Stopped);
        }
        if e.state() != ElevatorState::Moving {
            assert!(!e.targets().contains(&e.current_floor()));
        }
        let mut seen = e.passengers().clone();
        seen.sort();
        seen.dedup();
        assert_eq!(seen.len(), e.passengers().len());
    }
}

#[test]
fn single_passenger_arrives_within_seven_cycles() {
    let mut c = build_simulation(1, 2, 1, &vec![0], &vec![1]).unwrap();
    let mut cycles = 0;
    while !c.all_exited() {
        c.cycle();
        check_invariants(&c);
        cycles += 1;
        assert!(cycles <= 7);
    }
    assert_eq!(cycles, 7);
    let p = c.passengers()[0];
    assert_eq!(p.state, PassengerState::Exiting);
    assert_eq!(p.current_floor, 1);
    assert_eq!(c.elevators()[0].current_floor(), 1);
    assert!(c.elevators()[0].passengers().is_empty());
}

#[test]
fn single_passenger_arrives_when_the_cabin_starts_elsewhere() {
    let cabin = Fahrkabine::new(0, 1, 1, 2).unwrap();
    let mut c = Controller::new(vec![cabin]).unwrap();
    c.add_passenger(Passagier::new(0, 0, 1)).unwrap();
    assert_eq!(run_simulation(&mut c), Ok(()));
    assert_eq!(c.passengers()[0].state, PassengerState::Exiting);
    assert_eq!(c.passengers()[0].current_floor, 1);
}

#[test]
fn capacity_one_takes_two_passengers_one_after_the_other() {
    let mut c = build_simulation(1, 2, 1, &vec![0, 0], &vec![1, 1]).unwrap();
    c.cycle();
    c.cycle();
    c.cycle();
    assert_eq!(c.passengers()[0].state, PassengerState::Riding);
    assert_eq!(c.passengers()[1].state, PassengerState::Waiting);
    assert_eq!(c.elevators()[0].passengers(), &vec![0]);
    assert!(!c.elevators()[0].passengers().contains(&1));
    assert_eq!(run_simulation(&mut c), Ok(()));
    assert!(c.all_exited());
    assert!(c.stuck_passengers().is_empty());
}

#[test]
fn many_passengers_and_cabins_all_arrive() {
    let origins = vec![0, 3, 5, 5, 2, 7, 1, 6, 4, 0, 7, 3];
    let destinations = vec![7, 0, 1, 2, 6, 0, 4, 6, 3, 5, 1, 3];
    let mut c = build_simulation(3, 8, 2, &origins, &destinations).unwrap();
    let mut cycles = 0;
    while !c.all_exited() && cycles < 1000 {
        c.cycle();
        check_invariants(&c);
        cycles += 1;
    }
    assert!(c.all_exited());
    for (i, p) in c.passengers().iter().enumerate() {
        assert_eq!(p.current_floor, destinations[i]);
    }
    for e in c.elevators() {
        assert!(e.passengers().is_empty());
    }
    assert!(c.pending().is_empty());
}

#[test]
fn impatient_run_reports_who_is_stuck() {
    let mut c = build_simulation(1, 2, 2, &vec![0, 1], &vec![1, 0]).unwrap();
    c.set_patience(8);
    assert_eq!(c.patience(), 8);
    assert_eq!(run_simulation(&mut c), Err(ElevatorError::RequestTimeout));
    assert_eq!(c.stuck_passengers(), vec![1]);
    assert_eq!(c.passengers()[0].state, PassengerState::Exiting);
    assert_eq!(c.passengers()[1].state, PassengerState::Riding);
    assert!(!c.all_exited());
    c.set_patience(100);
    assert_eq!(run_simulation(&mut c), Ok(()));
    assert!(c.stuck_passengers().is_empty());
}

#[test]
fn run_without_patience_does_nothing() {
    let mut c = build_simulation(1, 2, 1, &vec![0], &vec![1]).unwrap();
    c.set_patience(0);
    assert_eq!(run_simulation(&mut c), Err(ElevatorError::RequestTimeout));
    assert_eq!(c.passengers()[0], Passagier::new(0, 0, 1));
    assert!(c.pending().is_empty());
}

#[test]
fn run_without_passengers_ends_at_once() {
    let mut c = build_simulation(2, 3, 1, &vec![], &vec![]).unwrap();
    assert_eq!(run_simulation(&mut c), Ok(()));
    assert_eq!(c.elevators()[0].state(), ElevatorState::Idle);
}

#[test]
fn setup_numbers_cabins_and_passengers_from_zero() {
    let c = build_simulation(2, 4, 3, &vec![1, 2, 3], &vec![0, 0, 1]).unwrap();
    assert_eq!(c.num_floors(), 4);
    assert_eq!(c.elevators().len(), 2);
    for (i, e) in c.elevators().iter().enumerate() {
        assert_eq!(e.id(), i as i32);
        assert_eq!(e.current_floor(), 0);
        assert_eq!(e.max_passengers(), 3);
        assert_eq!(e.num_floors(), 4);
        assert_eq!(e.state(), ElevatorState::Idle);
    }
    assert_eq!(
        debug_passenger_states(&c),
        vec![
            (0, 1, 0, PassengerState::Waiting),
            (1, 2, 0, PassengerState::Waiting),
            (2, 3, 1, PassengerState::Waiting)
        ]
    );
}

#[test]
fn setup_refuses_malformed_parameters() {
    let ok = vec![0, 1];
    assert_eq!(build_simulation(0, 2, 1, &ok, &ok).err(), Some(ElevatorError::InvalidConfig));
    assert_eq!(build_simulation(1, 0, 1, &ok, &ok).err(), Some(ElevatorError::InvalidConfig));
    assert_eq!(build_simulation(1, 2, 0, &ok, &ok).err(), Some(ElevatorError::InvalidConfig));
    assert_eq!(build_simulation(1, 2, 1, &ok, &vec![0]).err(), Some(ElevatorError::InvalidConfig));
    assert_eq!(build_simulation(1, 2, 1, &vec![0, 2], &ok).err(), Some(ElevatorError::InvalidFloor));
    assert_eq!(build_simulation(1, 2, 1, &ok, &vec![-1, 0]).err(), Some(ElevatorError::InvalidFloor));
    assert_eq!(
        init_simulation(1, 2, 7, 1, Some(vec![0, 1]), Some(vec![1])).err(),
        Some(ElevatorError::InvalidConfig)
    );
    assert_eq!(
        init_simulation(1, 2, 7, 1, Some(vec![0, 3]), Some(vec![1, 1])).err(),
        Some(ElevatorError::InvalidFloor)
    );
    assert_eq!(
        init_simulation(1, 2, 3, 1, None, Some(vec![1, 1])).err(),
        Some(ElevatorError::InvalidConfig)
    );
    assert_eq!(init_simulation(1, 1, 3, 1, None, None).err(), Some(ElevatorError::InvalidConfig));
    assert_eq!(init_simulation(1, 1, 3, 1, Some(vec![0]), None).err(), Some(ElevatorError::InvalidConfig));
    assert_eq!(init_simulation(1, 3, 3, 1, Some(vec![3]), None).err(), Some(ElevatorError::InvalidFloor));
    assert!(init_simulation(1, 1, 0, 1, None, None).is_ok());
    assert!(init_simulation(1, 1, 3, 1, None, Some(vec![0, 0, 0])).is_ok());
}

#[test]
fn drawn_floors_lie_in_the_building_and_differ() {
    for round in 0..40 {
        let floors = 2 + (round % 5);
        let c = init_simulation(2, floors, 9, 2, None, None).unwrap();
        assert_eq!(c.passengers().len(), 9);
        for (i, p) in c.passengers().iter().enumerate() {
            assert_eq!(p.id, i as i32);
            assert!(0 <= p.current_floor && p.current_floor < floors);
            assert!(0 <= p.destination_floor && p.destination_floor < floors);
            assert_ne!(p.current_floor, p.destination_floor);
            assert_eq!(p.state, PassengerState::Waiting);
        }
    }
}

#[test]
fn drawn_destinations_for_given_origins() {
    let origins = vec![0, 1, 2, 2, 1, 0];
    for _ in 0..40 {
        let c = init_simulation(1, 3, 0, 2, Some(origins.clone()), None).unwrap();
        assert_eq!(c.passengers().len(), 6);
        for (i, p) in c.passengers().iter().enumerate() {
            assert_eq!(p.current_floor, origins[i]);
            assert!(0 <= p.destination_floor && p.destination_floor < 3);
            assert_ne!(p.destination_floor, origins[i]);
        }
    }
}

#[test]
fn drawn_simulation_runs_to_the_end() {
    let mut c = init_simulation(2, 6, 10, 3, None, None).unwrap();
    assert_eq!(run_simulation(&mut c), Ok(()));
    for p in debug_passenger_states(&c) {
        assert_eq!(p.3, PassengerState::Exiting);
        assert_eq!(p.1, p.2);
    }
}

#[test]
fn destination_skips_the_origin() {
    assert_eq!(destination_from_draw(2, 0, 5), Some(0));
    assert_eq!(destination_from_draw(2, 1, 5), Some(1));
    assert_eq!(destination_from_draw(2, 2, 5), Some(3));
    assert_eq!(destination_from_draw(2, 3, 5), Some(4));
    assert_eq!(destination_from_draw(0, 0, 2), Some(1));
    assert_eq!(destination_from_draw(1, 0, 2), Some(0));
    assert_eq!(destination_from_draw(4, 3, 5), Some(3));
    assert_eq!(destination_from_draw(2, 4, 5), None);
    assert_eq!(destination_from_draw(5, 0, 5), None);
    assert_eq!(destination_from_draw(-1, 0, 5), None);
    assert_eq!(destination_from_draw(0, 0, 1), None);
}

#[test]
fn lone_passenger_arrives_after_the_way_and_six_cycles() {
    for floors in 1..6 {
        for origin in 0..floors {
            for destination in 0..floors {
                for capacity in 1..3usize {
                    let mut c =
                        build_simulation(1, floors, capacity, &vec![origin], &vec![destination])
                            .unwrap();
                    let mut cycles = 0;
                    while !c.all_exited() {
                        c.cycle();
                        check_invariants(&c);
                        cycles += 1;
                        assert!(cycles <= 6 + origin + (origin - destination).abs());
                    }
                    if origin == destination {
                        assert_eq!(cycles, 3 + origin);
                    } else {
                        assert_eq!(cycles, 6 + origin + (origin - destination).abs());
                    }
                    assert_eq!(c.passengers()[0].current_floor, destination);
                    assert_eq!(c.passengers()[0].state, PassengerState::Exiting);

                    let mut again =
                        build_simulation(1, floors, capacity, &vec![origin], &vec![destination])
                            .unwrap();
                    again.set_patience((6 + origin + (origin - destination).abs()) as u32);
                    assert_eq!(run_simulation(&mut again), Ok(()));
                }
            }
        }
    }
}

#[test]
fn arrived_passengers_stay_arrived() {
    let mut c = build_simulation(2, 5, 1, &vec![0, 0, 4], &vec![3, 1, 0]).unwrap();
    let mut arrived: Vec<bool> = vec![false; 3];
    let mut cycles = 0;
    while !c.all_exited() && cycles < 200 {
        c.cycle();
        cycles += 1;
        for (j, p) in c.passengers().iter().enumerate() {
            assert_eq!(p.id, j as i32);
            if arrived[j] {
                assert_eq!(p.state, PassengerState::Exiting);
                assert_eq!(p.current_floor, p.destination_floor);
            }
            arrived[j] = p.state == PassengerState::Exiting;
        }
    }
    assert!(c.all_exited());
}

#[test]
fn drawn_simulations_of_many_shapes_run_to_the_end() {
    for round in 0..60usize {
        let cabins = 1 + round % 3;
        let floors = 2 + (round % 7) as i32;
        let capacity = 1 + round % 2;
        let mut c = init_simulation(cabins, floors, round, capacity, None, None).unwrap();
        assert_eq!(c.passengers().len(), round);
        let mut cycles = 0;
        while !c.all_exited() {
            c.cycle();
            check_invariants(&c);
            cycles += 1;
            assert!(cycles < 5000);
        }
        assert!(c.pending().is_empty());
        for p in c.passengers() {
            assert_eq!(p.current_floor, p.destination_floor);
        }
        for e in c.elevators() {
            assert!(e.passengers().is_empty());
        }
    }
}
