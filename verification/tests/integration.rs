use elevator::passenger::PassengerState;
use elevator::{debug_passenger_states, init_simulation, run_simulation};

#[test]
fn test_all_passengers_exited() {
    const NUM_ELEVATORS: usize = 1;
    const NUM_FLOORS: i32 = 2;
    const NUM_PASSENGERS: usize = 1;
    const MAX_PASSENGERS_PER_CABIN: usize = 2;

    let mut sim_controller = init_simulation(
        NUM_ELEVATORS,
        NUM_FLOORS,
        NUM_PASSENGERS,
        MAX_PASSENGERS_PER_CABIN,
        Option::from(vec![0, 1]),
        Option::from(vec![1, 0]),
    )
    .unwrap();
    let outcome = run_simulation(&mut sim_controller);
    assert!(outcome.is_ok());

    let states = debug_passenger_states(&sim_controller);
    assert_eq!(states.len(), 2);
    for p in states {
        assert_eq!(p.3, PassengerState::Exiting, "passenger not exited");
    }
}
