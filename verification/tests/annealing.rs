use tictacrs::annealing::{
    default_exploration_schedule, default_learning_schedule, exploration_rate_function,
    learning_rate_function, Schedule, INITIAL_EXPLORATION_RATE, INITIAL_LEARNING_RATE,
};

#[test]
fn rate_at_iteration_zero_is_the_initial_rate() {
    assert_eq!(learning_rate_function(INITIAL_LEARNING_RATE, 0), INITIAL_LEARNING_RATE);
    assert_eq!(
        exploration_rate_function(INITIAL_EXPLORATION_RATE, 0),
        INITIAL_EXPLORATION_RATE
    );
}

#[test]
fn learning_rate_steps_down_every_twenty_iterations() {
    // Nine tenths of the initial rate after one full step, exactly.
    assert_eq!(learning_rate_function(750_000, 19), 750_000);
    assert_eq!(learning_rate_function(750_000, 20), 675_000);
    assert_eq!(learning_rate_function(750_000, 40), 607_500);
}

#[test]
fn exploration_rate_steps_down_every_ten_iterations() {
    assert_eq!(exploration_rate_function(200_000, 9), 200_000);
    assert_eq!(exploration_rate_function(200_000, 10), 180_000);
    assert_eq!(exploration_rate_function(200_000, 20), 162_000);
}

#[test]
fn rates_never_increase_with_iteration() {
    let mut last = learning_rate_function(INITIAL_LEARNING_RATE, 0);
    for it in 1..120u32 {
        let next = learning_rate_function(INITIAL_LEARNING_RATE, it);
        assert!(next <= last);
        last = next;
    }
    let mut last = exploration_rate_function(INITIAL_EXPLORATION_RATE, 0);
    for it in 1..120u32 {
        let next = exploration_rate_function(INITIAL_EXPLORATION_RATE, it);
        assert!(next <= last);
        last = next;
    }
}

#[test]
fn schedules_are_swappable_values() {
    let fast = Schedule { decay: 500_000, step_size: 1 };
    assert_eq!(fast.rate(800_000, 0), 800_000);
    assert_eq!(fast.rate(800_000, 1), 400_000);
    assert_eq!(fast.rate(800_000, 2), 200_000);
    assert_eq!(default_learning_schedule().step_size, 20);
    assert_eq!(default_exploration_schedule().step_size, 10);
}
