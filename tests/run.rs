use aco_tsp::ant::Ant;
use aco_tsp::parameters::{
    default_max_iterations, default_num_ants, default_num_runs, default_time_limit, Algorithm,
};
use aco_tsp::result_log::ResultLog;
use aco_tsp::runner::{check_termination, RestartTracker};
use std::time::Duration;

fn ant_of_length(length: u32) -> Ant {
    let mut a = Ant::new_on_city(3, 0);
    a.insert(1, length);
    a
}

#[test]
fn log_tracks_best() {
    let mut log = ResultLog::new(10);
    let lengths = [50, 40, 45, 30, 30, 35];
    for (i, &l) in lengths.iter().enumerate() {
        log.push(ant_of_length(l), i + 1, Duration::from_millis(i as u64));
        assert_eq!(log.latest_tour().length, l);
    }
    assert_eq!(log.log.len(), 6);
    let flags: Vec<bool> = log.log.iter().map(|e| e.is_new_best).collect();
    assert_eq!(flags, vec![true, true, false, true, false, false]);
    assert_eq!(log.best_so_far, 3);
    assert_eq!(log.best_length(), 30);
    assert_eq!(log.best_tour().length, 30);
    assert_eq!(log.best_timestamped().iteration, 4);
    assert_eq!(log.best_timestamped().timestamp, Duration::from_millis(3));
    assert_eq!(log.log[2].length(), 45);
}

#[test]
fn log_best_never_grows() {
    let mut log = ResultLog::new(0);
    let mut previous = u32::MAX;
    let mut last_new_best = u32::MAX;
    for (i, &l) in [9u32, 12, 7, 7, 3, 20, 1].iter().enumerate() {
        log.push(ant_of_length(l), i, Duration::from_secs(0));
        assert!(log.best_length() <= previous);
        previous = log.best_length();
        let entry = &log.log[log.log.len() - 1];
        if entry.is_new_best {
            assert!(entry.length() < last_new_best);
            last_new_best = entry.length();
        }
    }
    assert_eq!(log.log.len(), 7);
    assert_eq!(log.best_length(), 1);
}

#[test]
fn termination() {
    assert!(check_termination(0, 0, 0, usize::MAX));
    assert!(check_termination(0, 100, 0, 0));
    assert!(!check_termination(3, 5, 2, 10));
    assert!(check_termination(5, 5, 2, 10));
    assert!(check_termination(3, 5, 10, 10));
    assert!(!check_termination(0, default_max_iterations(), 1_000_000, default_time_limit()));
}

#[test]
fn restart_after_stagnation() {
    let mut tracker = RestartTracker::new();
    assert_eq!(tracker.restart_iter, 1);
    assert!(!tracker.new_iteration(1));
    tracker.record(&ant_of_length(40), 1);
    assert_eq!(tracker.restart_iter, 1);
    for it in 2..151 {
        assert!(!tracker.new_iteration(it));
        tracker.record(&ant_of_length(40), it);
        assert_eq!(tracker.restart_iter, 1);
    }
    assert!(tracker.new_iteration(151));
    assert!(tracker.restart_ant.is_none());
    assert_eq!(tracker.restart_iter, 151);
    tracker.record(&ant_of_length(50), 151);
    assert_eq!(tracker.restart_ant.as_ref().unwrap().length, 50);
}

#[test]
fn restart_ant_improves() {
    let mut tracker = RestartTracker::new();
    tracker.record(&ant_of_length(40), 3);
    tracker.record(&ant_of_length(30), 7);
    assert_eq!(tracker.restart_iter, 7);
    assert_eq!(tracker.restart_ant.as_ref().unwrap().length, 30);
    assert_eq!(tracker.restart_ant.as_ref().unwrap().tour_cities(), vec![0, 1]);
}

#[test]
fn reinforcing_ant() {
    let this_iter = ant_of_length(5);
    let so_far = ant_of_length(4);
    let mut tracker = RestartTracker::new();
    assert_eq!(tracker.ant_to_reinforce(26, &this_iter, &so_far).length, 5);
    assert_eq!(tracker.ant_to_reinforce(25, &this_iter, &so_far).length, 4);
    tracker.record(&ant_of_length(6), 20);
    assert_eq!(tracker.ant_to_reinforce(50, &this_iter, &so_far).length, 6);
    assert_eq!(tracker.ant_to_reinforce(51, &this_iter, &so_far).length, 5);
}

#[test]
fn defaults() {
    assert_eq!(default_num_ants(), 280);
    assert_eq!(default_max_iterations(), usize::MAX);
    assert_eq!(default_time_limit(), usize::MAX);
    assert_eq!(default_num_runs(), 1);
    assert_eq!(Algorithm::default(), Algorithm::ACS);
}
