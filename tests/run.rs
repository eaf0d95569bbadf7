use s3l::run::{Action, Learner, Phase, RecordError};
use s3l::vector::DimensionMismatch;

#[test]
fn every_recorded_step_adds_one_observation() {
    let mut l: Learner<u8> = Learner::new(1, 100, 20);
    assert_eq!(l.history().len(), 0);
    for k in 1..=10usize {
        assert!(l.record(vec![k as u8], 1).is_ok());
        assert_eq!(l.history().len(), k);
    }
}

#[test]
fn bootstrap_then_search() {
    let mut l: Learner<u8> = Learner::new(1, 100, 20);
    assert_eq!(l.phase(), Phase::Bootstrap);
    assert_eq!(l.next_action(), Action::Explore);
    l.record(vec![0], 1).unwrap();
    l.record(vec![0], 1).unwrap();
    assert_eq!(l.next_action(), Action::Explore);
    l.record(vec![0], 1).unwrap();
    assert_eq!(l.phase(), Phase::Searching);
    assert_eq!(l.next_action(), Action::Propose);
}

#[test]
fn bootstrap_score_above_threshold_still_searches_once() {
    let mut l: Learner<u8> = Learner::new(1, 100, 20);
    l.record(vec![0], 150).unwrap();
    l.record(vec![0], 1).unwrap();
    l.record(vec![0], 1).unwrap();
    assert_eq!(l.phase(), Phase::Searching);
    l.record(vec![0], 1).unwrap();
    assert_eq!(l.phase(), Phase::Converged);
    assert_eq!(l.next_action(), Action::Stop { converged: true });
}

#[test]
fn search_converges_at_threshold() {
    let mut l: Learner<u8> = Learner::new(1, 100, 20);
    for _ in 0..3 {
        l.record(vec![0], 1).unwrap();
    }
    l.record(vec![0], 99).unwrap();
    assert_eq!(l.phase(), Phase::Searching);
    l.record(vec![0], 100).unwrap();
    assert_eq!(l.phase(), Phase::Converged);
    assert_eq!(l.record(vec![0], 1), Err(RecordError::Finished));
    assert_eq!(l.history().len(), 5);
}

#[test]
fn search_stops_after_iteration_bound() {
    let mut l: Learner<u8> = Learner::new(1, 100, 2);
    for _ in 0..4 {
        l.record(vec![0], 1).unwrap();
    }
    assert_eq!(l.phase(), Phase::Searching);
    l.record(vec![0], 1).unwrap();
    assert_eq!(l.phase(), Phase::Exhausted);
    assert_eq!(l.next_action(), Action::Stop { converged: false });
    let mut l: Learner<u8> = Learner::new(1, 100, 0);
    for _ in 0..3 {
        l.record(vec![0], 1).unwrap();
    }
    assert_eq!(l.phase(), Phase::Exhausted);
}

#[test]
fn record_refuses_wrong_dimension() {
    let mut l: Learner<u8> = Learner::new(2, 100, 2);
    assert_eq!(
        l.record(vec![0], 1),
        Err(RecordError::Dimension(DimensionMismatch { expected: 2, found: 1 }))
    );
    assert_eq!(l.history().len(), 0);
    assert_eq!(l.phase(), Phase::Bootstrap);
}
