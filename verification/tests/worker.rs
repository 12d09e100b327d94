use std::time::{Duration, Instant};

use stabping::data::{ToWire, NAN_BITS};
use stabping::manager::{Feed, IndexFile, Manager};
use stabping::workers::tcpping::{
    assemble, probe_reading, resolve_targets, timestamp_of, ProbeTimer, Round, WorkerAction,
    WorkerEvent, WorkerState,
};
use stabping::workers::{Kind, Options};

fn manager_with(addrs: Vec<&str>, options: Options) -> Manager {
    let index = IndexFile::from_addrs(addrs.into_iter().map(|a| a.to_string()).collect()).unwrap();
    let kind = Kind::new("tcpping".to_string(), "example.com:80".to_string(), 5000);
    Manager::new(kind, index, Some(options), vec![Feed::Raw]).0
}

#[test]
fn timestamp_keeps_the_low_32_bits() {
    assert_eq!(timestamp_of(0), 0);
    assert_eq!(timestamp_of(1_500_000_000), 1_500_000_000);
    assert_eq!(timestamp_of(4_294_967_295), 4_294_967_295);
    assert_eq!(timestamp_of(4_294_967_296), 0);
    assert_eq!(timestamp_of(4_294_967_296 + 5), 5);
    assert_eq!(timestamp_of(-1), u32::MAX);
    assert_eq!(timestamp_of(i64::MIN), 0);
}

#[test]
fn probe_reading_counts_tenths_of_microseconds() {
    assert_eq!(probe_reading(1_000, 1_001_234, true), Some(10_002));
    assert_eq!(probe_reading(1_000, 1_099, true), Some(0));
    assert_eq!(probe_reading(1_000, 1_100, true), Some(1));
    assert_eq!(probe_reading(0, 12_345_678, true), Some(123_456));
    assert_eq!(probe_reading(5, 5, true), Some(0));
    assert_eq!(probe_reading(0, u64::MAX, true), Some(u64::MAX / 100));
}

#[test]
fn probe_reading_of_failed_connection_is_none() {
    assert_eq!(probe_reading(1_000, 1_001_234, false), None);
    assert_eq!(probe_reading(0, 0, false), None);
}

#[test]
fn probe_reading_of_backward_clock_is_zero() {
    assert_eq!(probe_reading(2_000, 1_000, true), Some(0));
}

#[test]
fn probe_timer_measures_elapsed_time() {
    let timer = ProbeTimer::start();
    let begun = Instant::now();
    while begun.elapsed() < Duration::from_millis(3) {
        std::hint::spin_loop();
    }
    let ticks = timer.finish(true).unwrap();
    // at least 3 ms, and far less than a minute, in units of 100 ns
    assert!(ticks >= 30_000);
    assert!(ticks < 600_000_000);
    assert_eq!(timer.finish(false), None);
}

#[test]
fn resolve_targets_looks_each_id_up() {
    let manager = manager_with(vec!["a:1", "b:2"], Options::new(vec![1, 0, 5], 100));
    let targets = resolve_targets(&manager);
    assert_eq!(targets.len(), 3);
    assert_eq!(targets[0].addr_i, 1);
    assert_eq!(targets[0].addr.as_deref(), Some("b:2"));
    assert_eq!(targets[1].addr_i, 0);
    assert_eq!(targets[1].addr.as_deref(), Some("a:1"));
    assert_eq!(targets[2].addr_i, 5);
    assert_eq!(targets[2].addr, None);
}

#[test]
fn assemble_uses_sentinel_for_missing_reports() {
    let round = Round { timestamp: 9, dispatched: vec![4, 2, 6] };
    let package = assemble(&round, &vec![Some(1.5f32.to_bits()), None]);
    assert_eq!(package.len(), 3);
    assert_eq!(package.get(0).unwrap().index, 2);
    assert_eq!(package.get(0).unwrap().val, NAN_BITS);
    assert_eq!(package.get(1).unwrap().index, 4);
    assert_eq!(package.get(1).unwrap().val, 1.5f32.to_bits());
    assert_eq!(package.get(2).unwrap().index, 6);
    assert_eq!(package.get(2).unwrap().val, NAN_BITS);
    for i in 0..3 {
        assert_eq!(package.get(i).unwrap().time, 9);
    }
}

#[test]
fn assemble_keeps_first_report_of_repeated_address() {
    let round = Round { timestamp: 1, dispatched: vec![3, 3, 1] };
    let reports = vec![Some(10.0f32.to_bits()), Some(20.0f32.to_bits()), Some(5.0f32.to_bits())];
    let package = assemble(&round, &reports);
    assert_eq!(package.len(), 2);
    assert_eq!(package.find(3).unwrap().val, 10.0f32.to_bits());
    assert_eq!(package.find(1).unwrap().val, 5.0f32.to_bits());
}

#[test]
fn worker_round_with_one_unreachable_address() {
    let manager = manager_with(
        vec!["reachable.example:80", "unreachable.example:81"],
        Options::new(vec![0, 1], 250),
    );
    let state = WorkerState::new();
    assert!(matches!(state, WorkerState::FanOut));

    let (state, action) = state.step(WorkerEvent::RoundDue { now: 1_700_000_000 }, &manager);
    match action {
        WorkerAction::Launch { interval, targets } => {
            assert_eq!(interval, 250);
            assert_eq!(targets.len(), 2);
            assert_eq!(targets[0].addr_i, 0);
            assert_eq!(targets[0].addr.as_deref(), Some("reachable.example:80"));
            assert_eq!(targets[1].addr_i, 1);
            assert_eq!(targets[1].addr.as_deref(), Some("unreachable.example:81"));
        }
        _ => panic!("expected a launch"),
    }
    match &state {
        WorkerState::AwaitInterval(round) => {
            assert_eq!(round.timestamp, 1_700_000_000);
            assert_eq!(round.dispatched, vec![0, 1]);
        }
        _ => panic!("expected to await the interval"),
    }

    let (state, action) = state.step(WorkerEvent::IntervalElapsed, &manager);
    assert!(matches!(action, WorkerAction::Collect { count: 2 }));
    assert!(matches!(state, WorkerState::FanIn(_)));

    let reports = vec![Some(12.5f32.to_bits()), Some(f32::NAN.to_bits())];
    let (state, action) = state.step(WorkerEvent::Results(reports), &manager);
    assert!(matches!(state, WorkerState::Emit));
    let package = match action {
        WorkerAction::Forward(package) => package,
        _ => panic!("expected a round to forward"),
    };
    assert_eq!(package.len(), 2);
    let reachable = package.find(0).unwrap();
    let unreachable = package.find(1).unwrap();
    assert_eq!(f32::from_bits(reachable.val), 12.5);
    assert!(f32::from_bits(unreachable.val).is_nan());
    assert_eq!(reachable.time, 1_700_000_000);
    assert_eq!(unreachable.time, 1_700_000_000);

    // the round can be sent, and stored as two records of twelve bytes
    let mut wire = Vec::new();
    assert_eq!(package.to_wire(&mut wire), Ok(()));
    assert_eq!(wire.len(), 8);
    let chunks = manager.append_package(&package).unwrap();
    assert_eq!(chunks.iter().map(|c| c.len()).sum::<usize>(), 2 * 12);

    let (state, action) = state.step(WorkerEvent::Forwarded(true), &manager);
    assert!(matches!(action, WorkerAction::Proceed));
    assert!(matches!(state, WorkerState::FanOut));
}

#[test]
fn worker_goes_on_after_a_lost_round() {
    let manager = manager_with(vec!["a:1"], Options::new(vec![0], 10));
    let (state, _) = WorkerState::new().step(WorkerEvent::RoundDue { now: 5 }, &manager);
    let (state, _) = state.step(WorkerEvent::IntervalElapsed, &manager);
    let (state, _) = state.step(WorkerEvent::Results(vec![None]), &manager);
    let (state, action) = state.step(WorkerEvent::Forwarded(false), &manager);
    assert!(matches!(action, WorkerAction::ReportLost));
    assert!(matches!(state, WorkerState::FanOut));
    let (state, action) = state.step(WorkerEvent::RoundDue { now: 6 }, &manager);
    assert!(matches!(action, WorkerAction::Launch { .. }));
    assert!(matches!(state, WorkerState::AwaitInterval(_)));
}

#[test]
fn worker_ignores_events_it_does_not_wait_for() {
    let manager = manager_with(vec!["a:1"], Options::new(vec![0], 10));
    let (state, action) = WorkerState::new().step(WorkerEvent::IntervalElapsed, &manager);
    assert!(matches!(action, WorkerAction::Ignore));
    assert!(matches!(state, WorkerState::FanOut));
    let (state, action) = state.step(WorkerEvent::Forwarded(true), &manager);
    assert!(matches!(action, WorkerAction::Ignore));
    assert!(matches!(state, WorkerState::FanOut));

    let (state, _) = state.step(WorkerEvent::RoundDue { now: 77 }, &manager);
    let (state, action) = state.step(WorkerEvent::Results(vec![Some(1)]), &manager);
    assert!(matches!(action, WorkerAction::Ignore));
    match &state {
        WorkerState::AwaitInterval(round) => {
            assert_eq!(round.timestamp, 77);
            assert_eq!(round.dispatched, vec![0]);
        }
        _ => panic!("state should not have changed"),
    }
    let (state, _) = state.step(WorkerEvent::IntervalElapsed, &manager);
    let (state, action) = state.step(WorkerEvent::RoundDue { now: 78 }, &manager);
    assert!(matches!(action, WorkerAction::Ignore));
    assert!(matches!(state, WorkerState::FanIn(_)));
    let (state, _) = state.step(WorkerEvent::Results(vec![Some(1)]), &manager);
    let (state, action) = state.step(WorkerEvent::IntervalElapsed, &manager);
    assert!(matches!(action, WorkerAction::Ignore));
    assert!(matches!(state, WorkerState::Emit));
}

#[test]
fn round_observes_one_options_snapshot() {
    let mut manager = manager_with(vec!["a:1", "b:2"], Options::new(vec![1], 10));
    let (state, _) = WorkerState::new().step(WorkerEvent::RoundDue { now: 1 }, &manager);
    // options change while the round is in flight
    manager.options_update(Options::new(vec![0, 1], 999)).unwrap();
    let (state, action) = state.step(WorkerEvent::IntervalElapsed, &manager);
    assert!(matches!(action, WorkerAction::Collect { count: 1 }));
    let (_, action) = state.step(WorkerEvent::Results(vec![Some(7)]), &manager);
    match action {
        WorkerAction::Forward(package) => {
            assert_eq!(package.len(), 1);
            assert_eq!(package.get(0).unwrap().index, 1);
        }
        _ => panic!("expected a round to forward"),
    }
}
