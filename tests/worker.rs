use s3_copy_fanout::count::per_worker;
use s3_copy_fanout::source::parse_source;
use s3_copy_fanout::worker::{Phase, Worker, WorkerAction, WorkerEvent};
use std::collections::HashSet;

fn copy(source: &str, destination: &str) -> WorkerAction {
    WorkerAction::Copy { source: source.to_string(), destination: destination.to_string() }
}

#[test]
fn worker_scenario_two_copies_each() {
    let src = parse_source("s3://mybucket/images/pic.jpg").ok().unwrap();
    let share = per_worker(4, 2);
    assert_eq!(share, 2);
    let mut w = Worker::new(share);
    assert_eq!(w.step(&src, WorkerEvent::Start, 11), copy("images/pic.jpg", "images/new_json_11"));
    assert_eq!(w.step(&src, WorkerEvent::CopySucceeded, 22), copy("images/pic.jpg", "images/new_json_22"));
    assert_eq!(w.step(&src, WorkerEvent::CopySucceeded, 33), WorkerAction::Finish);
    assert_eq!(w.completed, 2);
    assert_eq!(w.phase, Phase::Finished);
}

#[test]
fn worker_scenario_no_prefix() {
    let src = parse_source("s3://mybucket/pic.jpg").ok().unwrap();
    let mut w = Worker::new(per_worker(1, 1));
    assert_eq!(w.step(&src, WorkerEvent::Start, 5), copy("pic.jpg", "new_json_5"));
    assert_eq!(w.step(&src, WorkerEvent::CopySucceeded, 6), WorkerAction::Finish);
}

#[test]
fn worker_with_no_share_finishes_at_once() {
    let src = parse_source("s3://b/k").ok().unwrap();
    let mut w = Worker::new(per_worker(3, 4));
    assert_eq!(w.step(&src, WorkerEvent::Start, 1), WorkerAction::Finish);
    assert_eq!(w.completed, 0);
}

#[test]
fn worker_stops_on_failure() {
    let src = parse_source("s3://b/dir/k").ok().unwrap();
    let mut w = Worker::new(5);
    assert!(matches!(w.step(&src, WorkerEvent::Start, 1), WorkerAction::Copy { .. }));
    assert!(matches!(w.step(&src, WorkerEvent::CopySucceeded, 2), WorkerAction::Copy { .. }));
    assert_eq!(w.step(&src, WorkerEvent::CopyFailed, 3), WorkerAction::Abort);
    assert_eq!(w.completed, 1);
    assert_eq!(w.phase, Phase::Failed);
    assert!(!w.accepts(WorkerEvent::Start));
    assert!(!w.accepts(WorkerEvent::CopySucceeded));
    assert!(!w.accepts(WorkerEvent::CopyFailed));
}

#[test]
fn worker_accepts_only_expected_events() {
    let w = Worker::new(1);
    assert!(w.accepts(WorkerEvent::Start));
    assert!(!w.accepts(WorkerEvent::CopySucceeded));
    assert!(!w.accepts(WorkerEvent::CopyFailed));
}

#[test]
fn total_copies_drop_remainder() {
    let src = parse_source("s3://b/a/b/c").ok().unwrap();
    let workers: usize = 4;
    let mut total = 0;
    for _ in 0..workers {
        let mut w = Worker::new(per_worker(10, workers));
        let mut event = WorkerEvent::Start;
        loop {
            match w.advance(&src, event) {
                WorkerAction::Copy { .. } => event = WorkerEvent::CopySucceeded,
                WorkerAction::Finish => break,
                WorkerAction::Abort => panic!("no copy failed"),
            }
        }
        total += w.completed;
    }
    assert_eq!(total, 8);
}

#[test]
fn generated_destinations_are_distinct_and_well_formed() {
    let src = parse_source("s3://b/a/b/c").ok().unwrap();
    let n: usize = 200;
    let mut w = Worker::new(n);
    let mut event = WorkerEvent::Start;
    let mut seen = HashSet::new();
    loop {
        match w.advance(&src, event) {
            WorkerAction::Copy { source, destination } => {
                assert_eq!(source, "a/b/c");
                let digits = destination.strip_prefix("a/b/new_json_").unwrap();
                assert!(!digits.is_empty() && digits.len() <= 39);
                assert!(digits.chars().all(|c| c.is_ascii_digit()));
                assert!(digits == "0" || !digits.starts_with('0'));
                assert!(digits.parse::<u128>().is_ok());
                assert!(seen.insert(destination));
                event = WorkerEvent::CopySucceeded;
            }
            WorkerAction::Finish => break,
            WorkerAction::Abort => panic!("no copy failed"),
        }
    }
    assert_eq!(seen.len(), n);
}
