use rusty_static_server::pool::{worker_ids, worker_step, WorkerStep};

#[test]
fn workers_are_counted_from_zero() {
    assert_eq!(worker_ids(1), vec![0]);
    assert_eq!(worker_ids(4), vec![0, 1, 2, 3]);
}

#[test]
fn a_worker_stops_when_there_are_no_more_jobs() {
    assert_eq!(worker_step(true), WorkerStep::Run);
    assert_eq!(worker_step(false), WorkerStep::Stop);
}
