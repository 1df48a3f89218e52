use ruueb::pool::{PoolError, ThreadPool, WorkerState};

#[test]
fn new_then_shutdown_stops_all_workers() {
    let mut p = ThreadPool::new(3);
    p.begin_shutdown();
    for w in 0..3 {
        assert!(p.take_job(w).is_none());
    }
    for w in 0..3 {
        assert!(matches!(p.workers[w], WorkerState::Stopped));
    }
    assert_eq!(p.executed.len(), 0);
}

#[test]
fn law_function_stops_every_worker() {
    let p = ruueb::pool::shutdown_after_new_stops_all_workers(5);
    assert_eq!(p.workers.len(), 5);
    for w in 0..5 {
        assert!(matches!(p.workers[w], WorkerState::Stopped));
    }
}

#[test]
fn more_jobs_than_workers_each_runs_exactly_once() {
    let mut p = ThreadPool::new(2);
    for id in 1..=5u64 {
        assert!(p.execute(id).is_ok());
    }
    // Two workers alternate at the queue until it is drained.
    loop {
        let mut took = false;
        for w in 0..2 {
            if matches!(p.workers[w], WorkerState::Idle) && !p.queue.is_empty() {
                let got = p.take_job(w);
                assert!(got.is_some());
                p.finish_job(w);
                took = true;
            }
        }
        if !took {
            break;
        }
    }
    assert_eq!(p.executed.len(), 5);
    let mut seen = p.executed.clone();
    seen.sort();
    assert_eq!(seen, vec![1, 2, 3, 4, 5]);
    assert_eq!(p.submitted.len(), 5);
}

#[test]
fn jobs_are_taken_in_submission_order() {
    let mut p = ThreadPool::new(1);
    assert!(p.execute(10).is_ok());
    assert!(p.execute(20).is_ok());
    assert!(p.execute(30).is_ok());
    assert_eq!(p.take_job(0), Some(10));
    p.finish_job(0);
    assert_eq!(p.take_job(0), Some(20));
    p.finish_job(0);
    assert_eq!(p.take_job(0), Some(30));
    p.finish_job(0);
    assert_eq!(p.executed, vec![10, 20, 30]);
}

#[test]
fn submit_after_shutdown_is_refused() {
    let mut p = ThreadPool::new(2);
    assert!(p.execute(1).is_ok());
    p.begin_shutdown();
    assert_eq!(p.execute(2), Err(PoolError::ShutDown));
    assert_eq!(p.submitted, vec![1]);
}

#[test]
fn shutdown_does_not_drop_a_running_job() {
    let mut p = ThreadPool::new(2);
    assert!(p.execute(7).is_ok());
    assert_eq!(p.take_job(0), Some(7));
    p.begin_shutdown();
    // The worker runs its job to completion before it can stop.
    assert!(matches!(p.workers[0], WorkerState::Running(7)));
    p.finish_job(0);
    assert_eq!(p.executed, vec![7]);
    assert!(p.take_job(0).is_none());
    assert!(p.take_job(1).is_none());
    assert!(matches!(p.workers[0], WorkerState::Stopped));
    assert!(matches!(p.workers[1], WorkerState::Stopped));
}
