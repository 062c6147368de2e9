use rust_server::pool::{PoolError, ThreadPool, WorkerAction, WorkerState};
use std::cell::{Cell, RefCell};
use std::rc::Rc;

type Job = Box<dyn FnOnce()>;

/// Runs every worker, round robin, until each has taken its sentinel. A
/// worker that is told to wait is skipped this round.
fn drive_to_end(pool: &mut ThreadPool<Job>) {
    let n = pool.size();
    let mut steps = 0;
    loop {
        let mut live = 0;
        for w in 0..n {
            if pool.worker_state(w) == Some(WorkerState::Terminated) {
                continue;
            }
            live += 1;
            match pool.take_action(w) {
                Ok(WorkerAction::Run(job)) => {
                    job();
                    assert_eq!(pool.job_done(w), Ok(()));
                }
                Ok(WorkerAction::Wait) => {}
                Ok(WorkerAction::Exit) => {}
                Err(e) => panic!("unexpected refusal {:?}", e),
            }
        }
        if live == 0 {
            break;
        }
        steps += 1;
        assert!(steps < 10_000, "shutdown did not finish");
    }
}

fn join_all(pool: &mut ThreadPool<Job>) {
    for w in 0..pool.size() {
        assert_eq!(pool.join_worker(w), Ok(()));
    }
}

#[test]
fn four_workers_hundred_jobs_from_ten_submitters() {
    let counter = Rc::new(Cell::new(0u32));
    let mut pool: ThreadPool<Job> = ThreadPool::new(4);
    for _round in 0..10 {
        for _submitter in 0..10 {
            let c = counter.clone();
            assert_eq!(pool.execute(Box::new(move || c.set(c.get() + 1))), Ok(()));
        }
        // let some work happen while submitters are still going
        for w in 0..4 {
            if let Ok(WorkerAction::Run(job)) = pool.take_action(w) {
                job();
                assert_eq!(pool.job_done(w), Ok(()));
            }
        }
    }
    assert_eq!(pool.shutdown(), Ok(()));
    drive_to_end(&mut pool);
    join_all(&mut pool);
    assert!(pool.is_shut_down());
    assert_eq!(counter.get(), 100);
    assert_eq!(pool.pending(), 0);
}

#[test]
fn single_worker_runs_jobs_in_order() {
    let log = Rc::new(RefCell::new(Vec::<&'static str>::new()));
    let mut pool: ThreadPool<Job> = ThreadPool::new(1);
    let la = log.clone();
    let lb = log.clone();
    assert_eq!(pool.execute(Box::new(move || la.borrow_mut().push("A"))), Ok(()));
    assert_eq!(pool.execute(Box::new(move || lb.borrow_mut().push("B"))), Ok(()));

    let a = match pool.take_action(0) {
        Ok(WorkerAction::Run(job)) => job,
        _ => panic!("the first job must be handed out first"),
    };
    // while A runs, the only worker cannot start B
    assert!(matches!(pool.take_action(0), Err(PoolError::WorkerBusy)));
    assert_eq!(pool.pending(), 1);
    a();
    log.borrow_mut().push("A done");
    assert_eq!(pool.job_done(0), Ok(()));
    match pool.take_action(0) {
        Ok(WorkerAction::Run(job)) => job(),
        _ => panic!("B must follow A"),
    }
    assert_eq!(pool.job_done(0), Ok(()));
    assert_eq!(*log.borrow(), vec!["A", "A done", "B"]);
}

#[test]
fn zero_size_pool_is_refused() {
    assert!(matches!(ThreadPool::<Job>::try_new(0), Err(PoolError::ZeroSize)));
    let pool = ThreadPool::<Job>::try_new(3).ok().unwrap();
    assert_eq!(pool.size(), 3);
    for w in 0..3 {
        assert_eq!(pool.worker_state(w), Some(WorkerState::Idle));
    }
    assert_eq!(pool.worker_state(3), None);
}

#[test]
fn submit_after_shutdown_is_refused() {
    let ran = Rc::new(Cell::new(false));
    let mut pool: ThreadPool<Job> = ThreadPool::new(2);
    assert_eq!(pool.shutdown(), Ok(()));
    assert!(pool.is_shutting_down());
    let pending = pool.pending();
    let r = ran.clone();
    assert_eq!(pool.execute(Box::new(move || r.set(true))), Err(PoolError::ShuttingDown));
    assert_eq!(pool.pending(), pending);
    assert_eq!(pool.shutdown(), Err(PoolError::ShuttingDown));
    assert_eq!(pool.pending(), 2);
    drive_to_end(&mut pool);
    assert!(!ran.get());
}

#[test]
fn every_job_runs_exactly_once() {
    for n in 1..6usize {
        for k in [0usize, 1, 7, 23] {
            let seen = Rc::new(RefCell::new(Vec::<usize>::new()));
            let mut pool: ThreadPool<Job> = ThreadPool::new(n);
            for id in 0..k {
                let s = seen.clone();
                assert_eq!(pool.execute(Box::new(move || s.borrow_mut().push(id))), Ok(()));
            }
            assert_eq!(pool.shutdown(), Ok(()));
            drive_to_end(&mut pool);
            join_all(&mut pool);
            let mut got = seen.borrow().clone();
            got.sort();
            assert_eq!(got, (0..k).collect::<Vec<_>>());
        }
    }
}

#[test]
fn jobs_before_shutdown_are_taken_before_any_sentinel() {
    let mut pool: ThreadPool<Job> = ThreadPool::new(3);
    for _ in 0..5 {
        assert_eq!(pool.execute(Box::new(|| {})), Ok(()));
    }
    assert_eq!(pool.shutdown(), Ok(()));
    assert_eq!(pool.pending(), 8);
    // worker 0 takes and finishes all five jobs; no sentinel comes out before them
    for _ in 0..5 {
        match pool.take_action(0) {
            Ok(WorkerAction::Run(job)) => job(),
            _ => panic!("a job was queued ahead of the sentinels"),
        }
        assert_eq!(pool.job_done(0), Ok(()));
    }
    for w in 0..3 {
        assert!(matches!(pool.take_action(w), Ok(WorkerAction::Exit)));
        assert_eq!(pool.worker_state(w), Some(WorkerState::Terminated));
    }
    assert_eq!(pool.pending(), 0);
}

#[test]
fn each_worker_takes_exactly_one_sentinel() {
    let mut pool: ThreadPool<Job> = ThreadPool::new(2);
    assert_eq!(pool.shutdown(), Ok(()));
    assert!(matches!(pool.take_action(1), Ok(WorkerAction::Exit)));
    assert!(matches!(pool.take_action(1), Err(PoolError::WorkerTerminated)));
    assert_eq!(pool.pending(), 1);
    assert!(matches!(pool.take_action(0), Ok(WorkerAction::Exit)));
    assert_eq!(pool.pending(), 0);
}

#[test]
fn shutdown_waits_for_a_running_job() {
    let mut pool: ThreadPool<Job> = ThreadPool::new(2);
    assert_eq!(pool.execute(Box::new(|| {})), Ok(()));
    let job = match pool.take_action(0) {
        Ok(WorkerAction::Run(job)) => job,
        _ => panic!("the job must be handed out"),
    };
    assert_eq!(pool.shutdown(), Ok(()));
    assert!(matches!(pool.take_action(1), Ok(WorkerAction::Exit)));
    assert_eq!(pool.join_worker(1), Ok(()));
    assert_eq!(pool.join_worker(1), Err(PoolError::AlreadyJoined));
    // worker 0 is still running its job: it cannot be joined yet
    assert_eq!(pool.join_worker(0), Err(PoolError::NotTerminated));
    assert!(!pool.is_shut_down());
    job();
    assert_eq!(pool.job_done(0), Ok(()));
    assert!(matches!(pool.take_action(0), Ok(WorkerAction::Exit)));
    assert_eq!(pool.join_worker(0), Ok(()));
    assert!(pool.is_shut_down());
}

#[test]
fn idle_worker_waits_on_empty_queue() {
    let mut pool: ThreadPool<Job> = ThreadPool::new(1);
    assert!(matches!(pool.take_action(0), Ok(WorkerAction::Wait)));
    assert_eq!(pool.worker_state(0), Some(WorkerState::Idle));
    assert_eq!(pool.pending(), 0);
}

#[test]
fn unknown_or_idle_workers_are_refused() {
    let mut pool: ThreadPool<Job> = ThreadPool::new(2);
    assert!(matches!(pool.take_action(2), Err(PoolError::NoSuchWorker)));
    assert_eq!(pool.job_done(2), Err(PoolError::NoSuchWorker));
    assert_eq!(pool.join_worker(2), Err(PoolError::NoSuchWorker));
    assert_eq!(pool.job_done(0), Err(PoolError::WorkerNotBusy));
    assert_eq!(pool.join_worker(0), Err(PoolError::NotTerminated));
}
