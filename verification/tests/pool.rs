use mini_httpd::thread_pool::{PoolError, Step, ThreadPool, Worker, WorkerState};

fn run_all(pool: &mut ThreadPool<u32>, done: &mut Vec<u32>) {
    let size = pool.size();
    let mut running: Vec<Option<u32>> = vec![None; size];
    loop {
        let mut moved = false;
        for w in 0..size {
            match pool.state_of(w) {
                WorkerState::Idle => match pool.next_job(w) {
                    Step::Run(job) => {
                        running[w] = Some(job);
                        moved = true;
                    }
                    Step::Exit => {
                        moved = true;
                    }
                    Step::Wait => {}
                },
                WorkerState::Busy => {
                    done.push(running[w].take().unwrap());
                    pool.job_done(w);
                    moved = true;
                }
                WorkerState::Exited => {}
            }
        }
        if !moved {
            break;
        }
    }
}

#[test]
fn pool_without_workers_is_refused() {
    let r: Result<ThreadPool<u32>, PoolError> = ThreadPool::new(0);
    assert_eq!(r.err(), Some(PoolError::ConfigError));
}

#[test]
fn new_pool_is_open_and_idle() {
    let pool: ThreadPool<u32> = ThreadPool::new(3).ok().unwrap();
    assert_eq!(pool.size(), 3);
    assert!(pool.is_open());
    assert_eq!(pool.pending(), 0);
    assert!(!pool.is_joined());
    for w in 0..3 {
        assert_eq!(pool.state_of(w), WorkerState::Idle);
    }
}

#[test]
fn new_worker_is_idle() {
    let w = Worker::new(4);
    assert_eq!(w.id, 4);
    assert_eq!(w.state, WorkerState::Idle);
}

#[test]
fn every_job_runs_once_whatever_the_size() {
    for size in [1usize, 2, 5, 16] {
        for jobs in [0u32, 1, 4, 100] {
            let mut pool: ThreadPool<u32> = ThreadPool::new(size).ok().unwrap();
            for j in 0..jobs {
                assert_eq!(pool.exec(j), Ok(()));
            }
            assert_eq!(pool.pending(), jobs as usize);
            pool.close();
            let mut done = Vec::new();
            run_all(&mut pool, &mut done);
            assert!(pool.is_joined());
            assert_eq!(pool.pending(), 0);
            done.sort();
            let all: Vec<u32> = (0..jobs).collect();
            assert_eq!(done, all);
        }
    }
}

#[test]
fn jobs_start_in_the_order_of_submission() {
    let mut pool: ThreadPool<u32> = ThreadPool::new(2).ok().unwrap();
    for j in [7u32, 3, 9] {
        pool.exec(j).unwrap();
    }
    assert!(matches!(pool.next_job(1), Step::Run(7)));
    assert!(matches!(pool.next_job(0), Step::Run(3)));
    assert_eq!(pool.state_of(0), WorkerState::Busy);
    assert_eq!(pool.state_of(1), WorkerState::Busy);
    assert_eq!(pool.pending(), 1);
    pool.job_done(1);
    assert_eq!(pool.state_of(1), WorkerState::Idle);
    assert!(matches!(pool.next_job(1), Step::Run(9)));
    assert_eq!(pool.pending(), 0);
}

#[test]
fn idle_worker_waits_while_submission_is_open() {
    let mut pool: ThreadPool<u32> = ThreadPool::new(1).ok().unwrap();
    assert!(matches!(pool.next_job(0), Step::Wait));
    assert_eq!(pool.state_of(0), WorkerState::Idle);
    pool.exec(1).unwrap();
    assert!(matches!(pool.next_job(0), Step::Run(1)));
}

#[test]
fn submitting_after_close_fails() {
    let mut pool: ThreadPool<u32> = ThreadPool::new(2).ok().unwrap();
    pool.exec(1).unwrap();
    pool.close();
    assert!(!pool.is_open());
    assert_eq!(pool.exec(2), Err(PoolError::PoolClosed));
    assert_eq!(pool.pending(), 1);
    pool.close();
    assert_eq!(pool.exec(3), Err(PoolError::PoolClosed));
    assert_eq!(pool.pending(), 1);
}

#[test]
fn shutdown_waits_for_accepted_jobs() {
    let mut pool: ThreadPool<u32> = ThreadPool::new(2).ok().unwrap();
    pool.exec(10).unwrap();
    pool.exec(11).unwrap();
    pool.exec(12).unwrap();
    assert!(matches!(pool.next_job(0), Step::Run(10)));
    pool.close();
    assert!(!pool.is_joined());
    assert!(matches!(pool.next_job(1), Step::Run(11)));
    pool.job_done(1);
    assert!(matches!(pool.next_job(1), Step::Run(12)));
    pool.job_done(1);
    assert!(matches!(pool.next_job(1), Step::Exit));
    assert_eq!(pool.state_of(1), WorkerState::Exited);
    assert!(!pool.is_joined());
    pool.job_done(0);
    assert!(!pool.is_joined());
    assert!(matches!(pool.next_job(0), Step::Exit));
    assert!(pool.is_joined());
}

#[test]
fn one_worker_runs_jobs_one_after_another() {
    let mut pool: ThreadPool<u32> = ThreadPool::new(1).ok().unwrap();
    pool.exec(1).unwrap();
    pool.exec(2).unwrap();
    assert!(matches!(pool.next_job(0), Step::Run(1)));
    assert_eq!(pool.state_of(0), WorkerState::Busy);
    assert_eq!(pool.pending(), 1);
    pool.job_done(0);
    assert!(matches!(pool.next_job(0), Step::Run(2)));
    pool.job_done(0);
    pool.close();
    assert!(matches!(pool.next_job(0), Step::Exit));
    assert!(pool.is_joined());
}
