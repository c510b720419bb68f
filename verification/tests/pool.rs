use std::cell::RefCell;
use std::collections::VecDeque;
use std::rc::Rc;
use webserver::pool::{Teardown, ThreadPool, Worker};
use webserver::worker::{Action, Event, Message, WorkerState};

type Job = Box<dyn FnOnce()>;

/// Spawns every worker of the pool; the handle of worker `id` is `100 + id`.
fn spawn_all(pool: &mut ThreadPool<usize>) -> Vec<usize> {
    let mut ids = Vec::new();
    while let Some(id) = pool.next_id() {
        assert_eq!(pool.add(100 + id), Ok(id));
        ids.push(id);
    }
    ids
}

/// Shuts the pool down: puts the messages to send into the queue and gives
/// back the workers to wait for, with their handles.
fn shut_down(
    pool: &mut ThreadPool<usize>,
    queue: &mut VecDeque<Message<Job>>,
) -> Vec<(usize, usize)> {
    let mut joins = Vec::new();
    for step in pool.shutdown() {
        match step {
            Teardown::Send(message) => {
                assert!(joins.is_empty(), "every message is sent before any thread is waited for");
                queue.push_back(message);
            }
            Teardown::Join(id, thread) => joins.push((id, thread)),
        }
    }
    joins
}

/// Runs the workers over the queue, one turn of one worker after the other,
/// and tells how many messages each worker received. `pick` chooses, from
/// the number of the turn, the worker that moves next.
fn run_workers(
    size: usize,
    queue: &mut VecDeque<Message<Job>>,
    pick: &dyn Fn(usize) -> usize,
) -> Vec<usize> {
    let mut states = vec![WorkerState::start(); size];
    let mut received = vec![0usize; size];
    let mut turn = 0;
    while states.iter().any(|s| *s != WorkerState::Terminated) && !queue.is_empty() {
        let w = pick(turn) % size;
        turn += 1;
        if states[w] != WorkerState::Idle {
            continue;
        }
        let (state, action) = match states[w].step::<Job>(Event::LockTaken) {
            Ok(next) => next,
            Err(_) => panic!("an idle worker takes the lock"),
        };
        assert_eq!(state, WorkerState::Dequeuing);
        assert!(matches!(action, Action::Receive));
        let message = queue.pop_front().unwrap();
        received[w] += 1;
        match state.step(Event::Received(message)) {
            Ok((state, Action::Run(job))) => {
                assert_eq!(state, WorkerState::Running);
                job();
                match state.step::<Job>(Event::JobDone) {
                    Ok((state, Action::TakeLock)) => states[w] = state,
                    _ => panic!("a worker whose job ended asks for the lock"),
                }
            }
            Ok((state, Action::Exit)) => {
                assert_eq!(state, WorkerState::Terminated);
                states[w] = state;
            }
            _ => panic!("a worker that holds the lock receives"),
        }
    }
    assert!(states.iter().all(|s| *s == WorkerState::Terminated));
    received
}

#[test]
fn new_pool_spawns_each_worker_once_in_order() {
    for size in 1..6usize {
        let mut pool: ThreadPool<usize> = ThreadPool::new(size);
        assert_eq!(pool.size(), size);
        assert_eq!(pool.spawned(), 0);
        let ids = spawn_all(&mut pool);
        assert_eq!(ids, (0..size).collect::<Vec<usize>>());
        assert_eq!(pool.spawned(), size);
        assert_eq!(pool.next_id(), None);
    }
}

#[test]
fn full_pool_takes_no_more_workers() {
    let mut pool: ThreadPool<usize> = ThreadPool::new(2);
    spawn_all(&mut pool);
    assert_eq!(pool.add(7), Err(7));
    assert_eq!(pool.spawned(), 2);
    assert_eq!(pool.size(), 2);
}

#[test]
fn worker_holds_its_number_and_handle() {
    let w = Worker::new(3, "handle");
    assert_eq!(w.id, 3);
    assert_eq!(w.thread, Some("handle"));
}

#[test]
fn execute_wraps_the_job() {
    let pool: ThreadPool<usize> = ThreadPool::new(1);
    match pool.execute(41u32) {
        Message::NewJob(job) => assert_eq!(job, 41),
        Message::Terminate => panic!("a job was submitted"),
    }
}

#[test]
fn shutdown_sends_one_terminate_per_worker_and_joins_each_once() {
    for size in 1..6usize {
        let mut pool: ThreadPool<usize> = ThreadPool::new(size);
        spawn_all(&mut pool);
        let plan: Vec<Teardown<u8, usize>> = pool.shutdown();
        assert_eq!(plan.len(), 2 * size);
        for (i, step) in plan.iter().enumerate() {
            if i < size {
                assert!(matches!(step, Teardown::Send(Message::Terminate)));
            } else {
                let id = i - size;
                assert!(matches!(step, Teardown::Join(n, h) if *n == id && *h == 100 + id));
            }
        }
        let again: Vec<Teardown<u8, usize>> = pool.shutdown();
        assert_eq!(again.len(), size);
        assert!(again.iter().all(|step| matches!(step, Teardown::Send(Message::Terminate))));
        assert_eq!(pool.spawned(), size);
    }
}

#[test]
fn pool_that_is_not_full_stops_the_workers_it_has() {
    let mut pool: ThreadPool<usize> = ThreadPool::new(3);
    assert_eq!(pool.add(9), Ok(0));
    let plan: Vec<Teardown<u8, usize>> = pool.shutdown();
    assert_eq!(plan.len(), 2);
    assert!(matches!(plan[0], Teardown::Send(Message::Terminate)));
    assert!(matches!(plan[1], Teardown::Join(0, 9)));
}

#[test]
fn worker_loop_has_four_transitions_and_no_other() {
    let states = [
        WorkerState::Idle,
        WorkerState::Dequeuing,
        WorkerState::Running,
        WorkerState::Terminated,
    ];
    for state in states {
        let r = state.step::<u8>(Event::LockTaken);
        if state == WorkerState::Idle {
            assert!(matches!(r, Ok((WorkerState::Dequeuing, Action::Receive))));
        } else {
            assert!(matches!(r, Err(Event::LockTaken)));
        }
        let r = state.step(Event::Received(Message::NewJob(5u8)));
        if state == WorkerState::Dequeuing {
            assert!(matches!(r, Ok((WorkerState::Running, Action::Run(5)))));
        } else {
            assert!(matches!(r, Err(Event::Received(Message::NewJob(5)))));
        }
        let r = state.step::<u8>(Event::Received(Message::Terminate));
        if state == WorkerState::Dequeuing {
            assert!(matches!(r, Ok((WorkerState::Terminated, Action::Exit))));
        } else {
            assert!(matches!(r, Err(Event::Received(Message::Terminate))));
        }
        let r = state.step::<u8>(Event::JobDone);
        if state == WorkerState::Running {
            assert!(matches!(r, Ok((WorkerState::Idle, Action::TakeLock))));
        } else {
            assert!(matches!(r, Err(Event::JobDone)));
        }
    }
}

#[test]
fn five_jobs_on_two_workers_all_run() {
    let counter = Rc::new(RefCell::new(0u32));
    let mut pool: ThreadPool<usize> = ThreadPool::new(2);
    spawn_all(&mut pool);
    let mut queue: VecDeque<Message<Job>> = VecDeque::new();
    for _ in 0..5 {
        let counter = Rc::clone(&counter);
        let job: Job = Box::new(move || *counter.borrow_mut() += 1);
        queue.push_back(pool.execute(job));
    }
    let joins = shut_down(&mut pool, &mut queue);
    let received = run_workers(2, &mut queue, &|turn| turn);
    assert_eq!(joins, vec![(0, 100), (1, 101)]);
    assert_eq!(*counter.borrow(), 5);
    assert!(queue.is_empty());
    assert_eq!(received.iter().sum::<usize>(), 7);
}

#[test]
fn every_job_runs_once_whatever_the_numbers() {
    for size in 1..5usize {
        for jobs in 0..9usize {
            let log = Rc::new(RefCell::new(Vec::new()));
            let mut pool: ThreadPool<usize> = ThreadPool::new(size);
            spawn_all(&mut pool);
            let mut queue: VecDeque<Message<Job>> = VecDeque::new();
            for n in 0..jobs {
                let log = Rc::clone(&log);
                let job: Job = Box::new(move || log.borrow_mut().push(n));
                queue.push_back(pool.execute(job));
            }
            let joins = shut_down(&mut pool, &mut queue);
            assert_eq!(joins.len(), size);
            run_workers(size, &mut queue, &|turn| turn * 7 + 3);
            let mut ran = log.borrow().clone();
            ran.sort();
            assert_eq!(ran, (0..jobs).collect::<Vec<usize>>());
            assert!(queue.is_empty());
        }
    }
}

#[test]
fn one_worker_runs_the_jobs_in_the_order_of_submission() {
    let log = Rc::new(RefCell::new(Vec::new()));
    let mut pool: ThreadPool<usize> = ThreadPool::new(1);
    spawn_all(&mut pool);
    let mut queue: VecDeque<Message<Job>> = VecDeque::new();
    for name in ["first", "second"] {
        let log = Rc::clone(&log);
        let job: Job = Box::new(move || log.borrow_mut().push(name));
        queue.push_back(pool.execute(job));
    }
    let joins = shut_down(&mut pool, &mut queue);
    run_workers(1, &mut queue, &|_| 0);
    assert_eq!(joins.len(), 1);
    assert_eq!(*log.borrow(), vec!["first", "second"]);
}

#[test]
fn two_workers_log_both_jobs_once() {
    let log = Rc::new(RefCell::new(Vec::new()));
    let mut pool: ThreadPool<usize> = ThreadPool::new(2);
    spawn_all(&mut pool);
    let mut queue: VecDeque<Message<Job>> = VecDeque::new();
    for name in ["first", "second"] {
        let log = Rc::clone(&log);
        let job: Job = Box::new(move || log.borrow_mut().push(name));
        queue.push_back(pool.execute(job));
    }
    let joins = shut_down(&mut pool, &mut queue);
    let received = run_workers(2, &mut queue, &|turn| turn);
    assert_eq!(joins.len(), 2);
    assert_eq!(received, vec![2, 2]);
    let mut names = log.borrow().clone();
    names.sort();
    assert_eq!(names, vec!["first", "second"]);
}

#[test]
fn job_sent_after_the_orders_to_stop_is_left_in_the_queue() {
    let counter = Rc::new(RefCell::new(0u32));
    let mut pool: ThreadPool<usize> = ThreadPool::new(2);
    spawn_all(&mut pool);
    let mut queue: VecDeque<Message<Job>> = VecDeque::new();
    let joins = shut_down(&mut pool, &mut queue);
    assert_eq!(joins.len(), 2);
    let late = Rc::clone(&counter);
    let job: Job = Box::new(move || *late.borrow_mut() += 1);
    queue.push_back(pool.execute(job));
    run_workers(2, &mut queue, &|turn| turn);
    assert_eq!(*counter.borrow(), 0);
    assert_eq!(queue.len(), 1);
}

#[test]
fn job_that_fails_inside_and_returns_leaves_the_worker_in_its_loop() {
    let log = Rc::new(RefCell::new(Vec::new()));
    let mut pool: ThreadPool<usize> = ThreadPool::new(1);
    spawn_all(&mut pool);
    let mut queue: VecDeque<Message<Job>> = VecDeque::new();
    let failing = Rc::clone(&log);
    let job: Job = Box::new(move || {
        let outcome: Result<u32, String> = "not a number".parse::<u32>().map_err(|e| e.to_string());
        match outcome {
            Ok(_) => failing.borrow_mut().push("parsed".to_string()),
            Err(e) => failing.borrow_mut().push(format!("error: {}", e)),
        }
    });
    queue.push_back(pool.execute(job));
    let after = Rc::clone(&log);
    let job: Job = Box::new(move || after.borrow_mut().push("after".to_string()));
    queue.push_back(pool.execute(job));
    let joins = shut_down(&mut pool, &mut queue);
    let received = run_workers(1, &mut queue, &|_| 0);
    assert_eq!(joins, vec![(0, 100)]);
    assert_eq!(received, vec![3]);
    assert_eq!(log.borrow().len(), 2);
    assert!(log.borrow()[0].starts_with("error: "));
    assert_eq!(log.borrow()[1], "after");
}
