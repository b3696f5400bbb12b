use webhook_ingest::pool::{
    pool_error, Admission, Pool, PoolConfig, PoolError, Refusal, Release,
};

fn pool_of(max_size: usize) -> Pool {
    Pool::new(&PoolConfig { max_size, connection_timeout_ms: 5_000 })
}

#[test]
fn a_new_pool_is_idle() {
    let pool = pool_of(3);
    assert_eq!(pool.max_size(), 3);
    assert_eq!(pool.in_use(), 0);
    assert_eq!(pool.waiting(), 0);
    assert_eq!(pool.holder(0), None);
    assert_eq!(pool.holder(2), None);
    assert_eq!(pool.holder(3), None);
}

#[test]
fn slots_are_granted_lowest_first() {
    let mut pool = pool_of(3);
    assert_eq!(pool.acquire(10), Admission::Granted { handle: 0 });
    assert_eq!(pool.acquire(11), Admission::Granted { handle: 1 });
    assert_eq!(pool.acquire(12), Admission::Granted { handle: 2 });
    assert_eq!(pool.in_use(), 3);
    assert_eq!(pool.release(1), Release::Idle);
    assert_eq!(pool.in_use(), 2);
    assert_eq!(pool.holder(1), None);
    assert_eq!(pool.acquire(13), Admission::Granted { handle: 1 });
    assert_eq!(pool.holder(0), Some(10));
    assert_eq!(pool.holder(1), Some(13));
    assert_eq!(pool.holder(2), Some(12));
}

#[test]
fn second_request_waits_for_the_single_connection() {
    let mut pool = pool_of(1);
    assert_eq!(pool.acquire(1), Admission::Granted { handle: 0 });
    assert_eq!(pool.acquire(2), Admission::Queued);
    assert_eq!(pool.holder(0), Some(1));
    assert_eq!(pool.in_use(), 1);
    assert_eq!(pool.waiting(), 1);
    assert_eq!(pool.release(0), Release::Handed { request: 2 });
    assert_eq!(pool.holder(0), Some(2));
    assert_eq!(pool.in_use(), 1);
    assert_eq!(pool.waiting(), 0);
    assert_eq!(pool.release(0), Release::Idle);
    assert_eq!(pool.in_use(), 0);
}

#[test]
fn waiters_are_served_oldest_first() {
    let mut pool = pool_of(2);
    assert_eq!(pool.acquire(1), Admission::Granted { handle: 0 });
    assert_eq!(pool.acquire(2), Admission::Granted { handle: 1 });
    assert_eq!(pool.acquire(3), Admission::Queued);
    assert_eq!(pool.acquire(4), Admission::Queued);
    assert_eq!(pool.acquire(5), Admission::Queued);
    assert_eq!(pool.waiting(), 3);
    assert_eq!(pool.release(1), Release::Handed { request: 3 });
    assert_eq!(pool.release(0), Release::Handed { request: 4 });
    assert_eq!(pool.release(0), Release::Handed { request: 5 });
    assert_eq!(pool.release(0), Release::Idle);
    assert_eq!(pool.holder(1), Some(3));
    assert_eq!(pool.waiting(), 0);
}

#[test]
fn a_waiter_whose_time_ran_out_leaves_the_queue() {
    let mut pool = pool_of(1);
    assert_eq!(pool.acquire(1), Admission::Granted { handle: 0 });
    assert_eq!(pool.acquire(2), Admission::Queued);
    assert_eq!(pool.acquire(3), Admission::Queued);
    assert_eq!(pool.expire(2), Some(PoolError::Timeout));
    assert_eq!(pool.expire(2), None);
    assert_eq!(pool.expire(1), None);
    assert_eq!(pool.expire(9), None);
    assert_eq!(pool.waiting(), 1);
    assert_eq!(pool.release(0), Release::Handed { request: 3 });
    assert_eq!(pool.holder(0), Some(3));
}

#[test]
fn a_request_is_admitted_once() {
    let mut pool = pool_of(2);
    assert_eq!(pool.acquire(1), Admission::Granted { handle: 0 });
    assert_eq!(pool.acquire(1), Admission::AlreadyAdmitted);
    assert_eq!(pool.in_use(), 1);
    assert_eq!(pool.acquire(2), Admission::Granted { handle: 1 });
    assert_eq!(pool.acquire(3), Admission::Queued);
    assert_eq!(pool.acquire(3), Admission::AlreadyAdmitted);
    assert_eq!(pool.waiting(), 1);
}

#[test]
fn releasing_what_is_not_held_changes_nothing() {
    let mut pool = pool_of(2);
    assert_eq!(pool.release(0), Release::NotHeld);
    assert_eq!(pool.release(2), Release::NotHeld);
    assert_eq!(pool.acquire(1), Admission::Granted { handle: 0 });
    assert_eq!(pool.release(1), Release::NotHeld);
    assert_eq!(pool.release(usize::MAX), Release::NotHeld);
    assert_eq!(pool.holder(0), Some(1));
    assert_eq!(pool.in_use(), 1);
}

#[test]
fn a_pool_without_slots_queues_everyone() {
    let mut pool = pool_of(0);
    assert_eq!(pool.acquire(1), Admission::Queued);
    assert_eq!(pool.acquire(2), Admission::Queued);
    assert_eq!(pool.release(0), Release::NotHeld);
    assert_eq!(pool.expire(1), Some(PoolError::Timeout));
    assert_eq!(pool.waiting(), 1);
}

#[test]
fn refusals_are_told_apart() {
    assert_eq!(pool_error(Refusal::TimedOut), PoolError::Timeout);
    assert_eq!(pool_error(Refusal::Backend), PoolError::BackendUnavailable);
    assert_eq!(pool_error(Refusal::Closed), PoolError::BackendUnavailable);
    assert_eq!(pool_error(Refusal::NoRuntime), PoolError::BackendUnavailable);
    assert_eq!(pool_error(Refusal::Hook), PoolError::BackendUnavailable);
}
