//! The bookkeeping of a bounded connection pool.
//!
//! A pool has a fixed number of connection slots. A request is either given a
//! slot at once or put at the end of a queue; a slot that is given back goes
//! to the request that has waited longest. The connections themselves, and
//! the waiting, are the caller's: this module decides who holds what.
use vstd::prelude::*;

verus! {

/// How a pool is set up.
#[derive(Debug, Clone, Copy, PartialEq, Eq)]
pub struct PoolConfig {
    /// The number of connections the pool may hold.
    pub max_size: usize,
    /// How long a request waits for a connection, in milliseconds.
    pub connection_timeout_ms: u64,
}

/// Why a request got no connection.
#[derive(Debug, Clone, Copy, PartialEq, Eq)]
pub enum PoolError {
    /// No connection became available within the configured time.
    Timeout,
    /// The database could not be reached to establish a connection.
    BackendUnavailable,
}

/// What a pool says when it hands out no connection.
#[derive(Debug, Clone, Copy, PartialEq, Eq)]
pub enum Refusal {
    /// The time to wait for a connection, to establish one or to check one
    /// ran out.
    TimedOut,
    /// The database reported an error when a connection was made.
    Backend,
    /// The pool was closed.
    Closed,
    /// The pool has no means to keep time.
    NoRuntime,
    /// A connection was made and then turned down.
    Hook,
}

/// The failure that a refusal amounts to.
pub open spec fn failure_of(refusal: Refusal) -> PoolError {
    match refusal {
        Refusal::TimedOut => PoolError::Timeout,
        _ => PoolError::BackendUnavailable,
    }
}

/// Tells refusals apart: running out of time is a timeout; with every other
/// one the database cannot be had.
pub fn pool_error(refusal: Refusal) -> (error: PoolError)
    ensures
        error == failure_of(refusal),
{
    match refusal {
        Refusal::TimedOut => PoolError::Timeout,
        _ => PoolError::BackendUnavailable,
    }
}

/// The answer to a request for a connection.
#[derive(Debug, Clone, Copy, PartialEq, Eq)]
pub enum Admission {
    /// The request now holds the slot `handle`.
    Granted { handle: usize },
    /// Every slot is held: the request waits at the end of the queue.
    Queued,
    /// The request already holds a slot or already waits; nothing changed.
    AlreadyAdmitted,
}

/// What became of a slot that was given back.
#[derive(Debug, Clone, Copy, PartialEq, Eq)]
pub enum Release {
    /// Nobody waited: the slot is idle.
    Idle,
    /// The slot went to the request that had waited longest.
    Handed { request: u64 },
    /// The handle names no slot that is held; nothing changed.
    NotHeld,
}

/// The state of a pool: one entry per slot with the request that holds it,
/// and the waiting requests, oldest first.
pub struct Pool {
    slots: Vec<Option<u64>>,
    queue: Vec<u64>,
}

/// The mathematical value of a [`Pool`].
pub struct PoolView {
    pub slots: Seq<Option<u64>>,
    pub queue: Seq<u64>,
}

impl View for Pool {
    type V = PoolView;

    closed spec fn view(&self) -> PoolView {
        PoolView { slots: self.slots@, queue: self.queue@ }
    }
}

/// The first position at which `wanted` stands in `items`; their length
/// where it stands nowhere.
pub open spec fn first_at<A>(items: Seq<A>, wanted: A) -> int
    decreases items.len(),
{
    if items.len() == 0 || items[0] == wanted {
        0
    } else {
        1 + first_at(items.drop_first(), wanted)
    }
}

/// The number of slots that are held.
pub open spec fn held(slots: Seq<Option<u64>>) -> nat
    decreases slots.len(),
{
    if slots.len() == 0 {
        0
    } else {
        held(slots.drop_last()) + if slots.last() is Some {
            1nat
        } else {
            0nat
        }
    }
}

impl PoolView {
    /// Whether `request` holds a slot.
    pub open spec fn holds(self, request: u64) -> bool {
        self.slots.contains(Some(request))
    }

    /// Whether `request` waits.
    pub open spec fn waits(self, request: u64) -> bool {
        self.queue.contains(request)
    }

    /// Whether every slot is held.
    pub open spec fn exhausted(self) -> bool {
        !self.slots.contains(None::<u64>)
    }

    /// The invariant of a pool: no request holds two slots, waits twice, or
    /// waits while holding; and requests wait only while every slot is held.
    pub open spec fn wf(self) -> bool {
        &&& forall|i: int, j: int|
            0 <= i < j < self.slots.len() && self.slots[i] is Some ==> self.slots[i]
                != self.slots[j]
        &&& forall|i: int, j: int| 0 <= i < j < self.queue.len() ==> self.queue[i] != self.queue[j]
        &&& forall|i: int, j: int|
            0 <= i < self.slots.len() && 0 <= j < self.queue.len() ==> self.slots[i] != Some(
                self.queue[j],
            )
        &&& self.queue.len() > 0 ==> self.exhausted()
    }

    /// The pool after `request` asked for a connection, and the answer: the
    /// idle slot of the lowest number where there is one, a place at the end
    /// of the queue where there is none.
    pub open spec fn acquire(self, request: u64) -> (PoolView, Admission) {
        if self.holds(request) || self.waits(request) {
            (self, Admission::AlreadyAdmitted)
        } else if !self.exhausted() {
            let handle = first_at(self.slots, None::<u64>);
            (
                PoolView { slots: self.slots.update(handle, Some(request)), queue: self.queue },
                Admission::Granted { handle: handle as usize },
            )
        } else {
            (PoolView { slots: self.slots, queue: self.queue.push(request) }, Admission::Queued)
        }
    }

    /// The pool after the slot `handle` was given back, and what became of
    /// the slot.
    pub open spec fn release(self, handle: int) -> (PoolView, Release) {
        if !(0 <= handle < self.slots.len()) || self.slots[handle] is None {
            (self, Release::NotHeld)
        } else if self.queue.len() > 0 {
            (
                PoolView {
                    slots: self.slots.update(handle, Some(self.queue[0])),
                    queue: self.queue.drop_first(),
                },
                Release::Handed { request: self.queue[0] },
            )
        } else {
            (PoolView { slots: self.slots.update(handle, None), queue: self.queue }, Release::Idle)
        }
    }

    /// The pool after the waiting time of `request` ran out, and the failure
    /// that the request ends with if it was still waiting: it leaves the
    /// queue, and those behind it move up.
    pub open spec fn expire(self, request: u64) -> (PoolView, Option<PoolError>) {
        if self.waits(request) {
            (
                PoolView {
                    slots: self.slots,
                    queue: self.queue.remove(first_at(self.queue, request)),
                },
                Some(PoolError::Timeout),
            )
        } else {
            (self, None)
        }
    }
}

/// The position of the first entry of `items` equal to `wanted`.
fn position(items: &Vec<u64>, wanted: u64) -> (at: Option<usize>)
    ensures
        match at {
            Some(i) => i < items.len() && items[i as int] == wanted && forall|k: int|
                0 <= k < i ==> items[k] != wanted,
            None => !items@.contains(wanted),
        },
{
    let mut i: usize = 0;
    while i < items.len()
        invariant
            i <= items.len(),
            forall|k: int| 0 <= k < i ==> items[k] != wanted,
        decreases items.len() - i,
    {
        if items[i] == wanted {
            return Some(i);
        }
        i += 1;
    }
    None
}

/// The position of the first slot whose holder is `wanted`.
fn slot_of(slots: &Vec<Option<u64>>, wanted: Option<u64>) -> (at: Option<usize>)
    ensures
        match at {
            Some(i) => i < slots.len() && slots[i as int] == wanted && forall|k: int|
                0 <= k < i ==> slots[k] != wanted,
            None => !slots@.contains(wanted),
        },
{
    let mut i: usize = 0;
    while i < slots.len()
        invariant
            i <= slots.len(),
            forall|k: int| 0 <= k < i ==> slots[k] != wanted,
        decreases slots.len() - i,
    {
        let same = match (slots[i], wanted) {
            (Some(a), Some(b)) => a == b,
            (None, None) => true,
            _ => false,
        };
        if same {
            return Some(i);
        }
        i += 1;
    }
    None
}

/// `first_at` is the position before which a value does not stand and at
/// which it does.
pub proof fn lemma_first_position<A>(items: Seq<A>, wanted: A, at: int)
    requires
        0 <= at < items.len(),
        items[at] == wanted,
        forall|k: int| 0 <= k < at ==> items[k] != wanted,
    ensures
        first_at(items, wanted) == at,
    decreases items.len(),
{
    if at > 0 {
        let rest = items.drop_first();
        assert(rest[at - 1] == items[at]);
        assert forall|k: int| 0 <= k < at - 1 implies rest[k] != wanted by {
            assert(rest[k] == items[k + 1]);
        }
        lemma_first_position(rest, wanted, at - 1);
    }
}

/// A value that stands in a sequence stands at its first position.
pub proof fn lemma_first_at_finds<A>(items: Seq<A>, wanted: A)
    requires
        items.contains(wanted),
    ensures
        0 <= first_at(items, wanted) < items.len(),
        items[first_at(items, wanted)] == wanted,
    decreases items.len(),
{
    if items[0] != wanted {
        let rest = items.drop_first();
        let i = choose|i: int| 0 <= i < items.len() && items[i] == wanted;
        assert(rest[i - 1] == wanted);
        lemma_first_at_finds(rest, wanted);
    }
}

impl Pool {
    /// Every pool satisfies the invariant at all times.
    #[verifier::type_invariant]
    spec fn inv(self) -> bool {
        self@.wf()
    }

    /// A pool of `config.max_size` idle slots with nobody waiting.
    pub fn new(config: &PoolConfig) -> (pool: Pool)
        ensures
            pool@.slots == Seq::new(config.max_size as nat, |i: int| None::<u64>),
            pool@.queue == Seq::<u64>::empty(),
            pool@.wf(),
    {
        let mut slots: Vec<Option<u64>> = Vec::new();
        let mut i: usize = 0;
        while i < config.max_size
            invariant
                i <= config.max_size,
                slots@.len() == i,
                forall|k: int| 0 <= k < i ==> slots@[k] is None,
            decreases config.max_size - i,
        {
            slots.push(None);
            i += 1;
        }
        assert(slots@ =~= Seq::new(config.max_size as nat, |i: int| None::<u64>));
        Pool { slots, queue: Vec::new() }
    }

    /// The number of slots.
    pub fn max_size(&self) -> (n: usize)
        ensures
            n == self@.slots.len(),
    {
        self.slots.len()
    }

    /// The number of slots that are held.
    pub fn in_use(&self) -> (n: usize)
        ensures
            n == held(self@.slots),
    {
        let mut n: usize = 0;
        let mut i: usize = 0;
        assert(self.slots@.take(0) =~= Seq::<Option<u64>>::empty());
        while i < self.slots.len()
            invariant
                i <= self.slots.len(),
                n <= i,
                n == held(self.slots@.take(i as int)),
            decreases self.slots.len() - i,
        {
            proof {
                let upto = self.slots@.take(i + 1);
                assert(upto.drop_last() =~= self.slots@.take(i as int));
                assert(upto.last() == self.slots@[i as int]);
            }
            if self.slots[i].is_some() {
                n += 1;
            }
            i += 1;
        }
        assert(self.slots@.take(i as int) =~= self.slots@);
        n
    }

    /// The number of requests that wait.
    pub fn waiting(&self) -> (n: usize)
        ensures
            n == self@.queue.len(),
    {
        self.queue.len()
    }

    /// The request that holds the slot `handle`, if one does.
    pub fn holder(&self, handle: usize) -> (r: Option<u64>)
        ensures
            r == if handle < self@.slots.len() {
                self@.slots[handle as int]
            } else {
                None
            },
    {
        if handle < self.slots.len() {
            self.slots[handle]
        } else {
            None
        }
    }

    /// Asks for a connection on behalf of `request`.
    pub fn acquire(&mut self, request: u64) -> (answer: Admission)
        ensures
            (final(self)@, answer) == old(self)@.acquire(request),
            old(self)@.wf(),
            final(self)@.wf(),
    {
        proof {
            use_type_invariant(&*self);
            lemma_acquire_keeps_wf(self@, request);
        }
        if slot_of(&self.slots, Some(request)).is_some() || position(&self.queue, request).is_some() {
            return Admission::AlreadyAdmitted;
        }
        match slot_of(&self.slots, None) {
            Some(handle) => {
                proof {
                    lemma_first_position(self.slots@, None::<u64>, handle as int);
                }
                let mut slots: Vec<Option<u64>> = Vec::new();
                core::mem::swap(&mut self.slots, &mut slots);
                slots.set(handle, Some(request));
                self.slots = slots;
                Admission::Granted { handle }
            },
            None => {
                let mut queue: Vec<u64> = Vec::new();
                core::mem::swap(&mut self.queue, &mut queue);
                queue.push(request);
                self.queue = queue;
                Admission::Queued
            },
        }
    }

    /// Gives the slot `handle` back.
    pub fn release(&mut self, handle: usize) -> (outcome: Release)
        ensures
            (final(self)@, outcome) == old(self)@.release(handle as int),
            old(self)@.wf(),
            final(self)@.wf(),
    {
        proof {
            use_type_invariant(&*self);
            lemma_release_keeps_wf(self@, handle as int);
        }
        if handle >= self.slots.len() || self.slots[handle].is_none() {
            return Release::NotHeld;
        }
        if self.queue.len() > 0 {
            let mut queue: Vec<u64> = Vec::new();
            core::mem::swap(&mut self.queue, &mut queue);
            let next = queue.remove(0);
            assert(queue@ =~= old(self).queue@.drop_first());
            let mut slots: Vec<Option<u64>> = Vec::new();
            core::mem::swap(&mut self.slots, &mut slots);
            slots.set(handle, Some(next));
            self.slots = slots;
            self.queue = queue;
            Release::Handed { request: next }
        } else {
            let mut slots: Vec<Option<u64>> = Vec::new();
            core::mem::swap(&mut self.slots, &mut slots);
            slots.set(handle, None);
            self.slots = slots;
            Release::Idle
        }
    }

    /// Takes `request` out of the queue when its waiting time has run out.
    /// A request that was still waiting fails with [`PoolError::Timeout`];
    /// for one that was not, nothing changes.
    pub fn expire(&mut self, request: u64) -> (failure: Option<PoolError>)
        ensures
            (final(self)@, failure) == old(self)@.expire(request),
            old(self)@.wf(),
            final(self)@.wf(),
    {
        proof {
            use_type_invariant(&*self);
            lemma_expire_keeps_wf(self@, request);
        }
        match position(&self.queue, request) {
            Some(at) => {
                proof {
                    lemma_first_position(self.queue@, request, at as int);
                }
                let mut queue: Vec<u64> = Vec::new();
                core::mem::swap(&mut self.queue, &mut queue);
                queue.remove(at);
                self.queue = queue;
                Some(PoolError::Timeout)
            },
            None => None,
        }
    }
}

/// Asking for a connection keeps the invariant.
pub proof fn lemma_acquire_keeps_wf(pool: PoolView, request: u64)
    requires
        pool.wf(),
    ensures
        pool.acquire(request).0.wf(),
{
    let after = pool.acquire(request).0;
    if pool.holds(request) || pool.waits(request) {
    } else if !pool.exhausted() {
        let handle = first_at(pool.slots, None::<u64>);
        lemma_first_at_finds(pool.slots, None::<u64>);
        assert(pool.queue.len() == 0);
        assert forall|i: int, j: int|
            0 <= i < j < after.slots.len() && after.slots[i] is Some implies after.slots[i]
            != after.slots[j] by {
            if i == handle {
                assert(!pool.slots.contains(Some(request)));
                assert(pool.slots[j] != Some(request));
            } else if j == handle {
                assert(pool.slots[i] != Some(request));
            }
        }
    } else {
        assert forall|i: int, j: int| 0 <= i < j < after.queue.len() implies after.queue[i]
            != after.queue[j] by {
            if j == pool.queue.len() {
                assert(pool.queue[i] != request);
            }
        }
        assert forall|i: int, j: int|
            0 <= i < after.slots.len() && 0 <= j < after.queue.len() implies after.slots[i]
            != Some(after.queue[j]) by {
            if j == pool.queue.len() {
                assert(pool.slots[i] != Some(request));
            }
        }
    }
}

/// Giving a slot back keeps the invariant.
pub proof fn lemma_release_keeps_wf(pool: PoolView, handle: int)
    requires
        pool.wf(),
    ensures
        pool.release(handle).0.wf(),
{
    let after = pool.release(handle).0;
    if !(0 <= handle < pool.slots.len()) || pool.slots[handle] is None {
    } else if pool.queue.len() > 0 {
        let next = pool.queue[0];
        assert forall|i: int, j: int|
            0 <= i < j < after.slots.len() && after.slots[i] is Some implies after.slots[i]
            != after.slots[j] by {
            assert(pool.slots[i] != Some(pool.queue[0]));
            assert(pool.slots[j] != Some(pool.queue[0]));
        }
        assert forall|i: int, j: int| 0 <= i < j < after.queue.len() implies after.queue[i]
            != after.queue[j] by {
            assert(after.queue[i] == pool.queue[i + 1]);
            assert(after.queue[j] == pool.queue[j + 1]);
        }
        assert forall|i: int, j: int|
            0 <= i < after.slots.len() && 0 <= j < after.queue.len() implies after.slots[i]
            != Some(after.queue[j]) by {
            assert(after.queue[j] == pool.queue[j + 1]);
            assert(pool.slots[i] != Some(pool.queue[j + 1]));
        }
        if after.queue.len() > 0 {
            assert forall|k: int| 0 <= k < after.slots.len() implies after.slots[k] is Some by {
                if k != handle {
                    assert(pool.slots[k] is Some) by {
                        if pool.slots[k] is None {
                            assert(pool.slots.contains(None::<u64>));
                        }
                    }
                }
            }
            assert(!after.slots.contains(None::<u64>));
        }
    } else {
    }
}

/// Taking a request out of the queue keeps the invariant.
pub proof fn lemma_expire_keeps_wf(pool: PoolView, request: u64)
    requires
        pool.wf(),
    ensures
        pool.expire(request).0.wf(),
{
    let after = pool.expire(request).0;
    if pool.waits(request) {
        let at = first_at(pool.queue, request);
        lemma_first_at_finds(pool.queue, request);
        assert forall|j: int| 0 <= j < after.queue.len() implies after.queue[j] == pool.queue[if j
            < at {
            j
        } else {
            j + 1
        }] by {}
        assert forall|i: int, j: int| 0 <= i < j < after.queue.len() implies after.queue[i]
            != after.queue[j] by {
            let a = if i < at { i } else { i + 1 };
            let b = if j < at { j } else { j + 1 };
            assert(pool.queue[a] != pool.queue[b]);
        }
        assert forall|i: int, j: int|
            0 <= i < after.slots.len() && 0 <= j < after.queue.len() implies after.slots[i]
            != Some(after.queue[j]) by {
            let b = if j < at { j } else { j + 1 };
            assert(pool.slots[i] != Some(pool.queue[b]));
        }
    }
}


/// While every slot is held, a newcomer is queued behind those who already
/// wait, and no slot changes hands.
pub proof fn lemma_exhausted_pool_queues(pool: PoolView, request: u64)
    requires
        pool.exhausted(),
        !pool.holds(request),
        !pool.waits(request),
    ensures
        pool.acquire(request).1 == Admission::Queued,
        pool.acquire(request).0.slots == pool.slots,
        pool.acquire(request).0.queue == pool.queue.push(request),
{
}

/// A slot that is given back while requests wait goes to the oldest of them,
/// which then holds it and waits no longer; the request that gave it back
/// holds nothing.
pub proof fn lemma_release_wakes_oldest(pool: PoolView, handle: int)
    requires
        pool.wf(),
        0 <= handle < pool.slots.len(),
        pool.slots[handle] is Some,
        pool.queue.len() > 0,
    ensures
        pool.release(handle).1 == (Release::Handed { request: pool.queue[0] }),
        pool.release(handle).0.slots[handle] == Some(pool.queue[0]),
        !pool.release(handle).0.waits(pool.queue[0]),
        !pool.release(handle).0.holds(pool.slots[handle].unwrap()),
{
    let after = pool.release(handle).0;
    let next = pool.queue[0];
    let gone = pool.slots[handle].unwrap();
    lemma_release_keeps_wf(pool, handle);
    if after.waits(next) {
        let j = choose|j: int| 0 <= j < after.queue.len() && after.queue[j] == next;
        assert(pool.queue[j + 1] == next);
    }
    if after.holds(gone) {
        let i = choose|i: int| 0 <= i < after.slots.len() && after.slots[i] == Some(gone);
        if i == handle {
            assert(pool.slots[handle] != Some(pool.queue[0]));
        } else if i < handle {
            assert(pool.slots[i] != pool.slots[handle]);
        } else {
            assert(pool.slots[handle] != pool.slots[i]);
        }
    }
}

/// In a pool of one slot, of two requests the second waits until the first
/// gives its slot back and holds it from then on: at no time do both hold a
/// connection.
pub proof fn lemma_single_slot_is_exclusive(first: u64, second: u64)
    requires
        first != second,
    ensures
        ({
            let idle = PoolView { slots: seq![None::<u64>], queue: Seq::empty() };
            let (one, a) = idle.acquire(first);
            let (two, b) = one.acquire(second);
            let (three, c) = two.release(0);
            &&& a == (Admission::Granted { handle: 0 })
            &&& one.holds(first) && !one.holds(second)
            &&& b == Admission::Queued
            &&& two.holds(first) && !two.holds(second) && two.waits(second)
            &&& c == (Release::Handed { request: second })
            &&& three.holds(second) && !three.holds(first) && !three.waits(second)
        }),
{
    let idle = PoolView { slots: seq![None::<u64>], queue: Seq::empty() };
    assert(idle.slots[0] == None::<u64>);
    assert(idle.slots.contains(None::<u64>));
    lemma_first_position(idle.slots, None::<u64>, 0);
    assert(!idle.holds(first)) by {
        if idle.holds(first) {
            let i = choose|i: int| 0 <= i < idle.slots.len() && idle.slots[i] == Some(first);
        }
    }
    let (one, a) = idle.acquire(first);
    assert(one.slots =~= seq![Some(first)]);
    assert(one.slots[0] == Some(first));
    assert(one.holds(first));
    assert(!one.holds(second)) by {
        if one.holds(second) {
            let i = choose|i: int| 0 <= i < one.slots.len() && one.slots[i] == Some(second);
        }
    }
    assert(one.exhausted()) by {
        if one.slots.contains(None::<u64>) {
            let i = choose|i: int| 0 <= i < one.slots.len() && one.slots[i] == None::<u64>;
        }
    }
    let (two, b) = one.acquire(second);
    assert(two.queue =~= seq![second]);
    assert(two.queue[0] == second);
    assert(two.waits(second));
    let (three, c) = two.release(0);
    assert(three.slots =~= seq![Some(second)]);
    assert(three.slots[0] == Some(second));
    assert(three.queue =~= Seq::<u64>::empty());
    assert(!three.holds(first)) by {
        if three.holds(first) {
            let i = choose|i: int| 0 <= i < three.slots.len() && three.slots[i] == Some(first);
        }
    }
}

} // verus!
