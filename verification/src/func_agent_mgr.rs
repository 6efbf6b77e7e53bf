//! Per-function request scheduling: the bounded request queue with its
//! timeout, the worker-creation token bucket, slot accounting, request
//! assignment to workers and each worker's slot state.
use vstd::prelude::*;
use crate::text::{push_str, to_string};

verus! {

// ---------------------------------------------------------------------------
// Token bucket
// ---------------------------------------------------------------------------

/// A token bucket: `tokens` never exceeds `capacity`.
#[derive(Debug)]
pub struct Throttle {
    tokens: usize,
    capacity: usize,
}

impl Throttle {
    /// The tokens available.
    pub closed spec fn tokens_spec(&self) -> nat {
        self.tokens as nat
    }

    /// The most tokens the bucket holds.
    pub closed spec fn capacity_spec(&self) -> nat {
        self.capacity as nat
    }

    /// Tokens never exceed the capacity.
    pub closed spec fn wf(&self) -> bool {
        self.tokens <= self.capacity
    }

    /// A bucket holding `min(initial, capacity)` tokens.
    pub fn New(initial: usize, capacity: usize) -> (r: Self)
        ensures
            r.wf(),
            r.capacity_spec() == capacity,
            r.tokens_spec() == if initial <= capacity {
                initial
            } else {
                capacity
            },
    {
        let tokens = if initial <= capacity {
            initial
        } else {
            capacity
        };
        Throttle { tokens, capacity }
    }

    /// One refill tick: adds a token unless the bucket is full; returns
    /// whether it did (a waiter is then woken).
    pub fn Refill(&mut self) -> (added: bool)
        requires
            old(self).wf(),
        ensures
            final(self).wf(),
            final(self).capacity_spec() == old(self).capacity_spec(),
            added == (old(self).tokens_spec() < old(self).capacity_spec()),
            final(self).tokens_spec() == if added {
                old(self).tokens_spec() + 1
            } else {
                old(self).tokens_spec()
            },
    {
        if self.tokens < self.capacity {
            self.tokens = self.tokens + 1;
            true
        } else {
            false
        }
    }

    /// Takes a token when one is available.
    pub fn TryAcquire(&mut self) -> (got: bool)
        requires
            old(self).wf(),
        ensures
            final(self).wf(),
            final(self).capacity_spec() == old(self).capacity_spec(),
            got == (old(self).tokens_spec() > 0),
            final(self).tokens_spec() == if got {
                (old(self).tokens_spec() - 1) as nat
            } else {
                old(self).tokens_spec()
            },
    {
        if self.tokens > 0 {
            self.tokens = self.tokens - 1;
            true
        } else {
            false
        }
    }
}
// ---------------------------------------------------------------------------
// Process slots
// ---------------------------------------------------------------------------

/// A shared count of process slots. Like the atomic counter it stands for,
/// it wraps around at the ends of `usize`.
#[derive(Debug, Default)]
pub struct ProcessSlot {
    pub slots: usize,
}

impl ProcessSlot {
    /// One slot fewer.
    pub fn Dec(&mut self)
        ensures
            final(self).slots == old(self).slots.wrapping_sub(1),
    {
        self.DecBy(1);
    }

    /// One slot more.
    pub fn Inc(&mut self)
        ensures
            final(self).slots == old(self).slots.wrapping_add(1),
    {
        self.IncBy(1);
    }

    /// `count` slots more.
    pub fn IncBy(&mut self, count: usize)
        ensures
            final(self).slots == old(self).slots.wrapping_add(count),
    {
        self.slots = self.slots.wrapping_add(count);
    }

    /// `count` slots fewer.
    pub fn DecBy(&mut self, count: usize)
        ensures
            final(self).slots == old(self).slots.wrapping_sub(count),
    {
        self.slots = self.slots.wrapping_sub(count);
    }

    /// The current count.
    pub fn Count(&self) -> (n: usize)
        ensures
            n == self.slots,
    {
        self.slots
    }
}


// ---------------------------------------------------------------------------
// Client request queue
// ---------------------------------------------------------------------------

/// A bounded FIFO of waiting requests, each with the time (ms) it was
/// enqueued; requests waiting longer than `timeout` ms are dropped.
#[derive(Debug)]
pub struct ClientReqQueue<T> {
    items: Vec<(u64, T)>,
    queue_len: usize,
    timeout: u64,
}

/// Whether a request enqueued at `enq` has waited too long at `now`.
pub open spec fn expired(enq: u64, now: u64, timeout: u64) -> bool {
    (if now >= enq {
        now - enq
    } else {
        0
    }) > timeout
}

/// How many leading requests have expired at `now`.
pub open spec fn expired_prefix<T>(items: Seq<(u64, T)>, now: u64, timeout: u64) -> nat
    decreases items.len(),
{
    if items.len() > 0 && expired(items[0].0, now, timeout) {
        1 + expired_prefix(items.drop_first(), now, timeout)
    } else {
        0
    }
}

proof fn lemma_expired_prefix<T>(items: Seq<(u64, T)>, now: u64, timeout: u64, k: int)
    requires
        0 <= k <= items.len(),
        forall|i: int| 0 <= i < k ==> expired(#[trigger] items[i].0, now, timeout),
        k == items.len() || !expired(items[k].0, now, timeout),
    ensures
        expired_prefix(items, now, timeout) == k,
    decreases k,
{
    if k > 0 {
        let t = items.drop_first();
        assert forall|i: int| 0 <= i < k - 1 implies expired(#[trigger] t[i].0, now, timeout) by {
            assert(t[i] == items[i + 1]);
        }
        lemma_expired_prefix(t, now, timeout, k - 1);
    }
}

fn waited_too_long(enq: u64, now: u64, timeout: u64) -> (b: bool)
    ensures
        b == expired(enq, now, timeout),
{
    let waited = if now >= enq {
        now - enq
    } else {
        0
    };
    waited > timeout
}

impl<T> ClientReqQueue<T> {
    /// The waiting requests, oldest first.
    pub closed spec fn items_spec(&self) -> Seq<(u64, T)> {
        self.items@
    }

    /// The most requests the queue holds.
    pub closed spec fn queue_len_spec(&self) -> nat {
        self.queue_len as nat
    }

    /// The timeout in ms.
    pub closed spec fn timeout_spec(&self) -> u64 {
        self.timeout
    }

    /// An empty queue of at most `queue_len` requests, timing out after
    /// `timeout` ms.
    pub fn New(queue_len: usize, timeout: u64) -> (r: Self)
        ensures
            r.items_spec().len() == 0,
            r.queue_len_spec() == queue_len,
            r.timeout_spec() == timeout,
    {
        ClientReqQueue { items: Vec::new(), queue_len, timeout }
    }

    /// How many requests wait.
    pub fn Count(&self) -> (n: usize)
        ensures
            n == self.items_spec().len(),
    {
        self.items.len()
    }

    /// Drops the leading requests that have waited longer than the timeout
    /// at `now`, oldest first, and returns them (they are answered with a
    /// timeout).
    pub fn CleanTimeout(&mut self, now: u64) -> (dropped: Vec<(u64, T)>)
        ensures
            final(self).queue_len_spec() == old(self).queue_len_spec(),
            final(self).timeout_spec() == old(self).timeout_spec(),
            dropped@ == old(self).items_spec().take(
                expired_prefix(old(self).items_spec(), now, old(self).timeout_spec()) as int,
            ),
            final(self).items_spec() == old(self).items_spec().skip(
                expired_prefix(old(self).items_spec(), now, old(self).timeout_spec()) as int,
            ),
    {
        let ghost orig = self.items@;
        let mut k: usize = 0;
        while k < self.items.len() && waited_too_long(self.items[k].0, now, self.timeout)
            invariant
                k <= self.items@.len(),
                self.items@ == orig,
                forall|i: int| 0 <= i < k ==> expired(#[trigger] orig[i].0, now, self.timeout),
            decreases self.items@.len() - k,
        {
            k += 1;
        }
        proof {
            lemma_expired_prefix(orig, now, self.timeout, k as int);
        }
        let mut rest: Vec<(u64, T)> = self.items.split_off(k);
        let mut dropped: Vec<(u64, T)> = Vec::new();
        std::mem::swap(&mut dropped, &mut self.items);
        std::mem::swap(&mut rest, &mut self.items);
        assert(dropped@ =~= orig.take(k as int));
        assert(self.items@ =~= orig.skip(k as int));
        dropped
    }

    /// Enqueues `req` at `now` after dropping timed-out requests: refused
    /// (handed back, to be answered with queue-full) when the queue is full.
    pub fn Send(&mut self, req: T, now: u64) -> (r: (Vec<(u64, T)>, Option<T>))
        ensures
            final(self).queue_len_spec() == old(self).queue_len_spec(),
            final(self).timeout_spec() == old(self).timeout_spec(),
            ({
                let k = expired_prefix(old(self).items_spec(), now, old(self).timeout_spec()) as int;
                let kept = old(self).items_spec().skip(k);
                &&& r.0@ == old(self).items_spec().take(k)
                &&& kept.len() >= old(self).queue_len_spec() ==> r.1 == Some(req)
                    && final(self).items_spec() == kept
                &&& kept.len() < old(self).queue_len_spec() ==> r.1 is None
                    && final(self).items_spec() == kept.push((now, req))
            }),
    {
        let dropped = self.CleanTimeout(now);
        if self.items.len() >= self.queue_len {
            return (dropped, Some(req));
        }
        self.items.push((now, req));
        (dropped, None)
    }

    /// Takes the oldest request that has not timed out at `now`.
    pub fn TryRecv(&mut self, now: u64) -> (r: (Vec<(u64, T)>, Option<(u64, T)>))
        ensures
            final(self).queue_len_spec() == old(self).queue_len_spec(),
            final(self).timeout_spec() == old(self).timeout_spec(),
            ({
                let k = expired_prefix(old(self).items_spec(), now, old(self).timeout_spec()) as int;
                let kept = old(self).items_spec().skip(k);
                &&& r.0@ == old(self).items_spec().take(k)
                &&& kept.len() == 0 ==> r.1 is None && final(self).items_spec() == kept
                &&& kept.len() > 0 ==> r.1 == Some(kept[0]) && final(self).items_spec()
                    == kept.drop_first()
            }),
    {
        let dropped = self.CleanTimeout(now);
        if self.items.len() == 0 {
            return (dropped, None);
        }
        let first = self.items.remove(0);
        (dropped, Some(first))
    }
}

/// At most all the requests have expired.
proof fn lemma_expired_prefix_le<T>(items: Seq<(u64, T)>, now: u64, timeout: u64)
    ensures
        expired_prefix(items, now, timeout) <= items.len(),
    decreases items.len(),
{
    if items.len() > 0 {
        lemma_expired_prefix_le(items.drop_first(), now, timeout);
    }
}

/// `Send` keeps a queue within its bound: a queue that holds at most
/// `queue_len` requests still does after the timed-out ones are dropped and
/// the new request is enqueued or refused.
pub proof fn lemma_send_keeps_bound<T>(items: Seq<(u64, T)>, queue_len: nat, timeout: u64, now: u64, req: T)
    requires
        items.len() <= queue_len,
    ensures
        ({
            let kept = items.skip(expired_prefix(items, now, timeout) as int);
            (if kept.len() >= queue_len {
                kept
            } else {
                kept.push((now, req))
            }).len() <= queue_len
        }),
{
    lemma_expired_prefix_le(items, now, timeout);
}

/// `TryRecv` hands out the oldest request that has not timed out: every
/// request before it in the queue had expired.
pub proof fn lemma_recv_takes_oldest_live<T>(items: Seq<(u64, T)>, now: u64, timeout: u64)
    ensures
        ({
            let k = expired_prefix(items, now, timeout) as int;
            &&& forall|i: int| 0 <= i < k ==> expired(#[trigger] items[i].0, now, timeout)
            &&& k < items.len() ==> !expired(items[k].0, now, timeout)
        }),
    decreases items.len(),
{
    if items.len() > 0 && expired(items[0].0, now, timeout) {
        let t = items.drop_first();
        lemma_recv_takes_oldest_live(t, now, timeout);
        lemma_expired_prefix_le(items, now, timeout);
        let k = expired_prefix(items, now, timeout) as int;
        assert forall|i: int| 0 <= i < k implies expired(#[trigger] items[i].0, now, timeout) by {
            if i > 0 {
                assert(items[i] == t[i - 1]);
            }
        }
        if k < items.len() {
            assert(items[k] == t[k - 1]);
        }
    }
}

// ---------------------------------------------------------------------------
// Workers and slots
// ---------------------------------------------------------------------------

/// The state of a function worker.
#[derive(Clone, Copy, Debug, PartialEq, Eq, Structural)]
pub enum FuncWorkerState {
    /// The pod is not ready yet.
    Init,
    /// Ready, with no request running.
    Idle,
    /// Running at least one request.
    Processing,
}

/// How an HTTP call on a worker ended.
#[derive(Clone, Copy, Debug, PartialEq, Eq, Structural)]
pub enum HttpClientState {
    Fail,
    Success,
}

/// What a scheduler loop waits for next.
#[derive(Clone, Copy, Debug, PartialEq, Eq, Structural)]
pub enum WaitState {
    WaitReq,
    WaitSlot,
}

/// The lifecycle of a worker as the agent tracks it.
#[derive(Clone, Copy, Debug, PartialEq, Eq, Structural)]
pub enum WorkerState {
    Creating,
    Working,
    Idle,
    Evicating,
    Fail,
    Killing,
}

/// The slot bookkeeping of one worker.
#[derive(Debug)]
pub struct WorkerSlots {
    pub state: FuncWorkerState,
    pub parallel_level: usize,
    pub ongoing: usize,
    pub fail_count: usize,
}

/// What the worker reports after a call returned its client.
#[derive(Clone, Copy, Debug, PartialEq, Eq, Structural)]
pub enum ClientReturn {
    /// The call finished; report it.
    RequestDone,
    /// Too many failed calls: the worker fails.
    WorkerFail,
}

impl WorkerSlots {
    /// A worker whose pod is not ready yet.
    pub fn new(parallel_level: usize) -> (r: Self)
        ensures
            r.state == FuncWorkerState::Init,
            r.parallel_level == parallel_level,
            r.ongoing == 0,
            r.fail_count == 0,
    {
        WorkerSlots { state: FuncWorkerState::Init, parallel_level, ongoing: 0, fail_count: 0 }
    }

    /// The worker's state.
    pub fn State(&self) -> (s: FuncWorkerState)
        ensures
            s == self.state,
    {
        self.state
    }

    /// Sets the worker's state.
    pub fn SetState(&mut self, state: FuncWorkerState)
        ensures
            *final(self) == (WorkerSlots { state, ..*old(self) }),
    {
        self.state = state;
    }

    /// The slots a ready worker contributes: its parallel level.
    pub fn ReadySlot(&self) -> (n: usize)
        ensures
            n == self.parallel_level,
    {
        self.parallel_level
    }

    /// The requests it is running.
    pub fn OngoingReq(&self) -> (n: usize)
        ensures
            n == self.ongoing,
    {
        self.ongoing
    }

    /// The slots it can still take: its parallel level minus its running
    /// requests once ready, none before.
    pub fn AvailableSlot(&self) -> (n: usize)
        requires
            (self.state == FuncWorkerState::Idle || self.state == FuncWorkerState::Processing)
                ==> self.ongoing <= self.parallel_level,
        ensures
            n == if self.state == FuncWorkerState::Idle || self.state
                == FuncWorkerState::Processing {
                (self.parallel_level - self.ongoing) as int
            } else {
                0
            },
    {
        if self.state == FuncWorkerState::Idle || self.state == FuncWorkerState::Processing {
            self.parallel_level - self.ongoing
        } else {
            0
        }
    }

    /// Records a request assigned to the worker.
    pub fn AssignReq(&mut self)
        requires
            old(self).ongoing < usize::MAX,
        ensures
            final(self).ongoing == old(self).ongoing + 1,
            final(self).state == old(self).state,
            final(self).parallel_level == old(self).parallel_level,
            final(self).fail_count == old(self).fail_count,
    {
        self.ongoing = self.ongoing + 1;
    }

    /// An idle worker starts processing when a request reaches it.
    pub fn OnRequest(&mut self)
        ensures
            final(self).state == if old(self).state == FuncWorkerState::Idle {
                FuncWorkerState::Processing
            } else {
                old(self).state
            },
            final(self).ongoing == old(self).ongoing,
            final(self).parallel_level == old(self).parallel_level,
            final(self).fail_count == old(self).fail_count,
    {
        if self.state == FuncWorkerState::Idle {
            self.state = FuncWorkerState::Processing;
        }
    }

    /// A call returned its client: a failed call counts a failure and the
    /// worker fails when ten failures had already been counted; otherwise
    /// the running count drops by one (wrapping like the atomic counter)
    /// and the worker turns idle when it was the last running request.
    pub fn OnClientReturned(&mut self, state: HttpClientState) -> (r: ClientReturn)
        requires
            state == HttpClientState::Fail ==> old(self).fail_count < usize::MAX,
        ensures
            state == HttpClientState::Fail && old(self).fail_count == 10 ==> r
                == ClientReturn::WorkerFail && final(self).ongoing == old(self).ongoing
                && final(self).state == old(self).state,
            !(state == HttpClientState::Fail && old(self).fail_count == 10) ==> {
                &&& r == ClientReturn::RequestDone
                &&& final(self).ongoing == (if old(self).ongoing == 0 {
                    usize::MAX as int
                } else {
                    old(self).ongoing - 1
                })
                &&& final(self).state == (if old(self).ongoing == 1 {
                    FuncWorkerState::Idle
                } else {
                    old(self).state
                })
            },
            final(self).fail_count == (if state == HttpClientState::Fail {
                old(self).fail_count + 1
            } else {
                old(self).fail_count as int
            }),
            final(self).parallel_level == old(self).parallel_level,
    {
        if state == HttpClientState::Fail {
            let before = self.fail_count;
            self.fail_count = self.fail_count + 1;
            if before == 10 {
                return ClientReturn::WorkerFail;
            }
        }
        let cnt = self.ongoing;
        self.ongoing = if cnt == 0 {
            usize::MAX
        } else {
            cnt - 1
        };
        if cnt == 1 {
            self.state = FuncWorkerState::Idle;
        }
        ClientReturn::RequestDone
    }
}

/// The identity counters and slot totals of a function agent.
#[derive(Debug)]
pub struct AgentCounters {
    pub tenant: String,
    pub namespace: String,
    pub func_name: String,
    pub available_slot: usize,
    pub total_slot: usize,
    pub starting_slot: usize,
    pub next_worker_id: u64,
    pub next_req_id: u64,
}

impl AgentCounters {
    /// `tenant/namespace/funcname`.
    pub fn Key(&self) -> (r: String)
        ensures
            r@ == self.tenant@ + "/"@ + self.namespace@ + "/"@ + self.func_name@,
    {
        let mut k = to_string(self.tenant.as_str());
        push_str(&mut k, "/");
        push_str(&mut k, self.namespace.as_str());
        push_str(&mut k, "/");
        push_str(&mut k, self.func_name.as_str());
        k
    }

    /// The next worker id (ids start at 1).
    pub fn NextWorkerId(&mut self) -> (id: u64)
        requires
            old(self).next_worker_id < u64::MAX,
        ensures
            id == old(self).next_worker_id + 1,
            final(self).next_worker_id == id,
            final(self).next_req_id == old(self).next_req_id,
            final(self).available_slot == old(self).available_slot,
    {
        self.next_worker_id = self.next_worker_id + 1;
        self.next_worker_id
    }

    /// The next request id (ids start at 1).
    pub fn NextReqId(&mut self) -> (id: u64)
        requires
            old(self).next_req_id < u64::MAX,
        ensures
            id == old(self).next_req_id + 1,
            final(self).next_req_id == id,
            final(self).next_worker_id == old(self).next_worker_id,
            final(self).available_slot == old(self).available_slot,
    {
        self.next_req_id = self.next_req_id + 1;
        self.next_req_id
    }

    /// Slots of ready workers plus slots of workers being started.
    pub fn TotalSlot(&self) -> (n: usize)
        requires
            self.total_slot + self.starting_slot <= usize::MAX,
        ensures
            n == self.total_slot + self.starting_slot,
    {
        self.total_slot + self.starting_slot
    }

    /// A new worker is wanted once the queued requests reach one and a half
    /// times the total slots; the comparison is made exactly, on integers.
    pub fn NeedNewWorker(&self, req_count: usize) -> (r: bool)
        requires
            self.total_slot + self.starting_slot <= usize::MAX,
        ensures
            r == (2 * req_count >= 3 * (self.total_slot + self.starting_slot)),
    {
        let total: usize = self.TotalSlot();
        let twice_reqs: u128 = (req_count as u128) * 2;
        let thrice_total: u128 = (total as u128) * 3;
        twice_reqs >= thrice_total
    }

    /// Adds `cnt` available slots; returns the new count.
    pub fn IncrSlot(&mut self, cnt: usize) -> (n: usize)
        requires
            old(self).available_slot + cnt <= usize::MAX,
        ensures
            n == old(self).available_slot + cnt,
            final(self).available_slot == n,
            final(self).total_slot == old(self).total_slot,
            final(self).starting_slot == old(self).starting_slot,
    {
        self.available_slot = self.available_slot + cnt;
        self.available_slot
    }

    /// Removes `cnt` available slots; returns the new count.
    pub fn DecrSlot(&mut self, cnt: usize) -> (n: usize)
        requires
            old(self).available_slot >= cnt,
        ensures
            n == old(self).available_slot - cnt,
            final(self).available_slot == n,
            final(self).total_slot == old(self).total_slot,
            final(self).starting_slot == old(self).starting_slot,
    {
        self.available_slot = self.available_slot - cnt;
        self.available_slot
    }
}

/// A worker that can take a request now: ready, with a free slot.
pub open spec fn has_free_slot(w: WorkerSlots) -> bool {
    (w.state == FuncWorkerState::Idle || w.state == FuncWorkerState::Processing) && w.ongoing
        < w.parallel_level
}

/// The first of `workers` that can take a request now, if any.
pub fn AvailableWorker(workers: &Vec<WorkerSlots>) -> (r: Option<usize>)
    requires
        forall|i: int|
            0 <= i < workers@.len() && (workers@[i].state == FuncWorkerState::Idle
                || workers@[i].state == FuncWorkerState::Processing) ==> #[trigger] workers@[i].ongoing
                <= workers@[i].parallel_level,
    ensures
        r matches Some(i) ==> i < workers@.len() && has_free_slot(workers@[i as int]) && forall|j: int|
            0 <= j < i ==> !has_free_slot(#[trigger] workers@[j]),
        r is None ==> forall|j: int| 0 <= j < workers@.len() ==> !has_free_slot(#[trigger] workers@[j]),
{
    let mut i: usize = 0;
    while i < workers.len()
        invariant
            i <= workers@.len(),
            forall|j: int| 0 <= j < i ==> !has_free_slot(#[trigger] workers@[j]),
            forall|k: int|
                0 <= k < workers@.len() && (workers@[k].state == FuncWorkerState::Idle
                    || workers@[k].state == FuncWorkerState::Processing) ==> #[trigger] workers@[k].ongoing
                    <= workers@[k].parallel_level,
        decreases workers@.len() - i,
    {
        if workers[i].AvailableSlot() > 0 {
            return Some(i);
        }
        i += 1;
    }
    None
}

/// Why leasing a worker from the scheduler failed.
#[derive(Debug)]
pub enum LeaseFailure {
    /// The scheduler answered with this error.
    Scheduler(String),
    /// Any other failure, by its debug text.
    Other(String),
}

/// The error a failed lease hands on.
#[derive(Debug, PartialEq, Eq)]
pub enum LeaseError {
    SchedulerErr(String),
    CommonError(String),
}

/// A lease error by view: whether it is the scheduler's, and its text.
pub open spec fn lease_error_view(e: LeaseError) -> (bool, Seq<char>) {
    match e {
        LeaseError::SchedulerErr(s) => (true, s@),
        LeaseError::CommonError(s) => (false, s@),
    }
}

/// The error handed on for a lease failure: a scheduler error stays one,
/// anything else becomes a common error with its debug text.
pub open spec fn lease_error_spec(f: LeaseFailure) -> (bool, Seq<char>) {
    match f {
        LeaseFailure::Scheduler(s) => (true, s@),
        LeaseFailure::Other(d) => (false, d@),
    }
}

fn lease_error(f: &LeaseFailure) -> (r: LeaseError)
    ensures
        lease_error_view(r) == lease_error_spec(*f),
{
    match f {
        LeaseFailure::Scheduler(s) => LeaseError::SchedulerErr(to_string(s.as_str())),
        LeaseFailure::Other(d) => LeaseError::CommonError(to_string(d.as_str())),
    }
}

/// A worker whose lease failed: it goes back to `Init`, its slots leave the
/// agent's starting slots, the worker is reported failed with the lease
/// error, and each of the `queued` requests waiting on it gets that error.
/// Returns the error to report with the worker and the errors for the
/// waiting requests, in order.
pub fn on_lease_failed(
    worker: &mut WorkerSlots,
    agent: &mut AgentCounters,
    failure: &LeaseFailure,
    queued: usize,
) -> (r: (LeaseError, Vec<LeaseError>))
    requires
        old(agent).starting_slot >= old(worker).parallel_level,
    ensures
        *final(worker) == (WorkerSlots { state: FuncWorkerState::Init, ..*old(worker) }),
        final(agent).starting_slot == old(agent).starting_slot - old(worker).parallel_level,
        final(agent).available_slot == old(agent).available_slot,
        final(agent).total_slot == old(agent).total_slot,
        final(agent).next_worker_id == old(agent).next_worker_id,
        final(agent).next_req_id == old(agent).next_req_id,
        final(agent).tenant == old(agent).tenant,
        final(agent).namespace == old(agent).namespace,
        final(agent).func_name == old(agent).func_name,
        lease_error_view(r.0) == lease_error_spec(*failure),
        r.1@.len() == queued,
        forall|i: int| 0 <= i < queued ==> lease_error_view(#[trigger] r.1@[i]) == lease_error_spec(*failure),
{
    agent.starting_slot = agent.starting_slot - worker.parallel_level;
    worker.state = FuncWorkerState::Init;
    let mut errs: Vec<LeaseError> = Vec::new();
    let mut i: usize = 0;
    while i < queued
        invariant
            i <= queued,
            errs@.len() == i,
            forall|j: int| 0 <= j < i ==> lease_error_view(#[trigger] errs@[j]) == lease_error_spec(*failure),
        decreases queued - i,
    {
        errs.push(lease_error(failure));
        i += 1;
    }
    (lease_error(failure), errs)
}

/// Request assignment to workers in turn, by counts: a worker without free
/// slots is skipped; a worker with `f` free slots takes `f` requests when
/// that many remain, else takes the rest and the loop then waits for
/// requests. Having served every worker, it waits for slots.
pub open spec fn assign_rest(ready: nat, free: Seq<nat>) -> (Seq<nat>, WaitState)
    decreases free.len(),
{
    if free.len() == 0 {
        (Seq::empty(), WaitState::WaitSlot)
    } else if ready < free[0] {
        (seq![ready] + Seq::new((free.len() - 1) as nat, |i: int| 0nat), WaitState::WaitReq)
    } else {
        let (rest, w) = assign_rest((ready - free[0]) as nat, free.drop_first());
        (seq![free[0]] + rest, w)
    }
}

/// The assignment of a scheduling pass: none and wait for requests when the
/// queue is empty; none and wait for slots when no slot is available; else
/// the turn-by-turn assignment of the requests still valid.
pub open spec fn assign_spec(queued: nat, ready: nat, available: nat, free: Seq<nat>) -> (
    Seq<nat>,
    WaitState,
) {
    if queued == 0 {
        (Seq::new(free.len(), |i: int| 0nat), WaitState::WaitReq)
    } else if available == 0 {
        (Seq::new(free.len(), |i: int| 0nat), WaitState::WaitSlot)
    } else {
        assign_rest(ready, free)
    }
}

/// Counts by view.
pub open spec fn counts_view(v: Seq<usize>) -> Seq<nat> {
    v.map_values(|x: usize| x as nat)
}

proof fn lemma_assign_rest_len(ready: nat, free: Seq<nat>)
    ensures
        assign_rest(ready, free).0.len() == free.len(),
    decreases free.len(),
{
    if free.len() > 0 && ready >= free[0] {
        lemma_assign_rest_len((ready - free[0]) as nat, free.drop_first());
    }
}

/// The sum of a sequence of counts.
pub open spec fn total(s: Seq<nat>) -> nat
    decreases s.len(),
{
    if s.len() == 0 {
        0
    } else {
        s[0] + total(s.drop_first())
    }
}

/// A sequence of zeros sums to zero.
proof fn lemma_total_zeros(n: nat)
    ensures
        total(Seq::new(n, |i: int| 0nat)) == 0,
    decreases n,
{
    if n > 0 {
        assert(Seq::new(n, |i: int| 0nat).drop_first() =~= Seq::new((n - 1) as nat, |i: int| 0nat));
        lemma_total_zeros((n - 1) as nat);
    }
}

/// See [`lemma_assign_within_bounds`].
proof fn lemma_assign_rest_bounds(ready: nat, free: Seq<nat>)
    ensures
        assign_rest(ready, free).0.len() == free.len(),
        forall|i: int| 0 <= i < free.len() ==> #[trigger] assign_rest(ready, free).0[i] <= free[i],
        total(assign_rest(ready, free).0) <= ready,
    decreases free.len(),
{
    if free.len() == 0 {
    } else if ready < free[0] {
        let z = Seq::new((free.len() - 1) as nat, |i: int| 0nat);
        let a = seq![ready] + z;
        assert(a.drop_first() =~= z);
        lemma_total_zeros((free.len() - 1) as nat);
        assert forall|i: int| 0 <= i < free.len() implies #[trigger] a[i] <= free[i] by {
            if i > 0 {
                assert(a[i] == z[i - 1]);
            }
        }
    } else {
        let r = (ready - free[0]) as nat;
        lemma_assign_rest_bounds(r, free.drop_first());
        let rest = assign_rest(r, free.drop_first()).0;
        let a = seq![free[0]] + rest;
        assert(a.drop_first() =~= rest);
        assert forall|i: int| 0 <= i < free.len() implies #[trigger] a[i] <= free[i] by {
            if i > 0 {
                assert(a[i] == rest[i - 1]);
                assert(free.drop_first()[i - 1] == free[i]);
            }
        }
    }
}

/// A scheduling pass never gives a worker more requests than it has free
/// slots, nor hands out more requests than are ready.
pub proof fn lemma_assign_within_bounds(queued: nat, ready: nat, available: nat, free: Seq<nat>)
    ensures
        assign_spec(queued, ready, available, free).0.len() == free.len(),
        forall|i: int|
            0 <= i < free.len() ==> #[trigger] assign_spec(queued, ready, available, free).0[i] <= free[i],
        total(assign_spec(queued, ready, available, free).0) <= ready,
{
    if queued == 0 || available == 0 {
        lemma_total_zeros(free.len());
    } else {
        lemma_assign_rest_bounds(ready, free);
    }
}

/// How many requests each worker takes in one scheduling pass, and what
/// the pass then waits for. `queued` is the queue length, `ready` the
/// requests left once timed-out ones are dropped, `available_slot` the
/// agent's free-slot count and `free` each worker's free slots, in order.
pub fn AssignReqs(queued: usize, ready: usize, available_slot: usize, free: &Vec<usize>) -> (r: (
    Vec<usize>,
    WaitState,
))
    ensures
        (counts_view(r.0@), r.1) == assign_spec(
            queued as nat,
            ready as nat,
            available_slot as nat,
            counts_view(free@),
        ),
{
    let ghost fv = counts_view(free@);
    if queued == 0 || available_slot == 0 {
        let mut z: Vec<usize> = Vec::new();
        let mut i: usize = 0;
        while i < free.len()
            invariant
                i <= free@.len(),
                z@.len() == i,
                forall|k: int| 0 <= k < i ==> z@[k] == 0,
            decreases free@.len() - i,
        {
            z.push(0);
            i += 1;
        }
        assert(counts_view(z@) =~= Seq::new(fv.len(), |i: int| 0nat));
        return (z, if queued == 0 { WaitState::WaitReq } else { WaitState::WaitSlot });
    }
    let mut out: Vec<usize> = Vec::new();
    let mut left: usize = ready;
    let mut i: usize = 0;
    assert(fv.skip(0) == fv);
    assert(counts_view(out@) =~= Seq::<nat>::empty());
    proof {
        let (rest, w) = assign_rest(ready as nat, fv);
        assert(Seq::<nat>::empty() + rest =~= rest);
    }
    while i < free.len()
        invariant
            i <= free@.len(),
            queued != 0,
            available_slot != 0,
            fv == counts_view(free@),
            left <= ready,
            assign_rest(ready as nat, fv) == ({
                let (rest, w) = assign_rest(left as nat, fv.skip(i as int));
                (counts_view(out@) + rest, w)
            }),
            out@.len() == i,
        decreases free@.len() - i,
    {
        let f = free[i];
        assert(fv.skip(i as int)[0] == f as nat);
        assert(fv.skip(i as int).drop_first() == fv.skip(i + 1));
        if left < f {
            let ghost before = counts_view(out@);
            out.push(left);
            let mut k: usize = i + 1;
            while k < free.len()
                invariant
                    i + 1 <= k <= free@.len(),
                    out@.len() == k,
                    counts_view(out@) == before.push(left as nat) + Seq::new(
                        (k - i - 1) as nat,
                        |j: int| 0nat,
                    ),
                decreases free@.len() - k,
            {
                let ghost b2 = counts_view(out@);
                out.push(0);
                assert(counts_view(out@) =~= b2.push(0nat));
                assert(b2.push(0nat) =~= before.push(left as nat) + Seq::new(
                    (k + 1 - i - 1) as nat,
                    |j: int| 0nat,
                ));
                k += 1;
            }
            proof {
                let t = fv.skip(i as int);
                assert(t.len() == free@.len() - i);
                assert(t[0] == f as nat);
                assert(assign_rest(left as nat, t) == (
                    seq![left as nat] + Seq::new((t.len() - 1) as nat, |j: int| 0nat),
                    WaitState::WaitReq,
                ));
            }
            assert(counts_view(out@) =~= before + (seq![left as nat] + Seq::new(
                (fv.skip(i as int).len() - 1) as nat,
                |j: int| 0nat,
            )));
            proof {
                let t = fv.skip(i as int);
                let tail = seq![left as nat] + Seq::new((t.len() - 1) as nat, |j: int| 0nat);
                assert(assign_rest(left as nat, t).0 == tail);
                assert(assign_rest(left as nat, t).1 == WaitState::WaitReq);
                assert(assign_rest(ready as nat, fv).0 == before + tail);
                assert(assign_rest(ready as nat, fv).1 == WaitState::WaitReq);
            }
            return (out, WaitState::WaitReq);
        }
        let ghost before = counts_view(out@);
        out.push(f);
        assert(counts_view(out@) =~= before.push(f as nat));
        proof {
            let (rest, w) = assign_rest((left - f) as nat, fv.skip(i + 1));
            assert(seq![f as nat] + rest =~= seq![f as nat] + rest);
            assert(before + (seq![f as nat] + rest) =~= before.push(f as nat) + rest);
        }
        left = left - f;
        i += 1;
    }
    assert(fv.skip(fv.len() as int) =~= Seq::<nat>::empty());
    assert(counts_view(out@) + Seq::<nat>::empty() =~= counts_view(out@));
    (out, WaitState::WaitSlot)
}

} // verus!
