//! The worker pool as a state machine. The pool owns the shared FIFO queue of
//! messages and the lifecycle of each worker; the threads that run jobs ask it
//! what to do next and report back when a job is finished. Every decision of
//! the termination protocol is made here.
use std::collections::VecDeque;
use vstd::prelude::*;

verus! {

/// What flows through the shared queue: a job to run, or the sentinel that
/// tells exactly one worker to stop.
pub enum Message<J> {
    NewJob(J),
    Terminate,
}

/// The lifecycle of one worker. `Idle` and `Busy` together are the running
/// state: a worker is `Busy` between taking a job and reporting it finished.
#[derive(PartialEq, Eq, Structural, Clone, Copy, Debug)]
pub enum WorkerState {
    Idle,
    Busy,
    Terminated,
}

/// What a worker that asked for work is told to do.
pub enum WorkerAction<J> {
    /// Run this job, then report it with `job_done`.
    Run(J),
    /// The queue is empty: block until something is sent, then ask again.
    Wait,
    /// A sentinel was taken: leave the loop.
    Exit,
}

/// The misuses that the pool detects and refuses.
#[derive(PartialEq, Eq, Structural, Clone, Copy, Debug)]
pub enum PoolError {
    /// A pool must have at least one worker.
    ZeroSize,
    /// Shutdown has begun: no job may be submitted and shutdown may not be
    /// started again.
    ShuttingDown,
    /// The worker index is not below the pool's size.
    NoSuchWorker,
    /// The worker asked for work while a job of its own is still running.
    WorkerBusy,
    /// The worker reported a finished job while it was running none.
    WorkerNotBusy,
    /// The worker asked for work after it had taken its sentinel.
    WorkerTerminated,
    /// A join was requested for a worker that has not terminated.
    NotTerminated,
    /// The worker's execution handle has already been joined.
    AlreadyJoined,
}

#[derive(Clone, Copy)]
struct Worker {
    id: usize,
    state: WorkerState,
    joined: bool,
}

/// The number of entries of `s` equal to `st`.
pub open spec fn count_state(s: Seq<WorkerState>, st: WorkerState) -> nat
    decreases s.len(),
{
    if s.len() == 0 {
        0
    } else {
        count_state(s.drop_last(), st) + if s.last() == st { 1nat } else { 0nat }
    }
}

/// The queue that holds the given pending jobs, in order, followed by `t`
/// sentinels.
pub open spec fn queue_of<J>(jobs: Seq<J>, t: nat) -> Seq<Message<J>> {
    jobs.map_values(|j: J| Message::NewJob(j)) + Seq::new(t, |i: int| Message::<J>::Terminate)
}

/// The abstract state of a pool.
pub struct PoolView<J> {
    /// The lifecycle state of each worker, by index.
    pub workers: Seq<WorkerState>,
    /// Whether each worker's execution handle has been joined.
    pub joined: Seq<bool>,
    /// The contents of the shared queue, front first.
    pub queue: Seq<Message<J>>,
    /// Whether shutdown has begun.
    pub closed: bool,
    /// Every job ever accepted, in submission order.
    pub submitted: Seq<J>,
    /// How many of the submitted jobs have been handed to a worker; they are
    /// always the first ones.
    pub dispatched: nat,
    /// For a busy worker, the submission index of the job it runs.
    pub running: Seq<int>,
    /// The submission indices of the finished jobs, in order of completion.
    pub finished: Seq<int>,
}

impl<J> PoolView<J> {
    pub open spec fn size(self) -> nat {
        self.workers.len()
    }

    /// The number of workers that have taken their sentinel.
    pub open spec fn exited(self) -> nat {
        count_state(self.workers, WorkerState::Terminated)
    }

    /// The number of workers running a job.
    pub open spec fn busy(self) -> nat {
        count_state(self.workers, WorkerState::Busy)
    }

    /// The sentinels still in the queue.
    pub open spec fn sentinels_left(self) -> nat {
        if self.closed {
            (self.size() - self.exited()) as nat
        } else {
            0
        }
    }

    pub open spec fn all_terminated(self) -> bool {
        forall|i: int| 0 <= i < self.size() ==> self.workers[i] == WorkerState::Terminated
    }

    pub open spec fn all_joined(self) -> bool {
        forall|i: int| 0 <= i < self.size() ==> self.joined[i]
    }

    /// A measure of what is left to do before every worker has terminated:
    /// each message still queued counts twice, each running job once.
    pub open spec fn remaining_work(self) -> nat {
        2 * self.queue.len() + self.busy()
    }

    /// The invariant of every pool.
    pub open spec fn inv(self) -> bool {
        &&& self.size() >= 1
        &&& self.joined.len() == self.size()
        &&& self.running.len() == self.size()
        &&& self.dispatched <= self.submitted.len()
        &&& self.exited() <= self.size()
        &&& !self.closed ==> self.exited() == 0
        &&& self.queue == queue_of(self.submitted.skip(self.dispatched as int), self.sentinels_left())
        &&& forall|i: int|
            0 <= i < self.size() && self.workers[i] == WorkerState::Terminated
                ==> self.dispatched == self.submitted.len()
        &&& forall|i: int| 0 <= i < self.size() && #[trigger] self.joined[i]
                ==> self.workers[i] == WorkerState::Terminated
        &&& self.finished.no_duplicates()
        &&& forall|k: int| #[trigger] self.finished.contains(k) ==> 0 <= k < self.dispatched
        &&& forall|i: int|
            0 <= i < self.size() && #[trigger] self.workers[i] == WorkerState::Busy ==> {
                &&& 0 <= self.running[i] < self.dispatched
                &&& !self.finished.contains(self.running[i])
            }
        &&& forall|i: int, j: int|
            0 <= i < self.size() && 0 <= j < self.size() && i != j
                && self.workers[i] == WorkerState::Busy && self.workers[j] == WorkerState::Busy
                ==> #[trigger] self.running[i] != #[trigger] self.running[j]
        &&& forall|k: int|
            0 <= k < self.dispatched ==> #[trigger] self.finished.contains(k) || exists|i: int|
                0 <= i < self.size() && self.workers[i] == WorkerState::Busy
                    && #[trigger] self.running[i] == k
    }
}

/// A fixed set of workers fed from one shared FIFO queue of jobs of type `J`.
pub struct ThreadPool<J> {
    workers: Vec<Worker>,
    queue: VecDeque<Message<J>>,
    closed: bool,
    submitted: Ghost<Seq<J>>,
    dispatched: Ghost<nat>,
    running: Ghost<Seq<int>>,
    finished: Ghost<Seq<int>>,
}

impl<J> View for ThreadPool<J> {
    type V = PoolView<J>;

    closed spec fn view(&self) -> PoolView<J> {
        PoolView {
            workers: self.workers@.map_values(|w: Worker| w.state),
            joined: self.workers@.map_values(|w: Worker| w.joined),
            queue: self.queue@,
            closed: self.closed,
            submitted: self.submitted@,
            dispatched: self.dispatched@,
            running: self.running@,
            finished: self.finished@,
        }
    }
}

/// Replacing entry `i` by `x` takes off what the old entry counted and adds
/// what `x` counts.
proof fn lemma_count_update(s: Seq<WorkerState>, i: int, x: WorkerState, st: WorkerState)
    requires
        0 <= i < s.len(),
    ensures
        count_state(s.update(i, x), st) as int == count_state(s, st) as int
            - (if s[i] == st { 1int } else { 0int }) + (if x == st { 1int } else { 0int }),
    decreases s.len(),
{
    let t = s.update(i, x);
    if i == s.len() - 1 {
        assert(t.drop_last() =~= s.drop_last());
    } else {
        assert(t.drop_last() =~= s.drop_last().update(i, x));
        lemma_count_update(s.drop_last(), i, x, st);
    }
}

pub(crate) proof fn lemma_count_bound(s: Seq<WorkerState>, st: WorkerState)
    ensures
        count_state(s, st) <= s.len(),
        (exists|i: int| 0 <= i < s.len() && s[i] != st) ==> count_state(s, st) < s.len(),
        (forall|i: int| 0 <= i < s.len() ==> s[i] != st) ==> count_state(s, st) == 0,
        (exists|i: int| 0 <= i < s.len() && s[i] == st) ==> count_state(s, st) > 0,
        (forall|i: int| 0 <= i < s.len() ==> s[i] == st) ==> count_state(s, st) == s.len(),
    decreases s.len(),
{
    if s.len() > 0 {
        lemma_count_bound(s.drop_last(), st);
        if forall|i: int| 0 <= i < s.len() ==> s[i] == st {
            assert forall|i: int| 0 <= i < s.drop_last().len() implies s.drop_last()[i] == st by {
                assert(s[i] == st);
            }
        }
        if exists|i: int| 0 <= i < s.len() && s[i] == st {
            let i = choose|i: int| 0 <= i < s.len() && s[i] == st;
            if i < s.len() - 1 {
                assert(s.drop_last()[i] == st);
            }
        }
        if exists|i: int| 0 <= i < s.len() && s[i] != st {
            let i = choose|i: int| 0 <= i < s.len() && s[i] != st;
            if i < s.len() - 1 {
                assert(s.drop_last()[i] != st);
            }
        }
        if forall|i: int| 0 <= i < s.len() ==> s[i] != st {
            assert forall|i: int| 0 <= i < s.drop_last().len() implies s.drop_last()[i] != st by {
                assert(s[i] != st);
            }
        }
    }
}

impl<J> ThreadPool<J> {
    /// The pool's invariant; every operation keeps it.
    pub open spec fn wf(&self) -> bool {
        self.ids_match() && self@.inv()
    }

    /// Each worker knows its own index.
    pub closed spec fn ids_match(&self) -> bool {
        forall|i: int| 0 <= i < self.workers@.len() ==> (#[trigger] self.workers@[i]).id == i
    }

    /// Creates a pool of `size` idle workers and an empty queue.
    pub fn new(size: usize) -> (r: Self)
        requires
            size > 0,
        ensures
            r.wf(),
            r@.size() == size,
            r@.workers == Seq::new(size as nat, |i: int| WorkerState::Idle),
            r@.joined == Seq::new(size as nat, |i: int| false),
            r@.queue.len() == 0,
            !r@.closed,
            r@.submitted.len() == 0,
            r@.dispatched == 0,
            r@.finished.len() == 0,
    {
        let mut workers: Vec<Worker> = Vec::with_capacity(size);
        let mut id: usize = 0;
        while id < size
            invariant
                id <= size,
                workers@.len() == id,
                forall|i: int| 0 <= i < id ==> (#[trigger] workers@[i]) == (Worker {
                    id: i as usize,
                    state: WorkerState::Idle,
                    joined: false,
                }),
            decreases size - id,
        {
            workers.push(Worker { id, state: WorkerState::Idle, joined: false });
            id = id + 1;
        }
        let r = ThreadPool {
            workers,
            queue: VecDeque::new(),
            closed: false,
            submitted: Ghost(Seq::empty()),
            dispatched: Ghost(0),
            running: Ghost(Seq::new(size as nat, |i: int| -1)),
            finished: Ghost(Seq::empty()),
        };
        proof {
            assert(r@.workers =~= Seq::new(size as nat, |i: int| WorkerState::Idle));
            assert(r@.joined =~= Seq::new(size as nat, |i: int| false));
            lemma_count_bound(r@.workers, WorkerState::Terminated);
            lemma_count_bound(r@.workers, WorkerState::Busy);
            assert(r@.queue =~= queue_of(r@.submitted.skip(0), 0));
        }
        r
    }

    /// Submits a job: it goes to the back of the queue. Refused once shutdown
    /// has begun, with the pool left as it was.
    pub fn execute(&mut self, job: J) -> (r: Result<(), PoolError>)
        requires
            old(self).wf(),
        ensures
            final(self).wf(),
            old(self)@.closed ==> r == Err::<(), PoolError>(PoolError::ShuttingDown)
                && final(self)@ == old(self)@,
            !old(self)@.closed ==> r is Ok && final(self)@ == (PoolView {
                queue: old(self)@.queue.push(Message::NewJob(job)),
                submitted: old(self)@.submitted.push(job),
                ..old(self)@
            }),
    {
        if self.closed {
            return Err(PoolError::ShuttingDown);
        }
        let ghost pre = self@;
        proof {
            lemma_count_bound(pre.workers, WorkerState::Terminated);
            self.submitted@ = self.submitted@.push(job);
        }
        self.queue.push_back(Message::NewJob(job));
        proof {
            assert(self@.queue =~= queue_of(self@.submitted.skip(self@.dispatched as int), 0));
            assert forall|k: int| self@.finished.contains(k) implies 0 <= k < self@.dispatched by {
                assert(pre.finished.contains(k));
            }
        }
        Ok(())
    }

    /// Begins shutdown: sends one sentinel per worker, after every job already
    /// queued. Refused if shutdown has already begun.
    pub fn shutdown(&mut self) -> (r: Result<(), PoolError>)
        requires
            old(self).wf(),
        ensures
            final(self).wf(),
            old(self)@.closed ==> r == Err::<(), PoolError>(PoolError::ShuttingDown)
                && final(self)@ == old(self)@,
            !old(self)@.closed ==> r is Ok && final(self)@ == (PoolView {
                queue: old(self)@.queue + Seq::new(old(self)@.size(), |i: int| Message::<J>::Terminate),
                closed: true,
                ..old(self)@
            }),
    {
        if self.closed {
            return Err(PoolError::ShuttingDown);
        }
        let ghost pre = self@;
        let n = self.workers.len();
        let mut i: usize = 0;
        while i < n
            invariant
                n == self.workers@.len(),
                i <= n,
                self.workers@ == old(self).workers@,
                self.closed == old(self).closed,
                self.submitted == old(self).submitted,
                self.dispatched == old(self).dispatched,
                self.running == old(self).running,
                self.finished == old(self).finished,
                self.queue@ == pre.queue + Seq::new(i as nat, |j: int| Message::<J>::Terminate),
            decreases n - i,
        {
            self.queue.push_back(Message::Terminate);
            i = i + 1;
            proof {
                assert(self.queue@ =~= pre.queue + Seq::new(i as nat, |j: int| Message::<J>::Terminate));
            }
        }
        self.closed = true;
        proof {
            assert(self@.queue =~= queue_of(self@.submitted.skip(self@.dispatched as int), self@.sentinels_left()));
        }
        Ok(())
    }

    /// The decision a worker's loop makes each time round: worker `w` asks for
    /// its next message. An idle worker takes the front of the queue: a job
    /// makes it busy, a sentinel terminates it, and an empty queue tells it to
    /// wait. A worker that is busy, terminated or unknown is refused, with the
    /// pool left as it was.
    pub fn take_action(&mut self, w: usize) -> (r: Result<WorkerAction<J>, PoolError>)
        requires
            old(self).wf(),
        ensures
            final(self).wf(),
            w >= old(self)@.size() ==> r == Err::<WorkerAction<J>, PoolError>(PoolError::NoSuchWorker)
                && final(self)@ == old(self)@,
            w < old(self)@.size() && old(self)@.workers[w as int] == WorkerState::Busy
                ==> r == Err::<WorkerAction<J>, PoolError>(PoolError::WorkerBusy)
                && final(self)@ == old(self)@,
            w < old(self)@.size() && old(self)@.workers[w as int] == WorkerState::Terminated
                ==> r == Err::<WorkerAction<J>, PoolError>(PoolError::WorkerTerminated)
                && final(self)@ == old(self)@,
            w < old(self)@.size() && old(self)@.workers[w as int] == WorkerState::Idle
                && old(self)@.queue.len() == 0 ==> r == Ok::<WorkerAction<J>, PoolError>(WorkerAction::Wait)
                && final(self)@ == old(self)@,
            w < old(self)@.size() && old(self)@.workers[w as int] == WorkerState::Idle
                && old(self)@.queue.len() > 0 && old(self)@.queue[0] is NewJob ==> {
                &&& r == Ok::<WorkerAction<J>, PoolError>(WorkerAction::Run(old(self)@.queue[0]->0))
                &&& old(self)@.queue[0]->0 == old(self)@.submitted[old(self)@.dispatched as int]
                &&& final(self)@ == (PoolView {
                    workers: old(self)@.workers.update(w as int, WorkerState::Busy),
                    queue: old(self)@.queue.drop_first(),
                    dispatched: old(self)@.dispatched + 1,
                    running: old(self)@.running.update(w as int, old(self)@.dispatched as int),
                    ..old(self)@
                })
            },
            w < old(self)@.size() && old(self)@.workers[w as int] == WorkerState::Idle
                && old(self)@.queue.len() > 0 && old(self)@.queue[0] is Terminate ==> {
                &&& r == Ok::<WorkerAction<J>, PoolError>(WorkerAction::Exit)
                &&& final(self)@ == (PoolView {
                    workers: old(self)@.workers.update(w as int, WorkerState::Terminated),
                    queue: old(self)@.queue.drop_first(),
                    ..old(self)@
                })
            },
            r matches Ok(a) && !(a is Wait) ==> final(self)@.remaining_work() < old(self)@.remaining_work(),
    {
        if w >= self.workers.len() {
            return Err(PoolError::NoSuchWorker);
        }
        let worker = self.workers[w];
        match worker.state {
            WorkerState::Busy => {
                return Err(PoolError::WorkerBusy);
            },
            WorkerState::Terminated => {
                return Err(PoolError::WorkerTerminated);
            },
            WorkerState::Idle => {},
        }
        let ghost pre = self@;
        proof {
            lemma_count_bound(pre.workers, WorkerState::Terminated);
            lemma_count_update(pre.workers, w as int, WorkerState::Busy, WorkerState::Busy);
            lemma_count_update(pre.workers, w as int, WorkerState::Busy, WorkerState::Terminated);
            lemma_count_update(pre.workers, w as int, WorkerState::Terminated, WorkerState::Busy);
            lemma_count_update(pre.workers, w as int, WorkerState::Terminated, WorkerState::Terminated);
        }
        match self.queue.pop_front() {
            None => Ok(WorkerAction::Wait),
            Some(Message::NewJob(job)) => {
                let d = Ghost(self.dispatched@);
                proof {
                    let rest = pre.submitted.skip(d@ as int);
                    if rest.len() == 0 {
                        assert(pre.queue[0] == Message::<J>::Terminate);
                    }
                    assert(pre.queue[0] == Message::NewJob(rest[0]));
                    self.dispatched@ = d@ + 1;
                    self.running@ = self.running@.update(w as int, d@ as int);
                }
                self.workers[w] = Worker { id: worker.id, state: WorkerState::Busy, joined: worker.joined };
                proof {
                    assert(self@.workers =~= pre.workers.update(w as int, WorkerState::Busy));
                    assert(self@.joined =~= pre.joined);
                    assert(self@.queue =~= queue_of(self@.submitted.skip(self@.dispatched as int), self@.sentinels_left()));
                    assert forall|i: int| 0 <= i < self.workers@.len() implies (#[trigger] self.workers@[i]).id == i by {
                        if i != w {
                            assert(old(self).workers@[i].id == i);
                        }
                    }
                    let v = self@;
                    assert forall|k: int| 0 <= k < v.dispatched implies #[trigger] v.finished.contains(k) || exists|i: int|
                        0 <= i < v.size() && v.workers[i] == WorkerState::Busy && #[trigger] v.running[i] == k by {
                        if k == d@ {
                            assert(v.running[w as int] == k);
                        } else if !v.finished.contains(k) {
                            let i = choose|i: int| 0 <= i < pre.size() && pre.workers[i] == WorkerState::Busy && #[trigger] pre.running[i] == k;
                            assert(v.running[i] == k);
                        }
                    }
                    assert forall|i: int, j: int|
                        0 <= i < v.size() && 0 <= j < v.size() && i != j
                            && v.workers[i] == WorkerState::Busy && v.workers[j] == WorkerState::Busy
                            implies #[trigger] v.running[i] != #[trigger] v.running[j] by {
                        if i != w && j != w {
                            assert(pre.running[i] != pre.running[j]);
                        }
                    }
                }
                Ok(WorkerAction::Run(job))
            },
            Some(Message::Terminate) => {
                proof {
                    let rest = pre.submitted.skip(self.dispatched@ as int);
                    if rest.len() > 0 {
                        assert(pre.queue[0] == Message::NewJob(rest[0]));
                    }
                }
                self.workers[w] = Worker { id: worker.id, state: WorkerState::Terminated, joined: worker.joined };
                proof {
                    assert(self@.workers =~= pre.workers.update(w as int, WorkerState::Terminated));
                    assert(self@.joined =~= pre.joined);
                    assert(self@.queue =~= queue_of(self@.submitted.skip(self@.dispatched as int), self@.sentinels_left()));
                    assert forall|i: int| 0 <= i < self.workers@.len() implies (#[trigger] self.workers@[i]).id == i by {
                        if i != w {
                            assert(old(self).workers@[i].id == i);
                        }
                    }
                    let v = self@;
                    assert forall|k: int| 0 <= k < v.dispatched implies #[trigger] v.finished.contains(k) || exists|i: int|
                        0 <= i < v.size() && v.workers[i] == WorkerState::Busy && #[trigger] v.running[i] == k by {
                        if !v.finished.contains(k) {
                            let i = choose|i: int| 0 <= i < pre.size() && pre.workers[i] == WorkerState::Busy && #[trigger] pre.running[i] == k;
                            assert(v.running[i] == k);
                        }
                    }
                }
                Ok(WorkerAction::Exit)
            },
        }
    }

    /// Worker `w` reports that the job it took has run to completion: it is
    /// idle again and that job is counted as finished. Refused, with the pool
    /// left as it was, for a worker that runs no job.
    pub fn job_done(&mut self, w: usize) -> (r: Result<(), PoolError>)
        requires
            old(self).wf(),
        ensures
            final(self).wf(),
            w >= old(self)@.size() ==> r == Err::<(), PoolError>(PoolError::NoSuchWorker)
                && final(self)@ == old(self)@,
            w < old(self)@.size() && old(self)@.workers[w as int] != WorkerState::Busy
                ==> r == Err::<(), PoolError>(PoolError::WorkerNotBusy) && final(self)@ == old(self)@,
            w < old(self)@.size() && old(self)@.workers[w as int] == WorkerState::Busy ==> {
                &&& r is Ok
                &&& !old(self)@.finished.contains(old(self)@.running[w as int])
                &&& final(self)@ == (PoolView {
                    workers: old(self)@.workers.update(w as int, WorkerState::Idle),
                    finished: old(self)@.finished.push(old(self)@.running[w as int]),
                    ..old(self)@
                })
            },
            r is Ok ==> final(self)@.remaining_work() < old(self)@.remaining_work(),
    {
        if w >= self.workers.len() {
            return Err(PoolError::NoSuchWorker);
        }
        let worker = self.workers[w];
        if worker.state != WorkerState::Busy {
            return Err(PoolError::WorkerNotBusy);
        }
        let ghost pre = self@;
        proof {
            lemma_count_update(pre.workers, w as int, WorkerState::Idle, WorkerState::Busy);
            lemma_count_update(pre.workers, w as int, WorkerState::Idle, WorkerState::Terminated);
            self.finished@ = self.finished@.push(pre.running[w as int]);
        }
        self.workers[w] = Worker { id: worker.id, state: WorkerState::Idle, joined: worker.joined };
        proof {
            assert(self@.workers =~= pre.workers.update(w as int, WorkerState::Idle));
            assert(self@.joined =~= pre.joined);
            assert forall|i: int| 0 <= i < self.workers@.len() implies (#[trigger] self.workers@[i]).id == i by {
                if i != w {
                    assert(old(self).workers@[i].id == i);
                }
            }
            let v = self@;
            let k0 = pre.running[w as int];
            assert forall|k: int| #[trigger] v.finished.contains(k) implies 0 <= k < v.dispatched by {
                if k != k0 {
                    assert(pre.finished.contains(k));
                }
            }
            assert forall|i: int| 0 <= i < v.size() && #[trigger] v.workers[i] == WorkerState::Busy implies {
                &&& 0 <= v.running[i] < v.dispatched
                &&& !v.finished.contains(v.running[i])
            } by {
                assert(pre.workers[i] == WorkerState::Busy);
                assert(pre.running[i] != k0);
            }
            assert forall|k: int| 0 <= k < v.dispatched implies #[trigger] v.finished.contains(k) || exists|i: int|
                0 <= i < v.size() && v.workers[i] == WorkerState::Busy && #[trigger] v.running[i] == k by {
                if k == k0 {
                    assert(v.finished[v.finished.len() - 1] == k);
                } else if pre.finished.contains(k) {
                    let j = choose|j: int| 0 <= j < pre.finished.len() && pre.finished[j] == k;
                    assert(v.finished[j] == k);
                } else {
                    let i = choose|i: int| 0 <= i < pre.size() && pre.workers[i] == WorkerState::Busy && #[trigger] pre.running[i] == k;
                    assert(i != w);
                    assert(v.running[i] == k);
                }
            }
        }
        Ok(())
    }

    /// Records that worker `w`'s execution handle has been joined. This happens
    /// once per worker, and only after the worker has terminated; any other
    /// request is refused, with the pool left as it was.
    pub fn join_worker(&mut self, w: usize) -> (r: Result<(), PoolError>)
        requires
            old(self).wf(),
        ensures
            final(self).wf(),
            w >= old(self)@.size() ==> r == Err::<(), PoolError>(PoolError::NoSuchWorker)
                && final(self)@ == old(self)@,
            w < old(self)@.size() && old(self)@.joined[w as int]
                ==> r == Err::<(), PoolError>(PoolError::AlreadyJoined) && final(self)@ == old(self)@,
            w < old(self)@.size() && !old(self)@.joined[w as int]
                && old(self)@.workers[w as int] != WorkerState::Terminated
                ==> r == Err::<(), PoolError>(PoolError::NotTerminated) && final(self)@ == old(self)@,
            w < old(self)@.size() && !old(self)@.joined[w as int]
                && old(self)@.workers[w as int] == WorkerState::Terminated ==> r is Ok
                && final(self)@ == (PoolView { joined: old(self)@.joined.update(w as int, true), ..old(self)@ }),
    {
        if w >= self.workers.len() {
            return Err(PoolError::NoSuchWorker);
        }
        let worker = self.workers[w];
        if worker.joined {
            return Err(PoolError::AlreadyJoined);
        }
        if worker.state != WorkerState::Terminated {
            return Err(PoolError::NotTerminated);
        }
        let ghost pre = self@;
        self.workers[w] = Worker { id: worker.id, state: worker.state, joined: true };
        proof {
            assert(self@.workers =~= pre.workers);
            assert(self@.joined =~= pre.joined.update(w as int, true));
            assert forall|i: int| 0 <= i < self.workers@.len() implies (#[trigger] self.workers@[i]).id == i by {
                if i != w {
                    assert(old(self).workers@[i].id == i);
                }
            }
        }
        Ok(())
    }

    /// Creates a pool of `size` workers, refusing a size of zero.
    pub fn try_new(size: usize) -> (r: Result<Self, PoolError>)
        ensures
            size == 0 ==> r == Err::<Self, PoolError>(PoolError::ZeroSize),
            size > 0 ==> (r matches Ok(p) && p.wf() && p@.size() == size && !p@.closed
                && p@.queue.len() == 0 && p@.submitted.len() == 0
                && p@.workers == Seq::new(size as nat, |i: int| WorkerState::Idle)),
    {
        if size == 0 {
            Err(PoolError::ZeroSize)
        } else {
            Ok(ThreadPool::new(size))
        }
    }

    /// The number of workers.
    pub fn size(&self) -> (r: usize)
        requires
            self.wf(),
        ensures
            r == self@.size(),
    {
        self.workers.len()
    }

    /// The number of messages waiting in the queue.
    pub fn pending(&self) -> (r: usize)
        ensures
            r == self@.queue.len(),
    {
        self.queue.len()
    }

    /// Whether shutdown has begun.
    pub fn is_shutting_down(&self) -> (r: bool)
        ensures
            r == self@.closed,
    {
        self.closed
    }

    /// The lifecycle state of worker `w`, if there is such a worker.
    pub fn worker_state(&self, w: usize) -> (r: Option<WorkerState>)
        requires
            self.wf(),
        ensures
            w < self@.size() ==> r == Some(self@.workers[w as int]),
            w >= self@.size() ==> r is None,
    {
        if w < self.workers.len() {
            Some(self.workers[w].state)
        } else {
            None
        }
    }

    /// Whether shutdown is complete: every worker's handle has been joined.
    pub fn is_shut_down(&self) -> (r: bool)
        requires
            self.wf(),
        ensures
            r == self@.all_joined(),
    {
        let n = self.workers.len();
        let mut i: usize = 0;
        while i < n
            invariant
                n == self@.size(),
                i <= n,
                forall|j: int| 0 <= j < i ==> self@.joined[j],
            decreases n - i,
        {
            proof {
                assert(self@.joined[i as int] == self.workers@[i as int].joined);
            }
            if !self.workers[i].joined {
                return false;
            }
            i = i + 1;
        }
        true
    }
}

} // verus!
