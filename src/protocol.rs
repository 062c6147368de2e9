//! Properties of the termination protocol that hold of every pool the
//! operations of `ThreadPool` can produce.
use vstd::prelude::*;
use vstd::set_lib::{lemma_int_range, set_int_range};
use crate::pool::{lemma_count_bound, ThreadPool, WorkerState};

verus! {

/// Once every worker has terminated, every submitted job has been handed out
/// and run to completion exactly once: the finished jobs are the submission
/// indices `0..K`, each once, so their number is the number `K` of jobs
/// submitted. Nothing is left in the queue.
pub proof fn lemma_every_job_runs_once<J>(pool: &ThreadPool<J>)
    requires
        pool.wf(),
        pool@.all_terminated(),
    ensures
        pool@.dispatched == pool@.submitted.len(),
        pool@.finished.no_duplicates(),
        forall|k: int| 0 <= k < pool@.submitted.len() ==> #[trigger] pool@.finished.contains(k),
        forall|k: int| #[trigger] pool@.finished.contains(k) ==> 0 <= k < pool@.submitted.len(),
        pool@.finished.len() == pool@.submitted.len(),
        pool@.queue.len() == 0,
{
    let v = pool@;
    assert(v.workers[0] == WorkerState::Terminated);
    let n = v.submitted.len();
    assert forall|k: int| 0 <= k < n implies #[trigger] v.finished.contains(k) by {
        if !v.finished.contains(k) {
            let i = choose|i: int| 0 <= i < v.size() && v.workers[i] == WorkerState::Busy && #[trigger] v.running[i] == k;
            assert(v.workers[i] == WorkerState::Terminated);
        }
    }
    assert(v.finished.to_set() =~= set_int_range(0, n as int));
    v.finished.unique_seq_to_set();
    lemma_int_range(0, n as int);
    lemma_count_bound(v.workers, WorkerState::Terminated);
    assert(v.queue.len() == v.submitted.skip(v.dispatched as int).len() + v.sentinels_left());
}

/// When any worker has taken its sentinel, every job submitted before
/// shutdown began has already been handed to a worker: it has finished, or
/// another worker is running it.
pub proof fn lemma_jobs_precede_sentinels<J>(pool: &ThreadPool<J>, w: int)
    requires
        pool.wf(),
        0 <= w < pool@.size(),
        pool@.workers[w] == WorkerState::Terminated,
    ensures
        pool@.closed,
        pool@.dispatched == pool@.submitted.len(),
        forall|k: int| 0 <= k < pool@.submitted.len() ==> #[trigger] pool@.finished.contains(k) || exists|i: int|
            0 <= i < pool@.size() && pool@.workers[i] == WorkerState::Busy && #[trigger] pool@.running[i] == k,
{
    lemma_count_bound(pool@.workers, WorkerState::Terminated);
}

/// After shutdown has begun, while some worker has not terminated, the queue
/// still holds a sentinel for each such worker. A live worker that asks for
/// work is therefore never told to wait forever; each step it takes lowers
/// `remaining_work`, so every worker terminates provided each job returns.
pub proof fn lemma_shutdown_progress<J>(pool: &ThreadPool<J>)
    requires
        pool.wf(),
        pool@.closed,
        !pool@.all_terminated(),
    ensures
        pool@.sentinels_left() > 0,
        pool@.queue.len() >= pool@.sentinels_left(),
        pool@.remaining_work() > 0,
{
    let v = pool@;
    lemma_count_bound(v.workers, WorkerState::Terminated);
}

/// Shutdown is complete only when every worker has terminated: a handle is
/// joined only after its worker has taken its sentinel.
pub proof fn lemma_joined_only_when_terminated<J>(pool: &ThreadPool<J>)
    requires
        pool.wf(),
        pool@.all_joined(),
    ensures
        pool@.all_terminated(),
{
    assert forall|i: int| 0 <= i < pool@.size() implies pool@.workers[i] == WorkerState::Terminated by {
        assert(pool@.joined[i]);
    }
}

} // verus!
