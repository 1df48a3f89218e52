//! The bounded worker pool, as a verified state machine. The pool owns a
//! FIFO queue of submitted jobs (named by caller-chosen ids) and one state
//! per worker. Submission is refused once shutdown has begun; a worker takes
//! the front job, runs it, reports it finished, and stops only when the
//! queue is closed and empty. The unverified shell mirrors these transitions
//! with real threads: it performs a job's work between `take_job` and
//! `finish_job` and parks a worker thread when `take_job` answers `None`.

use vstd::prelude::*;
use vstd::multiset::Multiset;

verus! {

broadcast use {vstd::seq_lib::group_to_multiset_ensures, vstd::multiset::group_multiset_axioms};

/// One worker's place in its lifecycle.
#[derive(Clone, Copy, PartialEq, Eq, Structural, Debug)]
pub enum WorkerState {
    /// Waiting at the queue.
    Idle,
    /// Running the job with this id.
    Running(u64),
    /// Exited: the queue was closed and empty.
    Stopped,
}

/// The job a worker is running (zero for a worker that runs none).
pub open spec fn job_of(s: WorkerState) -> u64 {
    match s {
        WorkerState::Running(j) => j,
        _ => 0,
    }
}

/// The job a state contributes to the in-flight multiset.
pub open spec fn state_ms(s: WorkerState) -> Multiset<u64> {
    match s {
        WorkerState::Running(j) => Multiset::empty().insert(j),
        _ => Multiset::empty(),
    }
}

/// All jobs currently being run by some worker.
pub open spec fn running_ms(ws: Seq<WorkerState>) -> Multiset<u64>
    decreases ws.len(),
{
    if ws.len() == 0 {
        Multiset::empty()
    } else {
        running_ms(ws.drop_last()).add(state_ms(ws.last()))
    }
}

/// Changing one worker's state swaps its contribution, nothing else.
pub proof fn lemma_running_ms_update(ws: Seq<WorkerState>, w: int, v: WorkerState)
    requires
        0 <= w < ws.len(),
    ensures
        running_ms(ws.update(w, v)).add(state_ms(ws[w])) == running_ms(ws).add(state_ms(v)),
    decreases ws.len(),
{
    let u = ws.update(w, v);
    let b = running_ms(ws.drop_last());
    let sw = state_ms(ws[w]);
    let sv = state_ms(v);
    assert(running_ms(u) == running_ms(u.drop_last()).add(state_ms(u.last())));
    assert(running_ms(ws) == b.add(state_ms(ws.last())));
    if w == ws.len() - 1 {
        assert(u.drop_last() =~= ws.drop_last());
        assert(u.last() == v);
        assert(ws.last() == ws[w]);
        assert(running_ms(u) == b.add(sv));
        lemma_ms_add_swap(b, sv, sw);
        assert(running_ms(u).add(sw) == running_ms(ws).add(sv));
    } else {
        let dl = ws.drop_last();
        let dlu = dl.update(w, v);
        assert(u.drop_last() =~= dlu);
        assert(u.last() == ws.last());
        assert(dl[w] == ws[w]);
        lemma_running_ms_update(dl, w, v);
        let a = running_ms(dlu);
        let sl = state_ms(ws.last());
        assert(running_ms(u) == a.add(sl));
        assert(a.add(sw) == b.add(sv));
        lemma_ms_add_swap(a, sl, sw);
        assert(a.add(sw).add(sl) == b.add(sv).add(sl));
        lemma_ms_add_swap(b, sv, sl);
        assert(running_ms(u).add(sw) == running_ms(ws).add(sv));
    }
}

/// Adding two multisets one after the other commutes.
proof fn lemma_ms_add_swap(a: Multiset<u64>, b: Multiset<u64>, c: Multiset<u64>)
    ensures
        a.add(b).add(c) == a.add(c).add(b),
{
    broadcast use vstd::multiset::group_multiset_axioms;

    assert(a.add(b).add(c) =~= a.add(c).add(b));
}

/// Handing an idle worker the job `j` adds `j` to the in-flight jobs.
proof fn lemma_running_ms_take(ws: Seq<WorkerState>, w: int, j: u64)
    requires
        0 <= w < ws.len(),
        ws[w] is Idle,
    ensures
        running_ms(ws.update(w, WorkerState::Running(j))) == running_ms(ws).insert(j),
{
    broadcast use vstd::multiset::group_multiset_axioms;

    lemma_running_ms_update(ws, w, WorkerState::Running(j));
    let a = running_ms(ws.update(w, WorkerState::Running(j)));
    let b = running_ms(ws);
    assert forall|x: u64| a.count(x) == b.insert(j).count(x) by {
        assert(a.add(state_ms(ws[w])).count(x) == b.add(
            state_ms(WorkerState::Running(j)),
        ).count(x));
    }
    assert(a =~= b.insert(j));
}

/// An idle worker stopping leaves the in-flight jobs unchanged.
proof fn lemma_running_ms_stop(ws: Seq<WorkerState>, w: int)
    requires
        0 <= w < ws.len(),
        ws[w] is Idle,
    ensures
        running_ms(ws.update(w, WorkerState::Stopped)) == running_ms(ws),
{
    broadcast use vstd::multiset::group_multiset_axioms;

    lemma_running_ms_update(ws, w, WorkerState::Stopped);
    let a = running_ms(ws.update(w, WorkerState::Stopped));
    let b = running_ms(ws);
    assert forall|x: u64| a.count(x) == b.count(x) by {
        assert(a.add(state_ms(ws[w])).count(x) == b.add(
            state_ms(WorkerState::Stopped),
        ).count(x));
    }
    assert(a =~= b);
}

/// A running worker going idle takes exactly its job out of flight.
proof fn lemma_running_ms_finish(ws: Seq<WorkerState>, w: int)
    requires
        0 <= w < ws.len(),
        ws[w] is Running,
    ensures
        running_ms(ws) == running_ms(ws.update(w, WorkerState::Idle)).insert(job_of(ws[w])),
{
    broadcast use vstd::multiset::group_multiset_axioms;

    lemma_running_ms_update(ws, w, WorkerState::Idle);
    let a = running_ms(ws.update(w, WorkerState::Idle));
    let b = running_ms(ws);
    let j = job_of(ws[w]);
    assert(state_ms(ws[w]) == Multiset::<u64>::empty().insert(j));
    assert forall|x: u64| b.count(x) == a.insert(j).count(x) by {
        assert(a.add(state_ms(ws[w])).count(x) == b.add(state_ms(WorkerState::Idle)).count(x));
    }
    assert(b =~= a.insert(j));
}

/// Workers that run nothing contribute nothing.
pub proof fn lemma_running_ms_no_running(ws: Seq<WorkerState>)
    requires
        forall|i: int| 0 <= i < ws.len() ==> !((#[trigger] ws[i]) is Running),
    ensures
        running_ms(ws) == Multiset::<u64>::empty(),
    decreases ws.len(),
{
    if ws.len() > 0 {
        assert(forall|i: int|
            0 <= i < ws.drop_last().len() ==> !((#[trigger] ws.drop_last()[i]) is Running));
        lemma_running_ms_no_running(ws.drop_last());
        assert(running_ms(ws) =~= Multiset::<u64>::empty());
    }
}

/// Submission is refused after shutdown has begun.
#[derive(Clone, Copy, PartialEq, Eq, Structural, Debug)]
pub enum PoolError {
    ShutDown,
}

/// The worker pool: a FIFO job queue, one state per worker, and the record
/// of what was submitted and what has finished.
pub struct ThreadPool {
    /// One state per worker.
    pub workers: Vec<WorkerState>,
    /// Ids of submitted jobs not yet taken, oldest first.
    pub queue: Vec<u64>,
    /// True until shutdown begins; the sending side of the queue is live.
    pub accepting: bool,
    /// Every id ever accepted, in submission order.
    pub submitted: Vec<u64>,
    /// Every id run to completion, in completion order.
    pub executed: Vec<u64>,
}

impl ThreadPool {
    /// Every accepted job is in exactly one place: still queued, being run,
    /// or finished — and stopped workers mean the queue is closed and drained.
    pub open spec fn wf(self) -> bool {
        &&& self.workers@.len() > 0
        &&& self.submitted@.to_multiset() == self.queue@.to_multiset().add(
            running_ms(self.workers@),
        ).add(self.executed@.to_multiset())
        &&& ((exists|i: int|
            0 <= i < self.workers@.len() && (#[trigger] self.workers@[i]) is Stopped)
            ==> !self.accepting)
        &&& ((forall|i: int|
            0 <= i < self.workers@.len() ==> (#[trigger] self.workers@[i]) is Stopped)
            ==> self.queue@.len() == 0)
    }

    pub open spec fn all_stopped(self) -> bool {
        forall|i: int|
            0 <= i < self.workers@.len() ==> (#[trigger] self.workers@[i]) is Stopped
    }

    /// A pool of `worker_count` idle workers and an empty, open queue.
    pub fn new(worker_count: usize) -> (p: ThreadPool)
        requires
            worker_count > 0,
        ensures
            p.wf(),
            p.workers@.len() == worker_count,
            forall|i: int| 0 <= i < worker_count ==> (#[trigger] p.workers@[i]) is Idle,
            p.queue@ == Seq::<u64>::empty(),
            p.accepting,
            p.submitted@ == Seq::<u64>::empty(),
            p.executed@ == Seq::<u64>::empty(),
    {
        let mut workers: Vec<WorkerState> = Vec::new();
        let mut i: usize = 0;
        while i < worker_count
            invariant
                i <= worker_count,
                workers@.len() == i,
                forall|k: int| 0 <= k < i ==> (#[trigger] workers@[k]) is Idle,
            decreases worker_count - i,
        {
            workers.push(WorkerState::Idle);
            i += 1;
        }
        let p = ThreadPool {
            workers,
            queue: Vec::new(),
            accepting: true,
            submitted: Vec::new(),
            executed: Vec::new(),
        };
        proof {
            broadcast use {vstd::seq_lib::group_to_multiset_ensures, vstd::multiset::group_multiset_axioms};

            lemma_running_ms_no_running(p.workers@);
            assert(p.submitted@.to_multiset() =~= p.queue@.to_multiset().add(
                running_ms(p.workers@),
            ).add(p.executed@.to_multiset()));
        }
        p
    }

    /// Queues a job for whichever worker frees up first; refused once
    /// shutdown has begun, with the pool unchanged.
    pub fn execute(&mut self, job: u64) -> (r: Result<(), PoolError>)
        requires
            old(self).wf(),
        ensures
            final(self).wf(),
            step(*old(self), *final(self)),
            old(self).accepting ==> r is Ok && submit_rel(*old(self), *final(self), job),
            !old(self).accepting ==> (r matches Err(PoolError::ShutDown) && *final(self)
                == *old(self)),
    {
        if !self.accepting {
            return Err(PoolError::ShutDown);
        }
        self.queue.push(job);
        self.submitted.push(job);
        proof {
            broadcast use {vstd::seq_lib::group_to_multiset_ensures, vstd::multiset::group_multiset_axioms};

            assert(self.submitted@.to_multiset() =~= self.queue@.to_multiset().add(
                running_ms(self.workers@),
            ).add(self.executed@.to_multiset()));
            assert(submit_rel(*old(self), *self, job));
        }
        Ok(())
    }

    /// Closes the queue: nothing further is accepted, and workers that find
    /// it empty will stop.
    pub fn begin_shutdown(&mut self)
        requires
            old(self).wf(),
        ensures
            final(self).wf(),
            step(*old(self), *final(self)),
            shutdown_rel(*old(self), *final(self)),
    {
        self.accepting = false;
    }

    /// One worker's visit to the queue: it takes the front job and runs it,
    /// or — when the queue is closed and empty — stops. Blocks (has no
    /// effect) while the queue is empty but still open.
    pub fn take_job(&mut self, w: usize) -> (r: Option<u64>)
        requires
            old(self).wf(),
            w < old(self).workers@.len(),
            old(self).workers@[w as int] is Idle,
            old(self).queue@.len() > 0 || !old(self).accepting,
        ensures
            final(self).wf(),
            step(*old(self), *final(self)),
            take_rel(*old(self), *final(self), w as int),
            old(self).queue@.len() > 0 ==> r == Some(old(self).queue@[0]),
            old(self).queue@.len() == 0 ==> r is None && final(self).workers@[w as int]
                is Stopped,
    {
        let ghost pre = *self;
        if self.queue.len() > 0 {
            let j = self.queue.remove(0);
            self.workers[w] = WorkerState::Running(j);
            proof {
                broadcast use {vstd::seq_lib::group_to_multiset_ensures, vstd::multiset::group_multiset_axioms};

                lemma_running_ms_take(pre.workers@, w as int, j);
                assert(pre.queue@.contains(pre.queue@[0]));
                assert(pre.queue@.remove(0) =~= pre.queue@.drop_first());
                assert(self.queue@.to_multiset() == pre.queue@.to_multiset().remove(j));
                assert forall|x: u64|
                    self.submitted@.to_multiset().count(x) == self.queue@.to_multiset().add(
                        running_ms(self.workers@),
                    ).add(self.executed@.to_multiset()).count(x) by {
                    assert(pre.submitted@.to_multiset().count(x)
                        == pre.queue@.to_multiset().add(running_ms(pre.workers@)).add(
                        pre.executed@.to_multiset(),
                    ).count(x));
                    assert(pre.queue@.to_multiset().count(j) >= 1);
                    assert(running_ms(self.workers@).count(x) == running_ms(
                        pre.workers@,
                    ).insert(j).count(x));
                }
                assert(self.submitted@.to_multiset() =~= self.queue@.to_multiset().add(
                    running_ms(self.workers@),
                ).add(self.executed@.to_multiset()));
                assert(forall|i: int|
                    0 <= i < self.workers@.len() && (#[trigger] self.workers@[i])
                        is Stopped ==> pre.workers@[i] is Stopped);
                assert(!(self.workers@[w as int] is Stopped));
                assert(take_rel(*old(self), *self, w as int));
            }
            Some(j)
        } else {
            self.workers[w] = WorkerState::Stopped;
            proof {
                broadcast use {vstd::seq_lib::group_to_multiset_ensures, vstd::multiset::group_multiset_axioms};

                lemma_running_ms_stop(pre.workers@, w as int);
                assert(self.submitted@.to_multiset() == self.queue@.to_multiset().add(
                    running_ms(self.workers@),
                ).add(self.executed@.to_multiset()));
                assert(take_rel(*old(self), *self, w as int));
            }
            None
        }
    }

    /// The worker `w` has run its job to completion; the job is recorded as
    /// executed and the worker returns to the queue.
    pub fn finish_job(&mut self, w: usize)
        requires
            old(self).wf(),
            w < old(self).workers@.len(),
            old(self).workers@[w as int] is Running,
        ensures
            final(self).wf(),
            step(*old(self), *final(self)),
            finish_rel(*old(self), *final(self), w as int),
            final(self).executed@ == old(self).executed@.push(
                job_of(old(self).workers@[w as int]),
            ),
    {
        let ghost pre = *self;
        let j = match self.workers[w] {
            WorkerState::Running(j) => j,
            _ => 0,
        };
        self.workers[w] = WorkerState::Idle;
        self.executed.push(j);
        proof {
            broadcast use {vstd::seq_lib::group_to_multiset_ensures, vstd::multiset::group_multiset_axioms};

            lemma_running_ms_finish(pre.workers@, w as int);
            assert(job_of(pre.workers@[w as int]) == j);
            assert(self.executed@.to_multiset() == pre.executed@.to_multiset().insert(j));
            assert forall|x: u64|
                self.submitted@.to_multiset().count(x) == self.queue@.to_multiset().add(
                    running_ms(self.workers@),
                ).add(self.executed@.to_multiset()).count(x) by {
                assert(pre.submitted@.to_multiset().count(x) == pre.queue@.to_multiset().add(
                    running_ms(pre.workers@),
                ).add(pre.executed@.to_multiset()).count(x));
                assert(running_ms(pre.workers@).count(x) == running_ms(
                    self.workers@,
                ).insert(j).count(x));
            }
            assert(self.submitted@.to_multiset() =~= self.queue@.to_multiset().add(
                running_ms(self.workers@),
            ).add(self.executed@.to_multiset()));
            assert(forall|i: int|
                0 <= i < self.workers@.len() && (#[trigger] self.workers@[i])
                    is Stopped ==> pre.workers@[i] is Stopped);
            assert(!(self.workers@[w as int] is Stopped));
            assert(finish_rel(*old(self), *self, w as int));
        }
    }
}

/// A submission was accepted: the job joined the queue's tail.
pub open spec fn submit_rel(pre: ThreadPool, post: ThreadPool, job: u64) -> bool {
    &&& pre.accepting
    &&& post.accepting
    &&& post.workers@ == pre.workers@
    &&& post.queue@ == pre.queue@.push(job)
    &&& post.submitted@ == pre.submitted@.push(job)
    &&& post.executed@ == pre.executed@
}

/// A worker visited the queue: it took the front job, or stopped because
/// the queue was closed and empty.
pub open spec fn take_rel(pre: ThreadPool, post: ThreadPool, w: int) -> bool {
    &&& 0 <= w < pre.workers@.len()
    &&& pre.workers@[w] is Idle
    &&& pre.queue@.len() > 0 || !pre.accepting
    &&& post.accepting == pre.accepting
    &&& post.submitted@ == pre.submitted@
    &&& post.executed@ == pre.executed@
    &&& if pre.queue@.len() > 0 {
        post.workers@ == pre.workers@.update(w, WorkerState::Running(pre.queue@[0]))
            && post.queue@ == pre.queue@.drop_first()
    } else {
        post.workers@ == pre.workers@.update(w, WorkerState::Stopped) && post.queue@
            == pre.queue@
    }
}

/// A worker ran its job to completion and recorded it.
pub open spec fn finish_rel(pre: ThreadPool, post: ThreadPool, w: int) -> bool {
    &&& 0 <= w < pre.workers@.len()
    &&& pre.workers@[w] is Running
    &&& post.workers@ == pre.workers@.update(w, WorkerState::Idle)
    &&& post.queue@ == pre.queue@
    &&& post.accepting == pre.accepting
    &&& post.submitted@ == pre.submitted@
    &&& post.executed@ == pre.executed@.push(job_of(pre.workers@[w]))
}

/// Shutdown began: the queue is closed, everything else untouched.
pub open spec fn shutdown_rel(pre: ThreadPool, post: ThreadPool) -> bool {
    &&& post.workers@ == pre.workers@
    &&& post.queue@ == pre.queue@
    &&& !post.accepting
    &&& post.submitted@ == pre.submitted@
    &&& post.executed@ == pre.executed@
}

/// Everything the pool ever does between two observations: one transition,
/// or nothing.
pub open spec fn step(pre: ThreadPool, post: ThreadPool) -> bool {
    ||| exists|job: u64| submit_rel(pre, post, job)
    ||| exists|w: int| take_rel(pre, post, w)
    ||| exists|w: int| finish_rel(pre, post, w)
    ||| shutdown_rel(pre, post)
    ||| post == pre
}

/// Law: a pool constructed and at once shut down lets every worker stop —
/// none is left running or waiting, and no job was run.
pub fn shutdown_after_new_stops_all_workers(worker_count: usize) -> (p: ThreadPool)
    requires
        worker_count > 0,
    ensures
        p.wf(),
        p.all_stopped(),
        p.executed@.len() == 0,
{
    let mut p = ThreadPool::new(worker_count);
    p.begin_shutdown();
    let mut w: usize = 0;
    while w < worker_count
        invariant
            p.wf(),
            p.workers@.len() == worker_count,
            !p.accepting,
            p.queue@.len() == 0,
            p.executed@.len() == 0,
            w <= worker_count,
            forall|i: int| 0 <= i < w ==> (#[trigger] p.workers@[i]) is Stopped,
            forall|i: int| w <= i < worker_count ==> (#[trigger] p.workers@[i]) is Idle,
        decreases worker_count - w,
    {
        let _ = p.take_job(w);
        w += 1;
    }
    p
}

/// Law: when every worker has stopped, the jobs run to completion are
/// exactly the jobs that were submitted — each one exactly as many times as
/// it was submitted, none lost and none duplicated.
pub proof fn lemma_all_jobs_executed_exactly_once(p: ThreadPool)
    requires
        p.wf(),
        p.all_stopped(),
    ensures
        p.executed@.to_multiset() == p.submitted@.to_multiset(),
        forall|j: u64|
            p.executed@.to_multiset().count(j) == p.submitted@.to_multiset().count(j),
{
    broadcast use {vstd::seq_lib::group_to_multiset_ensures, vstd::multiset::group_multiset_axioms};

    lemma_running_ms_no_running(p.workers@);
    assert(p.queue@.to_multiset() =~= Multiset::<u64>::empty());
    assert(p.executed@.to_multiset() =~= p.submitted@.to_multiset());
}

/// Law: a job a worker has begun is never dropped — the only transition
/// that takes the worker out of `Running` records the job as executed and
/// returns the worker to the queue; shutdown cannot stop it mid-job.
pub proof fn lemma_running_job_not_dropped(pre: ThreadPool, post: ThreadPool, w: int, j: u64)
    requires
        step(pre, post),
        0 <= w < pre.workers@.len(),
        pre.workers@[w] == WorkerState::Running(j),
        post.workers@[w] != WorkerState::Running(j),
    ensures
        post.workers@[w] == WorkerState::Idle,
        post.executed@ == pre.executed@.push(j),
{
    if exists|job: u64| submit_rel(pre, post, job) {
        let job = choose|job: u64| submit_rel(pre, post, job);
        assert(post.workers@[w] == pre.workers@[w]);
    } else if exists|w2: int| take_rel(pre, post, w2) {
        let w2 = choose|w2: int| take_rel(pre, post, w2);
        assert(post.workers@[w] == pre.workers@[w]);
    } else if exists|w2: int| finish_rel(pre, post, w2) {
        let w2 = choose|w2: int| finish_rel(pre, post, w2);
        if w2 != w {
            assert(post.workers@[w] == pre.workers@[w]);
        }
    } else if shutdown_rel(pre, post) {
        assert(post.workers@[w] == pre.workers@[w]);
    } else {
        assert(post.workers@[w] == pre.workers@[w]);
    }
}

} // verus!
