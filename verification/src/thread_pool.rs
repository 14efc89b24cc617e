//! The scheduling rules of a fixed-size worker pool: which job goes to which
//! worker, when a worker leaves, and when the pool has shut down. The pool
//! holds the jobs and the state of each worker; the threads that run the jobs
//! ask it what to do next and tell it when a job is done.

use vstd::prelude::*;

verus! {

/// Why the pool refused a call.
#[derive(Clone, Copy, Debug, PartialEq, Eq)]
pub enum PoolError {
    /// A pool needs at least one worker.
    ConfigError,
    /// Submission was closed before the job came.
    PoolClosed,
}

/// What a worker is doing.
#[derive(Clone, Copy, Debug, PartialEq, Eq)]
pub enum WorkerState {
    /// Waiting for a job.
    Idle,
    /// Running a job.
    Busy,
    /// Gone for good: it saw submission closed and no job left.
    Exited,
}

/// What a worker that asked for a job is to do.
#[derive(Debug)]
pub enum Step<J> {
    /// Run this job, then report that it is done.
    Run(J),
    /// Nothing is pending: wait until something changes, then ask again.
    Wait,
    /// Submission is closed and nothing is pending: leave.
    Exit,
}

/// The number of busy workers among `w`.
pub open spec fn busy_count(w: Seq<WorkerState>) -> nat
    decreases w.len(),
{
    if w.len() == 0 {
        0
    } else {
        busy_count(w.drop_last()) + if w.last() is Busy {
            1nat
        } else {
            0nat
        }
    }
}

/// Whether every worker of `w` has left.
pub open spec fn all_exited(w: Seq<WorkerState>) -> bool {
    forall|i: int| 0 <= i < w.len() ==> #[trigger] w[i] is Exited
}

/// Whether some worker of `w` has left.
pub open spec fn some_exited(w: Seq<WorkerState>) -> bool {
    exists|i: int| 0 <= i < w.len() && #[trigger] w[i] is Exited
}

/// The pool as mathematical values.
pub struct PoolModel<J> {
    /// The number of workers.
    pub size: nat,
    /// Whether jobs are still accepted.
    pub open: bool,
    /// What each worker is doing, by its id.
    pub workers: Seq<WorkerState>,
    /// Every job that was ever accepted, in the order of submission.
    pub accepted: Seq<J>,
    /// The jobs that wait for a worker, first come first.
    pub pending: Seq<J>,
    /// How many jobs were handed to a worker so far.
    pub started: nat,
    /// How many jobs were reported done so far.
    pub finished: nat,
    /// For each busy worker, by its id, the number of the job that it runs:
    /// the place of the job among the accepted ones.
    pub running: Map<int, nat>,
    /// The numbers of the jobs that were reported done.
    pub completed: Set<nat>,
}

impl<J> PoolModel<J> {
    /// What holds of a pool in every state that it can reach.
    pub open spec fn wf(self) -> bool {
        &&& self.size >= 1
        &&& self.workers.len() == self.size
        &&& self.started <= self.accepted.len()
        &&& self.pending == self.accepted.skip(self.started as int)
        &&& busy_count(self.workers) + self.finished == self.started
        &&& some_exited(self.workers) ==> !self.open && self.pending.len() == 0
        &&& forall|w: int|
            0 <= w < self.size && #[trigger] self.workers[w] is Busy ==> self.running.contains_key(
                w,
            ) && self.running[w] < self.started && !self.completed.contains(self.running[w])
        &&& forall|v: int, w: int|
            0 <= v < w < self.size && #[trigger] self.workers[v] is Busy
                && #[trigger] self.workers[w] is Busy ==> self.running[v] != self.running[w]
        &&& forall|k: nat|
            k < self.started ==> #[trigger] self.completed.contains(k) || self.is_running(k)
        &&& forall|k: nat| #[trigger] self.completed.contains(k) ==> k < self.started
    }

    /// Whether the worker `w` is running the job number `k`.
    pub open spec fn runs(self, w: int, k: nat) -> bool {
        0 <= w < self.size && self.workers[w] is Busy && self.running[w] == k
    }

    /// Whether some worker is running the job number `k`.
    pub open spec fn is_running(self, k: nat) -> bool {
        exists|w: int| #[trigger] self.runs(w, k)
    }

    /// A new pool of `size` idle workers.
    pub open spec fn init(size: nat) -> Self {
        PoolModel {
            size,
            open: true,
            workers: Seq::new(size, |i: int| WorkerState::Idle),
            accepted: Seq::empty(),
            pending: Seq::empty(),
            started: 0,
            finished: 0,
            running: Map::empty(),
            completed: Set::empty(),
        }
    }

    /// The pool after `job` was accepted.
    pub open spec fn submit(self, job: J) -> Self {
        PoolModel { accepted: self.accepted.push(job), pending: self.pending.push(job), ..self }
    }

    /// The pool after submission was closed.
    pub open spec fn close(self) -> Self {
        PoolModel { open: false, ..self }
    }

    /// What the idle worker `w` is told when it asks for a job.
    pub open spec fn step(self, w: int) -> Step<J> {
        if self.pending.len() > 0 {
            Step::Run(self.pending[0])
        } else if self.open {
            Step::Wait
        } else {
            Step::Exit
        }
    }

    /// The pool after the idle worker `w` asked for a job: the oldest
    /// pending job goes to it; with nothing pending it waits while
    /// submission is open, and leaves once it is closed.
    pub open spec fn take(self, w: int) -> Self {
        if self.pending.len() > 0 {
            PoolModel {
                workers: self.workers.update(w, WorkerState::Busy),
                pending: self.pending.skip(1),
                started: self.started + 1,
                running: self.running.insert(w, self.started),
                ..self
            }
        } else if self.open {
            self
        } else {
            PoolModel { workers: self.workers.update(w, WorkerState::Exited), ..self }
        }
    }

    /// The pool after the busy worker `w` reported its job done.
    pub open spec fn complete(self, w: int) -> Self {
        PoolModel {
            workers: self.workers.update(w, WorkerState::Idle),
            finished: self.finished + 1,
            completed: self.completed.insert(self.running[w]),
            ..self
        }
    }

    /// Whether the pool has shut down: every worker has left.
    pub open spec fn joined(self) -> bool {
        all_exited(self.workers)
    }
}

/// Changing what one worker does changes the number of busy workers by that
/// worker alone.
pub proof fn lemma_busy_count_update(w: Seq<WorkerState>, i: int, s: WorkerState)
    requires
        0 <= i < w.len(),
    ensures
        busy_count(w.update(i, s)) + (if w[i] is Busy { 1nat } else { 0nat }) == busy_count(w) + (
        if s is Busy { 1nat } else { 0nat }),
    decreases w.len(),
{
    let u = w.update(i, s);
    if i == w.len() - 1 {
        assert(u.drop_last() =~= w.drop_last());
    } else {
        lemma_busy_count_update(w.drop_last(), i, s);
        assert(u.drop_last() =~= w.drop_last().update(i, s));
    }
}

/// No more workers are busy than there are workers, and none is busy where
/// none is in the state `Busy`.
pub proof fn lemma_busy_count_bound(w: Seq<WorkerState>)
    ensures
        busy_count(w) <= w.len(),
        (forall|i: int| 0 <= i < w.len() ==> !(#[trigger] w[i] is Busy)) ==> busy_count(w) == 0,
    decreases w.len(),
{
    if w.len() > 0 {
        lemma_busy_count_bound(w.drop_last());
        if forall|i: int| 0 <= i < w.len() ==> !(#[trigger] w[i] is Busy) {
            assert forall|i: int| 0 <= i < w.drop_last().len() implies !(
            #[trigger] w.drop_last()[i] is Busy) by {
                assert(!(w[i] is Busy));
            }
            assert(!(w[w.len() - 1] is Busy));
        }
    }
}

/// A new pool is in a state that a pool can reach.
pub proof fn lemma_init_wf<J>(size: nat)
    requires
        size >= 1,
    ensures
        PoolModel::<J>::init(size).wf(),
{
    let m = PoolModel::<J>::init(size);
    lemma_busy_count_bound(m.workers);
    assert(m.pending =~= m.accepted.skip(0));
}

/// Every step of the pool leads from a state that it can reach to another:
/// accepting a job while submission is open, closing submission, an idle
/// worker asking for a job, and a busy worker reporting its job done.
pub proof fn lemma_steps_keep_wf<J>(m: PoolModel<J>, job: J, w: int)
    requires
        m.wf(),
        0 <= w < m.size,
    ensures
        m.open ==> m.submit(job).wf(),
        m.close().wf(),
        m.workers[w] is Idle ==> m.take(w).wf(),
        m.workers[w] is Busy ==> m.complete(w).wf(),
{
    if m.open {
        let n = m.submit(job);
        assert(n.pending =~= n.accepted.skip(n.started as int));
        assert forall|k: nat| k < n.started implies #[trigger] n.completed.contains(k)
            || n.is_running(k) by {
            if !m.completed.contains(k) {
                assert(m.is_running(k));
                let v = choose|v: int| #[trigger] m.runs(v, k);
                assert(n.runs(v, k));
            }
        }
    }
    assert forall|k: nat| k < m.close().started implies #[trigger] m.close().completed.contains(k)
        || m.close().is_running(k) by {
        if !m.completed.contains(k) {
            assert(m.is_running(k));
            let v = choose|v: int| #[trigger] m.runs(v, k);
            assert(m.close().runs(v, k));
        }
    }
    if m.workers[w] is Idle {
        let n = m.take(w);
        if m.pending.len() > 0 {
            lemma_busy_count_update(m.workers, w, WorkerState::Busy);
            assert(n.pending =~= n.accepted.skip(n.started as int));
            assert(!some_exited(m.workers));
            if some_exited(n.workers) {
                let i = choose|i: int| 0 <= i < n.workers.len() && #[trigger] n.workers[i] is Exited;
                assert(m.workers[i] is Exited);
            }
            assert forall|v: int| 0 <= v < n.size && #[trigger] n.workers[v] is Busy implies
                n.running.contains_key(v) && n.running[v] < n.started && !n.completed.contains(
                n.running[v],
            ) by {
                if v != w {
                    assert(m.workers[v] is Busy);
                }
            }
            assert forall|u: int, v: int|
                0 <= u < v < n.size && #[trigger] n.workers[u] is Busy
                    && #[trigger] n.workers[v] is Busy implies n.running[u] != n.running[v] by {
                if u != w {
                    assert(m.workers[u] is Busy);
                }
                if v != w {
                    assert(m.workers[v] is Busy);
                }
            }
            assert forall|k: nat| k < n.started implies #[trigger] n.completed.contains(k)
                || n.is_running(k) by {
                if k == m.started {
                    assert(n.runs(w, k));
                } else if !m.completed.contains(k) {
                    assert(m.is_running(k));
                    let v = choose|v: int| #[trigger] m.runs(v, k);
                    assert(n.runs(v, k));
                }
            }
        } else if !m.open {
            lemma_busy_count_update(m.workers, w, WorkerState::Exited);
            assert forall|v: int| 0 <= v < n.size && #[trigger] n.workers[v] is Busy implies
                n.running.contains_key(v) && n.running[v] < n.started && !n.completed.contains(
                n.running[v],
            ) by {
                assert(m.workers[v] is Busy);
            }
            assert forall|u: int, v: int|
                0 <= u < v < n.size && #[trigger] n.workers[u] is Busy
                    && #[trigger] n.workers[v] is Busy implies n.running[u] != n.running[v] by {
                assert(m.workers[u] is Busy);
                assert(m.workers[v] is Busy);
            }
            assert forall|k: nat| k < n.started implies #[trigger] n.completed.contains(k)
                || n.is_running(k) by {
                if !m.completed.contains(k) {
                    assert(m.is_running(k));
                    let v = choose|v: int| #[trigger] m.runs(v, k);
                    assert(n.runs(v, k));
                }
            }
        }
    }
    if m.workers[w] is Busy {
        let n = m.complete(w);
        lemma_busy_count_update(m.workers, w, WorkerState::Idle);
        if some_exited(n.workers) {
            let i = choose|i: int| 0 <= i < n.workers.len() && #[trigger] n.workers[i] is Exited;
            assert(m.workers[i] is Exited);
        }
        assert forall|v: int| 0 <= v < n.size && #[trigger] n.workers[v] is Busy implies
            n.running.contains_key(v) && n.running[v] < n.started && !n.completed.contains(
            n.running[v],
        ) by {
            assert(m.workers[v] is Busy);
            if v < w {
                assert(m.running[v] != m.running[w]);
            } else {
                assert(m.running[w] != m.running[v]);
            }
        }
        assert forall|u: int, v: int|
            0 <= u < v < n.size && #[trigger] n.workers[u] is Busy
                && #[trigger] n.workers[v] is Busy implies n.running[u] != n.running[v] by {
            assert(m.workers[u] is Busy);
            assert(m.workers[v] is Busy);
        }
        assert forall|k: nat| k < n.started implies #[trigger] n.completed.contains(k)
            || n.is_running(k) by {
            if !m.completed.contains(k) {
                assert(m.is_running(k));
                let v = choose|v: int| #[trigger] m.runs(v, k);
                if v != w {
                    assert(n.runs(v, k));
                }
            }
        }
    }
}

/// Jobs leave the queue in the order of submission, each once: the job that
/// the next asking worker gets is the accepted job whose number is the count
/// of jobs handed out so far, and no worker ran or runs a job of that number.
pub proof fn lemma_jobs_start_in_order<J>(m: PoolModel<J>, w: int)
    requires
        m.wf(),
        0 <= w < m.size,
        m.workers[w] is Idle,
        m.pending.len() > 0,
    ensures
        m.started < m.accepted.len(),
        m.step(w) == Step::Run(m.accepted[m.started as int]),
        m.take(w).started == m.started + 1,
        m.take(w).accepted == m.accepted,
        m.take(w).runs(w, m.started),
        !m.completed.contains(m.started),
        !m.is_running(m.started),
{
    if m.is_running(m.started) {
        let v = choose|v: int| #[trigger] m.runs(v, m.started);
        assert(m.workers[v] is Busy);
    }
}

/// A job is reported done once: the job that a busy worker runs is not yet
/// done, it is done after the worker's report, and no worker runs it then.
pub proof fn lemma_jobs_finish_once<J>(m: PoolModel<J>, w: int)
    requires
        m.wf(),
        0 <= w < m.size,
        m.workers[w] is Busy,
    ensures
        m.running[w] < m.started,
        !m.completed.contains(m.running[w]),
        m.complete(w).completed.contains(m.running[w]),
        !m.complete(w).is_running(m.running[w]),
{
    let n = m.complete(w);
    let k = m.running[w];
    if n.is_running(k) {
        let v = choose|v: int| #[trigger] n.runs(v, k);
        assert(m.workers[v] is Busy);
        if v < w {
            assert(m.running[v] != m.running[w]);
        } else {
            assert(m.running[w] != m.running[v]);
        }
    }
}

/// Once the pool has shut down, every job that was accepted has been handed
/// to a worker and reported done: none is pending and none is running.
pub proof fn lemma_joined_means_all_done<J>(m: PoolModel<J>)
    requires
        m.wf(),
        m.joined(),
    ensures
        !m.open,
        m.pending.len() == 0,
        m.started == m.accepted.len(),
        m.finished == m.accepted.len(),
        forall|k: nat| k < m.accepted.len() <==> #[trigger] m.completed.contains(k),
{
    assert forall|k: nat| k < m.accepted.len() implies #[trigger] m.completed.contains(k) by {
        if m.is_running(k) {
            let v = choose|v: int| #[trigger] m.runs(v, k);
            assert(m.workers[v] is Exited);
        }
    }
    assert(m.workers[0] is Exited);
    lemma_busy_count_bound(m.workers);
    assert forall|i: int| 0 <= i < m.workers.len() implies !(#[trigger] m.workers[i] is Busy) by {
        assert(m.workers[i] is Exited);
    }
}

/// Once submission is closed nothing is accepted any more: a later
/// submission changes nothing, whatever else happened in between.
pub proof fn lemma_closed_stays_closed<J>(m: PoolModel<J>, w: int)
    requires
        m.wf(),
        0 <= w < m.size,
        !m.open,
    ensures
        !m.close().open,
        !m.take(w).open,
        !m.complete(w).open,
        m.take(w).accepted == m.accepted,
        m.complete(w).accepted == m.accepted,
{
}

/// Never are more jobs running than there are workers. In a pool of one
/// worker a job starts only when every job started before it is done.
pub proof fn lemma_bounded_parallelism<J>(m: PoolModel<J>)
    requires
        m.wf(),
    ensures
        m.started - m.finished == busy_count(m.workers),
        m.started - m.finished <= m.size,
        m.size == 1 && m.workers[0] is Idle ==> m.finished == m.started && forall|k: nat|
            k < m.started ==> #[trigger] m.completed.contains(k),
{
    lemma_busy_count_bound(m.workers);
    if m.size == 1 && m.workers[0] is Idle {
        assert forall|k: nat| k < m.started implies #[trigger] m.completed.contains(k) by {
            if m.is_running(k) {
                let v = choose|v: int| #[trigger] m.runs(v, k);
                assert(v == 0);
            }
        }
    }
    if m.size == 1 && m.workers[0] is Idle {
        assert forall|i: int| 0 <= i < m.workers.len() implies !(#[trigger] m.workers[i] is Busy) by {
            assert(i == 0);
        }
    }
}

/// What can happen to a pool.
pub enum PoolEvent<J> {
    /// A job is submitted.
    Submit(J),
    /// Submission is closed.
    Close,
    /// The worker of this id asks for a job.
    Ask(int),
    /// The worker of this id reports its job done.
    Done(int),
}

impl<J> PoolModel<J> {
    /// The pool after `event`. What cannot happen changes nothing: a
    /// submission after submission was closed, a request from a worker that
    /// is not idle, a report from a worker that is not busy.
    pub open spec fn after(self, event: PoolEvent<J>) -> Self {
        match event {
            PoolEvent::Submit(job) => if self.open {
                self.submit(job)
            } else {
                self
            },
            PoolEvent::Close => self.close(),
            PoolEvent::Ask(w) => if 0 <= w < self.size && self.workers[w] is Idle {
                self.take(w)
            } else {
                self
            },
            PoolEvent::Done(w) => if 0 <= w < self.size && self.workers[w] is Busy {
                self.complete(w)
            } else {
                self
            },
        }
    }

    /// The pool after `events`, one after the other.
    pub open spec fn after_all(self, events: Seq<PoolEvent<J>>) -> Self
        decreases events.len(),
    {
        if events.len() == 0 {
            self
        } else {
            self.after_all(events.drop_last()).after(events.last())
        }
    }
}

/// Whatever happens to a pool of at least one worker, in whatever order:
/// each job is handed out at most once, in the order of submission; never
/// are more jobs running than there are workers; a pool of one worker has
/// every earlier job done whenever its worker is idle; and once the pool has
/// shut down, the jobs that are done are exactly the jobs that were
/// accepted.
pub proof fn lemma_every_job_runs_once<J>(size: nat, events: Seq<PoolEvent<J>>)
    requires
        size >= 1,
    ensures
        ({
            let m = PoolModel::<J>::init(size).after_all(events);
            &&& m.wf()
            &&& m.size == size
            &&& m.pending == m.accepted.skip(m.started as int)
            &&& m.started - m.finished <= size
            &&& size == 1 && m.workers[0] is Idle ==> forall|k: nat|
                k < m.started ==> #[trigger] m.completed.contains(k)
            &&& m.joined() ==> forall|k: nat|
                k < m.accepted.len() <==> #[trigger] m.completed.contains(k)
        }),
    decreases events.len(),
{
    let start = PoolModel::<J>::init(size);
    let m = start.after_all(events);
    if events.len() == 0 {
        lemma_init_wf::<J>(size);
    } else {
        let before = start.after_all(events.drop_last());
        lemma_every_job_runs_once(size, events.drop_last());
        match events.last() {
            PoolEvent::Submit(job) => {
                lemma_steps_keep_wf(before, job, 0);
            },
            PoolEvent::Close => {
                lemma_steps_keep_wf(before, arbitrary(), 0);
            },
            PoolEvent::Ask(w) => {
                if 0 <= w < before.size {
                    lemma_steps_keep_wf(before, arbitrary(), w);
                }
            },
            PoolEvent::Done(w) => {
                if 0 <= w < before.size {
                    lemma_steps_keep_wf(before, arbitrary(), w);
                }
            },
        }
    }
    lemma_bounded_parallelism(m);
    if m.joined() {
        lemma_joined_means_all_done(m);
    }
}

/// A worker: an id and what it is doing.
#[derive(Debug)]
pub struct Worker {
    pub id: usize,
    pub state: WorkerState,
}

impl Worker {
    /// An idle worker with the given id.
    pub fn new(id: usize) -> (r: Self)
        ensures
            r.id == id,
            r.state is Idle,
    {
        Worker { id, state: WorkerState::Idle }
    }
}

/// A pool of a fixed number of workers and the jobs that wait for them.
pub struct ThreadPool<J> {
    size: usize,
    workers: Vec<Worker>,
    queue: Vec<J>,
    open: bool,
    accepted: Ghost<Seq<J>>,
    started: Ghost<nat>,
    finished: Ghost<nat>,
    running: Ghost<Map<int, nat>>,
    completed: Ghost<Set<nat>>,
}

impl<J> ThreadPool<J> {
    pub closed spec fn view(&self) -> PoolModel<J> {
        PoolModel {
            size: self.size as nat,
            open: self.open,
            workers: Seq::new(self.workers@.len(), |i: int| self.workers@[i].state),
            accepted: self.accepted@,
            pending: self.queue@,
            started: self.started@,
            finished: self.finished@,
            running: self.running@,
            completed: self.completed@,
        }
    }

    /// The pool is in a state that a pool can reach.
    pub open spec fn wf(&self) -> bool {
        self@.wf()
    }

    /// The number of workers.
    pub fn size(&self) -> (r: usize)
        ensures
            r == self@.size,
    {
        self.size
    }

    /// A pool of `size` idle workers that accepts jobs. A pool without
    /// workers is refused.
    pub fn new(size: usize) -> (r: Result<Self, PoolError>)
        ensures
            size == 0 <==> r.is_err(),
            match r {
                Ok(p) => p.wf() && p@ == PoolModel::<J>::init(size as nat),
                Err(e) => e == PoolError::ConfigError,
            },
    {
        if size == 0 {
            return Err(PoolError::ConfigError);
        }
        let mut workers: Vec<Worker> = Vec::new();
        let mut id: usize = 0;
        while id < size
            invariant
                id <= size,
                workers@.len() == id,
                forall|i: int| 0 <= i < id ==> (#[trigger] workers@[i]).state is Idle,
            decreases size - id,
        {
            workers.push(Worker::new(id));
            id = id + 1;
        }
        let p = ThreadPool {
            size,
            workers,
            queue: Vec::new(),
            open: true,
            accepted: Ghost(Seq::empty()),
            started: Ghost(0),
            finished: Ghost(0),
            running: Ghost(Map::empty()),
            completed: Ghost(Set::empty()),
        };
        proof {
            lemma_init_wf::<J>(size as nat);
            assert(p@.workers =~= PoolModel::<J>::init(size as nat).workers);
            assert(p@.pending =~= Seq::<J>::empty());
        }
        Ok(p)
    }

    /// Hands `job` to the pool. It is accepted while submission is open and
    /// refused, without waiting, once it is closed.
    pub fn exec(&mut self, job: J) -> (r: Result<(), PoolError>)
        requires
            old(self).wf(),
        ensures
            final(self).wf(),
            old(self)@.open ==> r.is_ok() && final(self)@ == old(self)@.submit(job),
            !old(self)@.open ==> r == Err::<(), PoolError>(PoolError::PoolClosed) && final(self)@
                == old(self)@,
    {
        if !self.open {
            return Err(PoolError::PoolClosed);
        }
        proof {
            lemma_steps_keep_wf(self@, job, 0);
        }
        self.accepted = Ghost(self.accepted@.push(job));
        self.queue.push(job);
        Ok(())
    }

    /// Closes submission. The jobs that were accepted stay; the workers
    /// leave when none is pending.
    pub fn close(&mut self)
        requires
            old(self).wf(),
        ensures
            final(self).wf(),
            final(self)@ == old(self)@.close(),
    {
        proof {
            lemma_steps_keep_wf(self@, arbitrary(), 0);
        }
        self.open = false;
    }

    /// Whether jobs are still accepted.
    pub fn is_open(&self) -> (r: bool)
        ensures
            r == self@.open,
    {
        self.open
    }

    /// The number of jobs that wait for a worker.
    pub fn pending(&self) -> (r: usize)
        ensures
            r == self@.pending.len(),
    {
        self.queue.len()
    }

    /// What the worker `worker` is doing.
    pub fn state_of(&self, worker: usize) -> (r: WorkerState)
        requires
            self.wf(),
            worker < self@.size,
        ensures
            r == self@.workers[worker as int],
    {
        self.workers[worker].state
    }

    /// Called by the idle worker `worker` when it is ready for a job: tells
    /// it what to do next.
    pub fn next_job(&mut self, worker: usize) -> (r: Step<J>)
        requires
            old(self).wf(),
            worker < old(self)@.size,
            old(self)@.workers[worker as int] is Idle,
        ensures
            final(self).wf(),
            r == old(self)@.step(worker as int),
            final(self)@ == old(self)@.take(worker as int),
    {
        let ghost before = self@;
        proof {
            lemma_steps_keep_wf(before, arbitrary(), worker as int);
        }
        if self.queue.len() > 0 {
            let job = self.queue.remove(0);
            self.workers[worker].state = WorkerState::Busy;
            self.running = Ghost(self.running@.insert(worker as int, self.started@));
            self.started = Ghost(self.started@ + 1);
            proof {
                assert(self@.pending =~= before.pending.skip(1));
                assert(self@.workers =~= before.workers.update(worker as int, WorkerState::Busy));
            }
            Step::Run(job)
        } else if self.open {
            Step::Wait
        } else {
            self.workers[worker].state = WorkerState::Exited;
            proof {
                assert(self@.workers =~= before.workers.update(
                    worker as int,
                    WorkerState::Exited,
                ));
            }
            Step::Exit
        }
    }

    /// Called by the busy worker `worker` when its job is done.
    pub fn job_done(&mut self, worker: usize)
        requires
            old(self).wf(),
            worker < old(self)@.size,
            old(self)@.workers[worker as int] is Busy,
        ensures
            final(self).wf(),
            final(self)@ == old(self)@.complete(worker as int),
    {
        let ghost before = self@;
        proof {
            lemma_steps_keep_wf(before, arbitrary(), worker as int);
        }
        self.workers[worker].state = WorkerState::Idle;
        self.finished = Ghost(self.finished@ + 1);
        self.completed = Ghost(self.completed@.insert(self.running@[worker as int]));
        proof {
            assert(self@.workers =~= before.workers.update(worker as int, WorkerState::Idle));
        }
    }

    /// Whether the pool has shut down: every worker has left. Then every
    /// job that was accepted is done.
    pub fn is_joined(&self) -> (r: bool)
        requires
            self.wf(),
        ensures
            r == self@.joined(),
            r ==> self@.pending.len() == 0 && self@.finished == self@.accepted.len(),
    {
        let mut i: usize = 0;
        while i < self.workers.len()
            invariant
                i <= self.workers@.len(),
                forall|k: int| 0 <= k < i ==> (#[trigger] self@.workers[k]) is Exited,
            decreases self.workers@.len() - i,
        {
            match self.workers[i].state {
                WorkerState::Exited => {},
                _ => {
                    assert(!(self@.workers[i as int] is Exited));
                    return false;
                },
            }
            i = i + 1;
        }
        proof {
            lemma_joined_means_all_done(self@);
        }
        true
    }
}

} // verus!
