//! A pool of I/O workers: who does which task, and when a batch is done.
//!
//! The pool's state is shared under a lock; the functions here are what its users do to that
//! state while they hold the lock. Workers start a batch when the generation changes, and the
//! dispatcher waits until all of them have finished it.

use vstd::prelude::*;

verus! {

/// Number of I/O workers.
pub const NUM_IO_THREADS: usize = 4;

/// A read from a file into a buffer, with decompression on the way if there is a buffer for
/// the compressed bytes.
#[derive(Clone, Copy, Debug, PartialEq, Eq)]
pub struct IOPreadTask<B> {
    pub fd: i32,
    pub dst: B,
    pub offset: u64,
    pub size: usize,
    /// Bytes that arrived in `dst`; negative on failure.
    pub result: isize,
    pub lz4_comp_buf: Option<B>,
    pub lz4_comp_size: u32,
}

/// A read that a worker is to make.
#[derive(Clone, Copy, Debug, PartialEq, Eq)]
pub struct ReadRequest<B> {
    pub fd: i32,
    pub into: B,
    pub size: usize,
    pub offset: i64,
}

/// What follows a read.
#[derive(Clone, Copy, Debug, PartialEq, Eq, Structural)]
pub enum ReadOutcome {
    /// The task is done, with this result.
    Done(isize),
    /// The bytes are to be decompressed; the number of bytes that come out is the result.
    Decompress,
}

impl<B> IOPreadTask<B> {
    /// The task's bytes are compressed.
    pub open spec fn compressed(self) -> bool {
        self.lz4_comp_buf is Some && self.lz4_comp_size > 0
    }
}

impl<B: Copy> IOPreadTask<B> {
    /// The read that a task starts with: of the compressed bytes if there are any.
    pub fn request(&self) -> (r: ReadRequest<B>)
        ensures
            r.fd == self.fd,
            r.offset == self.offset as i64,
            self.compressed() ==> r.into == self.lz4_comp_buf->0 && r.size == self.lz4_comp_size,
            !self.compressed() ==> r.into == self.dst && r.size == self.size,
    {
        if let Some(comp) = self.lz4_comp_buf {
            if self.lz4_comp_size > 0 {
                return ReadRequest {
                    fd: self.fd,
                    into: comp,
                    size: self.lz4_comp_size as usize,
                    offset: self.offset as i64,
                };
            }
        }
        ReadRequest { fd: self.fd, into: self.dst, size: self.size, offset: self.offset as i64 }
    }

    /// What follows once the read returned `nread`: compressed bytes are decompressed if all
    /// of them came, else the task fails; otherwise the task's result is that of the read.
    pub fn after_read(&self, nread: isize) -> (r: ReadOutcome)
        ensures
            r == (if self.compressed() {
                if nread == self.lz4_comp_size {
                    ReadOutcome::Decompress
                } else {
                    ReadOutcome::Done(-1isize)
                }
            } else {
                ReadOutcome::Done(nread)
            }),
    {
        if self.lz4_comp_buf.is_some() && self.lz4_comp_size > 0 {
            if nread >= 0 && nread as usize == self.lz4_comp_size as usize {
                ReadOutcome::Decompress
            } else {
                ReadOutcome::Done(-1)
            }
        } else {
            ReadOutcome::Done(nread)
        }
    }
}

/// The number of tasks of a worker of a team: its own number and every `team`-th from there on.
pub open spec fn share_len(worker: int, team: int, num_tasks: int) -> nat
    decreases
        (if worker < num_tasks {
            num_tasks - worker
        } else {
            0
        }),
{
    if worker >= num_tasks || team <= 0 {
        0
    } else {
        1 + share_len(worker + team, team, num_tasks)
    }
}

/// The tasks of a worker of a team.
pub open spec fn share(worker: int, team: int, num_tasks: int) -> Seq<int> {
    Seq::new(share_len(worker, team, num_tasks), |j: int| worker + j * team)
}

/// The tasks of a worker: its own number, and every `team`-th from there on.
pub fn worker_tasks(worker: usize, team: usize, num_tasks: usize) -> (r: Vec<usize>)
    requires
        0 < team,
        num_tasks + team <= usize::MAX,
    ensures
        r@.map_values(|t: usize| t as int) == share(worker as int, team as int, num_tasks as int),
{
    let mut r: Vec<usize> = Vec::new();
    let mut i: usize = worker;
    assert(worker + 0 * team == worker);
    while i < num_tasks
        invariant
            0 < team,
            num_tasks + team <= usize::MAX,
            i == worker + r@.len() * team,
            r@.len() + share_len(i as int, team as int, num_tasks as int) == share_len(
                worker as int,
                team as int,
                num_tasks as int,
            ),
            forall|j: int| 0 <= j < r@.len() ==> #[trigger] r@[j] == worker + j * team,
        decreases
            (if i < num_tasks {
                num_tasks - i
            } else {
                0
            }),
    {
        let ghost n = r@.len() as int;
        assert((n + 1) * team == n * team + team) by (nonlinear_arith);
        r.push(i);
        i = i + team;
    }
    assert(r@.map_values(|t: usize| t as int) =~= share(
        worker as int,
        team as int,
        num_tasks as int,
    ));
    r
}

proof fn lemma_share_len(worker: int, team: int, num_tasks: int, j: int)
    requires
        0 < team,
        0 <= j,
    ensures
        j < share_len(worker, team, num_tasks) <==> worker + j * team < num_tasks,
    decreases j + (if worker < num_tasks {
        num_tasks - worker
    } else {
        0
    }),
{
    if worker < num_tasks {
        if j == 0 {
            assert(j * team == 0);
        } else {
            lemma_share_len(worker + team, team, num_tasks, j - 1);
            assert((j - 1) * team == j * team - team) by (nonlinear_arith);
        }
    } else {
        assert(j * team >= 0) by (nonlinear_arith)
            requires
                0 <= j,
                0 < team,
        ;
    }
}

/// The place of a task in the share of its worker.
pub open spec fn place_in_share(task: int, team: int) -> int {
    task / team
}

/// Every task belongs to exactly one worker, and stands once in that worker's share.
pub proof fn law_tasks_partitioned(task: int, team: int, num_tasks: int, worker: int, j: int)
    requires
        0 < team,
        0 <= task < num_tasks,
        0 <= worker < team,
    ensures
        place_in_share(task, team) < share(task % team, team, num_tasks).len(),
        share(task % team, team, num_tasks)[place_in_share(task, team)] == task,
        0 <= j < share(worker, team, num_tasks).len() && share(worker, team, num_tasks)[j] == task
            ==> worker == task % team && j == place_in_share(task, team),
{
    vstd::arithmetic::div_mod::lemma_fundamental_div_mod(task, team);
    vstd::arithmetic::div_mod::lemma_mod_bound(task, team);
    let q = task / team;
    vstd::arithmetic::div_mod::lemma_div_pos_is_pos(task, team);
    assert(q * team == team * q) by (nonlinear_arith);
    lemma_share_len(task % team, team, num_tasks, q);
    if 0 <= j < share(worker, team, num_tasks).len() && share(worker, team, num_tasks)[j] == task {
        assert(task == j * team + worker);
        vstd::arithmetic::div_mod::lemma_fundamental_div_mod_converse(task, team, j, worker);
    }
}

/// State of the pool that dispatcher and workers share.
#[derive(Clone, Copy, Debug, PartialEq, Eq, Structural)]
pub struct IOPool {
    pub num_tasks: usize,
    /// Workers that have finished the current batch.
    pub tasks_completed: usize,
    /// Number of the current batch.
    pub generation: u64,
    pub shutdown: bool,
}

/// What a worker does next.
#[derive(Clone, Copy, Debug, PartialEq, Eq, Structural)]
pub enum WorkerAction {
    /// Wait until the state changes.
    Wait,
    /// Leave for good.
    Exit,
    /// Work on the worker's share of a batch.
    Work { generation: u64, num_tasks: usize },
}

impl IOPool {
    /// A pool without work.
    pub open spec fn idle_pool() -> IOPool {
        IOPool { num_tasks: 0, tasks_completed: 0, generation: 0, shutdown: false }
    }

    /// The pool with a new batch.
    pub open spec fn with_batch(self, num_tasks: usize) -> IOPool {
        IOPool {
            num_tasks,
            tasks_completed: 0,
            generation: (self.generation + 1) as u64,
            ..self
        }
    }

    /// What a worker does that has seen batches up to `my_gen`.
    pub open spec fn action_for(self, my_gen: u64) -> WorkerAction {
        if self.shutdown {
            WorkerAction::Exit
        } else if self.generation == my_gen {
            WorkerAction::Wait
        } else {
            WorkerAction::Work { generation: self.generation, num_tasks: self.num_tasks }
        }
    }

    /// The pool after one more worker finished the batch.
    pub open spec fn with_finished(self) -> IOPool {
        IOPool { tasks_completed: (self.tasks_completed + 1) as usize, ..self }
    }

    /// All workers have finished the batch.
    pub open spec fn all_finished(self) -> bool {
        self.tasks_completed >= NUM_IO_THREADS
    }

    /// A pool without work.
    pub fn new() -> (r: Self)
        ensures
            r == IOPool::idle_pool(),
    {
        IOPool { num_tasks: 0, tasks_completed: 0, generation: 0, shutdown: false }
    }

    /// Start a batch. Returns whether there is anything to wait for; an empty batch changes
    /// nothing. The workers are to be woken.
    pub fn dispatch(&mut self, num_tasks: usize) -> (r: bool)
        requires
            old(self).generation < u64::MAX,
        ensures
            r == (num_tasks > 0),
            *final(self) == (if num_tasks > 0 {
                old(self).with_batch(num_tasks)
            } else {
                *old(self)
            }),
    {
        if num_tasks == 0 {
            return false;
        }
        self.num_tasks = num_tasks;
        self.tasks_completed = 0;
        self.generation = self.generation + 1;
        true
    }

    /// Whether the dispatcher's wait is over.
    pub fn finished(&self) -> (r: bool)
        ensures
            r == self.all_finished(),
    {
        self.tasks_completed >= NUM_IO_THREADS
    }

    /// What a worker does that has seen batches up to `my_gen`.
    pub fn poll(&self, my_gen: u64) -> (r: WorkerAction)
        ensures
            r == self.action_for(my_gen),
    {
        if self.shutdown {
            WorkerAction::Exit
        } else if self.generation == my_gen {
            WorkerAction::Wait
        } else {
            WorkerAction::Work { generation: self.generation, num_tasks: self.num_tasks }
        }
    }

    /// A worker has finished its share. Returns whether it was the last one, which wakes the
    /// dispatcher.
    pub fn complete(&mut self) -> (r: bool)
        requires
            old(self).tasks_completed < NUM_IO_THREADS,
        ensures
            *final(self) == old(self).with_finished(),
            r == (final(self).tasks_completed == NUM_IO_THREADS),
    {
        self.tasks_completed = self.tasks_completed + 1;
        self.tasks_completed == NUM_IO_THREADS
    }

    /// Tell all workers to leave; they are to be woken.
    pub fn shutdown(&mut self)
        ensures
            *final(self) == (IOPool { shutdown: true, ..*old(self) }),
    {
        self.shutdown = true;
    }
}

/// A worker, as seen from outside.
pub struct WorkerState {
    /// The last batch that it started.
    pub generation: u64,
    /// It is working on that batch.
    pub busy: bool,
    /// It has left.
    pub exited: bool,
}

/// The pool with its workers and one dispatcher.
pub struct PoolSystem {
    pub pool: IOPool,
    pub workers: Seq<WorkerState>,
    /// The dispatcher is waiting for a batch.
    pub waiting: bool,
    /// How often each task of the batch was carried out.
    pub runs: Seq<nat>,
}

/// A step of the system.
pub enum PoolStep {
    Dispatch(usize),
    Start(int),
    Finish(int),
    Return,
    Shutdown,
    Leave(int),
}

impl PoolSystem {
    /// A pool whose workers have just been started.
    pub open spec fn initial(self) -> bool {
        &&& self.pool == IOPool::idle_pool()
        &&& self.workers == Seq::new(
            NUM_IO_THREADS as nat,
            |i: int| WorkerState { generation: 0, busy: false, exited: false },
        )
        &&& !self.waiting
    }

    /// The runs after a worker carried out its share.
    pub open spec fn runs_with(self, worker: int) -> Seq<nat> {
        let mine = share(worker, NUM_IO_THREADS as int, self.pool.num_tasks as int);
        Seq::new(
            self.runs.len(),
            |i: int|
                if mine.contains(i) {
                    self.runs[i] + 1
                } else {
                    self.runs[i]
                },
        )
    }

    /// A step may be taken.
    pub open spec fn enabled(self, step: PoolStep) -> bool {
        match step {
            PoolStep::Dispatch(n) => !self.waiting && 0 < n && self.pool.generation < u64::MAX
                && !self.pool.shutdown,
            PoolStep::Start(w) => 0 <= w < NUM_IO_THREADS && !self.workers[w].busy
                && !self.workers[w].exited && self.pool.action_for(
                self.workers[w].generation,
            ) is Work,
            PoolStep::Finish(w) => 0 <= w < NUM_IO_THREADS && self.workers[w].busy,
            PoolStep::Return => self.waiting && self.pool.all_finished(),
            PoolStep::Shutdown => !self.waiting,
            PoolStep::Leave(w) => 0 <= w < NUM_IO_THREADS && !self.workers[w].busy
                && self.pool.action_for(self.workers[w].generation) is Exit,
        }
    }

    /// The system after a step.
    pub open spec fn after(self, step: PoolStep) -> PoolSystem {
        match step {
            PoolStep::Dispatch(n) => PoolSystem {
                pool: self.pool.with_batch(n),
                waiting: true,
                runs: Seq::new(n as nat, |i: int| 0nat),
                ..self
            },
            PoolStep::Start(w) => PoolSystem {
                workers: self.workers.update(
                    w,
                    WorkerState { generation: self.pool.generation, busy: true, exited: false },
                ),
                ..self
            },
            PoolStep::Finish(w) => PoolSystem {
                pool: self.pool.with_finished(),
                workers: self.workers.update(
                    w,
                    WorkerState { busy: false, ..self.workers[w] },
                ),
                runs: self.runs_with(w),
                ..self
            },
            PoolStep::Return => PoolSystem { waiting: false, ..self },
            PoolStep::Shutdown => PoolSystem {
                pool: IOPool { shutdown: true, ..self.pool },
                ..self
            },
            PoolStep::Leave(w) => PoolSystem {
                workers: self.workers.update(
                    w,
                    WorkerState { exited: true, ..self.workers[w] },
                ),
                ..self
            },
        }
    }

    /// A worker has finished the current batch.
    pub open spec fn has_finished(self, w: int) -> bool {
        self.workers[w].generation == self.pool.generation && !self.workers[w].busy
    }

    /// One if a worker has finished the current batch, else nothing.
    spec fn tally(self, w: int) -> int {
        if self.has_finished(w) {
            1
        } else {
            0
        }
    }

    /// What holds in every state that the system reaches.
    pub closed spec fn consistent(self) -> bool {
        &&& self.workers.len() == NUM_IO_THREADS
        &&& self.waiting ==> !self.pool.shutdown && 0 < self.pool.generation
            && self.pool.tasks_completed == self.tally(0) + self.tally(1) + self.tally(2)
            + self.tally(3) && self.runs.len() == self.pool.num_tasks
        &&& forall|w: int|
            #![trigger self.workers[w]]
            0 <= w < NUM_IO_THREADS ==> {
                &&& self.workers[w].busy ==> self.waiting && self.workers[w].generation
                    == self.pool.generation
                &&& !self.waiting ==> self.workers[w].generation == self.pool.generation
                &&& self.waiting ==> self.workers[w].generation == self.pool.generation
                    || self.workers[w].generation + 1 == self.pool.generation
                &&& self.workers[w].exited ==> self.pool.shutdown
            }
        &&& self.waiting ==> forall|i: int|
            #![trigger self.runs[i]]
            0 <= i < self.runs.len() ==> self.runs[i] == self.tally(i % 4)
    }
}

/// The invariant holds in the beginning and is kept by every step.
pub proof fn law_pool_invariant(s: PoolSystem, step: PoolStep)
    ensures
        s.initial() ==> s.consistent(),
        s.consistent() && s.enabled(step) ==> s.after(step).consistent(),
{
    if s.consistent() && s.enabled(step) {
        let t = s.after(step);
        match step {
            PoolStep::Dispatch(n) => {
                assert forall|i: int| 0 <= i < t.runs.len() implies #[trigger] t.runs[i] == t.tally(
                    i % 4,
                ) by {
                    assert(0 <= i % 4 < 4);
                    assert(s.workers[i % 4].generation == s.pool.generation);
                }
                assert(s.workers[0].generation == s.pool.generation);
                assert(s.workers[1].generation == s.pool.generation);
                assert(s.workers[2].generation == s.pool.generation);
                assert(s.workers[3].generation == s.pool.generation);
            },
            PoolStep::Start(w) => {
                assert(s.workers[w].generation != s.pool.generation);
                assert forall|v: int| 0 <= v < 4 implies t.tally(v) == s.tally(v) by {
                    assert(s.workers[v].generation == s.workers[v].generation);
                }
                assert forall|i: int| 0 <= i < t.runs.len() implies #[trigger] t.runs[i] == t.tally(
                    i % 4,
                ) by {
                    assert(0 <= i % 4 < 4);
                    assert(s.runs[i] == s.tally(i % 4));
                }
            },
            PoolStep::Finish(w) => {
                assert forall|v: int| 0 <= v < 4 implies t.tally(v) == (if v == w {
                    1
                } else {
                    s.tally(v)
                }) by {
                    assert(t.workers[v].generation == s.workers[v].generation);
                }
                assert(s.tally(w) == 0);
                let mine = share(w, 4, s.pool.num_tasks as int);
                assert forall|i: int| 0 <= i < t.runs.len() implies #[trigger] t.runs[i] == t.tally(
                    i % 4,
                ) by {
                    assert(0 <= i % 4 < 4);
                    assert(s.runs[i] == s.tally(i % 4));
                    law_tasks_partitioned(i, 4, s.pool.num_tasks as int, w, 0);
                    if i % 4 == w {
                        assert(mine[place_in_share(i, 4)] == i);
                        assert(mine.contains(i));
                    } else if mine.contains(i) {
                        let j = choose|j: int| 0 <= j < mine.len() && mine[j] == i;
                        law_tasks_partitioned(i, 4, s.pool.num_tasks as int, w, j);
                    }
                }
            },
            PoolStep::Return => {
                assert(s.tally(0) == 1 && s.tally(1) == 1 && s.tally(2) == 1 && s.tally(3) == 1);
            },
            PoolStep::Shutdown => {
                assert forall|v: int| 0 <= v < 4 implies t.tally(v) == s.tally(v) by {}
            },
            PoolStep::Leave(w) => {
                assert forall|v: int| 0 <= v < 4 implies t.tally(v) == s.tally(v) by {}
            },
        }
    }
}

/// When a dispatch returns, every task of its batch was carried out exactly once, and no
/// worker is still at it.
pub proof fn law_dispatch_complete(s: PoolSystem)
    requires
        s.consistent(),
        s.enabled(PoolStep::Return),
    ensures
        s.runs.len() == s.pool.num_tasks,
        forall|i: int| 0 <= i < s.runs.len() ==> #[trigger] s.runs[i] == 1,
        forall|w: int| 0 <= w < NUM_IO_THREADS ==> !(#[trigger] s.workers[w]).busy,
{
    assert(s.tally(0) == 1 && s.tally(1) == 1 && s.tally(2) == 1 && s.tally(3) == 1);
    assert forall|i: int| 0 <= i < s.runs.len() implies #[trigger] s.runs[i] == 1 by {
        assert(0 <= i % 4 < 4);
    }
}

/// A worker that finishes never counts beyond the number of workers.
pub proof fn law_completion_bounded(s: PoolSystem, w: int)
    requires
        s.consistent(),
        s.enabled(PoolStep::Finish(w)),
    ensures
        s.pool.tasks_completed < NUM_IO_THREADS,
{
    assert(s.tally(w) == 0);
}

/// A task has compressed bytes where there is a buffer for them and there are some.
pub proof fn law_compressed<B>(t: IOPreadTask<B>)
    ensures
        t.compressed() <==> !(t.lz4_comp_buf is None || t.lz4_comp_size == 0),
{
}

/// What a worker does that has last worked on generation `my_gen`: it leaves once the pool is shut
/// down, else it works on a batch that is not yet its last, and waits where there is none.
pub proof fn law_worker_action(p: IOPool, my_gen: u64)
    ensures
        p.action_for(my_gen) is Exit <==> p.shutdown,
        p.action_for(my_gen) is Wait <==> !p.shutdown && p.generation == my_gen,
        p.action_for(my_gen) matches WorkerAction::Work { generation, num_tasks } ==> generation
            == p.generation && num_tasks == p.num_tasks && generation != my_gen,
        p.all_finished() <==> p.tasks_completed >= 4,
        p.with_finished().num_tasks == p.num_tasks,
        p.with_finished().generation == p.generation,
        p.with_finished().shutdown == p.shutdown,
        p.tasks_completed < usize::MAX ==> p.with_finished().tasks_completed == p.tasks_completed
            + 1,
{
}

} // verus!
