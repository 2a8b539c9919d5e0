use vstd::prelude::*;
use crate::multinode::TaskId;

verus! {

/// Identifier of a job, assigned at submission.
pub type JobId = u32;

/// Number of tasks of a job, or a position of a task inside its job.
pub type JobTaskCount = u32;

/// Position of a task inside its job.
pub type JobTaskId = u32;

/// Identifier of a subscription to the completion of a job.
pub type WaiterToken = u64;

/// Where a task is in its life.
#[derive(Clone, Copy, Debug, PartialEq, Eq, Structural)]
pub enum TaskState {
    Waiting,
    Running,
    Finished,
    Failed,
    Canceled,
}

pub open spec fn is_terminal(s: TaskState) -> bool {
    s is Finished || s is Failed || s is Canceled
}

/// A task may only leave a state that is not terminal, never go back to
/// `Waiting`, and only move to another state.
pub open spec fn transition_allowed(from: TaskState, to: TaskState) -> bool {
    !is_terminal(from) && !(to is Waiting) && from != to
}

/// How many of `states` equal `s`.
pub open spec fn count_state(states: Seq<TaskState>, s: TaskState) -> nat
    decreases states.len(),
{
    if states.len() == 0 {
        0
    } else {
        count_state(states.drop_last(), s) + if states.last() == s {
            1nat
        } else {
            0nat
        }
    }
}

/// How many of `states` are terminal.
pub open spec fn count_terminal(states: Seq<TaskState>) -> nat {
    count_state(states, TaskState::Finished) + count_state(states, TaskState::Failed)
        + count_state(states, TaskState::Canceled)
}

pub proof fn lemma_count_update(states: Seq<TaskState>, i: int, x: TaskState, s: TaskState)
    requires
        0 <= i < states.len(),
    ensures
        count_state(states.update(i, x), s) as int == count_state(states, s) as int - (if states[i]
            == s {
            1int
        } else {
            0int
        }) + (if x == s {
            1int
        } else {
            0int
        }),
    decreases states.len(),
{
    let u = states.update(i, x);
    if i == states.len() - 1 {
        assert(u.drop_last() == states.drop_last());
    } else {
        assert(u.drop_last() == states.drop_last().update(i, x));
        lemma_count_update(states.drop_last(), i, x, s);
    }
}

pub proof fn lemma_count_absent(states: Seq<TaskState>, s: TaskState)
    requires
        forall|i: int| 0 <= i < states.len() ==> states[i] != s,
    ensures
        count_state(states, s) == 0,
    decreases states.len(),
{
    if states.len() > 0 {
        lemma_count_absent(states.drop_last(), s);
    }
}

pub proof fn lemma_count_bounds(states: Seq<TaskState>)
    ensures
        count_terminal(states) + count_state(states, TaskState::Running) <= states.len(),
        count_terminal(states) == states.len() <==> forall|i: int|
            0 <= i < states.len() ==> is_terminal(#[trigger] states[i]),
    decreases states.len(),
{
    if states.len() > 0 {
        let init = states.drop_last();
        lemma_count_bounds(init);
        if count_terminal(states) == states.len() {
            assert forall|i: int| 0 <= i < states.len() implies is_terminal(#[trigger] states[i]) by {
                if i < states.len() - 1 {
                    assert(states[i] == init[i]);
                }
            };
        }
        if forall|i: int| 0 <= i < states.len() ==> is_terminal(#[trigger] states[i]) {
            assert forall|i: int| 0 <= i < init.len() implies is_terminal(#[trigger] init[i]) by {
                assert(init[i] == states[i]);
            };
            assert(is_terminal(states[states.len() - 1]));
        }
    }
}

/// Per-state task counts of a job.
#[derive(Clone, Copy, Debug, PartialEq, Eq, Structural)]
pub struct JobTaskCounters {
    pub n_running_tasks: JobTaskCount,
    pub n_finished_tasks: JobTaskCount,
    pub n_failed_tasks: JobTaskCount,
    pub n_canceled_tasks: JobTaskCount,
}

impl JobTaskCounters {
    pub fn zero() -> (r: JobTaskCounters)
        ensures
            r.n_running_tasks == 0 && r.n_finished_tasks == 0 && r.n_failed_tasks == 0
                && r.n_canceled_tasks == 0,
    {
        JobTaskCounters {
            n_running_tasks: 0,
            n_finished_tasks: 0,
            n_failed_tasks: 0,
            n_canceled_tasks: 0,
        }
    }

    pub open spec fn n_done(self) -> int {
        self.n_finished_tasks + self.n_failed_tasks + self.n_canceled_tasks
    }

    /// The counters that `states` give.
    pub open spec fn of_states(self, states: Seq<TaskState>) -> bool {
        &&& self.n_running_tasks == count_state(states, TaskState::Running)
        &&& self.n_finished_tasks == count_state(states, TaskState::Finished)
        &&& self.n_failed_tasks == count_state(states, TaskState::Failed)
        &&& self.n_canceled_tasks == count_state(states, TaskState::Canceled)
    }
}

/// What clients are told of a job.
#[derive(Clone, Copy, Debug, PartialEq, Eq, Structural)]
pub struct JobInfo {
    pub id: JobId,
    pub n_tasks: JobTaskCount,
    pub counters: JobTaskCounters,
}

impl JobInfo {
    pub open spec fn terminated(self) -> bool {
        self.counters.n_done() == self.n_tasks
    }

    /// Whether every task of the job has ended.
    pub fn is_terminated(&self) -> (r: bool)
        ensures
            r == self.terminated(),
    {
        self.counters.n_finished_tasks as u64 + self.counters.n_failed_tasks as u64
            + self.counters.n_canceled_tasks as u64 == self.n_tasks as u64
    }
}

/// Scheduler ids of the tasks of `states` that have not ended, in task order;
/// task `i` has the id `base + i`.
pub open spec fn non_finished_ids(base: TaskId, states: Seq<TaskState>) -> Seq<TaskId>
    decreases states.len(),
{
    if states.len() == 0 {
        Seq::empty()
    } else {
        let init = non_finished_ids(base, states.drop_last());
        if is_terminal(states.last()) {
            init
        } else {
            init.push((base + states.len() - 1) as TaskId)
        }
    }
}

/// The task states after the task with scheduler id `task_id` was asked to
/// move to `state`.
pub open spec fn states_after_set(base: TaskId, states: Seq<TaskState>, task_id: TaskId, state: TaskState) -> Seq<TaskState> {
    if base <= task_id < base + states.len() && transition_allowed(states[task_id - base], state) {
        states.update(task_id - base, state)
    } else {
        states
    }
}

/// The task with scheduler id `task_id` belongs to the job and has not ended.
pub open spec fn cancelable(base: TaskId, states: Seq<TaskState>, task_id: TaskId) -> bool {
    base <= task_id < base + states.len() && !is_terminal(states[task_id - base])
}

pub open spec fn states_after_cancel(base: TaskId, states: Seq<TaskState>, task_id: TaskId) -> Seq<TaskState> {
    if cancelable(base, states, task_id) {
        states.update(task_id - base, TaskState::Canceled)
    } else {
        states
    }
}

/// The task states after each of `task_ids` was canceled in turn.
pub open spec fn states_after_cancels(base: TaskId, states: Seq<TaskState>, task_ids: Seq<TaskId>) -> Seq<TaskState>
    decreases task_ids.len(),
{
    if task_ids.len() == 0 {
        states
    } else {
        states_after_cancel(
            base,
            states_after_cancels(base, states, task_ids.drop_last()),
            task_ids.last(),
        )
    }
}

/// The positions of the tasks that canceling each of `task_ids` in turn
/// canceled, in that order.
pub open spec fn canceled_positions(base: TaskId, states: Seq<TaskState>, task_ids: Seq<TaskId>) -> Seq<JobTaskId>
    decreases task_ids.len(),
{
    if task_ids.len() == 0 {
        Seq::empty()
    } else {
        let init = canceled_positions(base, states, task_ids.drop_last());
        let id = task_ids.last();
        if cancelable(base, states_after_cancels(base, states, task_ids.drop_last()), id) {
            init.push((id - base) as JobTaskId)
        } else {
            init
        }
    }
}

/// Picks the tasks whose state is one of `states`.
#[derive(Clone, Debug)]
pub struct TaskSelector {
    pub states: Vec<TaskState>,
}

/// One task in the detail of a job.
#[derive(Clone, Copy, Debug, PartialEq, Eq, Structural)]
pub struct TaskDetail {
    pub job_task_id: JobTaskId,
    pub task_id: TaskId,
    pub state: TaskState,
}

/// A job with its selected tasks, in task order.
#[derive(Clone, Debug)]
pub struct JobDetail {
    pub info: JobInfo,
    pub tasks: Vec<TaskDetail>,
}

/// The details of the tasks of `states` (task `i` with scheduler id
/// `base + i`) whose state `filter` accepts; no filter accepts all.
pub open spec fn detail_tasks(base: TaskId, states: Seq<TaskState>, filter: Option<Seq<TaskState>>) -> Seq<TaskDetail>
    decreases states.len(),
{
    if states.len() == 0 {
        Seq::empty()
    } else {
        let init = detail_tasks(base, states.drop_last(), filter);
        let i = states.len() - 1;
        let accepted = match filter {
            Some(f) => f.contains(states.last()),
            None => true,
        };
        if accepted {
            init.push(TaskDetail { job_task_id: i as JobTaskId, task_id: (base + i) as TaskId, state: states.last() })
        } else {
            init
        }
    }
}

pub open spec fn filter_of(task_selector: Option<&TaskSelector>) -> Option<Seq<TaskState>> {
    match task_selector {
        Some(ts) => Some(ts.states@),
        None => None,
    }
}

fn contains_state(states: &Vec<TaskState>, s: TaskState) -> (r: bool)
    ensures
        r == states@.contains(s),
{
    let mut i: usize = 0;
    while i < states.len()
        invariant
            0 <= i <= states@.len(),
            forall|k: int| 0 <= k < i ==> states@[k] != s,
        decreases states@.len() - i,
    {
        if states[i] == s {
            proof {
                assert(states@[i as int] == s);
            }
            return true;
        }
        i += 1;
    }
    false
}

/// A job: a batch of tasks submitted together. Task `i` of the job (its
/// position, a `JobTaskId`) has the scheduler id `base_task_id + i`.
pub struct Job {
    job_id: JobId,
    base_task_id: TaskId,
    states: Vec<TaskState>,
    counters: JobTaskCounters,
    waiters: Vec<WaiterToken>,
}

impl Job {
    pub closed spec fn id(&self) -> JobId {
        self.job_id
    }

    pub fn job_id(&self) -> (r: JobId)
        ensures
            r == self.id(),
    {
        self.job_id
    }

    pub closed spec fn base(&self) -> TaskId {
        self.base_task_id
    }

    /// The state of each task, by position.
    pub closed spec fn states(&self) -> Seq<TaskState> {
        self.states@
    }

    /// Subscriptions to the completion of the job, in subscription order.
    pub closed spec fn waiters(&self) -> Seq<WaiterToken> {
        self.waiters@
    }

    pub closed spec fn spec_counters(&self) -> JobTaskCounters {
        self.counters
    }

    pub open spec fn n(&self) -> nat {
        self.states().len()
    }

    /// Every task has ended; by the counters, as the job tells it.
    pub open spec fn terminated(&self) -> bool {
        self.spec_counters().n_done() == self.n()
    }

    pub closed spec fn wf(&self) -> bool {
        &&& 1 <= self.states@.len() <= u32::MAX
        &&& self.base_task_id + self.states@.len() <= u64::MAX
        &&& self.counters.of_states(self.states@)
        &&& self.terminated() ==> self.waiters@.len() == 0
    }

    /// Whether `task_id` is the scheduler id of a task of this job.
    pub open spec fn owns(&self, task_id: TaskId) -> bool {
        self.base() <= task_id < self.base() + self.n()
    }

    /// A new job whose `n_tasks` tasks wait, with the scheduler ids
    /// `base_task_id ..` `base_task_id + n_tasks`.
    pub fn new(job_id: JobId, base_task_id: TaskId, n_tasks: JobTaskCount) -> (r: Job)
        requires
            n_tasks >= 1,
            base_task_id + n_tasks <= u64::MAX,
        ensures
            r.wf(),
            r.id() == job_id,
            r.base() == base_task_id,
            r.n() == n_tasks,
            forall|i: int| 0 <= i < n_tasks ==> #[trigger] r.states()[i] == TaskState::Waiting,
            r.waiters().len() == 0,
    {
        let mut states: Vec<TaskState> = Vec::new();
        let mut i: u32 = 0;
        while i < n_tasks
            invariant
                i <= n_tasks,
                states@.len() == i,
                forall|k: int| 0 <= k < i ==> states@[k] == TaskState::Waiting,
            decreases n_tasks - i,
        {
            states.push(TaskState::Waiting);
            i += 1;
        }
        proof {
            lemma_count_absent(states@, TaskState::Running);
            lemma_count_absent(states@, TaskState::Finished);
            lemma_count_absent(states@, TaskState::Failed);
            lemma_count_absent(states@, TaskState::Canceled);
        }
        Job {
            job_id,
            base_task_id,
            states,
            counters: JobTaskCounters::zero(),
            waiters: Vec::new(),
        }
    }

    /// The counters agree with the task states: the ended tasks are at most all
    /// tasks, and exactly all of them when the job is terminated.
    pub proof fn lemma_counters_consistent(&self)
        requires
            self.wf(),
        ensures
            self.spec_counters().of_states(self.states()),
            self.spec_counters().n_done() + self.spec_counters().n_running_tasks <= self.n(),
            self.terminated() <==> forall|i: int|
                0 <= i < self.n() ==> is_terminal(#[trigger] self.states()[i]),
            self.terminated() ==> self.waiters().len() == 0,
            1 <= self.n() <= u32::MAX,
    {
        lemma_count_bounds(self.states@);
    }

    pub fn n_tasks(&self) -> (r: JobTaskCount)
        requires
            self.wf(),
        ensures
            r == self.n(),
    {
        self.states.len() as JobTaskCount
    }

    pub fn counters(&self) -> (r: JobTaskCounters)
        ensures
            r == self.spec_counters(),
    {
        self.counters
    }

    pub fn is_terminated(&self) -> (r: bool)
        requires
            self.wf(),
        ensures
            r == self.terminated(),
    {
        self.counters.n_finished_tasks as u64 + self.counters.n_failed_tasks as u64
            + self.counters.n_canceled_tasks as u64 == self.states.len() as u64
    }

    /// The summary that clients are told.
    pub open spec fn info(&self) -> JobInfo {
        JobInfo { id: self.id(), n_tasks: self.n() as JobTaskCount, counters: self.spec_counters() }
    }

    pub fn make_job_info(&self) -> (r: JobInfo)
        requires
            self.wf(),
        ensures
            r == self.info(),
            r.n_tasks == self.n(),
            r.terminated() == self.terminated(),
    {
        JobInfo { id: self.job_id, n_tasks: self.n_tasks(), counters: self.counters }
    }

    /// The state of the task with scheduler id `task_id`, if it is one of
    /// this job's.
    pub fn task_state(&self, task_id: TaskId) -> (r: Option<TaskState>)
        requires
            self.wf(),
        ensures
            r == (if self.owns(task_id) {
                Some(self.states()[task_id - self.base()])
            } else {
                None::<TaskState>
            }),
    {
        if task_id < self.base_task_id || task_id - self.base_task_id >= self.states.len() as u64 {
            None
        } else {
            Some(self.states[(task_id - self.base_task_id) as usize])
        }
    }

    /// Scheduler ids of the tasks that are waiting or running, in task order.
    pub fn non_finished_task_ids(&self) -> (r: Vec<TaskId>)
        requires
            self.wf(),
        ensures
            r@ == non_finished_ids(self.base(), self.states()),
    {
        let mut r: Vec<TaskId> = Vec::new();
        let mut i: usize = 0;
        while i < self.states.len()
            invariant
                self.wf(),
                0 <= i <= self.states@.len(),
                r@ == non_finished_ids(self.base(), self.states@.take(i as int)),
            decreases self.states@.len() - i,
        {
            proof {
                assert(self.states@.take(i + 1).drop_last() == self.states@.take(i as int));
            }
            let s = self.states[i];
            if !(s == TaskState::Finished || s == TaskState::Failed || s == TaskState::Canceled) {
                r.push(self.base_task_id + i as u64);
            }
            i += 1;
        }
        proof {
            assert(self.states@.take(i as int) == self.states@);
        }
        r
    }

    /// Subscribes `token` to the completion of this job, which has not ended.
    pub fn subscribe_to_completion(&mut self, token: WaiterToken)
        requires
            old(self).wf(),
            !old(self).terminated(),
        ensures
            final(self).wf(),
            final(self).waiters() == old(self).waiters().push(token),
            final(self).id() == old(self).id(),
            final(self).base() == old(self).base(),
            final(self).states() == old(self).states(),
            final(self).spec_counters() == old(self).spec_counters(),
    {
        self.waiters.push(token);
    }

    /// Moves the task with scheduler id `task_id` to `state` where the
    /// transition is allowed; otherwise nothing changes. When this ends the job,
    /// the subscriptions are returned, in subscription order, and cleared; else
    /// nothing is returned.
    pub fn set_task_state(&mut self, task_id: TaskId, state: TaskState) -> (r: Vec<WaiterToken>)
        requires
            old(self).wf(),
        ensures
            final(self).wf(),
            final(self).id() == old(self).id(),
            final(self).base() == old(self).base(),
            final(self).states() == states_after_set(
                old(self).base(),
                old(self).states(),
                task_id,
                state,
            ),
            fires(*old(self), *final(self), r@),
    {
        if task_id < self.base_task_id || task_id - self.base_task_id >= self.states.len() as u64 {
            return Vec::new();
        }
        let i = (task_id - self.base_task_id) as usize;
        let from = self.states[i];
        let from_terminal = from == TaskState::Finished || from == TaskState::Failed || from
            == TaskState::Canceled;
        if from_terminal || state == TaskState::Waiting || from == state {
            return Vec::new();
        }
        let was_terminated = self.is_terminated();
        proof {
            lemma_count_bounds(self.states@);
            if was_terminated {
                assert(is_terminal(self.states@[i as int]));
            }
        }
        let ghost before = self.states@;
        proof {
            lemma_count_bounds(before);
            lemma_count_update(before, i as int, state, TaskState::Running);
            lemma_count_update(before, i as int, state, TaskState::Finished);
            lemma_count_update(before, i as int, state, TaskState::Failed);
            lemma_count_update(before, i as int, state, TaskState::Canceled);
            lemma_count_bounds(before.update(i as int, state));
        }
        self.states.set(i, state);
        if from == TaskState::Running {
            self.counters.n_running_tasks = self.counters.n_running_tasks - 1;
        }
        match state {
            TaskState::Running => {
                self.counters.n_running_tasks = self.counters.n_running_tasks + 1;
            },
            TaskState::Finished => {
                self.counters.n_finished_tasks = self.counters.n_finished_tasks + 1;
            },
            TaskState::Failed => {
                self.counters.n_failed_tasks = self.counters.n_failed_tasks + 1;
            },
            TaskState::Canceled => {
                self.counters.n_canceled_tasks = self.counters.n_canceled_tasks + 1;
            },
            TaskState::Waiting => {},
        }
        let now_terminated = self.counters.n_finished_tasks as u64
            + self.counters.n_failed_tasks as u64 + self.counters.n_canceled_tasks as u64
            == self.states.len() as u64;
        if !was_terminated && now_terminated {
            let mut fired: Vec<WaiterToken> = Vec::new();
            std::mem::swap(&mut fired, &mut self.waiters);
            fired
        } else {
            Vec::new()
        }
    }
}

/// From `before` to `after` the job's end is kept; the subscriptions are
/// handed out, as `fired`, exactly when the change ended the job, and then
/// cleared.
pub open spec fn fires(before: Job, after: Job, fired: Seq<WaiterToken>) -> bool {
    &&& before.terminated() ==> after.terminated()
    &&& !before.terminated() && after.terminated() ==> fired == before.waiters()
        && after.waiters().len() == 0
    &&& !(!before.terminated() && after.terminated()) ==> fired.len() == 0 && after.waiters()
        == before.waiters()
}

/// Every subscription made before the change that ends a job is fired by
/// that change, once and in subscription order; no later change fires any.
pub proof fn lemma_waiters_fire_once(
    before: Job,
    after: Job,
    fired: Seq<WaiterToken>,
    later: Job,
    fired_later: Seq<WaiterToken>,
)
    requires
        !before.terminated(),
        after.terminated(),
        fires(before, after, fired),
        fires(after, later, fired_later),
    ensures
        fired == before.waiters(),
        after.waiters().len() == 0,
        later.terminated(),
        fired_later.len() == 0,
{
}

impl Job {
    /// Cancels the task with scheduler id `task_id` if it belongs to this job
    /// and has not ended, and returns its position in the job; otherwise
    /// nothing changes. The subscriptions fired by the change come second.
    pub fn set_cancel_state(&mut self, task_id: TaskId) -> (r: (Option<JobTaskId>, Vec<WaiterToken>))
        requires
            old(self).wf(),
        ensures
            final(self).wf(),
            final(self).id() == old(self).id(),
            final(self).base() == old(self).base(),
            r.0 == (if cancelable(old(self).base(), old(self).states(), task_id) {
                Some((task_id - old(self).base()) as JobTaskId)
            } else {
                None::<JobTaskId>
            }),
            final(self).states() == states_after_cancel(old(self).base(), old(self).states(), task_id),
            fires(*old(self), *final(self), r.1@),
    {
        match self.task_state(task_id) {
            Some(s) => {
                if s == TaskState::Finished || s == TaskState::Failed || s == TaskState::Canceled {
                    (None, Vec::new())
                } else {
                    let fired = self.set_task_state(task_id, TaskState::Canceled);
                    (Some((task_id - self.base_task_id) as JobTaskId), fired)
                }
            },
            None => (None, Vec::new()),
        }
    }

    /// Cancels each of `task_ids` in turn (ids that are not this job's, or
    /// whose task has ended, change nothing) and returns the positions of the
    /// tasks it canceled, then the subscriptions that the end of the job fired.
    pub fn cancel_tasks(&mut self, task_ids: &Vec<TaskId>) -> (r: (Vec<JobTaskId>, Vec<WaiterToken>))
        requires
            old(self).wf(),
        ensures
            final(self).wf(),
            final(self).id() == old(self).id(),
            final(self).base() == old(self).base(),
            final(self).states() == states_after_cancels(old(self).base(), old(self).states(), task_ids@),
            r.0@ == canceled_positions(old(self).base(), old(self).states(), task_ids@),
            r.0@.len() + count_terminal(old(self).states()) == count_terminal(final(self).states()),
            r.0@.len() <= old(self).n(),
            fires(*old(self), *final(self), r.1@),
    {
        let ghost before = *self;
        let mut positions: Vec<JobTaskId> = Vec::new();
        let mut fired: Vec<WaiterToken> = Vec::new();
        let mut k: usize = 0;
        while k < task_ids.len()
            invariant
                self.wf(),
                before.wf(),
                0 <= k <= task_ids@.len(),
                self.id() == before.id(),
                self.base() == before.base(),
                self.n() == before.n(),
                self.states() == states_after_cancels(before.base(), before.states(), task_ids@.take(k as int)),
                positions@ == canceled_positions(before.base(), before.states(), task_ids@.take(k as int)),
                positions@.len() + count_terminal(before.states()) == count_terminal(self.states()),
                fires(before, *self, fired@),
            decreases task_ids@.len() - k,
        {
            let id = task_ids[k];
            let ghost mid = *self;
            let (pos, newly) = self.set_cancel_state(id);
            proof {
                assert(task_ids@.take(k + 1).drop_last() == task_ids@.take(k as int));
                if pos is Some {
                    let i = id - before.base();
                    lemma_count_update(mid.states(), i, TaskState::Canceled, TaskState::Finished);
                    lemma_count_update(mid.states(), i, TaskState::Canceled, TaskState::Failed);
                    lemma_count_update(mid.states(), i, TaskState::Canceled, TaskState::Canceled);
                }
            }
            match pos {
                Some(p) => positions.push(p),
                None => {},
            }
            if newly.len() > 0 {
                fired = newly;
            }
            proof {
                if !mid.terminated() && self.terminated() {
                    assert(fired@ =~= before.waiters());
                }
            }
            k += 1;
        }
        proof {
            assert(task_ids@.take(k as int) == task_ids@);
            lemma_count_bounds(self.states());
        }
        (positions, fired)
    }

    /// The job's summary and the tasks that `task_selector` picks.
    pub fn make_job_detail(&self, task_selector: Option<&TaskSelector>) -> (r: JobDetail)
        requires
            self.wf(),
        ensures
            r.info == self.info(),
            r.tasks@ == detail_tasks(self.base(), self.states(), filter_of(task_selector)),
    {
        let info = self.make_job_info();
        let mut tasks: Vec<TaskDetail> = Vec::new();
        let mut i: usize = 0;
        while i < self.states.len()
            invariant
                self.wf(),
                0 <= i <= self.states@.len(),
                tasks@ == detail_tasks(self.base(), self.states@.take(i as int), filter_of(task_selector)),
            decreases self.states@.len() - i,
        {
            proof {
                assert(self.states@.take(i + 1).drop_last() == self.states@.take(i as int));
            }
            let state = self.states[i];
            let accepted = match task_selector {
                Some(ts) => contains_state(&ts.states, state),
                None => true,
            };
            if accepted {
                tasks.push(TaskDetail {
                    job_task_id: i as JobTaskId,
                    task_id: self.base_task_id + i as u64,
                    state,
                });
            }
            i += 1;
        }
        proof {
            assert(self.states@.take(i as int) == self.states@);
        }
        JobDetail { info, tasks }
    }
}

} // verus!
