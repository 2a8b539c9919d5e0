use vstd::prelude::*;
use crate::job::{JobId, JobInfo};
use crate::wait::WaitForJobsResponse;

verus! {

/// Why a wait ended in failure.
#[derive(Clone, Copy, Debug, PartialEq, Eq, Structural)]
pub enum WaitError {
    /// A job failed or was canceled (a wait without progress display).
    FailedOrCanceled,
    /// A task failed.
    SomeFailed,
    /// No task failed, but one was canceled.
    SomeCanceled,
}

impl WaitError {
    /// The message shown to the user.
    pub fn message(&self) -> (r: &'static str)
        ensures
            *self is FailedOrCanceled ==> r@ == "Some jobs have failed or have been canceled"@,
            *self is SomeFailed ==> r@ == "Some jobs have failed"@,
            *self is SomeCanceled ==> r@ == "Some jobs were canceled"@,
    {
        match self {
            WaitError::FailedOrCanceled => "Some jobs have failed or have been canceled",
            WaitError::SomeFailed => "Some jobs have failed",
            WaitError::SomeCanceled => "Some jobs were canceled",
        }
    }
}

/// The result of a wait without progress display: it fails when a job failed
/// or was canceled.
pub fn wait_outcome(response: &WaitForJobsResponse) -> (r: Result<(), WaitError>)
    ensures
        r is Ok <==> response.failed == 0 && response.canceled == 0,
        r is Err ==> r == Err::<(), WaitError>(WaitError::FailedOrCanceled),
{
    if response.failed > 0 || response.canceled > 0 {
        Err(WaitError::FailedOrCanceled)
    } else {
        Ok(())
    }
}

/// Task counts summed over several jobs.
#[derive(Clone, Copy, Debug, PartialEq, Eq, Structural)]
pub struct ProgressCounters {
    pub n_running_tasks: u64,
    pub n_finished_tasks: u64,
    pub n_failed_tasks: u64,
    pub n_canceled_tasks: u64,
}

pub open spec fn zero_counters() -> ProgressCounters {
    ProgressCounters { n_running_tasks: 0, n_finished_tasks: 0, n_failed_tasks: 0, n_canceled_tasks: 0 }
}

/// `c` with the counters of `jobs` added (field by field, as integers).
pub open spec fn summed(c: (int, int, int, int), jobs: Seq<JobInfo>) -> (int, int, int, int)
    decreases jobs.len(),
{
    if jobs.len() == 0 {
        c
    } else {
        let s = summed(c, jobs.drop_last());
        let k = jobs.last().counters;
        (s.0 + k.n_running_tasks, s.1 + k.n_finished_tasks, s.2 + k.n_failed_tasks, s.3
            + k.n_canceled_tasks)
    }
}

/// The jobs of `jobs` that have ended.
pub open spec fn ended_jobs(jobs: Seq<JobInfo>) -> Seq<JobInfo>
    decreases jobs.len(),
{
    if jobs.len() == 0 {
        Seq::empty()
    } else if jobs.last().terminated() {
        ended_jobs(jobs.drop_last()).push(jobs.last())
    } else {
        ended_jobs(jobs.drop_last())
    }
}

pub open spec fn as_tuple(c: ProgressCounters) -> (int, int, int, int) {
    (c.n_running_tasks as int, c.n_finished_tasks as int, c.n_failed_tasks as int, c.n_canceled_tasks as int)
}

pub open spec fn fits(t: (int, int, int, int)) -> bool {
    t.0 <= u64::MAX && t.1 <= u64::MAX && t.2 <= u64::MAX && t.3 <= u64::MAX
}

pub open spec fn tuple_counters(t: (int, int, int, int)) -> ProgressCounters {
    ProgressCounters {
        n_running_tasks: t.0 as u64,
        n_finished_tasks: t.1 as u64,
        n_failed_tasks: t.2 as u64,
        n_canceled_tasks: t.3 as u64,
    }
}

/// Of a prefix, the sums of all jobs bound those of the ended ones.
pub proof fn lemma_ended_le(c: (int, int, int, int), jobs: Seq<JobInfo>)
    requires
        c.0 >= 0 && c.1 >= 0 && c.2 >= 0 && c.3 >= 0,
    ensures
        ({
            let a = summed(c, jobs);
            let e = summed(c, ended_jobs(jobs));
            e.0 <= a.0 && e.1 <= a.1 && e.2 <= a.2 && e.3 <= a.3
        }),
    decreases jobs.len(),
{
    if jobs.len() > 0 {
        lemma_ended_le(c, jobs.drop_last());
        if jobs.last().terminated() {
            assert(ended_jobs(jobs).drop_last() == ended_jobs(jobs.drop_last()));
        }
    }
}

/// The state of a wait with progress display between two polls.
pub struct ProgressState {
    /// The jobs not yet seen ended, each once.
    pub remaining: Vec<JobId>,
    /// The counters of the jobs seen ended.
    pub counters: ProgressCounters,
    pub total_jobs: u64,
    pub total_tasks: u64,
}

/// What one poll shows.
#[derive(Clone, Copy, Debug, PartialEq, Eq, Structural)]
pub struct ProgressSnapshot {
    /// The counters of the ended jobs and of every polled job.
    pub counters: ProgressCounters,
    pub completed_jobs: u64,
    pub completed_tasks: u64,
    /// Every job has ended: the wait is over.
    pub done: bool,
}

/// Whether `jobs` shows the job `id` ended.
pub open spec fn seen_ended(jobs: Seq<JobInfo>, id: JobId) -> bool {
    exists|i: int| 0 <= i < jobs.len() && jobs[i].terminated() && #[trigger] jobs[i].id == id
}

/// `ids` without the ids of the ended jobs of `jobs`.
pub open spec fn without_ended(ids: Seq<JobId>, jobs: Seq<JobInfo>) -> Seq<JobId>
    decreases ids.len(),
{
    if ids.len() == 0 {
        Seq::empty()
    } else if seen_ended(jobs, ids.last()) {
        without_ended(ids.drop_last(), jobs)
    } else {
        without_ended(ids.drop_last(), jobs).push(ids.last())
    }
}

pub proof fn lemma_without_ended_len(ids: Seq<JobId>, jobs: Seq<JobInfo>)
    ensures
        without_ended(ids, jobs).len() <= ids.len(),
    decreases ids.len(),
{
    if ids.len() > 0 {
        lemma_without_ended_len(ids.drop_last(), jobs);
    }
}

/// The ids of the jobs of `jobs` that have not ended, each once, in order of
/// first appearance.
pub open spec fn live_distinct_ids(jobs: Seq<JobInfo>) -> Seq<JobId>
    decreases jobs.len(),
{
    if jobs.len() == 0 {
        Seq::empty()
    } else {
        let init = live_distinct_ids(jobs.drop_last());
        let j = jobs.last();
        if !j.terminated() && !init.contains(j.id) {
            init.push(j.id)
        } else {
            init
        }
    }
}

/// The tasks of the jobs of `jobs` that have not ended.
pub open spec fn live_tasks(jobs: Seq<JobInfo>) -> int
    decreases jobs.len(),
{
    if jobs.len() == 0 {
        0
    } else {
        live_tasks(jobs.drop_last()) + if jobs.last().terminated() {
            0int
        } else {
            jobs.last().n_tasks as int
        }
    }
}

pub proof fn lemma_live_tasks_bound(jobs: Seq<JobInfo>)
    ensures
        0 <= live_tasks(jobs) <= jobs.len() * u32::MAX,
    decreases jobs.len(),
{
    if jobs.len() > 0 {
        lemma_live_tasks_bound(jobs.drop_last());
        assert((jobs.len() - 1) * u32::MAX + u32::MAX == jobs.len() * u32::MAX) by (nonlinear_arith);
    }
}

fn contains_id(ids: &Vec<JobId>, id: JobId) -> (r: bool)
    ensures
        r == ids@.contains(id),
{
    let mut i: usize = 0;
    while i < ids.len()
        invariant
            0 <= i <= ids@.len(),
            forall|k: int| 0 <= k < i ==> ids@[k] != id,
        decreases ids@.len() - i,
    {
        if ids[i] == id {
            proof {
                assert(ids@[i as int] == id);
            }
            return true;
        }
        i += 1;
    }
    false
}

pub proof fn lemma_summed_bound(c: (int, int, int, int), jobs: Seq<JobInfo>)
    ensures
        ({
            let s = summed(c, jobs);
            let m = jobs.len() * u32::MAX;
            s.0 <= c.0 + m && s.1 <= c.1 + m && s.2 <= c.2 + m && s.3 <= c.3 + m
        }),
    decreases jobs.len(),
{
    if jobs.len() > 0 {
        lemma_summed_bound(c, jobs.drop_last());
        assert((jobs.len() - 1) * u32::MAX + u32::MAX == jobs.len() * u32::MAX) by (nonlinear_arith);
    }
}

/// The snapshot sums can be shown: each fits in `u64`, and so does the number
/// of ended tasks.
pub open spec fn snapshot_fits(t: (int, int, int, int)) -> bool {
    fits(t) && t.1 + t.2 + t.3 <= u64::MAX
}

fn ended_in(jobs: &Vec<JobInfo>, id: JobId) -> (r: bool)
    ensures
        r == seen_ended(jobs@, id),
{
    let mut i: usize = 0;
    while i < jobs.len()
        invariant
            0 <= i <= jobs@.len(),
            forall|k: int| 0 <= k < i ==> !(jobs@[k].terminated() && jobs@[k].id == id),
        decreases jobs@.len() - i,
    {
        if jobs[i].id == id && jobs[i].is_terminated() {
            return true;
        }
        i += 1;
    }
    false
}

/// One poll of a wait with progress display, on the summaries of the jobs
/// that were still running. The snapshot counts the ended jobs seen before
/// and every polled job; the polled jobs that have ended join the ended ones
/// and leave the remaining ids. `None`, with nothing changed, when the
/// snapshot does not fit in its counters.
pub fn observe(state: &mut ProgressState, jobs: &Vec<JobInfo>) -> (r: Option<ProgressSnapshot>)
    requires
        old(state).remaining@.len() <= old(state).total_jobs,
    ensures
        final(state).total_jobs == old(state).total_jobs,
        final(state).total_tasks == old(state).total_tasks,
        final(state).remaining@.len() <= final(state).total_jobs,
        r is None <==> !snapshot_fits(summed(as_tuple(old(state).counters), jobs@)),
        r is None ==> final(state).remaining@ == old(state).remaining@ && final(state).counters
            == old(state).counters,
        r matches Some(snap) ==> {
            &&& snap.counters == tuple_counters(summed(as_tuple(old(state).counters), jobs@))
            &&& final(state).counters == tuple_counters(
                summed(as_tuple(old(state).counters), ended_jobs(jobs@)),
            )
            &&& final(state).remaining@ == without_ended(old(state).remaining@, jobs@)
            &&& snap.completed_jobs == final(state).total_jobs - final(state).remaining@.len()
            &&& snap.completed_tasks == snap.counters.n_finished_tasks
                + snap.counters.n_failed_tasks + snap.counters.n_canceled_tasks
            &&& snap.done == (final(state).remaining@.len() == 0)
        },
{
    let ghost c = as_tuple(state.counters);
    let mut all: (u128, u128, u128, u128) = (
        state.counters.n_running_tasks as u128,
        state.counters.n_finished_tasks as u128,
        state.counters.n_failed_tasks as u128,
        state.counters.n_canceled_tasks as u128,
    );
    let mut ended: (u128, u128, u128, u128) = all;
    let mut k: usize = 0;
    while k < jobs.len()
        invariant
            0 <= k <= jobs@.len(),
            c == as_tuple(state.counters),
            all.0 as int == summed(c, jobs@.take(k as int)).0,
            all.1 as int == summed(c, jobs@.take(k as int)).1,
            all.2 as int == summed(c, jobs@.take(k as int)).2,
            all.3 as int == summed(c, jobs@.take(k as int)).3,
            ended.0 as int == summed(c, ended_jobs(jobs@.take(k as int))).0,
            ended.1 as int == summed(c, ended_jobs(jobs@.take(k as int))).1,
            ended.2 as int == summed(c, ended_jobs(jobs@.take(k as int))).2,
            ended.3 as int == summed(c, ended_jobs(jobs@.take(k as int))).3,
        decreases jobs@.len() - k,
    {
        proof {
            assert(jobs@.take(k + 1).drop_last() == jobs@.take(k as int));
            lemma_summed_bound(c, jobs@.take(k as int));
            lemma_ended_le(c, jobs@.take(k as int));
            assert(k * u32::MAX <= u64::MAX * u32::MAX) by (nonlinear_arith)
                requires k <= u64::MAX;
            if jobs@[k as int].terminated() {
                assert(ended_jobs(jobs@.take(k + 1)).drop_last() == ended_jobs(jobs@.take(k as int)));
            }
        }
        let job = jobs[k];
        all = (
            all.0 + job.counters.n_running_tasks as u128,
            all.1 + job.counters.n_finished_tasks as u128,
            all.2 + job.counters.n_failed_tasks as u128,
            all.3 + job.counters.n_canceled_tasks as u128,
        );
        if job.is_terminated() {
            ended = (
                ended.0 + job.counters.n_running_tasks as u128,
                ended.1 + job.counters.n_finished_tasks as u128,
                ended.2 + job.counters.n_failed_tasks as u128,
                ended.3 + job.counters.n_canceled_tasks as u128,
            );
        }
        k += 1;
    }
    proof {
        assert(jobs@.take(k as int) == jobs@);
        lemma_ended_le(c, jobs@);
    }
    let max = u64::MAX as u128;
    if all.0 > max || all.1 > max || all.2 > max || all.3 > max || all.1 + all.2 + all.3 > max {
        return None;
    }
    let mut remaining: Vec<JobId> = Vec::new();
    let mut i: usize = 0;
    while i < state.remaining.len()
        invariant
            0 <= i <= state.remaining@.len(),
            remaining@ == without_ended(state.remaining@.take(i as int), jobs@),
        decreases state.remaining@.len() - i,
    {
        proof {
            assert(state.remaining@.take(i + 1).drop_last() == state.remaining@.take(i as int));
        }
        let id = state.remaining[i];
        if !ended_in(jobs, id) {
            remaining.push(id);
        }
        i += 1;
    }
    proof {
        assert(state.remaining@.take(i as int) == state.remaining@);
        lemma_without_ended_len(state.remaining@, jobs@);
    }
    state.remaining = remaining;
    state.counters = ProgressCounters {
        n_running_tasks: ended.0 as u64,
        n_finished_tasks: ended.1 as u64,
        n_failed_tasks: ended.2 as u64,
        n_canceled_tasks: ended.3 as u64,
    };
    let counters = ProgressCounters {
        n_running_tasks: all.0 as u64,
        n_finished_tasks: all.1 as u64,
        n_failed_tasks: all.2 as u64,
        n_canceled_tasks: all.3 as u64,
    };
    Some(ProgressSnapshot {
        counters,
        completed_jobs: state.total_jobs - state.remaining.len() as u64,
        completed_tasks: counters.n_finished_tasks + counters.n_failed_tasks
            + counters.n_canceled_tasks,
        done: state.remaining.len() == 0,
    })
}

/// The result of a wait with progress display, from the counters of the
/// ended jobs: a failed task fails it, else a canceled one.
pub fn progress_outcome(counters: &ProgressCounters) -> (r: Result<(), WaitError>)
    ensures
        counters.n_failed_tasks > 0 ==> r == Err::<(), WaitError>(WaitError::SomeFailed),
        counters.n_failed_tasks == 0 && counters.n_canceled_tasks > 0 ==> r == Err::<
            (),
            WaitError,
        >(WaitError::SomeCanceled),
        counters.n_failed_tasks == 0 && counters.n_canceled_tasks == 0 ==> r is Ok,
{
    if counters.n_failed_tasks > 0 {
        Err(WaitError::SomeFailed)
    } else if counters.n_canceled_tasks > 0 {
        Err(WaitError::SomeCanceled)
    } else {
        Ok(())
    }
}

/// How many of `width` cells of a progress bar are filled when `done` of
/// `total` tasks have ended: `done * width / total`, at most `width`; none
/// when there are no tasks.
pub fn progress_filled(done: u64, total: u64, width: u64) -> (r: u64)
    requires
        width <= u32::MAX,
    ensures
        total == 0 ==> r == 0,
        total > 0 && done <= total ==> r as int == (done as int * width as int) / (total as int),
        total > 0 && done > total ==> r == width,
        r <= width,
{
    if total == 0 {
        0
    } else if done > total {
        width
    } else {
        proof {
            assert((done as int * width as int) / (total as int) <= width) by (nonlinear_arith)
                requires done <= total, total > 0, width >= 0;
            assert(done * width <= u64::MAX * u32::MAX) by (nonlinear_arith)
                requires done <= u64::MAX, width <= u32::MAX;
        }
        (done as u128 * width as u128 / total as u128) as u64
    }
}

/// A group of the status line.
#[derive(Clone, Copy, Debug, PartialEq, Eq, Structural)]
pub enum StatusGroup {
    Running,
    Finished,
    Failed,
    Canceled,
}

impl StatusGroup {
    pub fn name(&self) -> (r: &'static str)
        ensures
            *self is Running ==> r@ == "RUNNING"@,
            *self is Finished ==> r@ == "FINISHED"@,
            *self is Failed ==> r@ == "FAILED"@,
            *self is Canceled ==> r@ == "CANCELED"@,
    {
        match self {
            StatusGroup::Running => "RUNNING",
            StatusGroup::Finished => "FINISHED",
            StatusGroup::Failed => "FAILED",
            StatusGroup::Canceled => "CANCELED",
        }
    }
}

pub open spec fn group_if(n: u64, g: StatusGroup) -> Seq<(u64, StatusGroup)> {
    if n > 0 {
        seq![(n, g)]
    } else {
        Seq::empty()
    }
}

/// The groups of the status line: running, finished, failed and canceled,
/// in that order, each only when its count is not zero.
pub fn status_groups(c: &ProgressCounters) -> (r: Vec<(u64, StatusGroup)>)
    ensures
        r@ == group_if(c.n_running_tasks, StatusGroup::Running) + group_if(
            c.n_finished_tasks,
            StatusGroup::Finished,
        ) + group_if(c.n_failed_tasks, StatusGroup::Failed) + group_if(
            c.n_canceled_tasks,
            StatusGroup::Canceled,
        ),
{
    let mut r: Vec<(u64, StatusGroup)> = Vec::new();
    if c.n_running_tasks > 0 {
        r.push((c.n_running_tasks, StatusGroup::Running));
    }
    let ghost a = r@;
    if c.n_finished_tasks > 0 {
        r.push((c.n_finished_tasks, StatusGroup::Finished));
    }
    let ghost b = r@;
    if c.n_failed_tasks > 0 {
        r.push((c.n_failed_tasks, StatusGroup::Failed));
    }
    let ghost d = r@;
    if c.n_canceled_tasks > 0 {
        r.push((c.n_canceled_tasks, StatusGroup::Canceled));
    }
    proof {
        assert(a == group_if(c.n_running_tasks, StatusGroup::Running));
        assert(b == a + group_if(c.n_finished_tasks, StatusGroup::Finished));
        assert(d == b + group_if(c.n_failed_tasks, StatusGroup::Failed));
        assert(r@ == d + group_if(c.n_canceled_tasks, StatusGroup::Canceled));
    }
    r
}

/// Starts a wait with progress display on `jobs`: `None` when every job has
/// ended already; else the jobs that have not ended, their number and their
/// tasks, with zero counters.
pub fn start_progress(jobs: &Vec<JobInfo>) -> (r: Option<ProgressState>)
    requires
        jobs@.len() <= u32::MAX,
    ensures
        r is None <==> live_distinct_ids(jobs@).len() == 0,
        r matches Some(s) ==> {
            &&& s.remaining@ == live_distinct_ids(jobs@)
            &&& s.total_jobs == s.remaining@.len()
            &&& s.total_tasks == live_tasks(jobs@)
            &&& s.counters == zero_counters()
        },
{
    let mut remaining: Vec<JobId> = Vec::new();
    let mut total_tasks: u64 = 0;
    let mut k: usize = 0;
    while k < jobs.len()
        invariant
            jobs@.len() <= u32::MAX,
            0 <= k <= jobs@.len(),
            remaining@ == live_distinct_ids(jobs@.take(k as int)),
            remaining@.len() <= k,
            total_tasks == live_tasks(jobs@.take(k as int)),
        decreases jobs@.len() - k,
    {
        proof {
            assert(jobs@.take(k + 1).drop_last() == jobs@.take(k as int));
            lemma_live_tasks_bound(jobs@.take(k + 1));
            assert((k + 1) * u32::MAX <= u32::MAX * u32::MAX) by (nonlinear_arith)
                requires k + 1 <= u32::MAX;
        }
        let job = jobs[k];
        if !job.is_terminated() {
            total_tasks = total_tasks + job.n_tasks as u64;
            if !contains_id(&remaining, job.id) {
                remaining.push(job.id);
            }
        }
        k += 1;
    }
    proof {
        assert(jobs@.take(k as int) == jobs@);
    }
    if remaining.len() == 0 {
        None
    } else {
        let total_jobs = remaining.len() as u64;
        Some(ProgressState {
            remaining,
            counters: ProgressCounters {
                n_running_tasks: 0,
                n_finished_tasks: 0,
                n_failed_tasks: 0,
                n_canceled_tasks: 0,
            },
            total_jobs,
            total_tasks,
        })
    }
}

} // verus!
