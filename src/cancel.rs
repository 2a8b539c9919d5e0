use vstd::prelude::*;
use crate::job::{canceled_positions, non_finished_ids, JobId, JobTaskCount, JobTaskId, WaiterToken, states_after_cancels, fires};
use crate::multinode::TaskId;
use crate::registry::JobRegistry;
use crate::selector::{resolved, IdSelector};

verus! {

/// The outcome of canceling one job.
#[derive(Clone, Debug)]
pub enum CancelJobResponse {
    /// The positions of the tasks that were canceled, and how many tasks of
    /// the job were not (they had ended already).
    Canceled(Vec<JobTaskId>, JobTaskCount),
    InvalidJob,
    Failed(String),
}

/// What is to be done for one job of a cancel request.
#[derive(Clone, Debug)]
pub enum CancelStep {
    /// No such job.
    InvalidJob,
    /// Every task has ended; the job has this many tasks.
    NothingToCancel(JobTaskCount),
    /// Ask the backend to cancel these tasks.
    AskBackend(Vec<TaskId>),
}

/// What the backend answered to a request to cancel tasks.
#[derive(Clone, Debug)]
pub enum CancelReply {
    /// The tasks that it canceled.
    Canceled(Vec<TaskId>),
    /// It refused, or could not be reached, with this message.
    Error(String),
}

/// The ids of the jobs that canceling with `selector` goes through, in order:
/// every job for `All`, ascending, ended ones included (they are answered
/// with nothing canceled).
pub fn cancel_job_ids(registry: &JobRegistry, selector: &IdSelector) -> (r: Vec<JobId>)
    requires
        registry.wf(),
        selector.wf(),
    ensures
        r@ == resolved(*selector, registry.ids()),
{
    registry.get_job_ids(selector)
}

/// Decides, from a snapshot of the registry, what canceling the job `job_id`
/// takes.
pub fn cancel_step(registry: &JobRegistry, job_id: JobId) -> (r: CancelStep)
    requires
        registry.wf(),
    ensures
        r is InvalidJob <==> !registry.contains(job_id),
        r matches CancelStep::NothingToCancel(n) ==> registry.contains(job_id) && n
            == registry.job(job_id).n() && non_finished_ids(
            registry.job(job_id).base(),
            registry.job(job_id).states(),
        ).len() == 0,
        r matches CancelStep::AskBackend(ids) ==> registry.contains(job_id) && ids@
            == non_finished_ids(registry.job(job_id).base(), registry.job(job_id).states())
            && ids@.len() > 0,
{
    match registry.get_job(job_id) {
        None => CancelStep::InvalidJob,
        Some(job) => {
            let ids = job.non_finished_task_ids();
            if ids.len() == 0 {
                CancelStep::NothingToCancel(job.n_tasks())
            } else {
                CancelStep::AskBackend(ids)
            }
        },
    }
}

/// Applies the backend's answer for the job `job_id`: the tasks it canceled
/// are canceled in the job (those that are not the job's, or have ended
/// meanwhile, are skipped). Returns the outcome and the subscriptions that
/// the end of the job fired.
pub fn apply_cancel_reply(registry: &mut JobRegistry, job_id: JobId, reply: CancelReply) -> (r: (CancelJobResponse, Vec<WaiterToken>))
    requires
        old(registry).wf(),
    ensures
        final(registry).wf(),
        final(registry).ids() == old(registry).ids(),
        reply is Error ==> *final(registry) == *old(registry) && r.1@.len() == 0,
        reply matches CancelReply::Error(msg) ==> r.0 matches CancelJobResponse::Failed(m) && m@
            == msg@,
        reply is Canceled && !old(registry).contains(job_id) ==> final(registry)@
            == old(registry)@ && r.0 is InvalidJob && r.1@.len() == 0,
        reply matches CancelReply::Canceled(task_ids) ==> old(registry).contains(job_id) ==> {
            let before = old(registry).job(job_id);
            let after = final(registry).job(job_id);
            let positions = canceled_positions(before.base(), before.states(), task_ids@);
            &&& final(registry)@ == old(registry)@.update(old(registry).index_of(job_id), after)
            &&& after.base() == before.base()
            &&& after.states() == states_after_cancels(before.base(), before.states(), task_ids@)
            &&& r.0 matches CancelJobResponse::Canceled(ids, already_finished) && ids@ == positions
                && already_finished == before.n() - positions.len()
            &&& fires(before, after, r.1@)
        },
{
    match reply {
        CancelReply::Error(msg) => (CancelJobResponse::Failed(msg), Vec::new()),
        CancelReply::Canceled(task_ids) => {
            let n = match registry.get_job(job_id) {
                Some(job) => job.n_tasks(),
                None => {
                    return (CancelJobResponse::InvalidJob, Vec::new());
                },
            };
            match registry.cancel_tasks(job_id, &task_ids) {
                None => (CancelJobResponse::InvalidJob, Vec::new()),
                Some((positions, fired)) => {
                    let already_finished = n - positions.len() as JobTaskCount;
                    (CancelJobResponse::Canceled(positions, already_finished), fired)
                },
            }
        },
    }
}

} // verus!
