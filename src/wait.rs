use vstd::prelude::*;
use crate::job::{JobId, JobTaskCounters, WaiterToken};
use crate::registry::JobRegistry;
use crate::selector::{resolved, IdSelector};

verus! {

/// How the jobs that a wait covered ended, and how many ids named no job.
#[derive(Clone, Copy, Debug, PartialEq, Eq, Structural)]
pub struct WaitForJobsResponse {
    pub finished: u32,
    pub failed: u32,
    pub canceled: u32,
    pub invalid: u32,
}

impl WaitForJobsResponse {
    pub fn new() -> (r: WaitForJobsResponse)
        ensures
            r == (WaitForJobsResponse { finished: 0, failed: 0, canceled: 0, invalid: 0 }),
    {
        WaitForJobsResponse { finished: 0, failed: 0, canceled: 0, invalid: 0 }
    }

    pub open spec fn total(self) -> int {
        self.finished + self.failed + self.canceled + self.invalid
    }
}

/// `response` with one more job counted by its final counters: a job with a
/// canceled task counts as canceled, else one with a failed task as failed,
/// else as finished.
pub open spec fn classified(response: WaitForJobsResponse, counters: JobTaskCounters) -> WaitForJobsResponse {
    if counters.n_canceled_tasks > 0 {
        WaitForJobsResponse { canceled: (response.canceled + 1) as u32, ..response }
    } else if counters.n_failed_tasks > 0 {
        WaitForJobsResponse { failed: (response.failed + 1) as u32, ..response }
    } else {
        WaitForJobsResponse { finished: (response.finished + 1) as u32, ..response }
    }
}

/// `response` with one more id that named no job.
pub open spec fn with_invalid(response: WaitForJobsResponse) -> WaitForJobsResponse {
    WaitForJobsResponse { invalid: (response.invalid + 1) as u32, ..response }
}

/// Counts one ended job in `response`, by its final counters.
pub fn update_counters(response: &mut WaitForJobsResponse, counters: &JobTaskCounters)
    requires
        old(response).total() < u32::MAX,
    ensures
        *final(response) == classified(*old(response), *counters),
        final(response).total() == old(response).total() + 1,
{
    if counters.n_canceled_tasks > 0 {
        response.canceled = response.canceled + 1;
    } else if counters.n_failed_tasks > 0 {
        response.failed = response.failed + 1;
    } else {
        response.finished = response.finished + 1;
    }
}

/// Each counted job raises exactly one of finished, failed and canceled by
/// one; cancellation goes before failure, failure before success.
pub proof fn lemma_classification(response: WaitForJobsResponse, counters: JobTaskCounters)
    requires
        response.total() < u32::MAX,
    ensures
        ({
            let r = classified(response, counters);
            &&& r.invalid == response.invalid
            &&& r.total() == response.total() + 1
            &&& counters.n_canceled_tasks > 0 ==> r.canceled == response.canceled + 1
            &&& counters.n_canceled_tasks == 0 && counters.n_failed_tasks > 0 ==> r.failed
                == response.failed + 1
            &&& counters.n_canceled_tasks == 0 && counters.n_failed_tasks == 0 ==> r.finished
                == response.finished + 1
        }),
{
}

/// The response so far after the first pass over `ids`: unknown ids are
/// invalid, ended jobs are counted, the others wait.
pub open spec fn wait_started(registry: JobRegistry, ids: Seq<JobId>) -> WaitForJobsResponse
    decreases ids.len(),
{
    if ids.len() == 0 {
        WaitForJobsResponse { finished: 0, failed: 0, canceled: 0, invalid: 0 }
    } else {
        let r = wait_started(registry, ids.drop_last());
        let id = ids.last();
        if !registry.contains(id) {
            with_invalid(r)
        } else if registry.job(id).terminated() {
            classified(r, registry.job(id).spec_counters())
        } else {
            r
        }
    }
}

/// Those of `ids` whose job has not ended, in order.
pub open spec fn live_ids(registry: JobRegistry, ids: Seq<JobId>) -> Seq<JobId>
    decreases ids.len(),
{
    if ids.len() == 0 {
        Seq::empty()
    } else {
        let init = live_ids(registry, ids.drop_last());
        let id = ids.last();
        if registry.contains(id) && !registry.job(id).terminated() {
            init.push(id)
        } else {
            init
        }
    }
}

pub proof fn lemma_wait_started_total(registry: JobRegistry, ids: Seq<JobId>)
    requires
        ids.len() <= u32::MAX,
    ensures
        wait_started(registry, ids).total() + live_ids(registry, ids).len() == ids.len(),
    decreases ids.len(),
{
    if ids.len() > 0 {
        lemma_wait_started_total(registry, ids.drop_last());
    }
}

/// The tokens of the subscriptions in `subs` that are on the job `id`, in
/// order.
pub open spec fn tokens_for(subs: Seq<(JobId, WaiterToken)>, id: JobId) -> Seq<WaiterToken>
    decreases subs.len(),
{
    if subs.len() == 0 {
        Seq::empty()
    } else if subs.last().0 == id {
        tokens_for(subs.drop_last(), id).push(subs.last().1)
    } else {
        tokens_for(subs.drop_last(), id)
    }
}

/// First half of a wait on the jobs that `selector` names. Unknown ids are
/// counted invalid and ended jobs by their counters; each other job is
/// subscribed to, with the tokens `first_token`, `first_token + 1`, ... in
/// order. Returns the response so far and each subscription with its job.
pub fn begin_wait(registry: &mut JobRegistry, selector: &IdSelector, first_token: WaiterToken) -> (r: (WaitForJobsResponse, Vec<(JobId, WaiterToken)>))
    requires
        old(registry).wf(),
        selector.wf(),
        resolved(*selector, old(registry).ids()).len() <= u32::MAX,
        first_token + resolved(*selector, old(registry).ids()).len() <= u64::MAX,
    ensures
        final(registry).wf(),
        final(registry).ids() == old(registry).ids(),
        r.0 == wait_started(*old(registry), resolved(*selector, old(registry).ids())),
        r.1@.len() == live_ids(*old(registry), resolved(*selector, old(registry).ids())).len(),
        forall|k: int| 0 <= k < r.1@.len() ==> {
            &&& (#[trigger] r.1@[k]).0 == live_ids(*old(registry), resolved(*selector, old(registry).ids()))[k]
            &&& r.1@[k].1 == first_token + k
        },
        forall|id: JobId| #[trigger] old(registry).contains(id) ==> {
            &&& final(registry).job(id).states() == old(registry).job(id).states()
            &&& final(registry).job(id).spec_counters() == old(registry).job(id).spec_counters()
            &&& final(registry).job(id).base() == old(registry).job(id).base()
            &&& final(registry).job(id).waiters() == old(registry).job(id).waiters() + tokens_for(
                r.1@,
                id,
            )
        },
{
    let ghost start = *registry;
    let ids = registry.get_job_ids(selector);
    proof {
        lemma_wait_started_total(start, ids@);
    }
    let mut response = WaitForJobsResponse::new();
    let mut subs: Vec<(JobId, WaiterToken)> = Vec::new();
    let mut k: usize = 0;
    while k < ids.len()
        invariant
            registry.wf(),
            start.wf(),
            ids@ == resolved(*selector, start.ids()),
            ids@.len() <= u32::MAX,
            first_token + ids@.len() <= u64::MAX,
            0 <= k <= ids@.len(),
            registry.ids() == start.ids(),
            response == wait_started(start, ids@.take(k as int)),
            subs@.len() == live_ids(start, ids@.take(k as int)).len(),
            forall|j: int| 0 <= j < subs@.len() ==> {
                &&& (#[trigger] subs@[j]).0 == live_ids(start, ids@.take(k as int))[j]
                &&& subs@[j].1 == first_token + j
            },
            forall|id: JobId| #[trigger] start.contains(id) ==> {
                &&& registry.job(id).states() == start.job(id).states()
                &&& registry.job(id).spec_counters() == start.job(id).spec_counters()
                &&& registry.job(id).base() == start.job(id).base()
                &&& registry.job(id).waiters() == start.job(id).waiters() + tokens_for(subs@, id)
            },
        decreases ids@.len() - k,
    {
        let id = ids[k];
        proof {
            assert(ids@.take(k + 1).drop_last() == ids@.take(k as int));
            lemma_wait_started_total(start, ids@.take(k as int));
            assert(ids@.take(k as int).len() == k);
        }
        let ghost mid = *registry;
        proof {
            if start.contains(id) {
                start.lemma_same_ids(&mid, id);
            }
            assert(mid.contains(id) == start.contains(id));
        }
        match registry.get_job(id) {
            None => {
                response.invalid = response.invalid + 1;
            },
            Some(job) => {
                if job.is_terminated() {
                    let counters = job.counters();
                    update_counters(&mut response, &counters);
                } else {
                    let token = first_token + subs.len() as u64;
                    let ghost before_subs = subs@;
                    registry.subscribe_to_completion(id, token);
                    subs.push((id, token));
                    proof {
                        assert(subs@.drop_last() == before_subs);
                        mid.lemma_same_ids(registry, id);
                        assert forall|x: JobId| #[trigger] start.contains(x) implies ({
                            &&& registry.job(x).states() == start.job(x).states()
                            &&& registry.job(x).spec_counters() == start.job(x).spec_counters()
                            &&& registry.job(x).base() == start.job(x).base()
                            &&& registry.job(x).waiters() == start.job(x).waiters() + tokens_for(subs@, x)
                        }) by {
                            start.lemma_same_ids(&mid, x);
                            mid.lemma_same_ids(registry, x);
                            if x == id {
                                assert(registry.job(x).waiters() =~= start.job(x).waiters() + tokens_for(subs@, x));
                            } else {
                                assert(registry.job(x) == mid.job(x));
                            }
                        };
                    }
                }
            },
        }
        k += 1;
    }
    proof {
        assert(ids@.take(k as int) == ids@);
    }
    (response, subs)
}

/// `response` after the second pass: each delivered notification, `Some` of
/// a job id, counts that job by its final counters; a failed delivery
/// (`None`) and an id that names no job are skipped.
pub open spec fn wait_finished(registry: JobRegistry, response: WaitForJobsResponse, results: Seq<Option<JobId>>) -> WaitForJobsResponse
    decreases results.len(),
{
    if results.len() == 0 {
        response
    } else {
        let r = wait_finished(registry, response, results.drop_last());
        match results.last() {
            Some(id) => if registry.contains(id) {
                classified(r, registry.job(id).spec_counters())
            } else {
                r
            },
            None => r,
        }
    }
}

pub proof fn lemma_wait_finished_total(registry: JobRegistry, response: WaitForJobsResponse, results: Seq<Option<JobId>>)
    requires
        response.total() + results.len() <= u32::MAX,
    ensures
        wait_finished(registry, response, results).total() <= response.total() + results.len(),
    decreases results.len(),
{
    if results.len() > 0 {
        lemma_wait_finished_total(registry, response, results.drop_last());
    }
}

/// Second half of a wait: folds what each subscription delivered into the
/// response.
pub fn finish_wait(registry: &JobRegistry, response: WaitForJobsResponse, results: &Vec<Option<JobId>>) -> (r: WaitForJobsResponse)
    requires
        registry.wf(),
        response.total() + results@.len() <= u32::MAX,
    ensures
        r == wait_finished(*registry, response, results@),
{
    let mut r = response;
    let mut k: usize = 0;
    while k < results.len()
        invariant
            registry.wf(),
            response.total() + results@.len() <= u32::MAX,
            0 <= k <= results@.len(),
            r == wait_finished(*registry, response, results@.take(k as int)),
        decreases results@.len() - k,
    {
        proof {
            assert(results@.take(k + 1).drop_last() == results@.take(k as int));
            lemma_wait_finished_total(*registry, response, results@.take(k as int));
        }
        match results[k] {
            Some(id) => match registry.get_job(id) {
                Some(job) => {
                    let counters = job.counters();
                    update_counters(&mut r, &counters);
                },
                None => {},
            },
            None => {},
        }
        k += 1;
    }
    proof {
        assert(results@.take(k as int) == results@);
    }
    r
}

/// How many of `ids` name a job of `registry`.
pub open spec fn count_known(registry: JobRegistry, ids: Seq<JobId>) -> nat
    decreases ids.len(),
{
    if ids.len() == 0 {
        0
    } else {
        count_known(registry, ids.drop_last()) + if registry.contains(ids.last()) {
            1nat
        } else {
            0nat
        }
    }
}

/// Each delivered notification, one per subscription made for `ids`.
pub open spec fn all_delivered(registry: JobRegistry, ids: Seq<JobId>) -> Seq<Option<JobId>> {
    live_ids(registry, ids).map_values(|id: JobId| Some(id))
}

proof fn lemma_started_counts(registry: JobRegistry, ids: Seq<JobId>)
    requires
        ids.len() <= u32::MAX,
    ensures
        wait_started(registry, ids).invalid + count_known(registry, ids) == ids.len(),
        wait_started(registry, ids).finished + wait_started(registry, ids).failed + wait_started(
            registry,
            ids,
        ).canceled + live_ids(registry, ids).len() == count_known(registry, ids),
        forall|k: int|
            0 <= k < live_ids(registry, ids).len() ==> registry.contains(
                #[trigger] live_ids(registry, ids)[k],
            ),
    decreases ids.len(),
{
    if ids.len() > 0 {
        lemma_started_counts(registry, ids.drop_last());
        lemma_wait_started_total(registry, ids.drop_last());
    }
}

proof fn lemma_finished_counts(registry: JobRegistry, response: WaitForJobsResponse, results: Seq<Option<JobId>>)
    requires
        response.total() + results.len() <= u32::MAX,
        forall|k: int| 0 <= k < results.len() ==> (#[trigger] results[k] matches Some(id) && registry.contains(id)),
    ensures
        wait_finished(registry, response, results).invalid == response.invalid,
        wait_finished(registry, response, results).total() == response.total() + results.len(),
    decreases results.len(),
{
    if results.len() > 0 {
        let init = results.drop_last();
        assert forall|k: int| 0 <= k < init.len() implies (#[trigger] init[k] matches Some(id) && registry.contains(id)) by {
            assert(init[k] == results[k]);
        };
        lemma_finished_counts(registry, response, init);
        assert(results[results.len() - 1] == results.last());
    }
}

/// A wait in which every subscription is delivered counts each id that names
/// a job exactly once, as finished, failed or canceled, and every other id as
/// invalid; `after` is the registry when the notifications have come.
pub proof fn lemma_wait_counts_each_id_once(before: JobRegistry, after: JobRegistry, ids: Seq<JobId>)
    requires
        before.wf(),
        after.wf(),
        after.ids() == before.ids(),
        ids.len() <= u32::MAX,
    ensures
        ({
            let r = wait_finished(after, wait_started(before, ids), all_delivered(before, ids));
            &&& r.finished + r.failed + r.canceled == count_known(before, ids)
            &&& r.invalid + count_known(before, ids) == ids.len()
        }),
{
    lemma_started_counts(before, ids);
    lemma_wait_started_total(before, ids);
    let live = live_ids(before, ids);
    let results = all_delivered(before, ids);
    assert forall|k: int| 0 <= k < results.len() implies (#[trigger] results[k] matches Some(id) && after.contains(id)) by {
        assert(before.contains(live[k]));
        assert(after.contains(live[k]));
    };
    lemma_finished_counts(after, wait_started(before, ids), results);
}

} // verus!
