use vstd::prelude::*;
use crate::job::{
    detail_tasks, filter_of, fires, states_after_cancels, states_after_set, canceled_positions,
    count_terminal, Job, JobDetail, JobId, JobInfo, JobTaskId, TaskSelector, TaskState,
    WaiterToken,
};
use crate::multinode::TaskId;
use crate::selector::{last_n, resolved, IdSelector};

verus! {

/// The summaries of those of `ids` that are jobs of `registry`, in order.
pub open spec fn infos_of(registry: JobRegistry, ids: Seq<JobId>) -> Seq<JobInfo>
    decreases ids.len(),
{
    if ids.len() == 0 {
        Seq::empty()
    } else {
        let init = infos_of(registry, ids.drop_last());
        if registry.contains(ids.last()) {
            init.push(registry.job(ids.last()).info())
        } else {
            init
        }
    }
}

/// Owns every job of the server, in ascending order of id.
pub struct JobRegistry {
    jobs: Vec<Job>,
}

impl JobRegistry {
    /// The jobs, in ascending order of id.
    pub closed spec fn view(&self) -> Seq<Job> {
        self.jobs@
    }

    /// The ids of the jobs, ascending.
    pub open spec fn ids(&self) -> Seq<JobId> {
        self@.map_values(|j: Job| j.id())
    }

    pub open spec fn wf(&self) -> bool {
        &&& forall|i: int, j: int| 0 <= i < j < self@.len() ==> self@[i].id() < self@[j].id()
        &&& forall|i: int| 0 <= i < self@.len() ==> (#[trigger] self@[i]).wf()
    }

    pub open spec fn contains(&self, id: JobId) -> bool {
        self.ids().contains(id)
    }

    /// Where the job `id` stands (meaningful when `contains(id)`).
    pub open spec fn index_of(&self, id: JobId) -> int {
        choose|i: int| 0 <= i < self@.len() && #[trigger] self@[i].id() == id
    }

    /// The job with the id `id` (meaningful when `contains(id)`).
    pub open spec fn job(&self, id: JobId) -> Job {
        self@[self.index_of(id)]
    }

    pub proof fn lemma_job_at(&self, i: int)
        requires
            self.wf(),
            0 <= i < self@.len(),
        ensures
            self.contains(self@[i].id()),
            self.job(self@[i].id()) == self@[i],
            self@[i].wf(),
    {
        let id = self@[i].id();
        assert(self.ids()[i] == id);
        let c = choose|k: int| 0 <= k < self@.len() && #[trigger] self@[k].id() == id;
        assert(c == i);
    }

    pub fn new() -> (r: JobRegistry)
        ensures
            r.wf(),
            r@.len() == 0,
    {
        JobRegistry { jobs: Vec::new() }
    }

    /// Where the job `id` stands, if it is there.
    fn find(&self, id: JobId) -> (r: Option<usize>)
        requires
            self.wf(),
        ensures
            r is None <==> !self.contains(id),
            r matches Some(i) ==> i < self@.len() && self@[i as int].id() == id,
    {
        let mut i: usize = 0;
        while i < self.jobs.len()
            invariant
                0 <= i <= self@.len(),
                forall|k: int| 0 <= k < i ==> self@[k].id() != id,
            decreases self@.len() - i,
        {
            if self.jobs[i].job_id() == id {
                proof {
                    assert(self.ids()[i as int] == id);
                }
                return Some(i);
            }
            i += 1;
        }
        proof {
            if self.contains(id) {
                let k = choose|k: int| 0 <= k < self.ids().len() && self.ids()[k] == id;
                assert(self@[k].id() == id);
            }
        }
        None
    }

    /// Adds `job` when its id is greater than every id present, and says
    /// whether it did.
    pub fn add_job(&mut self, job: Job) -> (r: bool)
        requires
            old(self).wf(),
            job.wf(),
        ensures
            final(self).wf(),
            r == forall|i: int| 0 <= i < old(self)@.len() ==> old(self)@[i].id() < job.id(),
            final(self)@ == (if r {
                old(self)@.push(job)
            } else {
                old(self)@
            }),
    {
        let n = self.jobs.len();
        if n > 0 && self.jobs[n - 1].job_id() >= job.job_id() {
            return false;
        }
        proof {
            assert forall|i: int| 0 <= i < n implies self@[i].id() < job.id() by {
                if i < n - 1 {
                    assert(self@[i].id() < self@[n - 1].id());
                }
            };
        }
        self.jobs.push(job);
        true
    }

    /// The ids of all jobs, ascending.
    pub fn job_ids(&self) -> (r: Vec<JobId>)
        ensures
            r@ == self.ids(),
    {
        let mut r: Vec<JobId> = Vec::new();
        let mut i: usize = 0;
        while i < self.jobs.len()
            invariant
                0 <= i <= self@.len(),
                r@ == self.ids().take(i as int),
            decreases self@.len() - i,
        {
            r.push(self.jobs[i].job_id());
            i += 1;
            proof {
                assert(self.ids().take(i as int) == self.ids().take(i - 1).push(self@[i - 1].id()));
            }
        }
        proof {
            assert(self.ids().take(i as int) == self.ids());
        }
        r
    }

    /// The `n` greatest ids, greatest first.
    pub fn last_n_ids(&self, n: u32) -> (r: Vec<JobId>)
        ensures
            r@ == last_n(self.ids(), n as nat),
    {
        let len = self.jobs.len();
        let mut r: Vec<JobId> = Vec::new();
        let mut i: usize = 0;
        while i < len && (i as u64) < (n as u64)
            invariant
                len == self@.len(),
                0 <= i <= len,
                i <= n,
                r@ == Seq::new(i as nat, |k: int| self.ids()[len - 1 - k]),
            decreases len - i,
        {
            r.push(self.jobs[len - 1 - i].job_id());
            i += 1;
            proof {
                assert(r@ =~= Seq::new(i as nat, |k: int| self.ids()[len - 1 - k]));
            }
        }
        proof {
            assert(r@ =~= last_n(self.ids(), n as nat));
        }
        r
    }

    /// The job with id `id`.
    pub fn get_job(&self, id: JobId) -> (r: Option<&Job>)
        requires
            self.wf(),
        ensures
            r is None <==> !self.contains(id),
            r matches Some(j) ==> *j == self.job(id) && j.wf() && j.id() == id,
    {
        match self.find(id) {
            Some(i) => {
                proof {
                    self.lemma_job_at(i as int);
                }
                Some(&self.jobs[i])
            },
            None => None,
        }
    }

    /// The ids that `selector` names: every id ascending, the `n` greatest
    /// descending, or the ids of the array whether present or not.
    pub fn get_job_ids(&self, selector: &IdSelector) -> (r: Vec<JobId>)
        requires
            selector.wf(),
        ensures
            r@ == resolved(*selector, self.ids()),
    {
        match selector {
            IdSelector::All => self.job_ids(),
            IdSelector::LastN(n) => self.last_n_ids(*n),
            IdSelector::Specific(array) => array.iter(),
        }
    }

    proof fn lemma_index(&self, i: int)
        requires
            self.wf(),
            0 <= i < self@.len(),
        ensures
            self.index_of(self@[i].id()) == i,
    {
        self.lemma_job_at(i);
        let id = self@[i].id();
        assert(self.ids()[i] == id);
        let c = self.index_of(id);
        assert(0 <= c < self@.len() && self@[c].id() == id);
        if c != i {
            if c < i {
                assert(self@[c].id() < self@[i].id());
            } else {
                assert(self@[i].id() < self@[c].id());
            }
        }
    }

    /// The summaries of the jobs that `selector` names, in its order; ids that
    /// are no job are left out.
    pub fn compute_job_info(&self, selector: &IdSelector) -> (r: Vec<JobInfo>)
        requires
            self.wf(),
            selector.wf(),
        ensures
            r@ == infos_of(*self, resolved(*selector, self.ids())),
    {
        let ids = self.get_job_ids(selector);
        let mut r: Vec<JobInfo> = Vec::new();
        let mut k: usize = 0;
        while k < ids.len()
            invariant
                self.wf(),
                0 <= k <= ids@.len(),
                r@ == infos_of(*self, ids@.take(k as int)),
            decreases ids@.len() - k,
        {
            proof {
                assert(ids@.take(k + 1).drop_last() == ids@.take(k as int));
            }
            match self.get_job(ids[k]) {
                Some(job) => r.push(job.make_job_info()),
                None => {},
            }
            k += 1;
        }
        proof {
            assert(ids@.take(k as int) == ids@);
        }
        r
    }

    /// For each id that `selector` names, in its order, the id with the
    /// detail of its job, or `None` where it is no job.
    pub fn compute_job_detail(&self, selector: &IdSelector, task_selector: Option<&TaskSelector>) -> (r: Vec<(JobId, Option<JobDetail>)>)
        requires
            self.wf(),
            selector.wf(),
        ensures
            r@.len() == resolved(*selector, self.ids()).len(),
            forall|i: int| 0 <= i < r@.len() ==> {
                let id = resolved(*selector, self.ids())[i];
                &&& (#[trigger] r@[i]).0 == id
                &&& r@[i].1 is None <==> !self.contains(id)
                &&& r@[i].1 matches Some(d) ==> d.info == self.job(id).info() && d.tasks@
                    == detail_tasks(self.job(id).base(), self.job(id).states(), filter_of(task_selector))
            },
    {
        let ids = self.get_job_ids(selector);
        let mut r: Vec<(JobId, Option<JobDetail>)> = Vec::new();
        let mut k: usize = 0;
        while k < ids.len()
            invariant
                self.wf(),
                0 <= k <= ids@.len(),
                ids@ == resolved(*selector, self.ids()),
                r@.len() == k,
                forall|i: int| 0 <= i < k ==> {
                    let id = ids@[i];
                    &&& (#[trigger] r@[i]).0 == id
                    &&& r@[i].1 is None <==> !self.contains(id)
                    &&& r@[i].1 matches Some(d) ==> d.info == self.job(id).info() && d.tasks@
                        == detail_tasks(self.job(id).base(), self.job(id).states(), filter_of(task_selector))
                },
            decreases ids@.len() - k,
        {
            let id = ids[k];
            let detail = match self.get_job(id) {
                Some(job) => Some(job.make_job_detail(task_selector)),
                None => None,
            };
            r.push((id, detail));
            k += 1;
        }
        r
    }

    /// Moves a task of the job `job_id` as `Job::set_task_state` does, and
    /// returns the subscriptions that fired; nothing changes when there is no
    /// such job.
    pub fn set_task_state(&mut self, job_id: JobId, task_id: TaskId, state: TaskState) -> (r: Vec<WaiterToken>)
        requires
            old(self).wf(),
        ensures
            final(self).wf(),
            final(self).ids() == old(self).ids(),
            !old(self).contains(job_id) ==> final(self)@ == old(self)@ && r@.len() == 0,
            old(self).contains(job_id) ==> {
                let before = old(self).job(job_id);
                let after = final(self).job(job_id);
                &&& final(self)@ == old(self)@.update(old(self).index_of(job_id), after)
                &&& after.base() == before.base()
                &&& after.states() == states_after_set(before.base(), before.states(), task_id, state)
                &&& fires(before, after, r@)
            },
    {
        match self.find(job_id) {
            None => Vec::new(),
            Some(i) => {
                proof {
                    self.lemma_index(i as int);
                }
                let ghost before = self@;
                let job = &mut self.jobs[i];
                let fired = job.set_task_state(task_id, state);
                proof {
                    self.lemma_keep(before, i as int);
                }
                fired
            },
        }
    }

    /// After one job was replaced by one with the same id and a valid state,
    /// the registry is valid and keeps its ids.
    proof fn lemma_keep(&self, before: Seq<Job>, i: int)
        requires
            0 <= i < before.len(),
            self@ == before.update(i, self@[i]),
            self@[i].id() == before[i].id(),
            self@[i].wf(),
            forall|a: int, b: int| 0 <= a < b < before.len() ==> before[a].id() < before[b].id(),
            forall|a: int| 0 <= a < before.len() ==> (#[trigger] before[a]).wf(),
        ensures
            self.wf(),
            self.ids() == before.map_values(|j: Job| j.id()),
            self.index_of(self@[i].id()) == i,
    {
        assert(self.ids() =~= before.map_values(|j: Job| j.id()));
        assert forall|a: int| 0 <= a < self@.len() implies (#[trigger] self@[a]).wf() by {
            if a != i {
                assert(self@[a] == before[a]);
            }
        };
        self.lemma_index(i);
    }

    /// Subscribes `token` to the end of the job `job_id`. Refused, with
    /// nothing changed, when there is no such job or it has already ended.
    pub fn subscribe_to_completion(&mut self, job_id: JobId, token: WaiterToken) -> (r: bool)
        requires
            old(self).wf(),
        ensures
            final(self).wf(),
            final(self).ids() == old(self).ids(),
            r == (old(self).contains(job_id) && !old(self).job(job_id).terminated()),
            !r ==> final(self)@ == old(self)@,
            r ==> {
                let before = old(self).job(job_id);
                let after = final(self).job(job_id);
                &&& final(self)@ == old(self)@.update(old(self).index_of(job_id), after)
                &&& after.base() == before.base()
                &&& after.states() == before.states()
                &&& after.spec_counters() == before.spec_counters()
                &&& after.waiters() == before.waiters().push(token)
            },
    {
        match self.find(job_id) {
            None => false,
            Some(i) => {
                proof {
                    self.lemma_index(i as int);
                }
                if self.jobs[i].is_terminated() {
                    return false;
                }
                let ghost before = self@;
                let job = &mut self.jobs[i];
                job.subscribe_to_completion(token);
                proof {
                    self.lemma_keep(before, i as int);
                }
                true
            },
        }
    }

    /// Cancels tasks of the job `job_id` as `Job::cancel_tasks` does; `None`,
    /// with nothing changed, when there is no such job.
    pub fn cancel_tasks(&mut self, job_id: JobId, task_ids: &Vec<TaskId>) -> (r: Option<(Vec<JobTaskId>, Vec<WaiterToken>)>)
        requires
            old(self).wf(),
        ensures
            final(self).wf(),
            final(self).ids() == old(self).ids(),
            r is None <==> !old(self).contains(job_id),
            r is None ==> final(self)@ == old(self)@,
            r matches Some(out) ==> {
                let before = old(self).job(job_id);
                let after = final(self).job(job_id);
                &&& final(self)@ == old(self)@.update(old(self).index_of(job_id), after)
                &&& after.base() == before.base()
                &&& after.states() == states_after_cancels(before.base(), before.states(), task_ids@)
                &&& out.0@ == canceled_positions(before.base(), before.states(), task_ids@)
                &&& out.0@.len() + count_terminal(before.states()) == count_terminal(after.states())
                &&& out.0@.len() <= before.n()
                &&& fires(before, after, out.1@)
            },
    {
        match self.find(job_id) {
            None => None,
            Some(i) => {
                proof {
                    self.lemma_index(i as int);
                }
                let ghost before = self@;
                let job = &mut self.jobs[i];
                let out = job.cancel_tasks(task_ids);
                proof {
                    self.lemma_keep(before, i as int);
                }
                Some(out)
            },
        }
    }

    /// Two valid registries with the same ids keep each job at the same place.
    pub proof fn lemma_same_ids(&self, other: &JobRegistry, id: JobId)
        requires
            self.wf(),
            other.wf(),
            self.ids() == other.ids(),
            self.contains(id),
        ensures
            other.contains(id),
            self.index_of(id) == other.index_of(id),
            0 <= self.index_of(id) < self@.len(),
            self.job(id).id() == id,
    {
        let i = choose|i: int| 0 <= i < self.ids().len() && self.ids()[i] == id;
        assert(self@[i].id() == id);
        self.lemma_index(i);
        assert(other.ids()[i] == id);
        assert(other@[i].id() == id);
        other.lemma_index(i);
    }

    /// The ids of a valid registry ascend strictly.
    pub proof fn lemma_ids_ascending(&self)
        requires
            self.wf(),
        ensures
            forall|i: int, j: int| 0 <= i < j < self.ids().len() ==> self.ids()[i] < self.ids()[j],
    {
        assert forall|i: int, j: int| 0 <= i < j < self.ids().len() implies self.ids()[i] < self.ids()[j] by {
            assert(self@[i].id() < self@[j].id());
        };
    }
}

} // verus!
