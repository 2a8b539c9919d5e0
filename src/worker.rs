use vstd::prelude::*;
use crate::selector::{IdSelector, last_n};

verus! {

/// Identifier of a worker.
pub type WorkerId = u32;

/// What clients are told of a worker: its id, and when it ended (seconds
/// since the epoch) if it has.
#[derive(Clone, Copy, Debug, PartialEq, Eq, Structural)]
pub struct WorkerInfo {
    pub id: WorkerId,
    pub ended: Option<u64>,
}

/// The outcome of stopping one worker.
#[derive(Clone, Debug)]
pub enum StopWorkerResponse {
    Stopped,
    AlreadyStopped,
    InvalidWorker,
    Failed(String),
}

/// What the backend answered to a request to stop a worker.
#[derive(Clone, Debug)]
pub enum StopReply {
    WorkerStopped,
    /// It refused, or could not be reached, with this message.
    Error(String),
}

/// The workers known to the server, in ascending order of id.
pub struct WorkerRegistry {
    workers: Vec<WorkerInfo>,
}

/// The ids of `workers` that have not ended, in order.
pub open spec fn running_ids(workers: Seq<WorkerInfo>) -> Seq<WorkerId>
    decreases workers.len(),
{
    if workers.len() == 0 {
        Seq::empty()
    } else {
        let init = running_ids(workers.drop_last());
        if workers.last().ended is None {
            init.push(workers.last().id)
        } else {
            init
        }
    }
}

impl WorkerRegistry {
    pub closed spec fn view(&self) -> Seq<WorkerInfo> {
        self.workers@
    }

    pub open spec fn ids(&self) -> Seq<WorkerId> {
        self@.map_values(|w: WorkerInfo| w.id)
    }

    pub open spec fn wf(&self) -> bool {
        forall|i: int, j: int| 0 <= i < j < self@.len() ==> self@[i].id < self@[j].id
    }

    pub open spec fn contains(&self, id: WorkerId) -> bool {
        self.ids().contains(id)
    }

    /// The worker with the id `id` (meaningful when `contains(id)`).
    pub open spec fn worker(&self, id: WorkerId) -> WorkerInfo {
        self@[choose|i: int| 0 <= i < self@.len() && #[trigger] self@[i].id == id]
    }

    pub fn new() -> (r: WorkerRegistry)
        ensures
            r.wf(),
            r@.len() == 0,
    {
        WorkerRegistry { workers: Vec::new() }
    }

    proof fn lemma_worker_at(&self, i: int)
        requires
            self.wf(),
            0 <= i < self@.len(),
        ensures
            self.contains(self@[i].id),
            self.worker(self@[i].id) == self@[i],
    {
        let id = self@[i].id;
        assert(self.ids()[i] == id);
        let c = choose|k: int| 0 <= k < self@.len() && #[trigger] self@[k].id == id;
        if c != i {
            if c < i {
                assert(self@[c].id < self@[i].id);
            } else {
                assert(self@[i].id < self@[c].id);
            }
        }
    }

    /// Adds `worker` when its id is greater than every id present, and says
    /// whether it did.
    pub fn add_worker(&mut self, worker: WorkerInfo) -> (r: bool)
        requires
            old(self).wf(),
        ensures
            final(self).wf(),
            r == forall|i: int| 0 <= i < old(self)@.len() ==> old(self)@[i].id < worker.id,
            final(self)@ == (if r {
                old(self)@.push(worker)
            } else {
                old(self)@
            }),
    {
        let n = self.workers.len();
        if n > 0 && self.workers[n - 1].id >= worker.id {
            return false;
        }
        proof {
            assert forall|i: int| 0 <= i < n implies self@[i].id < worker.id by {
                if i < n - 1 {
                    assert(self@[i].id < self@[n - 1].id);
                }
            };
        }
        self.workers.push(worker);
        true
    }

    /// Records that the worker `id` ended at `time`, unless it had ended
    /// already; says whether it changed anything.
    pub fn set_ended(&mut self, id: WorkerId, time: u64) -> (r: bool)
        requires
            old(self).wf(),
        ensures
            final(self).wf(),
            final(self).ids() == old(self).ids(),
            r == (old(self).contains(id) && old(self).worker(id).ended is None),
            r ==> final(self).worker(id) == (WorkerInfo { id, ended: Some(time) }),
            forall|x: WorkerId| x != id && #[trigger] old(self).contains(x) ==> final(self).worker(x)
                == old(self).worker(x),
            !r ==> final(self)@ == old(self)@,
    {
        let ghost before = *self;
        let mut i: usize = 0;
        while i < self.workers.len() && self.workers[i].id != id
            invariant
                0 <= i <= self@.len(),
                forall|k: int| 0 <= k < i ==> self@[k].id != id,
            decreases self@.len() - i,
        {
            i += 1;
        }
        if i == self.workers.len() {
            proof {
                if self.contains(id) {
                    let k = choose|k: int| 0 <= k < self.ids().len() && self.ids()[k] == id;
                    assert(self@[k].id == id);
                }
            }
            return false;
        }
        proof {
            self.lemma_worker_at(i as int);
        }
        if self.workers[i].ended.is_some() {
            return false;
        }
        self.workers.set(i, WorkerInfo { id, ended: Some(time) });
        proof {
            assert(self.ids() =~= before.ids());
            assert(self.wf());
            self.lemma_worker_at(i as int);
            assert forall|x: WorkerId| x != id && #[trigger] before.contains(x) implies self.worker(x)
                == before.worker(x) by {
                let k = choose|k: int| 0 <= k < before.ids().len() && before.ids()[k] == x;
                before.lemma_worker_at(k);
                self.lemma_worker_at(k);
            };
        }
        true
    }

    /// The worker `id`.
    pub fn get_worker(&self, id: WorkerId) -> (r: Option<WorkerInfo>)
        requires
            self.wf(),
        ensures
            r is None <==> !self.contains(id),
            r matches Some(w) ==> w == self.worker(id) && w.id == id,
    {
        let mut i: usize = 0;
        while i < self.workers.len()
            invariant
                self.wf(),
                0 <= i <= self@.len(),
                forall|k: int| 0 <= k < i ==> self@[k].id != id,
            decreases self@.len() - i,
        {
            if self.workers[i].id == id {
                proof {
                    self.lemma_worker_at(i as int);
                }
                return Some(self.workers[i]);
            }
            i += 1;
        }
        proof {
            if self.contains(id) {
                let k = choose|k: int| 0 <= k < self.ids().len() && self.ids()[k] == id;
                assert(self@[k].id == id);
            }
        }
        None
    }

    /// Every worker, ascending by id.
    pub fn worker_list(&self) -> (r: Vec<WorkerInfo>)
        ensures
            r@ == self@,
    {
        self.workers.clone()
    }

    /// The ids of every worker, ascending.
    pub fn worker_ids(&self) -> (r: Vec<WorkerId>)
        ensures
            r@ == self.ids(),
    {
        let mut r: Vec<WorkerId> = Vec::new();
        let mut i: usize = 0;
        while i < self.workers.len()
            invariant
                0 <= i <= self@.len(),
                r@ == self.ids().take(i as int),
            decreases self@.len() - i,
        {
            r.push(self.workers[i].id);
            i += 1;
            proof {
                assert(self.ids().take(i as int) == self.ids().take(i - 1).push(self@[i - 1].id));
            }
        }
        proof {
            assert(self.ids().take(i as int) == self.ids());
        }
        r
    }
}

/// The workers that a stop request covers: the ids of the array; for `All`
/// the workers that have not ended, ascending; for `LastN(n)` the `n`
/// greatest ids, ended or not, greatest first.
pub open spec fn stop_targets(workers: WorkerRegistry, selector: IdSelector) -> Seq<WorkerId> {
    match selector {
        IdSelector::Specific(a) => a.spec_ids(),
        IdSelector::All => running_ids(workers@),
        IdSelector::LastN(n) => last_n(workers.ids(), n as nat),
    }
}

/// The ids of the workers that stopping with `selector` goes through, in
/// order.
pub fn stop_worker_ids(workers: &WorkerRegistry, selector: &IdSelector) -> (r: Vec<WorkerId>)
    requires
        workers.wf(),
        selector.wf(),
    ensures
        r@ == stop_targets(*workers, *selector),
{
    match selector {
        IdSelector::Specific(array) => array.iter(),
        IdSelector::All => {
            let all = workers.worker_list();
            let mut r: Vec<WorkerId> = Vec::new();
            let mut k: usize = 0;
            while k < all.len()
                invariant
                    all@ == workers@,
                    0 <= k <= all@.len(),
                    r@ == running_ids(all@.take(k as int)),
                decreases all@.len() - k,
            {
                proof {
                    assert(all@.take(k + 1).drop_last() == all@.take(k as int));
                }
                if all[k].ended.is_none() {
                    r.push(all[k].id);
                }
                k += 1;
            }
            proof {
                assert(all@.take(k as int) == all@);
            }
            r
        },
        IdSelector::LastN(n) => {
            let ids = workers.worker_ids();
            let len = ids.len();
            let mut r: Vec<WorkerId> = Vec::new();
            let mut i: usize = 0;
            while i < len && (i as u64) < (*n as u64)
                invariant
                    len == ids@.len(),
                    0 <= i <= len,
                    i <= *n,
                    r@ == Seq::new(i as nat, |k: int| ids@[len - 1 - k]),
                decreases len - i,
            {
                r.push(ids[len - 1 - i]);
                i += 1;
                proof {
                    assert(r@ =~= Seq::new(i as nat, |k: int| ids@[len - 1 - k]));
                }
            }
            proof {
                assert(r@ =~= last_n(ids@, *n as nat));
            }
            r
        },
    }
}

/// Decides what stopping the worker `id` takes: an answer without the
/// backend when the worker is unknown or has ended, else `None`, and the
/// backend is to be asked.
pub fn stop_worker_step(workers: &WorkerRegistry, id: WorkerId) -> (r: Option<StopWorkerResponse>)
    requires
        workers.wf(),
    ensures
        !workers.contains(id) ==> r matches Some(StopWorkerResponse::InvalidWorker),
        workers.contains(id) && workers.worker(id).ended is Some ==> r matches Some(
            StopWorkerResponse::AlreadyStopped,
        ),
        workers.contains(id) && workers.worker(id).ended is None ==> r is None,
{
    match workers.get_worker(id) {
        None => Some(StopWorkerResponse::InvalidWorker),
        Some(w) => if w.ended.is_some() {
            Some(StopWorkerResponse::AlreadyStopped)
        } else {
            None
        },
    }
}

/// The outcome of a stop that the backend answered.
pub fn stop_worker_outcome(reply: StopReply) -> (r: StopWorkerResponse)
    ensures
        reply is WorkerStopped ==> r is Stopped,
        reply matches StopReply::Error(msg) ==> r matches StopWorkerResponse::Failed(m) && m@
            == msg@,
{
    match reply {
        StopReply::WorkerStopped => StopWorkerResponse::Stopped,
        StopReply::Error(msg) => StopWorkerResponse::Failed(msg),
    }
}

} // verus!
