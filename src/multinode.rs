use vstd::prelude::*;

verus! {

/// Identifier of a task, assigned by the scheduler.
pub type TaskId = u64;

/// `(user_priority, scheduler_priority)`; tuples compare lexicographically and
/// the greater tuple is served first.
pub type PriorityTuple = (i32, i32);

#[verifier::external_type_specification]
#[verifier::external_body]
#[verifier::reject_recursive_types(I)]
#[verifier::reject_recursive_types(P)]
#[verifier::reject_recursive_types(H)]
pub struct ExPriorityQueue<I: std::hash::Hash + Eq, P: Ord, H>(
    priority_queue::PriorityQueue<I, P, H>,
);

/// The outside queue with task ids as items.
pub type TaskQueue = priority_queue::PriorityQueue<TaskId, PriorityTuple>;

/// What a queue of tasks holds: each member with its priority.
pub uninterp spec fn queue_entries(q: TaskQueue) -> Map<TaskId, PriorityTuple>;

/// Relies on `PriorityQueue::with_capacity`: the new queue is empty.
#[verifier::external_body]
fn pq_with_capacity(capacity: usize) -> (r: TaskQueue)
    ensures
        queue_entries(r) =~= Map::empty(),
{
    priority_queue::PriorityQueue::with_capacity(capacity)
}


/// Relies on `PriorityQueue::push`: the item is inserted, or its priority
/// replaced when it is already there; the old priority is returned.
#[verifier::external_body]
fn pq_push(q: &mut TaskQueue, item: TaskId, priority: PriorityTuple) -> (r: Option<PriorityTuple>)
    ensures
        queue_entries(*final(q)) == queue_entries(*old(q)).insert(item, priority),
        r == (if queue_entries(*old(q)).contains_key(item) {
            Some(queue_entries(*old(q))[item])
        } else {
            None::<PriorityTuple>
        }),
{
    q.push(item, priority)
}

/// Relies on `PriorityQueue::remove`: the item leaves the queue if it was there,
/// and is returned with its priority.
#[verifier::external_body]
fn pq_remove(q: &mut TaskQueue, item: &TaskId) -> (r: Option<(TaskId, PriorityTuple)>)
    ensures
        queue_entries(*final(q)) == queue_entries(*old(q)).remove(*item),
        r == (if queue_entries(*old(q)).contains_key(*item) {
            Some((*item, queue_entries(*old(q))[*item]))
        } else {
            None::<(TaskId, PriorityTuple)>
        }),
{
    q.remove(item)
}

/// Relies on `PriorityQueue::pop`: it removes and returns an item whose
/// priority is the greatest, or `None` when the queue is empty.
#[verifier::external_body]
fn pq_pop(q: &mut TaskQueue) -> (r: Option<(TaskId, PriorityTuple)>)
    ensures
        r is None <==> queue_entries(*old(q)).dom().is_empty(),
        r matches Some((item, priority)) ==> {
            &&& queue_entries(*old(q)).contains_key(item)
            &&& queue_entries(*old(q))[item] == priority
            &&& forall|k: TaskId| #[trigger] queue_entries(*old(q)).contains_key(k)
                    ==> priority_le(queue_entries(*old(q))[k], priority)
            &&& queue_entries(*final(q)) == queue_entries(*old(q)).remove(item)
        },
        r is None ==> queue_entries(*final(q)) == queue_entries(*old(q)),
{
    q.pop()
}

/// Relies on `PriorityQueue::len`: the number of items in the queue.
#[verifier::external_body]
fn pq_len(q: &TaskQueue) -> (r: usize)
    ensures
        r as nat == queue_entries(*q).len(),
{
    q.len()
}

/// Relies on `PriorityQueue::iter`: it visits every item of the queue once.
#[verifier::external_body]
fn pq_items(q: &TaskQueue) -> (r: Vec<TaskId>)
    ensures
        r@.to_set() == queue_entries(*q).dom(),
        r@.no_duplicates(),
{
    q.iter().map(|entry| *entry.0).collect()
}

/// Lexicographic order of priority tuples, as `Ord` for tuples defines it.
pub open spec fn priority_le(a: PriorityTuple, b: PriorityTuple) -> bool {
    a.0 < b.0 || (a.0 == b.0 && a.1 <= b.1)
}

/// A task as the multi-node queue sees it.
#[derive(Clone, Copy, Debug, PartialEq, Eq)]
pub struct Task {
    pub id: TaskId,
    pub user_priority: i32,
    pub scheduler_priority: i32,
}

pub open spec fn priority_of(task: Task) -> PriorityTuple {
    (task.user_priority, task.scheduler_priority)
}

/// The ordering key of a task.
pub fn task_priority_tuple(task: &Task) -> (r: PriorityTuple)
    ensures
        r == priority_of(*task),
{
    (task.user_priority, task.scheduler_priority)
}

/// All tasks of the server, each id at most once.
pub struct TaskMap {
    tasks: Vec<Task>,
}

impl TaskMap {
    pub closed spec fn view(&self) -> Seq<Task> {
        self.tasks@
    }

    pub open spec fn wf(&self) -> bool {
        forall|i: int, j: int|
            0 <= i < self@.len() && 0 <= j < self@.len() && i != j ==> #[trigger] self@[i].id
                != #[trigger] self@[j].id
    }

    pub open spec fn has(&self, id: TaskId) -> bool {
        exists|i: int| 0 <= i < self@.len() && #[trigger] self@[i].id == id
    }

    /// The task stored under `id` (meaningful when `has(id)`).
    pub open spec fn lookup(&self, id: TaskId) -> Task {
        self@[choose|i: int| 0 <= i < self@.len() && #[trigger] self@[i].id == id]
    }

    pub fn new() -> (r: TaskMap)
        ensures
            r.wf(),
            r@ == Seq::<Task>::empty(),
    {
        TaskMap { tasks: Vec::new() }
    }

    proof fn lemma_lookup_at(&self, i: int)
        requires
            self.wf(),
            0 <= i < self@.len(),
        ensures
            self.has(self@[i].id),
            self.lookup(self@[i].id) == self@[i],
    {
        let id = self@[i].id;
        assert(self@[i].id == id);
        let c = choose|k: int| 0 <= k < self@.len() && #[trigger] self@[k].id == id;
        assert(c == i);
    }

    /// Stores `task`, replacing the task that had its id.
    pub fn insert(&mut self, task: Task)
        requires
            old(self).wf(),
        ensures
            final(self).wf(),
            final(self).has(task.id),
            final(self).lookup(task.id) == task,
            forall|id: TaskId| id != task.id ==> (final(self).has(id) <==> old(self).has(id)),
            forall|id: TaskId| id != task.id && old(self).has(id) ==> final(self).lookup(id)
                == old(self).lookup(id),
    {
        let ghost before = *self;
        let mut i: usize = 0;
        while i < self.tasks.len() && self.tasks[i].id != task.id
            invariant
                0 <= i <= self.tasks@.len(),
                *self == before,
                before.wf(),
                forall|k: int| 0 <= k < i ==> self.tasks@[k].id != task.id,
            decreases self.tasks@.len() - i,
        {
            i += 1;
        }
        if i < self.tasks.len() {
            self.tasks.set(i, task);
            proof {
                assert forall|a: int| 0 <= a < self@.len() implies #[trigger] self@[a].id
                    == before@[a].id by {
                    if a == i as int {
                        assert(before@[a].id == task.id);
                    }
                };
                assert(self.wf());
                self.lemma_lookup_at(i as int);
            }
        } else {
            self.tasks.push(task);
            proof {
                assert(self@ == before@.push(task));
                assert(self.wf());
                self.lemma_lookup_at(i as int);
            }
        }
        proof {
            assert forall|id: TaskId| id != task.id implies (self.has(id) <==> before.has(id))
                && (before.has(id) ==> self.lookup(id) == before.lookup(id)) by {
                if before.has(id) {
                    let k = choose|k: int| 0 <= k < before@.len() && #[trigger] before@[k].id == id;
                    before.lemma_lookup_at(k);
                    assert(self@[k] == before@[k]);
                    self.lemma_lookup_at(k);
                }
                if self.has(id) {
                    let k = choose|k: int| 0 <= k < self@.len() && #[trigger] self@[k].id == id;
                    assert(k != i);
                    assert(before@[k].id == id);
                }
            };
        }
    }

    /// The task with the given id.
    pub fn get_task(&self, id: TaskId) -> (r: &Task)
        requires
            self.wf(),
            self.has(id),
        ensures
            *r == self.lookup(id),
    {
        let mut i: usize = 0;
        while i < self.tasks.len()
            invariant
                0 <= i <= self.tasks@.len(),
                self.wf(),
                self.has(id),
                forall|k: int| 0 <= k < i ==> self.tasks@[k].id != id,
            decreases self.tasks@.len() - i,
        {
            if self.tasks[i].id == id {
                proof {
                    self.lemma_lookup_at(i as int);
                }
                return &self.tasks[i];
            }
            i += 1;
        }
        proof {
            let k = choose|k: int| 0 <= k < self@.len() && #[trigger] self@[k].id == id;
            assert(self.tasks@[k].id == id);
        }
        &self.tasks[0]
    }
}

/// The queue of `entries` after `add_task(task)`.
pub open spec fn added(entries: Map<TaskId, PriorityTuple>, task: Task) -> Map<TaskId, PriorityTuple> {
    entries.insert(task.id, priority_of(task))
}

/// The queue of `entries` after `remove_task(id)`.
pub open spec fn removed(entries: Map<TaskId, PriorityTuple>, id: TaskId) -> Map<TaskId, PriorityTuple> {
    entries.remove(id)
}

/// The queue of `entries` after each member is given the current priority of
/// its task in `task_map`.
pub open spec fn rebuilt(entries: Map<TaskId, PriorityTuple>, task_map: TaskMap) -> Map<
    TaskId,
    PriorityTuple,
> {
    Map::new(|id: TaskId| entries.contains_key(id), |id: TaskId| priority_of(task_map.lookup(id)))
}

/// Adding a task twice leaves a single entry for its id, which holds the
/// priority tuple of the second call.
pub proof fn lemma_add_task_twice(entries: Map<TaskId, PriorityTuple>, first: Task, second: Task)
    requires
        first.id == second.id,
    ensures
        added(added(entries, first), second) == added(entries, second),
        added(added(entries, first), second)[second.id] == priority_of(second),
        added(added(entries, first), second).dom() == entries.dom().insert(second.id),
{
    assert(added(added(entries, first), second) =~= added(entries, second));
}

/// Removing a task a second time changes nothing.
pub proof fn lemma_remove_task_twice(entries: Map<TaskId, PriorityTuple>, id: TaskId)
    ensures
        removed(removed(entries, id), id) == removed(entries, id),
{
    assert(removed(removed(entries, id), id) =~= removed(entries, id));
}

/// Tasks that wait for a placement on several nodes, ordered by priority.
pub struct MultiNodeQueue {
    queue: TaskQueue,
}

impl MultiNodeQueue {
    /// Each enqueued task with its priority tuple.
    pub closed spec fn view(&self) -> Map<TaskId, PriorityTuple> {
        queue_entries(self.queue)
    }

    pub closed spec fn wf(&self) -> bool {
        self@.dom().finite()
    }

    pub fn new() -> (r: MultiNodeQueue)
        ensures
            r.wf(),
            r@ == Map::<TaskId, PriorityTuple>::empty(),
    {
        MultiNodeQueue { queue: pq_with_capacity(0) }
    }

    /// Gives every member the current priority of its task in `task_map`; the
    /// members stay the same. Every member must be a task of `task_map`.
    pub fn recompute_priorities(&mut self, task_map: &TaskMap)
        requires
            old(self).wf(),
            task_map.wf(),
            forall|id: TaskId| old(self)@.contains_key(id) ==> task_map.has(id),
        ensures
            final(self).wf(),
            final(self)@ == rebuilt(old(self)@, *task_map),
            final(self)@.dom() == old(self)@.dom(),
    {
        let len = pq_len(&self.queue);
        if len == 0 {
            proof {
                assert(self@.dom() =~= Set::<TaskId>::empty());
                assert(self@ =~= rebuilt(self@, *task_map));
            }
            return;
        }
        let ids = pq_items(&self.queue);
        let mut fresh = pq_with_capacity(len);
        let mut k: usize = 0;
        while k < ids.len()
            invariant
                0 <= k <= ids@.len(),
                ids@.to_set() == self@.dom(),
                task_map.wf(),
                forall|id: TaskId| self@.contains_key(id) ==> task_map.has(id),
                queue_entries(fresh).dom().finite(),
                queue_entries(fresh) =~= Map::new(
                    |id: TaskId| ids@.take(k as int).contains(id),
                    |id: TaskId| priority_of(task_map.lookup(id)),
                ),
            decreases ids@.len() - k,
        {
            let id = ids[k];
            proof {
                assert(ids@.to_set().contains(id));
            }
            let task = task_map.get_task(id);
            pq_push(&mut fresh, id, task_priority_tuple(task));
            k += 1;
            proof {
                let prev = ids@.take(k - 1);
                assert(ids@.take(k as int) == prev.push(id));
                assert forall|x: TaskId| prev.push(id).contains(x) <==> (prev.contains(x) || x == id) by {
                    if prev.push(id).contains(x) && x != id {
                        let j = choose|j: int| 0 <= j < prev.push(id).len() && prev.push(id)[j] == x;
                        assert(prev[j] == x);
                    }
                    if x == id {
                        assert(prev.push(id)[prev.len() as int] == id);
                    }
                    if prev.contains(x) {
                        let j = choose|j: int| 0 <= j < prev.len() && prev[j] == x;
                        assert(prev.push(id)[j] == x);
                    }
                };
            }
        }
        proof {
            assert(ids@.take(k as int) == ids@);
            assert forall|id: TaskId| ids@.contains(id) <==> self@.contains_key(id) by {
                if ids@.contains(id) {
                    assert(ids@.to_set().contains(id));
                }
            };
        }
        self.queue = fresh;
        proof {
            assert(self@ =~= rebuilt(old(self)@, *task_map));
        }
    }

    /// Enqueues `task` with its current priority tuple, replacing the tuple it
    /// had if it was already a member.
    pub fn add_task(&mut self, task: &Task)
        requires
            old(self).wf(),
        ensures
            final(self).wf(),
            final(self)@ == added(old(self)@, *task),
    {
        pq_push(&mut self.queue, task.id, task_priority_tuple(task));
    }

    /// Takes `task_id` out of the queue; nothing happens when it is no member.
    pub fn remove_task(&mut self, task_id: TaskId)
        requires
            old(self).wf(),
        ensures
            final(self).wf(),
            final(self)@ == removed(old(self)@, task_id),
    {
        pq_remove(&mut self.queue, &task_id);
    }

    /// Every member once, in no particular order.
    pub fn all_tasks(&self) -> (r: Vec<TaskId>)
        ensures
            r@.to_set() == self@.dom(),
            r@.no_duplicates(),
    {
        pq_items(&self.queue)
    }

    /// Takes out a member whose priority tuple is the greatest.
    pub fn pop_task(&mut self) -> (r: Option<TaskId>)
        requires
            old(self).wf(),
        ensures
            final(self).wf(),
            r is None <==> old(self)@.dom().is_empty(),
            r is None ==> final(self)@ == old(self)@,
            r matches Some(id) ==> {
                &&& old(self)@.contains_key(id)
                &&& forall|k: TaskId| #[trigger] old(self)@.contains_key(k) ==> priority_le(
                    old(self)@[k],
                    old(self)@[id],
                )
                &&& final(self)@ == old(self)@.remove(id)
            },
    {
        match pq_pop(&mut self.queue) {
            Some((id, _)) => Some(id),
            None => None,
        }
    }

    /// The number of members.
    pub fn len(&self) -> (r: usize)
        ensures
            r as nat == self@.len(),
    {
        pq_len(&self.queue)
    }
}

} // verus!
