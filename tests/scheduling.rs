use hyperqueue::multinode::{task_priority_tuple, MultiNodeQueue, Task, TaskMap};
use hyperqueue::worker::{stop_worker_ids, stop_worker_outcome, stop_worker_step, StopReply, StopWorkerResponse, WorkerInfo, WorkerRegistry};
use hyperqueue::selector::{IdSelector, IntArray};

fn task(id: u64, user_priority: i32, scheduler_priority: i32) -> Task {
    Task { id, user_priority, scheduler_priority }
}

fn sorted(mut v: Vec<u64>) -> Vec<u64> {
    v.sort();
    v
}

#[test]
fn queue_rebuild_keeps_members() {
    let a = task(1, 1, 10);
    let b = task(2, 2, 5);
    let mut map = TaskMap::new();
    map.insert(a);
    map.insert(b);
    let mut queue = MultiNodeQueue::new();
    queue.add_task(&a);
    queue.add_task(&b);
    map.insert(task(1, 0, 10));
    queue.recompute_priorities(&map);
    assert_eq!(sorted(queue.all_tasks()), vec![1, 2]);
    assert_eq!(queue.pop_task(), Some(2));
    assert_eq!(queue.pop_task(), Some(1));
    assert_eq!(queue.pop_task(), None);
}

#[test]
fn queue_rebuild_changes_order() {
    let mut map = TaskMap::new();
    map.insert(task(1, 5, 0));
    map.insert(task(2, 3, 0));
    let mut queue = MultiNodeQueue::new();
    queue.add_task(map.get_task(1));
    queue.add_task(map.get_task(2));
    map.insert(task(1, 1, 0));
    queue.recompute_priorities(&map);
    assert_eq!(queue.len(), 2);
    assert_eq!(queue.pop_task(), Some(2));
    assert_eq!(queue.pop_task(), Some(1));
}

#[test]
fn queue_rebuild_of_empty_queue() {
    let map = TaskMap::new();
    let mut queue = MultiNodeQueue::new();
    queue.recompute_priorities(&map);
    assert_eq!(queue.len(), 0);
    assert!(queue.all_tasks().is_empty());
}

#[test]
fn queue_add_twice_keeps_second_priority() {
    let mut queue = MultiNodeQueue::new();
    queue.add_task(&task(1, 9, 9));
    queue.add_task(&task(2, 5, 0));
    queue.add_task(&task(1, 0, 0));
    assert_eq!(queue.len(), 2);
    assert_eq!(queue.pop_task(), Some(2));
    assert_eq!(queue.pop_task(), Some(1));
}

#[test]
fn queue_remove_twice() {
    let mut queue = MultiNodeQueue::new();
    queue.add_task(&task(1, 0, 0));
    queue.add_task(&task(2, 0, 0));
    queue.remove_task(1);
    assert_eq!(queue.all_tasks(), vec![2]);
    queue.remove_task(1);
    assert_eq!(queue.all_tasks(), vec![2]);
    assert_eq!(queue.len(), 1);
}

#[test]
fn queue_orders_lexicographically() {
    let mut queue = MultiNodeQueue::new();
    queue.add_task(&task(1, 1, 1));
    queue.add_task(&task(2, 1, 7));
    queue.add_task(&task(3, 0, 100));
    assert_eq!(queue.pop_task(), Some(2));
    assert_eq!(queue.pop_task(), Some(1));
    assert_eq!(queue.pop_task(), Some(3));
}

#[test]
fn priority_tuple_of_task() {
    assert_eq!(task_priority_tuple(&task(4, -3, 8)), (-3, 8));
}

#[test]
fn task_map_replaces() {
    let mut map = TaskMap::new();
    map.insert(task(1, 0, 0));
    map.insert(task(1, 4, 2));
    assert_eq!(*map.get_task(1), task(1, 4, 2));
}

fn workers() -> WorkerRegistry {
    let mut w = WorkerRegistry::new();
    for id in 1..=4 {
        assert!(w.add_worker(WorkerInfo { id, ended: None }));
    }
    assert!(w.set_ended(4, 1000));
    w
}

#[test]
fn stop_worker_last_two() {
    let w = workers();
    let ids = stop_worker_ids(&w, &IdSelector::LastN(2));
    assert_eq!(ids, vec![4, 3]);
    let mut results = vec![];
    for id in ids {
        let r = match stop_worker_step(&w, id) {
            Some(r) => r,
            None => stop_worker_outcome(StopReply::WorkerStopped),
        };
        results.push((id, r));
    }
    assert!(matches!(results[0], (4, StopWorkerResponse::AlreadyStopped)));
    assert!(matches!(results[1], (3, StopWorkerResponse::Stopped)));
}

#[test]
fn stop_worker_selections() {
    let w = workers();
    assert_eq!(stop_worker_ids(&w, &IdSelector::All), vec![1, 2, 3]);
    let specific = IdSelector::Specific(IntArray::from_ids(&vec![9, 1]));
    assert_eq!(stop_worker_ids(&w, &specific), vec![9, 1]);
    assert!(matches!(stop_worker_step(&w, 9), Some(StopWorkerResponse::InvalidWorker)));
    assert!(stop_worker_step(&w, 1).is_none());
    assert!(matches!(stop_worker_outcome(StopReply::Error("gone".to_string())), StopWorkerResponse::Failed(m) if m == "gone"));
}

#[test]
fn worker_lookup() {
    let mut w = workers();
    assert!(!w.set_ended(4, 2000));
    assert!(!w.set_ended(8, 2000));
    assert!(!w.add_worker(WorkerInfo { id: 2, ended: None }));
    assert_eq!(w.get_worker(4), Some(WorkerInfo { id: 4, ended: Some(1000) }));
    assert_eq!(w.get_worker(5), None);
    assert_eq!(w.worker_list().len(), 4);
    assert_eq!(w.worker_ids(), vec![1, 2, 3, 4]);
}
