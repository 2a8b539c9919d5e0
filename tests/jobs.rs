use hyperqueue::cancel::{apply_cancel_reply, cancel_job_ids, cancel_step, CancelJobResponse, CancelReply, CancelStep};
use hyperqueue::job::{Job, JobTaskCounters, TaskSelector, TaskState};
use hyperqueue::registry::JobRegistry;
use hyperqueue::selector::{IdSelector, IntArray, IntRange};
use hyperqueue::wait::{begin_wait, finish_wait, update_counters, WaitForJobsResponse};

/// A job of `n` tasks whose first `done` tasks are in `state`.
fn job_with(id: u32, base: u64, n: u32, done: u32, state: TaskState) -> Job {
    let mut job = Job::new(id, base, n);
    for i in 0..done {
        job.set_task_state(base + i as u64, state);
    }
    job
}

fn registry_of(jobs: Vec<Job>) -> JobRegistry {
    let mut registry = JobRegistry::new();
    for job in jobs {
        assert!(registry.add_job(job));
    }
    registry
}

fn specific(ids: &[u32]) -> IdSelector {
    IdSelector::Specific(IntArray::from_ids(&ids.to_vec()))
}

#[test]
fn wait_all_with_mixed_states() {
    let mut registry = registry_of(vec![
        job_with(1, 10, 1, 1, TaskState::Finished),
        job_with(2, 20, 1, 1, TaskState::Canceled),
        job_with(3, 30, 1, 1, TaskState::Running),
    ]);
    let (response, subs) = begin_wait(&mut registry, &IdSelector::All, 100);
    assert_eq!(subs, vec![(3, 100)]);
    assert_eq!(response, WaitForJobsResponse { finished: 1, failed: 0, canceled: 1, invalid: 0 });

    let fired = registry.set_task_state(3, 30, TaskState::Failed);
    assert_eq!(fired, vec![100]);
    let results: Vec<Option<u32>> = subs.iter().map(|(id, _)| Some(*id)).collect();
    let response = finish_wait(&registry, response, &results);
    assert_eq!(response, WaitForJobsResponse { finished: 1, failed: 1, canceled: 1, invalid: 0 });
}

#[test]
fn wait_unknown_id_is_invalid() {
    let mut registry = registry_of(vec![job_with(1, 10, 2, 2, TaskState::Finished)]);
    let (response, subs) = begin_wait(&mut registry, &specific(&[1, 2]), 0);
    assert!(subs.is_empty());
    assert_eq!(response, WaitForJobsResponse { finished: 1, failed: 0, canceled: 0, invalid: 1 });
}

#[test]
fn wait_skips_failed_delivery() {
    let mut registry = registry_of(vec![job_with(1, 10, 1, 0, TaskState::Finished)]);
    let (response, subs) = begin_wait(&mut registry, &IdSelector::All, 5);
    assert_eq!(subs, vec![(1, 5)]);
    let response = finish_wait(&registry, response, &vec![None]);
    assert_eq!(response, WaitForJobsResponse { finished: 0, failed: 0, canceled: 0, invalid: 0 });
}

#[test]
fn classification_precedence() {
    let mut r = WaitForJobsResponse::new();
    let c = |running, finished, failed, canceled| JobTaskCounters {
        n_running_tasks: running,
        n_finished_tasks: finished,
        n_failed_tasks: failed,
        n_canceled_tasks: canceled,
    };
    update_counters(&mut r, &c(0, 3, 1, 1));
    assert_eq!(r, WaitForJobsResponse { finished: 0, failed: 0, canceled: 1, invalid: 0 });
    update_counters(&mut r, &c(0, 3, 2, 0));
    assert_eq!(r, WaitForJobsResponse { finished: 0, failed: 1, canceled: 1, invalid: 0 });
    update_counters(&mut r, &c(0, 3, 0, 0));
    assert_eq!(r, WaitForJobsResponse { finished: 1, failed: 1, canceled: 1, invalid: 0 });
}

#[test]
fn cancel_over_stale_snapshot() {
    let mut registry = registry_of(vec![job_with(7, 100, 10, 4, TaskState::Finished)]);
    let ids = match cancel_step(&registry, 7) {
        CancelStep::AskBackend(ids) => ids,
        other => panic!("unexpected step {:?}", other),
    };
    assert_eq!(ids, (104..110).collect::<Vec<u64>>());
    // One more task ends before the backend answers.
    registry.set_task_state(7, 104, TaskState::Finished);
    let (response, _) = apply_cancel_reply(&mut registry, 7, CancelReply::Canceled((105..110).collect()));
    match response {
        CancelJobResponse::Canceled(ids, already_finished) => {
            assert_eq!(ids.len(), 5);
            assert_eq!(ids, vec![5, 6, 7, 8, 9]);
            assert_eq!(already_finished, 5);
        }
        other => panic!("unexpected response {:?}", other),
    }
    let job = registry.get_job(7).unwrap();
    assert_eq!(job.counters().n_canceled_tasks, 5);
    assert_eq!(job.counters().n_finished_tasks, 5);
    assert!(job.is_terminated());
}

#[test]
fn cancel_errors_and_invalid() {
    let mut registry = registry_of(vec![
        job_with(1, 0, 2, 2, TaskState::Finished),
        job_with(2, 10, 2, 0, TaskState::Finished),
    ]);
    assert!(matches!(cancel_step(&registry, 9), CancelStep::InvalidJob));
    assert!(matches!(cancel_step(&registry, 1), CancelStep::NothingToCancel(2)));
    let (response, fired) = apply_cancel_reply(&mut registry, 2, CancelReply::Error("busy".to_string()));
    assert!(matches!(response, CancelJobResponse::Failed(ref m) if m == "busy"));
    assert!(fired.is_empty());
    let (response, _) = apply_cancel_reply(&mut registry, 9, CancelReply::Canceled(vec![1]));
    assert!(matches!(response, CancelJobResponse::InvalidJob));
    // `All` covers ended jobs too; they are answered with nothing canceled.
    assert_eq!(cancel_job_ids(&registry, &IdSelector::All), vec![1, 2]);
    assert_eq!(cancel_job_ids(&registry, &IdSelector::LastN(5)), vec![2, 1]);
}

#[test]
fn cancel_all_answers_ended_jobs() {
    let registry = registry_of(vec![
        job_with(1, 0, 3, 3, TaskState::Finished),
        job_with(2, 10, 1, 0, TaskState::Finished),
    ]);
    let ids = cancel_job_ids(&registry, &IdSelector::All);
    assert_eq!(ids, vec![1, 2]);
    assert!(matches!(cancel_step(&registry, ids[0]), CancelStep::NothingToCancel(3)));
    assert!(matches!(cancel_step(&registry, ids[1]), CancelStep::AskBackend(ref t) if t == &vec![10]));
}

#[test]
fn wait_subscribes_each_occurrence_once() {
    let mut registry = registry_of(vec![
        job_with(1, 0, 1, 0, TaskState::Finished),
        job_with(2, 10, 1, 1, TaskState::Finished),
    ]);
    let (response, subs) = begin_wait(&mut registry, &specific(&[1, 2, 1, 5]), 7);
    assert_eq!(subs, vec![(1, 7), (1, 8)]);
    assert_eq!(response, WaitForJobsResponse { finished: 1, failed: 0, canceled: 0, invalid: 1 });
    let fired = registry.set_task_state(1, 0, TaskState::Finished);
    assert_eq!(fired, vec![7, 8]);
    let results: Vec<Option<u32>> = subs.iter().map(|(id, _)| Some(*id)).collect();
    let response = finish_wait(&registry, response, &results);
    assert_eq!(response, WaitForJobsResponse { finished: 3, failed: 0, canceled: 0, invalid: 1 });
}

#[test]
fn cancel_fires_waiters() {
    let mut registry = registry_of(vec![job_with(1, 0, 2, 1, TaskState::Finished)]);
    assert!(registry.subscribe_to_completion(1, 41));
    assert!(registry.subscribe_to_completion(1, 42));
    let (_, fired) = apply_cancel_reply(&mut registry, 1, CancelReply::Canceled(vec![1]));
    assert_eq!(fired, vec![41, 42]);
    assert!(!registry.subscribe_to_completion(1, 43));
}

#[test]
fn counters_follow_transitions() {
    let mut job = Job::new(1, 50, 3);
    assert_eq!(job.n_tasks(), 3);
    assert!(job.set_task_state(50, TaskState::Running).is_empty());
    assert_eq!(job.counters().n_running_tasks, 1);
    job.set_task_state(50, TaskState::Finished);
    assert_eq!(job.counters().n_running_tasks, 0);
    assert_eq!(job.counters().n_finished_tasks, 1);
    // A finished task does not move again, and no task goes back to waiting.
    job.set_task_state(50, TaskState::Failed);
    job.set_task_state(51, TaskState::Waiting);
    assert_eq!(job.task_state(50), Some(TaskState::Finished));
    assert_eq!(job.task_state(51), Some(TaskState::Waiting));
    assert_eq!(job.task_state(53), None);
    job.set_task_state(51, TaskState::Failed);
    assert!(!job.is_terminated());
    job.subscribe_to_completion(7);
    assert_eq!(job.set_task_state(52, TaskState::Canceled), vec![7]);
    assert!(job.is_terminated());
    let c = job.counters();
    assert_eq!(c.n_finished_tasks + c.n_failed_tasks + c.n_canceled_tasks, 3);
    assert_eq!(job.non_finished_task_ids(), Vec::<u64>::new());
}

#[test]
fn job_info_and_detail() {
    let registry = registry_of(vec![
        job_with(1, 0, 3, 1, TaskState::Failed),
        job_with(4, 10, 1, 0, TaskState::Finished),
    ]);
    let infos = registry.compute_job_info(&specific(&[4, 2, 1]));
    assert_eq!(infos.len(), 2);
    assert_eq!(infos[0].id, 4);
    assert_eq!(infos[1].id, 1);
    assert_eq!(infos[1].n_tasks, 3);
    assert_eq!(infos[1].counters.n_failed_tasks, 1);
    assert_eq!(registry.compute_job_info(&IdSelector::LastN(1))[0].id, 4);

    let selector = TaskSelector { states: vec![TaskState::Waiting] };
    let detail = registry.compute_job_detail(&specific(&[1, 3]), Some(&selector));
    assert_eq!(detail.len(), 2);
    assert_eq!(detail[0].0, 1);
    let d = detail[0].1.as_ref().unwrap();
    assert_eq!(d.tasks.iter().map(|t| t.task_id).collect::<Vec<_>>(), vec![1, 2]);
    assert_eq!(d.tasks[0].job_task_id, 1);
    assert!(detail[1].1.is_none());
    let all = registry.compute_job_detail(&IdSelector::All, None);
    assert_eq!(all[0].1.as_ref().unwrap().tasks.len(), 3);
}

#[test]
fn registry_orders_and_selects() {
    let mut registry = registry_of(vec![
        Job::new(2, 0, 1),
        Job::new(5, 1, 1),
        Job::new(9, 2, 1),
    ]);
    assert!(!registry.add_job(Job::new(9, 3, 1)));
    assert!(!registry.add_job(Job::new(3, 3, 1)));
    assert_eq!(registry.job_ids(), vec![2, 5, 9]);
    assert_eq!(registry.get_job_ids(&IdSelector::All), vec![2, 5, 9]);
    assert_eq!(registry.last_n_ids(2), vec![9, 5]);
    assert_eq!(registry.last_n_ids(7), vec![9, 5, 2]);
    assert_eq!(registry.last_n_ids(0), Vec::<u32>::new());
    assert_eq!(registry.get_job_ids(&specific(&[7, 2])), vec![7, 2]);
    let a = specific(&[3, 1]);
    assert_eq!(registry.get_job_ids(&a), registry.get_job_ids(&a));
    assert!(registry.get_job(4).is_none());
    assert_eq!(registry.get_job(5).unwrap().job_id(), 5);
}

#[test]
fn int_array_enumerates_ranges() {
    let array = IntArray::from_ranges(vec![IntRange { start: 5, count: 3 }, IntRange { start: 1, count: 1 }]);
    assert_eq!(array.iter(), vec![5, 6, 7, 1]);
    let ids = vec![1, 2, 3, 7, 8, 2];
    assert_eq!(IntArray::from_ids(&ids).iter(), ids);
    assert_eq!(IntArray::from_ids(&vec![]).iter(), Vec::<u32>::new());
    assert_eq!(IntArray::from_ids(&vec![u32::MAX - 1, u32::MAX]).iter(), vec![u32::MAX - 1, u32::MAX]);
}
