use hyperqueue::env::{is_hq_env, HQ_JOB_ID, HQ_QSTAT_PATH};
use hyperqueue::job::{JobInfo, JobTaskCounters};
use hyperqueue::progress::{observe, progress_filled, progress_outcome, start_progress, status_groups, wait_outcome, ProgressCounters, StatusGroup, WaitError};
use hyperqueue::session::{monitoring_after, Incoming, RequestKind, Session, SessionAction};
use hyperqueue::settings::GlobalSettings;
use hyperqueue::wait::WaitForJobsResponse;

fn info(id: u32, n_tasks: u32, running: u32, finished: u32, failed: u32, canceled: u32) -> JobInfo {
    JobInfo {
        id,
        n_tasks,
        counters: JobTaskCounters {
            n_running_tasks: running,
            n_finished_tasks: finished,
            n_failed_tasks: failed,
            n_canceled_tasks: canceled,
        },
    }
}

#[test]
fn progress_loop_ends_with_failure() {
    let mut state = start_progress(&vec![info(1, 2, 0, 0, 0, 0), info(2, 1, 0, 0, 0, 0)]).unwrap();
    assert_eq!(state.total_jobs, 2);
    assert_eq!(state.total_tasks, 3);
    let polls = vec![
        vec![info(1, 2, 2, 0, 0, 0), info(2, 1, 0, 0, 0, 0)],
        vec![info(1, 2, 1, 1, 0, 0), info(2, 1, 1, 0, 0, 0)],
        vec![info(1, 2, 0, 2, 0, 0), info(2, 1, 0, 0, 1, 0)],
    ];
    let mut lines = 0;
    let mut last = None;
    for poll in polls {
        let snap = observe(&mut state, &poll).unwrap();
        lines += 1;
        last = Some(snap);
        if snap.done {
            break;
        }
    }
    assert_eq!(lines, 3);
    let snap = last.unwrap();
    assert_eq!(snap.completed_jobs, 2);
    assert_eq!(snap.completed_tasks, 3);
    let err = progress_outcome(&state.counters).unwrap_err();
    assert_eq!(err, WaitError::SomeFailed);
    assert_eq!(err.message(), "Some jobs have failed");
}

#[test]
fn progress_snapshot_counts_each_job_once() {
    let mut state = start_progress(&vec![info(1, 1, 0, 0, 0, 0), info(2, 2, 0, 0, 0, 0)]).unwrap();
    let s1 = observe(&mut state, &vec![info(1, 1, 0, 1, 0, 0), info(2, 2, 1, 0, 0, 0)]).unwrap();
    assert_eq!(s1.counters, ProgressCounters { n_running_tasks: 1, n_finished_tasks: 1, n_failed_tasks: 0, n_canceled_tasks: 0 });
    assert_eq!(s1.completed_jobs, 1);
    assert!(!s1.done);
    assert_eq!(state.remaining, vec![2]);
    let s2 = observe(&mut state, &vec![info(2, 2, 0, 1, 0, 1)]).unwrap();
    assert_eq!(s2.counters, ProgressCounters { n_running_tasks: 0, n_finished_tasks: 2, n_failed_tasks: 0, n_canceled_tasks: 1 });
    assert_eq!(s2.completed_tasks, 3);
    assert!(s2.done);
    assert_eq!(progress_outcome(&state.counters), Err(WaitError::SomeCanceled));
    assert_eq!(WaitError::SomeCanceled.message(), "Some jobs were canceled");
}

#[test]
fn progress_nothing_to_wait_for() {
    assert!(start_progress(&vec![info(1, 1, 0, 1, 0, 0)]).is_none());
    assert!(start_progress(&vec![]).is_none());
    let state = start_progress(&vec![info(3, 2, 0, 0, 0, 0), info(3, 2, 0, 0, 0, 0)]).unwrap();
    assert_eq!(state.remaining, vec![3]);
    assert_eq!(state.total_jobs, 1);
}

#[test]
fn progress_success_and_bar() {
    let zero = ProgressCounters { n_running_tasks: 0, n_finished_tasks: 4, n_failed_tasks: 0, n_canceled_tasks: 0 };
    assert_eq!(progress_outcome(&zero), Ok(()));
    assert_eq!(progress_filled(3, 4, 40), 30);
    assert_eq!(progress_filled(1, 3, 40), 13);
    assert_eq!(progress_filled(0, 0, 40), 0);
    assert_eq!(progress_filled(9, 4, 40), 40);
    let groups = status_groups(&ProgressCounters { n_running_tasks: 2, n_finished_tasks: 0, n_failed_tasks: 1, n_canceled_tasks: 0 });
    assert_eq!(groups, vec![(2, StatusGroup::Running), (1, StatusGroup::Failed)]);
    assert_eq!(StatusGroup::Canceled.name(), "CANCELED");
}

#[test]
fn plain_wait_outcome() {
    assert_eq!(wait_outcome(&WaitForJobsResponse { finished: 3, failed: 0, canceled: 0, invalid: 2 }), Ok(()));
    let err = wait_outcome(&WaitForJobsResponse { finished: 3, failed: 0, canceled: 1, invalid: 0 }).unwrap_err();
    assert_eq!(err.message(), "Some jobs have failed or have been canceled");
}

#[test]
fn hq_env_prefix() {
    assert!(is_hq_env(b"HQ_JOB_ID"));
    assert!(is_hq_env(b"HQ_"));
    assert!(!is_hq_env(b"hq_JOB_ID"));
    assert!(!is_hq_env(b"HQ"));
    assert!(!is_hq_env(b"XHQ_A"));
    assert!(is_hq_env(HQ_JOB_ID.as_bytes()));
    assert!(is_hq_env(HQ_QSTAT_PATH.as_bytes()));
}

#[test]
fn session_serves_one_request_at_a_time() {
    let mut s = Session::new();
    assert!(s.can_receive());
    assert_eq!(s.on_incoming(Incoming::Request(RequestKind::JobInfo)), SessionAction::Handle(RequestKind::JobInfo));
    assert!(!s.can_receive());
    s.on_sent(true);
    assert!(s.can_receive());
    assert_eq!(s.on_incoming(Incoming::Malformed), SessionAction::SendError);
    s.on_sent(true);
    assert_eq!(s.on_incoming(Incoming::Request(RequestKind::Stop)), SessionAction::Shutdown);
    assert!(!s.can_receive());
    let mut t = Session::new();
    t.on_incoming(Incoming::Request(RequestKind::Stats));
    t.on_sent(false);
    assert!(!t.can_receive());
    assert_eq!(Session::new().on_incoming(Incoming::Closed), SessionAction::End);
    assert_eq!(monitoring_after(None), 0);
    assert_eq!(monitoring_after(Some(12)), 12);
}

#[test]
fn global_settings_keep_values() {
    let g = GlobalSettings::new(std::path::PathBuf::from("/srv/hq"), cli_table::ColorChoice::Never);
    assert_eq!(g.color_policy(), cli_table::ColorChoice::Never);
    assert_eq!(g.server_directory(), std::path::Path::new("/srv/hq"));
}
