use m3u8_core::task::{
    run_status, run_step, RunAction, RunEvent, RunPhase, group_tasks, overwrite_decision, overwrite_plan, parent_status, pause_subtask_status,
    resume_status, should_merge, TaskGroup, TaskLink, TaskStatus,
};

fn statuses(v: &[&str]) -> Vec<String> {
    v.iter().map(|s| s.to_string()).collect()
}

#[test]
fn status_names_round_trip() {
    for s in [
        TaskStatus::Pending,
        TaskStatus::Downloading,
        TaskStatus::Merging,
        TaskStatus::Completed,
        TaskStatus::Failed,
        TaskStatus::Paused,
        TaskStatus::Skipped,
        TaskStatus::Active,
    ] {
        assert_eq!(TaskStatus::from_name(s.as_str()), Some(s));
    }
    assert_eq!(TaskStatus::Pending.as_str(), "pending");
    assert_eq!(TaskStatus::Active.as_str(), "active");
    assert_eq!(TaskStatus::from_name("parsing"), None);
    assert_eq!(TaskStatus::from_name("Paused"), None);
}

#[test]
fn parent_is_completed_when_all_subtasks_finished() {
    assert_eq!(parent_status(&statuses(&["completed", "skipped"])), Some(TaskStatus::Completed));
}

#[test]
fn parent_is_paused_when_all_active_work_is_paused() {
    assert_eq!(parent_status(&statuses(&["paused", "paused"])), Some(TaskStatus::Paused));
    assert_eq!(parent_status(&statuses(&["paused", "completed", "failed"])), Some(TaskStatus::Paused));
}

#[test]
fn parent_is_failed_when_only_failures_remain() {
    assert_eq!(parent_status(&statuses(&["failed", "completed"])), Some(TaskStatus::Failed));
}

#[test]
fn parent_is_active_while_work_goes_on() {
    assert_eq!(parent_status(&statuses(&["failed", "downloading"])), Some(TaskStatus::Active));
    assert_eq!(parent_status(&statuses(&["paused", "parsing"])), Some(TaskStatus::Active));
    assert_eq!(parent_status(&statuses(&["completed", "pending"])), Some(TaskStatus::Active));
    assert_eq!(parent_status(&statuses(&["completed", "weird"])), Some(TaskStatus::Active));
}

#[test]
fn parent_without_subtasks_is_left_alone() {
    assert_eq!(parent_status(&[]), None);
}

#[test]
fn pausing_only_pauses_runnable_subtasks() {
    assert_eq!(pause_subtask_status("downloading"), "paused");
    assert_eq!(pause_subtask_status("pending"), "paused");
    assert_eq!(pause_subtask_status("parsing"), "paused");
    assert_eq!(pause_subtask_status("merging"), "paused");
    assert_eq!(pause_subtask_status("completed"), "completed");
    assert_eq!(pause_subtask_status("failed"), "failed");
    assert_eq!(pause_subtask_status("skipped"), "skipped");
}

#[test]
fn resuming_only_requeues_paused_and_failed() {
    assert_eq!(resume_status("paused"), "pending");
    assert_eq!(resume_status("failed"), "pending");
    assert_eq!(resume_status("completed"), "completed");
    assert_eq!(resume_status("downloading"), "downloading");
}

#[test]
fn pause_then_resume_requeues_work() {
    for s in ["pending", "downloading", "parsing", "merging"] {
        assert_eq!(resume_status(&pause_subtask_status(s)), "pending");
    }
    for s in ["completed", "skipped"] {
        assert_eq!(resume_status(&pause_subtask_status(s)), s);
    }
}

#[test]
fn merge_waits_for_all_segments_and_no_pause() {
    assert!(should_merge("downloading", 10, 10));
    assert!(!should_merge("paused", 10, 10));
    assert!(!should_merge("downloading", 9, 10));
    assert!(should_merge("downloading", 11, 10));
}

#[test]
fn tasks_group_under_their_parents_in_list_order() {
    let link = |id: &str, parent: Option<&str>| TaskLink {
        id: id.to_string(),
        parent_id: parent.map(|p| p.to_string()),
    };
    let links = vec![
        link("c1", Some("p1")),
        link("p2", None),
        link("c2", Some("p2")),
        link("p1", None),
        link("c3", Some("p1")),
        link("orphan", Some("gone")),
    ];
    assert_eq!(
        group_tasks(&links),
        vec![
            TaskGroup { parent: 1, subtasks: vec![2] },
            TaskGroup { parent: 3, subtasks: vec![0, 4] },
        ]
    );
}

#[test]
fn answering_overwrite_without_waiter_skips_or_requeues() {
    let keep = overwrite_plan(false, false);
    assert!(!keep.notify_waiter);
    assert_eq!(keep.set_status, Some(TaskStatus::Skipped));
    assert!(keep.complete_progress && keep.refresh_parent && keep.clear_pending_flag);
    assert!(!keep.restart);

    let replace = overwrite_plan(false, true);
    assert_eq!(replace.set_status, Some(TaskStatus::Pending));
    assert!(!replace.complete_progress && !replace.refresh_parent);
    assert!(replace.clear_pending_flag && replace.restart);

    // The one subtask of a parent is skipped: the parent is completed.
    assert_eq!(parent_status(&statuses(&["skipped"])), Some(TaskStatus::Completed));

    let handed_over = overwrite_plan(true, false);
    assert!(handed_over.notify_waiter);
    assert_eq!(handed_over.set_status, None);
    assert!(!handed_over.complete_progress && handed_over.clear_pending_flag && !handed_over.restart);
}

#[test]
fn no_answer_keeps_the_existing_file() {
    assert!(overwrite_decision(Some(true)));
    assert!(!overwrite_decision(Some(false)));
    assert!(!overwrite_decision(None));
}

#[test]
fn pausing_and_resuming_a_parent_moves_its_status() {
    let subtasks = ["downloading", "completed"];
    let paused: Vec<String> = subtasks.iter().map(|s| pause_subtask_status(s)).collect();
    assert_eq!(paused, vec!["paused", "completed"]);
    assert_eq!(parent_status(&paused), Some(TaskStatus::Paused));

    let subtasks = ["paused", "failed", "completed"];
    let resumed: Vec<String> = subtasks.iter().map(|s| resume_status(s)).collect();
    assert_eq!(resumed, vec!["pending", "pending", "completed"]);
    assert_eq!(parent_status(&resumed), Some(TaskStatus::Active));
}

#[test]
fn a_run_goes_from_parsing_to_completed() {
    let (p, a) = run_step(RunPhase::Starting, RunEvent::OutputChecked { exists: false });
    assert_eq!((p, a), (RunPhase::Parsing, RunAction::BeginParsing { replace_output: false }));
    assert_eq!(run_status(p), Some("parsing"));
    let (p, a) = run_step(p, RunEvent::PlaylistListed);
    assert_eq!((p, a), (RunPhase::Downloading, RunAction::BeginDownload));
    assert_eq!(run_status(p), Some("downloading"));
    let ended = RunEvent::DownloadEnded { paused: false, completed_segments: 10, total_segments: 10 };
    let (p, a) = run_step(p, ended);
    assert_eq!((p, a), (RunPhase::Merging, RunAction::BeginMerge));
    assert_eq!(run_status(p), Some("merging"));
    let (p, a) = run_step(p, RunEvent::Merged);
    assert_eq!((p, a), (RunPhase::Completed, RunAction::Complete));
    assert_eq!(run_status(p), Some("completed"));
    assert_eq!(run_step(p, RunEvent::Merged), (RunPhase::Completed, RunAction::Ignore));
}

#[test]
fn a_run_with_an_existing_file_waits_for_the_answer() {
    let (p, a) = run_step(RunPhase::Starting, RunEvent::OutputChecked { exists: true });
    assert_eq!((p, a), (RunPhase::AwaitingOverwrite, RunAction::AskOverwrite));
    assert_eq!(run_status(p), Some("pending"));
    assert_eq!(
        run_step(p, RunEvent::OverwriteAnswered { answer: Some(true) }),
        (RunPhase::Parsing, RunAction::BeginParsing { replace_output: true })
    );
    assert_eq!(run_step(p, RunEvent::OverwriteAnswered { answer: Some(false) }), (RunPhase::Skipped, RunAction::Skip));
    assert_eq!(run_step(p, RunEvent::OverwriteAnswered { answer: None }), (RunPhase::Skipped, RunAction::Skip));
    assert_eq!(run_status(RunPhase::Skipped), Some("skipped"));
}

#[test]
fn a_paused_or_incomplete_download_is_not_merged() {
    let paused = RunEvent::DownloadEnded { paused: true, completed_segments: 10, total_segments: 10 };
    assert_eq!(run_step(RunPhase::Downloading, paused), (RunPhase::Stopped, RunAction::StopWithoutMerge));
    let missing = RunEvent::DownloadEnded { paused: false, completed_segments: 9, total_segments: 10 };
    assert_eq!(run_step(RunPhase::Downloading, missing), (RunPhase::Stopped, RunAction::StopWithoutMerge));
    assert_eq!(run_status(RunPhase::Stopped), None);
    assert_eq!(run_step(RunPhase::Parsing, RunEvent::Merged), (RunPhase::Parsing, RunAction::Ignore));
}
