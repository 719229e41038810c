use hatch_kernel::{
    CancelOutcome, DispatchOutcome, GitCoordinatorState, GitOperationPriority, cancelled_message,
    operation_id, settle_outcome, timed_out_message,
};

fn enqueue(
    state: &mut GitCoordinatorState<&'static str>,
    repo: &str,
    priority: Option<GitOperationPriority>,
    tag: &'static str,
) -> (String, bool) {
    let receipt = state.enqueue(
        repo.to_string(),
        "git_status".to_string(),
        priority,
        None,
        tag,
        100,
    );
    (receipt.operation_id, receipt.start_worker)
}

#[test]
fn operation_ids_count_up_from_one() {
    assert_eq!(operation_id(1), "git-op-1");
    assert_eq!(operation_id(42), "git-op-42");
    let mut state = GitCoordinatorState::new();
    let (first, _) = enqueue(&mut state, "/r", None, "a");
    let (second, _) = enqueue(&mut state, "/r", None, "b");
    assert_eq!(first, "git-op-1");
    assert_eq!(second, "git-op-2");
}

#[test]
fn enqueue_fills_defaults_and_asks_for_one_worker() {
    let mut state = GitCoordinatorState::new();
    let (_, start_a) = enqueue(&mut state, "/r", None, "a");
    let (_, start_b) = enqueue(&mut state, "/r", None, "b");
    let (_, start_c) = enqueue(&mut state, "/other", None, "c");
    assert!(start_a);
    assert!(!start_b);
    assert!(start_c);
    let op = state.begin_next(&"/r".to_string(), 200).expect("work is pending");
    assert_eq!(op.operation.operation_type, "git_status");
    assert_eq!(op.operation.priority, GitOperationPriority::Normal);
    assert_eq!(op.operation.enqueued_at, 100);
    assert_eq!(op.operation.started_at, Some(200));
    assert_eq!(op.payload, "a");
}

#[test]
fn two_status_calls_run_in_order_after_the_running_one() {
    let mut state = GitCoordinatorState::new();
    let repo = "/repo".to_string();
    enqueue(&mut state, &repo, None, "long");
    let long = state.begin_next(&repo, 1).unwrap();
    assert_eq!(long.payload, "long");
    enqueue(&mut state, &repo, None, "status-1");
    enqueue(&mut state, &repo, None, "status-2");
    // nothing else starts while the first operation runs
    let snapshot = state.status(repo.clone());
    assert_eq!(snapshot.pending_count, 2);
    assert_eq!(snapshot.running_operation.unwrap().id, long.operation.id);
    state.finish(&repo, true);
    assert_eq!(state.begin_next(&repo, 2).unwrap().payload, "status-1");
    state.finish(&repo, true);
    assert_eq!(state.begin_next(&repo, 3).unwrap().payload, "status-2");
    state.finish(&repo, true);
    assert!(state.begin_next(&repo, 4).is_none());
    let snapshot = state.status(repo.clone());
    assert_eq!(snapshot.completed_count, 3);
    assert_eq!(snapshot.failed_count, 0);
    assert_eq!(snapshot.pending_count, 0);
    assert!(snapshot.running_operation.is_none());
}

#[test]
fn critical_overtakes_pending_normal() {
    let mut state = GitCoordinatorState::new();
    let repo = "/repo".to_string();
    enqueue(&mut state, &repo, Some(GitOperationPriority::Normal), "in-flight");
    state.begin_next(&repo, 1).unwrap();
    enqueue(&mut state, &repo, Some(GitOperationPriority::Normal), "normal");
    enqueue(&mut state, &repo, Some(GitOperationPriority::Critical), "critical");
    state.finish(&repo, true);
    assert_eq!(state.begin_next(&repo, 2).unwrap().payload, "critical");
    state.finish(&repo, true);
    assert_eq!(state.begin_next(&repo, 3).unwrap().payload, "normal");
}

#[test]
fn timeout_counts_as_failure() {
    let mut state = GitCoordinatorState::new();
    let repo = "/repo".to_string();
    enqueue(&mut state, &repo, None, "slow");
    state.begin_next(&repo, 1).unwrap();
    let result: Result<u32, String> = settle_outcome(DispatchOutcome::TimedOut);
    let message = result.unwrap_err();
    assert!(message.contains("timed out"));
    assert_eq!(message, "Operation timed out after 60 seconds");
    state.finish(&repo, false);
    let snapshot = state.status(repo);
    assert_eq!(snapshot.failed_count, 1);
    assert_eq!(snapshot.completed_count, 0);
}

#[test]
fn settle_outcome_passes_results_and_names_cancels() {
    assert_eq!(settle_outcome(DispatchOutcome::Finished(Ok::<u32, String>(7))), Ok(7));
    assert_eq!(
        settle_outcome(DispatchOutcome::Finished(Err::<u32, String>("boom".to_string()))),
        Err("boom".to_string())
    );
    assert_eq!(
        settle_outcome::<u32>(DispatchOutcome::Cancelled),
        Err("Operation cancelled".to_string())
    );
    assert_eq!(cancelled_message(), "Operation cancelled");
    assert_eq!(timed_out_message(), "Operation timed out after 60 seconds");
}

#[test]
fn cancel_pending_removes_it_for_good() {
    let mut state = GitCoordinatorState::new();
    let repo = "/repo".to_string();
    enqueue(&mut state, &repo, None, "first");
    state.begin_next(&repo, 1).unwrap();
    let (victim, _) = enqueue(&mut state, &repo, None, "victim");
    enqueue(&mut state, &repo, None, "after");
    match state.cancel(victim.clone()) {
        CancelOutcome::Pending(op) => assert_eq!(op.payload, "victim"),
        _ => panic!("the operation was pending"),
    }
    assert_eq!(state.status(repo.clone()).pending_count, 1);
    assert!(!state.cancel(victim).is_cancelled());
    state.finish(&repo, true);
    assert_eq!(state.begin_next(&repo, 2).unwrap().payload, "after");
}

#[test]
fn cancel_running_and_unknown() {
    let mut state = GitCoordinatorState::new();
    let repo = "/repo".to_string();
    let (running, _) = enqueue(&mut state, &repo, None, "run");
    state.begin_next(&repo, 1).unwrap();
    assert!(matches!(state.cancel(running), CancelOutcome::Running));
    assert!(matches!(state.cancel("git-op-99".to_string()), CancelOutcome::NotFound));
    assert!(!state.cancel("git-op-99".to_string()).is_cancelled());
}

#[test]
fn status_of_unknown_repository_is_zero() {
    let state: GitCoordinatorState<()> = GitCoordinatorState::new();
    let snapshot = state.status("/nowhere".to_string());
    assert_eq!(snapshot.repo_root, "/nowhere");
    assert_eq!(snapshot.pending_count, 0);
    assert_eq!(snapshot.completed_count, 0);
    assert_eq!(snapshot.failed_count, 0);
    assert!(snapshot.running_operation.is_none());
}

#[test]
fn worker_stops_when_queue_drains() {
    let mut state = GitCoordinatorState::new();
    let repo = "/repo".to_string();
    enqueue(&mut state, &repo, None, "only");
    state.begin_next(&repo, 1).unwrap();
    state.finish(&repo, true);
    assert!(state.begin_next(&repo, 2).is_none());
    let (_, start) = enqueue(&mut state, &repo, None, "again");
    assert!(start);
}

#[test]
fn nothing_starts_while_an_operation_runs() {
    let mut state = GitCoordinatorState::new();
    let repo = "/repo".to_string();
    enqueue(&mut state, &repo, None, "first");
    enqueue(&mut state, &repo, None, "second");
    assert_eq!(state.begin_next(&repo, 1).unwrap().payload, "first");
    assert!(state.begin_next(&repo, 2).is_none());
    let snapshot = state.status(repo.clone());
    assert_eq!(snapshot.pending_count, 1);
    assert_eq!(snapshot.running_operation.unwrap().started_at, Some(1));
    state.finish(&repo, true);
    state.finish(&repo, true);
    let snapshot = state.status(repo.clone());
    assert_eq!(snapshot.completed_count, 1);
    assert_eq!(state.begin_next(&repo, 3).unwrap().payload, "second");
}
