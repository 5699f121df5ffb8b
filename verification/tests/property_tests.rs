use local_activities::manager::LocalActivityManager;
use local_activities::types::ActivityCancelReason;
use local_activities::types::ActivityTask;
use local_activities::types::ActivityTaskVariant;
use local_activities::types::ApplicationFailure;
use local_activities::types::DispatchOrTimeoutLA;
use local_activities::types::ExecutingLAId;
use local_activities::types::LACloseTimeouts;
use local_activities::types::LACompleteAction;
use local_activities::types::LocalActRequest;
use local_activities::types::LocalActivityExecutionResult;
use local_activities::types::NewLocalAct;
use local_activities::types::NextPendingOutcome;
use local_activities::types::RetryPolicy;
use local_activities::types::TimeoutType;
use local_activities::types::ValidScheduleLA;
use local_activities::types::WorkflowExecution;

fn policy(
    initial_ms: Option<u64>,
    coeff: u32,
    max_ms: Option<u64>,
    max_attempts: u32,
) -> RetryPolicy {
    RetryPolicy {
        initial_interval_ms: initial_ms,
        backoff_coefficient: coeff,
        maximum_interval_ms: max_ms,
        maximum_attempts: max_attempts,
        non_retryable_error_types: vec![],
    }
}

fn schedule(seq: u32, activity_id: &str) -> ValidScheduleLA {
    ValidScheduleLA {
        seq,
        activity_id: activity_id.to_string(),
        activity_type: String::new(),
        attempt: 0,
        retry_policy: policy(None, 0, None, 0),
        local_retry_threshold_ms: 0,
        schedule_to_start_timeout_ms: None,
        close_timeouts: LACloseTimeouts::Unset,
        headers: vec![],
        arguments: vec![],
    }
}

fn new_act(cmd: ValidScheduleLA, run_id: &str, schedule_time_ms: u64) -> NewLocalAct {
    NewLocalAct {
        schedule_cmd: cmd,
        workflow_type: String::new(),
        workflow_exec_info: WorkflowExecution {
            workflow_id: String::new(),
            run_id: run_id.to_string(),
        },
        schedule_time_ms,
    }
}

fn unwrap_dispatch(outcome: NextPendingOutcome) -> ActivityTask {
    match outcome {
        NextPendingOutcome::Ready(DispatchOrTimeoutLA::Dispatch(t)) => t,
        other => panic!("expected a dispatch, got {:?}", other),
    }
}

fn lam_id(run_id: &str, seq_num: u32) -> ExecutingLAId {
    ExecutingLAId { run_id: run_id.to_string(), seq_num }
}

#[test]
fn pre_queue_schedule_to_close_timeout() {
    let mut lam = LocalActivityManager::new(5, "fake_ns".to_string());
    let mut cmd = schedule(1, "1");
    cmd.close_timeouts = LACloseTimeouts::ScheduleOnly(100);
    // The activity was scheduled at 0 and admission happens at 150: the
    // schedule-to-close budget is already spent.
    let immediate = lam.enqueue(vec![LocalActRequest::New(new_act(cmd, "run_id", 0))], 150);
    assert_eq!(immediate.len(), 1);
    assert!(matches!(
        immediate[0].result,
        LocalActivityExecutionResult::TimedOut(TimeoutType::ScheduleToClose)
    ));
    assert_eq!(immediate[0].original_schedule_time_ms, Some(0));
    // It was never queued and can never be dispatched.
    assert_eq!(lam.num_queued(), 0);
    assert!(matches!(lam.next_pending(150), NextPendingOutcome::NothingReady));
}

#[test]
fn backoff_equal_to_threshold_stays_local() {
    let mut lam = LocalActivityManager::new(1, "fake_ns".to_string());
    let mut cmd = schedule(1, "1");
    cmd.attempt = 1;
    cmd.retry_policy = policy(Some(5_000), 1, Some(5_000), 10);
    cmd.local_retry_threshold_ms = 5_000;
    lam.enqueue(vec![LocalActRequest::New(new_act(cmd, "run_id", 0))], 0);
    let task = unwrap_dispatch(lam.next_pending(0));
    // Backoff computes to exactly the threshold: handled locally, not
    // delegated to a workflow timer.
    let action = lam.complete(
        task.task_token,
        &LocalActivityExecutionResult::Failed(None),
        0,
    );
    assert!(matches!(action, LACompleteAction::WillBeRetried));
    assert_eq!(lam.num_in_backoff(), 1);
    assert_eq!(lam.backoff_fire_at(&lam_id("run_id", 1)), Some(5_000));
}

#[test]
fn backoff_formula_exact() {
    let mut lam = LocalActivityManager::new(1, "fake_ns".to_string());
    let mut cmd = schedule(1, "1");
    cmd.attempt = 3;
    cmd.retry_policy = policy(Some(1_000), 10, None, 0);
    cmd.local_retry_threshold_ms = 0;
    lam.enqueue(vec![LocalActRequest::New(new_act(cmd, "run_id", 0))], 0);
    let task = unwrap_dispatch(lam.next_pending(0));
    // Third attempt: 1000ms grown twice by 10 gives 100_000ms, over the
    // zero threshold, so the workflow runs the timer.
    let action = lam.complete(
        task.task_token,
        &LocalActivityExecutionResult::Failed(None),
        0,
    );
    match action {
        LACompleteAction::LangDoesTimerBackoff(backoff_ms, info) => {
            assert_eq!(backoff_ms, 100_000);
            assert_eq!(info.attempt, 3);
        }
        other => panic!("expected a timer backoff, got {:?}", other),
    }
}

#[test]
fn max_attempts_exhausted_reports() {
    let mut lam = LocalActivityManager::new(1, "fake_ns".to_string());
    let mut cmd = schedule(1, "1");
    cmd.attempt = 10;
    cmd.retry_policy = policy(Some(10), 1, None, 10);
    cmd.local_retry_threshold_ms = 500_000;
    lam.enqueue(vec![LocalActRequest::New(new_act(cmd, "run_id", 0))], 0);
    let task = unwrap_dispatch(lam.next_pending(0));
    let action = lam.complete(
        task.task_token,
        &LocalActivityExecutionResult::Failed(None),
        0,
    );
    assert!(matches!(action, LACompleteAction::Report(_)));
}

#[test]
fn non_retryable_failure_flag_reports() {
    let mut lam = LocalActivityManager::new(1, "fake_ns".to_string());
    let mut cmd = schedule(1, "1");
    cmd.attempt = 1;
    cmd.retry_policy = policy(Some(10), 1, None, 10);
    cmd.local_retry_threshold_ms = 500_000;
    lam.enqueue(vec![LocalActRequest::New(new_act(cmd, "run_id", 0))], 0);
    let task = unwrap_dispatch(lam.next_pending(0));
    let action = lam.complete(
        task.task_token,
        &LocalActivityExecutionResult::Failed(Some(ApplicationFailure {
            failure_type: "AnyError".to_string(),
            non_retryable: true,
        })),
        0,
    );
    assert!(matches!(action, LACompleteAction::Report(_)));
}

#[test]
fn untracked_completion_is_reported_as_such() {
    let mut lam = LocalActivityManager::new(1, "fake_ns".to_string());
    let action = lam.complete(999, &LocalActivityExecutionResult::Completed, 0);
    assert!(matches!(action, LACompleteAction::Untracked));
    assert_eq!(lam.num_outstanding(), 0);
}

#[test]
fn cancel_of_unknown_id_is_noop() {
    let mut lam = LocalActivityManager::new(1, "fake_ns".to_string());
    let immediate = lam.enqueue(vec![LocalActRequest::Cancel(lam_id("nope", 7))], 0);
    assert!(immediate.is_empty());
    assert!(matches!(lam.next_pending(0), NextPendingOutcome::NothingReady));
}

#[test]
fn cancel_priority_over_new_work() {
    let mut lam = LocalActivityManager::new(5, "fake_ns".to_string());
    lam.enqueue(
        vec![
            LocalActRequest::New(new_act(schedule(1, "1"), "run_id", 0)),
            LocalActRequest::New(new_act(schedule(2, "2"), "run_id", 0)),
        ],
        0,
    );
    // One activity is dispatched, then cancelled while queued work remains.
    unwrap_dispatch(lam.next_pending(0));
    lam.enqueue(vec![LocalActRequest::Cancel(lam_id("run_id", 1))], 0);
    // With a cancel and a new item both ready, the cancel comes first.
    let task = unwrap_dispatch(lam.next_pending(0));
    assert!(matches!(task.variant, ActivityTaskVariant::Cancel(_)));
    // Only then is the queued activity served.
    let task2 = unwrap_dispatch(lam.next_pending(0));
    match task2.variant {
        ActivityTaskVariant::Start(s) => assert_eq!(s.activity_id, "2"),
        other => panic!("expected a start record, got {:?}", other),
    }
}

#[test]
fn retry_preserves_identity_and_changes_token() {
    let mut lam = LocalActivityManager::new(1, "fake_ns".to_string());
    let mut cmd = schedule(3, "act");
    cmd.attempt = 1;
    cmd.retry_policy = policy(Some(50), 1, None, 0);
    cmd.local_retry_threshold_ms = 500_000;
    lam.enqueue(vec![LocalActRequest::New(new_act(cmd, "run_id", 0))], 0);

    let first = unwrap_dispatch(lam.next_pending(0));
    let first_token = first.task_token;
    let action = lam.complete(
        first_token,
        &LocalActivityExecutionResult::Failed(None),
        0,
    );
    assert!(matches!(action, LACompleteAction::WillBeRetried));

    let id = lam_id("run_id", 3);
    lam.on_backoff_fired(&id, 50);
    let second = unwrap_dispatch(lam.next_pending(50));
    // The token is fresh, the external identity and record unchanged,
    // and the attempt advanced.
    assert_ne!(second.task_token, first_token);
    match (first.variant, second.variant) {
        (ActivityTaskVariant::Start(a), ActivityTaskVariant::Start(b)) => {
            assert_eq!(a.workflow_execution.run_id, b.workflow_execution.run_id);
            assert_eq!(a.activity_id, b.activity_id);
            assert_eq!(a.attempt, 1);
            assert_eq!(b.attempt, 2);
            assert_eq!(a.scheduled_time_ms, b.scheduled_time_ms);
            assert_eq!(
                a.current_attempt_scheduled_time_ms,
                b.current_attempt_scheduled_time_ms
            );
        }
        _ => panic!("expected two start records"),
    }
    // A completion against the stale token is untracked.
    let action = lam.complete(first_token, &LocalActivityExecutionResult::Completed, 50);
    assert!(matches!(action, LACompleteAction::Untracked));
    assert_eq!(lam.num_outstanding(), 1);
}

#[test]
fn cancel_during_backoff_round_trip() {
    let mut lam = LocalActivityManager::new(1, "fake_ns".to_string());
    let mut cmd = schedule(1, "1");
    cmd.attempt = 1;
    cmd.retry_policy = policy(Some(1_000), 1, None, 0);
    cmd.local_retry_threshold_ms = 5_000;
    lam.enqueue(vec![LocalActRequest::New(new_act(cmd, "run_id", 0))], 0);
    let task = unwrap_dispatch(lam.next_pending(0));
    let action = lam.complete(
        task.task_token,
        &LocalActivityExecutionResult::Failed(None),
        0,
    );
    assert!(matches!(action, LACompleteAction::WillBeRetried));
    let immediate = lam.enqueue(vec![LocalActRequest::Cancel(lam_id("run_id", 1))], 0);
    assert_eq!(immediate.len(), 1);
    assert!(matches!(
        immediate[0].result,
        LocalActivityExecutionResult::Cancelled
    ));
    assert_eq!(immediate[0].runtime_ms, 0);
    assert_eq!(immediate[0].attempt, 0);
    assert_eq!(lam.num_outstanding(), 0);
    assert_eq!(lam.num_in_backoff(), 0);
}

#[test]
fn start_to_close_runtime_measured_from_dispatch() {
    let mut lam = LocalActivityManager::new(1, "fake_ns".to_string());
    let mut cmd = schedule(1, "1");
    cmd.close_timeouts = LACloseTimeouts::StartOnly(100);
    lam.enqueue(vec![LocalActRequest::New(new_act(cmd, "run_id", 0))], 0);
    unwrap_dispatch(lam.next_pending(20));
    let id = lam_id("run_id", 1);
    // Armed at dispatch: the absolute deadline is 20 + 100.
    assert_eq!(lam.close_deadlines(&id), (None, Some(120)));
    lam.on_timer_fired(&id, TimeoutType::StartToClose, 150);
    match lam.next_pending(150) {
        NextPendingOutcome::Ready(DispatchOrTimeoutLA::Timeout { resolution, task, run_id }) => {
            assert_eq!(run_id, "run_id");
            assert!(matches!(
                resolution.result,
                LocalActivityExecutionResult::TimedOut(TimeoutType::StartToClose)
            ));
            assert_eq!(resolution.runtime_ms, 130);
            // The executor is asked to cancel the still-running attempt.
            match task {
                Some(t) => assert!(matches!(
                    t.variant,
                    ActivityTaskVariant::Cancel(ActivityCancelReason::TimedOut)
                )),
                None => panic!("expected a synthetic cancel record"),
            }
        }
        other => panic!("expected a timeout, got {:?}", other),
    }
}

#[test]
fn shutdown_waits_for_outstanding() {
    let mut lam = LocalActivityManager::new(2, "fake_ns".to_string());
    lam.enqueue(
        vec![LocalActRequest::New(new_act(schedule(1, "1"), "run_id", 0))],
        0,
    );
    let task = unwrap_dispatch(lam.next_pending(0));
    // Shutdown cannot finish while an activity is outstanding.
    assert!(!lam.try_shutdown());
    let action = lam.complete(
        task.task_token,
        &LocalActivityExecutionResult::Completed,
        0,
    );
    assert!(matches!(action, LACompleteAction::Report(_)));
    assert!(lam.try_shutdown());
    // The stream ends once shutdown completed and the queues are empty.
    assert!(matches!(
        lam.next_pending(0),
        NextPendingOutcome::ShutdownComplete
    ));
}

#[test]
fn stale_timer_fire_is_harmless() {
    let mut lam = LocalActivityManager::new(1, "fake_ns".to_string());
    let mut cmd = schedule(1, "1");
    cmd.close_timeouts = LACloseTimeouts::ScheduleOnly(100);
    lam.enqueue(vec![LocalActRequest::New(new_act(cmd, "run_id", 0))], 0);
    let task = unwrap_dispatch(lam.next_pending(0));
    let action = lam.complete(
        task.task_token,
        &LocalActivityExecutionResult::Completed,
        10,
    );
    assert!(matches!(action, LACompleteAction::Report(_)));
    // The activity is gone; a timer that fires late publishes nothing.
    let id = lam_id("run_id", 1);
    lam.on_timer_fired(&id, TimeoutType::ScheduleToClose, 200);
    assert_eq!(lam.num_cancels_queued(), 0);
    assert!(matches!(lam.next_pending(200), NextPendingOutcome::NothingReady));
}
