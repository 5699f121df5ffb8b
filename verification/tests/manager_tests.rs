use local_activities::manager::LocalActivityManager;
use local_activities::types::ActivityCancelReason;
use local_activities::types::ActivityTask;
use local_activities::types::ActivityTaskVariant;
use local_activities::types::ApplicationFailure;
use local_activities::types::DispatchOrTimeoutLA;
use local_activities::types::ExecutingLAId;
use local_activities::types::LACloseTimeouts;
use local_activities::types::LACompleteAction;
use local_activities::types::LocalActRequest;
use local_activities::types::LocalActivityExecutionResult;
use local_activities::types::NewLocalAct;
use local_activities::types::NextPendingOutcome;
use local_activities::types::RetryPolicy;
use local_activities::types::TimeoutType;
use local_activities::types::ValidScheduleLA;
use local_activities::types::WorkflowExecution;

fn default_policy() -> RetryPolicy {
    RetryPolicy {
        initial_interval_ms: None,
        backoff_coefficient: 0,
        maximum_interval_ms: None,
        maximum_attempts: 0,
        non_retryable_error_types: vec![],
    }
}

fn schedule(seq: u32, activity_id: &str) -> ValidScheduleLA {
    ValidScheduleLA {
        seq,
        activity_id: activity_id.to_string(),
        activity_type: String::new(),
        attempt: 0,
        retry_policy: default_policy(),
        local_retry_threshold_ms: 0,
        schedule_to_start_timeout_ms: None,
        close_timeouts: LACloseTimeouts::Unset,
        headers: vec![],
        arguments: vec![],
    }
}

fn new_act(cmd: ValidScheduleLA, run_id: &str, schedule_time_ms: u64) -> NewLocalAct {
    NewLocalAct {
        schedule_cmd: cmd,
        workflow_type: String::new(),
        workflow_exec_info: WorkflowExecution {
            workflow_id: String::new(),
            run_id: run_id.to_string(),
        },
        schedule_time_ms,
    }
}

fn unwrap_dispatch(outcome: NextPendingOutcome) -> ActivityTask {
    match outcome {
        NextPendingOutcome::Ready(DispatchOrTimeoutLA::Dispatch(t)) => t,
        other => panic!("expected a dispatch, got {:?}", other),
    }
}

fn lam_id(run_id: &str, seq_num: u32) -> ExecutingLAId {
    ExecutingLAId { run_id: run_id.to_string(), seq_num }
}

#[test]
fn max_concurrent_respected() {
    let mut lam = LocalActivityManager::new(1, "fake_ns".to_string());
    let reqs: Vec<LocalActRequest> = (1..=50u32)
        .map(|i| LocalActRequest::New(new_act(schedule(i, &i.to_string()), "", 0)))
        .collect();
    let immediate = lam.enqueue(reqs, 0);
    assert!(immediate.is_empty());
    for i in 1..=50u32 {
        let task = unwrap_dispatch(lam.next_pending(0));
        match &task.variant {
            ActivityTaskVariant::Start(start) => {
                assert_eq!(start.activity_id, i.to_string());
            }
            other => panic!("expected a start record, got {:?}", other),
        }
        // With the single permit held, the next poll must not dispatch.
        assert!(matches!(lam.next_pending(0), NextPendingOutcome::NothingReady));
        let action = lam.complete(
            task.task_token,
            &LocalActivityExecutionResult::Completed,
            0,
        );
        assert!(matches!(action, LACompleteAction::Report(_)));
    }
    assert_eq!(lam.num_outstanding(), 0);
}

#[test]
fn no_work_doesnt_deadlock_with_complete() {
    let mut lam = LocalActivityManager::new(5, "fake_ns".to_string());
    lam.enqueue(
        vec![LocalActRequest::New(new_act(schedule(1, "1"), "", 0))],
        0,
    );
    let task = unwrap_dispatch(lam.next_pending(0));
    // With no work left, polling yields instead of blocking, so a
    // completion can always be processed.
    assert!(matches!(lam.next_pending(0), NextPendingOutcome::NothingReady));
    let action = lam.complete(
        task.task_token,
        &LocalActivityExecutionResult::Completed,
        0,
    );
    assert!(matches!(action, LACompleteAction::Report(_)));
    assert_eq!(lam.num_outstanding(), 0);
}

#[test]
fn can_cancel_in_flight() {
    let mut lam = LocalActivityManager::new(5, "fake_ns".to_string());
    lam.enqueue(
        vec![LocalActRequest::New(new_act(schedule(1, "1"), "run_id", 0))],
        0,
    );
    unwrap_dispatch(lam.next_pending(0));

    lam.enqueue(vec![LocalActRequest::Cancel(lam_id("run_id", 1))], 0);
    let task = unwrap_dispatch(lam.next_pending(0));
    match task.variant {
        ActivityTaskVariant::Cancel(reason) => {
            assert_eq!(reason, ActivityCancelReason::Cancelled);
        }
        other => panic!("expected a cancel record, got {:?}", other),
    }
    // The executor still owes a completion.
    assert_eq!(lam.num_outstanding(), 1);
}

#[test]
fn respects_timer_backoff_threshold() {
    let mut lam = LocalActivityManager::new(1, "fake_ns".to_string());
    let mut cmd = schedule(1, "1");
    cmd.attempt = 5;
    cmd.retry_policy = RetryPolicy {
        initial_interval_ms: Some(1_000),
        backoff_coefficient: 10,
        maximum_interval_ms: Some(10_000),
        maximum_attempts: 10,
        non_retryable_error_types: vec![],
    };
    cmd.local_retry_threshold_ms = 5_000;
    lam.enqueue(vec![LocalActRequest::New(new_act(cmd, "", 0))], 0);

    let task = unwrap_dispatch(lam.next_pending(0));
    let action = lam.complete(
        task.task_token,
        &LocalActivityExecutionResult::Failed(None),
        0,
    );
    match action {
        LACompleteAction::LangDoesTimerBackoff(backoff_ms, info) => {
            assert_eq!(backoff_ms, 10_000);
            assert_eq!(info.attempt, 5);
        }
        other => panic!("expected a timer backoff, got {:?}", other),
    }
}

#[test]
fn respects_non_retryable_error_types() {
    let mut lam = LocalActivityManager::new(1, "fake_ns".to_string());
    let mut cmd = schedule(1, "1");
    cmd.attempt = 1;
    cmd.retry_policy = RetryPolicy {
        initial_interval_ms: Some(1_000),
        backoff_coefficient: 10,
        maximum_interval_ms: Some(10_000),
        maximum_attempts: 10,
        non_retryable_error_types: vec!["TestError".to_string()],
    };
    cmd.local_retry_threshold_ms = 5_000;
    lam.enqueue(vec![LocalActRequest::New(new_act(cmd, "", 0))], 0);

    let task = unwrap_dispatch(lam.next_pending(0));
    let action = lam.complete(
        task.task_token,
        &LocalActivityExecutionResult::Failed(Some(ApplicationFailure {
            failure_type: "TestError".to_string(),
            non_retryable: false,
        })),
        0,
    );
    assert!(matches!(action, LACompleteAction::Report(_)));
}

#[test]
fn can_cancel_during_local_backoff() {
    let mut lam = LocalActivityManager::new(1, "fake_ns".to_string());
    let mut cmd = schedule(1, "1");
    cmd.attempt = 5;
    cmd.retry_policy = RetryPolicy {
        initial_interval_ms: Some(10_000),
        backoff_coefficient: 1,
        maximum_interval_ms: Some(10_000),
        maximum_attempts: 10,
        non_retryable_error_types: vec![],
    };
    cmd.local_retry_threshold_ms = 500_000;
    lam.enqueue(vec![LocalActRequest::New(new_act(cmd, "run_id", 0))], 0);

    let task = unwrap_dispatch(lam.next_pending(0));
    let action = lam.complete(
        task.task_token,
        &LocalActivityExecutionResult::Failed(None),
        0,
    );
    assert!(matches!(action, LACompleteAction::WillBeRetried));
    assert_eq!(lam.num_in_backoff(), 1);

    // Cancel the activity, which is performing local backoff.
    let immediate = lam.enqueue(vec![LocalActRequest::Cancel(lam_id("run_id", 1))], 0);
    assert_eq!(lam.num_in_backoff(), 0);
    assert_eq!(lam.num_outstanding(), 0);
    assert_eq!(immediate.len(), 1);
    assert!(matches!(
        immediate[0].result,
        LocalActivityExecutionResult::Cancelled
    ));
}

#[test]
fn local_backoff_clears_handle_map_when_started() {
    let mut lam = LocalActivityManager::new(1, "fake_ns".to_string());
    let mut cmd = schedule(1, "1");
    cmd.attempt = 5;
    cmd.retry_policy = RetryPolicy {
        initial_interval_ms: Some(10),
        backoff_coefficient: 1,
        maximum_interval_ms: None,
        maximum_attempts: 0,
        non_retryable_error_types: vec![],
    };
    cmd.local_retry_threshold_ms = 500_000;
    lam.enqueue(vec![LocalActRequest::New(new_act(cmd, "run_id", 0))], 0);

    let task = unwrap_dispatch(lam.next_pending(0));
    let action = lam.complete(
        task.task_token,
        &LocalActivityExecutionResult::Failed(None),
        0,
    );
    assert!(matches!(action, LACompleteAction::WillBeRetried));

    let id = lam_id("run_id", 1);
    assert_eq!(lam.backoff_fire_at(&id), Some(10));
    lam.on_backoff_fired(&id, 10);
    unwrap_dispatch(lam.next_pending(10));
    assert_eq!(lam.num_in_backoff(), 0);
    assert_eq!(lam.num_outstanding(), 1);
}

#[test]
fn sched_to_start_timeout() {
    let mut lam = LocalActivityManager::new(1, "fake_ns".to_string());
    let mut cmd = schedule(1, "1");
    cmd.attempt = 5;
    cmd.retry_policy = RetryPolicy {
        initial_interval_ms: Some(10),
        backoff_coefficient: 1,
        maximum_interval_ms: None,
        maximum_attempts: 0,
        non_retryable_error_types: vec![],
    };
    cmd.local_retry_threshold_ms = 500_000;
    cmd.schedule_to_start_timeout_ms = Some(100);
    lam.enqueue(vec![LocalActRequest::New(new_act(cmd, "run_id", 0))], 0);

    // Poll only after more than the timeout has passed.
    match lam.next_pending(110) {
        NextPendingOutcome::Ready(DispatchOrTimeoutLA::Timeout { resolution, task, .. }) => {
            assert!(matches!(
                resolution.result,
                LocalActivityExecutionResult::TimedOut(TimeoutType::ScheduleToStart)
            ));
            assert_eq!(resolution.runtime_ms, 110);
            assert!(task.is_none());
        }
        other => panic!("expected a timeout, got {:?}", other),
    }
    assert_eq!(lam.num_in_backoff(), 0);
    assert_eq!(lam.num_outstanding(), 0);
}

#[test]
fn local_x_to_close_timeout() {
    for is_schedule in [true, false] {
        let mut lam = LocalActivityManager::new(1, "fake_ns".to_string());
        let mut cmd = schedule(1, "1");
        cmd.attempt = 5;
        cmd.retry_policy = RetryPolicy {
            initial_interval_ms: Some(10),
            backoff_coefficient: 1,
            maximum_interval_ms: None,
            maximum_attempts: 0,
            non_retryable_error_types: vec![],
        };
        cmd.local_retry_threshold_ms = 500_000;
        cmd.close_timeouts = if is_schedule {
            LACloseTimeouts::ScheduleOnly(100)
        } else {
            LACloseTimeouts::StartOnly(100)
        };
        lam.enqueue(vec![LocalActRequest::New(new_act(cmd, "run_id", 0))], 0);

        unwrap_dispatch(lam.next_pending(0));
        assert_eq!(lam.num_in_backoff(), 0);
        assert_eq!(lam.num_outstanding(), 1);

        let id = lam_id("run_id", 1);
        let kind = if is_schedule {
            TimeoutType::ScheduleToClose
        } else {
            TimeoutType::StartToClose
        };
        lam.on_timer_fired(&id, kind, 110);
        match lam.next_pending(110) {
            NextPendingOutcome::Ready(DispatchOrTimeoutLA::Timeout { resolution, .. }) => {
                assert!(matches!(
                    resolution.result,
                    LocalActivityExecutionResult::TimedOut(_)
                ));
            }
            other => panic!("expected a timeout, got {:?}", other),
        }
        assert_eq!(lam.num_outstanding(), 0);
    }
}

#[test]
fn idempotency_enforced() {
    let mut lam = LocalActivityManager::new(10, "fake_ns".to_string());
    let act = new_act(schedule(1, "1"), "run_id", 0);
    let act_again = new_act(schedule(1, "1"), "run_id", 0);
    let act_third = new_act(schedule(1, "1"), "run_id", 0);
    // Only one of two identical admissions gets queued.
    lam.enqueue(
        vec![
            LocalActRequest::New(act),
            LocalActRequest::New(act_again),
        ],
        0,
    );
    unwrap_dispatch(lam.next_pending(0));
    assert_eq!(lam.num_outstanding(), 1);
    assert_eq!(lam.num_queued(), 0);

    // Enqueuing the same activity while it is outstanding adds nothing.
    lam.enqueue(vec![LocalActRequest::New(act_third)], 0);
    assert_eq!(lam.num_outstanding(), 1);
    assert_eq!(lam.num_queued(), 0);
}
