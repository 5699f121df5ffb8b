//! Data model of the local activity manager: identities, schedule records,
//! execution results, resolutions, and the records handed to the executor.
//!
//! Each executable type has a ghost view (`...View`) over `Seq`/plain values;
//! all contracts in this crate are stated over those views.

use vstd::prelude::*;

verus! {

// ---------------------------------------------------------------------------
// Activity identity
// ---------------------------------------------------------------------------

/// External identity of one local activity: the workflow run it belongs to
/// and its workflow-scoped scheduling sequence number.
#[derive(Clone, Debug)]
pub struct ExecutingLAId {
    pub run_id: String,
    pub seq_num: u32,
}

pub ghost struct IdView {
    pub run_id: Seq<char>,
    pub seq_num: u32,
}

impl View for ExecutingLAId {
    type V = IdView;

    open spec fn view(&self) -> IdView {
        IdView { run_id: self.run_id@, seq_num: self.seq_num }
    }
}

impl PartialEq for ExecutingLAId {
    fn eq(&self, other: &ExecutingLAId) -> (r: bool) {
        self.seq_num == other.seq_num && self.run_id == other.run_id
    }
}

impl vstd::std_specs::cmp::PartialEqSpecImpl for ExecutingLAId {
    open spec fn obeys_eq_spec() -> bool {
        true
    }

    open spec fn eq_spec(&self, other: &ExecutingLAId) -> bool {
        self@ == other@
    }
}

// ---------------------------------------------------------------------------
// Timeouts and retry policy inputs
// ---------------------------------------------------------------------------

/// The category of a timeout, measured from scheduling to dispatch, from
/// scheduling to completion, or from dispatch to completion.
#[derive(Clone, Copy, Debug, PartialEq, Eq, Structural)]
pub enum TimeoutType {
    ScheduleToStart,
    ScheduleToClose,
    StartToClose,
}

/// What an activity failure carries that retry evaluation reads: the error
/// type name and whether the failure itself forbids a retry.
#[derive(Clone, Debug)]
pub struct ApplicationFailure {
    pub failure_type: String,
    pub non_retryable: bool,
}

pub ghost struct ApplicationFailureView {
    pub failure_type: Seq<char>,
    pub non_retryable: bool,
}

impl View for ApplicationFailure {
    type V = ApplicationFailureView;

    open spec fn view(&self) -> ApplicationFailureView {
        ApplicationFailureView {
            failure_type: self.failure_type@,
            non_retryable: self.non_retryable,
        }
    }
}

/// Retry policy for one activity. Intervals are wall-clock milliseconds;
/// `maximum_attempts == 0` means unlimited; the backoff coefficient is the
/// integer factor applied per attempt.
#[derive(Debug)]
pub struct RetryPolicy {
    pub initial_interval_ms: Option<u64>,
    pub backoff_coefficient: u32,
    pub maximum_interval_ms: Option<u64>,
    pub maximum_attempts: u32,
    pub non_retryable_error_types: Vec<String>,
}

pub ghost struct RetryPolicyView {
    pub initial_interval_ms: Option<u64>,
    pub backoff_coefficient: u32,
    pub maximum_interval_ms: Option<u64>,
    pub maximum_attempts: u32,
    pub non_retryable_error_types: Seq<Seq<char>>,
}

impl View for RetryPolicy {
    type V = RetryPolicyView;

    open spec fn view(&self) -> RetryPolicyView {
        RetryPolicyView {
            initial_interval_ms: self.initial_interval_ms,
            backoff_coefficient: self.backoff_coefficient,
            maximum_interval_ms: self.maximum_interval_ms,
            maximum_attempts: self.maximum_attempts,
            non_retryable_error_types: self.non_retryable_error_types.deep_view(),
        }
    }
}

/// The close-timeout configuration of a schedule command, resolved at
/// admission into an optional (schedule-to-close, start-to-close) pair.
#[derive(Clone, Copy, Debug)]
pub enum LACloseTimeouts {
    Unset,
    ScheduleOnly(u64),
    StartOnly(u64),
    Both { sched_ms: u64, start_ms: u64 },
}

pub ghost enum CloseTimeoutsView {
    Unset,
    ScheduleOnly(u64),
    StartOnly(u64),
    Both { sched_ms: u64, start_ms: u64 },
}

impl View for LACloseTimeouts {
    type V = CloseTimeoutsView;

    open spec fn view(&self) -> CloseTimeoutsView {
        match self {
            LACloseTimeouts::Unset => CloseTimeoutsView::Unset,
            LACloseTimeouts::ScheduleOnly(s) => CloseTimeoutsView::ScheduleOnly(*s),
            LACloseTimeouts::StartOnly(s) => CloseTimeoutsView::StartOnly(*s),
            LACloseTimeouts::Both { sched_ms, start_ms } => CloseTimeoutsView::Both {
                sched_ms: *sched_ms,
                start_ms: *start_ms,
            },
        }
    }
}

impl CloseTimeoutsView {
    /// The (schedule-to-close, start-to-close) pair this variant resolves to.
    pub open spec fn sched_and_start(self) -> (Option<u64>, Option<u64>) {
        match self {
            CloseTimeoutsView::Unset => (None, None),
            CloseTimeoutsView::ScheduleOnly(s) => (Some(s), None),
            CloseTimeoutsView::StartOnly(s) => (None, Some(s)),
            CloseTimeoutsView::Both { sched_ms, start_ms } => (Some(sched_ms), Some(start_ms)),
        }
    }
}

impl LACloseTimeouts {
    /// Resolve into the optional (schedule-to-close, start-to-close) pair.
    pub fn into_sched_and_start(&self) -> (r: (Option<u64>, Option<u64>))
        ensures
            r == self@.sched_and_start(),
    {
        match self {
            LACloseTimeouts::Unset => (None, None),
            LACloseTimeouts::ScheduleOnly(s) => (Some(*s), None),
            LACloseTimeouts::StartOnly(s) => (None, Some(*s)),
            LACloseTimeouts::Both { sched_ms, start_ms } => (Some(*sched_ms), Some(*start_ms)),
        }
    }
}

// ---------------------------------------------------------------------------
// Schedule records
// ---------------------------------------------------------------------------

/// A validated schedule command for one local activity.
#[derive(Debug)]
pub struct ValidScheduleLA {
    pub seq: u32,
    pub activity_id: String,
    pub activity_type: String,
    /// Explicit attempt number; 0 or 1 means a fresh first attempt.
    pub attempt: u32,
    pub retry_policy: RetryPolicy,
    /// Backoffs at or under this stay inside the manager; longer ones are
    /// delegated to a durable workflow timer.
    pub local_retry_threshold_ms: u64,
    pub schedule_to_start_timeout_ms: Option<u64>,
    pub close_timeouts: LACloseTimeouts,
    pub headers: Vec<(String, Vec<u8>)>,
    pub arguments: Vec<Vec<u8>>,
}

pub ghost struct ValidScheduleLAView {
    pub seq: u32,
    pub activity_id: Seq<char>,
    pub activity_type: Seq<char>,
    pub attempt: u32,
    pub retry_policy: RetryPolicyView,
    pub local_retry_threshold_ms: u64,
    pub schedule_to_start_timeout_ms: Option<u64>,
    pub close_timeouts: CloseTimeoutsView,
    pub headers: Seq<(Seq<char>, Seq<u8>)>,
    pub arguments: Seq<Seq<u8>>,
}

impl View for ValidScheduleLA {
    type V = ValidScheduleLAView;

    open spec fn view(&self) -> ValidScheduleLAView {
        ValidScheduleLAView {
            seq: self.seq,
            activity_id: self.activity_id@,
            activity_type: self.activity_type@,
            attempt: self.attempt,
            retry_policy: self.retry_policy@,
            local_retry_threshold_ms: self.local_retry_threshold_ms,
            schedule_to_start_timeout_ms: self.schedule_to_start_timeout_ms,
            close_timeouts: self.close_timeouts@,
            headers: self.headers.deep_view(),
            arguments: self.arguments.deep_view(),
        }
    }
}

/// The workflow execution an activity belongs to.
#[derive(Debug)]
pub struct WorkflowExecution {
    pub workflow_id: String,
    pub run_id: String,
}

pub ghost struct WorkflowExecutionView {
    pub workflow_id: Seq<char>,
    pub run_id: Seq<char>,
}

impl View for WorkflowExecution {
    type V = WorkflowExecutionView;

    open spec fn view(&self) -> WorkflowExecutionView {
        WorkflowExecutionView { workflow_id: self.workflow_id@, run_id: self.run_id@ }
    }
}

/// A request to run a new local activity: the schedule command plus the
/// workflow context and the wall-clock instant it was scheduled at.
#[derive(Debug)]
pub struct NewLocalAct {
    pub schedule_cmd: ValidScheduleLA,
    pub workflow_type: String,
    pub workflow_exec_info: WorkflowExecution,
    pub schedule_time_ms: u64,
}

pub ghost struct NewLocalActView {
    pub schedule_cmd: ValidScheduleLAView,
    pub workflow_type: Seq<char>,
    pub workflow_exec_info: WorkflowExecutionView,
    pub schedule_time_ms: u64,
}

impl View for NewLocalAct {
    type V = NewLocalActView;

    open spec fn view(&self) -> NewLocalActView {
        NewLocalActView {
            schedule_cmd: self.schedule_cmd@,
            workflow_type: self.workflow_type@,
            workflow_exec_info: self.workflow_exec_info@,
            schedule_time_ms: self.schedule_time_ms,
        }
    }
}

impl NewLocalActView {
    /// The external identity of this request.
    pub open spec fn id(self) -> IdView {
        IdView { run_id: self.workflow_exec_info.run_id, seq_num: self.schedule_cmd.seq }
    }
}

impl NewLocalAct {
    /// Extract the external identity of this request.
    pub fn executing_id(&self) -> (r: ExecutingLAId)
        ensures
            r@ == self@.id(),
    {
        ExecutingLAId {
            run_id: self.workflow_exec_info.run_id.clone(),
            seq_num: self.schedule_cmd.seq,
        }
    }
}

/// One admission request: schedule a new activity, or cancel one by id.
#[derive(Clone, Debug)]
pub enum LocalActRequest {
    New(NewLocalAct),
    Cancel(ExecutingLAId),
}

pub ghost enum LocalActRequestView {
    New(NewLocalActView),
    Cancel(IdView),
}

impl View for LocalActRequest {
    type V = LocalActRequestView;

    open spec fn view(&self) -> LocalActRequestView {
        match self {
            LocalActRequest::New(a) => LocalActRequestView::New(a@),
            LocalActRequest::Cancel(id) => LocalActRequestView::Cancel(id@),
        }
    }
}

// ---------------------------------------------------------------------------
// Execution results and resolutions
// ---------------------------------------------------------------------------

/// The outcome the executor reports for one dispatched attempt. Only
/// `Failed` may trigger a retry; a timeout is terminal at this level.
#[derive(Clone, Debug)]
pub enum LocalActivityExecutionResult {
    Completed,
    Failed(Option<ApplicationFailure>),
    TimedOut(TimeoutType),
    Cancelled,
}

pub ghost enum ExecutionResultView {
    Completed,
    Failed(Option<ApplicationFailureView>),
    TimedOut(TimeoutType),
    Cancelled,
}

impl View for LocalActivityExecutionResult {
    type V = ExecutionResultView;

    open spec fn view(&self) -> ExecutionResultView {
        match self {
            LocalActivityExecutionResult::Completed => ExecutionResultView::Completed,
            LocalActivityExecutionResult::Failed(f) => ExecutionResultView::Failed(
                match f {
                    Some(af) => Some(af@),
                    None => None,
                },
            ),
            LocalActivityExecutionResult::TimedOut(t) => ExecutionResultView::TimedOut(*t),
            LocalActivityExecutionResult::Cancelled => ExecutionResultView::Cancelled,
        }
    }
}

impl LocalActivityExecutionResult {
    /// A cancellation outcome with no details.
    pub fn empty_cancel() -> (r: Self)
        ensures
            r@ == ExecutionResultView::Cancelled,
    {
        Self::Cancelled
    }

    /// A timeout outcome of the given category.
    pub fn timeout(tt: TimeoutType) -> (r: Self)
        ensures
            r@ == ExecutionResultView::TimedOut(tt),
    {
        Self::TimedOut(tt)
    }
}

/// The record returned to the workflow layer when an activity resolves.
#[derive(Clone, Debug)]
pub struct LocalActivityResolution {
    pub seq: u32,
    pub result: LocalActivityExecutionResult,
    pub runtime_ms: u64,
    pub attempt: u32,
    pub backoff_ms: Option<u64>,
    pub original_schedule_time_ms: Option<u64>,
}

pub ghost struct ResolutionView {
    pub seq: u32,
    pub result: ExecutionResultView,
    pub runtime_ms: u64,
    pub attempt: u32,
    pub backoff_ms: Option<u64>,
    pub original_schedule_time_ms: Option<u64>,
}

impl View for LocalActivityResolution {
    type V = ResolutionView;

    open spec fn view(&self) -> ResolutionView {
        ResolutionView {
            seq: self.seq,
            result: self.result@,
            runtime_ms: self.runtime_ms,
            attempt: self.attempt,
            backoff_ms: self.backoff_ms,
            original_schedule_time_ms: self.original_schedule_time_ms,
        }
    }
}

// ---------------------------------------------------------------------------
// Records handed to the executor
// ---------------------------------------------------------------------------

/// Why a cancel record is being sent to the executor.
#[derive(Clone, Copy, Debug, PartialEq, Eq, Structural)]
pub enum ActivityCancelReason {
    Cancelled,
    TimedOut,
}

/// The full dispatch record for starting one activity attempt.
#[derive(Clone, Debug)]
pub struct StartTask {
    pub workflow_namespace: String,
    pub workflow_type: String,
    pub workflow_execution: WorkflowExecution,
    pub activity_id: String,
    pub activity_type: String,
    pub header_fields: Vec<(String, Vec<u8>)>,
    pub input: Vec<Vec<u8>>,
    pub scheduled_time_ms: u64,
    pub current_attempt_scheduled_time_ms: u64,
    pub started_time_ms: u64,
    pub attempt: u32,
    pub schedule_to_close_timeout_ms: Option<u64>,
    pub start_to_close_timeout_ms: Option<u64>,
    pub retry_policy: RetryPolicy,
    pub is_local: bool,
}

pub ghost struct StartTaskView {
    pub workflow_namespace: Seq<char>,
    pub workflow_type: Seq<char>,
    pub workflow_execution: WorkflowExecutionView,
    pub activity_id: Seq<char>,
    pub activity_type: Seq<char>,
    pub header_fields: Seq<(Seq<char>, Seq<u8>)>,
    pub input: Seq<Seq<u8>>,
    pub scheduled_time_ms: u64,
    pub current_attempt_scheduled_time_ms: u64,
    pub started_time_ms: u64,
    pub attempt: u32,
    pub schedule_to_close_timeout_ms: Option<u64>,
    pub start_to_close_timeout_ms: Option<u64>,
    pub retry_policy: RetryPolicyView,
    pub is_local: bool,
}

impl View for StartTask {
    type V = StartTaskView;

    open spec fn view(&self) -> StartTaskView {
        StartTaskView {
            workflow_namespace: self.workflow_namespace@,
            workflow_type: self.workflow_type@,
            workflow_execution: self.workflow_execution@,
            activity_id: self.activity_id@,
            activity_type: self.activity_type@,
            header_fields: self.header_fields.deep_view(),
            input: self.input.deep_view(),
            scheduled_time_ms: self.scheduled_time_ms,
            current_attempt_scheduled_time_ms: self.current_attempt_scheduled_time_ms,
            started_time_ms: self.started_time_ms,
            attempt: self.attempt,
            schedule_to_close_timeout_ms: self.schedule_to_close_timeout_ms,
            start_to_close_timeout_ms: self.start_to_close_timeout_ms,
            retry_policy: self.retry_policy@,
            is_local: self.is_local,
        }
    }
}

/// What one record to the executor asks of it.
#[derive(Clone, Debug)]
pub enum ActivityTaskVariant {
    Start(StartTask),
    Cancel(ActivityCancelReason),
}

pub ghost enum ActivityTaskVariantView {
    Start(StartTaskView),
    Cancel(ActivityCancelReason),
}

impl View for ActivityTaskVariant {
    type V = ActivityTaskVariantView;

    open spec fn view(&self) -> ActivityTaskVariantView {
        match self {
            ActivityTaskVariant::Start(s) => ActivityTaskVariantView::Start(s@),
            ActivityTaskVariant::Cancel(r) => ActivityTaskVariantView::Cancel(*r),
        }
    }
}

/// One record to the executor, addressed by task token.
#[derive(Clone, Debug)]
pub struct ActivityTask {
    pub task_token: u32,
    pub variant: ActivityTaskVariant,
}

pub ghost struct ActivityTaskView {
    pub task_token: u32,
    pub variant: ActivityTaskVariantView,
}

impl View for ActivityTask {
    type V = ActivityTaskView;

    open spec fn view(&self) -> ActivityTaskView {
        ActivityTaskView { task_token: self.task_token, variant: self.variant@ }
    }
}

// ---------------------------------------------------------------------------
// Manager outputs
// ---------------------------------------------------------------------------

/// What one dispatched-but-uncompleted activity attempt holds.
#[derive(Clone, Debug)]
pub struct LocalInFlightActInfo {
    pub la_info: NewLocalAct,
    pub dispatch_time_ms: u64,
    pub attempt: u32,
}

pub ghost struct InFlightView {
    pub la_info: NewLocalActView,
    pub dispatch_time_ms: u64,
    pub attempt: u32,
}

impl View for LocalInFlightActInfo {
    type V = InFlightView;

    open spec fn view(&self) -> InFlightView {
        InFlightView {
            la_info: self.la_info@,
            dispatch_time_ms: self.dispatch_time_ms,
            attempt: self.attempt,
        }
    }
}

/// The manager's answer to a completion report.
#[derive(Debug)]
pub enum LACompleteAction {
    /// Report the outcome to the workflow; the activity is done here.
    Report(LocalInFlightActInfo),
    /// Report the failure and let the workflow run a durable backoff timer
    /// of the given length before re-submitting.
    LangDoesTimerBackoff(u64, LocalInFlightActInfo),
    /// The activity will be retried locally; report nothing yet.
    WillBeRetried,
    /// The token matched no outstanding activity.
    Untracked,
}

pub ghost enum CompleteActionView {
    Report(InFlightView),
    LangDoesTimerBackoff(u64, InFlightView),
    WillBeRetried,
    Untracked,
}

impl View for LACompleteAction {
    type V = CompleteActionView;

    open spec fn view(&self) -> CompleteActionView {
        match self {
            LACompleteAction::Report(i) => CompleteActionView::Report(i@),
            LACompleteAction::LangDoesTimerBackoff(d, i) => CompleteActionView::LangDoesTimerBackoff(
                *d,
                i@,
            ),
            LACompleteAction::WillBeRetried => CompleteActionView::WillBeRetried,
            LACompleteAction::Untracked => CompleteActionView::Untracked,
        }
    }
}

/// What the multiplexer hands the caller: a record for the executor, or a
/// timeout resolution (possibly with a synthetic cancel record).
#[derive(Clone, Debug)]
pub enum DispatchOrTimeoutLA {
    Dispatch(ActivityTask),
    Timeout {
        run_id: String,
        resolution: LocalActivityResolution,
        task: Option<ActivityTask>,
    },
}

pub ghost enum DispatchOrTimeoutView {
    Dispatch(ActivityTaskView),
    Timeout { run_id: Seq<char>, resolution: ResolutionView, task: Option<ActivityTaskView> },
}

impl View for DispatchOrTimeoutLA {
    type V = DispatchOrTimeoutView;

    open spec fn view(&self) -> DispatchOrTimeoutView {
        match self {
            DispatchOrTimeoutLA::Dispatch(t) => DispatchOrTimeoutView::Dispatch(t@),
            DispatchOrTimeoutLA::Timeout { run_id, resolution, task } => DispatchOrTimeoutView::Timeout {
                run_id: run_id@,
                resolution: resolution@,
                task: match task {
                    Some(t) => Some(t@),
                    None => None,
                },
            },
        }
    }
}

/// The outcome of one poll of the multiplexer.
#[derive(Clone, Debug)]
pub enum NextPendingOutcome {
    /// An event is ready for the caller.
    Ready(DispatchOrTimeoutLA),
    /// Nothing can be emitted now: the queues are empty, or new work is
    /// gated on a permit. The embedding should wait for a state change.
    NothingReady,
    /// Shutdown has completed and no events remain.
    ShutdownComplete,
}

pub ghost enum NextPendingOutcomeView {
    Ready(DispatchOrTimeoutView),
    NothingReady,
    ShutdownComplete,
}

impl View for NextPendingOutcome {
    type V = NextPendingOutcomeView;

    open spec fn view(&self) -> NextPendingOutcomeView {
        match self {
            NextPendingOutcome::Ready(d) => NextPendingOutcomeView::Ready(d@),
            NextPendingOutcome::NothingReady => NextPendingOutcomeView::NothingReady,
            NextPendingOutcome::ShutdownComplete => NextPendingOutcomeView::ShutdownComplete,
        }
    }
}

// ---------------------------------------------------------------------------
// Internal queue items
// ---------------------------------------------------------------------------

/// An item on the new/retry queue: a fresh admission or a retried attempt.
#[derive(Clone, Debug)]
pub enum NewOrRetry {
    New(NewLocalAct),
    Retry { in_flight: NewLocalAct, attempt: u32 },
}

pub ghost enum NewOrRetryView {
    New(NewLocalActView),
    Retry { in_flight: NewLocalActView, attempt: u32 },
}

impl View for NewOrRetry {
    type V = NewOrRetryView;

    open spec fn view(&self) -> NewOrRetryView {
        match self {
            NewOrRetry::New(a) => NewOrRetryView::New(a@),
            NewOrRetry::Retry { in_flight, attempt } => NewOrRetryView::Retry {
                in_flight: in_flight@,
                attempt: *attempt,
            },
        }
    }
}

// ---------------------------------------------------------------------------
// Cloning with known views
// ---------------------------------------------------------------------------

/// Copy a byte vector.
fn clone_bytes(v: &Vec<u8>) -> (r: Vec<u8>)
    ensures
        r@ == v@,
{
    let mut r: Vec<u8> = Vec::new();
    let mut i: usize = 0;
    while i < v.len()
        invariant
            i <= v@.len(),
            r@ == v@.subrange(0, i as int),
        decreases v@.len() - i,
    {
        r.push(v[i]);
        i = i + 1;
        proof {
            assert(r@ =~= v@.subrange(0, i as int));
        }
    }
    proof {
        assert(r@ =~= v@);
    }
    r
}

/// Copy a vector of byte vectors.
fn clone_byte_vecs(v: &Vec<Vec<u8>>) -> (r: Vec<Vec<u8>>)
    ensures
        r.deep_view() == v.deep_view(),
{
    let mut r: Vec<Vec<u8>> = Vec::new();
    let mut i: usize = 0;
    while i < v.len()
        invariant
            i <= v@.len(),
            r@.len() == i,
            forall|j: int| 0 <= j < i ==> (#[trigger] r@[j])@ == v@[j]@,
        decreases v@.len() - i,
    {
        r.push(clone_bytes(&v[i]));
        i = i + 1;
    }
    proof {
        assert(r.deep_view() =~~= v.deep_view());
    }
    r
}

/// Copy a vector of strings.
fn clone_strings(v: &Vec<String>) -> (r: Vec<String>)
    ensures
        r.deep_view() == v.deep_view(),
{
    let mut r: Vec<String> = Vec::new();
    let mut i: usize = 0;
    while i < v.len()
        invariant
            i <= v@.len(),
            r@.len() == i,
            forall|j: int| 0 <= j < i ==> (#[trigger] r@[j])@ == v@[j]@,
        decreases v@.len() - i,
    {
        r.push(v[i].clone());
        i = i + 1;
    }
    proof {
        assert(r.deep_view() =~~= v.deep_view());
    }
    r
}

/// Copy a header list.
fn clone_headers(v: &Vec<(String, Vec<u8>)>) -> (r: Vec<(String, Vec<u8>)>)
    ensures
        r.deep_view() == v.deep_view(),
{
    let mut r: Vec<(String, Vec<u8>)> = Vec::new();
    let mut i: usize = 0;
    while i < v.len()
        invariant
            i <= v@.len(),
            r@.len() == i,
            forall|j: int|
                0 <= j < i ==> (#[trigger] r@[j]).0@ == v@[j].0@ && r@[j].1@ == v@[j].1@,
        decreases v@.len() - i,
    {
        let name = v[i].0.clone();
        let value = clone_bytes(&v[i].1);
        r.push((name, value));
        i = i + 1;
    }
    proof {
        assert(r.deep_view() =~~= v.deep_view());
    }
    r
}

impl Clone for RetryPolicy {
    /// Copy the policy; the copy has the same view.
    fn clone(&self) -> (r: Self)
        ensures
            r@ == self@,
    {
        RetryPolicy {
            initial_interval_ms: self.initial_interval_ms,
            backoff_coefficient: self.backoff_coefficient,
            maximum_interval_ms: self.maximum_interval_ms,
            maximum_attempts: self.maximum_attempts,
            non_retryable_error_types: clone_strings(&self.non_retryable_error_types),
        }
    }
}

impl Clone for WorkflowExecution {
    /// Copy the execution reference; the copy equals the original.
    fn clone(&self) -> (r: Self)
        ensures
            r == *self,
    {
        WorkflowExecution {
            workflow_id: self.workflow_id.clone(),
            run_id: self.run_id.clone(),
        }
    }
}

impl Clone for ValidScheduleLA {
    /// Copy the schedule command; the copy has the same view.
    fn clone(&self) -> (r: Self)
        ensures
            r@ == self@,
    {
        ValidScheduleLA {
            seq: self.seq,
            activity_id: self.activity_id.clone(),
            activity_type: self.activity_type.clone(),
            attempt: self.attempt,
            retry_policy: self.retry_policy.clone(),
            local_retry_threshold_ms: self.local_retry_threshold_ms,
            schedule_to_start_timeout_ms: self.schedule_to_start_timeout_ms,
            close_timeouts: self.close_timeouts,
            headers: clone_headers(&self.headers),
            arguments: clone_byte_vecs(&self.arguments),
        }
    }
}

impl Clone for NewLocalAct {
    /// Copy the request; the copy has the same view.
    fn clone(&self) -> (r: Self)
        ensures
            r@ == self@,
    {
        NewLocalAct {
            schedule_cmd: self.schedule_cmd.clone(),
            workflow_type: self.workflow_type.clone(),
            workflow_exec_info: self.workflow_exec_info.clone(),
            schedule_time_ms: self.schedule_time_ms,
        }
    }
}

impl NewOrRetryView {
    /// The request record inside this item.
    pub open spec fn record(self) -> NewLocalActView {
        match self {
            NewOrRetryView::New(a) => a,
            NewOrRetryView::Retry { in_flight, .. } => in_flight,
        }
    }

    /// The identity this item is for.
    pub open spec fn id(self) -> IdView {
        self.record().id()
    }

    /// The attempt number this item dispatches as: the explicit attempt
    /// (at least 1) for a fresh admission, the carried one for a retry.
    pub open spec fn attempt(self) -> u32 {
        match self {
            NewOrRetryView::New(a) => if a.schedule_cmd.attempt >= 1 {
                a.schedule_cmd.attempt
            } else {
                1u32
            },
            NewOrRetryView::Retry { attempt, .. } => attempt,
        }
    }
}

/// An item on the cancel/timeout queue.
#[derive(Clone, Debug)]
pub enum CancelOrTimeout {
    Cancel(ActivityTask),
    Timeout { run_id: String, resolution: LocalActivityResolution, dispatch_cancel: bool },
}

pub ghost enum CancelOrTimeoutView {
    Cancel(ActivityTaskView),
    Timeout { run_id: Seq<char>, resolution: ResolutionView, dispatch_cancel: bool },
}

impl View for CancelOrTimeout {
    type V = CancelOrTimeoutView;

    open spec fn view(&self) -> CancelOrTimeoutView {
        match self {
            CancelOrTimeout::Cancel(t) => CancelOrTimeoutView::Cancel(t@),
            CancelOrTimeout::Timeout { run_id, resolution, dispatch_cancel } => CancelOrTimeoutView::Timeout {
                run_id: run_id@,
                resolution: resolution@,
                dispatch_cancel: *dispatch_cancel,
            },
        }
    }
}

} // verus!
