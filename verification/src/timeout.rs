//! The timeout bag: the per-activity close timers.
//!
//! One bag holds up to two wall-clock timers for one admitted activity: the
//! schedule-to-close deadline, armed at admission with the time already
//! elapsed since scheduling subtracted, and the start-to-close duration,
//! held dormant until the activity is dispatched. Timers are plain
//! deadlines; the embedding fires them through the manager once they pass.

use vstd::prelude::*;

use crate::types::ExecutionResultView;
use crate::types::LocalActivityResolution;
use crate::types::NewLocalAct;
use crate::types::NewLocalActView;
use crate::types::ResolutionView;
use crate::types::TimeoutType;

verus! {

/// Wall-clock time passed since `then`, zero if the clock ran backwards.
pub open spec fn elapsed_since(now: u64, then: u64) -> u64 {
    if now >= then {
        (now - then) as u64
    } else {
        0
    }
}

/// The close timers of one admitted activity.
#[derive(Clone, Debug)]
pub struct TimeoutBag {
    /// Run id of the activity the bag was built for.
    pub run_id: String,
    /// Sequence number of the activity the bag was built for.
    pub seq: u32,
    /// Attempt number carried on timeout resolutions: the explicit attempt
    /// of the admission.
    pub attempt: u32,
    /// Original schedule instant, carried on timeout resolutions.
    pub original_schedule_time_ms: u64,
    /// Absolute schedule-to-close deadline; disarmed once fired.
    pub sched_to_close_deadline_ms: Option<u64>,
    /// Start-to-close duration, dormant until dispatch; disarmed once fired.
    pub start_to_close_dur_ms: Option<u64>,
    /// Instant of the first dispatch, set once; arms start-to-close.
    pub started_at_ms: Option<u64>,
}

pub ghost struct TimeoutBagView {
    pub run_id: Seq<char>,
    pub seq: u32,
    pub attempt: u32,
    pub original_schedule_time_ms: u64,
    pub sched_to_close_deadline_ms: Option<u64>,
    pub start_to_close_dur_ms: Option<u64>,
    pub started_at_ms: Option<u64>,
}

impl View for TimeoutBag {
    type V = TimeoutBagView;

    open spec fn view(&self) -> TimeoutBagView {
        TimeoutBagView {
            run_id: self.run_id@,
            seq: self.seq,
            attempt: self.attempt,
            original_schedule_time_ms: self.original_schedule_time_ms,
            sched_to_close_deadline_ms: self.sched_to_close_deadline_ms,
            start_to_close_dur_ms: self.start_to_close_dur_ms,
            started_at_ms: self.started_at_ms,
        }
    }
}

/// The resolution reported when an activity is already past its
/// schedule-to-close timeout at admission.
pub open spec fn sched_to_close_resolution_v(act: NewLocalActView) -> ResolutionView {
    ResolutionView {
        seq: act.schedule_cmd.seq,
        result: ExecutionResultView::TimedOut(TimeoutType::ScheduleToClose),
        runtime_ms: 0,
        attempt: act.schedule_cmd.attempt,
        backoff_ms: None,
        original_schedule_time_ms: Some(act.schedule_time_ms),
    }
}

/// Building a bag at admission: the schedule-to-close timeout, less the
/// time already elapsed since scheduling, becomes an absolute deadline; if
/// nothing remains the admission fails with an immediate timeout
/// resolution. Start-to-close is kept dormant.
pub open spec fn bag_new_v(act: NewLocalActView, now: u64) -> Result<
    TimeoutBagView,
    ResolutionView,
> {
    let pair = act.schedule_cmd.close_timeouts.sched_and_start();
    let elapsed = elapsed_since(now, act.schedule_time_ms);
    if pair.0 is Some && pair.0->0 <= elapsed {
        Err(sched_to_close_resolution_v(act))
    } else {
        Ok(
            TimeoutBagView {
                run_id: act.workflow_exec_info.run_id,
                seq: act.schedule_cmd.seq,
                attempt: act.schedule_cmd.attempt,
                original_schedule_time_ms: act.schedule_time_ms,
                sched_to_close_deadline_ms: match pair.0 {
                    Some(s2c) => Some(now.saturating_add((s2c - elapsed) as u64)),
                    None => None,
                },
                start_to_close_dur_ms: pair.1,
                started_at_ms: None,
            },
        )
    }
}

/// Marking a bag started at dispatch: the first dispatch arms
/// start-to-close by recording the instant; later calls change nothing.
pub open spec fn mark_started_v(b: TimeoutBagView, now: u64) -> TimeoutBagView {
    if b.start_to_close_dur_ms is Some && b.started_at_ms is None {
        TimeoutBagView { started_at_ms: Some(now), ..b }
    } else {
        b
    }
}

impl TimeoutBag {
    /// Set up the close timers for a newly admitted activity, or fail with
    /// an immediate resolution when schedule-to-close has already elapsed.
    pub fn new(act: &NewLocalAct, now_ms: u64) -> (r: Result<TimeoutBag, LocalActivityResolution>)
        ensures
            ({
                let s = bag_new_v(act@, now_ms);
                match r {
                    Ok(b) => s == Ok::<TimeoutBagView, ResolutionView>(b@),
                    Err(res) => s == Err::<TimeoutBagView, ResolutionView>(res@),
                }
            }),
    {
        let (sched_to_close, start_to_close) = act.schedule_cmd.close_timeouts.into_sched_and_start();
        let elapsed = if now_ms >= act.schedule_time_ms {
            now_ms - act.schedule_time_ms
        } else {
            0
        };
        let deadline = match sched_to_close {
            Some(s2c) => {
                if s2c <= elapsed {
                    return Err(
                        LocalActivityResolution {
                            seq: act.schedule_cmd.seq,
                            result: crate::types::LocalActivityExecutionResult::TimedOut(
                                TimeoutType::ScheduleToClose,
                            ),
                            runtime_ms: 0,
                            attempt: act.schedule_cmd.attempt,
                            backoff_ms: None,
                            original_schedule_time_ms: Some(act.schedule_time_ms),
                        },
                    );
                }
                Some(now_ms.saturating_add(s2c - elapsed))
            },
            None => None,
        };
        Ok(
            TimeoutBag {
                run_id: act.workflow_exec_info.run_id.clone(),
                seq: act.schedule_cmd.seq,
                attempt: act.schedule_cmd.attempt,
                original_schedule_time_ms: act.schedule_time_ms,
                sched_to_close_deadline_ms: deadline,
                start_to_close_dur_ms: start_to_close,
                started_at_ms: None,
            },
        )
    }

    /// Record the dispatch instant, arming start-to-close on the first
    /// call and doing nothing on later ones.
    pub fn mark_started(&mut self, now_ms: u64)
        ensures
            final(self)@ == mark_started_v(old(self)@, now_ms),
    {
        if self.start_to_close_dur_ms.is_some() && self.started_at_ms.is_none() {
            self.started_at_ms = Some(now_ms);
        }
    }
}

} // verus!
