//! The manager's laws: properties of the spec transitions that hold in
//! every well-formed state. Each executable operation's contract equates
//! it with the transition it names, so these carry over to every run.

use vstd::prelude::*;

use crate::alist::alist_distinct;
use crate::alist::alist_find;
use crate::alist::alist_has;
use crate::alist::lemma_find_some_index;
use crate::alist::lemma_remove_find;
use crate::alist::lemma_remove_index_map;
use crate::alist::lemma_remove_len;
use crate::manager::backoff_cancel_resolution_v;
use crate::manager::backoff_count;
use crate::manager::complete_v;
use crate::manager::enqueue_cancel_v;
use crate::manager::enqueue_new_v;
use crate::manager::backoff_fired_v;
use crate::manager::next_pending_v;
use crate::manager::timer_fired_v;
use crate::manager::outstanding_has_id;
use crate::manager::s2s_resolution_v;
use crate::manager::AdmittedEntryView;
use crate::manager::LamView;
use crate::retry::should_retry_spec;
use crate::retry::type_in_list;
use crate::timeout::bag_new_v;
use crate::timeout::elapsed_since;
use crate::timeout::TimeoutBagView;
use crate::timeout::sched_to_close_resolution_v;
use crate::types::ApplicationFailureView;
use crate::types::CompleteActionView;
use crate::types::DispatchOrTimeoutView;
use crate::types::ExecutionResultView;
use crate::types::IdView;
use crate::types::InFlightView;
use crate::types::NewLocalActView;
use crate::types::NextPendingOutcomeView;
use crate::types::ResolutionView;
use crate::types::RetryPolicyView;
use crate::types::TimeoutType;

verus! {

/// The count of outstanding activities never exceeds the permit bound:
/// it is an invariant of every well-formed state, and every operation's
/// contract preserves well-formedness.
pub proof fn law_outstanding_bounded(m: LamView)
    requires
        m.wf(),
    ensures
        m.outstanding.len() <= m.max_concurrent,
{
}

/// Counting backing-off entries in a prefix-free way: the count of a
/// sequence never exceeds its length.
proof fn lemma_backoff_count_le_len(a: Seq<(IdView, AdmittedEntryView)>)
    ensures
        0 <= backoff_count(a) <= a.len(),
    decreases a.len(),
{
    if a.len() > 0 {
        lemma_backoff_count_le_len(a.drop_first());
    }
}

/// Removing the entry at one index lowers the count exactly by that
/// entry's contribution.
proof fn lemma_backoff_count_remove_at(a: Seq<(IdView, AdmittedEntryView)>, i: int)
    requires
        0 <= i < a.len(),
    ensures
        backoff_count(a.remove(i)) == backoff_count(a) - (if a[i].1.backoff is Some {
            1int
        } else {
            0int
        }),
    decreases i,
{
    if i == 0 {
        assert(a.remove(0) =~= a.drop_first());
    } else {
        assert(a.remove(i).first() == a.first());
        assert(a.remove(i).drop_first() =~= a.drop_first().remove(i - 1));
        assert(forall|j: int| 0 <= j < a.drop_first().len() ==> (#[trigger] a.drop_first()[j]) == a[j + 1]);
        lemma_backoff_count_remove_at(a.drop_first(), i - 1);
    }
}

/// At any time, the activities outstanding plus those backing off are no
/// more than the live admissions for distinct identities: each admitted
/// identity is in exactly one place.
pub proof fn law_places_bounded(m: LamView)
    requires
        m.wf(),
    ensures
        m.outstanding.len() + backoff_count(m.admitted) <= m.admitted.len(),
{
    lemma_places_bounded_rec(m.admitted, m.outstanding);
}

/// The counting core of `law_places_bounded`, by induction on the
/// outstanding set.
proof fn lemma_places_bounded_rec(
    a: Seq<(IdView, AdmittedEntryView)>,
    o: Seq<(u32, InFlightView)>,
)
    requires
        alist_distinct(a),
        forall|i: int, j: int|
            0 <= i < j < o.len() ==> (#[trigger] o[i]).1.la_info.id() != (
            #[trigger] o[j]).1.la_info.id(),
        forall|i: int| 0 <= i < o.len() ==> alist_has(a, (#[trigger] o[i]).1.la_info.id()),
        forall|k: int|
            0 <= k < a.len() && (#[trigger] a[k]).1.backoff is Some ==> !outstanding_has_id(
                o,
                a[k].0,
            ),
    ensures
        o.len() + backoff_count(a) <= a.len(),
    decreases o.len(),
{
    if o.len() == 0 {
        lemma_backoff_count_le_len(a);
    } else {
        let p = o.last();
        let id = p.1.la_info.id();
        assert(alist_has(a, id));
        let ai = lemma_find_some_index(a, id);
        assert(outstanding_has_id(o, id)) by {
            assert(o[o.len() - 1].1.la_info.id() == id);
        }
        assert(a[ai].1.backoff is None);
        let a2 = crate::alist::alist_remove(a, id);
        crate::alist::lemma_remove_distinct(a, id);
        lemma_remove_index_map(a, id, ai);
        lemma_backoff_count_remove_at(a, ai);
        crate::alist::lemma_remove_at(a, id, ai);
        assert(backoff_count(a2) == backoff_count(a));
        let o2 = o.drop_last();
        assert(forall|i: int| 0 <= i < o2.len() ==> (#[trigger] o2[i]) == o[i]);
        assert forall|i: int| 0 <= i < o2.len() implies alist_has(
            a2,
            (#[trigger] o2[i]).1.la_info.id(),
        ) by {
            assert(o2[i] == o[i]);
            assert(o[i].1.la_info.id() != id);
            lemma_remove_find(a, id, o[i].1.la_info.id());
        }
        assert forall|k: int|
            0 <= k < a2.len() && (#[trigger] a2[k]).1.backoff is Some implies !outstanding_has_id(
            o2,
            a2[k].0,
        ) by {
            let j: int = if k < ai {
                k
            } else {
                k + 1
            };
            assert(a2[k] == a[j]);
            if outstanding_has_id(o2, a2[k].0) {
                let w = choose|w: int|
                    0 <= w < o2.len() && (#[trigger] o2[w]).1.la_info.id() == a2[k].0;
                assert(o[w].1.la_info.id() == a2[k].0);
                assert(outstanding_has_id(o, a[j].0));
            }
        }
        lemma_places_bounded_rec(a2, o2);
        lemma_remove_len(a, id);
    }
}

/// A terminal completion is terminal: when completing returns a
/// `Report`-class action (a report, or a delegated timer backoff), the
/// identity leaves the admitted index, so no second terminal resolution
/// can be produced for the same admission.
pub proof fn law_report_terminal(m: LamView, token: u32, result: ExecutionResultView, now: u64)
    requires
        m.wf(),
        alist_has(m.outstanding, token),
        complete_v(m, token, result, now).1 is Report || complete_v(
            m,
            token,
            result,
            now,
        ).1 is LangDoesTimerBackoff,
    ensures
        ({
            let id = alist_find(m.outstanding, token)->0.la_info.id();
            &&& alist_has(m.admitted, id)
            &&& !alist_has(complete_v(m, token, result, now).0.admitted, id)
            &&& !alist_has(complete_v(m, token, result, now).0.outstanding, token)
        }),
{
    let info = alist_find(m.outstanding, token)->0;
    let id = info.la_info.id();
    let oi = lemma_find_some_index(m.outstanding, token);
    assert(alist_has(m.admitted, id));
    crate::alist::lemma_remove_find(m.admitted, id, id);
    crate::alist::lemma_remove_find(m.outstanding, token, token);
}

/// A successful completion releases exactly one permit: the outstanding
/// count drops by one for a tracked token, and is unchanged for an
/// unknown one.
pub proof fn law_complete_releases_one_permit(
    m: LamView,
    token: u32,
    result: ExecutionResultView,
    now: u64,
)
    requires
        m.wf(),
        m.next_token < u32::MAX,
    ensures
        alist_has(m.outstanding, token) ==> complete_v(m, token, result, now).0.outstanding.len()
            == m.outstanding.len() - 1,
        !alist_has(m.outstanding, token) ==> complete_v(m, token, result, now).0 == m
            && complete_v(m, token, result, now).1 == CompleteActionView::Untracked,
{
    crate::manager::lemma_complete_wf(m, token, result, now);
}

/// Idempotent admission: enqueuing an identity that is already present
/// (queued, dispatched, or backing off) changes nothing and emits
/// nothing, so one identity yields at most one queued record.
pub proof fn law_idempotent_admission(m: LamView, act: NewLocalActView, now: u64)
    requires
        alist_has(m.admitted, act.id()),
    ensures
        enqueue_new_v(m, act, now) == (m, None::<ResolutionView>),
{
}

/// Cancelling an activity that is backing off resolves it immediately as
/// cancelled, with no executor round trip: afterwards it is neither
/// admitted, nor outstanding, nor backing off.
pub proof fn law_cancel_during_backoff(m: LamView, id: IdView)
    requires
        m.wf(),
        alist_has(m.admitted, id),
        alist_find(m.admitted, id)->0.backoff is Some,
    ensures
        enqueue_cancel_v(m, id).1 == Some(backoff_cancel_resolution_v(id)),
        backoff_cancel_resolution_v(id).result == ExecutionResultView::Cancelled,
        !alist_has(enqueue_cancel_v(m, id).0.admitted, id),
        enqueue_cancel_v(m, id).0.outstanding == m.outstanding,
{
    crate::alist::lemma_remove_find(m.admitted, id, id);
}

/// Completing a failure whose retry backoff is within the local
/// threshold re-admits the identity for a local retry: `WillBeRetried`,
/// with the identity backing off under a fresh token, the external
/// identity preserved, and the attempt advanced.
pub proof fn law_local_retry(m: LamView, token: u32, f: Option<ApplicationFailureView>, now: u64)
    requires
        m.wf(),
        m.next_token < u32::MAX,
        alist_has(m.outstanding, token),
        ({
            let info = alist_find(m.outstanding, token)->0;
            let dec = should_retry_spec(info.la_info.schedule_cmd.retry_policy, info.attempt, f);
            dec is Some && dec->0 <= info.la_info.schedule_cmd.local_retry_threshold_ms
        }),
    ensures
        ({
            let info = alist_find(m.outstanding, token)->0;
            let id = info.la_info.id();
            let m2 = complete_v(m, token, ExecutionResultView::Failed(f), now).0;
            &&& complete_v(m, token, ExecutionResultView::Failed(f), now).1
                == CompleteActionView::WillBeRetried
            &&& alist_has(m2.admitted, id)
            &&& alist_find(m2.admitted, id)->0.token == m.next_token
            &&& alist_find(m2.admitted, id)->0.token != token
            &&& alist_find(m2.admitted, id)->0.backoff is Some
            &&& alist_find(m2.admitted, id)->0.backoff->0.record.id() == id
            &&& alist_find(m2.admitted, id)->0.backoff->0.attempt
                == crate::manager::attempt_next(info.attempt)
            &&& alist_find(m2.admitted, id)->0.bag == alist_find(m.admitted, id)->0.bag
        }),
{
    let info = alist_find(m.outstanding, token)->0;
    let id = info.la_info.id();
    let oi = lemma_find_some_index(m.outstanding, token);
    assert(alist_has(m.admitted, id));
    assert(alist_find(m.admitted, id)->0.token == token);
    let a2 = crate::alist::alist_remove(m.admitted, id);
    crate::alist::lemma_remove_distinct(m.admitted, id);
    crate::alist::lemma_remove_find(m.admitted, id, id);
    let dec = should_retry_spec(info.la_info.schedule_cmd.retry_policy, info.attempt, f);
    let new_entry = AdmittedEntryView {
        token: m.next_token,
        bag: alist_find(m.admitted, id)->0.bag,
        backoff: Some(
            crate::manager::BackoffView {
                record: info.la_info,
                attempt: crate::manager::attempt_next(info.attempt),
                fire_at_ms: now.saturating_add(dec->0),
            },
        ),
    };
    crate::alist::lemma_find_push(a2, id, new_entry, id);
    // the old token is strictly below the freshly minted one
    assert(token < m.next_token);
}

/// Cancel-priority: whenever the cancel/timeout queue is non-empty, the
/// next poll serves its head — a queued cancel record is dispatched
/// before any new or retried work.
pub proof fn law_cancel_priority(m: LamView, now: u64)
    requires
        m.cancel_queue.len() > 0,
    ensures
        m.cancel_queue.first() is Cancel ==> next_pending_v(m, now).1
            == NextPendingOutcomeView::Ready(
            DispatchOrTimeoutView::Dispatch(m.cancel_queue.first()->Cancel_0),
        ),
        next_pending_v(m, now).0.cancel_queue == m.cancel_queue.drop_first(),
        next_pending_v(m, now).0.act_queue == m.act_queue,
{
}

/// A schedule-to-close timeout already elapsed at admission resolves
/// immediately: the request is never queued, nothing is admitted, and no
/// dispatch can ever happen for it.
pub proof fn law_pre_queue_timeout(m: LamView, act: NewLocalActView, now: u64)
    requires
        !alist_has(m.admitted, act.id()),
        ({
            let pair = act.schedule_cmd.close_timeouts.sched_and_start();
            pair.0 is Some && pair.0->0 <= elapsed_since(now, act.schedule_time_ms)
        }),
    ensures
        enqueue_new_v(m, act, now) == (m, Some(sched_to_close_resolution_v(act))),
        sched_to_close_resolution_v(act).result == ExecutionResultView::TimedOut(
            crate::types::TimeoutType::ScheduleToClose,
        ),
{
}

/// A schedule-to-start timeout exceeded while queued resolves as a
/// timeout at dequeue: the activity is never dispatched, no permit is
/// charged, and the admission is dropped.
pub proof fn law_s2s_timeout_at_dequeue(m: LamView, now: u64)
    requires
        m.wf(),
        m.cancel_queue.len() == 0,
        m.act_queue.len() > 0,
        m.outstanding.len() < m.max_concurrent,
        ({
            let record = m.act_queue.first().record();
            let s2s = record.schedule_cmd.schedule_to_start_timeout_ms;
            s2s is Some && elapsed_since(now, record.schedule_time_ms) > s2s->0
        }),
    ensures
        ({
            let item = m.act_queue.first();
            let record = item.record();
            let m2 = next_pending_v(m, now).0;
            &&& next_pending_v(m, now).1 == NextPendingOutcomeView::Ready(
                DispatchOrTimeoutView::Timeout {
                    run_id: record.workflow_exec_info.run_id,
                    resolution: s2s_resolution_v(
                        record,
                        item.attempt(),
                        elapsed_since(now, record.schedule_time_ms),
                    ),
                    task: None,
                },
            )
            &&& m2.outstanding == m.outstanding
            &&& !alist_has(m2.admitted, item.id())
        }),
{
    let item = m.act_queue.first();
    let id = item.id();
    assert(alist_has(m.admitted, id)) by {
        assert(m.act_queue[0].id() == id);
    }
    crate::alist::lemma_remove_find(m.admitted, id, id);
}

/// A failure whose type stands in the policy's non-retryable list is
/// never retried, even when attempts remain: completion reports it.
pub proof fn law_non_retryable_type(
    m: LamView,
    token: u32,
    f: ApplicationFailureView,
    now: u64,
    p: RetryPolicyView,
    attempt: u32,
)
    requires
        type_in_list(p.non_retryable_error_types, f.failure_type),
        m.wf(),
        alist_has(m.outstanding, token),
        alist_find(m.outstanding, token)->0.la_info.schedule_cmd.retry_policy == p,
        alist_find(m.outstanding, token)->0.attempt == attempt,
    ensures
        should_retry_spec(p, attempt, Some(f)) is None,
        complete_v(m, token, ExecutionResultView::Failed(Some(f)), now).1
            == CompleteActionView::Report(alist_find(m.outstanding, token)->0),
{
}

/// A backoff exactly equal to the local retry threshold is handled
/// locally: delegation to a durable workflow timer requires a strictly
/// greater backoff.
pub proof fn law_threshold_is_strict(
    m: LamView,
    token: u32,
    f: Option<ApplicationFailureView>,
    now: u64,
)
    requires
        m.wf(),
        m.next_token < u32::MAX,
        alist_has(m.outstanding, token),
        ({
            let info = alist_find(m.outstanding, token)->0;
            let dec = should_retry_spec(info.la_info.schedule_cmd.retry_policy, info.attempt, f);
            dec == Some(info.la_info.schedule_cmd.local_retry_threshold_ms)
        }),
    ensures
        complete_v(m, token, ExecutionResultView::Failed(f), now).1
            == CompleteActionView::WillBeRetried,
{
    law_local_retry(m, token, f, now);
}


/// A close timer publishes at most one event: once fired it is disarmed,
/// and firing it again changes nothing.
pub proof fn law_timer_fires_once(m: LamView, id: IdView, which: TimeoutType, now: u64, later: u64)
    requires
        m.wf(),
        which == TimeoutType::ScheduleToClose || which == TimeoutType::StartToClose,
        timer_fired_v(m, id, which, now) != m,
    ensures
        timer_fired_v(timer_fired_v(m, id, which, now), id, which, later) == timer_fired_v(
            m,
            id,
            which,
            now,
        ),
{
    let e = alist_find(m.admitted, id)->0;
    let m2 = timer_fired_v(m, id, which, now);
    let e2 = AdmittedEntryView {
        bag: if which == TimeoutType::ScheduleToClose {
            TimeoutBagView { sched_to_close_deadline_ms: None, ..e.bag }
        } else {
            TimeoutBagView { start_to_close_dur_ms: None, ..e.bag }
        },
        ..e
    };
    crate::alist::lemma_update_find(m.admitted, id, e2, id);
}

/// A backoff timer re-enqueues its retry at most once: once fired the
/// pending retry is gone, and firing again changes nothing.
pub proof fn law_backoff_fires_once(m: LamView, id: IdView, now: u64, later: u64)
    requires
        m.wf(),
        backoff_fired_v(m, id, now) != m,
    ensures
        backoff_fired_v(backoff_fired_v(m, id, now), id, later) == backoff_fired_v(m, id, now),
{
    let e = alist_find(m.admitted, id)->0;
    let e2 = AdmittedEntryView { backoff: None, ..e };
    crate::alist::lemma_update_find(m.admitted, id, e2, id);
}


/// When a permit is free, no cancel or timeout is pending, and the head
/// of the queue is within its schedule-to-start budget, the next poll is
/// owed a dispatch: the head's start record under its current token, the
/// activity becoming outstanding.
pub proof fn law_dispatch_when_ready(m: LamView, now: u64)
    requires
        m.wf(),
        m.cancel_queue.len() == 0,
        m.act_queue.len() > 0,
        m.outstanding.len() < m.max_concurrent,
        ({
            let record = m.act_queue.first().record();
            let s2s = record.schedule_cmd.schedule_to_start_timeout_ms;
            s2s is Some ==> elapsed_since(now, record.schedule_time_ms) <= s2s->0
        }),
    ensures
        ({
            let item = m.act_queue.first();
            let token = alist_find(m.admitted, item.id())->0.token;
            let m2 = next_pending_v(m, now).0;
            &&& next_pending_v(m, now).1 == NextPendingOutcomeView::Ready(
                DispatchOrTimeoutView::Dispatch(
                    crate::manager::start_task_v(m.namespace, item.record(), item.attempt(), token, now),
                ),
            )
            &&& m2.outstanding.len() == m.outstanding.len() + 1
            &&& m2.act_queue == m.act_queue.drop_first()
        }),
{
    let item = m.act_queue.first();
    assert(alist_has(m.admitted, item.id())) by {
        assert(m.act_queue[0].id() == item.id());
    }
}

} // verus!
