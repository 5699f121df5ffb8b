//! The local activity manager: a synchronous state machine that admits
//! requests, multiplexes dispatches against cancels and timeouts, bounds
//! concurrency by permits, evaluates retry policy on failure, and drains at
//! shutdown.
//!
//! Every operation is a function of the current state and an explicit
//! wall-clock instant. The ghost model `LamView` mirrors the state; each
//! operation's contract says it equals a spec-level transition on that
//! model, and that well-formedness (`LamView::wf`) is preserved.

use vstd::prelude::*;

use crate::alist::alist_distinct;
use crate::alist::alist_find;
use crate::alist::alist_has;
use crate::alist::alist_remove;
use crate::alist::alist_update;
use crate::alist::lemma_find_at;
use crate::alist::lemma_find_none;
use crate::alist::lemma_find_push;
use crate::alist::lemma_find_some_index;
use crate::alist::lemma_push_distinct;
use crate::alist::lemma_remove_at;
use crate::alist::lemma_remove_distinct;
use crate::alist::lemma_remove_entries;
use crate::alist::lemma_remove_find;
use crate::alist::lemma_remove_index_map;
use crate::alist::lemma_remove_len;
use crate::alist::lemma_update_at;
use crate::alist::lemma_update_distinct;
use crate::alist::lemma_update_entries;
use crate::alist::lemma_update_find;
use crate::retry::should_retry_spec;
use crate::timeout::bag_new_v;
use crate::timeout::elapsed_since;
use crate::timeout::mark_started_v;
use crate::timeout::TimeoutBag;
use crate::timeout::TimeoutBagView;
use crate::types::ActivityCancelReason;
use crate::types::ActivityTask;
use crate::types::ActivityTaskVariant;
use crate::types::ActivityTaskVariantView;
use crate::types::ActivityTaskView;
use crate::types::CancelOrTimeout;
use crate::types::CancelOrTimeoutView;
use crate::types::CompleteActionView;
use crate::types::DispatchOrTimeoutLA;
use crate::types::DispatchOrTimeoutView;
use crate::types::ExecutingLAId;
use crate::types::ExecutionResultView;
use crate::types::IdView;
use crate::types::InFlightView;
use crate::types::LACompleteAction;
use crate::types::LocalActRequest;
use crate::types::LocalActRequestView;
use crate::types::LocalActivityExecutionResult;
use crate::types::LocalActivityResolution;
use crate::types::LocalInFlightActInfo;
use crate::types::NewLocalAct;
use crate::types::NewLocalActView;
use crate::types::NewOrRetry;
use crate::types::NewOrRetryView;
use crate::types::NextPendingOutcome;
use crate::types::NextPendingOutcomeView;
use crate::types::ResolutionView;
use crate::types::StartTask;
use crate::types::StartTaskView;
use crate::types::TimeoutType;

verus! {

// ---------------------------------------------------------------------------
// Internal entries
// ---------------------------------------------------------------------------

/// A pending local retry: the record to re-enqueue, the attempt it will
/// dispatch as, and the instant the backoff timer fires.
#[derive(Debug)]
pub struct BackoffEntry {
    pub record: NewLocalAct,
    pub attempt: u32,
    pub fire_at_ms: u64,
}

pub ghost struct BackoffView {
    pub record: NewLocalActView,
    pub attempt: u32,
    pub fire_at_ms: u64,
}

impl View for BackoffEntry {
    type V = BackoffView;

    open spec fn view(&self) -> BackoffView {
        BackoffView {
            record: self.record@,
            attempt: self.attempt,
            fire_at_ms: self.fire_at_ms,
        }
    }
}

/// Everything the manager holds for one admitted activity: its current
/// task token, its close timers, and its pending local retry if any.
#[derive(Debug)]
pub struct AdmittedEntry {
    pub token: u32,
    pub bag: TimeoutBag,
    pub backoff: Option<BackoffEntry>,
}

pub ghost struct AdmittedEntryView {
    pub token: u32,
    pub bag: TimeoutBagView,
    pub backoff: Option<BackoffView>,
}

impl View for AdmittedEntry {
    type V = AdmittedEntryView;

    open spec fn view(&self) -> AdmittedEntryView {
        AdmittedEntryView {
            token: self.token,
            bag: self.bag@,
            backoff: match &self.backoff {
                Some(b) => Some(b@),
                None => None,
            },
        }
    }
}

// ---------------------------------------------------------------------------
// The ghost model
// ---------------------------------------------------------------------------

pub ghost struct LamView {
    pub namespace: Seq<char>,
    pub max_concurrent: usize,
    pub next_token: u32,
    /// Admitted activities by identity; membership means queued,
    /// dispatched, or backing off.
    pub admitted: Seq<(IdView, AdmittedEntryView)>,
    /// Dispatched-but-uncompleted activities by task token. Each one holds
    /// a permit; the length never exceeds `max_concurrent`.
    pub outstanding: Seq<(u32, InFlightView)>,
    /// The new/retry queue, in arrival order.
    pub act_queue: Seq<NewOrRetryView>,
    /// The cancel/timeout queue, in arrival order; served first.
    pub cancel_queue: Seq<CancelOrTimeoutView>,
    /// Set once shutdown found no outstanding work left.
    pub shutdown_complete: bool,
}

/// Ghost image of the admitted index.
pub open spec fn admitted_sv(v: Seq<(ExecutingLAId, AdmittedEntry)>) -> Seq<
    (IdView, AdmittedEntryView),
> {
    v.map_values(|p: (ExecutingLAId, AdmittedEntry)| (p.0@, p.1@))
}

/// Ghost image of the outstanding index.
pub open spec fn outstanding_sv(v: Seq<(u32, LocalInFlightActInfo)>) -> Seq<(u32, InFlightView)> {
    v.map_values(|p: (u32, LocalInFlightActInfo)| (p.0, p.1@))
}

/// Ghost image of the new/retry queue.
pub open spec fn act_queue_sv(v: Seq<NewOrRetry>) -> Seq<NewOrRetryView> {
    v.map_values(|x: NewOrRetry| x@)
}

/// Ghost image of the cancel/timeout queue.
pub open spec fn cancel_queue_sv(v: Seq<CancelOrTimeout>) -> Seq<CancelOrTimeoutView> {
    v.map_values(|x: CancelOrTimeout| x@)
}

/// Whether some new/retry item is for `id`.
pub open spec fn in_act_queue(q: Seq<NewOrRetryView>, id: IdView) -> bool {
    exists|i: int| 0 <= i < q.len() && (#[trigger] q[i]).id() == id
}

/// No two new/retry items share an identity.
pub open spec fn queue_ids_distinct(q: Seq<NewOrRetryView>) -> bool {
    forall|i: int, j: int| 0 <= i < j < q.len() ==> (#[trigger] q[i]).id() != (#[trigger] q[j]).id()
}

/// Whether some outstanding activity has identity `id`.
pub open spec fn outstanding_has_id(o: Seq<(u32, InFlightView)>, id: IdView) -> bool {
    exists|i: int| 0 <= i < o.len() && (#[trigger] o[i]).1.la_info.id() == id
}

/// Number of admitted activities currently backing off.
pub open spec fn backoff_count(m: Seq<(IdView, AdmittedEntryView)>) -> int
    decreases m.len(),
{
    if m.len() == 0 {
        0
    } else {
        (if m.first().1.backoff is Some {
            1int
        } else {
            0int
        }) + backoff_count(m.drop_first())
    }
}

/// The per-entry conditions: the bag was built for this identity, and a
/// pending retry re-enqueues this identity.
pub open spec fn entry_wf(id: IdView, e: AdmittedEntryView) -> bool {
    &&& e.bag.run_id == id.run_id
    &&& e.bag.seq == id.seq_num
    &&& e.backoff is Some ==> e.backoff->0.record.id() == id
}

/// An admitted activity is in exactly one place: the new/retry queue,
/// the outstanding set, or backing off.
pub open spec fn one_place(
    q: Seq<NewOrRetryView>,
    o: Seq<(u32, InFlightView)>,
    id: IdView,
    e: AdmittedEntryView,
) -> bool {
    let iq = in_act_queue(q, id);
    let io = outstanding_has_id(o, id);
    let ib = e.backoff is Some;
    &&& iq || io || ib
    &&& !(iq && io)
    &&& !(iq && ib)
    &&& !(io && ib)
}

impl LamView {
    /// Well-formedness: distinct indexes, the permit bound, and the link
    /// between the three places an admitted activity can be.
    pub open spec fn wf(self) -> bool {
        &&& alist_distinct(self.admitted)
        &&& alist_distinct(self.outstanding)
        &&& queue_ids_distinct(self.act_queue)
        &&& self.outstanding.len() <= self.max_concurrent
        &&& forall|i: int|
            0 <= i < self.act_queue.len() ==> alist_has(
                self.admitted,
                (#[trigger] self.act_queue[i]).id(),
            )
        &&& forall|i: int|
            0 <= i < self.outstanding.len() ==> {
                let p = #[trigger] self.outstanding[i];
                &&& alist_has(self.admitted, p.1.la_info.id())
                &&& alist_find(self.admitted, p.1.la_info.id())->0.token == p.0
            }
        &&& forall|i: int|
            0 <= i < self.admitted.len() ==> entry_wf(
                (#[trigger] self.admitted[i]).0,
                self.admitted[i].1,
            )
        &&& forall|i: int|
            0 <= i < self.admitted.len() ==> one_place(
                self.act_queue,
                self.outstanding,
                (#[trigger] self.admitted[i]).0,
                self.admitted[i].1,
            )
        &&& forall|i: int| 0 <= i < self.admitted.len() ==> (#[trigger] self.admitted[i]).1.token
            < self.next_token
        &&& forall|i: int, j: int|
            0 <= i < j < self.admitted.len() ==> (#[trigger] self.admitted[i]).1.token != (
            #[trigger] self.admitted[j]).1.token
        &&& forall|i: int| 0 <= i < self.outstanding.len() ==> (#[trigger] self.outstanding[i]).0
            < self.next_token
    }

    /// The fresh state.
    pub open spec fn init(max_concurrent: usize, namespace: Seq<char>) -> LamView {
        LamView {
            namespace,
            max_concurrent,
            next_token: 1,
            admitted: Seq::empty(),
            outstanding: Seq::empty(),
            act_queue: Seq::empty(),
            cancel_queue: Seq::empty(),
            shutdown_complete: false,
        }
    }
}

// ---------------------------------------------------------------------------
// Spec transitions: admission
// ---------------------------------------------------------------------------

/// The immediate resolution for cancelling a backing-off activity.
pub open spec fn backoff_cancel_resolution_v(id: IdView) -> ResolutionView {
    ResolutionView {
        seq: id.seq_num,
        result: ExecutionResultView::Cancelled,
        runtime_ms: 0,
        attempt: 0,
        backoff_ms: None,
        original_schedule_time_ms: None,
    }
}

/// Admitting one new request. An identity already admitted is dropped
/// silently. One past its schedule-to-close timeout resolves immediately
/// and is never queued. Otherwise a fresh token is minted, the identity is
/// indexed with its timers, and the record joins the new/retry queue.
pub open spec fn enqueue_new_v(m: LamView, act: NewLocalActView, now: u64) -> (
    LamView,
    Option<ResolutionView>,
) {
    let id = act.id();
    if alist_has(m.admitted, id) {
        (m, None)
    } else {
        match bag_new_v(act, now) {
            Err(res) => (m, Some(res)),
            Ok(bag) => {
                let entry = AdmittedEntryView { token: m.next_token, bag, backoff: None };
                (
                    LamView {
                        next_token: (m.next_token + 1) as u32,
                        admitted: m.admitted.push((id, entry)),
                        act_queue: m.act_queue.push(NewOrRetryView::New(act)),
                        ..m
                    },
                    None,
                )
            },
        }
    }
}

/// Cancelling by identity. A backing-off activity resolves immediately and
/// leaves the manager. A queued or dispatched one has a cancel record for
/// its current token pushed onto the cancel/timeout queue. An unknown
/// identity is a no-op.
pub open spec fn enqueue_cancel_v(m: LamView, id: IdView) -> (LamView, Option<ResolutionView>) {
    match alist_find(m.admitted, id) {
        Some(e) => {
            if e.backoff is Some {
                (
                    LamView { admitted: alist_remove(m.admitted, id), ..m },
                    Some(backoff_cancel_resolution_v(id)),
                )
            } else {
                let task = ActivityTaskView {
                    task_token: e.token,
                    variant: ActivityTaskVariantView::Cancel(ActivityCancelReason::Cancelled),
                };
                (
                    LamView {
                        cancel_queue: m.cancel_queue.push(CancelOrTimeoutView::Cancel(task)),
                        ..m
                    },
                    None,
                )
            }
        },
        None => (m, None),
    }
}

/// One admission request.
pub open spec fn enqueue_one_v(m: LamView, req: LocalActRequestView, now: u64) -> (
    LamView,
    Option<ResolutionView>,
) {
    match req {
        LocalActRequestView::New(act) => enqueue_new_v(m, act, now),
        LocalActRequestView::Cancel(id) => enqueue_cancel_v(m, id),
    }
}

/// An optional resolution as a sequence.
pub open spec fn opt_seq(r: Option<ResolutionView>) -> Seq<ResolutionView> {
    match r {
        Some(x) => seq![x],
        None => Seq::empty(),
    }
}

/// A batch of admission requests, processed in order; the immediate
/// resolutions come back in the same order.
pub open spec fn enqueue_v(m: LamView, reqs: Seq<LocalActRequestView>, now: u64) -> (
    LamView,
    Seq<ResolutionView>,
)
    decreases reqs.len(),
{
    if reqs.len() == 0 {
        (m, Seq::empty())
    } else {
        let step = enqueue_one_v(m, reqs.first(), now);
        let rest = enqueue_v(step.0, reqs.drop_first(), now);
        (rest.0, opt_seq(step.1) + rest.1)
    }
}

/// Ghost image of a request batch.
pub open spec fn requests_sv(v: Seq<LocalActRequest>) -> Seq<LocalActRequestView> {
    v.map_values(|x: LocalActRequest| x@)
}

/// Ghost image of a resolution list.
pub open spec fn resolutions_sv(v: Seq<LocalActivityResolution>) -> Seq<ResolutionView> {
    v.map_values(|x: LocalActivityResolution| x@)
}

// ---------------------------------------------------------------------------
// Queue and outstanding membership under mutation
// ---------------------------------------------------------------------------

/// Membership in the new/retry queue after a push.
pub proof fn lemma_in_queue_push(q: Seq<NewOrRetryView>, it: NewOrRetryView, id: IdView)
    ensures
        in_act_queue(q.push(it), id) <==> (in_act_queue(q, id) || it.id() == id),
{
    let qq = q.push(it);
    assert(qq[q.len() as int] == it);
    assert(forall|i: int| 0 <= i < q.len() ==> (#[trigger] qq[i]) == q[i]);
    if in_act_queue(q, id) {
        let i = choose|i: int| 0 <= i < q.len() && (#[trigger] q[i]).id() == id;
        assert(qq[i].id() == id);
    }
    if in_act_queue(qq, id) {
        let i = choose|i: int| 0 <= i < qq.len() && (#[trigger] qq[i]).id() == id;
        if i < q.len() {
            assert(q[i].id() == id);
        }
    }
}

/// Membership in the new/retry queue after dropping the head.
pub proof fn lemma_in_queue_drop_first(q: Seq<NewOrRetryView>, id: IdView)
    requires
        q.len() > 0,
    ensures
        in_act_queue(q, id) <==> (q[0].id() == id || in_act_queue(q.drop_first(), id)),
{
    assert(forall|i: int|
        0 <= i < q.drop_first().len() ==> (#[trigger] q.drop_first()[i]) == q[i + 1]);
    if in_act_queue(q, id) {
        let i = choose|i: int| 0 <= i < q.len() && (#[trigger] q[i]).id() == id;
        if i > 0 {
            assert(q.drop_first()[i - 1].id() == id);
        }
    }
    if in_act_queue(q.drop_first(), id) {
        let i = choose|i: int|
            0 <= i < q.drop_first().len() && (#[trigger] q.drop_first()[i]).id() == id;
        assert(q[i + 1].id() == id);
    }
}

/// Membership in the outstanding set after a push.
pub proof fn lemma_out_has_push(o: Seq<(u32, InFlightView)>, p: (u32, InFlightView), id: IdView)
    ensures
        outstanding_has_id(o.push(p), id) <==> (outstanding_has_id(o, id) || p.1.la_info.id()
            == id),
{
    let oo = o.push(p);
    assert(oo[o.len() as int] == p);
    assert(forall|i: int| 0 <= i < o.len() ==> (#[trigger] oo[i]) == o[i]);
    if outstanding_has_id(o, id) {
        let i = choose|i: int| 0 <= i < o.len() && (#[trigger] o[i]).1.la_info.id() == id;
        assert(oo[i].1.la_info.id() == id);
    }
    if outstanding_has_id(oo, id) {
        let i = choose|i: int| 0 <= i < oo.len() && (#[trigger] oo[i]).1.la_info.id() == id;
        if i < o.len() {
            assert(o[i].1.la_info.id() == id);
        }
    }
}

// ---------------------------------------------------------------------------
// Well-formedness across admission
// ---------------------------------------------------------------------------

/// Admitting one new request preserves well-formedness and consumes at
/// most one token; nothing already outstanding moves.
pub proof fn lemma_enqueue_new_wf(m: LamView, act: NewLocalActView, now: u64)
    requires
        m.wf(),
        m.next_token < u32::MAX,
    ensures
        enqueue_new_v(m, act, now).0.wf(),
        enqueue_new_v(m, act, now).0.next_token <= m.next_token + 1,
        enqueue_new_v(m, act, now).0.outstanding == m.outstanding,
        enqueue_new_v(m, act, now).0.max_concurrent == m.max_concurrent,
{
    let id = act.id();
    if !alist_has(m.admitted, id) && bag_new_v(act, now) is Ok {
        let bag = bag_new_v(act, now)->Ok_0;
        let entry = AdmittedEntryView { token: m.next_token, bag, backoff: None };
        let m2 = enqueue_new_v(m, act, now).0;
        let it = NewOrRetryView::New(act);
        lemma_push_distinct(m.admitted, id, entry);
        lemma_find_none(m.admitted, id);
        // the queued ids stay distinct: every old id is admitted, the new one is not
        assert forall|i: int, j: int| 0 <= i < j < m2.act_queue.len() implies (
        #[trigger] m2.act_queue[i]).id() != (#[trigger] m2.act_queue[j]).id() by {
            assert(forall|x: int| 0 <= x < m.act_queue.len() ==> (#[trigger] m2.act_queue[x]) == m.act_queue[x]);
            if j == m.act_queue.len() {
                assert(m2.act_queue[j] == it);
                assert(alist_has(m.admitted, m.act_queue[i].id()));
            }
        }
        // every queued id is admitted afterwards
        assert forall|i: int| 0 <= i < m2.act_queue.len() implies alist_has(
            m2.admitted,
            (#[trigger] m2.act_queue[i]).id(),
        ) by {
            if i < m.act_queue.len() {
                assert(m2.act_queue[i] == m.act_queue[i]);
                lemma_find_push(m.admitted, id, entry, m.act_queue[i].id());
            } else {
                assert(m2.act_queue[i] == it);
                lemma_find_push(m.admitted, id, entry, id);
            }
        }
        // outstanding entries keep their admitted link
        assert forall|i: int| 0 <= i < m2.outstanding.len() implies {
            let p = #[trigger] m2.outstanding[i];
            &&& alist_has(m2.admitted, p.1.la_info.id())
            &&& alist_find(m2.admitted, p.1.la_info.id())->0.token == p.0
        } by {
            let p = m2.outstanding[i];
            lemma_find_push(m.admitted, id, entry, p.1.la_info.id());
        }
        // per-entry conditions
        assert forall|i: int| 0 <= i < m2.admitted.len() implies entry_wf(
            (#[trigger] m2.admitted[i]).0,
            m2.admitted[i].1,
        ) by {
            if i < m.admitted.len() {
                assert(m2.admitted[i] == m.admitted[i]);
            } else {
                assert(m2.admitted[i] == (id, entry));
            }
        }
        // each admitted activity is in exactly one place
        assert forall|i: int| 0 <= i < m2.admitted.len() implies one_place(
            m2.act_queue,
            m2.outstanding,
            (#[trigger] m2.admitted[i]).0,
            m2.admitted[i].1,
        ) by {
            if i < m.admitted.len() {
                assert(m2.admitted[i] == m.admitted[i]);
                let oid = m.admitted[i].0;
                lemma_in_queue_push(m.act_queue, it, oid);
                lemma_find_at(m.admitted, oid, i);
                assert(oid != id);
            } else {
                assert(m2.admitted[i] == (id, entry));
                lemma_in_queue_push(m.act_queue, it, id);
                assert(in_act_queue(m2.act_queue, id));
                if outstanding_has_id(m.outstanding, id) {
                    let x = choose|x: int|
                        0 <= x < m.outstanding.len() && (#[trigger] m.outstanding[x]).1.la_info.id()
                            == id;
                    assert(alist_has(m.admitted, id));
                }
                if in_act_queue(m.act_queue, id) {
                    let x = choose|x: int|
                        0 <= x < m.act_queue.len() && (#[trigger] m.act_queue[x]).id() == id;
                    assert(alist_has(m.admitted, id));
                }
            }
        }
        // token bounds and uniqueness: the minted token is fresh
        assert forall|i: int| 0 <= i < m2.admitted.len() implies (#[trigger] m2.admitted[i]).1.token
            < m2.next_token by {
            if i < m.admitted.len() {
                assert(m2.admitted[i] == m.admitted[i]);
            } else {
                assert(m2.admitted[i] == (id, entry));
            }
        }
        assert forall|i: int, j: int| 0 <= i < j < m2.admitted.len() implies (
        #[trigger] m2.admitted[i]).1.token != (#[trigger] m2.admitted[j]).1.token by {
            assert(m2.admitted[i] == m.admitted[i]);
            if j < m.admitted.len() {
                assert(m2.admitted[j] == m.admitted[j]);
            } else {
                assert(m2.admitted[j] == (id, entry));
            }
        }
    }
}

/// Cancelling one identity preserves well-formedness; nothing outstanding
/// moves and no token is consumed.
pub proof fn lemma_enqueue_cancel_wf(m: LamView, id: IdView)
    requires
        m.wf(),
    ensures
        enqueue_cancel_v(m, id).0.wf(),
        enqueue_cancel_v(m, id).0.next_token == m.next_token,
        enqueue_cancel_v(m, id).0.outstanding == m.outstanding,
        enqueue_cancel_v(m, id).0.max_concurrent == m.max_concurrent,
{
    if alist_has(m.admitted, id) {
        let e = alist_find(m.admitted, id)->0;
        if e.backoff is Some {
            let m2 = enqueue_cancel_v(m, id).0;
            let i0 = lemma_find_some_index(m.admitted, id);
            lemma_remove_distinct(m.admitted, id);
            lemma_remove_entries(m.admitted, id);
            lemma_remove_len(m.admitted, id);
            // the cancelled activity was backing off, so it is neither
            // queued nor outstanding; every other lookup is unchanged
            assert(one_place(m.act_queue, m.outstanding, id, e));
            assert(!in_act_queue(m.act_queue, id));
            assert(!outstanding_has_id(m.outstanding, id));
            assert forall|i: int| 0 <= i < m2.act_queue.len() implies alist_has(
                m2.admitted,
                (#[trigger] m2.act_queue[i]).id(),
            ) by {
                assert(alist_has(m.admitted, m.act_queue[i].id()));
                assert(m.act_queue[i].id() != id);
                lemma_remove_find(m.admitted, id, m.act_queue[i].id());
            }
            assert forall|i: int| 0 <= i < m2.outstanding.len() implies {
                let p = #[trigger] m2.outstanding[i];
                &&& alist_has(m2.admitted, p.1.la_info.id())
                &&& alist_find(m2.admitted, p.1.la_info.id())->0.token == p.0
            } by {
                let p = m2.outstanding[i];
                assert(p == m.outstanding[i]);
                assert(p.1.la_info.id() != id);
                lemma_remove_find(m.admitted, id, p.1.la_info.id());
            }
            lemma_remove_index_map(m.admitted, id, i0);
            assert forall|i: int| 0 <= i < m2.admitted.len() implies entry_wf(
                (#[trigger] m2.admitted[i]).0,
                m2.admitted[i].1,
            ) && one_place(
                m2.act_queue,
                m2.outstanding,
                m2.admitted[i].0,
                m2.admitted[i].1,
            ) && m2.admitted[i].1.token < m2.next_token by {
                let j = choose|j: int|
                    0 <= j < m.admitted.len() && #[trigger] m2.admitted[i] == #[trigger] m.admitted[j];
                assert(entry_wf(m.admitted[j].0, m.admitted[j].1));
                assert(one_place(m.act_queue, m.outstanding, m.admitted[j].0, m.admitted[j].1));
            }
            assert forall|i: int, j: int| 0 <= i < j < m2.admitted.len() implies (
            #[trigger] m2.admitted[i]).1.token != (#[trigger] m2.admitted[j]).1.token by {
                if i < i0 {
                    assert(m2.admitted[i] == m.admitted[i]);
                } else {
                    assert(m2.admitted[i] == m.admitted[i + 1]);
                }
                if j < i0 {
                    assert(m2.admitted[j] == m.admitted[j]);
                } else {
                    assert(m2.admitted[j] == m.admitted[j + 1]);
                }
            }
        }
    }
}

/// One admission request preserves well-formedness.
pub proof fn lemma_enqueue_one_wf(m: LamView, req: LocalActRequestView, now: u64)
    requires
        m.wf(),
        m.next_token < u32::MAX,
    ensures
        enqueue_one_v(m, req, now).0.wf(),
        enqueue_one_v(m, req, now).0.next_token <= m.next_token + 1,
        enqueue_one_v(m, req, now).0.outstanding == m.outstanding,
        enqueue_one_v(m, req, now).0.max_concurrent == m.max_concurrent,
{
    match req {
        LocalActRequestView::New(act) => lemma_enqueue_new_wf(m, act, now),
        LocalActRequestView::Cancel(id) => lemma_enqueue_cancel_wf(m, id),
    }
}

/// A whole admission batch preserves well-formedness and consumes at most
/// one token per request.
pub proof fn lemma_enqueue_v_wf(m: LamView, reqs: Seq<LocalActRequestView>, now: u64)
    requires
        m.wf(),
        m.next_token + reqs.len() <= u32::MAX,
    ensures
        enqueue_v(m, reqs, now).0.wf(),
        enqueue_v(m, reqs, now).0.next_token <= m.next_token + reqs.len(),
        enqueue_v(m, reqs, now).0.outstanding == m.outstanding,
        enqueue_v(m, reqs, now).0.max_concurrent == m.max_concurrent,
    decreases reqs.len(),
{
    if reqs.len() > 0 {
        lemma_enqueue_one_wf(m, reqs.first(), now);
        lemma_enqueue_v_wf(enqueue_one_v(m, reqs.first(), now).0, reqs.drop_first(), now);
    }
}

// ---------------------------------------------------------------------------
// Spec transition: completion
// ---------------------------------------------------------------------------

/// The attempt number of the next try; saturates rather than wraps.
pub open spec fn attempt_next(a: u32) -> u32 {
    if a < u32::MAX {
        (a + 1) as u32
    } else {
        a
    }
}

/// Completing the attempt under `token`. An unknown token is `Untracked`.
/// Otherwise the activity leaves the outstanding set (releasing its
/// permit) and its identity leaves the admitted index; then:
/// success, timeout and cancellation report; a failure consults the retry
/// policy, and either reports (no retry), delegates a long backoff to the
/// workflow's durable timer, or re-admits the identity under a fresh token
/// with a pending local backoff, keeping the close timers ticking.
pub open spec fn complete_v(m: LamView, token: u32, result: ExecutionResultView, now: u64) -> (
    LamView,
    CompleteActionView,
) {
    match alist_find(m.outstanding, token) {
        None => (m, CompleteActionView::Untracked),
        Some(info) => {
            let id = info.la_info.id();
            let entry = alist_find(m.admitted, id)->0;
            let m1 = LamView {
                outstanding: alist_remove(m.outstanding, token),
                admitted: alist_remove(m.admitted, id),
                ..m
            };
            match result {
                ExecutionResultView::Failed(f) => {
                    match should_retry_spec(
                        info.la_info.schedule_cmd.retry_policy,
                        info.attempt,
                        f,
                    ) {
                        None => (m1, CompleteActionView::Report(info)),
                        Some(backoff) => {
                            if backoff > info.la_info.schedule_cmd.local_retry_threshold_ms {
                                (m1, CompleteActionView::LangDoesTimerBackoff(backoff, info))
                            } else {
                                let new_entry = AdmittedEntryView {
                                    token: m.next_token,
                                    bag: entry.bag,
                                    backoff: Some(
                                        BackoffView {
                                            record: info.la_info,
                                            attempt: attempt_next(info.attempt),
                                            fire_at_ms: now.saturating_add(backoff),
                                        },
                                    ),
                                };
                                (
                                    LamView {
                                        next_token: (m.next_token + 1) as u32,
                                        admitted: m1.admitted.push((id, new_entry)),
                                        ..m1
                                    },
                                    CompleteActionView::WillBeRetried,
                                )
                            }
                        },
                    }
                },
                _ => (m1, CompleteActionView::Report(info)),
            }
        },
    }
}

/// Completion preserves well-formedness. A tracked token releases exactly
/// one permit; an unknown one changes nothing.
pub proof fn lemma_complete_wf(m: LamView, token: u32, result: ExecutionResultView, now: u64)
    requires
        m.wf(),
        m.next_token < u32::MAX,
    ensures
        complete_v(m, token, result, now).0.wf(),
        alist_has(m.outstanding, token) ==> complete_v(m, token, result, now).0.outstanding.len()
            == m.outstanding.len() - 1,
        !alist_has(m.outstanding, token) ==> complete_v(m, token, result, now).0 == m,
        complete_v(m, token, result, now).0.max_concurrent == m.max_concurrent,
        complete_v(m, token, result, now).0.act_queue == m.act_queue,
        complete_v(m, token, result, now).0.cancel_queue == m.cancel_queue,
{
    if alist_has(m.outstanding, token) {
        let info = alist_find(m.outstanding, token)->0;
        let id = info.la_info.id();
        let oi = lemma_find_some_index(m.outstanding, token);
        assert(m.outstanding[oi].1.la_info.id() == id);
        assert(alist_has(m.admitted, id) && alist_find(m.admitted, id)->0.token == token);
        let entry = alist_find(m.admitted, id)->0;
        let ai = lemma_find_some_index(m.admitted, id);
        assert(m.admitted[ai] == (id, entry));
        assert(one_place(m.act_queue, m.outstanding, id, entry));
        assert(outstanding_has_id(m.outstanding, id));
        assert(!in_act_queue(m.act_queue, id));
        assert(entry.backoff is None);

        let o2 = alist_remove(m.outstanding, token);
        let a2 = alist_remove(m.admitted, id);
        lemma_remove_distinct(m.outstanding, token);
        lemma_remove_distinct(m.admitted, id);
        lemma_remove_len(m.outstanding, token);
        lemma_remove_len(m.admitted, id);
        lemma_remove_index_map(m.outstanding, token, oi);
        lemma_remove_index_map(m.admitted, id, ai);

        // only the removed outstanding entry has this identity
        assert forall|i: int|
            0 <= i < m.outstanding.len() && i != oi implies (
        #[trigger] m.outstanding[i]).1.la_info.id() != id by {
            if m.outstanding[i].1.la_info.id() == id {
                assert(alist_find(m.admitted, id)->0.token == m.outstanding[i].0);
            }
        }
        // survivors: identity differs, admitted link survives
        assert forall|i: int| 0 <= i < o2.len() implies {
            let p = #[trigger] o2[i];
            &&& p.1.la_info.id() != id
            &&& p.0 != token
            &&& alist_has(a2, p.1.la_info.id())
            &&& alist_find(a2, p.1.la_info.id())->0.token == p.0
            &&& p.0 < m.next_token
        } by {
            if i < oi {
                assert(o2[i] == m.outstanding[i]);
            } else {
                assert(o2[i] == m.outstanding[i + 1]);
            }
            let p = o2[i];
            lemma_remove_find(m.admitted, id, p.1.la_info.id());
        }
        // membership by identity is unchanged for other identities
        assert forall|id2: IdView|
            id2 != id implies (outstanding_has_id(o2, id2) <==> outstanding_has_id(
            m.outstanding,
            id2,
        )) by {
            if outstanding_has_id(m.outstanding, id2) {
                let w = choose|w: int|
                    0 <= w < m.outstanding.len() && (#[trigger] m.outstanding[w]).1.la_info.id()
                        == id2;
                if w < oi {
                    assert(o2[w] == m.outstanding[w]);
                    assert(o2[w].1.la_info.id() == id2);
                } else {
                    assert(w != oi);
                    assert(o2[w - 1] == m.outstanding[w]);
                    assert(o2[w - 1].1.la_info.id() == id2);
                }
            }
            if outstanding_has_id(o2, id2) {
                let w = choose|w: int|
                    0 <= w < o2.len() && (#[trigger] o2[w]).1.la_info.id() == id2;
                if w < oi {
                    assert(m.outstanding[w].1.la_info.id() == id2);
                } else {
                    assert(m.outstanding[w + 1].1.la_info.id() == id2);
                }
            }
        }
        // and the completed identity is gone
        assert(!outstanding_has_id(o2, id)) by {
            if outstanding_has_id(o2, id) {
                let w = choose|w: int| 0 <= w < o2.len() && (#[trigger] o2[w]).1.la_info.id() == id;
                if w < oi {
                    assert(m.outstanding[w].1.la_info.id() == id);
                } else {
                    assert(m.outstanding[w + 1].1.la_info.id() == id);
                }
            }
        }
        // queued identities differ from the completed one and keep their entries
        assert forall|i: int| 0 <= i < m.act_queue.len() implies (#[trigger] m.act_queue[i]).id()
            != id && alist_has(a2, m.act_queue[i].id()) by {
            if m.act_queue[i].id() == id {
                assert(in_act_queue(m.act_queue, id));
            }
            lemma_remove_find(m.admitted, id, m.act_queue[i].id());
        }
        // surviving admitted entries stay well-placed
        assert forall|i: int| 0 <= i < a2.len() implies {
            let p = #[trigger] a2[i];
            &&& entry_wf(p.0, p.1)
            &&& one_place(m.act_queue, o2, p.0, p.1)
            &&& p.1.token < m.next_token
            &&& p.0 != id
        } by {
            let j: int = if i < ai {
                i
            } else {
                i + 1
            };
            assert(a2[i] == m.admitted[j]);
            let p = a2[i];
            assert(entry_wf(p.0, p.1));
            assert(one_place(m.act_queue, m.outstanding, p.0, p.1));
            assert(p.0 != id);
        }

        assert forall|i: int, j: int| 0 <= i < j < a2.len() implies (#[trigger] a2[i]).1.token != (
        #[trigger] a2[j]).1.token by {
            if i < ai {
                assert(a2[i] == m.admitted[i]);
            } else {
                assert(a2[i] == m.admitted[i + 1]);
            }
            if j < ai {
                assert(a2[j] == m.admitted[j]);
            } else {
                assert(a2[j] == m.admitted[j + 1]);
            }
        }

        let m1 = LamView { outstanding: o2, admitted: a2, ..m };
        assert(m1.wf());

        if result is Failed {
            let dec = should_retry_spec(info.la_info.schedule_cmd.retry_policy, info.attempt, result->Failed_0);
            if dec is Some && dec->0 <= info.la_info.schedule_cmd.local_retry_threshold_ms {
                let new_entry = AdmittedEntryView {
                    token: m.next_token,
                    bag: entry.bag,
                    backoff: Some(
                        BackoffView {
                            record: info.la_info,
                            attempt: attempt_next(info.attempt),
                            fire_at_ms: now.saturating_add(dec->0),
                        },
                    ),
                };
                let a3 = a2.push((id, new_entry));
                let m2 = complete_v(m, token, result, now).0;
                assert(m2.admitted == a3 && m2.outstanding == o2 && m2.act_queue == m.act_queue);
                lemma_remove_find(m.admitted, id, id);
                lemma_push_distinct(a2, id, new_entry);
                assert forall|i: int| 0 <= i < m.act_queue.len() implies alist_has(
                    a3,
                    (#[trigger] m.act_queue[i]).id(),
                ) by {
                    lemma_find_push(a2, id, new_entry, m.act_queue[i].id());
                }
                assert forall|i: int| 0 <= i < o2.len() implies {
                    let p = #[trigger] o2[i];
                    &&& alist_has(a3, p.1.la_info.id())
                    &&& alist_find(a3, p.1.la_info.id())->0.token == p.0
                } by {
                    let p = o2[i];
                    lemma_find_push(a2, id, new_entry, p.1.la_info.id());
                }
                assert forall|i: int| 0 <= i < a3.len() implies {
                    let p = #[trigger] a3[i];
                    &&& entry_wf(p.0, p.1)
                    &&& one_place(m.act_queue, o2, p.0, p.1)
                    &&& p.1.token < m2.next_token
                } by {
                    if i < a2.len() {
                        assert(a3[i] == a2[i]);
                    } else {
                        assert(a3[i] == (id, new_entry));
                        assert(entry_wf(id, entry));
                    }
                }
                assert forall|i: int, j: int| 0 <= i < j < a3.len() implies (
                #[trigger] a3[i]).1.token != (#[trigger] a3[j]).1.token by {
                    assert(a3[i] == a2[i]);
                    if j < a2.len() {
                        assert(a3[j] == a2[j]);
                    } else {
                        assert(a3[j] == (id, new_entry));
                    }
                }
                assert(m2.wf());
            }
        }
    }
}

// ---------------------------------------------------------------------------
// Spec transition: the multiplexer
// ---------------------------------------------------------------------------

/// The timeout resolution synthesised at dequeue when the queue wait
/// exceeded the schedule-to-start timeout.
pub open spec fn s2s_resolution_v(record: NewLocalActView, attempt: u32, waited: u64) -> ResolutionView {
    ResolutionView {
        seq: record.schedule_cmd.seq,
        result: ExecutionResultView::TimedOut(TimeoutType::ScheduleToStart),
        runtime_ms: waited,
        attempt,
        backoff_ms: None,
        original_schedule_time_ms: Some(record.schedule_time_ms),
    }
}

/// The start record dispatched for one attempt: the schedule record with
/// the resolved close timeouts, the original schedule instant (also as the
/// current attempt's, unchanged across retries), and `is_local` set.
pub open spec fn start_task_v(
    ns: Seq<char>,
    record: NewLocalActView,
    attempt: u32,
    token: u32,
    now: u64,
) -> ActivityTaskView {
    let pair = record.schedule_cmd.close_timeouts.sched_and_start();
    ActivityTaskView {
        task_token: token,
        variant: ActivityTaskVariantView::Start(
            StartTaskView {
                workflow_namespace: ns,
                workflow_type: record.workflow_type,
                workflow_execution: record.workflow_exec_info,
                activity_id: record.schedule_cmd.activity_id,
                activity_type: record.schedule_cmd.activity_type,
                header_fields: record.schedule_cmd.headers,
                input: record.schedule_cmd.arguments,
                scheduled_time_ms: record.schedule_time_ms,
                current_attempt_scheduled_time_ms: record.schedule_time_ms,
                started_time_ms: now,
                attempt,
                schedule_to_close_timeout_ms: pair.0,
                start_to_close_timeout_ms: pair.1,
                retry_policy: record.schedule_cmd.retry_policy,
                is_local: true,
            },
        ),
    }
}

/// One poll of the multiplexer. Cancels and timeouts are served first and
/// need no permit. A timeout that asks for a cancel dispatch completes the
/// activity under its current token and attaches the synthetic cancel
/// record. New and retried work is dispatched only when a permit is free:
/// the head of the queue is registered in-flight under its current token
/// and its start-to-close timer armed — unless its queue wait exceeded
/// schedule-to-start, in which case it resolves as timed out, is dropped
/// from the admitted index, and no permit is charged. With both queues
/// empty, a completed shutdown ends the stream; otherwise the embedding
/// must wait.
pub open spec fn next_pending_v(m: LamView, now: u64) -> (LamView, NextPendingOutcomeView) {
    if m.cancel_queue.len() > 0 {
        let item = m.cancel_queue.first();
        let m1 = LamView { cancel_queue: m.cancel_queue.drop_first(), ..m };
        match item {
            CancelOrTimeoutView::Cancel(task) => (
                m1,
                NextPendingOutcomeView::Ready(DispatchOrTimeoutView::Dispatch(task)),
            ),
            CancelOrTimeoutView::Timeout { run_id, resolution, dispatch_cancel } => {
                let tid = IdView { run_id: run_id, seq_num: resolution.seq };
                if dispatch_cancel && alist_has(m1.admitted, tid) {
                    let token = alist_find(m1.admitted, tid)->0.token;
                    let m2 = complete_v(m1, token, resolution.result, now).0;
                    let task = ActivityTaskView {
                        task_token: token,
                        variant: ActivityTaskVariantView::Cancel(ActivityCancelReason::TimedOut),
                    };
                    (
                        m2,
                        NextPendingOutcomeView::Ready(
                            DispatchOrTimeoutView::Timeout {
                                run_id,
                                resolution,
                                task: Some(task),
                            },
                        ),
                    )
                } else {
                    (
                        m1,
                        NextPendingOutcomeView::Ready(
                            DispatchOrTimeoutView::Timeout { run_id, resolution, task: None },
                        ),
                    )
                }
            },
        }
    } else if m.act_queue.len() > 0 && m.outstanding.len() < m.max_concurrent {
        let item = m.act_queue.first();
        let record = item.record();
        let attempt = item.attempt();
        let id = item.id();
        let m1 = LamView { act_queue: m.act_queue.drop_first(), ..m };
        let s2s = record.schedule_cmd.schedule_to_start_timeout_ms;
        let waited = elapsed_since(now, record.schedule_time_ms);
        if s2s is Some && waited > s2s->0 {
            let m2 = LamView { admitted: alist_remove(m1.admitted, id), ..m1 };
            (
                m2,
                NextPendingOutcomeView::Ready(
                    DispatchOrTimeoutView::Timeout {
                        run_id: record.workflow_exec_info.run_id,
                        resolution: s2s_resolution_v(record, attempt, waited),
                        task: None,
                    },
                ),
            )
        } else {
            let entry = alist_find(m1.admitted, id)->0;
            let new_entry = AdmittedEntryView { bag: mark_started_v(entry.bag, now), ..entry };
            let info = InFlightView { la_info: record, dispatch_time_ms: now, attempt };
            let m2 = LamView {
                admitted: alist_update(m1.admitted, id, new_entry),
                outstanding: m1.outstanding.push((entry.token, info)),
                ..m1
            };
            (
                m2,
                NextPendingOutcomeView::Ready(
                    DispatchOrTimeoutView::Dispatch(
                        start_task_v(m.namespace, record, attempt, entry.token, now),
                    ),
                ),
            )
        }
    } else if m.shutdown_complete {
        (m, NextPendingOutcomeView::ShutdownComplete)
    } else {
        (m, NextPendingOutcomeView::NothingReady)
    }
}

/// One poll preserves well-formedness; the outstanding count can only
/// grow by the one dispatched activity, and only when a permit was free.
pub proof fn lemma_next_pending_wf(m: LamView, now: u64)
    requires
        m.wf(),
        m.next_token < u32::MAX,
    ensures
        next_pending_v(m, now).0.wf(),
        next_pending_v(m, now).0.max_concurrent == m.max_concurrent,
{
    if m.cancel_queue.len() > 0 {
        let item = m.cancel_queue.first();
        let m1 = LamView { cancel_queue: m.cancel_queue.drop_first(), ..m };
        assert(m1.wf());
        match item {
            CancelOrTimeoutView::Cancel(task) => {},
            CancelOrTimeoutView::Timeout { run_id, resolution, dispatch_cancel } => {
                let tid = IdView { run_id: run_id, seq_num: resolution.seq };
                if dispatch_cancel && alist_has(m1.admitted, tid) {
                    let token = alist_find(m1.admitted, tid)->0.token;
                    lemma_complete_wf(m1, token, resolution.result, now);
                }
            },
        }
    } else if m.act_queue.len() > 0 && m.outstanding.len() < m.max_concurrent {
        let item = m.act_queue.first();
        let record = item.record();
        let attempt = item.attempt();
        let id = item.id();
        assert(item.id() == m.act_queue[0].id());
        let q2 = m.act_queue.drop_first();
        let m1 = LamView { act_queue: q2, ..m };
        assert(forall|i: int| 0 <= i < q2.len() ==> (#[trigger] q2[i]) == m.act_queue[i + 1]);
        assert(queue_ids_distinct(q2));
        // the head id is admitted, in the queue and nowhere else
        assert(alist_has(m.admitted, id));
        let entry = alist_find(m.admitted, id)->0;
        let ai = lemma_find_some_index(m.admitted, id);
        assert(m.admitted[ai] == (id, entry));
        assert(one_place(m.act_queue, m.outstanding, id, entry));
        assert(in_act_queue(m.act_queue, id));
        assert(!outstanding_has_id(m.outstanding, id));
        assert(entry.backoff is None);
        // no other queue item carries the head id
        assert(!in_act_queue(q2, id)) by {
            if in_act_queue(q2, id) {
                let w = choose|w: int| 0 <= w < q2.len() && (#[trigger] q2[w]).id() == id;
                assert(m.act_queue[w + 1].id() == id);
                assert(m.act_queue[0].id() != m.act_queue[w + 1].id());
            }
        }
        // membership of other ids survives dropping the head
        assert forall|id2: IdView|
            id2 != id implies (in_act_queue(q2, id2) <==> in_act_queue(m.act_queue, id2)) by {
            lemma_in_queue_drop_first(m.act_queue, id2);
        }
        let s2s = record.schedule_cmd.schedule_to_start_timeout_ms;
        let waited = elapsed_since(now, record.schedule_time_ms);
        if s2s is Some && waited > s2s->0 {
            let a2 = alist_remove(m1.admitted, id);
            let m2 = LamView { admitted: a2, ..m1 };
            lemma_remove_distinct(m.admitted, id);
            lemma_remove_len(m.admitted, id);
            lemma_remove_index_map(m.admitted, id, ai);
            assert forall|i: int| 0 <= i < q2.len() implies alist_has(
                a2,
                (#[trigger] q2[i]).id(),
            ) by {
                assert(q2[i] == m.act_queue[i + 1]);
                assert(q2[i].id() != id);
                lemma_remove_find(m.admitted, id, q2[i].id());
            }
            assert forall|i: int| 0 <= i < m.outstanding.len() implies {
                let p = #[trigger] m.outstanding[i];
                &&& p.1.la_info.id() != id
                &&& alist_has(a2, p.1.la_info.id())
                &&& alist_find(a2, p.1.la_info.id())->0.token == p.0
            } by {
                let p = m.outstanding[i];
                if p.1.la_info.id() == id {
                    assert(outstanding_has_id(m.outstanding, id));
                }
                lemma_remove_find(m.admitted, id, p.1.la_info.id());
            }
            assert forall|i: int| 0 <= i < a2.len() implies {
                let p = #[trigger] a2[i];
                &&& entry_wf(p.0, p.1)
                &&& one_place(q2, m.outstanding, p.0, p.1)
                &&& p.1.token < m.next_token
                &&& p.0 != id
            } by {
                let j: int = if i < ai {
                    i
                } else {
                    i + 1
                };
                assert(a2[i] == m.admitted[j]);
                let p = a2[i];
                assert(one_place(m.act_queue, m.outstanding, p.0, p.1));
            }
            assert forall|i: int, j: int| 0 <= i < j < a2.len() implies (
            #[trigger] a2[i]).1.token != (#[trigger] a2[j]).1.token by {
                if i < ai {
                    assert(a2[i] == m.admitted[i]);
                } else {
                    assert(a2[i] == m.admitted[i + 1]);
                }
                if j < ai {
                    assert(a2[j] == m.admitted[j]);
                } else {
                    assert(a2[j] == m.admitted[j + 1]);
                }
            }
            assert(m2.wf());
        } else {
            let new_entry = AdmittedEntryView { bag: mark_started_v(entry.bag, now), ..entry };
            let a2 = alist_update(m1.admitted, id, new_entry);
            let info = InFlightView { la_info: record, dispatch_time_ms: now, attempt };
            let o2 = m1.outstanding.push((entry.token, info));
            let m2 = LamView { admitted: a2, outstanding: o2, ..m1 };
            lemma_update_distinct(m.admitted, id, new_entry);
            lemma_update_entries(m.admitted, id, new_entry);
            lemma_update_find(m.admitted, id, new_entry, id);
            assert(info.la_info.id() == id);
            // the dispatched token is on no other outstanding entry
            assert(!alist_has(m.outstanding, entry.token)) by {
                if alist_has(m.outstanding, entry.token) {
                    let w = lemma_find_some_index(m.outstanding, entry.token);
                    let p = m.outstanding[w];
                    let pid = p.1.la_info.id();
                    assert(alist_find(m.admitted, pid)->0.token == entry.token);
                    let k = lemma_find_some_index(m.admitted, pid);
                    assert(m.admitted[k].1 == alist_find(m.admitted, pid)->0);
                    if k == ai {
                        assert(pid == id);
                        assert(outstanding_has_id(m.outstanding, id));
                    } else {
                        assert(m.admitted[k].1.token != m.admitted[ai].1.token);
                    }
                }
            }
            lemma_push_distinct(m.outstanding, entry.token, info);
            assert(alist_distinct(o2));
            // links from the outstanding set into the admitted index
            assert forall|i: int| 0 <= i < o2.len() implies {
                let p = #[trigger] o2[i];
                &&& alist_has(a2, p.1.la_info.id())
                &&& alist_find(a2, p.1.la_info.id())->0.token == p.0
                &&& p.0 < m.next_token
            } by {
                if i < m.outstanding.len() {
                    assert(o2[i] == m.outstanding[i]);
                    let p = o2[i];
                    lemma_update_find(m.admitted, id, new_entry, p.1.la_info.id());
                    if p.1.la_info.id() == id {
                        assert(outstanding_has_id(m.outstanding, id));
                    }
                } else {
                    assert(o2[i] == (entry.token, info));
                }
            }
            // queued ids stay admitted
            assert forall|i: int| 0 <= i < q2.len() implies alist_has(
                a2,
                (#[trigger] q2[i]).id(),
            ) by {
                assert(q2[i] == m.act_queue[i + 1]);
                lemma_update_find(m.admitted, id, new_entry, q2[i].id());
            }
            // membership by id after the push
            assert forall|id2: IdView|
                id2 != id implies (outstanding_has_id(o2, id2) <==> outstanding_has_id(
                m.outstanding,
                id2,
            )) by {
                lemma_out_has_push(m.outstanding, (entry.token, info), id2);
            }
            assert(outstanding_has_id(o2, id)) by {
                lemma_out_has_push(m.outstanding, (entry.token, info), id);
            }
            // every admitted entry is still in exactly one place
            assert forall|i: int| 0 <= i < a2.len() implies {
                let p = #[trigger] a2[i];
                &&& entry_wf(p.0, p.1)
                &&& one_place(q2, o2, p.0, p.1)
                &&& p.1.token < m.next_token
            } by {
                assert(a2[i] == m.admitted[i] || (m.admitted[i].0 == id && a2[i] == (
                    id,
                    new_entry,
                )));
                let p = a2[i];
                assert(one_place(m.act_queue, m.outstanding, m.admitted[i].0, m.admitted[i].1));
                assert(entry_wf(m.admitted[i].0, m.admitted[i].1));
                if a2[i] == m.admitted[i] && m.admitted[i].0 != id {
                    lemma_out_has_push(m.outstanding, (entry.token, info), p.0);
                } else {
                    // this is the dispatched entry: now outstanding only
                    assert(p.0 == id);
                    assert(p.1 == new_entry || p.1 == m.admitted[i].1);
                    assert(m.admitted[i].1 == entry) by {
                        if i == ai {
                        } else {
                            assert(m.admitted[i].0 != m.admitted[ai].0);
                        }
                    }
                    assert(p.1.backoff is None);
                }
            }
            assert forall|i: int, j: int| 0 <= i < j < a2.len() implies (
            #[trigger] a2[i]).1.token != (#[trigger] a2[j]).1.token by {
                assert(a2[i] == m.admitted[i] || a2[i] == (id, new_entry));
                assert(a2[j] == m.admitted[j] || a2[j] == (id, new_entry));
                assert(a2[i].1.token == m.admitted[i].1.token);
                assert(a2[j].1.token == m.admitted[j].1.token);
            }
            assert(m2.wf());
        }
    }
}

// ---------------------------------------------------------------------------
// Spec transitions: timers and shutdown
// ---------------------------------------------------------------------------

/// The event published when a schedule-to-close timer fires: the timeout
/// resolution prepared at admission, asking for a cancel dispatch.
pub open spec fn s2c_event_v(bag: TimeoutBagView) -> CancelOrTimeoutView {
    CancelOrTimeoutView::Timeout {
        run_id: bag.run_id,
        resolution: ResolutionView {
            seq: bag.seq,
            result: ExecutionResultView::TimedOut(TimeoutType::ScheduleToClose),
            runtime_ms: 0,
            attempt: bag.attempt,
            backoff_ms: None,
            original_schedule_time_ms: Some(bag.original_schedule_time_ms),
        },
        dispatch_cancel: true,
    }
}

/// The event published when a start-to-close timer fires, with the
/// runtime measured from the dispatch instant.
pub open spec fn stc_event_v(bag: TimeoutBagView, now: u64) -> CancelOrTimeoutView {
    CancelOrTimeoutView::Timeout {
        run_id: bag.run_id,
        resolution: ResolutionView {
            seq: bag.seq,
            result: ExecutionResultView::TimedOut(TimeoutType::StartToClose),
            runtime_ms: elapsed_since(now, bag.started_at_ms->0),
            attempt: bag.attempt,
            backoff_ms: None,
            original_schedule_time_ms: Some(bag.original_schedule_time_ms),
        },
        dispatch_cancel: true,
    }
}

/// A close timer of `id` firing at `now`. Nothing happens unless the
/// activity is still admitted and the named timer is armed with its
/// deadline passed — a stale timer of a finished activity is harmless.
/// Firing disarms the timer and publishes the timeout event on the
/// cancel/timeout queue.
pub open spec fn timer_fired_v(m: LamView, id: IdView, which: TimeoutType, now: u64) -> LamView {
    match alist_find(m.admitted, id) {
        None => m,
        Some(e) => {
            if which == TimeoutType::ScheduleToClose {
                if e.bag.sched_to_close_deadline_ms is Some && e.bag.sched_to_close_deadline_ms->0
                    <= now {
                    let e2 = AdmittedEntryView {
                        bag: TimeoutBagView { sched_to_close_deadline_ms: None, ..e.bag },
                        ..e
                    };
                    LamView {
                        admitted: alist_update(m.admitted, id, e2),
                        cancel_queue: m.cancel_queue.push(s2c_event_v(e.bag)),
                        ..m
                    }
                } else {
                    m
                }
            } else if which == TimeoutType::StartToClose {
                if e.bag.start_to_close_dur_ms is Some && e.bag.started_at_ms is Some
                    && e.bag.started_at_ms->0.saturating_add(e.bag.start_to_close_dur_ms->0)
                    <= now {
                    let e2 = AdmittedEntryView {
                        bag: TimeoutBagView { start_to_close_dur_ms: None, ..e.bag },
                        ..e
                    };
                    LamView {
                        admitted: alist_update(m.admitted, id, e2),
                        cancel_queue: m.cancel_queue.push(stc_event_v(e.bag, now)),
                        ..m
                    }
                } else {
                    m
                }
            } else {
                m
            }
        },
    }
}

/// The backoff timer of `id` firing at `now`: the pending retry leaves the
/// backoff place and joins the new/retry queue under the same identity and
/// token. A stale or early fire is a no-op.
pub open spec fn backoff_fired_v(m: LamView, id: IdView, now: u64) -> LamView {
    match alist_find(m.admitted, id) {
        None => m,
        Some(e) => {
            if e.backoff is Some && e.backoff->0.fire_at_ms <= now {
                let b = e.backoff->0;
                let e2 = AdmittedEntryView { backoff: None, ..e };
                LamView {
                    admitted: alist_update(m.admitted, id, e2),
                    act_queue: m.act_queue.push(
                        NewOrRetryView::Retry { in_flight: b.record, attempt: b.attempt },
                    ),
                    ..m
                }
            } else {
                m
            }
        },
    }
}

/// Shutdown: once nothing is outstanding the manager is released and the
/// multiplexer's stream ends.
pub open spec fn try_shutdown_v(m: LamView) -> (LamView, bool) {
    if m.outstanding.len() == 0 {
        (LamView { shutdown_complete: true, ..m }, true)
    } else {
        (m, false)
    }
}

/// A close timer firing preserves well-formedness.
pub proof fn lemma_timer_fired_wf(m: LamView, id: IdView, which: TimeoutType, now: u64)
    requires
        m.wf(),
    ensures
        timer_fired_v(m, id, which, now).wf(),
{
    let m2 = timer_fired_v(m, id, which, now);
    if m2 != m && alist_has(m.admitted, id) {
        let e = alist_find(m.admitted, id)->0;
        let e2 = AdmittedEntryView {
            bag: if which == TimeoutType::ScheduleToClose {
                TimeoutBagView { sched_to_close_deadline_ms: None, ..e.bag }
            } else {
                TimeoutBagView { start_to_close_dur_ms: None, ..e.bag }
            },
            ..e
        };
        if m2.admitted == alist_update(m.admitted, id, e2) {
            lemma_fire_update_wf(m, id, e, e2);
        }
    }
}

/// Replacing the entry of `id` by one with the same token and backoff
/// state, and a bag for the same identity, preserves well-formedness of
/// the admitted index against unchanged queues.
proof fn lemma_fire_update_wf(m: LamView, id: IdView, e: AdmittedEntryView, e2: AdmittedEntryView)
    requires
        m.wf(),
        alist_find(m.admitted, id) == Some(e),
        e2.token == e.token,
        e2.backoff == e.backoff,
        e2.bag.run_id == e.bag.run_id,
        e2.bag.seq == e.bag.seq,
    ensures
        (LamView { admitted: alist_update(m.admitted, id, e2), ..m }).wf(),
{
    let a2 = alist_update(m.admitted, id, e2);
    lemma_update_distinct(m.admitted, id, e2);
    lemma_update_entries(m.admitted, id, e2);
    let ai = lemma_find_some_index(m.admitted, id);
    assert forall|i: int| 0 <= i < m.act_queue.len() implies alist_has(
        a2,
        (#[trigger] m.act_queue[i]).id(),
    ) by {
        lemma_update_find(m.admitted, id, e2, m.act_queue[i].id());
    }
    assert forall|i: int| 0 <= i < m.outstanding.len() implies {
        let p = #[trigger] m.outstanding[i];
        &&& alist_has(a2, p.1.la_info.id())
        &&& alist_find(a2, p.1.la_info.id())->0.token == p.0
    } by {
        let p = m.outstanding[i];
        lemma_update_find(m.admitted, id, e2, p.1.la_info.id());
    }
    assert forall|i: int| 0 <= i < a2.len() implies {
        let p = #[trigger] a2[i];
        &&& entry_wf(p.0, p.1)
        &&& one_place(m.act_queue, m.outstanding, p.0, p.1)
        &&& p.1.token < m.next_token
    } by {
        assert(a2[i] == m.admitted[i] || (m.admitted[i].0 == id && a2[i] == (id, e2)));
        assert(entry_wf(m.admitted[i].0, m.admitted[i].1));
        assert(one_place(m.act_queue, m.outstanding, m.admitted[i].0, m.admitted[i].1));
        if a2[i] != m.admitted[i] {
            assert(m.admitted[i].1 == e) by {
                if i != ai {
                    assert(m.admitted[i].0 != m.admitted[ai].0);
                }
            }
        }
    }
    assert forall|i: int, j: int| 0 <= i < j < a2.len() implies (#[trigger] a2[i]).1.token != (
    #[trigger] a2[j]).1.token by {
        assert(a2[i].1.token == m.admitted[i].1.token);
        assert(a2[j].1.token == m.admitted[j].1.token);
    }
}

/// A backoff timer firing preserves well-formedness.
pub proof fn lemma_backoff_fired_wf(m: LamView, id: IdView, now: u64)
    requires
        m.wf(),
    ensures
        backoff_fired_v(m, id, now).wf(),
{
    if alist_has(m.admitted, id) {
        let e = alist_find(m.admitted, id)->0;
        if e.backoff is Some && e.backoff->0.fire_at_ms <= now {
            let b = e.backoff->0;
            let e2 = AdmittedEntryView { backoff: None, ..e };
            let it = NewOrRetryView::Retry { in_flight: b.record, attempt: b.attempt };
            let a2 = alist_update(m.admitted, id, e2);
            let q2 = m.act_queue.push(it);
            let m2 = backoff_fired_v(m, id, now);
            assert(m2 == LamView { admitted: a2, act_queue: q2, ..m });
            let ai = lemma_find_some_index(m.admitted, id);
            assert(one_place(m.act_queue, m.outstanding, id, e));
            assert(!in_act_queue(m.act_queue, id));
            assert(!outstanding_has_id(m.outstanding, id));
            assert(it.id() == id);
            lemma_update_distinct(m.admitted, id, e2);
            lemma_update_entries(m.admitted, id, e2);
            lemma_update_find(m.admitted, id, e2, id);
            // queue ids stay distinct: nothing else in the queue is for `id`
            assert(forall|i: int| 0 <= i < m.act_queue.len() ==> (#[trigger] q2[i]) == m.act_queue[i]);
            assert(q2[m.act_queue.len() as int] == it);
            assert forall|i: int, j: int| 0 <= i < j < q2.len() implies (#[trigger] q2[i]).id()
                != (#[trigger] q2[j]).id() by {
                if j == m.act_queue.len() {
                    if q2[i].id() == id {
                        assert(in_act_queue(m.act_queue, id));
                    }
                }
            }
            assert forall|i: int| 0 <= i < q2.len() implies alist_has(
                a2,
                (#[trigger] q2[i]).id(),
            ) by {
                if i < m.act_queue.len() {
                    lemma_update_find(m.admitted, id, e2, q2[i].id());
                }
            }
            assert forall|i: int| 0 <= i < m.outstanding.len() implies {
                let p = #[trigger] m.outstanding[i];
                &&& alist_has(a2, p.1.la_info.id())
                &&& alist_find(a2, p.1.la_info.id())->0.token == p.0
            } by {
                let p = m.outstanding[i];
                lemma_update_find(m.admitted, id, e2, p.1.la_info.id());
            }
            lemma_update_at(m.admitted, id, e2, ai);
            assert(a2 =~= m.admitted.update(ai, (id, e2)));
            assert forall|i: int| 0 <= i < a2.len() implies {
                let p = #[trigger] a2[i];
                &&& entry_wf(p.0, p.1)
                &&& one_place(q2, m.outstanding, p.0, p.1)
                &&& p.1.token < m.next_token
            } by {
                let p = a2[i];
                if i == ai {
                    assert(p == (id, e2));
                    assert(q2[m.act_queue.len() as int].id() == id);
                    assert(in_act_queue(q2, id));
                } else {
                    assert(p == m.admitted[i]);
                    assert(m.admitted[i].0 != m.admitted[ai].0);
                    assert(entry_wf(p.0, p.1));
                    assert(one_place(m.act_queue, m.outstanding, p.0, p.1));
                    lemma_in_queue_push(m.act_queue, it, p.0);
                }
            }
            assert forall|i: int, j: int| 0 <= i < j < a2.len() implies (
            #[trigger] a2[i]).1.token != (#[trigger] a2[j]).1.token by {
                assert(a2[i].1.token == m.admitted[i].1.token);
                assert(a2[j].1.token == m.admitted[j].1.token);
            }
            assert(m2.wf());
        }
    }
}

// ---------------------------------------------------------------------------
// The manager
// ---------------------------------------------------------------------------

/// The local activity manager. All state is behind one value; the
/// embedding serialises access and supplies wall-clock instants.
#[derive(Debug)]
pub struct LocalActivityManager {
    namespace: String,
    max_concurrent: usize,
    next_token: u32,
    admitted: Vec<(ExecutingLAId, AdmittedEntry)>,
    outstanding: Vec<(u32, LocalInFlightActInfo)>,
    act_queue: Vec<NewOrRetry>,
    cancel_queue: Vec<CancelOrTimeout>,
    shutdown_complete: bool,
}

impl View for LocalActivityManager {
    type V = LamView;

    closed spec fn view(&self) -> LamView {
        LamView {
            namespace: self.namespace@,
            max_concurrent: self.max_concurrent,
            next_token: self.next_token,
            admitted: admitted_sv(self.admitted@),
            outstanding: outstanding_sv(self.outstanding@),
            act_queue: act_queue_sv(self.act_queue@),
            cancel_queue: cancel_queue_sv(self.cancel_queue@),
            shutdown_complete: self.shutdown_complete,
        }
    }
}

/// Identity comparison by value.
fn id_eq(a: &ExecutingLAId, b: &ExecutingLAId) -> (r: bool)
    ensures
        r == (a@ == b@),
{
    a.seq_num == b.seq_num && <String as PartialEq>::eq(&a.run_id, &b.run_id)
}

/// Index of the entry for `k` in the admitted index.
fn find_admitted(v: &Vec<(ExecutingLAId, AdmittedEntry)>, k: &ExecutingLAId) -> (r: Option<usize>)
    ensures
        match r {
            Some(i) => {
                &&& i < v@.len()
                &&& admitted_sv(v@)[i as int].0 == k@
                &&& forall|j: int| 0 <= j < i ==> (#[trigger] admitted_sv(v@)[j]).0 != k@
                &&& alist_find(admitted_sv(v@), k@) == Some(admitted_sv(v@)[i as int].1)
            },
            None => !alist_has(admitted_sv(v@), k@),
        },
{
    let mut i: usize = 0;
    while i < v.len()
        invariant
            i <= v@.len(),
            forall|j: int| 0 <= j < i ==> (#[trigger] admitted_sv(v@)[j]).0 != k@,
        decreases v@.len() - i,
    {
        if id_eq(&v[i].0, k) {
            proof {
                lemma_find_at(admitted_sv(v@), k@, i as int);
            }
            return Some(i);
        }
        i = i + 1;
    }
    proof {
        lemma_find_none(admitted_sv(v@), k@);
    }
    None
}

/// Index of the entry for `token` in the outstanding index.
fn find_outstanding(v: &Vec<(u32, LocalInFlightActInfo)>, token: u32) -> (r: Option<usize>)
    ensures
        match r {
            Some(i) => {
                &&& i < v@.len()
                &&& outstanding_sv(v@)[i as int].0 == token
                &&& forall|j: int| 0 <= j < i ==> (#[trigger] outstanding_sv(v@)[j]).0 != token
                &&& alist_find(outstanding_sv(v@), token) == Some(outstanding_sv(v@)[i as int].1)
            },
            None => !alist_has(outstanding_sv(v@), token),
        },
{
    let mut i: usize = 0;
    while i < v.len()
        invariant
            i <= v@.len(),
            forall|j: int| 0 <= j < i ==> (#[trigger] outstanding_sv(v@)[j]).0 != token,
        decreases v@.len() - i,
    {
        if v[i].0 == token {
            proof {
                lemma_find_at(outstanding_sv(v@), token, i as int);
            }
            return Some(i);
        }
        i = i + 1;
    }
    proof {
        lemma_find_none(outstanding_sv(v@), token);
    }
    None
}

impl LocalActivityManager {
    /// A fresh manager with the given permit bound and namespace.
    pub fn new(max_concurrent: usize, namespace: String) -> (r: LocalActivityManager)
        ensures
            r@ == LamView::init(max_concurrent, namespace@),
            r@.wf(),
    {
        let r = LocalActivityManager {
            namespace,
            max_concurrent,
            next_token: 1,
            admitted: Vec::new(),
            outstanding: Vec::new(),
            act_queue: Vec::new(),
            cancel_queue: Vec::new(),
            shutdown_complete: false,
        };
        proof {
            assert(r@.admitted =~= Seq::<(IdView, AdmittedEntryView)>::empty());
            assert(r@.outstanding =~= Seq::<(u32, InFlightView)>::empty());
            assert(r@.act_queue =~= Seq::<NewOrRetryView>::empty());
            assert(r@.cancel_queue =~= Seq::<CancelOrTimeoutView>::empty());
        }
        r
    }

    /// Number of dispatched-but-uncompleted activities.
    pub fn num_outstanding(&self) -> (r: usize)
        ensures
            r == self@.outstanding.len(),
    {
        self.outstanding.len()
    }

    /// Number of activities currently backing off before a local retry.
    pub fn num_in_backoff(&self) -> (r: usize)
        ensures
            r == backoff_count(self@.admitted),
    {
        let mut i: usize = 0;
        let mut n: usize = 0;
        proof {
            lemma_backoff_count_prefix(self@.admitted, 0);
        }
        while i < self.admitted.len()
            invariant
                i <= self@.admitted.len(),
                n == backoff_count(self@.admitted.take(i as int)),
                n <= i,
        decreases self@.admitted.len() - i,
        {
            proof {
                lemma_backoff_count_step(self@.admitted, i as int);
            }
            if self.admitted[i].1.backoff.is_some() {
                n = n + 1;
            }
            i = i + 1;
        }
        proof {
            assert(self@.admitted.take(self@.admitted.len() as int) =~= self@.admitted);
        }
        n
    }

    /// Mint a fresh task token.
    fn gen_next_token(&mut self) -> (t: u32)
        requires
            old(self)@.next_token < u32::MAX,
        ensures
            t == old(self)@.next_token,
            final(self)@ == (LamView { next_token: (old(self)@.next_token + 1) as u32, ..old(
                self,
            )@ }),
    {
        let t = self.next_token;
        self.next_token = self.next_token + 1;
        t
    }

    /// Admit a batch of requests: new activities and cancels, in order.
    /// Returns the immediate resolutions: pre-queue schedule-to-close
    /// timeouts and cancellations of backing-off activities.
    pub fn enqueue(&mut self, reqs: Vec<LocalActRequest>, now_ms: u64) -> (out: Vec<
        LocalActivityResolution,
    >)
        requires
            old(self)@.wf(),
            old(self)@.next_token + reqs@.len() <= u32::MAX,
        ensures
            final(self)@ == enqueue_v(old(self)@, requests_sv(reqs@), now_ms).0,
            resolutions_sv(out@) == enqueue_v(old(self)@, requests_sv(reqs@), now_ms).1,
            final(self)@.wf(),
    {
        let ghost m0 = self@;
        let ghost all = requests_sv(reqs@);
        proof {
            lemma_enqueue_v_wf(m0, all, now_ms);
        }
        let mut reqs = reqs;
        let mut out: Vec<LocalActivityResolution> = Vec::new();
        proof {
            assert(resolutions_sv(out@) =~= Seq::<ResolutionView>::empty());
        }
        while reqs.len() > 0
            invariant
                self@.wf(),
                self@.next_token + reqs@.len() <= u32::MAX,
                enqueue_v(m0, all, now_ms).0 == enqueue_v(self@, requests_sv(reqs@), now_ms).0,
                enqueue_v(m0, all, now_ms).1 == resolutions_sv(out@) + enqueue_v(
                    self@,
                    requests_sv(reqs@),
                    now_ms,
                ).1,
            decreases reqs@.len(),
        {
            let ghost m_before = self@;
            let ghost rv_before = requests_sv(reqs@);
            let req = reqs.remove(0);
            proof {
                assert(requests_sv(reqs@) =~= rv_before.drop_first());
                assert(req@ == rv_before[0]);
                lemma_enqueue_one_wf(m_before, req@, now_ms);
            }
            let ghost step = enqueue_one_v(m_before, req@, now_ms);
            match req {
                LocalActRequest::New(act) => {
                    let id = act.executing_id();
                    match find_admitted(&self.admitted, &id) {
                        Some(_) => {
                            proof {
                                assert(step == (m_before, Option::<ResolutionView>::None));
                            }
                        },
                        None => {
                            match TimeoutBag::new(&act, now_ms) {
                                Err(res) => {
                                    proof {
                                        assert(step.0 == m_before);
                                        assert(step.1 == Some(res@));
                                    }
                                    out.push(res);
                                },
                                Ok(bag) => {
                                    let token = self.gen_next_token();
                                    let ghost entry_v = AdmittedEntryView {
                                        token,
                                        bag: bag@,
                                        backoff: None,
                                    };
                                    self.admitted.push(
                                        (id, AdmittedEntry { token, bag, backoff: None }),
                                    );
                                    self.act_queue.push(NewOrRetry::New(act));
                                    proof {
                                        assert(self@.admitted =~= m_before.admitted.push(
                                            (act@.id(), entry_v),
                                        ));
                                        assert(self@.act_queue =~= m_before.act_queue.push(
                                            NewOrRetryView::New(act@),
                                        ));
                                        assert(self@ == step.0);
                                    }
                                },
                            }
                        },
                    }
                },
                LocalActRequest::Cancel(id) => {
                    match find_admitted(&self.admitted, &id) {
                        Some(i) => {
                            if self.admitted[i].1.backoff.is_some() {
                                let _removed = self.admitted.remove(i);
                                proof {
                                    lemma_remove_at(m_before.admitted, id@, i as int);
                                    assert(self@.admitted =~= m_before.admitted.remove(i as int));
                                    assert(self@.admitted =~= alist_remove(
                                        m_before.admitted,
                                        id@,
                                    ));
                                    assert(self@ == step.0);
                                }
                                out.push(
                                    LocalActivityResolution {
                                        seq: id.seq_num,
                                        result: LocalActivityExecutionResult::Cancelled,
                                        runtime_ms: 0,
                                        attempt: 0,
                                        backoff_ms: None,
                                        original_schedule_time_ms: None,
                                    },
                                );
                            } else {
                                let token = self.admitted[i].1.token;
                                self.cancel_queue.push(
                                    CancelOrTimeout::Cancel(
                                        ActivityTask {
                                            task_token: token,
                                            variant: ActivityTaskVariant::Cancel(
                                                ActivityCancelReason::Cancelled,
                                            ),
                                        },
                                    ),
                                );
                                proof {
                                    assert(self@.cancel_queue =~= m_before.cancel_queue.push(
                                        CancelOrTimeoutView::Cancel(
                                            ActivityTaskView {
                                                task_token: token,
                                                variant: ActivityTaskVariantView::Cancel(
                                                    ActivityCancelReason::Cancelled,
                                                ),
                                            },
                                        ),
                                    ));
                                    assert(self@ == step.0);
                                }
                            }
                        },
                        None => {
                            proof {
                                assert(step == (m_before, Option::<ResolutionView>::None));
                            }
                        },
                    }
                },
            }
            proof {
                match step.1 {
                    Some(res) => {
                        assert(resolutions_sv(out@) =~= resolutions_sv(out@.drop_last()) + seq![
                            res,
                        ]);
                    },
                    None => {},
                }
                assert(enqueue_v(m_before, rv_before, now_ms).0 == enqueue_v(
                    self@,
                    requests_sv(reqs@),
                    now_ms,
                ).0);
                assert(enqueue_v(m_before, rv_before, now_ms).1 == opt_seq(step.1) + enqueue_v(
                    self@,
                    requests_sv(reqs@),
                    now_ms,
                ).1);
                assert(enqueue_v(m0, all, now_ms).1 == resolutions_sv(out@) + enqueue_v(
                    self@,
                    requests_sv(reqs@),
                    now_ms,
                ).1) by {
                    match step.1 {
                        Some(res) => {
                            assert((resolutions_sv(out@.drop_last()) + seq![res]) + enqueue_v(
                                self@,
                                requests_sv(reqs@),
                                now_ms,
                            ).1 =~= resolutions_sv(out@.drop_last()) + (seq![res] + enqueue_v(
                                self@,
                                requests_sv(reqs@),
                                now_ms,
                            ).1));
                        },
                        None => {
                            assert(opt_seq(step.1) + enqueue_v(self@, requests_sv(reqs@), now_ms).1
                                =~= enqueue_v(self@, requests_sv(reqs@), now_ms).1);
                        },
                    }
                }
            }
        }
        proof {
            assert(requests_sv(reqs@) =~= Seq::<LocalActRequestView>::empty());
            assert(enqueue_v(self@, requests_sv(reqs@), now_ms).0 == self@);
            assert(resolutions_sv(out@) + enqueue_v(self@, requests_sv(reqs@), now_ms).1
                =~= resolutions_sv(out@));
        }
        out
    }

    /// Mark the attempt under `task_token` as finished with `status`.
    /// Releases its permit, and reports, delegates a durable backoff, or
    /// schedules a local retry as the retry policy decides. A token that
    /// matches nothing outstanding returns `Untracked` and changes nothing.
    pub fn complete(
        &mut self,
        task_token: u32,
        status: &LocalActivityExecutionResult,
        now_ms: u64,
    ) -> (r: LACompleteAction)
        requires
            old(self)@.wf(),
            old(self)@.next_token < u32::MAX,
        ensures
            final(self)@ == complete_v(old(self)@, task_token, status@, now_ms).0,
            r@ == complete_v(old(self)@, task_token, status@, now_ms).1,
            final(self)@.wf(),
    {
        let ghost m0 = self@;
        proof {
            lemma_complete_wf(m0, task_token, status@, now_ms);
        }
        let oi = match find_outstanding(&self.outstanding, task_token) {
            None => {
                return LACompleteAction::Untracked;
            },
            Some(oi) => oi,
        };
        let ghost info_v = alist_find(m0.outstanding, task_token)->0;
        let pair = self.outstanding.remove(oi);
        let info = pair.1;
        proof {
            lemma_remove_at(m0.outstanding, task_token, oi as int);
            assert(self@.outstanding =~= alist_remove(m0.outstanding, task_token));
            assert(info@ == info_v);
        }
        let id = info.la_info.executing_id();
        let ai = match find_admitted(&self.admitted, &id) {
            Some(ai) => ai,
            None => {
                proof {
                    assert(alist_has(m0.admitted, id@));
                    assert(false);
                }
                vstd::pervasive::unreached()
            },
        };
        let ghost entry_v = alist_find(m0.admitted, id@)->0;
        let apair = self.admitted.remove(ai);
        proof {
            lemma_remove_at(m0.admitted, id@, ai as int);
            assert(self@.admitted =~= alist_remove(m0.admitted, id@));
            assert(apair.1@ == entry_v);
            assert(self@ == LamView {
                outstanding: alist_remove(m0.outstanding, task_token),
                admitted: alist_remove(m0.admitted, id@),
                ..m0
            });
        }
        match status {
            LocalActivityExecutionResult::Failed(f) => {
                let decision = info.la_info.schedule_cmd.retry_policy.should_retry(
                    info.attempt,
                    f.as_ref(),
                );
                match decision {
                    None => LACompleteAction::Report(info),
                    Some(backoff) => {
                        if backoff > info.la_info.schedule_cmd.local_retry_threshold_ms {
                            LACompleteAction::LangDoesTimerBackoff(backoff, info)
                        } else {
                            let token2 = self.gen_next_token();
                            let ghost m_mid = self@;
                            let fire_at = now_ms.saturating_add(backoff);
                            let attempt2 = if info.attempt < u32::MAX {
                                info.attempt + 1
                            } else {
                                info.attempt
                            };
                            self.admitted.push(
                                (
                                    id,
                                    AdmittedEntry {
                                        token: token2,
                                        bag: apair.1.bag,
                                        backoff: Some(
                                            BackoffEntry {
                                                record: info.la_info,
                                                attempt: attempt2,
                                                fire_at_ms: fire_at,
                                            },
                                        ),
                                    },
                                ),
                            );
                            proof {
                                assert(self@.admitted =~= m_mid.admitted.push(
                                    (
                                        id@,
                                        AdmittedEntryView {
                                            token: token2,
                                            bag: entry_v.bag,
                                            backoff: Some(
                                                BackoffView {
                                                    record: info_v.la_info,
                                                    attempt: attempt_next(info_v.attempt),
                                                    fire_at_ms: fire_at,
                                                },
                                            ),
                                        },
                                    ),
                                ));
                                assert(self@ == complete_v(m0, task_token, status@, now_ms).0);
                            }
                            LACompleteAction::WillBeRetried
                        }
                    },
                }
            },
            _ => LACompleteAction::Report(info),
        }
    }

    /// Poll for the next action to hand to the caller: a record for the
    /// executor, a timeout resolution, nothing yet, or the end of the
    /// stream after shutdown. Cancels and timeouts are served before new
    /// work; new work is gated on a free permit.
    #[verifier::rlimit(100)]
    pub fn next_pending(&mut self, now_ms: u64) -> (r: NextPendingOutcome)
        requires
            old(self)@.wf(),
            old(self)@.next_token < u32::MAX,
        ensures
            final(self)@ == next_pending_v(old(self)@, now_ms).0,
            r@ == next_pending_v(old(self)@, now_ms).1,
            final(self)@.wf(),
    {
        let ghost m0 = self@;
        proof {
            lemma_next_pending_wf(m0, now_ms);
        }
        if self.cancel_queue.len() > 0 {
            let item = self.cancel_queue.remove(0);
            proof {
                assert(self@.cancel_queue =~= m0.cancel_queue.drop_first());
                assert(item@ == m0.cancel_queue.first());
            }
            match item {
                CancelOrTimeout::Cancel(task) => NextPendingOutcome::Ready(
                    DispatchOrTimeoutLA::Dispatch(task),
                ),
                CancelOrTimeout::Timeout { run_id, resolution, dispatch_cancel } => {
                    let mut task_opt: Option<ActivityTask> = None;
                    if dispatch_cancel {
                        let tid = ExecutingLAId { run_id: run_id.clone(), seq_num: resolution.seq };
                        match find_admitted(&self.admitted, &tid) {
                            Some(ai) => {
                                let token = self.admitted[ai].1.token;
                                let _action = self.complete(token, &resolution.result, now_ms);
                                task_opt = Some(
                                    ActivityTask {
                                        task_token: token,
                                        variant: ActivityTaskVariant::Cancel(
                                            ActivityCancelReason::TimedOut,
                                        ),
                                    },
                                );
                            },
                            None => {},
                        }
                    }
                    NextPendingOutcome::Ready(
                        DispatchOrTimeoutLA::Timeout { run_id, resolution, task: task_opt },
                    )
                },
            }
        } else if self.act_queue.len() > 0 && self.outstanding.len() < self.max_concurrent {
            let item = self.act_queue.remove(0);
            let ghost item_v = m0.act_queue.first();
            proof {
                assert(self@.act_queue =~= m0.act_queue.drop_first());
                assert(item@ == item_v);
            }
            let pair = match item {
                NewOrRetry::New(n) => {
                    let a = if n.schedule_cmd.attempt >= 1 {
                        n.schedule_cmd.attempt
                    } else {
                        1u32
                    };
                    (n, a)
                },
                NewOrRetry::Retry { in_flight, attempt } => (in_flight, attempt),
            };
            let new_la = pair.0;
            let attempt = pair.1;
            proof {
                assert(new_la@ == item_v.record());
                assert(attempt == item_v.attempt());
            }
            let id = new_la.executing_id();
            if let Some(s2s) = new_la.schedule_cmd.schedule_to_start_timeout_ms {
                let waited = if now_ms >= new_la.schedule_time_ms {
                    now_ms - new_la.schedule_time_ms
                } else {
                    0
                };
                if waited > s2s {
                    let ghost m_mid = self@;
                    match find_admitted(&self.admitted, &id) {
                        Some(ai) => {
                            let _gone = self.admitted.remove(ai);
                            proof {
                                lemma_remove_at(m_mid.admitted, id@, ai as int);
                                assert(self@.admitted =~= alist_remove(m_mid.admitted, id@));
                            }
                        },
                        None => {
                            proof {
                                assert(alist_has(m0.admitted, item_v.id()));
                                assert(false);
                            }
                        },
                    }
                    let resolution = LocalActivityResolution {
                        seq: new_la.schedule_cmd.seq,
                        result: LocalActivityExecutionResult::TimedOut(TimeoutType::ScheduleToStart),
                        runtime_ms: waited,
                        attempt,
                        backoff_ms: None,
                        original_schedule_time_ms: Some(new_la.schedule_time_ms),
                    };
                    return NextPendingOutcome::Ready(
                        DispatchOrTimeoutLA::Timeout {
                            run_id: new_la.workflow_exec_info.run_id,
                            resolution,
                            task: None,
                        },
                    );
                }
            }
            let ghost m_mid = self@;
            let ai = match find_admitted(&self.admitted, &id) {
                Some(a) => a,
                None => {
                    proof {
                        assert(alist_has(m0.admitted, item_v.id()));
                        assert(false);
                    }
                    vstd::pervasive::unreached()
                },
            };
            let token = self.admitted[ai].1.token;
            let ghost entry_v = alist_find(m_mid.admitted, id@)->0;
            let mut apair = self.admitted.remove(ai);
            apair.1.bag.mark_started(now_ms);
            self.admitted.insert(ai, apair);
            proof {
                let a_before = m_mid.admitted;
                let new_entry = AdmittedEntryView {
                    bag: mark_started_v(entry_v.bag, now_ms),
                    ..entry_v
                };
                lemma_update_at(a_before, id@, new_entry, ai as int);
                a_before.remove_ensures(ai as int);
                a_before.remove(ai as int).insert_ensures(ai as int, (id@, new_entry));
                assert(self@.admitted =~= a_before.remove(ai as int).insert(
                    ai as int,
                    (id@, new_entry),
                ));
                assert(self@.admitted =~= alist_update(a_before, id@, new_entry));
            }
            let ghost m_mid2 = self@;
            let info_record = new_la.clone();
            self.outstanding.push(
                (
                    token,
                    LocalInFlightActInfo {
                        la_info: info_record,
                        dispatch_time_ms: now_ms,
                        attempt,
                    },
                ),
            );
            proof {
                assert(self@.outstanding =~= m_mid2.outstanding.push(
                    (
                        token,
                        InFlightView {
                            la_info: item_v.record(),
                            dispatch_time_ms: now_ms,
                            attempt,
                        },
                    ),
                ));
                assert(self@ == next_pending_v(m0, now_ms).0);
            }
            let close_pair = new_la.schedule_cmd.close_timeouts.into_sched_and_start();
            let task = ActivityTask {
                task_token: token,
                variant: ActivityTaskVariant::Start(
                    StartTask {
                        workflow_namespace: self.namespace.clone(),
                        workflow_type: new_la.workflow_type,
                        workflow_execution: new_la.workflow_exec_info,
                        activity_id: new_la.schedule_cmd.activity_id,
                        activity_type: new_la.schedule_cmd.activity_type,
                        header_fields: new_la.schedule_cmd.headers,
                        input: new_la.schedule_cmd.arguments,
                        scheduled_time_ms: new_la.schedule_time_ms,
                        current_attempt_scheduled_time_ms: new_la.schedule_time_ms,
                        started_time_ms: now_ms,
                        attempt,
                        schedule_to_close_timeout_ms: close_pair.0,
                        start_to_close_timeout_ms: close_pair.1,
                        retry_policy: new_la.schedule_cmd.retry_policy,
                        is_local: true,
                    },
                ),
            };
            proof {
                assert(task@ == start_task_v(m0.namespace, item_v.record(), attempt, token, now_ms));
            }
            NextPendingOutcome::Ready(DispatchOrTimeoutLA::Dispatch(task))
        } else if self.shutdown_complete {
            NextPendingOutcome::ShutdownComplete
        } else {
            NextPendingOutcome::NothingReady
        }
    }

    /// A close timer of `id` has passed its deadline: publish the timeout
    /// event and disarm the timer. Harmless when the activity is gone, the
    /// timer is not armed, or the deadline has not actually passed.
    pub fn on_timer_fired(&mut self, id: &ExecutingLAId, which: TimeoutType, now_ms: u64)
        requires
            old(self)@.wf(),
        ensures
            final(self)@ == timer_fired_v(old(self)@, id@, which, now_ms),
            final(self)@.wf(),
    {
        let ghost m0 = self@;
        proof {
            lemma_timer_fired_wf(m0, id@, which, now_ms);
        }
        let ai = match find_admitted(&self.admitted, id) {
            Some(a) => a,
            None => {
                return;
            },
        };
        let ghost e = alist_find(m0.admitted, id@)->0;
        match which {
            TimeoutType::ScheduleToClose => {
                let fire = match self.admitted[ai].1.bag.sched_to_close_deadline_ms {
                    Some(d) => d <= now_ms,
                    None => false,
                };
                if !fire {
                    return;
                }
                let event = CancelOrTimeout::Timeout {
                    run_id: self.admitted[ai].1.bag.run_id.clone(),
                    resolution: LocalActivityResolution {
                        seq: self.admitted[ai].1.bag.seq,
                        result: LocalActivityExecutionResult::TimedOut(TimeoutType::ScheduleToClose),
                        runtime_ms: 0,
                        attempt: self.admitted[ai].1.bag.attempt,
                        backoff_ms: None,
                        original_schedule_time_ms: Some(
                            self.admitted[ai].1.bag.original_schedule_time_ms,
                        ),
                    },
                    dispatch_cancel: true,
                };
                let mut apair = self.admitted.remove(ai);
                apair.1.bag.sched_to_close_deadline_ms = None;
                self.admitted.insert(ai, apair);
                self.cancel_queue.push(event);
                proof {
                    let e2 = AdmittedEntryView {
                        bag: TimeoutBagView { sched_to_close_deadline_ms: None, ..e.bag },
                        ..e
                    };
                    lemma_update_at(m0.admitted, id@, e2, ai as int);
                    m0.admitted.remove_ensures(ai as int);
                    m0.admitted.remove(ai as int).insert_ensures(ai as int, (id@, e2));
                    assert(self@.admitted =~= alist_update(m0.admitted, id@, e2));
                    assert(self@.cancel_queue =~= m0.cancel_queue.push(s2c_event_v(e.bag)));
                    assert(self@ == timer_fired_v(m0, id@, which, now_ms));
                }
            },
            TimeoutType::StartToClose => {
                let fire = match (
                    self.admitted[ai].1.bag.start_to_close_dur_ms,
                    self.admitted[ai].1.bag.started_at_ms,
                ) {
                    (Some(d), Some(st)) => st.saturating_add(d) <= now_ms,
                    _ => false,
                };
                if !fire {
                    return;
                }
                let started = match self.admitted[ai].1.bag.started_at_ms {
                    Some(st) => st,
                    None => 0,
                };
                let runtime = if now_ms >= started {
                    now_ms - started
                } else {
                    0
                };
                let event = CancelOrTimeout::Timeout {
                    run_id: self.admitted[ai].1.bag.run_id.clone(),
                    resolution: LocalActivityResolution {
                        seq: self.admitted[ai].1.bag.seq,
                        result: LocalActivityExecutionResult::TimedOut(TimeoutType::StartToClose),
                        runtime_ms: runtime,
                        attempt: self.admitted[ai].1.bag.attempt,
                        backoff_ms: None,
                        original_schedule_time_ms: Some(
                            self.admitted[ai].1.bag.original_schedule_time_ms,
                        ),
                    },
                    dispatch_cancel: true,
                };
                let mut apair = self.admitted.remove(ai);
                apair.1.bag.start_to_close_dur_ms = None;
                self.admitted.insert(ai, apair);
                self.cancel_queue.push(event);
                proof {
                    let e2 = AdmittedEntryView {
                        bag: TimeoutBagView { start_to_close_dur_ms: None, ..e.bag },
                        ..e
                    };
                    lemma_update_at(m0.admitted, id@, e2, ai as int);
                    m0.admitted.remove_ensures(ai as int);
                    m0.admitted.remove(ai as int).insert_ensures(ai as int, (id@, e2));
                    assert(self@.admitted =~= alist_update(m0.admitted, id@, e2));
                    assert(self@.cancel_queue =~= m0.cancel_queue.push(stc_event_v(e.bag, now_ms)));
                    assert(self@ == timer_fired_v(m0, id@, which, now_ms));
                }
            },
            TimeoutType::ScheduleToStart => {},
        }
    }

    /// The backoff timer of `id` has passed its fire instant: move the
    /// pending retry onto the new/retry queue. Harmless when the activity
    /// is gone, not backing off, or the instant has not actually passed.
    pub fn on_backoff_fired(&mut self, id: &ExecutingLAId, now_ms: u64)
        requires
            old(self)@.wf(),
        ensures
            final(self)@ == backoff_fired_v(old(self)@, id@, now_ms),
            final(self)@.wf(),
    {
        let ghost m0 = self@;
        proof {
            lemma_backoff_fired_wf(m0, id@, now_ms);
        }
        let ai = match find_admitted(&self.admitted, id) {
            Some(a) => a,
            None => {
                return;
            },
        };
        let fire = match &self.admitted[ai].1.backoff {
            Some(b) => b.fire_at_ms <= now_ms,
            None => false,
        };
        if !fire {
            return;
        }
        let ghost e = alist_find(m0.admitted, id@)->0;
        let apair = self.admitted.remove(ai);
        let aid = apair.0;
        let entry = apair.1;
        let bo = match entry.backoff {
            Some(b) => b,
            None => {
                proof {
                    assert(false);
                }
                vstd::pervasive::unreached()
            },
        };
        self.admitted.insert(ai, (aid, AdmittedEntry { token: entry.token, bag: entry.bag, backoff: None }));
        self.act_queue.push(NewOrRetry::Retry { in_flight: bo.record, attempt: bo.attempt });
        proof {
            let e2 = AdmittedEntryView { backoff: None, ..e };
            lemma_update_at(m0.admitted, id@, e2, ai as int);
            m0.admitted.remove_ensures(ai as int);
            m0.admitted.remove(ai as int).insert_ensures(ai as int, (id@, e2));
            assert(self@.admitted =~= alist_update(m0.admitted, id@, e2));
            assert(self@.act_queue =~= m0.act_queue.push(
                NewOrRetryView::Retry {
                    in_flight: e.backoff->0.record,
                    attempt: e.backoff->0.attempt,
                },
            ));
            assert(self@ == backoff_fired_v(m0, id@, now_ms));
        }
    }

    /// Try to finish shutting down: succeeds, and ends the multiplexer's
    /// stream, exactly when nothing is outstanding. The embedding calls
    /// this after each completion until it returns true.
    pub fn try_shutdown(&mut self) -> (done: bool)
        requires
            old(self)@.wf(),
        ensures
            final(self)@ == try_shutdown_v(old(self)@).0,
            done == try_shutdown_v(old(self)@).1,
            done == (old(self)@.outstanding.len() == 0),
            final(self)@.wf(),
    {
        if self.outstanding.len() == 0 {
            self.shutdown_complete = true;
            true
        } else {
            false
        }
    }

    /// The instant the backoff timer of `id` fires, when it is backing off.
    pub fn backoff_fire_at(&self, id: &ExecutingLAId) -> (r: Option<u64>)
        ensures
            r == (match alist_find(self@.admitted, id@) {
                Some(e) => match e.backoff {
                    Some(b) => Some(b.fire_at_ms),
                    None => None,
                },
                None => None::<u64>,
            }),
    {
        match find_admitted(&self.admitted, id) {
            Some(ai) => match &self.admitted[ai].1.backoff {
                Some(b) => Some(b.fire_at_ms),
                None => None,
            },
            None => None,
        }
    }

    /// The armed close deadlines of `id`: the absolute schedule-to-close
    /// deadline, and the absolute start-to-close deadline once dispatched.
    pub fn close_deadlines(&self, id: &ExecutingLAId) -> (r: (Option<u64>, Option<u64>))
        ensures
            r == (match alist_find(self@.admitted, id@) {
                Some(e) => (
                    e.bag.sched_to_close_deadline_ms,
                    match (e.bag.start_to_close_dur_ms, e.bag.started_at_ms) {
                        (Some(d), Some(st)) => Some(st.saturating_add(d)),
                        _ => None,
                    },
                ),
                None => (None::<u64>, None::<u64>),
            }),
    {
        match find_admitted(&self.admitted, id) {
            Some(ai) => {
                let stc = match (
                    self.admitted[ai].1.bag.start_to_close_dur_ms,
                    self.admitted[ai].1.bag.started_at_ms,
                ) {
                    (Some(d), Some(st)) => Some(st.saturating_add(d)),
                    _ => None,
                };
                (self.admitted[ai].1.bag.sched_to_close_deadline_ms, stc)
            },
            None => (None, None),
        }
    }

    /// The identity of the activity dispatched under `token`, while it is
    /// outstanding.
    pub fn id_of_token(&self, token: u32) -> (r: Option<ExecutingLAId>)
        ensures
            match r {
                Some(id) => alist_find(self@.outstanding, token) is Some && id@ == alist_find(
                    self@.outstanding,
                    token,
                )->0.la_info.id(),
                None => !alist_has(self@.outstanding, token),
            },
    {
        match find_outstanding(&self.outstanding, token) {
            Some(i) => Some(self.outstanding[i].1.la_info.executing_id()),
            None => None,
        }
    }

    /// How many more task tokens can be minted.
    pub fn token_headroom(&self) -> (r: u32)
        ensures
            r == u32::MAX - self@.next_token,
    {
        u32::MAX - self.next_token
    }

    /// Number of items waiting in the new/retry queue.
    pub fn num_queued(&self) -> (r: usize)
        ensures
            r == self@.act_queue.len(),
    {
        self.act_queue.len()
    }

    /// Number of items waiting in the cancel/timeout queue.
    pub fn num_cancels_queued(&self) -> (r: usize)
        ensures
            r == self@.cancel_queue.len(),
    {
        self.cancel_queue.len()
    }
}

/// Counting pending backoffs over a prefix stays within the prefix length.
proof fn lemma_backoff_count_prefix(m: Seq<(IdView, AdmittedEntryView)>, i: int)
    requires
        0 <= i <= m.len(),
    ensures
        0 <= backoff_count(m.take(i)) <= i,
    decreases i,
{
    if i == 0 {
        assert(m.take(0) =~= Seq::<(IdView, AdmittedEntryView)>::empty());
    } else {
        lemma_backoff_count_prefix(m, i - 1);
        lemma_backoff_count_step(m, i - 1);
    }
}

/// Extending a counted prefix by one entry adds one exactly when that
/// entry is backing off.
proof fn lemma_backoff_count_step(m: Seq<(IdView, AdmittedEntryView)>, i: int)
    requires
        0 <= i < m.len(),
    ensures
        backoff_count(m.take(i + 1)) == backoff_count(m.take(i)) + (if m[i].1.backoff is Some {
            1int
        } else {
            0int
        }),
    decreases i,
{
    if i == 0 {
        assert(m.take(1).drop_first() =~= Seq::<(IdView, AdmittedEntryView)>::empty());
        assert(m.take(0) =~= Seq::<(IdView, AdmittedEntryView)>::empty());
        assert(m.take(1).first() == m[0]);
    } else {
        assert(m.take(i + 1).first() == m[0]);
        assert(m.take(i).first() == m[0]);
        assert(m.take(i + 1).drop_first() =~= m.drop_first().take(i));
        assert(m.take(i).drop_first() =~= m.drop_first().take(i - 1));
        lemma_backoff_count_step(m.drop_first(), i - 1);
    }
}

} // verus!
