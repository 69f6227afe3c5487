//! The notification workflow: one run loads the unsent motion events in
//! ascending order, partitions them under the debounce-window batching
//! policy, delivers one push event per group, and marks each delivered
//! group sent.
//!
//! Failure policy: a failing delivery or marking is isolated to its group —
//! the group stays unsent for the next run and the remaining groups are
//! still processed — and the run then surfaces the first error instead of
//! statistics, so a caller never sees partial success as success.

use vstd::prelude::*;
use crate::push_events::{
    DateTimePeriod, EpochSeconds, MotionEvent, MotionEventError, MotionEventView, MotionEvents,
    MotionEventsConfig, NoOpMotionEvents, NoOpPushEventSink, Order, PushEvent, PushEventSink,
    PushEventSinkConfig, PushEvents, PushEventsConfig, PushEventsSinkError, PushEventView,
    SendPushEventsError, SendPushEventsStats,
};
use crate::push_events::email::{new_push_events_email_sink, PushEventEmailSink};
use crate::push_events::sqlite::{new_motion_events_via_sqlite, MotionEventsViaSqlite};
use crate::push_events::model::{
    all_pushes, count_mark_failures, count_refusals, delivered_pushes, group_at, group_end,
    group_starts, group_starts_from, lemma_all_marked_empty, lemma_counts_prefix_stable,
    lemma_delivered_pushes_all, lemma_delivered_pushes_push, lemma_group_starts_props,
    lemma_remaining_none, lemma_remaining_push_false, lemma_remaining_push_true, mark_result,
    num_groups, push_event_for, remaining_after, run_outcome, run_stats_for, sorted_by_timestamp,
    starts_group, timestamps_bounded, window_wf,
};

verus! {

/// Computes the start index of every group of `events` under the batching
/// policy: a gap above the debounce window starts a new group; without a
/// window all events form a single group.
pub fn group_boundaries(events: &Vec<MotionEvent>, window: Option<EpochSeconds>) -> (bounds: Vec<
    usize,
>)
    ensures
        bounds@.len() == num_groups(events.deep_view(), window),
        forall|k: int|
            0 <= k < bounds@.len() ==> #[trigger] bounds@[k] as int == group_starts(
                events.deep_view(),
                window,
            )[k],
{
    let ghost s = events.deep_view();
    let mut bounds: Vec<usize> = Vec::new();
    let ghost mut starts_acc: Seq<int> = Seq::empty();
    if events.len() == 0 {
        return bounds;
    }
    bounds.push(0);
    proof {
        starts_acc = starts_acc.push(0);
        assert(group_starts(s, window) =~= starts_acc + group_starts_from(s, window, 1));
    }
    let mut i: usize = 1;
    while i < events.len()
        invariant
            1 <= i <= events.len(),
            s == events.deep_view(),
            bounds@.len() == starts_acc.len(),
            forall|t: int| 0 <= t < starts_acc.len() ==> #[trigger] bounds@[t] as int
                == starts_acc[t],
            group_starts(s, window) == starts_acc + group_starts_from(s, window, i as int),
        decreases events.len() - i,
    {
        let splits = match window {
            None => false,
            Some(d) => {
                let gap: i128 = (events[i].timestamp as i128) - (events[i - 1].timestamp
                    as i128);
                gap > (d as i128)
            },
        };
        proof {
            assert(splits == starts_group(s, window, i as int));
        }
        if splits {
            bounds.push(i);
            proof {
                let acc2 = starts_acc.push(i as int);
                assert(group_starts_from(s, window, i as int) == seq![i as int]
                    + group_starts_from(s, window, i as int + 1));
                assert(starts_acc + group_starts_from(s, window, i as int) =~= acc2
                    + group_starts_from(s, window, i as int + 1));
                starts_acc = acc2;
            }
        } else {
            proof {
                assert(group_starts_from(s, window, i as int) == group_starts_from(
                    s,
                    window,
                    i as int + 1,
                ));
            }
        }
        i += 1;
    }
    proof {
        assert(group_starts_from(s, window, i as int) =~= Seq::<int>::empty());
        assert(group_starts(s, window) =~= starts_acc);
    }
    bounds
}

/// Composes the push event of the group `events[start..end]`: its size, the
/// half-open period from its first timestamp to one past its last, and the
/// file of its latest event.
pub fn build_push_event(events: &Vec<MotionEvent>, start: usize, end: usize) -> (pe: PushEvent)
    requires
        start < end <= events.len(),
        timestamps_bounded(events.deep_view()),
    ensures
        pe.deep_view() == push_event_for(events.deep_view().subrange(start as int, end as int)),
{
    let last = &events[end - 1];
    proof {
        assert(last.deep_view() == events.deep_view()[end - 1]);
        assert(last.timestamp < i64::MAX);
    }
    let pe = PushEvent {
        num_motion_events: end - start,
        date_time_period: DateTimePeriod {
            start: events[start].timestamp,
            end: last.timestamp + 1,
        },
        latest_event_file: last.file_name.clone(),
    };
    proof {
        let g = events.deep_view().subrange(start as int, end as int);
        assert(g.first() == events.deep_view()[start as int]);
        assert(g.last() == events.deep_view()[end - 1]);
        assert(pe.deep_view() == push_event_for(g));
    }
    pe
}

/// Copies the group `events[start..end]` so it can be handed to the store.
fn clone_group(events: &Vec<MotionEvent>, start: usize, end: usize) -> (group: Vec<MotionEvent>)
    requires
        start <= end <= events.len(),
    ensures
        group.deep_view() == events.deep_view().subrange(start as int, end as int),
{
    let mut group: Vec<MotionEvent> = Vec::new();
    let mut j: usize = start;
    proof {
        assert(group.deep_view() =~= events.deep_view().subrange(start as int, start as int));
    }
    while j < end
        invariant
            start <= j <= end <= events.len(),
            group.deep_view() == events.deep_view().subrange(start as int, j as int),
        decreases end - j,
    {
        let ghost before = group.deep_view();
        group.push(events[j].clone());
        proof {
            assert(group.deep_view() =~= before.push(events.deep_view()[j as int]));
            assert(before.push(events.deep_view()[j as int]) =~= events.deep_view().subrange(
                start as int,
                j as int + 1,
            ));
        }
        j += 1;
    }
    group
}

/// The notification workflow, holding its store, its sink and the batching
/// policy chosen at construction time.
pub struct PushEventsWorkflow<S: MotionEvents, K: PushEventSink> {
    motion_event_repo: S,
    push_event_sink: K,
    debounce_window: Option<EpochSeconds>,
}

impl<S: MotionEvents, K: PushEventSink> PushEventsWorkflow<S, K> {
    /// The store is well formed and the debounce window is a duration.
    pub closed spec fn well_formed(&self) -> bool {
        self.motion_event_repo.inv() && window_wf(self.debounce_window)
    }

    /// The unsent events of the held store.
    pub closed spec fn store_unsent(&self) -> Seq<MotionEventView> {
        self.motion_event_repo.unsent()
    }

    /// The delivery log of the held sink.
    pub closed spec fn sink_log(&self) -> Seq<PushEventView> {
        self.push_event_sink.delivered()
    }

    /// The configured debounce window.
    pub closed spec fn window(&self) -> Option<EpochSeconds> {
        self.debounce_window
    }

    /// The held store.
    pub closed spec fn store(&self) -> S {
        self.motion_event_repo
    }

    /// The held sink.
    pub closed spec fn sink(&self) -> K {
        self.push_event_sink
    }

    /// How many deliveries the held sink has refused.
    pub closed spec fn sink_refusals(&self) -> nat {
        self.push_event_sink.refusals()
    }

    /// How many markings the held store has failed.
    pub closed spec fn store_mark_failures(&self) -> nat {
        self.motion_event_repo.mark_failures()
    }

    /// Wires a workflow from its collaborators.
    pub fn new(motion_event_repo: S, push_event_sink: K, debounce_window: Option<EpochSeconds>)
        -> (w: Self)
        requires
            motion_event_repo.inv(),
            debounce_window matches Some(d) ==> d >= 0,
        ensures
            w.well_formed(),
            w.store() == motion_event_repo,
            w.sink() == push_event_sink,
            w.store_unsent() == motion_event_repo.unsent(),
            w.sink_log() == push_event_sink.delivered(),
            w.window() == debounce_window,
    {
        PushEventsWorkflow { motion_event_repo, push_event_sink, debounce_window }
    }

    /// The held store, for inspection.
    pub fn motion_event_repo(&self) -> (r: &S)
        ensures
            *r == self.store(),
            r.unsent() == self.store_unsent(),
            self.well_formed() ==> r.inv(),
    {
        &self.motion_event_repo
    }

    /// The held sink, for inspection.
    pub fn push_event_sink(&self) -> (r: &K)
        ensures
            *r == self.sink(),
            r.delivered() == self.sink_log(),
    {
        &self.push_event_sink
    }

    /// Executes one run.
    ///
    /// The unsent events are loaded in ascending order and partitioned into
    /// groups under the debounce window. For each group in time order, its
    /// push event is handed to the sink, and exactly on acceptance the
    /// group's events are marked sent. A sink or marking failure leaves its
    /// group unsent and the run continues with the remaining groups; the
    /// first error, if any, is surfaced instead of statistics.
    #[verifier::rlimit(100)]
    pub fn run(&mut self) -> (r: Result<SendPushEventsStats, SendPushEventsError>)
        requires
            old(self).well_formed(),
        ensures
            final(self).well_formed(),
            final(self).window() == old(self).window(),
            r matches Ok(stats) ==> stats@ == run_stats_for(old(self).store_unsent()),
            r is Ok ==> final(self).store_unsent() == Seq::<MotionEventView>::empty(),
            r is Ok ==> final(self).sink_log() == old(self).sink_log() + all_pushes(
                old(self).store_unsent(),
                old(self).window(),
            ),
            exists|loaded: bool, accepted: Seq<bool>, marked: Seq<bool>|
                #[trigger] run_outcome(
                    old(self).store_unsent(),
                    old(self).window(),
                    old(self).sink_log(),
                    final(self).sink_log(),
                    final(self).store_unsent(),
                    r,
                    loaded,
                    accepted,
                    marked,
                ) && final(self).sink_refusals() == old(self).sink_refusals() + count_refusals(
                    accepted,
                    accepted.len() as int,
                ) && final(self).store_mark_failures() == old(self).store_mark_failures()
                    + count_mark_failures(accepted, marked, marked.len() as int) && (!loaded
                    ==> exists|err: MotionEventError|
                    call_ensures(
                        S::load_latest_events,
                        (&old(self).store(), Order::Ascending),
                        Err::<Vec<MotionEvent>, MotionEventError>(err),
                    )),
    {
        let ghost u = self.store_unsent();
        let ghost w = self.debounce_window;
        let ghost log0 = self.sink_log();
        let loaded = self.motion_event_repo.load_latest_events(Order::Ascending);
        let events = match loaded {
            Err(e) => {
                proof {
                    assert(call_ensures(
                        S::load_latest_events,
                        (&old(self).store(), Order::Ascending),
                        Err::<Vec<MotionEvent>, MotionEventError>(e),
                    ));
                    assert(run_outcome(
                        u,
                        w,
                        log0,
                        self.sink_log(),
                        self.store_unsent(),
                        Err::<SendPushEventsStats, SendPushEventsError>(
                            SendPushEventsError::Store(e),
                        ),
                        false,
                        Seq::empty(),
                        Seq::empty(),
                    ));
                }
                return Err(SendPushEventsError::Store(e));
            },
            Ok(events) => events,
        };
        if events.len() == 0 {
            let stats = SendPushEventsStats {
                num_events: 0,
                time_period: DateTimePeriod { start: 0, end: 0 },
            };
            proof {
                assert(u =~= Seq::<MotionEventView>::empty());
                lemma_remaining_none(u, w);
                assert(num_groups(u, w) == 0);
                assert(delivered_pushes(u, w, Seq::<bool>::empty())
                    =~= Seq::<PushEventView>::empty());
                assert(self.sink_log() =~= log0 + delivered_pushes(u, w, Seq::<bool>::empty()));
                assert(all_pushes(u, w) =~= Seq::<PushEventView>::empty());
                assert(self.sink_log() =~= log0 + all_pushes(u, w));
                assert(stats@ == run_stats_for(u));
                assert(run_outcome(
                    u,
                    w,
                    log0,
                    self.sink_log(),
                    self.store_unsent(),
                    Ok::<SendPushEventsStats, SendPushEventsError>(stats),
                    true,
                    Seq::empty(),
                    Seq::empty(),
                ));
            }
            return Ok(stats);
        }
        let bounds = group_boundaries(&events, self.debounce_window);
        self.run_groups(events, bounds)
    }

    /// Delivers and marks the nonempty, already-loaded groups, one by one.
    #[verifier::rlimit(100)]
    fn run_groups(&mut self, events: Vec<MotionEvent>, bounds: Vec<usize>) -> (r: Result<
        SendPushEventsStats,
        SendPushEventsError,
    >)
        requires
            old(self).well_formed(),
            events.deep_view() == old(self).store_unsent(),
            events@.len() > 0,
            sorted_by_timestamp(old(self).store_unsent()),
            timestamps_bounded(old(self).store_unsent()),
            bounds@.len() == num_groups(old(self).store_unsent(), old(self).window()),
            forall|t: int|
                0 <= t < bounds@.len() ==> #[trigger] bounds@[t] as int == group_starts(
                    old(self).store_unsent(),
                    old(self).window(),
                )[t],
        ensures
            final(self).well_formed(),
            final(self).window() == old(self).window(),
            r matches Ok(stats) ==> stats@ == run_stats_for(old(self).store_unsent()),
            r is Ok ==> final(self).store_unsent() == Seq::<MotionEventView>::empty(),
            r is Ok ==> final(self).sink_log() == old(self).sink_log() + all_pushes(
                old(self).store_unsent(),
                old(self).window(),
            ),
            exists|loaded: bool, accepted: Seq<bool>, marked: Seq<bool>|
                #[trigger] run_outcome(
                    old(self).store_unsent(),
                    old(self).window(),
                    old(self).sink_log(),
                    final(self).sink_log(),
                    final(self).store_unsent(),
                    r,
                    loaded,
                    accepted,
                    marked,
                ) && final(self).sink_refusals() == old(self).sink_refusals() + count_refusals(
                    accepted,
                    accepted.len() as int,
                ) && final(self).store_mark_failures() == old(self).store_mark_failures()
                    + count_mark_failures(accepted, marked, marked.len() as int) && (!loaded
                    ==> exists|err: MotionEventError|
                    call_ensures(
                        S::load_latest_events,
                        (&old(self).store(), Order::Ascending),
                        Err::<Vec<MotionEvent>, MotionEventError>(err),
                    )),
    {
        let ghost u = self.store_unsent();
        let ghost w = self.debounce_window;
        let ghost log0 = self.sink_log();
        let ghost refusals0 = self.sink_refusals();
        let ghost failures0 = self.store_mark_failures();
        let ghost starts = group_starts(u, w);
        let ghost n = num_groups(u, w);
        proof {
            lemma_group_starts_props(u, w);
            assert(log0 + delivered_pushes(u, w, Seq::<bool>::empty()) =~= log0);
            lemma_remaining_none(u, w);
        }
        let mut first_err: Option<SendPushEventsError> = None;
        let ghost mut first_bad: int = 0;
        let ghost mut accepted: Seq<bool> = Seq::empty();
        let ghost mut marked: Seq<bool> = Seq::empty();
        let mut k: usize = 0;
        while k < bounds.len()
            invariant
                bounds@.len() == n,
                n == num_groups(u, w),
                n > 0,
                starts == group_starts(u, w),
                forall|t: int| 0 <= t < n ==> #[trigger] bounds@[t] as int == starts[t],
                forall|t: int| 0 <= t < n ==> 0 <= #[trigger] starts[t] < u.len(),
                forall|t: int| 0 <= t < n - 1 ==> #[trigger] starts[t] < starts[t + 1],
                starts[0] == 0,
                events.deep_view() == u,
                sorted_by_timestamp(u),
                timestamps_bounded(u),
                window_wf(w),
                self.debounce_window == w,
                k <= bounds@.len(),
                accepted.len() == k as int,
                marked.len() == k as int,
                forall|t: int| 0 <= t < k && #[trigger] marked[t] ==> accepted[t],
                self.motion_event_repo.inv(),
                self.push_event_sink.delivered() == log0 + delivered_pushes(u, w, accepted),
                self.push_event_sink.refusals() == refusals0 + count_refusals(accepted, k as int),
                self.motion_event_repo.unsent() == remaining_after(u, w, marked),
                self.motion_event_repo.mark_failures() == failures0 + count_mark_failures(
                    accepted,
                    marked,
                    k as int,
                ),
                first_err is None ==> (forall|t: int| 0 <= t < k ==> #[trigger] marked[t]),
                first_err is Some ==> 0 <= first_bad < k as int && !marked[first_bad],
                first_err matches Some(SendPushEventsError::Sink(_)) ==> !accepted[first_bad],
                first_err matches Some(SendPushEventsError::Store(_)) ==> accepted[first_bad],
            decreases bounds@.len() - k,
        {
            let ghost acc0 = accepted;
            let ghost mk0 = marked;
            let a = bounds[k];
            let b = if k + 1 < bounds.len() {
                bounds[k + 1]
            } else {
                events.len()
            };
            proof {
                assert(a as int == starts[k as int]);
                assert(b as int == group_end(u, w, k as int));
                assert(a < b) by {
                    if k as int + 1 < n {
                        assert(starts[k as int] < starts[k as int + 1]);
                    }
                }
                assert(u.subrange(a as int, b as int) == group_at(u, w, k as int));
            }
            let pe = build_push_event(&events, a, b);
            let ghost pev = pe.deep_view();
            proof {
                assert(pev == push_event_for(group_at(u, w, k as int)));
            }
            match self.push_event_sink.send_push_event(pe) {
                Ok(_) => {
                    proof {
                        lemma_delivered_pushes_push(u, w, accepted, true);
                        assert((log0 + delivered_pushes(u, w, accepted)).push(pev) =~= log0
                            + delivered_pushes(u, w, accepted).push(pev));
                        accepted = accepted.push(true);
                    }
                    let group = clone_group(&events, a, b);
                    let ghost store_before = self.motion_event_repo.unsent();
                    match self.motion_event_repo.mark_events_sent(group) {
                        Ok(_) => {
                            proof {
                                assert(self.motion_event_repo.unsent() == mark_result(
                                    remaining_after(u, w, marked),
                                    group_at(u, w, k as int),
                                ));
                                lemma_remaining_push_true(u, w, marked);
                                marked = marked.push(true);
                                lemma_counts_prefix_stable(acc0, mk0, accepted, marked, k as int);
                            }
                        },
                        Err(e) => {
                            proof {
                                lemma_remaining_push_false(u, w, marked);
                                marked = marked.push(false);
                                assert(accepted[k as int] && !marked[k as int]);
                                lemma_counts_prefix_stable(acc0, mk0, accepted, marked, k as int);
                            }
                            if first_err.is_none() {
                                first_err = Some(SendPushEventsError::Store(e));
                                proof {
                                    first_bad = k as int;
                                }
                            }
                        },
                    }
                },
                Err(e) => {
                    proof {
                        lemma_delivered_pushes_push(u, w, accepted, false);
                        lemma_remaining_push_false(u, w, marked);
                        accepted = accepted.push(false);
                        marked = marked.push(false);
                        assert(!accepted[k as int] && !marked[k as int]);
                        lemma_counts_prefix_stable(acc0, mk0, accepted, marked, k as int);
                    }
                    if first_err.is_none() {
                        first_err = Some(SendPushEventsError::Sink(e));
                        proof {
                            first_bad = k as int;
                        }
                    }
                },
            }
            k += 1;
        }
        match first_err {
            None => {
                let last = events.len() - 1;
                proof {
                    assert(events.deep_view()[last as int].timestamp < i64::MAX);
                }
                let stats = SendPushEventsStats {
                    num_events: events.len(),
                    time_period: DateTimePeriod {
                        start: events[0].timestamp,
                        end: events[last].timestamp + 1,
                    },
                };
                proof {
                    assert forall|t: int| 0 <= t < n implies #[trigger] accepted[t] by {
                        assert(marked[t]);
                    }
                    lemma_all_marked_empty(u, w, marked);
                    lemma_delivered_pushes_all(u, w, accepted);
                    assert(delivered_pushes(u, w, accepted) =~= all_pushes(u, w));
                    assert(stats@ == run_stats_for(u));
                    assert(run_outcome(
                        u,
                        w,
                        log0,
                        self.sink_log(),
                        self.store_unsent(),
                        Ok::<SendPushEventsStats, SendPushEventsError>(stats),
                        true,
                        accepted,
                        marked,
                    ));
                }
                Ok(stats)
            },
            Some(e) => {
                proof {
                    assert(0 <= first_bad < n && !marked[first_bad]);
                    if e matches SendPushEventsError::Sink(_) {
                        assert(!accepted[first_bad]);
                        assert(exists|t: int| 0 <= t < num_groups(u, w) && !accepted[t]);
                    }
                    if e matches SendPushEventsError::Store(_) {
                        assert(accepted[first_bad] && !marked[first_bad]);
                        assert(exists|t: int|
                            0 <= t < num_groups(u, w) && accepted[t] && !marked[t]);
                    }
                    assert(run_outcome(
                        u,
                        w,
                        log0,
                        self.sink_log(),
                        self.store_unsent(),
                        Err::<SendPushEventsStats, SendPushEventsError>(e),
                        true,
                        accepted,
                        marked,
                    ));
                }
                Err(e)
            },
        }
    }
}

impl<S: MotionEvents, K: PushEventSink> PushEvents for PushEventsWorkflow<S, K> {
    open spec fn wf(&self) -> bool {
        self.well_formed()
    }

    /// One run, with the full contract of [`PushEventsWorkflow::run`]
    /// restated, so a caller of the documented entry point is owed the same.
    fn send_push_events(&mut self) -> (r: Result<SendPushEventsStats, SendPushEventsError>)
        ensures
            final(self).window() == old(self).window(),
            r matches Ok(stats) ==> stats@ == run_stats_for(old(self).store_unsent()),
            r is Ok ==> final(self).store_unsent() == Seq::<MotionEventView>::empty(),
            r is Ok ==> final(self).sink_log() == old(self).sink_log() + all_pushes(
                old(self).store_unsent(),
                old(self).window(),
            ),
            exists|loaded: bool, accepted: Seq<bool>, marked: Seq<bool>|
                #[trigger] run_outcome(
                    old(self).store_unsent(),
                    old(self).window(),
                    old(self).sink_log(),
                    final(self).sink_log(),
                    final(self).store_unsent(),
                    r,
                    loaded,
                    accepted,
                    marked,
                ) && final(self).sink_refusals() == old(self).sink_refusals() + count_refusals(
                    accepted,
                    accepted.len() as int,
                ) && final(self).store_mark_failures() == old(self).store_mark_failures()
                    + count_mark_failures(accepted, marked, marked.len() as int) && (!loaded
                    ==> exists|err: MotionEventError|
                    call_ensures(
                        S::load_latest_events,
                        (&old(self).store(), Order::Ascending),
                        Err::<Vec<MotionEvent>, MotionEventError>(err),
                    )),
    {
        self.run()
    }
}

/// The motion event store selected by configuration.
#[derive(Debug)]
pub enum MotionEventsBackend {
    NoOp(NoOpMotionEvents),
    Sqlite(MotionEventsViaSqlite),
}

impl MotionEvents for MotionEventsBackend {
    open spec fn inv(&self) -> bool {
        match self {
            MotionEventsBackend::NoOp(s) => s.inv(),
            MotionEventsBackend::Sqlite(s) => s.inv(),
        }
    }

    open spec fn unsent(&self) -> Seq<MotionEventView> {
        match self {
            MotionEventsBackend::NoOp(s) => s.unsent(),
            MotionEventsBackend::Sqlite(s) => s.unsent(),
        }
    }

    open spec fn mark_failures(&self) -> nat {
        match self {
            MotionEventsBackend::NoOp(s) => s.mark_failures(),
            MotionEventsBackend::Sqlite(s) => s.mark_failures(),
        }
    }

    /// Neither configured store can fail a retrieval.
    fn load_latest_events(&self, timestamp_order: Order) -> (r: Result<
        Vec<MotionEvent>,
        MotionEventError,
    >)
        ensures
            r is Ok,
    {
        match self {
            MotionEventsBackend::NoOp(s) => s.load_latest_events(timestamp_order),
            MotionEventsBackend::Sqlite(s) => s.load_latest_events(timestamp_order),
        }
    }

    /// Neither configured store can fail a marking.
    fn mark_events_sent(&mut self, events: Vec<MotionEvent>) -> (r: Result<
        (),
        MotionEventError,
    >)
        ensures
            r is Ok,
    {
        match self {
            MotionEventsBackend::NoOp(s) => s.mark_events_sent(events),
            MotionEventsBackend::Sqlite(s) => s.mark_events_sent(events),
        }
    }
}

/// The push event sink selected by configuration.
pub enum PushEventSinkBackend {
    NoOp(NoOpPushEventSink),
    Email(PushEventEmailSink),
}

impl PushEventSink for PushEventSinkBackend {
    open spec fn delivered(&self) -> Seq<PushEventView> {
        match self {
            PushEventSinkBackend::NoOp(s) => s.delivered(),
            PushEventSinkBackend::Email(s) => s.delivered(),
        }
    }

    open spec fn refusals(&self) -> nat {
        match self {
            PushEventSinkBackend::NoOp(s) => s.refusals(),
            PushEventSinkBackend::Email(s) => s.refusals(),
        }
    }

    /// Neither configured sink can refuse a delivery.
    fn send_push_event(&mut self, push_event: PushEvent) -> (r: Result<(), PushEventsSinkError>)
        ensures
            r is Ok,
    {
        match self {
            PushEventSinkBackend::NoOp(s) => s.send_push_event(push_event),
            PushEventSinkBackend::Email(s) => s.send_push_event(push_event),
        }
    }
}

/// Builds the workflow the configuration asks for: the sqlite-located store
/// or the no-op store, the email sink or the no-op sink, and the configured
/// debounce window.
pub fn new_push_events(config: PushEventsConfig) -> (w: PushEventsWorkflow<
    MotionEventsBackend,
    PushEventSinkBackend,
>)
    requires
        config.debounce_window matches Some(d) ==> d >= 0,
    ensures
        w.well_formed(),
        w.store_unsent() == Seq::<MotionEventView>::empty(),
        w.sink_log() == Seq::<PushEventView>::empty(),
        w.window() == config.debounce_window,
        config.motion_event_repo_config is None ==> w.store() is NoOp,
        config.motion_event_repo_config matches Some(MotionEventsConfig::Sqlite { database })
            ==> (w.store() matches MotionEventsBackend::Sqlite(s) && s.location_spec()
            == database),
        config.push_event_sink_config is None ==> w.sink() is NoOp,
        config.push_event_sink_config matches Some(PushEventSinkConfig::Email { recipients })
            ==> (w.sink() matches PushEventSinkBackend::Email(s) && s.recipients_view()
            == recipients.deep_view()),
{
    let motion_event_repo = match config.motion_event_repo_config {
        None => MotionEventsBackend::NoOp(NoOpMotionEvents),
        Some(MotionEventsConfig::Sqlite { database }) => MotionEventsBackend::Sqlite(
            new_motion_events_via_sqlite(database),
        ),
    };
    let push_event_sink = match config.push_event_sink_config {
        None => PushEventSinkBackend::NoOp(NoOpPushEventSink::new()),
        Some(PushEventSinkConfig::Email { recipients }) => PushEventSinkBackend::Email(
            new_push_events_email_sink(recipients),
        ),
    };
    PushEventsWorkflow::new(motion_event_repo, push_event_sink, config.debounce_window)
}

} // verus!
