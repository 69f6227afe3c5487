//! Mathematical model of a notification run: ordering, the debounce-window
//! grouping of events, the push event composed from a group, marking, and the
//! statements that hold of every run.

use vstd::prelude::*;
use crate::push_events::{
    MotionEventView, PushEventView, DateTimePeriodView, SendPushEventsStatsView,
    SendPushEventsStats, SendPushEventsError,
};

verus! {

/// The events are ordered by ascending timestamp.
pub open spec fn sorted_by_timestamp(s: Seq<MotionEventView>) -> bool {
    forall|i: int, j: int| 0 <= i < j < s.len() ==> s[i].timestamp <= s[j].timestamp
}

/// Every timestamp leaves room for the exclusive end `timestamp + 1` of a period.
pub open spec fn timestamps_bounded(s: Seq<MotionEventView>) -> bool {
    forall|i: int| 0 <= i < s.len() ==> s[i].timestamp < i64::MAX
}

/// The debounce window is a duration, so it cannot be negative.
pub open spec fn window_wf(window: Option<i64>) -> bool {
    match window {
        None => true,
        Some(d) => d >= 0,
    }
}

/// The gap from `earlier` to `later` exceeds the debounce window, so a new
/// group starts. Without a configured window no gap ever splits.
pub open spec fn gap_splits(window: Option<i64>, earlier: int, later: int) -> bool {
    match window {
        None => false,
        Some(d) => later - earlier > d,
    }
}

/// A new group of `s` starts at index `i`.
pub open spec fn starts_group(s: Seq<MotionEventView>, window: Option<i64>, i: int) -> bool {
    i == 0 || gap_splits(window, s[i - 1].timestamp, s[i].timestamp)
}

/// The indices in `[from, s.len())` at which a group starts, ascending.
pub open spec fn group_starts_from(
    s: Seq<MotionEventView>,
    window: Option<i64>,
    from: int,
) -> Seq<int>
    decreases s.len() - from,
{
    if from < 0 || from >= s.len() {
        Seq::empty()
    } else if starts_group(s, window, from) {
        seq![from] + group_starts_from(s, window, from + 1)
    } else {
        group_starts_from(s, window, from + 1)
    }
}

/// The start index of each group of `s`, ascending.
pub open spec fn group_starts(s: Seq<MotionEventView>, window: Option<i64>) -> Seq<int> {
    group_starts_from(s, window, 0)
}

/// How many groups the batching policy partitions `s` into.
pub open spec fn num_groups(s: Seq<MotionEventView>, window: Option<i64>) -> int {
    group_starts(s, window).len() as int
}

/// The index one past the last event of group `k`.
pub open spec fn group_end(s: Seq<MotionEventView>, window: Option<i64>, k: int) -> int {
    let starts = group_starts(s, window);
    if k + 1 < starts.len() {
        starts[k + 1]
    } else {
        s.len() as int
    }
}

/// The events of group `k`, in ascending timestamp order.
pub open spec fn group_at(s: Seq<MotionEventView>, window: Option<i64>, k: int) -> Seq<
    MotionEventView,
> {
    s.subrange(group_starts(s, window)[k], group_end(s, window, k))
}

/// The push event composed from one nonempty group: the group's size, the
/// half-open period from its first timestamp to one past its last, and the
/// file of its latest event.
pub open spec fn push_event_for(group: Seq<MotionEventView>) -> PushEventView {
    PushEventView {
        num_motion_events: group.len() as int,
        date_time_period: DateTimePeriodView {
            start: group.first().timestamp,
            end: group.last().timestamp + 1,
        },
        latest_event_file: group.last().file_name,
    }
}

/// The conjunction of two predicates, as a single predicate value.
pub open spec fn pred_and<A>(p: spec_fn(A) -> bool, q: spec_fn(A) -> bool) -> spec_fn(A) -> bool {
    |e: A| p(e) && q(e)
}

/// Holds of an event that is not equal to any of `events`.
pub open spec fn not_contained_in(events: Seq<MotionEventView>) -> spec_fn(
    MotionEventView,
) -> bool {
    |e: MotionEventView| !events.contains(e)
}

/// Holds of an event that is equal to one of `events`.
pub open spec fn contained_in(events: Seq<MotionEventView>) -> spec_fn(MotionEventView) -> bool {
    |e: MotionEventView| events.contains(e)
}

/// The unsent set after marking `events` sent: every event equal to a marked
/// one leaves, all others stay in order.
pub open spec fn mark_result(
    unsent: Seq<MotionEventView>,
    events: Seq<MotionEventView>,
) -> Seq<MotionEventView> {
    unsent.filter(not_contained_in(events))
}

/// The push events accepted by the sink during a run, given which of the
/// first `accepted.len()` groups the sink accepted.
pub open spec fn delivered_pushes(
    s: Seq<MotionEventView>,
    window: Option<i64>,
    accepted: Seq<bool>,
) -> Seq<PushEventView>
    decreases accepted.len(),
{
    if accepted.len() == 0 {
        Seq::empty()
    } else {
        let rest = delivered_pushes(s, window, accepted.drop_last());
        if accepted.last() {
            rest.push(push_event_for(group_at(s, window, accepted.len() - 1)))
        } else {
            rest
        }
    }
}

/// The push events of all groups of `s`, in ascending time order.
pub open spec fn all_pushes(s: Seq<MotionEventView>, window: Option<i64>) -> Seq<PushEventView> {
    Seq::new(num_groups(s, window) as nat, |k: int| push_event_for(group_at(s, window, k)))
}

/// The event `e` belongs to a group that was marked sent.
pub open spec fn in_marked_group(
    s: Seq<MotionEventView>,
    window: Option<i64>,
    marked: Seq<bool>,
    e: MotionEventView,
) -> bool {
    exists|k: int| 0 <= k < marked.len() && marked[k] && group_at(s, window, k).contains(e)
}

/// Holds of an event that no marked group contains.
pub open spec fn not_in_marked_group(
    s: Seq<MotionEventView>,
    window: Option<i64>,
    marked: Seq<bool>,
) -> spec_fn(MotionEventView) -> bool {
    |e: MotionEventView| !in_marked_group(s, window, marked, e)
}

/// The unsent set after a run that marked exactly the groups flagged in
/// `marked`.
pub open spec fn remaining_after(
    s: Seq<MotionEventView>,
    window: Option<i64>,
    marked: Seq<bool>,
) -> Seq<MotionEventView> {
    s.filter(not_in_marked_group(s, window, marked))
}

/// The statistics of a fully successful run over the unsent events `s`:
/// every event counted, and the half-open span from the earliest timestamp to
/// one past the latest. An empty run has zero events and the empty period.
pub open spec fn run_stats_for(s: Seq<MotionEventView>) -> SendPushEventsStatsView {
    if s.len() == 0 {
        SendPushEventsStatsView {
            num_events: 0,
            time_period: DateTimePeriodView { start: 0, end: 0 },
        }
    } else {
        SendPushEventsStatsView {
            num_events: s.len() as int,
            time_period: DateTimePeriodView {
                start: s.first().timestamp,
                end: s.last().timestamp + 1,
            },
        }
    }
}

/// `after` is `before` with `e` inserted behind every event whose timestamp
/// is at most `e`'s and in front of every later one.
pub open spec fn inserted_in_order(
    before: Seq<MotionEventView>,
    after: Seq<MotionEventView>,
    e: MotionEventView,
) -> bool {
    exists|i: int|
        #![auto]
        0 <= i <= before.len() && after == before.insert(i, e) && (forall|j: int|
            0 <= j < i ==> before[j].timestamp <= e.timestamp) && (forall|j: int|
            i <= j < before.len() ==> before[j].timestamp > e.timestamp)
}

/// Everything a run guarantees, whatever the store and the sink decided.
///
/// `loaded` says whether the initial retrieval succeeded; `accepted[k]` says
/// whether the sink accepted group `k`'s push event, and `marked[k]` whether
/// that group was then marked sent. A failed retrieval leaves everything
/// unchanged; otherwise the sink log grows by exactly the accepted push
/// events in order, the unsent set shrinks by exactly the marked groups, a
/// group is only ever marked after its delivery was accepted, and the run
/// reports success if and only if every group was delivered and marked.
pub open spec fn run_outcome(
    unsent_before: Seq<MotionEventView>,
    window: Option<i64>,
    log_before: Seq<PushEventView>,
    log_after: Seq<PushEventView>,
    unsent_after: Seq<MotionEventView>,
    r: Result<SendPushEventsStats, SendPushEventsError>,
    loaded: bool,
    accepted: Seq<bool>,
    marked: Seq<bool>,
) -> bool {
    if !loaded {
        &&& log_after == log_before
        &&& unsent_after == unsent_before
        &&& r matches Err(SendPushEventsError::Store(_))
    } else {
        let n = num_groups(unsent_before, window);
        &&& accepted.len() == n
        &&& marked.len() == n
        &&& forall|k: int| 0 <= k < n && marked[k] ==> accepted[k]
        &&& log_after == log_before + delivered_pushes(unsent_before, window, accepted)
        &&& unsent_after == remaining_after(unsent_before, window, marked)
        &&& ((r is Ok) <==> (forall|k: int| 0 <= k < n ==> marked[k]))
        &&& (r matches Ok(stats) ==> stats@ == run_stats_for(unsent_before))
        &&& (r matches Err(SendPushEventsError::Sink(_)) ==> exists|k: int|
            0 <= k < n && !accepted[k])
        &&& (r matches Err(SendPushEventsError::Store(_)) ==> exists|k: int|
            0 <= k < n && accepted[k] && !marked[k])
    }
}

// --- General facts about `Seq::filter`, proved once and reused below. ---

pub proof fn lemma_filter_push<A>(s: Seq<A>, x: A, pred: spec_fn(A) -> bool)
    ensures
        s.push(x).filter(pred) == if pred(x) {
            s.filter(pred).push(x)
        } else {
            s.filter(pred)
        },
{
    reveal(Seq::filter);
    assert(s.push(x).drop_last() =~= s);
    assert(s.push(x).last() == x);
}

pub proof fn lemma_filter_membership<A>(s: Seq<A>, pred: spec_fn(A) -> bool)
    ensures
        forall|x: A| #[trigger] s.filter(pred).contains(x) <==> s.contains(x) && pred(x),
    decreases s.len(),
{
    reveal(Seq::filter);
    if s.len() == 0 {
        assert forall|x: A| #[trigger] s.filter(pred).contains(x) implies s.contains(x) && pred(
            x,
        ) by {
            assert(s.filter(pred) == s);
        }
    } else {
        let dl = s.drop_last();
        lemma_filter_membership(dl, pred);
        assert(s =~= dl.push(s.last()));
        assert forall|x: A| #[trigger] s.filter(pred).contains(x) implies s.contains(x) && pred(
            x,
        ) by {
            if pred(s.last()) && x == s.last() {
                assert(s[s.len() - 1] == x);
            } else {
                let i = choose|i: int| 0 <= i < s.filter(pred).len() && s.filter(pred)[i] == x;
                if i < dl.filter(pred).len() {
                    assert(dl.filter(pred)[i] == x);
                    assert(dl.filter(pred).contains(x));
                    let j = choose|j: int| 0 <= j < dl.len() && dl[j] == x;
                    assert(s[j] == x);
                } else {
                    assert(x == s.last());
                }
            }
        }
        assert forall|x: A| s.contains(x) && pred(x) implies #[trigger] s.filter(pred).contains(
            x,
        ) by {
            let i = choose|i: int| 0 <= i < s.len() && s[i] == x;
            if i < dl.len() {
                assert(dl[i] == x);
                assert(dl.contains(x));
                assert(dl.filter(pred).contains(x));
                let j = choose|j: int|
                    0 <= j < dl.filter(pred).len() && dl.filter(pred)[j] == x;
                assert(s.filter(pred)[j] == x);
            } else {
                assert(x == s.last());
                assert(s.filter(pred).last() == x);
            }
        }
    }
}

pub proof fn lemma_filter_all<A>(s: Seq<A>, pred: spec_fn(A) -> bool)
    requires
        forall|i: int| 0 <= i < s.len() ==> pred(#[trigger] s[i]),
    ensures
        s.filter(pred) == s,
    decreases s.len(),
{
    reveal(Seq::filter);
    if s.len() == 0 {
    } else {
        let dl = s.drop_last();
        assert(forall|i: int| 0 <= i < dl.len() ==> pred(#[trigger] dl[i]));
        lemma_filter_all(dl, pred);
        assert(pred(s.last()));
        assert(s.filter(pred) =~= s);
    }
}

pub proof fn lemma_filter_none<A>(s: Seq<A>, pred: spec_fn(A) -> bool)
    requires
        forall|i: int| 0 <= i < s.len() ==> !pred(#[trigger] s[i]),
    ensures
        s.filter(pred) == Seq::<A>::empty(),
    decreases s.len(),
{
    reveal(Seq::filter);
    if s.len() == 0 {
        assert(s.filter(pred) =~= Seq::<A>::empty());
    } else {
        let dl = s.drop_last();
        assert(forall|i: int| 0 <= i < dl.len() ==> !pred(#[trigger] dl[i]));
        lemma_filter_none(dl, pred);
        assert(!pred(s.last()));
    }
}

pub proof fn lemma_filter_congruent<A>(s: Seq<A>, p: spec_fn(A) -> bool, q: spec_fn(A) -> bool)
    requires
        forall|i: int| 0 <= i < s.len() ==> (p(#[trigger] s[i]) <==> q(s[i])),
    ensures
        s.filter(p) == s.filter(q),
    decreases s.len(),
{
    reveal(Seq::filter);
    if s.len() == 0 {
    } else {
        let dl = s.drop_last();
        assert(forall|i: int| 0 <= i < dl.len() ==> (p(#[trigger] dl[i]) <==> q(dl[i])));
        lemma_filter_congruent(dl, p, q);
        assert(p(s.last()) <==> q(s.last()));
    }
}

pub proof fn lemma_filter_compose<A>(s: Seq<A>, p: spec_fn(A) -> bool, q: spec_fn(A) -> bool)
    ensures
        s.filter(p).filter(q) == s.filter(pred_and(p, q)),
    decreases s.len(),
{
    reveal(Seq::filter);
    let c = pred_and(p, q);
    if s.len() == 0 {
    } else {
        let dl = s.drop_last();
        lemma_filter_compose(dl, p, q);
        if p(s.last()) {
            assert(s.filter(p) == dl.filter(p).push(s.last()));
            lemma_filter_push(dl.filter(p), s.last(), q);
        } else {
            assert(s.filter(p) == dl.filter(p));
        }
    }
}

pub proof fn lemma_filter_sorted(s: Seq<MotionEventView>, pred: spec_fn(MotionEventView) -> bool)
    requires
        sorted_by_timestamp(s),
    ensures
        sorted_by_timestamp(s.filter(pred)),
    decreases s.len(),
{
    reveal(Seq::filter);
    if s.len() == 0 {
    } else {
        let dl = s.drop_last();
        assert(sorted_by_timestamp(dl));
        lemma_filter_sorted(dl, pred);
        if pred(s.last()) {
            let f = dl.filter(pred);
            assert(s.filter(pred) == f.push(s.last()));
            lemma_filter_membership(dl, pred);
            assert forall|i: int, j: int|
                0 <= i < j < f.push(s.last()).len() implies f.push(s.last())[i].timestamp <= f.push(
                s.last(),
            )[j].timestamp by {
                if j < f.len() {
                } else {
                    assert(f.push(s.last())[j] == s.last());
                    assert(f.contains(f[i]));
                    assert(dl.contains(f[i]));
                    let t = choose|t: int| 0 <= t < dl.len() && dl[t] == f[i];
                    assert(s[t] == f[i]);
                    assert(s[t].timestamp <= s.last().timestamp);
                }
            }
        }
    }
}

// --- Structure of the debounce-window grouping. ---

pub proof fn lemma_group_starts_from_props(s: Seq<MotionEventView>, window: Option<i64>, from: int)
    requires
        0 <= from,
    ensures
        ({
            let g = group_starts_from(s, window, from);
            &&& forall|t: int|
                0 <= t < g.len() ==> from <= #[trigger] g[t] < s.len() && starts_group(
                    s,
                    window,
                    g[t],
                )
            &&& forall|t: int| 0 <= t < g.len() - 1 ==> #[trigger] g[t] < g[t + 1]
            &&& forall|j: int| from <= j < s.len() && starts_group(s, window, j) ==> g.contains(j)
            &&& (from < s.len() && starts_group(s, window, from) ==> g.len() > 0 && g[0] == from)
        }),
    decreases s.len() - from,
{
    let g = group_starts_from(s, window, from);
    if from >= s.len() {
    } else {
        lemma_group_starts_from_props(s, window, from + 1);
        let rest = group_starts_from(s, window, from + 1);
        if starts_group(s, window, from) {
            assert(g == seq![from] + rest);
            assert(g[0] == from);
            assert(forall|t: int| 0 <= t < rest.len() ==> g[t + 1] == #[trigger] rest[t]);
            assert forall|j: int|
                from <= j < s.len() && starts_group(s, window, j) implies g.contains(j) by {
                if j == from {
                    assert(g[0] == j);
                } else {
                    assert(rest.contains(j));
                    let t = choose|t: int| 0 <= t < rest.len() && rest[t] == j;
                    assert(g[t + 1] == j);
                }
            }
        } else {
            assert(g == rest);
            assert forall|j: int|
                from <= j < s.len() && starts_group(s, window, j) implies g.contains(j) by {
                assert(j != from);
            }
        }
    }
}

/// The start indices of the groups of a nonempty `s`: they begin at zero,
/// ascend strictly, lie in range, and are exactly the group-start points.
pub proof fn lemma_group_starts_props(s: Seq<MotionEventView>, window: Option<i64>)
    ensures
        ({
            let g = group_starts(s, window);
            &&& forall|t: int|
                0 <= t < g.len() ==> 0 <= #[trigger] g[t] < s.len() && starts_group(
                    s,
                    window,
                    g[t],
                )
            &&& forall|t: int| 0 <= t < g.len() - 1 ==> #[trigger] g[t] < g[t + 1]
            &&& forall|j: int| 0 <= j < s.len() && starts_group(s, window, j) ==> g.contains(j)
            &&& (s.len() > 0 ==> g.len() > 0 && g[0] == 0)
            &&& (s.len() == 0 ==> g.len() == 0)
        }),
{
    lemma_group_starts_from_props(s, window, 0);
}

pub proof fn lemma_starts_increasing(s: Seq<MotionEventView>, window: Option<i64>, a: int, b: int)
    requires
        0 <= a < b < num_groups(s, window),
    ensures
        group_starts(s, window)[a] < group_starts(s, window)[b],
    decreases b - a,
{
    lemma_group_starts_props(s, window);
    if a + 1 == b {
    } else {
        lemma_starts_increasing(s, window, a + 1, b);
    }
}

/// Every index of `s` lies inside some group.
pub proof fn lemma_index_in_group(s: Seq<MotionEventView>, window: Option<i64>, i: int)
    requires
        0 <= i < s.len(),
    ensures
        exists|k: int|
            0 <= k < num_groups(s, window) && (#[trigger] group_starts(s, window)[k]) <= i
                < group_end(s, window, k),
{
    lemma_group_starts_props(s, window);
    lemma_index_in_group_from(s, window, i, 0);
}

proof fn lemma_index_in_group_from(s: Seq<MotionEventView>, window: Option<i64>, i: int, k: int)
    requires
        0 <= i < s.len(),
        0 <= k < num_groups(s, window),
        group_starts(s, window)[k] <= i,
    ensures
        exists|j: int|
            0 <= j < num_groups(s, window) && (#[trigger] group_starts(s, window)[j]) <= i
                < group_end(s, window, j),
    decreases num_groups(s, window) - k,
{
    lemma_group_starts_props(s, window);
    let starts = group_starts(s, window);
    if k + 1 < starts.len() && starts[k + 1] <= i {
        lemma_index_in_group_from(s, window, i, k + 1);
    } else {
        assert(group_starts(s, window)[k] <= i < group_end(s, window, k));
    }
}

/// An event of one group never occurs in a later group: the boundary gap is
/// strictly positive, so all timestamps of the later group are strictly
/// larger.
pub proof fn lemma_groups_disjoint(s: Seq<MotionEventView>, window: Option<i64>, j: int, k: int)
    requires
        sorted_by_timestamp(s),
        window_wf(window),
        0 <= j < k < num_groups(s, window),
    ensures
        forall|e: MotionEventView|
            group_at(s, window, j).contains(e) ==> !group_at(s, window, k).contains(e),
{
    lemma_group_starts_props(s, window);
    let starts = group_starts(s, window);
    let m = starts[k];
    lemma_starts_increasing(s, window, 0, k);
    assert(m > 0);
    match window {
        None => {
            assert(starts_group(s, window, m));
            assert(false);
        },
        Some(d) => {
            assert(s[m - 1].timestamp < s[m].timestamp);
            if j + 1 < k {
                lemma_starts_increasing(s, window, j + 1, k);
            }
            assert(group_end(s, window, j) <= m);
            assert forall|e: MotionEventView|
                group_at(s, window, j).contains(e) implies !group_at(s, window, k).contains(
                e,
            ) by {
                let gj = group_at(s, window, j);
                let a = choose|a: int| 0 <= a < gj.len() && gj[a] == e;
                let ia = starts[j] + a;
                assert(s[ia] == e);
                assert(ia <= m - 1);
                assert(e.timestamp <= s[m - 1].timestamp);
                if group_at(s, window, k).contains(e) {
                    let gk = group_at(s, window, k);
                    let b = choose|b: int| 0 <= b < gk.len() && gk[b] == e;
                    let ib = m + b;
                    assert(s[ib] == e);
                    assert(s[m].timestamp <= s[ib].timestamp);
                    assert(false);
                }
            }
        },
    }
}

// --- How one step of the run extends the sink log and shrinks the unsent set. ---

pub proof fn lemma_delivered_pushes_push(
    s: Seq<MotionEventView>,
    window: Option<i64>,
    accepted: Seq<bool>,
    b: bool,
)
    ensures
        delivered_pushes(s, window, accepted.push(b)) == if b {
            delivered_pushes(s, window, accepted).push(
                push_event_for(group_at(s, window, accepted.len() as int)),
            )
        } else {
            delivered_pushes(s, window, accepted)
        },
{
    assert(accepted.push(b).drop_last() =~= accepted);
    assert(accepted.push(b).last() == b);
}

pub proof fn lemma_delivered_pushes_all(
    s: Seq<MotionEventView>,
    window: Option<i64>,
    accepted: Seq<bool>,
)
    requires
        forall|t: int| 0 <= t < accepted.len() ==> accepted[t],
    ensures
        delivered_pushes(s, window, accepted) == Seq::new(
            accepted.len(),
            |k: int| push_event_for(group_at(s, window, k)),
        ),
    decreases accepted.len(),
{
    let f = |k: int| push_event_for(group_at(s, window, k));
    if accepted.len() == 0 {
        assert(delivered_pushes(s, window, accepted) =~= Seq::new(0, f));
    } else {
        let dl = accepted.drop_last();
        assert(forall|t: int| 0 <= t < dl.len() ==> dl[t]);
        lemma_delivered_pushes_all(s, window, dl);
        assert(accepted.last());
        assert(Seq::new(accepted.len(), f) =~= Seq::new(dl.len(), f).push(
            f(accepted.len() - 1),
        ));
    }
}

pub proof fn lemma_remaining_push_true(
    s: Seq<MotionEventView>,
    window: Option<i64>,
    marked: Seq<bool>,
)
    ensures
        remaining_after(s, window, marked.push(true)) == mark_result(
            remaining_after(s, window, marked),
            group_at(s, window, marked.len() as int),
        ),
{
    let m2 = marked.push(true);
    let g = group_at(s, window, marked.len() as int);
    let p = not_in_marked_group(s, window, marked);
    let q = not_contained_in(g);
    let pq = pred_and(p, q);
    let pn = not_in_marked_group(s, window, m2);
    lemma_filter_compose(s, p, q);
    assert forall|i: int| 0 <= i < s.len() implies (pq(#[trigger] s[i]) <==> pn(s[i])) by {
        let e = s[i];
        if in_marked_group(s, window, m2, e) {
            let k = choose|k: int| 0 <= k < m2.len() && m2[k] && group_at(s, window, k).contains(e);
            if k < marked.len() {
                assert(in_marked_group(s, window, marked, e));
            } else {
                assert(g.contains(e));
            }
        }
        if in_marked_group(s, window, marked, e) {
            let k = choose|k: int|
                0 <= k < marked.len() && marked[k] && group_at(s, window, k).contains(e);
            assert(m2[k] && group_at(s, window, k).contains(e));
            assert(in_marked_group(s, window, m2, e));
        }
        if g.contains(e) {
            assert(m2[marked.len() as int] && group_at(s, window, marked.len() as int).contains(e));
            assert(in_marked_group(s, window, m2, e));
        }
    }
    lemma_filter_congruent(s, pq, pn);
}

pub proof fn lemma_remaining_push_false(
    s: Seq<MotionEventView>,
    window: Option<i64>,
    marked: Seq<bool>,
)
    ensures
        remaining_after(s, window, marked.push(false)) == remaining_after(s, window, marked),
{
    let m2 = marked.push(false);
    let p = not_in_marked_group(s, window, marked);
    let pn = not_in_marked_group(s, window, m2);
    assert forall|i: int| 0 <= i < s.len() implies (p(#[trigger] s[i]) <==> pn(s[i])) by {
        let e = s[i];
        if in_marked_group(s, window, m2, e) {
            let k = choose|k: int| 0 <= k < m2.len() && m2[k] && group_at(s, window, k).contains(e);
            assert(k < marked.len() && marked[k]);
            assert(in_marked_group(s, window, marked, e));
        }
        if in_marked_group(s, window, marked, e) {
            let k = choose|k: int|
                0 <= k < marked.len() && marked[k] && group_at(s, window, k).contains(e);
            assert(m2[k] && group_at(s, window, k).contains(e));
            assert(in_marked_group(s, window, m2, e));
        }
    }
    lemma_filter_congruent(s, pn, p);
}

pub proof fn lemma_remaining_none(s: Seq<MotionEventView>, window: Option<i64>)
    ensures
        remaining_after(s, window, Seq::empty()) == s,
{
    let p = not_in_marked_group(s, window, Seq::empty());
    assert forall|i: int| 0 <= i < s.len() implies p(#[trigger] s[i]) by {
        assert(!in_marked_group(s, window, Seq::empty(), s[i]));
    }
    lemma_filter_all(s, p);
}

/// After a run that marked every group, nothing is left unsent: the groups
/// cover all events.
pub proof fn lemma_all_marked_empty(
    s: Seq<MotionEventView>,
    window: Option<i64>,
    marked: Seq<bool>,
)
    requires
        marked.len() == num_groups(s, window),
        forall|t: int| 0 <= t < marked.len() ==> marked[t],
    ensures
        remaining_after(s, window, marked) == Seq::<MotionEventView>::empty(),
{
    lemma_group_starts_props(s, window);
    let p = not_in_marked_group(s, window, marked);
    assert forall|i: int| 0 <= i < s.len() implies !p(#[trigger] s[i]) by {
        lemma_index_in_group(s, window, i);
        let k = choose|k: int|
            0 <= k < num_groups(s, window) && (#[trigger] group_starts(s, window)[k]) <= i
                < group_end(s, window, k);
        assert(group_at(s, window, k)[i - group_starts(s, window)[k]] == s[i]);
        assert(group_at(s, window, k).contains(s[i]));
        assert(marked[k]);
        assert(0 <= k < marked.len() && marked[k] && group_at(s, window, k).contains(s[i]));
        assert(in_marked_group(s, window, marked, s[i]));
    }
    lemma_filter_none(s, p);
}

/// How many of the first `k` groups the sink refused.
pub open spec fn count_refusals(accepted: Seq<bool>, k: int) -> nat
    decreases k,
{
    if k <= 0 {
        0
    } else {
        count_refusals(accepted, k - 1) + if !accepted[k - 1] {
            1nat
        } else {
            0nat
        }
    }
}

/// How many of the first `k` groups were delivered but could not be marked.
pub open spec fn count_mark_failures(accepted: Seq<bool>, marked: Seq<bool>, k: int) -> nat
    decreases k,
{
    if k <= 0 {
        0
    } else {
        count_mark_failures(accepted, marked, k - 1) + if accepted[k - 1] && !marked[k - 1] {
            1nat
        } else {
            0nat
        }
    }
}

/// The counts over the first `k` groups depend only on the first `k` flags.
pub proof fn lemma_counts_prefix_stable(
    accepted: Seq<bool>,
    marked: Seq<bool>,
    a2: Seq<bool>,
    m2: Seq<bool>,
    k: int,
)
    requires
        forall|j: int| 0 <= j < k ==> (#[trigger] a2[j]) == accepted[j],
        forall|j: int| 0 <= j < k ==> (#[trigger] m2[j]) == marked[j],
    ensures
        count_refusals(a2, k) == count_refusals(accepted, k),
        count_mark_failures(a2, m2, k) == count_mark_failures(accepted, marked, k),
    decreases k,
{
    if k > 0 {
        lemma_counts_prefix_stable(accepted, marked, a2, m2, k - 1);
        assert(a2[k - 1] == accepted[k - 1]);
        assert(m2[k - 1] == marked[k - 1]);
    }
}

/// A run whose sink refused nothing and whose store failed no marking has
/// delivered and marked every group: success is owed when the collaborators
/// cannot fail.
pub proof fn lemma_no_failures_all_delivered(accepted: Seq<bool>, marked: Seq<bool>)
    requires
        accepted.len() == marked.len(),
        count_refusals(accepted, accepted.len() as int) == 0,
        count_mark_failures(accepted, marked, marked.len() as int) == 0,
    ensures
        forall|k: int| 0 <= k < accepted.len() ==> #[trigger] accepted[k],
        forall|k: int| 0 <= k < marked.len() ==> #[trigger] marked[k],
{
    lemma_counts_zero_prefix(accepted, marked, accepted.len() as int);
}

proof fn lemma_counts_zero_prefix(accepted: Seq<bool>, marked: Seq<bool>, k: int)
    requires
        count_refusals(accepted, k) == 0,
        count_mark_failures(accepted, marked, k) == 0,
    ensures
        forall|j: int| 0 <= j < k ==> #[trigger] accepted[j],
        forall|j: int| 0 <= j < k ==> #[trigger] marked[j],
    decreases k,
{
    if k > 0 {
        lemma_counts_zero_prefix(accepted, marked, k - 1);
        assert(accepted[k - 1]);
        assert(marked[k - 1]);
    }
}

/// Success is owed: an outcome whose retrieval succeeded, whose sink refused
/// nothing and whose store failed no marking reports success. Together with
/// the two counters of a run, this lets a caller conclude `Ok` from
/// collaborators whose contracts rule the failures out.
pub proof fn lemma_no_failures_is_ok(
    unsent_before: Seq<MotionEventView>,
    window: Option<i64>,
    log_before: Seq<PushEventView>,
    log_after: Seq<PushEventView>,
    unsent_after: Seq<MotionEventView>,
    r: Result<SendPushEventsStats, SendPushEventsError>,
    loaded: bool,
    accepted: Seq<bool>,
    marked: Seq<bool>,
)
    requires
        run_outcome(
            unsent_before,
            window,
            log_before,
            log_after,
            unsent_after,
            r,
            loaded,
            accepted,
            marked,
        ),
        loaded,
        count_refusals(accepted, accepted.len() as int) == 0,
        count_mark_failures(accepted, marked, marked.len() as int) == 0,
    ensures
        r is Ok,
{
    lemma_no_failures_all_delivered(accepted, marked);
}

// --- The laws of the library. ---

/// Idempotent marking: marking the same events sent twice leaves the unsent
/// set exactly as marking them once does.
pub proof fn lemma_mark_events_sent_idempotent(
    unsent: Seq<MotionEventView>,
    events: Seq<MotionEventView>,
)
    ensures
        mark_result(mark_result(unsent, events), events) == mark_result(unsent, events),
{
    let p = not_contained_in(events);
    let once = unsent.filter(p);
    lemma_filter_membership(unsent, p);
    assert forall|i: int| 0 <= i < once.len() implies p(#[trigger] once[i]) by {
        assert(once.contains(once[i]));
    }
    lemma_filter_all(once, p);
}

/// No premature marking: when the delivery of group `k` was not accepted,
/// the group is not marked, and every one of its events is still unsent
/// after the run.
pub proof fn lemma_no_premature_marking(
    s: Seq<MotionEventView>,
    window: Option<i64>,
    marked: Seq<bool>,
    k: int,
    i: int,
)
    requires
        sorted_by_timestamp(s),
        window_wf(window),
        marked.len() == num_groups(s, window),
        0 <= k < num_groups(s, window),
        !marked[k],
        group_starts(s, window)[k] <= i < group_end(s, window, k),
    ensures
        remaining_after(s, window, marked).contains(s[i]),
{
    lemma_group_starts_props(s, window);
    let starts = group_starts(s, window);
    let gk = group_at(s, window, k);
    assert(0 <= i < s.len()) by {
        if k + 1 < starts.len() {
            assert(group_end(s, window, k) == starts[k + 1]);
        }
    }
    assert(gk[i - starts[k]] == s[i]);
    assert(gk.contains(s[i]));
    let p = not_in_marked_group(s, window, marked);
    assert(p(s[i])) by {
        if in_marked_group(s, window, marked, s[i]) {
            let j = choose|j: int|
                0 <= j < marked.len() && marked[j] && group_at(s, window, j).contains(s[i]);
            assert(j != k);
            if j < k {
                lemma_groups_disjoint(s, window, j, k);
                assert(!group_at(s, window, k).contains(s[i]));
            } else {
                lemma_groups_disjoint(s, window, k, j);
                assert(!group_at(s, window, j).contains(s[i]));
            }
        }
    }
    lemma_filter_membership(s, p);
    assert(s.contains(s[i]));
}

/// The total size of the first `k` groups.
pub open spec fn group_size_sum(s: Seq<MotionEventView>, window: Option<i64>, k: int) -> int
    decreases k,
{
    if k <= 0 {
        0
    } else {
        group_size_sum(s, window, k - 1) + group_at(s, window, k - 1).len()
    }
}

proof fn lemma_group_size_sum_prefix(s: Seq<MotionEventView>, window: Option<i64>, k: int)
    requires
        s.len() > 0,
        0 <= k <= num_groups(s, window),
    ensures
        group_size_sum(s, window, k) == if k == 0 {
            0
        } else {
            group_end(s, window, k - 1)
        },
    decreases k,
{
    lemma_group_starts_props(s, window);
    let starts = group_starts(s, window);
    if k == 0 {
    } else {
        lemma_group_size_sum_prefix(s, window, k - 1);
        if k - 1 > 0 {
            assert(group_end(s, window, k - 2) == starts[k - 1]);
        }
        assert(group_end(s, window, k - 1) >= starts[k - 1]) by {
            if k < starts.len() {
                lemma_starts_increasing(s, window, k - 1, k);
            }
        }
        assert(group_at(s, window, k - 1).len() == group_end(s, window, k - 1) - starts[k - 1]);
    }
}

/// Stats correctness: the groups of a run partition the events, so in a
/// fully successful run the reported count — the sum of the delivered group
/// sizes — is the number of unsent events, and the reported period spans
/// exactly `[min timestamp, max timestamp + 1)` of the delivered events.
pub proof fn lemma_stats_correctness(s: Seq<MotionEventView>, window: Option<i64>)
    requires
        sorted_by_timestamp(s),
        s.len() > 0,
    ensures
        group_size_sum(s, window, num_groups(s, window)) == s.len(),
        run_stats_for(s).num_events == group_size_sum(s, window, num_groups(s, window)),
        run_stats_for(s).time_period.start == s.first().timestamp,
        run_stats_for(s).time_period.end == s.last().timestamp + 1,
        forall|i: int|
            0 <= i < s.len() ==> run_stats_for(s).time_period.start <= #[trigger] s[i].timestamp
                < run_stats_for(s).time_period.end,
{
    lemma_group_starts_props(s, window);
    lemma_group_size_sum_prefix(s, window, num_groups(s, window));
}

/// Empty run: with no unsent events there are no groups, nothing is
/// delivered, and the reported statistics are zero events over the empty
/// period.
pub proof fn lemma_empty_run(window: Option<i64>)
    ensures
        num_groups(Seq::empty(), window) == 0,
        all_pushes(Seq::empty(), window) == Seq::<PushEventView>::empty(),
        run_stats_for(Seq::empty()).num_events == 0,
        run_stats_for(Seq::empty()).time_period.start == 0,
        run_stats_for(Seq::empty()).time_period.end == 0,
{
    lemma_group_starts_props(Seq::empty(), window);
    assert(all_pushes(Seq::empty(), window) =~= Seq::<PushEventView>::empty());
}

} // verus!
