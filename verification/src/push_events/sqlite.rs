//! The motion event store selected by a sqlite database location.
//!
//! The relational engine itself is an external collaborator reached only at
//! this interface; the store governs the records the workflow sees — each
//! motion event with its durable sent flag — and provides ordered retrieval,
//! and marking that is idempotent and all-or-nothing per invocation.

use vstd::prelude::*;
use crate::push_events::{
    MotionEvent, MotionEventView, MotionEvents, MotionEventError, Order, SqliteDatabaseLocation,
    motion_event_eq,
};
use crate::push_events::model::{
    sorted_by_timestamp, timestamps_bounded, mark_result, inserted_in_order, not_contained_in,
    contained_in, lemma_filter_membership, lemma_filter_sorted, lemma_filter_push,
};

verus! {

/// Store of motion events with their sent flags, ordered by time.
#[derive(Debug)]
pub struct MotionEventsViaSqlite {
    location: SqliteDatabaseLocation,
    unsent_events: Vec<MotionEvent>,
    sent_events: Vec<MotionEvent>,
}

/// Builds the store for the given database location, holding no events yet.
pub fn new_motion_events_via_sqlite(database: SqliteDatabaseLocation) -> (r:
    MotionEventsViaSqlite)
    ensures
        r.inv(),
        r.unsent() == Seq::<MotionEventView>::empty(),
        r.sent() == Seq::<MotionEventView>::empty(),
        r.location_spec() == database,
{
    let r = MotionEventsViaSqlite {
        location: database,
        unsent_events: Vec::new(),
        sent_events: Vec::new(),
    };
    proof {
        assert(r.unsent() =~= Seq::<MotionEventView>::empty());
    }
    r
}

impl MotionEventsViaSqlite {
    /// The configured database location.
    pub closed spec fn location_spec(&self) -> SqliteDatabaseLocation {
        self.location
    }

    /// The events already marked sent, in the order they were marked.
    pub closed spec fn sent(&self) -> Seq<MotionEventView> {
        self.sent_events.deep_view()
    }

    /// The configured database location.
    pub fn location(&self) -> (r: &SqliteDatabaseLocation)
        ensures
            *r == self.location_spec(),
    {
        &self.location
    }

    /// The events already marked sent, in the order they were marked.
    pub fn sent_events(&self) -> (r: &Vec<MotionEvent>)
        ensures
            r.deep_view() == self.sent(),
    {
        &self.sent_events
    }

    /// Persists one new detection record as unsent, keeping the events
    /// ordered by timestamp; an event arriving with a timestamp already
    /// present goes behind its equals, so arrival order is kept among ties.
    pub fn record_event(&mut self, event: MotionEvent)
        requires
            old(self).inv(),
            event.timestamp < i64::MAX,
        ensures
            final(self).inv(),
            inserted_in_order(old(self).unsent(), final(self).unsent(), event.deep_view()),
            final(self).sent() == old(self).sent(),
            final(self).mark_failures() == old(self).mark_failures(),
    {
        let ghost before = self.unsent_events.deep_view();
        let mut i: usize = 0;
        while i < self.unsent_events.len() && self.unsent_events[i].timestamp <= event.timestamp
            invariant
                i <= self.unsent_events.len(),
                forall|j: int| 0 <= j < i ==> before[j].timestamp <= event.timestamp as int,
                before == self.unsent_events.deep_view(),
            decreases self.unsent_events.len() - i,
        {
            i += 1;
        }
        proof {
            assert forall|j: int|
                i <= j < before.len() implies before[j].timestamp > event.timestamp as int by {
                assert(before[i as int].timestamp > event.timestamp as int);
                assert(before[i as int].timestamp <= before[j].timestamp);
            }
        }
        self.unsent_events.insert(i, event);
        proof {
            let after = self.unsent_events.deep_view();
            assert(after =~= before.insert(i as int, event.deep_view()));
            before.insert_ensures(i as int, event.deep_view());
            assert(sorted_by_timestamp(after)) by {
                assert forall|a: int, b: int|
                    0 <= a < b < after.len() implies after[a].timestamp <= after[b].timestamp by {
                    if a < i && b < i {
                    } else if a == i || b == i {
                    } else {
                    }
                }
            }
            assert(timestamps_bounded(after));
            assert(inserted_in_order(before, after, event.deep_view()));
        }
    }
}

impl MotionEvents for MotionEventsViaSqlite {
    closed spec fn inv(&self) -> bool {
        sorted_by_timestamp(self.unsent_events.deep_view()) && timestamps_bounded(
            self.unsent_events.deep_view(),
        )
    }

    closed spec fn unsent(&self) -> Seq<MotionEventView> {
        self.unsent_events.deep_view()
    }

    open spec fn mark_failures(&self) -> nat {
        0
    }

    /// This store's retrieval cannot fail: the persistent engine is outside
    /// this core, and the records governed here are always reachable.
    fn load_latest_events(&self, timestamp_order: Order) -> (r: Result<
        Vec<MotionEvent>,
        MotionEventError,
    >)
        ensures
            r is Ok,
    {
        let ghost s = self.unsent_events.deep_view();
        let mut out: Vec<MotionEvent> = Vec::new();
        match timestamp_order {
            Order::Ascending => {
                let mut i: usize = 0;
                proof {
                    assert(out.deep_view() =~= s.take(0));
                }
                while i < self.unsent_events.len()
                    invariant
                        i <= self.unsent_events.len(),
                        s == self.unsent_events.deep_view(),
                        out.deep_view() == s.take(i as int),
                    decreases self.unsent_events.len() - i,
                {
                    let ghost out_before = out.deep_view();
                    out.push(self.unsent_events[i].clone());
                    proof {
                        assert(out.deep_view() =~= out_before.push(s[i as int]));
                        assert(out_before.push(s[i as int]) =~= s.take(i as int + 1));
                    }
                    i += 1;
                }
                proof {
                    assert(out.deep_view() =~= s);
                }
                Ok(out)
            },
            Order::Descending => {
                let mut i: usize = self.unsent_events.len();
                proof {
                    assert(out.deep_view() =~= s.reverse().take(0));
                }
                while i > 0
                    invariant
                        i <= self.unsent_events.len(),
                        s == self.unsent_events.deep_view(),
                        out.deep_view() == s.reverse().take(s.len() - i),
                    decreases i,
                {
                    let ghost out_before = out.deep_view();
                    i = i - 1;
                    out.push(self.unsent_events[i].clone());
                    proof {
                        assert(out.deep_view() =~= out_before.push(s[i as int]));
                        assert(s.reverse()[s.len() - i - 1] == s[i as int]);
                        assert(out_before.push(s[i as int]) =~= s.reverse().take(s.len() - i));
                    }
                }
                proof {
                    assert(out.deep_view() =~= s.reverse());
                }
                Ok(out)
            },
        }
    }

    /// This store's marking cannot fail, and every invocation moves exactly
    /// the events equal to one of `events` from the unsent side to the sent
    /// side, keeping their order.
    fn mark_events_sent(&mut self, events: Vec<MotionEvent>) -> (r: Result<
        (),
        MotionEventError,
    >)
        ensures
            r is Ok,
            final(self).sent() == old(self).sent() + old(self).unsent().filter(
                contained_in(events.deep_view()),
            ),
            final(self).location_spec() == old(self).location_spec(),
    {
        let ghost before = self.unsent_events.deep_view();
        let ghost sent_before = self.sent_events.deep_view();
        let ghost pred = not_contained_in(events.deep_view());
        let ghost cpred = contained_in(events.deep_view());
        let mut kept: Vec<MotionEvent> = Vec::new();
        let mut moved: Vec<MotionEvent> = Vec::new();
        let mut i: usize = 0;
        proof {
            assert(kept.deep_view() =~= before.take(0).filter(pred));
            assert(moved.deep_view() =~= before.take(0).filter(cpred));
            assert(before.take(0).filter(pred) =~= Seq::<MotionEventView>::empty()) by {
                reveal(Seq::filter);
            }
            assert(before.take(0).filter(cpred) =~= Seq::<MotionEventView>::empty()) by {
                reveal(Seq::filter);
            }
        }
        while i < self.unsent_events.len()
            invariant
                i <= self.unsent_events.len(),
                before == self.unsent_events.deep_view(),
                pred == not_contained_in(events.deep_view()),
                cpred == contained_in(events.deep_view()),
                kept.deep_view() == before.take(i as int).filter(pred),
                moved.deep_view() == before.take(i as int).filter(cpred),
            decreases self.unsent_events.len() - i,
        {
            let e = self.unsent_events[i].clone();
            let ghost kept_before = kept.deep_view();
            let ghost moved_before = moved.deep_view();
            let is_marked = contains_event(&events, &e);
            if is_marked {
                moved.push(e);
            } else {
                kept.push(e);
            }
            proof {
                lemma_filter_push(before.take(i as int), before[i as int], pred);
                lemma_filter_push(before.take(i as int), before[i as int], cpred);
                assert(before.take(i as int).push(before[i as int]) =~= before.take(
                    i as int + 1,
                ));
                if !is_marked {
                    assert(kept.deep_view() =~= kept_before.push(before[i as int]));
                } else {
                    assert(moved.deep_view() =~= moved_before.push(before[i as int]));
                }
            }
            i += 1;
        }
        proof {
            assert(before.take(before.len() as int) =~= before);
        }
        self.unsent_events = kept;
        self.sent_events.append(&mut moved);
        proof {
            assert(self.sent_events.deep_view() =~= sent_before + before.filter(cpred));
            lemma_filter_sorted(before, pred);
            lemma_filter_membership(before, pred);
            assert(timestamps_bounded(self.unsent_events.deep_view())) by {
                let f = before.filter(pred);
                assert forall|a: int| 0 <= a < f.len() implies f[a].timestamp < i64::MAX by {
                    assert(f.contains(f[a]));
                    assert(before.contains(f[a]));
                    let t = choose|t: int| 0 <= t < before.len() && before[t] == f[a];
                    assert(before[t].timestamp < i64::MAX);
                }
            }
        }
        Ok(())
    }
}

/// Decides whether `events` holds an event equal to `e`.
fn contains_event(events: &Vec<MotionEvent>, e: &MotionEvent) -> (r: bool)
    ensures
        r == events.deep_view().contains(e.deep_view()),
{
    let mut i: usize = 0;
    while i < events.len()
        invariant
            i <= events.len(),
            forall|j: int| 0 <= j < i ==> events.deep_view()[j] != e.deep_view(),
        decreases events.len() - i,
    {
        if motion_event_eq(&events[i], e) {
            proof {
                assert(events.deep_view()[i as int] == e.deep_view());
            }
            return true;
        }
        i += 1;
    }
    proof {
        assert(!events.deep_view().contains(e.deep_view()));
    }
    false
}

} // verus!
