//! Core data model and capability contracts of the notification workflow.

pub mod email;
pub mod model;
pub mod sqlite;
pub mod workflow;

pub use workflow::new_push_events;
pub use workflow::PushEventsWorkflow;

use vstd::prelude::*;
use crate::push_events::model::{sorted_by_timestamp, timestamps_bounded, mark_result};

verus! {

/// A point in time, in seconds since the Unix epoch.
pub type EpochSeconds = i64;

/// A half-open time range `[start, end)` in epoch seconds.
#[derive(Clone, Copy, Debug, PartialEq)]
pub struct DateTimePeriod {
    pub start: EpochSeconds,
    pub end: EpochSeconds,
}

/// Mathematical value of a [`DateTimePeriod`].
pub struct DateTimePeriodView {
    pub start: int,
    pub end: int,
}

impl View for DateTimePeriod {
    type V = DateTimePeriodView;

    open spec fn view(&self) -> DateTimePeriodView {
        DateTimePeriodView { start: self.start as int, end: self.end as int }
    }
}

impl DeepView for DateTimePeriod {
    type V = DateTimePeriodView;

    open spec fn deep_view(&self) -> DateTimePeriodView {
        self.view()
    }
}

impl Default for DateTimePeriod {
    /// The empty period `[0, 0)`.
    fn default() -> (r: Self)
        ensures
            r.start == 0 && r.end == 0,
    {
        DateTimePeriod { start: 0, end: 0 }
    }
}

/// A single detection record produced by a camera.
#[derive(Debug, PartialEq)]
pub struct MotionEvent {
    /// Identifier of the originating camera.
    pub camera: isize,
    /// Path of the captured media artifact.
    pub file_name: String,
    /// Opaque classification code of the artifact.
    pub file_type: isize,
    /// When the event occurred, in seconds since the Unix epoch.
    pub timestamp: EpochSeconds,
}

/// Mathematical value of a [`MotionEvent`].
pub struct MotionEventView {
    pub camera: int,
    pub file_name: Seq<char>,
    pub file_type: int,
    pub timestamp: int,
}

impl View for MotionEvent {
    type V = MotionEventView;

    open spec fn view(&self) -> MotionEventView {
        MotionEventView {
            camera: self.camera as int,
            file_name: self.file_name@,
            file_type: self.file_type as int,
            timestamp: self.timestamp as int,
        }
    }
}

impl DeepView for MotionEvent {
    type V = MotionEventView;

    open spec fn deep_view(&self) -> MotionEventView {
        self.view()
    }
}

impl Clone for MotionEvent {
    fn clone(&self) -> (r: Self)
        ensures
            r == *self,
    {
        MotionEvent {
            camera: self.camera,
            file_name: self.file_name.clone(),
            file_type: self.file_type,
            timestamp: self.timestamp,
        }
    }
}

/// Decides whether two motion events carry the same record.
pub fn motion_event_eq(a: &MotionEvent, b: &MotionEvent) -> (r: bool)
    ensures
        r == (a.deep_view() == b.deep_view()),
{
    let r = a.camera == b.camera && a.file_type == b.file_type && a.timestamp == b.timestamp
        && a.file_name == b.file_name;
    proof {
        if r {
            assert(a.deep_view() == b.deep_view());
        } else {
            assert(a.deep_view() != b.deep_view());
        }
    }
    r
}

/// An outbound notification composed from one or more motion events.
#[derive(Debug, PartialEq)]
pub struct PushEvent {
    /// How many raw motion events this notification represents.
    pub num_motion_events: usize,
    /// Half-open time range spanned by the constituent events.
    pub date_time_period: DateTimePeriod,
    /// File reference of the most recent constituent event.
    pub latest_event_file: String,
}

/// Mathematical value of a [`PushEvent`].
pub struct PushEventView {
    pub num_motion_events: int,
    pub date_time_period: DateTimePeriodView,
    pub latest_event_file: Seq<char>,
}

impl View for PushEvent {
    type V = PushEventView;

    open spec fn view(&self) -> PushEventView {
        PushEventView {
            num_motion_events: self.num_motion_events as int,
            date_time_period: self.date_time_period@,
            latest_event_file: self.latest_event_file@,
        }
    }
}

impl DeepView for PushEvent {
    type V = PushEventView;

    open spec fn deep_view(&self) -> PushEventView {
        self.view()
    }
}

impl Clone for PushEvent {
    fn clone(&self) -> (r: Self)
        ensures
            r == *self,
    {
        PushEvent {
            num_motion_events: self.num_motion_events,
            date_time_period: self.date_time_period,
            latest_event_file: self.latest_event_file.clone(),
        }
    }
}

/// Summary of one workflow run.
#[derive(Clone, Copy, Debug, PartialEq)]
pub struct SendPushEventsStats {
    /// Total raw motion events processed in the run.
    pub num_events: usize,
    /// Half-open span covering all processed events.
    pub time_period: DateTimePeriod,
}

/// Mathematical value of a [`SendPushEventsStats`].
pub struct SendPushEventsStatsView {
    pub num_events: int,
    pub time_period: DateTimePeriodView,
}

impl View for SendPushEventsStats {
    type V = SendPushEventsStatsView;

    open spec fn view(&self) -> SendPushEventsStatsView {
        SendPushEventsStatsView {
            num_events: self.num_events as int,
            time_period: self.time_period@,
        }
    }
}

impl Default for SendPushEventsStats {
    /// Zero events over the empty period `[0, 0)`.
    fn default() -> (r: Self)
        ensures
            r.num_events == 0 && r.time_period.start == 0 && r.time_period.end == 0,
    {
        SendPushEventsStats { num_events: 0, time_period: DateTimePeriod { start: 0, end: 0 } }
    }
}

/// Retrieval order of motion events from the store.
#[derive(Clone, Copy, Debug, PartialEq, Eq, PartialOrd, Ord)]
pub enum Order {
    Ascending,
    Descending,
}

/// Failure of the motion event store.
#[derive(Clone, Copy, Debug, PartialEq, Eq)]
pub enum MotionEventError {
    /// The backing persistence layer could not complete the operation.
    StorageUnavailable,
}

/// Failure of the push event sink.
#[derive(Clone, Copy, Debug, PartialEq, Eq)]
pub enum PushEventsSinkError {
    /// Delivery of the notification could not be confirmed.
    DeliveryFailed,
}

/// Failure of a workflow run.
#[derive(Clone, Copy, Debug, PartialEq, Eq)]
pub enum SendPushEventsError {
    /// The store failed while loading or while marking events sent.
    Store(MotionEventError),
    /// The sink failed to deliver at least one push event.
    Sink(PushEventsSinkError),
}

/// Construction-time configuration of one notification workflow.
///
/// An absent sink or store configuration selects the corresponding no-op
/// implementation; an absent debounce window puts all unsent events of a run
/// into a single push event.
#[derive(Debug, Clone)]
pub struct PushEventsConfig {
    pub push_event_sink_config: Option<PushEventSinkConfig>,
    pub motion_event_repo_config: Option<MotionEventsConfig>,
    /// Maximum gap in seconds between consecutive events of one push event.
    pub debounce_window: Option<EpochSeconds>,
}

impl Default for PushEventsConfig {
    /// No sink, no store, no debounce window.
    fn default() -> (r: Self)
        ensures
            r.push_event_sink_config is None,
            r.motion_event_repo_config is None,
            r.debounce_window is None,
    {
        PushEventsConfig {
            push_event_sink_config: None,
            motion_event_repo_config: None,
            debounce_window: None,
        }
    }
}

/// Selection of a motion event store backend.
#[derive(Debug, Clone)]
pub enum MotionEventsConfig {
    Sqlite { database: SqliteDatabaseLocation },
}

/// Where a sqlite-backed store keeps its data.
#[derive(Debug, Clone, PartialEq)]
pub enum SqliteDatabaseLocation {
    InMemory,
    InFile(String),
}

/// Selection of a push event sink backend.
#[derive(Debug, Clone)]
pub enum PushEventSinkConfig {
    Email { recipients: Vec<String> },
}

/// Durable repository of raw motion-detection records.
///
/// The abstract state is the sequence of currently unsent events, ordered by
/// ascending timestamp. Already-sent events are never visible through it.
pub trait MotionEvents: Sized {
    /// Well-formedness of the store.
    spec fn inv(&self) -> bool;

    /// The currently unsent events, in ascending timestamp order.
    spec fn unsent(&self) -> Seq<MotionEventView>;

    /// How many marking invocations have failed so far. A store that cannot
    /// fail keeps this at zero, which lets a caller of the workflow conclude
    /// that every marking it asked for succeeded.
    spec fn mark_failures(&self) -> nat;

    /// Returns all currently unsent events, ordered by timestamp as requested.
    ///
    /// An empty result is valid and not an error; a store error means the
    /// underlying retrieval could not complete and nothing is returned.
    fn load_latest_events(&self, timestamp_order: Order) -> (r: Result<
        Vec<MotionEvent>,
        MotionEventError,
    >)
        requires
            self.inv(),
        ensures
            r matches Ok(events) ==> match timestamp_order {
                Order::Ascending => events.deep_view() == self.unsent(),
                Order::Descending => events.deep_view() == self.unsent().reverse(),
            },
            r matches Ok(events) ==> sorted_by_timestamp(self.unsent()) && timestamps_bounded(
                self.unsent(),
            ),
            r matches Ok(events) ==> (timestamp_order == Order::Ascending
                ==> sorted_by_timestamp(events.deep_view())),
    ;

    /// Marks the given events as sent, all-or-nothing per invocation.
    ///
    /// Marking is idempotent: an event equal to one of `events` leaves the
    /// unsent set, and events already sent are unaffected. On failure the
    /// store is left unchanged, so nothing is in an ambiguous state.
    fn mark_events_sent(&mut self, events: Vec<MotionEvent>) -> (r: Result<
        (),
        MotionEventError,
    >)
        requires
            old(self).inv(),
        ensures
            final(self).inv(),
            r matches Ok(_) ==> final(self).unsent() == mark_result(
                old(self).unsent(),
                events.deep_view(),
            ),
            r matches Ok(_) ==> final(self).mark_failures() == old(self).mark_failures(),
            r matches Err(_) ==> final(self).unsent() == old(self).unsent(),
            r matches Err(_) ==> final(self).mark_failures() == old(self).mark_failures() + 1,
    ;
}

/// Delivery mechanism for composed push events.
///
/// The abstract state is the log of push events whose delivery the sink has
/// accepted, in order of acceptance.
pub trait PushEventSink: Sized {
    /// The push events accepted for delivery so far, oldest first.
    spec fn delivered(&self) -> Seq<PushEventView>;

    /// How many deliveries the sink has refused so far. A sink that cannot
    /// fail keeps this at zero, which lets a caller of the workflow conclude
    /// that every push event offered was accepted.
    spec fn refusals(&self) -> nat;

    /// Delivers one push event to all configured recipients.
    ///
    /// Success means the notification was handed off for delivery; failure
    /// means delivery could not be confirmed and the event was not accepted.
    fn send_push_event(&mut self, push_event: PushEvent) -> (r: Result<(), PushEventsSinkError>)
        ensures
            r matches Ok(_) ==> final(self).delivered() == old(self).delivered().push(
                push_event.deep_view(),
            ),
            r matches Ok(_) ==> final(self).refusals() == old(self).refusals(),
            r matches Err(_) ==> final(self).delivered() == old(self).delivered(),
            r matches Err(_) ==> final(self).refusals() == old(self).refusals() + 1,
    ;
}

/// One end-to-end notification run.
pub trait PushEvents: Sized {
    /// Well-formedness of the component.
    spec fn wf(&self) -> bool;

    /// Executes one run: load unsent events, group, deliver, mark sent.
    fn send_push_events(&mut self) -> (r: Result<SendPushEventsStats, SendPushEventsError>)
        requires
            old(self).wf(),
        ensures
            final(self).wf(),
    ;
}

/// Store used when no motion event repository is configured: it holds
/// nothing, and marking is a no-op.
#[derive(Debug, Clone)]
pub struct NoOpMotionEvents;

impl MotionEvents for NoOpMotionEvents {
    open spec fn inv(&self) -> bool {
        true
    }

    open spec fn unsent(&self) -> Seq<MotionEventView> {
        Seq::empty()
    }

    open spec fn mark_failures(&self) -> nat {
        0
    }

    /// The no-op store always answers with zero unsent events.
    fn load_latest_events(&self, timestamp_order: Order) -> (r: Result<
        Vec<MotionEvent>,
        MotionEventError,
    >)
        ensures
            r matches Ok(events) && events@.len() == 0,
    {
        let events: Vec<MotionEvent> = Vec::new();
        proof {
            assert(events.deep_view() =~= Seq::<MotionEventView>::empty());
            assert(Seq::<MotionEventView>::empty().reverse() =~= Seq::<MotionEventView>::empty());
        }
        Ok(events)
    }

    /// The no-op store accepts every marking as a no-op.
    fn mark_events_sent(&mut self, events: Vec<MotionEvent>) -> (r: Result<
        (),
        MotionEventError,
    >)
        ensures
            r is Ok,
    {
        proof {
            assert(final(self).unsent() =~= mark_result(old(self).unsent(), events.deep_view()));
        }
        Ok(())
    }
}

/// Sink used when no push event sink is configured: it accepts every push
/// event and discards it.
pub struct NoOpPushEventSink {
    accepted: Ghost<Seq<PushEventView>>,
}

impl NoOpPushEventSink {
    pub fn new() -> (r: Self)
        ensures
            r.delivered() == Seq::<PushEventView>::empty(),
    {
        NoOpPushEventSink { accepted: Ghost(Seq::empty()) }
    }
}

impl PushEventSink for NoOpPushEventSink {
    closed spec fn delivered(&self) -> Seq<PushEventView> {
        self.accepted@
    }

    open spec fn refusals(&self) -> nat {
        0
    }

    /// The no-op sink accepts every push event and discards it.
    fn send_push_event(&mut self, push_event: PushEvent) -> (r: Result<(), PushEventsSinkError>)
        ensures
            r is Ok,
    {
        self.accepted = Ghost(self.accepted@.push(push_event.deep_view()));
        Ok(())
    }
}

/// Store whose backing persistence layer cannot be reached: every operation
/// fails and nothing changes. It stands in for a database that is down, so
/// the retrieval-failure path of a run can be exercised.
pub struct UnavailableMotionEvents {
    failed_marks: Ghost<nat>,
}

impl UnavailableMotionEvents {
    pub fn new() -> (r: Self)
        ensures
            r.inv(),
    {
        UnavailableMotionEvents { failed_marks: Ghost(0) }
    }
}

impl MotionEvents for UnavailableMotionEvents {
    open spec fn inv(&self) -> bool {
        true
    }

    open spec fn unsent(&self) -> Seq<MotionEventView> {
        Seq::empty()
    }

    closed spec fn mark_failures(&self) -> nat {
        self.failed_marks@
    }

    /// The unreachable store refuses every retrieval.
    fn load_latest_events(&self, timestamp_order: Order) -> (r: Result<
        Vec<MotionEvent>,
        MotionEventError,
    >)
        ensures
            r == Err::<Vec<MotionEvent>, MotionEventError>(MotionEventError::StorageUnavailable),
    {
        Err(MotionEventError::StorageUnavailable)
    }

    /// The unreachable store refuses every marking.
    fn mark_events_sent(&mut self, events: Vec<MotionEvent>) -> (r: Result<
        (),
        MotionEventError,
    >)
        ensures
            r == Err::<(), MotionEventError>(MotionEventError::StorageUnavailable),
    {
        self.failed_marks = Ghost(self.failed_marks@ + 1);
        Err(MotionEventError::StorageUnavailable)
    }
}

/// Sink that refuses the first deliveries asked of it and accepts the rest,
/// recording what it accepted. It stands in for a transport that is
/// temporarily down, so the per-group failure isolation of a run can be
/// exercised.
pub struct FlakyPushEventSink {
    failures_left: usize,
    refused: Ghost<nat>,
    deliveries: Vec<PushEvent>,
}

impl FlakyPushEventSink {
    /// How many of the next deliveries the sink will still refuse.
    pub closed spec fn failures_remaining(&self) -> nat {
        self.failures_left as nat
    }

    /// A sink that will refuse its next `failures` deliveries.
    pub fn new(failures: usize) -> (r: Self)
        ensures
            r.delivered() == Seq::<PushEventView>::empty(),
            r.failures_remaining() == failures,
            r.refusals() == 0,
    {
        let r = FlakyPushEventSink {
            failures_left: failures,
            refused: Ghost(0),
            deliveries: Vec::new(),
        };
        proof {
            assert(r.delivered() =~= Seq::<PushEventView>::empty());
        }
        r
    }

    /// The push events accepted so far, oldest first.
    pub fn deliveries(&self) -> (r: &Vec<PushEvent>)
        ensures
            r.deep_view() == self.delivered(),
    {
        &self.deliveries
    }
}

impl PushEventSink for FlakyPushEventSink {
    closed spec fn delivered(&self) -> Seq<PushEventView> {
        self.deliveries.deep_view()
    }

    closed spec fn refusals(&self) -> nat {
        self.refused@
    }

    /// Refuses while refusals remain, then accepts every delivery.
    fn send_push_event(&mut self, push_event: PushEvent) -> (r: Result<(), PushEventsSinkError>)
        ensures
            old(self).failures_remaining() > 0 ==> r is Err && final(self).failures_remaining()
                == old(self).failures_remaining() - 1,
            old(self).failures_remaining() == 0 ==> r is Ok && final(self).failures_remaining()
                == 0,
    {
        if self.failures_left > 0 {
            self.failures_left = self.failures_left - 1;
            self.refused = Ghost(self.refused@ + 1);
            Err(PushEventsSinkError::DeliveryFailed)
        } else {
            let ghost before = self.deliveries.deep_view();
            let ghost pev = push_event.deep_view();
            self.deliveries.push(push_event);
            proof {
                assert(self.deliveries.deep_view() =~= before.push(pev));
            }
            Ok(())
        }
    }
}

} // verus!
