use motion_notify::push_events::email::new_push_events_email_sink;
use motion_notify::push_events::sqlite::{new_motion_events_via_sqlite, MotionEventsViaSqlite};
use motion_notify::push_events::workflow::{build_push_event, group_boundaries};
use motion_notify::push_events::{
    new_push_events, DateTimePeriod, FlakyPushEventSink, MotionEvent, MotionEventError,
    MotionEvents, MotionEventsConfig, NoOpPushEventSink, Order, PushEventSinkConfig, PushEvents,
    PushEventsConfig, PushEventsSinkError, PushEventsWorkflow, SendPushEventsError,
    SendPushEventsStats, SqliteDatabaseLocation, UnavailableMotionEvents,
};

fn ev(camera: isize, file_name: &str, timestamp: i64) -> MotionEvent {
    MotionEvent { camera, file_name: file_name.to_string(), file_type: 0, timestamp }
}

fn store_with(events: &[MotionEvent]) -> MotionEventsViaSqlite {
    let mut store = new_motion_events_via_sqlite(SqliteDatabaseLocation::InMemory);
    for e in events {
        store.record_event(e.clone());
    }
    store
}

#[test]
fn empty_run_returns_zero_stats() {
    let mut workflow = new_push_events(PushEventsConfig::default());
    let stats = workflow.run().expect("empty run succeeds");
    assert_eq!(stats.num_events, 0);
    assert_eq!(stats.time_period, DateTimePeriod { start: 0, end: 0 });
    let again = workflow.run().expect("second empty run succeeds");
    assert_eq!(again.num_events, 0);
}

#[test]
fn debounce_scenario_two_groups() {
    let store = store_with(&[ev(1, "cam1-a.mp4", 100), ev(1, "cam1-b.mp4", 105), ev(2, "cam2-a.mp4", 500)]);
    let sink = new_push_events_email_sink(vec!["alice@example.com".to_string()]);
    let mut workflow = PushEventsWorkflow::new(store, sink, Some(60));
    let stats = workflow.run().expect("run succeeds");
    assert_eq!(stats.num_events, 3);
    assert_eq!(stats.time_period, DateTimePeriod { start: 100, end: 501 });
    let deliveries = workflow.push_event_sink().deliveries();
    assert_eq!(deliveries.len(), 2);
    assert_eq!(deliveries[0].num_motion_events, 2);
    assert_eq!(deliveries[0].date_time_period, DateTimePeriod { start: 100, end: 106 });
    assert_eq!(deliveries[0].latest_event_file, "cam1-b.mp4");
    assert_eq!(deliveries[1].num_motion_events, 1);
    assert_eq!(deliveries[1].date_time_period, DateTimePeriod { start: 500, end: 501 });
    assert_eq!(deliveries[1].latest_event_file, "cam2-a.mp4");
}

#[test]
fn noop_sink_marks_all_events() {
    let store = store_with(&[
        ev(1, "a", 10),
        ev(1, "b", 20),
        ev(2, "c", 30),
        ev(2, "d", 40),
        ev(3, "e", 50),
    ]);
    let mut workflow = PushEventsWorkflow::new(store, NoOpPushEventSink::new(), None);
    let stats = workflow.run().expect("run succeeds");
    assert_eq!(stats.num_events, 5);
    assert_eq!(stats.time_period, DateTimePeriod { start: 10, end: 51 });
    let unsent = workflow
        .motion_event_repo()
        .load_latest_events(Order::Ascending)
        .expect("load succeeds");
    assert!(unsent.is_empty());
    assert_eq!(workflow.motion_event_repo().sent_events().len(), 5);
    let again = workflow.run().expect("second run succeeds");
    assert_eq!(again.num_events, 0);
}

#[test]
fn load_keeps_ascending_order() {
    let store = store_with(&[ev(1, "late", 500), ev(2, "early", -100), ev(3, "mid", 300)]);
    let ascending = store.load_latest_events(Order::Ascending).expect("load succeeds");
    let stamps: Vec<i64> = ascending.iter().map(|e| e.timestamp).collect();
    assert_eq!(stamps, vec![-100, 300, 500]);
    for pair in ascending.windows(2) {
        assert!(pair[0].timestamp <= pair[1].timestamp);
    }
    let descending = store.load_latest_events(Order::Descending).expect("load succeeds");
    let stamps: Vec<i64> = descending.iter().map(|e| e.timestamp).collect();
    assert_eq!(stamps, vec![500, 300, -100]);
}

#[test]
fn equal_timestamps_keep_arrival_order() {
    let store = store_with(&[ev(1, "first", 100), ev(2, "second", 100), ev(3, "third", 100)]);
    let loaded = store.load_latest_events(Order::Ascending).expect("load succeeds");
    let names: Vec<&str> = loaded.iter().map(|e| e.file_name.as_str()).collect();
    assert_eq!(names, vec!["first", "second", "third"]);
}

#[test]
fn mark_events_sent_is_idempotent() {
    let mut store = store_with(&[ev(1, "a", 10), ev(1, "b", 20), ev(1, "c", 30)]);
    let target = vec![ev(1, "b", 20)];
    store
        .mark_events_sent(target.iter().map(|e| e.clone()).collect())
        .expect("first mark succeeds");
    let after_once = store.load_latest_events(Order::Ascending).expect("load succeeds");
    store
        .mark_events_sent(target.iter().map(|e| e.clone()).collect())
        .expect("second mark succeeds");
    let after_twice = store.load_latest_events(Order::Ascending).expect("load succeeds");
    assert_eq!(after_once, after_twice);
    assert_eq!(after_once.len(), 2);
    assert_eq!(store.sent_events().len(), 1);
}

#[test]
fn sink_failure_leaves_group_unsent() {
    let store = store_with(&[ev(1, "early.mp4", 0), ev(2, "late.mp4", 1000)]);
    let sink = FlakyPushEventSink::new(1);
    let mut workflow = PushEventsWorkflow::new(store, sink, Some(10));
    let err = workflow.run().expect_err("run surfaces the sink failure");
    assert_eq!(err, SendPushEventsError::Sink(PushEventsSinkError::DeliveryFailed));
    let unsent = workflow
        .motion_event_repo()
        .load_latest_events(Order::Ascending)
        .expect("load succeeds");
    assert_eq!(unsent.len(), 1);
    assert_eq!(unsent[0].timestamp, 0);
    assert_eq!(unsent[0].file_name, "early.mp4");
    let deliveries = workflow.push_event_sink().deliveries();
    assert_eq!(deliveries.len(), 1);
    assert_eq!(deliveries[0].date_time_period, DateTimePeriod { start: 1000, end: 1001 });
}

#[test]
fn failed_group_is_retried_on_next_run() {
    let store = store_with(&[ev(1, "only.mp4", 42)]);
    let sink = FlakyPushEventSink::new(1);
    let mut workflow = PushEventsWorkflow::new(store, sink, None);
    let err = workflow.run().expect_err("first run fails");
    assert!(matches!(err, SendPushEventsError::Sink(_)));
    let stats = workflow.run().expect("second run succeeds");
    assert_eq!(stats.num_events, 1);
    assert_eq!(stats.time_period, DateTimePeriod { start: 42, end: 43 });
    let unsent = workflow
        .motion_event_repo()
        .load_latest_events(Order::Ascending)
        .expect("load succeeds");
    assert!(unsent.is_empty());
}

#[test]
fn exhaustion_after_successful_run() {
    let store = store_with(&[ev(1, "a", 1), ev(1, "b", 2), ev(1, "c", 3)]);
    let mut workflow = PushEventsWorkflow::new(store, NoOpPushEventSink::new(), Some(100));
    workflow.run().expect("run succeeds");
    let unsent = workflow
        .motion_event_repo()
        .load_latest_events(Order::Ascending)
        .expect("load succeeds");
    assert!(unsent.is_empty());
}

#[test]
fn store_error_aborts_run() {
    let mut workflow =
        PushEventsWorkflow::new(UnavailableMotionEvents::new(), NoOpPushEventSink::new(), None);
    let err = workflow.run().expect_err("retrieval failure aborts the run");
    assert_eq!(err, SendPushEventsError::Store(MotionEventError::StorageUnavailable));
}

#[test]
fn gap_equal_to_window_stays_grouped() {
    let events = vec![ev(1, "a", 0), ev(1, "b", 60), ev(1, "c", 121)];
    let bounds = group_boundaries(&events, Some(60));
    assert_eq!(bounds, vec![0, 2]);
}

#[test]
fn no_window_gives_single_group() {
    let events = vec![ev(1, "a", 0), ev(1, "b", 10_000)];
    let bounds = group_boundaries(&events, None);
    assert_eq!(bounds, vec![0]);
}

#[test]
fn no_events_give_no_groups() {
    let events: Vec<MotionEvent> = Vec::new();
    let bounds = group_boundaries(&events, Some(60));
    assert!(bounds.is_empty());
}

#[test]
fn push_event_composition() {
    let events = vec![ev(1, "a.mp4", 10), ev(2, "b.mp4", 20)];
    let pe = build_push_event(&events, 0, 2);
    assert_eq!(pe.num_motion_events, 2);
    assert_eq!(pe.date_time_period, DateTimePeriod { start: 10, end: 21 });
    assert_eq!(pe.latest_event_file, "b.mp4");
}

#[test]
fn single_event_period_is_half_open() {
    let events = vec![ev(7, "solo.mp4", 99)];
    let pe = build_push_event(&events, 0, 1);
    assert_eq!(pe.num_motion_events, 1);
    assert_eq!(pe.date_time_period, DateTimePeriod { start: 99, end: 100 });
    assert_eq!(pe.latest_event_file, "solo.mp4");
}

#[test]
fn default_stats_are_zero() {
    let stats = SendPushEventsStats::default();
    assert_eq!(stats.num_events, 0);
    assert_eq!(stats.time_period, DateTimePeriod::default());
}

#[test]
fn factory_wires_configured_backends() {
    let config = PushEventsConfig {
        push_event_sink_config: Some(PushEventSinkConfig::Email {
            recipients: vec!["home@example.com".to_string()],
        }),
        motion_event_repo_config: Some(MotionEventsConfig::Sqlite {
            database: SqliteDatabaseLocation::InFile("cameras.db".to_string()),
        }),
        debounce_window: Some(60),
    };
    let mut workflow = new_push_events(config);
    let stats = workflow.run().expect("run over an empty store succeeds");
    assert_eq!(stats.num_events, 0);
}

#[test]
fn send_push_events_trait_entry_point() {
    let store = store_with(&[ev(1, "a", 5)]);
    let mut workflow = PushEventsWorkflow::new(store, NoOpPushEventSink::new(), None);
    let stats = workflow.send_push_events().expect("run succeeds");
    assert_eq!(stats.num_events, 1);
    assert_eq!(stats.time_period, DateTimePeriod { start: 5, end: 6 });
}
