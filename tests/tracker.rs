use timeviewer::ingest::{
    idle_notice, plan_disconnect, plan_event, plan_reap, reconcile_snapshot, Closing, TrackError,
    Tracker,
};
use timeviewer::model::{RawEvent, Segment};
use timeviewer::session::SessionState;
use timeviewer::store::{MemoryStore, StorageError};

const SECOND: i64 = 1_000_000;
const T0: i64 = 1_704_189_600 * SECOND;

fn event(app: &str, title: &str, url: Option<&str>) -> RawEvent {
    RawEvent { app: app.to_string(), title: title.to_string(), url: url.map(|u| u.to_string()) }
}

fn open_count(rows: &[Segment]) -> usize {
    rows.iter().filter(|s| s.end_time.is_none()).count()
}

#[test]
fn editor_then_idle_then_disconnect() {
    let mut t = Tracker::new();
    let n = t.handle_event(&event("editor", "doc.txt", None), T0).unwrap();
    assert_eq!(n.app, "editor");
    assert_eq!(n.start_time, T0);
    let rows = t.segments();
    assert_eq!(rows.len(), 1);
    assert_eq!(rows[0].app, "editor");
    assert_eq!(rows[0].title.as_deref(), Some("doc.txt"));
    assert_eq!(rows[0].start_time, T0);
    assert_eq!(rows[0].end_time, None);
    assert_eq!(t.open_marker(), Some(T0));

    let t1 = T0 + 5 * SECOND;
    let idle = t.handle_event(&event("", "", None), t1).unwrap();
    assert_eq!(idle.app, "");
    assert_eq!(idle.start_time, t1);
    let rows = t.segments();
    assert_eq!(rows.len(), 1);
    assert_eq!(rows[0].end_time, Some(t1));
    assert_eq!(t.open_marker(), None);

    let notice = t.handle_disconnect(t1 + SECOND).unwrap();
    assert_eq!(notice.app, "");
    assert_eq!(notice.title, "");
    assert_eq!(notice.url.as_deref(), Some(""));
    assert_eq!(notice.start_time, t1 + SECOND);
    let after = t.segments();
    assert_eq!(after.len(), 1);
    assert_eq!(after[0].end_time, Some(t1));
}

#[test]
fn silent_reporter_is_reaped() {
    let mut t = Tracker::new();
    t.handle_event(&event("browser", "", None), T0).unwrap();
    let period = 10 * SECOND;
    assert!(t.reaper_tick(T0 + period));
    let rows = t.segments();
    assert_eq!(rows.len(), 1);
    assert_eq!(rows[0].end_time, Some(T0 + period));
    assert_eq!(t.open_marker(), None);
}

#[test]
fn at_most_one_open_over_a_sequence() {
    let mut t = Tracker::new();
    let apps = ["a", "b", "", "c", "c", "", "", "d"];
    for (k, app) in apps.iter().enumerate() {
        t.handle_event(&event(app, "x", None), T0 + k as i64 * SECOND).unwrap();
        assert!(open_count(&t.segments()) <= 1);
        if k == 3 {
            assert!(t.reaper_tick(T0 + k as i64 * SECOND + 1));
            assert_eq!(open_count(&t.segments()), 0);
        }
    }
    assert_eq!(open_count(&t.segments()), 1);
}

#[test]
fn close_comes_before_new_start() {
    let mut t = Tracker::new();
    t.handle_event(&event("a", "1", None), T0).unwrap();
    t.handle_event(&event("b", "2", Some("http://x")), T0 + 3 * SECOND).unwrap();
    let rows = t.segments();
    assert_eq!(rows.len(), 2);
    assert!(rows[0].end_time.unwrap() <= rows[1].start_time);
    assert_eq!(rows[0].end_time, Some(T0 + 3 * SECOND));
    assert_eq!(rows[1].url.as_deref(), Some("http://x"));
}

#[test]
fn idle_event_inserts_nothing_and_publishes() {
    let mut t = Tracker::new();
    let n = t.handle_event(&event("", "", None), T0).unwrap();
    assert_eq!(n.app, "");
    assert_eq!(n.start_time, T0);
    assert!(t.segments().is_empty());
    t.handle_event(&event("a", "", None), T0 + SECOND).unwrap();
    t.handle_event(&event("", "", None), T0 + 2 * SECOND).unwrap();
    let rows = t.segments();
    assert_eq!(rows.len(), 1);
    assert_eq!(rows[0].end_time, Some(T0 + 2 * SECOND));
}

#[test]
fn catch_up_ends_with_open_segment() {
    let mut t = Tracker::new();
    t.handle_event(&event("a", "", None), T0).unwrap();
    t.handle_event(&event("b", "", None), T0 + SECOND).unwrap();
    let snap = t.catch_up(T0 - SECOND);
    assert_eq!(snap.len(), 2);
    let last = snap.last().unwrap();
    assert_eq!(last.end_time, None);
    assert_eq!(Some(last.start_time), t.open_marker());
}

#[test]
fn catch_up_leaves_out_segments_before_cutoff() {
    let mut t = Tracker::new();
    t.handle_event(&event("a", "", None), T0).unwrap();
    t.handle_event(&event("b", "", None), T0 + SECOND).unwrap();
    t.handle_event(&event("c", "", None), T0 + 5 * SECOND).unwrap();
    let snap = t.catch_up(T0 + 2 * SECOND);
    assert_eq!(snap.len(), 2);
    assert_eq!(snap[0].app, "b");
    assert_eq!(snap[1].app, "c");
}

#[test]
fn second_reaper_tick_is_a_no_op() {
    let mut t = Tracker::new();
    t.handle_event(&event("a", "", None), T0).unwrap();
    assert!(t.reaper_tick(T0 + 10 * SECOND));
    assert!(!t.reaper_tick(T0 + 20 * SECOND));
    let rows = t.segments();
    assert_eq!(rows[0].end_time, Some(T0 + 10 * SECOND));
}

#[test]
fn round_trip_alternating_events() {
    let mut t = Tracker::new();
    let apps = ["a", "", "b", "", "c"];
    for (k, app) in apps.iter().enumerate() {
        t.handle_event(&event(app, "t", None), T0 + k as i64 * SECOND).unwrap();
    }
    let snap = t.catch_up(T0 - 1);
    assert_eq!(snap.len(), 3);
    assert_eq!(snap[0].app, "a");
    assert_eq!(snap[0].start_time, T0);
    assert_eq!(snap[0].end_time, Some(T0 + SECOND));
    assert_eq!(snap[1].app, "b");
    assert_eq!(snap[1].start_time, T0 + 2 * SECOND);
    assert_eq!(snap[1].end_time, Some(T0 + 3 * SECOND));
    assert_eq!(snap[2].app, "c");
    assert_eq!(snap[2].start_time, T0 + 4 * SECOND);
    assert_eq!(snap[2].end_time, None);
}

#[test]
fn out_of_order_event_is_refused() {
    let mut t = Tracker::new();
    t.handle_event(&event("a", "", None), T0).unwrap();
    assert_eq!(t.handle_event(&event("b", "", None), T0).unwrap_err(), TrackError::OutOfOrder);
    assert_eq!(t.handle_disconnect(T0 - 1).unwrap_err(), TrackError::OutOfOrder);
    assert!(!t.reaper_tick(T0));
    assert_eq!(t.segments().len(), 1);
    assert_eq!(t.open_marker(), Some(T0));
}

#[test]
fn store_refuses_non_increasing_start() {
    let mut s = MemoryStore::new();
    s.insert_open("a".to_string(), None, None, 5).unwrap();
    let e = s.insert_open("b".to_string(), None, None, 5).unwrap_err();
    assert_eq!(e, StorageError::StartNotIncreasing);
    assert_eq!(s.len(), 1);
    s.close(7, 9);
    assert_eq!(s.segments()[0].end_time, None);
    s.close(5, 9);
    assert_eq!(s.segments()[0].end_time, Some(9));
    assert_eq!(s.query_recent(9).len(), 0);
    assert_eq!(s.query_recent(8).len(), 1);
}

#[test]
fn session_state_take_set_peek() {
    let mut s = SessionState::new();
    assert_eq!(s.peek_open(), None);
    s.set_open(4);
    assert_eq!(s.peek_open(), Some(4));
    assert_eq!(s.take_open(), Some(4));
    assert_eq!(s.take_open(), None);
}

#[test]
fn plans_for_event_disconnect_and_reap() {
    let p = plan_event(Some(3), &event("a", "t", Some("u")), 8);
    assert_eq!(p.close, Some(Closing { start_time: 3, end_time: 8 }));
    assert_eq!(p.notice.app, "a");
    assert_eq!(p.notice.start_time, 8);
    assert_eq!(p.insert.as_ref().unwrap().start_time, 8);
    assert_eq!(p.insert.as_ref().unwrap().end_time, None);
    assert_eq!(p.next_open, Some(8));
    let q = plan_event(None, &event("", "", None), 8);
    assert_eq!(q.close, None);
    assert!(q.insert.is_none());
    assert_eq!(q.next_open, None);
    let d = plan_disconnect(Some(3), 9);
    assert_eq!(d.close, Some(Closing { start_time: 3, end_time: 9 }));
    assert_eq!(d.notice.app, "");
    assert_eq!(d.notice.url.as_deref(), Some(""));
    assert_eq!(d.notice.start_time, 9);
    assert_eq!(plan_reap(None, 9), None);
    assert_eq!(idle_notice(2).start_time, 2);
}

#[test]
fn reconcile_forces_marked_last_entry_open() {
    let seg = |s: i64, e: i64| Segment {
        start_time: s,
        end_time: Some(e),
        app: "a".to_string(),
        title: None,
        url: None,
    };
    let mut rows = vec![seg(1, 2), seg(3, 3)];
    reconcile_snapshot(&mut rows, Some(3));
    assert_eq!(rows[0].end_time, Some(2));
    assert_eq!(rows[1].end_time, None);
    let mut other = vec![seg(1, 2), seg(3, 3)];
    reconcile_snapshot(&mut other, Some(1));
    assert_eq!(other[1].end_time, Some(3));
    reconcile_snapshot(&mut other, None);
    assert_eq!(other[1].end_time, Some(3));
}

#[test]
fn marker_rebuilt_from_open_last_row() {
    let seg = |s: i64, e: Option<i64>| Segment {
        start_time: s,
        end_time: e,
        app: "a".to_string(),
        title: None,
        url: None,
    };
    assert_eq!(timeviewer::ingest::marker_from_rows(&vec![seg(1, Some(2)), seg(3, None)]), Some(3));
    assert_eq!(timeviewer::ingest::marker_from_rows(&vec![seg(1, Some(2))]), None);
    assert_eq!(timeviewer::ingest::marker_from_rows(&vec![]), None);
}

#[test]
fn disconnect_closes_open_segment_with_empty_url_notice() {
    let mut t = Tracker::new();
    t.handle_event(&event("browser", "", None), T0).unwrap();
    let n = t.handle_disconnect(T0 + 7 * SECOND).unwrap();
    assert_eq!(n.app, "");
    assert_eq!(n.title, "");
    assert_eq!(n.url.as_deref(), Some(""));
    assert_eq!(n.start_time, T0 + 7 * SECOND);
    assert_eq!(t.segments()[0].end_time, Some(T0 + 7 * SECOND));
    assert_eq!(t.open_marker(), None);
}
