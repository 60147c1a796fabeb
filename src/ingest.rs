use vstd::prelude::*;
use crate::model::{BroadcastEvent, RawEvent, Segment, copy_text};
use crate::session::SessionState;
use crate::store::{MemoryStore, closed_at, open_segment, recent, starts_increasing, with_end};

verus! {

/// A store write that sets the end of the segment starting at `start_time`.
#[derive(Debug, Clone, Copy, PartialEq, Eq, Structural)]
pub struct Closing {
    pub start_time: i64,
    pub end_time: i64,
}

/// Why the tracker refused a transition.
#[derive(Debug, PartialEq, Eq, Structural)]
pub enum TrackError {
    /// The given time is not after the last time the store recorded.
    OutOfOrder,
}

/// What one reporter event asks of the store, the fan-out and the session marker,
/// in this order: close, publish, insert, then set the marker.
#[derive(Debug)]
pub struct EventPlan {
    pub close: Option<Closing>,
    pub notice: BroadcastEvent,
    pub insert: Option<Segment>,
    pub next_open: Option<i64>,
}

/// What the end of a reporter connection asks: a last close, and an idle notice.
#[derive(Debug)]
pub struct DisconnectPlan {
    pub close: Option<Closing>,
    pub notice: BroadcastEvent,
}

/// The close owed for a previously open segment, if any.
pub open spec fn closing_of(prev: Option<i64>, now: i64) -> Option<Closing> {
    match prev {
        Some(s) => Some(Closing { start_time: s, end_time: now }),
        None => None,
    }
}

/// The segment that a non-idle event opens at `now`.
pub open spec fn segment_of(ev: RawEvent, now: i64) -> Segment {
    open_segment(ev.app, Some(ev.title), ev.url, now)
}

/// The notice that viewers receive for an event at `now`.
pub open spec fn notice_of(ev: RawEvent, now: i64) -> BroadcastEvent {
    BroadcastEvent { app: ev.app, title: ev.title, url: ev.url, start_time: now }
}

/// An idle notice at `now`: empty application, title and url.
pub open spec fn is_idle_notice(b: BroadcastEvent, now: i64) -> bool {
    &&& b.app@.len() == 0
    &&& b.title@.len() == 0
    &&& b.url matches Some(u) && u@.len() == 0
    &&& b.start_time == now
}

/// The session marker after an event at `now`.
pub open spec fn open_after(ev: RawEvent, now: i64) -> Option<i64> {
    if ev.spec_is_idle() {
        None
    } else {
        Some(now)
    }
}

/// Decides what a reporter event does, given the marker it took.
pub fn plan_event(prev: Option<i64>, ev: &RawEvent, now: i64) -> (r: EventPlan)
    ensures
        r.close == closing_of(prev, now),
        r.notice == notice_of(*ev, now),
        r.insert == (if ev.spec_is_idle() { None } else { Some(segment_of(*ev, now)) }),
        r.next_open == open_after(*ev, now),
{
    let close = match prev {
        Some(s) => Some(Closing { start_time: s, end_time: now }),
        None => None,
    };
    let notice = BroadcastEvent {
        app: ev.app.clone(),
        title: ev.title.clone(),
        url: copy_text(&ev.url),
        start_time: now,
    };
    if ev.is_idle() {
        EventPlan { close, notice, insert: None, next_open: None }
    } else {
        let seg = Segment {
            start_time: now,
            end_time: None,
            app: ev.app.clone(),
            title: Some(ev.title.clone()),
            url: copy_text(&ev.url),
        };
        EventPlan { close, notice, insert: Some(seg), next_open: Some(now) }
    }
}

/// An idle notice at `now`.
pub fn idle_notice(now: i64) -> (r: BroadcastEvent)
    ensures
        is_idle_notice(r, now),
{
    BroadcastEvent {
        app: String::new(),
        title: String::new(),
        url: Some(String::new()),
        start_time: now,
    }
}

/// Decides what the end of a reporter connection does, given the marker it took.
pub fn plan_disconnect(prev: Option<i64>, now: i64) -> (r: DisconnectPlan)
    ensures
        r.close == closing_of(prev, now),
        is_idle_notice(r.notice, now),
{
    let close = match prev {
        Some(s) => Some(Closing { start_time: s, end_time: now }),
        None => None,
    };
    DisconnectPlan { close, notice: idle_notice(now) }
}

/// Decides what a reaper tick closes, given the marker it took.
pub fn plan_reap(prev: Option<i64>, now: i64) -> (r: Option<Closing>)
    ensures
        r == closing_of(prev, now),
{
    match prev {
        Some(s) => Some(Closing { start_time: s, end_time: now }),
        None => None,
    }
}

/// The snapshot with its last entry forced open when the marker names it.
pub open spec fn reconciled(rows: Seq<Segment>, open: Option<i64>) -> Seq<Segment> {
    match open {
        Some(s) => if rows.len() > 0 && rows.last().start_time == s {
            rows.update(rows.len() - 1, Segment { end_time: None, ..rows.last() })
        } else {
            rows
        },
        None => rows,
    }
}

/// Reconciles a catch-up snapshot with the session marker: when the marker
/// names the last entry, that entry is shown as still open.
pub fn reconcile_snapshot(rows: &mut Vec<Segment>, open: Option<i64>)
    ensures
        final(rows)@ == reconciled(old(rows)@, open),
{
    let n = rows.len();
    if let Some(s) = open {
        if n > 0 && rows[n - 1].start_time == s {
            rows[n - 1].end_time = None;
            assert(rows@ =~= reconciled(old(rows)@, open));
        }
    }
}

/// The time up to which the stored rows reach: the last segment's end, or its
/// start while it is open.
pub open spec fn last_time(rows: Seq<Segment>) -> i64 {
    match rows.last().end_time {
        Some(e) => e,
        None => rows.last().start_time,
    }
}

/// A transition at `now` is accepted when `now` comes after every recorded time.
pub open spec fn time_accepted(rows: Seq<Segment>, now: i64) -> bool {
    rows.len() == 0 || last_time(rows) < now
}

/// The rows after closing the segment that the marker names, if any.
pub open spec fn close_open(rows: Seq<Segment>, open: Option<i64>, now: i64) -> Seq<Segment> {
    match open {
        Some(s) => closed_at(rows, s, now),
        None => rows,
    }
}

/// The tracker contents after a reaper tick at `now`: a stale open segment is
/// closed and the marker cleared; otherwise nothing changes.
pub open spec fn reaped(v: (Seq<Segment>, Option<i64>), now: i64) -> (Seq<Segment>, Option<i64>) {
    if v.1 is Some && time_accepted(v.0, now) {
        (close_open(v.0, v.1, now), None)
    } else {
        v
    }
}

/// The rows after a reporter event at `now`.
pub open spec fn rows_after_event(
    rows: Seq<Segment>,
    open: Option<i64>,
    ev: RawEvent,
    now: i64,
) -> Seq<Segment> {
    if ev.spec_is_idle() {
        close_open(rows, open, now)
    } else {
        close_open(rows, open, now).push(segment_of(ev, now))
    }
}

/// The marker for the rows: the last segment's start while it is open.
pub open spec fn marker_for(rows: Seq<Segment>) -> Option<i64> {
    if rows.len() > 0 && rows.last().end_time is None {
        Some(rows.last().start_time)
    } else {
        None
    }
}

/// Rebuilds the session marker from stored rows after a restart: the last
/// row's start when that row is open.
pub fn marker_from_rows(rows: &Vec<Segment>) -> (r: Option<i64>)
    ensures
        r == marker_for(rows@),
{
    let n = rows.len();
    if n > 0 && rows[n - 1].end_time.is_none() {
        Some(rows[n - 1].start_time)
    } else {
        None
    }
}

/// Consistent tracker contents: start times increase, each segment ends after
/// it starts, every segment but the last is closed no later than the next one
/// starts, and the marker names the last segment exactly while it is open.
pub open spec fn consistent(rows: Seq<Segment>, open: Option<i64>) -> bool {
    &&& starts_increasing(rows)
    &&& forall|i: int| #![trigger rows[i].end_time]
        0 <= i < rows.len() && rows[i].end_time is Some ==> rows[i].start_time
            < rows[i].end_time->Some_0
    &&& forall|i: int| #![trigger rows[i].end_time]
        0 <= i < rows.len() - 1 ==> rows[i].end_time is Some && rows[i].end_time->Some_0
            <= rows[i + 1].start_time
    &&& open == marker_for(rows)
}

/// Closing the marked segment changes only the last row.
pub(crate) proof fn lemma_close_last(rows: Seq<Segment>, open: Option<i64>, now: i64)
    requires
        consistent(rows, open),
        open is Some,
    ensures
        close_open(rows, open, now) == rows.update(rows.len() - 1, with_end(rows.last(), now)),
{
    let n = rows.len();
    assert forall|i: int| 0 <= i < n - 1 implies rows[i].start_time != rows.last().start_time by {
        assert(rows[i].start_time < rows[n - 1].start_time);
    }
    assert(close_open(rows, open, now) =~= rows.update(n - 1, with_end(rows.last(), now)));
}

/// Closing what is open at an accepted time leaves consistent rows with nothing open.
pub(crate) proof fn lemma_close_consistent(rows: Seq<Segment>, open: Option<i64>, now: i64)
    requires
        consistent(rows, open),
        time_accepted(rows, now),
    ensures
        consistent(close_open(rows, open, now), None),
        close_open(rows, open, now).len() == rows.len(),
        rows.len() > 0 ==> close_open(rows, open, now).last().end_time is Some,
        rows.len() > 0 ==> close_open(rows, open, now).last().end_time->Some_0 <= now,
{
    if open is Some {
        lemma_close_last(rows, open, now);
        let c = close_open(rows, open, now);
        assert forall|i: int, j: int| 0 <= i < j < c.len() implies c[i].start_time < c[j].start_time by {
            assert(rows[i].start_time < rows[j].start_time);
        }
    }
}

/// Opening a segment at an accepted time after closing what was open keeps the
/// rows consistent, with the new segment marked open.
pub(crate) proof fn lemma_open_consistent(rows: Seq<Segment>, open: Option<i64>, ev: RawEvent, now: i64)
    requires
        consistent(rows, open),
        time_accepted(rows, now),
        !ev.spec_is_idle(),
    ensures
        consistent(rows_after_event(rows, open, ev, now), Some(now)),
{
    lemma_close_consistent(rows, open, now);
    let c = close_open(rows, open, now);
    let r = c.push(segment_of(ev, now));
    if rows.len() > 0 {
        assert(c.last().start_time == rows.last().start_time);
        assert(rows.last().start_time <= last_time(rows));
    }
    assert forall|i: int, j: int| 0 <= i < j < r.len() implies r[i].start_time < r[j].start_time by {
        if j < c.len() {
            assert(r[i] == c[i] && r[j] == c[j]);
        } else {
            assert(c[i].start_time <= c[c.len() - 1].start_time);
        }
    }
    assert forall|i: int| 0 <= i < r.len() - 1 implies #[trigger] r[i].end_time is Some
        && r[i].end_time->Some_0 <= r[i + 1].start_time by {
        if i < c.len() - 1 {
            assert(r[i] == c[i] && r[i + 1] == c[i + 1]);
        }
    }
}

/// In consistent contents at most one segment is open: every transition of
/// the tracker keeps its contents consistent, so this holds after any
/// sequence of reporter events, disconnects and reaper ticks.
pub proof fn lemma_at_most_one_open(rows: Seq<Segment>, open: Option<i64>)
    requires
        consistent(rows, open),
    ensures
        forall|i: int, j: int|
            #![trigger rows[i].end_time, rows[j].end_time]
            0 <= i < rows.len() && 0 <= j < rows.len() && rows[i].end_time is None
                && rows[j].end_time is None ==> i == j,
{
    assert forall|i: int, j: int|
        #![trigger rows[i].end_time, rows[j].end_time]
        0 <= i < rows.len() && 0 <= j < rows.len() && rows[i].end_time is None
            && rows[j].end_time is None implies i == j by {
        assert(i == rows.len() - 1);
        assert(j == rows.len() - 1);
    }
}

/// A non-idle event closes the previously open segment at the time its own
/// segment starts, so the close comes no later than the new start; between
/// the close and the insert no segment is open, and after the insert only
/// the new one is.
pub proof fn lemma_close_before_open(rows: Seq<Segment>, open: Option<i64>, ev: RawEvent, now: i64)
    requires
        consistent(rows, open),
        time_accepted(rows, now),
        !ev.spec_is_idle(),
    ensures
        ({
            let after = rows_after_event(rows, open, ev, now);
            &&& after.len() == rows.len() + 1
            &&& after.last() == segment_of(ev, now)
            &&& forall|i: int| 0 <= i < rows.len() ==> #[trigger] after[i].end_time is Some
                && after[i].end_time->Some_0 <= after.last().start_time
            &&& open matches Some(s) ==> after[rows.len() - 1].start_time == s
                && after[rows.len() - 1].end_time == Some(now)
            &&& forall|i: int| 0 <= i < rows.len() ==> #[trigger] close_open(rows, open, now)[i].end_time is Some
            &&& after == close_open(rows, open, now).push(segment_of(ev, now))
        }),
{
    lemma_close_consistent(rows, open, now);
    let c = close_open(rows, open, now);
    assert forall|i: int| 0 <= i < rows.len() implies #[trigger] c[i].end_time is Some by {
        if i < rows.len() - 1 {
            assert(c[i].end_time is Some);
        } else {
            assert(marker_for(c) is None);
        }
    }
    lemma_close_consistent(rows, open, now);
    lemma_open_consistent(rows, open, ev, now);
    let after = rows_after_event(rows, open, ev, now);
    assert forall|i: int| 0 <= i < rows.len() implies #[trigger] after[i].end_time is Some
        && after[i].end_time->Some_0 <= after.last().start_time by {
        assert(after[i].end_time->Some_0 <= after[i + 1].start_time);
        assert(after[i + 1].start_time <= after.last().start_time);
    }
    if open is Some {
        lemma_close_last(rows, open, now);
    }
}

/// An idle event inserts no row and leaves every segment closed.
pub proof fn lemma_idle_closes_all(rows: Seq<Segment>, open: Option<i64>, ev: RawEvent, now: i64)
    requires
        consistent(rows, open),
        time_accepted(rows, now),
        ev.spec_is_idle(),
    ensures
        rows_after_event(rows, open, ev, now).len() == rows.len(),
        forall|i: int| 0 <= i < rows.len() ==> #[trigger] rows_after_event(rows, open, ev, now)[i].end_time is Some,
{
    lemma_close_consistent(rows, open, now);
    let c = rows_after_event(rows, open, ev, now);
    assert forall|i: int| 0 <= i < rows.len() implies #[trigger] c[i].end_time is Some by {
        if i < rows.len() - 1 {
            assert(c[i].end_time is Some);
        } else {
            assert(marker_for(c) is None);
        }
    }
}

/// Of two reaper ticks with no reporter activity in between, at most one
/// closes anything: once a tick has closed the open segment, the next one
/// changes nothing.
pub proof fn lemma_reaper_idempotent(v: (Seq<Segment>, Option<i64>), first: i64, second: i64)
    requires
        consistent(v.0, v.1),
    ensures
        reaped(v, first) != v ==> reaped(reaped(v, first), second) == reaped(v, first),
{
}

/// The session marker together with the segment store, driven by reporter
/// events, reaper ticks and viewer catch-up.
#[derive(Debug)]
pub struct Tracker {
    session: SessionState,
    store: MemoryStore,
}

impl View for Tracker {
    type V = (Seq<Segment>, Option<i64>);

    closed spec fn view(&self) -> (Seq<Segment>, Option<i64>) {
        (self.store@, self.session.open_marker())
    }
}

impl Tracker {
    pub open spec fn wf(&self) -> bool {
        consistent(self@.0, self@.1)
    }

    /// No segments and nothing open.
    pub fn new() -> (r: Tracker)
        ensures
            r@.0 == Seq::<Segment>::empty(),
            r@.1 is None,
            r.wf(),
    {
        Tracker { session: SessionState::new(), store: MemoryStore::new() }
    }

    /// Copies of the stored segments, in insertion order.
    pub fn segments(&self) -> (r: Vec<Segment>)
        ensures
            r@ == self@.0,
    {
        self.store.segments()
    }

    /// The start of the open segment, if any.
    pub fn open_marker(&self) -> (r: Option<i64>)
        ensures
            r == self@.1,
    {
        self.session.peek_open()
    }

    fn accepts(&self, now: i64) -> (r: bool)
        requires
            self.wf(),
        ensures
            r == time_accepted(self@.0, now),
    {
        let rows = &self.store;
        let n = rows.len();
        if n == 0 {
            true
        } else {
            let seg = rows.last_segment();
            match seg.end_time {
                Some(e) => e < now,
                None => seg.start_time < now,
            }
        }
    }
    /// Handles one reporter event at `now`: closes what was open, inserts a
    /// segment for a non-idle event, and returns the notice for viewers.
    /// Refused, with nothing changed, unless `now` comes after every recorded time.
    pub fn handle_event(&mut self, ev: &RawEvent, now: i64) -> (r: Result<BroadcastEvent, TrackError>)
        requires
            old(self).wf(),
        ensures
            final(self).wf(),
            r is Ok <==> time_accepted(old(self)@.0, now),
            r is Ok ==> r->Ok_0 == notice_of(*ev, now)
                && final(self)@.0 == rows_after_event(old(self)@.0, old(self)@.1, *ev, now)
                && final(self)@.1 == open_after(*ev, now),
            r is Err ==> final(self)@ == old(self)@ && r->Err_0 == TrackError::OutOfOrder,
    {
        if !self.accepts(now) {
            return Err(TrackError::OutOfOrder);
        }
        proof {
            lemma_close_consistent(self@.0, self@.1, now);
            if !ev.spec_is_idle() {
                lemma_open_consistent(self@.0, self@.1, *ev, now);
            }
        }
        let prev = self.session.take_open();
        let plan = plan_event(prev, ev, now);
        if let Some(c) = plan.close {
            self.store.close(c.start_time, c.end_time);
        }
        if let Some(seg) = plan.insert {
            let inserted = self.store.insert_open(seg.app, seg.title, seg.url, seg.start_time);
            assert(inserted is Ok);
        }
        if let Some(s) = plan.next_open {
            self.session.set_open(s);
        }
        Ok(plan.notice)
    }

    /// Handles the end of the reporter connection at `now`: closes what was
    /// open and returns an idle notice. Refused, with nothing changed, unless
    /// `now` comes after every recorded time.
    pub fn handle_disconnect(&mut self, now: i64) -> (r: Result<BroadcastEvent, TrackError>)
        requires
            old(self).wf(),
        ensures
            final(self).wf(),
            r is Ok <==> time_accepted(old(self)@.0, now),
            r is Ok ==> is_idle_notice(r->Ok_0, now)
                && final(self)@.0 == close_open(old(self)@.0, old(self)@.1, now)
                && final(self)@.1 is None,
            r is Err ==> final(self)@ == old(self)@ && r->Err_0 == TrackError::OutOfOrder,
    {
        if !self.accepts(now) {
            return Err(TrackError::OutOfOrder);
        }
        proof {
            lemma_close_consistent(self@.0, self@.1, now);
        }
        let prev = self.session.take_open();
        let plan = plan_disconnect(prev, now);
        if let Some(c) = plan.close {
            self.store.close(c.start_time, c.end_time);
        }
        Ok(plan.notice)
    }

    /// One reaper tick at `now`: closes and clears a stale open segment.
    /// Returns whether it closed one; it does nothing when nothing is open or
    /// `now` does not come after every recorded time.
    pub fn reaper_tick(&mut self, now: i64) -> (r: bool)
        requires
            old(self).wf(),
        ensures
            final(self).wf(),
            r == (old(self)@.1 is Some && time_accepted(old(self)@.0, now)),
            final(self)@ == reaped(old(self)@, now),
    {
        if self.session.peek_open().is_none() || !self.accepts(now) {
            return false;
        }
        proof {
            lemma_close_consistent(self@.0, self@.1, now);
        }
        let prev = self.session.take_open();
        if let Some(c) = plan_reap(prev, now) {
            self.store.close(c.start_time, c.end_time);
        }
        true
    }

    /// The snapshot a viewer receives: the segments that are open or end after
    /// `cutoff`, by start time, reconciled with the session marker.
    pub fn catch_up(&self, cutoff: i64) -> (r: Vec<Segment>)
        requires
            self.wf(),
        ensures
            r@ == reconciled(recent(self@.0, cutoff), self@.1),
            self@.1 matches Some(s) ==> r@.len() > 0 && r@.last().start_time == s
                && r@.last().end_time is None,
    {
        proof {
            if self@.1 is Some {
                let rows = self@.0;
                assert(rows.drop_last().push(rows.last()) == rows);
            }
        }
        let mut rows = self.store.query_recent(cutoff);
        let open = self.session.peek_open();
        reconcile_snapshot(&mut rows, open);
        rows
    }
}

} // verus!
