use vstd::prelude::*;
use crate::model::{RawEvent, Segment};
use crate::ingest::{
    close_open, consistent, last_time, lemma_close_consistent, lemma_close_last,
    lemma_open_consistent, open_after, reconciled, rows_after_event, time_accepted,
};
use crate::store::{in_window, recent, with_end};

verus! {

/// Event times strictly increase.
pub open spec fn times_increasing(ts: Seq<i64>) -> bool {
    forall|i: int, j: int| 0 <= i < j < ts.len() ==> ts[i] < ts[j]
}

/// The tracker contents after the first `n` events, event `k` arriving at
/// `ts[k]`, starting from an empty tracker: each step is what
/// `Tracker::handle_event` does when it accepts the event.
pub open spec fn replay(evs: Seq<RawEvent>, ts: Seq<i64>, n: nat) -> (Seq<Segment>, Option<i64>)
    decreases n,
{
    if n == 0 {
        (Seq::empty(), None)
    } else {
        let v = replay(evs, ts, (n - 1) as nat);
        let k = n - 1;
        (rows_after_event(v.0, v.1, evs[k], ts[k]), open_after(evs[k], ts[k]))
    }
}

/// The segment of event `k` among the first `n`: it starts at the event's
/// time and ends when the next event arrives, or is open for the last one.
pub open spec fn segment_at(evs: Seq<RawEvent>, ts: Seq<i64>, n: int, k: int) -> Segment {
    Segment {
        start_time: ts[k],
        end_time: if k + 1 < n { Some(ts[k + 1]) } else { None },
        app: evs[k].app,
        title: Some(evs[k].title),
        url: evs[k].url,
    }
}

/// The segments of the non-idle events among the first `n`, from event `k`
/// on, in order.
pub open spec fn timeline(evs: Seq<RawEvent>, ts: Seq<i64>, n: int, k: int) -> Seq<Segment>
    decreases n - k,
{
    if k >= n {
        Seq::empty()
    } else if evs[k].spec_is_idle() {
        timeline(evs, ts, n, k + 1)
    } else {
        seq![segment_at(evs, ts, n, k)] + timeline(evs, ts, n, k + 1)
    }
}

/// The marker after the first `n` events: the last one's time if it was not idle.
pub open spec fn marker_after(evs: Seq<RawEvent>, ts: Seq<i64>, n: int) -> Option<i64> {
    if n >= 1 && !evs[n - 1].spec_is_idle() {
        Some(ts[n - 1])
    } else {
        None
    }
}

/// When the last of the first `m` events is not idle, the timeline from any
/// earlier event ends with that event's open segment.
proof fn lemma_timeline_last(evs: Seq<RawEvent>, ts: Seq<i64>, m: int, k: int)
    requires
        1 <= m <= evs.len(),
        m <= ts.len(),
        0 <= k <= m - 1,
        !evs[m - 1].spec_is_idle(),
    ensures
        timeline(evs, ts, m, k).len() > 0,
        timeline(evs, ts, m, k).last() == segment_at(evs, ts, m, m - 1),
    decreases m - k,
{
    if k < m - 1 {
        lemma_timeline_last(evs, ts, m, k + 1);
        let rest = timeline(evs, ts, m, k + 1);
        if !evs[k].spec_is_idle() {
            let whole = seq![segment_at(evs, ts, m, k)] + rest;
            assert(whole[whole.len() - 1] == rest[rest.len() - 1]);
        }
    } else {
        assert(timeline(evs, ts, m, k + 1) =~= Seq::<Segment>::empty());
        assert(timeline(evs, ts, m, k) =~= seq![segment_at(evs, ts, m, k)]);
    }
}

/// One more event closes the last open segment of the timeline at its time,
/// and appends its own segment when it is not idle.
proof fn lemma_timeline_extend(evs: Seq<RawEvent>, ts: Seq<i64>, n: int, k: int)
    requires
        1 <= n <= evs.len(),
        n <= ts.len(),
        0 <= k <= n - 1,
    ensures
        ({
            let prev = timeline(evs, ts, n - 1, k);
            let fixed = if n >= 2 && k <= n - 2 && !evs[n - 2].spec_is_idle() {
                prev.update(prev.len() - 1, with_end(prev.last(), ts[n - 1]))
            } else {
                prev
            };
            let tail = if evs[n - 1].spec_is_idle() {
                Seq::<Segment>::empty()
            } else {
                seq![segment_at(evs, ts, n, n - 1)]
            };
            timeline(evs, ts, n, k) == fixed + tail
        }),
    decreases n - k,
{
    let prev = timeline(evs, ts, n - 1, k);
    let tail = if evs[n - 1].spec_is_idle() {
        Seq::<Segment>::empty()
    } else {
        seq![segment_at(evs, ts, n, n - 1)]
    };
    if k == n - 1 {
        assert(prev =~= Seq::<Segment>::empty());
        assert(timeline(evs, ts, n, k + 1) =~= Seq::<Segment>::empty());
        assert(timeline(evs, ts, n, k) =~= prev + tail);
    } else {
        lemma_timeline_extend(evs, ts, n, k + 1);
        let rest_prev = timeline(evs, ts, n - 1, k + 1);
        let open_prev = n >= 2 && k + 1 <= n - 2 && !evs[n - 2].spec_is_idle();
        if open_prev {
            lemma_timeline_last(evs, ts, n - 1, k + 1);
        }
        if !evs[k].spec_is_idle() {
            if k == n - 2 {
                assert(rest_prev =~= Seq::<Segment>::empty());
                assert(prev =~= seq![segment_at(evs, ts, n - 1, k)]);
                assert(segment_at(evs, ts, n, k) == with_end(segment_at(evs, ts, n - 1, k), ts[n - 1]));
                assert(timeline(evs, ts, n, k) =~= prev.update(0, with_end(prev.last(), ts[n - 1])) + tail);
            } else {
                assert(segment_at(evs, ts, n, k) == segment_at(evs, ts, n - 1, k));
                if open_prev {
                    let fixed_rest = rest_prev.update(rest_prev.len() - 1, with_end(rest_prev.last(), ts[n - 1]));
                    assert(seq![segment_at(evs, ts, n - 1, k)] + fixed_rest
                        =~= prev.update(prev.len() - 1, with_end(prev.last(), ts[n - 1])));
                    assert(timeline(evs, ts, n, k) =~= (seq![segment_at(evs, ts, n - 1, k)] + fixed_rest) + tail);
                } else {
                    assert(timeline(evs, ts, n, k) =~= prev + tail);
                }
            }
        }
    }
}

/// The tracker contents after the first `n` events are the timeline of those
/// events, consistent, with the marker on the last event when it was not
/// idle; they reach no later than the last event's time and start no earlier
/// than the first.
proof fn lemma_replay(evs: Seq<RawEvent>, ts: Seq<i64>, n: nat)
    requires
        n <= evs.len(),
        evs.len() == ts.len(),
        times_increasing(ts),
    ensures
        replay(evs, ts, n).0 == timeline(evs, ts, n as int, 0),
        replay(evs, ts, n).1 == marker_after(evs, ts, n as int),
        consistent(replay(evs, ts, n).0, replay(evs, ts, n).1),
        n >= 1 && replay(evs, ts, n).0.len() > 0 ==> last_time(replay(evs, ts, n).0) <= ts[n - 1],
        n >= 1 ==> forall|i: int| 0 <= i < replay(evs, ts, n).0.len()
            ==> ts[0] <= #[trigger] replay(evs, ts, n).0[i].start_time,
    decreases n,
{
    if n == 0 {
        assert(timeline(evs, ts, 0, 0) =~= Seq::<Segment>::empty());
    } else {
        let m = (n - 1) as nat;
        lemma_replay(evs, ts, m);
        let v = replay(evs, ts, m);
        let k = n - 1;
        let ev = evs[k];
        let now = ts[k];
        if m >= 1 {
            assert(ts[m - 1] < now);
        }
        assert(time_accepted(v.0, now));
        lemma_close_consistent(v.0, v.1, now);
        if !ev.spec_is_idle() {
            lemma_open_consistent(v.0, v.1, ev, now);
        }
        lemma_timeline_extend(evs, ts, n as int, 0);
        let closed = close_open(v.0, v.1, now);
        if v.1 is Some {
            lemma_close_last(v.0, v.1, now);
        } else {
            assert(closed == v.0);
        }
        let after = replay(evs, ts, n).0;
        assert(after =~= timeline(evs, ts, n as int, 0));
        assert forall|i: int| 0 <= i < after.len() implies ts[0] <= #[trigger] after[i].start_time by {
            if i < v.0.len() {
                assert(after[i].start_time == v.0[i].start_time);
            } else {
                assert(ts[0] <= ts[k]);
            }
        }
    }
}

/// The timeline from event `j` holds the segment of every later non-idle event.
proof fn lemma_timeline_holds(evs: Seq<RawEvent>, ts: Seq<i64>, n: int, j: int, k: int)
    requires
        n <= evs.len(),
        n <= ts.len(),
        0 <= j <= k < n,
        !evs[k].spec_is_idle(),
    ensures
        timeline(evs, ts, n, j).contains(segment_at(evs, ts, n, k)),
    decreases k - j,
{
    let t = timeline(evs, ts, n, j);
    if j == k {
        assert(t[0] == segment_at(evs, ts, n, k));
    } else {
        lemma_timeline_holds(evs, ts, n, j + 1, k);
        let rest = timeline(evs, ts, n, j + 1);
        let i = choose|i: int| 0 <= i < rest.len() && rest[i] == segment_at(evs, ts, n, k);
        if !evs[j].spec_is_idle() {
            assert(t[i + 1] == rest[i]);
        }
    }
}

/// Rows that all lie in the window after `cutoff` come back unchanged.
proof fn lemma_recent_all(rows: Seq<Segment>, cutoff: i64)
    requires
        forall|i: int| 0 <= i < rows.len() ==> in_window(#[trigger] rows[i], cutoff),
    ensures
        recent(rows, cutoff) == rows,
    decreases rows.len(),
{
    if rows.len() > 0 {
        let front = rows.drop_last();
        assert forall|i: int| 0 <= i < front.len() implies in_window(#[trigger] front[i], cutoff) by {
            assert(front[i] == rows[i]);
        }
        lemma_recent_all(front, cutoff);
        assert(in_window(rows[rows.len() - 1], cutoff));
        assert(front.push(rows.last()) =~= rows);
    }
}

/// Replaying events at increasing times into an empty tracker and then
/// querying from before the first event gives exactly the segments of the
/// non-idle events, in order of their start times, each ending when the next
/// event arrived and the last one still open when it was not followed by
/// another event; the viewer snapshot is that same sequence, and it holds
/// the segment of every non-idle event.
pub proof fn lemma_round_trip(evs: Seq<RawEvent>, ts: Seq<i64>, cutoff: i64)
    requires
        evs.len() == ts.len(),
        evs.len() > 0,
        times_increasing(ts),
        cutoff < ts[0],
    ensures
        ({
            let v = replay(evs, ts, evs.len());
            &&& recent(v.0, cutoff) == timeline(evs, ts, evs.len() as int, 0)
            &&& reconciled(recent(v.0, cutoff), v.1) == timeline(evs, ts, evs.len() as int, 0)
            &&& forall|k: int| 0 <= k < evs.len() && !evs[k].spec_is_idle()
                ==> recent(v.0, cutoff).contains(#[trigger] segment_at(evs, ts, evs.len() as int, k))
        }),
{
    assert forall|k: int| 0 <= k < evs.len() && !evs[k].spec_is_idle()
        implies timeline(evs, ts, evs.len() as int, 0).contains(#[trigger] segment_at(evs, ts, evs.len() as int, k)) by {
        lemma_timeline_holds(evs, ts, evs.len() as int, 0, k);
    }
    let n = evs.len();
    lemma_replay(evs, ts, n);
    let v = replay(evs, ts, n);
    let rows = v.0;
    assert forall|i: int| 0 <= i < rows.len() implies in_window(#[trigger] rows[i], cutoff) by {
        assert(ts[0] <= rows[i].start_time);
        if rows[i].end_time is Some {
            assert(rows[i].start_time < rows[i].end_time->Some_0);
        }
    }
    lemma_recent_all(rows, cutoff);
    if v.1 is Some {
        assert(reconciled(rows, v.1) =~= rows);
    }
}

} // verus!
