use vstd::prelude::*;
use crate::model::{Segment, copy_text};

verus! {

/// Why a write to the segment store was refused.
#[derive(Debug, PartialEq, Eq, Structural)]
pub enum StorageError {
    /// The new segment's start time does not come after every stored start time.
    StartNotIncreasing,
}

/// Start times strictly increase along the sequence.
pub open spec fn starts_increasing(rows: Seq<Segment>) -> bool {
    forall|i: int, j: int| 0 <= i < j < rows.len() ==> rows[i].start_time < rows[j].start_time
}

/// A new open segment.
pub open spec fn open_segment(
    app: String,
    title: Option<String>,
    url: Option<String>,
    start_time: i64,
) -> Segment {
    Segment { start_time, end_time: None, app, title, url }
}

/// The segment with its end set to `end`.
pub open spec fn with_end(seg: Segment, end: i64) -> Segment {
    Segment { end_time: Some(end), ..seg }
}

/// The rows after setting the end of the segment that starts at `start`.
pub open spec fn closed_at(rows: Seq<Segment>, start: i64, end: i64) -> Seq<Segment> {
    Seq::new(
        rows.len(),
        |i: int| if rows[i].start_time == start { with_end(rows[i], end) } else { rows[i] },
    )
}

/// A segment lies in the window after `cutoff` when it is open or ends after it.
pub open spec fn in_window(seg: Segment, cutoff: i64) -> bool {
    match seg.end_time {
        None => true,
        Some(e) => e > cutoff,
    }
}

/// The rows in the window after `cutoff`, in stored order.
pub open spec fn recent(rows: Seq<Segment>, cutoff: i64) -> Seq<Segment>
    decreases rows.len(),
{
    if rows.len() == 0 {
        Seq::empty()
    } else {
        let before = recent(rows.drop_last(), cutoff);
        if in_window(rows.last(), cutoff) {
            before.push(rows.last())
        } else {
            before
        }
    }
}

/// An insertion at `start` is accepted when it comes after every stored start.
pub open spec fn insert_accepted(rows: Seq<Segment>, start: i64) -> bool {
    rows.len() == 0 || rows.last().start_time < start
}

/// Segments kept in memory in insertion order, keyed by start time.
#[derive(Debug)]
pub struct MemoryStore {
    rows: Vec<Segment>,
}

impl View for MemoryStore {
    type V = Seq<Segment>;

    closed spec fn view(&self) -> Seq<Segment> {
        self.rows@
    }
}

impl MemoryStore {
    pub open spec fn wf(&self) -> bool {
        starts_increasing(self@)
    }

    /// An empty store.
    pub fn new() -> (r: MemoryStore)
        ensures
            r@ == Seq::<Segment>::empty(),
            r.wf(),
    {
        MemoryStore { rows: Vec::new() }
    }

    /// Number of stored segments.
    pub fn len(&self) -> (r: usize)
        ensures
            r == self@.len(),
    {
        self.rows.len()
    }

    /// Copies of all stored segments, in insertion order.
    pub fn segments(&self) -> (r: Vec<Segment>)
        ensures
            r@ == self@,
    {
        let n = self.rows.len();
        let mut out: Vec<Segment> = Vec::new();
        let mut i: usize = 0;
        while i < n
            invariant
                n == self@.len(),
                i <= n,
                out@ == self@.take(i as int),
            decreases n - i,
        {
            out.push(self.rows[i].copy());
            assert(out@ =~= self@.take(i + 1));
            i = i + 1;
        }
        assert(out@ =~= self@);
        out
    }

    /// The most recently inserted segment.
    pub fn last_segment(&self) -> (r: &Segment)
        requires
            self@.len() > 0,
        ensures
            *r == self@.last(),
    {
        &self.rows[self.rows.len() - 1]
    }

    /// Appends an open segment starting at `start_time`; refused unless that
    /// time comes after every stored start time.
    pub fn insert_open(
        &mut self,
        app: String,
        title: Option<String>,
        url: Option<String>,
        start_time: i64,
    ) -> (r: Result<Segment, StorageError>)
        requires
            old(self).wf(),
        ensures
            final(self).wf(),
            r is Ok <==> insert_accepted(old(self)@, start_time),
            r is Ok ==> final(self)@ == old(self)@.push(open_segment(app, title, url, start_time))
                && r->Ok_0 == open_segment(app, title, url, start_time),
            r is Err ==> final(self)@ == old(self)@ && r->Err_0 == StorageError::StartNotIncreasing,
    {
        let n = self.rows.len();
        if n > 0 && self.rows[n - 1].start_time >= start_time {
            return Err(StorageError::StartNotIncreasing);
        }
        let seg = Segment {
            start_time,
            end_time: None,
            app: app.clone(),
            title: copy_text(&title),
            url: copy_text(&url),
        };
        let out = seg.copy();
        self.rows.push(seg);
        Ok(out)
    }

    /// Sets the end of the segment that starts at `start_time`; does nothing
    /// when there is none.
    pub fn close(&mut self, start_time: i64, end_time: i64)
        requires
            old(self).wf(),
        ensures
            final(self).wf(),
            final(self)@ == closed_at(old(self)@, start_time, end_time),
    {
        let n = self.rows.len();
        let mut i: usize = 0;
        while i < n
            invariant
                n == self.rows.len(),
                self@ == old(self)@,
                starts_increasing(self@),
                i <= n,
                forall|k: int| 0 <= k < i ==> self@[k].start_time != start_time,
            decreases n - i,
        {
            if self.rows[i].start_time == start_time {
                let ghost before = self@;
                self.rows[i].end_time = Some(end_time);
                assert forall|k: int| 0 <= k < n && k != i implies before[k].start_time != start_time by {
                    if k > i {
                        assert(before[i as int].start_time < before[k].start_time);
                    }
                }
                assert(self@ =~= closed_at(old(self)@, start_time, end_time));
                return;
            }
            i = i + 1;
        }
        assert(self@ =~= closed_at(old(self)@, start_time, end_time));
    }

    /// The segments that are open or end after `cutoff`, by ascending start time.
    pub fn query_recent(&self, cutoff: i64) -> (r: Vec<Segment>)
        ensures
            r@ == recent(self@, cutoff),
    {
        let n = self.rows.len();
        let mut out: Vec<Segment> = Vec::new();
        let mut i: usize = 0;
        while i < n
            invariant
                n == self@.len(),
                i <= n,
                out@ == recent(self@.take(i as int), cutoff),
            decreases n - i,
        {
            assert(self@.take(i + 1).drop_last() =~= self@.take(i as int));
            let keep = match self.rows[i].end_time {
                None => true,
                Some(e) => e > cutoff,
            };
            if keep {
                out.push(self.rows[i].copy());
            }
            i = i + 1;
        }
        assert(self@.take(n as int) =~= self@);
        out
    }
}

} // verus!
