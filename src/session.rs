use vstd::prelude::*;

verus! {

/// The single slot that records which segment, if any, is open: its start time.
#[derive(Debug)]
pub struct SessionState {
    open: Option<i64>,
}

impl SessionState {
    pub closed spec fn open_marker(&self) -> Option<i64> {
        self.open
    }

    /// No segment is open.
    pub fn new() -> (r: SessionState)
        ensures
            r.open_marker() is None,
    {
        SessionState { open: None }
    }

    /// Reads and clears the marker in one step, returning its previous value.
    pub fn take_open(&mut self) -> (r: Option<i64>)
        ensures
            r == old(self).open_marker(),
            final(self).open_marker() is None,
    {
        let r = self.open;
        self.open = None;
        r
    }

    /// Records that the segment starting at `start_time` is open.
    pub fn set_open(&mut self, start_time: i64)
        ensures
            final(self).open_marker() == Some(start_time),
    {
        self.open = Some(start_time);
    }

    /// Reads the marker without changing it.
    pub fn peek_open(&self) -> (r: Option<i64>)
        ensures
            r == self.open_marker(),
    {
        self.open
    }
}

} // verus!
