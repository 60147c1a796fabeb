use vstd::prelude::*;

verus! {

/// A stored time segment, identified by its start time.
///
/// An absent end means that the segment is still open.
#[derive(Debug)]
pub struct Segment {
    pub start_time: i64,
    pub end_time: Option<i64>,
    pub app: String,
    pub title: Option<String>,
    pub url: Option<String>,
}

/// An inbound activity event from the reporter. An empty `app` means idle.
#[derive(Debug)]
pub struct RawEvent {
    pub app: String,
    pub title: String,
    pub url: Option<String>,
}

/// The notification that viewers receive for each committed transition.
#[derive(Debug)]
pub struct BroadcastEvent {
    pub app: String,
    pub title: String,
    pub url: Option<String>,
    pub start_time: i64,
}

impl Segment {
    pub open spec fn is_open(&self) -> bool {
        self.end_time is None
    }

    /// A field-for-field copy.
    pub fn copy(&self) -> (r: Segment)
        ensures
            r == *self,
    {
        Segment {
            start_time: self.start_time,
            end_time: self.end_time,
            app: self.app.clone(),
            title: copy_text(&self.title),
            url: copy_text(&self.url),
        }
    }
}

impl RawEvent {
    /// An event with an empty application name reports that nothing is focused.
    pub open spec fn spec_is_idle(&self) -> bool {
        self.app@.len() == 0
    }

    #[verifier::when_used_as_spec(spec_is_idle)]
    pub fn is_idle(&self) -> (r: bool)
        ensures
            r == self.spec_is_idle(),
    {
        self.app.as_str().is_empty()
    }
}

/// Copies an optional string, keeping it equal to the original.
pub fn copy_text(t: &Option<String>) -> (r: Option<String>)
    ensures
        r == *t,
{
    match t {
        Some(s) => Some(s.clone()),
        None => None,
    }
}

} // verus!
