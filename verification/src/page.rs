//! The life of a code page: what its memory may be used for, and in what
//! order that changes.
//!
//! A page is written while it is writable, then sealed. Only a sealed page
//! is made executable, and it is sealed again after the call. At no time
//! is a page writable and executable.

use vstd::prelude::*;

verus! {

/// Where a code page stands in its life.
#[derive(PartialEq, Eq, Structural, Debug, Clone, Copy)]
pub enum PageState {
    /// Mapped for reading and writing; the code is being copied in.
    Writable,
    /// Readable only.
    Sealed,
    /// Executable; a call into the page is under way.
    Executable,
    /// Unmapped.
    Released,
}

/// What happens to a code page.
#[derive(PartialEq, Eq, Structural, Debug, Clone, Copy)]
pub enum PageEvent {
    /// The code has been copied in.
    Loaded,
    /// A call into the page is about to be made.
    PreExec,
    /// The call into the page has returned.
    PostExec,
    /// The page is given up.
    Dropped,
}

/// What the memory of a page may be used for.
#[derive(PartialEq, Eq, Structural, Debug, Clone, Copy)]
pub struct Protection {
    pub readable: bool,
    pub writable: bool,
    pub executable: bool,
}

/// The protection of a page in a state; a released page has none.
pub open spec fn protection_spec(state: PageState) -> Option<Protection> {
    match state {
        PageState::Writable => Some(Protection { readable: true, writable: true, executable: false }),
        PageState::Sealed => Some(Protection { readable: true, writable: false, executable: false }),
        PageState::Executable => Some(Protection { readable: false, writable: false, executable: true }),
        PageState::Released => None,
    }
}

/// The state that an event leads to, where the event is in order.
pub open spec fn next_spec(state: PageState, event: PageEvent) -> Option<PageState> {
    match (state, event) {
        (PageState::Writable, PageEvent::Loaded) => Some(PageState::Sealed),
        (PageState::Sealed, PageEvent::PreExec) => Some(PageState::Executable),
        (PageState::Executable, PageEvent::PostExec) => Some(PageState::Sealed),
        (PageState::Writable, PageEvent::Dropped) => Some(PageState::Released),
        (PageState::Sealed, PageEvent::Dropped) => Some(PageState::Released),
        (PageState::Executable, PageEvent::Dropped) => Some(PageState::Released),
        _ => None,
    }
}

/// The state after a sequence of events, from `state` on; `None` once an
/// event is out of order.
pub open spec fn after(state: PageState, events: Seq<PageEvent>) -> Option<PageState>
    decreases events.len(),
{
    if events.len() == 0 {
        Some(state)
    } else {
        match after(state, events.drop_last()) {
            Some(s) => next_spec(s, events.last()),
            None => None,
        }
    }
}

impl PageState {
    /// The state of a page that has just been mapped.
    pub fn new() -> (s: Self)
        ensures
            s == PageState::Writable,
    {
        PageState::Writable
    }

    /// The protection to give the page in this state.
    pub fn protection(self) -> (p: Option<Protection>)
        ensures
            p == protection_spec(self),
            p matches Some(q) ==> !(q.writable && q.executable),
    {
        match self {
            PageState::Writable => Some(Protection { readable: true, writable: true, executable: false }),
            PageState::Sealed => Some(Protection { readable: true, writable: false, executable: false }),
            PageState::Executable => Some(Protection { readable: false, writable: false, executable: true }),
            PageState::Released => None,
        }
    }

    /// The state that `event` leads to, or `None` where the event is out
    /// of order.
    pub fn next(self, event: PageEvent) -> (r: Option<PageState>)
        ensures
            r == next_spec(self, event),
    {
        match (self, event) {
            (PageState::Writable, PageEvent::Loaded) => Some(PageState::Sealed),
            (PageState::Sealed, PageEvent::PreExec) => Some(PageState::Executable),
            (PageState::Executable, PageEvent::PostExec) => Some(PageState::Sealed),
            (PageState::Released, _) => None,
            (_, PageEvent::Dropped) => Some(PageState::Released),
            _ => None,
        }
    }
}

/// No page is writable and executable at a time, and between being
/// writable and being executable a page is sealed: whatever the events, a
/// page that is executable after them was sealed before the last of them.
/// No event makes a page writable again.
pub proof fn lemma_never_writable_and_executable(events: Seq<PageEvent>)
    ensures
        after(PageState::Writable, events) matches Some(s) ==> (protection_spec(s) matches Some(p)
            ==> !(p.writable && p.executable)),
        after(PageState::Writable, events) == Some(PageState::Executable) ==> events.len() > 0
            && after(PageState::Writable, events.drop_last()) == Some(PageState::Sealed),
        events.len() > 0 ==> after(PageState::Writable, events) != Some(PageState::Writable),
    decreases events.len(),
{
    if events.len() > 0 {
        lemma_never_writable_and_executable(events.drop_last());
    }
}

} // verus!
