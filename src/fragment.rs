//! An ordered sequence of events, in document order.
use vstd::prelude::*;
use crate::event::{event_owned, same_event, SgmlEvent};

verus! {

/// The events of a document, in the order they occur.
#[derive(Debug, PartialEq)]
pub struct SgmlFragment<'a> {
    pub events: Vec<SgmlEvent<'a>>,
}

impl<'a> SgmlFragment<'a> {
    /// A fragment holding `events`, in that order.
    pub fn from_events(events: Vec<SgmlEvent<'a>>) -> (r: SgmlFragment<'a>)
        ensures
            r.events@ == events@,
    {
        SgmlFragment { events }
    }

    /// The number of events.
    pub fn len(&self) -> (r: usize)
        ensures
            r == self.events@.len(),
    {
        self.events.len()
    }

    /// Whether there is no event.
    pub fn is_empty(&self) -> (r: bool)
        ensures
            r == (self.events@.len() == 0),
    {
        self.events.len() == 0
    }

    /// The event at `i`.
    pub fn get(&self, i: usize) -> (r: Option<&SgmlEvent<'a>>)
        ensures
            i < self.events@.len() ==> r == Some(&self.events@[i as int]),
            i >= self.events@.len() ==> r is None,
    {
        if i < self.events.len() {
            Some(&self.events[i])
        } else {
            None
        }
    }

    /// The events, in order.
    pub fn into_vec(self) -> (r: Vec<SgmlEvent<'a>>)
        ensures
            r@ == self.events@,
    {
        self.events
    }

    /// The same events, in the same order, each holding owned buffers only.
    pub fn into_owned(self) -> (r: SgmlFragment<'static>)
        ensures
            r.events@.len() == self.events@.len(),
            forall|i: int| 0 <= i < r.events@.len() ==> same_event(#[trigger] r.events@[i], self.events@[i]),
            forall|i: int| 0 <= i < r.events@.len() ==> event_owned(#[trigger] r.events@[i]),
    {
        let mut src = self.events;
        let mut rev: Vec<SgmlEvent<'static>> = Vec::new();
        let ghost orig = src@;
        while src.len() > 0
            invariant
                src@.len() + rev@.len() == orig.len(),
                src@ == orig.take(src@.len() as int),
                forall|j: int| 0 <= j < rev@.len() ==> same_event(#[trigger] rev@[j], orig[orig.len() - 1 - j]),
                forall|j: int| 0 <= j < rev@.len() ==> event_owned(#[trigger] rev@[j]),
            decreases src@.len(),
        {
            let e = src.pop().unwrap();
            rev.push(e.into_owned());
            assert(src@ =~= orig.take(src@.len() as int));
        }
        let mut out: Vec<SgmlEvent<'static>> = Vec::new();
        let ghost revs = rev@;
        while rev.len() > 0
            invariant
                rev@.len() + out@.len() == orig.len(),
                revs.len() == orig.len(),
                rev@ == revs.take(rev@.len() as int),
                forall|j: int| 0 <= j < revs.len() ==> same_event(#[trigger] revs[j], orig[orig.len() - 1 - j]),
                forall|j: int| 0 <= j < out@.len() ==> same_event(#[trigger] out@[j], orig[j]),
                forall|j: int| 0 <= j < revs.len() ==> event_owned(#[trigger] revs[j]),
                forall|j: int| 0 <= j < out@.len() ==> event_owned(#[trigger] out@[j]),
            decreases rev@.len(),
        {
            let e = rev.pop().unwrap();
            proof {
                assert(e == revs[rev@.len() as int]);
            }
            out.push(e);
            assert(rev@ =~= revs.take(rev@.len() as int));
        }
        SgmlFragment { events: out }
    }
}

} // verus!
