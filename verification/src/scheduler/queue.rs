//! The merge queue: at most one waiting request, always the latest.
//! That there can never be two waiting entries is a property of the type.

use vstd::prelude::*;
use crate::types::CompileRequest;

verus! {

/// At most one waiting compile request.
#[derive(Debug, Default)]
pub struct Queue {
    pending: Option<CompileRequest>,
}

impl View for Queue {
    type V = Option<CompileRequest>;

    closed spec fn view(&self) -> Option<CompileRequest> {
        self.pending
    }
}

/// The queue after `push(req)`: the new request replaces any older one.
pub open spec fn pushed(q: Option<CompileRequest>, req: CompileRequest) -> Option<CompileRequest> {
    Some(req)
}

impl Queue {
    /// An empty queue.
    pub fn new() -> (q: Self)
        ensures
            q@ is None,
    {
        Queue { pending: None }
    }

    /// Merging push: the new request replaces the waiting one.
    pub fn push(&mut self, req: CompileRequest)
        ensures
            final(self)@ == pushed(old(self)@, req),
    {
        self.pending = Some(req);
    }

    /// Takes the waiting request, leaving the queue empty.
    pub fn take(&mut self) -> (r: Option<CompileRequest>)
        ensures
            r == old(self)@,
            final(self)@ is None,
    {
        let r = self.pending.take();
        r
    }

    /// Drops the waiting request (manual abort: stop and clear).
    pub fn clear(&mut self)
        ensures
            final(self)@ is None,
    {
        self.pending = None;
    }

    /// Is nothing waiting.
    pub fn is_empty(&self) -> (b: bool)
        ensures
            b == (self@ is None),
    {
        self.pending.is_none()
    }
}

/// Merge law: pushing twice leaves only the second request, whatever waited.
pub proof fn lemma_push_keeps_latest(q: Option<CompileRequest>, a: CompileRequest, b: CompileRequest)
    ensures
        pushed(pushed(q, a), b) == Some(b),
        pushed(q, b) == pushed(pushed(q, a), b),
{
}

} // verus!
