//! One-writer-at-a-time gate for a document, and the pass that proves you hold
//! it.
//!
//! A write is dispatched off the main loop and completes later, so a second
//! Save can start before the first has landed, and two writes to one path can
//! land in either order. A [`WriteGate`] refuses the second claim; a refusal is a drop,
//! not a queue. A pass names the document whose gate issued it, and only that
//! gate takes it back.

use vstd::prelude::*;

use crate::ids::TabId;

verus! {

/// Tracks whether a write of one document is outstanding.
pub struct WriteGate {
    document: TabId,
    busy: bool,
}

/// Proof that the holder owns the right to write one document. Obtained only
/// from [`WriteGate::claim`] and handed back to the same gate's
/// [`WriteGate::release`] when the write is over, on every exit from it.
pub struct WritePass {
    document: TabId,
}

impl WritePass {
    /// The document whose gate issued this pass.
    pub closed spec fn spec_document(&self) -> TabId {
        self.document
    }

    /// The document whose gate issued this pass.
    pub fn document(&self) -> (d: TabId)
        ensures
            d == self.spec_document(),
    {
        self.document
    }
}

impl WriteGate {
    /// Whether a write is outstanding.
    pub closed spec fn spec_busy(&self) -> bool {
        self.busy
    }

    /// The document this gate guards.
    pub closed spec fn spec_document(&self) -> TabId {
        self.document
    }

    /// A fresh one for `document`, with no write outstanding.
    pub fn new(document: TabId) -> (g: WriteGate)
        ensures
            !g.spec_busy(),
            g.spec_document() == document,
    {
        WriteGate { document, busy: false }
    }

    /// The document this gate guards.
    pub fn document(&self) -> (d: TabId)
        ensures
            d == self.spec_document(),
    {
        self.document
    }

    /// Claim the right to write this document, or `None` if a write is already
    /// outstanding. Either way a write is outstanding afterwards; a pass handed
    /// out names this gate's document.
    pub fn claim(&mut self) -> (r: Option<WritePass>)
        ensures
            r is Some <==> !old(self).spec_busy(),
            final(self).spec_busy(),
            final(self).spec_document() == old(self).spec_document(),
            r matches Some(p) ==> p.spec_document() == old(self).spec_document(),
    {
        if self.busy {
            None
        } else {
            self.busy = true;
            Some(WritePass { document: self.document })
        }
    }

    /// End the write that `pass` was issued for: the pass must come from this
    /// gate, and no write is outstanding afterwards.
    pub fn release(&mut self, pass: WritePass)
        requires
            pass.spec_document() == old(self).spec_document(),
        ensures
            !final(self).spec_busy(),
            final(self).spec_document() == old(self).spec_document(),
    {
        let _ = pass.document;
        self.busy = false;
    }

    /// Whether a write is currently outstanding, without trying to take it.
    /// Never a reason to write: that is what [`claim`](Self::claim) answers.
    pub fn is_busy(&self) -> (r: bool)
        ensures
            r == self.spec_busy(),
    {
        self.busy
    }
}

} // verus!
