//! Autorelease pools: scoped frames that defer releases until the scope ends.

use crate::runtime::Runtime;
use vstd::prelude::*;

verus! {

/// An active pool frame. Entering makes it the target of every deferred
/// release; leaving drains it and consumes the value, so no frame is left twice.
#[derive(Debug)]
pub struct AutoreleasePool {
    depth: usize,
}

impl AutoreleasePool {
    /// An active frame is at least the first.
    #[verifier::type_invariant]
    closed spec fn entered(self) -> bool {
        self.depth > 0
    }

    /// How many frames are active, this one included, while it is the innermost.
    pub closed spec fn depth(&self) -> nat {
        self.depth as nat
    }

    /// This frame is the innermost of `rt`, so that it may be left.
    pub open spec fn innermost_of(&self, rt: &Runtime) -> bool {
        rt@.depth() == self.depth()
    }

    /// Enters a frame inside whatever frames are active.
    pub fn enter(rt: &mut Runtime) -> (pool: AutoreleasePool)
        requires
            old(rt).wf(),
        ensures
            final(rt).wf(),
            final(rt)@ == old(rt)@.entered(),
            pool.innermost_of(final(rt)),
            pool.depth() == old(rt)@.depth() + 1,
    {
        rt.push_frame();
        AutoreleasePool { depth: rt.depth() }
    }

    /// Whether this frame is the innermost, the only one that may be left.
    pub fn is_innermost(&self, rt: &Runtime) -> (b: bool)
        ensures
            b == self.innermost_of(rt),
    {
        rt.depth() == self.depth
    }

    /// Leaves the frame: every release registered with it is carried out, the
    /// last registered first, and what outer frames hold is not touched.
    /// Frames are left innermost first.
    pub fn exit(self, rt: &mut Runtime)
        requires
            old(rt).wf(),
            self.innermost_of(old(rt)),
        ensures
            final(rt).wf(),
            final(rt)@ == old(rt)@.exited(),
            final(rt)@.depth() == self.depth() - 1,
            forall|raw: usize|
                final(rt)@.count(raw) == old(rt)@.count(raw) - crate::runtime::occurrences(
                    old(rt)@.innermost(),
                    raw,
                ),
    {
        proof {
            use_type_invariant(&self);
        }
        rt.pop_frame();
    }
}

} // verus!
