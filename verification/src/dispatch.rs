//! What a message send hands back: a raw reference, nullable, under the
//! calling convention that the message's metadata states.

use crate::handle::{Handle, Shared};
use crate::runtime::{Runtime, State, NULL};
use vstd::prelude::*;

verus! {

/// Who owns the count of a returned reference.
#[derive(Clone, Copy, Debug, PartialEq, Eq, Structural)]
pub enum Convention {
    /// The message hands its caller a count: the handle takes it over.
    CallerOwns,
    /// The message keeps its counts: a caller who keeps the reference takes
    /// one of its own.
    CallerRetains,
}

/// The state after a reference returned under `convention` became a handle.
pub open spec fn adopted(state: State, raw: usize, convention: Convention) -> State {
    if raw != NULL && convention == Convention::CallerRetains {
        state.retained(raw)
    } else {
        state
    }
}

/// Turns a returned reference into a handle: none for null; else a handle
/// that owns one count, taken here where the convention leaves that to the
/// caller.
pub fn adopt(rt: &mut Runtime, raw: usize, convention: Convention) -> (handle: Option<
    Handle<Shared>,
>)
    requires
        old(rt).wf(),
        raw != NULL && convention == Convention::CallerRetains ==> old(rt)@.live(raw) && old(
            rt,
        )@.count(raw) < usize::MAX,
    ensures
        final(rt).wf(),
        final(rt)@ == adopted(old(rt)@, raw, convention),
        raw == NULL <==> handle.is_none(),
        handle matches Some(h) ==> h.raw() == raw,
{
    if raw == NULL {
        None
    } else {
        match convention {
            Convention::CallerOwns => Some(Handle::wrap_shared(raw)),
            Convention::CallerRetains => Some(Handle::wrap_retained(raw, rt)),
        }
    }
}

} // verus!
