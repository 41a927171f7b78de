//! The exception bridge: running host code under a foreign catch frame, and
//! raising a foreign throw. A throw is a value here: a body that throws ends
//! with `Outcome::Thrown`, and nothing unwinds.

use crate::handle::{Handle, Shared};
use crate::runtime::{Runtime, State, NULL};
use vstd::prelude::*;

verus! {

/// How a body under a catch frame ended.
#[derive(Debug)]
pub enum Outcome<R> {
    /// It completed with a value.
    Returned(R),
    /// It threw the object with this raw reference; null where it threw none.
    Thrown(usize),
}

/// A caught exception: a shared handle to the thrown object, or none where
/// null was thrown.
pub type Capture = Option<Handle<Shared>>;

/// The raw reference that a throw of `exception` carries.
pub open spec fn thrown_raw(exception: Option<&Handle<Shared>>) -> usize {
    match exception {
        Some(handle) => handle.raw(),
        None => NULL,
    }
}

/// Raises a foreign throw that carries the given object, or none. The handle
/// is borrowed: its count stays with it.
pub fn throw<R>(exception: Option<&Handle<Shared>>) -> (outcome: Outcome<R>)
    ensures
        outcome == Outcome::<R>::Thrown(thrown_raw(exception)),
{
    match exception {
        Some(handle) => Outcome::Thrown(handle.as_raw()),
        None => Outcome::Thrown(NULL),
    }
}

/// A thrown reference can be caught: it is null or refers to a live object
/// whose count can grow by one.
pub open spec fn catchable(state: State, thrown: Option<usize>) -> bool {
    thrown matches Some(raw) ==> raw == NULL || (state.live(raw) && state.count(raw) < usize::MAX)
}

/// What a catch frame makes of its report: `caught` and the state `after` for
/// a frame that reported `thrown` in the state `before`.
pub open spec fn captured(before: State, thrown: Option<usize>, after: State, caught: Result<(), Capture>) -> bool {
    match thrown {
        None => caught.is_ok() && after == before,
        Some(raw) => if raw == NULL {
            caught == Err::<(), Capture>(None) && after == before
        } else {
            &&& caught matches Err(Some(handle))
            &&& handle.raw() == raw
            &&& after == before.retained(raw)
        },
    }
}

/// Turns the report of a catch frame into a value: `Ok` where nothing was
/// thrown; `Err(None)` where null was thrown; else a capture of the thrown
/// object that owns one count, taken here.
pub fn try_no_ret(rt: &mut Runtime, thrown: Option<usize>) -> (caught: Result<(), Capture>)
    requires
        old(rt).wf(),
        catchable(old(rt)@, thrown),
    ensures
        final(rt).wf(),
        captured(old(rt)@, thrown, final(rt)@, caught),
{
    match thrown {
        None => Ok(()),
        Some(raw) => {
            if raw == NULL {
                Err(None)
            } else {
                Err(Some(Handle::wrap_retained(raw, rt)))
            }
        },
    }
}

/// What `catch` returns for a body that ended with `outcome`.
pub open spec fn settled<R>(before: State, outcome: Outcome<R>, after: State, result: Result<R, Capture>) -> bool {
    match outcome {
        Outcome::Returned(value) => result == Ok::<R, Capture>(value) && after == before,
        Outcome::Thrown(raw) => {
            &&& result.is_err()
            &&& captured(before, Some(raw), after, Err(result->Err_0))
        },
    }
}

/// Every throw that `closure` can end with can be caught in `state`.
pub open spec fn throws_catchable<R, F: FnOnce() -> Outcome<R>>(closure: F, state: State) -> bool {
    forall|outcome: Outcome<R>| #[trigger]
        closure.ensures((), outcome) ==> (outcome matches Outcome::Thrown(raw) ==> catchable(
            state,
            Some(raw),
        ))
}

/// Runs `closure` under a catch frame. Where it completes, its value comes
/// back as `Ok` and no count changes. Where it throws, the throw stops here
/// and comes back as `Err`, with a capture that owns one count of the thrown
/// object, or with none where null was thrown.
pub fn catch<R, F: FnOnce() -> Outcome<R>>(rt: &mut Runtime, closure: F) -> (result: Result<
    R,
    Capture,
>)
    requires
        old(rt).wf(),
        closure.requires(()),
        throws_catchable(closure, old(rt)@),
    ensures
        final(rt).wf(),
        exists|outcome: Outcome<R>| #[trigger]
            closure.ensures((), outcome) && settled(old(rt)@, outcome, final(rt)@, result),
{
    let outcome = closure();
    let ghost ended = outcome;
    let (value, thrown) = match outcome {
        Outcome::Returned(value) => (Some(value), None),
        Outcome::Thrown(raw) => (None, Some(raw)),
    };
    let result = match try_no_ret(rt, thrown) {
        Ok(()) => Ok(value.unwrap()),
        Err(capture) => Err(capture),
    };
    proof {
        assert(closure.ensures((), ended) && settled(old(rt)@, ended, rt@, result));
    }
    result
}

} // verus!
