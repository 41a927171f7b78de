//! Handles: non-null references to foreign objects, tagged at compile time as
//! exclusive or shared, each standing for one count of its object.

use crate::description::{debug_text, fallback};
use crate::runtime::{Runtime, NULL};
use std::marker::PhantomData;
use vstd::prelude::*;

verus! {

/// The tag of a handle that is the only host-side reference to its object.
/// Such a handle cannot be cloned; it is downgraded first.
#[derive(Debug)]
pub struct Exclusive;

/// The tag of a handle that may alias its object with other handles.
#[derive(Debug)]
pub struct Shared;

/// A reference to a foreign object that owns one count of it. The tag `O` has
/// no run-time representation. A handle is not copied: giving up its count
/// consumes it.
#[derive(Debug)]
pub struct Handle<O> {
    raw: usize,
    ownership: PhantomData<O>,
}

impl<O> Handle<O> {
    /// A handle is never null.
    #[verifier::type_invariant]
    closed spec fn non_null(self) -> bool {
        self.raw != NULL
    }

    /// The raw reference that the handle wraps.
    pub closed spec fn raw(&self) -> usize {
        self.raw
    }

    /// The raw reference that the handle wraps; the count stays with the handle.
    pub fn as_raw(&self) -> (raw: usize)
        ensures
            raw == self.raw(),
            raw != NULL,
    {
        proof {
            use_type_invariant(self);
        }
        self.raw
    }

    /// Ends the handle: gives its one count back to the runtime, which
    /// deallocates the object where that was the last.
    pub fn release(self, rt: &mut Runtime)
        requires
            old(rt).wf(),
            old(rt)@.owned(self.raw()),
        ensures
            final(rt).wf(),
            final(rt)@ == old(rt)@.released(self.raw()),
            final(rt)@.count(self.raw()) == old(rt)@.count(self.raw()) - 1,
            final(rt)@.deallocated() == old(rt)@.deallocated() + if old(rt)@.count(self.raw())
                == 1 {
                1nat
            } else {
                0nat
            },
            forall|other: usize|
                other != self.raw() ==> final(rt)@.count(other) == old(rt)@.count(other),
    {
        rt.release(self.raw);
    }

    /// Ends the handle by handing its count to the innermost pool frame, and
    /// returns the raw reference, which stays usable until that frame is left.
    pub fn autorelease(self, rt: &mut Runtime) -> (raw: usize)
        requires
            old(rt).wf(),
            old(rt)@.owned(self.raw()),
        ensures
            final(rt).wf(),
            raw == self.raw(),
            final(rt)@ == old(rt)@.autoreleased(raw),
            final(rt)@.promised(raw) == old(rt)@.promised(raw) + 1,
            forall|other: usize| final(rt)@.count(other) == old(rt)@.count(other),
    {
        rt.autorelease(self.raw)
    }

    /// Reads the object's value, which any handle may do.
    pub fn value(&self, rt: &Runtime) -> (value: Option<usize>)
        ensures
            value == rt@.value(self.raw()),
    {
        rt.value(self.raw)
    }

    /// The debug text of the object, of class `class`, whose description
    /// message answered `description`.
    pub fn describe(&self, description: Option<String>, class: &str) -> (text: String)
        ensures
            text@ == match description {
                Some(answer) => answer@,
                None => fallback(class@, self.raw()),
            },
    {
        debug_text(description, class, self.raw)
    }

    /// Equality as the foreign object defines it, never by address alone.
    pub fn is_equal<P>(&self, other: &Handle<P>, rt: &Runtime) -> (same: bool)
        ensures
            same == rt@.equal(self.raw(), other.raw()),
    {
        rt.is_equal(self.raw, other.raw)
    }

    /// The hash that the foreign object answers.
    pub fn hash_code(&self, rt: &Runtime) -> (code: usize)
        ensures
            code == rt@.hash(self.raw()),
    {
        rt.hash_code(self.raw)
    }
}

impl Handle<Exclusive> {
    /// Takes over a raw reference that carries one count nobody has accounted
    /// for yet. Takes no further count.
    pub fn wrap_owned(raw: usize) -> (handle: Handle<Exclusive>)
        requires
            raw != NULL,
        ensures
            handle.raw() == raw,
    {
        Handle { raw, ownership: PhantomData }
    }

    /// Changes the object's value, which only the exclusive handle may do.
    pub fn set_value(&mut self, rt: &mut Runtime, value: Option<usize>)
        requires
            old(rt).wf(),
            old(rt)@.known(old(self).raw()),
        ensures
            final(rt).wf(),
            final(self).raw() == old(self).raw(),
            final(rt)@ == old(rt)@.with_value(old(self).raw(), value),
            final(rt)@.value(old(self).raw()) == value,
            forall|other: usize| final(rt)@.count(other) == old(rt)@.count(other),
    {
        rt.set_value(self.raw, value);
    }

    /// Gives up exclusivity. The count goes over to the shared handle; the
    /// runtime is not involved.
    pub fn downgrade(self) -> (shared: Handle<Shared>)
        ensures
            shared.raw() == self.raw(),
    {
        proof {
            use_type_invariant(&self);
        }
        Handle { raw: self.raw, ownership: PhantomData }
    }
}

impl Handle<Shared> {
    /// Takes over a raw reference whose count the caller already owns. Takes
    /// no further count.
    pub fn wrap_shared(raw: usize) -> (handle: Handle<Shared>)
        requires
            raw != NULL,
        ensures
            handle.raw() == raw,
    {
        Handle { raw, ownership: PhantomData }
    }

    /// Wraps a raw reference that the caller merely borrows: takes a count of
    /// its own for the handle.
    pub fn wrap_retained(raw: usize, rt: &mut Runtime) -> (handle: Handle<Shared>)
        requires
            old(rt).wf(),
            old(rt)@.live(raw),
            old(rt)@.count(raw) < usize::MAX,
        ensures
            final(rt).wf(),
            handle.raw() == raw,
            final(rt)@ == old(rt)@.retained(raw),
            final(rt)@.count(raw) == old(rt)@.count(raw) + 1,
            final(rt)@.deallocated() == old(rt)@.deallocated(),
            forall|other: usize| other != raw ==> final(rt)@.count(other) == old(rt)@.count(other),
    {
        let raw = rt.retain(raw);
        Handle { raw, ownership: PhantomData }
    }

    /// A second handle to the same object, with a count of its own.
    pub fn clone(&self, rt: &mut Runtime) -> (copy: Handle<Shared>)
        requires
            old(rt).wf(),
            old(rt)@.live(self.raw()),
            old(rt)@.count(self.raw()) < usize::MAX,
        ensures
            final(rt).wf(),
            copy.raw() == self.raw(),
            final(rt)@ == old(rt)@.retained(self.raw()),
            final(rt)@.count(self.raw()) == old(rt)@.count(self.raw()) + 1,
            final(rt)@.deallocated() == old(rt)@.deallocated(),
            forall|other: usize|
                other != self.raw() ==> final(rt)@.count(other) == old(rt)@.count(other),
    {
        Handle::wrap_retained(self.raw, rt)
    }
}

} // verus!
