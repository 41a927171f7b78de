//! The reference-count driver: the three counting primitives and the pool
//! frames, stated over a model of the foreign runtime's bookkeeping.

use vstd::prelude::*;

verus! {

/// The raw reference that stands for "no object".
pub const NULL: usize = 0;

/// What the runtime keeps for one foreign object.
#[derive(Clone, Copy, Debug)]
pub struct Object {
    /// The reference count; zero once the object is deallocated.
    pub count: usize,
    /// The value that the foreign equality message compares, or `None` for an
    /// object that is equal to itself alone.
    pub value: Option<usize>,
}

/// How often `raw` is registered in `batch`.
pub open spec fn occurrences(batch: Seq<usize>, raw: usize) -> nat
    decreases batch.len(),
{
    if batch.len() == 0 {
        0
    } else {
        occurrences(batch.drop_last(), raw) + if batch.last() == raw {
            1nat
        } else {
            0nat
        }
    }
}

/// How many of the objects are deallocated.
pub open spec fn dead(objects: Seq<Object>) -> nat
    decreases objects.len(),
{
    if objects.len() == 0 {
        0
    } else {
        dead(objects.drop_last()) + if objects.last().count == 0 {
            1nat
        } else {
            0nat
        }
    }
}

/// The mathematical state of a runtime.
pub struct State {
    /// The objects ever created; the object with raw reference `r` is `objects[r - 1]`.
    pub objects: Seq<Object>,
    /// The registered deferred releases of all frames, oldest first.
    pub pending: Seq<usize>,
    /// For each active frame, outermost first, the length of `pending` when it was entered.
    pub marks: Seq<usize>,
    /// The deallocated objects, in the order of their deallocation.
    pub log: Seq<usize>,
}

impl State {
    /// `raw` refers to an object that was created here.
    pub open spec fn known(self, raw: usize) -> bool {
        1 <= raw <= self.objects.len()
    }

    /// The reference count of `raw`; zero for what is not known.
    pub open spec fn count(self, raw: usize) -> nat {
        if self.known(raw) {
            self.objects[raw - 1].count as nat
        } else {
            0
        }
    }

    /// `raw` refers to an object that is not deallocated.
    pub open spec fn live(self, raw: usize) -> bool {
        self.count(raw) > 0
    }

    /// The number of deallocations so far.
    pub open spec fn deallocated(self) -> nat {
        dead(self.objects)
    }

    /// The deferred releases that are registered for `raw`, over all frames.
    pub open spec fn promised(self, raw: usize) -> nat {
        occurrences(self.pending, raw)
    }

    /// At least one count of `raw` is not promised to a pool, so that a holder
    /// may release it or hand it to a pool.
    pub open spec fn owned(self, raw: usize) -> bool {
        self.promised(raw) < self.count(raw)
    }

    /// What the foreign equality message answers for `a` and `b`: an object
    /// equals itself, and two objects that carry a value are equal where the
    /// values are.
    pub open spec fn equal(self, a: usize, b: usize) -> bool {
        &&& self.known(a)
        &&& self.known(b)
        &&& (a == b || (self.objects[a - 1].value.is_some() && self.objects[a - 1].value
            == self.objects[b - 1].value))
    }

    /// What the foreign hash message answers for `raw`: the value where the
    /// object carries one, else the reference itself.
    pub open spec fn hash(self, raw: usize) -> usize {
        if self.known(raw) {
            match self.objects[raw - 1].value {
                Some(value) => value,
                None => raw,
            }
        } else {
            0
        }
    }

    /// The number of active pool frames.
    pub open spec fn depth(self) -> nat {
        self.marks.len()
    }

    /// The deferred releases of the innermost frame, in the order of their
    /// registration; those registered outside any frame where none is active.
    pub open spec fn innermost(self) -> Seq<usize> {
        if self.marks.len() == 0 {
            self.pending
        } else {
            self.pending.subrange(self.marks.last() as int, self.pending.len() as int)
        }
    }

    /// Every deferred release is backed by a count, the frames nest, and each
    /// deallocation is logged once.
    pub open spec fn wf(self) -> bool {
        &&& self.objects.len() <= usize::MAX
        &&& self.pending.len() <= usize::MAX
        &&& self.log.len() == dead(self.objects)
        &&& forall|i: int| 0 <= i < self.pending.len() ==> self.known(#[trigger] self.pending[i])
        &&& forall|raw: usize|
            self.known(raw) ==> (#[trigger] occurrences(self.pending, raw)) <= self.count(raw)
        &&& forall|j: int| 0 <= j < self.marks.len() ==> (#[trigger] self.marks[j]) <= self.pending.len()
        &&& forall|j: int, k: int|
            0 <= j <= k < self.marks.len() ==> (#[trigger] self.marks[j]) <= (#[trigger] self.marks[k])
    }

    /// The state with one more object, of count one.
    pub open spec fn created(self, value: Option<usize>) -> State {
        State { objects: self.objects.push(Object { count: 1, value }), ..self }
    }

    /// The state with the count of `raw` set to `count`.
    pub open spec fn with_count(self, raw: usize, count: usize) -> State {
        State {
            objects: self.objects.update(
                raw - 1,
                Object { count, value: self.objects[raw - 1].value },
            ),
            ..self
        }
    }

    /// The state with the value of `raw` set to `value`.
    pub open spec fn with_value(self, raw: usize, value: Option<usize>) -> State {
        State {
            objects: self.objects.update(
                raw - 1,
                Object { count: self.objects[raw - 1].count, value },
            ),
            ..self
        }
    }

    /// The value that the foreign equality compares for `raw`, if it has one.
    pub open spec fn value(self, raw: usize) -> Option<usize> {
        if self.known(raw) {
            self.objects[raw - 1].value
        } else {
            None
        }
    }

    /// The state after one increment of `raw`.
    pub open spec fn retained(self, raw: usize) -> State {
        self.with_count(raw, (self.objects[raw - 1].count + 1) as usize)
    }

    /// The state after one decrement of `raw`, which deallocates the object
    /// where that was its last count.
    pub open spec fn released(self, raw: usize) -> State {
        State {
            log: if self.objects[raw - 1].count == 1 {
                self.log.push(raw)
            } else {
                self.log
            },
            ..self.with_count(raw, (self.objects[raw - 1].count - 1) as usize)
        }
    }

    /// The state after the release that was registered last was carried out.
    pub open spec fn drained_one(self) -> State {
        State { pending: self.pending.drop_last(), ..self.released(self.pending.last()) }
    }

    /// The state after the `n` releases that were registered last were
    /// carried out, the last registered first.
    pub open spec fn drained(self, n: nat) -> State
        decreases n,
    {
        if n == 0 {
            self
        } else {
            self.drained_one().drained((n - 1) as nat)
        }
    }

    /// The state after `raw` was registered for a deferred release.
    pub open spec fn autoreleased(self, raw: usize) -> State {
        State { pending: self.pending.push(raw), ..self }
    }

    /// The state after a frame was entered.
    pub open spec fn entered(self) -> State {
        State { marks: self.marks.push(self.pending.len() as usize), ..self }
    }

    /// The state after the innermost frame was drained and left: each object
    /// loses one count for each time that frame had it registered, and what
    /// outer frames hold stays registered. The releases are carried out the
    /// last registered first, which is the order of the deallocations.
    pub open spec fn exited(self) -> State {
        State {
            objects: Seq::new(
                self.objects.len(),
                |i: int|
                    Object {
                        count: (self.objects[i].count - occurrences(
                            self.innermost(),
                            (i + 1) as usize,
                        )) as usize,
                        value: self.objects[i].value,
                    },
            ),
            pending: self.pending.subrange(0, self.marks.last() as int),
            marks: self.marks.drop_last(),
            log: self.drained(self.innermost().len()).log,
        }
    }
}

/// A foreign runtime's bookkeeping: the count of every object, and the stack
/// of pool frames with the releases deferred to them.
#[derive(Debug)]
pub struct Runtime {
    objects: Vec<Object>,
    pending: Vec<usize>,
    marks: Vec<usize>,
    log: Vec<usize>,
}

impl View for Runtime {
    type V = State;

    closed spec fn view(&self) -> State {
        State {
            objects: self.objects@,
            pending: self.pending@,
            marks: self.marks@,
            log: self.log@,
        }
    }
}

impl Runtime {
    /// The invariant of a runtime: that of its state.
    pub open spec fn wf(&self) -> bool {
        self@.wf()
    }

    /// A runtime without objects and without an active frame.
    pub fn new() -> (rt: Runtime)
        ensures
            rt.wf(),
            rt@.objects.len() == 0,
            rt@.pending.len() == 0,
            rt@.marks.len() == 0,
            rt@.log.len() == 0,
    {
        Runtime { objects: Vec::new(), pending: Vec::new(), marks: Vec::new(), log: Vec::new() }
    }

    /// Creates an object of count one and returns its raw reference, which is
    /// never null. The one count belongs to the caller.
    pub fn create(&mut self, value: Option<usize>) -> (raw: usize)
        requires
            old(self).wf(),
        ensures
            final(self).wf(),
            final(self)@ == old(self)@.created(value),
            raw == old(self)@.objects.len() + 1,
            raw != NULL,
            final(self)@.count(raw) == 1,
            final(self)@.owned(raw),
            final(self)@.deallocated() == old(self)@.deallocated(),
            forall|other: usize| other != raw ==> final(self)@.count(other) == old(self)@.count(other),
    {
        self.objects.push(Object { count: 1, value });
        proof {
            assert(self.objects@.len() == self.objects.len());
            old(self)@.lemma_created(value);
        }
        self.objects.len()
    }

    /// The reference count of `raw`; zero for null, for a deallocated object
    /// and for what was never created.
    pub fn count(&self, raw: usize) -> (n: usize)
        ensures
            n == self@.count(raw),
    {
        if 1 <= raw && raw <= self.objects.len() {
            self.objects[raw - 1].count
        } else {
            0
        }
    }

    /// Whether `raw` refers to an object that is not deallocated.
    pub fn is_live(&self, raw: usize) -> (b: bool)
        ensures
            b == self@.live(raw),
    {
        self.count(raw) > 0
    }

    /// The answer of the foreign equality message, sent to `a` with `b`.
    pub fn is_equal(&self, a: usize, b: usize) -> (same: bool)
        ensures
            same == self@.equal(a, b),
    {
        if a < 1 || a > self.objects.len() || b < 1 || b > self.objects.len() {
            return false;
        }
        if a == b {
            return true;
        }
        match (self.objects[a - 1].value, self.objects[b - 1].value) {
            (Some(left), Some(right)) => left == right,
            _ => false,
        }
    }

    /// The answer of the foreign hash message, sent to `raw`.
    pub fn hash_code(&self, raw: usize) -> (code: usize)
        ensures
            code == self@.hash(raw),
    {
        if 1 <= raw && raw <= self.objects.len() {
            match self.objects[raw - 1].value {
                Some(value) => value,
                None => raw,
            }
        } else {
            0
        }
    }

    /// The deallocated objects, in the order of their deallocation.
    pub fn deallocation_log(&self) -> (log: &Vec<usize>)
        ensures
            log@ == self@.log,
    {
        &self.log
    }

    /// The number of deallocations so far.
    pub fn deallocations(&self) -> (n: usize)
        ensures
            n == self@.log.len(),
            self.wf() ==> n == self@.deallocated(),
    {
        self.log.len()
    }

    /// The value that the foreign equality compares for `raw`, if it has one.
    pub fn value(&self, raw: usize) -> (value: Option<usize>)
        ensures
            value == self@.value(raw),
    {
        if 1 <= raw && raw <= self.objects.len() {
            self.objects[raw - 1].value
        } else {
            None
        }
    }

    /// Sets the value of `raw`. Counts and pools are not touched.
    pub fn set_value(&mut self, raw: usize, value: Option<usize>)
        requires
            old(self).wf(),
            old(self)@.known(raw),
        ensures
            final(self).wf(),
            final(self)@ == old(self)@.with_value(raw, value),
            final(self)@.value(raw) == value,
            forall|other: usize| final(self)@.count(other) == old(self)@.count(other),
    {
        let object = self.objects[raw - 1];
        self.objects.set(raw - 1, Object { count: object.count, value });
        proof {
            old(self)@.lemma_with_value(raw, value);
        }
    }

    /// The number of active pool frames.
    pub fn depth(&self) -> (n: usize)
        ensures
            n == self@.depth(),
    {
        self.marks.len()
    }

    /// Increments the count of `raw` and returns the same reference.
    pub fn retain(&mut self, raw: usize) -> (same: usize)
        requires
            old(self).wf(),
            old(self)@.live(raw),
            old(self)@.count(raw) < usize::MAX,
        ensures
            final(self).wf(),
            same == raw,
            final(self)@ == old(self)@.retained(raw),
            final(self)@.count(raw) == old(self)@.count(raw) + 1,
            final(self)@.deallocated() == old(self)@.deallocated(),
            forall|other: usize| other != raw ==> final(self)@.count(other) == old(self)@.count(other),
    {
        let object = self.objects[raw - 1];
        self.objects.set(raw - 1, Object { count: object.count + 1, value: object.value });
        proof {
            old(self)@.lemma_retained(raw);
        }
        raw
    }

    /// Decrements the count of `raw`, which deallocates the object where the
    /// count reaches zero. The count given up must not be one that a pool
    /// frame still holds.
    pub fn release(&mut self, raw: usize)
        requires
            old(self).wf(),
            old(self)@.owned(raw),
        ensures
            final(self).wf(),
            final(self)@ == old(self)@.released(raw),
            final(self)@.count(raw) == old(self)@.count(raw) - 1,
            final(self)@.deallocated() == old(self)@.deallocated() + if old(self)@.count(raw) == 1 {
                1nat
            } else {
                0nat
            },
            forall|other: usize| other != raw ==> final(self)@.count(other) == old(self)@.count(other),
    {
        let object = self.objects[raw - 1];
        self.objects.set(raw - 1, Object { count: object.count - 1, value: object.value });
        if object.count == 1 {
            self.log.push(raw);
        }
        proof {
            old(self)@.lemma_released(raw);
        }
    }

    /// Registers `raw` with the innermost active frame for a deferred release
    /// and returns the same reference. The caller hands one count to the pool.
    /// Where no frame is active the release never comes.
    pub fn autorelease(&mut self, raw: usize) -> (same: usize)
        requires
            old(self).wf(),
            old(self)@.owned(raw),
        ensures
            final(self).wf(),
            same == raw,
            final(self)@ == old(self)@.autoreleased(raw),
            final(self)@.promised(raw) == old(self)@.promised(raw) + 1,
            forall|other: usize| final(self)@.count(other) == old(self)@.count(other),
    {
        self.pending.push(raw);
        proof {
            assert(self.pending@.len() == self.pending.len());
            old(self)@.lemma_autoreleased(raw);
        }
        raw
    }

    /// Enters a pool frame, which becomes the target of the deferred releases
    /// registered from now on.
    pub fn push_frame(&mut self)
        requires
            old(self).wf(),
        ensures
            final(self).wf(),
            final(self)@ == old(self)@.entered(),
            final(self)@.innermost().len() == 0,
    {
        self.marks.push(self.pending.len());
        proof {
            old(self)@.lemma_entered();
        }
    }

    /// Drains and leaves the innermost frame: releases what it has registered,
    /// the last registered first, and nothing of an outer frame.
    pub fn pop_frame(&mut self)
        requires
            old(self).wf(),
            old(self)@.depth() > 0,
        ensures
            final(self).wf(),
            final(self)@ == old(self)@.exited(),
            forall|raw: usize|
                final(self)@.count(raw) == old(self)@.count(raw) - occurrences(
                    old(self)@.innermost(),
                    raw,
                ),
    {
        let mark = self.marks[self.marks.len() - 1];
        let ghost batch = self@.innermost();
        while self.pending.len() > mark
            invariant
                self@.wf(),
                self@.marks == old(self)@.marks,
                self@.marks.len() > 0,
                mark == self@.marks.last(),
                self@.objects.len() == old(self)@.objects.len(),
                mark <= self@.pending.len() <= old(self)@.pending.len(),
                self@.pending == old(self)@.pending.subrange(0, self@.pending.len() as int),
                batch == old(self)@.innermost(),
                self@.drained(self@.innermost().len()).log == old(self)@.drained(batch.len()).log,
                forall|i: int|
                    0 <= i < self@.objects.len() ==> {
                        &&& (#[trigger] self@.objects[i]).value == old(self)@.objects[i].value
                        &&& self@.objects[i].count - occurrences(self@.innermost(), (i + 1) as usize)
                            == old(self)@.objects[i].count - occurrences(batch, (i + 1) as usize)
                    },
            decreases self.pending.len(),
        {
            let ghost before = self@;
            let raw = self.pending.pop().unwrap();
            proof {
                before.lemma_last_promised();
            }
            let object = self.objects[raw - 1];
            self.objects.set(raw - 1, Object { count: object.count - 1, value: object.value });
            if object.count == 1 {
                self.log.push(raw);
            }
            proof {
                assert(self@ == before.drained_one());
                assert(self@.innermost() == before.innermost().drop_last());
            }
        }
        self.marks.pop();
        proof {
            assert(self@.objects =~= old(self)@.exited().objects);
            assert(self@.pending =~= old(self)@.exited().pending);
            old(self)@.lemma_exited();
        }
    }
}

impl State {
    /// Creating an object keeps the invariant and counts one for it.
    pub proof fn lemma_created(self, value: Option<usize>)
        requires
            self.wf(),
            self.objects.len() < usize::MAX,
        ensures
            self.created(value).wf(),
            self.created(value).count((self.objects.len() + 1) as usize) == 1,
            self.created(value).promised((self.objects.len() + 1) as usize) == 0,
            self.created(value).deallocated() == self.deallocated(),
    {
        assert(self.created(value).objects.drop_last() =~= self.objects);
        lemma_absent(self.pending, self.objects.len(), (self.objects.len() + 1) as usize);
    }

    /// An increment keeps the invariant.
    pub proof fn lemma_retained(self, raw: usize)
        requires
            self.wf(),
            self.live(raw),
            self.count(raw) < usize::MAX,
        ensures
            self.retained(raw).wf(),
            self.retained(raw).deallocated() == self.deallocated(),
    {
        lemma_dead_update(self.objects, raw - 1, self.retained(raw).objects[raw - 1]);
    }

    /// The decrement of a count that no pool holds keeps the invariant.
    pub proof fn lemma_released(self, raw: usize)
        requires
            self.wf(),
            self.owned(raw),
        ensures
            self.released(raw).wf(),
            self.released(raw).deallocated() == self.deallocated() + if self.count(raw) == 1 {
                1nat
            } else {
                0nat
            },
    {
        lemma_dead_update(self.objects, raw - 1, self.released(raw).objects[raw - 1]);
    }

    /// Handing a count to the pool keeps the invariant.
    pub proof fn lemma_autoreleased(self, raw: usize)
        requires
            self.wf(),
            self.owned(raw),
            self.pending.len() < usize::MAX,
        ensures
            self.autoreleased(raw).wf(),
            self.autoreleased(raw).promised(raw) == self.promised(raw) + 1,
    {
        let after = self.autoreleased(raw);
        assert(after.pending.drop_last() =~= self.pending);
        assert forall|r: usize| after.known(r) implies (#[trigger] occurrences(after.pending, r))
            <= after.count(r) by {
            assert(occurrences(self.pending, r) <= self.count(r));
        }
    }

    /// Entering a frame keeps the invariant, and the new frame holds nothing.
    pub proof fn lemma_entered(self)
        requires
            self.wf(),
        ensures
            self.entered().wf(),
            self.entered().innermost().len() == 0,
    {
    }

    /// Leaving a frame comes to carrying out its releases one by one, the last
    /// registered first, each on a count that is there to be released; then
    /// the frame is gone.
    pub proof fn lemma_exit_drains_in_reverse(self)
        requires
            self.wf(),
            self.depth() > 0,
        ensures
            self.drained(self.innermost().len()).wf(),
            self.exited() == (State {
                marks: self.marks.drop_last(),
                ..self.drained(self.innermost().len())
            }),
        decreases self.innermost().len(),
    {
        let batch = self.innermost();
        assert(self.marks[self.marks.len() - 1] <= self.pending.len());
        if batch.len() == 0 {
            assert forall|raw: usize| occurrences(batch, raw) == 0 by {}
            assert(self.exited().objects =~= self.objects);
            assert(self.exited().pending =~= self.pending);
        } else {
            let next = self.drained_one();
            self.lemma_last_promised();
            assert(next.innermost() =~= batch.drop_last());
            next.lemma_exit_drains_in_reverse();
            let end = next.drained(next.innermost().len());
            assert(end == self.drained(batch.len()));
            assert(next.exited().pending =~= self.exited().pending);
            assert(next.exited().objects =~= self.exited().objects);
        }
    }

    /// Leaving the innermost frame keeps the invariant, and takes from each
    /// object the counts that the frame held and no others.
    pub proof fn lemma_exited(self)
        requires
            self.wf(),
            self.depth() > 0,
        ensures
            self.exited().wf(),
            forall|raw: usize|
                self.exited().count(raw) == self.count(raw) - occurrences(self.innermost(), raw),
            forall|raw: usize|
                self.exited().promised(raw) == self.promised(raw) - occurrences(
                    self.innermost(),
                    raw,
                ),
    {
        let mark = self.marks.last() as int;
        let after = self.exited();
        assert(self.marks[self.marks.len() - 1] <= self.pending.len());
        self.lemma_exit_drains_in_reverse();
        assert forall|raw: usize|
            after.count(raw) == self.count(raw) - occurrences(self.innermost(), raw)
            && after.promised(raw) == self.promised(raw) - occurrences(self.innermost(), raw)
            && (after.known(raw) ==> occurrences(after.pending, raw) <= after.count(raw)) by {
            lemma_occurrences_split(self.pending, mark, raw);
            if self.known(raw) {
                assert(occurrences(self.pending, raw) <= self.count(raw));
            } else {
                lemma_unknown_absent(self, raw);
            }
        }
        assert forall|i: int| 0 <= i < after.pending.len() implies after.known(
            #[trigger] after.pending[i],
        ) by {
            assert(self.known(self.pending[i]));
        }
        assert forall|j: int| 0 <= j < after.marks.len() implies (#[trigger] after.marks[j])
            <= after.pending.len() by {
            assert(self.marks[j] <= self.marks[self.marks.len() - 1]);
        }
        assert forall|j: int, k: int| 0 <= j <= k < after.marks.len() implies (
        #[trigger] after.marks[j]) <= (#[trigger] after.marks[k]) by {
            assert(self.marks[j] <= self.marks[k]);
        }
    }

    /// Setting a value keeps the invariant and every count.
    pub proof fn lemma_with_value(self, raw: usize, value: Option<usize>)
        requires
            self.wf(),
            self.known(raw),
        ensures
            self.with_value(raw, value).wf(),
            self.with_value(raw, value).value(raw) == value,
            self.with_value(raw, value).deallocated() == self.deallocated(),
            forall|other: usize| self.with_value(raw, value).count(other) == self.count(other),
    {
        lemma_dead_update(self.objects, raw - 1, self.with_value(raw, value).objects[raw - 1]);
    }

    /// Carrying out the last registered release of a frame keeps the invariant.
    pub proof fn lemma_last_promised(self)
        requires
            self.wf(),
            self.marks.len() > 0,
            self.pending.len() > self.marks.last(),
        ensures
            self.known(self.pending.last()),
            self.count(self.pending.last()) > 0,
            self.drained_one().wf(),
    {
        let raw = self.pending.last();
        let after = self.drained_one();
        assert(self.known(self.pending[self.pending.len() - 1]));
        assert(occurrences(self.pending, raw) <= self.count(raw));
        lemma_dead_update(self.objects, raw - 1, after.objects[raw - 1]);
        assert forall|r: usize| after.known(r) implies (#[trigger] occurrences(after.pending, r))
            <= after.count(r) by {
            assert(occurrences(self.pending, r) <= self.count(r));
        }
        assert forall|i: int| 0 <= i < after.pending.len() implies after.known(
            #[trigger] after.pending[i],
        ) by {
            assert(self.known(self.pending[i]));
        }
    }
}

/// Replacing one object changes the number of deallocated objects by what
/// that object contributes.
pub proof fn lemma_dead_update(objects: Seq<Object>, at: int, object: Object)
    requires
        0 <= at < objects.len(),
    ensures
        dead(objects.update(at, object)) + (if objects[at].count == 0 {
            1nat
        } else {
            0nat
        }) == dead(objects) + if object.count == 0 {
            1nat
        } else {
            0nat
        },
    decreases objects.len(),
{
    let updated = objects.update(at, object);
    if at == objects.len() - 1 {
        assert(updated.drop_last() =~= objects.drop_last());
    } else {
        lemma_dead_update(objects.drop_last(), at, object);
        assert(updated.drop_last() =~= objects.drop_last().update(at, object));
    }
}

/// The registrations of a batch are those of its two parts.
pub proof fn lemma_occurrences_split(batch: Seq<usize>, at: int, raw: usize)
    requires
        0 <= at <= batch.len(),
    ensures
        occurrences(batch, raw) == occurrences(batch.subrange(0, at), raw) + occurrences(
            batch.subrange(at, batch.len() as int),
            raw,
        ),
    decreases batch.len(),
{
    if at == batch.len() {
        assert(batch.subrange(0, at) =~= batch);
    } else {
        let shorter = batch.drop_last();
        lemma_occurrences_split(shorter, at, raw);
        assert(shorter.subrange(0, at) =~= batch.subrange(0, at));
        assert(shorter.subrange(at, shorter.len() as int) =~= batch.subrange(
            at,
            batch.len() as int,
        ).drop_last());
    }
}

/// What a state does not know is registered in no frame.
proof fn lemma_unknown_absent(state: State, raw: usize)
    requires
        state.wf(),
        !state.known(raw),
    ensures
        occurrences(state.innermost(), raw) == 0,
{
    let batch = state.innermost();
    assert forall|i: int| 0 <= i < batch.len() implies 1 <= #[trigger] batch[i]
        <= state.objects.len() by {
        if state.marks.len() == 0 {
            assert(state.known(state.pending[i]));
        } else {
            assert(state.known(state.pending[state.marks.last() + i]));
        }
    }
    lemma_absent(batch, state.objects.len(), raw);
}

/// A reference that no registered release names occurs zero times.
proof fn lemma_absent(batch: Seq<usize>, bound: nat, raw: usize)
    requires
        forall|i: int| 0 <= i < batch.len() ==> 1 <= #[trigger] batch[i] <= bound,
        raw == 0 || raw > bound,
    ensures
        occurrences(batch, raw) == 0,
    decreases batch.len(),
{
    if batch.len() > 0 {
        lemma_absent(batch.drop_last(), bound, raw);
    }
}

} // verus!
