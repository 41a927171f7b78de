//! The accounting of handles: every handle is backed by a count of its own,
//! whatever host code does with handles and pools.

use crate::runtime::{occurrences, State};
use vstd::multiset::Multiset;
use vstd::prelude::*;

verus! {

/// A runtime together with the handles that host code holds: `held` has a
/// reference once for each live handle to it, and `exclusive` has it where
/// that handle is an exclusive one.
pub struct World {
    pub state: State,
    pub held: Multiset<usize>,
    pub exclusive: Set<usize>,
}

/// What host code does with handles and pools.
pub enum Step {
    /// An object is created and its reference wrapped in an exclusive handle.
    Create(Option<usize>),
    /// A shared handle to the object is cloned.
    Clone(usize),
    /// A handle to the object is dropped.
    Drop(usize),
    /// An exclusive handle to the object is downgraded.
    Downgrade(usize),
    /// A handle to the object is handed to the innermost pool.
    Autorelease(usize),
    /// A thrown object is caught, or a borrowed reference wrapped with a
    /// count of its own.
    Capture(usize),
    /// A pool frame is entered.
    Enter,
    /// The innermost pool frame is left.
    Exit,
}

impl World {
    /// The counts cover the handles and the deferred releases: no count is
    /// owed twice. What is left over belongs to the foreign side. And an
    /// exclusive handle is the only handle to its object.
    pub open spec fn accounted(self) -> bool {
        &&& self.state.wf()
        &&& forall|raw: usize|
            (#[trigger] self.held.count(raw)) + self.state.promised(raw) <= self.state.count(raw)
        &&& forall|raw: usize| #[trigger] self.exclusive.contains(raw) ==> self.held.count(raw) == 1
    }

    /// Host code can take the step: it uses only handles that it holds, and
    /// no count or length leaves the machine's range.
    pub open spec fn admits(self, step: Step) -> bool {
        match step {
            Step::Create(_) => self.state.objects.len() < usize::MAX,
            Step::Clone(raw) => {
                &&& self.held.count(raw) > 0
                &&& !self.exclusive.contains(raw)
                &&& self.state.count(raw) < usize::MAX
            },
            Step::Drop(raw) => self.held.count(raw) > 0,
            Step::Downgrade(raw) => self.exclusive.contains(raw),
            Step::Autorelease(raw) => self.held.count(raw) > 0 && self.state.pending.len()
                < usize::MAX,
            Step::Capture(raw) => {
                &&& self.state.live(raw)
                &&& !self.exclusive.contains(raw)
                &&& self.state.count(raw) < usize::MAX
            },
            Step::Enter => true,
            Step::Exit => self.state.depth() > 0,
        }
    }

    /// The world after the step.
    pub open spec fn after(self, step: Step) -> World {
        match step {
            Step::Create(value) => World {
                state: self.state.created(value),
                held: self.held.insert((self.state.objects.len() + 1) as usize),
                exclusive: self.exclusive.insert((self.state.objects.len() + 1) as usize),
            },
            Step::Clone(raw) => World {
                state: self.state.retained(raw),
                held: self.held.insert(raw),
                ..self
            },
            Step::Drop(raw) => World {
                state: self.state.released(raw),
                held: self.held.remove(raw),
                exclusive: self.exclusive.remove(raw),
            },
            Step::Downgrade(raw) => World { exclusive: self.exclusive.remove(raw), ..self },
            Step::Autorelease(raw) => World {
                state: self.state.autoreleased(raw),
                held: self.held.remove(raw),
                exclusive: self.exclusive.remove(raw),
            },
            Step::Capture(raw) => World {
                state: self.state.retained(raw),
                held: self.held.insert(raw),
                ..self
            },
            Step::Enter => World { state: self.state.entered(), ..self },
            Step::Exit => World { state: self.state.exited(), ..self },
        }
    }

    /// Each step can be taken in the world that the steps before it leave.
    pub open spec fn admits_all(self, steps: Seq<Step>) -> bool
        decreases steps.len(),
    {
        steps.len() > 0 ==> self.admits_all(steps.drop_last()) && self.after_all(
            steps.drop_last(),
        ).admits(steps.last())
    }

    /// The world after the steps, in their order.
    pub open spec fn after_all(self, steps: Seq<Step>) -> World
        decreases steps.len(),
    {
        if steps.len() == 0 {
            self
        } else {
            self.after_all(steps.drop_last()).after(steps.last())
        }
    }

    /// Whoever holds a handle may use it: its object is live, and one count
    /// is there to be released or handed to a pool. No handle dangles and no
    /// release comes twice.
    pub proof fn law_held_is_owned(self, raw: usize)
        requires
            self.accounted(),
            self.held.count(raw) > 0,
        ensures
            self.state.live(raw),
            self.state.owned(raw),
    {
    }

    /// An exclusive handle is alone: no second handle to its object exists.
    pub proof fn law_exclusive_is_alone(self, raw: usize)
        requires
            self.accounted(),
            self.exclusive.contains(raw),
        ensures
            self.held.count(raw) == 1,
            self.state.live(raw),
    {
    }

    /// Every step that host code can take keeps the accounts.
    pub proof fn law_step_keeps_accounts(self, step: Step)
        requires
            self.accounted(),
            self.admits(step),
        ensures
            self.after(step).accounted(),
    {
        let next = self.after(step);
        match step {
            Step::Create(value) => {
                let raw = (self.state.objects.len() + 1) as usize;
                self.state.lemma_created(value);
                assert(self.held.count(raw) + self.state.promised(raw) <= self.state.count(raw));
                assert forall|other: usize|
                    (#[trigger] next.held.count(other)) + next.state.promised(other)
                        <= next.state.count(other) by {
                    assert(self.held.count(other) + self.state.promised(other)
                        <= self.state.count(other));
                }
            },
            Step::Clone(raw) => {
                self.state.lemma_retained(raw);
                assert forall|other: usize|
                    (#[trigger] next.held.count(other)) + next.state.promised(other)
                        <= next.state.count(other) by {
                    assert(self.held.count(other) + self.state.promised(other)
                        <= self.state.count(other));
                }
            },
            Step::Drop(raw) => {
                self.state.lemma_released(raw);
                assert forall|other: usize|
                    (#[trigger] next.held.count(other)) + next.state.promised(other)
                        <= next.state.count(other) by {
                    assert(self.held.count(other) + self.state.promised(other)
                        <= self.state.count(other));
                }
            },
            Step::Downgrade(raw) => {
                assert forall|other: usize| #[trigger]
                    next.exclusive.contains(other) implies next.held.count(other) == 1 by {
                    assert(self.exclusive.contains(other));
                }
            },
            Step::Autorelease(raw) => {
                self.state.lemma_autoreleased(raw);
                assert(next.state.pending.drop_last() =~= self.state.pending);
                assert forall|other: usize|
                    (#[trigger] next.held.count(other)) + next.state.promised(other)
                        <= next.state.count(other) by {
                    assert(self.held.count(other) + self.state.promised(other)
                        <= self.state.count(other));
                }
            },
            Step::Capture(raw) => {
                self.state.lemma_retained(raw);
                assert forall|other: usize|
                    (#[trigger] next.held.count(other)) + next.state.promised(other)
                        <= next.state.count(other) by {
                    assert(self.held.count(other) + self.state.promised(other)
                        <= self.state.count(other));
                }
            },
            Step::Enter => {
                self.state.lemma_entered();
                assert forall|other: usize|
                    (#[trigger] next.held.count(other)) + next.state.promised(other)
                        <= next.state.count(other) by {
                    assert(self.held.count(other) + self.state.promised(other)
                        <= self.state.count(other));
                }
            },
            Step::Exit => {
                self.state.lemma_exited();
                assert forall|other: usize|
                    (#[trigger] next.held.count(other)) + next.state.promised(other)
                        <= next.state.count(other) by {
                    assert(self.held.count(other) + self.state.promised(other)
                        <= self.state.count(other));
                    assert(next.state.count(other) == self.state.count(other) - occurrences(
                        self.state.innermost(),
                        other,
                    ));
                    assert(next.state.promised(other) == self.state.promised(other) - occurrences(
                        self.state.innermost(),
                        other,
                    ));
                }
            },
        }
    }

    /// Every run of steps that host code can take keeps the accounts: at its
    /// end, still, each handle is backed by a count of its own.
    pub proof fn law_run_keeps_accounts(self, steps: Seq<Step>)
        requires
            self.accounted(),
            self.admits_all(steps),
        ensures
            self.after_all(steps).accounted(),
        decreases steps.len(),
    {
        if steps.len() > 0 {
            self.law_run_keeps_accounts(steps.drop_last());
            self.after_all(steps.drop_last()).law_step_keeps_accounts(steps.last());
        }
    }
}

/// A world without objects, handles and frames keeps its accounts.
pub proof fn law_empty_world_is_accounted(world: World)
    requires
        world.state.objects.len() == 0,
        world.state.pending.len() == 0,
        world.state.marks.len() == 0,
        world.state.log.len() == 0,
        world.held == Multiset::<usize>::empty(),
        world.exclusive == Set::<usize>::empty(),
    ensures
        world.accounted(),
{
}

} // verus!
