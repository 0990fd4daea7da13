//! Whole runs of the engine: what holds of every row of events.

use vstd::prelude::*;
use crate::loader::is_ascending;
use crate::reconcile::{not_started, Action, Event, Phase, Plan, Progress};

verus! {

/// A run so far: how far it has come, and the actions that the engine has
/// asked for, in their order.
pub ghost struct Trace {
    pub at: Progress,
    pub actions: Seq<Action>,
}

impl Action {
    /// The definition that the action asks to create or to announce.
    pub open spec fn target(self) -> Option<int> {
        match self {
            Action::Create { index } => Some(index as int),
            Action::Announce { index } => Some(index as int),
            _ => None,
        }
    }
}

impl Plan {
    /// Whether the definitions are no more than a list can hold.
    pub open spec fn fits(self) -> bool {
        self.definitions.len() <= usize::MAX
    }

    /// The run `t` after one more event: where the event is taken, the
    /// engine's answer is added to the actions.
    pub open spec fn advance(self, t: Trace, event: Event) -> Trace {
        match self.step(t.at, event) {
            Some((at, action)) => Trace { at, actions: t.actions.push(action) },
            None => t,
        }
    }

    /// The run after `events`, each taken in turn from a fresh engine.
    pub open spec fn run(self, events: Seq<Event>) -> Trace
        decreases events.len(),
    {
        if events.len() == 0 {
            Trace { at: not_started(), actions: seq![] }
        } else {
            self.advance(self.run(events.drop_last()), events.last())
        }
    }

    /// Whether definition `k` has been asked about in `actions`.
    pub open spec fn is_asked(self, actions: Seq<Action>, k: int) -> bool {
        exists|i: int| 0 <= i < actions.len() && (#[trigger] actions[i]).target() == Some(k)
    }

    /// What holds of a run at every moment.
    pub open spec fn is_orderly(self, t: Trace) -> bool {
        let n = t.actions.len() as int;
        &&& 0 <= t.at.created <= t.at.cursor <= self.definitions.len()
        &&& forall|i: int| 0 <= i < n - 1 ==> (#[trigger] t.actions[i]).target() is Some
        &&& forall|i: int|
            0 <= i < n && (#[trigger] t.actions[i]).target() is Some ==> {
                &&& self.is_wanted(t.actions[i].target()->0)
                &&& t.actions[i].target()->0 <= t.at.cursor
                &&& t.actions[i] is Announce <==> self.dry_run
            }
        &&& forall|i: int, j: int|
            0 <= i < j < n && (#[trigger] t.actions[i]).target() is Some && (
            #[trigger] t.actions[j]).target() is Some ==> t.actions[i].target()->0
                < t.actions[j].target()->0
        &&& match t.at.phase {
            Phase::NotStarted => n == 0 && t.at.created == 0 && t.at.cursor == 0,
            Phase::Running => {
                &&& n > 0
                &&& t.actions.last().target() == Some(t.at.cursor)
                &&& t.at.created == n - 1
                &&& forall|k: int|
                    0 <= k <= t.at.cursor && self.is_wanted(k) ==> self.is_asked(t.actions, k)
            },
            Phase::Completed => {
                &&& n > 0
                &&& t.actions.last() == Action::Finish { created: t.at.created as usize }
                &&& t.at.created == n - 1
                &&& forall|k: int| self.is_wanted(k) ==> self.is_asked(t.actions, k)
            },
            Phase::Aborted => {
                &&& n > 1
                &&& t.actions.last() == Action::Abort {
                    index: t.at.cursor as usize,
                    created: t.at.created as usize,
                }
                &&& t.actions[n - 2] == Action::Create { index: t.at.cursor as usize }
                &&& t.at.created == n - 2
            },
        }
    }
}

/// `next_wanted` passes over the definitions of topics that exist, and
/// stops at the first of a topic that does not.
pub proof fn lemma_next_wanted(plan: Plan, from: int)
    requires
        0 <= from <= plan.definitions.len(),
    ensures
        from <= plan.next_wanted(from) <= plan.definitions.len(),
        forall|k: int| from <= k < plan.next_wanted(from) ==> !plan.is_wanted(k),
        plan.next_wanted(from) < plan.definitions.len() ==> plan.is_wanted(plan.next_wanted(from)),
    decreases plan.definitions.len() - from,
{
    if from < plan.definitions.len() && !plan.is_wanted(from) {
        lemma_next_wanted(plan, from + 1);
    }
}

/// A step keeps a run orderly.
proof fn lemma_step_orderly(plan: Plan, t: Trace, event: Event)
    requires
        plan.fits(),
        plan.is_orderly(t),
        plan.step(t.at, event) is Some,
    ensures
        plan.is_orderly(plan.advance(t, event)),
{
    let (at, action) = plan.step(t.at, event).unwrap();
    let after = plan.advance(t, event);
    let n = t.actions.len() as int;
    assert forall|i: int| 0 <= i < n implies after.actions[i] == t.actions[i] by {}
    assert(after.actions[n] == action);
    match (t.at.phase, event) {
        (Phase::NotStarted, Event::Begin) => {
            lemma_next_wanted(plan, 0);
            lemma_proceed_orderly(plan, t, 0, 0);
        },
        (Phase::Running, Event::Done) => {
            lemma_next_wanted(plan, t.at.cursor + 1);
            lemma_proceed_orderly(plan, t, t.at.cursor + 1, t.at.created + 1);
        },
        (Phase::Running, Event::Failed) => {
            assert(t.actions[n - 1].target() == Some(t.at.cursor));
            assert(!(t.actions[n - 1] is Announce));
            assert(t.actions[n - 1] == Action::Create { index: t.at.cursor as usize });
            assert(after.actions[n - 1] == t.actions[n - 1]);
            assert(action.target() is None);
        },
        _ => {},
    }
}

/// Going on from `from` keeps a run orderly, where all that was asked
/// about lies before `from` and nothing wanted was passed over.
proof fn lemma_proceed_orderly(plan: Plan, t: Trace, from: int, created: int)
    requires
        plan.fits(),
        plan.is_orderly(t),
        t.at.phase is NotStarted || t.at.phase is Running,
        t.at.phase is NotStarted ==> from == 0 && created == 0,
        t.at.phase is Running ==> from == t.at.cursor + 1 && created == t.at.created + 1,
    ensures
        plan.is_orderly(
            Trace {
                at: plan.proceed(from, created).0,
                actions: t.actions.push(plan.proceed(from, created).1),
            },
        ),
{
    lemma_next_wanted(plan, from);
    let (at, action) = plan.proceed(from, created);
    let after = Trace { at, actions: t.actions.push(action) };
    let n = t.actions.len() as int;
    let next = plan.next_wanted(from);
    assert forall|i: int| 0 <= i < n implies after.actions[i] == t.actions[i] by {}
    assert(after.actions[n] == action);
    assert forall|k: int| 0 <= k < from && plan.is_wanted(k) implies plan.is_asked(
        after.actions,
        k,
    ) by {
        assert(plan.is_asked(t.actions, k));
        let i = choose|i: int| 0 <= i < t.actions.len() && (#[trigger] t.actions[i]).target()
            == Some(k);
        assert(after.actions[i].target() == Some(k));
    }
    if next < plan.definitions.len() {
        assert(action.target() == Some(next));
        assert forall|k: int| 0 <= k <= next && plan.is_wanted(k) implies plan.is_asked(
            after.actions,
            k,
        ) by {
            if k == next {
                assert(after.actions[n].target() == Some(k));
            }
        }
    } else {
        assert(action.target() is None);
        assert forall|k: int| plan.is_wanted(k) implies plan.is_asked(after.actions, k) by {}
    }
}

/// Every run is orderly.
pub proof fn lemma_run_orderly(plan: Plan, events: Seq<Event>)
    requires
        plan.fits(),
    ensures
        plan.is_orderly(plan.run(events)),
    decreases events.len(),
{
    if events.len() > 0 {
        let before = plan.run(events.drop_last());
        lemma_run_orderly(plan, events.drop_last());
        if plan.step(before.at, events.last()) is Some {
            lemma_step_orderly(plan, before, events.last());
        }
    }
}

/// Creations are asked for in the order of the definitions: of two
/// definitions asked about, the one asked about first stands first. Where
/// the line numbers grow along the definitions, it has the smaller line
/// number too.
pub proof fn lemma_attempts_in_order(plan: Plan, events: Seq<Event>, i: int, j: int)
    requires
        plan.fits(),
        0 <= i < j < plan.run(events).actions.len(),
        plan.run(events).actions[i].target() is Some,
        plan.run(events).actions[j].target() is Some,
    ensures
        ({
            let first = plan.run(events).actions[i].target()->0;
            let second = plan.run(events).actions[j].target()->0;
            &&& 0 <= first < second < plan.definitions.len()
            &&& is_ascending(plan.definitions) ==> plan.definitions[first].0
                < plan.definitions[second].0
        }),
{
    lemma_run_orderly(plan, events);
}

/// A failure ends the run: the `Abort` that answers it is the last action
/// of the run, it names the definition whose creation was asked for just
/// before, and no definition after that one is ever asked about.
pub proof fn lemma_nothing_after_failure(plan: Plan, events: Seq<Event>, k: int)
    requires
        plan.fits(),
        0 <= k < plan.run(events).actions.len(),
        plan.run(events).actions[k] is Abort,
    ensures
        ({
            let t = plan.run(events);
            let failed = t.actions[k]->Abort_index;
            &&& k == t.actions.len() - 1
            &&& k > 0
            &&& t.actions[k - 1] == Action::Create { index: failed }
            &&& t.at.phase is Aborted
            &&& forall|i: int|
                0 <= i < t.actions.len() && (#[trigger] t.actions[i]).target() is Some
                    ==> t.actions[i].target()->0 <= failed
        }),
{
    lemma_run_orderly(plan, events);
    let t = plan.run(events);
    if k < t.actions.len() - 1 {
        assert(t.actions[k].target() is Some);
    }
}

/// Once a run is complete or aborted, no event is taken any more.
pub proof fn lemma_ended_run_stays(plan: Plan, at: Progress, event: Event)
    requires
        at.phase is Completed || at.phase is Aborted,
    ensures
        plan.step(at, event) is None,
{
}

/// Where every topic defined exists already, no creation is ever asked
/// for: the one action of the run is the `Finish` that reports zero topics.
pub proof fn lemma_nothing_to_create(plan: Plan, events: Seq<Event>)
    requires
        plan.fits(),
        forall|i: int|
            0 <= i < plan.definitions.len() ==> plan.existing.contains(
                (#[trigger] plan.definitions[i]).1.name,
            ),
    ensures
        plan.run(events).at.created == 0,
        forall|i: int|
            0 <= i < plan.run(events).actions.len() ==> (#[trigger] plan.run(events).actions[i])
                == (Action::Finish { created: 0 }),
        plan.run(events).actions.len() <= 1,
{
    lemma_run_orderly(plan, events);
    let t = plan.run(events);
    assert forall|i: int| 0 <= i < t.actions.len() implies (#[trigger] t.actions[i]).target()
        is None by {
        if t.actions[i].target() is Some {
            let k = t.actions[i].target()->0;
            assert(plan.is_wanted(k));
            assert(plan.existing.contains(plan.definitions[k].1.name));
        }
    }
    if t.actions.len() > 1 {
        assert(t.actions[0].target() is Some);
    }
}

/// A complete run has asked about every definition of a topic that did not
/// exist, and about no other; the count that it reports is their number.
pub proof fn lemma_complete_run_asks_for_all(plan: Plan, events: Seq<Event>)
    requires
        plan.fits(),
        plan.run(events).at.phase is Completed,
    ensures
        ({
            let t = plan.run(events);
            &&& forall|k: int| plan.is_wanted(k) <==> plan.is_asked(t.actions, k)
            &&& t.actions.last() == Action::Finish { created: (t.actions.len() - 1) as usize }
        }),
{
    lemma_run_orderly(plan, events);
    let t = plan.run(events);
    assert forall|k: int| plan.is_asked(t.actions, k) implies plan.is_wanted(k) by {
        let i = choose|i: int| 0 <= i < t.actions.len() && (#[trigger] t.actions[i]).target()
            == Some(k);
        assert(t.actions[i].target() is Some);
    }
}

} // verus!
