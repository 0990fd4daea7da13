//! The engine that decides, one definition at a time, what to create.
//!
//! The engine does no work on a cluster itself. It is handed the
//! definitions of a file and the names of the topics that exist already,
//! and is then driven by events: for every event it answers with the next
//! thing to do. The caller does it and reports back.
//!
//! ```text
//! NotStarted --Begin--> Running --Done--> Running ... --Done--> Completed
//!                          |
//!                          +--Failed--> Aborted
//! ```

use vstd::prelude::*;
use crate::loader::{
    all_valid,
    definitions,
    definitions_of,
    definitions_view,
    is_ascending,
    is_first_failure,
    lemma_definitions_keep_order,
    numbered,
    read_input,
    texts,
    ParseFailure,
};
use crate::run::lemma_run_orderly;
use crate::topic::{TopicDefinition, TopicModel};

verus! {

/// Where a run stands.
#[derive(Debug, Clone, Copy, PartialEq, Eq)]
pub enum Phase {
    /// No event has been taken yet.
    NotStarted,
    /// The engine has asked for something and waits to hear of it.
    Running,
    /// Every definition has been dealt with.
    Completed,
    /// A creation has failed; nothing more will be asked for.
    Aborted,
}

/// What the caller tells the engine.
#[derive(Debug, Clone, Copy, PartialEq, Eq)]
pub enum Event {
    /// Start the run.
    Begin,
    /// What the engine asked for last has been done.
    Done,
    /// The creation that the engine asked for last has failed.
    Failed,
}

/// What the engine asks the caller to do. An `index` is a position in the
/// definitions that the engine was made with.
#[derive(Debug, Clone, Copy, PartialEq, Eq)]
pub enum Action {
    /// Create the topic of this definition, then report `Done` or `Failed`.
    Create { index: usize },
    /// Dry run: say that the topic of this definition would be created,
    /// then report `Done`.
    Announce { index: usize },
    /// The run is complete: say how many topics were created.
    Finish { created: usize },
    /// The run is over: say which definition failed, and how many topics
    /// were created before it.
    Abort { index: usize, created: usize },
}

/// What a run works on: the definitions with their line numbers, the names
/// of the topics that exist, and whether the run is a dry one. None of it
/// changes during a run.
pub ghost struct Plan {
    pub definitions: Seq<(usize, TopicModel)>,
    pub existing: Set<Seq<char>>,
    pub dry_run: bool,
}

/// How far a run has come.
pub ghost struct Progress {
    pub phase: Phase,
    /// In `Running`, the definition that the engine has asked about.
    pub cursor: int,
    /// The topics created so far, or announced in a dry run.
    pub created: int,
}

impl Plan {
    /// Whether definition `i` is of a topic that does not exist yet.
    pub open spec fn is_wanted(self, i: int) -> bool {
        0 <= i < self.definitions.len() && !self.existing.contains(self.definitions[i].1.name)
    }

    /// The first definition at or after `from` of a topic that does not
    /// exist yet, or the number of definitions where there is none.
    pub open spec fn next_wanted(self, from: int) -> int
        decreases self.definitions.len() - from,
    {
        if from >= self.definitions.len() {
            self.definitions.len() as int
        } else if self.is_wanted(from) {
            from
        } else {
            self.next_wanted(from + 1)
        }
    }

    /// Goes on from definition `from` with `created` topics created: asks
    /// for the next topic that does not exist yet, or ends the run.
    pub open spec fn proceed(self, from: int, created: int) -> (Progress, Action) {
        let next = self.next_wanted(from);
        if next < self.definitions.len() {
            (
                Progress { phase: Phase::Running, cursor: next, created },
                if self.dry_run {
                    Action::Announce { index: next as usize }
                } else {
                    Action::Create { index: next as usize }
                },
            )
        } else {
            (
                Progress { phase: Phase::Completed, cursor: next, created },
                Action::Finish { created: created as usize },
            )
        }
    }

    /// The engine's answer to an event, and how far the run has come then.
    /// `None` where the event has no place: nothing changes then.
    pub open spec fn step(self, at: Progress, event: Event) -> Option<(Progress, Action)> {
        match (at.phase, event) {
            (Phase::NotStarted, Event::Begin) => Some(self.proceed(0, 0)),
            (Phase::Running, Event::Done) => Some(self.proceed(at.cursor + 1, at.created + 1)),
            (Phase::Running, Event::Failed) => if self.dry_run {
                None
            } else {
                Some(
                    (
                        Progress { phase: Phase::Aborted, ..at },
                        Action::Abort { index: at.cursor as usize, created: at.created as usize },
                    ),
                )
            },
            _ => None,
        }
    }
}

/// A run before its first event.
pub open spec fn not_started() -> Progress {
    Progress { phase: Phase::NotStarted, cursor: 0, created: 0 }
}

/// The names in a list, as a set.
pub open spec fn name_set(names: Seq<String>) -> Set<Seq<char>> {
    Set::new(|name: Seq<char>| exists|i: int| 0 <= i < names.len() && (#[trigger] names[i])@ == name)
}

/// Whether `name` is one of `names`.
pub fn is_among(names: &Vec<String>, name: &String) -> (b: bool)
    ensures
        b == name_set(names@).contains(name@),
{
    let mut i: usize = 0;
    while i < names.len()
        invariant
            i <= names.len(),
            forall|j: int| 0 <= j < i ==> (#[trigger] names[j])@ != name@,
        decreases names.len() - i,
    {
        if names[i] == *name {
            return true;
        }
        i = i + 1;
    }
    false
}

/// How far a run has come, as the engine holds it.
struct Position {
    phase: Phase,
    cursor: usize,
    created: usize,
    /// Every event that the engine was given, in order.
    history: Ghost<Seq<Event>>,
}

/// The engine of one run.
pub struct Reconciler {
    definitions: Vec<(usize, TopicDefinition)>,
    existing: Vec<String>,
    dry_run: bool,
    at: Position,
}

impl Reconciler {
    #[verifier::type_invariant]
    spec fn is_consistent(self) -> bool {
        &&& self.plan().fits()
        &&& self.plan().run(self.history()).at == self.progress()
    }

    /// What the run works on.
    pub closed spec fn plan(&self) -> Plan {
        Plan {
            definitions: definitions_view(self.definitions@),
            existing: name_set(self.existing@),
            dry_run: self.dry_run,
        }
    }

    /// How far the run has come.
    pub closed spec fn progress(&self) -> Progress {
        Progress {
            phase: self.at.phase,
            cursor: self.at.cursor as int,
            created: self.at.created as int,
        }
    }

    /// Every event that the engine was given, in order.
    pub closed spec fn history(&self) -> Seq<Event> {
        self.at.history@
    }

    /// Whether the engine stands where the run of its plan over its
    /// history stands. It always does; what holds of every run then holds
    /// of the engine.
    pub open spec fn follows_run(&self) -> bool {
        &&& self.plan().fits()
        &&& self.plan().run(self.history()).at == self.progress()
    }

    /// An engine for `definitions`, in the order given, against the topics
    /// named in `existing`. With `dry_run` it will ask for no creation.
    pub fn new(definitions: Vec<(usize, TopicDefinition)>, existing: Vec<String>, dry_run: bool) -> (r:
        Self)
        ensures
            r.plan() == (Plan {
                definitions: definitions_view(definitions@),
                existing: name_set(existing@),
                dry_run,
            }),
            r.progress() == not_started(),
            r.history() == Seq::<Event>::empty(),
            r.follows_run(),
    {
        assert(definitions@.len() == definitions.len());
        Reconciler {
            definitions,
            existing,
            dry_run,
            at: Position {
                phase: Phase::NotStarted,
                cursor: 0,
                created: 0,
                history: Ghost(Seq::empty()),
            },
        }
    }

    /// Where the run stands.
    pub fn phase(&self) -> (phase: Phase)
        ensures
            phase == self.progress().phase,
            self.follows_run(),
    {
        proof {
            use_type_invariant(self);
        }
        self.at.phase
    }

    /// The number of topics created so far, or announced in a dry run.
    pub fn created(&self) -> (created: usize)
        ensures
            created == self.progress().created,
            self.follows_run(),
    {
        proof {
            use_type_invariant(self);
        }
        self.at.created
    }

    /// Whether the run is a dry one.
    pub fn is_dry_run(&self) -> (dry_run: bool)
        ensures
            dry_run == self.plan().dry_run,
    {
        self.dry_run
    }

    /// The definition at `index`, with its line number.
    pub fn definition(&self, index: usize) -> (r: Option<&(usize, TopicDefinition)>)
        ensures
            match r {
                Some(entry) => index < self.plan().definitions.len() && (entry.0, entry.1@)
                    == self.plan().definitions[index as int],
                None => index >= self.plan().definitions.len(),
            },
    {
        if index < self.definitions.len() {
            Some(&self.definitions[index])
        } else {
            None
        }
    }

    /// The first definition at or after `from` of a topic that does not
    /// exist yet.
    fn seek(&self, from: usize) -> (next: usize)
        requires
            from <= self.definitions.len(),
        ensures
            next == self.plan().next_wanted(from as int),
            from <= next <= self.definitions.len(),
    {
        let mut i: usize = from;
        while i < self.definitions.len()
            invariant
                from <= i <= self.definitions.len(),
                self.plan().next_wanted(i as int) == self.plan().next_wanted(from as int),
            decreases self.definitions.len() - i,
        {
            if !is_among(&self.existing, &self.definitions[i].1.topic_name) {
                return i;
            }
            i = i + 1;
        }
        i
    }

    /// Goes on from definition `from` with `created` topics created, as the
    /// answer to the last event of `history`.
    fn proceed(&mut self, from: usize, created: usize, history: Ghost<Seq<Event>>) -> (action:
        Action)
        requires
            created <= from <= old(self).definitions.len(),
            old(self).plan().fits(),
            old(self).plan().run(history@).at == old(self).plan().proceed(
                from as int,
                created as int,
            ).0,
        ensures
            final(self).plan() == old(self).plan(),
            final(self).history() == history@,
            (final(self).progress(), action) == old(self).plan().proceed(
                from as int,
                created as int,
            ),
    {
        let next = self.seek(from);
        if next < self.definitions.len() {
            self.at = Position { phase: Phase::Running, cursor: next, created, history };
            if self.dry_run {
                Action::Announce { index: next }
            } else {
                Action::Create { index: next }
            }
        } else {
            self.at = Position { phase: Phase::Completed, cursor: next, created, history };
            Action::Finish { created }
        }
    }

    /// Takes one event and answers with what to do next.
    ///
    /// `Begin` starts the run; `Done` and `Failed` report on what the engine
    /// asked for last. An event that has no place where the run stands is
    /// answered with `None`, and changes nothing: so `Failed` in a dry run,
    /// which creates nothing, and every event once the run has ended.
    pub fn step(&mut self, event: Event) -> (action: Option<Action>)
        ensures
            final(self).plan() == old(self).plan(),
            final(self).history() == old(self).history().push(event),
            final(self).follows_run(),
            match old(self).plan().step(old(self).progress(), event) {
                Some((progress, answer)) => final(self).progress() == progress && action == Some(
                    answer,
                ),
                None => final(self).progress() == old(self).progress() && action is None,
            },
    {
        let ghost history = self.at.history@.push(event);
        proof {
            use_type_invariant(&*self);
            lemma_run_orderly(self.plan(), self.history());
            assert(history.drop_last() =~= self.history());
            assert(self.plan().run(history) == self.plan().advance(
                self.plan().run(self.history()),
                event,
            ));
        }
        match (self.at.phase, event) {
            (Phase::NotStarted, Event::Begin) => Some(self.proceed(0, 0, Ghost(history))),
            (Phase::Running, Event::Done) => {
                let from = self.at.cursor + 1;
                let created = self.at.created + 1;
                Some(self.proceed(from, created, Ghost(history)))
            },
            (Phase::Running, Event::Failed) => {
                if self.dry_run {
                    self.at.history = Ghost(history);
                    None
                } else {
                    let index = self.at.cursor;
                    let created = self.at.created;
                    self.at = Position {
                        phase: Phase::Aborted,
                        cursor: index,
                        created,
                        history: Ghost(history),
                    };
                    Some(Action::Abort { index, created })
                }
            },
            _ => {
                self.at.history = Ghost(history);
                None
            },
        }
    }
}

/// Reads the lines of a definition file and makes the engine for them.
///
/// Succeeds exactly where every line follows the grammar; the engine then
/// holds the definitions of the file, in their order and with their line
/// numbers. Where a line does not, no engine is made, so that nothing of
/// the file is ever created.
pub fn prepare(lines: &Vec<String>, existing: Vec<String>, dry_run: bool) -> (r: Result<
    Reconciler,
    ParseFailure,
>)
    ensures
        match r {
            Ok(engine) => {
                &&& all_valid(texts(lines@))
                &&& engine.plan() == (Plan {
                    definitions: definitions(numbered(texts(lines@))),
                    existing: name_set(existing@),
                    dry_run,
                })
                &&& engine.progress() == not_started()
                &&& engine.history() == Seq::<Event>::empty()
                &&& engine.follows_run()
                &&& is_ascending(engine.plan().definitions)
            },
            Err(failure) => {
                &&& 1 <= failure.line_number <= lines.len()
                &&& is_first_failure(texts(lines@), failure.line_number - 1)
                &&& failure.raw_text@ == lines[failure.line_number - 1]@
            },
        },
{
    match read_input(lines) {
        Ok(read) => {
            proof {
                lemma_definitions_keep_order(numbered(texts(lines@)));
            }
            Ok(Reconciler::new(definitions_of(read), existing, dry_run))
        },
        Err(failure) => Err(failure),
    }
}

} // verus!
