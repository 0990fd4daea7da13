use kafka_bulk_topic_create::loader::ParseFailure;
use kafka_bulk_topic_create::reconcile::{is_among, prepare, Action, Event, Phase, Reconciler};
use kafka_bulk_topic_create::topic::TopicDefinition;

fn topic(name: &str) -> TopicDefinition {
    TopicDefinition {
        topic_name: name.to_string(),
        partitions: 1,
        replication_factor: 1,
        additional_config: Vec::new(),
    }
}

fn names(text: &[&str]) -> Vec<String> {
    text.iter().map(|s| s.to_string()).collect()
}

fn engine(defined: &[&str], existing: &[&str], dry_run: bool) -> Reconciler {
    let definitions = defined.iter().enumerate().map(|(i, name)| (i + 1, topic(name))).collect();
    Reconciler::new(definitions, names(existing), dry_run)
}

/// Drives the engine to its end; creation `k`, counted from 0, fails where
/// `fails_at` is `Some(k)`. Gives every action of the run.
fn drive(engine: &mut Reconciler, fails_at: Option<usize>) -> Vec<Action> {
    let mut actions = Vec::new();
    let mut attempts = 0;
    let mut event = Event::Begin;
    while let Some(action) = engine.step(event) {
        actions.push(action);
        event = match action {
            Action::Create { .. } => {
                attempts += 1;
                if fails_at == Some(attempts - 1) {
                    Event::Failed
                } else {
                    Event::Done
                }
            }
            Action::Announce { .. } => Event::Done,
            Action::Finish { .. } | Action::Abort { .. } => break,
        };
    }
    actions
}

#[test]
fn existing_topic_is_skipped_and_the_other_created() {
    let mut e = engine(&["topicA", "topicB"], &["topicA"], false);
    assert_eq!(e.phase(), Phase::NotStarted);
    assert_eq!(e.step(Event::Begin), Some(Action::Create { index: 1 }));
    assert_eq!(e.phase(), Phase::Running);
    assert_eq!(e.definition(1), Some(&(2, topic("topicB"))));
    assert_eq!(e.created(), 0);
    assert_eq!(e.step(Event::Done), Some(Action::Finish { created: 1 }));
    assert_eq!(e.phase(), Phase::Completed);
    assert_eq!(e.created(), 1);
}

#[test]
fn nothing_is_created_where_all_exist() {
    let mut e = engine(&["a", "b", "a"], &["b", "a", "c"], false);
    assert_eq!(drive(&mut e, None), vec![Action::Finish { created: 0 }]);
    assert_eq!(e.phase(), Phase::Completed);
    assert_eq!(e.created(), 0);
}

#[test]
fn no_definitions_complete_at_once() {
    let mut e = engine(&[], &["a"], false);
    assert_eq!(e.step(Event::Begin), Some(Action::Finish { created: 0 }));
    assert_eq!(e.phase(), Phase::Completed);
}

#[test]
fn creations_come_in_the_order_of_the_file() {
    let mut e = engine(&["a", "x", "b", "y", "c"], &["x", "y"], false);
    assert_eq!(
        drive(&mut e, None),
        vec![
            Action::Create { index: 0 },
            Action::Create { index: 2 },
            Action::Create { index: 4 },
            Action::Finish { created: 3 },
        ]
    );
}

#[test]
fn a_failure_stops_the_run() {
    let mut e = engine(&["a", "x", "b", "c", "d"], &["x"], false);
    assert_eq!(
        drive(&mut e, Some(1)),
        vec![
            Action::Create { index: 0 },
            Action::Create { index: 2 },
            Action::Abort { index: 2, created: 1 },
        ]
    );
    assert_eq!(e.phase(), Phase::Aborted);
    assert_eq!(e.created(), 1);
    assert_eq!(e.definition(2).map(|d| d.0), Some(3));
    assert_eq!(e.step(Event::Done), None);
    assert_eq!(e.step(Event::Begin), None);
    assert_eq!(e.step(Event::Failed), None);
    assert_eq!(e.phase(), Phase::Aborted);
}

#[test]
fn a_failure_of_the_first_creation_reports_zero() {
    let mut e = engine(&["a", "b"], &[], false);
    assert_eq!(
        drive(&mut e, Some(0)),
        vec![Action::Create { index: 0 }, Action::Abort { index: 0, created: 0 }]
    );
}

#[test]
fn a_dry_run_announces_and_counts() {
    let mut e = engine(&["a", "x", "b"], &["x"], true);
    assert!(e.is_dry_run());
    assert_eq!(
        drive(&mut e, None),
        vec![
            Action::Announce { index: 0 },
            Action::Announce { index: 2 },
            Action::Finish { created: 2 },
        ]
    );
    assert_eq!(e.phase(), Phase::Completed);
}

#[test]
fn a_dry_run_takes_no_failure() {
    let mut e = engine(&["a"], &[], true);
    assert_eq!(e.step(Event::Begin), Some(Action::Announce { index: 0 }));
    assert_eq!(e.step(Event::Failed), None);
    assert_eq!(e.phase(), Phase::Running);
    assert_eq!(e.step(Event::Done), Some(Action::Finish { created: 1 }));
}

#[test]
fn a_repeated_name_is_asked_for_each_time() {
    let mut e = engine(&["a", "a"], &[], false);
    assert_eq!(
        drive(&mut e, None),
        vec![
            Action::Create { index: 0 },
            Action::Create { index: 1 },
            Action::Finish { created: 2 },
        ]
    );
}

#[test]
fn events_out_of_place_change_nothing() {
    let mut e = engine(&["a"], &[], false);
    assert_eq!(e.step(Event::Done), None);
    assert_eq!(e.step(Event::Failed), None);
    assert_eq!(e.phase(), Phase::NotStarted);
    assert_eq!(e.step(Event::Begin), Some(Action::Create { index: 0 }));
    assert_eq!(e.step(Event::Begin), None);
    assert_eq!(e.phase(), Phase::Running);
    assert_eq!(e.step(Event::Done), Some(Action::Finish { created: 1 }));
    assert_eq!(e.step(Event::Done), None);
    assert_eq!(e.step(Event::Begin), None);
    assert_eq!(e.phase(), Phase::Completed);
    assert_eq!(e.created(), 1);
}

#[test]
fn definition_out_of_range_is_none() {
    let e = engine(&["a"], &[], false);
    assert_eq!(e.definition(0), Some(&(1, topic("a"))));
    assert_eq!(e.definition(1), None);
}

#[test]
fn names_are_told_apart_exactly() {
    let existing = names(&["topicA", "topic"]);
    assert!(is_among(&existing, &"topicA".to_string()));
    assert!(is_among(&existing, &"topic".to_string()));
    assert!(!is_among(&existing, &"topica".to_string()));
    assert!(!is_among(&existing, &"topicAB".to_string()));
    assert!(!is_among(&Vec::new(), &"topic".to_string()));
}

#[test]
fn a_file_is_prepared_with_its_line_numbers() {
    let lines = names(&["# topics", "a,1,1", "", "b,3,2,x=y # new"]);
    let mut e = prepare(&lines, names(&["a"]), false).ok().unwrap();
    assert_eq!(e.step(Event::Begin), Some(Action::Create { index: 1 }));
    let (line_number, definition) = e.definition(1).unwrap();
    assert_eq!(*line_number, 4);
    assert_eq!(definition.topic_name, "b");
    assert_eq!(definition.partitions, 3);
    assert_eq!(definition.replication_factor, 2);
    assert_eq!(definition.additional_config, vec![("x".to_string(), "y".to_string())]);
    assert_eq!(e.step(Event::Done), Some(Action::Finish { created: 1 }));
}

#[test]
fn a_file_with_a_malformed_line_gives_no_engine() {
    let lines = names(&["a,1,1", "b,1,1", "c c,1,1", "d,1,1"]);
    let failure = prepare(&lines, Vec::new(), false).err().unwrap();
    assert_eq!(failure, ParseFailure { line_number: 3, raw_text: "c c,1,1".to_string() });
}
