use wmkit::action::{Action, Direction, Operation, TagOperation};
use wmkit::chord::KeyChord;
use wmkit::dispatch::{conclude, DispatchError, Dispatcher, Effect};
use wmkit::table::{Entry, KeyBindingTable};
use wmkit::tags::TagList;

fn chord(text: &str) -> KeyChord {
    KeyChord::parse(text).unwrap()
}

fn dispatcher() -> Dispatcher {
    let tags: Vec<String> = (1..=9).map(|n| n.to_string()).collect();
    let entries = vec![
        Entry::Bind {
            pattern: "M-j".to_string(),
            action: Action::RunInternal(Operation::CycleClient(Direction::Forward)),
        },
        Entry::Bind {
            pattern: "M-k".to_string(),
            action: Action::RunInternal(Operation::CycleClient(Direction::Backward)),
        },
        Entry::MapOver {
            pattern: "M-{}".to_string(),
            operation: TagOperation::FocusWorkspace,
            tags: TagList::new(tags).unwrap(),
        },
        Entry::Bind {
            pattern: "M-Return".to_string(),
            action: Action::RunExternal {
                command: "alacritty".to_string(),
                args: vec!["-e".to_string(), "tmux".to_string()],
            },
        },
        Entry::Bind {
            pattern: "M-A-C-Escape".to_string(),
            action: Action::RunInternal(Operation::Exit),
        },
    ];
    Dispatcher::new(KeyBindingTable::build(&entries).unwrap())
}

#[test]
fn a_mapped_chord_invokes_the_operation_on_its_tag() {
    let effect = dispatcher().resolve(&chord("M-3"));
    assert_eq!(effect, Effect::Invoke(Operation::FocusWorkspace("3".to_string())));
    assert_eq!(conclude(&effect, None), Ok(()));
}

#[test]
fn a_bound_chord_invokes_its_operation() {
    let d = dispatcher();
    assert_eq!(
        d.resolve(&chord("M-j")),
        Effect::Invoke(Operation::CycleClient(Direction::Forward))
    );
    assert_eq!(
        d.resolve(&chord("M-k")),
        Effect::Invoke(Operation::CycleClient(Direction::Backward))
    );
}

#[test]
fn an_unbound_chord_is_ignored_and_succeeds() {
    let effect = dispatcher().resolve(&chord("M-z"));
    assert_eq!(effect, Effect::Ignore);
    assert_eq!(conclude(&effect, None), Ok(()));
    assert_eq!(conclude(&effect, Some("nothing was done".to_string())), Ok(()));
}

#[test]
fn an_external_action_asks_for_a_process() {
    let effect = dispatcher().resolve(&chord("M-Return"));
    assert_eq!(
        effect,
        Effect::Spawn {
            command: "alacritty".to_string(),
            args: vec!["-e".to_string(), "tmux".to_string()],
        }
    );
}

#[test]
fn a_failed_spawn_is_a_spawn_error() {
    let effect = dispatcher().resolve(&chord("M-Return"));
    assert_eq!(
        conclude(&effect, Some("No such file or directory".to_string())),
        Err(DispatchError::Spawn("No such file or directory".to_string()))
    );
    assert_eq!(conclude(&effect, None), Ok(()));
}

#[test]
fn a_failed_operation_is_an_internal_action_error() {
    let effect = dispatcher().resolve(&chord("M-j"));
    assert_eq!(
        conclude(&effect, Some("no focused client".to_string())),
        Err(DispatchError::InternalAction("no focused client".to_string()))
    );
    assert_eq!(conclude(&effect, None), Ok(()));
}

#[test]
fn a_failure_does_not_change_what_later_presses_ask_for() {
    let d = dispatcher();
    let first = d.resolve(&chord("M-j"));
    assert!(conclude(&first, Some("no focused client".to_string())).is_err());
    assert_eq!(d.resolve(&chord("M-j")), first);
    assert_eq!(d.resolve(&chord("M-3")), Effect::Invoke(Operation::FocusWorkspace("3".to_string())));
}

#[test]
fn only_exit_ends_the_session() {
    let d = dispatcher();
    assert!(d.resolve(&chord("M-A-C-Escape")).ends_session());
    assert!(!d.resolve(&chord("M-j")).ends_session());
    assert!(!d.resolve(&chord("M-Return")).ends_session());
    assert!(!d.resolve(&chord("M-z")).ends_session());
    assert!(Operation::Exit.ends_session());
    assert!(!Operation::KillClient.ends_session());
}

#[test]
fn the_dispatcher_holds_the_table_it_was_given() {
    let d = dispatcher();
    assert_eq!(d.table().len(), 13);
    assert_eq!(
        d.table().lookup(&chord("M-9")),
        Some(&Action::RunInternal(Operation::FocusWorkspace("9".to_string())))
    );
}

#[test]
fn dispatching_hands_the_effect_to_the_performer() {
    let d = dispatcher();
    let mut performed: Vec<Effect> = Vec::new();
    for pressed in ["M-3", "M-j", "M-z", "M-k"] {
        let result = d.dispatch(&chord(pressed), |effect| {
            performed.push(match effect {
                Effect::Ignore => Effect::Ignore,
                Effect::Spawn { command, args } => {
                    Effect::Spawn { command: command.clone(), args: args.clone() }
                }
                Effect::Invoke(operation) => Effect::Invoke(operation.clone()),
            });
            None
        });
        assert_eq!(result, Ok(()));
    }
    assert_eq!(
        performed,
        vec![
            Effect::Invoke(Operation::FocusWorkspace("3".to_string())),
            Effect::Invoke(Operation::CycleClient(Direction::Forward)),
            Effect::Invoke(Operation::CycleClient(Direction::Backward)),
        ]
    );
}

#[test]
fn dispatching_an_unbound_chord_performs_nothing() {
    let mut called = false;
    let result = dispatcher().dispatch(&chord("M-z"), |_| {
        called = true;
        Some("must not be asked".to_string())
    });
    assert_eq!(result, Ok(()));
    assert!(!called);
}

#[test]
fn dispatching_reports_the_failure_of_this_press_only() {
    let d = dispatcher();
    let failing = |_: &Effect| Some("no focused client".to_string());
    assert_eq!(
        d.dispatch(&chord("M-j"), failing),
        Err(DispatchError::InternalAction("no focused client".to_string()))
    );
    assert_eq!(
        d.dispatch(&chord("M-Return"), |_| Some("not found".to_string())),
        Err(DispatchError::Spawn("not found".to_string()))
    );
    assert_eq!(d.dispatch(&chord("M-j"), |_| None), Ok(()));
}
