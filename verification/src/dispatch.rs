//! Dispatch: from a pressed chord to what is to be done, and from how that
//! went to what the event loop is told.
//!
//! The dispatcher does not start programs or reach into the window manager
//! itself. It says what is to be done; whoever runs the event loop does it and
//! reports back, and the dispatcher turns the report into the result of the
//! key press. An error never goes further than the key press that caused it.

use vstd::prelude::*;
use crate::action::{copy_strings, texts, Action, ActionModel, Operation, OperationModel};
use crate::chord::{ChordModel, KeyChord};
use crate::table::KeyBindingTable;

verus! {

/// What a key press asks for.
#[derive(Debug, PartialEq, Eq)]
pub enum Effect {
    /// Nothing: the chord is unbound.
    Ignore,
    /// Start `command` with `args` as a process of its own, without waiting for it.
    Spawn { command: String, args: Vec<String> },
    /// Have the window manager carry out the operation.
    Invoke(Operation),
}

/// An effect as a value.
pub enum EffectModel {
    Ignore,
    Spawn { command: Seq<char>, args: Seq<Seq<char>> },
    Invoke(OperationModel),
}

impl View for Effect {
    type V = EffectModel;

    open spec fn view(&self) -> EffectModel {
        match self {
            Effect::Ignore => EffectModel::Ignore,
            Effect::Spawn { command, args } => EffectModel::Spawn {
                command: command@,
                args: texts(args@),
            },
            Effect::Invoke(operation) => EffectModel::Invoke(operation@),
        }
    }
}

/// What carrying out `action` asks for.
pub open spec fn effect_of_action(action: ActionModel) -> EffectModel {
    match action {
        ActionModel::RunExternal { command, args } => EffectModel::Spawn { command, args },
        ActionModel::RunInternal(operation) => EffectModel::Invoke(operation),
    }
}

/// What pressing `chord` asks for, given the bindings in `table`.
pub open spec fn effect_of(table: Map<ChordModel, ActionModel>, chord: ChordModel) -> EffectModel {
    if table.contains_key(chord) {
        effect_of_action(table[chord])
    } else {
        EffectModel::Ignore
    }
}

/// Why a key press failed.
#[derive(Debug, PartialEq, Eq)]
pub enum DispatchError {
    /// The program could not be started; the text says why.
    Spawn(String),
    /// The window manager could not carry out the operation; the text says why.
    InternalAction(String),
}

/// A dispatch error as a value.
pub enum DispatchErrorModel {
    Spawn(Seq<char>),
    InternalAction(Seq<char>),
}

impl View for DispatchError {
    type V = DispatchErrorModel;

    open spec fn view(&self) -> DispatchErrorModel {
        match self {
            DispatchError::Spawn(reason) => DispatchErrorModel::Spawn(reason@),
            DispatchError::InternalAction(reason) => DispatchErrorModel::InternalAction(reason@),
        }
    }
}

/// The result of a key press that asked for `effect`, where `failure` says why
/// carrying it out failed, if it did.
pub open spec fn outcome_of(effect: EffectModel, failure: Option<Seq<char>>) -> Result<
    (),
    DispatchErrorModel,
> {
    match (effect, failure) {
        (EffectModel::Spawn { .. }, Some(reason)) => Err(DispatchErrorModel::Spawn(reason)),
        (EffectModel::Invoke(_), Some(reason)) => Err(DispatchErrorModel::InternalAction(reason)),
        _ => Ok(()),
    }
}

/// The reason of a failure, as a value.
pub open spec fn reason_of(failure: Option<String>) -> Option<Seq<char>> {
    match failure {
        Some(reason) => Some(reason@),
        None => None,
    }
}

/// The result of a key press, as a value.
pub open spec fn result_model(result: Result<(), DispatchError>) -> Result<(), DispatchErrorModel> {
    match result {
        Ok(()) => Ok(()),
        Err(e) => Err(e@),
    }
}

/// The dispatcher: the table of bindings, asked once for each key press.
#[derive(Debug, PartialEq, Eq)]
pub struct Dispatcher {
    table: KeyBindingTable,
}

impl View for Dispatcher {
    type V = Map<ChordModel, ActionModel>;

    closed spec fn view(&self) -> Map<ChordModel, ActionModel> {
        self.table@
    }
}

impl Dispatcher {
    /// The dispatcher over `table`.
    pub fn new(table: KeyBindingTable) -> (dispatcher: Dispatcher)
        ensures
            dispatcher@ == table@,
    {
        Dispatcher { table }
    }

    /// The table of bindings.
    pub fn table(&self) -> (table: &KeyBindingTable)
        ensures
            table@ == self@,
    {
        &self.table
    }

    /// What pressing `chord` asks for: nothing where the chord is unbound, and
    /// otherwise what the action bound to it says.
    pub fn resolve(&self, chord: &KeyChord) -> (effect: Effect)
        ensures
            effect@ == effect_of(self@, chord@),
    {
        match self.table.lookup(chord) {
            None => Effect::Ignore,
            Some(Action::RunExternal { command, args }) => Effect::Spawn {
                command: command.clone(),
                args: copy_strings(args),
            },
            Some(Action::RunInternal(operation)) => Effect::Invoke(operation.clone()),
        }
    }
}

impl Dispatcher {
    /// Handles one key press: finds what pressing `chord` asks for, has
    /// `perform` carry it out, and says how the key press went.
    ///
    /// `perform` stands for the window manager and for the starting of
    /// programs: it is handed the effect and returns the reason where carrying
    /// it out failed. It is not called for an unbound chord, whose key press
    /// succeeds with nothing done. A failure becomes the error of this key
    /// press and of no other.
    pub fn dispatch<F: FnOnce(&Effect) -> Option<String>>(&self, chord: &KeyChord, perform: F) -> (result:
        Result<(), DispatchError>)
        requires
            forall|effect: &Effect|
                effect@ == effect_of(self@, chord@) ==> #[trigger] perform.requires((effect,)),
        ensures
            effect_of(self@, chord@) is Ignore ==> result is Ok,
            !(effect_of(self@, chord@) is Ignore) ==> exists|effect: &Effect, failure: Option<String>|
                {
                    &&& effect@ == effect_of(self@, chord@)
                    &&& #[trigger] perform.ensures((effect,), failure)
                    &&& result_model(result) == outcome_of(effect@, reason_of(failure))
                },
    {
        let effect = self.resolve(chord);
        match effect {
            Effect::Ignore => Ok(()),
            _ => {
                let failure = perform(&effect);
                conclude(&effect, failure)
            },
        }
    }
}

impl Effect {
    /// Whether the event loop ends once this has been carried out, after which
    /// every hook is torn down.
    pub fn ends_session(&self) -> (ends: bool)
        ensures
            ends == (self@ == EffectModel::Invoke(OperationModel::Exit)),
    {
        match self {
            Effect::Invoke(operation) => operation.ends_session(),
            _ => false,
        }
    }
}

/// The result of the key press that asked for `effect`. `failure` holds the
/// reason where carrying the effect out failed, and is `None` where it went
/// well or there was nothing to do.
pub fn conclude(effect: &Effect, failure: Option<String>) -> (result: Result<(), DispatchError>)
    ensures
        result_model(result) == outcome_of(effect@, reason_of(failure)),
{
    match failure {
        None => Ok(()),
        Some(reason) => match effect {
            Effect::Ignore => Ok(()),
            Effect::Spawn { .. } => Err(DispatchError::Spawn(reason)),
            Effect::Invoke(_) => Err(DispatchError::InternalAction(reason)),
        },
    }
}

/// An unbound chord asks for nothing, and the key press succeeds whatever is reported.
pub proof fn lemma_unbound_chord_succeeds(
    table: Map<ChordModel, ActionModel>,
    chord: ChordModel,
    failure: Option<Seq<char>>,
)
    requires
        !table.contains_key(chord),
    ensures
        effect_of(table, chord) == EffectModel::Ignore,
        outcome_of(effect_of(table, chord), failure) == Ok::<(), DispatchErrorModel>(()),
{
}

} // verus!
