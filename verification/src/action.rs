//! What a key binding does when its chord is pressed.

use vstd::prelude::*;

verus! {

/// The way in which a cycling operation moves.
#[derive(Clone, Copy, Debug, PartialEq, Eq, Structural)]
pub enum Direction {
    Forward,
    Backward,
}

/// The way in which an adjusting operation changes a layout parameter.
#[derive(Clone, Copy, Debug, PartialEq, Eq, Structural)]
pub enum Magnitude {
    Increase,
    Decrease,
}

/// An operation of the window manager, with the parameter it takes.
#[derive(Debug, PartialEq, Eq)]
pub enum Operation {
    Exit,
    CycleClient(Direction),
    DragClient(Direction),
    ToggleFullscreen,
    KillClient,
    ToggleWorkspace,
    CycleWorkspace(Direction),
    CycleLayout(Direction),
    AdjustMainCount(Magnitude),
    AdjustMainRatio(Magnitude),
    FocusWorkspace(String),
    SendClientToWorkspace(String),
}

/// An operation as a value.
pub enum OperationModel {
    Exit,
    CycleClient(Direction),
    DragClient(Direction),
    ToggleFullscreen,
    KillClient,
    ToggleWorkspace,
    CycleWorkspace(Direction),
    CycleLayout(Direction),
    AdjustMainCount(Magnitude),
    AdjustMainRatio(Magnitude),
    FocusWorkspace(Seq<char>),
    SendClientToWorkspace(Seq<char>),
}

impl View for Operation {
    type V = OperationModel;

    open spec fn view(&self) -> OperationModel {
        match self {
            Operation::Exit => OperationModel::Exit,
            Operation::CycleClient(d) => OperationModel::CycleClient(*d),
            Operation::DragClient(d) => OperationModel::DragClient(*d),
            Operation::ToggleFullscreen => OperationModel::ToggleFullscreen,
            Operation::KillClient => OperationModel::KillClient,
            Operation::ToggleWorkspace => OperationModel::ToggleWorkspace,
            Operation::CycleWorkspace(d) => OperationModel::CycleWorkspace(*d),
            Operation::CycleLayout(d) => OperationModel::CycleLayout(*d),
            Operation::AdjustMainCount(m) => OperationModel::AdjustMainCount(*m),
            Operation::AdjustMainRatio(m) => OperationModel::AdjustMainRatio(*m),
            Operation::FocusWorkspace(tag) => OperationModel::FocusWorkspace(tag@),
            Operation::SendClientToWorkspace(tag) => OperationModel::SendClientToWorkspace(tag@),
        }
    }
}

impl Clone for Operation {
    fn clone(&self) -> (copy: Self)
        ensures
            copy@ == self@,
    {
        match self {
            Operation::Exit => Operation::Exit,
            Operation::CycleClient(d) => Operation::CycleClient(*d),
            Operation::DragClient(d) => Operation::DragClient(*d),
            Operation::ToggleFullscreen => Operation::ToggleFullscreen,
            Operation::KillClient => Operation::KillClient,
            Operation::ToggleWorkspace => Operation::ToggleWorkspace,
            Operation::CycleWorkspace(d) => Operation::CycleWorkspace(*d),
            Operation::CycleLayout(d) => Operation::CycleLayout(*d),
            Operation::AdjustMainCount(m) => Operation::AdjustMainCount(*m),
            Operation::AdjustMainRatio(m) => Operation::AdjustMainRatio(*m),
            Operation::FocusWorkspace(tag) => Operation::FocusWorkspace(tag.clone()),
            Operation::SendClientToWorkspace(tag) => Operation::SendClientToWorkspace(tag.clone()),
        }
    }
}

impl Operation {
    /// Whether the operation ends the event loop, after which every hook is torn down.
    pub fn ends_session(&self) -> (ends: bool)
        ensures
            ends == (self@ is Exit),
    {
        match self {
            Operation::Exit => true,
            _ => false,
        }
    }
}

/// An operation that takes a workspace tag, before a tag is given to it.
#[derive(Clone, Copy, Debug, PartialEq, Eq, Structural)]
pub enum TagOperation {
    FocusWorkspace,
    SendClientToWorkspace,
}

impl TagOperation {
    /// The operation on the workspace `tag`.
    pub open spec fn on(self, tag: Seq<char>) -> OperationModel {
        match self {
            TagOperation::FocusWorkspace => OperationModel::FocusWorkspace(tag),
            TagOperation::SendClientToWorkspace => OperationModel::SendClientToWorkspace(tag),
        }
    }

    /// The operation on the workspace `tag`.
    pub fn apply(&self, tag: &str) -> (operation: Operation)
        ensures
            operation@ == self.on(tag@),
    {
        match self {
            TagOperation::FocusWorkspace => Operation::FocusWorkspace(String::from_str(tag)),
            TagOperation::SendClientToWorkspace => Operation::SendClientToWorkspace(
                String::from_str(tag),
            ),
        }
    }
}

/// The texts that `strings` hold, in order.
pub open spec fn texts(strings: Seq<String>) -> Seq<Seq<char>> {
    Seq::new(strings.len(), |i: int| strings[i]@)
}

/// A copy of `strings` that holds the same texts.
pub fn copy_strings(strings: &Vec<String>) -> (copy: Vec<String>)
    ensures
        texts(copy@) == texts(strings@),
{
    let mut copy: Vec<String> = Vec::new();
    let mut i: usize = 0;
    while i < strings.len()
        invariant
            i <= strings.len(),
            copy.len() == i,
            forall|k: int| 0 <= k < i ==> copy@[k]@ == strings@[k]@,
        decreases strings.len() - i,
    {
        copy.push(strings[i].clone());
        i += 1;
    }
    assert(texts(copy@) =~= texts(strings@));
    copy
}

/// What a binding does: start a program, or have the window manager do something.
#[derive(Debug, PartialEq, Eq)]
pub enum Action {
    RunExternal { command: String, args: Vec<String> },
    RunInternal(Operation),
}

/// An action as a value.
pub enum ActionModel {
    RunExternal { command: Seq<char>, args: Seq<Seq<char>> },
    RunInternal(OperationModel),
}

impl View for Action {
    type V = ActionModel;

    open spec fn view(&self) -> ActionModel {
        match self {
            Action::RunExternal { command, args } => ActionModel::RunExternal {
                command: command@,
                args: texts(args@),
            },
            Action::RunInternal(operation) => ActionModel::RunInternal(operation@),
        }
    }
}

impl Clone for Action {
    fn clone(&self) -> (copy: Self)
        ensures
            copy@ == self@,
    {
        match self {
            Action::RunExternal { command, args } => Action::RunExternal {
                command: command.clone(),
                args: copy_strings(args),
            },
            Action::RunInternal(operation) => Action::RunInternal(operation.clone()),
        }
    }
}

} // verus!
