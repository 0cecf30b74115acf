//! What the daemon and its clients say to each other.
use vstd::prelude::*;
use vstd::string::*;

use crate::commands::Command;
use crate::script_state::{ScriptStateRequest, ScriptStateResponse};
use crate::state::{QueryPayload, StateQueryKind};
use crate::windowset::{LayoutOp, WindowSet};

verus! {

/// The name that the daemon claims and its clients look up.
pub const SERVICE_NAME: &'static str = "com.github.karinushka.paneru";

/// The name that a service goes by, unless another one is asked for.
pub open spec fn name_of(asked: Option<String>) -> Seq<char> {
    match asked {
        Some(asked) => asked@,
        None => SERVICE_NAME@,
    }
}

/// The name to claim or look up: the one that the environment asks for, so that a
/// development build can run beside an installed one, else [`SERVICE_NAME`].
pub fn service_name(asked: Option<String>) -> (name: String)
    ensures
        name@ == name_of(asked),
{
    match asked {
        Some(asked) => asked,
        None => SERVICE_NAME.to_owned(),
    }
}

/// The encoding between the processes: `MessagePack`, with the fields of a value
/// by their names.
#[derive(Clone, Copy, Debug, PartialEq, Eq, Structural)]
pub struct MessagePack;

/// Something that a client asks the daemon to do.
#[derive(Debug)]
pub enum Request {
    /// Run a command. There is no answer: a client that wants the result asks for
    /// it.
    Command(Command),
    /// Read part of the state document.
    Query(StateQueryKind),
    /// Read the window set.
    WindowSet,
    /// Replay what a transform of the window set recorded. There is no answer.
    WindowSetApply(Vec<LayoutOp>),
    /// Read or write the table that scripts own.
    ScriptState(ScriptStateRequest),
    /// Be told events as they happen.
    Subscribe,
}

/// What the daemon says back.
#[derive(Debug)]
pub enum Response {
    Query(QueryPayload),
    WindowSet(Box<WindowSet>),
    ScriptState(ScriptStateResponse),
    /// The request could not be answered. Tells what a client should show.
    Error(String),
}

impl Request {
    /// The request is answered.
    pub open spec fn spec_is_answered(self) -> bool {
        self is Query || self is WindowSet || self is ScriptState
    }

    /// Whether the request is answered: a command and a replay are not, and a
    /// subscription is told events instead.
    pub fn is_answered(&self) -> (answered: bool)
        ensures
            answered == self.spec_is_answered(),
    {
        match self {
            Request::Query(_) => true,
            Request::WindowSet => true,
            Request::ScriptState(_) => true,
            _ => false,
        }
    }
}

} // verus!
