//! The client's side of the protocol.
use vstd::prelude::*;
use vstd::string::*;

use crate::ipc::IpcError;
use crate::script_state::{ScriptStateResponse, WriteOutcome};
use crate::script_value::ScriptValue;
use crate::state::{QueryPayload, StateEvent, StateQueryKind};
use crate::text;
use crate::text::same;
use crate::windowset::{LayoutOp, WindowSet};
use crate::wire::Response;

verus! {

/// Why a call failed.
#[derive(Debug)]
pub enum ClientError {
    /// The daemon says so, with this message.
    Failed(String),
    /// The daemon answered something that was not asked for: the two do not speak
    /// the same protocol.
    Unexpected(Response),
}

impl ClientError {
    /// The failure tells this message.
    pub open spec fn tells(self, message: Seq<char>) -> bool {
        self matches ClientError::Failed(text) && text@ == message
    }
}

/// What a response holds, or why it does not.
pub open spec fn payload_in(response: Response) -> Result<QueryPayload, ClientError> {
    match response {
        Response::Query(payload) => Ok(payload),
        Response::Error(message) => Err(ClientError::Failed(message)),
        other => Err(ClientError::Unexpected(other)),
    }
}

/// The answer to a query.
pub fn query_payload(response: Response) -> (payload: Result<QueryPayload, ClientError>)
    ensures
        payload == payload_in(response),
{
    match response {
        Response::Query(payload) => Ok(payload),
        Response::Error(message) => Err(ClientError::Failed(message)),
        other => Err(ClientError::Unexpected(other)),
    }
}

/// What a response holds, or why it does not.
pub open spec fn set_in(response: Response) -> Result<Box<WindowSet>, ClientError> {
    match response {
        Response::WindowSet(set) => Ok(set),
        Response::Error(message) => Err(ClientError::Failed(message)),
        other => Err(ClientError::Unexpected(other)),
    }
}

/// The window set that was asked for.
pub fn window_set(response: Response) -> (set: Result<Box<WindowSet>, ClientError>)
    ensures
        set == set_in(response),
{
    match response {
        Response::WindowSet(set) => Ok(set),
        Response::Error(message) => Err(ClientError::Failed(message)),
        other => Err(ClientError::Unexpected(other)),
    }
}

/// What a response holds, or why it does not.
pub open spec fn answer_in(response: Response) -> Result<ScriptStateResponse, ClientError> {
    match response {
        Response::ScriptState(answer) => Ok(answer),
        Response::Error(message) => Err(ClientError::Failed(message)),
        other => Err(ClientError::Unexpected(other)),
    }
}

/// The answer about the table that scripts own.
pub fn script_state(response: Response) -> (answer: Result<ScriptStateResponse, ClientError>)
    ensures
        answer == answer_in(response),
{
    match response {
        Response::ScriptState(answer) => Ok(answer),
        Response::Error(message) => Err(ClientError::Failed(message)),
        other => Err(ClientError::Unexpected(other)),
    }
}

/// The value that was read. A stored nothing reads as if there were no value: a
/// script cannot tell the two apart.
pub fn state_get(response: Response) -> (value: Result<Option<ScriptValue>, ClientError>)
    ensures
        match response {
            Response::ScriptState(ScriptStateResponse::Value(found)) => value == Ok::<
                Option<ScriptValue>,
                ClientError,
            >(
                if found is Some && found->0 is Null {
                    None
                } else {
                    found
                },
            ),
            Response::ScriptState(ScriptStateResponse::Write(_)) => value is Err
                && value->Err_0.tells(
                "paneru.state.get: the daemon answered a read with a write outcome"@,
            ),
            Response::Error(message) => value == Err::<Option<ScriptValue>, ClientError>(
                ClientError::Failed(message),
            ),
            other => value == Err::<Option<ScriptValue>, ClientError>(
                ClientError::Unexpected(other),
            ),
        },
{
    match script_state(response) {
        Ok(ScriptStateResponse::Value(value)) => match value {
            Some(ScriptValue::Null) => Ok(None),
            value => Ok(value),
        },
        Ok(ScriptStateResponse::Write(_)) => Err(
            ClientError::Failed(
                "paneru.state.get: the daemon answered a read with a write outcome".to_owned(),
            ),
        ),
        Err(error) => Err(error),
    }
}

/// What became of a write.
pub fn state_write(response: Response) -> (outcome: Result<WriteOutcome, ClientError>)
    ensures
        match response {
            Response::ScriptState(ScriptStateResponse::Write(became)) => outcome == Ok::<
                WriteOutcome,
                ClientError,
            >(became),
            Response::ScriptState(ScriptStateResponse::Value(_)) => outcome is Err
                && outcome->Err_0.tells("paneru.state: the daemon answered a write with a value"@),
            Response::Error(message) => outcome == Err::<WriteOutcome, ClientError>(
                ClientError::Failed(message),
            ),
            other => outcome == Err::<WriteOutcome, ClientError>(ClientError::Unexpected(other)),
        },
{
    match script_state(response) {
        Ok(ScriptStateResponse::Write(outcome)) => Ok(outcome),
        Ok(ScriptStateResponse::Value(_)) => Err(
            ClientError::Failed(
                "paneru.state: the daemon answered a write with a value".to_owned(),
            ),
        ),
        Err(error) => Err(error),
    }
}

/// What is said where the daemon cannot be reached: an absent daemon is by far the
/// most common failure, so it has words of its own.
pub fn connect_failure(error: IpcError) -> (failure: Result<IpcError, ClientError>)
    ensures
        error is NotRunning ==> failure is Err && failure->Err_0.tells(
            "paneru is not running"@,
        ),
        !(error is NotRunning) ==> failure == Ok::<IpcError, ClientError>(error),
{
    match error {
        IpcError::NotRunning => Err(ClientError::Failed("paneru is not running".to_owned())),
        other => Ok(other),
    }
}

/// What a subscriber does with what came.
#[derive(Debug)]
pub enum SubscriptionStep {
    /// Shows the event and goes on.
    Show(StateEvent),
    /// Ends: the daemon is gone, which is how a subscription ends.
    End,
    /// Ends with a failure.
    Fail(IpcError),
}

/// What is done about a delivery.
pub open spec fn step_on(delivery: Option<Result<StateEvent, IpcError>>) -> SubscriptionStep {
    match delivery {
        Some(Ok(event)) => SubscriptionStep::Show(event),
        Some(Err(IpcError::PeerGone)) => SubscriptionStep::End,
        Some(Err(error)) => SubscriptionStep::Fail(error),
        None => SubscriptionStep::End,
    }
}

/// What to do with what came on a subscription.
pub fn subscription_step(delivery: Option<Result<StateEvent, IpcError>>) -> (step: SubscriptionStep)
    ensures
        step == step_on(delivery),
{
    match delivery {
        Some(Ok(event)) => SubscriptionStep::Show(event),
        Some(Err(IpcError::PeerGone)) => SubscriptionStep::End,
        Some(Err(error)) => SubscriptionStep::Fail(error),
        None => SubscriptionStep::End,
    }
}

/// The query that a script names, which is the whole state where it names none.
pub fn read_kind(kind: Option<&str>) -> (read: Result<StateQueryKind, String>)
    ensures
        match kind {
            None => read == Ok::<StateQueryKind, String>(StateQueryKind::State),
            Some(token) => match read {
                Ok(found) => found.spec_token() == token@,
                Err(message) => (forall|k: StateQueryKind| #[trigger] k.spec_token() != token@)
                    && message@ == "unknown query '"@ + token@
                    + "', expected one of state, virtual-workspaces, active"@,
            },
        },
{
    match kind {
        None => Ok(StateQueryKind::State),
        Some(token) => match StateQueryKind::parse(token) {
            Some(found) => Ok(found),
            None => {
                let mut message = "unknown query '".to_owned();
                message.append(token);
                message.append("', expected one of state, virtual-workspaces, active");
                Err(message)
            },
        },
    }
}

/// The event is one of those that are asked for.
pub open spec fn is_wanted(wanted: Option<Vec<String>>, event: StateEvent) -> bool {
    match wanted {
        Some(names) => text::texts(names@).contains(event.spec_name()),
        None => true,
    }
}

/// Whether a subscriber wants an event: it is one of those that it named, or it
/// named none.
pub fn wants_event(wanted: &Option<Vec<String>>, event: &StateEvent) -> (wants: bool)
    ensures
        wants == is_wanted(*wanted, *event),
{
    let names = match wanted {
        Some(names) => names,
        None => return true,
    };
    let name = event.name();
    let ghost view = text::texts(names@);
    let mut i: usize = 0;
    while i < names.len()
        invariant
            i <= names.len(),
            view == text::texts(names@),
            *wanted == Some(*names),
            name@ == event.spec_name(),
            forall|j: int| 0 <= j < i ==> #[trigger] view[j] != event.spec_name(),
        decreases names.len() - i,
    {
        assert(view[i as int] == names@[i as int]@);
        if same(names[i].as_str(), name) {
            assert(view[i as int] == event.spec_name());
            return true;
        }
        i = i + 1;
    }
    false
}

/// The operations that are sent after a transform, if it asked for any.
pub fn ops_to_send(ops: Vec<LayoutOp>) -> (send: Option<Vec<LayoutOp>>)
    ensures
        send == if ops.len() == 0 {
            None
        } else {
            Some(ops)
        },
{
    if ops.len() == 0 {
        None
    } else {
        Some(ops)
    }
}

} // verus!
