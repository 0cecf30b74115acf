//! What is said between the window manager and its clients and scripts.
use vstd::prelude::*;

use crate::client;
use crate::client::{ClientError, SubscriptionStep};
use crate::display;
use crate::entries;
use crate::geometry::Entity;
use crate::ipc;
use crate::ipc::IpcError;
use crate::json;
use crate::json::JsonModel;
use crate::laws::places;
use crate::layout;
use crate::layout::ColumnModel;
use crate::script_state;
use crate::script_state::{
    OutcomeModel, SavedScriptState, ScriptStateRequest, ScriptStateResponse, ScriptStateWrite,
    WriteModel, WriteOutcome,
};
use crate::script_value::convert;
use crate::script_value::{ScriptValue, Value};
use crate::search;
use crate::state::{QueryPayload, QueryState, StateEvent, StateQueryKind};
use crate::width_ratio;
use crate::wire;
use crate::wire::{Request, Response};

verus! {

/// A query is answered with what it asks for.
pub proof fn law_query_is_answered_in_kind(state: QueryState)
    ensures
        state.payload_for(StateQueryKind::State) == QueryPayload::State(Box::new(state)),
        state.payload_for(StateQueryKind::VirtualWorkspaces) == QueryPayload::VirtualWorkspaces(
            state.virtual_workspaces,
        ),
        state.payload_for(StateQueryKind::Active) == QueryPayload::Active(Box::new(state.active)),
{
}

/// A response is taken for what it is: what was asked for, a failure with its message, or
/// something that was not expected.
pub proof fn law_response_is_taken_for_what_it_is(response: Response)
    ensures
        response is Query ==> client::payload_in(response) is Ok && client::payload_in(
            response,
        )->Ok_0 == response->Query_0,
        response is WindowSet ==> client::set_in(response) is Ok && client::set_in(response)->Ok_0
            == response->WindowSet_0,
        response is ScriptState ==> client::answer_in(response) is Ok && client::answer_in(
            response,
        )->Ok_0 == response->ScriptState_0,
        response is Error ==> client::payload_in(response) is Err && client::payload_in(
            response,
        )->Err_0 == ClientError::Failed(response->Error_0) && client::set_in(response) is Err
            && client::answer_in(response) is Err,
        response is WindowSet || response is ScriptState ==> client::payload_in(response) is Err
            && client::payload_in(response)->Err_0 == ClientError::Unexpected(response),
        response is Query || response is ScriptState ==> client::set_in(response) is Err
            && client::set_in(response)->Err_0 == ClientError::Unexpected(response),
        response is Query || response is WindowSet ==> client::answer_in(response) is Err
            && client::answer_in(response)->Err_0 == ClientError::Unexpected(response),
{
}

/// A subscription shows what is delivered and ends when the peer has gone; any other
/// failure is one.
pub proof fn law_subscription_ends_with_its_peer(event: StateEvent, error: IpcError)
    ensures
        client::step_on(Some(Ok(event))) == SubscriptionStep::Show(event),
        client::step_on(None) == SubscriptionStep::End,
        client::step_on(Some(Err(IpcError::PeerGone))) == SubscriptionStep::End,
        !(error is PeerGone) ==> client::step_on(Some(Err(error))) == SubscriptionStep::Fail(error),
        client::is_wanted(None, event),
{
}

/// A subscriber stays until it has gone; a send is over unless it would block.
pub proof fn law_subscriber_stays_until_gone(error: IpcError)
    ensures
        ipc::is_kept(Ok(())),
        ipc::is_kept(Err(error)) <==> !(error is PeerGone),
        ipc::done_after(Ok(())) == Some(Ok::<(), IpcError>(())),
        error is WouldBlock ==> ipc::done_after(Err(error)) is None,
        !(error is WouldBlock) ==> ipc::done_after(Err(error)) == Some(Err::<(), IpcError>(error)),
{
}

/// A write lands where it has a key, what it expects is there and there is room for it;
/// it says whether anything changed.
pub proof fn law_write_lands_where_it_may(
    before: Seq<(Seq<char>, Value)>,
    write: WriteModel,
    oversized: bool,
    after: Seq<(Seq<char>, Value)>,
    outcome: Result<WriteOutcome, String>,
)
    requires
        script_state::is_applied(before, write, oversized, after, outcome),
        entries::is_sorted(before),
    ensures
        ({
            let current = entries::lookup(before, write.key);
            let expected = write.expected is None || write.expected->0 == current;
            &&& write.key.len() == 0 ==> outcome is Err
            &&& write.key.len() > 0 && !expected ==> outcome is Ok && outcome->Ok_0@ == (
            OutcomeModel::Conflict { current })
            &&& write.key.len() > 0 && expected && write.value == current ==> outcome is Ok
                && outcome->Ok_0@ == (OutcomeModel::Applied { changed: false }) && after == before
            &&& write.key.len() > 0 && expected && write.value != current && !oversized ==> outcome
                is Ok && outcome->Ok_0@ == (OutcomeModel::Applied { changed: true })
            &&& write.key.len() > 0 && expected && write.value != current && write.value is None
                ==> outcome is Ok && outcome->Ok_0@ == (OutcomeModel::Applied { changed: true })
            &&& write.key.len() > 0 && expected && write.value != current && write.value is Some
                && oversized ==> outcome is Err && after == before
        }),
{
}

/// A table is loaded as it was saved, where its version is one that can be read.
pub proof fn law_saved_table_is_loaded(saved: SavedScriptState)
    ensures
        script_state::loaded(None).len() == 0,
        saved.version == 1 ==> script_state::loaded(Some(saved)) == saved.state@,
        saved.version != 1 ==> script_state::loaded(Some(saved)).len() == 0,
{
}

/// A flattened document has the fields of its payload beside its kind; a payload that has
/// none is kept under `value`, and a missing one leaves just the kind.
pub proof fn law_flattened_keeps_the_payload(
    kind: Seq<char>,
    payload: JsonModel,
    tag: Seq<char>,
    name: Seq<char>,
)
    requires
        name != tag,
        payload matches JsonModel::Object(fields) ==> entries::is_sorted(fields),
    ensures
        ({
            let flat = json::flattened(JsonModel::Object(seq![(kind, payload)]), tag);
            &&& flat is Object
            &&& payload is Object ==> entries::lookup(flat->Object_0, name) == entries::lookup(
                payload->Object_0,
                name,
            )
            &&& payload is Null ==> flat->Object_0 == seq![(tag, JsonModel::Text(kind))]
            &&& !(payload is Object) && !(payload is Null) && name == "value"@ ==> entries::lookup(
                flat->Object_0,
                name,
            ) == Some(payload)
        }),
        !(payload is Object) ==> json::flattened(payload, tag) == payload,
{
    let outer = seq![(kind, payload)];
    let first = seq![(tag, JsonModel::Text(kind))];
    assert(outer[0] == (kind, payload));
    assert(entries::is_sorted(first));
    search::lemma_no_first_index(first, entries::named(name));
    match payload {
        JsonModel::Object(fields) => {
            lemma_overlaid(first, fields, name);
        },
        JsonModel::Null => {},
        other => {
            entries::law_with_sets_one(first, "value"@, other, name);
        },
    }
}

/// Fields that are put over others are found, and so are those that none was put over.
proof fn lemma_overlaid(
    fields: Seq<(Seq<char>, JsonModel)>,
    others: Seq<(Seq<char>, JsonModel)>,
    name: Seq<char>,
)
    requires
        entries::is_sorted(fields),
        entries::is_sorted(others),
        entries::lookup(fields, name) is None,
    ensures
        entries::is_sorted(json::overlaid(fields, others)),
        entries::lookup(json::overlaid(fields, others), name) == entries::lookup(others, name),
    decreases others.len(),
{
    let f = entries::named::<JsonModel>(name);
    if others.len() > 0 {
        let n = others.len() - 1;
        let front = others.drop_last();
        let last = others.last();
        assert forall|i: int, j: int| 0 <= i < j < front.len() implies entries::before(
            (#[trigger] front[i]).0,
            (#[trigger] front[j]).0,
        ) by {
            assert(front[i] == others[i] && front[j] == others[j]);
        }
        lemma_overlaid(fields, front, name);
        entries::law_with_sets_one(json::overlaid(fields, front), last.0, last.1, name);
        if last.0 == name {
            assert forall|j: int| 0 <= j < n implies !f(#[trigger] others[j]) by {
                entries::lemma_before_total(others[j].0, others[n].0);
            }
            search::lemma_first_index(others, f, n as int);
        } else {
            search::lemma_first_index_meaning(front, f);
            match search::first_index(front, f) {
                Some(i) => {
                    assert(others[i] == front[i]);
                    assert forall|j: int| 0 <= j < i implies !f(#[trigger] others[j]) by {
                        assert(others[j] == front[j]);
                    }
                    search::lemma_first_index(others, f, i);
                },
                None => {
                    assert forall|j: int| 0 <= j < others.len() implies !f(
                        #[trigger] others[j],
                    ) by {
                        if j < n {
                            assert(others[j] == front[j]);
                        }
                    }
                    search::lemma_no_first_index(others, f);
                },
            }
        }
    } else {
        search::lemma_no_first_index(others, f);
    }
}

/// The width of a window is measured by the display that its strip is on.
pub proof fn law_width_is_measured_by_its_display(
    window: Entity,
    width: i32,
    strips: Seq<(Seq<ColumnModel>, i32)>,
    s: int,
    i: int,
    p: int,
)
    requires
        0 <= s < strips.len(),
        strips[s].1 > 0,
        places::only_at(strips[s].0, window, i, p),
        forall|t: int| 0 <= t < s ==> places::is_absent((#[trigger] strips[t]).0, window),
    ensures
        width_ratio::ratio_of(window, width, strips) == Some((width, strips[s].1)),
{
    let f = width_ratio::owns(window);
    places::law_window_is_found_where_it_stands(strips[s].0, window, i, p);
    assert forall|t: int| 0 <= t < s implies !f(#[trigger] strips[t]) by {
        places::law_absent_window_is_not_found(strips[t].0, window);
    }
    search::lemma_first_index(strips, f, s);
}

/// The panels beside a window come from the nearest on.
pub proof fn law_nearest_panels_come_first(panels: Seq<ColumnModel>, at: int, k: int)
    requires
        0 <= at < panels.len(),
    ensures
        display::right_of(panels, at).len() == panels.len() - at - 1,
        display::left_of(panels, at).len() == at,
        0 <= k && at + 1 + k < panels.len() ==> display::right_of(panels, at)[k] == panels[at + 1
            + k],
        0 <= k < at ==> display::left_of(panels, at)[k] == panels[at - 1 - k],
{
}

/// A reply is shown with what it tells: a value, whether a write changed something, what
/// is there instead, or the message of a failure.
pub proof fn law_reply_is_shown(
    value: Option<ScriptValue>,
    changed: bool,
    message: String,
)
    ensures
        script_state::reply_document(Err(message)) == JsonModel::Object(
            seq![("error"@, JsonModel::Text(message@))],
        ),
        script_state::reply_document(
            Ok(ScriptStateResponse::Write(WriteOutcome::Applied { changed })),
        ) == JsonModel::Object(
            seq![("changed"@, JsonModel::Bool(changed)), ("ok"@, JsonModel::Bool(true))],
        ),
        script_state::reply_document(
            Ok(ScriptStateResponse::Write(WriteOutcome::Conflict { current: None })),
        ) == JsonModel::Object(
            seq![("conflict"@, JsonModel::Bool(true)), ("current"@, JsonModel::Null)],
        ),
        script_state::reply_document(Ok(ScriptStateResponse::Value(None))) == JsonModel::Object(
            seq![("value"@, JsonModel::Null)],
        ),
        value is Some ==> script_state::reply_document(Ok(ScriptStateResponse::Value(value)))
            == JsonModel::Object(seq![("value"@, convert::shown(value->0.model()))]),
{
}

/// A table has a new revision after a change, and the same one without.
pub proof fn law_change_makes_a_revision(revision: u64)
    ensures
        script_state::revision_after(revision, false) == revision,
        revision < u64::MAX ==> script_state::revision_after(revision, true) == revision + 1,
        script_state::revision_after(revision, true) != revision,
{
}

/// Just the requests that ask for something are answered.
pub proof fn law_questions_are_answered(request: Request, name: String)
    ensures
        request.spec_is_answered() <==> request is Query || request is WindowSet || request
            is ScriptState,
        request is Command || request is WindowSetApply || request is Subscribe
            ==> !request.spec_is_answered(),
        wire::name_of(Some(name)) == name@,
        wire::name_of(None) == "com.github.karinushka.paneru"@,
{
}

/// A change is to be saved until it is, also when nothing changes after it.
pub proof fn law_change_stays_to_be_saved(dirty: bool, changed: bool)
    ensures
        script_state::dirty_after(dirty, true),
        script_state::dirty_after(true, changed),
        !script_state::dirty_after(false, false),
{
}

/// What is asked for after a write that was carried out is what was written; a key that
/// was not written has what it had, and asking changes nothing.
pub proof fn law_answer_tells_what_was_written(
    before: Seq<(Seq<char>, Value)>,
    write: ScriptStateWrite,
    oversized: bool,
    between: Seq<(Seq<char>, Value)>,
    written: Result<ScriptStateResponse, String>,
    key: String,
    after: Seq<(Seq<char>, Value)>,
    reply: Result<ScriptStateResponse, String>,
)
    requires
        entries::is_sorted(before),
        script_state::answers(
            before,
            ScriptStateRequest::Write(write),
            oversized,
            between,
            written,
        ),
        script_state::answers(between, ScriptStateRequest::Get { key }, oversized, after, reply),
    ensures
        after == between,
        reply is Ok,
        reply->Ok_0 is Value,
        written is Ok ==> written->Ok_0 is Write,
        ({
            let told = script_state::optional(reply->Ok_0->Value_0);
            let landed = written is Ok && written->Ok_0->Write_0@ is Applied;
            &&& landed && key@ == write@.key ==> told == write@.value
            &&& !landed || key@ != write@.key ==> told == entries::lookup(before, key@)
        }),
{
    if written is Ok && written->Ok_0->Write_0@ is Applied {
        script_state::law_read_gives_back_what_was_written(
            before,
            write@,
            oversized,
            between,
            Ok(written->Ok_0->Write_0),
            key@,
        );
    }
}

/// The write of a transformed value lands just where the value is still there. One that
/// lost the race is made anew with the value that is there, which then lands.
pub proof fn law_transformed_value_lands_once(
    state: Seq<(Seq<char>, Value)>,
    key: Seq<char>,
    current: Option<Value>,
    next: Option<Value>,
    oversized: bool,
    after: Seq<(Seq<char>, Value)>,
    outcome: Result<WriteOutcome, String>,
    again: Option<Value>,
)
    requires
        entries::is_sorted(state),
        key.len() > 0,
        script_state::is_applied(
            state,
            script_state::transformed(key, current, next),
            oversized,
            after,
            outcome,
        ),
    ensures
        (outcome is Ok && outcome->Ok_0@ is Conflict) == (entries::lookup(state, key) != current),
        outcome is Ok && outcome->Ok_0@ is Applied ==> entries::lookup(after, key) == next
            && script_state::seen_after(current, outcome->Ok_0@) == current,
        outcome is Ok && outcome->Ok_0@ is Conflict ==> !script_state::conflicts(
            after,
            script_state::transformed(
                key,
                script_state::seen_after(current, outcome->Ok_0@),
                again,
            ),
        ),
{
    if outcome is Ok && outcome->Ok_0@ is Applied {
        script_state::law_read_gives_back_what_was_written(
            state,
            script_state::transformed(key, current, next),
            oversized,
            after,
            outcome,
            key,
        );
    }
}

/// A write that landed is not tried again; one that lost the race is, as long as another
/// attempt is left.
pub proof fn law_lost_race_is_run_again(attempts: int, changed: bool, current: Option<Value>)
    ensures
        !script_state::is_tried_again(attempts, OutcomeModel::Applied { changed }),
        attempts >= 2 ==> script_state::is_tried_again(
            attempts,
            OutcomeModel::Conflict { current },
        ),
        !script_state::is_tried_again(1, OutcomeModel::Conflict { current }),
{
}

} // verus!
