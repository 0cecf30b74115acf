//! What the daemon and its clients say to each other.
use std::cell::Cell;

use paneru::client::{
    connect_failure, ops_to_send, query_payload, read_kind, script_state, state_get, state_write,
    subscription_step, wants_event, window_set, ClientError, SubscriptionStep,
};
use paneru::clock::Duration;
use paneru::commands::Command;
use paneru::ipc::{after_send, bind, poll_recv, subscriber_stays, Carried, IpcError, Polled};
use paneru::json::{Json, JsonNumber};
use paneru::lua::{
    load_runtime, paths_match, replace_runtime, should_reload, FilePath, LuaScriptPath,
};
use paneru::number::Number;
use paneru::script_state::{ScriptStateRequest, ScriptStateResponse, WriteOutcome};
use paneru::script_value::ScriptValue;
use paneru::state::{
    ActiveState, QueryPayload, QueryState, StateEvent, StateQueryKind, VirtualWorkspaceState,
    WindowState,
};
use paneru::windowset::{LayoutOp, WindowSet};
use paneru::wire::{service_name, MessagePack, Request, Response, SERVICE_NAME};
use serde_json::Value;

fn to_value(document: &Json) -> Value {
    match document {
        Json::Null => Value::Null,
        Json::Bool(b) => Value::Bool(*b),
        Json::Number(JsonNumber::Whole(whole)) => Value::from(*whole),
        Json::Number(JsonNumber::Natural(natural)) => Value::from(*natural),
        Json::Number(JsonNumber::Other(x)) => {
            x.map_or(Value::Null, |x| Value::from(f64::from_bits(x.bits)))
        }
        Json::Text(text) => Value::from(text.as_str()),
        Json::Array(values) => Value::Array(values.iter().map(to_value).collect()),
        Json::Object(fields) => Value::Object(
            fields.iter().map(|(name, value)| (name.clone(), to_value(value))).collect(),
        ),
    }
}

fn value(text: &str) -> Value {
    serde_json::from_str(text).expect("a document")
}

fn document() -> QueryState {
    QueryState {
        version: 1,
        timestamp: 9,
        active: ActiveState { display_id: Some(3), ..ActiveState::default() },
        virtual_workspaces: vec![VirtualWorkspaceState {
            number: 2,
            native_workspace_id: 10,
            active: true,
            windows: vec![],
        }],
    }
}

#[test]
fn query_kinds_round_trip_through_their_tokens() {
    for kind in [
        StateQueryKind::State,
        StateQueryKind::VirtualWorkspaces,
        StateQueryKind::Active,
    ] {
        assert_eq!(StateQueryKind::parse(kind.token()), Some(kind));
    }
    assert_eq!(StateQueryKind::parse("nonsense"), None);
}

#[test]
fn a_query_is_answered_with_its_part_of_the_document() {
    assert!(matches!(
        document().into_payload(StateQueryKind::State),
        QueryPayload::State(state) if state.timestamp == 9
    ));
    assert!(matches!(
        document().into_payload(StateQueryKind::VirtualWorkspaces),
        QueryPayload::VirtualWorkspaces(rows) if rows.len() == 1 && rows[0].number == 2
    ));
    assert!(matches!(
        document().into_payload(StateQueryKind::Active),
        QueryPayload::Active(active) if active.display_id == Some(3)
    ));
}

#[test]
fn a_query_that_is_not_named_asks_for_everything() {
    assert_eq!(read_kind(None), Ok(StateQueryKind::State));
    assert_eq!(read_kind(Some("active")), Ok(StateQueryKind::Active));
    assert_eq!(
        read_kind(Some("windows")).unwrap_err(),
        "unknown query 'windows', expected one of state, virtual-workspaces, active"
    );
}

#[test]
fn answers_are_what_was_asked_for() {
    let payload = || Response::Query(QueryPayload::OnScreen(vec![]));
    let failed = || Response::Error("no such window".to_string());
    assert!(matches!(query_payload(payload()), Ok(QueryPayload::OnScreen(_))));
    assert!(matches!(
        query_payload(failed()),
        Err(ClientError::Failed(message)) if message == "no such window"
    ));
    assert!(matches!(
        script_state(payload()),
        Err(ClientError::Unexpected(Response::Query(_)))
    ));
    assert!(matches!(window_set(payload()), Err(ClientError::Unexpected(_))));
    assert!(window_set(Response::WindowSet(Box::new(WindowSet::default()))).is_ok());
}

#[test]
fn a_stored_nothing_reads_like_an_absent_key() {
    let value = |value| Response::ScriptState(ScriptStateResponse::Value(value));
    assert!(matches!(state_get(value(Some(ScriptValue::Null))), Ok(None)));
    assert!(matches!(state_get(value(None)), Ok(None)));
    assert!(matches!(
        state_get(value(Some(ScriptValue::Int(4)))),
        Ok(Some(ScriptValue::Int(4)))
    ));
    let write = || {
        Response::ScriptState(ScriptStateResponse::Write(WriteOutcome::Applied { changed: true }))
    };
    assert!(matches!(
        state_get(write()),
        Err(ClientError::Failed(message))
            if message == "paneru.state.get: the daemon answered a read with a write outcome"
    ));
    assert!(matches!(state_write(write()), Ok(WriteOutcome::Applied { changed: true })));
    assert!(matches!(
        state_write(value(None)),
        Err(ClientError::Failed(message))
            if message == "paneru.state: the daemon answered a write with a value"
    ));
    assert!(matches!(
        state_write(Response::Error("full".to_string())),
        Err(ClientError::Failed(message)) if message == "full"
    ));
}

#[test]
fn events_have_the_names_that_filters_use() {
    let focused = StateEvent::WindowFocused {
        window_id: Some(1),
        bundle_id: None,
        title: None,
        virtual_workspace_number: None,
    };
    let display = StateEvent::DisplayChanged { display_id: None };
    let events = [
        (StateEvent::VirtualWorkspaceChanged { active: ActiveState::default() },
            "virtual_workspace_changed"),
        (StateEvent::WindowsChanged {
            virtual_workspace_number: None,
            active: ActiveState::default(),
        }, "windows_changed"),
        (StateEvent::WindowTitleChanged { window_id: 1, title: String::new() },
            "window_title_changed"),
    ];
    for (event, name) in &events {
        assert_eq!(event.name(), *name);
    }
    assert_eq!(focused.name(), "window_focused");
    assert_eq!(display.name(), "display_changed");
    let wanted = Some(vec!["x".to_string(), "window_focused".to_string()]);
    assert!(wants_event(&wanted, &focused));
    assert!(!wants_event(&wanted, &display));
    assert!(wants_event(&None, &display));
    assert!(!wants_event(&Some(vec![]), &display));
}

#[test]
fn a_subscription_ends_with_the_daemon() {
    let event = StateEvent::DisplayChanged { display_id: Some(2) };
    assert!(matches!(
        subscription_step(Some(Ok(event))),
        SubscriptionStep::Show(StateEvent::DisplayChanged { display_id: Some(2) })
    ));
    assert!(matches!(
        subscription_step(Some(Err(IpcError::PeerGone))),
        SubscriptionStep::End
    ));
    assert!(matches!(
        subscription_step(Some(Err(IpcError::Decode))),
        SubscriptionStep::Fail(IpcError::Decode)
    ));
    assert!(matches!(subscription_step(None), SubscriptionStep::End));
}

#[test]
fn an_absent_daemon_is_reported_plainly() {
    assert!(matches!(
        connect_failure(IpcError::NotRunning),
        Err(ClientError::Failed(message)) if message == "paneru is not running"
    ));
    assert!(matches!(connect_failure(IpcError::System(3)), Ok(IpcError::System(3))));
}

#[test]
fn a_transform_that_asked_for_nothing_sends_nothing() {
    assert_eq!(ops_to_send(vec![]), None);
    assert_eq!(ops_to_send(vec![LayoutOp::Focus(7)]), Some(vec![LayoutOp::Focus(7)]));
}

#[test]
fn some_requests_are_not_answered() {
    assert!(!Request::Command(Command::Quit).is_answered());
    assert!(!Request::WindowSetApply(vec![]).is_answered());
    assert!(!Request::Subscribe.is_answered());
    assert!(Request::Query(StateQueryKind::State).is_answered());
    assert!(Request::WindowSet.is_answered());
    let read = ScriptStateRequest::Get { key: "pads.term".to_string() };
    assert!(Request::ScriptState(read).is_answered());
    assert_eq!(MessagePack, MessagePack);
    assert_ne!(Carried::AsReply, Carried::AsChannel);
}

#[test]
fn the_service_has_a_name_that_can_be_overridden() {
    assert_eq!(service_name(None), SERVICE_NAME);
    assert_eq!(service_name(None), "com.github.karinushka.paneru");
    assert_eq!(service_name(Some("dev".to_string())), "dev");
}

#[test]
fn a_message_that_is_there_is_taken_without_arming() {
    let polled = poll_recv(
        || Ok::<u8, IpcError>(7),
        || panic!("nothing to wait for"),
        || panic!("it was there"),
    );
    assert!(matches!(polled, Polled::Ready(Ok(7))));
}

#[test]
fn a_message_that_comes_while_arming_is_not_stranded() {
    let armed = Cell::new(false);
    let arm = || {
        armed.set(true);
        Ok(())
    };
    let empty = || Err::<u8, IpcError>(IpcError::WouldBlock);
    let polled = poll_recv(empty, arm, || {
        assert!(armed.get());
        Ok(7)
    });
    assert!(matches!(polled, Polled::Ready(Ok(7))));
    assert!(matches!(poll_recv(empty, arm, empty), Polled::Pending));
    assert!(matches!(
        poll_recv(empty, || Err(IpcError::System(5)), || panic!("not armed")),
        Polled::Ready(Err(IpcError::System(5)))
    ));
    assert!(matches!(
        poll_recv(|| Err::<u8, IpcError>(IpcError::PeerGone), || panic!("gone"), || panic!("gone")),
        Polled::Ready(Err(IpcError::PeerGone))
    ));
}

#[test]
fn a_name_is_taken_over_or_published() {
    assert_eq!(bind(|| Ok::<u8, IpcError>(1), || panic!("it was held")), Ok(1));
    assert_eq!(bind(|| Err(IpcError::NotRunning), || Ok::<u8, IpcError>(2)), Ok(2));
    assert_eq!(
        bind(|| Err::<u8, IpcError>(IpcError::AlreadyRunning), || panic!("refused")),
        Err(IpcError::AlreadyRunning)
    );
}

#[test]
fn a_full_queue_is_tried_again_and_a_gone_peer_is_not() {
    assert_eq!(after_send(Err(IpcError::WouldBlock)), None);
    assert_eq!(after_send(Ok(())), Some(Ok(())));
    assert_eq!(after_send(Err(IpcError::PeerGone)), Some(Err(IpcError::PeerGone)));
    assert!(subscriber_stays(Ok(())));
    assert!(subscriber_stays(Err(IpcError::WouldBlock)));
    assert!(!subscriber_stays(Err(IpcError::PeerGone)));
}

fn path(parts: &[&str]) -> FilePath {
    FilePath {
        components: parts.iter().map(|part| part.to_string()).collect(),
        file_name: parts.last().map(|part| part.to_string()),
    }
}

#[test]
fn a_change_is_about_the_script_by_path_or_by_name() {
    let script = path(&["/", "home", "init.lua"]);
    assert!(paths_match(&path(&["/", "home", "init.lua"]), &script));
    assert!(paths_match(&path(&["/", "tmp", "init.lua"]), &script));
    assert!(!paths_match(&path(&["/", "home", "other.lua"]), &script));
    let root = FilePath { components: vec!["/".to_string()], file_name: None };
    let parent = FilePath { components: vec!["..".to_string()], file_name: None };
    assert!(paths_match(&root, &parent));
    assert!(!paths_match(&root, &script));
    let watched = LuaScriptPath(script);
    let other = || path(&["/", "home", "paneru.toml"]);
    assert!(!should_reload(&vec![other()], &watched));
    assert!(should_reload(&vec![other(), path(&["init.lua"])], &watched));
}

#[test]
fn a_broken_edit_leaves_the_running_script() {
    let mut runtime = 1;
    let bindings = |runtime: &i32| vec![*runtime * 10];
    let (flash, published) = replace_runtime(&mut runtime, Err("line 4".to_string()), bindings);
    assert_eq!(runtime, 1);
    assert_eq!(published, None);
    assert_eq!(flash.text, "Lua error: line 4");
    assert_eq!(flash.shown_for, Duration::from_millis(4000));
    let (flash, published) = replace_runtime(&mut runtime, Ok(2), bindings);
    assert_eq!(runtime, 2);
    assert_eq!(published, Some(vec![20]));
    assert_eq!(flash.text, "Lua reloaded");
    assert_eq!(flash.shown_for, Duration::from_millis(1500));
}

#[test]
fn a_script_that_does_not_load_leaves_an_empty_runtime() {
    let bindings = |runtime: &u8| *runtime + 10;
    let loaded = load_runtime(Ok::<u8, String>(4), || panic!("it loaded"), bindings);
    assert_eq!(loaded, (4, 14));
    let broken = Err::<u8, String>("syntax".to_string());
    assert_eq!(load_runtime(broken, || 0, bindings), (0, 10));
}

#[test]
fn an_event_is_shown_with_its_name_and_its_fields() {
    let event = StateEvent::WindowFocused {
        window_id: Some(1),
        bundle_id: Some("com.example.app".into()),
        title: Some("window".into()),
        virtual_workspace_number: None,
    };
    let shown = to_value(&event.to_json());
    assert!(shown.to_string().contains(r#""event":"window_focused""#));
    assert_eq!(
        shown,
        value(
            r#"{"event":"window_focused","window_id":1,"bundle_id":"com.example.app",
                "title":"window","virtual_workspace_number":null}"#
        )
    );
    assert_eq!(
        to_value(&StateEvent::DisplayChanged { display_id: Some(3) }.to_json()),
        value(r#"{"event":"display_changed","display_id":3}"#)
    );
    assert_eq!(
        to_value(&StateEvent::WindowTitleChanged { window_id: -7, title: "a".into() }.to_json()),
        value(r#"{"event":"window_title_changed","window_id":-7,"title":"a"}"#)
    );
    let nothing = r#"{"display_id":null,"focused_app_name":null,"focused_bundle_id":null,
        "focused_window_id":null,"focused_window_title":null,"native_workspace_id":null,
        "virtual_workspace_number":null}"#;
    let changed = StateEvent::VirtualWorkspaceChanged { active: ActiveState::default() };
    assert_eq!(
        to_value(&changed.to_json()),
        value(&format!(r#"{{"event":"virtual_workspace_changed","active":{nothing}}}"#))
    );
    let others = StateEvent::WindowsChanged {
        virtual_workspace_number: Some(2),
        active: ActiveState::default(),
    };
    assert_eq!(
        to_value(&others.to_json()),
        value(&format!(
            r#"{{"event":"windows_changed","virtual_workspace_number":2,"active":{nothing}}}"#
        ))
    );
}

#[test]
fn a_query_is_shown_as_its_part_of_the_document() {
    let active = r#"{"display_id":3,"focused_app_name":null,"focused_bundle_id":null,
        "focused_window_id":null,"focused_window_title":null,"native_workspace_id":null,
        "virtual_workspace_number":null}"#;
    let rows = r#"[{"number":2,"native_workspace_id":10,"active":true,"windows":[]}]"#;
    let whole = format!(
        r#"{{"version":1,"timestamp":9,"active":{active},"virtual_workspaces":{rows}}}"#
    );
    let expected = [
        (StateQueryKind::State, value(&whole)),
        (StateQueryKind::VirtualWorkspaces, value(rows)),
        (StateQueryKind::Active, value(active)),
    ];
    for (kind, shown) in expected {
        assert_eq!(to_value(&document().to_query_json(kind)), shown);
        assert_eq!(to_value(&document().into_payload(kind).to_json()), shown);
    }
    let window = WindowState {
        window_id: 4,
        bundle_id: "b".into(),
        app_name: "a".into(),
        title: "t".into(),
        focused: true,
        floating: false,
    };
    assert_eq!(
        to_value(&QueryPayload::OnScreen(vec![window]).to_json()),
        value(
            r#"[{"window_id":4,"bundle_id":"b","app_name":"a","title":"t","focused":true,
                "floating":false}]"#
        )
    );
}

#[test]
fn large_numbers_are_rounded_as_fractions_are() {
    for natural in [
        1 << 63,
        (1 << 63) + 1024,
        (1 << 63) + 1025,
        (1 << 63) + 3072,
        u64::MAX - 1024,
        u64::MAX - 1023,
        u64::MAX,
    ] {
        assert_eq!(Number::from_large(natural).bits, (natural as f64).to_bits());
    }
    let stored = ScriptValue::from_json(&Json::Number(JsonNumber::Natural(u64::MAX)));
    assert!(matches!(stored, ScriptValue::Float(x) if f64::from_bits(x.bits) == 2f64.powi(64)));
    let small = ScriptValue::from_json(&Json::Number(JsonNumber::Natural(7)));
    assert!(matches!(small, ScriptValue::Int(7)));
}
