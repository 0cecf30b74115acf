//! The values that scripts store, the table of them, and documents.
use paneru::json::{flatten_tag, Json, JsonNumber};
use paneru::number::Number;
use paneru::script_state::{
    answer, reply_json, script_state_handler, Mutation, MutationStep, SavedScriptState, ScriptState,
    ScriptStateRequest, ScriptStateResponse, ScriptStateStore, ScriptStateWrite, WriteOutcome,
    SUPPORTED_SCRIPT_STATE_VERSION,
};
use paneru::script_value::ScriptValue;
use serde_json::Value;

const LIMIT: usize = 1_000_000;

fn value(text: &str) -> Value {
    serde_json::from_str(text).expect("a document")
}

fn from_value(value: &Value) -> Json {
    match value {
        Value::Null => Json::Null,
        Value::Bool(b) => Json::Bool(*b),
        Value::Number(n) => Json::Number(match n.as_i64() {
            Some(whole) => JsonNumber::Whole(whole),
            None => match n.as_u64() {
                Some(natural) => JsonNumber::Natural(natural),
                None => JsonNumber::Other(n.as_f64().map(|x| Number { bits: x.to_bits() })),
            },
        }),
        Value::String(text) => Json::Text(text.clone()),
        Value::Array(values) => Json::Array(values.iter().map(from_value).collect()),
        Value::Object(fields) => Json::Object(
            fields.iter().map(|(name, value)| (name.clone(), from_value(value))).collect(),
        ),
    }
}

fn to_value(document: &Json) -> Value {
    match document {
        Json::Null => Value::Null,
        Json::Bool(b) => Value::Bool(*b),
        Json::Number(JsonNumber::Whole(whole)) => Value::from(*whole),
        Json::Number(JsonNumber::Natural(natural)) => Value::from(*natural),
        Json::Number(JsonNumber::Other(x)) => {
            x.map_or(Value::Null, |x| Value::from(f64::from_bits(x.bits)))
        }
        Json::Text(text) => Value::from(text.as_str()),
        Json::Array(values) => Value::Array(values.iter().map(to_value).collect()),
        Json::Object(fields) => Value::Object(
            fields.iter().map(|(name, value)| (name.clone(), to_value(value))).collect(),
        ),
    }
}

fn stored(text: &str) -> ScriptValue {
    ScriptValue::from_json(&from_value(&value(text)))
}

fn flattened(text: &str, tag: &str) -> Value {
    to_value(&flatten_tag(from_value(&value(text)), tag))
}

fn measure(state: &ScriptState) -> usize {
    to_value(&state.to_json()).to_string().len()
}

fn set(key: &str, text: &str) -> ScriptStateWrite {
    ScriptStateWrite::set(key.to_string(), stored(text))
}

fn apply(store: &mut ScriptStateStore, write: &ScriptStateWrite) -> Result<WriteOutcome, String> {
    store.apply(write, LIMIT, measure)
}

fn applied(store: &mut ScriptStateStore, write: &ScriptStateWrite) -> bool {
    match apply(store, write).expect("accepted") {
        WriteOutcome::Applied { changed } => changed,
        WriteOutcome::Conflict { .. } => panic!("unexpected conflict"),
    }
}

fn holds(found: Option<&ScriptValue>, text: &str) -> bool {
    found.is_some_and(|found| found.equals(&stored(text)))
}

#[test]
fn a_struct_variant_flattens_into_the_tag() {
    assert_eq!(
        flattened(r#"{"window_focused": {"window_id": 4}}"#, "event"),
        value(r#"{"event": "window_focused", "window_id": 4}"#)
    );
}

#[test]
fn a_unit_variant_is_just_its_tag() {
    assert_eq!(flattened(r#""applied""#, "outcome"), value(r#""applied""#));
    assert_eq!(
        flattened(r#"{"applied": null}"#, "outcome"),
        value(r#"{"outcome": "applied"}"#)
    );
}

#[test]
fn an_unnamed_payload_keeps_a_name() {
    assert_eq!(
        flattened(r#"{"conflict": 7}"#, "outcome"),
        value(r#"{"outcome": "conflict", "value": 7}"#)
    );
}

#[test]
fn what_is_not_tagged_passes_through() {
    let two = r#"{"a": {"x": 1}, "b": 2}"#;
    assert_eq!(flattened(two, "event"), value(two));
    assert_eq!(flattened("{}", "event"), value("{}"));
    assert_eq!(flattened("[1]", "event"), value("[1]"));
}

#[test]
fn a_field_named_like_the_tag_wins_over_it() {
    assert_eq!(
        flattened(r#"{"a": {"event": 3}}"#, "event"),
        value(r#"{"event": 3}"#)
    );
}

#[test]
fn json_round_trips_through_the_store_type() {
    let original = value(
        r#"{
            "pads": {"term": {"window": 4611686018427387904, "open": true}},
            "ratio": 0.25,
            "names": ["a", "b"],
            "nothing": null
        }"#,
    );

    let stored = ScriptValue::from_json(&from_value(&original));
    let back = to_value(&stored.to_json());
    assert_eq!(back, original);
}

/// Whole numbers and fractions are separate: the number of a window past 2^53 is
/// not representable as a fraction, and a script keeps exactly those.
#[test]
fn a_large_integer_keeps_every_digit() {
    let id = 9_007_199_254_740_993_i64; // 2^53 + 1
    let stored = stored(&id.to_string());
    assert!(stored.equals(&ScriptValue::Int(id)));
    assert_eq!(to_value(&stored.to_json()), Value::from(id));
}

/// Non-finite floats have no JSON spelling; they must not produce a document
/// that nothing can parse.
#[test]
fn a_non_finite_float_renders_as_null() {
    let infinity = ScriptValue::Float(Number { bits: f64::INFINITY.to_bits() });
    assert_eq!(to_value(&infinity.to_json()), Value::Null);
}

#[test]
fn fractions_are_compared_by_their_bits() {
    let nan = || ScriptValue::Float(Number { bits: f64::NAN.to_bits() });
    assert!(nan().equals(&nan()));
    let zero = ScriptValue::Float(Number { bits: 0.0_f64.to_bits() });
    let negative = ScriptValue::Float(Number { bits: (-0.0_f64).to_bits() });
    assert!(!zero.equals(&negative));
    assert!(!zero.equals(&ScriptValue::Int(0)));
}

#[test]
fn a_number_too_large_to_be_whole_is_a_fraction() {
    assert!(matches!(stored("9223372036854775807"), ScriptValue::Int(i64::MAX)));
    let large = stored("9223372036854775808");
    assert!(matches!(large, ScriptValue::Float(x) if f64::from_bits(x.bits) == 2f64.powi(63)));
}

#[test]
fn texts_and_nothing_are_told_apart() {
    assert_eq!(stored(r#""hello""#).as_str(), Some("hello"));
    assert_eq!(stored("7").as_str(), None);
    assert!(stored("null").is_null());
    assert!(!stored("0").is_null());
}

#[test]
fn apply_bumps_the_revision_only_on_a_real_change() {
    let mut store = ScriptStateStore::default();

    assert!(applied(&mut store, &set("a", "1")));
    assert_eq!(store.revision(), 1);

    // The same value again changes nothing, so nothing downstream is told to
    // re-read.
    assert!(!applied(&mut store, &set("a", "1")));
    assert_eq!(store.revision(), 1);

    assert!(applied(&mut store, &set("a", "2")));
    assert_eq!(store.revision(), 2);
}

#[test]
fn remove_takes_a_key_out() {
    let mut store = ScriptStateStore::default();
    applied(&mut store, &set("pad.a", "1"));
    applied(&mut store, &set("pad.b", "2"));

    let removed = ScriptStateWrite::remove("pad.a".to_string());
    assert!(applied(&mut store, &removed));
    assert!(store.state().get("pad.a").is_none());
    assert!(holds(store.state().get("pad.b"), "2"));

    // Removing what is not there changes nothing, so nothing re-reads.
    assert!(!applied(&mut store, &removed));
}

#[test]
fn assigning_nothing_takes_a_key_out() {
    let mut store = ScriptStateStore::default();
    let assigned = ScriptStateWrite::assign("pad.a".to_string(), Some(stored("1")));
    assert!(applied(&mut store, &assigned));
    assert!(holds(store.state().get("pad.a"), "1"));
    assert!(applied(&mut store, &ScriptStateWrite::assign("pad.a".to_string(), None)));
    assert!(store.state().get("pad.a").is_none());
}

#[test]
fn a_compare_and_set_lands_only_against_the_value_it_read() {
    let mut store = ScriptStateStore::default();
    applied(&mut store, &set("counter", "1"));

    // Someone else got there first: the write is refused, and comes back with
    // what the key holds now so the caller can retry against it.
    let stale = ScriptStateWrite::compare_and_set(
        "counter".to_string(),
        Some(stored("0")),
        Some(stored("1")),
    );
    match apply(&mut store, &stale).expect("accepted") {
        WriteOutcome::Conflict { current } => assert!(holds(current.as_ref(), "1")),
        WriteOutcome::Applied { .. } => panic!("a stale write landed"),
    }

    let fresh = ScriptStateWrite::compare_and_set(
        "counter".to_string(),
        Some(stored("1")),
        Some(stored("2")),
    );
    assert!(matches!(
        apply(&mut store, &fresh).expect("accepted"),
        WriteOutcome::Applied { changed: true }
    ));
    assert!(holds(store.state().get("counter"), "2"));
}

#[test]
fn a_compare_and_set_can_expect_an_absent_key() {
    let mut store = ScriptStateStore::default();

    let first =
        ScriptStateWrite::compare_and_set("fresh".to_string(), None, Some(stored(r#""a""#)));
    assert!(matches!(
        apply(&mut store, &first).expect("accepted"),
        WriteOutcome::Applied { changed: true }
    ));

    // The same write again now finds a value where it expected none.
    match apply(&mut store, &first).expect("accepted") {
        WriteOutcome::Conflict { current } => assert!(holds(current.as_ref(), r#""a""#)),
        WriteOutcome::Applied { .. } => panic!("the write landed twice"),
    }
}

#[test]
fn an_empty_key_is_refused() {
    let mut store = ScriptStateStore::default();
    assert!(apply(&mut store, &set("", "1")).is_err());
}

#[test]
fn an_oversized_value_is_refused_and_leaves_the_store_alone() {
    let mut store = ScriptStateStore::default();
    let huge = "x".repeat(LIMIT + 1);
    let write = ScriptStateWrite::set("big".to_string(), ScriptValue::Str(huge));
    assert!(apply(&mut store, &write).is_err());
    assert!(store.state().is_empty());
}

/// The table as its file holds it, without the file.
#[test]
fn a_saved_table_reads_back() {
    let mut store = ScriptStateStore::default();
    applied(&mut store, &set("counter", "7"));
    applied(&mut store, &set("pads", r#"{"term": [1, 0.5, null]}"#));
    let text = to_value(&store.state().to_json()).to_string();

    let state = ScriptState::from_json(&from_value(&value(&text))).expect("read back");
    assert!(holds(state.get("counter"), "7"));
    assert!(holds(state.get("pads"), r#"{"term": [1, 0.5, null]}"#));
    let loaded = ScriptStateStore::load(Some(SavedScriptState {
        version: SUPPORTED_SCRIPT_STATE_VERSION,
        state,
    }));
    assert!(holds(loaded.state().get("counter"), "7"));
    assert!(ScriptState::from_json(&from_value(&value("[]"))).is_none());
}

#[test]
fn a_saved_file_tells_its_version_and_its_table() {
    let mut store = ScriptStateStore::default();
    applied(&mut store, &set("counter", "7"));
    let saved = SavedScriptState {
        version: SUPPORTED_SCRIPT_STATE_VERSION,
        state: store.snapshot(),
    };
    let document = to_value(&saved.to_json());
    assert_eq!(document, value(r#"{"version":1,"state":{"counter":7}}"#));
    let read = SavedScriptState::from_json(&from_value(&document)).expect("read back");
    assert_eq!(read.version, SUPPORTED_SCRIPT_STATE_VERSION);
    assert!(holds(read.state.get("counter"), "7"));
    for unreadable in [
        "[]",
        "{}",
        r#"{"version":1}"#,
        r#"{"version":1,"state":[]}"#,
        r#"{"version":-1,"state":{}}"#,
        r#"{"version":1.0,"state":{}}"#,
        r#"{"version":4294967296,"state":{}}"#,
    ] {
        assert!(SavedScriptState::from_json(&from_value(&value(unreadable))).is_none());
    }
    let more = r#"{"version":4294967295,"state":{},"more":0}"#;
    let read = SavedScriptState::from_json(&from_value(&value(more))).expect("an old file");
    assert_eq!(read.version, u32::MAX);
}

#[test]
fn a_file_from_another_version_is_ignored() {
    let state = ScriptState::from_json(&from_value(&value(r#"{"a": 1}"#))).expect("an object");
    let loaded = ScriptStateStore::load(Some(SavedScriptState {
        version: SUPPORTED_SCRIPT_STATE_VERSION + 1,
        state,
    }));
    assert!(loaded.state().is_empty());
    assert!(ScriptStateStore::load(None).state().is_empty());
}

#[test]
fn only_a_changed_table_is_saved_and_a_failed_save_is_tried_again() {
    let mut store = ScriptStateStore::default();
    store.save_if_dirty(|_: &ScriptState| panic!("nothing to save"));
    applied(&mut store, &set("a", "1"));
    store.save_if_dirty(|state: &ScriptState| {
        assert!(holds(state.get("a"), "1"));
        false
    });
    let saved = std::cell::Cell::new(0);
    store.save_if_dirty(|_: &ScriptState| {
        saved.set(saved.get() + 1);
        true
    });
    store.save_if_dirty(|_: &ScriptState| {
        saved.set(saved.get() + 1);
        true
    });
    assert_eq!(saved.get(), 1);
}

#[test]
fn requests_are_answered() {
    let mut store = ScriptStateStore::default();
    let write = ScriptStateRequest::Write(set("a", "1"));
    let reply = answer(&mut store, &write, LIMIT, measure);
    assert!(matches!(
        reply,
        Ok(ScriptStateResponse::Write(WriteOutcome::Applied { changed: true }))
    ));
    let revision = store.revision();
    assert_eq!(revision, ScriptStateStore::default().revision() + 1);
    let read = ScriptStateRequest::Get { key: "a".to_string() };
    let reply = answer(&mut store, &read, LIMIT, measure);
    assert_eq!(to_value(&reply_json(&reply)), value(r#"{"value": 1}"#));
    let absent = ScriptStateRequest::Get { key: "b".to_string() };
    let reply = answer(&mut store, &absent, LIMIT, measure);
    assert_eq!(to_value(&reply_json(&reply)), value(r#"{"value": null}"#));
    let refused = answer(&mut store, &ScriptStateRequest::Write(set("", "1")), LIMIT, measure);
    assert!(refused.is_err());
    assert_eq!(store.revision(), revision);
    let shown = to_value(&reply_json(&refused));
    assert_eq!(shown["error"], Value::from(refused.unwrap_err()));
}

#[test]
fn without_a_table_the_answer_says_so() {
    let read = ScriptStateRequest::Get { key: "a".to_string() };
    let reply = script_state_handler(&mut None, &read, LIMIT, measure);
    assert_eq!(
        to_value(&reply_json(&reply)),
        value(r#"{"error": "the script state store is not available"}"#)
    );
    let mut store = Some(ScriptStateStore::default());
    let write = ScriptStateRequest::Write(set("a", "1"));
    assert!(script_state_handler(&mut store, &write, LIMIT, measure).is_ok());
    assert!(holds(store.unwrap().state().get("a"), "1"));
}

#[test]
fn a_mutation_is_run_again_until_it_lands() {
    let mut store = ScriptStateStore::default();
    applied(&mut store, &set("n", "1"));
    let mut mutation = Mutation::begin("n".to_string(), Some(stored("1")));
    // Somebody else writes in between.
    applied(&mut store, &set("n", "5"));
    let outcome = apply(&mut store, &mutation.write(&Some(stored("2")))).unwrap();
    assert!(matches!(mutation.settle(outcome), MutationStep::Again));
    assert!(holds(mutation.current().as_ref(), "5"));
    let outcome = apply(&mut store, &mutation.write(&Some(stored("6")))).unwrap();
    assert!(matches!(mutation.settle(outcome), MutationStep::Done));
    assert!(holds(store.state().get("n"), "6"));
}

#[test]
fn a_mutation_that_keeps_losing_gives_up() {
    let mut mutation = Mutation::begin("n".to_string(), None);
    for _ in 0..7 {
        let step = mutation.settle(WriteOutcome::Conflict { current: Some(stored("1")) });
        assert!(matches!(step, MutationStep::Again));
    }
    match mutation.settle(WriteOutcome::Conflict { current: None }) {
        MutationStep::GiveUp(message) => assert_eq!(
            message,
            "paneru.state.mutate: 'n' kept changing under it after 8 attempts"
        ),
        _ => panic!("it goes on"),
    }
}

#[test]
fn a_large_number_keeps_every_digit_in_a_flattened_document() {
    assert_eq!(
        flattened(r#"{"space_changed":{"id":18446744073709551615}}"#, "event"),
        value(r#"{"event":"space_changed","id":18446744073709551615}"#)
    );
}
