//! Stored values as documents, and back.
use vstd::prelude::*;

use crate::entries;
use crate::json;
use crate::json::{Json, JsonModel, JsonNumber};
use crate::number;
use crate::number::Number;
use crate::script_value;
use crate::script_value::{ScriptValue, Value};

verus! {

/// What is not a number, by its bits.
pub const NAN_BITS: u64 = 0x7FF8_0000_0000_0000;

/// The value that a number of a document is stored as: a whole number that fits
/// keeps every digit, all others are fractions.
pub open spec fn stored_number(number: JsonNumber) -> Value {
    match number {
        JsonNumber::Whole(value) => Value::Int(value),
        JsonNumber::Natural(value) => if value <= i64::MAX {
            Value::Int(value as i64)
        } else {
            Value::Float(number::large_bits(value) as u64)
        },
        JsonNumber::Other(Some(value)) => Value::Float(value.bits),
        JsonNumber::Other(None) => Value::Float(NAN_BITS),
    }
}

/// The value that a document is stored as.
pub open spec fn stored(document: JsonModel) -> Value
    decreases document,
{
    match document {
        JsonModel::Null => Value::Null,
        JsonModel::Bool(value) => Value::Bool(value),
        JsonModel::Number(number) => stored_number(number),
        JsonModel::Text(text) => Value::Str(text),
        JsonModel::Array(values) => Value::List(stored_all(values)),
        JsonModel::Object(fields) => Value::Table(stored_fields(fields)),
    }
}

/// The values that some documents are stored as.
pub open spec fn stored_all(documents: Seq<JsonModel>) -> Seq<Value>
    decreases documents,
{
    if documents.len() == 0 {
        Seq::empty()
    } else {
        stored_all(documents.subrange(0, documents.len() - 1)).push(
            stored(documents[documents.len() - 1]),
        )
    }
}

/// The table that some fields are stored as.
pub open spec fn stored_fields(fields: Seq<(Seq<char>, JsonModel)>) -> Seq<(Seq<char>, Value)>
    decreases fields,
{
    if fields.len() == 0 {
        Seq::empty()
    } else {
        let last = fields[fields.len() - 1];
        entries::with(
            stored_fields(fields.subrange(0, fields.len() - 1)),
            last.0,
            stored(last.1),
        )
    }
}

/// The document that a value is shown as. What is no finite number has no
/// spelling, so it is shown as nothing.
pub open spec fn shown(value: Value) -> JsonModel
    decreases value,
{
    match value {
        Value::Null => JsonModel::Null,
        Value::Bool(value) => JsonModel::Bool(value),
        Value::Int(value) => JsonModel::Number(JsonNumber::Whole(value)),
        Value::Float(bits) => if (Number { bits }).is_finite() {
            JsonModel::Number(JsonNumber::Other(Some(Number { bits })))
        } else {
            JsonModel::Null
        },
        Value::Str(text) => JsonModel::Text(text),
        Value::List(values) => JsonModel::Array(shown_all(values)),
        Value::Table(values) => JsonModel::Object(shown_entries(values)),
    }
}

/// The documents that some values are shown as.
pub open spec fn shown_all(values: Seq<Value>) -> Seq<JsonModel>
    decreases values,
{
    if values.len() == 0 {
        Seq::empty()
    } else {
        shown_all(values.subrange(0, values.len() - 1)).push(shown(values[values.len() - 1]))
    }
}

/// The fields that a table is shown as.
pub open spec fn shown_entries(values: Seq<(Seq<char>, Value)>) -> Seq<(Seq<char>, JsonModel)>
    decreases values,
{
    if values.len() == 0 {
        Seq::empty()
    } else {
        let last = values[values.len() - 1];
        entries::with(
            shown_entries(values.subrange(0, values.len() - 1)),
            last.0,
            shown(last.1),
        )
    }
}

impl ScriptValue {
    /// The value that a document is stored as.
    pub fn from_json(document: &Json) -> (value: ScriptValue)
        ensures
            value.model() == stored(document.model()),
        decreases document,
    {
        match document {
            Json::Null => ScriptValue::Null,
            Json::Bool(value) => ScriptValue::Bool(*value),
            Json::Number(number) => match *number {
                JsonNumber::Whole(value) => ScriptValue::Int(value),
                JsonNumber::Natural(value) => if value <= 0x7FFF_FFFF_FFFF_FFFF {
                    ScriptValue::Int(value as i64)
                } else {
                    ScriptValue::Float(Number::from_large(value))
                },
                JsonNumber::Other(Some(value)) => ScriptValue::Float(value),
                JsonNumber::Other(None) => ScriptValue::Float(Number { bits: NAN_BITS }),
            },
            Json::Text(text) => ScriptValue::Str(text.clone()),
            Json::Array(documents) => {
                let ghost all = json::models(documents@);
                let mut values: Vec<ScriptValue> = Vec::new();
                proof {
                    json::lemma_models(documents@);
                    assert(all.subrange(0, 0) =~= Seq::empty());
                }
                let mut i: usize = 0;
                while i < documents.len()
                    invariant
                        i <= documents.len(),
                        *document == Json::Array(*documents),
                        all == json::models(documents@),
                        all.len() == documents.len(),
                        forall|j: int|
                            0 <= j < documents.len() ==> #[trigger] all[j] == documents@[j].model(),
                        script_value::models(values@) == stored_all(all.subrange(0, i as int)),
                        values.len() == i,
                    decreases documents.len() - i,
                {
                    assert(decreases_to!(*document => document->Array_0));
                    assert(decreases_to!(document->Array_0 => document->Array_0@));
                    assert(decreases_to!(document->Array_0@ => document->Array_0@[i as int]));
                    let value = ScriptValue::from_json(&documents[i]);
                    let ghost before = values@;
                    values.push(value);
                    proof {
                        let next = all.subrange(0, i + 1);
                        assert(next.subrange(0, next.len() - 1) =~= all.subrange(0, i as int));
                        assert(next[next.len() - 1] == all[i as int]);
                        assert(values@.subrange(0, values@.len() - 1) =~= before);
                    }
                    i = i + 1;
                }
                assert(all.subrange(0, i as int) =~= all);
                ScriptValue::List(values)
            },
            Json::Object(fields) => {
                let ghost all = json::field_models(fields@);
                let mut values: Vec<(String, ScriptValue)> = Vec::new();
                proof {
                    json::lemma_field_models(fields@);
                    assert(all.subrange(0, 0) =~= Seq::empty());
                }
                let mut i: usize = 0;
                while i < fields.len()
                    invariant
                        i <= fields.len(),
                        *document == Json::Object(*fields),
                        all == json::field_models(fields@),
                        all.len() == fields.len(),
                        forall|j: int|
                            0 <= j < fields.len() ==> #[trigger] all[j] == (
                                fields@[j].0@,
                                fields@[j].1.model(),
                            ),
                        script_value::entry_models(values@) == stored_fields(
                            all.subrange(0, i as int),
                        ),
                    decreases fields.len() - i,
                {
                    assert(decreases_to!(*document => document->Object_0));
                    assert(decreases_to!(document->Object_0 => document->Object_0@));
                    assert(decreases_to!(document->Object_0@ => document->Object_0@[i as int]));
                    assert(decreases_to!(
                        document->Object_0@[i as int] => document->Object_0@[i as int].1
                    ));
                    let value = ScriptValue::from_json(&fields[i].1);
                    script_value::put(&mut values, fields[i].0.clone(), value);
                    proof {
                        let next = all.subrange(0, i + 1);
                        assert(next.subrange(0, next.len() - 1) =~= all.subrange(0, i as int));
                        assert(next[next.len() - 1] == all[i as int]);
                    }
                    i = i + 1;
                }
                assert(all.subrange(0, i as int) =~= all);
                ScriptValue::Table(values)
            },
        }
    }

    /// The document that the value is shown as.
    pub fn to_json(&self) -> (document: Json)
        ensures
            document.model() == shown(self.model()),
        decreases self,
    {
        match self {
            ScriptValue::Null => Json::Null,
            ScriptValue::Bool(value) => Json::Bool(*value),
            ScriptValue::Int(value) => Json::Number(JsonNumber::Whole(*value)),
            ScriptValue::Float(value) => if value.finite() {
                Json::Number(JsonNumber::Other(Some(*value)))
            } else {
                Json::Null
            },
            ScriptValue::Str(text) => Json::Text(text.clone()),
            ScriptValue::List(values) => {
                let ghost all = script_value::models(values@);
                let mut documents: Vec<Json> = Vec::new();
                proof {
                    script_value::lemma_models(values@);
                    assert(all.subrange(0, 0) =~= Seq::empty());
                }
                let mut i: usize = 0;
                while i < values.len()
                    invariant
                        i <= values.len(),
                        *self == ScriptValue::List(*values),
                        all == script_value::models(values@),
                        all.len() == values.len(),
                        forall|j: int|
                            0 <= j < values.len() ==> #[trigger] all[j] == values@[j].model(),
                        json::models(documents@) == shown_all(all.subrange(0, i as int)),
                        documents.len() == i,
                    decreases values.len() - i,
                {
                    assert(decreases_to!(*self => self->List_0));
                    assert(decreases_to!(self->List_0 => self->List_0@));
                    assert(decreases_to!(self->List_0@ => self->List_0@[i as int]));
                    let document = values[i].to_json();
                    let ghost before = documents@;
                    documents.push(document);
                    proof {
                        let next = all.subrange(0, i + 1);
                        assert(next.subrange(0, next.len() - 1) =~= all.subrange(0, i as int));
                        assert(next[next.len() - 1] == all[i as int]);
                        assert(documents@.subrange(0, documents@.len() - 1) =~= before);
                    }
                    i = i + 1;
                }
                assert(all.subrange(0, i as int) =~= all);
                Json::Array(documents)
            },
            ScriptValue::Table(values) => {
                let ghost all = script_value::entry_models(values@);
                let mut fields: Vec<(String, Json)> = Vec::new();
                proof {
                    script_value::lemma_entry_models(values@);
                    assert(all.subrange(0, 0) =~= Seq::empty());
                }
                let mut i: usize = 0;
                while i < values.len()
                    invariant
                        i <= values.len(),
                        *self == ScriptValue::Table(*values),
                        all == script_value::entry_models(values@),
                        all.len() == values.len(),
                        forall|j: int|
                            0 <= j < values.len() ==> #[trigger] all[j] == (
                                values@[j].0@,
                                values@[j].1.model(),
                            ),
                        json::field_models(fields@) == shown_entries(all.subrange(0, i as int)),
                    decreases values.len() - i,
                {
                    assert(decreases_to!(*self => self->Table_0));
                    assert(decreases_to!(self->Table_0 => self->Table_0@));
                    assert(decreases_to!(self->Table_0@ => self->Table_0@[i as int]));
                    assert(decreases_to!(self->Table_0@[i as int] => self->Table_0@[i as int].1));
                    let document = values[i].1.to_json();
                    json::put(&mut fields, values[i].0.clone(), document);
                    proof {
                        let next = all.subrange(0, i + 1);
                        assert(next.subrange(0, next.len() - 1) =~= all.subrange(0, i as int));
                        assert(next[next.len() - 1] == all[i as int]);
                    }
                    i = i + 1;
                }
                assert(all.subrange(0, i as int) =~= all);
                Json::Object(fields)
            },
        }
    }
}

// ---------------------------------------------------------------------------
// There and back
// ---------------------------------------------------------------------------
/// A document that can be stored without loss: its numbers are whole numbers that
/// fit or finite fractions, and its fields are sorted.
pub open spec fn is_faithful(document: JsonModel) -> bool
    decreases document,
{
    match document {
        JsonModel::Number(JsonNumber::Other(Some(value))) => value.is_finite(),
        JsonModel::Number(JsonNumber::Other(None)) => false,
        JsonModel::Number(JsonNumber::Natural(_)) => false,
        JsonModel::Array(values) => all_faithful(values),
        JsonModel::Object(fields) => entries::is_sorted(fields) && fields_faithful(fields),
        _ => true,
    }
}

pub open spec fn all_faithful(documents: Seq<JsonModel>) -> bool
    decreases documents,
{
    documents.len() == 0 || all_faithful(documents.subrange(0, documents.len() - 1))
        && is_faithful(documents[documents.len() - 1])
}

pub open spec fn fields_faithful(fields: Seq<(Seq<char>, JsonModel)>) -> bool
    decreases fields,
{
    fields.len() == 0 || fields_faithful(fields.subrange(0, fields.len() - 1)) && is_faithful(
        fields[fields.len() - 1].1,
    )
}

/// A name behind all others goes to the end.
proof fn lemma_with_at_end<V>(entries: Seq<(Seq<char>, V)>, name: Seq<char>, value: V)
    requires
        forall|i: int| 0 <= i < entries.len() ==> entries::before((#[trigger] entries[i]).0, name),
    ensures
        entries::with(entries, name, value) == entries.push((name, value)),
{
    let q = entries::from::<V>(name);
    crate::search::lemma_no_first_index(entries, q);
}

/// Sorted fields are stored one by one.
proof fn lemma_stored_fields(fields: Seq<(Seq<char>, JsonModel)>)
    requires
        entries::is_sorted(fields),
    ensures
        stored_fields(fields).len() == fields.len(),
        forall|i: int|
            0 <= i < fields.len() ==> #[trigger] stored_fields(fields)[i] == (
                fields[i].0,
                stored(fields[i].1),
            ),
    decreases fields.len(),
{
    if fields.len() > 0 {
        let n = fields.len() - 1;
        let head = fields.subrange(0, n);
        assert forall|i: int, j: int| 0 <= i < j < head.len() implies entries::before(
            (#[trigger] head[i]).0,
            (#[trigger] head[j]).0,
        ) by {
            assert(head[i] == fields[i] && head[j] == fields[j]);
        }
        lemma_stored_fields(head);
        let before = stored_fields(head);
        assert forall|i: int| 0 <= i < before.len() implies entries::before(
            (#[trigger] before[i]).0,
            fields[n].0,
        ) by {
            assert(head[i] == fields[i]);
        }
        lemma_with_at_end(before, fields[n].0, stored(fields[n].1));
        assert forall|i: int| 0 <= i < fields.len() implies #[trigger] stored_fields(fields)[i] == (
            fields[i].0,
            stored(fields[i].1),
        ) by {
            if i < n {
                assert(stored_fields(fields)[i] == before[i]);
                assert(head[i] == fields[i]);
            }
        }
    }
}

/// A document that is stored and shown again is the same document.
pub proof fn law_stored_document_is_shown_again(document: JsonModel)
    requires
        is_faithful(document),
    ensures
        shown(stored(document)) == document,
    decreases document,
{
    match document {
        JsonModel::Array(documents) => {
            lemma_all_shown_again(documents);
        },
        JsonModel::Object(fields) => {
            lemma_fields_shown_again(fields);
        },
        _ => {},
    }
}

proof fn lemma_all_shown_again(documents: Seq<JsonModel>)
    requires
        all_faithful(documents),
    ensures
        shown_all(stored_all(documents)) == documents,
    decreases documents,
{
    if documents.len() > 0 {
        let n = documents.len() - 1;
        let head = documents.subrange(0, n);
        let stored_head = stored_all(head);
        lemma_all_shown_again(head);
        law_stored_document_is_shown_again(documents[n]);
        let values = stored_all(documents);
        assert(values.subrange(0, values.len() - 1) =~= stored_head);
        assert(shown_all(values) =~= head.push(documents[n]));
        assert(head.push(documents[n]) =~= documents);
    }
}

proof fn lemma_fields_shown_again(fields: Seq<(Seq<char>, JsonModel)>)
    requires
        entries::is_sorted(fields),
        fields_faithful(fields),
    ensures
        shown_entries(stored_fields(fields)) == fields,
    decreases fields,
{
    if fields.len() > 0 {
        let n = fields.len() - 1;
        let head = fields.subrange(0, n);
        assert forall|i: int, j: int| 0 <= i < j < head.len() implies entries::before(
            (#[trigger] head[i]).0,
            (#[trigger] head[j]).0,
        ) by {
            assert(head[i] == fields[i] && head[j] == fields[j]);
        }
        lemma_fields_shown_again(head);
        assert(decreases_to!(fields => fields[n]));
        assert(decreases_to!(fields[n] => fields[n].1));
        law_stored_document_is_shown_again(fields[n].1);
        lemma_stored_fields(fields);
        lemma_stored_fields(head);
        let values = stored_fields(fields);
        assert(values.subrange(0, n) =~= stored_fields(head)) by {
            assert forall|i: int| 0 <= i < n implies values[i] == stored_fields(head)[i] by {
                assert(head[i] == fields[i]);
            }
        }
        assert(values[n] == (fields[n].0, stored(fields[n].1)));
        assert forall|i: int| 0 <= i < head.len() implies entries::before(
            (#[trigger] head[i]).0,
            fields[n].0,
        ) by {
            assert(head[i] == fields[i]);
        }
        lemma_with_at_end(head, fields[n].0, fields[n].1);
        assert(shown_entries(values) =~= head.push(fields[n]));
        assert(head.push(fields[n]) =~= fields);
    }
}

/// A value that can be shown without loss: its fractions are finite, and its tables
/// are sorted.
pub open spec fn is_showable(value: Value) -> bool
    decreases value,
{
    match value {
        Value::Float(bits) => (Number { bits }).is_finite(),
        Value::List(values) => all_showable(values),
        Value::Table(values) => entries::is_sorted(values) && entries_showable(values),
        _ => true,
    }
}

pub open spec fn all_showable(values: Seq<Value>) -> bool
    decreases values,
{
    values.len() == 0 || all_showable(values.subrange(0, values.len() - 1)) && is_showable(
        values[values.len() - 1],
    )
}

pub open spec fn entries_showable(values: Seq<(Seq<char>, Value)>) -> bool
    decreases values,
{
    values.len() == 0 || entries_showable(values.subrange(0, values.len() - 1)) && is_showable(
        values[values.len() - 1].1,
    )
}

/// Sorted entries are shown one by one.
proof fn lemma_shown_entries(values: Seq<(Seq<char>, Value)>)
    requires
        entries::is_sorted(values),
    ensures
        shown_entries(values).len() == values.len(),
        forall|i: int|
            0 <= i < values.len() ==> #[trigger] shown_entries(values)[i] == (
                values[i].0,
                shown(values[i].1),
            ),
    decreases values.len(),
{
    if values.len() > 0 {
        let n = values.len() - 1;
        let head = values.subrange(0, n);
        assert forall|i: int, j: int| 0 <= i < j < head.len() implies entries::before(
            (#[trigger] head[i]).0,
            (#[trigger] head[j]).0,
        ) by {
            assert(head[i] == values[i] && head[j] == values[j]);
        }
        lemma_shown_entries(head);
        let before = shown_entries(head);
        assert forall|i: int| 0 <= i < before.len() implies entries::before(
            (#[trigger] before[i]).0,
            values[n].0,
        ) by {
            assert(head[i] == values[i]);
        }
        lemma_with_at_end(before, values[n].0, shown(values[n].1));
        assert forall|i: int| 0 <= i < values.len() implies #[trigger] shown_entries(values)[i] == (
            values[i].0,
            shown(values[i].1),
        ) by {
            if i < n {
                assert(shown_entries(values)[i] == before[i]);
                assert(head[i] == values[i]);
            }
        }
    }
}

/// A value that is shown and stored again is the same value: a table that is saved
/// reads back as it was.
pub proof fn law_shown_value_is_stored_again(value: Value)
    requires
        is_showable(value),
    ensures
        stored(shown(value)) == value,
    decreases value,
{
    match value {
        Value::List(values) => {
            lemma_all_stored_again(values);
        },
        Value::Table(values) => {
            lemma_entries_stored_again(values);
        },
        _ => {},
    }
}

proof fn lemma_all_stored_again(values: Seq<Value>)
    requires
        all_showable(values),
    ensures
        stored_all(shown_all(values)) == values,
    decreases values,
{
    if values.len() > 0 {
        let n = values.len() - 1;
        let head = values.subrange(0, n);
        let shown_head = shown_all(head);
        lemma_all_stored_again(head);
        law_shown_value_is_stored_again(values[n]);
        let documents = shown_all(values);
        assert(documents.subrange(0, documents.len() - 1) =~= shown_head);
        assert(stored_all(documents) =~= head.push(values[n]));
        assert(head.push(values[n]) =~= values);
    }
}

proof fn lemma_entries_stored_again(values: Seq<(Seq<char>, Value)>)
    requires
        entries::is_sorted(values),
        entries_showable(values),
    ensures
        stored_fields(shown_entries(values)) == values,
    decreases values,
{
    if values.len() > 0 {
        let n = values.len() - 1;
        let head = values.subrange(0, n);
        assert forall|i: int, j: int| 0 <= i < j < head.len() implies entries::before(
            (#[trigger] head[i]).0,
            (#[trigger] head[j]).0,
        ) by {
            assert(head[i] == values[i] && head[j] == values[j]);
        }
        lemma_entries_stored_again(head);
        assert(decreases_to!(values => values[n]));
        assert(decreases_to!(values[n] => values[n].1));
        law_shown_value_is_stored_again(values[n].1);
        lemma_shown_entries(values);
        lemma_shown_entries(head);
        let fields = shown_entries(values);
        assert(fields.subrange(0, n) =~= shown_entries(head)) by {
            assert forall|i: int| 0 <= i < n implies fields[i] == shown_entries(head)[i] by {
                assert(head[i] == values[i]);
            }
        }
        assert(fields[n] == (values[n].0, shown(values[n].1)));
        assert forall|i: int| 0 <= i < head.len() implies entries::before(
            (#[trigger] head[i]).0,
            values[n].0,
        ) by {
            assert(head[i] == values[i]);
        }
        lemma_with_at_end(head, values[n].0, values[n].1);
        assert(stored_fields(fields) =~= head.push(values[n]));
        assert(head.push(values[n]) =~= values);
    }
}

/// A whole number keeps every digit, there and back.
pub proof fn law_whole_number_keeps_every_digit(value: i64)
    ensures
        stored(JsonModel::Number(JsonNumber::Whole(value))) == Value::Int(value),
        shown(Value::Int(value)) == JsonModel::Number(JsonNumber::Whole(value)),
{
}

} // verus!
