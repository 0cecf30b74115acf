//! Documents as a terminal sees them.
//!
//! Several types are documented as objects that tell their kind in a field, as in
//! `{"event": "window_focused", ...}`. The encoding between processes has the
//! kind around the fields instead; [`flatten_tag`] turns one into the other.
use vstd::prelude::*;
use vstd::string::*;

use crate::entries;
use crate::entries::place_for;
use crate::number::Number;
use crate::search;

verus! {

/// A number of a document.
#[derive(Clone, Copy, Debug)]
pub enum JsonNumber {
    /// A whole number that fits in 64 bits with its sign.
    Whole(i64),
    /// A natural number that fits in 64 bits without a sign.
    Natural(u64),
    /// Any other, as a fraction if it can be one.
    Other(Option<Number>),
}

/// A document.
#[derive(Debug)]
pub enum Json {
    Null,
    Bool(bool),
    Number(JsonNumber),
    Text(String),
    Array(Vec<Json>),
    /// Fields, sorted by name.
    Object(Vec<(String, Json)>),
}

/// What a [`Json`] holds.
pub enum JsonModel {
    Null,
    Bool(bool),
    Number(JsonNumber),
    Text(Seq<char>),
    Array(Seq<JsonModel>),
    Object(Seq<(Seq<char>, JsonModel)>),
}

/// What some documents hold.
pub open spec fn models(values: Seq<Json>) -> Seq<JsonModel>
    decreases values,
{
    if values.len() == 0 {
        Seq::empty()
    } else {
        models(values.subrange(0, values.len() - 1)).push(values[values.len() - 1].model())
    }
}

/// What some fields hold.
pub open spec fn field_models(fields: Seq<(String, Json)>) -> Seq<(Seq<char>, JsonModel)>
    decreases fields,
{
    if fields.len() == 0 {
        Seq::empty()
    } else {
        let last = fields[fields.len() - 1];
        field_models(fields.subrange(0, fields.len() - 1)).push((last.0@, last.1.model()))
    }
}

impl Json {
    /// What the document holds.
    pub open spec fn model(self) -> JsonModel
        decreases self,
    {
        match self {
            Json::Null => JsonModel::Null,
            Json::Bool(value) => JsonModel::Bool(value),
            Json::Number(number) => JsonModel::Number(number),
            Json::Text(text) => JsonModel::Text(text@),
            Json::Array(values) => JsonModel::Array(models(values@)),
            Json::Object(fields) => JsonModel::Object(field_models(fields@)),
        }
    }
}

/// What some documents hold, one by one.
pub proof fn lemma_models(values: Seq<Json>)
    ensures
        models(values).len() == values.len(),
        forall|i: int| 0 <= i < values.len() ==> #[trigger] models(values)[i] == values[i].model(),
    decreases values.len(),
{
    if values.len() > 0 {
        let head = values.subrange(0, values.len() - 1);
        lemma_models(head);
        assert forall|i: int| 0 <= i < values.len() implies #[trigger] models(values)[i]
            == values[i].model() by {
            if i < head.len() {
                assert(models(values)[i] == models(head)[i]);
                assert(head[i] == values[i]);
            }
        }
    }
}

/// What some fields hold, one by one.
pub proof fn lemma_field_models(fields: Seq<(String, Json)>)
    ensures
        field_models(fields).len() == fields.len(),
        forall|i: int|
            0 <= i < fields.len() ==> #[trigger] field_models(fields)[i] == (
                fields[i].0@,
                fields[i].1.model(),
            ),
    decreases fields.len(),
{
    if fields.len() > 0 {
        let head = fields.subrange(0, fields.len() - 1);
        lemma_field_models(head);
        assert forall|i: int| 0 <= i < fields.len() implies #[trigger] field_models(fields)[i] == (
            fields[i].0@,
            fields[i].1.model(),
        ) by {
            if i < head.len() {
                assert(field_models(fields)[i] == field_models(head)[i]);
                assert(head[i] == fields[i]);
            }
        }
    }
}

impl Clone for Json {
    fn clone(&self) -> (copy: Self)
        ensures
            copy.model() == self.model(),
        decreases self,
    {
        match self {
            Json::Null => Json::Null,
            Json::Bool(value) => Json::Bool(*value),
            Json::Number(number) => Json::Number(*number),
            Json::Text(text) => Json::Text(text.clone()),
            Json::Array(values) => {
                let mut copies: Vec<Json> = Vec::new();
                let mut i: usize = 0;
                while i < values.len()
                    invariant
                        i <= values.len(),
                        *self == Json::Array(*values),
                        copies.len() == i,
                        forall|j: int|
                            0 <= j < i ==> (#[trigger] copies@[j]).model() == values@[j].model(),
                    decreases values.len() - i,
                {
                    assert(decreases_to!(*self => self->Array_0));
                    assert(decreases_to!(self->Array_0 => self->Array_0@));
                    assert(decreases_to!(self->Array_0@ => self->Array_0@[i as int]));
                    let copy = (&values[i]).clone();
                    copies.push(copy);
                    i = i + 1;
                }
                proof {
                    lemma_models(values@);
                    lemma_models(copies@);
                    assert(models(copies@) =~= models(values@));
                }
                Json::Array(copies)
            },
            Json::Object(fields) => {
                let mut copies: Vec<(String, Json)> = Vec::new();
                let mut i: usize = 0;
                while i < fields.len()
                    invariant
                        i <= fields.len(),
                        *self == Json::Object(*fields),
                        copies.len() == i,
                        forall|j: int|
                            0 <= j < i ==> (#[trigger] copies@[j]).0@ == fields@[j].0@
                                && copies@[j].1.model() == fields@[j].1.model(),
                    decreases fields.len() - i,
                {
                    let name = fields[i].0.clone();
                    assert(decreases_to!(*self => self->Object_0));
                    assert(decreases_to!(self->Object_0 => self->Object_0@));
                    assert(decreases_to!(self->Object_0@ => self->Object_0@[i as int]));
                    assert(decreases_to!(self->Object_0@[i as int] => self->Object_0@[i as int].1));
                    let copy = (&fields[i].1).clone();
                    copies.push((name, copy));
                    i = i + 1;
                }
                proof {
                    lemma_field_models(fields@);
                    lemma_field_models(copies@);
                    assert(field_models(copies@) =~= field_models(fields@));
                }
                Json::Object(copies)
            },
        }
    }
}

/// Puts a value under a name, in place of what was there.
pub(crate) fn put(fields: &mut Vec<(String, Json)>, name: String, value: Json)
    ensures
        field_models(final(fields)@) == entries::with(
            field_models(old(fields)@),
            name@,
            value.model(),
        ),
{
    let ghost start = fields@;
    let ghost view = field_models(start);
    let ghost q = entries::from::<JsonModel>(name@);
    let ghost entry = (name@, value.model());
    proof {
        lemma_field_models(start);
    }
    let at: usize = place_for(fields, name.as_str());
    proof {
        assert forall|j: int| 0 <= j < at implies !q(#[trigger] view[j]) by {
            assert(entries::before(start[j].0@, name@));
        }
        if at < fields.len() {
            assert(q(view[at as int]));
            search::lemma_first_index(view, q, at as int);
        } else {
            search::lemma_no_first_index(view, q);
        }
    }
    if at < fields.len() && crate::text::same(fields[at].0.as_str(), name.as_str()) {
        fields.set(at, (name, value));
    } else {
        fields.insert(at, (name, value));
    }
    proof {
        lemma_field_models(fields@);
        assert(field_models(fields@) =~= entries::with(view, entry.0, entry.1));
    }
}

/// What is under a name.
pub fn field<'a>(fields: &'a Vec<(String, Json)>, name: &str) -> (value: Option<&'a Json>)
    ensures
        entries::lookup(field_models(fields@), name@) == match value {
            Some(value) => Some(value.model()),
            None => None,
        },
{
    let ghost view = field_models(fields@);
    let ghost p = entries::named::<JsonModel>(name@);
    proof {
        lemma_field_models(fields@);
    }
    let mut i: usize = 0;
    while i < fields.len()
        invariant
            i <= fields.len(),
            view == field_models(fields@),
            view.len() == fields.len(),
            p == entries::named::<JsonModel>(name@),
            forall|j: int|
                0 <= j < fields.len() ==> #[trigger] view[j] == (
                    fields@[j].0@,
                    fields@[j].1.model(),
                ),
            forall|j: int| 0 <= j < i ==> !p(#[trigger] view[j]),
        decreases fields.len() - i,
    {
        if crate::text::same(fields[i].0.as_str(), name) {
            proof {
                search::lemma_first_index(view, p, i as int);
            }
            return Some(&fields[i].1);
        }
        i = i + 1;
    }
    proof {
        search::lemma_no_first_index(view, p);
    }
    None
}

/// Fields with others put over them, in order.
pub open spec fn overlaid(
    fields: Seq<(Seq<char>, JsonModel)>,
    others: Seq<(Seq<char>, JsonModel)>,
) -> Seq<(Seq<char>, JsonModel)>
    decreases others.len(),
{
    if others.len() == 0 {
        fields
    } else {
        entries::with(
            overlaid(fields, others.drop_last()),
            others.last().0,
            others.last().1,
        )
    }
}

/// Puts fields over others, in order.
fn extend(fields: &mut Vec<(String, Json)>, others: &Vec<(String, Json)>)
    ensures
        field_models(final(fields)@) == overlaid(
            field_models(old(fields)@),
            field_models(others@),
        ),
{
    let ghost start = field_models(fields@);
    let ghost all = field_models(others@);
    proof {
        lemma_field_models(others@);
    }
    let mut i: usize = 0;
    assert(all.take(0) =~= Seq::empty());
    while i < others.len()
        invariant
            i <= others.len(),
            all == field_models(others@),
            all.len() == others.len(),
            forall|j: int|
                0 <= j < others.len() ==> #[trigger] all[j] == (
                    others@[j].0@,
                    others@[j].1.model(),
                ),
            field_models(fields@) == overlaid(start, all.take(i as int)),
        decreases others.len() - i,
    {
        proof {
            assert(all.take(i + 1).drop_last() =~= all.take(i as int));
            assert(all.take(i + 1).last() == all[i as int]);
        }
        put(fields, others[i].0.clone(), others[i].1.clone());
        i = i + 1;
    }
    assert(all.take(i as int) =~= all);
}

/// A document with its kind as a field: an object with one field, whose name is
/// the kind, becomes an object with the kind under `tag` and the fields of the
/// payload, which may be missing, or be kept under `value` where it has no
/// fields. Any other document stays what it is.
pub open spec fn flattened(value: JsonModel, tag: Seq<char>) -> JsonModel {
    match value {
        JsonModel::Object(outer) => if outer.len() != 1 {
            value
        } else {
            let kind = seq![(tag, JsonModel::Text(outer[0].0))];
            JsonModel::Object(
                match outer[0].1 {
                    JsonModel::Object(fields) => overlaid(kind, fields),
                    JsonModel::Null => kind,
                    other => entries::with(kind, "value"@, other),
                },
            )
        },
        _ => value,
    }
}

/// Turns a kind around the fields into a field of its own.
pub fn flatten_tag(value: Json, tag: &str) -> (flat: Json)
    ensures
        flat.model() == flattened(value.model(), tag@),
{
    let outer = match &value {
        Json::Object(outer) => outer,
        _ => return value,
    };
    proof {
        lemma_field_models(outer@);
    }
    if outer.len() != 1 {
        return value;
    }
    let mut flat: Vec<(String, Json)> = Vec::new();
    flat.push((tag.to_owned(), Json::Text(outer[0].0.clone())));
    proof {
        lemma_field_models(flat@);
        assert(field_models(flat@) =~= seq![
            (tag@, JsonModel::Text(field_models(outer@)[0].0)),
        ]);
        assert(field_models(outer@)[0] == (outer@[0].0@, outer@[0].1.model()));
    }
    match &outer[0].1 {
        Json::Object(fields) => extend(&mut flat, fields),
        Json::Null => {},
        other => put(&mut flat, "value".to_owned(), other.clone()),
    }
    Json::Object(flat)
}

/// A flattened document tells its kind under the tag, unless the payload has a
/// field of that name.
pub proof fn law_flattened_tells_its_kind(kind: Seq<char>, payload: JsonModel, tag: Seq<char>)
    requires
        tag != "value"@,
        payload matches JsonModel::Object(fields) ==> entries::is_sorted(fields)
            && entries::lookup(fields, tag) is None,
    ensures
        ({
            let flat = flattened(JsonModel::Object(seq![(kind, payload)]), tag);
            flat is Object && entries::lookup(flat->Object_0, tag) == Some(JsonModel::Text(kind))
        }),
{
    let first = seq![(tag, JsonModel::Text(kind))];
    entries::lemma_lookup_at(first, 0);
    match payload {
        JsonModel::Object(fields) => {
            lemma_overlaid(first, fields, tag);
        },
        JsonModel::Null => {},
        other => {
            entries::law_with_sets_one(first, "value"@, other, tag);
        },
    }
}

/// Fields that are put over others leave those with other names.
proof fn lemma_overlaid(
    fields: Seq<(Seq<char>, JsonModel)>,
    others: Seq<(Seq<char>, JsonModel)>,
    name: Seq<char>,
)
    requires
        entries::is_sorted(fields),
        entries::lookup(others, name) is None,
    ensures
        entries::is_sorted(overlaid(fields, others)),
        entries::lookup(overlaid(fields, others), name) == entries::lookup(fields, name),
    decreases others.len(),
{
    if others.len() > 0 {
        let head = others.drop_last();
        let last = others.last();
        let p = entries::named::<JsonModel>(name);
        search::lemma_first_index_meaning(others, p);
        assert forall|j: int| 0 <= j < head.len() implies !p(#[trigger] head[j]) by {
            assert(!p(others[j]));
        }
        search::lemma_no_first_index(head, p);
        lemma_overlaid(fields, head, name);
        assert(!p(others[others.len() - 1]));
        entries::law_with_sets_one(overlaid(fields, head), last.0, last.1, name);
    }
}

} // verus!
