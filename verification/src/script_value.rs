//! The values that scripts store.
use vstd::prelude::*;

use crate::entries;
use crate::entries::place_for;
use crate::number::Number;
use crate::search;
use crate::text::same;

pub mod convert;

verus! {

/// Any value that a script can store. Whole numbers and fractions are kept
/// apart: a script keeps the numbers of windows, and those have to keep every
/// digit.
#[derive(Debug)]
pub enum ScriptValue {
    Null,
    Bool(bool),
    Int(i64),
    Float(Number),
    Str(String),
    List(Vec<ScriptValue>),
    /// Sorted by name, so that what is saved does not change its order.
    Table(Vec<(String, ScriptValue)>),
}

/// What a [`ScriptValue`] holds.
pub enum Value {
    Null,
    Bool(bool),
    Int(i64),
    /// A fraction by its bits.
    Float(u64),
    Str(Seq<char>),
    List(Seq<Value>),
    Table(Seq<(Seq<char>, Value)>),
}

/// What some values hold.
pub open spec fn models(values: Seq<ScriptValue>) -> Seq<Value>
    decreases values,
{
    if values.len() == 0 {
        Seq::empty()
    } else {
        models(values.subrange(0, values.len() - 1)).push(values[values.len() - 1].model())
    }
}

/// What some named values hold.
pub open spec fn entry_models(values: Seq<(String, ScriptValue)>) -> Seq<(Seq<char>, Value)>
    decreases values,
{
    if values.len() == 0 {
        Seq::empty()
    } else {
        let last = values[values.len() - 1];
        entry_models(values.subrange(0, values.len() - 1)).push((last.0@, last.1.model()))
    }
}

impl ScriptValue {
    /// What the value holds.
    pub open spec fn model(self) -> Value
        decreases self,
    {
        match self {
            ScriptValue::Null => Value::Null,
            ScriptValue::Bool(value) => Value::Bool(value),
            ScriptValue::Int(value) => Value::Int(value),
            ScriptValue::Float(value) => Value::Float(value.bits),
            ScriptValue::Str(value) => Value::Str(value@),
            ScriptValue::List(values) => Value::List(models(values@)),
            ScriptValue::Table(values) => Value::Table(entry_models(values@)),
        }
    }
}

/// What some values hold, one by one.
pub proof fn lemma_models(values: Seq<ScriptValue>)
    ensures
        models(values).len() == values.len(),
        forall|i: int| 0 <= i < values.len() ==> #[trigger] models(values)[i] == values[i].model(),
    decreases values.len(),
{
    if values.len() > 0 {
        let head = values.subrange(0, values.len() - 1);
        lemma_models(head);
        assert forall|i: int| 0 <= i < values.len() implies #[trigger] models(values)[i]
            == values[i].model() by {
            if i < head.len() {
                assert(models(values)[i] == models(head)[i]);
                assert(head[i] == values[i]);
            }
        }
    }
}

/// What some named values hold, one by one.
pub proof fn lemma_entry_models(values: Seq<(String, ScriptValue)>)
    ensures
        entry_models(values).len() == values.len(),
        forall|i: int|
            0 <= i < values.len() ==> #[trigger] entry_models(values)[i] == (
                values[i].0@,
                values[i].1.model(),
            ),
    decreases values.len(),
{
    if values.len() > 0 {
        let head = values.subrange(0, values.len() - 1);
        lemma_entry_models(head);
        assert forall|i: int| 0 <= i < values.len() implies #[trigger] entry_models(values)[i] == (
            values[i].0@,
            values[i].1.model(),
        ) by {
            if i < head.len() {
                assert(entry_models(values)[i] == entry_models(head)[i]);
                assert(head[i] == values[i]);
            }
        }
    }
}

/// Whether two texts are equal.
fn same_string(a: &String, b: &String) -> (equal: bool)
    ensures
        equal == (a@ == b@),
{
    same(a.as_str(), b.as_str())
}

impl ScriptValue {
    /// Whether two values are equal. Fractions are by their bits, so that even
    /// what is not a number is still what was last written.
    pub fn equals(&self, other: &ScriptValue) -> (equal: bool)
        ensures
            equal == (self.model() == other.model()),
        decreases self,
    {
        match (self, other) {
            (ScriptValue::Null, ScriptValue::Null) => true,
            (ScriptValue::Bool(a), ScriptValue::Bool(b)) => *a == *b,
            (ScriptValue::Int(a), ScriptValue::Int(b)) => *a == *b,
            (ScriptValue::Float(a), ScriptValue::Float(b)) => a.bits == b.bits,
            (ScriptValue::Str(a), ScriptValue::Str(b)) => same_string(a, b),
            (ScriptValue::List(a), ScriptValue::List(b)) => {
                proof {
                    lemma_models(a@);
                    lemma_models(b@);
                }
                if a.len() != b.len() {
                    return false;
                }
                let mut i: usize = 0;
                while i < a.len()
                    invariant
                        i <= a.len(),
                        a.len() == b.len(),
                        *self == ScriptValue::List(*a),
                        *other == ScriptValue::List(*b),
                        models(a@).len() == a.len(),
                        models(b@).len() == b.len(),
                        forall|j: int|
                            0 <= j < a.len() ==> #[trigger] models(a@)[j] == a@[j].model(),
                        forall|j: int|
                            0 <= j < b.len() ==> #[trigger] models(b@)[j] == b@[j].model(),
                        forall|j: int| 0 <= j < i ==> models(a@)[j] == models(b@)[j],
                    decreases a.len() - i,
                {
                    assert(models(a@)[i as int] == a@[i as int].model());
                    assert(models(b@)[i as int] == b@[i as int].model());
                    if !a[i].equals(&b[i]) {
                        return false;
                    }
                    i = i + 1;
                }
                assert(models(a@) =~= models(b@));
                true
            },
            (ScriptValue::Table(a), ScriptValue::Table(b)) => {
                proof {
                    lemma_entry_models(a@);
                    lemma_entry_models(b@);
                }
                if a.len() != b.len() {
                    return false;
                }
                let mut i: usize = 0;
                while i < a.len()
                    invariant
                        i <= a.len(),
                        a.len() == b.len(),
                        *self == ScriptValue::Table(*a),
                        *other == ScriptValue::Table(*b),
                        entry_models(a@).len() == a.len(),
                        entry_models(b@).len() == b.len(),
                        forall|j: int|
                            0 <= j < a.len() ==> #[trigger] entry_models(a@)[j] == (
                                a@[j].0@,
                                a@[j].1.model(),
                            ),
                        forall|j: int|
                            0 <= j < b.len() ==> #[trigger] entry_models(b@)[j] == (
                                b@[j].0@,
                                b@[j].1.model(),
                            ),
                        forall|j: int| 0 <= j < i ==> entry_models(a@)[j] == entry_models(b@)[j],
                    decreases a.len() - i,
                {
                    assert(entry_models(a@)[i as int] == (a@[i as int].0@, a@[i as int].1.model()));
                    assert(entry_models(b@)[i as int] == (b@[i as int].0@, b@[i as int].1.model()));
                    if !same_string(&a[i].0, &b[i].0) || !a[i].1.equals(&b[i].1) {
                        return false;
                    }
                    i = i + 1;
                }
                assert(entry_models(a@) =~= entry_models(b@));
                true
            },
            _ => false,
        }
    }

    /// The value as a text, if it is one.
    pub fn as_str(&self) -> (text: Option<&str>)
        ensures
            match self.model() {
                Value::Str(value) => text is Some && text->0@ == value,
                _ => text is None,
            },
    {
        match self {
            ScriptValue::Str(value) => Some(value.as_str()),
            _ => None,
        }
    }

    /// Whether the value is [`ScriptValue::Null`].
    pub fn is_null(&self) -> (null: bool)
        ensures
            null == (self.model() is Null),
    {
        match self {
            ScriptValue::Null => true,
            _ => false,
        }
    }
}

impl Clone for ScriptValue {
    fn clone(&self) -> (copy: Self)
        ensures
            copy.model() == self.model(),
        decreases self,
    {
        match self {
            ScriptValue::Null => ScriptValue::Null,
            ScriptValue::Bool(value) => ScriptValue::Bool(*value),
            ScriptValue::Int(value) => ScriptValue::Int(*value),
            ScriptValue::Float(value) => ScriptValue::Float(*value),
            ScriptValue::Str(value) => ScriptValue::Str(value.clone()),
            ScriptValue::List(values) => {
                let mut copies: Vec<ScriptValue> = Vec::new();
                let mut i: usize = 0;
                while i < values.len()
                    invariant
                        i <= values.len(),
                        *self == ScriptValue::List(*values),
                        copies.len() == i,
                        forall|j: int| 0 <= j < i ==> (#[trigger] copies@[j]).model() == values@[j].model(),
                    decreases values.len() - i,
                {
                    assert(decreases_to!(*self => self->List_0));
                    assert(decreases_to!(self->List_0 => self->List_0@));
                    assert(decreases_to!(self->List_0@ => self->List_0@[i as int]));
                    let copy = (&values[i]).clone();
                    copies.push(copy);
                    i = i + 1;
                }
                proof {
                    lemma_models(values@);
                    lemma_models(copies@);
                    assert(models(copies@) =~= models(values@));
                }
                ScriptValue::List(copies)
            },
            ScriptValue::Table(values) => {
                let mut copies: Vec<(String, ScriptValue)> = Vec::new();
                let mut i: usize = 0;
                while i < values.len()
                    invariant
                        i <= values.len(),
                        *self == ScriptValue::Table(*values),
                        copies.len() == i,
                        forall|j: int|
                            0 <= j < i ==> (#[trigger] copies@[j]).0@ == values@[j].0@
                                && copies@[j].1.model() == values@[j].1.model(),
                    decreases values.len() - i,
                {
                    let name = values[i].0.clone();
                    assert(decreases_to!(*self => self->Table_0));
                    assert(decreases_to!(self->Table_0 => self->Table_0@));
                    assert(decreases_to!(self->Table_0@ => self->Table_0@[i as int]));
                    assert(decreases_to!(self->Table_0@[i as int] => self->Table_0@[i as int].1));
                    let copy = (&values[i].1).clone();
                    copies.push((name, copy));
                    i = i + 1;
                }
                proof {
                    lemma_entry_models(values@);
                    lemma_entry_models(copies@);
                    assert(entry_models(copies@) =~= entry_models(values@));
                }
                ScriptValue::Table(copies)
            },
        }
    }
}

/// Puts a value under a name, in place of what was there.
pub(crate) fn put(values: &mut Vec<(String, ScriptValue)>, name: String, value: ScriptValue)
    ensures
        entry_models(final(values)@) == entries::with(
            entry_models(old(values)@),
            name@,
            value.model(),
        ),
{
    let ghost start = values@;
    let ghost view = entry_models(start);
    let ghost q = entries::from::<Value>(name@);
    let ghost entry = (name@, value.model());
    proof {
        lemma_entry_models(start);
    }
    let at: usize = place_for(values, name.as_str());
    proof {
        assert forall|j: int| 0 <= j < at implies !q(#[trigger] view[j]) by {
            assert(entries::before(start[j].0@, name@));
        }
        if at < values.len() {
            assert(q(view[at as int]));
            search::lemma_first_index(view, q, at as int);
        } else {
            search::lemma_no_first_index(view, q);
        }
    }
    if at < values.len() && same(values[at].0.as_str(), name.as_str()) {
        values.set(at, (name, value));
    } else {
        values.insert(at, (name, value));
    }
    proof {
        lemma_entry_models(values@);
        assert(entry_models(values@) =~= entries::with(view, entry.0, entry.1));
    }
}

/// Where a name is in a table.
pub(crate) fn find(values: &Vec<(String, ScriptValue)>, name: &str) -> (found: Option<usize>)
    ensures
        found is Some == search::first_index(
            entry_models(values@),
            entries::named(name@),
        ) is Some,
        found is Some ==> found->0 < values.len() && search::first_index(
            entry_models(values@),
            entries::named(name@),
        ) == Some(found->0 as int) && entries::lookup(entry_models(values@), name@) == Some(
            values@[found->0 as int].1.model(),
        ),
        found is None ==> entries::lookup(entry_models(values@), name@) is None,
{
    let ghost view = entry_models(values@);
    let ghost p = entries::named::<Value>(name@);
    proof {
        lemma_entry_models(values@);
    }
    let mut i: usize = 0;
    while i < values.len()
        invariant
            i <= values.len(),
            view == entry_models(values@),
            view.len() == values.len(),
            p == entries::named::<Value>(name@),
            forall|j: int|
                0 <= j < values.len() ==> #[trigger] view[j] == (
                    values@[j].0@,
                    values@[j].1.model(),
                ),
            forall|j: int| 0 <= j < i ==> !p(#[trigger] view[j]),
        decreases values.len() - i,
    {
        if same(values[i].0.as_str(), name) {
            proof {
                search::lemma_first_index(view, p, i as int);
            }
            return Some(i);
        }
        i = i + 1;
    }
    proof {
        search::lemma_no_first_index(view, p);
    }
    None
}

} // verus!
