//! The table of values that scripts own.
//!
//! Scripts and clients write to it, so it is the one place that decides what a
//! write is measured against: a write that expects a value only lands where that
//! is still what is there.
use vstd::prelude::*;
use vstd::string::*;

use crate::entries;
use crate::json;
use crate::json::{Json, JsonModel, JsonNumber};
use crate::script_value;
use crate::script_value::convert;
use crate::script_value::{find, put, ScriptValue, Value};
use crate::search;
use crate::text::letters;

verus! {

/// The version of the file that the table is saved in.
pub const SUPPORTED_SCRIPT_STATE_VERSION: u32 = 1;

/// A value that may be missing.
pub open spec fn optional(value: Option<ScriptValue>) -> Option<Value> {
    match value {
        Some(value) => Some(value.model()),
        None => None,
    }
}

/// A copy of a value that may be missing.
fn copy_of(value: &Option<ScriptValue>) -> (copy: Option<ScriptValue>)
    ensures
        optional(copy) == optional(*value),
{
    match value {
        Some(value) => Some(value.clone()),
        None => None,
    }
}

/// Whether two values that may be missing are equal.
fn equal(a: Option<&ScriptValue>, b: Option<&ScriptValue>) -> (equal: bool)
    ensures
        equal == (match a {
            Some(a) => Some(a.model()),
            None => None,
        } == match b {
            Some(b) => Some(b.model()),
            None => None,
        }),
{
    match (a, b) {
        (Some(a), Some(b)) => a.equals(b),
        (None, None) => true,
        _ => false,
    }
}

/// The table.
#[derive(Debug)]
pub struct ScriptState {
    values: Vec<(String, ScriptValue)>,
}

impl View for ScriptState {
    type V = Seq<(Seq<char>, Value)>;

    closed spec fn view(&self) -> Seq<(Seq<char>, Value)> {
        script_value::entry_models(self.values@)
    }
}

impl Default for ScriptState {
    fn default() -> (state: Self)
        ensures
            state@ == Seq::<(Seq<char>, Value)>::empty(),
            state.wf(),
    {
        ScriptState { values: Vec::new() }
    }
}

impl Clone for ScriptState {
    fn clone(&self) -> (copy: Self)
        ensures
            copy@ == self@,
    {
        let mut values: Vec<(String, ScriptValue)> = Vec::new();
        let mut i: usize = 0;
        while i < self.values.len()
            invariant
                i <= self.values.len(),
                values.len() == i,
                forall|j: int|
                    0 <= j < i ==> (#[trigger] values@[j]).0@ == self.values@[j].0@
                        && values@[j].1.model() == self.values@[j].1.model(),
            decreases self.values.len() - i,
        {
            values.push((self.values[i].0.clone(), self.values[i].1.clone()));
            i = i + 1;
        }
        proof {
            script_value::lemma_entry_models(values@);
            script_value::lemma_entry_models(self.values@);
            assert(script_value::entry_models(values@) =~= script_value::entry_models(
                self.values@,
            ));
        }
        ScriptState { values }
    }
}

/// What is asked of the table: a value under a key, or nothing there any more,
/// perhaps only where the key still holds what is expected.
#[derive(Debug)]
pub struct ScriptStateWrite {
    pub key: String,
    pub expected: Option<Option<ScriptValue>>,
    pub value: Option<ScriptValue>,
}

/// What a [`ScriptStateWrite`] holds.
pub struct WriteModel {
    pub key: Seq<char>,
    pub expected: Option<Option<Value>>,
    pub value: Option<Value>,
}

impl View for ScriptStateWrite {
    type V = WriteModel;

    open spec fn view(&self) -> WriteModel {
        WriteModel {
            key: self.key@,
            expected: match self.expected {
                Some(expected) => Some(optional(expected)),
                None => None,
            },
            value: optional(self.value),
        }
    }
}

impl ScriptStateWrite {
    /// Puts a value under a key, whatever is there.
    pub fn set(key: String, value: ScriptValue) -> (write: Self)
        ensures
            write@ == (WriteModel { key: key@, expected: None, value: Some(value.model()) }),
    {
        ScriptStateWrite { key, expected: None, value: Some(value) }
    }

    /// Takes away what is under a key.
    pub fn remove(key: String) -> (write: Self)
        ensures
            write@ == (WriteModel { key: key@, expected: None, value: None }),
    {
        ScriptStateWrite { key, expected: None, value: None }
    }

    /// Puts a value under a key, or takes away what is there if there is none.
    pub fn assign(key: String, value: Option<ScriptValue>) -> (write: Self)
        ensures
            write@ == (WriteModel { key: key@, expected: None, value: optional(value) }),
    {
        match value {
            Some(value) => Self::set(key, value),
            None => Self::remove(key),
        }
    }

    /// Puts a value under a key or takes it away, if the key still holds what is
    /// expected.
    pub fn compare_and_set(
        key: String,
        expected: Option<ScriptValue>,
        value: Option<ScriptValue>,
    ) -> (write: Self)
        ensures
            write@ == (WriteModel {
                key: key@,
                expected: Some(optional(expected)),
                value: optional(value),
            }),
    {
        ScriptStateWrite { key, expected: Some(expected), value }
    }
}

/// What became of a write.
#[derive(Debug)]
pub enum WriteOutcome {
    /// It was done, though it may have changed nothing.
    Applied { changed: bool },
    /// The key does not hold what was expected, but this.
    Conflict { current: Option<ScriptValue> },
}

/// What a [`WriteOutcome`] holds.
pub enum OutcomeModel {
    Applied { changed: bool },
    Conflict { current: Option<Value> },
}

impl View for WriteOutcome {
    type V = OutcomeModel;

    open spec fn view(&self) -> OutcomeModel {
        match self {
            WriteOutcome::Applied { changed } => OutcomeModel::Applied { changed: *changed },
            WriteOutcome::Conflict { current } => OutcomeModel::Conflict {
                current: optional(*current),
            },
        }
    }
}

/// The key does not hold what the write expects.
pub open spec fn conflicts(state: Seq<(Seq<char>, Value)>, write: WriteModel) -> bool {
    write.expected is Some && write.expected->0 != entries::lookup(state, write.key)
}

/// The write would change nothing.
pub open spec fn changes_nothing(state: Seq<(Seq<char>, Value)>, write: WriteModel) -> bool {
    write.value == entries::lookup(state, write.key)
}

/// The table after a write.
pub open spec fn written(state: Seq<(Seq<char>, Value)>, write: WriteModel) -> Seq<
    (Seq<char>, Value),
> {
    match write.value {
        Some(value) => entries::with(state, write.key, value),
        None => entries::without(state, write.key),
    }
}

/// The message for a write without a key.
pub open spec fn no_key() -> Seq<char> {
    "a key must not be empty"@
}

/// The message for a write that makes the table too large.
pub open spec fn too_large() -> Seq<char> {
    "the write would push the store past its size limit"@
}

/// What follows from a write to a table. `oversized` says that the table after
/// the write is too large.
pub open spec fn is_applied(
    before: Seq<(Seq<char>, Value)>,
    write: WriteModel,
    oversized: bool,
    after: Seq<(Seq<char>, Value)>,
    outcome: Result<WriteOutcome, String>,
) -> bool {
    if write.key.len() == 0 {
        outcome is Err && outcome->Err_0@ == no_key() && after == before
    } else if conflicts(before, write) {
        outcome is Ok && outcome->Ok_0@ == (OutcomeModel::Conflict {
            current: entries::lookup(before, write.key),
        }) && after == before
    } else if changes_nothing(before, write) {
        outcome is Ok && outcome->Ok_0@ == (OutcomeModel::Applied { changed: false }) && after
            == before
    } else if write.value is Some && oversized {
        outcome is Err && outcome->Err_0@ == too_large() && after == before
    } else {
        outcome is Ok && outcome->Ok_0@ == (OutcomeModel::Applied { changed: true }) && after
            == written(before, write)
    }
}

/// The size of the table after a write is measured: the write adds a value.
pub open spec fn is_measured(state: Seq<(Seq<char>, Value)>, write: WriteModel) -> bool {
    &&& write.key.len() > 0
    &&& !conflicts(state, write)
    &&& !changes_nothing(state, write)
    &&& write.value is Some
}

/// What follows from a write, where `measure` tells how large a table is.
pub open spec fn applied_by<F: FnOnce(&ScriptState) -> usize>(
    before: Seq<(Seq<char>, Value)>,
    write: WriteModel,
    limit: usize,
    measure: F,
    after: Seq<(Seq<char>, Value)>,
    outcome: Result<WriteOutcome, String>,
) -> bool {
    exists|oversized: bool| #[trigger]
        is_applied(before, write, oversized, after, outcome) && is_told(
            before,
            write,
            limit,
            measure,
            oversized,
        )
}

/// That the table would be too large is what `measure` tells, where it is asked.
pub open spec fn is_told<F: FnOnce(&ScriptState) -> usize>(
    before: Seq<(Seq<char>, Value)>,
    write: WriteModel,
    limit: usize,
    measure: F,
    oversized: bool,
) -> bool {
    is_measured(before, write) ==> exists|next: ScriptState, size: usize| #[trigger]
        call_ensures(measure, (&next,), size) && next@ == written(before, write) && oversized == (
        size > limit)
}

/// The table that some fields are stored as is sorted.
proof fn lemma_stored_is_sorted(fields: Seq<(Seq<char>, JsonModel)>)
    ensures
        entries::is_sorted(convert::stored_fields(fields)),
    decreases fields.len(),
{
    if fields.len() > 0 {
        let rest = fields.subrange(0, fields.len() - 1);
        let last = fields[fields.len() - 1];
        lemma_stored_is_sorted(rest);
        entries::law_with_sets_one(
            convert::stored_fields(rest),
            last.0,
            convert::stored(last.1),
            last.0,
        );
    }
}

impl ScriptState {
    /// The table is sorted by its keys, none of which is there twice.
    pub open spec fn wf(self) -> bool {
        entries::is_sorted(self@)
    }

    /// The document that the table is saved as.
    pub fn to_json(&self) -> (document: Json)
        ensures
            document.model() == convert::shown(Value::Table(self@)),
    {
        let table = ScriptValue::Table(self.clone().values);
        table.to_json()
    }

    /// The table that a document holds, if it is an object.
    pub fn from_json(document: &Json) -> (state: Option<Self>)
        ensures
            state is Some <==> document.model() is Object,
            state matches Some(state) ==> state.wf() && Value::Table(state@) == convert::stored(
                document.model(),
            ),
    {
        if let Json::Object(_) = document {
        } else {
            return None;
        }
        match ScriptValue::from_json(document) {
            ScriptValue::Table(values) => {
                let state = ScriptState { values };
                proof {
                    lemma_stored_is_sorted(document.model()->Object_0);
                }
                Some(state)
            },
            _ => None,
        }
    }

    /// What is under a key.
    pub fn get(&self, key: &str) -> (value: Option<&ScriptValue>)
        ensures
            entries::lookup(self@, key@) == match value {
                Some(value) => Some(value.model()),
                None => None,
            },
    {
        match find(&self.values, key) {
            Some(i) => Some(&self.values[i].1),
            None => None,
        }
    }

    /// Whether nothing is stored.
    pub fn is_empty(&self) -> (empty: bool)
        ensures
            empty == (self@.len() == 0),
    {
        proof {
            script_value::lemma_entry_models(self.values@);
        }
        self.values.len() == 0
    }

    /// Takes away what is under a key.
    fn take(&mut self, key: &str)
        ensures
            final(self)@ == entries::without(old(self)@, key@),
    {
        let ghost start = self.values@;
        let ghost view = self@;
        if let Some(i) = find(&self.values, key) {
            self.values.remove(i);
            proof {
                script_value::lemma_entry_models(start);
                script_value::lemma_entry_models(self.values@);
                assert(self@ =~= view.remove(i as int));
            }
        }
    }

    /// Does a write. `measure` tells how large a table is; one that a write would
    /// make larger than `limit` is left alone.
    pub fn apply<F: FnOnce(&ScriptState) -> usize>(
        &mut self,
        write: &ScriptStateWrite,
        limit: usize,
        measure: F,
    ) -> (outcome: Result<WriteOutcome, String>)
        requires
            old(self).wf(),
            forall|state: ScriptState| #[trigger] call_requires(measure, (&state,)),
        ensures
            final(self).wf(),
            applied_by(old(self)@, write@, limit, measure, final(self)@, outcome),
    {
        let ghost before = self@;
        let ghost asked = write@;
        proof {
            match asked.value {
                Some(value) => entries::law_with_sets_one(before, asked.key, value, asked.key),
                None => entries::law_without_takes_one(before, asked.key, asked.key),
            }
        }
        if letters(write.key.as_str()).len() == 0 {
            let outcome = Err("a key must not be empty".to_owned());
            assert(is_applied(before, asked, false, self@, outcome));
            return outcome;
        }
        let current = self.get(write.key.as_str());
        if let Some(expected) = &write.expected {
            let wanted = match expected {
                Some(value) => Some(value),
                None => None,
            };
            if !equal(wanted, current) {
                let current = match current {
                    Some(value) => Some(value.clone()),
                    None => None,
                };
                let outcome = Ok(WriteOutcome::Conflict { current });
                assert(is_applied(before, asked, false, self@, outcome));
                return outcome;
            }
        }
        let value = match &write.value {
            Some(value) => Some(value),
            None => None,
        };
        if equal(value, current) {
            let outcome = Ok(WriteOutcome::Applied { changed: false });
            assert(is_applied(before, asked, false, self@, outcome));
            return outcome;
        }
        match value {
            None => {
                self.take(write.key.as_str());
                let outcome = Ok(WriteOutcome::Applied { changed: true });
                assert(is_applied(before, asked, false, self@, outcome));
                outcome
            },
            Some(value) => {
                let mut next = self.clone();
                put(&mut next.values, write.key.clone(), value.clone());
                assert(next@ == written(before, asked));
                let size: usize = measure(&next);
                assert(call_ensures(measure, (&next,), size));
                if size > limit {
                    let outcome = Err(
                        "the write would push the store past its size limit".to_owned(),
                    );
                    assert(is_applied(before, asked, true, self@, outcome));
                    return outcome;
                }
                self.values = next.values;
                assert(self@ == written(before, asked));
                let outcome = Ok(WriteOutcome::Applied { changed: true });
                assert(is_applied(before, asked, false, self@, outcome));
                outcome
            },
        }
    }
}

/// A write under a key is what is read there afterwards, and nothing else
/// changes.
pub proof fn law_read_gives_back_what_was_written(
    before: Seq<(Seq<char>, Value)>,
    write: WriteModel,
    oversized: bool,
    after: Seq<(Seq<char>, Value)>,
    outcome: Result<WriteOutcome, String>,
    other: Seq<char>,
)
    requires
        entries::is_sorted(before),
        is_applied(before, write, oversized, after, outcome),
        outcome is Ok && outcome->Ok_0@ is Applied,
    ensures
        entries::lookup(after, write.key) == write.value,
        other != write.key ==> entries::lookup(after, other) == entries::lookup(before, other),
{
    match write.value {
        Some(value) => {
            entries::law_with_sets_one(before, write.key, value, write.key);
            entries::law_with_sets_one(before, write.key, value, other);
        },
        None => {
            entries::law_without_takes_one(before, write.key, write.key);
            entries::law_without_takes_one(before, write.key, other);
        },
    }
}

/// A refused write, and one that lost a race, leave the table alone.
pub proof fn law_refused_write_changes_nothing(
    before: Seq<(Seq<char>, Value)>,
    write: WriteModel,
    oversized: bool,
    after: Seq<(Seq<char>, Value)>,
    outcome: Result<WriteOutcome, String>,
)
    requires
        is_applied(before, write, oversized, after, outcome),
        outcome is Err || outcome->Ok_0@ is Conflict,
    ensures
        after == before,
{
}

/// No update is lost: of two writes that expect the same value under a key, the
/// second does not land once the first has changed it.
pub proof fn law_no_update_is_lost(
    before: Seq<(Seq<char>, Value)>,
    first: WriteModel,
    second: WriteModel,
    oversized: bool,
    between: Seq<(Seq<char>, Value)>,
    outcome: Result<WriteOutcome, String>,
)
    requires
        entries::is_sorted(before),
        is_applied(before, first, oversized, between, outcome),
        outcome is Ok && outcome->Ok_0@ == (OutcomeModel::Applied { changed: true }),
        first.expected is Some,
        second.key == first.key,
        second.expected == first.expected,
    ensures
        conflicts(between, second),
        entries::lookup(between, second.key) == first.value,
{
    law_read_gives_back_what_was_written(before, first, oversized, between, outcome, first.key);
}

// ---------------------------------------------------------------------------
// The store
// ---------------------------------------------------------------------------
/// The table, how often it was changed, and whether it is to be saved.
#[derive(Debug)]
pub struct ScriptStateStore {
    state: ScriptState,
    revision: u64,
    dirty: bool,
}

impl Default for ScriptStateStore {
    fn default() -> (store: Self)
        ensures
            store.wf(),
            store@ == Seq::<(Seq<char>, Value)>::empty(),
            store.spec_revision() == 0,
            !store.spec_dirty(),
    {
        ScriptStateStore { state: ScriptState::default(), revision: 0, dirty: false }
    }
}

impl View for ScriptStateStore {
    type V = Seq<(Seq<char>, Value)>;

    closed spec fn view(&self) -> Seq<(Seq<char>, Value)> {
        self.state@
    }
}

/// A table that was saved.
#[derive(Debug)]
pub struct SavedScriptState {
    pub version: u32,
    pub state: ScriptState,
}

/// The document of a version and a table.
pub open spec fn saved_document(version: u32, table: Seq<(Seq<char>, Value)>) -> JsonModel {
    JsonModel::Object(
        seq![
            ("state"@, convert::shown(Value::Table(table))),
            ("version"@, JsonModel::Number(JsonNumber::Whole(version as i64))),
        ],
    )
}

/// The version that a document gives, if it is one.
pub open spec fn read_version(document: Option<JsonModel>) -> Option<u32> {
    match document {
        Some(JsonModel::Number(JsonNumber::Whole(n))) => if 0 <= n <= u32::MAX {
            Some(n as u32)
        } else {
            None
        },
        Some(JsonModel::Number(JsonNumber::Natural(n))) => if n <= u32::MAX {
            Some(n as u32)
        } else {
            None
        },
        _ => None,
    }
}

/// The version and the table that a document was saved with, if it is such a
/// document: an object with a version and a table. Other fields do not matter.
pub open spec fn read_saved(document: JsonModel) -> Option<(u32, Value)> {
    match document {
        JsonModel::Object(fields) => match (
            read_version(entries::lookup(fields, "version"@)),
            entries::lookup(fields, "state"@),
        ) {
            (Some(version), Some(state)) => if state is Object {
                Some((version, convert::stored(state)))
            } else {
                None
            },
            _ => None,
        },
        _ => None,
    }
}

impl SavedScriptState {
    /// The document that is saved.
    pub fn to_json(&self) -> (document: Json)
        ensures
            document.model() == saved_document(self.version, self.state@),
    {
        let mut fields: Vec<(String, Json)> = Vec::new();
        fields.push(("state".to_owned(), self.state.to_json()));
        fields.push(
            ("version".to_owned(), Json::Number(JsonNumber::Whole(self.version as i64))),
        );
        proof {
            json::lemma_field_models(fields@);
            assert(json::field_models(fields@) =~= saved_document(
                self.version,
                self.state@,
            )->Object_0);
        }
        Json::Object(fields)
    }

    /// What a document was saved from, if it is such a document.
    pub fn from_json(document: &Json) -> (saved: Option<Self>)
        ensures
            match read_saved(document.model()) {
                Some((version, table)) => saved is Some && saved->0.version == version
                    && Value::Table(saved->0.state@) == table && saved->0.state.wf(),
                None => saved is None,
            },
    {
        let fields = match document {
            Json::Object(fields) => fields,
            _ => return None,
        };
        let version: u32 = match json::field(fields, "version") {
            Some(Json::Number(JsonNumber::Whole(n))) => if 0 <= *n && *n <= 0xFFFF_FFFF {
                *n as u32
            } else {
                return None;
            },
            Some(Json::Number(JsonNumber::Natural(n))) => if *n <= 0xFFFF_FFFF {
                *n as u32
            } else {
                return None;
            },
            _ => return None,
        };
        match json::field(fields, "state") {
            Some(state) => match ScriptState::from_json(state) {
                Some(state) => Some(SavedScriptState { version, state }),
                None => None,
            },
            None => None,
        }
    }
}

/// A table that is saved reads back as it was, in the version that it was saved
/// in. What is no finite number cannot be written down, so the table holds none.
pub proof fn law_saved_table_reads_back(version: u32, table: Seq<(Seq<char>, Value)>)
    requires
        convert::is_showable(Value::Table(table)),
    ensures
        read_saved(saved_document(version, table)) == Some((version, Value::Table(table))),
{
    convert::law_shown_value_is_stored_again(Value::Table(table));
    reveal_strlit("state");
    reveal_strlit("version");
    let fields = saved_document(version, table)->Object_0;
    let state = entries::named::<JsonModel>("state"@);
    let named_version = entries::named::<JsonModel>("version"@);
    assert("state"@.len() != "version"@.len());
    search::lemma_first_index(fields, state, 0);
    search::lemma_first_index(fields, named_version, 1);
}

/// The table to start with: the one that was saved, if its version can be read.
pub open spec fn loaded(saved: Option<SavedScriptState>) -> Seq<(Seq<char>, Value)> {
    if saved is Some && saved->0.version == SUPPORTED_SCRIPT_STATE_VERSION {
        saved->0.state@
    } else {
        Seq::empty()
    }
}

/// The revision of a table after a write that changed something, or did not.
pub open spec fn revision_after(revision: u64, changed: bool) -> u64 {
    if changed {
        revision.wrapping_add(1)
    } else {
        revision
    }
}

/// A table is to be saved after a write that changed something, and stays so.
pub open spec fn dirty_after(dirty: bool, changed: bool) -> bool {
    dirty || changed
}

/// A change was made.
pub open spec fn is_change(outcome: Result<WriteOutcome, String>) -> bool {
    outcome is Ok && outcome->Ok_0@ == (OutcomeModel::Applied { changed: true })
}

impl ScriptStateStore {
    pub open spec fn wf(self) -> bool {
        entries::is_sorted(self@)
    }

    /// How often the table was changed.
    pub closed spec fn spec_revision(self) -> u64 {
        self.revision
    }

    /// The table has changed since it was last saved.
    pub closed spec fn spec_dirty(self) -> bool {
        self.dirty
    }

    /// The table that was saved, or an empty one where there is none, or it was
    /// saved in another version.
    pub fn load(saved: Option<SavedScriptState>) -> (store: Self)
        requires
            saved is Some ==> saved->0.state.wf(),
        ensures
            store.wf(),
            store.spec_revision() == 0,
            !store.spec_dirty(),
            store@ == loaded(saved),
    {
        match saved {
            Some(saved) => if saved.version == SUPPORTED_SCRIPT_STATE_VERSION {
                ScriptStateStore { state: saved.state, revision: 0, dirty: false }
            } else {
                ScriptStateStore::default()
            },
            None => ScriptStateStore::default(),
        }
    }

    /// How often the table was changed, for those who keep a copy.
    pub fn revision(&self) -> (revision: u64)
        ensures
            revision == self.spec_revision(),
    {
        self.revision
    }

    /// A copy of the table.
    pub fn snapshot(&self) -> (state: ScriptState)
        ensures
            state@ == self@,
    {
        self.state.clone()
    }

    /// The table.
    pub fn state(&self) -> (state: &ScriptState)
        ensures
            state@ == self@,
    {
        &self.state
    }

    /// Does a write, whoever asked for it. Only one that changes something counts
    /// as a new revision and is to be saved.
    pub fn apply<F: FnOnce(&ScriptState) -> usize>(
        &mut self,
        write: &ScriptStateWrite,
        limit: usize,
        measure: F,
    ) -> (outcome: Result<WriteOutcome, String>)
        requires
            old(self).wf(),
            forall|state: ScriptState| #[trigger] call_requires(measure, (&state,)),
        ensures
            final(self).wf(),
            applied_by(old(self)@, write@, limit, measure, final(self)@, outcome),
            final(self).spec_revision() == revision_after(
                old(self).spec_revision(),
                is_change(outcome),
            ),
            final(self).spec_dirty() == dirty_after(old(self).spec_dirty(), is_change(outcome)),
    {
        let outcome = self.state.apply(write, limit, measure);
        if let Ok(WriteOutcome::Applied { changed: true }) = &outcome {
            self.revision = self.revision.wrapping_add(1);
            self.dirty = true;
        }
        outcome
    }

    /// Saves the table if it has changed since the last time. `save` writes it and
    /// says whether that worked.
    pub fn save_if_dirty<F: FnOnce(&ScriptState) -> bool>(&mut self, save: F)
        requires
            old(self).spec_dirty() ==> forall|state: ScriptState| #[trigger]
                call_requires(save, (&state,)),
        ensures
            final(self)@ == old(self)@,
            final(self).spec_revision() == old(self).spec_revision(),
            !old(self).spec_dirty() ==> !final(self).spec_dirty(),
            old(self).spec_dirty() ==> exists|state: ScriptState, saved: bool| #[trigger]
                call_ensures(save, (&state,), saved) && state@ == old(self)@
                    && final(self).spec_dirty() == !saved,
    {
        if !self.dirty {
            return ;
        }
        let ghost state = self.state;
        let saved = save(&self.state);
        assert(call_ensures(save, (&state,), saved));
        if saved {
            self.dirty = false;
        }
    }
}

// ---------------------------------------------------------------------------
// Requests of clients
// ---------------------------------------------------------------------------
/// What a client wants of the table.
#[derive(Debug)]
pub enum ScriptStateRequest {
    Get { key: String },
    Write(ScriptStateWrite),
}

/// The answer to a [`ScriptStateRequest`].
#[derive(Debug)]
pub enum ScriptStateResponse {
    /// What is under the key.
    Value(Option<ScriptValue>),
    /// What became of a write.
    Write(WriteOutcome),
}

/// The reply says that a write changed something.
pub open spec fn tells_change(reply: Result<ScriptStateResponse, String>) -> bool {
    reply == Ok::<ScriptStateResponse, String>(
        ScriptStateResponse::Write(WriteOutcome::Applied { changed: true }),
    )
}

/// The answer of a table to a request: a message where there is none.
pub open spec fn answers(
    before: Seq<(Seq<char>, Value)>,
    request: ScriptStateRequest,
    oversized: bool,
    after: Seq<(Seq<char>, Value)>,
    reply: Result<ScriptStateResponse, String>,
) -> bool {
    match request {
        ScriptStateRequest::Get { key } => {
            &&& after == before
            &&& reply is Ok
            &&& reply->Ok_0 is Value
            &&& optional(reply->Ok_0->Value_0) == entries::lookup(before, key@)
        },
        ScriptStateRequest::Write(write) => match reply {
            Ok(response) => response is Write && is_applied(
                before,
                write@,
                oversized,
                after,
                Ok(response->Write_0),
            ),
            Err(message) => is_applied(before, write@, oversized, after, Err(message)),
        },
    }
}

/// Answers a request of a client. Only a write that changes something counts as a
/// new revision and is to be saved.
pub fn answer<F: FnOnce(&ScriptState) -> usize>(
    store: &mut ScriptStateStore,
    request: &ScriptStateRequest,
    limit: usize,
    measure: F,
) -> (reply: Result<ScriptStateResponse, String>)
    requires
        old(store).wf(),
        forall|state: ScriptState| #[trigger] call_requires(measure, (&state,)),
    ensures
        final(store).wf(),
        exists|oversized: bool| #[trigger]
            answers(old(store)@, *request, oversized, final(store)@, reply) && (
            request matches ScriptStateRequest::Write(write) ==> is_told(
                old(store)@,
                write@,
                limit,
                measure,
                oversized,
            )),
        final(store).spec_revision() == revision_after(
            old(store).spec_revision(),
            tells_change(reply),
        ),
        final(store).spec_dirty() == dirty_after(old(store).spec_dirty(), tells_change(reply)),
{
    let ghost before = store@;
    match request {
        ScriptStateRequest::Get { key } => {
            let value = match store.state().get(key.as_str()) {
                Some(value) => Some(value.clone()),
                None => None,
            };
            let reply = Ok(ScriptStateResponse::Value(value));
            assert(answers(before, *request, false, store@, reply));
            reply
        },
        ScriptStateRequest::Write(write) => {
            let outcome = store.apply(write, limit, measure);
            let ghost oversized = choose|oversized: bool| #[trigger]
                is_applied(before, write@, oversized, store@, outcome) && is_told(
                    before,
                    write@,
                    limit,
                    measure,
                    oversized,
                );
            let reply = match outcome {
                Ok(outcome) => Ok(ScriptStateResponse::Write(outcome)),
                Err(message) => Err(message),
            };
            assert(answers(before, *request, oversized, store@, reply));
            reply
        },
    }
}

/// Answers a request of a client. Without a table nothing can be read or written,
/// and the answer says so.
pub fn script_state_handler<F: FnOnce(&ScriptState) -> usize>(
    store: &mut Option<ScriptStateStore>,
    request: &ScriptStateRequest,
    limit: usize,
    measure: F,
) -> (reply: Result<ScriptStateResponse, String>)
    requires
        *old(store) is Some ==> (*old(store))->0.wf(),
        forall|state: ScriptState| #[trigger] call_requires(measure, (&state,)),
    ensures
        *final(store) is Some <==> *old(store) is Some,
        *old(store) is None ==> reply is Err && reply->Err_0@
            == "the script state store is not available"@,
        *old(store) is Some ==> (*final(store))->0.wf() && exists|oversized: bool| #[trigger]
            answers((*old(store))->0@, *request, oversized, (*final(store))->0@, reply) && (
            request matches ScriptStateRequest::Write(write) ==> is_told(
                (*old(store))->0@,
                write@,
                limit,
                measure,
                oversized,
            )),
        *old(store) is Some ==> (*final(store))->0.spec_revision() == revision_after(
            (*old(store))->0.spec_revision(),
            tells_change(reply),
        ),
        *old(store) is Some ==> (*final(store))->0.spec_dirty() == dirty_after(
            (*old(store))->0.spec_dirty(),
            tells_change(reply),
        ),
{
    match store {
        Some(store) => answer(store, request, limit, measure),
        None => Err("the script state store is not available".to_owned()),
    }
}

/// The document that a reply is shown as.
pub open spec fn reply_document(reply: Result<ScriptStateResponse, String>) -> JsonModel {
    JsonModel::Object(
        match reply {
            Ok(ScriptStateResponse::Value(value)) => seq![
                ("value"@, optional_document(optional(value))),
            ],
            Ok(ScriptStateResponse::Write(WriteOutcome::Applied { changed })) => seq![
                ("changed"@, JsonModel::Bool(changed)),
                ("ok"@, JsonModel::Bool(true)),
            ],
            Ok(ScriptStateResponse::Write(WriteOutcome::Conflict { current })) => seq![
                ("conflict"@, JsonModel::Bool(true)),
                ("current"@, optional_document(optional(current))),
            ],
            Err(message) => seq![("error"@, JsonModel::Text(message@))],
        },
    )
}

/// The document that a value is shown as, which is nothing where it is missing.
pub open spec fn optional_document(value: Option<Value>) -> JsonModel {
    match value {
        Some(value) => convert::shown(value),
        None => JsonModel::Null,
    }
}

fn show_optional(value: &Option<ScriptValue>) -> (document: Json)
    ensures
        document.model() == optional_document(optional(*value)),
{
    match value {
        Some(value) => value.to_json(),
        None => Json::Null,
    }
}

/// The document that a reply is shown as.
pub fn reply_json(reply: &Result<ScriptStateResponse, String>) -> (document: Json)
    ensures
        document.model() == reply_document(*reply),
{
    let mut fields: Vec<(String, Json)> = Vec::new();
    match reply {
        Ok(ScriptStateResponse::Value(value)) => {
            fields.push(("value".to_owned(), show_optional(value)));
        },
        Ok(ScriptStateResponse::Write(WriteOutcome::Applied { changed })) => {
            fields.push(("changed".to_owned(), Json::Bool(*changed)));
            fields.push(("ok".to_owned(), Json::Bool(true)));
        },
        Ok(ScriptStateResponse::Write(WriteOutcome::Conflict { current })) => {
            fields.push(("conflict".to_owned(), Json::Bool(true)));
            fields.push(("current".to_owned(), show_optional(current)));
        },
        Err(message) => {
            fields.push(("error".to_owned(), Json::Text(message.clone())));
        },
    }
    proof {
        json::lemma_field_models(fields@);
        assert(json::field_models(fields@) =~= reply_document(*reply)->Object_0);
    }
    Json::Object(fields)
}

// ---------------------------------------------------------------------------
// Read, transform, write
// ---------------------------------------------------------------------------
/// How often a write may lose the race before it is given up.
pub const MUTATE_ATTEMPTS: usize = 8;

/// A value that is read, transformed and written back, again and again until
/// nobody else wrote it in between.
#[derive(Debug)]
pub struct Mutation {
    key: String,
    current: Option<ScriptValue>,
    attempts: usize,
}

/// How a mutation goes on after a write.
#[derive(Debug)]
pub enum MutationStep {
    /// The write has landed.
    Done,
    /// The value is to be transformed anew.
    Again,
    /// It lost the race too often.
    GiveUp(String),
}

/// The write of a transformed value, which expects the one that was transformed.
pub open spec fn transformed(
    key: Seq<char>,
    current: Option<Value>,
    next: Option<Value>,
) -> WriteModel {
    WriteModel { key, expected: Some(current), value: next }
}

/// The value to transform after a write: the one that is there where it lost the race.
pub open spec fn seen_after(current: Option<Value>, outcome: OutcomeModel) -> Option<Value> {
    match outcome {
        OutcomeModel::Applied { .. } => current,
        OutcomeModel::Conflict { current } => current,
    }
}

/// A write that lost the race was not the last that is left.
pub open spec fn is_tried_again(attempts: int, outcome: OutcomeModel) -> bool {
    outcome is Conflict && attempts > 1
}

impl Mutation {
    pub closed spec fn spec_key(self) -> Seq<char> {
        self.key@
    }

    /// The value that is transformed.
    pub closed spec fn spec_current(self) -> Option<Value> {
        optional(self.current)
    }

    /// How many writes are left.
    pub closed spec fn spec_attempts(self) -> usize {
        self.attempts
    }

    /// Starts with the value that was read.
    pub fn begin(key: String, current: Option<ScriptValue>) -> (mutation: Self)
        ensures
            mutation.spec_key() == key@,
            mutation.spec_current() == optional(current),
            mutation.spec_attempts() == MUTATE_ATTEMPTS,
    {
        Mutation { key, current, attempts: MUTATE_ATTEMPTS }
    }

    /// The value that is to be transformed.
    pub fn current(&self) -> (current: &Option<ScriptValue>)
        ensures
            optional(*current) == self.spec_current(),
    {
        &self.current
    }

    /// The write of a transformed value: it lands only where the value is still
    /// the one that was transformed.
    pub fn write(&self, next: &Option<ScriptValue>) -> (write: ScriptStateWrite)
        ensures
            write@ == transformed(self.spec_key(), self.spec_current(), optional(*next)),
    {
        ScriptStateWrite::compare_and_set(
            self.key.clone(),
            copy_of(&self.current),
            copy_of(next),
        )
    }

    /// Takes what became of a write. One that lost the race is tried again with
    /// the value that is there now, as long as there are attempts left.
    pub fn settle(&mut self, outcome: WriteOutcome) -> (step: MutationStep)
        requires
            old(self).spec_attempts() > 0,
        ensures
            final(self).spec_key() == old(self).spec_key(),
            final(self).spec_attempts() == old(self).spec_attempts() - 1,
            final(self).spec_current() == seen_after(old(self).spec_current(), outcome@),
            step is Done <==> outcome@ is Applied,
            step is Again <==> is_tried_again(old(self).spec_attempts() as int, outcome@),
            step is GiveUp ==> step->GiveUp_0@ == "paneru.state.mutate: '"@ + old(self).spec_key()
                + "' kept changing under it after 8 attempts"@,
    {
        self.attempts = self.attempts - 1;
        match outcome {
            WriteOutcome::Applied { .. } => MutationStep::Done,
            WriteOutcome::Conflict { current } => {
                self.current = current;
                if self.attempts > 0 {
                    MutationStep::Again
                } else {
                    let mut message = "paneru.state.mutate: '".to_owned();
                    message.append(self.key.as_str());
                    message.append("' kept changing under it after 8 attempts");
                    MutationStep::GiveUp(message)
                }
            },
        }
    }
}

} // verus!
