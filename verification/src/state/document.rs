//! The state documents and events as documents that a terminal shows.
use vstd::prelude::*;
use vstd::string::*;

use crate::entries;
use crate::json;
use crate::json::{Json, JsonModel, JsonNumber};
use crate::search;
use crate::state::{
    ActiveState, QueryPayload, QueryState, StateEvent, StateQueryKind, VirtualWorkspaceState,
    WindowState,
};

verus! {

// ---------------------------------------------------------------------------
// Parts of documents
// ---------------------------------------------------------------------------
/// A whole number that fits with its sign.
pub open spec fn whole(value: int) -> JsonModel {
    JsonModel::Number(JsonNumber::Whole(value as i64))
}

/// A natural number.
pub open spec fn natural(value: u64) -> JsonModel {
    if value <= i64::MAX {
        whole(value as int)
    } else {
        JsonModel::Number(JsonNumber::Natural(value))
    }
}

/// A text, or nothing.
pub open spec fn optional_text(text: Option<String>) -> JsonModel {
    match text {
        Some(text) => JsonModel::Text(text@),
        None => JsonModel::Null,
    }
}

/// A number of a display or a workspace, or nothing.
pub open spec fn optional_number(number: Option<u32>) -> JsonModel {
    match number {
        Some(number) => whole(number as int),
        None => JsonModel::Null,
    }
}

/// The number of a window, or nothing.
pub open spec fn optional_window(window: Option<i32>) -> JsonModel {
    match window {
        Some(window) => whole(window as int),
        None => JsonModel::Null,
    }
}

/// The number of a space, or nothing.
pub open spec fn optional_space(space: Option<u64>) -> JsonModel {
    match space {
        Some(space) => natural(space),
        None => JsonModel::Null,
    }
}

fn of_natural(value: u64) -> (document: Json)
    ensures
        document.model() == natural(value),
{
    if value <= 0x7FFF_FFFF_FFFF_FFFF {
        Json::Number(JsonNumber::Whole(value as i64))
    } else {
        Json::Number(JsonNumber::Natural(value))
    }
}

fn of_text(text: &Option<String>) -> (document: Json)
    ensures
        document.model() == optional_text(*text),
{
    match text {
        Some(text) => Json::Text(text.clone()),
        None => Json::Null,
    }
}

fn of_number(number: Option<u32>) -> (document: Json)
    ensures
        document.model() == optional_number(number),
{
    match number {
        Some(number) => Json::Number(JsonNumber::Whole(number as i64)),
        None => Json::Null,
    }
}

fn of_window(window: Option<i32>) -> (document: Json)
    ensures
        document.model() == optional_window(window),
{
    match window {
        Some(window) => Json::Number(JsonNumber::Whole(window as i64)),
        None => Json::Null,
    }
}

fn of_space(space: Option<u64>) -> (document: Json)
    ensures
        document.model() == optional_space(space),
{
    match space {
        Some(space) => of_natural(space),
        None => Json::Null,
    }
}

/// A field of a document.
fn field(name: &str, value: Json) -> (field: (String, Json))
    ensures
        field.0@ == name@,
        field.1 == value,
{
    (name.to_owned(), value)
}

// ---------------------------------------------------------------------------
// State documents
// ---------------------------------------------------------------------------
impl ActiveState {
    /// What is active, as a document.
    pub open spec fn document(self) -> JsonModel {
        JsonModel::Object(
            seq![
                ("display_id"@, optional_number(self.display_id)),
                ("focused_app_name"@, optional_text(self.focused_app_name)),
                ("focused_bundle_id"@, optional_text(self.focused_bundle_id)),
                ("focused_window_id"@, optional_window(self.focused_window_id)),
                ("focused_window_title"@, optional_text(self.focused_window_title)),
                ("native_workspace_id"@, optional_space(self.native_workspace_id)),
                ("virtual_workspace_number"@, optional_number(self.virtual_workspace_number)),
            ],
        )
    }

    /// What is active, as a document.
    pub fn to_json(&self) -> (document: Json)
        ensures
            document.model() == self.document(),
    {
        let mut fields: Vec<(String, Json)> = Vec::new();
        fields.push(field("display_id", of_number(self.display_id)));
        fields.push(field("focused_app_name", of_text(&self.focused_app_name)));
        fields.push(field("focused_bundle_id", of_text(&self.focused_bundle_id)));
        fields.push(field("focused_window_id", of_window(self.focused_window_id)));
        fields.push(field("focused_window_title", of_text(&self.focused_window_title)));
        fields.push(field("native_workspace_id", of_space(self.native_workspace_id)));
        fields.push(field("virtual_workspace_number", of_number(self.virtual_workspace_number)));
        proof {
            json::lemma_field_models(fields@);
            assert(json::field_models(fields@) =~= self.document()->Object_0);
        }
        Json::Object(fields)
    }
}

impl WindowState {
    /// A window, as a document.
    pub open spec fn document(self) -> JsonModel {
        JsonModel::Object(
            seq![
                ("app_name"@, JsonModel::Text(self.app_name@)),
                ("bundle_id"@, JsonModel::Text(self.bundle_id@)),
                ("floating"@, JsonModel::Bool(self.floating)),
                ("focused"@, JsonModel::Bool(self.focused)),
                ("title"@, JsonModel::Text(self.title@)),
                ("window_id"@, whole(self.window_id as int)),
            ],
        )
    }

    /// A window, as a document.
    pub fn to_json(&self) -> (document: Json)
        ensures
            document.model() == self.document(),
    {
        let mut fields: Vec<(String, Json)> = Vec::new();
        fields.push(field("app_name", Json::Text(self.app_name.clone())));
        fields.push(field("bundle_id", Json::Text(self.bundle_id.clone())));
        fields.push(field("floating", Json::Bool(self.floating)));
        fields.push(field("focused", Json::Bool(self.focused)));
        fields.push(field("title", Json::Text(self.title.clone())));
        fields.push(field("window_id", Json::Number(JsonNumber::Whole(self.window_id as i64))));
        proof {
            json::lemma_field_models(fields@);
            assert(json::field_models(fields@) =~= self.document()->Object_0);
        }
        Json::Object(fields)
    }
}

/// Some windows, as a document.
pub open spec fn windows_document(items: Seq<WindowState>) -> JsonModel {
    JsonModel::Array(items.map_values(|item: WindowState| item.document()))
}

fn windows_json(items: &Vec<WindowState>) -> (document: Json)
    ensures
        document.model() == windows_document(items@),
{
    let mut documents: Vec<Json> = Vec::new();
    let mut i: usize = 0;
    while i < items.len()
        invariant
            i <= items.len(),
            documents.len() == i,
            forall|j: int|
                0 <= j < i ==> (#[trigger] documents@[j]).model() == items@[j].document(),
        decreases items.len() - i,
    {
        documents.push(items[i].to_json());
        i = i + 1;
    }
    proof {
        json::lemma_models(documents@);
        assert(json::models(documents@) =~= items@.map_values(
            |item: WindowState| item.document(),
        ));
    }
    Json::Array(documents)
}

impl VirtualWorkspaceState {
    /// A virtual workspace, as a document.
    pub open spec fn document(self) -> JsonModel {
        JsonModel::Object(
            seq![
                ("active"@, JsonModel::Bool(self.active)),
                ("native_workspace_id"@, natural(self.native_workspace_id)),
                ("number"@, whole(self.number as int)),
                ("windows"@, windows_document(self.windows@)),
            ],
        )
    }

    /// A virtual workspace, as a document.
    pub fn to_json(&self) -> (document: Json)
        ensures
            document.model() == self.document(),
    {
        let mut fields: Vec<(String, Json)> = Vec::new();
        fields.push(field("active", Json::Bool(self.active)));
        fields.push(field("native_workspace_id", of_natural(self.native_workspace_id)));
        fields.push(field("number", Json::Number(JsonNumber::Whole(self.number as i64))));
        fields.push(field("windows", windows_json(&self.windows)));
        proof {
            json::lemma_field_models(fields@);
            assert(json::field_models(fields@) =~= self.document()->Object_0);
        }
        Json::Object(fields)
    }
}

/// Some virtual workspaces, as a document.
pub open spec fn workspaces_document(items: Seq<VirtualWorkspaceState>) -> JsonModel {
    JsonModel::Array(items.map_values(|item: VirtualWorkspaceState| item.document()))
}

fn workspaces_json(items: &Vec<VirtualWorkspaceState>) -> (document: Json)
    ensures
        document.model() == workspaces_document(items@),
{
    let mut documents: Vec<Json> = Vec::new();
    let mut i: usize = 0;
    while i < items.len()
        invariant
            i <= items.len(),
            documents.len() == i,
            forall|j: int|
                0 <= j < i ==> (#[trigger] documents@[j]).model() == items@[j].document(),
        decreases items.len() - i,
    {
        documents.push(items[i].to_json());
        i = i + 1;
    }
    proof {
        json::lemma_models(documents@);
        assert(json::models(documents@) =~= items@.map_values(
            |item: VirtualWorkspaceState| item.document(),
        ));
    }
    Json::Array(documents)
}

impl QueryState {
    /// The whole state, as a document.
    pub open spec fn document(self) -> JsonModel {
        JsonModel::Object(
            seq![
                ("active"@, self.active.document()),
                ("timestamp"@, natural(self.timestamp)),
                ("version"@, whole(self.version as int)),
                ("virtual_workspaces"@, workspaces_document(self.virtual_workspaces@)),
            ],
        )
    }

    /// The whole state, as a document.
    pub fn to_json(&self) -> (document: Json)
        ensures
            document.model() == self.document(),
    {
        let mut fields: Vec<(String, Json)> = Vec::new();
        fields.push(field("active", self.active.to_json()));
        fields.push(field("timestamp", of_natural(self.timestamp)));
        fields.push(field("version", Json::Number(JsonNumber::Whole(self.version as i64))));
        fields.push(field("virtual_workspaces", workspaces_json(&self.virtual_workspaces)));
        proof {
            json::lemma_field_models(fields@);
            assert(json::field_models(fields@) =~= self.document()->Object_0);
        }
        Json::Object(fields)
    }

    /// The part of the state that a query asks for, as a document.
    pub open spec fn query_document(self, kind: StateQueryKind) -> JsonModel {
        match kind {
            StateQueryKind::State => self.document(),
            StateQueryKind::VirtualWorkspaces => workspaces_document(self.virtual_workspaces@),
            StateQueryKind::Active => self.active.document(),
        }
    }

    /// The part of the state that a query asks for, as a document.
    pub fn to_query_json(&self, kind: StateQueryKind) -> (document: Json)
        ensures
            document.model() == self.query_document(kind),
    {
        match kind {
            StateQueryKind::State => self.to_json(),
            StateQueryKind::VirtualWorkspaces => workspaces_json(&self.virtual_workspaces),
            StateQueryKind::Active => self.active.to_json(),
        }
    }
}

impl QueryPayload {
    /// The answer to a query, as a document.
    pub open spec fn document(self) -> JsonModel {
        match self {
            QueryPayload::State(state) => state.document(),
            QueryPayload::VirtualWorkspaces(workspaces) => workspaces_document(workspaces@),
            QueryPayload::Active(active) => active.document(),
            QueryPayload::OnScreen(windows) => windows_document(windows@),
        }
    }

    /// The answer to a query, as a document.
    pub fn to_json(&self) -> (document: Json)
        ensures
            document.model() == self.document(),
    {
        match self {
            QueryPayload::State(state) => state.to_json(),
            QueryPayload::VirtualWorkspaces(workspaces) => workspaces_json(workspaces),
            QueryPayload::Active(active) => active.to_json(),
            QueryPayload::OnScreen(windows) => windows_json(windows),
        }
    }
}

/// A query is shown the same, whether its part of the state is taken out first or
/// shown directly.
pub proof fn law_payload_is_shown_as_the_query(state: QueryState, kind: StateQueryKind)
    ensures
        (match kind {
            StateQueryKind::State => QueryPayload::State(Box::new(state)),
            StateQueryKind::VirtualWorkspaces => QueryPayload::VirtualWorkspaces(
                state.virtual_workspaces,
            ),
            StateQueryKind::Active => QueryPayload::Active(Box::new(state.active)),
        }).document() == state.query_document(kind),
{
}

// ---------------------------------------------------------------------------
// Events
// ---------------------------------------------------------------------------
impl StateEvent {
    /// The fields of the event and its name, under `event`.
    pub open spec fn fields(self) -> Seq<(Seq<char>, JsonModel)> {
        match self {
            StateEvent::VirtualWorkspaceChanged { active } => seq![
                ("active"@, active.document()),
                ("event"@, JsonModel::Text(self.spec_name())),
            ],
            StateEvent::WindowsChanged { virtual_workspace_number, active } => seq![
                ("active"@, active.document()),
                ("event"@, JsonModel::Text(self.spec_name())),
                ("virtual_workspace_number"@, optional_number(virtual_workspace_number)),
            ],
            StateEvent::WindowFocused { window_id, bundle_id, title, virtual_workspace_number } => seq![
                ("bundle_id"@, optional_text(bundle_id)),
                ("event"@, JsonModel::Text(self.spec_name())),
                ("title"@, optional_text(title)),
                ("virtual_workspace_number"@, optional_number(virtual_workspace_number)),
                ("window_id"@, optional_window(window_id)),
            ],
            StateEvent::WindowTitleChanged { window_id, title } => seq![
                ("event"@, JsonModel::Text(self.spec_name())),
                ("title"@, JsonModel::Text(title@)),
                ("window_id"@, whole(window_id as int)),
            ],
            StateEvent::DisplayChanged { display_id } => seq![
                ("display_id"@, optional_number(display_id)),
                ("event"@, JsonModel::Text(self.spec_name())),
            ],
        }
    }

    /// The event, as a document.
    pub open spec fn document(self) -> JsonModel {
        JsonModel::Object(self.fields())
    }

    /// The event, as a document.
    pub fn to_json(&self) -> (document: Json)
        ensures
            document.model() == self.document(),
    {
        let name = Json::Text(self.name().to_owned());
        let mut fields: Vec<(String, Json)> = Vec::new();
        match self {
            StateEvent::VirtualWorkspaceChanged { active } => {
                fields.push(field("active", active.to_json()));
                fields.push(field("event", name));
            },
            StateEvent::WindowsChanged { virtual_workspace_number, active } => {
                fields.push(field("active", active.to_json()));
                fields.push(field("event", name));
                fields.push(field("virtual_workspace_number", of_number(*virtual_workspace_number)));
            },
            StateEvent::WindowFocused { window_id, bundle_id, title, virtual_workspace_number } => {
                fields.push(field("bundle_id", of_text(bundle_id)));
                fields.push(field("event", name));
                fields.push(field("title", of_text(title)));
                fields.push(field("virtual_workspace_number", of_number(*virtual_workspace_number)));
                fields.push(field("window_id", of_window(*window_id)));
            },
            StateEvent::WindowTitleChanged { window_id, title } => {
                fields.push(field("event", name));
                fields.push(field("title", Json::Text(title.clone())));
                fields.push(field("window_id", Json::Number(JsonNumber::Whole(*window_id as i64))));
            },
            StateEvent::DisplayChanged { display_id } => {
                fields.push(field("display_id", of_number(*display_id)));
                fields.push(field("event", name));
            },
        }
        proof {
            json::lemma_field_models(fields@);
            assert(json::field_models(fields@) =~= self.fields());
        }
        Json::Object(fields)
    }
}

/// The document of an event tells its name, so a filter by the name picks the same
/// events as one by the document.
pub proof fn law_document_tells_the_name(event: StateEvent)
    ensures
        entries::lookup(event.fields(), "event"@) == Some(JsonModel::Text(event.spec_name())),
{
    reveal_strlit("event");
    reveal_strlit("active");
    reveal_strlit("bundle_id");
    reveal_strlit("display_id");
    let fields = event.fields();
    let at = match event {
        StateEvent::WindowTitleChanged { .. } => 0int,
        _ => 1int,
    };
    let p = entries::named::<JsonModel>("event"@);
    assert(fields[at].0 == "event"@);
    assert forall|j: int| 0 <= j < at implies !p(#[trigger] fields[j]) by {
        assert(fields[j].0.len() != "event"@.len());
    }
    search::lemma_first_index(fields, p, at);
}

/// Two optional texts are the same.
pub open spec fn same_text(a: Option<String>, b: Option<String>) -> bool {
    optional_text(a) == optional_text(b)
}

/// The same is active.
pub open spec fn same_active(a: ActiveState, b: ActiveState) -> bool {
    &&& a.display_id == b.display_id
    &&& a.native_workspace_id == b.native_workspace_id
    &&& a.virtual_workspace_number == b.virtual_workspace_number
    &&& a.focused_window_id == b.focused_window_id
    &&& same_text(a.focused_bundle_id, b.focused_bundle_id)
    &&& same_text(a.focused_app_name, b.focused_app_name)
    &&& same_text(a.focused_window_title, b.focused_window_title)
}

/// Two events are the same.
pub open spec fn same_event(a: StateEvent, b: StateEvent) -> bool {
    match (a, b) {
        (
            StateEvent::VirtualWorkspaceChanged { active: x },
            StateEvent::VirtualWorkspaceChanged { active: y },
        ) => same_active(x, y),
        (
            StateEvent::WindowsChanged { virtual_workspace_number: m, active: x },
            StateEvent::WindowsChanged { virtual_workspace_number: n, active: y },
        ) => m == n && same_active(x, y),
        (
            StateEvent::WindowFocused {
                window_id: v,
                bundle_id: x,
                title: s,
                virtual_workspace_number: m,
            },
            StateEvent::WindowFocused {
                window_id: w,
                bundle_id: y,
                title: t,
                virtual_workspace_number: n,
            },
        ) => v == w && same_text(x, y) && same_text(s, t) && m == n,
        (
            StateEvent::WindowTitleChanged { window_id: v, title: s },
            StateEvent::WindowTitleChanged { window_id: w, title: t },
        ) => v == w && s@ == t@,
        (
            StateEvent::DisplayChanged { display_id: m },
            StateEvent::DisplayChanged { display_id: n },
        ) => m == n,
        _ => false,
    }
}

proof fn lemma_active_is_told(a: ActiveState, b: ActiveState)
    requires
        a.document() == b.document(),
    ensures
        same_active(a, b),
{
    let x = a.document()->Object_0;
    let y = b.document()->Object_0;
    assert(x[0].1 == y[0].1);
    assert(x[1].1 == y[1].1);
    assert(x[2].1 == y[2].1);
    assert(x[3].1 == y[3].1);
    assert(x[4].1 == y[4].1);
    assert(x[5].1 == y[5].1);
    assert(x[6].1 == y[6].1);
}

/// The document of an event tells the event: what a subscriber is shown leaves
/// nothing of it open.
pub proof fn law_document_tells_the_event(a: StateEvent, b: StateEvent)
    requires
        a.document() == b.document(),
    ensures
        same_event(a, b),
{
    law_document_tells_the_name(a);
    law_document_tells_the_name(b);
    reveal_strlit("virtual_workspace_changed");
    reveal_strlit("windows_changed");
    reveal_strlit("window_focused");
    reveal_strlit("window_title_changed");
    reveal_strlit("display_changed");
    assert(a.spec_name() == b.spec_name());
    assert(a.spec_name().len() == b.spec_name().len());
    assert(a.spec_name()[0] == b.spec_name()[0]);
    let x = a.fields();
    let y = b.fields();
    assert(x == y);
    match (a, b) {
        (
            StateEvent::VirtualWorkspaceChanged { active: one },
            StateEvent::VirtualWorkspaceChanged { active: other },
        ) => {
            assert(x[0].1 == y[0].1);
            lemma_active_is_told(one, other);
        },
        (
            StateEvent::WindowsChanged { active: one, .. },
            StateEvent::WindowsChanged { active: other, .. },
        ) => {
            assert(x[0].1 == y[0].1);
            assert(x[2].1 == y[2].1);
            lemma_active_is_told(one, other);
        },
        (StateEvent::WindowFocused { .. }, StateEvent::WindowFocused { .. }) => {
            assert(x[0].1 == y[0].1);
            assert(x[2].1 == y[2].1);
            assert(x[3].1 == y[3].1);
            assert(x[4].1 == y[4].1);
        },
        (StateEvent::WindowTitleChanged { .. }, StateEvent::WindowTitleChanged { .. }) => {
            assert(x[1].1 == y[1].1);
            assert(x[2].1 == y[2].1);
        },
        (StateEvent::DisplayChanged { .. }, StateEvent::DisplayChanged { .. }) => {
            assert(x[0].1 == y[0].1);
        },
        _ => {},
    }
}

} // verus!
