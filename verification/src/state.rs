//! The state documents that queries are answered with, and the events that
//! subscribers are told.
use vstd::prelude::*;

use crate::text::same;

pub mod document;

verus! {

/// A rectangle in global display coordinates.
#[derive(Clone, Copy, Debug, PartialEq, Eq, Structural)]
pub struct Frame {
    pub x: i32,
    pub y: i32,
    pub width: i32,
    pub height: i32,
}

/// Which query a caller asks for.
#[derive(Clone, Copy, Debug, PartialEq, Eq, Structural)]
pub enum StateQueryKind {
    /// The complete state document.
    State,
    /// Just the virtual workspaces.
    VirtualWorkspaces,
    /// Just what is active.
    Active,
}

impl StateQueryKind {
    /// The word for the query.
    pub open spec fn spec_token(self) -> Seq<char> {
        match self {
            StateQueryKind::State => "state"@,
            StateQueryKind::VirtualWorkspaces => "virtual-workspaces"@,
            StateQueryKind::Active => "active"@,
        }
    }

    /// The word for the query.
    pub fn token(self) -> (token: &'static str)
        ensures
            token@ == self.spec_token(),
    {
        match self {
            StateQueryKind::State => "state",
            StateQueryKind::VirtualWorkspaces => "virtual-workspaces",
            StateQueryKind::Active => "active",
        }
    }

    /// The query that a word stands for, if it stands for one.
    pub fn parse(token: &str) -> (kind: Option<Self>)
        ensures
            forall|k: StateQueryKind| kind == Some(k) <==> #[trigger] k.spec_token() == token@,
            kind is None <==> forall|k: StateQueryKind| #[trigger] k.spec_token() != token@,
    {
        proof {
            lemma_tokens_differ();
        }
        if same(StateQueryKind::State.token(), token) {
            Some(StateQueryKind::State)
        } else if same(StateQueryKind::VirtualWorkspaces.token(), token) {
            Some(StateQueryKind::VirtualWorkspaces)
        } else if same(StateQueryKind::Active.token(), token) {
            Some(StateQueryKind::Active)
        } else {
            None
        }
    }
}

/// No two queries share a word.
proof fn lemma_tokens_differ()
    ensures
        forall|a: StateQueryKind, b: StateQueryKind| #[trigger]
            a.spec_token() == #[trigger] b.spec_token() ==> a == b,
{
    reveal_strlit("state");
    reveal_strlit("virtual-workspaces");
    reveal_strlit("active");
    assert forall|a: StateQueryKind, b: StateQueryKind| #[trigger] a.spec_token()
        == #[trigger] b.spec_token() implies a == b by {
        assert(a.spec_token().len() == b.spec_token().len());
    }
}

/// Each query is found again by its word: a word stands for it and for no other.
pub proof fn law_tokens_round_trip(kind: StateQueryKind, found: Option<StateQueryKind>)
    requires
        forall|k: StateQueryKind|
            found == Some(k) <==> #[trigger] k.spec_token() == kind.spec_token(),
    ensures
        found == Some(kind),
{
    assert(kind.spec_token() == kind.spec_token());
    assert(found == Some(kind) <==> kind.spec_token() == kind.spec_token());
}

/// The active display and workspace, and the window with the focus.
#[derive(Debug)]
pub struct ActiveState {
    pub display_id: Option<u32>,
    pub native_workspace_id: Option<u64>,
    pub virtual_workspace_number: Option<u32>,
    pub focused_window_id: Option<i32>,
    pub focused_bundle_id: Option<String>,
    pub focused_app_name: Option<String>,
    pub focused_window_title: Option<String>,
}

impl Default for ActiveState {
    /// Nothing is active.
    fn default() -> (state: Self)
        ensures
            state.display_id is None,
            state.native_workspace_id is None,
            state.virtual_workspace_number is None,
            state.focused_window_id is None,
            state.focused_bundle_id is None,
            state.focused_app_name is None,
            state.focused_window_title is None,
    {
        ActiveState {
            display_id: None,
            native_workspace_id: None,
            virtual_workspace_number: None,
            focused_window_id: None,
            focused_bundle_id: None,
            focused_app_name: None,
            focused_window_title: None,
        }
    }
}

/// A window, as queries and events report it.
#[derive(Debug)]
pub struct WindowState {
    pub window_id: i32,
    pub bundle_id: String,
    pub app_name: String,
    pub title: String,
    pub focused: bool,
    pub floating: bool,
}

/// A virtual workspace and the windows on it.
#[derive(Debug)]
pub struct VirtualWorkspaceState {
    pub number: u32,
    pub native_workspace_id: u64,
    pub active: bool,
    pub windows: Vec<WindowState>,
}

/// The complete state document.
#[derive(Debug)]
pub struct QueryState {
    pub version: u32,
    pub timestamp: u64,
    pub active: ActiveState,
    pub virtual_workspaces: Vec<VirtualWorkspaceState>,
}

/// The answer to a query.
#[derive(Debug)]
pub enum QueryPayload {
    State(Box<QueryState>),
    VirtualWorkspaces(Vec<VirtualWorkspaceState>),
    Active(Box<ActiveState>),
    OnScreen(Vec<WindowState>),
}

impl QueryState {
    /// What a query of this kind is answered.
    pub open spec fn payload_for(self, kind: StateQueryKind) -> QueryPayload {
        match kind {
            StateQueryKind::State => QueryPayload::State(Box::new(self)),
            StateQueryKind::VirtualWorkspaces => QueryPayload::VirtualWorkspaces(
                self.virtual_workspaces,
            ),
            StateQueryKind::Active => QueryPayload::Active(Box::new(self.active)),
        }
    }

    /// The part of the document that a query asks for.
    pub fn into_payload(self, kind: StateQueryKind) -> (payload: QueryPayload)
        ensures
            payload == self.payload_for(kind),
    {
        match kind {
            StateQueryKind::State => QueryPayload::State(Box::new(self)),
            StateQueryKind::VirtualWorkspaces => QueryPayload::VirtualWorkspaces(
                self.virtual_workspaces,
            ),
            StateQueryKind::Active => QueryPayload::Active(Box::new(self.active)),
        }
    }
}

/// An event that subscribers are told.
#[allow(inconsistent_fields)]
#[derive(Debug)]
pub enum StateEvent {
    /// Another workspace is shown.
    VirtualWorkspaceChanged { active: ActiveState },
    /// The windows of the workspace that is shown are others.
    WindowsChanged { virtual_workspace_number: Option<u32>, active: ActiveState },
    /// Another window has the focus.
    WindowFocused {
        window_id: Option<i32>,
        bundle_id: Option<String>,
        title: Option<String>,
        virtual_workspace_number: Option<u32>,
    },
    /// A window has another title.
    WindowTitleChanged { window_id: i32, title: String },
    /// The displays are others. There is no number where the change cannot be
    /// pinned to one of them.
    DisplayChanged { display_id: Option<u32> },
}

impl StateEvent {
    /// The name that consumers switch on.
    pub open spec fn spec_name(self) -> Seq<char> {
        match self {
            StateEvent::VirtualWorkspaceChanged { .. } => "virtual_workspace_changed"@,
            StateEvent::WindowsChanged { .. } => "windows_changed"@,
            StateEvent::WindowFocused { .. } => "window_focused"@,
            StateEvent::WindowTitleChanged { .. } => "window_title_changed"@,
            StateEvent::DisplayChanged { .. } => "display_changed"@,
        }
    }

    /// The name that consumers switch on.
    pub fn name(&self) -> (name: &'static str)
        ensures
            name@ == self.spec_name(),
    {
        match self {
            StateEvent::VirtualWorkspaceChanged { .. } => "virtual_workspace_changed",
            StateEvent::WindowsChanged { .. } => "windows_changed",
            StateEvent::WindowFocused { .. } => "window_focused",
            StateEvent::WindowTitleChanged { .. } => "window_title_changed",
            StateEvent::DisplayChanged { .. } => "display_changed",
        }
    }
}

} // verus!
