//! An application and its windows, and the notifications about them.
use std::collections::HashMap;

use vstd::prelude::*;
use vstd::string::*;

use crate::errors::Error;
use crate::events::{DestroySource, Event, ProcessSerialNumber};
use crate::geometry::Entity;
use crate::windowset::WinID;

verus! {

/// A notification that can be asked for.
#[derive(Clone, Copy, Debug, PartialEq, Eq, Structural)]
pub enum Notification {
    Created,
    FocusedWindowChanged,
    WindowMoved,
    WindowResized,
    TitleChanged,
    MenuOpened,
    MenuClosed,
    ElementDestroyed,
    WindowMiniaturized,
    WindowDeminiaturized,
    /// One that is not asked for.
    Other,
}

/// The notifications about an application.
pub open spec fn application_notifications() -> Seq<Notification> {
    seq![
        Notification::Created,
        Notification::FocusedWindowChanged,
        Notification::WindowMoved,
        Notification::WindowResized,
        Notification::TitleChanged,
        Notification::MenuOpened,
        Notification::MenuClosed,
    ]
}

/// The notifications about a window.
pub open spec fn window_notifications() -> Seq<Notification> {
    seq![
        Notification::ElementDestroyed,
        Notification::WindowMiniaturized,
        Notification::WindowDeminiaturized,
    ]
}

/// What an observer watches.
#[derive(Clone, Copy, Debug, PartialEq, Eq, Structural)]
pub enum ObserverType {
    Application,
    Window(WinID),
}

impl ObserverType {
    /// The notifications to ask for, in the order in which they are asked for.
    pub open spec fn spec_notifications(self) -> Seq<Notification> {
        match self {
            ObserverType::Application => application_notifications(),
            ObserverType::Window(_) => window_notifications(),
        }
    }

    /// The notifications to ask for, in the order in which they are asked for.
    pub fn notifications(self) -> (notifications: Vec<Notification>)
        ensures
            notifications@ == self.spec_notifications(),
    {
        match self {
            ObserverType::Application => vec![
                Notification::Created,
                Notification::FocusedWindowChanged,
                Notification::WindowMoved,
                Notification::WindowResized,
                Notification::TitleChanged,
                Notification::MenuOpened,
                Notification::MenuClosed,
            ],
            ObserverType::Window(_) => vec![
                Notification::ElementDestroyed,
                Notification::WindowMiniaturized,
                Notification::WindowDeminiaturized,
            ],
        }
    }

    /// The event that a notification stands for. `element` is the window that it
    /// tells of, if it tells of one.
    pub open spec fn event(self, notification: Notification, element: Option<WinID>) -> Option<
        Event,
    > {
        match self {
            ObserverType::Application => match (notification, element) {
                (Notification::Created, _) => Some(Event::WindowCreated),
                (_, None) => None,
                (Notification::FocusedWindowChanged, Some(window_id)) => Some(
                    Event::WindowFocused { window_id },
                ),
                (Notification::WindowMoved, Some(window_id)) => Some(
                    Event::WindowMoved { window_id },
                ),
                (Notification::WindowResized, Some(window_id)) => Some(
                    Event::WindowResized { window_id },
                ),
                (Notification::TitleChanged, Some(window_id)) => Some(
                    Event::WindowTitleChanged { window_id },
                ),
                (Notification::MenuOpened, Some(window_id)) => Some(
                    Event::MenuOpened { window_id },
                ),
                (Notification::MenuClosed, Some(window_id)) => Some(
                    Event::MenuClosed { window_id },
                ),
                _ => None,
            },
            ObserverType::Window(window_id) => match notification {
                Notification::WindowMiniaturized => Some(Event::WindowMinimized { window_id }),
                Notification::WindowDeminiaturized => Some(Event::WindowDeminimized { window_id }),
                Notification::ElementDestroyed => Some(
                    Event::WindowDestroyed { window_id, source: DestroySource::Accessibility },
                ),
                _ => None,
            },
        }
    }

    /// The event that a notification stands for, where it stands for one. An
    /// application's observer goes by the window that the notification tells of; a
    /// window's observer tells of its own window.
    pub fn notify(self, notification: Notification, element: Option<WinID>) -> (event: Option<
        Event,
    >)
        ensures
            event == self.event(notification, element),
    {
        match self {
            ObserverType::Application => notify_app(notification, element),
            ObserverType::Window(window_id) => notify_window(notification, window_id),
        }
    }
}

/// The event that a notification about an application stands for.
fn notify_app(notification: Notification, element: Option<WinID>) -> (event: Option<Event>)
    ensures
        event == ObserverType::Application.event(notification, element),
{
    if let Notification::Created = notification {
        return Some(Event::WindowCreated);
    }
    let window_id = match element {
        Some(window_id) => window_id,
        None => return None,
    };
    match notification {
        Notification::FocusedWindowChanged => Some(Event::WindowFocused { window_id }),
        Notification::WindowMoved => Some(Event::WindowMoved { window_id }),
        Notification::WindowResized => Some(Event::WindowResized { window_id }),
        Notification::TitleChanged => Some(Event::WindowTitleChanged { window_id }),
        Notification::MenuOpened => Some(Event::MenuOpened { window_id }),
        Notification::MenuClosed => Some(Event::MenuClosed { window_id }),
        _ => None,
    }
}

/// The event that a notification about a window stands for.
fn notify_window(notification: Notification, window_id: WinID) -> (event: Option<Event>)
    ensures
        event == ObserverType::Window(window_id).event(notification, None),
{
    match notification {
        Notification::WindowMiniaturized => Some(Event::WindowMinimized { window_id }),
        Notification::WindowDeminiaturized => Some(Event::WindowDeminimized { window_id }),
        Notification::ElementDestroyed => Some(
            Event::WindowDestroyed { window_id, source: DestroySource::Accessibility },
        ),
        _ => None,
    }
}

/// Every notification that an observer asks for stands for an event, as long as it
/// tells of a window.
pub proof fn law_asked_notifications_are_understood(which: ObserverType, i: int, window_id: WinID)
    requires
        0 <= i < which.spec_notifications().len(),
    ensures
        which.event(which.spec_notifications()[i], Some(window_id)) is Some,
{
}

/// What the system says when a notification is asked for.
#[derive(Clone, Copy, Debug, PartialEq, Eq, Structural)]
pub enum Registration {
    Success,
    AlreadyRegistered,
    /// The application does not answer at the moment.
    CannotComplete,
    Failed,
}

impl Registration {
    /// The notification will come.
    pub open spec fn added(self) -> bool {
        self is Success || self is AlreadyRegistered
    }
}

/// The notification, if it is worth asking for again.
pub open spec fn worth_retrying() -> spec_fn((Notification, Registration)) -> Option<Notification> {
    |asked: (Notification, Registration)|
        if asked.1 is CannotComplete {
            Some(asked.0)
        } else {
            None
        }
}

/// What comes of asking for notifications: those to ask for again, in the order in
/// which they were asked for. It is an error where none of them will come.
pub fn add_observer(asked: &Vec<(Notification, Registration)>) -> (retry: Result<
    Vec<Notification>,
    Error,
>)
    ensures
        match retry {
            Ok(retry) => (exists|i: int| 0 <= i < asked.len() && (#[trigger] asked@[i]).1.added())
                && retry@ == asked@.filter_map(worth_retrying()),
            Err(error) => (forall|i: int|
                0 <= i < asked.len() ==> !(#[trigger] asked@[i]).1.added())
                && error.is_permission_denied("add_observer: unable to register any observers!"@),
        },
{
    let mut retry: Vec<Notification> = Vec::new();
    let mut added = false;
    let mut i: usize = 0;
    assert(asked@.take(0) =~= Seq::empty());
    while i < asked.len()
        invariant
            i <= asked.len(),
            added <==> exists|j: int| 0 <= j < i && (#[trigger] asked@[j]).1.added(),
            retry@ == asked@.take(i as int).filter_map(worth_retrying()),
        decreases asked.len() - i,
    {
        proof {
            asked@.lemma_filter_map_take_succ(worth_retrying(), i as int);
        }
        let (name, result) = asked[i];
        match result {
            Registration::Success => {
                added = true;
                assert(asked@[i as int].1.added());
            },
            Registration::AlreadyRegistered => {
                added = true;
                assert(asked@[i as int].1.added());
            },
            Registration::CannotComplete => retry.push(name),
            Registration::Failed => {},
        }
        i = i + 1;
    }
    assert(asked@.take(asked.len() as int) =~= asked@);
    if added {
        Ok(retry)
    } else {
        Err(
            Error::PermissionDenied(
                "add_observer: unable to register any observers!".to_owned(),
            ),
        )
    }
}

/// An observer that stays when the observer of `removed` goes.
pub open spec fn other_than(removed: ObserverType) -> spec_fn(ObserverType) -> bool {
    |which: ObserverType| !(removed is Window && which == removed)
}

/// The observers that stay when one is removed: those of the window that it
/// watched go. An application's observer goes with the application, so nothing
/// goes for it.
pub fn remove_observer(contexts: &Vec<ObserverType>, removed: ObserverType) -> (stay: Vec<
    ObserverType,
>)
    ensures
        stay@ == contexts@.filter(other_than(removed)),
{
    let mut stay: Vec<ObserverType> = Vec::new();
    let mut i: usize = 0;
    let ghost keep = other_than(removed);
    assert(contexts@.take(0).filter(keep) =~= Seq::empty()) by {
        reveal(Seq::filter);
    }
    while i < contexts.len()
        invariant
            i <= contexts.len(),
            keep == other_than(removed),
            stay@ == contexts@.take(i as int).filter(keep),
        decreases contexts.len() - i,
    {
        let which = contexts[i];
        proof {
            assert(contexts@.take(i + 1).drop_last() =~= contexts@.take(i as int));
            reveal(Seq::filter);
        }
        let goes = match removed {
            ObserverType::Application => false,
            ObserverType::Window(_) => which == removed,
        };
        if !goes {
            stay.push(which);
        }
        i = i + 1;
    }
    assert(contexts@.take(contexts.len() as int) =~= contexts@);
    stay
}

/// What is known of an application, with its windows.
pub struct Application<W> {
    entity: Option<Entity>,
    psn: ProcessSerialNumber,
    pid: i32,
    name: String,
    connection: Option<u32>,
    windows: HashMap<WinID, W>,
}

impl<W> Application<W> {
    /// The entity that stands for it.
    pub closed spec fn spec_entity(self) -> Option<Entity> {
        self.entity
    }

    /// The number of its process.
    pub closed spec fn spec_psn(self) -> ProcessSerialNumber {
        self.psn
    }

    /// Its process.
    pub closed spec fn spec_pid(self) -> i32 {
        self.pid
    }

    /// Its name.
    pub closed spec fn spec_name(self) -> Seq<char> {
        self.name@
    }

    /// Its connection to the window server.
    pub closed spec fn spec_connection(self) -> Option<u32> {
        self.connection
    }

    /// Its windows, by their numbers.
    pub closed spec fn windows(self) -> Map<WinID, W> {
        self.windows@
    }

    /// All but the windows is what it is in the other.
    pub open spec fn same_but_windows(self, other: Self) -> bool {
        &&& self.spec_entity() == other.spec_entity()
        &&& self.spec_psn() == other.spec_psn()
        &&& self.spec_pid() == other.spec_pid()
        &&& self.spec_name() == other.spec_name()
        &&& self.spec_connection() == other.spec_connection()
    }

    /// An application without windows, which no entity stands for yet.
    pub fn new(
        psn: ProcessSerialNumber,
        pid: i32,
        name: String,
        connection: Option<u32>,
    ) -> (application: Self)
        ensures
            application.spec_entity() is None,
            application.spec_psn() == psn,
            application.spec_pid() == pid,
            application.spec_name() == name@,
            application.spec_connection() == connection,
            application.windows() == Map::<WinID, W>::empty(),
    {
        Application { entity: None, psn, pid, name, connection, windows: HashMap::new() }
    }

    /// The entity that stands for it.
    pub fn entity(&self) -> (entity: Option<Entity>)
        ensures
            entity == self.spec_entity(),
    {
        self.entity
    }

    /// Its name.
    pub fn name(&self) -> (name: &str)
        ensures
            name@ == self.spec_name(),
    {
        self.name.as_str()
    }

    /// Its process.
    pub fn pid(&self) -> (pid: i32)
        ensures
            pid == self.spec_pid(),
    {
        self.pid
    }

    /// The number of its process.
    pub fn psn(&self) -> (psn: ProcessSerialNumber)
        ensures
            psn == self.spec_psn(),
    {
        self.psn
    }

    /// Its connection to the window server.
    pub fn connection(&self) -> (connection: Option<u32>)
        ensures
            connection == self.spec_connection(),
    {
        self.connection
    }

    /// The window with this number, if the application has one.
    pub fn find_window(&self, window_id: WinID) -> (window: Option<&W>)
        ensures
            window == if self.windows().dom().contains(window_id) {
                Some(&self.windows()[window_id])
            } else {
                None
            },
    {
        self.windows.get(&window_id)
    }

    /// Takes the window with this number out.
    pub fn remove_window(&mut self, window_id: WinID) -> (window: Option<W>)
        ensures
            window == if old(self).windows().dom().contains(window_id) {
                Some(old(self).windows()[window_id])
            } else {
                None
            },
            final(self).windows() == old(self).windows().remove(window_id),
            final(self).same_but_windows(*old(self)),
    {
        self.windows.remove(&window_id)
    }

    /// Adds a window, in the place of one with the same number.
    pub fn add_window(&mut self, window_id: WinID, window: W)
        ensures
            final(self).windows() == old(self).windows().insert(window_id, window),
            final(self).same_but_windows(*old(self)),
    {
        self.windows.insert(window_id, window);
    }

    /// Whether it is the application of the process that is in front.
    pub fn is_frontmost(&self, front: ProcessSerialNumber) -> (frontmost: bool)
        ensures
            frontmost == (self.spec_psn() == front),
    {
        self.psn == front
    }
}

} // verus!
