//! A display, with a pane of windows for each of its spaces.
use vstd::prelude::*;

use crate::errors::Error;
use crate::events::Point;
use crate::geometry::Entity;
use crate::layout;
use crate::layout::{Column, ColumnModel, LayoutStrip};
use crate::number::Number;

verus! {

/// A single window, or a stack of them.
pub type Panel = Column;

/// The panels of a space, side by side from left to right.
#[derive(Debug)]
pub struct WindowPane {
    strip: LayoutStrip,
}

impl View for WindowPane {
    type V = Seq<ColumnModel>;

    closed spec fn view(&self) -> Seq<ColumnModel> {
        self.strip@
    }
}

impl Default for WindowPane {
    /// A pane without windows.
    fn default() -> (pane: Self)
        ensures
            pane@ == Seq::<ColumnModel>::empty(),
    {
        WindowPane { strip: LayoutStrip::new(0) }
    }
}

/// The panels to the right of the one at an index, from the nearest on.
pub open spec fn right_of(panels: Seq<ColumnModel>, at: int) -> Seq<ColumnModel> {
    panels.skip(at + 1)
}

/// The panels to the left of the one at an index, from the nearest on.
pub open spec fn left_of(panels: Seq<ColumnModel>, at: int) -> Seq<ColumnModel> {
    panels.take(at).reverse()
}

/// How panels look.
pub open spec fn models(panels: Seq<Panel>) -> Seq<ColumnModel> {
    panels.map_values(|panel: Panel| panel@)
}

/// The window is not in the pane.
pub open spec fn is_missing(error: Error, window: Entity) -> bool {
    error.is_not_found(layout::missing(window))
}

impl WindowPane {
    /// The index of the panel that holds a window.
    pub fn index_of(&self, window_id: Entity) -> (found: Result<usize, Error>)
        ensures
            match found {
                Ok(i) => layout::index(self@, window_id) == Some(i as int) && i < self@.len(),
                Err(error) => layout::index(self@, window_id) is None && is_missing(error, window_id),
            },
    {
        self.strip.index_of(window_id)
    }

    /// Inserts a window as a panel of its own at index `after`, or at the end where
    /// that is past it.
    pub fn insert_at(&mut self, after: usize, window_id: Entity)
        ensures
            final(self)@ == layout::inserted(old(self)@, after as int, window_id),
    {
        self.strip.insert_at(after, window_id);
    }

    /// Adds a window as a panel of its own at the end.
    pub fn append(&mut self, window_id: Entity)
        ensures
            final(self)@ == old(self)@.push(ColumnModel::Single(window_id)),
    {
        self.strip.append(window_id);
    }

    /// Takes a window out. A stack that is left with one window becomes single.
    pub fn remove(&mut self, window_id: Entity)
        ensures
            final(self)@ == layout::removed(old(self)@, window_id),
    {
        self.strip.remove(window_id);
    }

    /// The panel at an index.
    pub fn get(&self, at: usize) -> (panel: Result<Panel, Error>)
        ensures
            match panel {
                Ok(panel) => at < self@.len() && panel@ == self@[at as int],
                Err(error) => at >= self@.len() && error.is_invalid_input(layout::beyond(at)),
            },
    {
        self.strip.get(at)
    }

    /// Swaps two panels.
    pub fn swap(&mut self, left: usize, right: usize)
        requires
            left < old(self)@.len(),
            right < old(self)@.len(),
        ensures
            final(self)@ == layout::swapped(old(self)@, left as int, right as int),
    {
        self.strip.swap(left, right);
    }

    /// The number of panels.
    pub fn len(&self) -> (len: usize)
        ensures
            len == self@.len(),
    {
        self.strip.len()
    }

    /// The first panel.
    pub fn first(&self) -> (panel: Result<Panel, Error>)
        ensures
            match panel {
                Ok(panel) => self@.len() > 0 && panel@ == self@[0],
                Err(error) => self@.len() == 0 && error.is_not_found(
                    "first: can not find first element."@,
                ),
            },
    {
        self.strip.first()
    }

    /// The last panel.
    pub fn last(&self) -> (panel: Result<Panel, Error>)
        ensures
            match panel {
                Ok(panel) => self@.len() > 0 && panel@ == self@.last(),
                Err(error) => self@.len() == 0 && error.is_not_found(
                    "last: can not find last element."@,
                ),
            },
    {
        self.strip.last()
    }

    /// The panels to the right of a window, in the order in which they are visited:
    /// from the nearest on. Whoever visits them stops where it likes.
    pub fn access_right_of(&self, window_id: Entity) -> (panels: Result<Vec<Panel>, Error>)
        ensures
            match panels {
                Ok(panels) => layout::index(self@, window_id) matches Some(at) && models(panels@)
                    == right_of(self@, at),
                Err(error) => layout::index(self@, window_id) is None && is_missing(error, window_id),
            },
    {
        let at: usize = match self.index_of(window_id) {
            Ok(at) => at,
            Err(error) => return Err(error),
        };
        let mut panels: Vec<Panel> = Vec::new();
        let len: usize = self.len();
        let mut i: usize = at + 1;
        assert(models(panels@) =~= self@.subrange(at + 1, at + 1));
        while i < len
            invariant
                len == self@.len(),
                layout::index(self@, window_id) == Some(at as int),
                at < i <= self@.len(),
                models(panels@) == self@.subrange(at + 1, i as int),
            decreases self@.len() - i,
        {
            let ghost before = panels@;
            match self.get(i) {
                Ok(panel) => panels.push(panel),
                Err(error) => return Err(error),
            }
            assert(models(panels@) =~= models(before).push(self@[i as int]));
            assert(self@.subrange(at + 1, i + 1) =~= self@.subrange(at + 1, i as int).push(
                self@[i as int],
            ));
            i = i + 1;
        }
        assert(self@.subrange(at + 1, self@.len() as int) =~= right_of(self@, at as int));
        Ok(panels)
    }

    /// The panels to the left of a window, in the order in which they are visited:
    /// from the nearest on. Whoever visits them stops where it likes.
    pub fn access_left_of(&self, window_id: Entity) -> (panels: Result<Vec<Panel>, Error>)
        ensures
            match panels {
                Ok(panels) => layout::index(self@, window_id) matches Some(at) && models(panels@)
                    == left_of(self@, at),
                Err(error) => layout::index(self@, window_id) is None && is_missing(error, window_id),
            },
    {
        let at: usize = match self.index_of(window_id) {
            Ok(at) => at,
            Err(error) => return Err(error),
        };
        let mut panels: Vec<Panel> = Vec::new();
        let mut i: usize = at;
        assert(models(panels@) =~= self@.subrange(at as int, at as int).reverse());
        while i > 0
            invariant
                layout::index(self@, window_id) == Some(at as int),
                i <= at < self@.len(),
                models(panels@) == self@.subrange(i as int, at as int).reverse(),
            decreases i,
        {
            let ghost before = panels@;
            i = i - 1;
            match self.get(i) {
                Ok(panel) => panels.push(panel),
                Err(error) => return Err(error),
            }
            assert(models(panels@) =~= models(before).push(self@[i as int]));
            assert(self@.subrange(i as int, at as int).reverse() =~= self@.subrange(
                i + 1,
                at as int,
            ).reverse().push(self@[i as int]));
        }
        assert(self@.subrange(0, at as int) =~= self@.take(at as int));
        Ok(panels)
    }

    /// Stacks a window onto the panel to its left.
    pub fn stack(&mut self, window_id: Entity) -> (done: Result<(), Error>)
        ensures
            match done {
                Ok(_) => layout::index(old(self)@, window_id) is Some && final(self)@
                    == layout::stacked(old(self)@, window_id),
                Err(error) => layout::index(old(self)@, window_id) is None && final(self)@ == old(self)@
                    && is_missing(error, window_id),
            },
    {
        self.strip.stack(window_id)
    }

    /// Gives a window of a stack a panel of its own, to the right of the stack.
    pub fn unstack(&mut self, window_id: Entity) -> (done: Result<(), Error>)
        ensures
            match done {
                Ok(_) => layout::index(old(self)@, window_id) is Some && final(self)@
                    == layout::unstacked(old(self)@, window_id),
                Err(error) => layout::index(old(self)@, window_id) is None && final(self)@ == old(self)@
                    && is_missing(error, window_id),
            },
    {
        self.strip.unstack(window_id)
    }

    /// All windows, from left to right and from top to bottom.
    pub fn all_windows(&self) -> (windows: Vec<Entity>)
        ensures
            windows@ == layout::all_windows(self@),
    {
        self.strip.all_windows()
    }
}

/// Where a display lies, in global coordinates.
#[derive(Clone, Copy, Debug, PartialEq)]
pub struct DisplayBounds {
    pub origin: Point,
    pub width: Number,
    pub height: Number,
}

/// A space and its pane.
#[derive(Debug)]
pub struct Space {
    pub id: u64,
    pub pane: WindowPane,
}

/// A display. It has one pane for each of its spaces.
#[derive(Debug)]
pub struct Display {
    pub id: u32,
    pub spaces: Vec<Space>,
    pub bounds: DisplayBounds,
    pub menubar_height: u32,
}

impl Display {
    /// No space is in the list twice.
    pub open spec fn wf(self) -> bool {
        forall|i: int, j: int|
            0 <= i < j < self.spaces@.len() ==> (#[trigger] self.spaces@[i]).id
                != (#[trigger] self.spaces@[j]).id
    }

    /// The display has this space.
    pub open spec fn has(self, space_id: u64) -> bool {
        exists|i: int| 0 <= i < self.spaces@.len() && (#[trigger] self.spaces@[i]).id == space_id
    }

    /// The panels of a space that the display has.
    pub open spec fn pane(self, space_id: u64) -> Seq<ColumnModel> {
        let i = choose|i: int|
            0 <= i < self.spaces@.len() && (#[trigger] self.spaces@[i]).id == space_id;
        self.spaces@[i].pane@
    }

    /// All but the panes is what it is in the other.
    pub open spec fn same_but_panes(self, other: Self) -> bool {
        &&& self.id == other.id
        &&& self.bounds == other.bounds
        &&& self.menubar_height == other.menubar_height
    }

    /// The pane of a space is the one in the list.
    proof fn lemma_pane(self, i: int)
        requires
            self.wf(),
            0 <= i < self.spaces@.len(),
        ensures
            self.has(self.spaces@[i].id),
            self.pane(self.spaces@[i].id) == self.spaces@[i].pane@,
    {
        let id = self.spaces@[i].id;
        let k = choose|k: int|
            0 <= k < self.spaces@.len() && (#[trigger] self.spaces@[k]).id == id;
        assert(k == i);
    }

    /// The spaces of both are the same, but for the pane of one of them.
    spec fn differs_at(before: Self, after: Self, i: int) -> bool {
        &&& after.spaces@.len() == before.spaces@.len()
        &&& after.spaces@[i].id == before.spaces@[i].id
        &&& forall|j: int|
            0 <= j < before.spaces@.len() && j != i ==> #[trigger] after.spaces@[j]
                == before.spaces@[j]
    }

    /// Where one pane changes, the spaces and the other panes stay.
    proof fn lemma_one_pane(before: Self, after: Self, i: int)
        requires
            before.wf(),
            0 <= i < before.spaces@.len(),
            Self::differs_at(before, after, i),
        ensures
            after.wf(),
            forall|space: u64| #[trigger] after.has(space) <==> before.has(space),
            forall|space: u64|
                before.has(space) && space != before.spaces@[i].id ==> #[trigger] after.pane(space)
                    == before.pane(space),
            before.pane(before.spaces@[i].id) == before.spaces@[i].pane@,
            after.pane(before.spaces@[i].id) == after.spaces@[i].pane@,
    {
        assert forall|j: int| 0 <= j < before.spaces@.len() implies (#[trigger] after.spaces@[j]).id
            == before.spaces@[j].id by {}
        before.lemma_pane(i);
        after.lemma_pane(i);
        assert forall|space: u64| #[trigger] after.has(space) <==> before.has(space) by {
            if after.has(space) {
                let j = choose|j: int|
                    0 <= j < after.spaces@.len() && (#[trigger] after.spaces@[j]).id == space;
                assert(before.spaces@[j].id == space);
            }
            if before.has(space) {
                let j = choose|j: int|
                    0 <= j < before.spaces@.len() && (#[trigger] before.spaces@[j]).id == space;
                assert(after.spaces@[j].id == space);
            }
        }
        assert forall|space: u64| before.has(space) && space != before.spaces@[i].id implies
            #[trigger] after.pane(space) == before.pane(space) by {
            let j = choose|j: int|
                0 <= j < before.spaces@.len() && (#[trigger] before.spaces@[j]).id == space;
            before.lemma_pane(j);
            after.lemma_pane(j);
        }
    }

    /// A display with an empty pane for each space.
    pub fn new(id: u32, spaces: Vec<u64>, bounds: DisplayBounds, menubar_height: u32) -> (display:
        Self)
        ensures
            display.wf(),
            display.id == id,
            display.bounds == bounds,
            display.menubar_height == menubar_height,
            forall|space: u64| #[trigger] display.has(space) <==> spaces@.contains(space),
            forall|space: u64|
                display.has(space) ==> #[trigger] display.pane(space)
                    == Seq::<ColumnModel>::empty(),
    {
        let mut display = Display { id, spaces: Vec::new(), bounds, menubar_height };
        let mut i: usize = 0;
        while i < spaces.len()
            invariant
                i <= spaces.len(),
                display.wf(),
                display.id == id,
                display.bounds == bounds,
                display.menubar_height == menubar_height,
                forall|space: u64| #[trigger] display.has(space) <==> spaces@.take(i as int).contains(space),
                forall|j: int|
                    0 <= j < display.spaces@.len() ==> (#[trigger] display.spaces@[j]).pane@
                        == Seq::<ColumnModel>::empty(),
            decreases spaces.len() - i,
        {
            let space = spaces[i];
            let ghost before = display;
            let ghost head = spaces@.take(i as int);
            assert(spaces@.take(i + 1) =~= head.push(space));
            if display.find(space).is_none() {
                display.spaces.push(Space { id: space, pane: WindowPane::default() });
                assert forall|other: u64| #[trigger] display.has(other) <==> head.push(
                    space,
                ).contains(other) by {
                    if display.has(other) {
                        let j = choose|j: int|
                            0 <= j < display.spaces@.len() && (#[trigger] display.spaces@[j]).id
                                == other;
                        if j < before.spaces@.len() {
                            assert(before.spaces@[j].id == other);
                            assert(before.has(other));
                            let k = choose|k: int| 0 <= k < head.len() && head[k] == other;
                            assert(head.push(space)[k] == other);
                        } else {
                            assert(head.push(space)[head.len() as int] == other);
                        }
                    }
                    if head.push(space).contains(other) {
                        let k = choose|k: int|
                            0 <= k < head.push(space).len() && head.push(space)[k] == other;
                        if k < head.len() {
                            assert(head[k] == other);
                            assert(before.has(other));
                            let j = choose|j: int|
                                0 <= j < before.spaces@.len() && (#[trigger] before.spaces@[j]).id
                                    == other;
                            assert(display.spaces@[j].id == other);
                        } else {
                            assert(display.spaces@[before.spaces@.len() as int].id == other);
                        }
                    }
                }
            } else {
                assert forall|other: u64| #[trigger] display.has(other) <==> head.push(
                    space,
                ).contains(other) by {
                    if head.contains(other) {
                        let k = choose|k: int| 0 <= k < head.len() && head[k] == other;
                        assert(head.push(space)[k] == other);
                    }
                    if head.push(space).contains(other) {
                        let k = choose|k: int|
                            0 <= k < head.push(space).len() && head.push(space)[k] == other;
                        if k < head.len() {
                            assert(head[k] == other);
                        }
                    }
                }
            }
            i = i + 1;
        }
        assert(spaces@.take(spaces.len() as int) =~= spaces@);
        display
    }

    /// Where a space is in the list.
    fn find(&self, space_id: u64) -> (place: Option<usize>)
        ensures
            match place {
                Some(i) => i < self.spaces@.len() && self.spaces@[i as int].id == space_id
                    && self.has(space_id),
                None => !self.has(space_id),
            },
    {
        let mut i: usize = 0;
        while i < self.spaces.len()
            invariant
                i <= self.spaces.len(),
                forall|j: int| 0 <= j < i ==> (#[trigger] self.spaces@[j]).id != space_id,
            decreases self.spaces.len() - i,
        {
            if self.spaces[i].id == space_id {
                assert(self.spaces@[i as int].id == space_id);
                return Some(i);
            }
            i = i + 1;
        }
        None
    }

    /// Takes a window out of the panes of all spaces.
    pub fn remove_window(&mut self, window_id: Entity)
        requires
            old(self).wf(),
        ensures
            final(self).wf(),
            final(self).same_but_panes(*old(self)),
            forall|space: u64| #[trigger] final(self).has(space) <==> old(self).has(space),
            forall|space: u64|
                old(self).has(space) ==> #[trigger] final(self).pane(space) == layout::removed(
                    old(self).pane(space),
                    window_id,
                ),
    {
        let ghost before = *self;
        let mut i: usize = 0;
        while i < self.spaces.len()
            invariant
                i <= self.spaces.len(),
                self.spaces@.len() == before.spaces@.len(),
                self.same_but_panes(before),
                forall|j: int|
                    0 <= j < self.spaces@.len() ==> (#[trigger] self.spaces@[j]).id
                        == before.spaces@[j].id,
                forall|j: int|
                    0 <= j < i ==> (#[trigger] self.spaces@[j]).pane@ == layout::removed(
                        before.spaces@[j].pane@,
                        window_id,
                    ),
                forall|j: int|
                    i <= j < self.spaces@.len() ==> (#[trigger] self.spaces@[j])
                        == before.spaces@[j],
            decreases self.spaces.len() - i,
        {
            self.spaces[i].pane.remove(window_id);
            i = i + 1;
        }
        proof {
            assert forall|space: u64| #[trigger] self.has(space) <==> before.has(space) by {
                if self.has(space) {
                    let j = choose|j: int|
                        0 <= j < self.spaces@.len() && (#[trigger] self.spaces@[j]).id == space;
                    assert(before.spaces@[j].id == space);
                }
                if before.has(space) {
                    let j = choose|j: int|
                        0 <= j < before.spaces@.len() && (#[trigger] before.spaces@[j]).id == space;
                    assert(self.spaces@[j].id == space);
                }
            }
            assert forall|space: u64| before.has(space) implies #[trigger] self.pane(space)
                == layout::removed(before.pane(space), window_id) by {
                let j = choose|j: int|
                    0 <= j < before.spaces@.len() && (#[trigger] before.spaces@[j]).id == space;
                assert(self.spaces@[j].id == space);
                before.lemma_pane(j);
                self.lemma_pane(j);
            }
        }
    }

    /// The pane of a space.
    pub fn active_panel(&self, space_id: u64) -> (pane: Result<&WindowPane, Error>)
        requires
            self.wf(),
        ensures
            match pane {
                Ok(pane) => self.has(space_id) && pane@ == self.pane(space_id),
                Err(error) => !self.has(space_id) && error.is_not_found(
                    "active_panel: no such space."@,
                ),
            },
    {
        match self.find(space_id) {
            Some(i) => {
                proof {
                    self.lemma_pane(i as int);
                }
                Ok(&self.spaces[i].pane)
            },
            None => Err(Error::not_found("active_panel: no such space.")),
        }
    }

    /// The pane of a space, to change it. The panes of the other spaces stay as they
    /// are.
    pub fn active_panel_mut(&mut self, space_id: u64) -> (pane: Result<&mut WindowPane, Error>)
        requires
            old(self).wf(),
        ensures
            final(self).wf(),
            final(self).same_but_panes(*old(self)),
            forall|space: u64| #[trigger] final(self).has(space) <==> old(self).has(space),
            forall|space: u64|
                old(self).has(space) && space != space_id ==> #[trigger] final(self).pane(space)
                    == old(self).pane(space),
            match pane {
                Ok(pane) => old(self).has(space_id) && pane@ == old(self).pane(space_id)
                    && final(self).pane(space_id) == final(pane)@,
                Err(error) => !old(self).has(space_id) && *final(self) == *old(self)
                    && error.is_not_found("active_panel_mut: no such space."@),
            },
    {
        match self.find(space_id) {
            Some(i) => {
                proof {
                    let before = *old(self);
                    before.lemma_pane(i as int);
                    assert forall|after: Display, space: u64|
                        Self::differs_at(before, after, i as int) implies (
                    #[trigger] after.has(space) <==> before.has(space)) by {
                        Self::lemma_one_pane(before, after, i as int);
                    }
                    assert forall|after: Display, space: u64|
                        Self::differs_at(before, after, i as int) && before.has(space)
                            implies #[trigger] after.pane(space) == if space == space_id {
                        after.spaces@[i as int].pane@
                    } else {
                        before.pane(space)
                    } by {
                        Self::lemma_one_pane(before, after, i as int);
                    }
                }
                Ok(&mut self.spaces[i].pane)
            },
            None => Err(Error::not_found("active_panel_mut: no such space.")),
        }
    }

    /// The number of the display.
    pub fn id(&self) -> (id: u32)
        ensures
            id == self.id,
    {
        self.id
    }
}

/// The panels on both sides of a window, with the window's own between them, are
/// all panels of the pane: visiting leaves none out and visits none twice.
pub proof fn law_both_sides_are_visited(panels: Seq<ColumnModel>, at: int)
    requires
        0 <= at < panels.len(),
    ensures
        left_of(panels, at).reverse() + seq![panels[at]] + right_of(panels, at) == panels,
{
    assert(left_of(panels, at).reverse() + seq![panels[at]] + right_of(panels, at) =~= panels);
}

} // verus!
