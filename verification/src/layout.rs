//! The strip of columns on which windows are laid out, side by side.
use vstd::prelude::*;

use crate::errors::Error;
use crate::geometry::Entity;
use crate::search;
use crate::text;
use crate::text::in_decimal;

pub mod binpack;
pub mod laws;
pub mod order;
pub mod positions;
pub mod shares;
pub mod viewport;

verus! {

/// The native space that a strip belongs to.
pub type WorkspaceId = u64;

/// One column of a strip: a single window, or a stack of windows.
#[derive(Debug)]
pub enum Column {
    /// A column containing a single window.
    Single(Entity),
    /// A column containing a stack of windows, ordered from top to bottom.
    Stack(Vec<Entity>),
}

/// What a [`Column`] holds.
pub enum ColumnModel {
    Single(Entity),
    Stack(Seq<Entity>),
}

/// The window in question.
pub open spec fn is(entity: Entity) -> spec_fn(Entity) -> bool {
    |e: Entity| e == entity
}

/// Every window but the one in question.
pub open spec fn is_not(entity: Entity) -> spec_fn(Entity) -> bool {
    |e: Entity| e != entity
}

impl ColumnModel {
    /// The windows of the column, from top to bottom.
    pub open spec fn windows(self) -> Seq<Entity> {
        match self {
            ColumnModel::Single(entity) => seq![entity],
            ColumnModel::Stack(stack) => stack,
        }
    }

    /// The window is in the column.
    pub open spec fn holds(self, entity: Entity) -> bool {
        self.windows().contains(entity)
    }

    /// The topmost window.
    pub open spec fn top(self) -> Option<Entity> {
        if self.windows().len() > 0 {
            Some(self.windows()[0])
        } else {
            None
        }
    }

    /// The window at this place from the top, or the lowest one where there
    /// are fewer.
    pub open spec fn at_or_last(self, index: int) -> Option<Entity> {
        let windows = self.windows();
        if index < windows.len() {
            Some(windows[index])
        } else if windows.len() > 0 {
            Some(windows.last())
        } else {
            None
        }
    }

    /// The place of a window, counted from the top.
    pub open spec fn position_of(self, entity: Entity) -> Option<int> {
        search::first_index(self.windows(), is(entity))
    }
}

impl View for Column {
    type V = ColumnModel;

    open spec fn view(&self) -> ColumnModel {
        match self {
            Column::Single(entity) => ColumnModel::Single(*entity),
            Column::Stack(stack) => ColumnModel::Stack(stack@),
        }
    }
}

/// The first place of a window in a list.
fn place_of(windows: &Vec<Entity>, entity: Entity) -> (place: Option<usize>)
    ensures
        place matches Some(i) ==> i < windows.len() && search::first_index(windows@, is(entity)) == Some(i as int),
        place is None <==> search::first_index(windows@, is(entity)) is None,
        place is Some <==> windows@.contains(entity),
{
    let ghost p = is(entity);
    let mut i: usize = 0;
    while i < windows.len()
        invariant
            i <= windows.len(),
            p == is(entity),
            forall|j: int| 0 <= j < i ==> #[trigger] windows@[j] != entity,
        decreases windows.len() - i,
    {
        if windows[i] == entity {
            proof {
                search::lemma_first_index(windows@, p, i as int);
            }
            return Some(i);
        }
        i = i + 1;
    }
    proof {
        search::lemma_no_first_index(windows@, p);
    }
    None
}

/// A copy of a list of windows.
fn copy_of(windows: &Vec<Entity>) -> (copy: Vec<Entity>)
    ensures
        copy@ == windows@,
{
    let mut copy: Vec<Entity> = Vec::new();
    let mut i: usize = 0;
    while i < windows.len()
        invariant
            i <= windows.len(),
            copy@ == windows@.take(i as int),
        decreases windows.len() - i,
    {
        copy.push(windows[i]);
        assert(windows@.take(i + 1) =~= windows@.take(i as int).push(windows@[i as int]));
        i = i + 1;
    }
    assert(windows@.take(i as int) =~= windows@);
    copy
}

/// A list of windows without any occurrence of one.
pub(crate) fn others(windows: &Vec<Entity>, entity: Entity) -> (rest: Vec<Entity>)
    ensures
        rest@ == windows@.filter(is_not(entity)),
{
    let ghost p = is_not(entity);
    let mut rest: Vec<Entity> = Vec::new();
    let mut i: usize = 0;
    assert(windows@.take(0).filter(p) =~= Seq::empty()) by {
        reveal(Seq::filter);
    }
    while i < windows.len()
        invariant
            i <= windows.len(),
            p == is_not(entity),
            rest@ == windows@.take(i as int).filter(p),
        decreases windows.len() - i,
    {
        proof {
            assert(windows@.take(i + 1) =~= windows@.take(i as int).push(windows@[i as int]));
            windows@.take(i as int).lemma_filter_push(windows@[i as int], p);
        }
        if windows[i] != entity {
            rest.push(windows[i]);
        }
        i = i + 1;
    }
    assert(windows@.take(i as int) =~= windows@);
    rest
}

impl Clone for Column {
    fn clone(&self) -> (copy: Self)
        ensures
            copy@ == self@,
    {
        match self {
            Column::Single(entity) => Column::Single(*entity),
            Column::Stack(stack) => Column::Stack(copy_of(stack)),
        }
    }
}

impl Column {
    /// The topmost window: the contained one for a `Single`, the first one for
    /// a `Stack`.
    pub fn top(&self) -> (top: Option<Entity>)
        ensures
            top == self@.top(),
    {
        match self {
            Column::Single(entity) => Some(*entity),
            Column::Stack(stack) => if stack.len() > 0 {
                Some(stack[0])
            } else {
                None
            },
        }
    }

    /// The window at the given stack index, or the last one if the index
    /// exceeds the stack size.
    pub fn at_or_last(&self, index: usize) -> (window: Option<Entity>)
        ensures
            window == self@.at_or_last(index as int),
    {
        match self {
            Column::Single(entity) => Some(*entity),
            Column::Stack(stack) => if index < stack.len() {
                Some(stack[index])
            } else if stack.len() > 0 {
                Some(stack[stack.len() - 1])
            } else {
                None
            },
        }
    }

    /// The position of a window within this column: 0 in a `Single`, the stack
    /// index in a `Stack`.
    pub fn position_of(&self, entity: Entity) -> (place: Option<usize>)
        ensures
            place matches Some(i) ==> self@.position_of(entity) == Some(i as int),
            place is None <==> self@.position_of(entity) is None,
            place is Some <==> self@.holds(entity),
    {
        match self {
            Column::Single(id) => {
                let ghost p = is(entity);
                if *id == entity {
                    proof {
                        search::lemma_first_index(seq![*id], p, 0);
                        assert(seq![*id][0] == entity);
                    }
                    Some(0)
                } else {
                    proof {
                        search::lemma_no_first_index(seq![*id], p);
                    }
                    None
                }
            },
            Column::Stack(stack) => place_of(stack, entity),
        }
    }

    /// The windows of the column, from top to bottom.
    pub(crate) fn windows(&self) -> (windows: Vec<Entity>)
        ensures
            windows@ == self@.windows(),
    {
        match self {
            Column::Single(entity) => {
                let windows = vec![*entity];
                assert(windows@ =~= seq![*entity]);
                windows
            },
            Column::Stack(stack) => copy_of(stack),
        }
    }
}

// ---------------------------------------------------------------------------
// The strip as mathematics
// ---------------------------------------------------------------------------
/// The columns that hold a window.
pub open spec fn holder(entity: Entity) -> spec_fn(ColumnModel) -> bool {
    |c: ColumnModel| c.holds(entity)
}

/// The index of the first column that holds a window.
pub open spec fn index(columns: Seq<ColumnModel>, entity: Entity) -> Option<int> {
    search::first_index(columns, holder(entity))
}

/// The strip with a window in a new column at this index, or at the end where
/// the index is past it.
pub open spec fn inserted(columns: Seq<ColumnModel>, at: int, entity: Entity) -> Seq<ColumnModel> {
    if at >= columns.len() {
        columns.push(ColumnModel::Single(entity))
    } else {
        columns.insert(at, ColumnModel::Single(entity))
    }
}

/// The windows of a stack other than one.
pub open spec fn without(stack: Seq<Entity>, entity: Entity) -> Seq<Entity> {
    stack.filter(is_not(entity))
}

/// The strip without a window: out of the first column that holds it, which
/// goes where it is left empty and becomes single where one window is left.
pub open spec fn removed(columns: Seq<ColumnModel>, entity: Entity) -> Seq<ColumnModel> {
    match index(columns, entity) {
        None => columns,
        Some(i) => match columns[i] {
            ColumnModel::Single(_) => columns.remove(i),
            ColumnModel::Stack(stack) => {
                let rest = without(stack, entity);
                if rest.len() > 1 {
                    columns.update(i, ColumnModel::Stack(rest))
                } else if rest.len() == 1 {
                    columns.update(i, ColumnModel::Single(rest[0]))
                } else {
                    columns.remove(i)
                }
            },
        },
    }
}

/// The columns without some windows, taken off in order.
pub open spec fn without_all(columns: Seq<ColumnModel>, gone: Seq<Entity>) -> Seq<ColumnModel>
    decreases gone.len(),
{
    if gone.len() == 0 {
        columns
    } else {
        removed(without_all(columns, gone.drop_last()), gone.last())
    }
}

/// The strip with a window put at the bottom of the column to its left.
/// Nothing changes for the leftmost column or a window that is in a stack.
pub open spec fn stacked(columns: Seq<ColumnModel>, entity: Entity) -> Seq<ColumnModel> {
    match index(columns, entity) {
        None => columns,
        Some(i) => if i == 0 || columns[i] is Stack {
            columns
        } else {
            columns.remove(i).update(
                i - 1,
                ColumnModel::Stack(columns[i - 1].windows().push(entity)),
            )
        },
    }
}

/// The strip with a window put at the bottom of another one's column. Nothing
/// changes where it is the same window, or one of the two is not on the strip.
pub open spec fn stacked_onto(columns: Seq<ColumnModel>, entity: Entity, onto: Entity) -> Seq<
    ColumnModel,
> {
    let rest = removed(columns, entity);
    if entity == onto || index(columns, entity) is None {
        columns
    } else {
        match index(rest, onto) {
            None => columns,
            Some(i) => rest.update(i, ColumnModel::Stack(rest[i].windows().push(entity))),
        }
    }
}

/// How the error reads that a window is not on a strip. The window is named by
/// its number.
pub open spec fn missing(entity: Entity) -> Seq<char> {
    "index_of: can not find window "@ + text::decimal(entity.0 as nat) + " in the current pane."@
}

/// How the error reads that a strip has no column at an index.
pub open spec fn beyond(at: usize) -> Seq<char> {
    "get: "@ + text::decimal(at as nat) + " out of bounds"@
}

/// The strip with a window taken out of its stack into a column of its own to
/// the right of it. Nothing changes for a single window.
pub open spec fn unstacked(columns: Seq<ColumnModel>, entity: Entity) -> Seq<ColumnModel> {
    match index(columns, entity) {
        None => columns,
        Some(i) => match columns[i] {
            ColumnModel::Single(_) => columns,
            ColumnModel::Stack(stack) => {
                let rest = without(stack, entity);
                let left = if rest.len() == 1 {
                    ColumnModel::Single(rest[0])
                } else {
                    ColumnModel::Stack(rest)
                };
                columns.update(i, left).insert(i + 1, ColumnModel::Single(entity))
            },
        },
    }
}

/// The strip with two columns exchanged.
pub open spec fn swapped(columns: Seq<ColumnModel>, left: int, right: int) -> Seq<ColumnModel> {
    columns.update(left, columns[right]).update(right, columns[left])
}

/// All windows, column by column from the left, each from top to bottom.
pub open spec fn all_windows(columns: Seq<ColumnModel>) -> Seq<Entity> {
    columns.map_values(|c: ColumnModel| c.windows()).flatten()
}

/// The topmost window of each column that has one.
pub open spec fn tops(columns: Seq<ColumnModel>) -> Seq<Entity> {
    columns.filter_map(|c: ColumnModel| c.top())
}

/// The window in the column at this offset from a window's own, at the same
/// height or the lowest one.
pub open spec fn beside(columns: Seq<ColumnModel>, entity: Entity, offset: int) -> Option<Entity> {
    match index(columns, entity) {
        None => None,
        Some(i) => if 0 <= i + offset < columns.len() {
            columns[i + offset].at_or_last(columns[i].position_of(entity)->0)
        } else {
            None
        },
    }
}

/// The window just above another in its stack.
pub open spec fn window_above(columns: Seq<ColumnModel>, entity: Entity) -> Option<Entity> {
    match index(columns, entity) {
        None => None,
        Some(i) => match columns[i] {
            ColumnModel::Single(_) => None,
            ColumnModel::Stack(stack) => {
                let place = columns[i].position_of(entity)->0;
                if place > 0 {
                    Some(stack[place - 1])
                } else {
                    None
                }
            },
        },
    }
}

/// A strip of columns, side by side from left to right.
#[derive(Debug)]
pub struct LayoutStrip {
    id: WorkspaceId,
    columns: Vec<Column>,
}

impl View for LayoutStrip {
    type V = Seq<ColumnModel>;

    closed spec fn view(&self) -> Seq<ColumnModel> {
        self.columns@.map_values(|c: Column| c@)
    }
}

impl Default for LayoutStrip {
    /// An empty strip of the space numbered zero.
    fn default() -> (strip: Self)
        ensures
            strip@ == Seq::<ColumnModel>::empty(),
            strip.spec_id() == 0,
    {
        LayoutStrip::new(0)
    }
}

impl Clone for LayoutStrip {
    fn clone(&self) -> (copy: Self)
        ensures
            copy@ == self@,
            copy.spec_id() == self.spec_id(),
    {
        let mut columns: Vec<Column> = Vec::new();
        let mut i: usize = 0;
        while i < self.columns.len()
            invariant
                i <= self.columns.len(),
                columns.len() == i,
                forall|j: int| 0 <= j < i ==> (#[trigger] columns@[j])@ == self.columns@[j]@,
            decreases self.columns.len() - i,
        {
            columns.push(self.columns[i].clone());
            i = i + 1;
        }
        let copy = LayoutStrip { id: self.id, columns };
        assert(copy@ =~= self@);
        copy
    }
}

impl LayoutStrip {
    /// The space that the strip belongs to.
    pub closed spec fn spec_id(&self) -> WorkspaceId {
        self.id
    }

    /// An empty strip.
    pub fn new(id: WorkspaceId) -> (strip: Self)
        ensures
            strip@ == Seq::<ColumnModel>::empty(),
            strip.spec_id() == id,
    {
        let strip = LayoutStrip { id, columns: Vec::new() };
        assert(strip@ =~= Seq::empty());
        strip
    }

    /// The index of the first column that holds a window, if one does.
    fn find(&self, entity: Entity) -> (found: Option<usize>)
        ensures
            found matches Some(i) ==> i < self.columns.len() && i < self@.len() && index(self@, entity)
                == Some(i as int) && self@[i as int].holds(entity),
            found is None <==> index(self@, entity) is None,
    {
        let mut i: usize = 0;
        while i < self.columns.len()
            invariant
                i <= self.columns.len(),
                forall|j: int| 0 <= j < i ==> !(#[trigger] self@[j]).holds(entity),
            decreases self.columns.len() - i,
        {
            assert(self@[i as int] == self.columns@[i as int]@);
            if self.columns[i].position_of(entity).is_some() {
                proof {
                    search::lemma_first_index(self@, holder(entity), i as int);
                }
                return Some(i);
            }
            i = i + 1;
        }
        proof {
            search::lemma_no_first_index(self@, holder(entity));
        }
        None
    }

    /// Finds the index of a window within the strip. For a window that is part
    /// of a stack this is the index of the stack.
    pub fn index_of(&self, entity: Entity) -> (found: core::result::Result<usize, Error>)
        ensures
            found matches Ok(i) ==> index(self@, entity) == Some(i as int) && i < self@.len(),
            found matches Err(e) ==> index(self@, entity) is None && e.is_not_found(
                missing(entity),
            ),
            found is Ok <==> index(self@, entity) is Some,
    {
        match self.find(entity) {
            Some(i) => Ok(i),
            None => {
                let mut text = "index_of: can not find window ".to_owned();
                text.append(in_decimal(entity.0).as_str());
                text.append(" in the current pane.");
                Err(Error::NotFound(text))
            },
        }
    }

    /// Inserts a window as a `Single` column at index `after`, or at the end
    /// where that is past it.
    pub fn insert_at(&mut self, after: usize, entity: Entity)
        ensures
            final(self)@ == inserted(old(self)@, after as int, entity),
            final(self).spec_id() == old(self).spec_id(),
    {
        if after >= self.columns.len() {
            self.columns.push(Column::Single(entity));
        } else {
            self.columns.insert(after, Column::Single(entity));
        }
        assert(self@ =~= inserted(old(self)@, after as int, entity));
    }

    /// Appends a window as a `Single` column to the end of the strip.
    pub fn append(&mut self, entity: Entity)
        ensures
            final(self)@ == old(self)@.push(ColumnModel::Single(entity)),
            final(self).spec_id() == old(self).spec_id(),
    {
        self.columns.push(Column::Single(entity));
        assert(self@ =~= old(self)@.push(ColumnModel::Single(entity)));
    }

    /// Removes a window from the strip. A stack that is left with one window
    /// becomes single; a column that is left empty goes.
    pub fn remove(&mut self, entity: Entity)
        ensures
            final(self)@ == removed(old(self)@, entity),
            final(self).spec_id() == old(self).spec_id(),
    {
        let i: usize = match self.find(entity) {
            Some(i) => i,
            None => return ,
        };
        let ghost before = self@;
        assert(before[i as int] == self.columns@[i as int]@);
        let column = self.columns.remove(i);
        match column {
            Column::Single(_) => {},
            Column::Stack(stack) => {
                let rest = others(&stack, entity);
                if rest.len() > 1 {
                    self.columns.insert(i, Column::Stack(rest));
                } else if rest.len() == 1 {
                    self.columns.insert(i, Column::Single(rest[0]));
                }
            },
        }
        assert(self@ =~= removed(before, entity));
    }

    /// The column at an index.
    pub fn get(&self, at: usize) -> (column: core::result::Result<Column, Error>)
        ensures
            column matches Ok(c) ==> at < self@.len() && c@ == self@[at as int],
            column matches Err(e) ==> at >= self@.len() && e.is_invalid_input(
                beyond(at),
            ),
    {
        if at < self.columns.len() {
            Ok(self.columns[at].clone())
        } else {
            let mut text = "get: ".to_owned();
            text.append(in_decimal(at as u64).as_str());
            text.append(" out of bounds");
            Err(Error::InvalidInput(text))
        }
    }

    /// Swaps the positions of two columns within the strip.
    pub fn swap(&mut self, left: usize, right: usize)
        requires
            left < old(self)@.len(),
            right < old(self)@.len(),
        ensures
            final(self)@ == swapped(old(self)@, left as int, right as int),
            final(self).spec_id() == old(self).spec_id(),
    {
        let first = self.columns[left].clone();
        let second = self.columns[right].clone();
        self.columns.set(left, second);
        self.columns.set(right, first);
        assert(self@ =~= swapped(old(self)@, left as int, right as int));
    }

    /// The number of columns in the strip.
    pub fn len(&self) -> (len: usize)
        ensures
            len == self@.len(),
    {
        self.columns.len()
    }

    /// The first column of the strip.
    pub fn first(&self) -> (column: core::result::Result<Column, Error>)
        ensures
            column matches Ok(c) ==> self@.len() > 0 && c@ == self@[0],
            column matches Err(e) ==> self@.len() == 0 && e.is_not_found("first: can not find first element."@),
    {
        if self.columns.len() > 0 {
            Ok(self.columns[0].clone())
        } else {
            Err(Error::not_found("first: can not find first element."))
        }
    }

    /// The last column of the strip.
    pub fn last(&self) -> (column: core::result::Result<Column, Error>)
        ensures
            column matches Ok(c) ==> self@.len() > 0 && c@ == self@.last(),
            column matches Err(e) ==> self@.len() == 0 && e.is_not_found("last: can not find last element."@),
    {
        if self.columns.len() > 0 {
            Ok(self.columns[self.columns.len() - 1].clone())
        } else {
            Err(Error::not_found("last: can not find last element."))
        }
    }

    /// The window in the next column to the right, at the same height if there
    /// is one.
    pub fn right_neighbour(&self, entity: Entity) -> (window: Option<Entity>)
        ensures
            window == beside(self@, entity, 1),
    {
        let i: usize = match self.find(entity) {
            Some(i) => i,
            None => return None,
        };
        assert(self@[i as int] == self.columns@[i as int]@);
        let place: usize = match self.columns[i].position_of(entity) {
            Some(place) => place,
            None => return None,
        };
        if i + 1 < self.columns.len() {
            assert(self@[i + 1] == self.columns@[i + 1]@);
            self.columns[i + 1].at_or_last(place)
        } else {
            None
        }
    }

    /// The window in the next column to the left, at the same height if there
    /// is one.
    pub fn left_neighbour(&self, entity: Entity) -> (window: Option<Entity>)
        ensures
            window == beside(self@, entity, -1),
    {
        let i: usize = match self.find(entity) {
            Some(i) => i,
            None => return None,
        };
        assert(self@[i as int] == self.columns@[i as int]@);
        let place: usize = match self.columns[i].position_of(entity) {
            Some(place) => place,
            None => return None,
        };
        if i > 0 {
            assert(self@[i - 1] == self.columns@[i - 1]@);
            self.columns[i - 1].at_or_last(place)
        } else {
            None
        }
    }

    /// Stacks a window onto the column to its left. If the window is already
    /// in a stack or leftmost, nothing changes.
    pub fn stack(&mut self, entity: Entity) -> (done: core::result::Result<(), Error>)
        ensures
            final(self)@ == stacked(old(self)@, entity),
            final(self).spec_id() == old(self).spec_id(),
            done is Ok <==> index(old(self)@, entity) is Some,
            done matches Err(e) ==> e.is_not_found(missing(entity)),
    {
        let i: usize = match self.index_of(entity) {
            Ok(i) => i,
            Err(e) => return Err(e),
        };
        if i == 0 {
            return Ok(());
        }
        let ghost before = self@;
        assert(before[i as int] == self.columns@[i as int]@);
        assert(before[i - 1] == self.columns@[i - 1]@);
        match &self.columns[i] {
            Column::Stack(_) => return Ok(()),
            Column::Single(_) => {},
        }
        let own = self.columns.remove(i);
        let mut stack = self.columns[i - 1].windows();
        stack.push(entity);
        self.columns.set(i - 1, Column::Stack(stack));
        assert(self@ =~= stacked(before, entity));
        Ok(())
    }

    /// Stacks a window onto the column of another one, at its bottom. Nothing
    /// changes where it is the same window, or one of the two is not on the strip.
    pub fn stack_onto(&mut self, entity: Entity, onto: Entity)
        ensures
            final(self)@ == stacked_onto(old(self)@, entity, onto),
            final(self).spec_id() == old(self).spec_id(),
    {
        if entity == onto || self.find(entity).is_none() {
            return ;
        }
        let mut rest = self.clone();
        rest.remove(entity);
        let i: usize = match rest.find(onto) {
            Some(i) => i,
            None => return ,
        };
        assert(rest@[i as int] == rest.columns@[i as int]@);
        let mut stack = rest.columns[i].windows();
        stack.push(entity);
        rest.columns.set(i, Column::Stack(stack));
        assert(rest@ =~= stacked_onto(old(self)@, entity, onto));
        *self = rest;
    }

    /// Unstacks a window from its stack. A single window stays as it is.
    pub fn unstack(&mut self, entity: Entity) -> (done: core::result::Result<(), Error>)
        ensures
            final(self)@ == unstacked(old(self)@, entity),
            final(self).spec_id() == old(self).spec_id(),
            done is Ok <==> index(old(self)@, entity) is Some,
            done matches Err(e) ==> e.is_not_found(missing(entity)),
    {
        let i: usize = match self.index_of(entity) {
            Ok(i) => i,
            Err(e) => return Err(e),
        };
        let ghost before = self@;
        assert(before[i as int] == self.columns@[i as int]@);
        let rest = match &self.columns[i] {
            Column::Single(_) => return Ok(()),
            Column::Stack(stack) => others(stack, entity),
        };
        let left = if rest.len() == 1 {
            Column::Single(rest[0])
        } else {
            Column::Stack(rest)
        };
        assert(self.columns.len() == before.len());
        self.columns.set(i, left);
        self.columns.insert(i + 1, Column::Single(entity));
        assert(self@ =~= unstacked(before, entity));
        Ok(())
    }

    /// All windows of the strip, in order. For a stack, all of its windows are
    /// there.
    pub fn all_windows(&self) -> (windows: Vec<Entity>)
        ensures
            windows@ == all_windows(self@),
    {
        let ghost f = |c: ColumnModel| c.windows();
        let mut all: Vec<Entity> = Vec::new();
        let mut i: usize = 0;
        assert(all@ =~= self@.take(0).map_values(f).flatten());
        while i < self.columns.len()
            invariant
                i <= self.columns.len(),
                f == (|c: ColumnModel| c.windows()),
                all@ == self@.take(i as int).map_values(f).flatten(),
            decreases self.columns.len() - i,
        {
            let mut here = self.columns[i].windows();
            proof {
                let taken = self@.take(i as int);
                assert(self@.take(i + 1) =~= taken.push(self@[i as int]));
                assert(taken.push(self@[i as int]).map_values(f) =~= taken.map_values(f).push(
                    here@,
                ));
                taken.map_values(f).lemma_flatten_push(here@);
            }
            all.append(&mut here);
            i = i + 1;
        }
        assert(self@.take(i as int) =~= self@);
        all
    }

    /// The topmost window of each column.
    pub fn all_columns(&self) -> (windows: Vec<Entity>)
        ensures
            windows@ == tops(self@),
    {
        let ghost f = |c: ColumnModel| c.top();
        let mut all: Vec<Entity> = Vec::new();
        let mut i: usize = 0;
        assert(all@ =~= self@.take(0).filter_map(f));
        while i < self.columns.len()
            invariant
                i <= self.columns.len(),
                f == (|c: ColumnModel| c.top()),
                all@ == self@.take(i as int).filter_map(f),
            decreases self.columns.len() - i,
        {
            assert(self@[i as int] == self.columns@[i as int]@);
            proof {
                self@.lemma_filter_map_take_succ(f, i as int);
            }
            if let Some(top) = self.columns[i].top() {
                all.push(top);
            }
            assert(all@ =~= self@.take(i + 1).filter_map(f));
            i = i + 1;
        }
        assert(self@.take(i as int) =~= self@);
        all
    }

    /// The space that the strip belongs to.
    pub fn id(&self) -> (id: WorkspaceId)
        ensures
            id == self.spec_id(),
    {
        self.id
    }

    /// The window just above another in its stack.
    pub fn above(&self, entity: Entity) -> (window: Option<Entity>)
        ensures
            window == window_above(self@, entity),
    {
        let i: usize = match self.find(entity) {
            Some(i) => i,
            None => return None,
        };
        assert(self@[i as int] == self.columns@[i as int]@);
        match &self.columns[i] {
            Column::Single(_) => None,
            Column::Stack(stack) => {
                let place: usize = match place_of(stack, entity) {
                    Some(place) => place,
                    None => return None,
                };
                if place > 0 {
                    Some(stack[place - 1])
                } else {
                    None
                }
            },
        }
    }
}

} // verus!
