//! Where the windows of a strip are, relative to the strip's own origin.
use vstd::prelude::*;

use crate::geometry;
use crate::geometry::{Entity, IRect, IVec2};
use crate::layout;
use crate::layout::binpack;
use crate::layout::{Column, ColumnModel, LayoutStrip};
use crate::search;

verus! {

/// The least height that a window of a stack is given.
pub const MIN_WINDOW_HEIGHT: i32 = 200;

/// A lookup whose answers are these frames.
pub open spec fn answers<W: Fn(Entity) -> Option<IRect>>(
    get_window_frame: W,
    frame: spec_fn(Entity) -> Option<IRect>,
) -> bool {
    &&& forall|e: Entity| #[trigger] call_requires(get_window_frame, (e,))
    &&& forall|e: Entity, f: Option<IRect>| #[trigger]
        call_ensures(get_window_frame, (e,), f) ==> f == frame(e)
}

/// A lookup that answers each window in one way.
pub open spec fn steady<W: Fn(Entity) -> Option<IRect>>(get_window_frame: W) -> bool {
    exists|frame: spec_fn(Entity) -> Option<IRect>| answers(get_window_frame, frame)
}

/// The entries for one window.
pub open spec fn entry_of(entity: Entity) -> spec_fn((Entity, Option<IRect>)) -> bool {
    |entry: (Entity, Option<IRect>)| entry.0 == entity
}

/// The frames that a table holds.
pub open spec fn noted(table: Seq<(Entity, Option<IRect>)>) -> spec_fn(Entity) -> Option<IRect> {
    |e: Entity|
        match search::first_where(table, entry_of(e)) {
            Some(entry) => entry.1,
            None => None,
        }
}

/// The frames of some windows are the same.
pub open spec fn agree(
    windows: Seq<Entity>,
    f: spec_fn(Entity) -> Option<IRect>,
    g: spec_fn(Entity) -> Option<IRect>,
) -> bool {
    forall|e: Entity| #[trigger] windows.contains(e) ==> f(e) == g(e)
}

/// The windows that have a frame.
pub open spec fn has_frame(frame: spec_fn(Entity) -> Option<IRect>) -> spec_fn(Entity) -> bool {
    |e: Entity| frame(e) is Some
}

/// The topmost windows, of those columns whose topmost window has a frame.
pub open spec fn leaders(
    columns: Seq<ColumnModel>,
    frame: spec_fn(Entity) -> Option<IRect>,
) -> Seq<Entity> {
    layout::tops(columns).filter(has_frame(frame))
}

/// How wide some windows are together.
pub open spec fn total_width(
    windows: Seq<Entity>,
    frame: spec_fn(Entity) -> Option<IRect>,
) -> int
    decreases windows.len(),
{
    if windows.len() == 0 {
        0
    } else {
        total_width(windows.drop_last(), frame) + frame(windows.last())->0.spec_width()
    }
}

/// Each column whose topmost window has a frame, and its left edge: how wide
/// those before it are together.
pub open spec fn column_edges(
    columns: Seq<ColumnModel>,
    frame: spec_fn(Entity) -> Option<IRect>,
) -> Seq<(ColumnModel, int)> {
    let leaders = leaders(columns, frame);
    Seq::new(
        leaders.len(),
        |k: int|
            (
                columns[layout::index(columns, leaders[k])->0],
                total_width(leaders.take(k), frame),
            ),
    )
}

/// Where one window goes.
pub struct Placement {
    pub entity: Entity,
    pub x: int,
    pub y: int,
    pub width: int,
    pub height: int,
}

impl Placement {
    /// The frame covers exactly this place.
    pub open spec fn is_frame(self, placed: (Entity, IRect)) -> bool {
        &&& placed.0 == self.entity
        &&& placed.1.min.x == self.x
        &&& placed.1.min.y == self.y
        &&& placed.1.max.x == self.x + self.width
        &&& placed.1.max.y == self.y + self.height
    }

    /// The corners are numbers that a coordinate can hold.
    pub open spec fn fits(self) -> bool {
        &&& geometry::fits(self.x)
        &&& geometry::fits(self.y)
        &&& geometry::fits(self.x + self.width)
        &&& geometry::fits(self.y + self.height)
    }
}

/// The windows of a column below one another from `y` on, each with its own
/// height. A window without a frame gets no place, but uses up its height.
pub open spec fn stack_places(
    windows: Seq<Entity>,
    heights: Seq<int>,
    frame: spec_fn(Entity) -> Option<IRect>,
    x: int,
    width: int,
    y: int,
) -> Seq<Placement>
    decreases windows.len(),
{
    if windows.len() == 0 || heights.len() == 0 {
        Seq::empty()
    } else if frame(windows[0]) is Some {
        seq![Placement { entity: windows[0], x, y, width, height: heights[0] }] + stack_places(
            windows.drop_first(),
            heights.drop_first(),
            frame,
            x,
            width,
            y + heights[0],
        )
    } else {
        stack_places(windows.drop_first(), heights.drop_first(), frame, x, width, y)
    }
}

/// The height of a window's frame, if it has one.
pub open spec fn frame_height(frame: spec_fn(Entity) -> Option<IRect>) -> spec_fn(
    Entity,
) -> Option<i32> {
    |e: Entity|
        match frame(e) {
            Some(f) => Some(f.spec_height() as i32),
            None => None,
        }
}

/// The heights that the windows of a column have.
pub open spec fn current_heights(
    windows: Seq<Entity>,
    frame: spec_fn(Entity) -> Option<IRect>,
) -> Seq<i32> {
    windows.filter_map(frame_height(frame))
}

/// Where the windows of a column go: all as wide as the topmost, sharing the
/// height of the strip. Nowhere, if the height does not do for them.
pub open spec fn column_places(
    edge: (ColumnModel, int),
    strip_height: int,
    frame: spec_fn(Entity) -> Option<IRect>,
) -> Seq<Placement> {
    let windows = edge.0.windows();
    let heights = binpack::packed(
        current_heights(windows, frame),
        MIN_WINDOW_HEIGHT as int,
        strip_height,
    );
    if heights is Some && windows.len() > 0 && frame(windows[0]) is Some {
        stack_places(
            windows,
            heights->0,
            frame,
            edge.1,
            frame(windows[0])->0.spec_width(),
            0,
        )
    } else {
        Seq::empty()
    }
}

/// Where the windows of a strip go, column by column.
pub open spec fn places(
    columns: Seq<ColumnModel>,
    strip_height: int,
    frame: spec_fn(Entity) -> Option<IRect>,
) -> Seq<Placement> {
    column_edges(columns, frame).map_values(
        |edge: (ColumnModel, int)| column_places(edge, strip_height, frame),
    ).flatten()
}

/// The left edges of the columns, and the right edge of the last one, are
/// numbers that a coordinate can hold.
pub open spec fn edges_fit(
    columns: Seq<ColumnModel>,
    frame: spec_fn(Entity) -> Option<IRect>,
) -> bool {
    let leaders = leaders(columns, frame);
    forall|k: int|
        0 <= k <= leaders.len() ==> geometry::fits(#[trigger] total_width(leaders.take(k), frame))
}

/// Every frame of some windows can be measured.
pub open spec fn all_measurable(
    windows: Seq<Entity>,
    frame: spec_fn(Entity) -> Option<IRect>,
) -> bool {
    forall|e: Entity| #[trigger]
        windows.contains(e) ==> (frame(e) matches Some(f) ==> f.measurable())
}

/// Every number on the way to the windows' places fits a machine integer.
pub open spec fn layable(
    columns: Seq<ColumnModel>,
    strip_height: int,
    frame: spec_fn(Entity) -> Option<IRect>,
) -> bool {
    &&& all_measurable(layout::all_windows(columns), frame)
    &&& edges_fit(columns, frame)
    &&& forall|k: int|
        #![trigger column_edges(columns, frame)[k]]
        0 <= k < column_edges(columns, frame).len() ==> {
            let edge = column_edges(columns, frame)[k];
            &&& binpack::packable(
                current_heights(edge.0.windows(), frame),
                MIN_WINDOW_HEIGHT as int,
                strip_height,
            )
            &&& forall|i: int|
                0 <= i < column_places(edge, strip_height, frame).len() ==> (
                #[trigger] column_places(edge, strip_height, frame)[i]).fits()
        }
}

/// The executable edges are the mathematical ones.
pub open spec fn are_edges(edges: Seq<(&Column, i32)>, model: Seq<(ColumnModel, int)>) -> bool {
    &&& edges.len() == model.len()
    &&& forall|k: int|
        0 <= k < edges.len() ==> (#[trigger] edges[k]).0@ == model[k].0 && edges[k].1 == model[k].1
}

/// The executable frames are the mathematical places.
pub open spec fn are_places(placed: Seq<(Entity, IRect)>, model: Seq<Placement>) -> bool {
    &&& placed.len() == model.len()
    &&& forall|k: int| 0 <= k < placed.len() ==> model[k].is_frame(#[trigger] placed[k])
}

/// The topmost window of a column is one that the strip finds.
proof fn lemma_top_is_found(columns: Seq<ColumnModel>, i: int)
    requires
        0 <= i < columns.len(),
        columns[i].top() is Some,
    ensures
        layout::index(columns, columns[i].top()->0) is Some,
        search::is_first(
            columns,
            layout::holder(columns[i].top()->0),
            layout::index(columns, columns[i].top()->0)->0,
        ),
{
    let top = columns[i].top()->0;
    assert(columns[i].windows()[0] == top);
    search::lemma_some_first_index(columns, layout::holder(top), i);
}

/// Asks a lookup for some windows, and notes what it answers.
pub(crate) fn ask<W: Fn(Entity) -> Option<IRect>>(windows: &Vec<Entity>, get_window_frame: &W) -> (table: Vec<
    (Entity, Option<IRect>),
>)
    requires
        forall|e: Entity| #[trigger] call_requires(*get_window_frame, (e,)),
    ensures
        forall|frame: spec_fn(Entity) -> Option<IRect>| #[trigger]
            answers(*get_window_frame, frame) ==> agree(windows@, noted(table@), frame),
{
    let mut table: Vec<(Entity, Option<IRect>)> = Vec::new();
    let mut i: usize = 0;
    while i < windows.len()
        invariant
            i <= windows.len(),
            table.len() == i,
            forall|e: Entity| #[trigger] call_requires(*get_window_frame, (e,)),
            forall|j: int|
                0 <= j < i ==> (#[trigger] table@[j]).0 == windows@[j] && call_ensures(
                    *get_window_frame,
                    (windows@[j],),
                    table@[j].1,
                ),
        decreases windows.len() - i,
    {
        let entity = windows[i];
        table.push((entity, get_window_frame(entity)));
        i = i + 1;
    }
    proof {
        assert forall|frame: spec_fn(Entity) -> Option<IRect>| #[trigger]
            answers(*get_window_frame, frame) implies agree(windows@, noted(table@), frame) by {
            assert forall|e: Entity| #[trigger] windows@.contains(e) implies noted(table@)(e)
                == frame(e) by {
                let k = windows@.index_of(e);
                assert(table@[k].0 == e);
                search::lemma_some_first_index(table@, entry_of(e), k);
            }
        }
    }
    table
}

/// The frame that a table holds for a window.
pub(crate) fn read(table: &Vec<(Entity, Option<IRect>)>, entity: Entity) -> (frame: Option<IRect>)
    ensures
        frame == noted(table@)(entity),
{
    let ghost p = entry_of(entity);
    let mut i: usize = 0;
    while i < table.len()
        invariant
            i <= table.len(),
            p == entry_of(entity),
            forall|j: int| 0 <= j < i ==> !p(#[trigger] table@[j]),
        decreases table.len() - i,
    {
        if table[i].0 == entity {
            proof {
                search::lemma_first_index(table@, p, i as int);
            }
            return table[i].1;
        }
        i = i + 1;
    }
    proof {
        search::lemma_no_first_index(table@, p);
    }
    None
}

/// Frames that agree on the topmost windows put the columns at the same edges.
proof fn lemma_edges_are_local(
    columns: Seq<ColumnModel>,
    f: spec_fn(Entity) -> Option<IRect>,
    g: spec_fn(Entity) -> Option<IRect>,
)
    requires
        agree(layout::tops(columns), f, g),
    ensures
        leaders(columns, f) == leaders(columns, g),
        column_edges(columns, f) == column_edges(columns, g),
        edges_fit(columns, f) == edges_fit(columns, g),
{
    let tops = layout::tops(columns);
    assert forall|i: int| 0 <= i < tops.len() implies has_frame(f)(#[trigger] tops[i])
        == has_frame(g)(tops[i]) by {
        assert(tops.contains(tops[i]));
    }
    search::lemma_filter_same(tops, has_frame(f), has_frame(g));
    let led = leaders(columns, f);
    assert forall|k: int|
        #![trigger total_width(led.take(k), f)]
        #![trigger total_width(led.take(k), g)]
        0 <= k <= led.len() implies total_width(led.take(k), f) == total_width(led.take(k), g) by {
        assert forall|i: int| 0 <= i < k implies f(#[trigger] led.take(k)[i]) == g(led.take(k)[i]) by {
            search::lemma_filter_from(tops, has_frame(f), i);
        }
        lemma_width_is_local(led.take(k), f, g);
    }
    assert(column_edges(columns, f) =~= column_edges(columns, g));
}

/// Windows with the same frames are as wide together.
proof fn lemma_width_is_local(
    windows: Seq<Entity>,
    f: spec_fn(Entity) -> Option<IRect>,
    g: spec_fn(Entity) -> Option<IRect>,
)
    requires
        forall|i: int| 0 <= i < windows.len() ==> f(#[trigger] windows[i]) == g(windows[i]),
    ensures
        total_width(windows, f) == total_width(windows, g),
    decreases windows.len(),
{
    if windows.len() > 0 {
        lemma_width_is_local(windows.drop_last(), f, g);
        assert(f(windows[windows.len() - 1]) == g(windows[windows.len() - 1]));
    }
}

/// Frames that agree on the windows of a column put them into the same places.
proof fn lemma_column_is_local(
    edge: (ColumnModel, int),
    strip_height: int,
    f: spec_fn(Entity) -> Option<IRect>,
    g: spec_fn(Entity) -> Option<IRect>,
)
    requires
        forall|i: int|
            0 <= i < edge.0.windows().len() ==> f(#[trigger] edge.0.windows()[i]) == g(
                edge.0.windows()[i],
            ),
    ensures
        current_heights(edge.0.windows(), f) == current_heights(edge.0.windows(), g),
        column_places(edge, strip_height, f) == column_places(edge, strip_height, g),
{
    let windows = edge.0.windows();
    search::lemma_filter_map_same(windows, frame_height(f), frame_height(g));
    let heights = binpack::packed(
        current_heights(windows, f),
        MIN_WINDOW_HEIGHT as int,
        strip_height,
    );
    if heights is Some && windows.len() > 0 && f(windows[0]) is Some {
        lemma_stack_is_local(
            windows,
            heights->0,
            f,
            g,
            edge.1,
            f(windows[0])->0.spec_width(),
            0,
        );
    }
}

/// Frames that agree on some windows stack them in the same way.
proof fn lemma_stack_is_local(
    windows: Seq<Entity>,
    heights: Seq<int>,
    f: spec_fn(Entity) -> Option<IRect>,
    g: spec_fn(Entity) -> Option<IRect>,
    x: int,
    width: int,
    y: int,
)
    requires
        forall|i: int| 0 <= i < windows.len() ==> f(#[trigger] windows[i]) == g(windows[i]),
    ensures
        stack_places(windows, heights, f, x, width, y) == stack_places(
            windows,
            heights,
            g,
            x,
            width,
            y,
        ),
    decreases windows.len(),
{
    if windows.len() > 0 && heights.len() > 0 {
        assert(f(windows[0]) == g(windows[0]));
        let rest = windows.drop_first();
        assert forall|i: int| 0 <= i < rest.len() implies f(#[trigger] rest[i]) == g(rest[i]) by {
            assert(rest[i] == windows[i + 1]);
        }
        lemma_stack_is_local(rest, heights.drop_first(), f, g, x, width, y + heights[0]);
        lemma_stack_is_local(rest, heights.drop_first(), f, g, x, width, y);
    }
}

/// The topmost windows are windows of the strip, as are those of each column with
/// an edge.
proof fn lemma_windows_of_strip(
    columns: Seq<ColumnModel>,
    frame: spec_fn(Entity) -> Option<IRect>,
)
    ensures
        forall|e: Entity| #[trigger]
            layout::tops(columns).contains(e) ==> layout::all_windows(columns).contains(e),
        forall|k: int, i: int|
            0 <= k < column_edges(columns, frame).len() && 0 <= i < column_edges(
                columns,
                frame,
            )[k].0.windows().len() ==> layout::all_windows(columns).contains(
                #[trigger] column_edges(columns, frame)[k].0.windows()[i],
            ),
{
    let top = |c: ColumnModel| c.top();
    let windows = |c: ColumnModel| c.windows();
    let tops = layout::tops(columns);
    assert forall|e: Entity| #[trigger] tops.contains(e) implies layout::all_windows(
        columns,
    ).contains(e) by {
        let c = search::lemma_filter_map_from(columns, top, tops.index_of(e));
        assert(columns[c].windows()[0] == e);
        lemma_window_of_strip(columns, c, 0);
    }
    assert forall|k: int, i: int|
        0 <= k < column_edges(columns, frame).len() && 0 <= i < column_edges(
            columns,
            frame,
        )[k].0.windows().len() implies layout::all_windows(columns).contains(
        #[trigger] column_edges(columns, frame)[k].0.windows()[i],
    ) by {
        let leader = leaders(columns, frame)[k];
        search::lemma_filter_from(tops, has_frame(frame), k);
        let c = search::lemma_filter_map_from(columns, top, tops.index_of(leader));
        lemma_top_is_found(columns, c);
        lemma_window_of_strip(columns, layout::index(columns, leader)->0, i);
    }
}

/// A window of a column is one of the strip.
proof fn lemma_window_of_strip(columns: Seq<ColumnModel>, c: int, i: int)
    requires
        0 <= c < columns.len(),
        0 <= i < columns[c].windows().len(),
    ensures
        layout::all_windows(columns).contains(columns[c].windows()[i]),
{
    let lists = columns.map_values(|c: ColumnModel| c.windows());
    assert(lists[c] == columns[c].windows());
    assert(lists[c].contains(columns[c].windows()[i]));
    search::lemma_flatten_contains(lists, columns[c].windows()[i]);
}

/// Frames that agree on the windows of a strip lay it out in the same way.
pub proof fn law_layout_is_local(
    columns: Seq<ColumnModel>,
    strip_height: int,
    f: spec_fn(Entity) -> Option<IRect>,
    g: spec_fn(Entity) -> Option<IRect>,
)
    requires
        agree(layout::all_windows(columns), f, g),
    ensures
        places(columns, strip_height, f) == places(columns, strip_height, g),
        layable(columns, strip_height, f) == layable(columns, strip_height, g),
{
    lemma_windows_of_strip(columns, f);
    assert(agree(layout::tops(columns), f, g));
    lemma_edges_are_local(columns, f, g);
    let edges = column_edges(columns, f);
    let a = |edge: (ColumnModel, int)| column_places(edge, strip_height, f);
    let b = |edge: (ColumnModel, int)| column_places(edge, strip_height, g);
    assert forall|k: int| 0 <= k < edges.len() implies column_places(
        #[trigger] edges[k],
        strip_height,
        f,
    ) == column_places(edges[k], strip_height, g) && current_heights(edges[k].0.windows(), f)
        == current_heights(edges[k].0.windows(), g) by {
        assert forall|i: int| 0 <= i < edges[k].0.windows().len() implies f(
            #[trigger] edges[k].0.windows()[i],
        ) == g(edges[k].0.windows()[i]) by {
            assert(layout::all_windows(columns).contains(
                column_edges(columns, f)[k].0.windows()[i],
            ));
        }
        lemma_column_is_local(edges[k], strip_height, f, g);
    }
    assert(edges.map_values(a) =~= edges.map_values(b));
    assert(all_measurable(layout::all_windows(columns), f) == all_measurable(
        layout::all_windows(columns),
        g,
    ));
    if layable(columns, strip_height, f) || layable(columns, strip_height, g) {
        assert(column_edges(columns, g) == edges);
        assert forall|k: int|
            #![trigger column_edges(columns, f)[k]]
            #![trigger column_edges(columns, g)[k]]
            0 <= k < edges.len() implies {
            let edge = edges[k];
            &&& binpack::packable(
                current_heights(edge.0.windows(), f),
                MIN_WINDOW_HEIGHT as int,
                strip_height,
            )
            &&& forall|i: int|
                0 <= i < column_places(edge, strip_height, f).len() ==> (
                #[trigger] column_places(edge, strip_height, f)[i]).fits()
        } by {
            assert(column_edges(columns, f)[k] == edges[k]);
            assert(column_edges(columns, g)[k] == edges[k]);
            assert(column_places(edges[k], strip_height, f) == column_places(
                edges[k],
                strip_height,
                g,
            ));
        }
    }
}

impl LayoutStrip {
    /// Each column whose topmost window has a frame, and its left edge.
    pub fn column_positions<W: Fn(Entity) -> Option<IRect>>(&self, get_window_frame: &W) -> (edges:
        Vec<(&Column, i32)>)
        requires
            exists|frame: spec_fn(Entity) -> Option<IRect>|
                {
                    &&& #[trigger] answers(*get_window_frame, frame)
                    &&& all_measurable(layout::tops(self@), frame)
                    &&& edges_fit(self@, frame)
                },
        ensures
            forall|frame: spec_fn(Entity) -> Option<IRect>| #[trigger]
                answers(*get_window_frame, frame) ==> are_edges(edges@, column_edges(self@, frame)),
    {
        let ghost given = choose|frame: spec_fn(Entity) -> Option<IRect>|
            {
                &&& #[trigger] answers(*get_window_frame, frame)
                &&& all_measurable(layout::tops(self@), frame)
                &&& edges_fit(self@, frame)
            };
        let table = ask(&self.all_columns(), get_window_frame);
        proof {
            lemma_edges_are_local(self@, noted(table@), given);
            assert forall|frame: spec_fn(Entity) -> Option<IRect>| #[trigger]
                answers(*get_window_frame, frame) implies column_edges(self@, noted(table@))
                == column_edges(self@, frame) by {
                lemma_edges_are_local(self@, noted(table@), frame);
            }
        }
        self.edges(&table)
    }

    /// Each column whose topmost window has a frame in the table, and its left edge.
    fn edges(&self, table: &Vec<(Entity, Option<IRect>)>) -> (edges: Vec<(&Column, i32)>)
        requires
            all_measurable(layout::tops(self@), noted(table@)),
            edges_fit(self@, noted(table@)),
        ensures
            are_edges(edges@, column_edges(self@, noted(table@))),
    {
        let ghost frame = noted(table@);
        let ghost whole = leaders(self@, frame);
        let ghost top = |c: ColumnModel| c.top();
        let ghost shown = has_frame(frame);
        let mut edges: Vec<(&Column, i32)> = Vec::new();
        let mut left_edge: i32 = 0;
        let mut i: usize = 0;
        assert(self@.take(0).filter_map(top) =~= Seq::empty());
        assert(self@.take(0).filter_map(top).filter(shown) =~= Seq::empty()) by {
            reveal(Seq::filter);
        }
        assert(whole.take(0) =~= Seq::empty());
        proof {
            lemma_leaders_prefix(self@, frame, 0);
        }
        while i < self.columns.len()
            invariant
                i <= self.columns.len(),
                frame == noted(table@),
                all_measurable(layout::tops(self@), frame),
                edges_fit(self@, frame),
                whole == leaders(self@, frame),
                top == (|c: ColumnModel| c.top()),
                shown == has_frame(frame),
                edges.len() == self@.take(i as int).filter_map(top).filter(shown).len(),
                edges.len() <= whole.len(),
                whole.take(edges.len() as int) == self@.take(i as int).filter_map(top).filter(
                    shown,
                ),
                left_edge == total_width(whole.take(edges.len() as int), frame),
                forall|k: int|
                    0 <= k < edges.len() ==> (#[trigger] edges@[k]).0@ == column_edges(
                        self@,
                        frame,
                    )[k].0 && edges@[k].1 == column_edges(self@, frame)[k].1,
            decreases self.columns.len() - i,
        {
            assert(self@[i as int] == self.columns@[i as int]@);
            proof {
                self@.lemma_filter_map_take_succ(top, i as int);
                lemma_leaders_prefix(self@, frame, i as int + 1);
            }
            let ghost before = self@.take(i as int).filter_map(top);
            if let Some(entity) = self.columns[i].top() {
                proof {
                    assert(self@.take(i + 1).filter_map(top) =~= before.push(entity));
                    before.lemma_filter_push(entity, shown);
                    lemma_top_is_found(self@, i as int);
                    search::lemma_mapped_contains(self@, top, i as int, entity);
                    assert(layout::tops(self@).contains(entity));
                }
                if let Some(window_frame) = read(table, entity) {
                    if let Some(at) = self.find(entity) {
                        assert(self@[at as int] == self.columns@[at as int]@);
                        let ghost k = edges.len() as int;
                        proof {
                            let grown = self@.take(i + 1).filter_map(top).filter(shown);
                            assert(grown.len() == k + 1);
                            assert(whole.take(k + 1) =~= grown);
                            assert(whole[k] == entity) by {
                                assert(whole.take(k + 1)[k] == grown[k]);
                            }
                            assert(whole.take(k + 1).drop_last() =~= whole.take(k));
                            assert(geometry::fits(total_width(whole.take(k + 1), frame)));
                        }
                        edges.push((&self.columns[at], left_edge));
                        left_edge = left_edge + window_frame.width();
                    }
                }
            } else {
                assert(self@.take(i + 1).filter_map(top) =~= before);
            }
            i = i + 1;
        }
        assert(self@.take(i as int) =~= self@);
        assert(edges.len() == whole.len());
        edges
    }

    /// The windows of the strip with their frames, relative to the origin of
    /// the strip: columns side by side, the windows of a column below one
    /// another and all as wide as the topmost.
    pub fn relative_positions<W: Fn(Entity) -> Option<IRect>>(
        &self,
        layout_strip_height: i32,
        get_window_frame: &W,
    ) -> (placed: Vec<(Entity, IRect)>)
        requires
            exists|frame: spec_fn(Entity) -> Option<IRect>| #[trigger]
                answers(*get_window_frame, frame) && layable(
                    self@,
                    layout_strip_height as int,
                    frame,
                ),
        ensures
            forall|frame: spec_fn(Entity) -> Option<IRect>| #[trigger]
                answers(*get_window_frame, frame) ==> are_places(
                    placed@,
                    places(self@, layout_strip_height as int, frame),
                ),
    {
        let ghost height = layout_strip_height as int;
        let ghost given = choose|frame: spec_fn(Entity) -> Option<IRect>| #[trigger]
            answers(*get_window_frame, frame) && layable(self@, height, frame);
        let table = ask(&self.all_windows(), get_window_frame);
        proof {
            law_layout_is_local(self@, height, noted(table@), given);
            assert forall|frame: spec_fn(Entity) -> Option<IRect>| #[trigger]
                answers(*get_window_frame, frame) implies places(self@, height, noted(table@))
                == places(self@, height, frame) by {
                law_layout_is_local(self@, height, noted(table@), frame);
            }
        }
        self.positions(layout_strip_height, &table)
    }

    /// The windows of the strip with their frames, where the table holds those that
    /// they have.
    fn positions(&self, layout_strip_height: i32, table: &Vec<(Entity, Option<IRect>)>) -> (placed:
        Vec<(Entity, IRect)>)
        requires
            layable(self@, layout_strip_height as int, noted(table@)),
        ensures
            are_places(placed@, places(self@, layout_strip_height as int, noted(table@))),
    {
        let ghost frame = noted(table@);
        let ghost height = layout_strip_height as int;
        let ghost f = |edge: (ColumnModel, int)| column_places(edge, height, frame);
        let ghost model = column_edges(self@, frame);
        proof {
            lemma_windows_of_strip(self@, frame);
        }
        let edges = self.edges(table);
        let mut placed: Vec<(Entity, IRect)> = Vec::new();
        let mut k: usize = 0;
        assert(model.take(0).map_values(f) =~= Seq::empty());
        while k < edges.len()
            invariant
                k <= edges.len(),
                frame == noted(table@),
                height == layout_strip_height,
                f == (|edge: (ColumnModel, int)| column_places(edge, height, frame)),
                model == column_edges(self@, frame),
                layable(self@, height, frame),
                are_edges(edges@, model),
                are_places(placed@, model.take(k as int).map_values(f).flatten()),
            decreases edges.len() - k,
        {
            let (column, x): (&Column, i32) = edges[k];
            let ghost edge = model[k as int];
            assert(column@ == edge.0 && x == edge.1);
            assert(column_edges(self@, frame)[k as int] == edge);
            let ghost before = placed@;
            proof {
                lemma_windows_of_strip(self@, frame);
                assert forall|e: Entity| #[trigger]
                    column@.windows().contains(e) implies layout::all_windows(self@).contains(e) by {
                    assert(column_edges(self@, frame)[k as int].0.windows()[column@.windows().index_of(
                        e,
                    )] == e);
                }
            }
            place_column(column, x, layout_strip_height, table, &mut placed);
            proof {
                let taken = model.take(k as int);
                assert(model.take(k + 1) =~= taken.push(edge));
                assert(taken.push(edge).map_values(f) =~= taken.map_values(f).push(f(edge)));
                taken.map_values(f).lemma_flatten_push(f(edge));
                let all = taken.map_values(f).flatten() + f(edge);
                assert(are_places(placed@, all)) by {
                    assert forall|j: int| 0 <= j < placed@.len() implies all[j].is_frame(
                        #[trigger] placed@[j],
                    ) by {
                        if j < before.len() {
                            assert(placed@[j] == before[j]);
                        } else {
                            assert(placed@[j] == placed@.skip(before.len() as int)[j - before.len()]);
                        }
                    }
                }
            }
            k = k + 1;
        }
        assert(model.take(k as int) =~= model);
        placed
    }
}

/// The leaders among the first columns are the first leaders.
proof fn lemma_leaders_prefix(
    columns: Seq<ColumnModel>,
    frame: spec_fn(Entity) -> Option<IRect>,
    i: int,
)
    requires
        0 <= i <= columns.len(),
    ensures
        ({
            let some = columns.take(i).filter_map(|c: ColumnModel| c.top()).filter(
                has_frame(frame),
            );
            &&& some.len() <= leaders(columns, frame).len()
            &&& leaders(columns, frame).take(some.len() as int) == some
        }),
    decreases columns.len() - i,
{
    let top = |c: ColumnModel| c.top();
    let shown = has_frame(frame);
    let some = columns.take(i).filter_map(top).filter(shown);
    if i == columns.len() {
        assert(columns.take(i) =~= columns);
        assert(some.take(some.len() as int) =~= some);
    } else {
        lemma_leaders_prefix(columns, frame, i + 1);
        columns.lemma_filter_map_take_succ(top, i);
        let before = columns.take(i).filter_map(top);
        let more = columns.take(i + 1).filter_map(top).filter(shown);
        match columns[i].top() {
            Some(entity) => {
                assert(columns.take(i + 1).filter_map(top) =~= before.push(entity));
                before.lemma_filter_push(entity, shown);
                assert(more.take(some.len() as int) =~= some);
            },
            None => {
                assert(columns.take(i + 1).filter_map(top) =~= before);
                assert(more.take(some.len() as int) =~= some);
            },
        }
        assert(leaders(columns, frame).take(some.len() as int) =~= leaders(columns, frame).take(
            more.len() as int,
        ).take(some.len() as int));
    }
}

/// Appends the windows of one column with their frames.
fn place_column(
    column: &Column,
    x: i32,
    strip_height: i32,
    table: &Vec<(Entity, Option<IRect>)>,
    placed: &mut Vec<(Entity, IRect)>,
)
    requires
        all_measurable(column@.windows(), noted(table@)),
        binpack::packable(
            current_heights(column@.windows(), noted(table@)),
            MIN_WINDOW_HEIGHT as int,
            strip_height as int,
        ),
        forall|i: int|
            0 <= i < column_places(
                (column@, x as int),
                strip_height as int,
                noted(table@),
            ).len() ==> (#[trigger] column_places(
                (column@, x as int),
                strip_height as int,
                noted(table@),
            )[i]).fits(),
    ensures
        final(placed)@.take(old(placed)@.len() as int) == old(placed)@,
        final(placed)@.len() >= old(placed)@.len(),
        are_places(
            final(placed)@.skip(old(placed)@.len() as int),
            column_places((column@, x as int), strip_height as int, noted(table@)),
        ),
{
    let ghost frame = noted(table@);
    let ghost start = placed@;
    let ghost model = column_places((column@, x as int), strip_height as int, frame);
    let windows = column.windows();
    let mut heights: Vec<i32> = Vec::new();
    let mut i: usize = 0;
    assert(heights@ =~= windows@.take(0).filter_map(frame_height(frame)));
    while i < windows.len()
        invariant
            i <= windows.len(),
            frame == noted(table@),
            all_measurable(windows@, frame),
            heights@ == windows@.take(i as int).filter_map(frame_height(frame)),
        decreases windows.len() - i,
    {
        proof {
            windows@.lemma_filter_map_take_succ(frame_height(frame), i as int);
        }
        assert(windows@.contains(windows@[i as int]));
        if let Some(window_frame) = read(table, windows[i]) {
            heights.push(window_frame.height());
        }
        assert(heights@ =~= windows@.take(i + 1).filter_map(frame_height(frame)));
        i = i + 1;
    }
    assert(windows@.take(i as int) =~= windows@);
    assert(placed@.skip(start.len() as int) =~= Seq::empty());
    assert(placed@.take(start.len() as int) =~= start);
    let shares = match binpack::binpack_heights(
        heights.as_slice(),
        MIN_WINDOW_HEIGHT,
        strip_height,
    ) {
        Some(shares) => shares,
        None => return ,
    };
    if windows.len() == 0 {
        return ;
    }
    assert(windows@.contains(windows@[0]));
    let width: i32 = match read(table, windows[0]) {
        Some(window_frame) => window_frame.width(),
        None => return ,
    };
    let ghost wanted = shares@.map_values(|h: i32| h as int);
    assert(model == stack_places(windows@, wanted, frame, x as int, width as int, 0));
    let mut next_y: i32 = 0;
    let mut j: usize = 0;
    assert(windows@.skip(0) =~= windows@);
    assert(wanted.skip(0) =~= wanted);
    let ghost mut done: Seq<Placement> = Seq::empty();
    assert(done + model =~= model);
    while j < windows.len() && j < shares.len()
        invariant
            j <= windows.len(),
            j <= shares.len(),
            frame == noted(table@),
            wanted == shares@.map_values(|h: i32| h as int),
            forall|i: int| 0 <= i < model.len() ==> (#[trigger] model[i]).fits(),
            model == done + stack_places(
                windows@.skip(j as int),
                wanted.skip(j as int),
                frame,
                x as int,
                width as int,
                next_y as int,
            ),
            placed@.len() >= start.len(),
            placed@.take(start.len() as int) == start,
            are_places(placed@.skip(start.len() as int), done),
        decreases windows.len() - j,
    {
        let ghost rest = stack_places(
            windows@.skip(j as int),
            wanted.skip(j as int),
            frame,
            x as int,
            width as int,
            next_y as int,
        );
        assert(windows@.skip(j as int).drop_first() =~= windows@.skip(j + 1));
        assert(wanted.skip(j as int).drop_first() =~= wanted.skip(j + 1));
        if let Some(_) = read(table, windows[j]) {
            let ghost place = Placement {
                entity: windows@[j as int],
                x: x as int,
                y: next_y as int,
                width: width as int,
                height: wanted[j as int],
            };
            proof {
                assert(rest[0] == place);
                assert(model[done.len() as int] == place);
                assert(place.fits());
            }
            let bottom: i32 = next_y + shares[j];
            let frame_now = IRect {
                min: IVec2 { x, y: next_y },
                max: IVec2 { x: x + width, y: bottom },
            };
            let ghost earlier = placed@;
            placed.push((windows[j], frame_now));
            next_y = bottom;
            proof {
                assert(placed@.skip(start.len() as int) =~= earlier.skip(start.len() as int).push(
                    (windows@[j as int], frame_now),
                ));
                assert(placed@.take(start.len() as int) =~= earlier.take(start.len() as int));
                assert(model =~= done.push(place) + stack_places(
                    windows@.skip(j + 1),
                    wanted.skip(j + 1),
                    frame,
                    x as int,
                    width as int,
                    next_y as int,
                ));
                done = done.push(place);
            }
        }
        j = j + 1;
    }
    proof {
        assert(stack_places(
            windows@.skip(j as int),
            wanted.skip(j as int),
            frame,
            x as int,
            width as int,
            next_y as int,
        ) =~= Seq::empty());
        assert(model =~= done);
    }
}

} // verus!
