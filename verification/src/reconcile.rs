//! Keeping the displays in step with those of the system.
//!
//! The system may report an empty or incomplete list of displays while it is
//! being reconfigured; taking that for the truth would orphan every workspace.
//! So a scan is made after a quiet period, repeated a few times if it is
//! incomplete, and verified once more later.
use vstd::prelude::*;

use crate::events::Event;
use crate::geometry;
use crate::geometry::{Entity, IRect, IVec2};
use crate::layout;
use crate::layout::{ColumnModel, LayoutStrip, WorkspaceId};
use crate::search;

verus! {

/// The quiet period before a scan, in nanoseconds: 350 milliseconds.
pub const DISPLAY_SETTLE_NANOS: u64 = 350_000_000;

/// The wait before a scan is verified: one second.
pub const DISPLAY_VERIFY_NANOS: u64 = 1_000_000_000;

/// The wait before an incomplete scan is repeated: one second.
pub const DISPLAY_RETRY_NANOS: u64 = 1_000_000_000;

/// How often an incomplete scan is repeated.
pub const DISPLAY_RETRIES: u8 = 3;

/// Whether floating windows on a workspace sit above or behind tiled ones. They
/// sit above until the layer is flipped.
#[derive(Clone, Copy, Debug, PartialEq, Eq, Structural)]
pub struct FloatingLayer {
    pub workspace_id: WorkspaceId,
    pub front: bool,
}

impl FloatingLayer {
    /// Puts the floating windows of a workspace above the tiled ones.
    pub fn new(workspace_id: WorkspaceId) -> (layer: Self)
        ensures
            layer == (FloatingLayer { workspace_id, front: true }),
    {
        FloatingLayer { workspace_id, front: true }
    }

    /// Exchanges above and behind.
    pub fn flip(&mut self)
        ensures
            *final(self) == (FloatingLayer { front: !old(self).front, ..*old(self) }),
    {
        self.front = !self.front;
    }
}

// ---------------------------------------------------------------------------
// When to scan
// ---------------------------------------------------------------------------
/// Where reconciliation stands.
#[derive(Clone, Copy, Debug, PartialEq, Eq, Structural)]
pub struct DisplayReconcileState {
    /// How long until the next scan, in nanoseconds, if one is due at all.
    pub pending: Option<u64>,
    pub retries_left: u8,
    /// The next scan that is applied is to be verified by another one.
    pub verify_again: bool,
}

impl Default for DisplayReconcileState {
    fn default() -> (state: Self)
        ensures
            state == (DisplayReconcileState {
                pending: None,
                retries_left: 0,
                verify_again: false,
            }),
    {
        DisplayReconcileState { pending: None, retries_left: 0, verify_again: false }
    }
}

/// The event may change which displays there are.
pub open spec fn changes_displays(event: Event) -> bool {
    event is SystemWoke || event is DisplayAdded || event is DisplayRemoved || event is DisplayMoved
        || event is DisplayResized || event is DisplayConfigured
}

/// Some event may change which displays there are.
pub open spec fn some_changes_displays(events: Seq<Event>) -> bool {
    exists|i: int| 0 <= i < events.len() && changes_displays(#[trigger] events[i])
}

/// Whether some event may change which displays there are.
fn needs_reconcile(events: &Vec<Event>) -> (needed: bool)
    ensures
        needed == some_changes_displays(events@),
{
    let mut i: usize = 0;
    while i < events.len()
        invariant
            i <= events.len(),
            forall|j: int| 0 <= j < i ==> !changes_displays(#[trigger] events@[j]),
        decreases events.len() - i,
    {
        let found = match &events[i] {
            Event::SystemWoke { .. } => true,
            Event::DisplayAdded { .. } => true,
            Event::DisplayRemoved { .. } => true,
            Event::DisplayMoved { .. } => true,
            Event::DisplayResized { .. } => true,
            Event::DisplayConfigured { .. } => true,
            _ => false,
        };
        if found {
            assert(changes_displays(events@[i as int]));
            return true;
        }
        i = i + 1;
    }
    false
}

impl DisplayReconcileState {
    /// The state after the events of a frame that took `delta`: a change starts
    /// the quiet period anew, otherwise the time until the next scan runs down.
    pub open spec fn ticked(self, events: Seq<Event>, delta: u64) -> DisplayReconcileState {
        if some_changes_displays(events) {
            DisplayReconcileState {
                pending: Some(DISPLAY_SETTLE_NANOS),
                retries_left: DISPLAY_RETRIES,
                verify_again: true,
            }
        } else {
            match self.pending {
                Some(left) => DisplayReconcileState {
                    pending: if left <= delta {
                        None
                    } else {
                        Some((left - delta) as u64)
                    },
                    ..self
                },
                None => self,
            }
        }
    }

    /// The displays are to be scanned in this frame.
    pub open spec fn scans(self, events: Seq<Event>, delta: u64) -> bool {
        !some_changes_displays(events) && self.pending is Some && self.pending->0 <= delta
    }

    /// Takes the events of a frame that took `delta` nanoseconds, and says
    /// whether the displays are to be scanned now.
    pub fn tick(&mut self, events: &Vec<Event>, delta: u64) -> (scan: bool)
        ensures
            *final(self) == old(self).ticked(events@, delta),
            scan == old(self).scans(events@, delta),
    {
        if needs_reconcile(events) {
            self.pending = Some(DISPLAY_SETTLE_NANOS);
            self.retries_left = DISPLAY_RETRIES;
            self.verify_again = true;
            return false;
        }
        match self.pending {
            None => false,
            Some(left) => {
                if left <= delta {
                    self.pending = None;
                    true
                } else {
                    self.pending = Some(left - delta);
                    false
                }
            },
        }
    }

    /// A scan is to be applied: it is complete, or was repeated often enough.
    pub open spec fn applies(self, complete: bool) -> bool {
        complete || self.retries_left == 0
    }

    /// The state after a scan: one that is not applied is repeated, and the
    /// first that is applied is verified by another.
    pub open spec fn after_scan(self, complete: bool) -> DisplayReconcileState {
        if !self.applies(complete) {
            DisplayReconcileState {
                pending: Some(DISPLAY_RETRY_NANOS),
                retries_left: (self.retries_left - 1) as u8,
                ..self
            }
        } else if self.verify_again {
            DisplayReconcileState {
                pending: Some(DISPLAY_VERIFY_NANOS),
                verify_again: false,
                ..self
            }
        } else {
            self
        }
    }

    /// Takes the outcome of a scan, and says whether it is to be applied. An
    /// incomplete one is repeated while there are retries left, then applied
    /// all the same.
    pub fn scanned(&mut self, complete: bool) -> (apply: bool)
        ensures
            apply == old(self).applies(complete),
            *final(self) == old(self).after_scan(complete),
    {
        if !complete && self.retries_left > 0 {
            self.retries_left = self.retries_left - 1;
            self.pending = Some(DISPLAY_RETRY_NANOS);
            return false;
        }
        if self.verify_again {
            self.verify_again = false;
            self.pending = Some(DISPLAY_VERIFY_NANOS);
        }
        true
    }
}

/// A display as a scan reports it.
#[derive(Debug)]
pub struct ScannedDisplay {
    pub id: u32,
    pub bounds: IRect,
    pub spaces: Vec<WorkspaceId>,
}

/// A scan is complete if it shows a display, and each with a space.
pub open spec fn is_complete(scan: Seq<ScannedDisplay>) -> bool {
    &&& scan.len() > 0
    &&& forall|i: int| 0 <= i < scan.len() ==> (#[trigger] scan[i]).spaces.len() > 0
}

/// Whether a scan is complete.
pub fn scan_is_complete(scan: &Vec<ScannedDisplay>) -> (complete: bool)
    ensures
        complete == is_complete(scan@),
{
    let mut i: usize = 0;
    while i < scan.len()
        invariant
            i <= scan.len(),
            forall|j: int| 0 <= j < i ==> (#[trigger] scan@[j]).spaces.len() > 0,
        decreases scan.len() - i,
    {
        if scan[i].spaces.len() == 0 {
            return false;
        }
        i = i + 1;
    }
    scan.len() > 0
}

/// How many scans are still to be made while no display changes: one for each
/// retry, one to apply and one to verify.
pub open spec fn scans_left(state: DisplayReconcileState) -> int {
    if state.pending is None {
        0
    } else {
        1 + state.retries_left + if state.verify_again {
            1int
        } else {
            0
        }
    }
}

/// Reconciliation ends: a frame in which no display changes adds no scan, and
/// one that makes a scan leaves fewer to be made, whatever its outcome.
pub proof fn law_scans_run_out(
    state: DisplayReconcileState,
    events: Seq<Event>,
    delta: u64,
    complete: bool,
)
    requires
        !some_changes_displays(events),
    ensures
        scans_left(state.ticked(events, delta)) <= scans_left(state),
        state.scans(events, delta) ==> scans_left(
            state.ticked(events, delta).after_scan(complete),
        ) < scans_left(state),
{
}

// ---------------------------------------------------------------------------
// What a scan changes
// ---------------------------------------------------------------------------
/// A display as it is known, and the handle of what stands for it.
#[derive(Clone, Copy, Debug, PartialEq, Eq, Structural)]
pub struct KnownDisplay {
    pub id: u32,
    pub entity: Entity,
}

/// Some display of the scan has this id.
pub open spec fn is_present(scan: Seq<ScannedDisplay>, id: u32) -> bool {
    exists|i: int| 0 <= i < scan.len() && (#[trigger] scan[i]).id == id
}

/// Some known display has this id.
pub open spec fn is_existing(known: Seq<KnownDisplay>, id: u32) -> bool {
    exists|i: int| 0 <= i < known.len() && (#[trigger] known[i]).id == id
}

/// What a scan changes, by the ids of the displays.
#[derive(Debug)]
pub struct DisplayPlan {
    /// Those that are gone.
    pub removed: Vec<u32>,
    /// Those that are new.
    pub added: Vec<u32>,
    /// Those that stay, and may have moved or changed their size.
    pub kept: Vec<u32>,
}

fn scan_has(scan: &Vec<ScannedDisplay>, id: u32) -> (found: bool)
    ensures
        found == is_present(scan@, id),
{
    let mut i: usize = 0;
    while i < scan.len()
        invariant
            i <= scan.len(),
            forall|j: int| 0 <= j < i ==> (#[trigger] scan@[j]).id != id,
        decreases scan.len() - i,
    {
        if scan[i].id == id {
            return true;
        }
        i = i + 1;
    }
    false
}

fn known_has(known: &Vec<KnownDisplay>, id: u32) -> (found: bool)
    ensures
        found == is_existing(known@, id),
{
    let mut i: usize = 0;
    while i < known.len()
        invariant
            i <= known.len(),
            forall|j: int| 0 <= j < i ==> (#[trigger] known@[j]).id != id,
        decreases known.len() - i,
    {
        if known[i].id == id {
            return true;
        }
        i = i + 1;
    }
    false
}

/// Adds an id to a list, unless it is there.
fn add_once(ids: &mut Vec<u32>, id: u32)
    requires
        old(ids)@.no_duplicates(),
    ensures
        final(ids)@.no_duplicates(),
        forall|x: u32| #[trigger] final(ids)@.contains(x) <==> old(ids)@.contains(x) || x == id,
{
    let ghost before = ids@;
    let mut i: usize = 0;
    while i < ids.len()
        invariant
            i <= ids.len(),
            ids@ == before,
            before.no_duplicates(),
            forall|j: int| 0 <= j < i ==> #[trigger] ids@[j] != id,
        decreases ids.len() - i,
    {
        if ids[i] == id {
            return ;
        }
        i = i + 1;
    }
    ids.push(id);
    proof {
        assert forall|x: u32| #[trigger] ids@.contains(x) <==> before.contains(x) || x == id by {
            if before.contains(x) {
                let k = choose|k: int| 0 <= k < before.len() && before[k] == x;
                assert(ids@[k] == x);
            }
            if x == id {
                assert(ids@[before.len() as int] == x);
            }
        }
    }
}

/// The plan says what a scan changes in the displays that are known: it names each
/// display once, as gone, new or kept.
pub open spec fn is_plan(
    plan: DisplayPlan,
    scan: Seq<ScannedDisplay>,
    known: Seq<KnownDisplay>,
) -> bool {
    &&& plan.removed@.no_duplicates()
    &&& plan.added@.no_duplicates()
    &&& plan.kept@.no_duplicates()
    &&& forall|id: u32| #[trigger]
        plan.removed@.contains(id) <==> is_existing(known, id) && !is_present(scan, id)
    &&& forall|id: u32| #[trigger]
        plan.added@.contains(id) <==> is_present(scan, id) && !is_existing(known, id)
    &&& forall|id: u32| #[trigger]
        plan.kept@.contains(id) <==> is_present(scan, id) && is_existing(known, id)
}

impl DisplayReconcileState {
    /// The state after a frame, given the scan that is made in it where one is due.
    pub open spec fn stepped(
        self,
        events: Seq<Event>,
        delta: u64,
        scan: Seq<ScannedDisplay>,
    ) -> DisplayReconcileState {
        let ticked = self.ticked(events, delta);
        if self.scans(events, delta) {
            ticked.after_scan(is_complete(scan))
        } else {
            ticked
        }
    }

    /// A scan is due in this frame, and is to be applied.
    pub open spec fn plans(
        self,
        events: Seq<Event>,
        delta: u64,
        scan: Seq<ScannedDisplay>,
    ) -> bool {
        self.scans(events, delta) && self.ticked(events, delta).applies(is_complete(scan))
    }
}

/// One frame of keeping up with the displays: takes its events, how long it took and
/// what a scan shows, and says what is to be changed. Nothing is while no scan is
/// due, nor by an incomplete one that is to be repeated. The scan is not looked at
/// where none is due.
pub fn reconcile_step(
    state: &mut DisplayReconcileState,
    events: &Vec<Event>,
    delta: u64,
    scan: &Vec<ScannedDisplay>,
    known: &Vec<KnownDisplay>,
) -> (plan: Option<DisplayPlan>)
    ensures
        *final(state) == old(state).stepped(events@, delta, scan@),
        plan is Some <==> old(state).plans(events@, delta, scan@),
        plan matches Some(plan) ==> is_plan(plan, scan@, known@),
{
    if !state.tick(events, delta) {
        return None;
    }
    if !state.scanned(scan_is_complete(scan)) {
        return None;
    }
    Some(reconcile_displays(scan, known))
}

/// A scan that shows no display, or one without a space, changes nothing while it is
/// still to be repeated: no display is taken for gone because of it, and a further
/// scan is due.
pub proof fn law_incomplete_scan_is_repeated(
    state: DisplayReconcileState,
    events: Seq<Event>,
    delta: u64,
    scan: Seq<ScannedDisplay>,
)
    requires
        state.scans(events, delta),
        state.retries_left > 0,
        !is_complete(scan),
    ensures
        !state.plans(events, delta, scan),
        state.stepped(events, delta, scan).pending == Some(DISPLAY_RETRY_NANOS),
        state.stepped(events, delta, scan).retries_left == state.retries_left - 1,
{
}

/// Compares a scan with the displays that are known.
pub fn reconcile_displays(scan: &Vec<ScannedDisplay>, known: &Vec<KnownDisplay>) -> (plan:
    DisplayPlan)
    ensures
        is_plan(plan, scan@, known@),
{
    let mut removed: Vec<u32> = Vec::new();
    let mut added: Vec<u32> = Vec::new();
    let mut kept: Vec<u32> = Vec::new();
    let mut i: usize = 0;
    while i < known.len()
        invariant
            i <= known.len(),
            removed@.no_duplicates(),
            forall|id: u32| #[trigger]
                removed@.contains(id) <==> is_existing(known@.take(i as int), id) && !is_present(
                    scan@,
                    id,
                ),
        decreases known.len() - i,
    {
        let id: u32 = known[i].id;
        let ghost had = removed@;
        if !scan_has(scan, id) {
            add_once(&mut removed, id);
        }
        proof {
            let taken = known@.take(i as int);
            let grown = known@.take(i + 1);
            assert forall|x: u32| is_existing(grown, x) <==> is_existing(taken, x) || x == id by {
                if is_existing(taken, x) {
                    let k = choose|k: int| 0 <= k < taken.len() && (#[trigger] taken[k]).id == x;
                    assert(grown[k].id == x);
                }
                if x == id {
                    assert(grown[i as int].id == x);
                }
                if is_existing(grown, x) && x != id {
                    let k = choose|k: int| 0 <= k < grown.len() && (#[trigger] grown[k]).id == x;
                    assert(taken[k].id == x);
                }
            }
            assert forall|x: u32| #[trigger]
                removed@.contains(x) <==> is_existing(grown, x) && !is_present(scan@, x) by {
                assert(had.contains(x) <==> is_existing(taken, x) && !is_present(scan@, x));
            }
        }
        i = i + 1;
    }
    assert(known@.take(i as int) =~= known@);
    let mut j: usize = 0;
    while j < scan.len()
        invariant
            j <= scan.len(),
            added@.no_duplicates(),
            kept@.no_duplicates(),
            forall|id: u32| #[trigger]
                added@.contains(id) <==> is_present(scan@.take(j as int), id) && !is_existing(
                    known@,
                    id,
                ),
            forall|id: u32| #[trigger]
                kept@.contains(id) <==> is_present(scan@.take(j as int), id) && is_existing(
                    known@,
                    id,
                ),
        decreases scan.len() - j,
    {
        let id: u32 = scan[j].id;
        let ghost had_added = added@;
        let ghost had_kept = kept@;
        if known_has(known, id) {
            add_once(&mut kept, id);
        } else {
            add_once(&mut added, id);
        }
        proof {
            let taken = scan@.take(j as int);
            let grown = scan@.take(j + 1);
            assert forall|x: u32| is_present(grown, x) <==> is_present(taken, x) || x == id by {
                if is_present(taken, x) {
                    let k = choose|k: int| 0 <= k < taken.len() && (#[trigger] taken[k]).id == x;
                    assert(grown[k].id == x);
                }
                if x == id {
                    assert(grown[j as int].id == x);
                }
                if is_present(grown, x) && x != id {
                    let k = choose|k: int| 0 <= k < grown.len() && (#[trigger] grown[k]).id == x;
                    assert(taken[k].id == x);
                }
            }
            assert forall|x: u32| #[trigger]
                added@.contains(x) <==> is_present(grown, x) && !is_existing(known@, x) by {
                assert(had_added.contains(x) <==> is_present(taken, x) && !is_existing(known@, x));
            }
            assert forall|x: u32| #[trigger]
                kept@.contains(x) <==> is_present(grown, x) && is_existing(known@, x) by {
                assert(had_kept.contains(x) <==> is_present(taken, x) && is_existing(known@, x));
            }
        }
        j = j + 1;
    }
    assert(scan@.take(j as int) =~= scan@);
    DisplayPlan { removed, added, kept }
}

// ---------------------------------------------------------------------------
// Strips and their displays
// ---------------------------------------------------------------------------
/// A strip, what stands for it, and the display that it is on.
#[derive(Clone, Copy, Debug, PartialEq, Eq, Structural)]
pub struct StripPlace {
    pub id: WorkspaceId,
    pub entity: Entity,
    pub parent: Option<Entity>,
}

/// What is to be done so that a display has its workspaces.
#[derive(Clone, Copy, Debug, PartialEq, Eq, Structural)]
pub enum WorkspaceChange {
    /// Put this strip onto the display, and let it live.
    Reparent(Entity),
    /// Give the display a new strip for this space, at this corner.
    Spawn(WorkspaceId, IVec2),
}

/// The change that a strip needs to be on the display with a space, if it is
/// one of that space and elsewhere.
pub open spec fn needs_move(id: WorkspaceId, display: Entity) -> spec_fn(StripPlace) -> Option<
    WorkspaceChange,
> {
    |s: StripPlace|
        if s.id == id && s.parent != Some(display) {
            Some(WorkspaceChange::Reparent(s.entity))
        } else {
            None
        }
}

/// Some strip is one of this space.
pub open spec fn has_strip(strips: Seq<StripPlace>, id: WorkspaceId) -> bool {
    exists|i: int| 0 <= i < strips.len() && (#[trigger] strips[i]).id == id
}

/// What is to be done so that a display has the workspace of one space: strips
/// of it that are elsewhere come over, and a new one is made where there is
/// none.
pub open spec fn space_changes(
    id: WorkspaceId,
    display: Entity,
    origin: IVec2,
    strips: Seq<StripPlace>,
) -> Seq<WorkspaceChange> {
    if has_strip(strips, id) {
        strips.filter_map(needs_move(id, display))
    } else {
        seq![WorkspaceChange::Spawn(id, origin)]
    }
}

/// What is to be done so that a display has the workspaces of its spaces.
pub fn reparent_existing_workspaces(
    workspace_ids: &Vec<WorkspaceId>,
    display_entity: Entity,
    display_bounds: &IRect,
    strips: &Vec<StripPlace>,
) -> (changes: Vec<WorkspaceChange>)
    ensures
        changes@ == workspace_ids@.map_values(
            |id: WorkspaceId| space_changes(id, display_entity, display_bounds.min, strips@),
        ).flatten(),
{
    let ghost f = |id: WorkspaceId| space_changes(id, display_entity, display_bounds.min, strips@);
    let mut changes: Vec<WorkspaceChange> = Vec::new();
    let mut k: usize = 0;
    assert(workspace_ids@.take(0).map_values(f) =~= Seq::empty());
    while k < workspace_ids.len()
        invariant
            k <= workspace_ids.len(),
            f == (|id: WorkspaceId| space_changes(id, display_entity, display_bounds.min, strips@)),
            changes@ == workspace_ids@.take(k as int).map_values(f).flatten(),
        decreases workspace_ids.len() - k,
    {
        let id: WorkspaceId = workspace_ids[k];
        let ghost before = changes@;
        let ghost needed = needs_move(id, display_entity);
        let mut found = false;
        let mut i: usize = 0;
        assert(before + strips@.take(0).filter_map(needed) =~= before);
        while i < strips.len()
            invariant
                i <= strips.len(),
                needed == needs_move(id, display_entity),
                found <==> exists|j: int| 0 <= j < i && (#[trigger] strips@[j]).id == id,
                changes@ == before + strips@.take(i as int).filter_map(needed),
            decreases strips.len() - i,
        {
            proof {
                strips@.lemma_filter_map_take_succ(needed, i as int);
            }
            if strips[i].id == id {
                found = true;
                let elsewhere = match strips[i].parent {
                    Some(parent) => parent != display_entity,
                    None => true,
                };
                if elsewhere {
                    changes.push(WorkspaceChange::Reparent(strips[i].entity));
                }
            }
            assert(changes@ =~= before + strips@.take(i + 1).filter_map(needed));
            i = i + 1;
        }
        assert(strips@.take(i as int) =~= strips@);
        if !found {
            proof {
                lemma_nothing_to_move(strips@, id, display_entity);
            }
            changes.push(WorkspaceChange::Spawn(id, display_bounds.min));
        }
        proof {
            assert(changes@ =~= before + f(id));
            let taken = workspace_ids@.take(k as int);
            assert(workspace_ids@.take(k + 1) =~= taken.push(id));
            assert(taken.push(id).map_values(f) =~= taken.map_values(f).push(f(id)));
            taken.map_values(f).lemma_flatten_push(f(id));
        }
        k = k + 1;
    }
    assert(workspace_ids@.take(k as int) =~= workspace_ids@);
    changes
}

proof fn lemma_nothing_to_move(strips: Seq<StripPlace>, id: WorkspaceId, display: Entity)
    requires
        !has_strip(strips, id),
    ensures
        strips.filter_map(needs_move(id, display)) == Seq::<WorkspaceChange>::empty(),
    decreases strips.len(),
{
    if strips.len() > 0 {
        assert(strips[strips.len() - 1].id != id);
        assert forall|i: int| 0 <= i < strips.len() - 1 implies (#[trigger] strips.drop_last()[i]).id
            != id by {
            assert(strips[i].id != id);
        }
        lemma_nothing_to_move(strips.drop_last(), id, display);
    }
}

/// What is done for one space of a display.
proof fn lemma_space_changes(
    id: WorkspaceId,
    display: Entity,
    origin: IVec2,
    strips: Seq<StripPlace>,
    change: WorkspaceChange,
)
    ensures
        space_changes(id, display, origin, strips).contains(change) <==> match change {
            WorkspaceChange::Reparent(entity) => exists|i: int|
                0 <= i < strips.len() && (#[trigger] strips[i]).entity == entity && strips[i].id
                    == id && strips[i].parent != Some(display),
            WorkspaceChange::Spawn(new, at) => new == id && at == origin && !has_strip(strips, id),
        },
{
    let f = needs_move(id, display);
    if strips.filter_map(f).contains(change) {
        strips.lemma_filter_map_contains(f, change);
    }
    let spawned = seq![WorkspaceChange::Spawn(id, origin)];
    assert(spawned[0] == WorkspaceChange::Spawn(id, origin));
    if has_strip(strips, id) {
        if change is Reparent {
            let entity = change->Reparent_0;
            if exists|i: int|
                0 <= i < strips.len() && (#[trigger] strips[i]).entity == entity && strips[i].id
                    == id && strips[i].parent != Some(display) {
                let i = choose|i: int|
                    0 <= i < strips.len() && (#[trigger] strips[i]).entity == entity && strips[i].id
                        == id && strips[i].parent != Some(display);
                search::lemma_mapped_contains(strips, f, i, change);
            }
        }
    }
}

/// A display gets what is its own, and nothing else: afterwards every strip of one
/// of its spaces is on it, a space without a strip gets one at the corner of the
/// display, and no strip of
/// another space comes over.
pub proof fn law_display_gets_its_spaces(
    workspace_ids: Seq<WorkspaceId>,
    display: Entity,
    origin: IVec2,
    strips: Seq<StripPlace>,
)
    ensures
        ({
            let changes = workspace_ids.map_values(
                |id: WorkspaceId| space_changes(id, display, origin, strips),
            ).flatten();
            &&& forall|i: int|
                0 <= i < strips.len() && workspace_ids.contains(strips[i].id)
                    ==> strips[i].parent == Some(display) || changes.contains(
                    WorkspaceChange::Reparent((#[trigger] strips[i]).entity),
                )
            &&& forall|id: WorkspaceId, at: IVec2|
                #[trigger] changes.contains(WorkspaceChange::Spawn(id, at)) <==> at == origin
                    && workspace_ids.contains(id) && !has_strip(strips, id)
            &&& forall|entity: Entity|
                #[trigger] changes.contains(WorkspaceChange::Reparent(entity)) ==> exists|i: int|
                    0 <= i < strips.len() && (#[trigger] strips[i]).entity == entity
                        && workspace_ids.contains(strips[i].id) && strips[i].parent != Some(display)
        }),
{
    let f = |id: WorkspaceId| space_changes(id, display, origin, strips);
    let lists = workspace_ids.map_values(f);
    let changes = lists.flatten();
    assert forall|i: int|
        0 <= i < strips.len() && workspace_ids.contains(strips[i].id) implies strips[i].parent
        == Some(display) || changes.contains(
        WorkspaceChange::Reparent((#[trigger] strips[i]).entity),
    ) by {
        if strips[i].parent != Some(display) {
            let change = WorkspaceChange::Reparent(strips[i].entity);
            let k = choose|k: int|
                0 <= k < workspace_ids.len() && workspace_ids[k] == strips[i].id;
            lemma_space_changes(workspace_ids[k], display, origin, strips, change);
            assert(lists[k].contains(change));
            search::lemma_flatten_contains(lists, change);
        }
    }
    assert forall|id: WorkspaceId, at: IVec2|
        #[trigger] changes.contains(WorkspaceChange::Spawn(id, at)) <==> at == origin
            && workspace_ids.contains(id) && !has_strip(strips, id) by {
        let change = WorkspaceChange::Spawn(id, at);
        search::lemma_flatten_contains(lists, change);
        if changes.contains(change) {
            let k = choose|k: int| 0 <= k < lists.len() && (#[trigger] lists[k]).contains(change);
            lemma_space_changes(workspace_ids[k], display, origin, strips, change);
        }
        if at == origin && workspace_ids.contains(id) && !has_strip(strips, id) {
            let k = choose|k: int| 0 <= k < workspace_ids.len() && workspace_ids[k] == id;
            lemma_space_changes(workspace_ids[k], display, origin, strips, change);
            assert(lists[k].contains(change));
        }
    }
    assert forall|entity: Entity|
        #[trigger] changes.contains(WorkspaceChange::Reparent(entity)) implies exists|i: int|
        0 <= i < strips.len() && (#[trigger] strips[i]).entity == entity && workspace_ids.contains(
            strips[i].id,
        ) && strips[i].parent != Some(display) by {
        let change = WorkspaceChange::Reparent(entity);
        search::lemma_flatten_contains(lists, change);
        let k = choose|k: int| 0 <= k < lists.len() && (#[trigger] lists[k]).contains(change);
        lemma_space_changes(workspace_ids[k], display, origin, strips, change);
    }
}

/// The strips that are on a display.
pub open spec fn is_on(display: Entity) -> spec_fn(StripPlace) -> Option<Entity> {
    |s: StripPlace|
        if s.parent == Some(display) {
            Some(s.entity)
        } else {
            None
        }
}

/// The strips that a display leaves behind when it goes: all that are on it.
pub fn remove_display(display_entity: Entity, strips: &Vec<StripPlace>) -> (orphans: Vec<Entity>)
    ensures
        orphans@ == strips@.filter_map(is_on(display_entity)),
{
    let ghost f = is_on(display_entity);
    let mut orphans: Vec<Entity> = Vec::new();
    let mut i: usize = 0;
    assert(strips@.take(0).filter_map(f) =~= Seq::empty());
    while i < strips.len()
        invariant
            i <= strips.len(),
            f == is_on(display_entity),
            orphans@ == strips@.take(i as int).filter_map(f),
        decreases strips.len() - i,
    {
        proof {
            strips@.lemma_filter_map_take_succ(f, i as int);
        }
        if let Some(parent) = strips[i].parent {
            if parent == display_entity {
                orphans.push(strips[i].entity);
            }
        }
        assert(orphans@ =~= strips@.take(i + 1).filter_map(f));
        i = i + 1;
    }
    assert(strips@.take(i as int) =~= strips@);
    orphans
}

/// A display and where it was.
#[derive(Clone, Copy, Debug, PartialEq, Eq, Structural)]
pub struct DisplayFrame {
    pub entity: Entity,
    pub bounds: IRect,
}

/// The display that a handle stands for.
pub open spec fn stands_for(entity: Entity) -> spec_fn(DisplayFrame) -> bool {
    |display: DisplayFrame| display.entity == entity
}

/// Where the display of a strip was, beside the strip, if it was on one.
pub open spec fn was_on(displays: Seq<DisplayFrame>) -> spec_fn(StripPlace) -> Option<
    (Entity, IRect),
> {
    |strip: StripPlace|
        match strip.parent {
            Some(parent) => match search::first_index(displays, stands_for(parent)) {
                Some(i) => Some((strip.entity, displays[i].bounds)),
                None => None,
            },
            None => None,
        }
}

/// Where a display was, if it is among these.
fn bounds_of(displays: &Vec<DisplayFrame>, entity: Entity) -> (bounds: Option<IRect>)
    ensures
        bounds == match search::first_index(displays@, stands_for(entity)) {
            Some(i) => Some(displays@[i].bounds),
            None => None,
        },
{
    let ghost p = stands_for(entity);
    let mut i: usize = 0;
    while i < displays.len()
        invariant
            i <= displays.len(),
            p == stands_for(entity),
            forall|j: int| 0 <= j < i ==> !p(#[trigger] displays@[j]),
        decreases displays.len() - i,
    {
        if displays[i].entity == entity {
            proof {
                search::lemma_first_index(displays@, p, i as int);
            }
            return Some(displays[i].bounds);
        }
        i = i + 1;
    }
    proof {
        search::lemma_no_first_index(displays@, p);
    }
    None
}

/// Where the display of each strip was before a scan is applied. Strips that are
/// on no display are left out.
pub fn previous_parents(strips: &Vec<StripPlace>, displays: &Vec<DisplayFrame>) -> (parents: Vec<
    (Entity, IRect),
>)
    ensures
        parents@ == strips@.filter_map(was_on(displays@)),
{
    let ghost f = was_on(displays@);
    let mut parents: Vec<(Entity, IRect)> = Vec::new();
    let mut i: usize = 0;
    assert(strips@.take(0).filter_map(f) =~= Seq::empty());
    while i < strips.len()
        invariant
            i <= strips.len(),
            f == was_on(displays@),
            parents@ == strips@.take(i as int).filter_map(f),
        decreases strips.len() - i,
    {
        proof {
            strips@.lemma_filter_map_take_succ(f, i as int);
        }
        if let Some(parent) = strips[i].parent {
            if let Some(bounds) = bounds_of(displays, parent) {
                parents.push((strips[i].entity, bounds));
            }
        }
        assert(parents@ =~= strips@.take(i + 1).filter_map(f));
        i = i + 1;
    }
    assert(strips@.take(i as int) =~= strips@);
    parents
}

// ---------------------------------------------------------------------------
// Which display is active
// ---------------------------------------------------------------------------
/// A display, and whether it is marked as the active one.
#[derive(Clone, Copy, Debug, PartialEq, Eq, Structural)]
pub struct MarkedDisplay {
    pub id: u32,
    pub entity: Entity,
    pub active: bool,
}

/// The display is the active one and not marked as such.
pub open spec fn to_mark(active_id: u32) -> spec_fn(MarkedDisplay) -> Option<Entity> {
    |d: MarkedDisplay|
        if !d.active && d.id == active_id {
            Some(d.entity)
        } else {
            None
        }
}

/// The displays to mark as active: those with the active id that are not
/// marked.
pub fn display_change_handler(active_id: u32, displays: &Vec<MarkedDisplay>) -> (marked: Vec<Entity>)
    ensures
        marked@ == displays@.filter_map(to_mark(active_id)),
{
    let ghost f = to_mark(active_id);
    let mut marked: Vec<Entity> = Vec::new();
    let mut i: usize = 0;
    assert(displays@.take(0).filter_map(f) =~= Seq::empty());
    while i < displays.len()
        invariant
            i <= displays.len(),
            f == to_mark(active_id),
            marked@ == displays@.take(i as int).filter_map(f),
        decreases displays.len() - i,
    {
        proof {
            displays@.lemma_filter_map_take_succ(f, i as int);
        }
        if !displays[i].active && displays[i].id == active_id {
            marked.push(displays[i].entity);
        }
        assert(marked@ =~= displays@.take(i + 1).filter_map(f));
        i = i + 1;
    }
    assert(displays@.take(i as int) =~= displays@);
    marked
}

/// The display is marked as active though another one is.
pub open spec fn to_unmark(active: Entity) -> spec_fn(MarkedDisplay) -> Option<Entity> {
    |d: MarkedDisplay|
        if d.active && d.entity != active {
            Some(d.entity)
        } else {
            None
        }
}

/// The displays that lose the mark of the active one when another gets it.
pub fn cleanup_active_display_marker(active: Entity, displays: &Vec<MarkedDisplay>) -> (unmarked:
    Vec<Entity>)
    ensures
        unmarked@ == displays@.filter_map(to_unmark(active)),
{
    let ghost f = to_unmark(active);
    let mut unmarked: Vec<Entity> = Vec::new();
    let mut i: usize = 0;
    assert(displays@.take(0).filter_map(f) =~= Seq::empty());
    while i < displays.len()
        invariant
            i <= displays.len(),
            f == to_unmark(active),
            unmarked@ == displays@.take(i as int).filter_map(f),
        decreases displays.len() - i,
    {
        proof {
            displays@.lemma_filter_map_take_succ(f, i as int);
        }
        if displays[i].active && displays[i].entity != active {
            unmarked.push(displays[i].entity);
        }
        assert(unmarked@ =~= displays@.take(i + 1).filter_map(f));
        i = i + 1;
    }
    assert(displays@.take(i as int) =~= displays@);
    unmarked
}

// ---------------------------------------------------------------------------
// A strip on its display
// ---------------------------------------------------------------------------
/// What of a strip depends on where its display is.
#[derive(Clone, Copy, Debug, PartialEq, Eq, Structural)]
pub struct StripOrigins {
    /// Where the strip is.
    pub position: IVec2,
    /// Where it was before it was hidden, if it is.
    pub previous_origin: Option<IVec2>,
    /// Where it is to go, if anywhere.
    pub target: Option<IVec2>,
}

/// A point that moves with its display.
pub open spec fn carried(point: IVec2, display: IRect, previous: Option<IRect>) -> (int, int) {
    match previous {
        Some(was) => (
            point.x + display.min.x - was.min.x,
            point.y + display.min.y - was.min.y,
        ),
        None => (display.min.x as int, display.min.y as int),
    }
}

/// Where a hidden strip is parked: a sliver inside the far corner.
pub open spec fn parked(display: IRect, sliver: int) -> (int, int) {
    (display.max.x - sliver, display.max.y - sliver)
}

/// The coordinates are those of the point.
pub open spec fn is_at(point: IVec2, at: (int, int)) -> bool {
    point.x == at.0 && point.y == at.1
}

/// Every number on the way to a carried point fits a machine integer.
pub open spec fn carry_fits(point: IVec2, display: IRect, previous: Option<IRect>) -> bool {
    previous matches Some(was) ==> {
        &&& geometry::fits(point.x + display.min.x)
        &&& geometry::fits(point.y + display.min.y)
        &&& geometry::fits(point.x + display.min.x - was.min.x)
        &&& geometry::fits(point.y + display.min.y - was.min.y)
    }
}

/// A strip keeps its place on its display, wherever the display goes; and one
/// whose display did not move stays where it is.
pub proof fn law_strip_moves_with_its_display(point: IVec2, display: IRect, was: IRect)
    ensures
        carried(point, display, Some(was)).0 - display.min.x == point.x - was.min.x,
        carried(point, display, Some(was)).1 - display.min.y == point.y - was.min.y,
        display.min == was.min ==> is_at(point, carried(point, display, Some(was))),
{
}

fn carry(point: IVec2, display: &IRect, previous: &Option<IRect>) -> (moved: IVec2)
    requires
        carry_fits(point, *display, *previous),
    ensures
        is_at(moved, carried(point, *display, *previous)),
{
    match previous {
        Some(was) => point.plus(display.min).minus(was.min),
        None => display.min,
    }
}

/// A strip after its display was looked at again.
#[derive(Debug)]
pub struct StripRefresh {
    pub origins: StripOrigins,
    /// The offset that the user gave the strip by hand is to be forgotten.
    pub forget_offset: bool,
    /// The window that is to be made visible, if any.
    pub ensure_visible: Option<Entity>,
    /// The windows that are to be placed again.
    pub windows: Vec<Entity>,
}

/// A strip is refreshed: it moved with its display by as much as the display moved,
/// or to its corner where the strip comes from no display. A hidden strip is
/// parked. The focused window, if it is on the strip, is to be made visible.
pub open spec fn is_refreshed(
    columns: Seq<ColumnModel>,
    origins: StripOrigins,
    display: IRect,
    previous: Option<IRect>,
    focused: Option<Entity>,
    sliver: i32,
    refresh: StripRefresh,
) -> bool {
    let hidden = origins.previous_origin is Some;
    &&& is_at(
        refresh.origins.position,
        if hidden {
            parked(display, sliver as int)
        } else {
            carried(origins.position, display, previous)
        },
    )
    &&& refresh.origins.previous_origin is Some <==> hidden
    &&& origins.previous_origin matches Some(origin) ==> is_at(
        refresh.origins.previous_origin->0,
        carried(origin, display, previous),
    )
    &&& refresh.origins.target is Some <==> origins.target is Some
    &&& origins.target matches Some(target) ==> is_at(
        refresh.origins.target->0,
        if hidden {
            parked(display, sliver as int)
        } else {
            carried(target, display, previous)
        },
    )
    &&& refresh.forget_offset == (previous is None)
    &&& refresh.ensure_visible == match focused {
        Some(window) => if layout::all_windows(columns).contains(window) {
            Some(window)
        } else {
            None
        },
        None => None,
    }
    &&& refresh.windows@ == layout::all_windows(columns)
}

/// Every number on the way to the places of a refreshed strip fits a machine
/// integer.
pub open spec fn refresh_fits(
    origins: StripOrigins,
    display: IRect,
    previous: Option<IRect>,
    sliver: i32,
) -> bool {
    &&& carry_fits(origins.position, display, previous)
    &&& origins.previous_origin matches Some(origin) ==> carry_fits(origin, display, previous)
    &&& origins.target matches Some(target) ==> carry_fits(target, display, previous)
    &&& geometry::fits(display.max.x - sliver)
    &&& geometry::fits(display.max.y - sliver)
}

/// Moves a strip with its display.
pub fn refresh_strip_layout(
    strip: &LayoutStrip,
    origins: &StripOrigins,
    display: &IRect,
    previous: &Option<IRect>,
    focused: Option<Entity>,
    sliver: i32,
) -> (refresh: StripRefresh)
    requires
        refresh_fits(*origins, *display, *previous, sliver),
    ensures
        is_refreshed(strip@, *origins, *display, *previous, focused, sliver, refresh),
{
    let hidden = origins.previous_origin.is_some();
    let corner = IVec2 { x: display.max.x - sliver, y: display.max.y - sliver };
    let position = if hidden {
        corner
    } else {
        carry(origins.position, display, previous)
    };
    let previous_origin = match origins.previous_origin {
        Some(origin) => Some(carry(origin, display, previous)),
        None => None,
    };
    let target = match origins.target {
        Some(target) => if hidden {
            Some(corner)
        } else {
            Some(carry(target, display, previous))
        },
        None => None,
    };
    let windows = strip.all_windows();
    let ensure_visible = match focused {
        Some(window) => if contains(&windows, window) {
            Some(window)
        } else {
            None
        },
        None => None,
    };
    StripRefresh {
        origins: StripOrigins { position, previous_origin, target },
        forget_offset: previous.is_none(),
        ensure_visible,
        windows,
    }
}

/// A strip, where it is, and the display that it is on now.
#[derive(Debug)]
pub struct PlacedStrip {
    pub entity: Entity,
    pub strip: LayoutStrip,
    pub origins: StripOrigins,
    pub display: Option<IRect>,
}

/// The entries for a strip.
pub open spec fn is_parent_of(strip: Entity) -> spec_fn((Entity, IRect)) -> bool {
    |entry: (Entity, IRect)| entry.0 == strip
}

/// Where the display of a strip was, if it was on one.
pub open spec fn previous_parent(parents: Seq<(Entity, IRect)>, strip: Entity) -> Option<IRect> {
    match search::first_where(parents, is_parent_of(strip)) {
        Some(entry) => Some(entry.1),
        None => None,
    }
}

fn find_parent(parents: &Vec<(Entity, IRect)>, strip: Entity) -> (parent: Option<IRect>)
    ensures
        parent == previous_parent(parents@, strip),
{
    let ghost p = is_parent_of(strip);
    let mut i: usize = 0;
    while i < parents.len()
        invariant
            i <= parents.len(),
            p == is_parent_of(strip),
            forall|j: int| 0 <= j < i ==> !p(#[trigger] parents@[j]),
        decreases parents.len() - i,
    {
        if parents[i].0 == strip {
            proof {
                search::lemma_first_index(parents@, p, i as int);
            }
            return Some(parents[i].1);
        }
        i = i + 1;
    }
    proof {
        search::lemma_no_first_index(parents@, p);
    }
    None
}

/// What becomes of one strip: it is refreshed if it is on a display.
pub open spec fn refreshes(
    strip: PlacedStrip,
    parents: Seq<(Entity, IRect)>,
    focused: Option<Entity>,
    sliver: i32,
    refresh: Option<StripRefresh>,
) -> bool {
    match strip.display {
        Some(display) => refresh is Some && is_refreshed(
            strip.strip@,
            strip.origins,
            display,
            previous_parent(parents, strip.entity),
            focused,
            sliver,
            refresh->0,
        ),
        None => refresh is None,
    }
}

/// Moves all strips with their displays once a scan was applied. `parents` tells
/// where the display of each strip was before. A strip that is on no display is
/// left alone.
pub fn refresh_display_layout(
    strips: &Vec<PlacedStrip>,
    parents: &Vec<(Entity, IRect)>,
    focused: Option<Entity>,
    sliver: i32,
) -> (refreshed: Vec<Option<StripRefresh>>)
    requires
        forall|i: int|
            0 <= i < strips.len() && (#[trigger] strips@[i]).display is Some ==> refresh_fits(
                strips@[i].origins,
                strips@[i].display->0,
                previous_parent(parents@, strips@[i].entity),
                sliver,
            ),
    ensures
        refreshed.len() == strips.len(),
        forall|i: int|
            0 <= i < strips.len() ==> refreshes(
                strips@[i],
                parents@,
                focused,
                sliver,
                #[trigger] refreshed@[i],
            ),
{
    let mut refreshed: Vec<Option<StripRefresh>> = Vec::new();
    let mut i: usize = 0;
    while i < strips.len()
        invariant
            i <= strips.len(),
            refreshed.len() == i,
            forall|k: int|
                0 <= k < strips.len() && (#[trigger] strips@[k]).display is Some ==> refresh_fits(
                    strips@[k].origins,
                    strips@[k].display->0,
                    previous_parent(parents@, strips@[k].entity),
                    sliver,
                ),
            forall|k: int|
                0 <= k < i ==> refreshes(
                    strips@[k],
                    parents@,
                    focused,
                    sliver,
                    #[trigger] refreshed@[k],
                ),
        decreases strips.len() - i,
    {
        let strip = &strips[i];
        let refresh = match &strip.display {
            Some(display) => {
                let previous = find_parent(parents, strip.entity);
                Some(
                    refresh_strip_layout(
                        &strip.strip,
                        &strip.origins,
                        display,
                        &previous,
                        focused,
                        sliver,
                    ),
                )
            },
            None => None,
        };
        refreshed.push(refresh);
        i = i + 1;
    }
    refreshed
}

/// Whether a list has a window.
pub(crate) fn contains(windows: &Vec<Entity>, window: Entity) -> (found: bool)
    ensures
        found == windows@.contains(window),
{
    let mut i: usize = 0;
    while i < windows.len()
        invariant
            i <= windows.len(),
            forall|j: int| 0 <= j < i ==> #[trigger] windows@[j] != window,
        decreases windows.len() - i,
    {
        if windows[i] == window {
            return true;
        }
        i = i + 1;
    }
    false
}

// ---------------------------------------------------------------------------
// A display that moved, and what it looks like
// ---------------------------------------------------------------------------
/// The display with this number, if it is known.
pub open spec fn display_with(displays: Seq<KnownDisplay>, id: u32) -> Option<Entity> {
    match search::first_index(displays, numbered(id)) {
        Some(i) => Some(displays[i].entity),
        None => None,
    }
}

/// A display with this number.
pub open spec fn numbered(id: u32) -> spec_fn(KnownDisplay) -> bool {
    |display: KnownDisplay| display.id == id
}

/// What stands for a display that moved, if the display is known. Its spaces are
/// to be put on it again.
pub fn move_display(displays: &Vec<KnownDisplay>, id: u32) -> (entity: Option<Entity>)
    ensures
        entity == display_with(displays@, id),
{
    let ghost p = numbered(id);
    let mut i: usize = 0;
    while i < displays.len()
        invariant
            i <= displays.len(),
            p == numbered(id),
            forall|j: int| 0 <= j < i ==> !p(#[trigger] displays@[j]),
        decreases displays.len() - i,
    {
        if displays[i].id == id {
            proof {
                search::lemma_first_index(displays@, p, i as int);
            }
            return Some(displays[i].entity);
        }
        i = i + 1;
    }
    proof {
        search::lemma_no_first_index(displays@, p);
    }
    None
}

/// What is read of a display's screen. `D` tells where the Dock is.
#[derive(Debug)]
pub struct DisplayProperties<D> {
    pub notch_height: i32,
    pub dock: Option<D>,
    pub menubar_height_override: Option<i32>,
}

/// The properties with what was read.
pub open spec fn read_in<D>(
    properties: DisplayProperties<D>,
    notch: Option<i32>,
    dock: Option<D>,
    configured: Option<Option<i32>>,
) -> DisplayProperties<D> {
    DisplayProperties {
        notch_height: match notch {
            Some(height) => height,
            None => properties.notch_height,
        },
        dock: match dock {
            Some(dock) => Some(dock),
            None => properties.dock,
        },
        menubar_height_override: match configured {
            Some(height) => height,
            None => properties.menubar_height_override,
        },
    }
}

/// Takes over what was read of a display's screen. What could not be read stays as
/// it is; the height of the menu bar goes by the configuration, where there is one.
pub fn read_display_properties<D>(
    properties: &mut DisplayProperties<D>,
    notch: Option<i32>,
    dock: Option<D>,
    configured: Option<Option<i32>>,
)
    ensures
        *final(properties) == read_in(*old(properties), notch, dock, configured),
{
    if let Some(height) = notch {
        properties.notch_height = height;
    }
    if let Some(dock) = dock {
        properties.dock = Some(dock);
    }
    if let Some(height) = configured {
        properties.menubar_height_override = height;
    }
}

} // verus!
