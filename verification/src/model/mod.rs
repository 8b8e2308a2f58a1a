//! The mathematical model of the window manager's state, and what each command
//! does to it.
//!
//! A [`World`] is everything the window manager knows, together with the
//! desktop's side of the command that is being run. Commands are functions from
//! world to world; the executable window manager in [`crate::state`] is proved
//! to follow them.

pub mod acting;
pub mod commands;
pub mod events;
pub mod following;
pub mod keeping;
pub mod laws;
pub mod monitors;
pub mod moving;
pub mod replay;
pub mod sheltering;
pub mod showing;
pub mod switching;
pub mod topology;
pub mod veil;
pub mod veiling;
mod windows;
mod workspaces;

use crate::desk::{Act, DeskModel};
use crate::ids::{MonitorId, WindowId, WorkspaceId};
use crate::monitor;
use crate::monitor::{Monitor, MonitorInfo};
use crate::rect;
use crate::rect::Rect;
use crate::tree::Layout;
use crate::window::ManagedWindow;
use crate::workspace::WorkspaceModel;
use vstd::prelude::*;

verus! {

/// What to do when a workspace is asked for that is already visible on another
/// monitor.
#[derive(Debug, Clone, Copy, PartialEq, Eq, Structural)]
pub enum AlreadyVisibleBehaviour {
    /// Move the focus to the other monitor.
    FocusOtherMonitor,
    /// Swap the two workspaces between the monitors.
    Swap,
}

/// The gap around each tile and the gaps at the edges of the work area.
#[derive(Debug, Clone, Copy, PartialEq, Eq, Structural)]
pub struct Gaps {
    pub inner: i32,
    pub top: i32,
    pub right: i32,
    pub bottom: i32,
    pub left: i32,
}

impl Default for Gaps {
    fn default() -> (r: Self)
        ensures
            r == (Gaps { inner: 0, top: 0, right: 0, bottom: 0, left: 0 }),
    {
        Gaps { inner: 0, top: 0, right: 0, bottom: 0, left: 0 }
    }
}

impl Gaps {
    /// Whether a monitor's tiles can be placed with these gaps: wherever they
    /// are, their edges are numbers that can be counted.
    pub open spec fn suit(self, info: MonitorInfo) -> bool {
        let area = info.work_area;
        &&& info.plausible()
        &&& rect::fits(area.x + self.left)
        &&& rect::fits(area.y + self.top)
        &&& area.w - self.left - self.right <= i32::MAX
        &&& area.h - self.top - self.bottom <= i32::MAX
        &&& is_work_area(
            monitor::area_without_gaps(
                area,
                self.top as int,
                self.right as int,
                self.bottom as int,
                self.left as int,
            ),
            self.inner as int,
        )
    }

    /// Whether a monitor's tiles can be placed with these gaps.
    pub fn are_suited(&self, info: &MonitorInfo) -> (b: bool)
        ensures
            b == self.suit(*info),
    {
        if !info.is_plausible() {
            return false;
        }
        let area = info.work_area;
        let x: i64 = area.x as i64 + self.left as i64;
        let y: i64 = area.y as i64 + self.top as i64;
        let w: i64 = area.w as i64 - self.left as i64 - self.right as i64;
        let h: i64 = area.h as i64 - self.top as i64 - self.bottom as i64;
        let most: i64 = i32::MAX as i64;
        if x < i32::MIN as i64 || x > most || y < i32::MIN as i64 || y > most || w > most || h
            > most {
            return false;
        }
        is_tileable(area.inset_each(self.left, self.top, self.right, self.bottom), self.inner)
    }
}

/// Why a command was refused.
#[derive(Debug, Clone)]
pub enum WmError {
    /// There is no monitor to start on.
    NoMonitors,
    /// There is no workspace for a new window.
    NoHost,
    /// No workspace has the focus.
    NoFocusedWorkspace,
    /// There is no workspace of this number.
    NoSuchWorkspace(WorkspaceId),
    /// No monitor has the focus.
    NoFocusedMonitor,
    /// The monitor that has the focus is not there.
    FocusedMonitorMissing,
    /// The monitor that was clicked is not there.
    NoSuchMonitor(MonitorId),
    /// A monitor is not there.
    MonitorMissing,
    /// The desktop did not accept a batch of positions.
    NotPlaced,
}

/// What is done to each window of a list.
#[derive(Debug, Clone, Copy, PartialEq, Eq, Structural)]
pub enum Visit {
    /// Show it, and note that it is not hidden.
    Show,
    /// Hide it, and note that it is hidden.
    Hide,
    /// Show it where it is noted as hidden.
    Reveal,
    /// Hide it where it is not noted as hidden.
    Conceal,
}

/// The floating step of a move command, in pixels.
pub const STEP: i32 = 32;

/// The smallest side to which a floating window can be resized.
pub const MIN_DIM: i32 = 64;

/// Where a window floats that cannot be measured.
pub open spec fn fallback_place() -> Rect {
    Rect { x: 100, y: 100, w: 800, h: 600 }
}

/// The work area of a workspace that no monitor shows.
pub open spec fn nowhere() -> Rect {
    Rect { x: 0, y: 0, w: 0, h: 0 }
}

/// The area that a window is tiled in on a workspace that no monitor shows.
pub open spec fn default_screen() -> Rect {
    Rect { x: 0, y: 0, w: 1920, h: 1080 }
}

pub struct World {
    pub monitors: Seq<Monitor>,
    pub workspaces: Seq<WorkspaceModel>,
    pub windows: Map<WindowId, ManagedWindow>,
    pub focused_monitor: Option<MonitorId>,
    pub focused_window: Option<WindowId>,
    pub gaps: Gaps,
    pub on_already_visible: AlreadyVisibleBehaviour,
    pub paused: bool,
    pub desk: DeskModel,
}

/// The outcome of a command.
pub type Outcome = (World, Result<(), WmError>);

/// A batch of window positions, the windows that it makes visible, and the
/// stack members that it covers.
pub struct RetilePlan {
    pub moves: Seq<(WindowId, Rect)>,
    pub visible: Seq<WindowId>,
    pub hidden: Seq<WindowId>,
}

// ---- queries --------------------------------------------------------------

impl World {
    /// Workspaces are numbered from 1 and have well-formed trees, monitors are
    /// in the order of their identifiers, and the gaps suit all of them.
    pub open spec fn sound(self) -> bool {
        &&& self.workspaces.len() <= u32::MAX
        &&& forall|i: int|
            0 <= i < self.workspaces.len() ==> (#[trigger] self.workspaces[i]).id.0 == i + 1
                && self.workspaces[i].tree.wf()
        &&& monitor::in_order(self.monitors)
        &&& forall|i: int|
            0 <= i < self.monitors.len() ==> self.gaps.suit((#[trigger] self.monitors[i]).info)
    }

    /// Whether there is such a workspace.
    pub open spec fn knows(self, ws: WorkspaceId) -> bool {
        1 <= ws.0 <= self.workspaces.len()
    }

    pub open spec fn ws(self, ws: WorkspaceId) -> WorkspaceModel {
        self.workspaces[ws.0 - 1]
    }

    /// With another state of a workspace.
    pub open spec fn set_ws(self, ws: WorkspaceId, m: WorkspaceModel) -> World {
        World { workspaces: self.workspaces.update(ws.0 - 1, m), ..self }
    }

    pub open spec fn set_tree(self, ws: WorkspaceId, tree: Layout<WindowId>) -> World {
        self.set_ws(ws, WorkspaceModel { tree, ..self.ws(ws) })
    }

    pub open spec fn monitor(self, id: MonitorId) -> Option<Monitor> {
        match monitor::monitor_index(self.monitors, id@) {
            Some(i) => Some(self.monitors[i]),
            None => None,
        }
    }

    /// With another workspace on a monitor.
    pub open spec fn set_current(self, id: MonitorId, ws: WorkspaceId) -> World {
        match monitor::monitor_index(self.monitors, id@) {
            Some(i) => World {
                monitors: self.monitors.update(
                    i,
                    Monitor { current_workspace: ws, ..self.monitors[i] },
                ),
                ..self
            },
            None => self,
        }
    }

    /// The workspace on the focused monitor.
    pub open spec fn focused_workspace(self) -> Option<WorkspaceId> {
        match self.focused_monitor {
            Some(id) => match self.monitor(id) {
                Some(m) => Some(m.current_workspace),
                None => None,
            },
            None => None,
        }
    }

    /// The monitor that shows a workspace.
    pub open spec fn shown_on(self, ws: WorkspaceId) -> Option<MonitorId> {
        if self.knows(ws) {
            self.ws(ws).active_monitor
        } else {
            None
        }
    }

    /// The area that a visible workspace's tiles fill.
    pub open spec fn work_area(self, ws: WorkspaceId) -> Option<Rect> {
        match self.shown_on(ws) {
            Some(id) => match self.monitor(id) {
                Some(m) => Some(
                    monitor::area_without_gaps(
                        m.info.work_area,
                        self.gaps.top as int,
                        self.gaps.right as int,
                        self.gaps.bottom as int,
                        self.gaps.left as int,
                    ),
                ),
                None => None,
            },
            None => None,
        }
    }

    pub open spec fn work_area_or(self, ws: WorkspaceId, other: Rect) -> Rect {
        match self.work_area(ws) {
            Some(area) => area,
            None => other,
        }
    }

    /// The window that a workspace's tree has the focus on.
    pub open spec fn tree_focus(self, ws: WorkspaceId) -> Option<WindowId> {
        if self.knows(ws) {
            self.ws(ws).tree.focus
        } else {
            None
        }
    }

    pub open spec fn windows_on(self, ws: WorkspaceId) -> Seq<WindowId> {
        if self.knows(ws) {
            self.ws(ws).all_windows()
        } else {
            Seq::empty()
        }
    }

    /// Whether the monitor at `i` is the first whose bounds contain the point.
    pub open spec fn is_first_at(self, i: int, x: int, y: int) -> bool {
        &&& 0 <= i < self.monitors.len()
        &&& self.monitors[i].info.bounds.has_point(x, y)
        &&& forall|j: int|
            0 <= j < i ==> !(#[trigger] self.monitors[j]).info.bounds.has_point(x, y)
    }

    /// The workspace on the monitor at a point.
    pub open spec fn workspace_at(self, x: int, y: int) -> Option<WorkspaceId> {
        if exists|i: int| self.is_first_at(i, x, y) {
            Some(self.monitors[choose|i: int| self.is_first_at(i, x, y)].current_workspace)
        } else {
            None
        }
    }

    /// Whether the monitor at `i` is the first primary one.
    pub open spec fn is_first_primary(self, i: int) -> bool {
        &&& 0 <= i < self.monitors.len()
        &&& self.monitors[i].info.primary
        &&& forall|j: int| 0 <= j < i ==> !(#[trigger] self.monitors[j]).info.primary
    }

    /// The first primary monitor.
    pub open spec fn primary(self) -> Option<Monitor> {
        if exists|i: int| self.is_first_primary(i) {
            Some(self.monitors[choose|i: int| self.is_first_primary(i)])
        } else {
            None
        }
    }

    // ---- small steps ------------------------------------------------------

    pub open spec fn say(self, act: Act) -> World {
        World { desk: self.desk.said(act), ..self }
    }

    /// With a window noted as hidden or not, where it is managed.
    pub open spec fn noted(self, id: WindowId, hidden: bool) -> World {
        if self.windows.contains_key(id) {
            World {
                windows: self.windows.insert(
                    id,
                    ManagedWindow { hidden_by_us: hidden, ..self.windows[id] },
                ),
                ..self
            }
        } else {
            self
        }
    }

    pub open spec fn visit(self, id: WindowId, how: Visit) -> World {
        let known = self.windows.contains_key(id);
        match how {
            Visit::Show => self.say(Act::Show(id)).noted(id, false),
            Visit::Hide => self.say(Act::Hide(id)).noted(id, true),
            Visit::Reveal => if known && self.windows[id].hidden_by_us {
                self.say(Act::Show(id)).noted(id, false)
            } else {
                self
            },
            Visit::Conceal => if known && !self.windows[id].hidden_by_us {
                self.say(Act::Hide(id)).noted(id, true)
            } else {
                self
            },
        }
    }

    /// One window after the other.
    pub open spec fn visit_all(self, ids: Seq<WindowId>, how: Visit) -> World
        decreases ids.len(),
    {
        if ids.len() == 0 {
            self
        } else {
            self.visit_all(ids.drop_last(), how).visit(ids.last(), how)
        }
    }

    /// Visits touch the notes about windows and the log, and nothing else.
    pub proof fn lemma_visits(self, ids: Seq<WindowId>, how: Visit)
        ensures
            ({
                let after = self.visit_all(ids, how);
                after == (World { windows: after.windows, desk: after.desk, ..self })
            }),
        decreases ids.len(),
    {
        if ids.len() > 0 {
            self.lemma_visits(ids.drop_last(), how);
        }
    }

    /// With a workspace on a monitor, which the workspace remembers.
    pub open spec fn bound(self, ws: WorkspaceId, id: MonitorId) -> World {
        if self.knows(ws) {
            self.set_ws(
                ws,
                WorkspaceModel {
                    active_monitor: Some(id),
                    last_seen_monitor: Some(id.0),
                    ..self.ws(ws)
                },
            )
        } else {
            self
        }
    }

    /// The monitor that a workspace remembers.
    pub open spec fn remembered(self, ws: WorkspaceId) -> Option<String> {
        if self.knows(ws) {
            self.ws(ws).last_seen_monitor
        } else {
            None
        }
    }

    /// With another memory of where a workspace belongs.
    pub open spec fn remembering(self, ws: WorkspaceId, seen: Option<String>) -> World {
        if self.knows(ws) {
            self.set_ws(ws, WorkspaceModel { last_seen_monitor: seen, ..self.ws(ws) })
        } else {
            self
        }
    }

    /// With a workspace in the pool.
    pub open spec fn unbound(self, ws: WorkspaceId) -> World {
        if self.knows(ws) {
            self.set_ws(ws, WorkspaceModel { active_monitor: None, ..self.ws(ws) })
        } else {
            self
        }
    }

    /// With the focus frame around a window that is about to get the focus. Where
    /// none is, the frame goes away, and the foreground is taken from the window
    /// that had it.
    pub open spec fn framed(self, next: Option<WindowId>) -> World {
        if self.focused_window == next {
            self
        } else {
            match next {
                Some(id) => self.say(Act::Frame(id)),
                None => self.say(Act::Unframe).say(Act::SinkFocus),
            }
        }
    }

    /// With the focus on a window and the frame around it.
    pub open spec fn focusing(self, next: Option<WindowId>) -> World {
        World { focused_window: next, ..self.framed(next) }
    }

    /// With the focus on a window, the frame around it and the window in the
    /// foreground; without any, with nothing in the foreground.
    pub open spec fn raising(self, next: Option<WindowId>) -> World {
        match next {
            Some(id) => self.focusing(next).say(Act::Focus(id)),
            None => self.focusing(next),
        }
    }

    // ---- retiling ---------------------------------------------------------

    /// Where the windows of a workspace go: in monocle mode all of them get the
    /// whole area; otherwise the tiled ones their tiles, and the floating ones
    /// their own place, kept inside the area.
    pub open spec fn plan(self, ws: WorkspaceId, area: Rect) -> RetilePlan {
        let m = self.ws(ws);
        if m.monocle {
            RetilePlan {
                moves: m.all_windows().map_values(|id: WindowId| (id, area)),
                visible: m.all_windows(),
                hidden: Seq::empty(),
            }
        } else {
            let tiles = m.tree.laid_out(area, self.gaps.inner as int);
            RetilePlan {
                moves: tiles + m.floating.map_values(
                    |p: (WindowId, Rect)| (p.0, p.1.clamp_inside_spec(area)),
                ),
                visible: tiles.map_values(|p: (WindowId, Rect)| p.0),
                hidden: m.tree.hidden(),
            }
        }
    }

    /// With the positions of a visible workspace's windows handed to the
    /// desktop. What is to be seen is shown first; what is covered in a stack is
    /// hidden once the positions were accepted.
    pub open spec fn retiled(self, ws: WorkspaceId) -> Outcome {
        match self.work_area(ws) {
            None => (self, Ok(())),
            Some(area) => {
                let plan = self.plan(ws, area);
                let shown = self.visit_all(plan.visible, Visit::Reveal);
                let placed = World { desk: shown.desk.placed(plan.moves), ..shown };
                if !shown.desk.accepts(plan.moves) {
                    (placed, Err(WmError::NotPlaced))
                } else {
                    let covered = placed.visit_all(plan.hidden, Visit::Conceal);
                    (covered.reframed(ws), Ok(()))
                }
            },
        }
    }

    /// With the focus frame moved along where the focused window is on `ws`.
    pub open spec fn reframed(self, ws: WorkspaceId) -> World {
        match self.focused_window {
            Some(f) => if self.windows.contains_key(f) && self.windows[f].workspace == ws {
                self.say(Act::Reframe(f))
            } else {
                self
            },
            None => self,
        }
    }

    /// One workspace after the other, whatever the desktop accepts.
    pub open spec fn retiled_each(self, all: Seq<WorkspaceId>) -> World
        decreases all.len(),
    {
        if all.len() == 0 {
            self
        } else {
            self.retiled_each(all.drop_last()).retiled(all.last()).0
        }
    }
}

/// Whether `order` names every managed window, each once.
pub open spec fn lists(order: Seq<WindowId>, windows: Map<WindowId, ManagedWindow>) -> bool {
    &&& order.no_duplicates()
    &&& forall|id: WindowId| #[trigger] order.contains(id) <==> windows.contains_key(id)
}

/// Whether an area can be tiled: each of its parts can be inset by the gap.
pub open spec fn is_work_area(r: Rect, gap: int) -> bool {
    &&& r.valid()
    &&& rect::fits(r.x + gap)
    &&& rect::fits(r.y + gap)
    &&& rect::fits(r.x + r.w + gap)
    &&& rect::fits(r.y + r.h + gap)
    &&& r.w - 2 * gap <= i32::MAX
    &&& r.h - 2 * gap <= i32::MAX
}

/// Whether an area can be tiled.
fn is_tileable(r: Rect, gap: i32) -> (b: bool)
    ensures
        b == is_work_area(r, gap as int),
{
    if !r.is_valid() {
        return false;
    }
    let g: i64 = gap as i64;
    let least: i64 = i32::MIN as i64;
    let most: i64 = i32::MAX as i64;
    let x: i64 = r.x as i64 + g;
    let y: i64 = r.y as i64 + g;
    least <= x && x + r.w as i64 <= most && x <= most && least <= x + r.w as i64 && least <= y && y
        + r.h as i64 <= most && y <= most && least <= y + r.h as i64 && r.w as i64 - 2 * g <= most
        && r.h as i64 - 2 * g <= most
}

/// A work area can be split, and its tiles inset by a gap.
pub proof fn lemma_tiles_can_inset(l: Layout<WindowId>, area: Rect, gap: int)
    requires
        l.wf(),
        is_work_area(area, gap),
    ensures
        l.splits(area),
        forall|i: int|
            0 <= i < l.tiles(area).len() ==> (#[trigger] l.tiles(area)[i]).1.can_inset(gap),
{
    if l.tree is Some {
        crate::tree::law_tiles_fill_the_area(l.tree->0, area);
        assert forall|i: int| 0 <= i < l.tiles(area).len() implies (
        #[trigger] l.tiles(area)[i]).1.can_inset(gap) by {
            assert(l.tree->0.tiles(area)[i].1.within(area));
            assert(l.tree->0.tiles(area)[i].1.valid());
        }
    }
}

} // verus!
