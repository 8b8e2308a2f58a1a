//! Monitors come and go.

use crate::desk::{Act, BarSpec};
use crate::ids::{MonitorId, WorkspaceId};
use crate::model::{Visit, World};
use crate::monitor;
use crate::monitor::{Monitor, MonitorInfo};
use crate::nearest;
use crate::rect::{Direction, Rect};
use crate::workspace::WorkspaceModel;
use vstd::prelude::*;

verus! {

/// The squared distance of two monitors' centres.
pub open spec fn apart(a: Rect, b: Rect) -> int {
    let dx = nearest::mid_x(b) - nearest::mid_x(a);
    let dy = nearest::mid_y(b) - nearest::mid_y(a);
    dx * dx + dy * dy
}

/// Whether the monitor at `i` lies in direction `dir` of the one at `from`.
pub open spec fn is_toward(monitors: Seq<Monitor>, from: int, dir: Direction, i: int) -> bool {
    &&& 0 <= i < monitors.len()
    &&& i != from
    &&& nearest::lies_toward(monitors[from].info.bounds, monitors[i].info.bounds, dir)
}

/// Whether the monitor at `i` is the closest in direction `dir`, and the first
/// of those that are equally close.
pub open spec fn is_closest(monitors: Seq<Monitor>, from: int, dir: Direction, i: int) -> bool {
    let home = monitors[from].info.bounds;
    &&& is_toward(monitors, from, dir, i)
    &&& forall|j: int| #[trigger]
        is_toward(monitors, from, dir, j) ==> {
            &&& apart(home, monitors[i].info.bounds) <= apart(home, monitors[j].info.bounds)
            &&& j < i ==> apart(home, monitors[i].info.bounds) < apart(
                home,
                monitors[j].info.bounds,
            )
        }
}

/// The closest monitor in direction `dir`.
pub open spec fn closest(monitors: Seq<Monitor>, from: int, dir: Direction) -> Option<int> {
    if exists|i: int| is_closest(monitors, from, dir, i) {
        Some(choose|i: int| is_closest(monitors, from, dir, i))
    } else {
        None
    }
}

/// Whether the description at `i` is the last one of the monitor `id`.
pub open spec fn is_last_info(infos: Seq<MonitorInfo>, i: int, id: Seq<char>) -> bool {
    &&& 0 <= i < infos.len()
    &&& infos[i].stable_id@ == id
    &&& forall|j: int| i < j < infos.len() ==> (#[trigger] infos[j]).stable_id@ != id
}

/// The description of a monitor in a fresh enumeration.
pub open spec fn info_for(infos: Seq<MonitorInfo>, id: Seq<char>) -> Option<MonitorInfo> {
    if exists|i: int| is_last_info(infos, i, id) {
        Some(infos[choose|i: int| is_last_info(infos, i, id)])
    } else {
        None
    }
}

/// Not in a fresh enumeration.
pub open spec fn gone(infos: Seq<MonitorInfo>) -> spec_fn(Monitor) -> bool {
    |m: Monitor| info_for(infos, m.id@) is None
}

/// In a fresh enumeration.
pub open spec fn stays(infos: Seq<MonitorInfo>) -> spec_fn(Monitor) -> bool {
    |m: Monitor| info_for(infos, m.id@) is Some
}

/// The monitors of `infos[..n]` in the order of the enumeration, without the
/// monitor `but`; of several descriptions of a monitor the last one counts.
pub open spec fn listed(infos: Seq<MonitorInfo>, but: Option<MonitorId>, n: int) -> Seq<MonitorId>
    decreases n,
{
    if n <= 0 {
        Seq::empty()
    } else {
        let before = listed(infos, but, n - 1);
        let id = infos[n - 1].stable_id;
        if is_last_info(infos, n - 1, id@) && !(but matches Some(f) && f@ == id@) {
            before.push(MonitorId(id))
        } else {
            before
        }
    }
}

/// Whether the workspace at `i` is the first for which `p` holds.
pub open spec fn is_first(
    all: Seq<WorkspaceModel>,
    p: spec_fn(WorkspaceModel) -> bool,
    i: int,
) -> bool {
    &&& 0 <= i < all.len()
    &&& p(all[i])
    &&& forall|j: int| 0 <= j < i ==> !p(#[trigger] all[j])
}

/// The first workspace for which `p` holds.
pub open spec fn first_workspace(
    all: Seq<WorkspaceModel>,
    p: spec_fn(WorkspaceModel) -> bool,
) -> Option<WorkspaceId> {
    if exists|i: int| is_first(all, p, i) {
        Some(WorkspaceId(((choose|i: int| is_first(all, p, i)) + 1) as u32))
    } else {
        None
    }
}

/// There is one first workspace at most.
pub proof fn lemma_first(all: Seq<WorkspaceModel>, p: spec_fn(WorkspaceModel) -> bool, i: int)
    requires
        is_first(all, p, i),
    ensures
        first_workspace(all, p) == Some(WorkspaceId((i + 1) as u32)),
{
    let k = choose|k: int| is_first(all, p, k);
    assert(is_first(all, p, k));
    if k < i {
        assert(!p(all[k]));
    } else if i < k {
        assert(!p(all[i]));
    }
}

/// Where `p` holds of no workspace, none is the first.
pub proof fn lemma_no_first(all: Seq<WorkspaceModel>, p: spec_fn(WorkspaceModel) -> bool)
    requires
        forall|j: int| 0 <= j < all.len() ==> !p(#[trigger] all[j]),
    ensures
        first_workspace(all, p) is None,
{
    if exists|k: int| is_first(all, p, k) {
        let k = choose|k: int| is_first(all, p, k);
        assert(is_first(all, p, k));
        assert(!p(all[k]));
    }
}

/// Whether a workspace was last seen on the monitor `id`.
pub open spec fn was_on(m: WorkspaceModel, id: Seq<char>) -> bool {
    m.last_seen_monitor matches Some(seen) && seen@ == id
}

/// In the pool, and last seen on the monitor `id`.
pub open spec fn waits_for(id: Seq<char>) -> spec_fn(WorkspaceModel) -> bool {
    |m: WorkspaceModel| m.active_monitor is None && was_on(m, id)
}

/// Visible, and last seen on the monitor `id`.
pub open spec fn strayed_from(id: Seq<char>) -> spec_fn(WorkspaceModel) -> bool {
    |m: WorkspaceModel| m.active_monitor is Some && was_on(m, id)
}

/// In the pool, and not the workspace `ws`.
pub open spec fn idle_other_than(ws: WorkspaceId) -> spec_fn(WorkspaceModel) -> bool {
    |m: WorkspaceModel| m.active_monitor is None && m.id != ws
}

/// No workspace.
pub open spec fn no_workspace() -> WorkspaceId {
    WorkspaceId(0)
}

/// The workspace for the monitor at position `i` at startup: the first monitors
/// get one each, and the others share the last one.
pub open spec fn first_choice(i: int, count: nat) -> WorkspaceId {
    if i + 1 <= count {
        WorkspaceId((i + 1) as u32)
    } else {
        WorkspaceId(
            if count >= 1 {
                count as u32
            } else {
                1
            },
        )
    }
}

/// The monitors with one more, in place of one with the same identifier.
pub open spec fn enrolled(monitors: Seq<Monitor>, m: Monitor) -> Seq<Monitor> {
    match monitor::monitor_index(monitors, m.id@) {
        Some(i) => monitors.update(i, m),
        None => monitor::with_monitor(monitors, m),
    }
}

/// The world before any monitor is known.
pub open spec fn unstarted(
    count: nat,
    gaps: crate::model::Gaps,
    on_already_visible: crate::model::AlreadyVisibleBehaviour,
) -> World {
    World {
        monitors: Seq::empty(),
        workspaces: Seq::new(
            count,
            |i: int| crate::workspace::empty_workspace(WorkspaceId((i + 1) as u32)),
        ),
        windows: Map::empty(),
        focused_monitor: None,
        focused_window: None,
        gaps,
        on_already_visible,
        paused: false,
        desk: crate::desk::DeskModel {
            accepted: Seq::empty(),
            measured: Seq::empty(),
            batches: 0,
            measures: 0,
            log: Seq::empty(),
        },
    }
}

impl World {
    /// With the focus on the closest monitor in direction `dir`, and on the
    /// window that its workspace's tree has the focus on.
    pub open spec fn monitor_focused_toward(self, dir: Direction) -> World {
        match self.focused_monitor {
            None => self,
            Some(id) => match monitor::monitor_index(self.monitors, id@) {
                None => self,
                Some(from) => match closest(self.monitors, from, dir) {
                    None => self,
                    Some(i) => {
                        let m = self.monitors[i];
                        let moved = World { focused_monitor: Some(m.id), ..self };
                        match moved.tree_focus(m.current_workspace) {
                            Some(w) => moved.raising(Some(w)),
                            None => moved,
                        }
                    },
                },
            },
        }
    }

    /// The workspaces that were on monitors which are gone.
    pub open spec fn orphans(self, infos: Seq<MonitorInfo>) -> Seq<WorkspaceId> {
        self.monitors.filter(gone(infos)).map_values(
            |m: Monitor| m.current_workspace,
        )
    }

    pub open spec fn unbound_each(self, all: Seq<WorkspaceId>) -> World
        decreases all.len(),
    {
        if all.len() == 0 {
            self
        } else {
            self.unbound_each(all.drop_last()).unbound(all.last())
        }
    }

    /// Without the monitors that are gone; their workspaces are in the pool.
    pub open spec fn bereft(self, infos: Seq<MonitorInfo>) -> World {
        World {
            monitors: self.monitors.filter(stays(infos)),
            ..self
        }.unbound_each(self.orphans(infos))
    }

    /// With the focus on a monitor that is there: the primary one, or the first.
    pub open spec fn refocused(self) -> World {
        let lost = match self.focused_monitor {
            Some(id) => self.monitor(id) is None,
            None => true,
        };
        if lost {
            World {
                focused_monitor: match self.primary() {
                    Some(m) => Some(m.id),
                    None => if self.monitors.len() > 0 {
                        Some(self.monitors[0].id)
                    } else {
                        None
                    },
                },
                ..self
            }
        } else {
            self
        }
    }

    /// With the fresh description of every monitor.
    pub open spec fn refreshed(self, infos: Seq<MonitorInfo>) -> World {
        World {
            monitors: self.monitors.map_values(
                |m: Monitor|
                    match info_for(infos, m.id@) {
                        Some(info) => Monitor { info, ..m },
                        None => m,
                    },
            ),
            ..self
        }
    }

    /// The workspace for a monitor that has arrived, and the monitor that it is
    /// taken from: one that waits for it, else one that strayed from it, else
    /// the first in the pool, else workspace 1.
    pub open spec fn choice_for(self, id: Seq<char>) -> (WorkspaceId, Option<MonitorId>) {
        match first_workspace(self.workspaces, waits_for(id)) {
            Some(ws) => (ws, None),
            None => match first_workspace(self.workspaces, strayed_from(id)) {
                Some(ws) => (ws, self.shown_on(ws)),
                None => match first_workspace(self.workspaces, idle_other_than(no_workspace())) {
                    Some(ws) => (ws, None),
                    None => (WorkspaceId(1), None),
                },
            },
        }
    }

    /// The workspace that a monitor gets in place of one that was taken from it.
    pub open spec fn replacement_for(self, id: MonitorId, taken: WorkspaceId) -> Option<
        WorkspaceId,
    > {
        match first_workspace(self.workspaces, waits_for(id@)) {
            Some(ws) => Some(ws),
            None => first_workspace(self.workspaces, idle_other_than(taken)),
        }
    }

    /// With a workspace taken from the monitor that shows it, which gets another
    /// one with its windows shown where there is one, and the list of workspaces
    /// to retile.
    pub open spec fn reclaimed(
        self,
        ws: WorkspaceId,
        from: MonitorId,
        retile: Seq<WorkspaceId>,
    ) -> (World, Seq<WorkspaceId>) {
        let free = self.unbound(ws);
        match free.replacement_for(from, ws) {
            Some(other) => (
                free.bound(other, from).visit_all(
                    free.windows_on(other),
                    Visit::Show,
                ).set_current(from, other),
                retile.push(other),
            ),
            None => (free, retile),
        }
    }

    /// Reclaiming a workspace neither adds nor removes a monitor.
    pub proof fn lemma_reclaimed_ids(
        self,
        ws: WorkspaceId,
        from: MonitorId,
        retile: Seq<WorkspaceId>,
    )
        ensures
            monitor::same_ids(self.monitors, self.reclaimed(ws, from, retile).0.monitors),
            self.reclaimed(ws, from, retile).0.gaps == self.gaps,
    {
        let free = self.unbound(ws);
        if let Some(other) = free.replacement_for(from, ws) {
            free.bound(other, from).lemma_visits(free.windows_on(other), Visit::Show);
        }
    }

    /// With a monitor that has arrived, and the list of workspaces to retile.
    pub open spec fn joined_by(self, info: MonitorInfo, retile: Seq<WorkspaceId>) -> (
        World,
        Seq<WorkspaceId>,
    ) {
        let id = MonitorId(info.stable_id);
        let (ws, from) = self.choice_for(id@);
        let (ready, list) = match from {
            Some(other) => if self.knows(ws) {
                self.reclaimed(ws, other, retile)
            } else {
                (self, retile)
            },
            None => (self, retile),
        };
        let shown = ready.bound(ws, id).visit_all(ready.windows_on(ws), Visit::Show);
        (
            World {
                monitors: monitor::with_monitor(
                    shown.monitors,
                    Monitor { id, info, current_workspace: ws },
                ),
                ..shown
            },
            list.push(ws),
        )
    }

    /// Whether a fresh enumeration has the monitor `id`, which is not there yet.
    pub open spec fn awaits(self, infos: Seq<MonitorInfo>, id: Seq<char>) -> bool {
        info_for(infos, id) is Some && monitor::monitor_index(self.monitors, id) is None
    }

    /// Whether a workspace remembers a monitor that is about to arrive.
    pub open spec fn is_awaited(self, infos: Seq<MonitorInfo>, i: int) -> bool {
        self.workspaces[i].last_seen_monitor matches Some(seen) && self.awaits(infos, seen@)
    }

    /// Whether a workspace in the pool remembers the monitor `id`.
    pub open spec fn has_waiting(self, id: Seq<char>) -> bool {
        exists|k: int|
            0 <= k < self.workspaces.len() && waits_for(id)(#[trigger] self.workspaces[k])
    }

    /// Whether every workspace in the pool is free for any monitor: none
    /// remembers one that is about to arrive.
    pub open spec fn has_free_pool(self, infos: Seq<MonitorInfo>) -> bool {
        forall|k: int|
            0 <= k < self.workspaces.len() && (
            #[trigger] self.workspaces[k]).active_monitor is None ==> !self.is_awaited(infos, k)
    }

    /// Whether a monitor that has to give a workspace back gets none in its place
    /// that yet another monitor comes for: it has one of its own in the pool, or
    /// the pool is free.
    pub open spec fn can_give_back(self, infos: Seq<MonitorInfo>) -> bool {
        forall|i: int|
            #![trigger self.workspaces[i]]
            0 <= i < self.workspaces.len() && self.workspaces[i].active_monitor is Some
                && self.is_awaited(infos, i) && !self.has_waiting(
                self.workspaces[i].last_seen_monitor->0@,
            ) ==> self.has_waiting(self.workspaces[i].active_monitor->0@) || self.has_free_pool(
                infos,
            )
    }

    /// With every monitor of `infos[..n]` that is not there yet, in the order of
    /// the enumeration; of several descriptions of a monitor the last one
    /// counts.
    pub open spec fn joined_by_all(
        self,
        infos: Seq<MonitorInfo>,
        n: int,
        retile: Seq<WorkspaceId>,
    ) -> (World, Seq<WorkspaceId>)
        decreases n,
    {
        if n <= 0 {
            (self, retile)
        } else {
            let (w, list) = self.joined_by_all(infos, n - 1, retile);
            let info = infos[n - 1];
            if is_last_info(infos, n - 1, info.stable_id@) && monitor::monitor_index(
                w.monitors,
                info.stable_id@,
            ) is None {
                w.joined_by(info, list)
            } else {
                (w, list)
            }
        }
    }

    /// The monitors that take in orphaned workspaces: the focused one first, then
    /// the others in the order of the enumeration.
    pub open spec fn shelters(self, infos: Seq<MonitorInfo>) -> Seq<MonitorId> {
        let others = listed(infos, self.focused_monitor, infos.len() as int);
        match self.focused_monitor {
            Some(f) => seq![f] + others,
            None => others,
        }
    }

    /// In the pool.
    pub open spec fn pooled(self) -> spec_fn(WorkspaceId) -> bool {
        |ws: WorkspaceId| self.knows(ws) && self.ws(ws).active_monitor is None
    }

    /// The orphans that are still in the pool.
    pub open spec fn stranded(self, orphans: Seq<WorkspaceId>) -> Seq<WorkspaceId> {
        orphans.filter(self.pooled())
    }

    /// With a workspace on a monitor that takes it in. The workspace still
    /// remembers the monitor that it came from, so that it can return there.
    pub open spec fn taken_in(self, id: MonitorId, ws: WorkspaceId) -> World {
        self.swapped_onto(id, ws).0.remembering(ws, self.remembered(ws))
    }

    /// With the first `n` orphans sheltered, each on a monitor of its own while
    /// there are any, and hidden after that.
    pub open spec fn sheltered(
        self,
        shelters: Seq<MonitorId>,
        orphans: Seq<WorkspaceId>,
        n: int,
    ) -> World
        decreases n,
    {
        if n <= 0 {
            self
        } else {
            let w = self.sheltered(shelters, orphans, n - 1);
            if n <= shelters.len() {
                w.taken_in(shelters[n - 1], orphans[n - 1])
            } else {
                w.visit_all(w.windows_on(orphans[n - 1]), Visit::Hide)
            }
        }
    }

    /// The places of the status bars.
    pub open spec fn bar_specs(self) -> Seq<BarSpec> {
        self.monitors.map_values(
            |m: Monitor| BarSpec { monitor_id: m.id.0, bounds: m.info.bounds },
        )
    }

    /// With the monitors of a fresh enumeration.
    ///
    /// Workspaces of monitors that are gone move to monitors that are there, or
    /// to the pool with their windows hidden. A monitor that has returned gets
    /// the workspace back that it showed last.
    pub open spec fn reconciled(self, infos: Seq<MonitorInfo>) -> World {
        let orphans = self.orphans(infos);
        let known = self.bereft(infos).refocused().refreshed(infos);
        let (met, retile) = known.joined_by_all(
            infos,
            infos.len() as int,
            known.monitors.map_values(|m: Monitor| m.current_workspace),
        );
        let led = if met.focused_monitor is None && met.monitors.len() > 0 {
            World { focused_monitor: Some(met.monitors[0].id), ..met }
        } else {
            met
        };
        let stranded = led.stranded(orphans);
        let home = led.sheltered(led.shelters(infos), stranded, stranded.len() as int);
        let tiled = home.retiled_each(retile);
        tiled.say(Act::SyncBars(tiled.bar_specs()))
    }

    /// With the first `n` monitors of the first enumeration.
    pub open spec fn enrolled_all(self, infos: Seq<MonitorInfo>, n: int) -> World
        decreases n,
    {
        if n <= 0 {
            self
        } else {
            let w = self.enrolled_all(infos, n - 1);
            let ws = first_choice(n - 1, w.workspaces.len());
            let id = MonitorId(infos[n - 1].stable_id);
            let bound = w.bound(ws, id);
            World {
                monitors: enrolled(
                    bound.monitors,
                    Monitor { id, info: infos[n - 1], current_workspace: ws },
                ),
                ..bound
            }
        }
    }
}

} // verus!
