//! The window manager's state.
//!
//! Every operation updates the state and records on its [`Desk`] what the
//! desktop has to do. What the operations do is stated over [`World`], the
//! model of the state.

mod commands;
mod events;
mod monitors;
mod retile;
mod windows;
mod workspaces;

use crate::desk::{Desk, Effect};
use crate::ids::{MonitorId, WindowId, WorkspaceId};
use crate::model;
use crate::model::{AlreadyVisibleBehaviour, Gaps, Visit, World};
use crate::monitor::{find_monitor, Monitor};
use crate::rect::Rect;
use crate::window::Registry;
use crate::workspace;
use crate::workspace::{Workspace, WorkspaceModel};
use vstd::prelude::*;

verus! {

pub struct WindowManager {
    /// In the order of their identifiers.
    pub monitors: Vec<Monitor>,
    /// Workspace `n` is at position `n - 1`.
    pub workspaces: Vec<Workspace>,
    pub windows: Registry,
    pub focused_monitor: Option<MonitorId>,
    pub focused_window: Option<WindowId>,
    pub gaps: Gaps,
    pub on_already_visible: AlreadyVisibleBehaviour,
    pub paused: bool,
    /// The requests of the command that is being run.
    pub desk: Desk,
}

/// The workspaces in the model.
pub open spec fn models(all: Seq<Workspace>) -> Seq<WorkspaceModel> {
    Seq::new(all.len(), |i: int| all[i]@)
}

impl View for WindowManager {
    type V = World;

    open spec fn view(&self) -> World {
        World {
            monitors: self.monitors@,
            workspaces: models(self.workspaces@),
            windows: self.windows@,
            focused_monitor: self.focused_monitor,
            focused_window: self.focused_window,
            gaps: self.gaps,
            on_already_visible: self.on_already_visible,
            paused: self.paused,
            desk: self.desk@,
        }
    }
}

impl WindowManager {
    /// What every operation relies on and keeps.
    pub open spec fn inv(&self) -> bool {
        &&& self.windows.distinct()
        &&& self.desk.wf()
        &&& self@.sound()
    }

    /// The same state once more, to run a command on other answers.
    pub fn with_desk(&self, desk: Desk) -> (r: WindowManager)
        requires
            self.inv(),
            desk.wf(),
        ensures
            r.inv(),
            r@ == (World { desk: desk@, ..self@ }),
    {
        let mut monitors: Vec<Monitor> = Vec::new();
        let mut i: usize = 0;
        while i < self.monitors.len()
            invariant
                i <= self.monitors@.len(),
                monitors@.len() == i,
                forall|k: int| 0 <= k < i ==> #[trigger] monitors@[k] == self.monitors@[k],
            decreases self.monitors@.len() - i,
        {
            monitors.push(self.monitors[i].copied());
            i = i + 1;
        }
        assert(monitors@ =~= self.monitors@);
        let mut workspaces: Vec<Workspace> = Vec::new();
        let mut n: usize = 0;
        while n < self.workspaces.len()
            invariant
                n <= self.workspaces@.len(),
                workspaces@.len() == n,
                forall|k: int| 0 <= k < n ==> (#[trigger] workspaces@[k])@ == self.workspaces@[k]@,
            decreases self.workspaces@.len() - n,
        {
            workspaces.push(self.workspaces[n].copied());
            n = n + 1;
        }
        assert(models(workspaces@) =~= models(self.workspaces@));
        WindowManager {
            monitors,
            workspaces,
            windows: self.windows.copied(),
            focused_monitor: match &self.focused_monitor {
                Some(id) => Some(id.copied()),
                None => None,
            },
            focused_window: self.focused_window,
            gaps: self.gaps,
            on_already_visible: self.on_already_visible,
            paused: self.paused,
            desk,
        }
    }

    // ---- queries ---------------------------------------------------------

    /// The position of a workspace.
    pub(crate) fn index_of(&self, ws: WorkspaceId) -> (r: Option<usize>)
        requires
            self.inv(),
        ensures
            match r {
                Some(i) => self@.knows(ws) && i == ws.0 - 1 && i < self.workspaces@.len(),
                None => !self@.knows(ws),
            },
    {
        if ws.0 >= 1 && (ws.0 as u64) <= self.workspaces.len() as u64 {
            Some((ws.0 - 1) as usize)
        } else {
            None
        }
    }

    /// The workspace on the focused monitor.
    pub fn focused_workspace_id(&self) -> (r: Option<WorkspaceId>)
        requires
            self.inv(),
        ensures
            r == self@.focused_workspace(),
    {
        match &self.focused_monitor {
            Some(id) => match find_monitor(&self.monitors, id) {
                Some(i) => Some(self.monitors[i].current_workspace),
                None => None,
            },
            None => None,
        }
    }

    /// The workspace that a managed window belongs to.
    pub fn workspace_of_window(&self, w: WindowId) -> (r: Option<WorkspaceId>)
        requires
            self.inv(),
        ensures
            r == (if self@.windows.contains_key(w) {
                Some(self@.windows[w].workspace)
            } else {
                None
            }),
    {
        match self.windows.get(w) {
            Some(mw) => Some(mw.workspace),
            None => None,
        }
    }

    /// The monitor that shows a workspace.
    pub(crate) fn monitor_of_workspace(&self, ws: WorkspaceId) -> (r: Option<MonitorId>)
        requires
            self.inv(),
        ensures
            r == self@.shown_on(ws),
    {
        match self.index_of(ws) {
            Some(i) => match &self.workspaces[i].active_monitor {
                Some(id) => Some(id.copied()),
                None => None,
            },
            None => None,
        }
    }

    /// The area that a visible workspace's tiles fill.
    pub(crate) fn workspace_work_area(&self, ws: WorkspaceId) -> (r: Option<Rect>)
        requires
            self.inv(),
        ensures
            r == self@.work_area(ws),
            r matches Some(area) ==> model::is_work_area(area, self.gaps.inner as int),
    {
        match self.index_of(ws) {
            Some(i) => match &self.workspaces[i].active_monitor {
                Some(id) => match find_monitor(&self.monitors, id) {
                    Some(k) => {
                        assert(self@.gaps.suit(self@.monitors[k as int].info));
                        Some(
                            self.monitors[k].work_area_with_gap(
                                self.gaps.top,
                                self.gaps.right,
                                self.gaps.bottom,
                                self.gaps.left,
                            ),
                        )
                    },
                    None => None,
                },
                None => None,
            },
            None => None,
        }
    }

    /// The window that a workspace's tree has the focus on.
    pub(crate) fn tree_focus(&self, ws: WorkspaceId) -> (r: Option<WindowId>)
        requires
            self.inv(),
        ensures
            r == self@.tree_focus(ws),
    {
        match self.index_of(ws) {
            Some(i) => self.workspaces[i].tree.focused(),
            None => None,
        }
    }

    pub(crate) fn windows_on(&self, ws: WorkspaceId) -> (r: Vec<WindowId>)
        requires
            self.inv(),
        ensures
            r@ == self@.windows_on(ws),
    {
        match self.index_of(ws) {
            Some(i) => self.workspaces[i].all_windows(),
            None => Vec::new(),
        }
    }

    // ---- small steps -----------------------------------------------------

    pub(crate) fn say(&mut self, effect: Effect)
        requires
            old(self).inv(),
        ensures
            final(self).inv(),
            final(self)@ == old(self)@.say(effect@),
    {
        self.desk.say(effect);
    }

    pub(crate) fn visit(&mut self, id: WindowId, how: Visit)
        requires
            old(self).inv(),
        ensures
            final(self).inv(),
            final(self)@ == old(self)@.visit(id, how),
    {
        match how {
            Visit::Show => {
                self.desk.say(Effect::Show(id));
                self.windows.set_hidden(id, false);
            },
            Visit::Hide => {
                self.desk.say(Effect::Hide(id));
                self.windows.set_hidden(id, true);
            },
            Visit::Reveal => match self.windows.get(id) {
                Some(mw) => {
                    if mw.hidden_by_us {
                        self.desk.say(Effect::Show(id));
                        self.windows.set_hidden(id, false);
                    }
                },
                None => {},
            },
            Visit::Conceal => match self.windows.get(id) {
                Some(mw) => {
                    if !mw.hidden_by_us {
                        self.desk.say(Effect::Hide(id));
                        self.windows.set_hidden(id, true);
                    }
                },
                None => {},
            },
        }
    }

    pub(crate) fn visit_all(&mut self, ids: &Vec<WindowId>, how: Visit)
        requires
            old(self).inv(),
        ensures
            final(self).inv(),
            final(self)@ == old(self)@.visit_all(ids@, how),
    {
        let ghost before = self@;
        let mut i: usize = 0;
        assert(ids@.take(0) =~= Seq::<WindowId>::empty());
        while i < ids.len()
            invariant
                i <= ids@.len(),
                self.inv(),
                self@ == before.visit_all(ids@.take(i as int), how),
            decreases ids@.len() - i,
        {
            assert(ids@.take(i + 1).drop_last() =~= ids@.take(i as int));
            self.visit(ids[i], how);
            i = i + 1;
        }
        assert(ids@.take(i as int) =~= ids@);
    }

    /// Put a workspace on a monitor, and let it remember that.
    pub(crate) fn bind_workspace_to_monitor(&mut self, ws: WorkspaceId, id: &MonitorId)
        requires
            old(self).inv(),
        ensures
            final(self).inv(),
            final(self)@ == old(self)@.bound(ws, *id),
    {
        let ghost before = self@;
        match self.index_of(ws) {
            Some(i) => {
                self.workspaces[i].active_monitor = Some(id.copied());
                self.workspaces[i].last_seen_monitor = Some(id.0.clone());
                assert(self@.workspaces =~= before.bound(ws, *id).workspaces);
            },
            None => {},
        }
    }

    /// The monitor that a workspace remembers.
    pub(crate) fn remembered(&self, ws: WorkspaceId) -> (r: Option<String>)
        requires
            self.inv(),
        ensures
            r == self@.remembered(ws),
    {
        match self.index_of(ws) {
            Some(i) => match &self.workspaces[i].last_seen_monitor {
                Some(seen) => Some(seen.clone()),
                None => None,
            },
            None => None,
        }
    }

    /// Let a workspace remember a monitor.
    pub(crate) fn remember(&mut self, ws: WorkspaceId, seen: Option<String>)
        requires
            old(self).inv(),
        ensures
            final(self).inv(),
            final(self)@ == old(self)@.remembering(ws, seen),
    {
        let ghost before = self@;
        match self.index_of(ws) {
            Some(i) => {
                self.workspaces[i].last_seen_monitor = seen;
                assert(self@.workspaces =~= before.remembering(ws, seen).workspaces);
            },
            None => {},
        }
    }

    /// Put a workspace into the pool.
    pub(crate) fn unbind_workspace(&mut self, ws: WorkspaceId)
        requires
            old(self).inv(),
        ensures
            final(self).inv(),
            final(self)@ == old(self)@.unbound(ws),
    {
        let ghost before = self@;
        match self.index_of(ws) {
            Some(i) => {
                self.workspaces[i].active_monitor = None;
                assert(self@.workspaces =~= before.unbound(ws).workspaces);
            },
            None => {},
        }
    }

    /// Put another workspace on a monitor's record.
    pub(crate) fn set_current(&mut self, id: &MonitorId, ws: WorkspaceId)
        requires
            old(self).inv(),
        ensures
            final(self).inv(),
            final(self)@ == old(self)@.set_current(*id, ws),
    {
        let ghost before = self@;
        match find_monitor(&self.monitors, id) {
            Some(i) => {
                self.monitors[i].current_workspace = ws;
                proof {
                    assert(self@.monitors =~= before.set_current(*id, ws).monitors);
                    assert forall|a: int, b: int|
                        0 <= a < b < self@.monitors.len() implies crate::ids::precedes(
                        #[trigger] self@.monitors[a].id@,
                        #[trigger] self@.monitors[b].id@,
                    ) by {
                        assert(crate::ids::precedes(
                            before.monitors[a].id@,
                            before.monitors[b].id@,
                        ));
                    }
                    assert forall|a: int| 0 <= a < self@.monitors.len() implies self@.gaps.suit(
                        (#[trigger] self@.monitors[a]).info,
                    ) by {
                        assert(before.gaps.suit(before.monitors[a].info));
                    }
                }
            },
            None => {},
        }
    }

    /// Show the focus frame for a window that is about to get the focus.
    pub(crate) fn apply_focus_borders(&mut self, new_focus: Option<WindowId>)
        requires
            old(self).inv(),
        ensures
            final(self).inv(),
            final(self)@ == old(self)@.framed(new_focus),
    {
        match (self.focused_window, new_focus) {
            (Some(prev), Some(id)) => {
                if prev != id {
                    self.desk.say(Effect::Frame(id));
                }
            },
            (None, Some(id)) => {
                self.desk.say(Effect::Frame(id));
            },
            (Some(prev), None) => {
                self.desk.say(Effect::Unframe);
                self.desk.say(Effect::SinkFocus);
            },
            (None, None) => {},
        }
    }

    pub(crate) fn focus_window(&mut self, next: Option<WindowId>)
        requires
            old(self).inv(),
        ensures
            final(self).inv(),
            final(self)@ == old(self)@.focusing(next),
    {
        self.apply_focus_borders(next);
        self.focused_window = next;
    }

    pub(crate) fn raise_window(&mut self, next: Option<WindowId>)
        requires
            old(self).inv(),
        ensures
            final(self).inv(),
            final(self)@ == old(self)@.raising(next),
    {
        self.focus_window(next);
        match next {
            Some(id) => {
                self.desk.say(Effect::Focus(id));
            },
            None => {},
        }
    }
}

} // verus!
