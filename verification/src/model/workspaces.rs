//! Workspaces move between monitors, and windows between workspaces.

use crate::ids::{MonitorId, WorkspaceId};
use crate::model;
use crate::model::{AlreadyVisibleBehaviour, Outcome, Visit, WmError, World};
use crate::window::ManagedWindow;
use vstd::prelude::*;

verus! {

impl World {
    /// With a workspace on a monitor in place of the one that it shows, which
    /// goes to the pool with its windows hidden.
    pub open spec fn swapped_onto(self, id: MonitorId, incoming: WorkspaceId) -> Outcome {
        match self.monitor(id) {
            None => (self, Err(WmError::MonitorMissing)),
            Some(m) => {
                let outgoing = m.current_workspace;
                let away = self.visit_all(self.windows_on(outgoing), Visit::Hide).unbound(outgoing);
                let here = away.bound(incoming, id).visit_all(
                    away.windows_on(incoming),
                    Visit::Show,
                ).set_current(id, incoming);
                match here.retiled(incoming) {
                    (w, Ok(())) => (w.raising(w.tree_focus(incoming)), Ok(())),
                    (w, Err(e)) => (w, Err(e)),
                }
            },
        }
    }

    /// With the workspaces of two monitors exchanged.
    pub open spec fn exchanged(
        self,
        here: MonitorId,
        there: MonitorId,
        target: WorkspaceId,
    ) -> Outcome {
        match self.monitor(here) {
            None => (self, Err(WmError::FocusedMonitorMissing)),
            Some(m) => {
                let own = m.current_workspace;
                let swapped = self.bound(own, there).bound(target, here).set_current(
                    here,
                    target,
                ).set_current(there, own);
                match swapped.retiled(own) {
                    (w, Err(e)) => (w, Err(e)),
                    (w, Ok(())) => match w.retiled(target) {
                        (v, Err(e)) => (v, Err(e)),
                        (v, Ok(())) => (v.raising(v.tree_focus(target)), Ok(())),
                    },
                }
            },
        }
    }

    /// With a workspace on the focused monitor, or the focus on the monitor that
    /// shows it.
    pub open spec fn switched(self, target: WorkspaceId) -> Outcome {
        if !self.knows(target) {
            (self, Err(WmError::NoSuchWorkspace(target)))
        } else {
            match self.focused_monitor {
                None => (self, Err(WmError::NoFocusedMonitor)),
                Some(here) => match self.monitor(here) {
                    None => (self, Err(WmError::FocusedMonitorMissing)),
                    Some(m) => if m.current_workspace == target {
                        (self, Ok(()))
                    } else {
                        match self.shown_on(target) {
                            Some(there) => if there@ != here@ {
                                match self.on_already_visible {
                                    AlreadyVisibleBehaviour::FocusOtherMonitor => {
                                        let moved = World { focused_monitor: Some(there), ..self };
                                        match moved.tree_focus(target) {
                                            Some(w) => (moved.raising(Some(w)), Ok(())),
                                            None => (moved, Ok(())),
                                        }
                                    },
                                    AlreadyVisibleBehaviour::Swap => self.exchanged(
                                        here,
                                        there,
                                        target,
                                    ),
                                }
                            } else {
                                self.swapped_onto(here, target)
                            },
                            None => self.swapped_onto(here, target),
                        }
                    },
                },
            }
        }
    }

    /// With a workspace on a given monitor, which gets the focus.
    pub open spec fn switched_on(self, target: WorkspaceId, id: MonitorId) -> Outcome {
        match self.monitor(id) {
            None => (self, Err(WmError::NoSuchMonitor(id))),
            Some(_) => World { focused_monitor: Some(id), ..self }.switched(target),
        }
    }

    /// With the focused window on another workspace, and the focus there too.
    pub open spec fn sent_to(self, target: WorkspaceId) -> Outcome {
        match self.focused_window {
            None => (self, Ok(())),
            Some(id) => if !self.windows.contains_key(id) || self.windows[id].workspace == target {
                (self, Ok(()))
            } else if !self.knows(target) {
                (self, Err(WmError::NoSuchWorkspace(target)))
            } else {
                let from = self.windows[id].workspace;
                let out = self.detached(from, id);
                let area = out.work_area_or(target, model::default_screen());
                let there = out.set_tree(target, out.ws(target).tree.inserted(id, area));
                let sent = World {
                    windows: there.windows.insert(
                        id,
                        ManagedWindow { workspace: target, ..there.windows[id] },
                    ),
                    ..there
                };
                match sent.retiled(from) {
                    (w, Err(e)) => (w, Err(e)),
                    (w, Ok(())) => match w.shown_on(target) {
                        None => match w.focused_monitor {
                            None => (w, Err(WmError::NoFocusedMonitor)),
                            Some(here) => w.swapped_onto(here, target),
                        },
                        Some(m) => {
                            let shown = World {
                                focused_monitor: Some(m),
                                ..w.visit(id, Visit::Show)
                            };
                            match shown.retiled(target) {
                                (v, Err(e)) => (v, Err(e)),
                                (v, Ok(())) => (v.raising(Some(id)), Ok(())),
                            }
                        },
                    },
                }
            },
        }
    }
}

} // verus!
