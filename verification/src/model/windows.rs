//! Windows come, go, hide and return.

use crate::desk::Act;
use crate::ids::{WindowId, WorkspaceId};
use crate::model;
use crate::model::{Outcome, Visit, WmError, World};
use crate::nearest;
use crate::rect::Rect;
use crate::tree::LayoutMode;
use crate::window::{ManagedWindow, WindowMode};
use crate::workspace::WorkspaceModel;
use vstd::prelude::*;

verus! {

impl World {
    /// The workspace for a new window: the one on the monitor that the centre of
    /// the window is on, else the focused one, else the one on the primary
    /// monitor.
    pub open spec fn host_of(self, place: Option<Rect>) -> Option<WorkspaceId> {
        let there = match place {
            Some(r) => self.workspace_at(nearest::mid_x(r), nearest::mid_y(r)),
            None => None,
        };
        match (there, self.focused_workspace()) {
            (Some(ws), _) => Some(ws),
            (None, Some(ws)) => Some(ws),
            (None, None) => match self.primary() {
                Some(m) => Some(m.current_workspace),
                None => None,
            },
        }
    }

    /// With a new window in the registry and in its workspace's tree.
    pub open spec fn adopted(
        self,
        id: WindowId,
        title: String,
        class: String,
        exe_name: String,
        ws: WorkspaceId,
        elsewhere: Rect,
    ) -> World {
        let area = self.work_area_or(ws, elsewhere);
        let registered = World {
            windows: self.windows.insert(
                id,
                ManagedWindow {
                    id,
                    workspace: ws,
                    mode: WindowMode::Tiled,
                    title,
                    class,
                    exe_name,
                    hidden_by_us: false,
                },
            ),
            ..self
        };
        if registered.knows(ws) {
            registered.set_tree(ws, registered.ws(ws).tree.inserted(id, area))
        } else {
            registered
        }
    }

    /// With a new window on the workspace that hosts it, focused.
    pub open spec fn managed(
        self,
        id: WindowId,
        title: String,
        class: String,
        exe_name: String,
    ) -> Outcome {
        if self.windows.contains_key(id) {
            (self, Ok(()))
        } else {
            let asked = World { desk: self.desk.asked(id), ..self };
            match asked.host_of(self.desk.answer()) {
                None => (asked, Err(WmError::NoHost)),
                Some(ws) => asked.say(Act::DisableTransitions(id)).adopted(
                    id,
                    title,
                    class,
                    exe_name,
                    ws,
                    model::nowhere(),
                ).focusing(Some(id)).retiled(ws),
            }
        }
    }

    /// With a new window on a given workspace. The focus stays where it is, and
    /// the window is hidden where the workspace is.
    pub open spec fn managed_on(
        self,
        id: WindowId,
        title: String,
        class: String,
        exe_name: String,
        ws: WorkspaceId,
    ) -> Outcome {
        if self.windows.contains_key(id) {
            (self, Ok(()))
        } else {
            let there = self.say(Act::DisableTransitions(id)).adopted(
                id,
                title,
                class,
                exe_name,
                ws,
                model::default_screen(),
            );
            if there.shown_on(ws) is None {
                (there.visit(id, Visit::Hide), Ok(()))
            } else {
                there.retiled(ws)
            }
        }
    }

    /// Without a window in its workspace.
    pub open spec fn detached(self, ws: WorkspaceId, id: WindowId) -> World {
        if self.knows(ws) {
            self.set_ws(ws, self.ws(ws).detached(id))
        } else {
            self
        }
    }

    /// Without a window. Where it had the focus, the window that its workspace's
    /// tree has the focus on gets it.
    pub open spec fn unmanaged(self, id: WindowId) -> Outcome {
        if !self.windows.contains_key(id) {
            (self, Ok(()))
        } else {
            let ws = self.windows[id].workspace;
            let gone = World { windows: self.windows.remove(id), ..self }.detached(ws, id);
            let next = if gone.focused_window == Some(id) {
                gone.tree_focus(ws)
            } else {
                gone.focused_window
            };
            World { focused_window: next, ..gone }.retiled(ws)
        }
    }

    /// Without these windows, one after the other.
    pub open spec fn unmanaged_each(self, ids: Seq<WindowId>) -> World
        decreases ids.len(),
    {
        if ids.len() == 0 {
            self
        } else {
            self.unmanaged_each(ids.drop_last()).unmanaged(ids.last()).0
        }
    }

    /// Whether a window is managed and takes part in its workspace.
    pub open spec fn takes_part(self, id: WindowId) -> bool {
        &&& self.windows.contains_key(id)
        &&& self.knows(self.windows[id].workspace)
        &&& self.ws(self.windows[id].workspace).has(id)
    }

    /// With a window out of the layout but still managed. Where it had the
    /// focus, the next window of the workspace is brought to the foreground.
    pub open spec fn soft_removed(self, id: WindowId) -> Outcome {
        if !self.takes_part(id) {
            (self, Ok(()))
        } else {
            let ws = self.windows[id].workspace;
            let out = self.detached(ws, id);
            let handed = if out.focused_window == Some(id) {
                out.raising(out.tree_focus(ws))
            } else {
                out
            };
            handed.retiled(ws)
        }
    }

    /// With a managed window back in the layout.
    pub open spec fn soft_restored(self, id: WindowId) -> Outcome {
        if !self.windows.contains_key(id) || !self.knows(self.windows[id].workspace) {
            (self, Ok(()))
        } else {
            let ws = self.windows[id].workspace;
            let back = if self.ws(ws).has(id) {
                self
            } else {
                self.set_tree(
                    ws,
                    self.ws(ws).tree.inserted(id, self.work_area_or(ws, model::nowhere())),
                )
            };
            back.retiled(ws)
        }
    }

    /// With a managed window focused that the desktop has put in the
    /// foreground, together with its monitor.
    pub open spec fn foregrounded(self, id: WindowId) -> World {
        if !self.windows.contains_key(id) {
            self
        } else {
            let ws = self.windows[id].workspace;
            let focused = self.focusing(Some(id));
            let there = match focused.shown_on(ws) {
                Some(m) => World { focused_monitor: Some(m), ..focused },
                None => focused,
            };
            if there.knows(ws) {
                there.set_tree(ws, there.ws(ws).tree.focused_on(id))
            } else {
                there
            }
        }
    }

    /// With the same layout mode on every workspace.
    pub open spec fn with_layout_mode(self, mode: LayoutMode) -> World {
        World {
            workspaces: Seq::new(
                self.workspaces.len(),
                |i: int|
                    WorkspaceModel {
                        tree: crate::tree::Layout { mode, ..self.workspaces[i].tree },
                        ..self.workspaces[i]
                    },
            ),
            ..self
        }
    }
}

} // verus!
