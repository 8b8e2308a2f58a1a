//! Windows come, go, hide and return.

use crate::desk::Effect;
use crate::ids::{WindowId, WorkspaceId};
use crate::model;
use crate::model::{Visit, WmError};
use crate::rect::Rect;
use crate::state::WindowManager;
use crate::window::{ManagedWindow, WindowMode};
use vstd::prelude::*;

verus! {

impl WindowManager {
    /// The first monitor whose bounds contain the point.
    fn monitor_at_point(&self, x: i64, y: i64) -> (r: Option<usize>)
        requires
            self.inv(),
        ensures
            match r {
                Some(i) => self@.is_first_at(i as int, x as int, y as int),
                None => forall|i: int| !self@.is_first_at(i, x as int, y as int),
            },
    {
        let mut i: usize = 0;
        while i < self.monitors.len()
            invariant
                i <= self.monitors@.len(),
                self.inv(),
                forall|j: int|
                    0 <= j < i ==> !(#[trigger] self@.monitors[j]).info.bounds.has_point(
                        x as int,
                        y as int,
                    ),
            decreases self.monitors@.len() - i,
        {
            let b = self.monitors[i].info.bounds;
            let right: i64 = b.x as i64 + b.w as i64;
            let bottom: i64 = b.y as i64 + b.h as i64;
            if (b.x as i64) <= x && x < right && (b.y as i64) <= y && y < bottom {
                return Some(i);
            }
            i = i + 1;
        }
        None
    }

    /// The first primary monitor.
    pub(crate) fn primary_index(&self) -> (r: Option<usize>)
        requires
            self.inv(),
        ensures
            match r {
                Some(i) => self@.is_first_primary(i as int) && self@.primary() == Some(
                    self@.monitors[i as int],
                ),
                None => self@.primary() is None,
            },
    {
        let mut i: usize = 0;
        while i < self.monitors.len()
            invariant
                i <= self.monitors@.len(),
                forall|j: int| 0 <= j < i ==> !(#[trigger] self@.monitors[j]).info.primary,
            decreases self.monitors@.len() - i,
        {
            if self.monitors[i].info.primary {
                proof {
                    assert(self@.is_first_primary(i as int));
                    let k = choose|k: int| self@.is_first_primary(k);
                    assert(self@.is_first_primary(k));
                    assert(k == i);
                }
                return Some(i);
            }
            i = i + 1;
        }
        proof {
            if exists|k: int| self@.is_first_primary(k) {
                let k = choose|k: int| self@.is_first_primary(k);
                assert(self@.is_first_primary(k));
            }
        }
        None
    }

    /// The workspace for a new window that is at `place`.
    fn host_of(&self, place: Option<Rect>) -> (r: Option<WorkspaceId>)
        requires
            self.inv(),
        ensures
            r == self@.host_of(place),
    {
        match place {
            Some(p) => {
                let x: i64 = p.x as i64 + (p.w / 2) as i64;
                let y: i64 = p.y as i64 + (p.h / 2) as i64;
                match self.monitor_at_point(x, y) {
                    Some(i) => {
                        proof {
                            let k = choose|k: int| self@.is_first_at(k, x as int, y as int);
                            assert(self@.is_first_at(k, x as int, y as int));
                            assert(k == i);
                        }
                        return Some(self.monitors[i].current_workspace);
                    },
                    None => {},
                }
            },
            None => {},
        }
        match self.focused_workspace_id() {
            Some(ws) => Some(ws),
            None => match self.primary_index() {
                Some(i) => Some(self.monitors[i].current_workspace),
                None => None,
            },
        }
    }

    /// Register a new window and put it into its workspace's tree.
    fn adopt(
        &mut self,
        id: WindowId,
        title: String,
        class: String,
        exe_name: String,
        ws: WorkspaceId,
        elsewhere: Rect,
    )
        requires
            old(self).inv(),
            elsewhere.valid(),
        ensures
            final(self).inv(),
            final(self)@ == old(self)@.adopted(id, title, class, exe_name, ws, elsewhere),
    {
        let area = match self.workspace_work_area(ws) {
            Some(area) => area,
            None => elsewhere,
        };
        self.windows.insert(
            ManagedWindow {
                id,
                workspace: ws,
                mode: WindowMode::Tiled,
                title,
                class,
                exe_name,
                hidden_by_us: false,
            },
        );
        self.insert_tile(ws, id, area);
    }

    /// Put a window into a workspace's tree.
    pub(crate) fn insert_tile(&mut self, ws: WorkspaceId, id: WindowId, area: Rect)
        requires
            old(self).inv(),
            area.valid(),
        ensures
            final(self).inv(),
            final(self)@ == (if old(self)@.knows(ws) {
                old(self)@.set_tree(ws, old(self)@.ws(ws).tree.inserted(id, area))
            } else {
                old(self)@
            }),
    {
        let ghost before = self@;
        match self.index_of(ws) {
            Some(i) => {
                assert(before.workspaces[i as int].tree.wf());
                proof {
                    model::lemma_tiles_can_inset(before.ws(ws).tree, area, 0);
                }
                self.workspaces[i].tree.insert(id, area);
                assert(self@.workspaces =~= before.set_tree(
                    ws,
                    before.ws(ws).tree.inserted(id, area),
                ).workspaces);
            },
            None => {},
        }
    }

    /// Take a window off a workspace.
    pub(crate) fn detach(&mut self, ws: WorkspaceId, id: WindowId)
        requires
            old(self).inv(),
        ensures
            final(self).inv(),
            final(self)@ == old(self)@.detached(ws, id),
    {
        let ghost before = self@;
        match self.index_of(ws) {
            Some(i) => {
                assert(before.workspaces[i as int].tree.wf());
                self.workspaces[i].detach(id);
                assert(self@.workspaces =~= before.detached(ws, id).workspaces);
            },
            None => {},
        }
    }

    /// Add a window that was not managed before.
    ///
    /// It joins the workspace on the monitor that it is on, which keeps windows
    /// where they are at startup; else the focused one, else the one on the
    /// primary monitor. It gets the focus.
    pub fn manage(
        &mut self,
        id: WindowId,
        title: String,
        class: String,
        exe_name: String,
    ) -> (r: Result<(), WmError>)
        requires
            old(self).inv(),
        ensures
            final(self).inv(),
            (final(self)@, r) == old(self)@.managed(id, title, class, exe_name),
    {
        if self.windows.contains_key(id) {
            return Ok(());
        }
        let place = self.desk.measure(id);
        let ws = match self.host_of(place) {
            Some(ws) => ws,
            None => {
                return Err(WmError::NoHost);
            },
        };
        self.desk.say(Effect::DisableTransitions(id));
        self.adopt(id, title, class, exe_name, ws, Rect { x: 0, y: 0, w: 0, h: 0 });
        self.focus_window(Some(id));
        self.retile_workspace(ws)
    }

    /// Add a window to a given workspace.
    ///
    /// It is there from the first retiling on, and does not take the focus. On a
    /// workspace that no monitor shows it is hidden.
    pub fn manage_routed(
        &mut self,
        id: WindowId,
        title: String,
        class: String,
        exe_name: String,
        target: WorkspaceId,
    ) -> (r: Result<(), WmError>)
        requires
            old(self).inv(),
        ensures
            final(self).inv(),
            (final(self)@, r) == old(self)@.managed_on(id, title, class, exe_name, target),
    {
        if self.windows.contains_key(id) {
            return Ok(());
        }
        self.desk.say(Effect::DisableTransitions(id));
        self.adopt(id, title, class, exe_name, target, Rect { x: 0, y: 0, w: 1920, h: 1080 });
        if self.monitor_of_workspace(target).is_none() {
            self.visit(id, Visit::Hide);
            Ok(())
        } else {
            self.retile_workspace(target)
        }
    }

    /// Forget a window and retile its workspace.
    pub fn unmanage(&mut self, id: WindowId) -> (r: Result<(), WmError>)
        requires
            old(self).inv(),
        ensures
            final(self).inv(),
            (final(self)@, r) == old(self)@.unmanaged(id),
    {
        let ghost before = self@;
        let ws = match self.windows.remove(id) {
            Some(mw) => mw.workspace,
            None => {
                assert(self@.windows =~= before.windows);
                return Ok(());
            },
        };
        self.detach(ws, id);
        if self.focused_window == Some(id) {
            self.focused_window = self.tree_focus(ws);
        }
        self.retile_workspace(ws)
    }

    /// Forget windows that have died without a word.
    pub fn reap(&mut self, dead: &Vec<WindowId>)
        requires
            old(self).inv(),
        ensures
            final(self).inv(),
            final(self)@ == old(self)@.unmanaged_each(dead@),
    {
        let ghost before = self@;
        let mut i: usize = 0;
        assert(dead@.take(0) =~= Seq::<WindowId>::empty());
        while i < dead.len()
            invariant
                i <= dead@.len(),
                self.inv(),
                self@ == before.unmanaged_each(dead@.take(i as int)),
            decreases dead@.len() - i,
        {
            assert(dead@.take(i + 1).drop_last() =~= dead@.take(i as int));
            let _ = self.unmanage(dead[i]);
            i = i + 1;
        }
        assert(dead@.take(i as int) =~= dead@);
    }

    /// Whether a window of the workspace at `i` is tiled or floats there.
    fn takes_part(&self, i: usize, id: WindowId) -> (r: bool)
        requires
            i < self.workspaces@.len(),
        ensures
            r == self.workspaces@[i as int]@.has(id),
    {
        self.workspaces[i].tree.contains(&id) || self.workspaces[i].floating_at(id).is_some()
    }

    /// Take a window out of the layout, but keep it managed, when its program has
    /// hidden, cloaked or minimised it. Where it had the focus, the next window
    /// of the workspace gets it and comes to the foreground.
    pub fn soft_remove(&mut self, id: WindowId) -> (r: Result<(), WmError>)
        requires
            old(self).inv(),
        ensures
            final(self).inv(),
            (final(self)@, r) == old(self)@.soft_removed(id),
    {
        let ws = match self.workspace_of_window(id) {
            Some(ws) => ws,
            None => {
                return Ok(());
            },
        };
        match self.index_of(ws) {
            Some(i) => {
                if !self.takes_part(i, id) {
                    return Ok(());
                }
            },
            None => {
                return Ok(());
            },
        }
        self.detach(ws, id);
        if self.focused_window == Some(id) {
            let next = self.tree_focus(ws);
            self.raise_window(next);
        }
        self.retile_workspace(ws)
    }

    /// Put a managed window back into the layout when it can be seen again.
    pub fn soft_restore(&mut self, id: WindowId) -> (r: Result<(), WmError>)
        requires
            old(self).inv(),
        ensures
            final(self).inv(),
            (final(self)@, r) == old(self)@.soft_restored(id),
    {
        let ws = match self.workspace_of_window(id) {
            Some(ws) => ws,
            None => {
                return Ok(());
            },
        };
        match self.index_of(ws) {
            Some(i) => {
                if !self.takes_part(i, id) {
                    let area = match self.workspace_work_area(ws) {
                        Some(area) => area,
                        None => Rect { x: 0, y: 0, w: 0, h: 0 },
                    };
                    self.insert_tile(ws, id, area);
                }
            },
            None => {
                return Ok(());
            },
        }
        self.retile_workspace(ws)
    }

    /// Follow the desktop's foreground window. One that is not managed is
    /// ignored.
    pub fn set_foreground(&mut self, id: WindowId)
        requires
            old(self).inv(),
        ensures
            final(self).inv(),
            final(self)@ == old(self)@.foregrounded(id),
    {
        let ws = match self.workspace_of_window(id) {
            Some(ws) => ws,
            None => {
                return;
            },
        };
        self.focus_window(Some(id));
        match self.monitor_of_workspace(ws) {
            Some(m) => {
                self.focused_monitor = Some(m);
            },
            None => {},
        }
        let ghost before = self@;
        match self.index_of(ws) {
            Some(i) => {
                assert(before.workspaces[i as int].tree.wf());
                self.workspaces[i].tree.focus(id);
                assert(self@.workspaces =~= before.set_tree(
                    ws,
                    before.ws(ws).tree.focused_on(id),
                ).workspaces);
            },
            None => {},
        }
    }
}

} // verus!
