//! Workspaces move between monitors, and windows between workspaces.

use crate::ids::{MonitorId, WorkspaceId};
use crate::model::{AlreadyVisibleBehaviour, Visit, WmError};
use crate::monitor::find_monitor;
use crate::rect::Rect;
use crate::state::WindowManager;
use vstd::prelude::*;

verus! {

impl WindowManager {
    /// Bring a workspace to the focused monitor.
    ///
    /// Where another monitor shows it already, that monitor gets the focus or
    /// the two monitors exchange their workspaces, as configured.
    pub fn switch_workspace(&mut self, target: WorkspaceId) -> (r: Result<(), WmError>)
        requires
            old(self).inv(),
        ensures
            final(self).inv(),
            (final(self)@, r) == old(self)@.switched(target),
    {
        if self.index_of(target).is_none() {
            return Err(WmError::NoSuchWorkspace(target));
        }
        let here = match &self.focused_monitor {
            Some(id) => id.copied(),
            None => {
                return Err(WmError::NoFocusedMonitor);
            },
        };
        match find_monitor(&self.monitors, &here) {
            Some(i) => {
                if self.monitors[i].current_workspace == target {
                    return Ok(());
                }
            },
            None => {
                return Err(WmError::FocusedMonitorMissing);
            },
        }
        match self.monitor_of_workspace(target) {
            Some(there) => {
                if there.same(&here) {
                    self.swap_workspace_onto_monitor(&here, target)
                } else {
                    match self.on_already_visible {
                        AlreadyVisibleBehaviour::FocusOtherMonitor => {
                            self.focused_monitor = Some(there);
                            match self.tree_focus(target) {
                                Some(w) => {
                                    self.raise_window(Some(w));
                                },
                                None => {},
                            }
                            Ok(())
                        },
                        AlreadyVisibleBehaviour::Swap => self.swap_workspaces_between_monitors(
                            here,
                            there,
                            target,
                        ),
                    }
                }
            },
            None => self.swap_workspace_onto_monitor(&here, target),
        }
    }

    /// Bring a workspace to a given monitor, which gets the focus.
    pub fn switch_workspace_on_monitor(
        &mut self,
        target: WorkspaceId,
        clicked_mid: MonitorId,
    ) -> (r: Result<(), WmError>)
        requires
            old(self).inv(),
        ensures
            final(self).inv(),
            (final(self)@, r) == old(self)@.switched_on(target, clicked_mid),
    {
        if find_monitor(&self.monitors, &clicked_mid).is_none() {
            return Err(WmError::NoSuchMonitor(clicked_mid));
        }
        self.focused_monitor = Some(clicked_mid);
        self.switch_workspace(target)
    }

    /// Put a workspace on a monitor in place of the one that it shows.
    pub(crate) fn swap_workspace_onto_monitor(
        &mut self,
        mid: &MonitorId,
        incoming: WorkspaceId,
    ) -> (r: Result<(), WmError>)
        requires
            old(self).inv(),
        ensures
            final(self).inv(),
            (final(self)@, r) == old(self)@.swapped_onto(*mid, incoming),
    {
        let outgoing = match find_monitor(&self.monitors, mid) {
            Some(i) => self.monitors[i].current_workspace,
            None => {
                return Err(WmError::MonitorMissing);
            },
        };
        let leaving = self.windows_on(outgoing);
        self.visit_all(&leaving, Visit::Hide);
        self.unbind_workspace(outgoing);
        let arriving = self.windows_on(incoming);
        self.bind_workspace_to_monitor(incoming, mid);
        self.visit_all(&arriving, Visit::Show);
        self.set_current(mid, incoming);
        match self.retile_workspace(incoming) {
            Ok(()) => {},
            Err(e) => {
                return Err(e);
            },
        }
        let next = self.tree_focus(incoming);
        self.raise_window(next);
        Ok(())
    }

    /// Exchange the workspaces of two monitors.
    fn swap_workspaces_between_monitors(
        &mut self,
        focused_mid: MonitorId,
        other_mid: MonitorId,
        target: WorkspaceId,
    ) -> (r: Result<(), WmError>)
        requires
            old(self).inv(),
        ensures
            final(self).inv(),
            (final(self)@, r) == old(self)@.exchanged(focused_mid, other_mid, target),
    {
        let own = match find_monitor(&self.monitors, &focused_mid) {
            Some(i) => self.monitors[i].current_workspace,
            None => {
                return Err(WmError::FocusedMonitorMissing);
            },
        };
        self.bind_workspace_to_monitor(own, &other_mid);
        self.bind_workspace_to_monitor(target, &focused_mid);
        self.set_current(&focused_mid, target);
        self.set_current(&other_mid, own);
        match self.retile_workspace(own) {
            Ok(()) => {},
            Err(e) => {
                return Err(e);
            },
        }
        match self.retile_workspace(target) {
            Ok(()) => {},
            Err(e) => {
                return Err(e);
            },
        }
        let next = self.tree_focus(target);
        self.raise_window(next);
        Ok(())
    }

    /// Move the focused window to another workspace and follow it there. A
    /// hidden workspace comes to the focused monitor; for one that is visible,
    /// its monitor gets the focus.
    pub fn move_focused_to_workspace(&mut self, target: WorkspaceId) -> (r: Result<(), WmError>)
        requires
            old(self).inv(),
        ensures
            final(self).inv(),
            (final(self)@, r) == old(self)@.sent_to(target),
    {
        let id = match self.focused_window {
            Some(id) => id,
            None => {
                return Ok(());
            },
        };
        let from = match self.workspace_of_window(id) {
            Some(from) => from,
            None => {
                return Ok(());
            },
        };
        if from == target {
            return Ok(());
        }
        if self.index_of(target).is_none() {
            return Err(WmError::NoSuchWorkspace(target));
        }
        self.detach(from, id);
        let area = match self.workspace_work_area(target) {
            Some(area) => area,
            None => Rect { x: 0, y: 0, w: 1920, h: 1080 },
        };
        self.insert_tile(target, id, area);
        self.windows.set_workspace(id, target);
        match self.retile_workspace(from) {
            Ok(()) => {},
            Err(e) => {
                return Err(e);
            },
        }
        match self.monitor_of_workspace(target) {
            None => {
                let here = match &self.focused_monitor {
                    Some(id) => id.copied(),
                    None => {
                        return Err(WmError::NoFocusedMonitor);
                    },
                };
                self.swap_workspace_onto_monitor(&here, target)
            },
            Some(there) => {
                self.visit(id, Visit::Show);
                self.focused_monitor = Some(there);
                match self.retile_workspace(target) {
                    Ok(()) => {},
                    Err(e) => {
                        return Err(e);
                    },
                }
                self.raise_window(Some(id));
                Ok(())
            },
        }
    }
}

} // verus!
