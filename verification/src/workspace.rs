//! Workspaces.
//!
//! A workspace is visible on one monitor, or hidden in the pool. While it is
//! hidden all its windows are. It remembers the monitor that it was last put
//! on, so that it can return there when the monitor was gone and comes back.

use crate::bsp::BspTree;
use crate::ids::{MonitorId, WindowId, WorkspaceId};
use crate::rect::Rect;
use crate::tree::Layout;
use vstd::prelude::*;

verus! {

pub struct Workspace {
    pub id: WorkspaceId,
    pub tree: BspTree<WindowId>,
    /// Floating windows and where they are.
    pub floating: Vec<(WindowId, Rect)>,
    /// The monitor that shows this workspace; `None` in the pool.
    pub active_monitor: Option<MonitorId>,
    /// The monitor that this workspace was put on last. A monitor that only
    /// takes the workspace in while that one is gone does not count.
    pub last_seen_monitor: Option<String>,
    pub monocle: bool,
}

/// A workspace in the model.
pub struct WorkspaceModel {
    pub id: WorkspaceId,
    pub tree: Layout<WindowId>,
    pub floating: Seq<(WindowId, Rect)>,
    pub active_monitor: Option<MonitorId>,
    pub last_seen_monitor: Option<String>,
    pub monocle: bool,
}

impl WorkspaceModel {
    /// Every window of the workspace: the tiled ones, then the floating ones.
    pub open spec fn all_windows(self) -> Seq<WindowId> {
        self.tree.windows() + self.floating.map_values(|p: (WindowId, Rect)| p.0)
    }

    /// Whether `id` floats on this workspace.
    pub open spec fn floats(self, id: WindowId) -> bool {
        exists|i: int| 0 <= i < self.floating.len() && (#[trigger] self.floating[i]).0 == id
    }

    /// Whether `id` is on this workspace.
    pub open spec fn has(self, id: WindowId) -> bool {
        self.tree.holds(id) || self.floats(id)
    }

    /// Without `id`, tiled or floating.
    pub open spec fn detached(self, id: WindowId) -> WorkspaceModel {
        WorkspaceModel {
            tree: self.tree.removed(id),
            floating: unfloated(self.floating, id),
            ..self
        }
    }
}

/// The floating windows other than `id`.
pub open spec fn unfloated(floating: Seq<(WindowId, Rect)>, id: WindowId) -> Seq<(WindowId, Rect)> {
    floating.filter(|p: (WindowId, Rect)| p.0 != id)
}

impl View for Workspace {
    type V = WorkspaceModel;

    open spec fn view(&self) -> WorkspaceModel {
        WorkspaceModel {
            id: self.id,
            tree: self.tree@,
            floating: self.floating@,
            active_monitor: self.active_monitor,
            last_seen_monitor: self.last_seen_monitor,
            monocle: self.monocle,
        }
    }
}

/// A workspace without windows, in the pool.
pub open spec fn empty_workspace(id: WorkspaceId) -> WorkspaceModel {
    WorkspaceModel {
        id,
        tree: Layout { tree: None, focus: None, mode: crate::tree::LayoutMode::Dwindle },
        floating: Seq::empty(),
        active_monitor: None,
        last_seen_monitor: None,
        monocle: false,
    }
}

impl Workspace {
    pub fn new(id: WorkspaceId) -> (r: Self)
        ensures
            r@ == empty_workspace(id),
    {
        Workspace {
            id,
            tree: BspTree::new(),
            floating: Vec::new(),
            active_monitor: None,
            last_seen_monitor: None,
            monocle: false,
        }
    }

    /// The same workspace once more.
    pub fn copied(&self) -> (r: Self)
        ensures
            r@ == self@,
    {
        let mut floating: Vec<(WindowId, Rect)> = Vec::new();
        let mut i: usize = 0;
        while i < self.floating.len()
            invariant
                i <= self.floating@.len(),
                floating@.len() == i,
                forall|k: int| 0 <= k < i ==> #[trigger] floating@[k] == self.floating@[k],
            decreases self.floating@.len() - i,
        {
            floating.push(self.floating[i]);
            i = i + 1;
        }
        assert(floating@ =~= self.floating@);
        Workspace {
            id: self.id,
            tree: self.tree.copied(),
            floating,
            active_monitor: match &self.active_monitor {
                Some(m) => Some(m.copied()),
                None => None,
            },
            last_seen_monitor: match &self.last_seen_monitor {
                Some(m) => Some(m.clone()),
                None => None,
            },
            monocle: self.monocle,
        }
    }

    pub fn is_visible(&self) -> (r: bool)
        ensures
            r == (self@.active_monitor is Some),
    {
        self.active_monitor.is_some()
    }

    /// Every window of the workspace, hidden stack members included.
    pub fn all_windows(&self) -> (r: Vec<WindowId>)
        ensures
            r@ == self@.all_windows(),
    {
        let mut out = self.tree.windows();
        let ghost tiled = out@;
        let mut i: usize = 0;
        while i < self.floating.len()
            invariant
                i <= self.floating@.len(),
                out@.len() == tiled.len() + i,
                forall|j: int| 0 <= j < tiled.len() ==> out@[j] == tiled[j],
                forall|j: int| 0 <= j < i ==> out@[tiled.len() + j] == (#[trigger] self.floating@[j]).0,
            decreases self.floating@.len() - i,
        {
            out.push(self.floating[i].0);
            i = i + 1;
        }
        assert(out@ =~= self@.all_windows());
        out
    }

    /// The position of `id` among the floating windows.
    pub fn floating_at(&self, id: WindowId) -> (r: Option<usize>)
        ensures
            match r {
                Some(i) => i < self@.floating.len() && self@.floating[i as int].0 == id && (
                forall|j: int| 0 <= j < i ==> (#[trigger] self@.floating[j]).0 != id),
                None => !self@.floats(id),
            },
    {
        let mut i: usize = 0;
        while i < self.floating.len()
            invariant
                i <= self.floating@.len(),
                forall|j: int| 0 <= j < i ==> (#[trigger] self.floating@[j]).0 != id,
            decreases self.floating@.len() - i,
        {
            if self.floating[i].0 == id {
                return Some(i);
            }
            i = i + 1;
        }
        None
    }

    /// Take `id` off the list of floating windows.
    pub fn unfloat(&mut self, id: WindowId)
        ensures
            final(self)@ == (WorkspaceModel {
                floating: unfloated(old(self)@.floating, id),
                ..old(self)@
            }),
    {
        let ghost all = self.floating@;
        let mut rest: Vec<(WindowId, Rect)> = Vec::new();
        let mut i: usize = 0;
        assert(unfloated(all.take(0), id) =~= Seq::<(WindowId, Rect)>::empty()) by {
            reveal(Seq::filter);
        }
        while i < self.floating.len()
            invariant
                i <= all.len(),
                self.floating@ == all,
                rest@ == unfloated(all.take(i as int), id),
                self@ == old(self)@,
            decreases all.len() - i,
        {
            proof {
                assert(all.take(i + 1).drop_last() =~= all.take(i as int));
                assert(all.take(i + 1).last() == all[i as int]);
                reveal(Seq::filter);
            }
            if self.floating[i].0 != id {
                rest.push(self.floating[i]);
            }
            i = i + 1;
        }
        assert(all.take(i as int) =~= all);
        self.floating = rest;
    }

    /// Take `id` off this workspace, tiled or floating.
    pub fn detach(&mut self, id: WindowId)
        requires
            old(self)@.tree.wf(),
        ensures
            final(self)@ == old(self)@.detached(id),
            final(self)@.tree.wf(),
    {
        self.tree.remove(id);
        self.unfloat(id);
    }
}

} // verus!
