//! Putting windows where the layout has them.

use crate::desk::Effect;
use crate::ids::{WindowId, WorkspaceId};
use crate::model;
use crate::model::{Visit, WmError, World};
use crate::monocle;
use crate::rect::Rect;
use crate::state::WindowManager;
use crate::tree;
use crate::tree::LayoutMode;
use vstd::prelude::*;

verus! {

/// A batch of window positions, the windows that it makes visible, and the
/// stack members that it covers.
struct Plan {
    moves: Vec<(WindowId, Rect)>,
    visible: Vec<WindowId>,
    hidden: Vec<WindowId>,
}

impl WindowManager {
    /// Where the windows of the workspace at `i` go.
    fn plan(&self, i: usize, area: Rect) -> (r: Plan)
        requires
            self.inv(),
            i < self.workspaces@.len(),
            model::is_work_area(area, self.gaps.inner as int),
        ensures
            ({
                let plan = self@.plan(WorkspaceId((i + 1) as u32), area);
                &&& r.moves@ == plan.moves
                &&& r.visible@ == plan.visible
                &&& r.hidden@ == plan.hidden
            }),
    {
        let ghost m = self.workspaces@[i as int]@;
        let ghost id = WorkspaceId((i + 1) as u32);
        assert(self@.workspaces[i as int].id.0 == i + 1);
        assert(self@.ws(id) == m);
        let ws = &self.workspaces[i];
        if ws.monocle {
            let all = ws.all_windows();
            let mut moves: Vec<(WindowId, Rect)> = Vec::new();
            let mut k: usize = 0;
            while k < all.len()
                invariant
                    k <= all@.len(),
                    moves@.len() == k,
                    forall|j: int| 0 <= j < k ==> #[trigger] moves@[j] == (all@[j], area),
                decreases all@.len() - k,
            {
                moves.push((all[k], area));
                k = k + 1;
            }
            assert(moves@ =~= self@.plan(id, area).moves);
            Plan { moves, visible: all, hidden: Vec::new() }
        } else {
            proof {
                model::lemma_tiles_can_inset(m.tree, area, self.gaps.inner as int);
            }
            let mut moves = ws.tree.compute(area, self.gaps.inner);
            let ghost tiles = moves@;
            let mut visible: Vec<WindowId> = Vec::new();
            let mut k: usize = 0;
            while k < moves.len()
                invariant
                    k <= moves@.len(),
                    moves@ == tiles,
                    visible@.len() == k,
                    forall|j: int| 0 <= j < k ==> #[trigger] visible@[j] == tiles[j].0,
                decreases moves@.len() - k,
            {
                visible.push(moves[k].0);
                k = k + 1;
            }
            let hidden = ws.tree.hidden_in_stacks();
            let mut k: usize = 0;
            while k < ws.floating.len()
                invariant
                    k <= ws.floating@.len(),
                    area.valid(),
                    moves@.len() == tiles.len() + k,
                    forall|j: int| 0 <= j < tiles.len() ==> moves@[j] == tiles[j],
                    forall|j: int|
                        0 <= j < k ==> moves@[tiles.len() + j] == (
                            (#[trigger] ws.floating@[j]).0,
                            ws.floating@[j].1.clamp_inside_spec(area),
                        ),
                decreases ws.floating@.len() - k,
            {
                let (w, r) = ws.floating[k];
                moves.push((w, r.clamp_inside(area)));
                k = k + 1;
            }
            assert(moves@ =~= self@.plan(id, area).moves);
            assert(visible@ =~= self@.plan(id, area).visible);
            Plan { moves, visible, hidden }
        }
    }

    /// Recompute the positions of a workspace's windows and hand them to the
    /// desktop in one batch. A workspace that no monitor shows has nothing to
    /// hand over.
    pub fn retile_workspace(&mut self, ws: WorkspaceId) -> (r: Result<(), WmError>)
        requires
            old(self).inv(),
        ensures
            final(self).inv(),
            (final(self)@, r) == old(self)@.retiled(ws),
    {
        let area = match self.workspace_work_area(ws) {
            Some(area) => area,
            None => {
                return Ok(());
            },
        };
        let i: usize = match self.index_of(ws) {
            Some(i) => i,
            None => {
                return Ok(());
            },
        };
        let plan = self.plan(i, area);
        assert(WorkspaceId((i + 1) as u32) == ws);
        self.visit_all(&plan.visible, Visit::Reveal);
        let ok = self.desk.place(plan.moves);
        if !ok {
            return Err(WmError::NotPlaced);
        }
        self.visit_all(&plan.hidden, Visit::Conceal);
        match self.focused_window {
            Some(f) => match self.windows.get(f) {
                Some(mw) => {
                    if mw.workspace == ws {
                        self.desk.say(Effect::Reframe(f));
                    }
                },
                None => {},
            },
            None => {},
        }
        Ok(())
    }

    /// Retile every workspace, whatever the desktop accepts.
    pub fn retile_all(&mut self)
        requires
            old(self).inv(),
        ensures
            final(self).inv(),
            final(self)@ == old(self)@.retiled_each(
                Seq::new(
                    old(self)@.workspaces.len(),
                    |i: int| WorkspaceId((i + 1) as u32),
                ),
            ),
    {
        let mut all: Vec<WorkspaceId> = Vec::new();
        let count: usize = self.workspaces.len();
        let mut i: usize = 0;
        while i < count
            invariant
                i <= count,
                count <= u32::MAX,
                all@.len() == i,
                forall|j: int| 0 <= j < i ==> #[trigger] all@[j] == WorkspaceId((j + 1) as u32),
            decreases count - i,
        {
            all.push(WorkspaceId((i + 1) as u32));
            i = i + 1;
        }
        assert(all@ =~= Seq::new(self@.workspaces.len(), |i: int| WorkspaceId((i + 1) as u32)));
        self.retile_each(&all);
    }

    /// Retile workspaces one after the other, whatever the desktop accepts.
    pub(crate) fn retile_each(&mut self, all: &Vec<WorkspaceId>)
        requires
            old(self).inv(),
        ensures
            final(self).inv(),
            final(self)@ == old(self)@.retiled_each(all@),
    {
        let ghost before = self@;
        let mut i: usize = 0;
        assert(all@.take(0) =~= Seq::<WorkspaceId>::empty());
        while i < all.len()
            invariant
                i <= all@.len(),
                self.inv(),
                self@ == before.retiled_each(all@.take(i as int)),
            decreases all@.len() - i,
        {
            assert(all@.take(i + 1).drop_last() =~= all@.take(i as int));
            let _ = self.retile_workspace(all[i]);
            i = i + 1;
        }
        assert(all@.take(i as int) =~= all@);
    }

    /// Use one layout mode on every workspace. The tiles stay as they are.
    pub fn apply_layout_mode_all(&mut self, mode: LayoutMode)
        requires
            old(self).inv(),
        ensures
            final(self).inv(),
            final(self)@ == old(self)@.with_layout_mode(mode),
    {
        let ghost before = self@;
        let count: usize = self.workspaces.len();
        let mut i: usize = 0;
        while i < count
            invariant
                i <= count,
                count == before.workspaces.len(),
                before.sound(),
                self.inv(),
                self@.workspaces.len() == count,
                self@ == (World { workspaces: self@.workspaces, ..before }),
                forall|j: int|
                    0 <= j < i ==> (#[trigger] self@.workspaces[j]) == before.with_layout_mode(
                        mode,
                    ).workspaces[j],
                forall|j: int|
                    i <= j < count ==> (#[trigger] self@.workspaces[j]) == before.workspaces[j],
            decreases count - i,
        {
            let ghost now = self@;
            assert(now.workspaces[i as int] == before.workspaces[i as int]);
            self.workspaces[i].tree.set_layout_mode(mode);
            proof {
                assert(self@.workspaces =~= now.workspaces.update(
                    i as int,
                    before.with_layout_mode(mode).workspaces[i as int],
                ));
            }
            i = i + 1;
        }
        assert(self@.workspaces =~= before.with_layout_mode(mode).workspaces);
    }

    /// Show every window again that was hidden, and hide the focus frame.
    pub fn restore_all_managed_windows(&mut self)
        requires
            old(self).inv(),
        ensures
            final(self).inv(),
            exists|order: Seq<WindowId>| #[trigger]
                model::lists(order, old(self)@.windows) && final(self)@ == old(self)@.say(
                    crate::desk::Act::Unframe,
                ).visit_all(order, Visit::Reveal),
    {
        let ghost before = self@;
        self.desk.say(Effect::Unframe);
        let mut order: Vec<WindowId> = Vec::new();
        let mut i: usize = 0;
        while i < self.windows.items.len()
            invariant
                i <= self.windows.items@.len(),
                self.inv(),
                order@.len() == i,
                forall|j: int| 0 <= j < i ==> #[trigger] order@[j] == self.windows.items@[j].id,
            decreases self.windows.items@.len() - i,
        {
            order.push(self.windows.items[i].id);
            i = i + 1;
        }
        proof {
            self.windows.lemma_lists(order@);
        }
        self.visit_all(&order, Visit::Reveal);
        assert(model::lists(order@, before.windows));
    }
}

} // verus!
