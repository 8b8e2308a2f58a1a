//! Which windows are hidden.
//!
//! A workspace in the pool has all its windows hidden. On a workspace that a
//! monitor shows, the floating windows and the visible tiles are not hidden.

use crate::desk::Act;
use crate::ids::{WindowId, WorkspaceId};
use crate::model;
use crate::model::commands;
use crate::model::laws;
use crate::model::{Visit, World};
use crate::rect::{Direction, Rect};
use crate::tree;
use crate::tree::{Layout, LayoutMode};
use crate::workspace::WorkspaceModel;
use vstd::prelude::*;

verus! {

/// Whether a window floats on a workspace or is a visible tile of it.
pub open spec fn in_view(m: WorkspaceModel, id: WindowId) -> bool {
    m.floats(id) || (m.tree.tree is Some && m.tree.tree->0.shows(id))
}

impl World {
    /// Whether the windows of the workspace at `i` are hidden as they have to be:
    /// all of them in the pool; elsewhere neither a floating one nor a visible
    /// tile.
    pub open spec fn veiled_at(self, i: int) -> bool {
        if self.workspaces[i].active_monitor is None {
            forall|id: WindowId| #[trigger]
                self.workspaces[i].has(id) ==> self.windows[id].hidden_by_us
        } else {
            forall|id: WindowId| #[trigger]
                in_view(self.workspaces[i], id) ==> !self.windows[id].hidden_by_us
        }
    }

    /// Whether the windows of every workspace are hidden as they have to be.
    pub open spec fn veiled(self) -> bool {
        forall|i: int| 0 <= i < self.workspaces.len() ==> #[trigger] self.veiled_at(i)
    }

    /// Whether the windows of the workspace at `i` are hidden as they have to be
    /// once it has been retiled.
    pub open spec fn ready_at(self, i: int) -> bool {
        if self.workspaces[i].active_monitor is None {
            forall|id: WindowId| #[trigger]
                self.workspaces[i].has(id) ==> self.windows[id].hidden_by_us
        } else {
            forall|id: WindowId| #[trigger]
                self.workspaces[i].floats(id) ==> !self.windows[id].hidden_by_us
        }
    }
}

// ---- visits -----------------------------------------------------------------

/// Which notes a visit leaves.
pub proof fn lemma_visits_flag(w: World, ids: Seq<WindowId>, how: Visit, id: WindowId)
    requires
        w.windows.contains_key(id),
    ensures
        w.visit_all(ids, how).windows.contains_key(id),
        w.visit_all(ids, how).windows[id].hidden_by_us == (if ids.contains(id) {
            how is Hide || how is Conceal
        } else {
            w.windows[id].hidden_by_us
        }),
    decreases ids.len(),
{
    if ids.len() > 0 {
        let rest = ids.drop_last();
        lemma_visits_flag(w, rest, how, id);
        if ids.last() == id {
            assert(ids[ids.len() - 1] == id);
        } else if ids.contains(id) {
            let k = ids.index_of(id);
            assert(rest[k] == id);
        }
        if rest.contains(id) {
            let k = rest.index_of(id);
            assert(ids[k] == id);
        }
    }
}

/// The list of a workspace's windows has each of them.
pub proof fn lemma_all_windows(m: WorkspaceModel, id: WindowId)
    requires
        m.tree.wf(),
    ensures
        m.all_windows().contains(id) <==> m.has(id),
{
    let floating = m.floating.map_values(|p: (WindowId, Rect)| p.0);
    let tiled = m.tree.windows();
    let all = m.all_windows();
    if let Some(n) = m.tree.tree {
        tree::law_windows_are_tiles_and_hidden(n, model::nowhere());
        assert(n.windows().contains(id) <==> n.holds(id));
    }
    assert(tiled.contains(id) <==> m.tree.holds(id));
    if all.contains(id) {
        let k = all.index_of(id);
        if k < tiled.len() {
            assert(tiled[k] == id);
        } else {
            assert(m.floating[k - tiled.len()].0 == id);
        }
    }
    if tiled.contains(id) {
        let k = tiled.index_of(id);
        assert(all[k] == id);
    }
    if m.floats(id) {
        let k = choose|k: int| 0 <= k < m.floating.len() && (#[trigger] m.floating[k]).0 == id;
        assert(floating[k] == id);
        assert(all[tiled.len() + k] == id);
    }
}

/// The windows of one workspace and those of another are apart.
pub proof fn lemma_apart(w: World, i: int, j: int, id: WindowId)
    requires
        w.windows_linked(),
        0 <= i < w.workspaces.len(),
        0 <= j < w.workspaces.len(),
        i != j,
        w.workspaces[i].has(id),
    ensures
        !w.workspaces[j].has(id),
        w.windows.contains_key(id),
{
    assert(w.windows[id].workspace.0 == i + 1);
    if w.workspaces[j].has(id) {
        assert(w.windows[id].workspace.0 == j + 1);
    }
}

/// What is in view is there.
pub proof fn lemma_in_view(m: WorkspaceModel, id: WindowId)
    requires
        m.tree.wf(),
        in_view(m, id),
    ensures
        m.has(id),
{
    if let Some(n) = m.tree.tree {
        tree::lemma_shows_holds(n);
    }
}

/// After all windows of a workspace were visited, and where nothing else is
/// visited, the other workspaces keep their notes.
pub proof fn lemma_visited_workspace(w: World, ws: WorkspaceId, how: Visit, i: int, id: WindowId)
    requires
        w.windows_linked(),
        w.knows(ws),
        w.ws(ws).tree.wf(),
        0 <= i < w.workspaces.len(),
        w.workspaces[i].has(id),
    ensures
        w.visit_all(w.windows_on(ws), how).windows[id].hidden_by_us == (if i == ws.0 - 1 {
            how is Hide || how is Conceal
        } else {
            w.windows[id].hidden_by_us
        }),
{
    assert(w.windows.contains_key(id));
    lemma_visits_flag(w, w.windows_on(ws), how, id);
    lemma_all_windows(w.ws(ws), id);
    if i != ws.0 - 1 {
        lemma_apart(w, i, ws.0 - 1, id);
    }
}

// ---- retiling ---------------------------------------------------------------

/// Retiling a workspace shows its visible tiles, and leaves the other workspaces
/// alone.
#[verifier::spinoff_prover]
pub proof fn lemma_retiled_at(w: World, ws: WorkspaceId, i: int)
    requires
        w.retiled(ws).0.wf(),
        0 <= i < w.workspaces.len(),
        if i == ws.0 - 1 {
            w.ready_at(i)
        } else {
            w.veiled_at(i)
        },
    ensures
        w.retiled(ws).0.veiled_at(i),
{
    let after = w.retiled(ws).0;
    laws::law_retile_only_notes(w, ws);
    assert(after.only_notes(w)) by {
        assert forall|id: WindowId| #[trigger] w.windows.contains_key(id) implies w.windows[id]
            == (crate::window::ManagedWindow {
            hidden_by_us: w.windows[id].hidden_by_us,
            ..after.windows[id]
        }) by {
            assert(after.windows.contains_key(id));
        }
    }
    laws::lemma_notes_hold(after, w);
    let m = w.workspaces[i];
    assert(m.tree.wf() && laws::places_once(m));
    if w.work_area(ws) is Some {
        let area = w.work_area(ws)->0;
        let k = ws.0 - 1;
        let plan = w.plan(ws, area);
        let shown = w.visit_all(plan.visible, Visit::Reveal);
        let placed = World { desk: shown.desk.placed(plan.moves), ..shown };
        let covered = placed.visit_all(plan.hidden, Visit::Conceal);
        assert forall|id: WindowId| m.has(id) && (i == k ==> in_view(m, id)) implies (
        #[trigger] after.windows[id]).hidden_by_us == (if i == k && (m.monocle
            || !m.floats(id)) {
            false
        } else {
            w.windows[id].hidden_by_us
        }) by {
            assert(w.windows.contains_key(id));
            lemma_visits_flag(w, plan.visible, Visit::Reveal, id);
            lemma_visits_flag(placed, plan.hidden, Visit::Conceal, id);
            lemma_plan(w, ws, area, id);
            if i != k {
                lemma_apart(w, i, k, id);
            }
        }
        if m.active_monitor is None {
            assert(i != k);
        } else {
            assert forall|id: WindowId| #[trigger] in_view(
                after.workspaces[i],
                id,
            ) implies !after.windows[id].hidden_by_us by {
                lemma_in_view(m, id);
            }
        }
    } else if i == ws.0 - 1 {
        assert(w.workspaces[i].active_monitor is None);
    }
}

/// Retiling a workspace leaves the windows of the others alone.
pub proof fn lemma_retiled_flag(w: World, ws: WorkspaceId, i: int, id: WindowId)
    requires
        w.windows_linked(),
        w.knows(ws) ==> w.ws(ws).tree.wf(),
        0 <= i < w.workspaces.len(),
        i != ws.0 - 1,
        w.workspaces[i].has(id),
    ensures
        w.retiled(ws).0.windows[id].hidden_by_us == w.windows[id].hidden_by_us,
{
    assert(w.windows.contains_key(id));
    if w.work_area(ws) is Some {
        let area = w.work_area(ws)->0;
        let plan = w.plan(ws, area);
        let shown = w.visit_all(plan.visible, Visit::Reveal);
        let placed = World { desk: shown.desk.placed(plan.moves), ..shown };
        assert(laws::places_once(w.workspaces[ws.0 - 1]));
        lemma_visits_flag(w, plan.visible, Visit::Reveal, id);
        lemma_visits_flag(placed, plan.hidden, Visit::Conceal, id);
        lemma_plan(w, ws, area, id);
        lemma_apart(w, i, ws.0 - 1, id);
    }
}

/// What a plan shows and hides.
proof fn lemma_plan(w: World, ws: WorkspaceId, area: Rect, id: WindowId)
    requires
        w.knows(ws),
        w.ws(ws).tree.wf(),
        laws::places_once(w.ws(ws)),
    ensures
        ({
            let plan = w.plan(ws, area);
            let m = w.ws(ws);
            &&& plan.visible.contains(id) ==> m.has(id)
            &&& plan.hidden.contains(id) ==> m.has(id) && !in_view(m, id) && !m.monocle
            &&& m.monocle ==> (plan.visible.contains(id) <==> m.has(id))
            &&& !m.monocle ==> (plan.visible.contains(id) <==> in_view(m, id) && !m.floats(id))
        }),
{
    let m = w.ws(ws);
    let plan = w.plan(ws, area);
    lemma_all_windows(m, id);
    if !m.monocle {
        let tiles = m.tree.laid_out(area, w.gaps.inner as int);
        assert(m.floats(id) ==> !m.tree.holds(id));
        if let Some(n) = m.tree.tree {
            tree::lemma_shows_holds(n);
            tree::lemma_tiles_show(n, area);
            tree::law_windows_are_tiles_and_hidden(n, area);
            assert(n.hidden().contains(id) <==> (n.holds(id) && !n.shows(id)));
            if plan.visible.contains(id) {
                let k = plan.visible.index_of(id);
                assert(n.shows(n.tiles(area)[k].0));
                assert(n.tiles(area)[k].0 == id);
            }
            if n.shows(id) {
                let k = choose|k: int|
                    0 <= k < n.tiles(area).len() && #[trigger] n.tiles(area)[k].0 == id;
                assert(tiles[k].0 == id);
                assert(plan.visible[k] == id);
            }
        } else {
            assert(plan.visible =~= Seq::<WindowId>::empty());
            assert(plan.hidden =~= Seq::<WindowId>::empty());
        }
    }
}

/// Retiling keeps what is hidden in order.
pub proof fn lemma_retiled(w: World, ws: WorkspaceId)
    requires
        w.retiled(ws).0.wf(),
        forall|i: int|
            0 <= i < w.workspaces.len() && i != ws.0 - 1 ==> #[trigger] w.veiled_at(i),
        w.knows(ws) ==> w.ready_at(ws.0 - 1),
    ensures
        w.retiled(ws).0.veiled(),
{
    laws::law_retile_only_notes(w, ws);
    let after = w.retiled(ws).0;
    assert forall|i: int| 0 <= i < after.workspaces.len() implies #[trigger] after.veiled_at(i) by {
        if i != ws.0 - 1 {
            assert(w.veiled_at(i));
        }
        lemma_retiled_at(w, ws, i);
    }
}

/// What is in order is ready to be retiled.
pub proof fn lemma_ready(w: World, i: int)
    requires
        w.veiled_at(i),
    ensures
        w.ready_at(i),
{
    if w.workspaces[i].active_monitor is Some {
        assert forall|id: WindowId| #[trigger]
            w.workspaces[i].floats(id) implies !w.windows[id].hidden_by_us by {
            assert(in_view(w.workspaces[i], id));
        }
    }
}

/// Retiling a workspace again keeps what is hidden in order.
pub proof fn law_retiling_keeps_the_veil(w: World, ws: WorkspaceId)
    requires
        w.wf(),
        w.veiled(),
    ensures
        w.retiled(ws).0.wf(),
        w.retiled(ws).0.veiled(),
{
    laws::law_retile_only_notes(w, ws);
    laws::lemma_notes_hold(w, w.retiled(ws).0);
    if w.knows(ws) {
        assert(w.veiled_at(ws.0 - 1));
        lemma_ready(w, ws.0 - 1);
    }
    lemma_retiled(w, ws);
}

// ---- inside a workspace -----------------------------------------------------

/// Whether `after` has the same windows hidden on the same workspaces, but that
/// the workspace `ws` may have fewer windows, tiled in another way.
spec fn rearranged(w: World, after: World, ws: WorkspaceId) -> bool {
    &&& after.workspaces.len() == w.workspaces.len()
    &&& forall|i: int|
        0 <= i < w.workspaces.len() && i != ws.0 - 1 ==> #[trigger] after.workspaces[i]
            == w.workspaces[i]
    &&& w.knows(ws) ==> {
        &&& after.ws(ws).active_monitor == w.ws(ws).active_monitor
        &&& forall|id: WindowId| #[trigger] after.ws(ws).has(id) ==> w.ws(ws).has(id)
        &&& forall|id: WindowId| #[trigger] after.ws(ws).floats(id) ==> w.ws(ws).floats(id)
    }
    &&& forall|i: int, id: WindowId|
        0 <= i < w.workspaces.len() && #[trigger] after.workspaces[i].has(id)
            ==> after.windows[id].hidden_by_us == w.windows[id].hidden_by_us
}

/// A workspace with other tiles is in order once it has been retiled.
proof fn lemma_rearranged(w: World, after: World, ws: WorkspaceId)
    requires
        w.sound(),
        w.veiled(),
        rearranged(w, after, ws),
        after.retiled(ws).0.wf(),
    ensures
        after.retiled(ws).0.veiled(),
{
    assert forall|i: int| 0 <= i < after.workspaces.len() && i != ws.0
        - 1 implies #[trigger] after.veiled_at(i) by {
        lemma_untouched(w, after, i);
    }
    if w.knows(ws) {
        let k = ws.0 - 1;
        assert(w.veiled_at(k));
        assert(after.workspaces[k] == after.ws(ws));
        assert forall|id: WindowId| #[trigger] after.workspaces[k].floats(
            id,
        ) implies after.workspaces[k].has(id) && in_view(w.workspaces[k], id) by {
            assert(w.ws(ws).floats(id));
        }
        assert forall|id: WindowId| #[trigger] after.workspaces[k].has(
            id,
        ) implies w.workspaces[k].has(id) by {
            assert(after.ws(ws).has(id));
        }
    }
    lemma_retiled(after, ws);
}

/// A workspace that stays as it is, with the same windows hidden.
pub proof fn lemma_untouched(w: World, after: World, i: int)
    requires
        w.veiled_at(i),
        w.workspaces[i].tree.wf(),
        after.workspaces[i].active_monitor is Some == w.workspaces[i].active_monitor is Some,
        after.workspaces[i].tree == w.workspaces[i].tree,
        after.workspaces[i].floating == w.workspaces[i].floating,
        forall|id: WindowId| #[trigger]
            after.workspaces[i].has(id) ==> after.windows[id].hidden_by_us
                == w.windows[id].hidden_by_us,
    ensures
        after.veiled_at(i),
{
    let m = w.workspaces[i];
    let n = after.workspaces[i];
    assert forall|id: WindowId| #[trigger] n.floats(id) <==> m.floats(id) by {}
    assert forall|id: WindowId| #[trigger] n.has(id) implies m.has(id) by {
        assert(n.floats(id) <==> m.floats(id));
    }
    assert forall|id: WindowId| #[trigger] in_view(n, id) implies n.has(id) && in_view(m, id) by {
        assert(n.floats(id) <==> m.floats(id));
        lemma_in_view(m, id);
    }
}

/// Where neither windows nor workspaces change, what is hidden stays in order.
pub proof fn lemma_same(w: World, after: World)
    requires
        w.veiled(),
        after.workspaces == w.workspaces,
        after.windows == w.windows,
    ensures
        after.veiled(),
{
    assert forall|i: int| 0 <= i < after.workspaces.len() implies #[trigger] after.veiled_at(i) by {
        assert(w.veiled_at(i));
    }
}

/// Another tree with the same windows.
proof fn lemma_other_tree(w: World, after: World, ws: WorkspaceId, m: WorkspaceModel)
    requires
        w.knows(ws),
        after.workspaces == w.workspaces.update(ws.0 - 1, m),
        after.windows == w.windows,
        m.active_monitor == w.ws(ws).active_monitor,
        forall|id: WindowId| #[trigger] m.tree.holds(id) ==> w.ws(ws).tree.holds(id),
        forall|id: WindowId| #[trigger] m.floats(id) ==> w.ws(ws).floats(id),
    ensures
        rearranged(w, after, ws),
{
    assert(after.ws(ws) == m);
    assert forall|id: WindowId| #[trigger] m.has(id) implies w.ws(ws).has(id) by {
        if m.floats(id) {
            assert(w.ws(ws).floats(id));
        }
    }
}

/// Floating windows that only move are the same windows.
proof fn lemma_refloated(m: WorkspaceModel, f: WindowId, place: Rect, id: WindowId)
    requires
        m.floats(f),
        laws::places_once(m),
        commands::refloated(m, f, place).floats(id),
    ensures
        m.floats(id),
{
    let k = choose|k: int| 0 <= k < m.floating.len() && (#[trigger] m.floating[k]).0 == f;
    assert(commands::is_float(m, k, f)) by {
        assert forall|j: int| 0 <= j < k implies (#[trigger] m.floating[j]).0 != f by {
            assert(m.floating[j].0 != m.floating[k].0);
        }
    }
    let c = commands::float_of(m, f);
    assert(commands::is_float(m, c, f));
    let n = commands::refloated(m, f, place);
    let j = choose|j: int| 0 <= j < n.floating.len() && (#[trigger] n.floating[j]).0 == id;
    assert(m.floating[j].0 == id);
}

proof fn lemma_float_moves(w: World, ws: WorkspaceId, place: Rect)
    requires
        w.wf(),
        w.veiled(),
        w.knows(ws),
        w.focused_window is Some,
        w.ws(ws).floats(w.focused_window->0),
        w.set_ws(ws, commands::refloated(w.ws(ws), w.focused_window->0, place)).retiled(ws).0.wf(),
    ensures
        w.set_ws(
            ws,
            commands::refloated(w.ws(ws), w.focused_window->0, place),
        ).retiled(ws).0.veiled(),
{
    let f = w.focused_window->0;
    let m = commands::refloated(w.ws(ws), f, place);
    assert(laws::places_once(w.workspaces[ws.0 - 1]));
    assert forall|id: WindowId| #[trigger] m.floats(id) implies w.ws(ws).floats(id) by {
        lemma_refloated(w.ws(ws), f, place, id);
    }
    let moved = w.set_ws(ws, m);
    lemma_other_tree(w, moved, ws, m);
    lemma_rearranged(w, moved, ws);
}

/// A tree with the same windows, whatever has the focus, is in order once it has
/// been retiled.
pub proof fn lemma_retreed(w: World, after: World, ws: WorkspaceId, l: Layout<WindowId>)
    requires
        w.wf(),
        w.veiled(),
        w.knows(ws),
        after.workspaces == w.set_tree(ws, l).workspaces,
        after.windows == w.windows,
        forall|id: WindowId| #[trigger] l.holds(id) ==> w.ws(ws).tree.holds(id),
        after.retiled(ws).0.wf(),
    ensures
        after.retiled(ws).0.veiled(),
{
    let m = WorkspaceModel { tree: l, ..w.ws(ws) };
    assert forall|id: WindowId| #[trigger] m.floats(id) implies w.ws(ws).floats(id) by {
        assert(m.floating == w.ws(ws).floating);
    }
    lemma_other_tree(w, after, ws, m);
    lemma_rearranged(w, after, ws);
}

/// Where the tiles only change the focus among them, nothing has to be hidden or
/// shown.
pub proof fn lemma_focus_moves(w: World, after: World, ws: WorkspaceId, t: WindowId)
    requires
        w.wf(),
        w.veiled(),
        w.knows(ws),
        after.workspaces == w.set_tree(ws, w.ws(ws).tree.focused_on(t)).workspaces,
        after.windows == w.windows,
        w.ws(ws).active_monitor is None || !w.ws(ws).tree.holds(t) || !w.windows[t].hidden_by_us,
    ensures
        after.veiled(),
{
    let l = w.ws(ws).tree;
    let k = ws.0 - 1;
    assert(w.workspaces[k].tree.wf());
    tree::law_focus_shows_the_window(l, t);
    assert forall|i: int| 0 <= i < after.workspaces.len() implies #[trigger] after.veiled_at(i) by {
        assert(w.veiled_at(i));
        if i == k {
            let m = w.workspaces[k];
            let n = after.workspaces[k];
            assert(n.floating == m.floating);
            assert forall|id: WindowId| #[trigger] n.floats(id) <==> m.floats(id) by {}
            assert forall|id: WindowId| #[trigger] n.has(id) implies m.has(id) by {
                assert(n.floats(id) <==> m.floats(id));
                assert(l.focused_on(t).holds(id) <==> l.holds(id));
            }
            assert forall|id: WindowId| #[trigger] in_view(n, id) && !in_view(
                m,
                id,
            ) implies id == t && l.holds(t) by {
                assert(n.floats(id) <==> m.floats(id));
            }
        }
    }
}

/// Every command inside a workspace keeps what is hidden in order.
pub proof fn law_commands_keep_the_veil(w: World, dir: Direction, delta: int, forward: bool)
    requires
        w.wf(),
        w.veiled(),
    ensures
        w.focused_toward(dir).0.veiled(),
        w.moved_toward(dir).0.veiled(),
        w.resized_toward(dir, delta).0.veiled(),
        w.monocle_toggled().0.veiled(),
        w.mode_toggled().0.veiled(),
        w.stack_toggled().0.veiled(),
        w.neighbour_swallowed(dir).0.veiled(),
        w.member_popped().0.veiled(),
        w.stack_cycled(forward).0.veiled(),
{
    laws::law_commands_keep_order(w, dir, delta, forward);
    if w.focused_workspace() is Some {
        let ws = w.focused_workspace()->0;
        law_retiling_keeps_the_veil(w, ws);
        if w.knows(ws) {
            assert(w.workspaces[ws.0 - 1].tree.wf());
            lemma_focus_toward(w, ws, dir);
            lemma_move(w, ws, dir);
            lemma_resize(w, ws, dir, delta);
            lemma_modes(w, ws);
            lemma_stacks(w, ws, dir, forward);
        }
    }
}

proof fn lemma_focus_toward(w: World, ws: WorkspaceId, dir: Direction)
    requires
        w.wf(),
        w.veiled(),
        w.knows(ws),
        w.focused_workspace() == Some(ws),
    ensures
        w.focused_toward(dir).0.veiled(),
{
    let area = w.work_area_or(ws, model::nowhere());
    let l = w.ws(ws).tree;
    let k = ws.0 - 1;
    assert(w.workspaces[k].tree.wf());
    assert(w.veiled_at(k));
    if l.focus is Some && l.neighbour(l.focus->0, dir, area) is Some {
        let t = l.neighbour(l.focus->0, dir, area)->0;
        tree::lemma_neighbour(l, l.focus->0, dir, area);
        assert(in_view(w.workspaces[k], t));
        lemma_focus_moves(w, w.focused_toward(dir).0, ws, t);
    }
}

proof fn lemma_move(w: World, ws: WorkspaceId, dir: Direction)
    requires
        w.wf(),
        w.veiled(),
        w.knows(ws),
        w.focused_workspace() == Some(ws),
        w.moved_toward(dir).0.wf(),
    ensures
        w.moved_toward(dir).0.veiled(),
{
    let area = w.work_area_or(ws, model::nowhere());
    let l = w.ws(ws).tree;
    assert(w.workspaces[ws.0 - 1].tree.wf());
    if w.focused_window is Some {
        let f = w.focused_window->0;
        if w.is_floating(f) {
            if w.focused_float() is Some {
                lemma_float_moves(w, ws, commands::shifted(w.focused_float()->0, dir));
            }
        } else if l.neighbour(f, dir, area) is Some {
            let other = l.neighbour(f, dir, area)->0;
            tree::law_swap_is_its_own_inverse(l, f, other);
            lemma_retreed(w, w.set_tree(ws, l.swapped(f, other)), ws, l.swapped(f, other));
        }
    }
}

proof fn lemma_resize(w: World, ws: WorkspaceId, dir: Direction, delta: int)
    requires
        w.wf(),
        w.veiled(),
        w.knows(ws),
        w.focused_workspace() == Some(ws),
        w.resized_toward(dir, delta).0.wf(),
    ensures
        w.resized_toward(dir, delta).0.veiled(),
{
    let area = w.work_area_or(ws, model::nowhere());
    let l = w.ws(ws).tree;
    assert(w.workspaces[ws.0 - 1].tree.wf());
    if w.focused_window is Some {
        let f = w.focused_window->0;
        if w.is_floating(f) {
            if w.focused_float() is Some {
                lemma_float_moves(w, ws, commands::stretched(w.focused_float()->0, dir, delta));
            }
        } else {
            let pushed = l.resized(f, dir, delta, area);
            tree::law_resize_keeps_windows(l, f, dir, delta, area);
            lemma_retreed(w, w.set_tree(ws, pushed), ws, pushed);
        }
    }
}

proof fn lemma_modes(w: World, ws: WorkspaceId)
    requires
        w.wf(),
        w.veiled(),
        w.knows(ws),
        w.focused_workspace() == Some(ws),
        w.monocle_toggled().0.wf(),
    ensures
        w.monocle_toggled().0.veiled(),
        w.mode_toggled().0.veiled(),
{
    let m = WorkspaceModel { monocle: !w.ws(ws).monocle, ..w.ws(ws) };
    assert forall|id: WindowId| #[trigger] m.floats(id) implies w.ws(ws).floats(id) by {
        assert(m.floating == w.ws(ws).floating);
    }
    lemma_other_tree(w, w.set_ws(ws, m), ws, m);
    lemma_rearranged(w, w.set_ws(ws, m), ws);
    let after = w.mode_toggled().0;
    assert forall|i: int| 0 <= i < after.workspaces.len() implies #[trigger] after.veiled_at(i) by {
        assert(w.veiled_at(i));
        let n = after.workspaces[i];
        assert(n.floating == w.workspaces[i].floating);
        assert forall|id: WindowId| #[trigger] n.floats(id) <==> w.workspaces[i].floats(id) by {}
        assert forall|id: WindowId| #[trigger] n.has(id) implies w.workspaces[i].has(id) by {
            assert(n.floats(id) <==> w.workspaces[i].floats(id));
        }
        assert forall|id: WindowId| #[trigger] in_view(n, id) implies in_view(
            w.workspaces[i],
            id,
        ) by {
            assert(n.floats(id) <==> w.workspaces[i].floats(id));
        }
    }
}

proof fn lemma_stacks(w: World, ws: WorkspaceId, dir: Direction, forward: bool)
    requires
        w.wf(),
        w.veiled(),
        w.knows(ws),
        w.focused_workspace() == Some(ws),
        w.stack_toggled().0.wf(),
        w.neighbour_swallowed(dir).0.wf(),
        w.member_popped().0.wf(),
        w.stack_cycled(forward).0.wf(),
    ensures
        w.stack_toggled().0.veiled(),
        w.neighbour_swallowed(dir).0.veiled(),
        w.member_popped().0.veiled(),
        w.stack_cycled(forward).0.veiled(),
{
    let l = w.ws(ws).tree;
    let area = w.work_area_or(ws, model::nowhere());
    assert(w.workspaces[ws.0 - 1].tree.wf());
    law_retiling_keeps_the_veil(w, ws);
    tree::law_toggle_keeps_windows(l);
    tree::law_swallow_keeps_windows(l, dir, area);
    tree::law_pop_keeps_windows(l);
    tree::law_cycle_goes_round(l, forward);
    if l.tree is Some {
        let toggled = w.set_tree(ws, l.toggled());
        let focused = World { focused_window: toggled.tree_focus(ws), ..toggled };
        lemma_retreed(w, focused, ws, l.toggled());
    }
    if l.focus is Some && l.neighbour(l.focus->0, dir, area) is Some {
        lemma_settled(w, ws, l.swallowed(dir, area));
    }
    if l.can_pop() {
        lemma_settled(w, ws, l.popped());
    }
    if l.tree is Some && l.focused_node() is Stack {
        let cycled = w.set_tree(ws, l.cycled(forward));
        let f = cycled.tree_focus(ws)->0;
        let focused = World { focused_window: Some(f), ..cycled };
        let tiled = focused.retiled(ws).0;
        laws::law_retile_only_notes(focused, ws);
        laws::law_commands_keep_order(w, dir, 0, forward);
        lemma_wf_unsaid(tiled, Act::Focus(f));
        lemma_retreed(w, focused, ws, l.cycled(forward));
        lemma_same(tiled, tiled.say(Act::Focus(f)));
    }
}

/// A request has no part in the invariant.
pub proof fn lemma_wf_unsaid(w: World, act: Act)
    ensures
        w.say(act).wf() ==> w.wf(),
{
    let said = w.say(act);
    if said.wf() {
        assert(said.only_notes(w));
        laws::lemma_notes_hold(said, w);
    }
}

proof fn lemma_settled(w: World, ws: WorkspaceId, l: Layout<WindowId>)
    requires
        w.wf(),
        w.veiled(),
        w.knows(ws),
        forall|id: WindowId| #[trigger] l.holds(id) ==> w.ws(ws).tree.holds(id),
        w.set_tree(ws, l).settled(ws).0.wf(),
    ensures
        w.set_tree(ws, l).settled(ws).0.veiled(),
{
    let treed = w.set_tree(ws, l);
    let f = treed.tree_focus(ws)->0;
    let focused = World { focused_window: Some(f), ..treed }.say(Act::Focus(f));
    lemma_retreed(w, focused, ws, l);
}

/// A layout mode for all workspaces hides and shows nothing.
pub proof fn law_layout_mode_keeps_the_veil(w: World, mode: LayoutMode)
    requires
        w.veiled(),
    ensures
        w.with_layout_mode(mode).veiled(),
{
    let after = w.with_layout_mode(mode);
    assert forall|i: int| 0 <= i < after.workspaces.len() implies #[trigger] after.veiled_at(i) by {
        assert(w.veiled_at(i));
        let m = w.workspaces[i];
        let n = after.workspaces[i];
        assert(n.floating == m.floating);
        assert forall|id: WindowId| #[trigger] n.floats(id) <==> m.floats(id) by {}
        assert forall|id: WindowId| #[trigger] n.has(id) implies m.has(id) by {
            assert(n.floats(id) <==> m.floats(id));
        }
        assert forall|id: WindowId| #[trigger] in_view(n, id) implies in_view(m, id) by {
            assert(n.floats(id) <==> m.floats(id));
        }
    }
}

} // verus!
