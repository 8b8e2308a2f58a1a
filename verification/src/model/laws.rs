//! What every command keeps.

use crate::desk::Act;
use crate::ids::{MonitorId, WindowId, WorkspaceId};
use crate::model;
use crate::model::{commands, monitors, Visit, World};
use crate::monitor;
use crate::nearest;
use crate::rect::{Direction, Rect};
use crate::tree;
use crate::tree::{Layout, LayoutMode};
use crate::window::{ManagedWindow, WindowMode};
use crate::workspace;
use crate::workspace::WorkspaceModel;
use vstd::prelude::*;

verus! {

/// Whether the floating windows of a workspace are distinct, and none of them
/// is tiled as well.
pub open spec fn places_once(m: WorkspaceModel) -> bool {
    &&& forall|i: int, j: int|
        0 <= i < m.floating.len() && 0 <= j < m.floating.len() && i != j
            ==> #[trigger] m.floating[i].0 != #[trigger] m.floating[j].0
    &&& forall|id: WindowId| #[trigger] m.floats(id) ==> !m.tree.holds(id)
}

impl World {
    /// Every window on a workspace is a managed window of that workspace, and is
    /// there once. So no window is on two workspaces.
    pub open spec fn windows_linked(self) -> bool {
        &&& forall|i: int, id: WindowId|
            0 <= i < self.workspaces.len() && #[trigger] self.workspaces[i].has(id)
                ==> self.windows.contains_key(id) && self.windows[id].workspace.0 == i + 1
        &&& forall|i: int, id: WindowId|
            0 <= i < self.workspaces.len() && #[trigger] self.workspaces[i].floats(id)
                ==> self.windows[id].mode == WindowMode::Floating
        &&& forall|i: int|
            0 <= i < self.workspaces.len() ==> places_once(#[trigger] self.workspaces[i])
        &&& forall|id: WindowId| #[trigger] self.windows.contains_key(id) ==> self.windows[id].id
            == id
    }

    /// The monitor that a workspace is visible on shows that workspace. So no
    /// monitor has two workspaces.
    pub open spec fn monitors_linked(self) -> bool {
        forall|i: int|
            0 <= i < self.workspaces.len() ==> ((
            #[trigger] self.workspaces[i]).active_monitor matches Some(id) ==> self.monitor(
                id,
            ) is Some && self.monitor(id)->0.current_workspace.0 == i + 1)
    }

    /// A monitor has the focus unless there is none.
    pub open spec fn focus_linked(self) -> bool {
        match self.focused_monitor {
            Some(id) => self.monitor(id) is Some,
            None => self.monitors.len() == 0,
        }
    }

    /// The invariant, but for the focus.
    pub open spec fn linked(self) -> bool {
        &&& self.sound()
        &&& self.windows_linked()
        &&& self.monitors_linked()
    }

    /// The invariant of the window manager.
    pub open spec fn wf(self) -> bool {
        self.linked() && self.focus_linked()
    }

    /// Whether `after` differs in nothing but the requests, and in which windows
    /// are noted as hidden.
    pub open spec fn only_notes(self, after: World) -> bool {
        &&& after == (World { windows: after.windows, desk: after.desk, ..self })
        &&& forall|id: WindowId| #[trigger]
            after.windows.contains_key(id) <==> self.windows.contains_key(id)
        &&& forall|id: WindowId| #[trigger]
            after.windows.contains_key(id) ==> after.windows[id] == (ManagedWindow {
                hidden_by_us: after.windows[id].hidden_by_us,
                ..self.windows[id]
            })
    }
}

/// Notes add up.
pub proof fn lemma_notes_transitive(a: World, b: World, c: World)
    requires
        a.only_notes(b),
        b.only_notes(c),
    ensures
        a.only_notes(c),
{
    assert forall|id: WindowId| #[trigger] c.windows.contains_key(id) implies c.windows[id] == (
    ManagedWindow { hidden_by_us: c.windows[id].hidden_by_us, ..a.windows[id] }) by {
        assert(b.windows.contains_key(id));
    }
    assert forall|id: WindowId| #[trigger]
        c.windows.contains_key(id) <==> a.windows.contains_key(id) by {
        assert(c.windows.contains_key(id) <==> b.windows.contains_key(id));
    }
}

/// Notes do not touch the invariant.
proof fn lemma_notes_keep(a: World, b: World)
    requires
        a.only_notes(b),
    ensures
        a.sound() ==> b.sound(),
        a.windows_linked() ==> b.windows_linked(),
        a.monitors_linked() ==> b.monitors_linked(),
        a.focus_linked() ==> b.focus_linked(),
        forall|ws: WorkspaceId| #[trigger] b.work_area(ws) == a.work_area(ws),
        b.focused_workspace() == a.focused_workspace(),
{
    if a.windows_linked() {
        assert forall|i: int, id: WindowId|
            0 <= i < b.workspaces.len() && #[trigger] b.workspaces[i].has(
                id,
            ) implies b.windows.contains_key(id) && b.windows[id].workspace.0 == i + 1 by {
            assert(a.workspaces[i].has(id));
            assert(b.windows.contains_key(id));
        }
        assert forall|i: int, id: WindowId|
            0 <= i < b.workspaces.len() && #[trigger] b.workspaces[i].floats(
                id,
            ) implies b.windows[id].mode == WindowMode::Floating by {
            assert(a.workspaces[i].floats(id));
            assert(a.workspaces[i].has(id));
            assert(b.windows.contains_key(id));
        }
        assert forall|id: WindowId| #[trigger] b.windows.contains_key(id) implies b.windows[id].id
            == id by {
            assert(a.windows.contains_key(id));
        }
        assert forall|i: int| 0 <= i < b.workspaces.len() implies places_once(
            #[trigger] b.workspaces[i],
        ) by {
            assert(places_once(a.workspaces[i]));
        }
    }
    if a.monitors_linked() {
        assert forall|i: int| 0 <= i < b.workspaces.len() implies ((
        #[trigger] b.workspaces[i]).active_monitor matches Some(id) ==> b.monitor(id) is Some
            && b.monitor(id)->0.current_workspace.0 == i + 1) by {
            assert(a.workspaces[i] == b.workspaces[i]);
        }
    }
}

proof fn lemma_visit_notes(w: World, id: WindowId, how: Visit)
    ensures
        w.only_notes(w.visit(id, how)),
{
}

proof fn lemma_visits_note(w: World, ids: Seq<WindowId>, how: Visit)
    ensures
        w.only_notes(w.visit_all(ids, how)),
    decreases ids.len(),
{
    if ids.len() > 0 {
        lemma_visits_note(w, ids.drop_last(), how);
        let mid = w.visit_all(ids.drop_last(), how);
        lemma_visit_notes(mid, ids.last(), how);
        lemma_notes_transitive(w, mid, mid.visit(ids.last(), how));
    }
}

/// Retiling touches nothing but the requests and the notes on windows.
pub proof fn law_retile_only_notes(w: World, ws: WorkspaceId)
    ensures
        w.only_notes(w.retiled(ws).0),
{
    if w.work_area(ws) is Some {
        let area = w.work_area(ws)->0;
        let plan = w.plan(ws, area);
        let shown = w.visit_all(plan.visible, Visit::Reveal);
        lemma_visits_note(w, plan.visible, Visit::Reveal);
        let placed = World { desk: shown.desk.placed(plan.moves), ..shown };
        lemma_notes_transitive(w, shown, placed);
        if shown.desk.accepts(plan.moves) {
            let covered = placed.visit_all(plan.hidden, Visit::Conceal);
            lemma_visits_note(placed, plan.hidden, Visit::Conceal);
            lemma_notes_transitive(w, placed, covered);
            assert(covered.only_notes(covered.reframed(ws)));
            lemma_notes_transitive(w, covered, covered.reframed(ws));
        }
    }
}

/// A command that ends with retiling keeps the invariant where it did before.
proof fn lemma_retiled_wf(w: World, ws: WorkspaceId)
    requires
        w.wf(),
    ensures
        w.retiled(ws).0.wf(),
{
    law_retile_only_notes(w, ws);
    lemma_notes_keep(w, w.retiled(ws).0);
}

/// Another window in focus touches nothing else.
proof fn lemma_focusing_wf(w: World, next: Option<WindowId>)
    requires
        w.wf(),
    ensures
        w.focusing(next).wf(),
        w.raising(next).wf(),
{
    lemma_refocused_notes(w, w.focusing(next));
    lemma_refocused_notes(w, w.raising(next));
}

/// The focused window and the requests have no part in the invariant.
pub proof fn lemma_refocused_notes(a: World, b: World)
    requires
        b == (World { focused_window: b.focused_window, desk: b.desk, ..a }),
        a.wf(),
    ensures
        b.wf(),
{
    assert forall|i: int| 0 <= i < b.workspaces.len() implies ((
    #[trigger] b.workspaces[i]).active_monitor matches Some(id) ==> b.monitor(id) is Some
        && b.monitor(id)->0.current_workspace.0 == i + 1) by {
        assert(a.workspaces[i] == b.workspaces[i]);
    }
}

/// Another tree with the same windows keeps the invariant.
proof fn lemma_set_tree_wf(w: World, ws: WorkspaceId, l: Layout<WindowId>)
    requires
        w.wf(),
        w.knows(ws),
        l.wf(),
        forall|id: WindowId| #[trigger] l.holds(id) <==> w.ws(ws).tree.holds(id),
    ensures
        w.set_tree(ws, l).wf(),
{
    let m = WorkspaceModel { tree: l, ..w.ws(ws) };
    lemma_set_ws_wf(w, ws, m);
}

/// Another state of a workspace with the same windows and the same monitor
/// keeps the invariant.
proof fn lemma_set_ws_wf(w: World, ws: WorkspaceId, m: WorkspaceModel)
    requires
        w.wf(),
        w.knows(ws),
        m.tree.wf(),
        m.id == w.ws(ws).id,
        m.active_monitor == w.ws(ws).active_monitor,
        forall|id: WindowId| #[trigger] m.tree.holds(id) <==> w.ws(ws).tree.holds(id),
        m.floating.len() == w.ws(ws).floating.len(),
        forall|k: int|
            0 <= k < m.floating.len() ==> (#[trigger] m.floating[k]).0 == w.ws(ws).floating[k].0,
    ensures
        w.set_ws(ws, m).wf(),
{
    let before = w.ws(ws);
    let after = w.set_ws(ws, m);
    let k = ws.0 - 1;
    assert(w.workspaces[k] == before);
    assert forall|id: WindowId| #[trigger] m.floats(id) <==> before.floats(id) by {
        if m.floats(id) {
            let j = choose|j: int| 0 <= j < m.floating.len() && (#[trigger] m.floating[j]).0 == id;
            assert(before.floating[j].0 == id);
        }
        if before.floats(id) {
            let j = choose|j: int|
                0 <= j < before.floating.len() && (#[trigger] before.floating[j]).0 == id;
            assert(m.floating[j].0 == id);
        }
    }
    assert forall|i: int, id: WindowId|
        0 <= i < after.workspaces.len() && #[trigger] after.workspaces[i].has(
            id,
        ) implies after.windows.contains_key(id) && after.windows[id].workspace.0 == i + 1 by {
        if i == k {
            assert(before.has(id));
            assert(w.workspaces[k].has(id));
        } else {
            assert(w.workspaces[i].has(id));
        }
    }
    assert forall|i: int, id: WindowId|
        0 <= i < after.workspaces.len() && #[trigger] after.workspaces[i].floats(
            id,
        ) implies after.windows[id].mode == WindowMode::Floating by {
        if i == k {
            assert(before.floats(id));
            assert(w.workspaces[k].floats(id));
        } else {
            assert(w.workspaces[i].floats(id));
        }
    }
    assert forall|i: int| 0 <= i < after.workspaces.len() implies places_once(
        #[trigger] after.workspaces[i],
    ) by {
        assert(places_once(w.workspaces[i]));
        if i == k {
            assert forall|a: int, b: int|
                0 <= a < m.floating.len() && 0 <= b < m.floating.len() && a
                    != b implies #[trigger] m.floating[a].0 != #[trigger] m.floating[b].0 by {
                assert(before.floating[a].0 != before.floating[b].0);
            }
            assert forall|id: WindowId| #[trigger] m.floats(id) implies !m.tree.holds(id) by {
                assert(before.floats(id));
            }
        }
    }
    assert forall|i: int| 0 <= i < after.workspaces.len() implies ((
    #[trigger] after.workspaces[i]).active_monitor matches Some(id) ==> after.monitor(id) is Some
        && after.monitor(id)->0.current_workspace.0 == i + 1) by {
        assert(w.workspaces[i].active_monitor == after.workspaces[i].active_monitor);
    }
    assert forall|i: int| 0 <= i < after.workspaces.len() implies (
    #[trigger] after.workspaces[i]).id.0 == i + 1 && after.workspaces[i].tree.wf() by {
        assert(w.workspaces[i].id.0 == i + 1 && w.workspaces[i].tree.wf());
    }
}

/// What is left floating without `id`.
pub proof fn lemma_unfloated(floating: Seq<(WindowId, Rect)>, id: WindowId)
    ensures
        forall|k: int|
            0 <= k < workspace::unfloated(floating, id).len() ==> {
                &&& (#[trigger] workspace::unfloated(floating, id)[k]).0 != id
                &&& floating.contains(workspace::unfloated(floating, id)[k])
            },
        forall|k: int|
            0 <= k < floating.len() && (#[trigger] floating[k]).0 != id
                ==> workspace::unfloated(floating, id).contains(floating[k]),
        (forall|i: int, j: int|
            0 <= i < floating.len() && 0 <= j < floating.len() && i != j
                ==> #[trigger] floating[i].0 != #[trigger] floating[j].0) ==> (forall|
            i: int,
            j: int,
        |
            0 <= i < workspace::unfloated(floating, id).len() && 0 <= j < workspace::unfloated(
                floating,
                id,
            ).len() && i != j ==> #[trigger] workspace::unfloated(floating, id)[i].0
                != #[trigger] workspace::unfloated(floating, id)[j].0),
    decreases floating.len(),
{
    reveal(Seq::filter);
    let rest = workspace::unfloated(floating, id);
    if floating.len() > 0 {
        let head = floating.drop_last();
        let last = floating.last();
        let less = workspace::unfloated(head, id);
        lemma_unfloated(head, id);
        assert forall|k: int| 0 <= k < rest.len() implies (#[trigger] rest[k]).0 != id
            && floating.contains(rest[k]) by {
            if k < less.len() {
                assert(rest[k] == less[k]);
                assert(head.contains(less[k]));
                let n = head.index_of(less[k]);
                assert(floating[n] == rest[k]);
            } else {
                assert(floating[floating.len() - 1] == rest[k]);
            }
        }
        assert forall|k: int|
            0 <= k < floating.len() && (#[trigger] floating[k]).0 != id implies rest.contains(
            floating[k],
        ) by {
            if k < head.len() {
                assert(head[k] == floating[k]);
                assert(less.contains(head[k]));
                let n = less.index_of(head[k]);
                assert(rest[n] == floating[k]);
            } else {
                assert(rest[rest.len() - 1] == floating[k]);
            }
        }
        if forall|i: int, j: int|
            0 <= i < floating.len() && 0 <= j < floating.len() && i != j
                ==> #[trigger] floating[i].0 != #[trigger] floating[j].0 {
            assert forall|i: int, j: int|
                0 <= i < head.len() && 0 <= j < head.len() && i != j implies #[trigger] head[i].0
                != #[trigger] head[j].0 by {
                assert(floating[i].0 != floating[j].0);
            }
            assert forall|i: int, j: int|
                0 <= i < rest.len() && 0 <= j < rest.len() && i != j implies #[trigger] rest[i].0
                != #[trigger] rest[j].0 by {
                if i < less.len() && j < less.len() {
                    assert(less[i].0 != less[j].0);
                } else if i < less.len() {
                    assert(head.contains(less[i]));
                    let n = head.index_of(less[i]);
                    assert(floating[n].0 != floating[floating.len() - 1].0);
                } else {
                    assert(head.contains(less[j]));
                    let n = head.index_of(less[j]);
                    assert(floating[n].0 != floating[floating.len() - 1].0);
                }
            }
        }
    }
}

/// A workspace without one of its windows.
pub proof fn lemma_detached_model(m: WorkspaceModel, id: WindowId)
    requires
        m.tree.wf(),
        places_once(m),
    ensures
        m.detached(id).tree.wf(),
        places_once(m.detached(id)),
        forall|w: WindowId| #[trigger] m.detached(id).floats(w) <==> (m.floats(w) && w != id),
        forall|w: WindowId| #[trigger] m.detached(id).has(w) <==> (m.has(w) && w != id),
{
    let after = m.detached(id);
    tree::law_remove_drops_the_window(m.tree, id);
    lemma_unfloated(m.floating, id);
    assert forall|w: WindowId| #[trigger] after.floats(w) <==> (m.floats(w) && w != id) by {
        if after.floats(w) {
            let k = choose|k: int|
                0 <= k < after.floating.len() && (#[trigger] after.floating[k]).0 == w;
            assert(m.floating.contains(after.floating[k]));
            let n = m.floating.index_of(after.floating[k]);
            assert(m.floating[n].0 == w);
        }
        if m.floats(w) && w != id {
            let k = choose|k: int| 0 <= k < m.floating.len() && (#[trigger] m.floating[k]).0 == w;
            assert(after.floating.contains(m.floating[k]));
            let n = after.floating.index_of(m.floating[k]);
            assert(after.floating[n].0 == w);
        }
    }
    assert forall|w: WindowId| #[trigger] after.has(w) <==> (m.has(w) && w != id) by {
        assert(after.tree.holds(w) <==> (m.tree.holds(w) && w != id));
        assert(after.floats(w) <==> (m.floats(w) && w != id));
    }
    assert forall|w: WindowId| #[trigger] after.floats(w) implies !after.tree.holds(w) by {
        assert(m.floats(w));
        assert(after.tree.holds(w) ==> m.tree.holds(w));
    }
}

/// Taking a window off a workspace keeps the invariant.
proof fn lemma_detached_wf(w: World, ws: WorkspaceId, id: WindowId)
    requires
        w.wf(),
    ensures
        w.detached(ws, id).wf(),
        w.knows(ws) ==> !w.detached(ws, id).ws(ws).has(id),
{
    if w.knows(ws) {
        let k = ws.0 - 1;
        let m = w.workspaces[k];
        assert(m == w.ws(ws));
        assert(places_once(m) && m.tree.wf());
        lemma_detached_model(m, id);
        let after = w.detached(ws, id);
        assert forall|i: int, x: WindowId|
            0 <= i < after.workspaces.len() && #[trigger] after.workspaces[i].has(
                x,
            ) implies after.windows.contains_key(x) && after.windows[x].workspace.0 == i + 1 by {
            assert(w.workspaces[i].has(x));
        }
        assert forall|i: int, x: WindowId|
            0 <= i < after.workspaces.len() && #[trigger] after.workspaces[i].floats(
                x,
            ) implies after.windows[x].mode == WindowMode::Floating by {
            assert(w.workspaces[i].floats(x));
        }
        assert forall|i: int| 0 <= i < after.workspaces.len() implies places_once(
            #[trigger] after.workspaces[i],
        ) by {
            assert(places_once(w.workspaces[i]));
        }
        lemma_rest_of_wf(w, after);
    }
}

/// Where only the windows on workspaces change, the rest of the invariant stays.
pub proof fn lemma_rest_of_wf(w: World, after: World)
    requires
        w.wf(),
        after.workspaces.len() == w.workspaces.len(),
        after.monitors == w.monitors,
        after.focused_monitor == w.focused_monitor,
        forall|i: int|
            0 <= i < w.monitors.len() ==> after.gaps.suit((#[trigger] w.monitors[i]).info),
        forall|i: int|
            0 <= i < w.workspaces.len() ==> {
                &&& (#[trigger] after.workspaces[i]).id == w.workspaces[i].id
                &&& after.workspaces[i].active_monitor == w.workspaces[i].active_monitor
                &&& after.workspaces[i].tree.wf()
            },
    ensures
        after.sound(),
        after.monitors_linked(),
        after.focus_linked(),
{
    assert forall|i: int| 0 <= i < after.workspaces.len() implies (
    #[trigger] after.workspaces[i]).id.0 == i + 1 && after.workspaces[i].tree.wf() by {
        assert(w.workspaces[i].id.0 == i + 1);
    }
    assert forall|i: int| 0 <= i < after.workspaces.len() implies ((
    #[trigger] after.workspaces[i]).active_monitor matches Some(id) ==> after.monitor(id) is Some
        && after.monitor(id)->0.current_workspace.0 == i + 1) by {
        assert(w.workspaces[i].active_monitor == after.workspaces[i].active_monitor);
    }
}

/// Tiling a window that is on no workspace keeps the invariant, where the
/// registry has it on that workspace.
proof fn lemma_attached_wf(w: World, ws: WorkspaceId, id: WindowId, area: Rect)
    requires
        w.wf(),
        w.knows(ws),
        w.windows.contains_key(id),
        w.windows[id].workspace == ws,
        !w.ws(ws).floats(id),
    ensures
        w.set_tree(ws, w.ws(ws).tree.inserted(id, area)).wf(),
{
    let k = ws.0 - 1;
    let m = w.workspaces[k];
    assert(m == w.ws(ws));
    assert(m.tree.wf() && places_once(m));
    tree::law_insert_adds_the_window(m.tree, id, area);
    let after = w.set_tree(ws, m.tree.inserted(id, area));
    let n = after.workspaces[k];
    assert forall|x: WindowId| #[trigger] n.floats(x) <==> m.floats(x) by {
        assert(n.floating == m.floating);
    }
    assert forall|i: int, x: WindowId|
        0 <= i < after.workspaces.len() && #[trigger] after.workspaces[i].has(
            x,
        ) implies after.windows.contains_key(x) && after.windows[x].workspace.0 == i + 1 by {
        if i == k {
            assert(n.tree.holds(x) <==> (m.tree.holds(x) || x == id));
            if x != id {
                assert(w.workspaces[k].has(x));
            }
        } else {
            assert(w.workspaces[i].has(x));
        }
    }
    assert forall|i: int, x: WindowId|
        0 <= i < after.workspaces.len() && #[trigger] after.workspaces[i].floats(
            x,
        ) implies after.windows[x].mode == WindowMode::Floating by {
        assert(w.workspaces[i].floats(x));
    }
    assert forall|i: int| 0 <= i < after.workspaces.len() implies places_once(
        #[trigger] after.workspaces[i],
    ) by {
        assert(places_once(w.workspaces[i]));
        if i == k {
            assert forall|x: WindowId| #[trigger] n.floats(x) implies !n.tree.holds(x) by {
                assert(m.floats(x));
                assert(n.tree.holds(x) <==> (m.tree.holds(x) || x == id));
            }
        }
    }
    lemma_rest_of_wf(w, after);
}

/// Another record of a managed window, or one of a new window, keeps the
/// invariant, where no workspace says otherwise.
proof fn lemma_registered_wf(w: World, id: WindowId, r: ManagedWindow)
    requires
        w.wf(),
        r.id == id,
        forall|i: int|
            0 <= i < w.workspaces.len() && (#[trigger] w.workspaces[i]).has(id)
                ==> r.workspace.0 == i + 1,
        forall|i: int|
            0 <= i < w.workspaces.len() && (#[trigger] w.workspaces[i]).floats(id) ==> r.mode
                == WindowMode::Floating,
    ensures
        (World { windows: w.windows.insert(id, r), ..w }).wf(),
{
    let after = World { windows: w.windows.insert(id, r), ..w };
    assert forall|i: int, x: WindowId|
        0 <= i < after.workspaces.len() && #[trigger] after.workspaces[i].has(
            x,
        ) implies after.windows.contains_key(x) && after.windows[x].workspace.0 == i + 1 by {
        assert(w.workspaces[i].has(x));
    }
    assert forall|i: int, x: WindowId|
        0 <= i < after.workspaces.len() && #[trigger] after.workspaces[i].floats(
            x,
        ) implies after.windows[x].mode == WindowMode::Floating by {
        assert(w.workspaces[i].floats(x));
    }
    assert forall|x: WindowId| #[trigger] after.windows.contains_key(x) implies after.windows[x].id
        == x by {
        if x != id {
            assert(w.windows.contains_key(x));
        }
    }
    assert forall|i: int| 0 <= i < after.workspaces.len() implies places_once(
        #[trigger] after.workspaces[i],
    ) by {
        assert(places_once(w.workspaces[i]));
    }
    lemma_rest_of_wf(w, after);
}

/// A window of one workspace is on no other.
pub proof fn lemma_nowhere_else(w: World, id: WindowId)
    requires
        w.wf(),
    ensures
        !w.windows.contains_key(id) ==> forall|i: int|
            0 <= i < w.workspaces.len() ==> !(#[trigger] w.workspaces[i]).has(id),
        w.windows.contains_key(id) ==> forall|i: int|
            0 <= i < w.workspaces.len() && i != w.windows[id].workspace.0 - 1 ==> !(
            #[trigger] w.workspaces[i]).has(id),
{
    assert forall|i: int|
        0 <= i < w.workspaces.len() && (#[trigger] w.workspaces[i]).has(
            id,
        ) implies w.windows.contains_key(id) && w.windows[id].workspace.0 == i + 1 by {}
}

proof fn lemma_adopted_wf(
    w: World,
    id: WindowId,
    title: String,
    class: String,
    exe_name: String,
    ws: WorkspaceId,
    elsewhere: Rect,
)
    requires
        w.wf(),
        !w.windows.contains_key(id),
    ensures
        w.adopted(id, title, class, exe_name, ws, elsewhere).wf(),
{
    let r = ManagedWindow {
        id,
        workspace: ws,
        mode: WindowMode::Tiled,
        title,
        class,
        exe_name,
        hidden_by_us: false,
    };
    lemma_nowhere_else(w, id);
    assert forall|i: int| 0 <= i < w.workspaces.len() implies !(
    #[trigger] w.workspaces[i]).floats(id) by {
        assert(!w.workspaces[i].has(id));
    }
    lemma_registered_wf(w, id, r);
    let registered = World { windows: w.windows.insert(id, r), ..w };
    if registered.knows(ws) {
        assert(!w.workspaces[ws.0 - 1].floats(id));
        lemma_attached_wf(registered, ws, id, w.work_area_or(ws, elsewhere));
    }
}

/// Managing a window keeps the invariant, and manages it.
pub proof fn law_manage_keeps_order(
    w: World,
    id: WindowId,
    title: String,
    class: String,
    exe_name: String,
)
    requires
        w.wf(),
    ensures
        w.managed(id, title, class, exe_name).0.wf(),
        w.monitors.len() > 0 ==> w.managed(id, title, class, exe_name).0.windows.contains_key(id),
{
    if !w.windows.contains_key(id) {
        let asked = World { desk: w.desk.asked(id), ..w };
        lemma_refocused_notes(w, asked);
        let host = asked.host_of(w.desk.answer());
        if host is Some {
            let ws = host->0;
            let said = asked.say(Act::DisableTransitions(id));
            lemma_refocused_notes(w, said);
            lemma_adopted_wf(said, id, title, class, exe_name, ws, model::nowhere());
            let there = said.adopted(id, title, class, exe_name, ws, model::nowhere());
            lemma_focusing_wf(there, Some(id));
            let focused = there.focusing(Some(id));
            lemma_retiled_wf(focused, ws);
            law_retile_only_notes(focused, ws);
            assert(focused.windows.contains_key(id));
        } else if w.monitors.len() > 0 {
            assert(asked.focused_workspace() is Some);
        }
    }
}

/// A new window that is on no known monitor joins the focused workspace: it is
/// tiled there and gets the focus.
pub proof fn law_stray_window_joins_the_focus(
    w: World,
    id: WindowId,
    title: String,
    class: String,
    exe_name: String,
)
    requires
        w.wf(),
        w.monitors.len() > 0,
        !w.windows.contains_key(id),
        w.desk.answer() matches Some(r) ==> w.workspace_at(
            nearest::mid_x(r),
            nearest::mid_y(r),
        ) is None,
    ensures
        w.focused_workspace() is Some,
        ({
            let ws = w.focused_workspace()->0;
            let after = w.managed(id, title, class, exe_name).0;
            &&& after.windows.contains_key(id)
            &&& after.windows[id].workspace == ws
            &&& after.windows[id].mode == WindowMode::Tiled
            &&& w.knows(ws) ==> after.ws(ws).tree.holds(id)
            &&& after.focused_window == Some(id)
            &&& after.focused_monitor == w.focused_monitor
        }),
{
    let asked = World { desk: w.desk.asked(id), ..w };
    assert(asked.focused_workspace() == w.focused_workspace());
    if let Some(r) = w.desk.answer() {
        let x = nearest::mid_x(r);
        let y = nearest::mid_y(r);
        if exists|i: int| asked.is_first_at(i, x, y) {
            let i = choose|i: int| asked.is_first_at(i, x, y);
            assert(w.is_first_at(i, x, y));
        }
    }
    let ws = w.focused_workspace()->0;
    assert(asked.host_of(w.desk.answer()) == Some(ws));
    let said = asked.say(Act::DisableTransitions(id));
    let there = said.adopted(id, title, class, exe_name, ws, model::nowhere());
    let focused = there.focusing(Some(id));
    law_retile_only_notes(focused, ws);
    if w.knows(ws) {
        assert(w.workspaces[ws.0 - 1].tree.wf());
        tree::law_insert_adds_the_window(
            w.ws(ws).tree,
            id,
            said.work_area_or(ws, model::nowhere()),
        );
    }
    assert(focused.windows.contains_key(id));
    let after = w.managed(id, title, class, exe_name).0;
    assert(after == focused.retiled(ws).0);
    assert(after.windows.contains_key(id));
    assert(after.workspaces == there.workspaces);
    assert(after.focused_window == Some(id));
    assert(w.knows(ws) ==> there.ws(ws).tree.holds(id));
}

/// Managing a window on a given workspace keeps the invariant, and the focus.
pub proof fn law_routing_keeps_the_focus(
    w: World,
    id: WindowId,
    title: String,
    class: String,
    exe_name: String,
    ws: WorkspaceId,
)
    requires
        w.wf(),
    ensures
        ({
            let after = w.managed_on(id, title, class, exe_name, ws).0;
            &&& after.wf()
            &&& after.windows.contains_key(id)
            &&& !w.windows.contains_key(id) ==> after.windows[id].workspace == ws
            &&& after.focused_window == w.focused_window
            &&& after.focused_monitor == w.focused_monitor
            &&& after.focused_workspace() == w.focused_workspace()
        }),
{
    if !w.windows.contains_key(id) {
        let said = w.say(Act::DisableTransitions(id));
        lemma_refocused_notes(w, said);
        lemma_adopted_wf(said, id, title, class, exe_name, ws, model::default_screen());
        let there = said.adopted(id, title, class, exe_name, ws, model::default_screen());
        assert(there.windows.contains_key(id));
        assert(there.windows[id].workspace == ws);
        assert(there.monitors == w.monitors);
        let after = w.managed_on(id, title, class, exe_name, ws).0;
        if there.shown_on(ws) is None {
            lemma_visit_notes(there, id, Visit::Hide);
            lemma_notes_keep(there, there.visit(id, Visit::Hide));
            assert(after == there.visit(id, Visit::Hide));
        } else {
            lemma_retiled_wf(there, ws);
            law_retile_only_notes(there, ws);
            assert(after == there.retiled(ws).0);
        }
        assert(after.windows.contains_key(id));
        assert(after.monitors == w.monitors);
    }
}

/// Forgetting a window keeps the invariant, and the window is gone.
pub proof fn law_unmanage_forgets(w: World, id: WindowId)
    requires
        w.wf(),
    ensures
        w.unmanaged(id).0.wf(),
        !w.unmanaged(id).0.windows.contains_key(id),
{
    if w.windows.contains_key(id) {
        let ws = w.windows[id].workspace;
        lemma_detached_wf(w, ws, id);
        lemma_nowhere_else(w, id);
        let out = w.detached(ws, id);
        let gone = World { windows: w.windows.remove(id), ..w }.detached(ws, id);
        assert(gone =~= World { windows: w.windows.remove(id), ..out });
        assert forall|i: int| 0 <= i < gone.workspaces.len() implies !(
        #[trigger] gone.workspaces[i]).has(id) by {
            if i != ws.0 - 1 {
                assert(w.workspaces[i] == gone.workspaces[i]);
                assert(!w.workspaces[i].has(id));
            }
        }
        assert forall|i: int, x: WindowId|
            0 <= i < gone.workspaces.len() && #[trigger] gone.workspaces[i].has(
                x,
            ) implies gone.windows.contains_key(x) && gone.windows[x].workspace.0 == i + 1 by {
            assert(out.workspaces[i].has(x));
            assert(!gone.workspaces[i].has(id));
        }
        assert forall|i: int, x: WindowId|
            0 <= i < gone.workspaces.len() && #[trigger] gone.workspaces[i].floats(
                x,
            ) implies gone.windows[x].mode == WindowMode::Floating by {
            assert(out.workspaces[i].floats(x));
            assert(!gone.workspaces[i].has(id));
        }
        assert forall|x: WindowId| #[trigger] gone.windows.contains_key(
            x,
        ) implies gone.windows[x].id == x by {
            assert(out.windows.contains_key(x));
        }
        assert forall|i: int| 0 <= i < gone.workspaces.len() implies places_once(
            #[trigger] gone.workspaces[i],
        ) by {
            assert(places_once(out.workspaces[i]));
        }
        lemma_rest_of_wf(out, gone);
        let next = if gone.focused_window == Some(id) {
            gone.tree_focus(ws)
        } else {
            gone.focused_window
        };
        let refocused = World { focused_window: next, ..gone };
        lemma_refocused_notes(gone, refocused);
        lemma_retiled_wf(refocused, ws);
        law_retile_only_notes(refocused, ws);
    }
}

/// A window that leaves the layout stays managed on its workspace, and takes
/// part in it again when it returns.
pub proof fn law_soft_restore_undoes_soft_remove(w: World, id: WindowId)
    requires
        w.wf(),
    ensures
        w.soft_removed(id).0.wf(),
        w.soft_restored(id).0.wf(),
        !w.soft_removed(id).0.takes_part(id),
        w.windows.contains_key(id) ==> {
            &&& w.soft_removed(id).0.windows.contains_key(id)
            &&& w.soft_removed(id).0.windows[id].workspace == w.windows[id].workspace
        },
        w.windows.contains_key(id) && w.knows(w.windows[id].workspace)
            ==> w.soft_removed(id).0.soft_restored(id).0.takes_part(id),
{
    lemma_soft_restored(w, id);
    let out = w.soft_removed(id).0;
    if w.takes_part(id) {
        let ws = w.windows[id].workspace;
        let gone = w.detached(ws, id);
        lemma_detached_wf(w, ws, id);
        let handed = if gone.focused_window == Some(id) {
            gone.raising(gone.tree_focus(ws))
        } else {
            gone
        };
        lemma_focusing_wf(gone, gone.tree_focus(ws));
        lemma_retiled_wf(handed, ws);
        law_retile_only_notes(handed, ws);
        assert(handed.windows.contains_key(id));
        assert(out.windows.contains_key(id));
        assert(!gone.ws(ws).has(id));
    }
    lemma_soft_restored(out, id);
}

proof fn lemma_soft_restored(w: World, id: WindowId)
    requires
        w.wf(),
    ensures
        w.soft_restored(id).0.wf(),
        w.windows.contains_key(id) && w.knows(w.windows[id].workspace)
            ==> w.soft_restored(id).0.takes_part(id),
{
    if w.windows.contains_key(id) && w.knows(w.windows[id].workspace) {
        let ws = w.windows[id].workspace;
        let area = w.work_area_or(ws, model::nowhere());
        let l = w.ws(ws).tree.inserted(id, area);
        assert(w.workspaces[ws.0 - 1].tree.wf());
        tree::law_insert_adds_the_window(w.ws(ws).tree, id, area);
        let back = if w.ws(ws).has(id) {
            w
        } else {
            w.set_tree(ws, l)
        };
        if !w.ws(ws).has(id) {
            lemma_attached_wf(w, ws, id, area);
            assert(l.holds(id));
            assert(back.ws(ws).tree == l);
        }
        assert(back.ws(ws).has(id));
        lemma_retiled_wf(back, ws);
        law_retile_only_notes(back, ws);
        assert(back.windows.contains_key(id));
        assert(w.soft_restored(id).0.windows.contains_key(id));
    }
}

/// Following the desktop's foreground window keeps the invariant.
pub proof fn law_foreground_keeps_order(w: World, id: WindowId)
    requires
        w.wf(),
    ensures
        w.foregrounded(id).wf(),
        w.windows.contains_key(id) ==> w.foregrounded(id).focused_window == Some(id),
        w.windows.contains_key(id) && w.shown_on(w.windows[id].workspace) is Some
            ==> w.foregrounded(id).focused_workspace() == Some(w.windows[id].workspace),
{
    if w.windows.contains_key(id) {
        let ws = w.windows[id].workspace;
        let focused = w.focusing(Some(id));
        lemma_focusing_wf(w, Some(id));
        let there = match focused.shown_on(ws) {
            Some(m) => World { focused_monitor: Some(m), ..focused },
            None => focused,
        };
        if focused.shown_on(ws) is Some {
            assert(focused.workspaces[ws.0 - 1].active_monitor is Some);
            lemma_led(focused, focused.shown_on(ws)->0);
        }
        if there.knows(ws) {
            assert(there.workspaces[ws.0 - 1].tree.wf());
            tree::law_focus_shows_the_window(there.ws(ws).tree, id);
            lemma_set_tree_wf(there, ws, there.ws(ws).tree.focused_on(id));
        }
    }
}

/// Another monitor that is there can have the focus.
proof fn lemma_led(w: World, m: MonitorId)
    requires
        w.wf(),
        w.monitor(m) is Some,
    ensures
        (World { focused_monitor: Some(m), ..w }).wf(),
{
    let after = World { focused_monitor: Some(m), ..w };
    assert forall|i: int| 0 <= i < after.workspaces.len() implies ((
    #[trigger] after.workspaces[i]).active_monitor matches Some(id) ==> after.monitor(id) is Some
        && after.monitor(id)->0.current_workspace.0 == i + 1) by {
        assert(w.workspaces[i] == after.workspaces[i]);
    }
}

/// A layout mode for all workspaces keeps the invariant and all tiles.
pub proof fn law_layout_mode_moves_no_tile(w: World, mode: LayoutMode, ws: WorkspaceId, area: Rect)
    requires
        w.wf(),
    ensures
        w.with_layout_mode(mode).wf(),
        w.knows(ws) ==> w.with_layout_mode(mode).ws(ws).tree.tiles(area) == w.ws(ws).tree.tiles(
            area,
        ),
{
    let after = w.with_layout_mode(mode);
    assert forall|i: int| 0 <= i < w.workspaces.len() implies {
        &&& (#[trigger] after.workspaces[i]).id == w.workspaces[i].id
        &&& after.workspaces[i].active_monitor == w.workspaces[i].active_monitor
        &&& after.workspaces[i].tree.wf()
    } by {
        assert(w.workspaces[i].tree.wf());
    }
    assert forall|i: int, id: WindowId|
        0 <= i < after.workspaces.len() && #[trigger] after.workspaces[i].has(
            id,
        ) implies after.windows.contains_key(id) && after.windows[id].workspace.0 == i + 1 by {
        assert(w.workspaces[i].floats(id) <==> after.workspaces[i].floats(id));
        assert(w.workspaces[i].has(id));
    }
    assert forall|i: int, id: WindowId|
        0 <= i < after.workspaces.len() && #[trigger] after.workspaces[i].floats(
            id,
        ) implies after.windows[id].mode == WindowMode::Floating by {
        assert(w.workspaces[i].floats(id));
    }
    assert forall|i: int| 0 <= i < after.workspaces.len() implies places_once(
        #[trigger] after.workspaces[i],
    ) by {
        assert(places_once(w.workspaces[i]));
        assert forall|id: WindowId| #[trigger]
            after.workspaces[i].floats(id) implies !after.workspaces[i].tree.holds(id) by {
            assert(w.workspaces[i].floats(id));
        }
    }
    lemma_rest_of_wf(w, after);
}

/// Every command inside a workspace keeps the invariant.
pub proof fn law_commands_keep_order(w: World, dir: Direction, delta: int, forward: bool)
    requires
        w.wf(),
    ensures
        w.focused_toward(dir).0.wf(),
        w.moved_toward(dir).0.wf(),
        w.resized_toward(dir, delta).0.wf(),
        w.monocle_toggled().0.wf(),
        w.mode_toggled().0.wf(),
        w.stack_toggled().0.wf(),
        w.neighbour_swallowed(dir).0.wf(),
        w.member_popped().0.wf(),
        w.stack_cycled(forward).0.wf(),
{
    if w.focused_workspace() is Some {
        let ws = w.focused_workspace()->0;
        let area = w.work_area_or(ws, model::nowhere());
        lemma_retiled_wf(w, ws);
        if w.knows(ws) {
            assert(w.workspaces[ws.0 - 1].tree.wf());
            let l = w.ws(ws).tree;
            lemma_focus_toward_wf(w, ws, dir, area);
            lemma_move_wf(w, ws, dir, area);
            lemma_resize_wf(w, ws, dir, delta, area);
            lemma_set_ws_wf(w, ws, WorkspaceModel { monocle: !w.ws(ws).monocle, ..w.ws(ws) });
            lemma_retiled_wf(
                w.set_ws(ws, WorkspaceModel { monocle: !w.ws(ws).monocle, ..w.ws(ws) }),
                ws,
            );
            let other = Layout { mode: commands::other_mode(l.mode), ..l };
            lemma_set_tree_wf(w, ws, other);
            lemma_refocused_notes(w.set_tree(ws, other), w.mode_toggled().0);
            lemma_stack_toggle_wf(w, ws);
            lemma_swallow_wf(w, ws, dir, area);
            lemma_pop_wf(w, ws);
            lemma_cycle_wf(w, ws, forward);
        }
    }
}

proof fn lemma_focus_toward_wf(w: World, ws: WorkspaceId, dir: Direction, area: Rect)
    requires
        w.wf(),
        w.knows(ws),
        w.focused_workspace() == Some(ws),
        area == w.work_area_or(ws, model::nowhere()),
    ensures
        w.focused_toward(dir).0.wf(),
{
    let l = w.ws(ws).tree;
    assert(w.workspaces[ws.0 - 1].tree.wf());
    if l.focus is Some && l.neighbour(l.focus->0, dir, area) is Some {
        let t = l.neighbour(l.focus->0, dir, area)->0;
        tree::law_focus_shows_the_window(l, t);
        lemma_set_tree_wf(w, ws, l.focused_on(t));
        lemma_focusing_wf(w.set_tree(ws, l.focused_on(t)), Some(t));
    }
}

proof fn lemma_refloat_wf(w: World, ws: WorkspaceId, f: WindowId, place: Rect)
    requires
        w.wf(),
        w.knows(ws),
        w.ws(ws).floats(f),
    ensures
        w.set_ws(ws, commands::refloated(w.ws(ws), f, place)).wf(),
{
    let m = w.ws(ws);
    let k = choose|k: int| 0 <= k < m.floating.len() && (#[trigger] m.floating[k]).0 == f;
    assert(w.workspaces[ws.0 - 1].tree.wf());
    assert(commands::is_float(m, k, f)) by {
        assert(places_once(w.workspaces[ws.0 - 1]));
        assert forall|j: int| 0 <= j < k implies (#[trigger] m.floating[j]).0 != f by {
            assert(m.floating[j].0 != m.floating[k].0);
        }
    }
    let c = commands::float_of(m, f);
    assert(commands::is_float(m, c, f));
    lemma_set_ws_wf(w, ws, commands::refloated(m, f, place));
}

proof fn lemma_move_wf(w: World, ws: WorkspaceId, dir: Direction, area: Rect)
    requires
        w.wf(),
        w.knows(ws),
        w.focused_workspace() == Some(ws),
        area == w.work_area_or(ws, model::nowhere()),
    ensures
        w.moved_toward(dir).0.wf(),
{
    if w.focused_window is Some {
        let f = w.focused_window->0;
        let l = w.ws(ws).tree;
        assert(w.workspaces[ws.0 - 1].tree.wf());
        if w.is_floating(f) {
            if w.focused_float() is Some {
                let place = commands::shifted(w.focused_float()->0, dir);
                lemma_refloat_wf(w, ws, f, place);
                lemma_retiled_wf(w.set_ws(ws, commands::refloated(w.ws(ws), f, place)), ws);
            }
        } else if l.neighbour(f, dir, area) is Some {
            let other = l.neighbour(f, dir, area)->0;
            tree::law_swap_is_its_own_inverse(l, f, other);
            lemma_set_tree_wf(w, ws, l.swapped(f, other));
            lemma_retiled_wf(w.set_tree(ws, l.swapped(f, other)), ws);
        }
    }
}

proof fn lemma_resize_wf(w: World, ws: WorkspaceId, dir: Direction, delta: int, area: Rect)
    requires
        w.wf(),
        w.knows(ws),
        w.focused_workspace() == Some(ws),
        area == w.work_area_or(ws, model::nowhere()),
    ensures
        w.resized_toward(dir, delta).0.wf(),
{
    if w.focused_window is Some {
        let f = w.focused_window->0;
        let l = w.ws(ws).tree;
        assert(w.workspaces[ws.0 - 1].tree.wf());
        if w.is_floating(f) {
            if w.focused_float() is Some {
                let place = commands::stretched(w.focused_float()->0, dir, delta);
                lemma_refloat_wf(w, ws, f, place);
                lemma_retiled_wf(w.set_ws(ws, commands::refloated(w.ws(ws), f, place)), ws);
            }
        } else {
            let pushed = l.resized(f, dir, delta, area);
            tree::law_resize_keeps_windows(l, f, dir, delta, area);
            lemma_set_tree_wf(w, ws, pushed);
            lemma_retiled_wf(w.set_tree(ws, pushed), ws);
        }
    }
}

proof fn lemma_stack_toggle_wf(w: World, ws: WorkspaceId)
    requires
        w.wf(),
        w.knows(ws),
        w.focused_workspace() == Some(ws),
    ensures
        w.stack_toggled().0.wf(),
{
    let l = w.ws(ws).tree;
    assert(w.workspaces[ws.0 - 1].tree.wf());
    lemma_retiled_wf(w, ws);
    if l.tree is Some {
        tree::law_toggle_keeps_windows(l);
        lemma_set_tree_wf(w, ws, l.toggled());
        let toggled = w.set_tree(ws, l.toggled());
        let focused = World { focused_window: toggled.tree_focus(ws), ..toggled };
        lemma_refocused_notes(toggled, focused);
        lemma_retiled_wf(focused, ws);
    }
}

proof fn lemma_settled_wf(w: World, ws: WorkspaceId)
    requires
        w.wf(),
    ensures
        w.settled(ws).0.wf(),
{
    let f = w.tree_focus(ws)->0;
    let focused = World { focused_window: Some(f), ..w }.say(Act::Focus(f));
    lemma_refocused_notes(w, focused);
    lemma_retiled_wf(focused, ws);
}

proof fn lemma_swallow_wf(w: World, ws: WorkspaceId, dir: Direction, area: Rect)
    requires
        w.wf(),
        w.knows(ws),
        w.focused_workspace() == Some(ws),
        area == w.work_area_or(ws, model::nowhere()),
    ensures
        w.neighbour_swallowed(dir).0.wf(),
{
    let l = w.ws(ws).tree;
    assert(w.workspaces[ws.0 - 1].tree.wf());
    tree::law_swallow_keeps_windows(l, dir, area);
    lemma_set_tree_wf(w, ws, l.swallowed(dir, area));
    lemma_settled_wf(w.set_tree(ws, l.swallowed(dir, area)), ws);
}

proof fn lemma_pop_wf(w: World, ws: WorkspaceId)
    requires
        w.wf(),
        w.knows(ws),
        w.focused_workspace() == Some(ws),
    ensures
        w.member_popped().0.wf(),
{
    let l = w.ws(ws).tree;
    assert(w.workspaces[ws.0 - 1].tree.wf());
    tree::law_pop_keeps_windows(l);
    lemma_set_tree_wf(w, ws, l.popped());
    lemma_settled_wf(w.set_tree(ws, l.popped()), ws);
}

proof fn lemma_cycle_wf(w: World, ws: WorkspaceId, forward: bool)
    requires
        w.wf(),
        w.knows(ws),
        w.focused_workspace() == Some(ws),
    ensures
        w.stack_cycled(forward).0.wf(),
{
    let l = w.ws(ws).tree;
    assert(w.workspaces[ws.0 - 1].tree.wf());
    if l.tree is Some && l.focused_node() is Stack {
        tree::law_cycle_goes_round(l, forward);
        lemma_set_tree_wf(w, ws, l.cycled(forward));
        let cycled = w.set_tree(ws, l.cycled(forward));
        let f = cycled.tree_focus(ws)->0;
        let focused = World { focused_window: Some(f), ..cycled };
        lemma_refocused_notes(cycled, focused);
        lemma_retiled_wf(focused, ws);
        let tiled = focused.retiled(ws).0;
        lemma_refocused_notes(tiled, tiled.say(Act::Focus(f)));
    }
}

/// Letting a window float, or tiling it again, keeps the invariant. The window
/// takes part in its workspace afterwards.
pub proof fn law_float_toggle_keeps_order(w: World)
    requires
        w.wf(),
    ensures
        w.float_toggled().0.wf(),
        w.focused_window matches Some(id) ==> (w.windows.contains_key(id) && w.knows(
            w.windows[id].workspace,
        ) ==> w.float_toggled().0.takes_part(id)),
{
    if w.focused_window is Some && w.windows.contains_key(w.focused_window->0) {
        let id = w.focused_window->0;
        let ws = w.windows[id].workspace;
        lemma_nowhere_else(w, id);
        if w.knows(ws) {
            assert(w.workspaces[ws.0 - 1].tree.wf());
        }
        match w.windows[id].mode {
            WindowMode::Tiled => {
                lemma_floated_wf(w, id);
            },
            WindowMode::Floating => {
                lemma_tiled_again_wf(w, id);
            },
        }
    }
}

proof fn lemma_tiled_again_wf(w: World, id: WindowId)
    requires
        w.wf(),
        w.focused_window == Some(id),
        w.windows.contains_key(id),
        w.windows[id].mode == WindowMode::Floating,
    ensures
        w.float_toggled().0.wf(),
        w.knows(w.windows[id].workspace) ==> w.float_toggled().0.takes_part(id),
{
    let ws = w.windows[id].workspace;
    let area = w.work_area_or(ws, model::nowhere());
    let r = ManagedWindow { mode: WindowMode::Tiled, ..w.windows[id] };
    let marked = World { windows: w.windows.insert(id, r), ..w };
    lemma_nowhere_else(w, id);
    if w.knows(ws) {
        let k = ws.0 - 1;
        let m = w.workspaces[k];
        assert(m == w.ws(ws));
        let lifted = WorkspaceModel { floating: workspace::unfloated(m.floating, id), ..m };
        let up = w.set_ws(ws, lifted);
        lemma_unfloated(m.floating, id);
        assert(places_once(m) && m.tree.wf());
        assert forall|x: WindowId| #[trigger] lifted.floats(x) <==> (m.floats(x) && x != id) by {
            lemma_detached_model(m, id);
            assert(m.detached(id).floats(x) <==> (m.floats(x) && x != id));
            assert(m.detached(id).floating == lifted.floating);
            assert(lifted.floats(x) <==> m.detached(id).floats(x));
        }
        assert forall|i: int, x: WindowId|
            0 <= i < up.workspaces.len() && #[trigger] up.workspaces[i].has(
                x,
            ) implies up.windows.contains_key(x) && up.windows[x].workspace.0 == i + 1 by {
            assert(w.workspaces[i].has(x));
        }
        assert forall|i: int, x: WindowId|
            0 <= i < up.workspaces.len() && #[trigger] up.workspaces[i].floats(
                x,
            ) implies up.windows[x].mode == WindowMode::Floating by {
            assert(w.workspaces[i].floats(x));
        }
        assert forall|i: int| 0 <= i < up.workspaces.len() implies places_once(
            #[trigger] up.workspaces[i],
        ) by {
            assert(places_once(w.workspaces[i]));
            if i == k {
                assert forall|x: WindowId| #[trigger] lifted.floats(x) implies !lifted.tree.holds(
                    x,
                ) by {
                    assert(m.floats(x));
                }
            }
        }
        lemma_rest_of_wf(w, up);
        assert forall|i: int| 0 <= i < up.workspaces.len() && (#[trigger] up.workspaces[i]).has(
            id,
        ) implies r.workspace.0 == i + 1 by {
            if i != k {
                assert(!w.workspaces[i].has(id));
            }
        }
        assert forall|i: int| 0 <= i < up.workspaces.len() implies !(
        #[trigger] up.workspaces[i]).floats(id) by {
            if i != k {
                assert(!w.workspaces[i].has(id));
            }
        }
        lemma_registered_wf(up, id, r);
        let reg = World { windows: up.windows.insert(id, r), ..up };
        assert(!reg.workspaces[k].floats(id));
        lemma_attached_wf(reg, ws, id, area);
        let back = reg.set_tree(ws, reg.ws(ws).tree.inserted(id, area));
        let spec_back = marked.set_ws(
            ws,
            WorkspaceModel {
                tree: marked.ws(ws).tree.inserted(id, area),
                floating: workspace::unfloated(marked.ws(ws).floating, id),
                ..marked.ws(ws)
            },
        );
        assert(back.workspaces =~= spec_back.workspaces);
        assert(back == spec_back);
        tree::law_insert_adds_the_window(m.tree, id, area);
        assert(back.ws(ws).tree.holds(id));
        assert(back.ws(ws).has(id));
        lemma_retiled_wf(back, ws);
        law_retile_only_notes(back, ws);
        assert(back.windows.contains_key(id));
        assert(w.float_toggled().0.windows.contains_key(id));
    } else {
        assert forall|i: int| 0 <= i < w.workspaces.len() implies !(
        #[trigger] w.workspaces[i]).floats(id) by {
            assert(!w.workspaces[i].has(id));
        }
        lemma_registered_wf(w, id, r);
        lemma_retiled_wf(marked, ws);
    }
}

proof fn lemma_floated_wf(w: World, id: WindowId)
    requires
        w.wf(),
        w.focused_window == Some(id),
        w.windows.contains_key(id),
        w.windows[id].mode == WindowMode::Tiled,
    ensures
        w.float_toggled().0.wf(),
        w.knows(w.windows[id].workspace) ==> w.float_toggled().0.takes_part(id),
{
    let ws = w.windows[id].workspace;
    let place = match w.desk.answer() {
        Some(r) => r,
        None => model::fallback_place(),
    };
    let r = ManagedWindow { mode: WindowMode::Floating, ..w.windows[id] };
    let marked = World { windows: w.windows.insert(id, r), ..w };
    let asked = World { windows: w.windows.insert(id, r), desk: w.desk.asked(id), ..w };
    lemma_nowhere_else(w, id);
    assert forall|i: int| 0 <= i < w.workspaces.len() && (#[trigger] w.workspaces[i]).has(
        id,
    ) implies r.workspace.0 == i + 1 by {
        assert(w.windows[id].workspace.0 == i + 1);
    }
    lemma_registered_wf(w, id, r);
    lemma_refocused_notes(marked, asked);
    if w.knows(ws) {
        let k = ws.0 - 1;
        let m = asked.workspaces[k];
        assert(m == asked.ws(ws));
        assert(m.tree.wf() && places_once(m));
        tree::law_remove_drops_the_window(m.tree, id);
        let n = WorkspaceModel {
            tree: m.tree.removed(id),
            floating: m.floating.push((id, place)),
            ..m
        };
        let out = asked.set_ws(ws, n);
        assert(!m.floats(id)) by {
            if m.floats(id) {
                assert(w.workspaces[k].floats(id));
            }
        }
        assert forall|x: WindowId| #[trigger] n.floats(x) <==> (m.floats(x) || x == id) by {
            if n.floats(x) {
                let j = choose|j: int|
                    0 <= j < n.floating.len() && (#[trigger] n.floating[j]).0 == x;
                if j < m.floating.len() {
                    assert(m.floating[j].0 == x);
                }
            }
            if m.floats(x) {
                let j = choose|j: int|
                    0 <= j < m.floating.len() && (#[trigger] m.floating[j]).0 == x;
                assert(n.floating[j].0 == x);
            }
            assert(n.floating[m.floating.len() as int].0 == id);
        }
        assert forall|i: int, x: WindowId|
            0 <= i < out.workspaces.len() && #[trigger] out.workspaces[i].has(
                x,
            ) implies out.windows.contains_key(x) && out.windows[x].workspace.0 == i + 1 by {
            if i == k {
                assert(n.tree.holds(x) ==> m.tree.holds(x));
                if x != id {
                    assert(asked.workspaces[k].has(x));
                }
            } else {
                assert(asked.workspaces[i].has(x));
            }
        }
        assert forall|i: int, x: WindowId|
            0 <= i < out.workspaces.len() && #[trigger] out.workspaces[i].floats(
                x,
            ) implies out.windows[x].mode == WindowMode::Floating by {
            if i == k {
                if x != id {
                    assert(asked.workspaces[k].floats(x));
                }
            } else {
                assert(asked.workspaces[i].floats(x));
            }
        }
        assert forall|i: int| 0 <= i < out.workspaces.len() implies places_once(
            #[trigger] out.workspaces[i],
        ) by {
            assert(places_once(asked.workspaces[i]));
            if i == k {
                assert forall|a: int, b: int|
                    0 <= a < n.floating.len() && 0 <= b < n.floating.len() && a
                        != b implies #[trigger] n.floating[a].0 != #[trigger] n.floating[b].0 by {
                    if a < m.floating.len() && b < m.floating.len() {
                        assert(m.floating[a].0 != m.floating[b].0);
                    } else if a < m.floating.len() {
                        assert(m.floating[a].0 != id);
                    } else {
                        assert(m.floating[b].0 != id);
                    }
                }
                assert forall|x: WindowId| #[trigger] n.floats(x) implies !n.tree.holds(x) by {
                    assert(n.tree.holds(x) <==> (m.tree.holds(x) && x != id));
                }
            }
        }
        lemma_rest_of_wf(asked, out);
        assert(n.floats(id));
        assert(out.ws(ws).has(id));
        lemma_retiled_wf(out, ws);
        law_retile_only_notes(out, ws);
        assert(out.windows.contains_key(id));
        assert(w.float_toggled().0.windows.contains_key(id));
    } else {
        lemma_retiled_wf(asked, ws);
    }
}

/// Visits touch nothing but the requests and the notes on windows.
pub proof fn lemma_visits_only_note(w: World, ids: Seq<WindowId>, how: Visit)
    ensures
        w.only_notes(w.visit_all(ids, how)),
{
    lemma_visits_note(w, ids, how);
}

/// Visits keep the invariant.
pub proof fn lemma_visits_keep(w: World, ids: Seq<WindowId>, how: Visit)
    ensures
        w.linked() ==> w.visit_all(ids, how).linked(),
        w.wf() ==> w.visit_all(ids, how).wf(),
{
    lemma_visits_note(w, ids, how);
    lemma_notes_keep(w, w.visit_all(ids, how));
}

/// Notes keep the invariant.
pub proof fn lemma_notes_hold(a: World, b: World)
    requires
        a.only_notes(b),
        a.wf(),
    ensures
        b.wf(),
{
    lemma_notes_keep(a, b);
}

/// Another window in focus keeps the invariant.
pub proof fn lemma_raising_holds(w: World, next: Option<WindowId>)
    requires
        w.wf(),
    ensures
        w.raising(next).wf(),
{
    lemma_focusing_wf(w, next);
}

/// Sending a window from its workspace to another one keeps the invariant, up
/// to the retiling.
pub proof fn lemma_sent_holds(w: World, id: WindowId, target: WorkspaceId, area: Rect)
    requires
        w.wf(),
        w.windows.contains_key(id),
        w.windows[id].workspace != target,
        w.knows(target),
    ensures
        ({
            let out = w.detached(w.windows[id].workspace, id);
            let there = out.set_tree(target, out.ws(target).tree.inserted(id, area));
            let sent = World {
                windows: there.windows.insert(
                    id,
                    ManagedWindow { workspace: target, ..there.windows[id] },
                ),
                ..there
            };
            &&& sent.wf()
            &&& sent.tree_focus(target) == Some(id)
            &&& sent.ws(target).has(id)
        }),
{
    let from = w.windows[id].workspace;
    let out = w.detached(from, id);
    lemma_detached_wf(w, from, id);
    lemma_nowhere_else(w, id);
    assert forall|i: int| 0 <= i < out.workspaces.len() implies !(
    #[trigger] out.workspaces[i]).has(id) by {
        if i != from.0 - 1 {
            assert(w.workspaces[i] == out.workspaces[i]);
            assert(!w.workspaces[i].has(id));
        }
    }
    assert forall|i: int| 0 <= i < out.workspaces.len() implies !(
    #[trigger] out.workspaces[i]).floats(id) by {
        assert(!out.workspaces[i].has(id));
    }
    let r = ManagedWindow { workspace: target, ..out.windows[id] };
    lemma_registered_wf(out, id, r);
    let reg = World { windows: out.windows.insert(id, r), ..out };
    assert(!reg.workspaces[target.0 - 1].has(id));
    lemma_attached_wf(reg, target, id, area);
    assert(reg.workspaces[target.0 - 1].tree.wf());
    tree::law_insert_adds_the_window(reg.ws(target).tree, id, area);
    let there = out.set_tree(target, out.ws(target).tree.inserted(id, area));
    let sent = World {
        windows: there.windows.insert(
            id,
            ManagedWindow { workspace: target, ..there.windows[id] },
        ),
        ..there
    };
    assert(sent == reg.set_tree(target, reg.ws(target).tree.inserted(id, area)));
    assert(sent.ws(target).tree.holds(id));
}

/// Another monitor that is there can have the focus.
pub proof fn lemma_led_holds(w: World, m: MonitorId)
    requires
        w.wf(),
        w.monitor(m) is Some,
    ensures
        (World { focused_monitor: Some(m), ..w }).wf(),
{
    lemma_led(w, m);
}

/// After all windows were revealed none is noted as hidden.
pub proof fn law_restore_reveals_every_window(w: World, order: Seq<WindowId>)
    requires
        model::lists(order, w.windows),
    ensures
        w.only_notes(w.visit_all(order, Visit::Reveal)),
        forall|id: WindowId| #[trigger]
            w.windows.contains_key(id) ==> !w.visit_all(
                order,
                Visit::Reveal,
            ).windows[id].hidden_by_us,
{
    lemma_visits_note(w, order, Visit::Reveal);
    assert forall|id: WindowId| #[trigger] w.windows.contains_key(id) implies !w.visit_all(
        order,
        Visit::Reveal,
    ).windows[id].hidden_by_us by {
        assert(order.contains(id));
        let k = choose|k: int| 0 <= k < order.len() && order[k] == id;
        lemma_revealed(w, order, k);
    }
}

proof fn lemma_revealed(w: World, ids: Seq<WindowId>, k: int)
    requires
        0 <= k < ids.len(),
        w.windows.contains_key(ids[k]),
    ensures
        !w.visit_all(ids, Visit::Reveal).windows[ids[k]].hidden_by_us,
    decreases ids.len(),
{
    lemma_visits_note(w, ids.drop_last(), Visit::Reveal);
    let mid = w.visit_all(ids.drop_last(), Visit::Reveal);
    assert(mid.windows.contains_key(ids[k]));
    if k < ids.len() - 1 {
        lemma_revealed(w, ids.drop_last(), k);
    }
}

} // verus!
