//! What keeps the windows hidden that have to be, and shown that have to be.

use crate::command::Command;
use crate::desk::Act;
use crate::filter::WindowFacts;
use crate::ids::{MonitorId, WindowId, WorkspaceId};
use crate::model;
use crate::model::events;
use crate::model::laws;
use crate::model::moving;
use crate::model::replay;
use crate::model::veil;
use crate::model::{AlreadyVisibleBehaviour, Visit, World};
use crate::rect::{Direction, Rect};
use crate::rules;
use crate::rules::{Rule, RuleAction};
use crate::tree;
use crate::window::{ManagedWindow, WindowMode};
use crate::winevent::WinEvent;
use crate::workspace;
use crate::workspace::WorkspaceModel;
use vstd::prelude::*;

verus! {

impl World {
    /// Whether a window is hidden although its workspace is visible: a stack
    /// covers it, or it has left the layout.
    pub open spec fn covered(self, id: WindowId) -> bool {
        self.hid(id) && self.shown_on(self.windows[id].workspace) is Some
    }

    /// Whether a window is not hidden although its workspace is in the pool: it
    /// has left the layout.
    pub open spec fn stray(self, id: WindowId) -> bool {
        &&& self.windows.contains_key(id)
        &&& !self.windows[id].hidden_by_us
        &&& self.knows(self.windows[id].workspace)
        &&& self.shown_on(self.windows[id].workspace) is None
    }

    /// Whether letting the focused window float, or tiling it again, puts no
    /// window in view that is hidden, nor one into the pool that is not.
    pub open spec fn can_toggle_float(self) -> bool {
        self.focused_window matches Some(id) ==> {
            &&& !self.stray(id)
            &&& self.windows[id].mode == WindowMode::Tiled ==> !self.covered(id)
        }
    }
}

/// Whether `after` has the same windows hidden on the same workspaces, but that
/// the workspace `ws` may have fewer windows, in other places, and `id` too.
spec fn joined(w: World, after: World, ws: WorkspaceId, id: WindowId) -> bool {
    &&& after.workspaces.len() == w.workspaces.len()
    &&& forall|i: int|
        0 <= i < w.workspaces.len() && i != ws.0 - 1 ==> {
            &&& #[trigger] after.workspaces[i] == w.workspaces[i]
            &&& !w.workspaces[i].has(id)
        }
    &&& w.knows(ws) ==> {
        &&& after.ws(ws).active_monitor == w.ws(ws).active_monitor
        &&& forall|x: WindowId| x != id && #[trigger] after.ws(ws).has(x) ==> w.ws(ws).has(x)
        &&& forall|x: WindowId| x != id && #[trigger] after.ws(ws).floats(x) ==> w.ws(ws).floats(x)
        &&& after.ws(ws).active_monitor is None && after.ws(ws).has(id)
            ==> after.windows[id].hidden_by_us
        &&& after.ws(ws).active_monitor is Some && after.ws(ws).floats(id)
            ==> !after.windows[id].hidden_by_us
    }
    &&& forall|x: WindowId|
        x != id ==> (#[trigger] after.windows[x]).hidden_by_us == w.windows[x].hidden_by_us
}

/// A workspace that a window has joined or left is in order once it has been
/// retiled.
proof fn lemma_joined(w: World, after: World, ws: WorkspaceId, id: WindowId)
    requires
        w.sound(),
        w.veiled(),
        joined(w, after, ws, id),
        after.retiled(ws).0.wf(),
    ensures
        after.retiled(ws).0.veiled(),
{
    lemma_joined_parts(w, after, ws, id);
    veil::lemma_retiled(after, ws);
}

proof fn lemma_joined_parts(w: World, after: World, ws: WorkspaceId, id: WindowId)
    requires
        w.sound(),
        w.veiled(),
        joined(w, after, ws, id),
    ensures
        forall|i: int|
            0 <= i < after.workspaces.len() && i != ws.0 - 1 ==> #[trigger] after.veiled_at(i),
        w.knows(ws) ==> after.ready_at(ws.0 - 1),
{
    assert forall|i: int| 0 <= i < after.workspaces.len() && i != ws.0
        - 1 implies #[trigger] after.veiled_at(i) by {
        assert(w.veiled_at(i));
        assert(after.workspaces[i] == w.workspaces[i]);
        assert forall|x: WindowId| #[trigger] after.workspaces[i].has(
            x,
        ) implies after.windows[x].hidden_by_us == w.windows[x].hidden_by_us by {
            assert(x != id);
        }
        veil::lemma_untouched(w, after, i);
    }
    if w.knows(ws) {
        let k = ws.0 - 1;
        assert(w.veiled_at(k));
        let m = w.workspaces[k];
        let n = after.workspaces[k];
        assert(n == after.ws(ws) && m == w.ws(ws));
        if n.active_monitor is None {
            assert forall|x: WindowId| #[trigger] n.has(x) implies after.windows[x].hidden_by_us by {
                if x != id {
                    assert(after.ws(ws).has(x));
                    assert(m.has(x));
                }
            }
        } else {
            assert forall|x: WindowId| #[trigger] n.floats(
                x,
            ) implies !after.windows[x].hidden_by_us by {
                if x != id {
                    assert(after.ws(ws).floats(x));
                    assert(veil::in_view(m, x));
                }
            }
        }
    }
}

/// Letting a window float, or tiling it again, keeps what is hidden in order. This
/// is not of a window that has left the layout, nor of one that a stack covers.
pub proof fn law_float_toggle_keeps_the_veil(w: World)
    requires
        w.wf(),
        w.veiled(),
        w.can_toggle_float(),
    ensures
        w.float_toggled().0.veiled(),
{
    laws::law_float_toggle_keeps_order(w);
    if w.focused_window is Some && w.windows.contains_key(w.focused_window->0) {
        let id = w.focused_window->0;
        let ws = w.windows[id].workspace;
        laws::lemma_nowhere_else(w, id);
        let k = ws.0 - 1;
        match w.windows[id].mode {
            WindowMode::Tiled => {
                let place = match w.desk.answer() {
                    Some(r) => r,
                    None => model::fallback_place(),
                };
                let asked = World {
                    windows: w.windows.insert(
                        id,
                        ManagedWindow { mode: WindowMode::Floating, ..w.windows[id] },
                    ),
                    desk: w.desk.asked(id),
                    ..w
                };
                if w.knows(ws) {
                    let m = w.workspaces[k];
                    assert(m == w.ws(ws) && m.tree.wf());
                    tree::law_remove_drops_the_window(m.tree, id);
                    let n = WorkspaceModel {
                        tree: m.tree.removed(id),
                        floating: m.floating.push((id, place)),
                        ..m
                    };
                    let out = asked.set_ws(ws, n);
                    assert(out.ws(ws) == n);
                    assert forall|x: WindowId| x != id && #[trigger] n.floats(x) implies m.floats(
                        x,
                    ) by {
                        let j = choose|j: int|
                            0 <= j < n.floating.len() && (#[trigger] n.floating[j]).0 == x;
                        assert(m.floating[j].0 == x);
                    }
                    assert forall|x: WindowId| x != id && #[trigger] n.has(x) implies m.has(x) by {
                        if n.floats(x) {
                            assert(m.floats(x));
                        } else {
                            assert(m.tree.removed(id).holds(x));
                        }
                    }
                    assert(joined(w, out, ws, id));
                    lemma_joined(w, out, ws, id);
                } else {
                    assert(joined(w, asked, ws, id));
                    lemma_joined(w, asked, ws, id);
                }
            },
            WindowMode::Floating => {
                let area = w.work_area_or(ws, model::nowhere());
                let marked = World {
                    windows: w.windows.insert(
                        id,
                        ManagedWindow { mode: WindowMode::Tiled, ..w.windows[id] },
                    ),
                    ..w
                };
                if w.knows(ws) {
                    let m = w.workspaces[k];
                    assert(m == w.ws(ws) && m.tree.wf());
                    tree::law_insert_adds_the_window(m.tree, id, area);
                    laws::lemma_unfloated(m.floating, id);
                    let n = WorkspaceModel {
                        tree: m.tree.inserted(id, area),
                        floating: workspace::unfloated(m.floating, id),
                        ..m
                    };
                    let back = marked.set_ws(ws, n);
                    assert(back.ws(ws) == n);
                    assert forall|x: WindowId| #[trigger] n.floats(x) implies m.floats(x) && x
                        != id by {
                        let j = choose|j: int|
                            0 <= j < n.floating.len() && (#[trigger] n.floating[j]).0 == x;
                        assert(m.floating.contains(n.floating[j]));
                        let b = m.floating.index_of(n.floating[j]);
                        assert(m.floating[b].0 == x);
                    }
                    assert forall|x: WindowId| x != id && #[trigger] n.has(x) implies m.has(x) by {
                        if n.floats(x) {
                            assert(m.floats(x));
                        } else {
                            assert(m.tree.inserted(id, area).holds(x));
                        }
                    }
                    assert(joined(w, back, ws, id));
                    lemma_joined(w, back, ws, id);
                } else {
                    assert(joined(w, marked, ws, id));
                    lemma_joined(w, marked, ws, id);
                }
            },
        }
    }
}

// ---- windows come and go ----------------------------------------------------

/// A new window on a workspace.
proof fn lemma_adopted(
    w: World,
    id: WindowId,
    title: String,
    class: String,
    exe_name: String,
    ws: WorkspaceId,
    elsewhere: Rect,
)
    requires
        w.wf(),
        !w.windows.contains_key(id),
    ensures
        ({
            let after = w.adopted(id, title, class, exe_name, ws, elsewhere);
            &&& w.knows(ws) && w.ws(ws).active_monitor is None || joined(w, after, ws, id)
            &&& after.windows.contains_key(id)
            &&& after.windows[id].workspace == ws
            &&& after.windows[id].mode == WindowMode::Tiled
            &&& !after.windows[id].hidden_by_us
            &&& w.knows(ws) ==> after.ws(ws).active_monitor == w.ws(ws).active_monitor
            &&& w.knows(ws) ==> after.ws(ws).tree.focus == Some(id) && after.ws(ws).tree.wf()
            &&& forall|i: int|
                0 <= i < w.workspaces.len() && i != ws.0 - 1 ==> #[trigger] after.workspaces[i]
                    == w.workspaces[i]
            &&& forall|x: WindowId|
                x != id && w.knows(ws) && #[trigger] after.ws(ws).has(x) ==> w.ws(ws).has(x)
        }),
{
    laws::lemma_nowhere_else(w, id);
    let after = w.adopted(id, title, class, exe_name, ws, elsewhere);
    if w.knows(ws) {
        let m = w.workspaces[ws.0 - 1];
        let area = w.work_area_or(ws, elsewhere);
        assert(m == w.ws(ws) && m.tree.wf());
        assert(!m.has(id));
        tree::law_insert_adds_the_window(m.tree, id, area);
        let n = after.ws(ws);
        assert(n == (WorkspaceModel { tree: m.tree.inserted(id, area), ..m }));
        assert forall|x: WindowId| #[trigger] n.floats(x) <==> m.floats(x) by {
            assert(n.floating == m.floating);
        }
        assert forall|x: WindowId| x != id && #[trigger] n.has(x) implies m.has(x) by {
            assert(n.floats(x) <==> m.floats(x));
            assert(m.tree.inserted(id, area).holds(x) <==> (m.tree.holds(x) || x == id));
        }
    }
}

/// A new window keeps what is hidden in order, where the workspace that hosts it
/// is visible. The window is not hidden then.
pub proof fn law_manage_keeps_the_veil(
    w: World,
    id: WindowId,
    title: String,
    class: String,
    exe_name: String,
)
    requires
        w.wf(),
        w.veiled(),
        w.has_visible_host(),
    ensures
        ({
            let after = w.managed(id, title, class, exe_name).0;
            &&& after.veiled()
            &&& !w.windows.contains_key(id) && after.windows.contains_key(id) ==> {
                &&& !after.windows[id].hidden_by_us
                &&& after.knows(after.windows[id].workspace) ==> after.shown_on(
                    after.windows[id].workspace,
                ) is Some
            }
        }),
{
    laws::law_manage_keeps_order(w, id, title, class, exe_name);
    if !w.windows.contains_key(id) {
        let asked = World { desk: w.desk.asked(id), ..w };
        replay::lemma_host_twins(asked, w, w.desk.answer());
        veil::lemma_same(w, asked);
        if let Some(ws) = asked.host_of(w.desk.answer()) {
            let said = asked.say(Act::DisableTransitions(id));
            assert(w.only_notes(said));
            laws::lemma_notes_hold(w, said);
            veil::lemma_same(w, said);
            let there = said.adopted(id, title, class, exe_name, ws, model::nowhere());
            lemma_adopted(said, id, title, class, exe_name, ws, model::nowhere());
            let focused = there.focusing(Some(id));
            assert(joined(said, focused, ws, id));
            lemma_joined(said, focused, ws, id);
            laws::law_retile_only_notes(focused, ws);
            let after = focused.retiled(ws).0;
            assert(focused.windows.contains_key(id));
            assert(after.windows.contains_key(id));
            if w.knows(ws) {
                assert(after.veiled_at(ws.0 - 1));
                assert(veil::in_view(after.workspaces[ws.0 - 1], id));
            } else {
                assert(after == focused);
            }
        }
    }
}

/// A new window on a given workspace keeps what is hidden in order.
pub proof fn law_routing_keeps_the_veil(
    w: World,
    id: WindowId,
    title: String,
    class: String,
    exe_name: String,
    ws: WorkspaceId,
)
    requires
        w.wf(),
        w.veiled(),
    ensures
        w.managed_on(id, title, class, exe_name, ws).0.veiled(),
{
    laws::law_routing_keeps_the_focus(w, id, title, class, exe_name, ws);
    if !w.windows.contains_key(id) {
        let said = w.say(Act::DisableTransitions(id));
        assert(w.only_notes(said));
        laws::lemma_notes_hold(w, said);
        veil::lemma_same(w, said);
        let there = said.adopted(id, title, class, exe_name, ws, model::default_screen());
        lemma_adopted(said, id, title, class, exe_name, ws, model::default_screen());
        if there.shown_on(ws) is None {
            let after = there.visit(id, Visit::Hide);
            assert(joined(said, after, ws, id));
            lemma_joined_parts(said, after, ws, id);
            assert forall|i: int| 0 <= i < after.workspaces.len() implies #[trigger] after.veiled_at(
                i,
            ) by {
                if i == ws.0 - 1 {
                    assert(after.ready_at(i));
                }
            }
        } else {
            assert(joined(said, there, ws, id));
            lemma_joined(said, there, ws, id);
        }
    }
}

/// Without a window of a workspace.
proof fn lemma_detached(w: World, after: World, ws: WorkspaceId, id: WindowId)
    requires
        w.wf(),
        w.windows.contains_key(id),
        w.windows[id].workspace == ws,
        after.workspaces == w.detached(ws, id).workspaces,
        forall|x: WindowId|
            x != id ==> (#[trigger] after.windows[x]).hidden_by_us == w.windows[x].hidden_by_us,
    ensures
        joined(w, after, ws, id),
{
    laws::lemma_nowhere_else(w, id);
    if w.knows(ws) {
        let m = w.workspaces[ws.0 - 1];
        assert(m == w.ws(ws) && m.tree.wf() && laws::places_once(m));
        laws::lemma_detached_model(m, id);
        assert(after.ws(ws) == m.detached(id));
    }
}

/// Forgetting a window keeps what is hidden in order.
pub proof fn law_unmanage_keeps_the_veil(w: World, id: WindowId)
    requires
        w.wf(),
        w.veiled(),
    ensures
        w.unmanaged(id).0.veiled(),
{
    laws::law_unmanage_forgets(w, id);
    if w.windows.contains_key(id) {
        let ws = w.windows[id].workspace;
        let gone = World { windows: w.windows.remove(id), ..w }.detached(ws, id);
        let next = if gone.focused_window == Some(id) {
            gone.tree_focus(ws)
        } else {
            gone.focused_window
        };
        let after = World { focused_window: next, ..gone };
        lemma_detached(w, after, ws, id);
        lemma_joined(w, after, ws, id);
    }
}

/// A window that leaves the layout, and one that returns to it, keep what is
/// hidden in order. This is not of a window that returns while it is not hidden
/// and its workspace is in the pool.
pub proof fn law_leaving_keeps_the_veil(w: World, id: WindowId)
    requires
        w.wf(),
        w.veiled(),
    ensures
        w.soft_removed(id).0.veiled(),
        !w.stray(id) ==> w.soft_restored(id).0.veiled(),
{
    laws::law_soft_restore_undoes_soft_remove(w, id);
    if w.takes_part(id) {
        let ws = w.windows[id].workspace;
        let out = w.detached(ws, id);
        let handed = if out.focused_window == Some(id) {
            out.raising(out.tree_focus(ws))
        } else {
            out
        };
        lemma_detached(w, handed, ws, id);
        lemma_joined(w, handed, ws, id);
    }
    if w.windows.contains_key(id) && w.knows(w.windows[id].workspace) && !w.stray(id) {
        let ws = w.windows[id].workspace;
        if w.ws(ws).has(id) {
            veil::law_retiling_keeps_the_veil(w, ws);
        } else {
            let area = w.work_area_or(ws, model::nowhere());
            let m = w.workspaces[ws.0 - 1];
            assert(m == w.ws(ws) && m.tree.wf());
            laws::lemma_nowhere_else(w, id);
            tree::law_insert_adds_the_window(m.tree, id, area);
            let n = WorkspaceModel { tree: m.tree.inserted(id, area), ..m };
            let back = w.set_tree(ws, m.tree.inserted(id, area));
            assert(back.ws(ws) == n);
            assert forall|x: WindowId| #[trigger] n.floats(x) <==> m.floats(x) by {
                assert(n.floating == m.floating);
            }
            assert forall|x: WindowId| x != id && #[trigger] n.has(x) implies m.has(x) by {
                assert(n.floats(x) <==> m.floats(x));
                assert(m.tree.inserted(id, area).holds(x) <==> (m.tree.holds(x) || x == id));
            }
            assert(joined(w, back, ws, id));
            lemma_joined(w, back, ws, id);
        }
    }
}

/// Following the foreground keeps what is hidden in order. This is not of a window
/// that comes to the foreground while a stack covers it; it is shown with the next
/// retiling.
pub proof fn law_foreground_keeps_the_veil(w: World, id: WindowId)
    requires
        w.wf(),
        w.veiled(),
        !w.covered(id),
    ensures
        w.foregrounded(id).veiled(),
{
    if w.windows.contains_key(id) {
        let ws = w.windows[id].workspace;
        if w.knows(ws) {
            veil::lemma_focus_moves(w, w.foregrounded(id), ws, id);
        } else {
            veil::lemma_same(w, w.foregrounded(id));
        }
    }
}

// ---- workspaces move --------------------------------------------------------

/// A workspace that comes onto a monitor, and the one that goes to the pool, are
/// in order afterwards. The others stay as they are.
#[verifier::spinoff_prover]
pub proof fn lemma_swapped_at(w: World, m: MonitorId, incoming: WorkspaceId, i: int)
    requires
        w.wf(),
        w.monitor(m) is Some,
        0 <= i < w.workspaces.len(),
    ensures
        ({
            let outgoing = w.monitor(m)->0.current_workspace;
            let after = w.swapped_onto(m, incoming).0;
            &&& after.workspaces.len() == w.workspaces.len()
            &&& after.workspaces[i].active_monitor == (if i == incoming.0 - 1 {
                Some(m)
            } else if i == outgoing.0 - 1 {
                None
            } else {
                w.workspaces[i].active_monitor
            })
            &&& i == incoming.0 - 1 || i == outgoing.0 - 1 || w.veiled_at(i)
                ==> after.veiled_at(i)
        }),
{
    let outgoing = w.monitor(m)->0.current_workspace;
    let hidden = w.visit_all(w.windows_on(outgoing), Visit::Hide);
    w.lemma_visits(w.windows_on(outgoing), Visit::Hide);
    laws::lemma_visits_keep(w, w.windows_on(outgoing), Visit::Hide);
    let away = hidden.unbound(outgoing);
    moving::lemma_unbound(hidden, outgoing);
    let bound = away.bound(incoming, m);
    moving::lemma_windows_keep(away, bound);
    let ids = away.windows_on(incoming);
    bound.lemma_visits(ids, Visit::Show);
    let shown = bound.visit_all(ids, Visit::Show);
    let here = shown.set_current(m, incoming);
    laws::law_retile_only_notes(here, incoming);
    let tiled = here.retiled(incoming).0;
    moving::law_take_over_shows_the_workspace(w, m, incoming);
    let after = w.swapped_onto(m, incoming).0;
    laws::lemma_refocused_notes(after, tiled);
    assert(after.workspaces == here.workspaces);
    if i == incoming.0 - 1 || i == outgoing.0 - 1 || w.veiled_at(i) {
        let n = here.workspaces[i];
        assert(n.tree == w.workspaces[i].tree && n.floating == w.workspaces[i].floating);
        assert(w.workspaces[i].tree.wf());
        assert forall|id: WindowId| #[trigger] n.has(id) implies w.workspaces[i].has(id)
            && here.windows[id].hidden_by_us == (if i == incoming.0 - 1 {
            false
        } else if i == outgoing.0 - 1 {
            true
        } else {
            w.windows[id].hidden_by_us
        }) by {
            assert(n.floats(id) <==> w.workspaces[i].floats(id));
            assert(w.workspaces[i].has(id));
            assert(w.windows.contains_key(id));
            lemma_hides(w, outgoing, i, id);
            assert(bound.workspaces[i].tree == n.tree && bound.workspaces[i].floating
                == n.floating);
            assert(bound.workspaces[i].floats(id) <==> n.floats(id));
            assert(bound.workspaces[i].has(id));
            if w.knows(incoming) {
                assert(w.workspaces[incoming.0 - 1].tree.wf());
                assert(bound.ws(incoming).tree == away.ws(incoming).tree);
                assert(bound.ws(incoming).floating == away.ws(incoming).floating);
                assert(bound.windows_on(incoming) == ids);
                veil::lemma_visited_workspace(bound, incoming, Visit::Show, i, id);
            }
        }
        if i == incoming.0 - 1 {
            assert(here.ready_at(i)) by {
                assert forall|id: WindowId| #[trigger] n.floats(
                    id,
                ) implies !here.windows[id].hidden_by_us by {
                    assert(n.has(id));
                }
            }
        } else if i == outgoing.0 - 1 {
            assert(here.veiled_at(i));
        } else {
            veil::lemma_untouched(w, here, i);
        }
        veil::lemma_retiled_at(here, incoming, i);
        assert(after.windows == tiled.windows);
        assert(tiled.veiled_at(i));
    }
}

/// Hiding the windows of a workspace.
proof fn lemma_hides(w: World, ws: WorkspaceId, i: int, id: WindowId)
    requires
        w.linked(),
        0 <= i < w.workspaces.len(),
        w.workspaces[i].has(id),
    ensures
        w.visit_all(w.windows_on(ws), Visit::Hide).windows[id].hidden_by_us == (if i == ws.0 - 1 {
            true
        } else {
            w.windows[id].hidden_by_us
        }),
{
    if w.knows(ws) {
        assert(w.workspaces[ws.0 - 1].tree.wf());
        veil::lemma_visited_workspace(w, ws, Visit::Hide, i, id);
    }
}

/// Putting a workspace on a monitor keeps what is hidden in order.
pub proof fn law_take_over_keeps_the_veil(w: World, m: MonitorId, incoming: WorkspaceId)
    requires
        w.wf(),
        w.veiled(),
    ensures
        w.swapped_onto(m, incoming).0.veiled(),
{
    if w.monitor(m) is Some {
        let after = w.swapped_onto(m, incoming).0;
        moving::law_take_over_shows_the_workspace(w, m, incoming);
        assert forall|i: int| 0 <= i < after.workspaces.len() implies #[trigger] after.veiled_at(
            i,
        ) by {
            assert(w.veiled_at(i));
            lemma_swapped_at(w, m, incoming, i);
        }
    }
}

impl World {
    /// Whether the workspace that a monitor has is on a monitor. It is not where two
    /// monitors have shared a workspace and one of them has let it go.
    pub open spec fn is_lit(self, id: MonitorId) -> bool {
        self.monitor(id) matches Some(m) ==> self.knows(m.current_workspace) ==> self.shown_on(
            m.current_workspace,
        ) is Some
    }
}

/// Switching to a workspace keeps what is hidden in order: the workspace that
/// goes to the pool takes its windows along, and the one that comes shows them.
/// This is of a focused monitor whose workspace is on a monitor.
pub proof fn law_switch_keeps_the_veil(w: World, target: WorkspaceId)
    requires
        w.wf(),
        w.veiled(),
        w.focused_monitor matches Some(m) ==> w.is_lit(m),
    ensures
        w.switched(target).0.veiled(),
{
    moving::law_switch_shows_the_workspace(w, target);
    if w.knows(target) && w.focused_monitor is Some {
        let here = w.focused_monitor->0;
        let own = w.monitor(here)->0.current_workspace;
        if own != target {
            law_take_over_keeps_the_veil(w, here, target);
            if w.shown_on(target) is Some && w.shown_on(target)->0@ != here@ {
                let there = w.shown_on(target)->0;
                match w.on_already_visible {
                    AlreadyVisibleBehaviour::FocusOtherMonitor => {
                        veil::lemma_same(w, w.switched(target).0);
                    },
                    AlreadyVisibleBehaviour::Swap => {
                        moving::lemma_exchanged_wf(w, here, there, target);
                        let swapped = w.bound(own, there).bound(target, here).set_current(
                            here,
                            target,
                        ).set_current(there, own);
                        assert forall|i: int|
                            0 <= i < swapped.workspaces.len() implies #[trigger] swapped.veiled_at(
                            i,
                        ) by {
                            assert(w.veiled_at(i));
                            assert(w.workspaces[i].tree.wf());
                            veil::lemma_untouched(w, swapped, i);
                        }
                        veil::law_retiling_keeps_the_veil(swapped, own);
                        let once = swapped.retiled(own).0;
                        veil::law_retiling_keeps_the_veil(once, target);
                        let twice = once.retiled(target).0;
                        veil::lemma_same(twice, twice.raising(twice.tree_focus(target)));
                    },
                }
            }
        }
    }
}

/// Switching a given monitor keeps what is hidden in order, where its workspace
/// is on a monitor.
pub proof fn law_click_keeps_the_veil(w: World, target: WorkspaceId, m: MonitorId)
    requires
        w.wf(),
        w.veiled(),
        w.is_lit(m),
    ensures
        w.switched_on(target, m).0.veiled(),
{
    if w.monitor(m) is Some {
        laws::lemma_led_holds(w, m);
        let led = World { focused_monitor: Some(m), ..w };
        veil::lemma_same(w, led);
        assert(led.monitor(m) == w.monitor(m));
        law_switch_keeps_the_veil(led, target);
    }
}

/// Sending the focused window to another workspace keeps what is hidden in order,
/// where the desktop accepted the positions.
#[verifier::spinoff_prover]
pub proof fn law_send_keeps_the_veil(w: World, target: WorkspaceId)
    requires
        w.wf(),
        w.veiled(),
    ensures
        w.sent_to(target).1 is Ok ==> w.sent_to(target).0.veiled(),
{
    if w.focused_window is Some && w.windows.contains_key(w.focused_window->0) && w.knows(target)
        && w.windows[w.focused_window->0].workspace != target && w.sent_to(target).1 is Ok {
        let id = w.focused_window->0;
        let from = w.windows[id].workspace;
        let out = w.detached(from, id);
        let area = out.work_area_or(target, model::default_screen());
        laws::lemma_sent_holds(w, id, target, area);
        let there = out.set_tree(target, out.ws(target).tree.inserted(id, area));
        let sent = World {
            windows: there.windows.insert(
                id,
                ManagedWindow { workspace: target, ..there.windows[id] },
            ),
            ..there
        };
        laws::law_retile_only_notes(sent, from);
        let left = sent.retiled(from).0;
        laws::lemma_notes_hold(sent, left);
        let k = target.0 - 1;
        lemma_detached(w, out, from, id);
        lemma_joined_parts(w, out, from, id);
        assert forall|i: int| 0 <= i < left.workspaces.len() && i
            != k implies #[trigger] left.veiled_at(i) by {
            lemma_sent_spares(w, out, sent, from, target, id, i);
            veil::lemma_retiled_at(sent, from, i);
        }
        if left.shown_on(target) is None {
            let here = left.focused_monitor->0;
            let after = left.swapped_onto(here, target).0;
            moving::law_take_over_shows_the_workspace(left, here, target);
            assert forall|i: int| 0 <= i < after.workspaces.len() implies #[trigger] after.veiled_at(
                i,
            ) by {
                if i != k {
                    assert(left.veiled_at(i));
                }
                lemma_swapped_at(left, here, target, i);
            }
        } else {
            let m = left.shown_on(target)->0;
            assert(left.workspaces[k].active_monitor == Some(m));
            let seen = left.visit(id, Visit::Show);
            let shown = World { focused_monitor: Some(m), ..seen };
            moving::law_send_follows_the_window(w, target);
            let tiled = shown.retiled(target).0;
            laws::law_retile_only_notes(shown, target);
            laws::lemma_refocused_notes(w.sent_to(target).0, tiled);
            assert forall|i: int| 0 <= i < shown.workspaces.len() && i
                != k implies #[trigger] shown.veiled_at(i) by {
                assert(left.veiled_at(i));
                assert(left.workspaces[i].tree.wf());
                assert forall|x: WindowId| #[trigger] shown.workspaces[i].has(
                    x,
                ) implies shown.windows[x].hidden_by_us == left.windows[x].hidden_by_us by {
                    assert(left.workspaces[i].has(x));
                    assert(sent.workspaces[k].has(id));
                    assert(left.workspaces[k].has(id));
                    veil::lemma_apart(left, i, k, x);
                }
                veil::lemma_untouched(left, shown, i);
            }
            assert(shown.ready_at(k)) by {
                assert forall|x: WindowId| #[trigger] shown.workspaces[k].floats(
                    x,
                ) implies !shown.windows[x].hidden_by_us by {
                    lemma_sent_floats(w, out, sent, from, target, id, x);
                }
            }
            veil::lemma_retiled(shown, target);
            veil::lemma_same(tiled, w.sent_to(target).0);
        }
    }
}

/// The workspaces that a window is not sent to.
proof fn lemma_sent_spares(
    w: World,
    out: World,
    sent: World,
    from: WorkspaceId,
    target: WorkspaceId,
    id: WindowId,
    i: int,
)
    requires
        w.wf(),
        w.windows.contains_key(id),
        w.windows[id].workspace == from,
        out == w.detached(from, id),
        sent.workspaces.len() == out.workspaces.len(),
        0 <= i < out.workspaces.len(),
        i != target.0 - 1,
        sent.workspaces[i] == out.workspaces[i],
        forall|x: WindowId|
            x != id ==> (#[trigger] sent.windows[x]).hidden_by_us == out.windows[x].hidden_by_us,
        i != from.0 - 1 ==> out.veiled_at(i),
        i == from.0 - 1 ==> out.ready_at(i),
        !out.workspaces[i].has(id),
    ensures
        i != from.0 - 1 ==> sent.veiled_at(i),
        i == from.0 - 1 ==> sent.ready_at(i),
{
    let n = out.workspaces[i];
    assert forall|x: WindowId| #[trigger] n.has(x) implies x != id by {}
    if i != from.0 - 1 {
        assert(w.workspaces[i].tree.wf());
        veil::lemma_untouched(out, sent, i);
    } else if n.active_monitor is Some {
        assert forall|x: WindowId| #[trigger] n.floats(x) implies !sent.windows[x].hidden_by_us by {
            assert(n.has(x));
        }
    }
}

/// The floating windows of the workspace that a window is sent to.
proof fn lemma_sent_floats(
    w: World,
    out: World,
    sent: World,
    from: WorkspaceId,
    target: WorkspaceId,
    id: WindowId,
    x: WindowId,
)
    requires
        w.wf(),
        w.veiled(),
        sent.wf(),
        from != target,
        w.knows(target),
        w.windows.contains_key(id),
        w.windows[id].workspace == from,
        out == w.detached(from, id),
        sent.workspaces.len() == w.workspaces.len(),
        sent.ws(target).floating == w.ws(target).floating,
        sent.ws(target).active_monitor == w.ws(target).active_monitor,
        sent.ws(target).active_monitor is Some,
        forall|y: WindowId|
            y != id ==> (#[trigger] sent.windows[y]).hidden_by_us == w.windows[y].hidden_by_us,
        sent.ws(target).floats(x),
    ensures
        x != id ==> !sent.retiled(from).0.windows[x].hidden_by_us,
{
    let k = target.0 - 1;
    assert(w.veiled_at(k));
    assert(w.ws(target).floats(x));
    assert(veil::in_view(w.workspaces[k], x));
    assert(sent.workspaces[k].has(x));
    if sent.knows(from) {
        assert(sent.workspaces[from.0 - 1].tree.wf());
    }
    veil::lemma_retiled_flag(sent, from, k, x);
}

// ---- events and commands ----------------------------------------------------

impl World {
    /// Whether the workspace that would host a new window is visible.
    pub open spec fn has_visible_host(self) -> bool {
        self.host_of(self.desk.answer()) matches Some(ws) ==> self.knows(ws) ==> self.shown_on(
            ws,
        ) is Some
    }

    /// Whether an event concerns a window that is hidden, or not, as its workspace
    /// has it, and finds a visible host for a new one.
    pub open spec fn is_calm(self, event: WinEvent) -> bool {
        let id = WindowId(event.window());
        match event {
            WinEvent::Foreground(_) => !self.covered(id),
            WinEvent::Shown(_) | WinEvent::Uncloaked(_) | WinEvent::Restored(_) => {
                &&& !self.stray(id)
                &&& self.windows.contains_key(id) || self.has_visible_host()
            },
            _ => true,
        }
    }

    /// Whether a command finds the focused window, or the workspace that it moves
    /// away, as the workspaces have them.
    pub open spec fn is_calm_for(self, cmd: Command) -> bool {
        match cmd {
            Command::ToggleFloat => self.can_toggle_float(),
            Command::SwitchWorkspace(_) => self.focused_monitor matches Some(m) ==> self.is_lit(m),
            Command::SwitchWorkspaceOnMonitor(_, m) => self.is_lit(m),
            _ => true,
        }
    }
}

/// Taking in a window keeps what is hidden in order, where the workspace that
/// would host it is visible.
pub proof fn law_admission_keeps_the_veil(w: World, id: WindowId, f: WindowFacts, all: Seq<Rule>)
    requires
        w.wf(),
        w.veiled(),
        w.has_visible_host(),
        w.windows.contains_key(id) ==> w.can_toggle_float(),
    ensures
        w.admitted(id, f, all).0.veiled(),
{
    let action = rules::action_for(all, f.exe@, f.class@, f.title@);
    law_manage_keeps_the_veil(w, id, f.title, f.class, f.exe);
    laws::law_manage_keeps_order(w, id, f.title, f.class, f.exe);
    match action {
        Some(RuleAction::Workspace(n)) => {
            law_routing_keeps_the_veil(w, id, f.title, f.class, f.exe, WorkspaceId(n));
        },
        _ => {
            let (done, r) = w.managed(id, f.title, f.class, f.exe);
            if r is Ok {
                if done.focused_window == Some(id) {
                    if !w.windows.contains_key(id) {
                        lemma_managed_ok(w, id, f.title, f.class, f.exe);
                    }
                    assert(done.can_toggle_float());
                    law_float_toggle_keeps_the_veil(done);
                }
            }
        },
    }
}

/// A window that could be managed is managed.
proof fn lemma_managed_ok(w: World, id: WindowId, title: String, class: String, exe_name: String)
    requires
        w.managed(id, title, class, exe_name).1 is Ok,
    ensures
        w.managed(id, title, class, exe_name).0.windows.contains_key(id),
{
    if !w.windows.contains_key(id) {
        let asked = World { desk: w.desk.asked(id), ..w };
        if let Some(ws) = asked.host_of(w.desk.answer()) {
            let focused = asked.say(Act::DisableTransitions(id)).adopted(
                id,
                title,
                class,
                exe_name,
                ws,
                model::nowhere(),
            ).focusing(Some(id));
            assert(focused.windows.contains_key(id));
            laws::law_retile_only_notes(focused, ws);
        }
    }
}

/// Following an event of the desktop keeps what is hidden in order. This is of
/// windows that are hidden, or not, as their workspaces have them.
pub proof fn law_events_keep_the_veil(w: World, all: Seq<Rule>, event: WinEvent, f: WindowFacts)
    requires
        w.wf(),
        w.veiled(),
        w.is_calm(event),
    ensures
        w.handled(all, event, f).0.veiled(),
{
    let id = WindowId(event.window());
    match event {
        WinEvent::Shown(_) | WinEvent::Uncloaked(_) | WinEvent::Restored(_) => {
            law_leaving_keeps_the_veil(w, id);
            if !w.windows.contains_key(id) {
                law_admission_keeps_the_veil(w, id, f, all);
            }
        },
        WinEvent::Destroyed(_) => {
            law_unmanage_keeps_the_veil(w, id);
        },
        WinEvent::Hidden(_) | WinEvent::Cloaked(_) | WinEvent::Minimized(_) => {
            law_leaving_keeps_the_veil(w, id);
        },
        WinEvent::Foreground(_) => {
            law_foreground_keeps_the_veil(w, id);
        },
        WinEvent::MoveSizeEnd(_) => {
            if w.windows.contains_key(id) {
                veil::law_retiling_keeps_the_veil(w, w.windows[id].workspace);
            }
        },
        WinEvent::NameChanged(_) => {
            let after = w.retitled(id, f.title);
            assert forall|i: int| 0 <= i < after.workspaces.len() implies #[trigger] after.veiled_at(
                i,
            ) by {
                assert(w.veiled_at(i));
                assert(w.workspaces[i].tree.wf());
                veil::lemma_untouched(w, after, i);
            }
        },
        WinEvent::MoveSizeStart(_) | WinEvent::LocationChanged(_) => {},
    }
}

/// Picking a window keeps what is hidden in order, also one that a stack covers.
proof fn lemma_confirmed(w: World, pick: Option<WindowId>)
    requires
        w.wf(),
        w.veiled(),
    ensures
        w.peek_confirmed(pick).0.veiled(),
{
    if let Some(id) = pick {
        let closed = w.say(Act::PeekDismiss);
        veil::lemma_same(w, closed);
        assert(w.only_notes(closed));
        laws::lemma_notes_hold(w, closed);
        if w.windows.contains_key(id) {
            let ws = closed.windows[id].workspace;
            let front = closed.foregrounded(id);
            laws::law_foreground_keeps_order(closed, id);
            laws::law_retile_only_notes(front, ws);
            let tiled = front.retiled(ws).0;
            laws::lemma_notes_hold(front, tiled);
            if closed.knows(ws) {
                let l = closed.ws(ws).tree;
                assert(closed.workspaces[ws.0 - 1].tree.wf());
                tree::law_focus_shows_the_window(l, id);
                veil::lemma_retreed(closed, front, ws, l.focused_on(id));
            } else {
                veil::lemma_same(closed, front);
                veil::law_retiling_keeps_the_veil(front, ws);
            }
            veil::lemma_same(tiled, tiled.say(Act::Focus(id)));
        }
    }
}

/// Every command keeps what is hidden in order. A window that is sent to another
/// workspace does so where the desktop accepted the positions.
pub proof fn law_every_command_keeps_the_veil(
    world: World,
    cmd: Command,
    peek_open: bool,
    pick: Option<WindowId>,
)
    requires
        world.wf(),
        world.veiled(),
        world.is_calm_for(cmd),
    ensures
        world.dispatched(cmd, peek_open, pick).1 is Ok || !(cmd is MoveFocusedToWorkspace)
            ==> world.dispatched(cmd, peek_open, pick).0.veiled(),
{
    let w = if peek_open && !events::keeps_peek(cmd) {
        world.say(Act::PeekDismiss)
    } else {
        world
    };
    assert(world.only_notes(w));
    laws::lemma_notes_hold(world, w);
    veil::lemma_same(world, w);
    let after = w.dispatched(cmd, false, pick).0;
    match cmd {
        Command::FocusDirection(d) => {
            veil::law_commands_keep_the_veil(w, d, 0, true);
            veil::lemma_same(w, w.say(Act::PeekCycle(events::peek_step(d))));
        },
        Command::MoveDirection(d) => {
            veil::law_commands_keep_the_veil(w, d, 0, true);
        },
        Command::Resize { dir, delta_px } => {
            veil::law_commands_keep_the_veil(w, dir, delta_px as int, true);
        },
        Command::ToggleFloat => {
            law_float_toggle_keeps_the_veil(w);
        },
        Command::ToggleMonocle | Command::ToggleStack | Command::ToggleLayoutMode => {
            veil::law_commands_keep_the_veil(w, Direction::Left, 0, true);
        },
        Command::StackSwallow(d) => {
            veil::law_commands_keep_the_veil(w, d, 0, true);
        },
        Command::StackPop | Command::FocusStackNext => {
            veil::law_commands_keep_the_veil(w, Direction::Left, 0, true);
        },
        Command::FocusStackPrev => {
            veil::law_commands_keep_the_veil(w, Direction::Left, 0, false);
        },
        Command::SwitchWorkspace(ws) => {
            law_switch_keeps_the_veil(w, ws);
        },
        Command::SwitchWorkspaceOnMonitor(ws, m) => {
            law_click_keeps_the_veil(w, ws, m);
        },
        Command::MoveFocusedToWorkspace(ws) => {
            law_send_keeps_the_veil(w, ws);
        },
        Command::FocusMonitor(d) => {
            veil::lemma_same(w, w.monitor_focused_toward(d));
        },
        Command::TogglePause => {
            veil::lemma_same(w, w.pause_toggled());
        },
        Command::PeekToggle => {
            veil::lemma_same(w, w.peek_toggled(peek_open).0);
        },
        Command::PeekConfirm => {
            lemma_confirmed(w, pick);
        },
        Command::CloseFocused
        | Command::Notify(_, _)
        | Command::ReloadConfig
        | Command::Reap
        | Command::Quit
        | Command::ConfigChanged => {
            veil::lemma_same(w, after);
        },
    }
}

/// Reaping keeps what is hidden in order.
pub proof fn law_reap_keeps_the_veil(w: World, dead: Seq<WindowId>)
    requires
        w.wf(),
        w.veiled(),
    ensures
        w.unmanaged_each(dead).wf(),
        w.unmanaged_each(dead).veiled(),
    decreases dead.len(),
{
    if dead.len() > 0 {
        law_reap_keeps_the_veil(w, dead.drop_last());
        let mid = w.unmanaged_each(dead.drop_last());
        laws::law_unmanage_forgets(mid, dead.last());
        law_unmanage_keeps_the_veil(mid, dead.last());
    }
}

} // verus!
