//! What moving workspaces, windows and monitors keeps and brings about.

use crate::ids::{MonitorId, WindowId, WorkspaceId};
use crate::model;
use crate::model::laws;
use crate::model::{monitors, AlreadyVisibleBehaviour, Visit, WmError, World};
use crate::monitor;
use crate::monitor::Monitor;
use crate::rect::Direction;
use crate::tree;
use crate::window::{ManagedWindow, WindowMode};
use vstd::prelude::*;

verus! {

/// Where only bindings and workspaces on monitors change, the windows keep
/// their part of the invariant.
pub proof fn lemma_windows_keep(a: World, b: World)
    requires
        a.windows_linked(),
        b.windows == a.windows,
        b.workspaces.len() == a.workspaces.len(),
        forall|i: int|
            0 <= i < a.workspaces.len() ==> {
                &&& (#[trigger] b.workspaces[i]).tree == a.workspaces[i].tree
                &&& b.workspaces[i].floating == a.workspaces[i].floating
            },
    ensures
        b.windows_linked(),
{
    assert forall|i: int, id: WindowId|
        0 <= i < b.workspaces.len() && #[trigger] b.workspaces[i].floats(
            id,
        ) implies b.windows[id].mode == WindowMode::Floating by {
        assert(a.workspaces[i].floats(id));
    }
    assert forall|i: int, id: WindowId|
        0 <= i < b.workspaces.len() && #[trigger] b.workspaces[i].has(
            id,
        ) implies b.windows.contains_key(id) && b.windows[id].workspace.0 == i + 1 by {
        assert(a.workspaces[i].floats(id) <==> b.workspaces[i].floats(id));
        assert(a.workspaces[i].has(id));
    }
    assert forall|i: int| 0 <= i < b.workspaces.len() implies laws::places_once(
        #[trigger] b.workspaces[i],
    ) by {
        assert(laws::places_once(a.workspaces[i]));
        assert forall|id: WindowId| #[trigger] b.workspaces[i].floats(
            id,
        ) implies !b.workspaces[i].tree.holds(id) by {
            assert(a.workspaces[i].floats(id));
        }
    }
}

/// A monitor is found again after the workspace of some monitor has changed.
pub proof fn lemma_monitor_after(w: World, m: MonitorId, ws: WorkspaceId, other: MonitorId)
    requires
        w.sound(),
    ensures
        w.set_current(m, ws).sound(),
        w.set_current(m, ws).monitor(other) is Some <==> w.monitor(other) is Some,
        w.monitor(other) matches Some(o) ==> w.set_current(m, ws).monitor(other) == Some(
            if other@ == m@ {
                Monitor { current_workspace: ws, ..o }
            } else {
                o
            },
        ),
{
    let after = w.set_current(m, ws);
    match monitor::monitor_index(w.monitors, m@) {
        Some(k) => {
            assert(monitor::is_monitor(w.monitors, k, m@));
            monitor::lemma_same_ids_in_order(w.monitors, after.monitors);
            assert forall|i: int| 0 <= i < after.monitors.len() implies after.gaps.suit(
                (#[trigger] after.monitors[i]).info,
            ) by {
                assert(w.gaps.suit(w.monitors[i].info));
            }
            match monitor::monitor_index(w.monitors, other@) {
                Some(j) => {
                    assert(monitor::is_monitor(w.monitors, j, other@));
                    assert(after.monitors[j].id@ == other@);
                    monitor::lemma_monitor_index(after.monitors, j);
                    if other@ == m@ {
                        monitor::lemma_in_order_distinct(w.monitors, j, k);
                    }
                },
                None => {
                    monitor::lemma_still_absent(w.monitors, after.monitors, other@);
                },
            }
        },
        None => {},
    }
}

/// Putting a workspace on a monitor, after the workspace there has been put
/// into the pool, keeps the invariant.
pub proof fn lemma_taken_over(w: World, m: MonitorId, incoming: WorkspaceId)
    requires
        w.linked(),
        w.monitor(m) is Some,
        !w.knows(w.monitor(m)->0.current_workspace) || w.ws(
            w.monitor(m)->0.current_workspace,
        ).active_monitor is None,
    ensures
        w.bound(incoming, m).set_current(m, incoming).linked(),
        w.wf() ==> w.bound(incoming, m).set_current(m, incoming).wf(),
{
    let after = w.bound(incoming, m).set_current(m, incoming);
    let bound = w.bound(incoming, m);
    lemma_monitor_after(bound, m, incoming, m);
    lemma_windows_keep(w, after);
    assert forall|i: int| 0 <= i < after.workspaces.len() implies ((
    #[trigger] after.workspaces[i]).active_monitor matches Some(id) ==> after.monitor(id) is Some
        && after.monitor(id)->0.current_workspace.0 == i + 1) by {
        if after.workspaces[i].active_monitor is Some {
            let id = after.workspaces[i].active_monitor->0;
            if w.knows(incoming) && i == incoming.0 - 1 {
            } else {
                assert(w.workspaces[i].active_monitor == Some(id));
                lemma_monitor_after(bound, m, incoming, id);
                if id@ == m@ {
                    let current = w.monitor(m)->0.current_workspace;
                    assert(w.monitor(id) == w.monitor(m));
                    assert(current.0 == i + 1);
                    assert(w.ws(current) == w.workspaces[i]);
                }
            }
        }
    }
    match w.focused_monitor {
        Some(f) => {
            lemma_monitor_after(bound, m, incoming, f);
        },
        None => {},
    }
}

/// Putting a workspace into the pool keeps the invariant.
pub proof fn lemma_unbound(w: World, ws: WorkspaceId)
    requires
        w.linked(),
    ensures
        w.unbound(ws).linked(),
        w.wf() ==> w.unbound(ws).wf(),
{
    let after = w.unbound(ws);
    lemma_windows_keep(w, after);
    assert forall|i: int| 0 <= i < after.workspaces.len() implies ((
    #[trigger] after.workspaces[i]).active_monitor matches Some(id) ==> after.monitor(id) is Some
        && after.monitor(id)->0.current_workspace.0 == i + 1) by {
        if after.workspaces[i].active_monitor is Some {
            assert(w.workspaces[i].active_monitor == after.workspaces[i].active_monitor);
        }
    }
}

/// Putting a workspace on a monitor keeps the invariant. The monitor shows it
/// afterwards, also where the desktop did not accept the positions.
pub proof fn law_take_over_shows_the_workspace(w: World, m: MonitorId, incoming: WorkspaceId)
    requires
        w.wf(),
    ensures
        w.swapped_onto(m, incoming).0.wf(),
        w.monitor(m) is Some ==> ({
            let after = w.swapped_onto(m, incoming).0;
            &&& after.monitor(m) is Some
            &&& after.monitor(m)->0.current_workspace == incoming
            &&& w.knows(incoming) ==> after.shown_on(incoming) == Some(m)
            &&& after.focused_monitor == w.focused_monitor
            &&& w.swapped_onto(m, incoming).1 is Ok ==> after.focused_window == w.tree_focus(
                incoming,
            )
        }),
        only_bindings(w, w.swapped_onto(m, incoming).0),
{
    if w.monitor(m) is Some {
        let outgoing = w.monitor(m)->0.current_workspace;
        let hidden = w.visit_all(w.windows_on(outgoing), Visit::Hide);
        w.lemma_visits(w.windows_on(outgoing), Visit::Hide);
        laws::lemma_visits_keep(w, w.windows_on(outgoing), Visit::Hide);
        let away = hidden.unbound(outgoing);
        lemma_unbound(hidden, outgoing);
        assert(away.monitor(m) == w.monitor(m));
        let bound = away.bound(incoming, m);
        let ids = away.windows_on(incoming);
        bound.lemma_visits(ids, Visit::Show);
        lemma_taken_over(away, m, incoming);
        let placed = away.bound(incoming, m).set_current(m, incoming);
        let here = bound.visit_all(ids, Visit::Show).set_current(m, incoming);
        laws::lemma_visits_keep(placed, ids, Visit::Show);
        lemma_visits_commute(bound, ids, Visit::Show, m, incoming);
        assert(here == placed.visit_all(ids, Visit::Show));
        lemma_monitor_after(bound, m, incoming, m);
        laws::law_retile_only_notes(here, incoming);
        laws::lemma_notes_hold(here, here.retiled(incoming).0);
        let tiled = here.retiled(incoming).0;
        laws::lemma_raising_holds(tiled, tiled.tree_focus(incoming));
        assert(tiled.workspaces == here.workspaces);
        if w.knows(incoming) {
            assert(here.ws(incoming).tree == w.ws(incoming).tree);
        }
        lemma_bindings_seen(w, m, incoming);
    }
}

/// Whether `after` has the same workspaces with the same windows as `before`,
/// on whatever monitors, the same managed windows and the same gaps.
pub open spec fn only_bindings(before: World, after: World) -> bool {
    &&& after.gaps == before.gaps
    &&& after.workspaces.len() == before.workspaces.len()
    &&& forall|i: int|
        0 <= i < before.workspaces.len() ==> {
            &&& (#[trigger] after.workspaces[i]).tree == before.workspaces[i].tree
            &&& after.workspaces[i].floating == before.workspaces[i].floating
            &&& after.workspaces[i].monocle == before.workspaces[i].monocle
        }
    &&& forall|id: WindowId| #[trigger]
        after.windows.contains_key(id) <==> before.windows.contains_key(id)
    &&& forall|id: WindowId| #[trigger]
        after.windows.contains_key(id) ==> after.windows[id] == (ManagedWindow {
            hidden_by_us: after.windows[id].hidden_by_us,
            ..before.windows[id]
        })
}

proof fn lemma_bindings_seen(w: World, m: MonitorId, incoming: WorkspaceId)
    requires
        w.sound(),
        w.monitor(m) is Some,
    ensures
        only_bindings(w, w.swapped_onto(m, incoming).0),
{
    let outgoing = w.monitor(m)->0.current_workspace;
    let hidden = w.visit_all(w.windows_on(outgoing), Visit::Hide);
    laws::lemma_visits_only_note(w, w.windows_on(outgoing), Visit::Hide);
    let away = hidden.unbound(outgoing);
    let bound = away.bound(incoming, m);
    let ids = away.windows_on(incoming);
    laws::lemma_visits_only_note(bound, ids, Visit::Show);
    let here = bound.visit_all(ids, Visit::Show).set_current(m, incoming);
    laws::law_retile_only_notes(here, incoming);
    let tiled = here.retiled(incoming).0;
    assert forall|id: WindowId| #[trigger]
        tiled.windows.contains_key(id) implies tiled.windows[id] == (ManagedWindow {
        hidden_by_us: tiled.windows[id].hidden_by_us,
        ..w.windows[id]
    }) by {
        assert(here.windows.contains_key(id));
        assert(bound.windows.contains_key(id));
        assert(hidden.windows.contains_key(id));
    }
    assert forall|id: WindowId| #[trigger]
        tiled.windows.contains_key(id) <==> w.windows.contains_key(id) by {
        assert(tiled.windows.contains_key(id) <==> here.windows.contains_key(id));
        assert(here.windows.contains_key(id) <==> bound.windows.contains_key(id));
        assert(hidden.windows.contains_key(id) <==> w.windows.contains_key(id));
    }
}

/// Showing or hiding windows and putting a workspace on a monitor's record can
/// be done in either order.
pub proof fn lemma_visits_commute(
    w: World,
    ids: Seq<WindowId>,
    how: Visit,
    m: MonitorId,
    ws: WorkspaceId,
)
    ensures
        w.visit_all(ids, how).set_current(m, ws) == w.set_current(m, ws).visit_all(ids, how),
    decreases ids.len(),
{
    w.lemma_visits(ids, how);
    if ids.len() > 0 {
        lemma_visits_commute(w, ids.drop_last(), how, m, ws);
        w.lemma_visits(ids.drop_last(), how);
    }
}

/// Two monitors with each other's workspace keep the invariant.
pub proof fn lemma_exchanged_wf(w: World, here: MonitorId, there: MonitorId, target: WorkspaceId)
    requires
        w.wf(),
        w.knows(target),
        w.monitor(here) is Some,
        w.monitor(here)->0.current_workspace != target,
        w.shown_on(target) == Some(there),
        there@ != here@,
    ensures
        ({
            let own = w.monitor(here)->0.current_workspace;
            let after = w.bound(own, there).bound(target, here).set_current(
                here,
                target,
            ).set_current(there, own);
            &&& after.wf()
            &&& after.monitor(here) is Some
            &&& after.monitor(here)->0.current_workspace == target
        }),
{
    let own = w.monitor(here)->0.current_workspace;
    let bound = w.bound(own, there).bound(target, here);
    let first = bound.set_current(here, target);
    let after = first.set_current(there, own);
    lemma_monitor_after(bound, here, target, here);
    lemma_monitor_after(bound, here, target, there);
    lemma_monitor_after(first, there, own, here);
    lemma_monitor_after(first, there, own, there);
    assert(w.workspaces[target.0 - 1].active_monitor == Some(there));
    lemma_windows_keep(w, after);
    assert forall|i: int| 0 <= i < after.workspaces.len() implies ((
    #[trigger] after.workspaces[i]).active_monitor matches Some(id) ==> after.monitor(id) is Some
        && after.monitor(id)->0.current_workspace.0 == i + 1) by {
        if after.workspaces[i].active_monitor is Some {
            let id = after.workspaces[i].active_monitor->0;
            lemma_monitor_after(bound, here, target, id);
            lemma_monitor_after(first, there, own, id);
            if i == target.0 - 1 {
                assert(id == here);
            } else if w.knows(own) && i == own.0 - 1 {
                assert(id == there);
            } else {
                assert(w.workspaces[i].active_monitor == Some(id));
                if id@ == here@ {
                    assert(w.monitor(id) == w.monitor(here));
                    assert(own.0 == i + 1);
                }
                if id@ == there@ {
                    assert(w.monitor(id) == w.monitor(there));
                    assert(target.0 == i + 1);
                }
            }
        }
    }
    match w.focused_monitor {
        Some(f) => {
            lemma_monitor_after(bound, here, target, f);
            lemma_monitor_after(first, there, own, f);
        },
        None => {},
    }
}

/// Switching to a workspace keeps the invariant, and the focused monitor shows
/// that workspace afterwards.
pub proof fn law_switch_shows_the_workspace(w: World, target: WorkspaceId)
    requires
        w.wf(),
    ensures
        w.switched(target).0.wf(),
        w.knows(target) && w.monitors.len() > 0 ==> w.switched(target).0.focused_workspace()
            == Some(target),
        !w.knows(target) ==> w.switched(target) == (
            w,
            Err::<(), WmError>(WmError::NoSuchWorkspace(target)),
        ),
{
    if w.knows(target) && w.focused_monitor is Some {
        let here = w.focused_monitor->0;
        let current = w.monitor(here)->0.current_workspace;
        if current != target {
            law_take_over_shows_the_workspace(w, here, target);
            if w.shown_on(target) is Some && w.shown_on(target)->0@ != here@ {
                let there = w.shown_on(target)->0;
                assert(w.workspaces[target.0 - 1].active_monitor == Some(there));
                match w.on_already_visible {
                    AlreadyVisibleBehaviour::FocusOtherMonitor => {
                        laws::lemma_led_holds(w, there);
                        let moved = World { focused_monitor: Some(there), ..w };
                        laws::lemma_raising_holds(moved, moved.tree_focus(target));
                    },
                    AlreadyVisibleBehaviour::Swap => {
                        lemma_exchanged_wf(w, here, there, target);
                        let swapped = w.bound(current, there).bound(target, here).set_current(
                            here,
                            target,
                        ).set_current(there, current);
                        laws::law_retile_only_notes(swapped, current);
                        let once = swapped.retiled(current).0;
                        laws::lemma_notes_hold(swapped, once);
                        laws::law_retile_only_notes(once, target);
                        let twice = once.retiled(target).0;
                        laws::lemma_notes_hold(once, twice);
                        laws::lemma_raising_holds(twice, twice.tree_focus(target));
                    },
                }
            }
        }
    }
}

/// Switching a given monitor to a workspace keeps the invariant. The monitor has
/// the focus, and the focused monitor shows the workspace afterwards.
pub proof fn law_click_switches_that_monitor(w: World, target: WorkspaceId, m: MonitorId)
    requires
        w.wf(),
    ensures
        w.switched_on(target, m).0.wf(),
        w.knows(target) && w.monitor(m) is Some ==> w.switched_on(target, m).0.focused_workspace()
            == Some(target),
        w.monitor(m) is None ==> w.switched_on(target, m) == (
            w,
            Err::<(), WmError>(WmError::NoSuchMonitor(m)),
        ),
{
    if w.monitor(m) is Some {
        laws::lemma_led_holds(w, m);
        law_switch_shows_the_workspace(World { focused_monitor: Some(m), ..w }, target);
    }
}

/// Sending the focused window to another workspace keeps the invariant. Where
/// the desktop accepted all positions, the window is there, it has the focus,
/// and the focused monitor shows that workspace.
pub proof fn law_send_follows_the_window(w: World, target: WorkspaceId)
    requires
        w.wf(),
    ensures
        w.sent_to(target).0.wf(),
        w.focused_window matches Some(id) ==> (w.windows.contains_key(id) && w.knows(target)
            && w.sent_to(target).1 is Ok && w.windows[id].workspace != target ==> {
            &&& w.sent_to(target).0.windows.contains_key(id)
            &&& w.sent_to(target).0.windows[id].workspace == target
            &&& w.sent_to(target).0.focused_window == Some(id)
            &&& w.sent_to(target).0.focused_workspace() == Some(target)
        }),
{
    if w.focused_window is Some && w.windows.contains_key(w.focused_window->0) && w.knows(target)
        && w.windows[w.focused_window->0].workspace != target {
        let id = w.focused_window->0;
        let from = w.windows[id].workspace;
        let out = w.detached(from, id);
        let area = out.work_area_or(target, model::default_screen());
        laws::lemma_sent_holds(w, id, target, area);
        let there = out.set_tree(target, out.ws(target).tree.inserted(id, area));
        let sent = World {
            windows: there.windows.insert(
                id,
                ManagedWindow { workspace: target, ..there.windows[id] },
            ),
            ..there
        };
        laws::law_retile_only_notes(sent, from);
        let left = sent.retiled(from).0;
        laws::lemma_notes_hold(sent, left);
        assert(left.windows.contains_key(id));
        assert(left.windows[id].workspace == target);
        assert(left.tree_focus(target) == Some(id));
        if sent.retiled(from).1 is Ok {
            if left.shown_on(target) is None {
                if left.focused_monitor is Some {
                    let here = left.focused_monitor->0;
                    law_take_over_shows_the_workspace(left, here, target);
                    let after = left.swapped_onto(here, target).0;
                    assert(after.windows.contains_key(id));
                }
            } else {
                let m = left.shown_on(target)->0;
                assert(left.workspaces[target.0 - 1].active_monitor == Some(m));
                let one = seq![id];
                assert(one.drop_last() =~= Seq::<WindowId>::empty());
                assert(left.visit_all(one, Visit::Show) == left.visit(id, Visit::Show)) by {
                    reveal_with_fuel(World::visit_all, 2);
                }
                laws::lemma_visits_only_note(left, one, Visit::Show);
                laws::lemma_visits_keep(left, one, Visit::Show);
                let seen = left.visit(id, Visit::Show);
                laws::lemma_led_holds(seen, m);
                let shown = World { focused_monitor: Some(m), ..seen };
                laws::law_retile_only_notes(shown, target);
                let tiled = shown.retiled(target).0;
                laws::lemma_notes_hold(shown, tiled);
                laws::lemma_raising_holds(tiled, Some(id));
                assert(shown.windows.contains_key(id));
                assert(tiled.windows.contains_key(id));
            }
        }
    }
}

/// Moving the focus to another monitor keeps the invariant.
pub proof fn law_monitor_focus_keeps_order(w: World, dir: Direction)
    requires
        w.wf(),
    ensures
        w.monitor_focused_toward(dir).wf(),
        only_bindings(w, w.monitor_focused_toward(dir)),
{
    if w.focused_monitor is Some && w.monitor(w.focused_monitor->0) is Some {
        let from = monitor::monitor_index(w.monitors, w.focused_monitor->0@)->0;
        if monitors::closest(w.monitors, from, dir) is Some {
            let i = monitors::closest(w.monitors, from, dir)->0;
            assert(monitors::is_closest(w.monitors, from, dir, i));
            let m = w.monitors[i];
            monitor::lemma_monitor_index(w.monitors, i);
            laws::lemma_led_holds(w, m.id);
            let moved = World { focused_monitor: Some(m.id), ..w };
            laws::lemma_raising_holds(moved, moved.tree_focus(m.current_workspace));
        }
    }
}

} // verus!
