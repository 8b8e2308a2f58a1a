//! Which workspace is where, and what the status bars say of it.

use crate::command::Command;
use crate::desk::Act;
use crate::ids::{MonitorId, WindowId, WorkspaceId};
use crate::model::monitors;
use crate::model::moving;
use crate::model::{AlreadyVisibleBehaviour, World};
use crate::monitor;
use crate::rect::Rect;
use crate::text;
use crate::tree;
use crate::tree::Tree;
use vstd::prelude::*;

verus! {

// ---- switching ----------------------------------------------------------------

/// Each command for workspaces brings the focus to the workspace that it names: by
/// switching to it, by switching a given monitor to it, or along with the focused
/// window.
pub proof fn law_workspace_commands_go_there(
    w: World,
    pick: Option<WindowId>,
    target: WorkspaceId,
    m: MonitorId,
)
    requires
        w.wf(),
        w.knows(target),
        w.monitor(m) is Some,
    ensures
        ({
            let switched = w.dispatched(Command::SwitchWorkspace(target), false, pick).0;
            let clicked = w.dispatched(Command::SwitchWorkspaceOnMonitor(target, m), false, pick).0;
            let (sent, result) = w.dispatched(Command::MoveFocusedToWorkspace(target), false, pick);
            &&& w.monitors.len() > 0 ==> switched.focused_workspace() == Some(target)
            &&& clicked.focused_workspace() == Some(target)
            &&& w.focused_window matches Some(id) ==> (w.windows.contains_key(id)
                && w.windows[id].workspace != target && result is Ok ==> {
                &&& sent.windows[id].workspace == target
                &&& sent.focused_window == Some(id)
                &&& sent.focused_workspace() == Some(target)
            })
        }),
{
    moving::law_switch_shows_the_workspace(w, target);
    moving::law_click_switches_that_monitor(w, target, m);
    moving::law_send_follows_the_window(w, target);
}

/// Where the focus is to go to the other monitor, switching to a workspace that is
/// visible there moves the focus and leaves every monitor its workspace.
pub proof fn law_focus_goes_to_the_other_monitor(
    w: World,
    pick: Option<WindowId>,
    target: WorkspaceId,
    there: MonitorId,
)
    requires
        w.wf(),
        w.on_already_visible == AlreadyVisibleBehaviour::FocusOtherMonitor,
        w.focused_monitor is Some,
        w.knows(target),
        w.shown_on(target) == Some(there),
        w.focused_monitor->0@ != there@,
        w.focused_workspace() != Some(target),
    ensures
        ({
            let (after, result) = w.dispatched(Command::SwitchWorkspace(target), false, pick);
            &&& result is Ok
            &&& after.focused_monitor == Some(there)
            &&& after.monitors == w.monitors
            &&& after.workspaces == w.workspaces
            &&& w.ws(target).tree.focus matches Some(t) ==> after.focused_window == Some(t)
                && after.desk.log.last() == Act::Focus(t)
            &&& w.ws(target).tree.focus is None ==> after.focused_window == w.focused_window
        }),
{
    assert(w.monitor(w.focused_monitor->0) is Some);
}

// ---- monitors that come and go --------------------------------------------------

/// At the start the monitors get the workspaces in order, each its own while there are
/// any, and the others share the last one.
pub proof fn law_monitors_start_in_order(i: int, count: nat)
    requires
        0 <= i,
        1 <= count <= u32::MAX,
    ensures
        i < count ==> monitors::first_choice(i, count).0 == i + 1,
        i >= count ==> monitors::first_choice(i, count).0 == count,
{
}

/// A monitor that arrives gets the first workspace in the pool that was last seen on it.
/// Where there is none, it takes one back that another monitor shows and that was last
/// seen on it; else it gets the first one in the pool, and else the first of all.
pub proof fn law_arriving_monitor_gets_its_workspace(w: World, id: Seq<char>, k: int)
    requires
        0 <= k < w.workspaces.len() <= u32::MAX,
    ensures
        ({
            let (ws, from) = w.choice_for(id);
            let own = |i: int| w.workspaces[i].last_seen_monitor matches Some(s) && s@ == id;
            &&& w.workspaces[k].active_monitor is None && own(k) ==> {
                &&& 1 <= ws.0 <= k + 1
                &&& w.workspaces[ws.0 - 1].active_monitor is None && own(ws.0 - 1)
                &&& from is None
            }
            &&& w.workspaces[k].active_monitor is Some && own(k) ==> {
                &&& 1 <= ws.0 <= w.workspaces.len()
                &&& own(ws.0 - 1)
                &&& from == w.workspaces[ws.0 - 1].active_monitor
            }
            &&& w.workspaces[k].active_monitor is None && w.workspaces[k].id.0 != 0 ==> {
                &&& 1 <= ws.0 <= w.workspaces.len()
                &&& w.workspaces[ws.0 - 1].active_monitor is None || own(ws.0 - 1)
                &&& from is Some ==> own(ws.0 - 1)
            }
            &&& from is Some ==> w.workspaces[ws.0 - 1].active_monitor == from && own(ws.0 - 1)
        }),
{
    lemma_first_found(w, monitors::waits_for(id), k);
    lemma_first_found(w, monitors::strayed_from(id), k);
    lemma_first_found(w, monitors::idle_other_than(monitors::no_workspace()), k);
}

/// The first workspace of a kind is of that kind, and comes no later than any other.
proof fn lemma_first_found(
    w: World,
    p: spec_fn(crate::workspace::WorkspaceModel) -> bool,
    k: int,
)
    requires
        0 <= k < w.workspaces.len() <= u32::MAX,
    ensures
        ({
            let f = monitors::first_workspace(w.workspaces, p);
            &&& f matches Some(ws) ==> 1 <= ws.0 <= w.workspaces.len() && p(
                w.workspaces[ws.0 - 1],
            )
            &&& p(w.workspaces[k]) ==> f is Some && (f->0).0 <= k + 1
        }),
{
    if exists|i: int| monitors::is_first(w.workspaces, p, i) {
        let i = choose|i: int| monitors::is_first(w.workspaces, p, i);
        assert(monitors::is_first(w.workspaces, p, i));
        if p(w.workspaces[k]) && k < i {
            assert(!p(w.workspaces[k]));
        }
    } else if p(w.workspaces[k]) {
        lemma_some_first(w, p, k);
    }
}

proof fn lemma_some_first(w: World, p: spec_fn(crate::workspace::WorkspaceModel) -> bool, k: int)
    requires
        0 <= k < w.workspaces.len(),
        p(w.workspaces[k]),
    ensures
        exists|i: int| monitors::is_first(w.workspaces, p, i),
    decreases k,
{
    if exists|j: int| 0 <= j < k && p(#[trigger] w.workspaces[j]) {
        let j = choose|j: int| 0 <= j < k && p(#[trigger] w.workspaces[j]);
        lemma_some_first(w, p, j);
    } else {
        assert(monitors::is_first(w.workspaces, p, k));
    }
}

/// Where the focused monitor is gone, the primary one gets the focus; without a primary
/// one the first gets it. One that is still there keeps it.
pub proof fn law_primary_monitor_gets_the_focus(w: World, i: int)
    requires
        0 <= i < w.monitors.len(),
        w.monitors[i].info.primary,
        forall|j: int|
            0 <= j < w.monitors.len() && j != i ==> !(#[trigger] w.monitors[j]).info.primary,
    ensures
        w.focused_monitor is None ==> w.refocused().focused_monitor == Some(w.monitors[i].id),
        w.focused_monitor matches Some(id) ==> {
            &&& w.monitor(id) is None ==> w.refocused().focused_monitor == Some(w.monitors[i].id)
            &&& w.monitor(id) is Some ==> w.refocused() == w
        },
        w.refocused().monitors == w.monitors && w.refocused().workspaces == w.workspaces,
{
    assert(w.is_first_primary(i));
    let k = choose|k: int| w.is_first_primary(k);
    assert(w.is_first_primary(k));
}

/// The first workspace of a monitor that is gone moves to the focused monitor, and still
/// remembers where it came from.
pub proof fn law_orphan_goes_to_the_focused_monitor(
    w: World,
    infos: Seq<monitor::MonitorInfo>,
    ws: WorkspaceId,
)
    requires
        w.wf(),
        w.focused_monitor is Some,
        w.knows(ws),
    ensures
        ({
            let here = w.focused_monitor->0;
            let after = w.sheltered(w.shelters(infos), seq![ws], 1);
            &&& after.monitor(here) is Some
            &&& after.monitor(here)->0.current_workspace == ws
            &&& after.shown_on(ws) == Some(here)
            &&& after.ws(ws).last_seen_monitor == w.ws(ws).last_seen_monitor
            &&& after.focused_monitor == w.focused_monitor
        }),
{
    let here = w.focused_monitor->0;
    let all = w.shelters(infos);
    assert(all[0] == here);
    assert(w.monitor(here) is Some);
    moving::law_take_over_shows_the_workspace(w, here, ws);
    reveal_with_fuel(World::sheltered, 2);
    let moved = w.swapped_onto(here, ws).0;
    assert(moved.workspaces.len() == w.workspaces.len());
    assert(w.sheltered(all, seq![ws], 1) == w.taken_in(here, ws));
}

/// A new window goes to the workspace on the monitor that its centre is on; outside of
/// every monitor, and where its place is not known, to the focused one.
pub proof fn law_new_window_goes_to_its_monitor(w: World, r: Rect, i: int)
    requires
        r.w >= 0 && r.h >= 0,
        0 <= i < w.monitors.len(),
        forall|j: int|
            0 <= j < w.monitors.len() && j != i ==> ({
                let b = (#[trigger] w.monitors[j]).info.bounds;
                let x = r.x + r.w / 2;
                let y = r.y + r.h / 2;
                x < b.x || x >= b.x + b.w || y < b.y || y >= b.y + b.h
            }),
    ensures
        ({
            let b = w.monitors[i].info.bounds;
            let x = r.x + r.w / 2;
            let y = r.y + r.h / 2;
            &&& b.x <= x < b.x + b.w && b.y <= y < b.y + b.h ==> w.host_of(Some(r)) == Some(
                w.monitors[i].current_workspace,
            )
            &&& (x < b.x || x >= b.x + b.w || y < b.y || y >= b.y + b.h)
                && w.focused_workspace() is Some ==> w.host_of(Some(r)) == w.focused_workspace()
        }),
        w.focused_workspace() is Some ==> w.host_of(None) == w.focused_workspace(),
{
    let x = r.x + r.w / 2;
    let y = r.y + r.h / 2;
    let b = w.monitors[i].info.bounds;
    assert forall|j: int| 0 <= j < w.monitors.len() && j != i implies !(
    #[trigger] w.monitors[j]).info.bounds.has_point(x, y) by {}
    if b.has_point(x, y) {
        assert(w.is_first_at(i, x, y));
    }
    if exists|k: int| w.is_first_at(k, x, y) {
        let k = choose|k: int| w.is_first_at(k, x, y);
        assert(w.is_first_at(k, x, y));
        assert(w.monitors[k].info.bounds.has_point(x, y));
    }
}

// ---- the status bars ------------------------------------------------------------

/// The bar of a monitor has all workspaces in order. The one that the monitor shows is
/// the active one, those on any monitor are visible, and those with a managed window are
/// occupied.
pub proof fn law_bar_tells_the_workspaces(w: World, i: int, k: int, id: WindowId)
    requires
        w.wf(),
        0 <= i < w.monitors.len(),
        0 <= k < w.workspaces.len(),
    ensures
        ({
            let all = w.bar_contents(i).workspaces;
            &&& all.len() == w.workspaces.len()
            &&& all[k].id == k + 1
            &&& all[k].is_active <==> w.monitors[i].current_workspace == w.workspaces[k].id
            &&& all[k].is_visible <==> w.shown_on(w.workspaces[k].id) is Some
            &&& w.windows.contains_key(id) && w.windows[id].workspace.0 == k + 1
                ==> all[k].has_windows
            &&& w.workspaces[k].has(id) ==> all[k].has_windows
            &&& (forall|o: WindowId| #[trigger]
                w.windows.contains_key(o) ==> w.windows[o].workspace.0 != k + 1)
                ==> !all[k].has_windows
        }),
{
    assert(w.workspaces[k].id.0 == k + 1);
    if w.workspaces[k].has(id) {
        assert(w.windows.contains_key(id));
        assert(w.windows[id].workspace == WorkspaceId((k + 1) as u32));
    }
    if w.windows.contains_key(id) && w.windows[id].workspace.0 == k + 1 {
        assert(w.windows[id].workspace == WorkspaceId((k + 1) as u32));
    }
}

/// The bar has the title of the focused window, with its place in its stack where it is
/// in one, and says when tiling is paused.
pub proof fn law_bar_tells_the_focus(w: World, i: int, id: WindowId, k: int)
    requires
        w.wf(),
        w.focused_window == Some(id),
        w.windows.contains_key(id),
        w.knows(w.windows[id].workspace),
        w.ws(w.windows[id].workspace).tree.holds(id),
    ensures
        ({
            let title = w.windows[id].title@;
            let said = w.bar_contents(i).focused_title;
            let node = w.ws(w.windows[id].workspace).tree.tree->0.node_of(id);
            &&& node is Leaf ==> said == title
            &&& node is Stack && 0 <= k < node->children.len() && node->children[k] == id
                ==> said == title + (" ["@ + text::decimal((k + 1) as nat) + "/"@
                + text::decimal(node->children.len()) + "]"@)
        }),
        w.paused ==> w.bar_contents(i).right_label == Some("PAUSED"@),
        !w.paused ==> w.bar_contents(i).right_label is None,
{
    let ws = w.windows[id].workspace;
    let n = w.ws(ws).tree.tree->0;
    assert(w.workspaces[ws.0 - 1].tree.wf());
    tree::lemma_node_of(n, id);
    let said = w.bar_contents(i).focused_title;
    match n.node_of(id) {
        Tree::Stack { children, focused } => {
            if 0 <= k < children.len() && children[k] == id {
                assert(children.index_of(id) == k);
            }
        },
        _ => {
            assert(w.windows[id].title@ + Seq::<char>::empty() =~= w.windows[id].title@);
        },
    }
}

/// Where no managed window has the focus the bar has no title.
pub proof fn law_bar_without_focus_has_no_title(w: World, i: int)
    requires
        w.focused_window is None || !w.windows.contains_key(w.focused_window->0),
    ensures
        w.bar_contents(i).focused_title.len() == 0,
{
}

/// A monitor that is still there takes its fresh description over and keeps its workspace.
pub proof fn law_known_monitor_is_refreshed(
    w: World,
    infos: Seq<monitor::MonitorInfo>,
    i: int,
    k: int,
)
    requires
        0 <= i < w.monitors.len(),
        0 <= k < infos.len(),
        infos[k].stable_id@ == w.monitors[i].id@,
        forall|j: int|
            0 <= j < infos.len() && j != k ==> (#[trigger] infos[j]).stable_id@
                != infos[k].stable_id@,
    ensures
        ({
            let after = w.refreshed(infos);
            &&& after.monitors.len() == w.monitors.len()
            &&& after.monitors[i].info == infos[k]
            &&& after.monitors[i].id == w.monitors[i].id
            &&& after.monitors[i].current_workspace == w.monitors[i].current_workspace
        }),
{
    let id = w.monitors[i].id@;
    assert(monitors::is_last_info(infos, k, id));
    let j = choose|j: int| monitors::is_last_info(infos, j, id);
    assert(monitors::is_last_info(infos, j, id));
}

/// Every monitor has one bar, which is as wide as the monitor.
pub proof fn law_every_monitor_has_a_bar(w: World, i: int)
    requires
        0 <= i < w.monitors.len(),
    ensures
        w.bar_specs().len() == w.monitors.len(),
        w.bar_specs()[i].monitor_id@ == w.monitors[i].id@,
        w.bar_specs()[i].bounds == w.monitors[i].info.bounds,
{
}

} // verus!
