//! What each command does to the windows.
//!
//! The laws say where the focused window is after a command, and what the desktop
//! is asked to do.

use crate::command::Command;
use crate::desk::{Act, PeekMonitor};
use crate::geometry;
use crate::ids::{WindowId, WorkspaceId};
use crate::model;
use crate::model::commands;
use crate::model::laws;
use crate::model::monitors;
use crate::model::replay;
use crate::model::veil;
use crate::model::{Visit, World};
use crate::monitor;
use crate::rect::{Direction, Rect};
use crate::text;
use crate::toast::ToastLevel;
use crate::tree;
use crate::window::WindowMode;
use vstd::prelude::*;

verus! {

// ---- focus ----------------------------------------------------------------

/// The focus goes to a window whose tile's centre lies in the direction of the
/// command; it stays where it is only where no tile's centre does.
pub proof fn law_focus_goes_that_way(
    w: World,
    dir: Direction,
    pick: Option<WindowId>,
    ws: WorkspaceId,
    f: WindowId,
    area: Rect,
)
    requires
        w.wf(),
        w.focused_workspace() == Some(ws),
        w.knows(ws),
        w.work_area(ws) == Some(area),
        area.valid(),
        w.ws(ws).tree.focus == Some(f),
    ensures
        ({
            let n = w.ws(ws).tree.tree->0;
            let (after, result) = w.dispatched(Command::FocusDirection(dir), false, pick);
            let t = after.ws(ws).tree.focus->0;
            let a = n.tile_of(f, area);
            let b = n.tile_of(t, area);
            &&& result is Ok
            &&& after == w || {
                &&& t != f
                &&& match dir {
                    Direction::Left => b.x + b.w / 2 < a.x + a.w / 2,
                    Direction::Right => b.x + b.w / 2 > a.x + a.w / 2,
                    Direction::Up => b.y + b.h / 2 < a.y + a.h / 2,
                    Direction::Down => b.y + b.h / 2 > a.y + a.h / 2,
                }
                &&& after.focused_window == Some(t)
                &&& after.ws(ws).tree.tree->0.shows(t)
                &&& after.desk.log.last() == Act::Focus(t)
                &&& w.focused_window != Some(t) ==> after.desk.log == w.desk.log.push(
                    Act::Frame(t),
                ).push(Act::Focus(t))
            }
            &&& forall|o: WindowId| #[trigger]
                n.shows(o) && o != f && ({
                    let c = n.tile_of(o, area);
                    match dir {
                        Direction::Left => c.x + c.w / 2 < a.x + a.w / 2,
                        Direction::Right => c.x + c.w / 2 > a.x + a.w / 2,
                        Direction::Up => c.y + c.h / 2 < a.y + a.h / 2,
                        Direction::Down => c.y + c.h / 2 > a.y + a.h / 2,
                    }
                }) ==> after.focused_window == Some(t) && t != f
        }),
{
    let l = w.ws(ws).tree;
    assert(w.workspaces[ws.0 - 1].tree.wf());
    geometry::law_neighbour_lies_that_way(l, f, dir, area);
    if l.neighbour(f, dir, area) is Some {
        let t = l.neighbour(f, dir, area)->0;
        tree::lemma_shows_holds(l.tree->0);
        tree::law_focus_shows_the_window(l, t);
        assert(l.holds(t));
    }
}

/// The focus goes to a monitor whose centre lies in the direction of the command, and
/// none of those that do is closer; it stays where it is only where none does.
pub proof fn law_monitor_focus_goes_that_way(
    w: World,
    dir: Direction,
    pick: Option<WindowId>,
    from: int,
    j: int,
)
    requires
        w.wf(),
        0 <= from < w.monitors.len(),
        w.focused_monitor matches Some(id) && id@ == w.monitors[from].id@,
        0 <= j < w.monitors.len(),
        j != from,
        ({
            let a = w.monitors[from].info.bounds;
            let b = w.monitors[j].info.bounds;
            match dir {
                Direction::Left => b.x + b.w / 2 < a.x + a.w / 2,
                Direction::Right => b.x + b.w / 2 > a.x + a.w / 2,
                Direction::Up => b.y + b.h / 2 < a.y + a.h / 2,
                Direction::Down => b.y + b.h / 2 > a.y + a.h / 2,
            }
        }),
    ensures
        ({
            let (after, result) = w.dispatched(Command::FocusMonitor(dir), false, pick);
            &&& result is Ok
            &&& exists|i: int|
                {
                    let a = w.monitors[from].info.bounds;
                    let b = w.monitors[i].info.bounds;
                    let c = w.monitors[j].info.bounds;
                    let bx = (b.x + b.w / 2) - (a.x + a.w / 2);
                    let by = (b.y + b.h / 2) - (a.y + a.h / 2);
                    let cx = (c.x + c.w / 2) - (a.x + a.w / 2);
                    let cy = (c.y + c.h / 2) - (a.y + a.h / 2);
                    &&& 0 <= i < w.monitors.len()
                    &&& after.focused_monitor == Some((#[trigger] w.monitors[i]).id)
                    &&& i != from
                    &&& match dir {
                        Direction::Left => bx < 0,
                        Direction::Right => bx > 0,
                        Direction::Up => by < 0,
                        Direction::Down => by > 0,
                    }
                    &&& bx * bx + by * by <= cx * cx + cy * cy
                    &&& w.tree_focus(w.monitors[i].current_workspace) matches Some(t)
                        ==> after.focused_window == Some(t) && after.desk.log.last() == Act::Focus(
                        t,
                    )
                }
        }),
{
    let id = w.focused_monitor->0;
    assert(monitor::is_monitor(w.monitors, from, id@));
    let at = monitor::monitor_index(w.monitors, id@)->0;
    assert(monitor::is_monitor(w.monitors, at, id@));
    if at < from {
        monitor::lemma_in_order_distinct(w.monitors, at, from);
    }
    if from < at {
        monitor::lemma_in_order_distinct(w.monitors, from, at);
    }
    assert forall|k: int| 0 <= k < w.monitors.len() implies (
    #[trigger] w.monitors[k]).info.bounds.valid() by {
        assert(w.gaps.suit(w.monitors[k].info));
    }
    assert(monitors::is_toward(w.monitors, from, dir, j));
    let i = lemma_some_closest(w.monitors, from, dir, w.monitors.len() as int, j);
    let k = monitors::closest(w.monitors, from, dir)->0;
    assert(monitors::is_closest(w.monitors, from, dir, k));
    assert(w.monitors[k].info.bounds.valid());
    assert(monitors::is_toward(w.monitors, from, dir, k));
}

/// Where a monitor lies in a direction, one of them is the closest.
proof fn lemma_some_closest(
    monitors: Seq<monitor::Monitor>,
    from: int,
    dir: Direction,
    n: int,
    j: int,
) -> (i: int)
    requires
        0 <= n <= monitors.len(),
        j < n,
        monitors::is_toward(monitors, from, dir, j),
    ensures
        i < n,
        monitors::is_toward(monitors, from, dir, i),
        forall|k: int|
            k < n && #[trigger] monitors::is_toward(monitors, from, dir, k) ==> {
                let home = monitors[from].info.bounds;
                let least = monitors::apart(home, monitors[i].info.bounds);
                &&& least <= monitors::apart(home, monitors[k].info.bounds)
                &&& k < i ==> least < monitors::apart(home, monitors[k].info.bounds)
            },
        n == monitors.len() ==> monitors::is_closest(monitors, from, dir, i),
    decreases n,
{
    let home = monitors[from].info.bounds;
    let last = n - 1;
    if exists|k: int| k < last && monitors::is_toward(monitors, from, dir, k) {
        let k = choose|k: int| k < last && monitors::is_toward(monitors, from, dir, k);
        let i = lemma_some_closest(monitors, from, dir, last, k);
        if monitors::is_toward(monitors, from, dir, last) && monitors::apart(
            home,
            monitors[last].info.bounds,
        ) < monitors::apart(home, monitors[i].info.bounds) {
            last
        } else {
            i
        }
    } else {
        j
    }
}

// ---- moving and resizing ----------------------------------------------------

/// A tiled window trades tiles with a window that lies in the direction of the
/// command; it keeps its tile only where none does. The focus stays with it.
pub proof fn law_moved_window_trades_tiles(
    w: World,
    dir: Direction,
    pick: Option<WindowId>,
    ws: WorkspaceId,
    f: WindowId,
    area: Rect,
)
    requires
        w.wf(),
        w.focused_workspace() == Some(ws),
        w.knows(ws),
        w.work_area(ws) == Some(area),
        area.valid(),
        w.focused_window == Some(f),
        !w.is_floating(f),
        w.ws(ws).tree.tree is Some,
        w.ws(ws).tree.tree->0.shows(f),
    ensures
        ({
            let n = w.ws(ws).tree.tree->0;
            let after = w.dispatched(Command::MoveDirection(dir), false, pick).0;
            let m = after.ws(ws).tree.tree->0;
            let a = n.tile_of(f, area);
            let b = m.tile_of(f, area);
            &&& after.focused_window == Some(f)
            &&& after == w || {
                &&& match dir {
                    Direction::Left => b.x + b.w / 2 < a.x + a.w / 2,
                    Direction::Right => b.x + b.w / 2 > a.x + a.w / 2,
                    Direction::Up => b.y + b.h / 2 < a.y + a.h / 2,
                    Direction::Down => b.y + b.h / 2 > a.y + a.h / 2,
                }
                &&& exists|o: WindowId| #[trigger]
                    n.shows(o) && n.tile_of(o, area) == b && m.tile_of(o, area) == a
            }
            &&& forall|o: WindowId| #[trigger]
                n.shows(o) && o != f && ({
                    let c = n.tile_of(o, area);
                    match dir {
                        Direction::Left => c.x + c.w / 2 < a.x + a.w / 2,
                        Direction::Right => c.x + c.w / 2 > a.x + a.w / 2,
                        Direction::Up => c.y + c.h / 2 < a.y + a.h / 2,
                        Direction::Down => c.y + c.h / 2 > a.y + a.h / 2,
                    }
                }) ==> b != a
        }),
{
    let l = w.ws(ws).tree;
    let n = l.tree->0;
    assert(w.workspaces[ws.0 - 1].tree.wf());
    geometry::law_neighbour_lies_that_way(l, f, dir, area);
    if l.neighbour(f, dir, area) is Some {
        let other = l.neighbour(f, dir, area)->0;
        geometry::law_swapped_pair_trades_tiles(l, f, other, area);
        let swapped = w.set_tree(ws, l.swapped(f, other));
        laws::law_retile_only_notes(swapped, ws);
        assert(n.shows(other));
    }
}

/// A floating window moves by 32 pixels in the direction of the command and keeps its
/// size.
pub proof fn law_moved_float_takes_a_step(
    w: World,
    dir: Direction,
    pick: Option<WindowId>,
    ws: WorkspaceId,
    i: int,
)
    requires
        w.wf(),
        w.focused_workspace() == Some(ws),
        w.knows(ws),
        0 <= i < w.ws(ws).floating.len(),
        w.focused_window == Some(w.ws(ws).floating[i].0),
        w.can_run(Command::MoveDirection(dir)),
    ensures
        ({
            let (f, r) = w.ws(ws).floating[i];
            let after = w.dispatched(Command::MoveDirection(dir), false, pick).0;
            let (g, s) = after.ws(ws).floating[i];
            &&& g == f
            &&& s.w == r.w && s.h == r.h
            &&& dir is Left ==> s.x == r.x - 32 && s.y == r.y
            &&& dir is Right ==> s.x == r.x + 32 && s.y == r.y
            &&& dir is Up ==> s.x == r.x && s.y == r.y - 32
            &&& dir is Down ==> s.x == r.x && s.y == r.y + 32
            &&& forall|k: int|
                0 <= k < w.ws(ws).floating.len() && k != i ==> #[trigger] after.ws(ws).floating[k]
                    == w.ws(ws).floating[k]
            &&& after.ws(ws).tree == w.ws(ws).tree
        }),
{
    let (f, r) = w.ws(ws).floating[i];
    lemma_float(w, ws, i);
    laws::law_retile_only_notes(
        w.set_ws(ws, commands::refloated(w.ws(ws), f, commands::shifted(r, dir))),
        ws,
    );
}

/// A floating window is resized at the edge in the direction of the command: the
/// opposite edge and the other side stay, and the side that changes is never shorter
/// than 64 pixels.
pub proof fn law_resized_float_moves_one_edge(
    w: World,
    dir: Direction,
    delta: i32,
    pick: Option<WindowId>,
    ws: WorkspaceId,
    i: int,
)
    requires
        w.wf(),
        w.focused_workspace() == Some(ws),
        w.knows(ws),
        0 <= i < w.ws(ws).floating.len(),
        w.focused_window == Some(w.ws(ws).floating[i].0),
        w.can_run(Command::Resize { dir, delta_px: delta }),
    ensures
        ({
            let (f, r) = w.ws(ws).floating[i];
            let after = w.dispatched(Command::Resize { dir, delta_px: delta }, false, pick).0;
            let (g, s) = after.ws(ws).floating[i];
            &&& g == f
            &&& dir is Left || dir is Right ==> {
                &&& s.y == r.y && s.h == r.h
                &&& s.w >= 64
                &&& r.w + delta >= 64 ==> s.w == r.w + delta
                &&& r.w + delta < 64 ==> s.w == 64
            }
            &&& dir is Up || dir is Down ==> {
                &&& s.x == r.x && s.w == r.w
                &&& s.h >= 64
                &&& r.h + delta >= 64 ==> s.h == r.h + delta
                &&& r.h + delta < 64 ==> s.h == 64
            }
            &&& dir is Right ==> s.x == r.x
            &&& dir is Left ==> s.x + s.w == r.x + r.w
            &&& dir is Down ==> s.y == r.y
            &&& dir is Up ==> s.y + s.h == r.y + r.h
        }),
{
    let (f, r) = w.ws(ws).floating[i];
    lemma_float(w, ws, i);
    laws::law_retile_only_notes(
        w.set_ws(ws, commands::refloated(w.ws(ws), f, commands::stretched(r, dir, delta as int))),
        ws,
    );
}

/// The focused floating window is found.
proof fn lemma_float(w: World, ws: WorkspaceId, i: int)
    requires
        w.wf(),
        w.focused_workspace() == Some(ws),
        w.knows(ws),
        0 <= i < w.ws(ws).floating.len(),
        w.focused_window == Some(w.ws(ws).floating[i].0),
    ensures
        w.is_floating(w.ws(ws).floating[i].0),
        commands::float_of(w.ws(ws), w.ws(ws).floating[i].0) == i,
        w.focused_float() == Some(w.ws(ws).floating[i].1),
{
    let m = w.ws(ws);
    let f = m.floating[i].0;
    assert(laws::places_once(w.workspaces[ws.0 - 1]));
    assert(m.floats(f));
    assert(w.workspaces[ws.0 - 1].floats(f));
    assert(w.workspaces[ws.0 - 1].has(f));
    assert(commands::is_float(m, i, f));
    let k = commands::float_of(m, f);
    assert(commands::is_float(m, k, f));
}

/// Resizing a tiled window pushes the split at its side, and moves no other window to
/// another workspace.
pub proof fn law_resize_pushes_the_split(
    w: World,
    dir: Direction,
    delta: i32,
    pick: Option<WindowId>,
    ws: WorkspaceId,
    f: WindowId,
    area: Rect,
    t: WindowId,
)
    requires
        w.wf(),
        w.focused_workspace() == Some(ws),
        w.knows(ws),
        w.work_area(ws) == Some(area),
        area.valid(),
        w.focused_window == Some(f),
        !w.is_floating(f),
        w.ws(ws).tree.tree is Some,
    ensures
        ({
            let after = w.dispatched(Command::Resize { dir, delta_px: delta }, false, pick).0;
            let l = w.ws(ws).tree;
            let a = l.tree->0.tile_of(t, area);
            let b = after.ws(ws).tree.tree->0.tile_of(t, area);
            &&& after.ws(ws).tree.holds(t) <==> l.holds(t)
            &&& dir is Left || dir is Right ==> b.y == a.y && b.h == a.h
            &&& dir is Up || dir is Down ==> b.x == a.x && b.w == a.w
            &&& after.focused_window == Some(f)
            &&& after.ws(ws).tree == l.resized(f, dir, delta as int, area)
        }),
{
    let l = w.ws(ws).tree;
    assert(w.workspaces[ws.0 - 1].tree.wf());
    tree::law_resize_keeps_windows(l, f, dir, delta as int, area);
    geometry::law_resize_keeps_the_other_side(l, f, dir, delta as int, area, t);
    laws::law_retile_only_notes(w.set_tree(ws, l.resized(f, dir, delta as int, area)), ws);
}

// ---- the layout of a workspace ------------------------------------------------

/// In monocle mode every window of a workspace gets the whole area and none is hidden.
/// Otherwise every visible tiled window gets its tile with the gap taken off on every
/// side, every other member of a stack is hidden, and every floating window keeps its
/// size.
pub proof fn law_windows_get_their_places(w: World, ws: WorkspaceId, area: Rect, t: WindowId)
    requires
        w.wf(),
        w.knows(ws),
        w.work_area(ws) == Some(area),
        area.valid(),
        w.ws(ws).has(t),
    ensures
        w.ws(ws).monocle ==> {
            &&& w.plan(ws, area).moves.contains((t, area))
            &&& w.plan(ws, area).visible.contains(t)
            &&& w.plan(ws, area).hidden.len() == 0
        },
        !w.ws(ws).monocle && w.ws(ws).tree.holds(t) ==> {
            let n = w.ws(ws).tree.tree->0;
            let a = n.tile_of(t, area);
            let g = w.gaps.inner;
            &&& n.shows(t) ==> w.plan(ws, area).visible.contains(t) && exists|r: Rect| #[trigger]
                w.plan(ws, area).moves.contains((t, r)) && (a.w >= 2 * g && a.h >= 2 * g && g >= 0
                    ==> r.x == a.x + g && r.y == a.y + g && r.w == a.w - 2 * g && r.h == a.h - 2
                    * g)
            &&& !n.shows(t) ==> w.plan(ws, area).hidden.contains(t)
        },
        !w.ws(ws).monocle && w.ws(ws).floats(t) ==> exists|r: Rect, s: Rect|
            w.ws(ws).floating.contains((t, r)) && #[trigger] w.plan(ws, area).moves.contains((t, s))
                && #[trigger] r.clamp_inside_spec(area) == s,
{
    let m = w.ws(ws);
    let n = m.tree.tree->0;
    let plan = w.plan(ws, area);
    assert(w.workspaces[ws.0 - 1].tree.wf());
    let tiles = m.tree.laid_out(area, w.gaps.inner as int);
    if m.floats(t) {
        let i = choose|i: int| 0 <= i < m.floating.len() && (#[trigger] m.floating[i]).0 == t;
        let r = m.floating[i].1;
        let names = m.floating.map_values(|p: (WindowId, Rect)| p.0);
        assert(names[i] == t);
        assert(m.all_windows()[m.tree.windows().len() + i] == t);
        assert(m.floating.contains((t, r)));
        if m.monocle {
            assert(plan.moves[m.tree.windows().len() + i] == (t, area));
        } else {
            assert(plan.moves[tiles.len() + i] == (t, r.clamp_inside_spec(area)));
            assert(plan.moves.contains((t, r.clamp_inside_spec(area))));
        }
    }
    if m.tree.holds(t) {
        tree::law_windows_are_tiles_and_hidden(n, area);
        if m.monocle {
            assert(n.windows().contains(t));
            let i = choose|i: int| 0 <= i < n.windows().len() && n.windows()[i] == t;
            assert(m.all_windows()[i] == t);
            assert(plan.moves[i] == (t, area));
        } else if n.shows(t) {
            tree::lemma_tiles_show(n, area);
            let i = choose|i: int| 0 <= i < n.tiles(area).len() && #[trigger] n.tiles(area)[i].0
                == t;
            geometry::lemma_tile_entry(n, area, i);
            assert(plan.moves[i] == tiles[i]);
            assert(plan.visible[i] == t);
            assert(plan.moves.contains((t, tiles[i].1)));
        }
    }
}

/// What a workspace's windows are to be moved to is handed to the desktop, unless
/// nothing is to be moved.
pub proof fn law_places_are_handed_on(w: World, ws: WorkspaceId, area: Rect)
    requires
        w.work_area(ws) == Some(area),
        w.plan(ws, area).moves.len() > 0,
    ensures
        w.retiled(ws).0.desk.log.contains(Act::Place(w.plan(ws, area).moves)),
        w.retiled(ws).1 is Ok <==> (w.desk.batches >= w.desk.accepted.len()
            || w.desk.accepted[w.desk.batches as int]),
{
    let plan = w.plan(ws, area);
    let shown = w.visit_all(plan.visible, Visit::Reveal);
    lemma_log_grows(w, plan.visible, Visit::Reveal);
    let placed = World { desk: shown.desk.placed(plan.moves), ..shown };
    let k = shown.desk.log.len() as int;
    assert(placed.desk.log[k] == Act::Place(plan.moves));
    if shown.desk.accepts(plan.moves) {
        let covered = placed.visit_all(plan.hidden, Visit::Conceal);
        lemma_log_grows(placed, plan.hidden, Visit::Conceal);
        assert(covered.desk.log[k] == Act::Place(plan.moves));
        assert(covered.reframed(ws).desk.log[k] == Act::Place(plan.moves));
    }
}

/// Visits add to the requests.
proof fn lemma_log_grows(w: World, ids: Seq<WindowId>, how: Visit)
    ensures
        ({
            let after = w.visit_all(ids, how).desk;
            &&& after.log.len() >= w.desk.log.len()
            &&& forall|i: int|
                0 <= i < w.desk.log.len() ==> #[trigger] after.log[i] == w.desk.log[i]
            &&& after.batches == w.desk.batches
            &&& after.accepted == w.desk.accepted
        }),
    decreases ids.len(),
{
    if ids.len() > 0 {
        lemma_log_grows(w, ids.drop_last(), how);
    }
}

/// A window that is to be seen is shown and noted as not hidden; one that is to be
/// hidden is hidden and noted as hidden. Nothing is asked for where the window already
/// is as it should be.
pub proof fn law_visits_show_and_hide(w: World, id: WindowId)
    requires
        w.windows.contains_key(id),
    ensures
        ({
            let shown = w.visit(id, Visit::Show);
            let hidden = w.visit(id, Visit::Hide);
            let revealed = w.visit(id, Visit::Reveal);
            let concealed = w.visit(id, Visit::Conceal);
            let was = w.windows[id].hidden_by_us;
            &&& !shown.windows[id].hidden_by_us && shown.desk.log == w.desk.log.push(Act::Show(id))
            &&& hidden.windows[id].hidden_by_us && hidden.desk.log == w.desk.log.push(Act::Hide(id))
            &&& !revealed.windows[id].hidden_by_us
            &&& revealed.desk.log == if was {
                w.desk.log.push(Act::Show(id))
            } else {
                w.desk.log
            }
            &&& concealed.windows[id].hidden_by_us
            &&& concealed.desk.log == if was {
                w.desk.log
            } else {
                w.desk.log.push(Act::Hide(id))
            }
        }),
{
}

/// Monocle mode is switched by its command, and switched back by the same one.
pub proof fn law_monocle_is_switched(w: World, pick: Option<WindowId>, ws: WorkspaceId)
    requires
        w.focused_workspace() == Some(ws),
        w.knows(ws),
    ensures
        ({
            let after = w.dispatched(Command::ToggleMonocle, false, pick).0;
            &&& after.ws(ws).monocle == !w.ws(ws).monocle
            &&& after.ws(ws).tree == w.ws(ws).tree && after.ws(ws).floating == w.ws(ws).floating
            &&& after.focused_window == w.focused_window
        }),
{
    let switched = w.set_ws(
        ws,
        crate::workspace::WorkspaceModel { monocle: !w.ws(ws).monocle, ..w.ws(ws) },
    );
    laws::law_retile_only_notes(switched, ws);
}

/// The layout mode changes to the other one, the user is told which, and no window
/// moves.
pub proof fn law_layout_mode_is_switched(w: World, pick: Option<WindowId>, ws: WorkspaceId)
    requires
        w.focused_workspace() == Some(ws),
        w.knows(ws),
    ensures
        ({
            let (after, result) = w.dispatched(Command::ToggleLayoutMode, false, pick);
            let n = text::decimal(ws.0 as nat);
            &&& result is Ok
            &&& after.ws(ws).tree.tree == w.ws(ws).tree.tree
            &&& w.ws(ws).tree.mode is Dwindle ==> after.ws(ws).tree.mode is Spiral
                && after.desk.log == w.desk.log.push(
                Act::Notify(ToastLevel::Info, "Layout: "@ + "spiral"@ + " (ws "@ + n + ")"@),
            )
            &&& w.ws(ws).tree.mode is Spiral ==> after.ws(ws).tree.mode is Dwindle
                && after.desk.log == w.desk.log.push(
                Act::Notify(ToastLevel::Info, "Layout: "@ + "dwindle"@ + " (ws "@ + n + ")"@),
            )
        }),
{
}

// ---- stacks -----------------------------------------------------------------

/// The two commands that cycle a stack go to its next and to its previous member, which
/// gets the focus; without a stack nothing happens.
pub proof fn law_stack_commands_cycle(w: World, pick: Option<WindowId>, ws: WorkspaceId)
    requires
        w.wf(),
        w.focused_workspace() == Some(ws),
        w.knows(ws),
        w.ws(ws).tree.tree is Some,
    ensures
        ({
            let l = w.ws(ws).tree;
            let next = w.dispatched(Command::FocusStackNext, false, pick).0;
            let prev = w.dispatched(Command::FocusStackPrev, false, pick).0;
            &&& l.focused_node() is Stack ==> {
                &&& next.ws(ws).tree == l.cycled(true)
                &&& next.focused_window == l.cycled(true).focus
                &&& prev.ws(ws).tree == l.cycled(false)
                &&& prev.focused_window == l.cycled(false).focus
            }
            &&& !(l.focused_node() is Stack) ==> next == w && prev == w
        }),
{
    let l = w.ws(ws).tree;
    assert(w.workspaces[ws.0 - 1].tree.wf());
    if l.focused_node() is Stack {
        tree::law_cycle_goes_round(l, true);
        tree::law_cycle_goes_round(l, false);
        let n = w.set_tree(ws, l.cycled(true));
        assert(n.tree_focus(ws) is Some);
        laws::law_retile_only_notes(World { focused_window: n.tree_focus(ws), ..n }, ws);
        let p = w.set_tree(ws, l.cycled(false));
        assert(p.tree_focus(ws) is Some);
        laws::law_retile_only_notes(World { focused_window: p.tree_focus(ws), ..p }, ws);
    }
}

/// The command that stacks a tile stacks the focused one, or takes its stack apart, and
/// leaves the focus where it is.
pub proof fn law_stack_command_toggles(w: World, pick: Option<WindowId>, ws: WorkspaceId)
    requires
        w.wf(),
        w.focused_workspace() == Some(ws),
        w.knows(ws),
        w.ws(ws).tree.tree is Some,
    ensures
        ({
            let l = w.ws(ws).tree;
            let after = w.dispatched(Command::ToggleStack, false, pick).0;
            &&& after.ws(ws).tree == l.toggled()
            &&& after.focused_window == l.focus
        }),
{
    let l = w.ws(ws).tree;
    assert(w.workspaces[ws.0 - 1].tree.wf());
    tree::law_toggle_keeps_windows(l);
    let t = w.set_tree(ws, l.toggled());
    laws::law_retile_only_notes(World { focused_window: t.tree_focus(ws), ..t }, ws);
}

/// The command that swallows a neighbour takes the one in its direction into the focused
/// tile and gives it the focus; without one nothing happens.
pub proof fn law_stack_command_swallows(
    w: World,
    dir: Direction,
    pick: Option<WindowId>,
    ws: WorkspaceId,
    area: Rect,
)
    requires
        w.wf(),
        w.focused_workspace() == Some(ws),
        w.knows(ws),
        w.work_area(ws) == Some(area),
        w.ws(ws).tree.tree is Some,
    ensures
        ({
            let l = w.ws(ws).tree;
            let after = w.dispatched(Command::StackSwallow(dir), false, pick).0;
            &&& l.neighbour(l.focus->0, dir, area) is None ==> after == w
            &&& l.neighbour(l.focus->0, dir, area) matches Some(o) ==> {
                &&& after.ws(ws).tree == l.swallowed(dir, area)
                &&& after.focused_window == Some(o)
            }
        }),
{
    let l = w.ws(ws).tree;
    assert(w.workspaces[ws.0 - 1].tree.wf());
    if l.neighbour(l.focus->0, dir, area) is Some {
        tree::law_swallow_keeps_windows(l, dir, area);
        let s = w.set_tree(ws, l.swallowed(dir, area));
        let o = s.tree_focus(ws)->0;
        laws::law_retile_only_notes(World { focused_window: Some(o), ..s }.say(Act::Focus(o)), ws);
    }
}

/// The command that pops a member gives the focused member of a stack a tile of its own
/// and leaves it the focus; without one to pop nothing happens.
pub proof fn law_stack_command_pops(w: World, pick: Option<WindowId>, ws: WorkspaceId)
    requires
        w.wf(),
        w.focused_workspace() == Some(ws),
        w.knows(ws),
        w.ws(ws).tree.tree is Some,
    ensures
        ({
            let l = w.ws(ws).tree;
            let after = w.dispatched(Command::StackPop, false, pick).0;
            &&& l.can_pop() ==> after.ws(ws).tree == l.popped() && after.focused_window == l.focus
            &&& !l.can_pop() ==> after == w
        }),
{
    let l = w.ws(ws).tree;
    assert(w.workspaces[ws.0 - 1].tree.wf());
    if l.can_pop() {
        tree::law_pop_keeps_windows(l);
        let out = w.set_tree(ws, l.popped());
        let m = out.tree_focus(ws)->0;
        laws::law_retile_only_notes(
            World { focused_window: Some(m), ..out }.say(Act::Focus(m)),
            ws,
        );
    }
}

// ---- floating -----------------------------------------------------------------

/// A tiled window that is made to float leaves its tile and floats where the desktop
/// says it is, or at a fixed place of 800 by 600 pixels where the desktop does not
/// know.
pub proof fn law_floating_window_stays_where_it_is(
    w: World,
    pick: Option<WindowId>,
    id: WindowId,
)
    requires
        w.wf(),
        w.focused_window == Some(id),
        w.windows.contains_key(id),
        w.windows[id].mode == WindowMode::Tiled,
        w.knows(w.windows[id].workspace),
    ensures
        ({
            let ws = w.windows[id].workspace;
            let after = w.dispatched(Command::ToggleFloat, false, pick).0;
            let place = match w.desk.answer() {
                Some(r) => r,
                None => Rect { x: 100, y: 100, w: 800, h: 600 },
            };
            &&& after.windows[id].mode == WindowMode::Floating
            &&& after.windows[id].workspace == ws
            &&& after.ws(ws).floating == w.ws(ws).floating.push((id, place))
            &&& !after.ws(ws).tree.holds(id)
            &&& forall|o: WindowId|
                o != id ==> (#[trigger] after.ws(ws).tree.holds(o) <==> w.ws(ws).tree.holds(o))
        }),
{
    let ws = w.windows[id].workspace;
    assert(w.workspaces[ws.0 - 1].tree.wf());
    tree::law_remove_drops_the_window(w.ws(ws).tree, id);
    let asked = World {
        windows: w.windows.insert(
            id,
            crate::window::ManagedWindow { mode: WindowMode::Floating, ..w.windows[id] },
        ),
        desk: w.desk.asked(id),
        ..w
    };
    let place = match w.desk.answer() {
        Some(r) => r,
        None => model::fallback_place(),
    };
    let out = asked.set_ws(
        ws,
        crate::workspace::WorkspaceModel {
            tree: asked.ws(ws).tree.removed(id),
            floating: asked.ws(ws).floating.push((id, place)),
            ..asked.ws(ws)
        },
    );
    laws::law_retile_only_notes(out, ws);
    assert(out.retiled(ws).0 == w.dispatched(Command::ToggleFloat, false, pick).0);
    assert(out.retiled(ws).0.windows.contains_key(id));
    assert(out.ws(ws) == out.retiled(ws).0.ws(ws));
    assert forall|o: WindowId| o != id implies (#[trigger] out.ws(ws).tree.holds(o) <==> w.ws(
        ws,
    ).tree.holds(o)) by {}
}

/// A floating window that is tiled again gets a tile and floats no more.
pub proof fn law_floating_window_is_tiled_again(w: World, pick: Option<WindowId>, id: WindowId)
    requires
        w.wf(),
        w.focused_window == Some(id),
        w.windows.contains_key(id),
        w.windows[id].mode == WindowMode::Floating,
        w.knows(w.windows[id].workspace),
        w.ws(w.windows[id].workspace).floats(id),
    ensures
        ({
            let ws = w.windows[id].workspace;
            let after = w.dispatched(Command::ToggleFloat, false, pick).0;
            &&& after.windows[id].mode == WindowMode::Tiled
            &&& after.windows[id].workspace == ws
            &&& after.ws(ws).tree.holds(id)
            &&& after.ws(ws).tree.focus == Some(id)
            &&& !after.ws(ws).floats(id)
        }),
{
    let ws = w.windows[id].workspace;
    let m = w.ws(ws);
    assert(w.workspaces[ws.0 - 1].tree.wf());
    assert(laws::places_once(w.workspaces[ws.0 - 1]));
    let area = w.work_area_or(ws, model::nowhere());
    tree::law_insert_adds_the_window(m.tree, id, area);
    let marked = World {
        windows: w.windows.insert(
            id,
            crate::window::ManagedWindow { mode: WindowMode::Tiled, ..w.windows[id] },
        ),
        ..w
    };
    let rest = crate::workspace::unfloated(m.floating, id);
    let back = marked.set_ws(
        ws,
        crate::workspace::WorkspaceModel {
            tree: m.tree.inserted(id, area),
            floating: rest,
            ..m
        },
    );
    laws::law_retile_only_notes(back, ws);
    assert(back.retiled(ws).0 == w.dispatched(Command::ToggleFloat, false, pick).0);
    assert(back.retiled(ws).0.windows.contains_key(id));
    assert(back.ws(ws) == back.retiled(ws).0.ws(ws));
    assert(!back.ws(ws).floats(id)) by {
        if back.ws(ws).floats(id) {
            let i = choose|i: int| 0 <= i < rest.len() && (#[trigger] rest[i]).0 == id;
            m.floating.lemma_filter_pred(|p: (WindowId, Rect)| p.0 != id, i);
        }
    }
}

// ---- requests -----------------------------------------------------------------

/// Closing asks the focused window, and nothing else, to close; a notification says
/// the text at its level; and pausing says which of the two has begun.
pub proof fn law_requests_are_made(
    w: World,
    pick: Option<WindowId>,
    level: ToastLevel,
    said: String,
)
    ensures
        ({
            let closed = w.dispatched(Command::CloseFocused, false, pick).0;
            let told = w.dispatched(Command::Notify(level, said), false, pick).0;
            let paused = w.dispatched(Command::TogglePause, false, pick).0;
            &&& w.focused_window is None ==> closed == w
            &&& w.focused_window matches Some(id) ==> closed.desk.log == w.desk.log.push(
                Act::Close(id),
            )
            &&& closed.windows == w.windows
            &&& told.desk.log == w.desk.log.push(Act::Notify(level, said@))
            &&& !w.paused ==> paused.paused && paused.desk.log == w.desk.log.push(
                Act::PauseChanged(true),
            ).push(Act::Notify(ToastLevel::Info, "Paused"@))
            &&& w.paused ==> !paused.paused && paused.desk.log == w.desk.log.push(
                Act::PauseChanged(false),
            ).push(Act::Notify(ToastLevel::Info, "Resumed"@))
        }),
{
}

/// An open picker takes the directions: to the right and up to the next window, to the
/// left and down to the one before. The window that is picked gets the focus, and the
/// picker closes; any other command closes it first.
pub proof fn law_picker_takes_the_directions(
    w: World,
    dir: Direction,
    pick: Option<WindowId>,
    id: WindowId,
)
    requires
        w.wf(),
        w.windows.contains_key(id),
        w.windows[id].workspace == w.focused_workspace()->0,
        w.knows(w.windows[id].workspace),
    ensures
        ({
            let (cycled, result) = w.dispatched(Command::FocusDirection(dir), true, pick);
            let step = if dir is Right || dir is Up {
                1i32
            } else {
                -1i32
            };
            let toggled = w.dispatched(Command::PeekToggle, true, pick).0;
            let picked = w.dispatched(Command::PeekConfirm, true, Some(id)).0;
            let other = w.dispatched(Command::CloseFocused, true, pick).0;
            &&& result is Ok
            &&& cycled.desk.log == w.desk.log.push(Act::PeekCycle(step))
            &&& cycled.focused_window == w.focused_window && cycled.workspaces == w.workspaces
            &&& toggled.desk.log == w.desk.log.push(Act::PeekDismiss)
            &&& picked.focused_window == Some(id)
            &&& picked.desk.log[w.desk.log.len() as int] == Act::PeekDismiss
            &&& other.desk.log[w.desk.log.len() as int] == Act::PeekDismiss
        }),
{
    let ws = w.windows[id].workspace;
    let closed = w.say(Act::PeekDismiss);
    let there = closed.foregrounded(id);
    laws::law_retile_only_notes(there, ws);
    lemma_retile_log(there, ws);
    let k = w.desk.log.len() as int;
    assert(there.desk.log[k] == Act::PeekDismiss);
}

/// Retiling adds to the requests.
proof fn lemma_retile_log(w: World, ws: WorkspaceId)
    ensures
        w.retiled(ws).0.desk.log.len() >= w.desk.log.len(),
        forall|i: int|
            0 <= i < w.desk.log.len() ==> #[trigger] w.retiled(ws).0.desk.log[i] == w.desk.log[i],
{
    if w.work_area(ws) is Some {
        let plan = w.plan(ws, w.work_area(ws)->0);
        let shown = w.visit_all(plan.visible, Visit::Reveal);
        lemma_log_grows(w, plan.visible, Visit::Reveal);
        let placed = World { desk: shown.desk.placed(plan.moves), ..shown };
        lemma_log_grows(placed, plan.hidden, Visit::Conceal);
    }
}

/// The picker opens on the focused monitor with the managed windows of the workspace
/// there, in their order, and with the focused one highlighted.
pub proof fn law_picker_opens_with_the_windows(
    w: World,
    pick: Option<WindowId>,
    i: int,
    id: WindowId,
)
    requires
        w.wf(),
        0 <= i < w.monitors.len(),
        w.focused_monitor matches Some(m) && m@ == w.monitors[i].id@,
        w.knows(w.monitors[i].current_workspace),
        w.ws(w.monitors[i].current_workspace).has(id),
    ensures
        ({
            let after = w.dispatched(Command::PeekToggle, false, pick).0;
            let sources = w.peek_sources(w.monitors[i].current_workspace);
            &&& after.desk.log == w.desk.log.push(
                Act::PeekOpen(
                    PeekMonitor { bounds: w.monitors[i].info.bounds },
                    sources,
                    w.focused_window,
                ),
            )
            &&& exists|k: int|
                0 <= k < sources.len() && (#[trigger] sources[k]).window_id == id
                    && sources[k].source_hwnd == id.0 && sources[k].title == w.windows[id].title
        }),
{
    let m = w.focused_monitor->0;
    let ws = w.monitors[i].current_workspace;
    assert(monitor::is_monitor(w.monitors, i, m@));
    let at = monitor::monitor_index(w.monitors, m@)->0;
    assert(monitor::is_monitor(w.monitors, at, m@));
    if at < i {
        monitor::lemma_in_order_distinct(w.monitors, at, i);
    }
    if i < at {
        monitor::lemma_in_order_distinct(w.monitors, i, at);
    }
    assert(w.workspaces[ws.0 - 1].has(id));
    assert(w.windows.contains_key(id));
    let all = w.windows_on(ws);
    let some = all.filter(w.is_managed());
    assert(all.contains(id)) by {
        veil::lemma_all_windows(w.ws(ws), id);
    }
    let j = choose|j: int| 0 <= j < all.len() && all[j] == id;
    all.lemma_filter_contains(w.is_managed(), j);
    assert(some.contains(id));
    let k = choose|k: int| 0 <= k < some.len() && some[k] == id;
    let sources = w.peek_sources(ws);
    assert(0 <= k < sources.len() && sources[k].window_id == id && sources[k].source_hwnd == id.0
        && sources[k].title == w.windows[id].title);
    assert(w.monitor(m) == Some(w.monitors[i]));
    let screen = PeekMonitor { bounds: w.monitors[i].info.bounds };
    let open = Act::PeekOpen(screen, sources, w.focused_window);
    assert(w.dispatched(Command::PeekToggle, false, pick).0.desk.log == w.desk.log.push(open));
}

/// A window that gets the focus gets the frame and comes to the foreground; one that has
/// it already only comes to the foreground. Where none gets it, the frame goes away and
/// nothing is in the foreground.
pub proof fn law_frame_follows_the_focus(w: World, id: WindowId)
    ensures
        w.focused_window != Some(id) ==> w.raising(Some(id)).desk.log == w.desk.log.push(
            Act::Frame(id),
        ).push(Act::Focus(id)),
        w.focused_window == Some(id) ==> w.raising(Some(id)).desk.log == w.desk.log.push(
            Act::Focus(id),
        ),
        w.focused_window is Some ==> w.raising(None).desk.log == w.desk.log.push(
            Act::Unframe,
        ).push(Act::SinkFocus),
        w.focused_window is None ==> w.raising(None) == w,
        w.raising(Some(id)).focused_window == Some(id),
        w.raising(None).focused_window is None,
{
}

/// Retiling first shows what is to be seen, then moves the windows, and hides what is
/// covered once they were moved; at the end the frame moves along with the focused window.
pub proof fn law_retiling_has_an_order(w: World, ws: WorkspaceId, area: Rect, i: int) -> (k: int)
    requires
        w.work_area(ws) == Some(area),
        w.plan(ws, area).moves.len() > 0,
        w.desk.log.len() <= i < w.retiled(ws).0.desk.log.len(),
    ensures
        ({
            let log = w.retiled(ws).0.desk.log;
            &&& w.desk.log.len() <= k < log.len()
            &&& log[k] == Act::Place(w.plan(ws, area).moves)
            &&& i < k ==> log[i] is Show
            &&& i > k ==> log[i] is Hide || (log[i] is Reframe && i == log.len() - 1)
            &&& w.retiled(ws).1 is Ok ==> (w.focused_window matches Some(f)
                ==> w.windows.contains_key(f) && w.windows[f].workspace == ws ==> log.last()
                == Act::Reframe(f))
        }),
{
    let plan = w.plan(ws, area);
    let shown = w.visit_all(plan.visible, Visit::Reveal);
    lemma_log_grows(w, plan.visible, Visit::Reveal);
    lemma_visits_ask(w, plan.visible, Visit::Reveal, i);
    let placed = World { desk: shown.desk.placed(plan.moves), ..shown };
    let k = shown.desk.log.len() as int;
    assert(placed.desk.log[k] == Act::Place(plan.moves));
    if shown.desk.accepts(plan.moves) {
        let covered = placed.visit_all(plan.hidden, Visit::Conceal);
        lemma_log_grows(placed, plan.hidden, Visit::Conceal);
        lemma_visits_ask(placed, plan.hidden, Visit::Conceal, i);
        assert(covered.desk.log[k] == placed.desk.log[k]);
        assert(covered.reframed(ws).desk.log[k] == covered.desk.log[k]);
        if i < k {
            assert(placed.desk.log[i] == shown.desk.log[i]);
            assert(covered.desk.log[i] == placed.desk.log[i]);
        }
        laws::law_retile_only_notes(w, ws);
        let after = w.retiled(ws).0;
        assert(after == covered.reframed(ws));
        w.lemma_visits(plan.visible, Visit::Reveal);
        placed.lemma_visits(plan.hidden, Visit::Conceal);
        if w.focused_window is Some {
            let f = w.focused_window->0;
            assert(after.windows.contains_key(f) <==> w.windows.contains_key(f));
        }
    }
    k
}

/// Revealing shows windows, and concealing hides them.
proof fn lemma_visits_ask(w: World, ids: Seq<WindowId>, how: Visit, i: int)
    requires
        how is Reveal || how is Conceal,
    ensures
        ({
            let log = w.visit_all(ids, how).desk.log;
            w.desk.log.len() <= i < log.len() ==> (if how is Reveal {
                log[i] is Show
            } else {
                log[i] is Hide
            })
        }),
    decreases ids.len(),
{
    if ids.len() > 0 {
        lemma_visits_ask(w, ids.drop_last(), how, i);
    }
}

/// A new window is asked where it is, its animations are switched off, and it gets the
/// frame, in this order and before anything is moved.
pub proof fn law_new_window_is_prepared(
    w: World,
    id: WindowId,
    title: String,
    class: String,
    exe_name: String,
    ws: WorkspaceId,
)
    requires
        !w.windows.contains_key(id),
        w.focused_window != Some(id),
        w.host_of(w.desk.answer()) == Some(ws),
    ensures
        ({
            let log = w.managed(id, title, class, exe_name).0.desk.log;
            let n = w.desk.log.len() as int;
            &&& log.len() >= n + 3
            &&& log[n] == Act::Measure(id)
            &&& log[n + 1] == Act::DisableTransitions(id)
            &&& log[n + 2] == Act::Frame(id)
        }),
{
    let asked = World { desk: w.desk.asked(id), ..w };
    replay::lemma_host_twins(w, asked, w.desk.answer());
    let there = asked.say(Act::DisableTransitions(id)).adopted(
        id,
        title,
        class,
        exe_name,
        ws,
        model::nowhere(),
    ).focusing(Some(id));
    let n = w.desk.log.len() as int;
    assert(there.desk.log[n] == Act::Measure(id));
    assert(there.desk.log[n + 1] == Act::DisableTransitions(id));
    assert(there.desk.log[n + 2] == Act::Frame(id));
    lemma_retile_log(there, ws);
}

} // verus!
