//! What a change of the monitors keeps and brings about.

use crate::ids;
use crate::ids::{MonitorId, WindowId, WorkspaceId};
use crate::model::laws;
use crate::model::monitors;
use crate::model::moving;
use crate::model::{AlreadyVisibleBehaviour, Gaps, Visit, World};
use crate::monitor;
use crate::monitor::{Monitor, MonitorInfo};
use crate::window::ManagedWindow;
use crate::workspace::WorkspaceModel;
use vstd::prelude::*;

verus! {

proof fn lemma_only_bindings_transitive(a: World, b: World, c: World)
    requires
        moving::only_bindings(a, b),
        moving::only_bindings(b, c),
    ensures
        moving::only_bindings(a, c),
{
    assert forall|i: int| 0 <= i < a.workspaces.len() implies {
        &&& (#[trigger] c.workspaces[i]).tree == a.workspaces[i].tree
        &&& c.workspaces[i].floating == a.workspaces[i].floating
        &&& c.workspaces[i].monocle == a.workspaces[i].monocle
    } by {
        assert(b.workspaces[i].tree == a.workspaces[i].tree);
    }
    assert forall|id: WindowId| #[trigger]
        c.windows.contains_key(id) <==> a.windows.contains_key(id) by {
        assert(c.windows.contains_key(id) <==> b.windows.contains_key(id));
    }
    assert forall|id: WindowId| #[trigger] c.windows.contains_key(id) implies c.windows[id] == (
    ManagedWindow { hidden_by_us: c.windows[id].hidden_by_us, ..a.windows[id] }) by {
        assert(b.windows.contains_key(id));
    }
}

proof fn lemma_only_notes_bind(a: World, b: World)
    requires
        a.only_notes(b),
    ensures
        moving::only_bindings(a, b),
{
}

/// What is left of monitors in order is in order.
pub proof fn lemma_filter_in_order(all: Seq<Monitor>, p: spec_fn(Monitor) -> bool)
    requires
        monitor::in_order(all),
    ensures
        monitor::in_order(all.filter(p)),
        forall|i: int|
            0 <= i < all.filter(p).len() ==> p(#[trigger] all.filter(p)[i]) && all.contains(
                all.filter(p)[i],
            ),
        forall|i: int|
            0 <= i < all.len() && p(#[trigger] all[i]) ==> all.filter(p).contains(all[i]),
    decreases all.len(),
{
    reveal(Seq::filter);
    if all.len() > 0 {
        let rest = all.drop_last();
        assert(monitor::in_order(rest)) by {
            assert forall|i: int, j: int| 0 <= i < j < rest.len() implies ids::precedes(
                #[trigger] rest[i].id@,
                #[trigger] rest[j].id@,
            ) by {
                assert(ids::precedes(all[i].id@, all[j].id@));
            }
        }
        lemma_filter_in_order(rest, p);
        let left = rest.filter(p);
        let now = all.filter(p);
        assert forall|i: int| 0 <= i < now.len() implies p(#[trigger] now[i]) && all.contains(
            now[i],
        ) by {
            if i < left.len() {
                assert(now[i] == left[i]);
                assert(rest.contains(left[i]));
                let k = choose|k: int| 0 <= k < rest.len() && rest[k] == left[i];
                assert(all[k] == left[i]);
            } else {
                assert(all[all.len() - 1] == now[i]);
            }
        }
        assert forall|i: int| 0 <= i < all.len() && p(#[trigger] all[i]) implies now.contains(
            all[i],
        ) by {
            if i < rest.len() {
                assert(rest[i] == all[i]);
                assert(left.contains(rest[i]));
                let k = choose|k: int| 0 <= k < left.len() && left[k] == rest[i];
                assert(now[k] == rest[i]);
            } else {
                assert(now[now.len() - 1] == all[i]);
            }
        }
        assert forall|i: int, j: int| 0 <= i < j < now.len() implies ids::precedes(
            #[trigger] now[i].id@,
            #[trigger] now[j].id@,
        ) by {
            if j < left.len() {
                assert(ids::precedes(left[i].id@, left[j].id@));
            } else {
                assert(rest.contains(left[i]));
                let k = choose|k: int| 0 <= k < rest.len() && rest[k] == left[i];
                assert(ids::precedes(all[k].id@, all[all.len() - 1].id@));
            }
        }
    }
}

/// Which monitors are left when some are dropped.
proof fn lemma_left(all: Seq<Monitor>, p: spec_fn(Monitor) -> bool, id: Seq<char>)
    requires
        monitor::in_order(all),
    ensures
        match monitor::monitor_index(all.filter(p), id) {
            Some(j) => {
                &&& 0 <= j < all.filter(p).len()
                &&& monitor::monitor_index(all, id) matches Some(i) && 0 <= i < all.len() && all[i]
                    == all.filter(p)[j] && p(all[i])
            },
            None => monitor::monitor_index(all, id) matches Some(i) ==> !p(all[i]),
        },
{
    lemma_filter_in_order(all, p);
    let left = all.filter(p);
    match monitor::monitor_index(left, id) {
        Some(j) => {
            assert(monitor::is_monitor(left, j, id));
            assert(all.contains(left[j]));
            let i = choose|i: int| 0 <= i < all.len() && all[i] == left[j];
            monitor::lemma_monitor_index(all, i);
        },
        None => {
            if monitor::monitor_index(all, id) is Some {
                let i = monitor::monitor_index(all, id)->0;
                assert(monitor::is_monitor(all, i, id));
                if p(all[i]) {
                    assert(left.contains(all[i]));
                    let j = choose|j: int| 0 <= j < left.len() && left[j] == all[i];
                    assert(monitor::is_monitor(left, j, id));
                }
            }
        },
    }
}

/// What putting several workspaces into the pool does.
pub proof fn lemma_unbound_each(w: World, all: Seq<WorkspaceId>)
    requires
        w.workspaces.len() <= u32::MAX,
    ensures
        ({
            let after = w.unbound_each(all);
            &&& after == (World { workspaces: after.workspaces, ..w })
            &&& after.workspaces.len() == w.workspaces.len()
            &&& forall|i: int|
                0 <= i < w.workspaces.len() ==> #[trigger] after.workspaces[i] == (
                if all.contains(WorkspaceId((i + 1) as u32)) {
                    WorkspaceModel { active_monitor: None, ..w.workspaces[i] }
                } else {
                    w.workspaces[i]
                })
        }),
    decreases all.len(),
{
    if all.len() > 0 {
        let rest = all.drop_last();
        lemma_unbound_each(w, rest);
        let mid = w.unbound_each(rest);
        let after = w.unbound_each(all);
        assert forall|i: int| 0 <= i < w.workspaces.len() implies #[trigger] after.workspaces[i]
            == (if all.contains(WorkspaceId((i + 1) as u32)) {
            WorkspaceModel { active_monitor: None, ..w.workspaces[i] }
        } else {
            w.workspaces[i]
        }) by {
            let ws = WorkspaceId((i + 1) as u32);
            if rest.contains(ws) {
                let k = choose|k: int| 0 <= k < rest.len() && rest[k] == ws;
                assert(all[k] == ws);
            }
            if all.last() == ws {
                assert(all[all.len() - 1] == ws);
            } else if all.contains(ws) {
                let k = choose|k: int| 0 <= k < all.len() && all[k] == ws;
                assert(rest[k] == ws);
            }
            assert(mid.workspaces[i] == (if rest.contains(ws) {
                WorkspaceModel { active_monitor: None, ..w.workspaces[i] }
            } else {
                w.workspaces[i]
            }));
        }
    }
}

/// Without the monitors that are gone the invariant holds, but for the focus.
pub proof fn lemma_bereft(w: World, infos: Seq<MonitorInfo>)
    requires
        w.linked(),
    ensures
        ({
            let after = w.bereft(infos);
            &&& after.linked()
            &&& moving::only_bindings(w, after)
            &&& after.focused_monitor == w.focused_monitor
            &&& forall|id: MonitorId| #[trigger]
                after.monitor(id) == (if monitors::info_for(infos, id@) is Some {
                    w.monitor(id)
                } else {
                    None
                })
            &&& forall|i: int|
                0 <= i < w.workspaces.len() ==> {
                    &&& (#[trigger] after.workspaces[i]).last_seen_monitor
                        == w.workspaces[i].last_seen_monitor
                    &&& after.workspaces[i].active_monitor is None || (
                    after.workspaces[i].active_monitor == w.workspaces[i].active_monitor
                        && monitors::info_for(infos, w.workspaces[i].active_monitor->0@) is Some)
                }
        }),
{
    let all = w.monitors;
    let stays = monitors::stays(infos);
    let gone = monitors::gone(infos);
    let left = World { monitors: all.filter(stays), ..w };
    let orphans = w.orphans(infos);
    let after = w.bereft(infos);
    lemma_filter_in_order(all, stays);
    lemma_filter_in_order(all, gone);
    lemma_unbound_each(left, orphans);
    assert forall|i: int| 0 <= i < after.monitors.len() implies after.gaps.suit(
        (#[trigger] after.monitors[i]).info,
    ) by {
        let m = after.monitors[i];
        assert(all.contains(m));
        let k = choose|k: int| 0 <= k < all.len() && all[k] == m;
        assert(w.gaps.suit(all[k].info));
    }
    assert forall|i: int| 0 <= i < after.workspaces.len() implies (
    #[trigger] after.workspaces[i]).id.0 == i + 1 && after.workspaces[i].tree.wf() by {
        assert(w.workspaces[i].id.0 == i + 1 && w.workspaces[i].tree.wf());
    }
    moving::lemma_windows_keep(w, after);
    assert forall|id: MonitorId| #[trigger]
        after.monitor(id) == (if monitors::info_for(infos, id@) is Some {
            w.monitor(id)
        } else {
            None
        }) by {
        lemma_left(all, stays, id@);
        if monitor::monitor_index(all, id@) is Some {
            let i = monitor::monitor_index(all, id@)->0;
            assert(monitor::is_monitor(all, i, id@));
            assert(stays(all[i]) <==> monitors::info_for(infos, id@) is Some);
        }
    }
    assert forall|i: int| 0 <= i < w.workspaces.len() implies {
        &&& (#[trigger] after.workspaces[i]).last_seen_monitor == w.workspaces[i].last_seen_monitor
        &&& after.workspaces[i].active_monitor is None || (after.workspaces[i].active_monitor
            == w.workspaces[i].active_monitor && monitors::info_for(
            infos,
            w.workspaces[i].active_monitor->0@,
        ) is Some)
    } by {
        if after.workspaces[i].active_monitor is Some {
            let id = after.workspaces[i].active_monitor->0;
            let ws = WorkspaceId((i + 1) as u32);
            assert(w.workspaces[i].active_monitor == Some(id));
            let m = w.monitor(id)->0;
            if monitors::info_for(infos, id@) is None {
                let k = monitor::monitor_index(all, id@)->0;
                assert(monitor::is_monitor(all, k, id@));
                assert(gone(all[k]));
                assert(all.filter(gone).contains(all[k]));
                let j = choose|j: int|
                    0 <= j < all.filter(gone).len() && all.filter(gone)[j] == all[k];
                assert(orphans[j] == ws);
                assert(orphans.contains(ws));
            }
        }
    }
    assert forall|i: int| 0 <= i < after.workspaces.len() implies ((
    #[trigger] after.workspaces[i]).active_monitor matches Some(id) ==> after.monitor(id) is Some
        && after.monitor(id)->0.current_workspace.0 == i + 1) by {
        if after.workspaces[i].active_monitor is Some {
            let id = after.workspaces[i].active_monitor->0;
            assert(w.workspaces[i].active_monitor == Some(id));
        }
    }
}

/// Where the focus was on a monitor that is gone, another one gets it.
pub proof fn lemma_refocused(w: World)
    requires
        w.linked(),
    ensures
        w.refocused().wf(),
        w.refocused() == (World { focused_monitor: w.refocused().focused_monitor, ..w }),
{
    let after = w.refocused();
    assert(forall|id: MonitorId| after.monitor(id) == w.monitor(id));
    if w.monitors.len() > 0 {
        monitor::lemma_monitor_index(w.monitors, 0);
        if exists|i: int| w.is_first_primary(i) {
            let i = choose|i: int| w.is_first_primary(i);
            assert(w.is_first_primary(i));
            monitor::lemma_monitor_index(w.monitors, i);
        }
    }
    match w.focused_monitor {
        Some(id) => {
            if w.monitor(id) is Some {
                assert(after == w);
            }
        },
        None => {},
    }
    assert forall|i: int| 0 <= i < after.workspaces.len() implies ((
    #[trigger] after.workspaces[i]).active_monitor matches Some(id) ==> after.monitor(id) is Some
        && after.monitor(id)->0.current_workspace.0 == i + 1) by {
        assert(w.workspaces[i] == after.workspaces[i]);
    }
}

/// Fresh descriptions keep the invariant and every monitor's workspace.
pub proof fn lemma_refreshed(w: World, infos: Seq<MonitorInfo>)
    requires
        w.wf(),
        forall|i: int| 0 <= i < infos.len() ==> w.gaps.suit(#[trigger] infos[i]),
    ensures
        w.refreshed(infos).wf(),
        w.refreshed(infos) == (World { monitors: w.refreshed(infos).monitors, ..w }),
        forall|id: MonitorId| #[trigger]
            w.refreshed(infos).monitor(id) is Some <==> w.monitor(id) is Some,
        forall|id: MonitorId| #[trigger]
            w.refreshed(infos).monitor(id) is Some ==> w.refreshed(
                infos,
            ).monitor(id)->0.current_workspace == w.monitor(id)->0.current_workspace,
{
    let after = w.refreshed(infos);
    monitor::lemma_same_ids_in_order(w.monitors, after.monitors);
    assert forall|i: int| 0 <= i < after.monitors.len() implies after.gaps.suit(
        (#[trigger] after.monitors[i]).info,
    ) by {
        let id = w.monitors[i].id@;
        assert(w.gaps.suit(w.monitors[i].info));
        if monitors::info_for(infos, id) is Some {
            let k = choose|k: int| monitors::is_last_info(infos, k, id);
            assert(monitors::is_last_info(infos, k, id));
        }
    }
    assert forall|id: MonitorId|
        (#[trigger] after.monitor(id) is Some <==> w.monitor(id) is Some) && (after.monitor(
            id,
        ) is Some ==> after.monitor(id)->0.current_workspace
            == w.monitor(id)->0.current_workspace) by {
        match monitor::monitor_index(w.monitors, id@) {
            Some(i) => {
                assert(monitor::is_monitor(w.monitors, i, id@));
                assert(after.monitors[i].id == w.monitors[i].id);
                monitor::lemma_monitor_index(after.monitors, i);
            },
            None => {
                monitor::lemma_still_absent(w.monitors, after.monitors, id@);
            },
        }
    }
    assert forall|i: int| 0 <= i < after.workspaces.len() implies ((
    #[trigger] after.workspaces[i]).active_monitor matches Some(id) ==> after.monitor(id) is Some
        && after.monitor(id)->0.current_workspace.0 == i + 1) by {
        assert(w.workspaces[i] == after.workspaces[i]);
        if after.workspaces[i].active_monitor is Some {
            let id = after.workspaces[i].active_monitor->0;
            assert(w.monitor(id) is Some);
        }
    }
    match w.focused_monitor {
        Some(id) => {
            assert(w.monitor(id) is Some);
            assert(after.monitor(id) is Some);
        },
        None => {},
    }
}

/// Which monitors are there once one more is.
pub proof fn lemma_one_more(all: Seq<Monitor>, m: Monitor, id: Seq<char>)
    requires
        monitor::in_order(all),
        monitor::monitor_index(all, m.id@) is None,
    ensures
        ({
            let after = monitor::with_monitor(all, m);
            match monitor::monitor_index(after, id) {
                Some(j) => 0 <= j < after.len() && if id == m.id@ {
                    after[j] == m
                } else {
                    monitor::monitor_index(all, id) matches Some(i) && 0 <= i < all.len() && all[i]
                        == after[j]
                },
                None => id != m.id@ && monitor::monitor_index(all, id) is None,
            }
        }),
{
    monitor::lemma_with_monitor(all, m);
    let p = monitor::place_for(all, m.id@);
    let after = monitor::with_monitor(all, m);
    assert(after[p] == m);
    if id == m.id@ {
        monitor::lemma_monitor_index(after, p);
    } else {
        match monitor::monitor_index(all, id) {
            Some(i) => {
                assert(monitor::is_monitor(all, i, id));
                let j = if i < p {
                    i
                } else {
                    i + 1
                };
                assert(after[j] == all[i]);
                monitor::lemma_monitor_index(after, j);
            },
            None => {
                if exists|j: int| monitor::is_monitor(after, j, id) {
                    let j = choose|j: int| monitor::is_monitor(after, j, id);
                    assert(monitor::is_monitor(after, j, id));
                    let i = if j < p {
                        j
                    } else {
                        j - 1
                    };
                    assert(j != p);
                    assert(all[i] == after[j]);
                    assert(monitor::is_monitor(all, i, id));
                }
            },
        }
    }
}

/// Taking a workspace back from the monitor that shows it keeps the invariant.
pub proof fn lemma_reclaimed(w: World, ws: WorkspaceId, from: MonitorId, retile: Seq<WorkspaceId>)
    requires
        w.linked(),
        w.shown_on(ws) == Some(from),
    ensures
        ({
            let after = w.reclaimed(ws, from, retile).0;
            &&& after.linked()
            &&& moving::only_bindings(w, after)
            &&& after.focused_monitor == w.focused_monitor
            &&& monitor::same_ids(w.monitors, after.monitors)
            &&& forall|i: int|
                0 <= i < w.workspaces.len() ==> (#[trigger] after.workspaces[i]).last_seen_monitor
                    == w.workspaces[i].last_seen_monitor || after.workspaces[i].last_seen_monitor
                    == Some(from.0)
        }),
{
    let free = w.unbound(ws);
    assert(w.workspaces[ws.0 - 1].active_monitor == Some(from));
    moving::lemma_unbound(w, ws);
    if free.replacement_for(from, ws) is Some {
        let other = free.replacement_for(from, ws)->0;
        assert(free.monitor(from) == w.monitor(from));
        assert(w.monitor(from)->0.current_workspace == ws);
        moving::lemma_taken_over(free, from, other);
        let bound = free.bound(other, from);
        let ids = free.windows_on(other);
        let placed = bound.set_current(from, other);
        let after = w.reclaimed(ws, from, retile).0;
        moving::lemma_visits_commute(bound, ids, Visit::Show, from, other);
        assert(after == placed.visit_all(ids, Visit::Show));
        placed.lemma_visits(ids, Visit::Show);
        laws::lemma_visits_only_note(placed, ids, Visit::Show);
        laws::lemma_visits_keep(placed, ids, Visit::Show);
        lemma_only_notes_bind(placed, after);
        lemma_only_bindings_transitive(w, placed, after);
    }
}

/// A monitor that arrives keeps the invariant, but for the focus.
pub proof fn lemma_joined_by(w: World, info: MonitorInfo, retile: Seq<WorkspaceId>)
    requires
        w.linked(),
        w.gaps.suit(info),
        monitor::monitor_index(w.monitors, info.stable_id@) is None,
    ensures
        ({
            let after = w.joined_by(info, retile).0;
            let me = MonitorId(info.stable_id);
            &&& after.linked()
            &&& moving::only_bindings(w, after)
            &&& after.focused_monitor == w.focused_monitor
            &&& after.monitor(me) is Some
            &&& after.monitor(me)->0.current_workspace == w.choice_for(me@).0
            &&& w.knows(w.choice_for(me@).0) ==> after.shown_on(w.choice_for(me@).0) == Some(me)
            &&& forall|id: MonitorId|
                id@ != me@ ==> (#[trigger] after.monitor(id) is Some <==> w.monitor(id) is Some)
        }),
{
    let me = MonitorId(info.stable_id);
    let (ws, from) = w.choice_for(me@);
    let (ready, list) = match from {
        Some(other) => if w.knows(ws) {
            w.reclaimed(ws, other, retile)
        } else {
            (w, retile)
        },
        None => (w, retile),
    };
    if from is Some && w.knows(ws) {
        assert(w.shown_on(ws) == from);
        lemma_reclaimed(w, ws, from->0, retile);
        monitor::lemma_still_absent(w.monitors, ready.monitors, me@);
    }
    let bound = ready.bound(ws, me);
    let ids = ready.windows_on(ws);
    let shown = bound.visit_all(ids, Visit::Show);
    let after = w.joined_by(info, retile).0;
    let m = Monitor { id: me, info, current_workspace: ws };
    bound.lemma_visits(ids, Visit::Show);
    let fresh = World { monitors: monitor::with_monitor(bound.monitors, m), ..bound };
    monitor::lemma_with_monitor(bound.monitors, m);
    assert forall|i: int| 0 <= i < fresh.monitors.len() implies fresh.gaps.suit(
        (#[trigger] fresh.monitors[i]).info,
    ) by {
        let p = monitor::place_for(bound.monitors, me@);
        if i != p {
            let k = if i < p {
                i
            } else {
                i - 1
            };
            assert(fresh.monitors[i] == bound.monitors[k]);
            assert(ready.gaps.suit(ready.monitors[k].info));
        }
    }
    assert forall|i: int| 0 <= i < fresh.workspaces.len() implies (
    #[trigger] fresh.workspaces[i]).id.0 == i + 1 && fresh.workspaces[i].tree.wf() by {
        assert(ready.workspaces[i].id.0 == i + 1 && ready.workspaces[i].tree.wf());
    }
    moving::lemma_windows_keep(ready, fresh);
    assert forall|id: MonitorId|
        #![trigger fresh.monitor(id)]
        fresh.monitor(id) == (if id@ == me@ {
            Some(m)
        } else {
            ready.monitor(id)
        }) by {
        lemma_one_more(bound.monitors, m, id@);
    }
    assert forall|i: int| 0 <= i < fresh.workspaces.len() implies ((
    #[trigger] fresh.workspaces[i]).active_monitor matches Some(id) ==> fresh.monitor(id) is Some
        && fresh.monitor(id)->0.current_workspace.0 == i + 1) by {
        if fresh.workspaces[i].active_monitor is Some {
            let id = fresh.workspaces[i].active_monitor->0;
            if ready.knows(ws) && i == ws.0 - 1 {
                assert(id == me);
            } else {
                assert(ready.workspaces[i].active_monitor == Some(id));
                assert(ready.monitor(id) is Some);
            }
        }
    }
    assert(fresh.linked());
    lemma_visits_join(bound, ids, fresh.monitors);
    assert(after == fresh.visit_all(ids, Visit::Show));
    laws::lemma_visits_keep(fresh, ids, Visit::Show);
    laws::lemma_visits_only_note(fresh, ids, Visit::Show);
    lemma_only_notes_bind(fresh, after);
    lemma_only_bindings_transitive(w, ready, fresh);
    lemma_only_bindings_transitive(w, fresh, after);
    assert(after.monitors == fresh.monitors);
    assert(after.workspaces == fresh.workspaces);
    assert(forall|id: MonitorId| after.monitor(id) == fresh.monitor(id));
    assert forall|id: MonitorId| id@ != me@ implies (#[trigger] after.monitor(id) is Some
        <==> w.monitor(id) is Some) by {
        assert(fresh.monitor(id) == ready.monitor(id));
        lemma_same_ids_found(w.monitors, ready.monitors, id@);
    }
    assert(after.knows(ws) == w.knows(ws));
}

/// The same monitors are found in lists of the same monitors.
proof fn lemma_same_ids_found(a: Seq<Monitor>, b: Seq<Monitor>, id: Seq<char>)
    requires
        monitor::same_ids(a, b),
    ensures
        monitor::monitor_index(a, id) is Some <==> monitor::monitor_index(b, id) is Some,
{
    if monitor::monitor_index(a, id) is None {
        monitor::lemma_still_absent(a, b, id);
    }
    if monitor::monitor_index(b, id) is None {
        monitor::lemma_still_absent(b, a, id);
    }
}

/// Showing windows and adding a monitor can be done in either order.
proof fn lemma_visits_join(w: World, ids: Seq<WindowId>, all: Seq<Monitor>)
    ensures
        (World { monitors: all, ..w }).visit_all(ids, Visit::Show) == (World {
            monitors: all,
            ..w.visit_all(ids, Visit::Show)
        }),
    decreases ids.len(),
{
    if ids.len() > 0 {
        lemma_visits_join(w, ids.drop_last(), all);
    }
}

/// Monitors that arrive keep the invariant, but for the focus.
pub proof fn lemma_joined_by_all(
    w: World,
    infos: Seq<MonitorInfo>,
    n: int,
    retile: Seq<WorkspaceId>,
)
    requires
        w.linked(),
        0 <= n <= infos.len(),
        forall|i: int| 0 <= i < infos.len() ==> w.gaps.suit(#[trigger] infos[i]),
    ensures
        ({
            let after = w.joined_by_all(infos, n, retile).0;
            &&& after.linked()
            &&& moving::only_bindings(w, after)
            &&& after.focused_monitor == w.focused_monitor
            &&& forall|id: MonitorId| #[trigger]
                after.monitor(id) is Some <==> w.monitor(id) is Some || exists|k: int|
                    0 <= k < n && monitors::is_last_info(infos, k, id@)
        }),
    decreases n,
{
    if n > 0 {
        lemma_joined_by_all(w, infos, n - 1, retile);
        let (mid, list) = w.joined_by_all(infos, n - 1, retile);
        let info = infos[n - 1];
        let after = w.joined_by_all(infos, n, retile).0;
        let me = MonitorId(info.stable_id);
        let last = monitors::is_last_info(infos, n - 1, info.stable_id@);
        if last && monitor::monitor_index(mid.monitors, info.stable_id@) is None {
            lemma_joined_by(mid, info, list);
            lemma_only_bindings_transitive(w, mid, after);
        }
        assert forall|id: MonitorId| #[trigger]
            after.monitor(id) is Some <==> w.monitor(id) is Some || exists|k: int|
                0 <= k < n && monitors::is_last_info(infos, k, id@) by {
            assert(mid.monitor(id) is Some <==> w.monitor(id) is Some || exists|k: int|
                0 <= k < n - 1 && monitors::is_last_info(infos, k, id@));
            if exists|k: int| 0 <= k < n && monitors::is_last_info(infos, k, id@) {
                let k = choose|k: int| 0 <= k < n && monitors::is_last_info(infos, k, id@);
                if k == n - 1 {
                    assert(id@ == me@);
                    assert(after.monitor(id) == after.monitor(me));
                    assert(mid.monitor(id) == mid.monitor(me));
                }
            }
            if id@ == me@ {
                assert(after.monitor(id) == after.monitor(me));
                assert(mid.monitor(id) == mid.monitor(me));
                if last {
                    assert(monitors::is_last_info(infos, n - 1, id@));
                }
            }
        }
    }
}

/// Another memory of a workspace keeps the invariant.
proof fn lemma_remembering(w: World, ws: WorkspaceId, seen: Option<String>)
    requires
        w.wf(),
    ensures
        w.remembering(ws, seen).wf(),
        moving::only_bindings(w, w.remembering(ws, seen)),
{
    let after = w.remembering(ws, seen);
    moving::lemma_windows_keep(w, after);
    assert forall|i: int| 0 <= i < after.workspaces.len() implies ((
    #[trigger] after.workspaces[i]).active_monitor matches Some(id) ==> after.monitor(id) is Some
        && after.monitor(id)->0.current_workspace.0 == i + 1) by {
        assert(w.workspaces[i].active_monitor == after.workspaces[i].active_monitor);
    }
}

/// A monitor that takes a workspace in keeps the invariant, and no workspace
/// forgets the monitor it came from.
proof fn lemma_taken_in(w: World, m: MonitorId, ws: WorkspaceId)
    requires
        w.wf(),
    ensures
        ({
            let after = w.taken_in(m, ws);
            &&& after.wf()
            &&& moving::only_bindings(w, after)
            &&& after.focused_monitor == w.focused_monitor
            &&& forall|id: MonitorId| #[trigger]
                after.monitor(id) is Some <==> w.monitor(id) is Some
            &&& forall|i: int|
                0 <= i < w.workspaces.len() ==> (#[trigger] after.workspaces[i]).last_seen_monitor
                    == w.workspaces[i].last_seen_monitor
        }),
{
    let swapped = w.swapped_onto(m, ws).0;
    let after = w.taken_in(m, ws);
    moving::law_take_over_shows_the_workspace(w, m, ws);
    lemma_remembering(swapped, ws, w.remembered(ws));
    lemma_only_bindings_transitive(w, swapped, after);
    if w.monitor(m) is Some {
        let outgoing = w.monitor(m)->0.current_workspace;
        let hidden = w.visit_all(w.windows_on(outgoing), Visit::Hide);
        laws::lemma_visits_only_note(w, w.windows_on(outgoing), Visit::Hide);
        let away = hidden.unbound(outgoing);
        let bound = away.bound(ws, m);
        let ids = away.windows_on(ws);
        laws::lemma_visits_only_note(bound, ids, Visit::Show);
        let shown = bound.visit_all(ids, Visit::Show);
        let here = shown.set_current(m, ws);
        laws::law_retile_only_notes(here, ws);
        assert(swapped.monitors == here.monitors);
        assert(swapped.workspaces == here.workspaces);
        assert forall|i: int| 0 <= i < w.workspaces.len() implies (
        #[trigger] after.workspaces[i]).last_seen_monitor == w.workspaces[i].last_seen_monitor by {
            assert(here.workspaces[i] == bound.workspaces[i]);
        }
        assert(bound.monitors == w.monitors);
        assert forall|id: MonitorId| #[trigger]
            after.monitor(id) is Some <==> w.monitor(id) is Some by {
            assert(monitor::same_ids(w.monitors, here.monitors));
            lemma_same_ids_found(w.monitors, here.monitors, id@);
        }
    } else {
        assert forall|id: MonitorId| #[trigger]
            after.monitor(id) is Some <==> w.monitor(id) is Some by {
            assert(after.monitors == w.monitors);
        }
    }
}

/// Sheltering workspaces keeps the invariant, and none forgets the monitor it
/// came from.
pub proof fn lemma_sheltered(
    w: World,
    shelters: Seq<MonitorId>,
    orphans: Seq<WorkspaceId>,
    n: int,
)
    requires
        w.wf(),
    ensures
        ({
            let after = w.sheltered(shelters, orphans, n);
            &&& after.wf()
            &&& moving::only_bindings(w, after)
            &&& after.focused_monitor == w.focused_monitor
            &&& forall|id: MonitorId| #[trigger]
                after.monitor(id) is Some <==> w.monitor(id) is Some
            &&& forall|i: int|
                0 <= i < w.workspaces.len() ==> (#[trigger] after.workspaces[i]).last_seen_monitor
                    == w.workspaces[i].last_seen_monitor
        }),
    decreases n,
{
    if n > 0 {
        lemma_sheltered(w, shelters, orphans, n - 1);
        let mid = w.sheltered(shelters, orphans, n - 1);
        let after = w.sheltered(shelters, orphans, n);
        if n <= shelters.len() {
            lemma_taken_in(mid, shelters[n - 1], orphans[n - 1]);
            assert forall|id: MonitorId| #[trigger]
                after.monitor(id) is Some <==> w.monitor(id) is Some by {
                assert(mid.monitor(id) is Some <==> w.monitor(id) is Some);
            }
        } else {
            let ids = mid.windows_on(orphans[n - 1]);
            laws::lemma_visits_keep(mid, ids, Visit::Hide);
            laws::lemma_visits_only_note(mid, ids, Visit::Hide);
            lemma_only_notes_bind(mid, after);
            assert forall|id: MonitorId| #[trigger]
                after.monitor(id) is Some <==> w.monitor(id) is Some by {
                assert(mid.monitor(id) is Some <==> w.monitor(id) is Some);
            }
        }
        lemma_only_bindings_transitive(w, mid, after);
    }
}

/// Retiling several workspaces touches nothing but the requests and the notes
/// on windows.
pub proof fn lemma_retiled_each(w: World, all: Seq<WorkspaceId>)
    ensures
        w.only_notes(w.retiled_each(all)),
    decreases all.len(),
{
    if all.len() > 0 {
        lemma_retiled_each(w, all.drop_last());
        let mid = w.retiled_each(all.drop_last());
        laws::law_retile_only_notes(mid, all.last());
        laws::lemma_notes_transitive(w, mid, mid.retiled(all.last()).0);
    }
}

/// A focus for the first monitor that arrives where there was none.
pub proof fn lemma_led(w: World)
    requires
        w.linked(),
        w.focused_monitor matches Some(id) ==> w.monitor(id) is Some,
    ensures
        ({
            let led = if w.focused_monitor is None && w.monitors.len() > 0 {
                World { focused_monitor: Some(w.monitors[0].id), ..w }
            } else {
                w
            };
            led.wf()
        }),
{
    if w.focused_monitor is None && w.monitors.len() > 0 {
        let led = World { focused_monitor: Some(w.monitors[0].id), ..w };
        monitor::lemma_monitor_index(w.monitors, 0);
        assert forall|i: int| 0 <= i < led.workspaces.len() implies ((
        #[trigger] led.workspaces[i]).active_monitor matches Some(id) ==> led.monitor(id) is Some
            && led.monitor(id)->0.current_workspace.0 == i + 1) by {
            assert(w.workspaces[i] == led.workspaces[i]);
            assert(forall|id: MonitorId| led.monitor(id) == w.monitor(id));
        }
    }
}

/// Taking over a fresh enumeration keeps the invariant. The monitors are those
/// of the enumeration, and no window is lost or changes its workspace.
#[verifier::rlimit(40)]
#[verifier::spinoff_prover]
pub proof fn law_reconcile_keeps_order(w: World, infos: Seq<MonitorInfo>)
    requires
        w.wf(),
        forall|i: int| 0 <= i < infos.len() ==> w.gaps.suit(#[trigger] infos[i]),
    ensures
        w.reconciled(infos).wf(),
        moving::only_bindings(w, w.reconciled(infos)),
        forall|id: MonitorId| #[trigger]
            w.reconciled(infos).monitor(id) is Some <==> monitors::info_for(infos, id@) is Some,
{
    let orphans = w.orphans(infos);
    let left = w.bereft(infos);
    lemma_bereft(w, infos);
    let lead = left.refocused();
    lemma_refocused(left);
    let known = lead.refreshed(infos);
    lemma_refreshed(lead, infos);
    let list = known.monitors.map_values(|m: Monitor| m.current_workspace);
    lemma_joined_by_all(known, infos, infos.len() as int, list);
    let (met, retile) = known.joined_by_all(infos, infos.len() as int, list);
    match met.focused_monitor {
        Some(id) => {
            assert(known.monitor(id) is Some);
            assert(met.monitor(id) is Some);
        },
        None => {},
    }
    lemma_led(met);
    let led = if met.focused_monitor is None && met.monitors.len() > 0 {
        World { focused_monitor: Some(met.monitors[0].id), ..met }
    } else {
        met
    };
    let stranded = led.stranded(orphans);
    lemma_sheltered(led, led.shelters(infos), stranded, stranded.len() as int);
    let home = led.sheltered(led.shelters(infos), stranded, stranded.len() as int);
    lemma_retiled_each(home, retile);
    let tiled = home.retiled_each(retile);
    laws::lemma_notes_hold(home, tiled);
    let after = w.reconciled(infos);
    assert(tiled.only_notes(after));
    laws::lemma_notes_hold(tiled, after);
    lemma_only_notes_bind(home, tiled);
    lemma_only_notes_bind(tiled, after);
    lemma_only_bindings_transitive(home, tiled, after);
    lemma_only_bindings_transitive(led, home, after);
    lemma_only_bindings_transitive(known, met, after);
    lemma_only_bindings_transitive(w, left, known);
    lemma_only_bindings_transitive(w, known, after);
    assert forall|id: MonitorId| #[trigger]
        after.monitor(id) is Some <==> monitors::info_for(infos, id@) is Some by {
        assert(after.monitors == home.monitors);
        assert(after.monitor(id) == home.monitor(id));
        assert(home.monitor(id) is Some <==> led.monitor(id) is Some);
        assert(led.monitor(id) == met.monitor(id));
        assert(met.monitor(id) is Some <==> known.monitor(id) is Some || exists|k: int|
            0 <= k < infos.len() && monitors::is_last_info(infos, k, id@));
        assert(known.monitor(id) is Some <==> lead.monitor(id) is Some);
        assert(lead.monitor(id) == left.monitor(id));
        if exists|k: int| monitors::is_last_info(infos, k, id@) {
            let k = choose|k: int| monitors::is_last_info(infos, k, id@);
            assert(monitors::is_last_info(infos, k, id@));
        }
    }
}

/// Where every monitor of an enumeration is there already, none arrives.
proof fn lemma_none_joins(w: World, infos: Seq<MonitorInfo>, n: int, retile: Seq<WorkspaceId>)
    requires
        n <= infos.len(),
        forall|k: int|
            0 <= k < n && #[trigger] monitors::is_last_info(infos, k, infos[k].stable_id@)
                ==> monitor::monitor_index(w.monitors, infos[k].stable_id@) is Some,
    ensures
        w.joined_by_all(infos, n, retile) == (w, retile),
    decreases n,
{
    if n > 0 {
        lemma_none_joins(w, infos, n - 1, retile);
    }
}

/// The description that counts is the last one.
proof fn lemma_last_info(infos: Seq<MonitorInfo>, k: int)
    requires
        0 <= k < infos.len(),
    ensures
        monitors::info_for(infos, infos[k].stable_id@) is Some,
    decreases infos.len() - k,
{
    let id = infos[k].stable_id@;
    if !monitors::is_last_info(infos, k, id) {
        let j = choose|j: int| k < j < infos.len() && (#[trigger] infos[j]).stable_id@ == id;
        lemma_last_info(infos, j);
    }
}

/// Where monitors only leave, no workspace forgets the monitor it was put on.
pub proof fn law_unplug_keeps_the_memory(w: World, infos: Seq<MonitorInfo>)
    requires
        w.wf(),
        forall|i: int| 0 <= i < infos.len() ==> w.gaps.suit(#[trigger] infos[i]),
        forall|i: int|
            0 <= i < infos.len() ==> w.monitor(MonitorId((#[trigger] infos[i]).stable_id)) is Some,
    ensures
        forall|i: int|
            0 <= i < w.workspaces.len() ==> (#[trigger] w.reconciled(
                infos,
            ).workspaces[i]).last_seen_monitor == w.workspaces[i].last_seen_monitor,
{
    let orphans = w.orphans(infos);
    let left = w.bereft(infos);
    lemma_bereft(w, infos);
    let lead = left.refocused();
    lemma_refocused(left);
    let known = lead.refreshed(infos);
    lemma_refreshed(lead, infos);
    let list = known.monitors.map_values(|m: Monitor| m.current_workspace);
    assert forall|k: int|
        0 <= k < infos.len() && #[trigger] monitors::is_last_info(
            infos,
            k,
            infos[k].stable_id@,
        ) implies monitor::monitor_index(known.monitors, infos[k].stable_id@) is Some by {
        let id = MonitorId(infos[k].stable_id);
        assert(w.monitor(id) is Some);
        lemma_last_info(infos, k);
        assert(left.monitor(id) is Some);
        assert(lead.monitor(id) is Some);
        assert(known.monitor(id) is Some);
    }
    lemma_none_joins(known, infos, infos.len() as int, list);
    match known.focused_monitor {
        Some(id) => {
            assert(known.monitor(id) is Some);
        },
        None => {},
    }
    let stranded = known.stranded(orphans);
    lemma_sheltered(known, known.shelters(infos), stranded, stranded.len() as int);
    let home = known.sheltered(known.shelters(infos), stranded, stranded.len() as int);
    lemma_retiled_each(home, list);
    assert(w.reconciled(infos).workspaces == home.workspaces);
    assert forall|i: int| 0 <= i < w.workspaces.len() implies (#[trigger] w.reconciled(
        infos,
    ).workspaces[i]).last_seen_monitor == w.workspaces[i].last_seen_monitor by {
        assert(home.workspaces[i].last_seen_monitor == known.workspaces[i].last_seen_monitor);
        assert(known.workspaces[i] == left.workspaces[i]);
    }
}

/// The first workspace for which a predicate holds is one for which it holds.
proof fn lemma_first_found(all: Seq<WorkspaceModel>, p: spec_fn(WorkspaceModel) -> bool)
    requires
        all.len() <= u32::MAX,
    ensures
        monitors::first_workspace(all, p) matches Some(ws) ==> 1 <= ws.0 <= all.len() && p(
            all[ws.0 - 1],
        ),
        monitors::first_workspace(all, p) is None ==> forall|j: int|
            0 <= j < all.len() ==> !p(#[trigger] all[j]),
{
    if exists|k: int| monitors::is_first(all, p, k) {
        let k = choose|k: int| monitors::is_first(all, p, k);
        assert(monitors::is_first(all, p, k));
    } else {
        assert forall|j: int| 0 <= j < all.len() implies !p(#[trigger] all[j]) by {
            if p(all[j]) {
                lemma_first_exists(all, p, j);
            }
        }
    }
}

/// Where a predicate holds of some workspace, there is a first one.
proof fn lemma_first_exists(all: Seq<WorkspaceModel>, p: spec_fn(WorkspaceModel) -> bool, k: int)
    requires
        0 <= k < all.len(),
        p(all[k]),
    ensures
        exists|i: int| monitors::is_first(all, p, i),
    decreases k,
{
    if !monitors::is_first(all, p, k) {
        let j = choose|j: int| 0 <= j < k && p(#[trigger] all[j]);
        lemma_first_exists(all, p, j);
    }
}

/// Which workspace a monitor gets that some workspace remembers.
proof fn lemma_remembered_choice(w: World, id: Seq<char>, k: int)
    requires
        w.linked(),
        0 <= k < w.workspaces.len(),
        monitors::was_on(w.workspaces[k], id),
    ensures
        ({
            let (ws, from) = w.choice_for(id);
            &&& w.knows(ws)
            &&& monitors::was_on(w.ws(ws), id)
            &&& from == w.ws(ws).active_monitor
            &&& from is None <==> w.has_waiting(id)
        }),
{
    lemma_first_found(w.workspaces, monitors::waits_for(id));
    lemma_first_found(w.workspaces, monitors::strayed_from(id));
    assert(monitors::waits_for(id)(w.workspaces[k]) || monitors::strayed_from(id)(
        w.workspaces[k],
    ));
}

/// Which workspace a monitor gets in place of one that remembers another monitor.
proof fn lemma_replacement(w: World, ws: WorkspaceId, from: MonitorId)
    requires
        w.linked(),
        w.shown_on(ws) == Some(from),
        !monitors::was_on(w.ws(ws), from@),
    ensures
        w.unbound(ws).replacement_for(from, ws) matches Some(r) ==> {
            &&& w.knows(r)
            &&& r != ws
            &&& w.ws(r).active_monitor is None
            &&& w.has_waiting(from@) ==> monitors::was_on(w.ws(r), from@)
        },
{
    let free = w.unbound(ws);
    let waits = monitors::waits_for(from@);
    lemma_first_found(free.workspaces, waits);
    lemma_first_found(free.workspaces, monitors::idle_other_than(ws));
    if w.has_waiting(from@) {
        let j = choose|j: int| 0 <= j < w.workspaces.len() && waits(#[trigger] w.workspaces[j]);
        assert(free.workspaces[j] == w.workspaces[j]);
        assert(waits(free.workspaces[j]));
    }
    if free.replacement_for(from, ws) is Some {
        let r = free.replacement_for(from, ws)->0;
        assert(free.workspaces[r.0 - 1].id == r) by {
            assert(w.workspaces[r.0 - 1].id.0 == r.0);
        }
    }
}

/// The workspace that goes to the monitor which has to give one to `id`.
spec fn swapped_in(w: World, id: Seq<char>) -> Option<WorkspaceId> {
    let (ws, from) = w.choice_for(id);
    match from {
        Some(p) => w.unbound(ws).replacement_for(p, ws),
        None => None,
    }
}

/// What the arrival of a monitor that some workspace remembers does.
#[verifier::spinoff_prover]
proof fn lemma_return(w: World, info: MonitorInfo, retile: Seq<WorkspaceId>, k: int)
    requires
        w.linked(),
        monitor::monitor_index(w.monitors, info.stable_id@) is None,
        0 <= k < w.workspaces.len(),
        monitors::was_on(w.workspaces[k], info.stable_id@),
    ensures
        ({
            let me = MonitorId(info.stable_id);
            let after = w.joined_by(info, retile).0;
            let (ws, from) = w.choice_for(me@);
            let other = swapped_in(w, me@);
            &&& after.workspaces.len() == w.workspaces.len()
            &&& w.knows(ws)
            &&& monitors::was_on(w.ws(ws), me@)
            &&& from == w.ws(ws).active_monitor
            &&& from is None <==> w.has_waiting(me@)
            &&& other matches Some(r) ==> {
                &&& from is Some
                &&& w.knows(r)
                &&& r != ws
                &&& w.ws(r).active_monitor is None
                &&& w.has_waiting(from->0@) ==> monitors::was_on(w.ws(r), from->0@)
            }
            &&& forall|i: int|
                0 <= i < w.workspaces.len() ==> #[trigger] after.workspaces[i] == (if i == ws.0
                    - 1 {
                    WorkspaceModel {
                        active_monitor: Some(me),
                        last_seen_monitor: Some(me.0),
                        ..w.workspaces[i]
                    }
                } else if other is Some && i == (other->0).0 - 1 {
                    WorkspaceModel {
                        active_monitor: from,
                        last_seen_monitor: Some((from->0).0),
                        ..w.workspaces[i]
                    }
                } else {
                    w.workspaces[i]
                })
            &&& forall|id: MonitorId| #[trigger]
                after.monitor(id) == (if id@ == me@ {
                    Some(Monitor { id: me, info, current_workspace: ws })
                } else if other is Some && id@ == from->0@ {
                    Some(Monitor { current_workspace: other->0, ..w.monitor(id)->0 })
                } else {
                    w.monitor(id)
                })
            &&& forall|id: Seq<char>|
                #![trigger monitor::monitor_index(after.monitors, id)]
                monitor::monitor_index(after.monitors, id) is Some <==> id == me@
                    || monitor::monitor_index(w.monitors, id) is Some
        }),
{
    let me = MonitorId(info.stable_id);
    let after = w.joined_by(info, retile).0;
    lemma_remembered_choice(w, me@, k);
    let (ws, from) = w.choice_for(me@);
    let other = swapped_in(w, me@);
    let free = w.unbound(ws);
    let ready = if from is Some {
        w.reclaimed(ws, from->0, retile).0
    } else {
        w
    };
    if from is Some {
        let p = from->0;
        assert(w.shown_on(ws) == from);
        assert(w.monitor(p) is Some);
        lemma_replacement(w, ws, p);
        lemma_reclaimed(w, ws, p, retile);
        monitor::lemma_still_absent(w.monitors, ready.monitors, me@);
        if other is Some {
            free.bound(other->0, p).lemma_visits(free.windows_on(other->0), Visit::Show);
        }
    }
    let bound = ready.bound(ws, me);
    let m = Monitor { id: me, info, current_workspace: ws };
    bound.lemma_visits(ready.windows_on(ws), Visit::Show);
    assert(after.monitors == monitor::with_monitor(ready.monitors, m));
    assert(after.workspaces == bound.workspaces);
    assert forall|id: MonitorId| #[trigger]
        after.monitor(id) == (if id@ == me@ {
            Some(m)
        } else if other is Some && id@ == from->0@ {
            Some(Monitor { current_workspace: other->0, ..w.monitor(id)->0 })
        } else {
            w.monitor(id)
        }) by {
        lemma_one_more(ready.monitors, m, id@);
        if other is Some {
            moving::lemma_monitor_after(free.bound(other->0, from->0), from->0, other->0, id);
        }
    }
    assert forall|id: Seq<char>|
        #![trigger monitor::monitor_index(after.monitors, id)]
        monitor::monitor_index(after.monitors, id) is Some <==> id == me@
            || monitor::monitor_index(w.monitors, id) is Some by {
        lemma_one_more(ready.monitors, m, id);
        lemma_same_ids_found(w.monitors, ready.monitors, id);
    }
}

/// Whether a monitor shows a workspace that remembered it.
pub open spec fn has_back(before: World, now: World, id: MonitorId) -> bool {
    &&& now.monitor(id) is Some
    &&& before.knows(now.monitor(id)->0.current_workspace)
    &&& monitors::was_on(before.ws(now.monitor(id)->0.current_workspace), id@)
    &&& now.shown_on(now.monitor(id)->0.current_workspace) matches Some(here) && here@ == id@
}

/// Whether the monitors that have arrived since `before` show workspaces that
/// remembered them then, and those that are still to arrive are remembered as
/// they were.
spec fn giving_back(before: World, now: World, infos: Seq<MonitorInfo>) -> bool {
    &&& now.workspaces.len() == before.workspaces.len()
    &&& now.can_give_back(infos)
    &&& forall|i: int, id: Seq<char>|
        #![trigger monitors::was_on(now.workspaces[i], id)]
        #![trigger monitors::was_on(before.workspaces[i], id)]
        0 <= i < now.workspaces.len() && now.awaits(infos, id) ==> (monitors::was_on(
            now.workspaces[i],
            id,
        ) <==> monitors::was_on(before.workspaces[i], id))
    &&& forall|id: MonitorId|
        #![trigger now.monitor(id)]
        now.monitor(id) is Some && before.monitor(id) is None ==> has_back(before, now, id)
            && monitors::was_on(now.ws(now.monitor(id)->0.current_workspace), id@)
}

/// A pool that shrinks while monitors arrive stays free.
proof fn lemma_pool_stays_free(now: World, after: World, infos: Seq<MonitorInfo>)
    requires
        now.has_free_pool(infos),
        after.workspaces.len() == now.workspaces.len(),
        forall|i: int|
            0 <= i < now.workspaces.len() && (
            #[trigger] after.workspaces[i]).active_monitor is None ==> after.workspaces[i]
                == now.workspaces[i],
        forall|id: Seq<char>| #[trigger] after.awaits(infos, id) ==> now.awaits(infos, id),
    ensures
        after.has_free_pool(infos),
{
    assert forall|k: int|
        0 <= k < after.workspaces.len() && (
        #[trigger] after.workspaces[k]).active_monitor is None implies !after.is_awaited(
        infos,
        k,
    ) by {
        assert(!now.is_awaited(infos, k));
    }
}

/// A monitor that arrives gets a workspace back, and the others still can.
#[verifier::spinoff_prover]
#[verifier::rlimit(60)]
proof fn lemma_one_has_back(
    before: World,
    now: World,
    infos: Seq<MonitorInfo>,
    at: int,
    retile: Seq<WorkspaceId>,
    k: int,
)
    requires
        now.linked(),
        giving_back(before, now, infos),
        monitors::is_last_info(infos, at, infos[at].stable_id@),
        monitor::monitor_index(now.monitors, infos[at].stable_id@) is None,
        monitor::monitor_index(before.monitors, infos[at].stable_id@) is None,
        0 <= k < before.workspaces.len(),
        monitors::was_on(before.workspaces[k], infos[at].stable_id@),
    ensures
        giving_back(before, now.joined_by(infos[at], retile).0, infos),
{
    let info = infos[at];
    let me = MonitorId(info.stable_id);
    let after = now.joined_by(info, retile).0;
    assert(monitors::info_for(infos, me@) is Some);
    assert(now.awaits(infos, me@));
    assert(monitors::was_on(now.workspaces[k], me@));
    lemma_return(now, info, retile, k);
    let (ws, from) = now.choice_for(me@);
    let other = swapped_in(now, me@);
    let p = from->0;
    if from is Some {
        let i = ws.0 - 1;
        assert(now.workspaces[i].active_monitor == Some(p));
        assert(now.is_awaited(infos, i));
        assert(now.has_waiting(p@) || now.has_free_pool(infos));
        assert(now.monitor(p) is Some);
        assert(now.monitor(p)->0.current_workspace == ws);
    }
    assert forall|id: Seq<char>| #[trigger] after.awaits(infos, id) implies now.awaits(infos, id)
        && id != me@ && (from is Some ==> id != p@) by {
        assert(monitor::monitor_index(after.monitors, id) is None);
    }
    assert forall|i: int, id: Seq<char>|
        0 <= i < now.workspaces.len() && after.awaits(infos, id) implies (
    #[trigger] monitors::was_on(after.workspaces[i], id) <==> monitors::was_on(
        before.workspaces[i],
        id,
    )) by {
        assert(monitors::was_on(now.workspaces[i], id) <==> monitors::was_on(
            before.workspaces[i],
            id,
        ));
        if other is Some && i == (other->0).0 - 1 {
            if monitors::was_on(now.workspaces[i], id) && !now.has_waiting(p@) {
                assert(now.is_awaited(infos, i));
            }
        }
    }
    assert forall|id: MonitorId| #[trigger]
        after.monitor(id) is Some && before.monitor(id) is None implies has_back(before, after, id)
        && monitors::was_on(after.ws(after.monitor(id)->0.current_workspace), id@) by {
        if id@ == me@ {
            assert(monitors::was_on(before.ws(ws), me@));
        } else {
            assert(now.monitor(id) is Some);
            let here = now.monitor(id)->0.current_workspace;
            assert(has_back(before, now, id));
            assert(now.workspaces[here.0 - 1].active_monitor is Some);
            if here == ws {
                assert(monitors::was_on(now.ws(ws), me@));
            }
            if other is Some && id@ == p@ {
                assert(now.monitor(id) == now.monitor(p));
            }
        }
    }
    assert(after.can_give_back(infos)) by {
        assert forall|i: int|
            #![trigger after.workspaces[i]]
            0 <= i < after.workspaces.len() && after.workspaces[i].active_monitor is Some
                && after.is_awaited(infos, i) && !after.has_waiting(
                after.workspaces[i].last_seen_monitor->0@,
            ) implies after.has_waiting(after.workspaces[i].active_monitor->0@)
            || after.has_free_pool(infos) by {
            let seen = now.workspaces[i].last_seen_monitor->0@;
            let here = now.workspaces[i].active_monitor->0;
            assert(after.workspaces[i] == now.workspaces[i]);
            assert(now.is_awaited(infos, i));
            assert(now.monitor(here) is Some);
            if now.has_waiting(seen) {
                let j = choose|j: int|
                    0 <= j < now.workspaces.len() && monitors::waits_for(seen)(
                        #[trigger] now.workspaces[j],
                    );
                if other is Some && j == (other->0).0 - 1 {
                    assert(now.is_awaited(infos, j));
                } else {
                    assert(after.workspaces[j] == now.workspaces[j]);
                    assert(monitors::waits_for(seen)(after.workspaces[j]));
                }
            }
            if now.has_free_pool(infos) {
                lemma_pool_stays_free(now, after, infos);
            } else {
                let j = choose|j: int|
                    0 <= j < now.workspaces.len() && monitors::waits_for(here@)(
                        #[trigger] now.workspaces[j],
                    );
                if other is Some && j == (other->0).0 - 1 {
                    assert(now.monitor(here) == now.monitor(p));
                } else {
                    assert(after.workspaces[j] == now.workspaces[j]);
                    assert(monitors::waits_for(here@)(after.workspaces[j]));
                }
            }
        }
    }
}

/// The monitors of an enumeration that were not there get workspaces back, one
/// after the other.
proof fn lemma_each_has_back(
    before: World,
    infos: Seq<MonitorInfo>,
    n: int,
    retile: Seq<WorkspaceId>,
)
    requires
        before.linked(),
        before.can_give_back(infos),
        0 <= n <= infos.len(),
        forall|i: int| 0 <= i < infos.len() ==> before.gaps.suit(#[trigger] infos[i]),
        forall|id: Seq<char>| #[trigger]
            before.awaits(infos, id) ==> exists|k: int|
                0 <= k < before.workspaces.len() && monitors::was_on(
                    #[trigger] before.workspaces[k],
                    id,
                ),
    ensures
        giving_back(before, before.joined_by_all(infos, n, retile).0, infos),
    decreases n,
{
    if n > 0 {
        lemma_each_has_back(before, infos, n - 1, retile);
        lemma_joined_by_all(before, infos, n - 1, retile);
        let (now, list) = before.joined_by_all(infos, n - 1, retile);
        let id = infos[n - 1].stable_id@;
        if monitors::is_last_info(infos, n - 1, id) && monitor::monitor_index(
            now.monitors,
            id,
        ) is None {
            let me = MonitorId(infos[n - 1].stable_id);
            assert(now.monitor(me) is None);
            assert(before.monitor(me) is None);
            assert(before.awaits(infos, id));
            let k = choose|k: int|
                0 <= k < before.workspaces.len() && monitors::was_on(
                    #[trigger] before.workspaces[k],
                    id,
                );
            lemma_one_has_back(before, now, infos, n - 1, list, k);
        }
    }
}

/// Monitors that come back, one or several at once, each get a workspace that
/// remembers them, also from a monitor that took the workspace in meanwhile.
///
/// This is of an enumeration in which no monitor is missing and every new one is
/// remembered, and of monitors that can give back what they took in.
pub proof fn law_replug_snaps_all_back(w: World, infos: Seq<MonitorInfo>)
    requires
        w.wf(),
        forall|i: int| 0 <= i < infos.len() ==> w.gaps.suit(#[trigger] infos[i]),
        forall|id: MonitorId| #[trigger]
            w.monitor(id) is Some ==> monitors::info_for(infos, id@) is Some,
        forall|id: Seq<char>| #[trigger]
            w.awaits(infos, id) ==> exists|k: int|
                0 <= k < w.workspaces.len() && monitors::was_on(#[trigger] w.workspaces[k], id),
        w.can_give_back(infos),
    ensures
        forall|id: MonitorId| #[trigger]
            w.awaits(infos, id@) ==> has_back(w, w.reconciled(infos), id),
{
    let after = w.reconciled(infos);
    let orphans = w.orphans(infos);
    lemma_filter_in_order(w.monitors, monitors::gone(infos));
    assert(w.monitors.filter(monitors::gone(infos)).len() == 0) by {
        let away = w.monitors.filter(monitors::gone(infos));
        if away.len() > 0 {
            let gone = away[0];
            assert(w.monitors.contains(gone));
            let i = choose|i: int| 0 <= i < w.monitors.len() && w.monitors[i] == gone;
            monitor::lemma_monitor_index(w.monitors, i);
            assert(w.monitor(gone.id) is Some);
        }
    }
    assert(orphans.len() == 0);
    let left = w.bereft(infos);
    lemma_bereft(w, infos);
    let lead = left.refocused();
    lemma_refocused(left);
    let known = lead.refreshed(infos);
    lemma_refreshed(lead, infos);
    assert(known.workspaces == w.workspaces);
    assert forall|id: Seq<char>|
        #![trigger monitor::monitor_index(known.monitors, id)]
        monitor::monitor_index(known.monitors, id) is Some <==> monitor::monitor_index(
            w.monitors,
            id,
        ) is Some by {
        lemma_all_stay(w.monitors, monitors::stays(infos), id);
        lemma_same_ids_found(lead.monitors, known.monitors, id);
    }
    assert(forall|id: Seq<char>| #[trigger] known.awaits(infos, id) == w.awaits(infos, id));
    assert(known.can_give_back(infos)) by {
        assert forall|i: int|
            #![trigger known.workspaces[i]]
            0 <= i < known.workspaces.len() && known.workspaces[i].active_monitor is Some
                && known.is_awaited(infos, i) && !known.has_waiting(
                known.workspaces[i].last_seen_monitor->0@,
            ) implies known.has_waiting(known.workspaces[i].active_monitor->0@)
            || known.has_free_pool(infos) by {
            assert(w.workspaces[i] == known.workspaces[i]);
            assert(w.is_awaited(infos, i));
            if w.has_free_pool(infos) {
                lemma_pool_stays_free(w, known, infos);
            }
        }
    }
    let list = known.monitors.map_values(|m: Monitor| m.current_workspace);
    lemma_joined_by_all(known, infos, infos.len() as int, list);
    lemma_each_has_back(known, infos, infos.len() as int, list);
    let (met, retile) = known.joined_by_all(infos, infos.len() as int, list);
    let led = if met.focused_monitor is None && met.monitors.len() > 0 {
        World { focused_monitor: Some(met.monitors[0].id), ..met }
    } else {
        met
    };
    let stranded = led.stranded(orphans);
    assert(stranded.len() == 0) by {
        reveal(Seq::filter);
    }
    lemma_retiled_each(led, retile);
    assert(after.workspaces == met.workspaces);
    assert(after.monitors == met.monitors);
    assert forall|id: MonitorId| #[trigger] w.awaits(infos, id@) implies has_back(w, after, id) by {
        assert(known.awaits(infos, id@));
        let k = choose|k: int| monitors::is_last_info(infos, k, id@);
        assert(monitors::is_last_info(infos, k, id@));
        assert(met.monitor(id) is Some);
        assert(known.monitor(id) is None);
        assert(has_back(known, met, id));
        assert(after.monitor(id) == met.monitor(id));
    }
}

/// A monitor that comes back gets the workspace that remembers it, also from a
/// monitor that took the workspace in meanwhile. This is of the one monitor
/// that arrives, and of a workspace that alone remembers it.
pub proof fn law_replug_snaps_back(
    w: World,
    infos: Seq<MonitorInfo>,
    m: MonitorId,
    ws: WorkspaceId,
)
    requires
        w.wf(),
        forall|i: int| 0 <= i < infos.len() ==> w.gaps.suit(#[trigger] infos[i]),
        w.monitor(m) is None,
        forall|id: Seq<char>| #[trigger]
            monitors::info_for(infos, id) is Some <==> monitor::monitor_index(
                w.monitors,
                id,
            ) is Some || id == m@,
        w.knows(ws),
        monitors::was_on(w.ws(ws), m@),
        forall|i: int|
            0 <= i < w.workspaces.len() && i != ws.0 - 1 ==> !monitors::was_on(
                #[trigger] w.workspaces[i],
                m@,
            ),
    ensures
        ({
            let after = w.reconciled(infos);
            &&& after.monitor(m) is Some
            &&& after.monitor(m)->0.current_workspace == ws
            &&& after.shown_on(ws) is Some
            &&& after.shown_on(ws)->0@ == m@
        }),
{
    assert(monitors::was_on(w.workspaces[ws.0 - 1], m@));
    assert(w.can_give_back(infos)) by {
        assert forall|i: int|
            #![trigger w.workspaces[i]]
            0 <= i < w.workspaces.len() && w.workspaces[i].active_monitor is Some && w.is_awaited(
                infos,
                i,
            ) && !w.has_waiting(w.workspaces[i].last_seen_monitor->0@) implies w.has_free_pool(
            infos,
        ) by {
            assert forall|k: int|
                0 <= k < w.workspaces.len() && (
                #[trigger] w.workspaces[k]).active_monitor is None implies !w.is_awaited(
                infos,
                k,
            ) by {
                if w.is_awaited(infos, k) {
                    assert(monitors::waits_for(m@)(w.workspaces[k]));
                }
            }
        }
    }
    law_replug_snaps_all_back(w, infos);
    assert(w.awaits(infos, m@));
    let now = w.reconciled(infos);
    assert(has_back(w, now, m));
    law_reconcile_keeps_order(w, infos);
    let shown = now.monitor(m)->0.current_workspace;
    assert(monitors::was_on(w.workspaces[shown.0 - 1], m@));
}

/// Where no monitor is dropped, each one is still found.
proof fn lemma_all_stay(all: Seq<Monitor>, p: spec_fn(Monitor) -> bool, id: Seq<char>)
    requires
        monitor::in_order(all),
        forall|i: int| 0 <= i < all.len() ==> p(#[trigger] all[i]),
    ensures
        monitor::monitor_index(all.filter(p), id) is Some <==> monitor::monitor_index(
            all,
            id,
        ) is Some,
{
    lemma_left(all, p, id);
    if monitor::monitor_index(all, id) is Some {
        assert(monitor::is_monitor(all, monitor::monitor_index(all, id)->0, id));
    }
}

/// A monitor that is put on record with a workspace keeps the invariant, but for
/// the focus.
proof fn lemma_enrolled(w: World, info: MonitorInfo, ws: WorkspaceId)
    requires
        w.linked(),
        w.gaps.suit(info),
        monitor::monitor_index(w.monitors, info.stable_id@) is None,
    ensures
        ({
            let me = MonitorId(info.stable_id);
            let bound = w.bound(ws, me);
            let after = World {
                monitors: monitors::enrolled(
                    bound.monitors,
                    Monitor { id: me, info, current_workspace: ws },
                ),
                ..bound
            };
            &&& after.linked()
            &&& forall|id: MonitorId| #[trigger]
                after.monitor(id) is Some <==> w.monitor(id) is Some || id@ == me@
        }),
{
    let me = MonitorId(info.stable_id);
    let bound = w.bound(ws, me);
    let m = Monitor { id: me, info, current_workspace: ws };
    let after = World { monitors: monitors::enrolled(bound.monitors, m), ..bound };
    monitor::lemma_with_monitor(bound.monitors, m);
    assert forall|i: int| 0 <= i < after.monitors.len() implies after.gaps.suit(
        (#[trigger] after.monitors[i]).info,
    ) by {
        let p = monitor::place_for(bound.monitors, me@);
        if i != p {
            let k = if i < p {
                i
            } else {
                i - 1
            };
            assert(after.monitors[i] == w.monitors[k]);
            assert(w.gaps.suit(w.monitors[k].info));
        }
    }
    moving::lemma_windows_keep(w, after);
    assert forall|id: MonitorId|
        #![trigger after.monitor(id)]
        after.monitor(id) == (if id@ == me@ {
            Some(m)
        } else {
            w.monitor(id)
        }) by {
        lemma_one_more(bound.monitors, m, id@);
    }
    assert forall|i: int| 0 <= i < after.workspaces.len() implies ((
    #[trigger] after.workspaces[i]).active_monitor matches Some(id) ==> after.monitor(id) is Some
        && after.monitor(id)->0.current_workspace.0 == i + 1) by {
        if after.workspaces[i].active_monitor is Some {
            let id = after.workspaces[i].active_monitor->0;
            if w.knows(ws) && i == ws.0 - 1 {
                assert(id == me);
            } else {
                assert(w.workspaces[i].active_monitor == Some(id));
                assert(w.monitor(id) is Some);
            }
        }
    }
}

/// The monitors of an enumeration are put on record one after the other.
pub proof fn lemma_enrolled_all(w: World, infos: Seq<MonitorInfo>, n: int)
    requires
        w.linked(),
        w.monitors.len() == 0,
        0 <= n <= infos.len(),
        forall|i: int| 0 <= i < infos.len() ==> w.gaps.suit(#[trigger] infos[i]),
        forall|i: int, j: int|
            0 <= i < j < infos.len() ==> #[trigger] infos[i].stable_id@
                != #[trigger] infos[j].stable_id@,
    ensures
        w.enrolled_all(infos, n).linked(),
        w.enrolled_all(infos, n).windows == w.windows,
        w.enrolled_all(infos, n).gaps == w.gaps,
        forall|id: MonitorId| #[trigger]
            w.enrolled_all(infos, n).monitor(id) is Some <==> exists|k: int|
                0 <= k < n && (#[trigger] infos[k]).stable_id@ == id@,
    decreases n,
{
    if n <= 0 {
        assert forall|id: MonitorId| (#[trigger] w.enrolled_all(infos, n).monitor(id)) is None by {
            if exists|i: int| monitor::is_monitor(w.monitors, i, id@) {
                let i = choose|i: int| monitor::is_monitor(w.monitors, i, id@);
                assert(monitor::is_monitor(w.monitors, i, id@));
            }
        }
    } else {
        lemma_enrolled_all(w, infos, n - 1);
        let mid = w.enrolled_all(infos, n - 1);
        let info = infos[n - 1];
        let me = MonitorId(info.stable_id);
        let after = w.enrolled_all(infos, n);
        assert(mid.monitor(me) is None);
        lemma_enrolled(mid, info, monitors::first_choice(n - 1, mid.workspaces.len()));
        assert forall|id: MonitorId| #[trigger] after.monitor(id) is Some <==> exists|k: int|
            0 <= k < n && (#[trigger] infos[k]).stable_id@ == id@ by {
            assert(mid.monitor(id) is Some <==> exists|k: int|
                0 <= k < n - 1 && (#[trigger] infos[k]).stable_id@ == id@);
            if id@ == me@ {
                assert(infos[n - 1].stable_id@ == id@);
            }
        }
    }
}

/// The window manager starts with the invariant, where no two monitors of the
/// first enumeration have the same identifier. It has these monitors, and no
/// window.
pub proof fn law_start_is_in_order(
    count: u32,
    gaps: Gaps,
    on_already_visible: AlreadyVisibleBehaviour,
    infos: Seq<MonitorInfo>,
)
    requires
        forall|i: int| 0 <= i < infos.len() ==> gaps.suit(#[trigger] infos[i]),
        forall|i: int, j: int|
            0 <= i < j < infos.len() ==> #[trigger] infos[i].stable_id@
                != #[trigger] infos[j].stable_id@,
    ensures
        ({
            let w = monitors::unstarted(count as nat, gaps, on_already_visible).enrolled_all(
                infos,
                infos.len() as int,
            ).refocused();
            &&& w.wf()
            &&& w.windows == Map::<WindowId, ManagedWindow>::empty()
            &&& forall|id: MonitorId| #[trigger]
                w.monitor(id) is Some <==> exists|k: int|
                    0 <= k < infos.len() && (#[trigger] infos[k]).stable_id@ == id@
        }),
{
    let none = monitors::unstarted(count as nat, gaps, on_already_visible);
    assert forall|i: int, id: WindowId|
        0 <= i < none.workspaces.len() implies !#[trigger] none.workspaces[i].has(id) by {}
    assert(none.linked());
    lemma_enrolled_all(none, infos, infos.len() as int);
    let enrolled = none.enrolled_all(infos, infos.len() as int);
    lemma_refocused(enrolled);
    assert forall|id: MonitorId| #[trigger] enrolled.refocused().monitor(id) is Some
        <==> exists|k: int| 0 <= k < infos.len() && (#[trigger] infos[k]).stable_id@ == id@ by {
        assert(enrolled.refocused().monitor(id) == enrolled.monitor(id));
    }
}

} // verus!
