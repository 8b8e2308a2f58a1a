//! What is hidden while monitors come and go.

use crate::ids::{MonitorId, WindowId, WorkspaceId};
use crate::model::monitors;
use crate::model::moving;
use crate::model::topology;
use crate::model::veil;
use crate::model::veiling;
use crate::model::{AlreadyVisibleBehaviour, Gaps, Visit, World};
use crate::monitor;
use crate::monitor::{Monitor, MonitorInfo};
use vstd::prelude::*;

verus! {

/// Whether the workspace at `i` is in order, or one of these that have just lost
/// their monitor.
spec fn pends_at(w: World, orphans: Seq<WorkspaceId>, i: int) -> bool {
    w.veiled_at(i) || (w.workspaces[i].active_monitor is None && orphans.contains(
        WorkspaceId((i + 1) as u32),
    ))
}

/// A workspace that is put on a monitor with its windows shown is in order, and
/// the others stay as they are.
proof fn lemma_shown_at(w: World, ws: WorkspaceId, m: MonitorId, i: int)
    requires
        w.sound(),
        w.windows_linked(),
        0 <= i < w.workspaces.len(),
    ensures
        ({
            let after = w.bound(ws, m).visit_all(w.windows_on(ws), Visit::Show);
            &&& after.workspaces == w.bound(ws, m).workspaces
            &&& i == ws.0 - 1 || w.veiled_at(i) ==> after.veiled_at(i)
        }),
{
    let bound = w.bound(ws, m);
    let ids = w.windows_on(ws);
    let after = bound.visit_all(ids, Visit::Show);
    bound.lemma_visits(ids, Visit::Show);
    moving::lemma_windows_keep(w, bound);
    let n = after.workspaces[i];
    assert(w.workspaces[i].tree.wf());
    assert(n.tree == w.workspaces[i].tree && n.floating == w.workspaces[i].floating);
    if w.knows(ws) {
        assert(w.workspaces[ws.0 - 1].tree.wf());
        assert(bound.ws(ws).tree == w.ws(ws).tree && bound.ws(ws).floating == w.ws(ws).floating);
        assert(bound.windows_on(ws) == ids);
        assert forall|id: WindowId| #[trigger] n.has(id) implies after.windows[id].hidden_by_us
            == (if i == ws.0 - 1 {
            false
        } else {
            w.windows[id].hidden_by_us
        }) by {
            assert(bound.workspaces[i].has(id));
            veil::lemma_visited_workspace(bound, ws, Visit::Show, i, id);
        }
    } else {
        assert(after == w);
    }
    if i == ws.0 - 1 {
        assert forall|id: WindowId| #[trigger] veil::in_view(
            n,
            id,
        ) implies !after.windows[id].hidden_by_us by {
            veil::lemma_in_view(n, id);
        }
    } else if w.veiled_at(i) {
        veil::lemma_untouched(w, after, i);
    }
}

/// Taking a workspace back leaves the others in order, and the one that the
/// monitor gets instead.
proof fn lemma_reclaimed_at(
    w: World,
    ws: WorkspaceId,
    from: MonitorId,
    retile: Seq<WorkspaceId>,
    orphans: Seq<WorkspaceId>,
    i: int,
)
    requires
        w.linked(),
        0 <= i < w.workspaces.len(),
        i != ws.0 - 1,
        pends_at(w, orphans, i),
    ensures
        pends_at(w.reclaimed(ws, from, retile).0, orphans, i),
{
    let free = w.unbound(ws);
    moving::lemma_unbound(w, ws);
    assert(free.workspaces[i] == w.workspaces[i]);
    if w.veiled_at(i) {
        assert(w.workspaces[i].tree.wf());
        veil::lemma_untouched(w, free, i);
    }
    if let Some(other) = free.replacement_for(from, ws) {
        lemma_shown_at(free, other, from, i);
        let shown = free.bound(other, from).visit_all(free.windows_on(other), Visit::Show);
        let after = w.reclaimed(ws, from, retile).0;
        assert(after == shown.set_current(from, other));
        assert(after.workspaces == shown.workspaces && after.windows == shown.windows);
        if i == other.0 - 1 || free.veiled_at(i) {
            assert(shown.veiled_at(i));
            assert(after.veiled_at(i));
        } else {
            assert(after.workspaces[i] == free.workspaces[i]);
        }
    }
}

/// A monitor that arrives leaves the workspaces in order that were.
proof fn lemma_joined_at(
    w: World,
    info: MonitorInfo,
    retile: Seq<WorkspaceId>,
    orphans: Seq<WorkspaceId>,
    i: int,
)
    requires
        w.linked(),
        w.gaps.suit(info),
        monitor::monitor_index(w.monitors, info.stable_id@) is None,
        0 <= i < w.workspaces.len(),
        pends_at(w, orphans, i),
    ensures
        pends_at(w.joined_by(info, retile).0, orphans, i),
{
    let me = MonitorId(info.stable_id);
    let (ws, from) = w.choice_for(me@);
    let ready = if from is Some && w.knows(ws) {
        w.reclaimed(ws, from->0, retile).0
    } else {
        w
    };
    if from is Some && w.knows(ws) {
        assert(w.shown_on(ws) == from);
        topology::lemma_reclaimed(w, ws, from->0, retile);
        if i != ws.0 - 1 {
            lemma_reclaimed_at(w, ws, from->0, retile, orphans, i);
        }
    }
    lemma_shown_at(ready, ws, me, i);
    let shown = ready.bound(ws, me).visit_all(ready.windows_on(ws), Visit::Show);
    let after = w.joined_by(info, retile).0;
    assert(after.workspaces == shown.workspaces && after.windows == shown.windows);
    if i == ws.0 - 1 || ready.veiled_at(i) {
        assert(shown.veiled_at(i));
        assert(after.veiled_at(i));
    } else {
        assert(after.workspaces[i] == ready.workspaces[i]);
    }
}

proof fn lemma_all_joined_at(
    w: World,
    infos: Seq<MonitorInfo>,
    n: int,
    retile: Seq<WorkspaceId>,
    orphans: Seq<WorkspaceId>,
    i: int,
)
    requires
        w.linked(),
        0 <= n <= infos.len(),
        forall|k: int| 0 <= k < infos.len() ==> w.gaps.suit(#[trigger] infos[k]),
        0 <= i < w.workspaces.len(),
        pends_at(w, orphans, i),
    ensures
        pends_at(w.joined_by_all(infos, n, retile).0, orphans, i),
    decreases n,
{
    if n > 0 {
        lemma_all_joined_at(w, infos, n - 1, retile, orphans, i);
        topology::lemma_joined_by_all(w, infos, n - 1, retile);
        let (mid, list) = w.joined_by_all(infos, n - 1, retile);
        let info = infos[n - 1];
        if monitors::is_last_info(infos, n - 1, info.stable_id@) && monitor::monitor_index(
            mid.monitors,
            info.stable_id@,
        ) is None {
            lemma_joined_at(mid, info, list, orphans, i);
        }
    }
}

/// The workspaces of the monitors that are gone are the ones that are not in
/// order.
proof fn lemma_bereft_at(w: World, infos: Seq<MonitorInfo>, i: int)
    requires
        w.wf(),
        w.veiled(),
        0 <= i < w.workspaces.len(),
    ensures
        pends_at(w.bereft(infos), w.orphans(infos), i),
        w.bereft(infos).workspaces.len() == w.workspaces.len(),
{
    let left = World { monitors: w.monitors.filter(monitors::stays(infos)), ..w };
    topology::lemma_unbound_each(left, w.orphans(infos));
    let after = w.bereft(infos);
    if !w.orphans(infos).contains(WorkspaceId((i + 1) as u32)) {
        assert(after.workspaces[i] == w.workspaces[i]);
        assert(w.veiled_at(i));
        assert(after.veiled_at(i));
    }
}

/// No workspace is orphaned twice, where no two monitors share one.
proof fn lemma_orphans(w: World, infos: Seq<MonitorInfo>)
    requires
        w.wf(),
        w.paired(),
    ensures
        w.orphans(infos).no_duplicates(),
        forall|j: int| 0 <= j < w.orphans(infos).len() ==> w.knows(#[trigger] w.orphans(infos)[j]),
{
    let p = monitors::gone(infos);
    let away = w.monitors.filter(p);
    let all = w.orphans(infos);
    topology::lemma_filter_in_order(w.monitors, p);
    assert forall|j: int| 0 <= j < away.len() implies (w.shown_on(
        (#[trigger] away[j]).current_workspace,
    ) matches Some(here) && here@ == away[j].id@) by {
        assert(w.monitors.contains(away[j]));
        let k = w.monitors.index_of(away[j]);
        monitor::lemma_monitor_index(w.monitors, k);
        assert(w.monitor(away[j].id) == Some(away[j]));
    }
    assert forall|a: int, b: int| 0 <= a < b < all.len() implies #[trigger] all[a]
        != #[trigger] all[b] by {
        assert(all[a] == away[a].current_workspace);
        assert(all[b] == away[b].current_workspace);
        if all[a] == all[b] {
            monitor::lemma_in_order_distinct(away, a, b);
        }
    }
    assert forall|j: int| 0 <= j < all.len() implies w.knows(#[trigger] all[j]) by {
        assert(all[j] == away[j].current_workspace);
    }
}

/// What is left of a list of workspaces.
proof fn lemma_filtered(all: Seq<WorkspaceId>, p: spec_fn(WorkspaceId) -> bool)
    requires
        all.no_duplicates(),
    ensures
        all.filter(p).no_duplicates(),
        forall|k: int|
            0 <= k < all.filter(p).len() ==> p(#[trigger] all.filter(p)[k]) && all.contains(
                all.filter(p)[k],
            ),
        forall|ws: WorkspaceId| #[trigger] all.contains(ws) && p(ws) ==> all.filter(p).contains(ws),
    decreases all.len(),
{
    reveal(Seq::filter);
    if all.len() > 0 {
        let rest = all.drop_last();
        let last = all.last();
        assert(rest.no_duplicates()) by {
            assert forall|a: int, b: int|
                0 <= a < rest.len() && 0 <= b < rest.len() && a != b implies rest[a] != rest[b] by {
                assert(all[a] != all[b]);
            }
        }
        lemma_filtered(rest, p);
        let left = rest.filter(p);
        let now = all.filter(p);
        assert forall|k: int| 0 <= k < now.len() implies p(#[trigger] now[k]) && all.contains(
            now[k],
        ) by {
            if k < left.len() {
                assert(now[k] == left[k]);
                assert(rest.contains(left[k]));
                let j = rest.index_of(left[k]);
                assert(all[j] == left[k]);
            } else {
                assert(all[all.len() - 1] == last);
            }
        }
        assert forall|ws: WorkspaceId| #[trigger] all.contains(ws) && p(ws) implies now.contains(
            ws,
        ) by {
            let j = all.index_of(ws);
            if j < rest.len() {
                assert(rest[j] == ws);
                assert(rest.contains(ws));
                let k = left.index_of(ws);
                assert(now[k] == ws);
            } else {
                assert(now[now.len() - 1] == ws);
            }
        }
        assert forall|a: int, b: int|
            0 <= a < now.len() && 0 <= b < now.len() && a != b implies now[a] != now[b] by {
            if a < left.len() && b < left.len() {
                assert(left[a] != left[b]);
            } else {
                let c = if a < left.len() {
                    a
                } else {
                    b
                };
                assert(rest.contains(left[c]));
                let j = rest.index_of(left[c]);
                assert(all[j] != all[all.len() - 1]);
            }
        }
    }
}

/// Whether the workspace at `i` is in order, or an orphan from `orphans[n..]` on.
spec fn waits_at(w: World, orphans: Seq<WorkspaceId>, n: int, i: int) -> bool {
    w.veiled_at(i) || exists|k: int|
        n <= k < orphans.len() && (#[trigger] orphans[k]).0 == i + 1
}

/// One orphan after the other is put in order.
#[verifier::spinoff_prover]
proof fn lemma_sheltered_veils(
    w: World,
    shelters: Seq<MonitorId>,
    orphans: Seq<WorkspaceId>,
    n: int,
)
    requires
        w.wf(),
        0 <= n <= orphans.len(),
        orphans.no_duplicates(),
        forall|k: int| 0 <= k < shelters.len() ==> w.monitor(#[trigger] shelters[k]) is Some,
        forall|k: int|
            0 <= k < orphans.len() ==> w.knows(#[trigger] orphans[k]) && w.shown_on(
                orphans[k],
            ) is None,
        forall|i: int| 0 <= i < w.workspaces.len() ==> #[trigger] waits_at(w, orphans, 0, i),
    ensures
        ({
            let after = w.sheltered(shelters, orphans, n);
            &&& after.workspaces.len() == w.workspaces.len()
            &&& forall|i: int|
                0 <= i < w.workspaces.len() ==> #[trigger] waits_at(after, orphans, n, i)
            &&& forall|k: int|
                n <= k < orphans.len() ==> after.shown_on(#[trigger] orphans[k]) is None
        }),
    decreases n,
{
    topology::lemma_sheltered(w, shelters, orphans, n);
    if n > 0 {
        lemma_sheltered_veils(w, shelters, orphans, n - 1);
        topology::lemma_sheltered(w, shelters, orphans, n - 1);
        let mid = w.sheltered(shelters, orphans, n - 1);
        let after = w.sheltered(shelters, orphans, n);
        let o = orphans[n - 1];
        assert(w.knows(o));
        if n <= shelters.len() {
            let s = shelters[n - 1];
            assert(w.monitor(s) is Some);
            assert(mid.monitor(s) is Some);
            let swapped = mid.swapped_onto(s, o).0;
            assert forall|i: int| 0 <= i < w.workspaces.len() implies {
                &&& #[trigger] waits_at(after, orphans, n, i)
                &&& i != o.0 - 1 && mid.workspaces[i].active_monitor is None
                    ==> after.workspaces[i].active_monitor is None
            } by {
                assert(waits_at(mid, orphans, n - 1, i));
                veiling::lemma_swapped_at(mid, s, o, i);
                assert(after.workspaces[i].active_monitor == swapped.workspaces[i].active_monitor);
                if swapped.veiled_at(i) {
                    moving::law_take_over_shows_the_workspace(mid, s, o);
                    assert(swapped.workspaces[i].tree.wf());
                    veil::lemma_untouched(swapped, after, i);
                } else {
                    let k = choose|k: int|
                        n - 1 <= k < orphans.len() && (#[trigger] orphans[k]).0 == i + 1;
                    assert(k != n - 1);
                }
            }
        } else {
            let ids = mid.windows_on(o);
            mid.lemma_visits(ids, Visit::Hide);
            assert(mid.shown_on(o) is None);
            assert(mid.workspaces[o.0 - 1].active_monitor is None);
            assert forall|i: int| 0 <= i < w.workspaces.len() implies #[trigger] waits_at(
                after,
                orphans,
                n,
                i,
            ) by {
                assert(waits_at(mid, orphans, n - 1, i));
                assert(mid.workspaces[o.0 - 1].tree.wf());
                assert(mid.workspaces[i].tree.wf());
                assert forall|id: WindowId| #[trigger] after.workspaces[i].has(
                    id,
                ) implies after.windows[id].hidden_by_us == (if i == o.0 - 1 {
                    true
                } else {
                    mid.windows[id].hidden_by_us
                }) by {
                    veil::lemma_visited_workspace(mid, o, Visit::Hide, i, id);
                }
                if i == o.0 - 1 {
                    assert(after.veiled_at(i));
                } else if mid.veiled_at(i) {
                    veil::lemma_untouched(mid, after, i);
                } else {
                    let k = choose|k: int|
                        n - 1 <= k < orphans.len() && (#[trigger] orphans[k]).0 == i + 1;
                    assert(k != n - 1);
                }
            }
        }
        assert forall|k: int| n <= k < orphans.len() implies after.shown_on(
            #[trigger] orphans[k],
        ) is None by {
            assert(mid.shown_on(orphans[k]) is None);
            assert(w.knows(orphans[k]));
            assert(orphans[k] != orphans[n - 1]);
            let i = orphans[k].0 - 1;
            assert(mid.workspaces[i].active_monitor is None);
            assert(waits_at(after, orphans, n, i));
        }
    }
}

/// The monitors of an enumeration are in it.
proof fn lemma_listed(infos: Seq<MonitorInfo>, but: Option<MonitorId>, n: int, k: int)
    requires
        0 <= n <= infos.len(),
        0 <= k < monitors::listed(infos, but, n).len(),
    ensures
        exists|j: int| 0 <= j < n && monitors::is_last_info(
            infos,
            j,
            monitors::listed(infos, but, n)[k]@,
        ),
    decreases n,
{
    if n > 0 {
        let before = monitors::listed(infos, but, n - 1);
        if k < before.len() {
            lemma_listed(infos, but, n - 1, k);
            let j = choose|j: int|
                0 <= j < n - 1 && monitors::is_last_info(infos, j, before[k]@);
            assert(monitors::is_last_info(infos, j, monitors::listed(infos, but, n)[k]@));
        } else {
            assert(monitors::is_last_info(infos, n - 1, monitors::listed(infos, but, n)[k]@));
        }
    }
}

/// Retiling several workspaces keeps what is hidden in order.
pub proof fn lemma_each_retiled(w: World, all: Seq<WorkspaceId>)
    requires
        w.wf(),
        w.veiled(),
    ensures
        w.retiled_each(all).wf(),
        w.retiled_each(all).veiled(),
    decreases all.len(),
{
    if all.len() > 0 {
        lemma_each_retiled(w, all.drop_last());
        veil::law_retiling_keeps_the_veil(w.retiled_each(all.drop_last()), all.last());
    }
}

/// Taking over a fresh enumeration keeps what is hidden in order: a workspace that
/// moves to another monitor shows its windows there, and one that finds none takes
/// them into the pool. This is of monitors of which no two share a workspace.
pub proof fn law_reconcile_keeps_the_veil(w: World, infos: Seq<MonitorInfo>)
    requires
        w.wf(),
        w.veiled(),
        w.paired(),
        forall|i: int| 0 <= i < infos.len() ==> w.gaps.suit(#[trigger] infos[i]),
    ensures
        w.reconciled(infos).veiled(),
{
    let orphans = w.orphans(infos);
    let left = w.bereft(infos);
    topology::lemma_bereft(w, infos);
    let lead = left.refocused();
    topology::lemma_refocused(left);
    let known = lead.refreshed(infos);
    topology::lemma_refreshed(lead, infos);
    let list = known.monitors.map_values(|m: Monitor| m.current_workspace);
    let n = infos.len() as int;
    topology::lemma_joined_by_all(known, infos, n, list);
    let (met, retile) = known.joined_by_all(infos, n, list);
    match met.focused_monitor {
        Some(id) => {
            assert(known.monitor(id) is Some);
            assert(met.monitor(id) is Some);
        },
        None => {},
    }
    topology::lemma_led(met);
    let led = if met.focused_monitor is None && met.monitors.len() > 0 {
        World { focused_monitor: Some(met.monitors[0].id), ..met }
    } else {
        met
    };
    lemma_orphans(w, infos);
    let stranded = led.stranded(orphans);
    lemma_filtered(orphans, led.pooled());
    let shelters = led.shelters(infos);
    assert forall|k: int| 0 <= k < shelters.len() implies led.monitor(
        #[trigger] shelters[k],
    ) is Some by {
        let others = monitors::listed(infos, led.focused_monitor, n);
        let skip = if led.focused_monitor is Some {
            1int
        } else {
            0
        };
        if k >= skip {
            let id = others[k - skip]@;
            assert(shelters[k] == others[k - skip]);
            lemma_listed(infos, led.focused_monitor, n, k - skip);
            let j = choose|j: int| 0 <= j < n && monitors::is_last_info(infos, j, id);
            assert(met.monitor(shelters[k]) is Some);
            assert(led.monitor(shelters[k]) == met.monitor(shelters[k]));
        } else {
            assert(shelters[k] == led.focused_monitor->0);
        }
    }
    assert forall|k: int| 0 <= k < stranded.len() implies led.knows(#[trigger] stranded[k])
        && led.shown_on(stranded[k]) is None by {
        assert(led.pooled()(stranded[k]));
    }
    assert forall|i: int| 0 <= i < led.workspaces.len() implies #[trigger] waits_at(
        led,
        stranded,
        0,
        i,
    ) by {
        lemma_bereft_at(w, infos, i);
        assert(known.workspaces == left.workspaces && known.windows == left.windows);
        if left.veiled_at(i) {
            assert(known.veiled_at(i));
        }
        assert(pends_at(known, orphans, i));
        lemma_all_joined_at(known, infos, n, list, orphans, i);
        if met.veiled_at(i) {
            assert(led.veiled_at(i));
        } else {
            let ws = WorkspaceId((i + 1) as u32);
            assert(led.ws(ws) == led.workspaces[i]);
            assert(led.pooled()(ws));
            assert(stranded.contains(ws));
            let k = stranded.index_of(ws);
            assert(stranded[k].0 == i + 1);
        }
    }
    lemma_sheltered_veils(led, shelters, stranded, stranded.len() as int);
    topology::lemma_sheltered(led, shelters, stranded, stranded.len() as int);
    let home = led.sheltered(shelters, stranded, stranded.len() as int);
    assert forall|i: int| 0 <= i < home.workspaces.len() implies #[trigger] home.veiled_at(i) by {
        assert(waits_at(home, stranded, stranded.len() as int, i));
    }
    lemma_each_retiled(home, retile);
    let tiled = home.retiled_each(retile);
    veil::lemma_same(tiled, w.reconciled(infos));
}

/// The first monitors get a workspace of their own each.
proof fn lemma_enrolled_pairs(w: World, infos: Seq<MonitorInfo>, n: int)
    requires
        w.linked(),
        w.monitors.len() == 0,
        0 <= n <= infos.len() <= w.workspaces.len(),
        forall|i: int| 0 <= i < infos.len() ==> w.gaps.suit(#[trigger] infos[i]),
        forall|i: int, j: int|
            0 <= i < j < infos.len() ==> #[trigger] infos[i].stable_id@
                != #[trigger] infos[j].stable_id@,
    ensures
        ({
            let after = w.enrolled_all(infos, n);
            &&& after.workspaces.len() == w.workspaces.len()
            &&& after.paired()
            &&& forall|id: MonitorId| #[trigger]
                after.monitor(id) is Some ==> after.monitor(id)->0.current_workspace.0 <= n
        }),
    decreases n,
{
    topology::lemma_enrolled_all(w, infos, n);
    let after = w.enrolled_all(infos, n);
    if n <= 0 {
        assert forall|id: MonitorId| (#[trigger] after.monitor(id)) is None by {
            assert(after.monitor(id) is Some <==> exists|k: int|
                0 <= k < n && (#[trigger] infos[k]).stable_id@ == id@);
        }
    } else {
        lemma_enrolled_pairs(w, infos, n - 1);
        topology::lemma_enrolled_all(w, infos, n - 1);
        let mid = w.enrolled_all(infos, n - 1);
        let me = MonitorId(infos[n - 1].stable_id);
        let ws = monitors::first_choice(n - 1, mid.workspaces.len());
        assert(ws.0 == n);
        assert(mid.monitor(me) is None);
        let bound = mid.bound(ws, me);
        let m = Monitor { id: me, info: infos[n - 1], current_workspace: ws };
        assert forall|id: MonitorId| #[trigger]
            after.monitor(id) == (if id@ == me@ {
                Some(m)
            } else {
                mid.monitor(id)
            }) by {
            topology::lemma_one_more(bound.monitors, m, id@);
        }
        assert forall|id: MonitorId| #[trigger] after.monitor(id) is Some implies (after.shown_on(
            after.monitor(id)->0.current_workspace,
        ) matches Some(here) && here@ == id@) by {
            if id@ != me@ {
                assert(mid.monitor(id) is Some);
            }
        }
    }
}

/// Putting monitors on record leaves the windows of the workspaces alone.
proof fn lemma_enrolled_trees(w: World, infos: Seq<MonitorInfo>, n: int)
    ensures
        w.enrolled_all(infos, n).workspaces.len() == w.workspaces.len(),
        forall|i: int|
            0 <= i < w.workspaces.len() ==> {
                &&& (#[trigger] w.enrolled_all(infos, n).workspaces[i]).tree == w.workspaces[i].tree
                &&& w.enrolled_all(infos, n).workspaces[i].floating == w.workspaces[i].floating
            },
    decreases n,
{
    if n > 0 {
        lemma_enrolled_trees(w, infos, n - 1);
    }
}

/// The window manager starts with what is hidden in order, and where there are
/// enough workspaces no two monitors share one.
pub proof fn law_start_is_veiled(
    count: u32,
    infos: Seq<MonitorInfo>,
    gaps: Gaps,
    behaviour: AlreadyVisibleBehaviour,
)
    requires
        forall|i: int| 0 <= i < infos.len() ==> gaps.suit(#[trigger] infos[i]),
        forall|i: int, j: int|
            0 <= i < j < infos.len() ==> #[trigger] infos[i].stable_id@
                != #[trigger] infos[j].stable_id@,
    ensures
        ({
            let started = monitors::unstarted(count as nat, gaps, behaviour).enrolled_all(
                infos,
                infos.len() as int,
            ).refocused();
            started.veiled() && (infos.len() <= count ==> started.paired())
        }),
{
    let none = monitors::unstarted(count as nat, gaps, behaviour);
    let n = infos.len() as int;
    assert(none.linked()) by {
        assert forall|i: int, id: WindowId| 0 <= i < none.workspaces.len() implies !(
        #[trigger] none.workspaces[i].has(id)) && !(none.workspaces[i].floats(id)) by {}
    }
    lemma_enrolled_trees(none, infos, n);
    if infos.len() <= count {
        lemma_enrolled_pairs(none, infos, n);
    }
    let all = none.enrolled_all(infos, n);
    let started = all.refocused();
    topology::lemma_enrolled_all(none, infos, n);
    topology::lemma_refocused(all);
    assert forall|i: int| 0 <= i < started.workspaces.len() implies #[trigger] started.veiled_at(
        i,
    ) by {
        let m = started.workspaces[i];
        assert(m.tree == none.workspaces[i].tree && m.floating == none.workspaces[i].floating);
        assert forall|id: WindowId| !(#[trigger] m.has(id)) && !m.floats(id) by {}
        assert forall|id: WindowId| !(#[trigger] veil::in_view(m, id)) by {}
    }
    if infos.len() <= count {
        assert forall|id: MonitorId| #[trigger] started.monitor(id) is Some implies (
        started.shown_on(started.monitor(id)->0.current_workspace) matches Some(here) && here@
            == id@) by {
            assert(all.monitor(id) == started.monitor(id));
        }
    }
}

} // verus!
