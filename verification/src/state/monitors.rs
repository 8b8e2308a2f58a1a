//! Monitors come and go.

use crate::desk::{BarSpec, Desk, Effect};
use crate::ids;
use crate::ids::{MonitorId, WorkspaceId};
use crate::model::monitors;
use crate::model::topology;
use crate::model::{AlreadyVisibleBehaviour, Gaps, Visit, WmError, World};
use crate::monitor;
use crate::monitor::{add_monitor, find_monitor, Monitor, MonitorInfo};
use crate::nearest;
use crate::rect::Direction;
use crate::state::WindowManager;
use crate::window::Registry;
use crate::workspace::Workspace;
use vstd::prelude::*;

verus! {

/// The last description of a monitor in an enumeration.
fn find_info(infos: &Vec<MonitorInfo>, id: &String) -> (r: Option<usize>)
    ensures
        match r {
            Some(i) => monitors::is_last_info(infos@, i as int, id@) && monitors::info_for(
                infos@,
                id@,
            ) == Some(infos@[i as int]),
            None => monitors::info_for(infos@, id@) is None,
        },
{
    let mut i: usize = infos.len();
    while i > 0
        invariant
            i <= infos@.len(),
            forall|j: int| i <= j < infos@.len() ==> (#[trigger] infos@[j]).stable_id@ != id@,
        decreases i,
    {
        i = i - 1;
        if infos[i].stable_id == *id {
            proof {
                assert(monitors::is_last_info(infos@, i as int, id@));
                let k = choose|k: int| monitors::is_last_info(infos@, k, id@);
                assert(monitors::is_last_info(infos@, k, id@));
                assert(k == i);
            }
            return Some(i);
        }
    }
    proof {
        if exists|k: int| monitors::is_last_info(infos@, k, id@) {
            let k = choose|k: int| monitors::is_last_info(infos@, k, id@);
            assert(monitors::is_last_info(infos@, k, id@));
        }
    }
    None
}

impl WindowManager {
    /// Focus the closest monitor in direction `dir`, and the window that its
    /// workspace's tree has the focus on.
    pub fn focus_monitor_direction(&mut self, dir: Direction)
        requires
            old(self).inv(),
        ensures
            final(self).inv(),
            final(self)@ == old(self)@.monitor_focused_toward(dir),
    {
        let from: usize = match &self.focused_monitor {
            Some(id) => match find_monitor(&self.monitors, id) {
                Some(i) => i,
                None => {
                    return;
                },
            },
            None => {
                return;
            },
        };
        match self.closest_monitor(from, dir) {
            Some(i) => {
                self.focused_monitor = Some(self.monitors[i].id.copied());
                let ws = self.monitors[i].current_workspace;
                match self.tree_focus(ws) {
                    Some(w) => {
                        self.raise_window(Some(w));
                    },
                    None => {},
                }
            },
            None => {},
        }
    }

    /// The closest monitor in direction `dir` of the one at `from`.
    fn closest_monitor(&self, from: usize, dir: Direction) -> (r: Option<usize>)
        requires
            self.inv(),
            from < self.monitors@.len(),
        ensures
            match r {
                Some(i) => i < self.monitors@.len() && monitors::closest(
                    self.monitors@,
                    from as int,
                    dir,
                ) == Some(i as int),
                None => monitors::closest(self.monitors@, from as int, dir) is None,
            },
    {
        let ghost all = self.monitors@;
        let home = self.monitors[from].info.bounds;
        assert(self@.gaps.suit(self@.monitors[from as int].info));
        let sx: i64 = home.x as i64 + (home.w / 2) as i64;
        let sy: i64 = home.y as i64 + (home.h / 2) as i64;
        let mut best: Option<(usize, i128)> = None;
        let mut i: usize = 0;
        while i < self.monitors.len()
            invariant
                i <= all.len(),
                from < all.len(),
                self.monitors@ == all,
                self.inv(),
                home == all[from as int].info.bounds,
                sx == nearest::mid_x(home),
                sy == nearest::mid_y(home),
                i32::MIN <= sx <= i32::MAX,
                i32::MIN <= sy <= i32::MAX,
                match best {
                    None => forall|j: int|
                        0 <= j < i ==> !monitors::is_toward(all, from as int, dir, j),
                    Some((b, d)) => {
                        &&& b < i
                        &&& d == monitors::apart(home, all[b as int].info.bounds)
                        &&& monitors::is_toward(all, from as int, dir, b as int)
                        &&& forall|j: int|
                            0 <= j < i && #[trigger] monitors::is_toward(all, from as int, dir, j)
                                ==> {
                                &&& d <= monitors::apart(home, all[j].info.bounds)
                                &&& j < b ==> d < monitors::apart(home, all[j].info.bounds)
                            }
                    },
                },
            decreases all.len() - i,
        {
            let r = self.monitors[i].info.bounds;
            assert(self@.gaps.suit(self@.monitors[i as int].info));
            let cx: i64 = r.x as i64 + (r.w / 2) as i64;
            let cy: i64 = r.y as i64 + (r.h / 2) as i64;
            let dx: i128 = (cx - sx) as i128;
            let dy: i128 = (cy - sy) as i128;
            let in_dir = match dir {
                Direction::Left => dx < 0,
                Direction::Right => dx > 0,
                Direction::Up => dy < 0,
                Direction::Down => dy > 0,
            };
            if i != from && in_dir {
                assert(monitors::is_toward(all, from as int, dir, i as int));
                proof {
                    assert(0 <= dx * dx <= 0x1_0000_0000 * 0x1_0000_0000) by (nonlinear_arith)
                        requires
                            -0x1_0000_0000 <= dx <= 0x1_0000_0000,
                    ;
                    assert(0 <= dy * dy <= 0x1_0000_0000 * 0x1_0000_0000) by (nonlinear_arith)
                        requires
                            -0x1_0000_0000 <= dy <= 0x1_0000_0000,
                    ;
                }
                let dist: i128 = dx * dx + dy * dy;
                let closer = match best {
                    None => true,
                    Some((_, d)) => dist < d,
                };
                if closer {
                    best = Some((i, dist));
                }
            }
            i = i + 1;
        }
        match best {
            None => {
                proof {
                    if exists|k: int| monitors::is_closest(all, from as int, dir, k) {
                        let k = choose|k: int| monitors::is_closest(all, from as int, dir, k);
                        assert(monitors::is_toward(all, from as int, dir, k));
                    }
                }
                None
            },
            Some((b, _)) => {
                proof {
                    assert(monitors::is_closest(all, from as int, dir, b as int));
                    let k = choose|k: int| monitors::is_closest(all, from as int, dir, k);
                    assert(monitors::is_toward(all, from as int, dir, k));
                    assert(monitors::is_toward(all, from as int, dir, b as int));
                    assert(k == b);
                }
                Some(b)
            },
        }
    }

    /// Drop the monitors that are gone, put their workspaces into the pool, and
    /// return these.
    fn part_with(&mut self, infos: &Vec<MonitorInfo>) -> (orphans: Vec<WorkspaceId>)
        requires
            old(self).inv(),
        ensures
            final(self).inv(),
            orphans@ == old(self)@.orphans(infos@),
            final(self)@ == old(self)@.bereft(infos@),
    {
        let ghost before = self@;
        let ghost all = self.monitors@;
        let ghost stays = monitors::stays(infos@);
        let ghost gone = monitors::gone(infos@);
        let ghost current = |m: Monitor| m.current_workspace;
        let mut orphans: Vec<WorkspaceId> = Vec::new();
        let mut i: usize = 0;
        let ghost mut k: int = 0;
        proof {
            reveal(Seq::filter);
            assert(all.take(0).filter(stays) =~= Seq::<Monitor>::empty());
            assert(all.take(0).filter(gone) =~= Seq::<Monitor>::empty());
            assert(all.skip(0) =~= all);
            assert(orphans@ =~= all.take(0).filter(gone).map_values(current));
        }
        while i < self.monitors.len()
            invariant
                0 <= k <= all.len(),
                stays == monitors::stays(infos@),
                gone == monitors::gone(infos@),
                current == (|m: Monitor| m.current_workspace),
                i == all.take(k).filter(stays).len(),
                self.monitors@ == all.take(k).filter(stays) + all.skip(k),
                orphans@ == all.take(k).filter(gone).map_values(current),
                self.inv(),
                self@ == (World { monitors: self.monitors@, ..before }),
            decreases all.len() - k,
        {
            proof {
                assert(k < all.len());
                assert(self.monitors@[i as int] == all[k]);
                assert(all.take(k + 1).drop_last() =~= all.take(k));
                assert(all.take(k + 1).last() == all[k]);
                reveal(Seq::filter);
                assert(all.skip(k)[0] == all[k]);
                assert(all.skip(k + 1) =~= all.skip(k).drop_first());
            }
            match find_info(infos, &self.monitors[i].id.0) {
                Some(_) => {
                    proof {
                        assert(stays(all[k]));
                        assert(self.monitors@ =~= all.take(k + 1).filter(stays) + all.skip(k + 1));
                        assert(orphans@ =~= all.take(k + 1).filter(gone).map_values(current));
                    }
                    i = i + 1;
                },
                None => {
                    let ghost kept = self.monitors@;
                    let m = self.monitors.remove(i);
                    orphans.push(m.current_workspace);
                    proof {
                        assert(gone(all[k]));
                        monitor::lemma_removed_in_order(kept, i as int);
                        assert(self.monitors@ =~= all.take(k + 1).filter(stays) + all.skip(k + 1));
                        assert(orphans@ =~= all.take(k + 1).filter(gone).map_values(current));
                    }
                },
            }
            proof {
                k = k + 1;
            }
        }
        proof {
            assert(k == all.len());
            assert(all.take(k) =~= all);
            assert(self.monitors@ =~= all.filter(stays));
        }
        let ghost left = self@;
        let mut n: usize = 0;
        assert(orphans@.take(0) =~= Seq::<WorkspaceId>::empty());
        while n < orphans.len()
            invariant
                n <= orphans@.len(),
                self.inv(),
                self@ == left.unbound_each(orphans@.take(n as int)),
            decreases orphans@.len() - n,
        {
            assert(orphans@.take(n + 1).drop_last() =~= orphans@.take(n as int));
            self.unbind_workspace(orphans[n]);
            n = n + 1;
        }
        assert(orphans@.take(n as int) =~= orphans@);
        orphans
    }

    /// Focus a monitor that is there, where the focused one is gone.
    fn refocus(&mut self)
        requires
            old(self).inv(),
        ensures
            final(self).inv(),
            final(self)@ == old(self)@.refocused(),
    {
        let lost = match &self.focused_monitor {
            Some(id) => find_monitor(&self.monitors, id).is_none(),
            None => true,
        };
        if lost {
            self.focused_monitor = match self.primary_index() {
                Some(i) => Some(self.monitors[i].id.copied()),
                None => if self.monitors.len() > 0 {
                    Some(self.monitors[0].id.copied())
                } else {
                    None
                },
            };
        }
    }

    /// Take over the fresh description of every monitor.
    fn refresh(&mut self, infos: &Vec<MonitorInfo>)
        requires
            old(self).inv(),
            forall|i: int|
                0 <= i < infos@.len() ==> old(self)@.gaps.suit(#[trigger] infos@[i]),
        ensures
            final(self).inv(),
            final(self)@ == old(self)@.refreshed(infos@),
    {
        let ghost before = self@;
        let ghost after = before.refreshed(infos@).monitors;
        let mut i: usize = 0;
        while i < self.monitors.len()
            invariant
                i <= self.monitors@.len(),
                forall|k: int|
                    0 <= k < infos@.len() ==> before.gaps.suit(#[trigger] infos@[k]),
                self@.gaps == before.gaps,
                self.monitors@.len() == before.monitors.len(),
                before.sound(),
                self.inv(),
                after == before.refreshed(infos@).monitors,
                self@ == (World { monitors: self.monitors@, ..before }),
                forall|j: int| 0 <= j < i ==> #[trigger] self.monitors@[j] == after[j],
                forall|j: int|
                    i <= j < self.monitors@.len() ==> #[trigger] self.monitors@[j]
                        == before.monitors[j],
            decreases self.monitors@.len() - i,
        {
            let ghost now = self.monitors@;
            assert(now[i as int] == before.monitors[i as int]);
            match find_info(infos, &self.monitors[i].id.0) {
                Some(k) => {
                    assert(before.gaps.suit(infos@[k as int]));
                    self.monitors[i].info = infos[k].copied();
                },
                None => {},
            }
            proof {
                assert(self.monitors@ =~= now.update(i as int, after[i as int]));
                monitor::lemma_same_ids_in_order(now, self.monitors@);
            }
            i = i + 1;
        }
        assert(self.monitors@ =~= after);
    }

    /// The first workspace in the pool that was last seen on a monitor.
    fn first_waiting(&self, id: &String) -> (r: Option<WorkspaceId>)
        requires
            self.inv(),
        ensures
            r == monitors::first_workspace(self@.workspaces, monitors::waits_for(id@)),
    {
        let ghost p = monitors::waits_for(id@);
        let mut i: usize = 0;
        while i < self.workspaces.len()
            invariant
                i <= self.workspaces@.len(),
                self.inv(),
                p == monitors::waits_for(id@),
                forall|j: int| 0 <= j < i ==> !p(#[trigger] self@.workspaces[j]),
            decreases self.workspaces@.len() - i,
        {
            assert(self@.workspaces[i as int] == self.workspaces@[i as int]@);
            let seen = match &self.workspaces[i].last_seen_monitor {
                Some(seen) => *seen == *id,
                None => false,
            };
            if !self.workspaces[i].is_visible() && seen {
                proof {
                    assert(p(self@.workspaces[i as int]));
                    monitors::lemma_first(self@.workspaces, p, i as int);
                }
                return Some(WorkspaceId((i + 1) as u32));
            }
            i = i + 1;
        }
        proof {
            monitors::lemma_no_first(self@.workspaces, p);
        }
        None
    }

    /// The first visible workspace that was last seen on a monitor.
    fn first_strayed(&self, id: &String) -> (r: Option<WorkspaceId>)
        requires
            self.inv(),
        ensures
            r == monitors::first_workspace(self@.workspaces, monitors::strayed_from(id@)),
    {
        let ghost p = monitors::strayed_from(id@);
        let mut i: usize = 0;
        while i < self.workspaces.len()
            invariant
                i <= self.workspaces@.len(),
                self.inv(),
                p == monitors::strayed_from(id@),
                forall|j: int| 0 <= j < i ==> !p(#[trigger] self@.workspaces[j]),
            decreases self.workspaces@.len() - i,
        {
            assert(self@.workspaces[i as int] == self.workspaces@[i as int]@);
            let seen = match &self.workspaces[i].last_seen_monitor {
                Some(seen) => *seen == *id,
                None => false,
            };
            if self.workspaces[i].is_visible() && seen {
                proof {
                    assert(p(self@.workspaces[i as int]));
                    monitors::lemma_first(self@.workspaces, p, i as int);
                }
                return Some(WorkspaceId((i + 1) as u32));
            }
            i = i + 1;
        }
        proof {
            monitors::lemma_no_first(self@.workspaces, p);
        }
        None
    }

    /// The first workspace in the pool other than `ws`.
    fn first_idle(&self, ws: WorkspaceId) -> (r: Option<WorkspaceId>)
        requires
            self.inv(),
        ensures
            r == monitors::first_workspace(self@.workspaces, monitors::idle_other_than(ws)),
    {
        let ghost p = monitors::idle_other_than(ws);
        let mut i: usize = 0;
        while i < self.workspaces.len()
            invariant
                i <= self.workspaces@.len(),
                self.inv(),
                p == monitors::idle_other_than(ws),
                forall|j: int| 0 <= j < i ==> !p(#[trigger] self@.workspaces[j]),
            decreases self.workspaces@.len() - i,
        {
            assert(self@.workspaces[i as int] == self.workspaces@[i as int]@);
            if !self.workspaces[i].is_visible() && self.workspaces[i].id != ws {
                proof {
                    assert(p(self@.workspaces[i as int]));
                    monitors::lemma_first(self@.workspaces, p, i as int);
                }
                return Some(WorkspaceId((i + 1) as u32));
            }
            i = i + 1;
        }
        proof {
            monitors::lemma_no_first(self@.workspaces, p);
        }
        None
    }

    /// Take a workspace from the monitor that shows it.
    fn reclaim(&mut self, ws: WorkspaceId, from: &MonitorId, retile: &mut Vec<WorkspaceId>)
        requires
            old(self).inv(),
        ensures
            final(self).inv(),
            (final(self)@, final(retile)@) == old(self)@.reclaimed(ws, *from, old(retile)@),
    {
        self.unbind_workspace(ws);
        let other = match self.first_waiting(&from.0) {
            Some(other) => Some(other),
            None => self.first_idle(ws),
        };
        match other {
            Some(other) => {
                let arriving = self.windows_on(other);
                self.bind_workspace_to_monitor(other, from);
                self.visit_all(&arriving, Visit::Show);
                self.set_current(from, other);
                retile.push(other);
            },
            None => {},
        }
    }

    /// Add a monitor that has arrived.
    fn join(&mut self, info: MonitorInfo, retile: &mut Vec<WorkspaceId>)
        requires
            old(self).inv(),
            old(self)@.gaps.suit(info),
            monitor::monitor_index(old(self)@.monitors, info.stable_id@) is None,
        ensures
            final(self).inv(),
            (final(self)@, final(retile)@) == old(self)@.joined_by(info, old(retile)@),
            final(self)@.gaps == old(self)@.gaps,
    {
        let ghost before = self@;
        let id = MonitorId(info.stable_id.clone());
        let mut from: Option<MonitorId> = None;
        let ws = match self.first_waiting(&id.0) {
            Some(ws) => ws,
            None => match self.first_strayed(&id.0) {
                Some(ws) => {
                    from = self.monitor_of_workspace(ws);
                    ws
                },
                None => match self.first_idle(WorkspaceId(0)) {
                    Some(ws) => ws,
                    None => WorkspaceId(1),
                },
            },
        };
        assert((ws, from) == before.choice_for(id@));
        match &from {
            Some(other) => {
                if self.index_of(ws).is_some() {
                    self.reclaim(ws, other, retile);
                }
            },
            None => {},
        }
        let ghost ready = self@;
        let arriving = self.windows_on(ws);
        self.bind_workspace_to_monitor(ws, &id);
        self.visit_all(&arriving, Visit::Show);
        proof {
            ready.bound(ws, id).lemma_visits(arriving@, Visit::Show);
            if from is Some && before.knows(ws) {
                before.lemma_reclaimed_ids(ws, from->0, old(retile)@);
            }
            monitor::lemma_still_absent(before.monitors, self@.monitors, info.stable_id@);
        }
        let ghost here = self@.monitors;
        let m = Monitor { id, info, current_workspace: ws };
        add_monitor(&mut self.monitors, m);
        proof {
            monitor::lemma_with_monitor(here, m);
            assert forall|i: int| 0 <= i < self@.monitors.len() implies self@.gaps.suit(
                (#[trigger] self@.monitors[i]).info,
            ) by {
                let p = monitor::place_for(here, m.id@);
                if i < p {
                    assert(self@.gaps.suit(here[i].info));
                } else if i > p {
                    assert(self@.gaps.suit(here[i - 1].info));
                }
            }
        }
        retile.push(ws);
    }

    /// Add every monitor of the enumeration that is not there yet.
    fn join_all(&mut self, infos: &Vec<MonitorInfo>, retile: &mut Vec<WorkspaceId>)
        requires
            old(self).inv(),
            forall|i: int|
                0 <= i < infos@.len() ==> old(self)@.gaps.suit(#[trigger] infos@[i]),
        ensures
            final(self).inv(),
            (final(self)@, final(retile)@) == old(self)@.joined_by_all(
                infos@,
                infos@.len() as int,
                old(retile)@,
            ),
    {
        let ghost before = self@;
        let ghost list = retile@;
        let mut i: usize = 0;
        while i < infos.len()
            invariant
                i <= infos@.len(),
                forall|k: int|
                    0 <= k < infos@.len() ==> before.gaps.suit(#[trigger] infos@[k]),
                self@.gaps == before.gaps,
                self.inv(),
                (self@, retile@) == before.joined_by_all(infos@, i as int, list),
            decreases infos@.len() - i,
        {
            assert(before.gaps.suit(infos@[i as int]));
            let last = match find_info(infos, &infos[i].stable_id) {
                Some(k) => k == i,
                None => false,
            };
            let id = MonitorId(infos[i].stable_id.clone());
            if last && find_monitor(&self.monitors, &id).is_none() {
                self.join(infos[i].copied(), retile);
            }
            i = i + 1;
        }
    }

    /// The monitors that take in orphaned workspaces: the focused one first, then
    /// the others in the order of the enumeration.
    fn shelters(&self, infos: &Vec<MonitorInfo>) -> (r: Vec<MonitorId>)
        requires
            self.inv(),
        ensures
            r@ == self@.shelters(infos@),
    {
        let mut out: Vec<MonitorId> = Vec::new();
        match &self.focused_monitor {
            Some(f) => {
                out.push(f.copied());
            },
            None => {},
        }
        let ghost first = out@;
        let mut i: usize = 0;
        assert(out@ =~= first + monitors::listed(infos@, self@.focused_monitor, 0));
        while i < infos.len()
            invariant
                i <= infos@.len(),
                self.inv(),
                out@ == first + monitors::listed(infos@, self@.focused_monitor, i as int),
            decreases infos@.len() - i,
        {
            let last = match find_info(infos, &infos[i].stable_id) {
                Some(k) => k == i,
                None => false,
            };
            let id = MonitorId(infos[i].stable_id.clone());
            let focused = match &self.focused_monitor {
                Some(f) => id.same(f),
                None => false,
            };
            if last && !focused {
                out.push(id);
            }
            assert(out@ =~= first + monitors::listed(infos@, self@.focused_monitor, i + 1));
            i = i + 1;
        }
        assert(out@ =~= self@.shelters(infos@));
        out
    }

    /// The orphans that are still in the pool.
    fn stranded(&self, orphans: &Vec<WorkspaceId>) -> (r: Vec<WorkspaceId>)
        requires
            self.inv(),
        ensures
            r@ == self@.stranded(orphans@),
    {
        let ghost all = orphans@;
        let ghost p = self@.pooled();
        let mut out: Vec<WorkspaceId> = Vec::new();
        let mut i: usize = 0;
        proof {
            reveal(Seq::filter);
            assert(all.take(0).filter(p) =~= Seq::<WorkspaceId>::empty());
        }
        while i < orphans.len()
            invariant
                i <= all.len(),
                all == orphans@,
                self.inv(),
                p == self@.pooled(),
                out@ == all.take(i as int).filter(p),
            decreases all.len() - i,
        {
            proof {
                assert(all.take(i + 1).drop_last() =~= all.take(i as int));
                assert(all.take(i + 1).last() == all[i as int]);
                reveal(Seq::filter);
            }
            let ws = orphans[i];
            match self.index_of(ws) {
                Some(k) => {
                    assert(self@.workspaces[k as int] == self.workspaces@[k as int]@);
                    if !self.workspaces[k].is_visible() {
                        assert(p(ws));
                        out.push(ws);
                    }
                },
                None => {},
            }
            i = i + 1;
        }
        assert(all.take(i as int) =~= all);
        out
    }

    /// Put a workspace on a monitor that takes it in, and let it remember the
    /// monitor that it came from.
    fn take_in(&mut self, id: &MonitorId, ws: WorkspaceId)
        requires
            old(self).inv(),
        ensures
            final(self).inv(),
            final(self)@ == old(self)@.taken_in(*id, ws),
    {
        let seen = self.remembered(ws);
        let _ = self.swap_workspace_onto_monitor(id, ws);
        self.remember(ws, seen);
    }

    /// Give each orphan a monitor while there are any, and hide the others.
    fn shelter(&mut self, shelters: &Vec<MonitorId>, orphans: &Vec<WorkspaceId>)
        requires
            old(self).inv(),
        ensures
            final(self).inv(),
            final(self)@ == old(self)@.sheltered(shelters@, orphans@, orphans@.len() as int),
    {
        let ghost before = self@;
        let mut i: usize = 0;
        while i < orphans.len()
            invariant
                i <= orphans@.len(),
                self.inv(),
                self@ == before.sheltered(shelters@, orphans@, i as int),
            decreases orphans@.len() - i,
        {
            if i < shelters.len() {
                self.take_in(&shelters[i], orphans[i]);
            } else {
                let ids = self.windows_on(orphans[i]);
                self.visit_all(&ids, Visit::Hide);
            }
            i = i + 1;
        }
    }

    /// The places of the status bars.
    pub fn bar_specs(&self) -> (r: Vec<BarSpec>)
        ensures
            r@ == self@.bar_specs(),
    {
        let mut out: Vec<BarSpec> = Vec::new();
        let mut i: usize = 0;
        while i < self.monitors.len()
            invariant
                i <= self.monitors@.len(),
                out@.len() == i,
                forall|j: int| 0 <= j < i ==> #[trigger] out@[j] == self@.bar_specs()[j],
            decreases self.monitors@.len() - i,
        {
            out.push(
                BarSpec {
                    monitor_id: self.monitors[i].id.0.clone(),
                    bounds: self.monitors[i].info.bounds,
                },
            );
            i = i + 1;
        }
        assert(out@ =~= self@.bar_specs());
        out
    }

    /// Take over a fresh enumeration of the monitors.
    ///
    /// The workspace of a monitor that is gone moves to a monitor that is
    /// there, the focused one first; where there are not enough, it goes to the
    /// pool with its windows hidden. A monitor that has returned gets the
    /// workspace back that it showed last, also from another monitor. All
    /// visible workspaces are retiled and the status bars follow.
    pub fn reconcile_monitors(&mut self, infos: Vec<MonitorInfo>)
        requires
            old(self).inv(),
            forall|i: int|
                0 <= i < infos@.len() ==> old(self)@.gaps.suit(#[trigger] infos@[i]),
        ensures
            final(self).inv(),
            final(self)@ == old(self)@.reconciled(infos@),
    {
        proof {
            let left = World { monitors: self@.monitors.filter(monitors::stays(infos@)), ..self@ };
            topology::lemma_unbound_each(left, self@.orphans(infos@));
        }
        let orphans = self.part_with(&infos);
        self.refocus();
        self.refresh(&infos);
        let ghost known = self@;
        let mut retile: Vec<WorkspaceId> = Vec::new();
        let mut i: usize = 0;
        while i < self.monitors.len()
            invariant
                i <= self.monitors@.len(),
                self@ == known,
                retile@.len() == i,
                forall|j: int|
                    0 <= j < i ==> #[trigger] retile@[j] == self.monitors@[j].current_workspace,
            decreases self.monitors@.len() - i,
        {
            retile.push(self.monitors[i].current_workspace);
            i = i + 1;
        }
        assert(retile@ =~= known.monitors.map_values(|m: Monitor| m.current_workspace));
        self.join_all(&infos, &mut retile);
        if self.focused_monitor.is_none() && self.monitors.len() > 0 {
            self.focused_monitor = Some(self.monitors[0].id.copied());
        }
        let stranded = self.stranded(&orphans);
        let shelters = self.shelters(&infos);
        self.shelter(&shelters, &stranded);
        self.retile_each(&retile);
        let specs = self.bar_specs();
        self.say(Effect::SyncBars(specs));
    }

    /// Start with the monitors of a first enumeration and `workspace_count`
    /// workspaces. The first monitors show one workspace each in the order of
    /// the enumeration; where there are more monitors than workspaces, the
    /// others show the last workspace. The primary monitor has the focus.
    pub fn new(
        monitor_infos: Vec<MonitorInfo>,
        workspace_count: u32,
        gaps: Gaps,
        on_already_visible: AlreadyVisibleBehaviour,
    ) -> (r: Result<Self, WmError>)
        requires
            monitor_infos@.len() < u32::MAX,
            forall|i: int|
                0 <= i < monitor_infos@.len() ==> gaps.suit(#[trigger] monitor_infos@[i]),
        ensures
            r matches Err(e) ==> e == WmError::NoMonitors && monitor_infos@.len() == 0,
            r matches Ok(wm) ==> {
                &&& monitor_infos@.len() > 0
                &&& wm.inv()
                &&& wm@ == monitors::unstarted(
                    workspace_count as nat,
                    gaps,
                    on_already_visible,
                ).enrolled_all(monitor_infos@, monitor_infos@.len() as int).refocused()
            },
    {
        if monitor_infos.len() == 0 {
            return Err(WmError::NoMonitors);
        }
        let mut workspaces: Vec<Workspace> = Vec::new();
        let ghost none = monitors::unstarted(workspace_count as nat, gaps, on_already_visible);
        let mut n: u32 = 0;
        while n < workspace_count
            invariant
                n <= workspace_count,
                none == monitors::unstarted(workspace_count as nat, gaps, on_already_visible),
                workspaces@.len() == n,
                forall|j: int| 0 <= j < n ==> (#[trigger] workspaces@[j])@ == none.workspaces[j],
            decreases workspace_count - n,
        {
            workspaces.push(Workspace::new(WorkspaceId(n + 1)));
            n = n + 1;
        }
        let mut wm = WindowManager {
            monitors: Vec::new(),
            workspaces,
            windows: Registry::new(),
            focused_monitor: None,
            focused_window: None,
            gaps,
            on_already_visible,
            paused: false,
            desk: Desk::new(Vec::new(), Vec::new()),
        };
        assert(wm@.workspaces =~= none.workspaces);
        assert(wm@ == none);
        let mut i: usize = 0;
        while i < monitor_infos.len()
            invariant
                i <= monitor_infos@.len(),
                monitor_infos@.len() < u32::MAX,
                forall|k: int|
                    0 <= k < monitor_infos@.len() ==> gaps.suit(#[trigger] monitor_infos@[k]),
                wm@.gaps == gaps,
                wm.inv(),
                wm@.workspaces.len() == workspace_count,
                wm@ == none.enrolled_all(monitor_infos@, i as int),
            decreases monitor_infos@.len() - i,
        {
            let at: u32 = (i as u32) + 1;
            let ws = if at <= workspace_count {
                WorkspaceId(at)
            } else if workspace_count >= 1 {
                WorkspaceId(workspace_count)
            } else {
                WorkspaceId(1)
            };
            let m = Monitor::new(monitor_infos[i].copied(), ws);
            assert(gaps.suit(monitor_infos@[i as int]));
            wm.bind_workspace_to_monitor(ws, &m.id);
            wm.enroll(m);
            i = i + 1;
        }
        wm.refocus();
        Ok(wm)
    }

    /// Add a monitor, in place of one with the same identifier.
    fn enroll(&mut self, m: Monitor)
        requires
            old(self).inv(),
            old(self)@.gaps.suit(m.info),
        ensures
            final(self).inv(),
            final(self)@ == (World {
                monitors: monitors::enrolled(old(self)@.monitors, m),
                ..old(self)@
            }),
    {
        let ghost before = self@.monitors;
        match find_monitor(&self.monitors, &m.id) {
            Some(i) => {
                self.monitors.set(i, m);
                proof {
                    assert forall|a: int, b: int|
                        0 <= a < b < self@.monitors.len() implies ids::precedes(
                        #[trigger] self@.monitors[a].id@,
                        #[trigger] self@.monitors[b].id@,
                    ) by {
                        assert(ids::precedes(before[a].id@, before[b].id@));
                    }
                    assert forall|a: int| 0 <= a < self@.monitors.len() implies self@.gaps.suit(
                        (#[trigger] self@.monitors[a]).info,
                    ) by {
                        assert(self@.gaps.suit(before[a].info));
                    }
                }
            },
            None => {
                add_monitor(&mut self.monitors, m);
                proof {
                    monitor::lemma_with_monitor(before, m);
                    assert forall|i: int| 0 <= i < self@.monitors.len() implies self@.gaps.suit(
                        (#[trigger] self@.monitors[i]).info,
                    ) by {
                        let p = monitor::place_for(before, m.id@);
                        if i < p {
                            assert(self@.gaps.suit(before[i].info));
                        } else if i > p {
                            assert(self@.gaps.suit(before[i - 1].info));
                        }
                    }
                }
            },
        }
    }
}

} // verus!
