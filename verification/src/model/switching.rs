//! Switching workspaces, and back.

use crate::desk::DeskModel;
use crate::ids::{MonitorId, WindowId, WorkspaceId};
use crate::model::laws;
use crate::model::moving;
use crate::model::{AlreadyVisibleBehaviour, Visit, WmError, World};
use crate::monitor::Monitor;
use vstd::prelude::*;

verus! {

impl DeskModel {
    /// Whether every batch of positions is accepted.
    pub open spec fn accepts_all(self) -> bool {
        forall|k: int| 0 <= k < self.accepted.len() ==> #[trigger] self.accepted[k]
    }
}

impl World {
    /// Whether every monitor shows a workspace that is on that monitor, so that
    /// no two monitors share one.
    pub open spec fn paired(self) -> bool {
        forall|id: MonitorId| #[trigger]
            self.monitor(id) is Some ==> (self.shown_on(
                self.monitor(id)->0.current_workspace,
            ) matches Some(here) && here@ == id@)
    }

    /// Whether the same monitors show the same workspaces.
    pub open spec fn same_assignment(self, other: World) -> bool {
        &&& forall|id: MonitorId| #[trigger] other.monitor(id) == self.monitor(id)
        &&& other.workspaces.len() == self.workspaces.len()
        &&& forall|i: int|
            0 <= i < self.workspaces.len() ==> match (
                #[trigger] other.workspaces[i].active_monitor,
                self.workspaces[i].active_monitor,
            ) {
                (Some(a), Some(b)) => a@ == b@,
                (a, b) => a == b,
            }
        &&& other.focused_monitor == self.focused_monitor
    }
}

proof fn lemma_visits_answers(w: World, ids: Seq<WindowId>, how: Visit)
    ensures
        w.visit_all(ids, how).desk.accepted == w.desk.accepted,
    decreases ids.len(),
{
    if ids.len() > 0 {
        lemma_visits_answers(w, ids.drop_last(), how);
    }
}

/// Retiling keeps the answers, and fails only where the desktop refuses.
proof fn lemma_retile_answers(w: World, ws: WorkspaceId)
    ensures
        w.retiled(ws).0.desk.accepted == w.desk.accepted,
        w.retiled(ws).1 is Ok || w.retiled(ws).1 == Err::<(), WmError>(WmError::NotPlaced),
        w.desk.accepts_all() ==> w.retiled(ws).1 is Ok,
{
    if w.work_area(ws) is Some {
        let plan = w.plan(ws, w.work_area(ws)->0);
        let shown = w.visit_all(plan.visible, Visit::Reveal);
        lemma_visits_answers(w, plan.visible, Visit::Reveal);
        let placed = World { desk: shown.desk.placed(plan.moves), ..shown };
        lemma_visits_answers(placed, plan.hidden, Visit::Conceal);
    }
}

/// The workspace that is on each monitor after switching from `own` to `target`
/// on `here`, where `there` is the monitor that showed `target`.
pub open spec fn assigned(
    w: World,
    after: World,
    here: MonitorId,
    there: Option<MonitorId>,
    own: WorkspaceId,
    target: WorkspaceId,
) -> bool {
    &&& forall|id: MonitorId| #[trigger]
        after.monitor(id) == (match w.monitor(id) {
            None => None,
            Some(m) => Some(
                if id@ == here@ {
                    Monitor { current_workspace: target, ..m }
                } else if there is Some && id@ == there->0@ {
                    Monitor { current_workspace: own, ..m }
                } else {
                    m
                },
            ),
        })
    &&& after.workspaces.len() == w.workspaces.len()
    &&& forall|i: int|
        0 <= i < w.workspaces.len() ==> #[trigger] after.workspaces[i].active_monitor == (if i
            == target.0 - 1 {
            Some(here)
        } else if i == own.0 - 1 {
            there
        } else {
            w.workspaces[i].active_monitor
        })
    &&& after.focused_monitor == w.focused_monitor
}

/// A workspace from the pool goes onto a monitor, and the one there to the pool.
proof fn lemma_taken_over_assigns(w: World, here: MonitorId, target: WorkspaceId)
    requires
        w.wf(),
        w.knows(target),
        w.monitor(here) is Some,
        w.monitor(here)->0.current_workspace != target,
    ensures
        ({
            let (after, r) = w.swapped_onto(here, target);
            &&& assigned(w, after, here, None, w.monitor(here)->0.current_workspace, target)
            &&& after.on_already_visible == w.on_already_visible
            &&& after.desk.accepted == w.desk.accepted
            &&& r is Ok || r == Err::<(), WmError>(WmError::NotPlaced)
            &&& w.desk.accepts_all() ==> r is Ok
        }),
{
    let own = w.monitor(here)->0.current_workspace;
    let hidden = w.visit_all(w.windows_on(own), Visit::Hide);
    w.lemma_visits(w.windows_on(own), Visit::Hide);
    lemma_visits_answers(w, w.windows_on(own), Visit::Hide);
    let away = hidden.unbound(own);
    let bound = away.bound(target, here);
    let ids = away.windows_on(target);
    bound.lemma_visits(ids, Visit::Show);
    lemma_visits_answers(bound, ids, Visit::Show);
    let shown = bound.visit_all(ids, Visit::Show);
    let placed = shown.set_current(here, target);
    assert(shown.sound());
    lemma_retile_answers(placed, target);
    laws::law_retile_only_notes(placed, target);
    let after = w.swapped_onto(here, target).0;
    assert(after.monitors == placed.monitors);
    assert(after.workspaces == placed.workspaces);
    assert forall|id: MonitorId| #[trigger]
        after.monitor(id) == (match w.monitor(id) {
            None => None,
            Some(m) => Some(
                if id@ == here@ {
                    Monitor { current_workspace: target, ..m }
                } else {
                    m
                },
            ),
        }) by {
        moving::lemma_monitor_after(shown, here, target, id);
        assert(shown.monitor(id) == w.monitor(id));
        assert(after.monitor(id) == placed.monitor(id));
    }
}

/// Two monitors exchange their workspaces.
proof fn lemma_exchange_assigns(w: World, here: MonitorId, there: MonitorId, target: WorkspaceId)
    requires
        w.wf(),
        w.knows(target),
        w.monitor(here) is Some,
        w.monitor(here)->0.current_workspace != target,
        w.shown_on(target) == Some(there),
        there@ != here@,
    ensures
        ({
            let (after, r) = w.exchanged(here, there, target);
            &&& assigned(w, after, here, Some(there), w.monitor(here)->0.current_workspace, target)
            &&& after.on_already_visible == w.on_already_visible
            &&& after.desk.accepted == w.desk.accepted
            &&& r is Ok || r == Err::<(), WmError>(WmError::NotPlaced)
            &&& w.desk.accepts_all() ==> r is Ok
        }),
{
    let own = w.monitor(here)->0.current_workspace;
    let bound = w.bound(own, there).bound(target, here);
    let first = bound.set_current(here, target);
    let swapped = first.set_current(there, own);
    assert(bound.sound());
    let once = swapped.retiled(own).0;
    lemma_retile_answers(swapped, own);
    laws::law_retile_only_notes(swapped, own);
    lemma_retile_answers(once, target);
    laws::law_retile_only_notes(once, target);
    let after = w.exchanged(here, there, target).0;
    assert(after.monitors == swapped.monitors);
    assert(after.workspaces == swapped.workspaces);
    assert forall|id: MonitorId| #[trigger]
        after.monitor(id) == (match w.monitor(id) {
            None => None,
            Some(m) => Some(
                if id@ == here@ {
                    Monitor { current_workspace: target, ..m }
                } else if id@ == there@ {
                    Monitor { current_workspace: own, ..m }
                } else {
                    m
                },
            ),
        }) by {
        moving::lemma_monitor_after(bound, here, target, id);
        moving::lemma_monitor_after(first, there, own, id);
        assert(bound.monitor(id) == w.monitor(id));
        assert(after.monitor(id) == swapped.monitor(id));
    }
}

/// Where a visible workspace is swapped, switching brings `target` to the focused
/// monitor, which keeps the focus. The monitor that showed `target` gets the
/// workspace that was there; where none showed it, that workspace goes to the
/// pool. All other monitors keep theirs. The desktop can refuse positions, and
/// no other error comes.
pub proof fn law_switch_swaps(w: World, target: WorkspaceId)
    requires
        w.wf(),
        w.paired(),
        w.on_already_visible == AlreadyVisibleBehaviour::Swap,
        w.focused_monitor is Some,
        w.knows(target),
        w.focused_workspace() != Some(target),
    ensures
        ({
            let here = w.focused_monitor->0;
            let own = w.monitor(here)->0.current_workspace;
            let (after, r) = w.switched(target);
            &&& assigned(w, after, here, w.shown_on(target), own, target)
            &&& after.wf()
            &&& after.paired()
            &&& after.on_already_visible == AlreadyVisibleBehaviour::Swap
            &&& after.desk.accepted == w.desk.accepted
            &&& r is Ok || r == Err::<(), WmError>(WmError::NotPlaced)
            &&& w.desk.accepts_all() ==> r is Ok
        }),
{
    let here = w.focused_monitor->0;
    let own = w.monitor(here)->0.current_workspace;
    let there = w.shown_on(target);
    moving::law_switch_shows_the_workspace(w, target);
    match there {
        Some(o) => {
            assert(w.workspaces[target.0 - 1].active_monitor == Some(o));
            if o@ == here@ {
                assert(w.monitor(o) == w.monitor(here));
            }
            lemma_exchange_assigns(w, here, o, target);
        },
        None => {
            lemma_taken_over_assigns(w, here, target);
        },
    }
    let after = w.switched(target).0;
    assert forall|id: MonitorId| #[trigger] after.monitor(id) is Some implies (after.shown_on(
        after.monitor(id)->0.current_workspace,
    ) matches Some(shows) && shows@ == id@) by {
        assert(w.monitor(id) is Some);
        let was = w.monitor(id)->0.current_workspace;
        let now = after.monitor(id)->0.current_workspace;
        assert(w.monitor(here) is Some);
        assert(after.workspaces[now.0 - 1].active_monitor == after.shown_on(now));
        if id@ != here@ && (there is None || id@ != there->0@) {
            assert(was.0 != target.0);
            assert(was.0 != own.0);
        }
    }
}

/// Switching to a workspace and back restores which monitor shows which
/// workspace, whatever the desktop accepts.
pub proof fn law_switching_back_restores(w: World, target: WorkspaceId)
    requires
        w.wf(),
        w.paired(),
        w.on_already_visible == AlreadyVisibleBehaviour::Swap,
        w.focused_workspace() is Some,
        w.knows(target),
    ensures
        w.same_assignment(w.switched(target).0.switched(w.focused_workspace()->0).0),
        w.desk.accepts_all() ==> w.switched(target).1 is Ok && w.switched(target).0.switched(
            w.focused_workspace()->0,
        ).1 is Ok,
{
    let here = w.focused_monitor->0;
    let own = w.focused_workspace()->0;
    assert(w.monitor(here) is Some);
    assert(w.shown_on(own) is Some);
    if own != target {
        let after = w.switched(target).0;
        law_switch_swaps(w, target);
        assert(after.monitor(here) is Some);
        assert(after.shown_on(own) == w.shown_on(target)) by {
            assert(after.workspaces[own.0 - 1].active_monitor == w.shown_on(target));
        }
        law_switch_swaps(after, own);
        let back = after.switched(own).0;
        let there = w.shown_on(target);
        if there is Some {
            let o = there->0;
            assert(w.workspaces[target.0 - 1].active_monitor == Some(o));
            assert(w.monitor(o) is Some && w.monitor(o)->0.current_workspace == target);
            if o@ == here@ {
                assert(w.monitor(o) == w.monitor(here));
            }
        }
        assert forall|id: MonitorId| #[trigger] back.monitor(id) == w.monitor(id) by {
            assert(after.monitor(id) is Some <==> w.monitor(id) is Some);
            if id@ == here@ {
                assert(w.monitor(id) == w.monitor(here));
            }
            if there is Some && id@ == there->0@ {
                assert(w.monitor(id) == w.monitor(there->0));
            }
        }
        assert forall|i: int| 0 <= i < w.workspaces.len() implies match (
            #[trigger] back.workspaces[i].active_monitor,
            w.workspaces[i].active_monitor,
        ) {
            (Some(a), Some(b)) => a@ == b@,
            (a, b) => a == b,
        } by {
            assert(after.workspaces[i].active_monitor == (if i == target.0 - 1 {
                Some(here)
            } else if i == own.0 - 1 {
                there
            } else {
                w.workspaces[i].active_monitor
            }));
        }
    }
}

} // verus!
