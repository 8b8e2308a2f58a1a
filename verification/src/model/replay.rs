//! A command can be run again on other answers.
//!
//! The answers of the desktop are handed in before a command runs. Whether they
//! were the right ones shows only when its requests are carried out. These laws
//! say that this is soon enough: up to the first request that is answered
//! otherwise, a command makes the same requests whatever the answers are.

use crate::command::Command;
use crate::desk::{Act, DeskModel};
use crate::filter;
use crate::filter::WindowFacts;
use crate::ids::{MonitorId, WindowId, WorkspaceId};
use crate::model;
use crate::model::commands;
use crate::model::events;
use crate::model::monitors;
use crate::model::{Outcome, Visit, WmError, World};
use crate::monitor;
use crate::monitor::{Monitor, MonitorInfo};
use crate::nearest;
use crate::rect::{Direction, Rect};
use crate::rules;
use crate::rules::{Rule, RuleAction};
use crate::window::{ManagedWindow, WindowMode};
use crate::winevent::WinEvent;
use crate::workspace;
use crate::workspace::WorkspaceModel;
use vstd::prelude::*;

verus! {

/// The number of batches of positions among requests.
pub open spec fn batches_in(log: Seq<Act>) -> nat
    decreases log.len(),
{
    if log.len() == 0 {
        0
    } else {
        batches_in(log.drop_last()) + (if log.last() is Place {
            1nat
        } else {
            0nat
        })
    }
}

/// The number of questions where a window is among requests.
pub open spec fn measures_in(log: Seq<Act>) -> nat
    decreases log.len(),
{
    if log.len() == 0 {
        0
    } else {
        measures_in(log.drop_last()) + (if log.last() is Measure {
            1nat
        } else {
            0nat
        })
    }
}

impl DeskModel {
    /// A desk without requests.
    pub open spec fn fresh(self) -> bool {
        self.log.len() == 0 && self.batches == 0 && self.measures == 0
    }

    /// The counters count the requests.
    pub open spec fn counted(self) -> bool {
        self.batches == batches_in(self.log) && self.measures == measures_in(self.log)
    }

    /// Whether the batch of positions with number `k` is accepted.
    pub open spec fn accepted_at(self, k: nat) -> bool {
        k >= self.accepted.len() || self.accepted[k as int]
    }

    /// The answer to the question with number `k` where a window is.
    pub open spec fn measured_at(self, k: nat) -> Option<Rect> {
        if k < self.measured.len() {
            self.measured[k as int]
        } else {
            None
        }
    }

    /// With requests added, on the same answers.
    pub open spec fn grows_to(self, later: DeskModel) -> bool {
        &&& later.accepted == self.accepted
        &&& later.measured == self.measured
        &&& self.log.len() <= later.log.len()
        &&& forall|i: int| 0 <= i < self.log.len() ==> #[trigger] later.log[i] == self.log[i]
        &&& self.counted() ==> later.counted()
    }
}

/// Whether the first `n` requests of two desks are the same, and so is the next
/// one, which the desks answer differently.
pub open spec fn part_at(a: DeskModel, b: DeskModel, n: int) -> bool {
    &&& 0 <= n < a.log.len()
    &&& n < b.log.len()
    &&& forall|i: int| 0 <= i <= n ==> #[trigger] a.log[i] == b.log[i]
    &&& {
        ||| a.log[n] is Place && a.accepted_at(batches_in(a.log.take(n))) != b.accepted_at(
            batches_in(a.log.take(n)),
        )
        ||| a.log[n] is Measure && a.measured_at(measures_in(a.log.take(n))) != b.measured_at(
            measures_in(a.log.take(n)),
        )
    }
}

/// Two worlds with the same requests so far that differ in nothing but the
/// answers.
pub open spec fn twins(v: World, w: World) -> bool {
    &&& v == (World { desk: v.desk, ..w })
    &&& v.desk.log == w.desk.log
    &&& v.desk.batches == w.desk.batches
    &&& v.desk.measures == w.desk.measures
}

/// Two worlds whose requests are the same up to one that is answered
/// differently.
pub open spec fn parted(v: World, w: World) -> bool {
    exists|n: int| part_at(v.desk, w.desk, n)
}

/// Two worlds that are the same but for the answers, unless an answer to the
/// same request has set them apart.
pub open spec fn kin(v: World, w: World) -> bool {
    twins(v, w) || parted(v, w)
}

/// The same of two outcomes.
pub open spec fn kin_outcomes(a: Outcome, b: Outcome) -> bool {
    twins(a.0, b.0) && a.1 == b.1 || parted(a.0, b.0)
}

// ---- requests are only added ----------------------------------------------

proof fn lemma_grows(a: DeskModel, b: DeskModel, c: DeskModel)
    requires
        a.grows_to(b),
        b.grows_to(c),
    ensures
        a.grows_to(c),
{
    assert forall|i: int| 0 <= i < a.log.len() implies #[trigger] c.log[i] == a.log[i] by {
        assert(b.log[i] == a.log[i]);
    }
}

/// Worlds that an answer has set apart stay so.
pub proof fn lemma_parted(v: World, w: World, v2: World, w2: World)
    requires
        parted(v, w),
        v.desk.grows_to(v2.desk),
        w.desk.grows_to(w2.desk),
    ensures
        parted(v2, w2),
{
    let n = choose|n: int| part_at(v.desk, w.desk, n);
    assert(v2.desk.log[n] == v.desk.log[n]);
    assert(v2.desk.log.take(n) =~= v.desk.log.take(n));
    assert forall|i: int| 0 <= i <= n implies #[trigger] v2.desk.log[i] == w2.desk.log[i] by {
        assert(v2.desk.log[i] == v.desk.log[i]);
        assert(w2.desk.log[i] == w.desk.log[i]);
    }
    assert(part_at(v2.desk, w2.desk, n));
}

/// Whether a request has no answer.
pub open spec fn is_plain(act: Act) -> bool {
    !(act is Place) && !(act is Measure)
}

pub proof fn lemma_said(d: DeskModel, act: Act)
    requires
        is_plain(act),
    ensures
        d.grows_to(d.said(act)),
{
    assert(d.said(act).log.drop_last() =~= d.log);
}

proof fn lemma_placed(d: DeskModel, moves: Seq<(WindowId, Rect)>)
    ensures
        d.grows_to(d.placed(moves)),
{
    assert(d.placed(moves).log.drop_last() =~= d.log || moves.len() == 0);
}

proof fn lemma_asked(d: DeskModel, id: WindowId)
    ensures
        d.grows_to(d.asked(id)),
{
    assert(d.asked(id).log.drop_last() =~= d.log);
}

proof fn lemma_visit_grows(w: World, id: WindowId, how: Visit)
    ensures
        w.desk.grows_to(w.visit(id, how).desk),
{
    lemma_said(w.desk, Act::Show(id));
    lemma_said(w.desk, Act::Hide(id));
}

proof fn lemma_visit_all_grows(w: World, ids: Seq<WindowId>, how: Visit)
    ensures
        w.desk.grows_to(w.visit_all(ids, how).desk),
    decreases ids.len(),
{
    if ids.len() > 0 {
        let before = w.visit_all(ids.drop_last(), how);
        lemma_visit_all_grows(w, ids.drop_last(), how);
        lemma_visit_grows(before, ids.last(), how);
        lemma_grows(w.desk, before.desk, w.visit_all(ids, how).desk);
    }
}

proof fn lemma_raising_grows(w: World, next: Option<WindowId>)
    ensures
        w.desk.grows_to(w.focusing(next).desk),
        w.desk.grows_to(w.raising(next).desk),
{
    let framed = w.framed(next);
    if w.focused_window != next {
        match next {
            Some(id) => {
                lemma_said(w.desk, Act::Frame(id));
            },
            None => {
                lemma_said(w.desk, Act::Unframe);
                lemma_said(w.desk.said(Act::Unframe), Act::SinkFocus);
                lemma_grows(
                    w.desk,
                    w.desk.said(Act::Unframe),
                    w.desk.said(Act::Unframe).said(Act::SinkFocus),
                );
            },
        }
    }
    if next is Some {
        lemma_said(framed.desk, Act::Focus(next->0));
        lemma_grows(w.desk, framed.desk, w.raising(next).desk);
    }
}

proof fn lemma_retiled_grows(w: World, ws: WorkspaceId)
    ensures
        w.desk.grows_to(w.retiled(ws).0.desk),
{
    if let Some(area) = w.work_area(ws) {
        let plan = w.plan(ws, area);
        let shown = w.visit_all(plan.visible, Visit::Reveal);
        lemma_visit_all_grows(w, plan.visible, Visit::Reveal);
        let placed = World { desk: shown.desk.placed(plan.moves), ..shown };
        lemma_placed(shown.desk, plan.moves);
        lemma_grows(w.desk, shown.desk, placed.desk);
        let covered = placed.visit_all(plan.hidden, Visit::Conceal);
        lemma_visit_all_grows(placed, plan.hidden, Visit::Conceal);
        lemma_grows(w.desk, placed.desk, covered.desk);
        if covered.focused_window is Some {
            lemma_said(covered.desk, Act::Reframe(covered.focused_window->0));
            lemma_grows(
                w.desk,
                covered.desk,
                covered.desk.said(Act::Reframe(covered.focused_window->0)),
            );
        }
    }
}

// ---- the same requests up to an answer -------------------------------------

proof fn lemma_visit_twins(v: World, w: World, id: WindowId, how: Visit)
    requires
        twins(v, w),
    ensures
        twins(v.visit(id, how), w.visit(id, how)),
{
}

proof fn lemma_visit_all_twins(v: World, w: World, ids: Seq<WindowId>, how: Visit)
    requires
        twins(v, w),
    ensures
        twins(v.visit_all(ids, how), w.visit_all(ids, how)),
    decreases ids.len(),
{
    if ids.len() > 0 {
        lemma_visit_all_twins(v, w, ids.drop_last(), how);
        lemma_visit_twins(
            v.visit_all(ids.drop_last(), how),
            w.visit_all(ids.drop_last(), how),
            ids.last(),
            how,
        );
    }
}

proof fn lemma_raising_twins(v: World, w: World, next: Option<WindowId>)
    requires
        twins(v, w),
    ensures
        twins(v.focusing(next), w.focusing(next)),
        twins(v.raising(next), w.raising(next)),
{
}

/// A batch that only one of two twins has accepted sets them apart.
proof fn lemma_refusal_parts(
    v: World,
    w: World,
    moves: Seq<(WindowId, Rect)>,
    v2: World,
    w2: World,
)
    requires
        twins(v, w),
        v.desk.counted(),
        v.desk.accepts(moves) != w.desk.accepts(moves),
        v.desk.placed(moves).grows_to(v2.desk),
        w.desk.placed(moves).grows_to(w2.desk),
    ensures
        parted(v2, w2),
{
    let n = v.desk.log.len() as int;
    let a = World { desk: v.desk.placed(moves), ..v };
    let b = World { desk: w.desk.placed(moves), ..w };
    assert(a.desk.log.take(n) =~= v.desk.log);
    assert(part_at(a.desk, b.desk, n));
    lemma_parted(a, b, v2, w2);
}

proof fn lemma_retiled_kin(v: World, w: World, ws: WorkspaceId)
    requires
        twins(v, w),
        v.desk.counted(),
    ensures
        kin_outcomes(v.retiled(ws), w.retiled(ws)),
{
    assert(v.work_area(ws) == w.work_area(ws));
    if let Some(area) = v.work_area(ws) {
        let plan = v.plan(ws, area);
        assert(plan == w.plan(ws, area));
        let v1 = v.visit_all(plan.visible, Visit::Reveal);
        let w1 = w.visit_all(plan.visible, Visit::Reveal);
        lemma_visit_all_twins(v, w, plan.visible, Visit::Reveal);
        lemma_visit_all_grows(v, plan.visible, Visit::Reveal);
        let v2 = World { desk: v1.desk.placed(plan.moves), ..v1 };
        let w2 = World { desk: w1.desk.placed(plan.moves), ..w1 };
        if v1.desk.accepts(plan.moves) == w1.desk.accepts(plan.moves) {
            assert(twins(v2, w2));
            lemma_visit_all_twins(v2, w2, plan.hidden, Visit::Conceal);
        } else {
            lemma_placed_then_grows(v1, plan.moves, plan.hidden, ws);
            lemma_placed_then_grows(w1, plan.moves, plan.hidden, ws);
            lemma_refusal_parts(v1, w1, plan.moves, v.retiled(ws).0, w.retiled(ws).0);
        }
    }
}

/// What follows a batch of positions in a retiling only adds requests.
proof fn lemma_placed_then_grows(
    w: World,
    moves: Seq<(WindowId, Rect)>,
    hidden: Seq<WindowId>,
    ws: WorkspaceId,
)
    ensures
        ({
            let placed = World { desk: w.desk.placed(moves), ..w };
            &&& placed.desk.grows_to(placed.desk)
            &&& placed.desk.grows_to(placed.visit_all(hidden, Visit::Conceal).reframed(ws).desk)
        }),
{
    let placed = World { desk: w.desk.placed(moves), ..w };
    let covered = placed.visit_all(hidden, Visit::Conceal);
    lemma_visit_all_grows(placed, hidden, Visit::Conceal);
    if covered.focused_window is Some {
        let act = Act::Reframe(covered.focused_window->0);
        lemma_said(covered.desk, act);
        lemma_grows(placed.desk, covered.desk, covered.desk.said(act));
    }
}

/// An answer that two twins get differently sets them apart.
proof fn lemma_answer_parts(v: World, w: World, id: WindowId, v2: World, w2: World)
    requires
        twins(v, w),
        v.desk.counted(),
        v.desk.answer() != w.desk.answer(),
        v.desk.asked(id).grows_to(v2.desk),
        w.desk.asked(id).grows_to(w2.desk),
    ensures
        parted(v2, w2),
{
    let n = v.desk.log.len() as int;
    let a = World { desk: v.desk.asked(id), ..v };
    let b = World { desk: w.desk.asked(id), ..w };
    assert(a.desk.log.take(n) =~= v.desk.log);
    assert(part_at(a.desk, b.desk, n));
    lemma_parted(a, b, v2, w2);
}

/// Retiling goes on from worlds that may be set apart already.
proof fn lemma_retiled_next(v: World, w: World, ws: WorkspaceId)
    requires
        kin(v, w),
        v.desk.counted(),
    ensures
        kin_outcomes(v.retiled(ws), w.retiled(ws)),
{
    if twins(v, w) {
        lemma_retiled_kin(v, w, ws);
    } else {
        lemma_retiled_grows(v, ws);
        lemma_retiled_grows(w, ws);
        lemma_parted(v, w, v.retiled(ws).0, w.retiled(ws).0);
    }
}

proof fn lemma_retiled_each_grows(w: World, all: Seq<WorkspaceId>)
    ensures
        w.desk.grows_to(w.retiled_each(all).desk),
    decreases all.len(),
{
    if all.len() > 0 {
        let before = w.retiled_each(all.drop_last());
        lemma_retiled_each_grows(w, all.drop_last());
        lemma_retiled_grows(before, all.last());
        lemma_grows(w.desk, before.desk, w.retiled_each(all).desk);
    }
}

pub proof fn lemma_retiled_each_kin(v: World, w: World, all: Seq<WorkspaceId>)
    requires
        kin(v, w),
        v.desk.counted(),
    ensures
        kin(v.retiled_each(all), w.retiled_each(all)),
    decreases all.len(),
{
    if all.len() > 0 {
        lemma_retiled_each_kin(v, w, all.drop_last());
        lemma_retiled_each_grows(v, all.drop_last());
        lemma_retiled_next(
            v.retiled_each(all.drop_last()),
            w.retiled_each(all.drop_last()),
            all.last(),
        );
    }
}

// ---- commands inside a workspace --------------------------------------------

proof fn lemma_focused_toward_kin(v: World, w: World, dir: Direction)
    requires
        twins(v, w),
    ensures
        kin_outcomes(v.focused_toward(dir), w.focused_toward(dir)),
{
    if let Some(ws) = w.focused_workspace() {
        let area = w.work_area_or(ws, model::nowhere());
        let next = match w.tree_focus(ws) {
            Some(f) => w.ws(ws).tree.neighbour(f, dir, area),
            None => None,
        };
        if let Some(t) = next {
            lemma_raising_twins(
                v.set_tree(ws, v.ws(ws).tree.focused_on(t)),
                w.set_tree(ws, w.ws(ws).tree.focused_on(t)),
                Some(t),
            );
        }
    }
}

/// The state that a move command retiles, and the workspace; `None` where it
/// changes nothing.
spec fn moving(w: World, dir: Direction) -> Option<(World, WorkspaceId)> {
    match (w.focused_workspace(), w.focused_window) {
        (Some(ws), Some(f)) => if w.is_floating(f) {
            match w.focused_float() {
                Some(r) => Some(
                    (
                        w.set_ws(
                            ws,
                            commands::refloated(
                                w.ws(ws),
                                f,
                                commands::shifted(r, dir),
                            ),
                        ),
                        ws,
                    ),
                ),
                None => None,
            }
        } else if w.knows(ws) {
            match w.ws(ws).tree.neighbour(f, dir, w.work_area_or(ws, model::nowhere())) {
                Some(other) => Some((w.set_tree(ws, w.ws(ws).tree.swapped(f, other)), ws)),
                None => None,
            }
        } else {
            None
        },
        _ => None,
    }
}

proof fn lemma_moved_toward_kin(v: World, w: World, dir: Direction)
    requires
        twins(v, w),
        v.desk.counted(),
    ensures
        kin_outcomes(v.moved_toward(dir), w.moved_toward(dir)),
{
    if let Some((next, ws)) = moving(w, dir) {
        lemma_retiled_kin((moving(v, dir)->0).0, next, ws);
    }
}

/// The state that a resize command retiles, and the workspace; `None` where it
/// changes nothing.
spec fn resizing(w: World, dir: Direction, delta: int) -> Option<(World, WorkspaceId)> {
    match (w.focused_workspace(), w.focused_window) {
        (Some(ws), Some(f)) => if w.is_floating(f) {
            match w.focused_float() {
                Some(r) => Some(
                    (
                        w.set_ws(
                            ws,
                            commands::refloated(
                                w.ws(ws),
                                f,
                                commands::stretched(r, dir, delta),
                            ),
                        ),
                        ws,
                    ),
                ),
                None => None,
            }
        } else if w.knows(ws) {
            let area = w.work_area_or(ws, model::nowhere());
            Some((w.set_tree(ws, w.ws(ws).tree.resized(f, dir, delta, area)), ws))
        } else {
            Some((w, ws))
        },
        _ => None,
    }
}

proof fn lemma_resized_toward_kin(v: World, w: World, dir: Direction, delta: int)
    requires
        twins(v, w),
        v.desk.counted(),
    ensures
        kin_outcomes(v.resized_toward(dir, delta), w.resized_toward(dir, delta)),
{
    if let Some((next, ws)) = resizing(w, dir, delta) {
        lemma_retiled_kin((resizing(v, dir, delta)->0).0, next, ws);
    }
}

/// With monocle mode switched, before the retiling.
spec fn monocling(w: World, ws: WorkspaceId) -> World {
    if w.knows(ws) {
        w.set_ws(ws, WorkspaceModel { monocle: !w.ws(ws).monocle, ..w.ws(ws) })
    } else {
        w
    }
}

proof fn lemma_monocle_kin(v: World, w: World)
    requires
        twins(v, w),
        v.desk.counted(),
    ensures
        kin_outcomes(v.monocle_toggled(), w.monocle_toggled()),
{
    if let Some(ws) = w.focused_workspace() {
        lemma_retiled_kin(monocling(v, ws), monocling(w, ws), ws);
    }
}

/// With stack mode toggled, before the retiling.
spec fn stacking(w: World, ws: WorkspaceId) -> World {
    if w.knows(ws) && w.ws(ws).tree.tree is Some {
        let toggled = w.set_tree(ws, w.ws(ws).tree.toggled());
        World { focused_window: toggled.tree_focus(ws), ..toggled }
    } else {
        w
    }
}

proof fn lemma_stack_kin(v: World, w: World)
    requires
        twins(v, w),
        v.desk.counted(),
    ensures
        kin_outcomes(v.stack_toggled(), w.stack_toggled()),
{
    if let Some(ws) = w.focused_workspace() {
        lemma_retiled_kin(stacking(v, ws), stacking(w, ws), ws);
    }
}

proof fn lemma_settled_kin(v: World, w: World, ws: WorkspaceId)
    requires
        twins(v, w),
        v.desk.counted(),
    ensures
        kin_outcomes(v.settled(ws), w.settled(ws)),
{
    let f = w.tree_focus(ws)->0;
    lemma_said(v.desk, Act::Focus(f));
    lemma_retiled_kin(
        World { focused_window: Some(f), ..v }.say(Act::Focus(f)),
        World { focused_window: Some(f), ..w }.say(Act::Focus(f)),
        ws,
    );
}

proof fn lemma_swallowed_kin(v: World, w: World, dir: Direction)
    requires
        twins(v, w),
        v.desk.counted(),
    ensures
        kin_outcomes(v.neighbour_swallowed(dir), w.neighbour_swallowed(dir)),
{
    if let Some(ws) = w.focused_workspace() {
        let area = w.work_area_or(ws, model::nowhere());
        lemma_settled_kin(
            v.set_tree(ws, v.ws(ws).tree.swallowed(dir, area)),
            w.set_tree(ws, w.ws(ws).tree.swallowed(dir, area)),
            ws,
        );
    }
}

proof fn lemma_popped_kin(v: World, w: World)
    requires
        twins(v, w),
        v.desk.counted(),
    ensures
        kin_outcomes(v.member_popped(), w.member_popped()),
{
    if let Some(ws) = w.focused_workspace() {
        lemma_settled_kin(
            v.set_tree(ws, v.ws(ws).tree.popped()),
            w.set_tree(ws, w.ws(ws).tree.popped()),
            ws,
        );
    }
}

/// With the other stack member focused, before the retiling.
spec fn cycling(w: World, ws: WorkspaceId, forward: bool) -> World {
    let cycled = w.set_tree(ws, w.ws(ws).tree.cycled(forward));
    World { focused_window: Some(cycled.tree_focus(ws)->0), ..cycled }
}

/// What follows a retiling that went well, where it brings a window to the
/// foreground.
proof fn lemma_then_focus_grows(a: Outcome, b: Outcome, id: WindowId)
    requires
        b == (match a {
            (w, Ok(())) => (w.say(Act::Focus(id)), Ok(())),
            (w, Err(e)) => (w, Err(e)),
        }),
    ensures
        a.0.desk.grows_to(b.0.desk),
{
    lemma_said(a.0.desk, Act::Focus(id));
}

proof fn lemma_stack_cycled_kin(v: World, w: World, forward: bool)
    requires
        twins(v, w),
        v.desk.counted(),
    ensures
        kin_outcomes(v.stack_cycled(forward), w.stack_cycled(forward)),
{
    if let Some(ws) = w.focused_workspace() {
        if w.knows(ws) && w.ws(ws).tree.tree is Some && w.ws(ws).tree.focused_node() is Stack {
            let v1 = cycling(v, ws, forward);
            let w1 = cycling(w, ws, forward);
            let id = w1.focused_window->0;
            lemma_retiled_kin(v1, w1, ws);
            lemma_then_focus_grows(v1.retiled(ws), v.stack_cycled(forward), id);
            lemma_then_focus_grows(w1.retiled(ws), w.stack_cycled(forward), id);
            if parted(v1.retiled(ws).0, w1.retiled(ws).0) {
                lemma_parted(
                    v1.retiled(ws).0,
                    w1.retiled(ws).0,
                    v.stack_cycled(forward).0,
                    w.stack_cycled(forward).0,
                );
            }
        }
    }
}

/// With the focused window floating at `place`, or tiled again, before the
/// retiling.
spec fn floating(w: World, id: WindowId, place: Rect) -> World {
    let ws = w.windows[id].workspace;
    match w.windows[id].mode {
        WindowMode::Tiled => {
            let asked = World {
                windows: w.windows.insert(
                    id,
                    ManagedWindow { mode: WindowMode::Floating, ..w.windows[id] },
                ),
                desk: w.desk.asked(id),
                ..w
            };
            if asked.knows(ws) {
                asked.set_ws(
                    ws,
                    WorkspaceModel {
                        tree: asked.ws(ws).tree.removed(id),
                        floating: asked.ws(ws).floating.push((id, place)),
                        ..asked.ws(ws)
                    },
                )
            } else {
                asked
            }
        },
        WindowMode::Floating => {
            let area = w.work_area_or(ws, model::nowhere());
            let marked = World {
                windows: w.windows.insert(
                    id,
                    ManagedWindow { mode: WindowMode::Tiled, ..w.windows[id] },
                ),
                ..w
            };
            if marked.knows(ws) {
                marked.set_ws(
                    ws,
                    WorkspaceModel {
                        tree: marked.ws(ws).tree.inserted(id, area),
                        floating: workspace::unfloated(marked.ws(ws).floating, id),
                        ..marked.ws(ws)
                    },
                )
            } else {
                marked
            }
        },
    }
}

/// Where a window floats from now on.
spec fn floating_place(d: DeskModel) -> Rect {
    match d.answer() {
        Some(r) => r,
        None => model::fallback_place(),
    }
}

proof fn lemma_float_grows(w: World)
    ensures
        w.desk.grows_to(w.float_toggled().0.desk),
{
    if let Some(id) = w.focused_window {
        if w.windows.contains_key(id) {
            let ws = w.windows[id].workspace;
            let next = floating(w, id, floating_place(w.desk));
            lemma_asked(w.desk, id);
            lemma_retiled_grows(next, ws);
            lemma_grows(w.desk, next.desk, next.retiled(ws).0.desk);
        }
    }
}

proof fn lemma_float_kin(v: World, w: World)
    requires
        twins(v, w),
        v.desk.counted(),
    ensures
        kin_outcomes(v.float_toggled(), w.float_toggled()),
{
    if let Some(id) = w.focused_window {
        if w.windows.contains_key(id) {
            let ws = w.windows[id].workspace;
            let v1 = floating(v, id, floating_place(v.desk));
            let w1 = floating(w, id, floating_place(w.desk));
            lemma_asked(v.desk, id);
            if v.desk.answer() == w.desk.answer() || w.windows[id].mode == WindowMode::Floating {
                lemma_retiled_kin(v1, w1, ws);
            } else {
                lemma_retiled_grows(v1, ws);
                lemma_retiled_grows(w1, ws);
                lemma_answer_parts(v, w, id, v.float_toggled().0, w.float_toggled().0);
            }
        }
    }
}

// ---- windows come and go ----------------------------------------------------

proof fn lemma_primary_twins(v: World, w: World)
    requires
        v.monitors == w.monitors,
    ensures
        v.primary() == w.primary(),
{
    if exists|i: int| v.is_first_primary(i) {
        let i = choose|i: int| v.is_first_primary(i);
        assert(w.is_first_primary(i));
        let k = choose|k: int| w.is_first_primary(k);
        assert(w.is_first_primary(k));
        assert(i == k);
    } else if exists|k: int| w.is_first_primary(k) {
        let k = choose|k: int| w.is_first_primary(k);
        assert(v.is_first_primary(k));
    }
}

proof fn lemma_workspace_at_twins(v: World, w: World, x: int, y: int)
    requires
        v.monitors == w.monitors,
    ensures
        v.workspace_at(x, y) == w.workspace_at(x, y),
{
    if exists|i: int| v.is_first_at(i, x, y) {
        let i = choose|i: int| v.is_first_at(i, x, y);
        assert(w.is_first_at(i, x, y));
        let k = choose|k: int| w.is_first_at(k, x, y);
        assert(w.is_first_at(k, x, y));
        assert(i == k);
    } else if exists|k: int| w.is_first_at(k, x, y) {
        let k = choose|k: int| w.is_first_at(k, x, y);
        assert(v.is_first_at(k, x, y));
    }
}

/// The workspace for a new window depends on the monitors and the focus alone.
pub proof fn lemma_host_twins(v: World, w: World, place: Option<Rect>)
    requires
        v.monitors == w.monitors,
        v.focused_monitor == w.focused_monitor,
    ensures
        v.host_of(place) == w.host_of(place),
{
    lemma_primary_twins(v, w);
    if let Some(r) = place {
        lemma_workspace_at_twins(v, w, nearest::mid_x(r), nearest::mid_y(r));
    }
}

/// With a new window focused on a workspace, before the retiling.
spec fn hosting(
    w: World,
    id: WindowId,
    title: String,
    class: String,
    exe_name: String,
    ws: WorkspaceId,
) -> World {
    World { desk: w.desk.asked(id), ..w }.say(Act::DisableTransitions(id)).adopted(
        id,
        title,
        class,
        exe_name,
        ws,
        model::nowhere(),
    ).focusing(Some(id))
}

/// After the question where a new window is, hosting it only adds requests.
proof fn lemma_hosting_grows(
    w: World,
    id: WindowId,
    title: String,
    class: String,
    exe_name: String,
    ws: WorkspaceId,
)
    ensures
        w.desk.asked(id).grows_to(hosting(w, id, title, class, exe_name, ws).desk),
        w.desk.asked(id).grows_to(hosting(w, id, title, class, exe_name, ws).retiled(ws).0.desk),
{
    let said = World { desk: w.desk.asked(id), ..w }.say(Act::DisableTransitions(id));
    lemma_said(w.desk.asked(id), Act::DisableTransitions(id));
    let adopted = said.adopted(id, title, class, exe_name, ws, model::nowhere());
    lemma_raising_grows(adopted, Some(id));
    let next = hosting(w, id, title, class, exe_name, ws);
    lemma_grows(w.desk.asked(id), said.desk, next.desk);
    lemma_retiled_grows(next, ws);
    lemma_grows(w.desk.asked(id), next.desk, next.retiled(ws).0.desk);
}

proof fn lemma_managed_grows(
    w: World,
    id: WindowId,
    title: String,
    class: String,
    exe_name: String,
)
    ensures
        w.desk.grows_to(w.managed(id, title, class, exe_name).0.desk),
        !w.windows.contains_key(id) ==> w.desk.asked(id).grows_to(
            w.managed(id, title, class, exe_name).0.desk,
        ),
{
    let asked = World { desk: w.desk.asked(id), ..w };
    lemma_asked(w.desk, id);
    if let Some(ws) = asked.host_of(w.desk.answer()) {
        lemma_hosting_grows(w, id, title, class, exe_name, ws);
        lemma_grows(
            w.desk,
            w.desk.asked(id),
            hosting(w, id, title, class, exe_name, ws).retiled(ws).0.desk,
        );
    }
}

proof fn lemma_managed_kin(
    v: World,
    w: World,
    id: WindowId,
    title: String,
    class: String,
    exe_name: String,
)
    requires
        twins(v, w),
        v.desk.counted(),
    ensures
        kin_outcomes(
            v.managed(id, title, class, exe_name),
            w.managed(id, title, class, exe_name),
        ),
{
    if !w.windows.contains_key(id) {
        lemma_managed_grows(v, id, title, class, exe_name);
        lemma_managed_grows(w, id, title, class, exe_name);
        if v.desk.answer() == w.desk.answer() {
            let v1 = World { desk: v.desk.asked(id), ..v };
            let w1 = World { desk: w.desk.asked(id), ..w };
            lemma_asked(v.desk, id);
            lemma_host_twins(v1, w1, v.desk.answer());
            if let Some(ws) = w1.host_of(w.desk.answer()) {
                let v2 = hosting(v, id, title, class, exe_name, ws);
                let w2 = hosting(w, id, title, class, exe_name, ws);
                lemma_hosting_grows(v, id, title, class, exe_name, ws);
                lemma_raising_twins(
                    v1.say(Act::DisableTransitions(id)).adopted(
                        id,
                        title,
                        class,
                        exe_name,
                        ws,
                        model::nowhere(),
                    ),
                    w1.say(Act::DisableTransitions(id)).adopted(
                        id,
                        title,
                        class,
                        exe_name,
                        ws,
                        model::nowhere(),
                    ),
                    Some(id),
                );
                lemma_retiled_kin(v2, w2, ws);
            }
        } else {
            lemma_answer_parts(
                v,
                w,
                id,
                v.managed(id, title, class, exe_name).0,
                w.managed(id, title, class, exe_name).0,
            );
        }
    }
}

/// With a new window on a given workspace, before it is hidden or retiled.
spec fn routing(
    w: World,
    id: WindowId,
    title: String,
    class: String,
    exe_name: String,
    ws: WorkspaceId,
) -> World {
    w.say(Act::DisableTransitions(id)).adopted(
        id,
        title,
        class,
        exe_name,
        ws,
        model::default_screen(),
    )
}

proof fn lemma_managed_on_grows(
    w: World,
    id: WindowId,
    title: String,
    class: String,
    exe_name: String,
    ws: WorkspaceId,
)
    ensures
        w.desk.grows_to(w.managed_on(id, title, class, exe_name, ws).0.desk),
{
    let next = routing(w, id, title, class, exe_name, ws);
    lemma_said(w.desk, Act::DisableTransitions(id));
    lemma_visit_grows(next, id, Visit::Hide);
    lemma_grows(w.desk, next.desk, next.visit(id, Visit::Hide).desk);
    lemma_retiled_grows(next, ws);
    lemma_grows(w.desk, next.desk, next.retiled(ws).0.desk);
}

proof fn lemma_managed_on_kin(
    v: World,
    w: World,
    id: WindowId,
    title: String,
    class: String,
    exe_name: String,
    ws: WorkspaceId,
)
    requires
        twins(v, w),
        v.desk.counted(),
    ensures
        kin_outcomes(
            v.managed_on(id, title, class, exe_name, ws),
            w.managed_on(id, title, class, exe_name, ws),
        ),
{
    let v1 = routing(v, id, title, class, exe_name, ws);
    let w1 = routing(w, id, title, class, exe_name, ws);
    lemma_said(v.desk, Act::DisableTransitions(id));
    assert(twins(v1, w1));
    lemma_visit_twins(v1, w1, id, Visit::Hide);
    lemma_retiled_kin(v1, w1, ws);
}

/// Without a window, before the retiling.
spec fn forgetting(w: World, id: WindowId) -> World {
    let ws = w.windows[id].workspace;
    let gone = World { windows: w.windows.remove(id), ..w }.detached(ws, id);
    let next = if gone.focused_window == Some(id) {
        gone.tree_focus(ws)
    } else {
        gone.focused_window
    };
    World { focused_window: next, ..gone }
}

proof fn lemma_unmanaged_grows(w: World, id: WindowId)
    ensures
        w.desk.grows_to(w.unmanaged(id).0.desk),
{
    if w.windows.contains_key(id) {
        lemma_retiled_grows(forgetting(w, id), w.windows[id].workspace);
    }
}

proof fn lemma_unmanaged_kin(v: World, w: World, id: WindowId)
    requires
        twins(v, w),
        v.desk.counted(),
    ensures
        kin_outcomes(v.unmanaged(id), w.unmanaged(id)),
{
    if w.windows.contains_key(id) {
        lemma_retiled_kin(forgetting(v, id), forgetting(w, id), w.windows[id].workspace);
    }
}

proof fn lemma_unmanaged_each_grows(w: World, ids: Seq<WindowId>)
    ensures
        w.desk.grows_to(w.unmanaged_each(ids).desk),
    decreases ids.len(),
{
    if ids.len() > 0 {
        let before = w.unmanaged_each(ids.drop_last());
        lemma_unmanaged_each_grows(w, ids.drop_last());
        lemma_unmanaged_grows(before, ids.last());
        lemma_grows(w.desk, before.desk, w.unmanaged_each(ids).desk);
    }
}

proof fn lemma_unmanaged_each_kin(v: World, w: World, ids: Seq<WindowId>)
    requires
        kin(v, w),
        v.desk.counted(),
    ensures
        kin(v.unmanaged_each(ids), w.unmanaged_each(ids)),
    decreases ids.len(),
{
    if ids.len() > 0 {
        let v1 = v.unmanaged_each(ids.drop_last());
        let w1 = w.unmanaged_each(ids.drop_last());
        lemma_unmanaged_each_kin(v, w, ids.drop_last());
        lemma_unmanaged_each_grows(v, ids.drop_last());
        if twins(v1, w1) {
            lemma_unmanaged_kin(v1, w1, ids.last());
        } else {
            lemma_unmanaged_grows(v1, ids.last());
            lemma_unmanaged_grows(w1, ids.last());
            lemma_parted(v1, w1, v.unmanaged_each(ids), w.unmanaged_each(ids));
        }
    }
}

/// With a window out of the layout and the focus handed on, before the retiling.
spec fn yielding(w: World, id: WindowId) -> World {
    let ws = w.windows[id].workspace;
    let out = w.detached(ws, id);
    if out.focused_window == Some(id) {
        out.raising(out.tree_focus(ws))
    } else {
        out
    }
}

proof fn lemma_soft_removed_kin(v: World, w: World, id: WindowId)
    requires
        twins(v, w),
        v.desk.counted(),
    ensures
        kin_outcomes(v.soft_removed(id), w.soft_removed(id)),
{
    if w.takes_part(id) {
        let ws = w.windows[id].workspace;
        let v1 = v.detached(ws, id);
        let w1 = w.detached(ws, id);
        lemma_raising_grows(v1, v1.tree_focus(ws));
        lemma_raising_twins(v1, w1, w1.tree_focus(ws));
        lemma_retiled_kin(yielding(v, id), yielding(w, id), ws);
    }
}

/// With a window back in the layout, before the retiling.
spec fn returning(w: World, id: WindowId) -> World {
    let ws = w.windows[id].workspace;
    if w.ws(ws).has(id) {
        w
    } else {
        w.set_tree(ws, w.ws(ws).tree.inserted(id, w.work_area_or(ws, model::nowhere())))
    }
}

proof fn lemma_soft_restored_kin(v: World, w: World, id: WindowId)
    requires
        twins(v, w),
        v.desk.counted(),
    ensures
        kin_outcomes(v.soft_restored(id), w.soft_restored(id)),
{
    lemma_retiled_kin(returning(v, id), returning(w, id), w.windows[id].workspace);
}

proof fn lemma_foregrounded_grows(w: World, id: WindowId)
    ensures
        w.desk.grows_to(w.foregrounded(id).desk),
{
    lemma_raising_grows(w, Some(id));
}

proof fn lemma_foregrounded_twins(v: World, w: World, id: WindowId)
    requires
        twins(v, w),
    ensures
        twins(v.foregrounded(id), w.foregrounded(id)),
{
    lemma_raising_twins(v, w, Some(id));
}

// ---- workspaces move ----------------------------------------------------------

/// With a workspace on a monitor in place of another, before the retiling.
spec fn arriving(
    w: World,
    id: MonitorId,
    outgoing: WorkspaceId,
    incoming: WorkspaceId,
) -> World {
    let away = w.visit_all(w.windows_on(outgoing), Visit::Hide).unbound(outgoing);
    away.bound(incoming, id).visit_all(away.windows_on(incoming), Visit::Show).set_current(
        id,
        incoming,
    )
}

proof fn lemma_arriving_grows(
    w: World,
    id: MonitorId,
    outgoing: WorkspaceId,
    incoming: WorkspaceId,
)
    ensures
        w.desk.grows_to(arriving(w, id, outgoing, incoming).desk),
{
    let hidden = w.visit_all(w.windows_on(outgoing), Visit::Hide);
    lemma_visit_all_grows(w, w.windows_on(outgoing), Visit::Hide);
    let away = hidden.unbound(outgoing);
    lemma_visit_all_grows(away.bound(incoming, id), away.windows_on(incoming), Visit::Show);
    lemma_grows(w.desk, hidden.desk, arriving(w, id, outgoing, incoming).desk);
}

proof fn lemma_arriving_twins(
    v: World,
    w: World,
    id: MonitorId,
    outgoing: WorkspaceId,
    incoming: WorkspaceId,
)
    requires
        twins(v, w),
    ensures
        twins(arriving(v, id, outgoing, incoming), arriving(w, id, outgoing, incoming)),
{
    lemma_visit_all_twins(v, w, w.windows_on(outgoing), Visit::Hide);
    let v1 = v.visit_all(v.windows_on(outgoing), Visit::Hide).unbound(outgoing);
    let w1 = w.visit_all(w.windows_on(outgoing), Visit::Hide).unbound(outgoing);
    assert(twins(v1, w1));
    lemma_visit_all_twins(
        v1.bound(incoming, id),
        w1.bound(incoming, id),
        w1.windows_on(incoming),
        Visit::Show,
    );
}

/// What follows a retiling that went well, where it raises the window that the
/// tree of `ws` has the focus on.
spec fn then_raising(a: Outcome, ws: WorkspaceId) -> Outcome {
    match a {
        (w, Ok(())) => (w.raising(w.tree_focus(ws)), Ok(())),
        (w, Err(e)) => (w, Err(e)),
    }
}

proof fn lemma_then_raising_grows(a: Outcome, ws: WorkspaceId)
    ensures
        a.0.desk.grows_to(then_raising(a, ws).0.desk),
{
    lemma_raising_grows(a.0, a.0.tree_focus(ws));
}

proof fn lemma_then_raising_kin(a: Outcome, b: Outcome, ws: WorkspaceId)
    requires
        kin_outcomes(a, b),
    ensures
        kin_outcomes(then_raising(a, ws), then_raising(b, ws)),
{
    if twins(a.0, b.0) && a.1 == b.1 {
        lemma_raising_twins(a.0, b.0, a.0.tree_focus(ws));
    } else {
        lemma_then_raising_grows(a, ws);
        lemma_then_raising_grows(b, ws);
        lemma_parted(a.0, b.0, then_raising(a, ws).0, then_raising(b, ws).0);
    }
}

proof fn lemma_swapped_onto_grows(w: World, id: MonitorId, incoming: WorkspaceId)
    ensures
        w.desk.grows_to(w.swapped_onto(id, incoming).0.desk),
{
    if let Some(m) = w.monitor(id) {
        let here = arriving(w, id, m.current_workspace, incoming);
        lemma_arriving_grows(w, id, m.current_workspace, incoming);
        lemma_retiled_grows(here, incoming);
        lemma_grows(w.desk, here.desk, here.retiled(incoming).0.desk);
        lemma_then_raising_grows(here.retiled(incoming), incoming);
        lemma_grows(
            w.desk,
            here.retiled(incoming).0.desk,
            then_raising(here.retiled(incoming), incoming).0.desk,
        );
        assert(w.swapped_onto(id, incoming) == then_raising(here.retiled(incoming), incoming));
    }
}

proof fn lemma_swapped_onto_kin(v: World, w: World, id: MonitorId, incoming: WorkspaceId)
    requires
        twins(v, w),
        v.desk.counted(),
    ensures
        kin_outcomes(v.swapped_onto(id, incoming), w.swapped_onto(id, incoming)),
{
    if let Some(m) = w.monitor(id) {
        let v1 = arriving(v, id, m.current_workspace, incoming);
        let w1 = arriving(w, id, m.current_workspace, incoming);
        lemma_arriving_grows(v, id, m.current_workspace, incoming);
        lemma_arriving_twins(v, w, id, m.current_workspace, incoming);
        lemma_retiled_kin(v1, w1, incoming);
        lemma_then_raising_kin(v1.retiled(incoming), w1.retiled(incoming), incoming);
        assert(v.swapped_onto(id, incoming) == then_raising(v1.retiled(incoming), incoming));
        assert(w.swapped_onto(id, incoming) == then_raising(w1.retiled(incoming), incoming));
    }
}

/// What follows a retiling that went well, where it retiles another workspace.
spec fn then_retiled(a: Outcome, ws: WorkspaceId) -> Outcome {
    match a {
        (w, Ok(())) => w.retiled(ws),
        (w, Err(e)) => (w, Err(e)),
    }
}

proof fn lemma_then_retiled_grows(a: Outcome, ws: WorkspaceId)
    ensures
        a.0.desk.grows_to(then_retiled(a, ws).0.desk),
{
    lemma_retiled_grows(a.0, ws);
}

proof fn lemma_then_retiled_kin(a: Outcome, b: Outcome, ws: WorkspaceId)
    requires
        kin_outcomes(a, b),
        a.0.desk.counted(),
    ensures
        kin_outcomes(then_retiled(a, ws), then_retiled(b, ws)),
{
    if twins(a.0, b.0) && a.1 == b.1 {
        lemma_retiled_kin(a.0, b.0, ws);
    } else {
        lemma_then_retiled_grows(a, ws);
        lemma_then_retiled_grows(b, ws);
        lemma_parted(a.0, b.0, then_retiled(a, ws).0, then_retiled(b, ws).0);
    }
}

/// With the workspaces of two monitors exchanged, before the retiling.
spec fn exchanging(
    w: World,
    here: MonitorId,
    there: MonitorId,
    own: WorkspaceId,
    target: WorkspaceId,
) -> World {
    w.bound(own, there).bound(target, here).set_current(here, target).set_current(there, own)
}

proof fn lemma_exchanged_kin(
    v: World,
    w: World,
    here: MonitorId,
    there: MonitorId,
    target: WorkspaceId,
)
    requires
        twins(v, w),
        v.desk.counted(),
    ensures
        kin_outcomes(v.exchanged(here, there, target), w.exchanged(here, there, target)),
{
    if let Some(m) = w.monitor(here) {
        let own = m.current_workspace;
        let v1 = exchanging(v, here, there, own, target);
        let w1 = exchanging(w, here, there, own, target);
        lemma_retiled_kin(v1, w1, own);
        lemma_retiled_grows(v1, own);
        lemma_then_retiled_kin(v1.retiled(own), w1.retiled(own), target);
        let v2 = then_retiled(v1.retiled(own), target);
        let w2 = then_retiled(w1.retiled(own), target);
        lemma_then_raising_kin(v2, w2, target);
        assert(v.exchanged(here, there, target) == then_raising(v2, target));
        assert(w.exchanged(here, there, target) == then_raising(w2, target));
    }
}

proof fn lemma_switched_kin(v: World, w: World, target: WorkspaceId)
    requires
        twins(v, w),
        v.desk.counted(),
    ensures
        kin_outcomes(v.switched(target), w.switched(target)),
{
    if let Some(here) = w.focused_monitor {
        lemma_swapped_onto_kin(v, w, here, target);
        if let Some(there) = w.shown_on(target) {
            lemma_exchanged_kin(v, w, here, there, target);
            let v1 = World { focused_monitor: Some(there), ..v };
            let w1 = World { focused_monitor: Some(there), ..w };
            lemma_raising_twins(v1, w1, w1.tree_focus(target));
        }
    }
}

proof fn lemma_switched_on_kin(v: World, w: World, target: WorkspaceId, id: MonitorId)
    requires
        twins(v, w),
        v.desk.counted(),
    ensures
        kin_outcomes(v.switched_on(target, id), w.switched_on(target, id)),
{
    lemma_switched_kin(
        World { focused_monitor: Some(id), ..v },
        World { focused_monitor: Some(id), ..w },
        target,
    );
}

/// With the focused window on another workspace, before the retiling.
spec fn sending(w: World, id: WindowId, target: WorkspaceId) -> World {
    let from = w.windows[id].workspace;
    let out = w.detached(from, id);
    let area = out.work_area_or(target, model::default_screen());
    let there = out.set_tree(target, out.ws(target).tree.inserted(id, area));
    World {
        windows: there.windows.insert(
            id,
            ManagedWindow { workspace: target, ..there.windows[id] },
        ),
        ..there
    }
}

/// The focus follows a window that was sent to a workspace.
spec fn following(w: World, id: WindowId, target: WorkspaceId) -> Outcome {
    match w.shown_on(target) {
        None => match w.focused_monitor {
            None => (w, Err(WmError::NoFocusedMonitor)),
            Some(here) => w.swapped_onto(here, target),
        },
        Some(m) => match (World { focused_monitor: Some(m), ..w.visit(id, Visit::Show) }).retiled(
            target,
        ) {
            (v, Err(e)) => (v, Err(e)),
            (v, Ok(())) => (v.raising(Some(id)), Ok(())),
        },
    }
}

proof fn lemma_following_grows(w: World, id: WindowId, target: WorkspaceId)
    ensures
        w.desk.grows_to(following(w, id, target).0.desk),
{
    match w.shown_on(target) {
        None => {
            if let Some(here) = w.focused_monitor {
                lemma_swapped_onto_grows(w, here, target);
            }
        },
        Some(m) => {
            let shown = World { focused_monitor: Some(m), ..w.visit(id, Visit::Show) };
            let done = shown.retiled(target);
            lemma_visit_grows(w, id, Visit::Show);
            lemma_retiled_grows(shown, target);
            lemma_grows(w.desk, shown.desk, done.0.desk);
            lemma_raising_grows(done.0, Some(id));
            lemma_grows(w.desk, done.0.desk, done.0.raising(Some(id)).desk);
        },
    }
}

proof fn lemma_following_kin(v: World, w: World, id: WindowId, target: WorkspaceId)
    requires
        twins(v, w),
        v.desk.counted(),
    ensures
        kin_outcomes(following(v, id, target), following(w, id, target)),
{
    match w.shown_on(target) {
        None => {
            if let Some(here) = w.focused_monitor {
                lemma_swapped_onto_kin(v, w, here, target);
            }
        },
        Some(m) => {
            let v1 = World { focused_monitor: Some(m), ..v.visit(id, Visit::Show) };
            let w1 = World { focused_monitor: Some(m), ..w.visit(id, Visit::Show) };
            lemma_visit_grows(v, id, Visit::Show);
            lemma_visit_twins(v, w, id, Visit::Show);
            lemma_retiled_kin(v1, w1, target);
            let v2 = v1.retiled(target);
            let w2 = w1.retiled(target);
            if twins(v2.0, w2.0) && v2.1 == w2.1 {
                lemma_raising_twins(v2.0, w2.0, Some(id));
            } else {
                lemma_raising_grows(v2.0, Some(id));
                lemma_raising_grows(w2.0, Some(id));
                lemma_parted(
                    v2.0,
                    w2.0,
                    following(v, id, target).0,
                    following(w, id, target).0,
                );
            }
        },
    }
}

/// What a command that sends a window does once it is known to have one.
spec fn sent(w: World, id: WindowId, target: WorkspaceId) -> Outcome {
    match sending(w, id, target).retiled(w.windows[id].workspace) {
        (v, Err(e)) => (v, Err(e)),
        (v, Ok(())) => following(v, id, target),
    }
}

spec fn sends(w: World, target: WorkspaceId) -> bool {
    w.focused_window matches Some(id) && w.windows.contains_key(id) && w.windows[id].workspace
        != target && w.knows(target)
}

proof fn lemma_sent_to_kin(v: World, w: World, target: WorkspaceId)
    requires
        twins(v, w),
        v.desk.counted(),
    ensures
        kin_outcomes(v.sent_to(target), w.sent_to(target)),
{
    if sends(w, target) {
        let id = w.focused_window->0;
        let from = w.windows[id].workspace;
        let v1 = sending(v, id, target);
        let w1 = sending(w, id, target);
        assert(twins(v1, w1));
        lemma_retiled_kin(v1, w1, from);
        lemma_retiled_grows(v1, from);
        let v2 = v1.retiled(from);
        let w2 = w1.retiled(from);
        if twins(v2.0, w2.0) && v2.1 == w2.1 {
            lemma_following_kin(v2.0, w2.0, id, target);
        } else {
            lemma_following_grows(v2.0, id, target);
            lemma_following_grows(w2.0, id, target);
            lemma_parted(v2.0, w2.0, sent(v, id, target).0, sent(w, id, target).0);
        }
        assert(v.sent_to(target) == sent(v, id, target));
        assert(w.sent_to(target) == sent(w, id, target));
    }
}

// ---- monitors come and go -----------------------------------------------------

proof fn lemma_monitor_focus_twins(v: World, w: World, dir: Direction)
    requires
        twins(v, w),
    ensures
        twins(v.monitor_focused_toward(dir), w.monitor_focused_toward(dir)),
{
    if let Some(id) = w.focused_monitor {
        if let Some(from) = monitor::monitor_index(w.monitors, id@) {
            if let Some(i) = monitors::closest(w.monitors, from, dir) {
                let m = w.monitors[i];
                let v1 = World { focused_monitor: Some(m.id), ..v };
                let w1 = World { focused_monitor: Some(m.id), ..w };
                lemma_raising_twins(v1, w1, w1.tree_focus(m.current_workspace));
            }
        }
    }
}

proof fn lemma_unbound_each_twins(v: World, w: World, all: Seq<WorkspaceId>)
    requires
        twins(v, w),
    ensures
        twins(v.unbound_each(all), w.unbound_each(all)),
        w.unbound_each(all).desk == w.desk,
        v.unbound_each(all).desk == v.desk,
    decreases all.len(),
{
    if all.len() > 0 {
        lemma_unbound_each_twins(v, w, all.drop_last());
    }
}

proof fn lemma_joined_by_all_twins(
    v: World,
    w: World,
    infos: Seq<MonitorInfo>,
    n: int,
    retile: Seq<WorkspaceId>,
)
    requires
        twins(v, w),
    ensures
        twins(v.joined_by_all(infos, n, retile).0, w.joined_by_all(infos, n, retile).0),
        v.joined_by_all(infos, n, retile).1 == w.joined_by_all(infos, n, retile).1,
        v.desk.grows_to(v.joined_by_all(infos, n, retile).0.desk),
        w.desk.grows_to(w.joined_by_all(infos, n, retile).0.desk),
    decreases n,
{
    if n > 0 {
        lemma_joined_by_all_twins(v, w, infos, n - 1, retile);
        let v1 = v.joined_by_all(infos, n - 1, retile);
        let w1 = w.joined_by_all(infos, n - 1, retile);
        lemma_joined_by_twins(v1.0, w1.0, infos[n - 1], w1.1);
        lemma_grows(v.desk, v1.0.desk, v1.0.joined_by(infos[n - 1], v1.1).0.desk);
        lemma_grows(w.desk, w1.0.desk, w1.0.joined_by(infos[n - 1], w1.1).0.desk);
    }
}

proof fn lemma_joined_by_twins(v: World, w: World, info: MonitorInfo, retile: Seq<WorkspaceId>)
    requires
        twins(v, w),
    ensures
        twins(v.joined_by(info, retile).0, w.joined_by(info, retile).0),
        v.joined_by(info, retile).1 == w.joined_by(info, retile).1,
        v.desk.grows_to(v.joined_by(info, retile).0.desk),
        w.desk.grows_to(w.joined_by(info, retile).0.desk),
{
    let id = MonitorId(info.stable_id);
    let (ws, from) = w.choice_for(id@);
    let v1 = match from {
        Some(other) => if v.knows(ws) {
            v.reclaimed(ws, other, retile).0
        } else {
            v
        },
        None => v,
    };
    let w1 = match from {
        Some(other) => if w.knows(ws) {
            w.reclaimed(ws, other, retile).0
        } else {
            w
        },
        None => w,
    };
    if from is Some && w.knows(ws) {
        lemma_reclaimed_twins(v, w, ws, from->0, retile);
    }
    assert(twins(v1, w1));
    let v2 = v1.bound(ws, id);
    let w2 = w1.bound(ws, id);
    lemma_visit_all_twins(v2, w2, w1.windows_on(ws), Visit::Show);
    lemma_visit_all_grows(v2, v1.windows_on(ws), Visit::Show);
    lemma_visit_all_grows(w2, w1.windows_on(ws), Visit::Show);
    lemma_grows(v.desk, v1.desk, v2.visit_all(v1.windows_on(ws), Visit::Show).desk);
    lemma_grows(w.desk, w1.desk, w2.visit_all(w1.windows_on(ws), Visit::Show).desk);
}

proof fn lemma_reclaimed_twins(
    v: World,
    w: World,
    ws: WorkspaceId,
    from: MonitorId,
    retile: Seq<WorkspaceId>,
)
    requires
        twins(v, w),
    ensures
        twins(v.reclaimed(ws, from, retile).0, w.reclaimed(ws, from, retile).0),
        v.reclaimed(ws, from, retile).1 == w.reclaimed(ws, from, retile).1,
        v.desk.grows_to(v.reclaimed(ws, from, retile).0.desk),
        w.desk.grows_to(w.reclaimed(ws, from, retile).0.desk),
{
    let v1 = v.unbound(ws);
    let w1 = w.unbound(ws);
    if let Some(other) = w1.replacement_for(from, ws) {
        let ids = w1.windows_on(other);
        let v2 = v1.bound(other, from);
        let w2 = w1.bound(other, from);
        lemma_visit_all_twins(v2, w2, ids, Visit::Show);
        lemma_visit_all_grows(v2, ids, Visit::Show);
        lemma_visit_all_grows(w2, ids, Visit::Show);
    }
}

proof fn lemma_sheltered_grows(
    w: World,
    shelters: Seq<MonitorId>,
    orphans: Seq<WorkspaceId>,
    n: int,
)
    ensures
        w.desk.grows_to(w.sheltered(shelters, orphans, n).desk),
    decreases n,
{
    if n > 0 {
        let before = w.sheltered(shelters, orphans, n - 1);
        lemma_sheltered_grows(w, shelters, orphans, n - 1);
        lemma_swapped_onto_grows(before, shelters[n - 1], orphans[n - 1]);
        lemma_visit_all_grows(before, before.windows_on(orphans[n - 1]), Visit::Hide);
        lemma_grows(w.desk, before.desk, w.sheltered(shelters, orphans, n).desk);
    }
}

proof fn lemma_sheltered_kin(
    v: World,
    w: World,
    shelters: Seq<MonitorId>,
    orphans: Seq<WorkspaceId>,
    n: int,
)
    requires
        twins(v, w),
        v.desk.counted(),
    ensures
        kin(v.sheltered(shelters, orphans, n), w.sheltered(shelters, orphans, n)),
    decreases n,
{
    if n > 0 {
        let v1 = v.sheltered(shelters, orphans, n - 1);
        let w1 = w.sheltered(shelters, orphans, n - 1);
        let ws = orphans[n - 1];
        lemma_sheltered_kin(v, w, shelters, orphans, n - 1);
        lemma_sheltered_grows(v, shelters, orphans, n - 1);
        lemma_swapped_onto_grows(v1, shelters[n - 1], ws);
        lemma_swapped_onto_grows(w1, shelters[n - 1], ws);
        lemma_visit_all_grows(v1, v1.windows_on(ws), Visit::Hide);
        lemma_visit_all_grows(w1, w1.windows_on(ws), Visit::Hide);
        if twins(v1, w1) {
            lemma_swapped_onto_kin(v1, w1, shelters[n - 1], ws);
            lemma_visit_all_twins(v1, w1, w1.windows_on(ws), Visit::Hide);
            let v2 = v1.swapped_onto(shelters[n - 1], ws).0;
            let w2 = w1.swapped_onto(shelters[n - 1], ws).0;
            if n <= shelters.len() && parted(v2, w2) {
                lemma_parted(
                    v2,
                    w2,
                    v.sheltered(shelters, orphans, n),
                    w.sheltered(shelters, orphans, n),
                );
            }
        } else {
            lemma_parted(
                v1,
                w1,
                v.sheltered(shelters, orphans, n),
                w.sheltered(shelters, orphans, n),
            );
        }
    }
}

/// With the monitors of a fresh enumeration, before any workspace moves, and
/// the workspaces to retile.
spec fn met(w: World, infos: Seq<MonitorInfo>) -> (World, Seq<WorkspaceId>) {
    let known = w.bereft(infos).refocused().refreshed(infos);
    let (met, retile) = known.joined_by_all(
        infos,
        infos.len() as int,
        known.monitors.map_values(|m: Monitor| m.current_workspace),
    );
    let led = if met.focused_monitor is None && met.monitors.len() > 0 {
        World { focused_monitor: Some(met.monitors[0].id), ..met }
    } else {
        met
    };
    (led, retile)
}

proof fn lemma_met_twins(v: World, w: World, infos: Seq<MonitorInfo>)
    requires
        twins(v, w),
    ensures
        twins(met(v, infos).0, met(w, infos).0),
        met(v, infos).1 == met(w, infos).1,
        v.desk.grows_to(met(v, infos).0.desk),
        w.desk.grows_to(met(w, infos).0.desk),
{
    let v1 = World { monitors: v.monitors.filter(monitors::stays(infos)), ..v };
    let w1 = World { monitors: w.monitors.filter(monitors::stays(infos)), ..w };
    lemma_unbound_each_twins(v1, w1, w.orphans(infos));
    let v2 = v.bereft(infos);
    let w2 = w.bereft(infos);
    assert(twins(v2, w2));
    lemma_primary_twins(v2, w2);
    let v3 = v2.refocused().refreshed(infos);
    let w3 = w2.refocused().refreshed(infos);
    assert(twins(v3, w3));
    lemma_joined_by_all_twins(
        v3,
        w3,
        infos,
        infos.len() as int,
        w3.monitors.map_values(|m: Monitor| m.current_workspace),
    );
}

proof fn lemma_reconciled_kin(v: World, w: World, infos: Seq<MonitorInfo>)
    requires
        twins(v, w),
        v.desk.counted(),
    ensures
        kin(v.reconciled(infos), w.reconciled(infos)),
{
    let v1 = met(v, infos).0;
    let w1 = met(w, infos).0;
    let retile = met(w, infos).1;
    lemma_met_twins(v, w, infos);
    let orphans = w.orphans(infos);
    assert(v1.pooled() =~= w1.pooled());
    let stranded = w1.stranded(orphans);
    assert(v1.stranded(orphans) == stranded);
    let n = stranded.len() as int;
    let v2 = v1.sheltered(v1.shelters(infos), stranded, n);
    let w2 = w1.sheltered(w1.shelters(infos), stranded, n);
    lemma_sheltered_kin(v1, w1, w1.shelters(infos), stranded, n);
    lemma_sheltered_grows(v1, w1.shelters(infos), stranded, n);
    lemma_retiled_each_kin(v2, w2, retile);
    let v3 = v2.retiled_each(retile);
    let w3 = w2.retiled_each(retile);
    if parted(v3, w3) {
        lemma_said(v3.desk, Act::SyncBars(v3.bar_specs()));
        lemma_said(w3.desk, Act::SyncBars(w3.bar_specs()));
        lemma_parted(v3, w3, v.reconciled(infos), w.reconciled(infos));
    }
}

// ---- events, new windows and the picker ----------------------------------------

proof fn lemma_rule_followed_grows(w: World, id: WindowId, action: Option<RuleAction>)
    ensures
        w.desk.grows_to(w.rule_followed(id, action).desk),
{
    lemma_float_grows(w);
}

proof fn lemma_rule_followed_kin(v: World, w: World, id: WindowId, action: Option<RuleAction>)
    requires
        twins(v, w),
        v.desk.counted(),
    ensures
        kin(v.rule_followed(id, action), w.rule_followed(id, action)),
{
    lemma_float_kin(v, w);
}

/// A window that can be managed, before what its rule says is done to it.
spec fn placed(w: World, id: WindowId, f: WindowFacts, action: Option<RuleAction>) -> Outcome {
    match action {
        Some(RuleAction::Workspace(n)) => if w.knows(WorkspaceId(n)) {
            w.managed_on(id, f.title, f.class, f.exe, WorkspaceId(n))
        } else {
            w.managed(id, f.title, f.class, f.exe)
        },
        _ => w.managed(id, f.title, f.class, f.exe),
    }
}

proof fn lemma_admitted_kin(v: World, w: World, id: WindowId, f: WindowFacts, all: Seq<Rule>)
    requires
        twins(v, w),
        v.desk.counted(),
    ensures
        twins(v.admitted(id, f, all).0, w.admitted(id, f, all).0) && v.admitted(id, f, all).1
            == w.admitted(id, f, all).1 || parted(
            v.admitted(id, f, all).0,
            w.admitted(id, f, all).0,
        ),
{
    if filter::manageable(f, all) {
        let action = rules::action_for(all, f.exe@, f.class@, f.title@);
        lemma_managed_kin(v, w, id, f.title, f.class, f.exe);
        lemma_managed_grows(v, id, f.title, f.class, f.exe);
        if let Some(RuleAction::Workspace(n)) = action {
            lemma_managed_on_kin(v, w, id, f.title, f.class, f.exe, WorkspaceId(n));
            lemma_managed_on_grows(v, id, f.title, f.class, f.exe, WorkspaceId(n));
        }
        let v1 = placed(v, id, f, action);
        let w1 = placed(w, id, f, action);
        assert(kin_outcomes(v1, w1));
        assert(v.desk.grows_to(v1.0.desk));
        if twins(v1.0, w1.0) && v1.1 == w1.1 {
            lemma_rule_followed_kin(v1.0, w1.0, id, action);
        } else {
            lemma_rule_followed_grows(v1.0, id, action);
            lemma_rule_followed_grows(w1.0, id, action);
            lemma_parted(v1.0, w1.0, v.admitted(id, f, all).0, w.admitted(id, f, all).0);
        }
    }
}

proof fn lemma_peek_sources_twins(v: World, w: World, ws: WorkspaceId)
    requires
        twins(v, w),
    ensures
        v.peek_sources(ws) == w.peek_sources(ws),
{
    assert(v.is_managed() =~= w.is_managed());
    assert(v.peek_sources(ws) =~= w.peek_sources(ws));
}

proof fn lemma_peek_confirmed_kin(v: World, w: World, pick: Option<WindowId>)
    requires
        twins(v, w),
        v.desk.counted(),
    ensures
        kin_outcomes(v.peek_confirmed(pick), w.peek_confirmed(pick)),
{
    if let Some(id) = pick {
        let v1 = v.say(Act::PeekDismiss);
        let w1 = w.say(Act::PeekDismiss);
        lemma_said(v.desk, Act::PeekDismiss);
        if w1.windows.contains_key(id) {
            let ws = w1.windows[id].workspace;
            lemma_foregrounded_twins(v1, w1, id);
            lemma_foregrounded_grows(v1, id);
            let v2 = v1.foregrounded(id).retiled(ws);
            let w2 = w1.foregrounded(id).retiled(ws);
            lemma_retiled_kin(v1.foregrounded(id), w1.foregrounded(id), ws);
            lemma_then_focus_grows(v2, v.peek_confirmed(pick), id);
            lemma_then_focus_grows(w2, w.peek_confirmed(pick), id);
            if parted(v2.0, w2.0) {
                lemma_parted(v2.0, w2.0, v.peek_confirmed(pick).0, w.peek_confirmed(pick).0);
            }
        }
    }
}

// ---- the laws --------------------------------------------------------------------

/// The same state on other answers.
pub open spec fn on(w: World, other: DeskModel) -> World {
    World { desk: other, ..w }
}

/// A command makes the same requests whatever the answers of the desktop are, up
/// to the first request that is answered otherwise. Where none is, its outcome
/// is the same too.
#[verifier::spinoff_prover]
#[verifier::rlimit(80)]
pub proof fn law_command_can_run_again(
    w: World,
    other: DeskModel,
    cmd: Command,
    peek_open: bool,
    pick: Option<WindowId>,
)
    requires
        w.desk.fresh(),
        other.fresh(),
    ensures
        kin_outcomes(
            on(w, other).dispatched(cmd, peek_open, pick),
            w.dispatched(cmd, peek_open, pick),
        ),
{
    let v = on(w, other);
    assert(v.desk.log =~= w.desk.log);
    let v1 = if peek_open && !events::keeps_peek(cmd) {
        v.say(Act::PeekDismiss)
    } else {
        v
    };
    let w1 = if peek_open && !events::keeps_peek(cmd) {
        w.say(Act::PeekDismiss)
    } else {
        w
    };
    lemma_said(v.desk, Act::PeekDismiss);
    assert(twins(v1, w1));
    match cmd {
        Command::FocusDirection(d) => {
            lemma_focused_toward_kin(v1, w1, d);
        },
        Command::MoveDirection(d) => {
            lemma_moved_toward_kin(v1, w1, d);
        },
        Command::Resize { dir, delta_px } => {
            lemma_resized_toward_kin(v1, w1, dir, delta_px as int);
        },
        Command::ToggleFloat => {
            lemma_float_kin(v1, w1);
        },
        Command::ToggleMonocle => {
            lemma_monocle_kin(v1, w1);
        },
        Command::ToggleStack => {
            lemma_stack_kin(v1, w1);
        },
        Command::StackSwallow(d) => {
            lemma_swallowed_kin(v1, w1, d);
        },
        Command::StackPop => {
            lemma_popped_kin(v1, w1);
        },
        Command::FocusStackNext => {
            lemma_stack_cycled_kin(v1, w1, true);
        },
        Command::FocusStackPrev => {
            lemma_stack_cycled_kin(v1, w1, false);
        },
        Command::SwitchWorkspace(ws) => {
            lemma_switched_kin(v1, w1, ws);
        },
        Command::SwitchWorkspaceOnMonitor(ws, m) => {
            lemma_switched_on_kin(v1, w1, ws, m);
        },
        Command::MoveFocusedToWorkspace(ws) => {
            lemma_sent_to_kin(v1, w1, ws);
        },
        Command::FocusMonitor(d) => {
            lemma_monitor_focus_twins(v1, w1, d);
        },
        Command::PeekToggle => {
            if let Some(m) = w1.focused_monitor {
                if let Some(mon) = w1.monitor(m) {
                    lemma_peek_sources_twins(v1, w1, mon.current_workspace);
                }
            }
        },
        Command::PeekConfirm => {
            lemma_peek_confirmed_kin(v1, w1, pick);
        },
        _ => {},
    }
}

/// The same of an event of the desktop.
#[verifier::spinoff_prover]
#[verifier::rlimit(60)]
pub proof fn law_event_can_run_again(
    w: World,
    other: DeskModel,
    all: Seq<Rule>,
    event: WinEvent,
    f: WindowFacts,
)
    requires
        w.desk.fresh(),
        other.fresh(),
    ensures
        ({
            let a = on(w, other).handled(all, event, f);
            let b = w.handled(all, event, f);
            twins(a.0, b.0) && a.1 == b.1 || parted(a.0, b.0)
        }),
{
    let v = on(w, other);
    assert(v.desk.log =~= w.desk.log);
    let id = WindowId(event.window());
    match event {
        WinEvent::Foreground(_) => {
            lemma_foregrounded_twins(v, w, id);
        },
        WinEvent::Shown(_) | WinEvent::Uncloaked(_) => {
            lemma_soft_restored_kin(v, w, id);
            lemma_admitted_kin(v, w, id, f, all);
        },
        WinEvent::Restored(_) => {
            lemma_soft_restored_kin(v, w, id);
        },
        WinEvent::Destroyed(_) => {
            lemma_unmanaged_kin(v, w, id);
        },
        WinEvent::Hidden(_) | WinEvent::Cloaked(_) | WinEvent::Minimized(_) => {
            lemma_soft_removed_kin(v, w, id);
        },
        WinEvent::MoveSizeEnd(_) => {
            lemma_retiled_kin(v, w, w.windows[id].workspace);
        },
        _ => {},
    }
}

/// The same of a window that is there at the start.
pub proof fn law_admission_can_run_again(
    w: World,
    other: DeskModel,
    id: WindowId,
    f: WindowFacts,
    all: Seq<Rule>,
)
    requires
        w.desk.fresh(),
        other.fresh(),
    ensures
        ({
            let a = on(w, other).admitted(id, f, all);
            let b = w.admitted(id, f, all);
            twins(a.0, b.0) && a.1 == b.1 || parted(a.0, b.0)
        }),
{
    assert(on(w, other).desk.log =~= w.desk.log);
    lemma_admitted_kin(on(w, other), w, id, f, all);
}

/// The same of a change of the monitors.
pub proof fn law_reconciling_can_run_again(w: World, other: DeskModel, infos: Seq<MonitorInfo>)
    requires
        w.desk.fresh(),
        other.fresh(),
    ensures
        kin(on(w, other).reconciled(infos), w.reconciled(infos)),
{
    assert(on(w, other).desk.log =~= w.desk.log);
    lemma_reconciled_kin(on(w, other), w, infos);
}

/// The same of windows that have died, and of retiling.
pub proof fn law_upkeep_can_run_again(
    w: World,
    other: DeskModel,
    dead: Seq<WindowId>,
    all: Seq<WorkspaceId>,
)
    requires
        w.desk.fresh(),
        other.fresh(),
    ensures
        kin(on(w, other).unmanaged_each(dead), w.unmanaged_each(dead)),
        kin(on(w, other).retiled_each(all), w.retiled_each(all)),
{
    assert(on(w, other).desk.log =~= w.desk.log);
    lemma_unmanaged_each_kin(on(w, other), w, dead);
    lemma_retiled_each_kin(on(w, other), w, all);
}

} // verus!
