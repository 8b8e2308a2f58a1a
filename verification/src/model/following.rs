//! What the desktop's events do to the windows.
//!
//! The laws go from the numbers that the operating system reports to where a
//! window is afterwards.

use crate::desk::Act;
use crate::filter;
use crate::filter::WindowFacts;
use crate::ids::{WindowId, WorkspaceId};
use crate::model;
use crate::model::acting;
use crate::model::laws;
use crate::model::replay;
use crate::model::{Visit, World};
use crate::rules;
use crate::rules::{Rule, RuleAction};
use crate::tree;
use crate::window::WindowMode;
use crate::winevent;
use crate::winevent::WinEvent;
use vstd::prelude::*;

verus! {

/// A window that leaves the layout stays managed and leaves the others where they are.
proof fn lemma_leaving(w: World, id: WindowId)
    requires
        w.wf(),
        w.windows.contains_key(id),
        w.knows(w.windows[id].workspace),
    ensures
        ({
            let ws = w.windows[id].workspace;
            let away = w.soft_removed(id).0;
            &&& away.wf()
            &&& away.paused == w.paused
            &&& away.windows.contains_key(id) && away.windows[id].workspace == ws
            &&& away.workspaces.len() == w.workspaces.len()
            &&& forall|x: WindowId| #[trigger]
                away.ws(ws).has(x) <==> w.ws(ws).has(x) && x != id
            &&& w.focused_window != Some(id) ==> away.focused_window == w.focused_window
            &&& w.focused_window == Some(id) && w.ws(ws).has(id) ==> away.focused_window
                == w.ws(ws).detached(id).tree.focus
        }),
{
    laws::law_soft_restore_undoes_soft_remove(w, id);
    let ws = w.windows[id].workspace;
    let m = w.workspaces[ws.0 - 1];
    assert(m.tree.wf() && laws::places_once(m));
    laws::lemma_detached_model(m, id);
    if w.takes_part(id) {
        let out = w.detached(ws, id);
        let handed = if out.focused_window == Some(id) {
            out.raising(out.tree_focus(ws))
        } else {
            out
        };
        laws::law_retile_only_notes(handed, ws);
        assert(w.soft_removed(id).0.ws(ws) == m.detached(id));
    }
}

/// A window that returns takes part again, beside those that do.
proof fn lemma_returning(w: World, id: WindowId)
    requires
        w.wf(),
        w.windows.contains_key(id),
        w.knows(w.windows[id].workspace),
    ensures
        ({
            let ws = w.windows[id].workspace;
            let back = w.soft_restored(id).0;
            &&& back.windows.contains_key(id) && back.windows[id].workspace == ws
            &&& forall|x: WindowId| #[trigger]
                back.ws(ws).has(x) <==> w.ws(ws).has(x) || x == id
            &&& back.focused_window == w.focused_window
        }),
{
    let ws = w.windows[id].workspace;
    let m = w.workspaces[ws.0 - 1];
    assert(m.tree.wf());
    let area = w.work_area_or(ws, model::nowhere());
    tree::law_insert_adds_the_window(m.tree, id, area);
    let placed = if m.has(id) {
        w
    } else {
        w.set_tree(ws, m.tree.inserted(id, area))
    };
    laws::law_retile_only_notes(placed, ws);
    let back = w.soft_restored(id).0;
    assert(back.ws(ws) == placed.ws(ws));
    assert(placed.windows.contains_key(id));
    assert forall|x: WindowId| #[trigger] back.ws(ws).has(x) <==> w.ws(ws).has(x) || x == id by {
        assert(placed.ws(ws).floating == m.floating);
        assert(placed.ws(ws).floats(x) == m.floats(x));
    }
}

/// A window that is minimised is out of the layout but still managed, and no other
/// window of its workspace is touched. Once it is restored it is in the layout again.
#[verifier::rlimit(40)]
pub proof fn law_minimised_window_leaves_and_returns(
    w: World,
    all: Seq<Rule>,
    f: WindowFacts,
    h: isize,
)
    requires
        w.wf(),
        !w.paused,
        w.windows.contains_key(WindowId(h)),
        w.knows(w.windows[WindowId(h)].workspace),
    ensures
        ({
            let id = WindowId(h);
            let ws = w.windows[id].workspace;
            let away = w.handled(all, winevent::meaning(0x0016, h)->0, f).0;
            let back = away.handled(all, winevent::meaning(0x0017, h)->0, f).0;
            &&& away.windows.contains_key(id)
            &&& !away.ws(ws).has(id)
            &&& forall|x: WindowId| x != id ==> (#[trigger] away.ws(ws).has(x) <==> w.ws(ws).has(x))
            &&& back.ws(ws).has(id)
            &&& forall|x: WindowId| x != id ==> (#[trigger] back.ws(ws).has(x) <==> w.ws(ws).has(x))
        }),
{
    let away = w.soft_removed(WindowId(h)).0;
    lemma_leaving(w, WindowId(h));
    lemma_returning(away, WindowId(h));
    assert(w.handled(all, winevent::meaning(0x0016, h)->0, f).0 == away);
    assert(away.handled(all, winevent::meaning(0x0017, h)->0, f).0 == away.soft_restored(
        WindowId(h),
    ).0);
}

/// A window that is cloaked is out of the layout but still managed, and in it again
/// once it is uncloaked.
#[verifier::rlimit(40)]
pub proof fn law_cloaked_window_leaves_and_returns(
    w: World,
    all: Seq<Rule>,
    f: WindowFacts,
    h: isize,
)
    requires
        w.wf(),
        !w.paused,
        w.windows.contains_key(WindowId(h)),
        w.knows(w.windows[WindowId(h)].workspace),
    ensures
        ({
            let id = WindowId(h);
            let ws = w.windows[id].workspace;
            let away = w.handled(all, winevent::meaning(0x8017, h)->0, f).0;
            let back = away.handled(all, winevent::meaning(0x8018, h)->0, f).0;
            &&& away.windows.contains_key(id)
            &&& !away.ws(ws).has(id)
            &&& forall|x: WindowId| x != id ==> (#[trigger] away.ws(ws).has(x) <==> w.ws(ws).has(x))
            &&& back.ws(ws).has(id)
            &&& forall|x: WindowId| x != id ==> (#[trigger] back.ws(ws).has(x) <==> w.ws(ws).has(x))
        }),
{
    let away = w.soft_removed(WindowId(h)).0;
    lemma_leaving(w, WindowId(h));
    lemma_returning(away, WindowId(h));
    assert(w.handled(all, winevent::meaning(0x8017, h)->0, f).0 == away);
    assert(away.handled(all, winevent::meaning(0x8018, h)->0, f).0 == away.soft_restored(
        WindowId(h),
    ).0);
}

/// A window that hides is out of the layout, and one that is shown is in it. What the
/// window manager has hidden itself is left alone.
pub proof fn law_hidden_window_leaves_and_shown_one_returns(
    w: World,
    all: Seq<Rule>,
    f: WindowFacts,
    h: isize,
)
    requires
        w.wf(),
        !w.paused,
        w.windows.contains_key(WindowId(h)),
        w.knows(w.windows[WindowId(h)].workspace),
    ensures
        ({
            let id = WindowId(h);
            let ws = w.windows[id].workspace;
            let away = w.handled(all, winevent::meaning(0x8003, h)->0, f).0;
            let back = w.handled(all, winevent::meaning(0x8002, h)->0, f).0;
            &&& w.windows[id].hidden_by_us ==> away == w && back == w
            &&& !w.windows[id].hidden_by_us ==> {
                &&& away.windows.contains_key(id)
                &&& !away.ws(ws).has(id)
                &&& back.ws(ws).has(id)
                &&& forall|x: WindowId|
                    x != id ==> (#[trigger] away.ws(ws).has(x) <==> w.ws(ws).has(x))
                &&& forall|x: WindowId|
                    x != id ==> (#[trigger] back.ws(ws).has(x) <==> w.ws(ws).has(x))
            }
        }),
{
    lemma_leaving(w, WindowId(h));
    lemma_returning(w, WindowId(h));
}

/// A window that is closed is forgotten: it is neither managed nor on any workspace.
pub proof fn law_closed_window_is_forgotten(w: World, all: Seq<Rule>, f: WindowFacts, h: isize)
    requires
        w.wf(),
        !w.paused,
    ensures
        ({
            let after = w.handled(all, winevent::meaning(0x8001, h)->0, f).0;
            &&& after.wf()
            &&& !after.windows.contains_key(WindowId(h))
            &&& forall|i: int|
                0 <= i < after.workspaces.len() ==> !(#[trigger] after.workspaces[i]).has(
                    WindowId(h),
                )
            &&& forall|x: WindowId|
                x != WindowId(h) ==> (#[trigger] after.windows.contains_key(x)
                    <==> w.windows.contains_key(x))
        }),
{
    let id = WindowId(h);
    let after = w.handled(all, winevent::meaning(0x8001, h)->0, f).0;
    laws::law_unmanage_forgets(w, id);
    assert forall|i: int| 0 <= i < after.workspaces.len() implies !(
    #[trigger] after.workspaces[i]).has(id) by {
        if after.workspaces[i].has(id) {
            assert(after.windows.contains_key(id));
        }
    }
    if w.windows.contains_key(id) {
        let ws = w.windows[id].workspace;
        let gone = World { windows: w.windows.remove(id), ..w }.detached(ws, id);
        let next = if gone.focused_window == Some(id) {
            gone.tree_focus(ws)
        } else {
            gone.focused_window
        };
        laws::law_retile_only_notes(World { focused_window: next, ..gone }, ws);
    }
}

/// The focus follows the window in the foreground, also while tiling is paused, and
/// the monitor that shows the window comes along.
pub proof fn law_foreground_is_followed(w: World, all: Seq<Rule>, f: WindowFacts, h: isize)
    requires
        w.wf(),
        w.windows.contains_key(WindowId(h)),
    ensures
        ({
            let id = WindowId(h);
            let ws = w.windows[id].workspace;
            let after = w.handled(all, winevent::meaning(0x0003, h)->0, f).0;
            &&& after.focused_window == Some(id)
            &&& w.shown_on(ws) matches Some(m) ==> after.focused_monitor == Some(m)
            &&& w.knows(ws) && w.ws(ws).tree.holds(id) ==> after.ws(ws).tree.focus == Some(id)
                && after.ws(ws).tree.tree->0.shows(id)
        }),
{
    let id = WindowId(h);
    let ws = w.windows[id].workspace;
    if w.knows(ws) {
        assert(w.workspaces[ws.0 - 1].tree.wf());
        tree::law_focus_shows_the_window(w.ws(ws).tree, id);
    }
}

/// A title that changes is taken over where it can be read, and nothing else changes.
pub proof fn law_title_is_taken_over(w: World, all: Seq<Rule>, f: WindowFacts, h: isize)
    requires
        !w.paused,
        w.windows.contains_key(WindowId(h)),
    ensures
        ({
            let id = WindowId(h);
            let after = w.handled(all, winevent::meaning(0x800c, h)->0, f).0;
            &&& f.title_known ==> after.windows[id].title == f.title
            &&& !f.title_known ==> after == w
            &&& after.windows[id].workspace == w.windows[id].workspace
            &&& after.windows[id].mode == w.windows[id].mode
            &&& after.windows[id].exe_name == w.windows[id].exe_name
            &&& after.windows[id].class == w.windows[id].class
            &&& forall|x: WindowId|
                x != id && #[trigger] w.windows.contains_key(x) ==> after.windows[x] == w.windows[x]
            &&& after.workspaces == w.workspaces && after.focused_window == w.focused_window
        }),
{
}

/// Where a window was moved or resized by hand, its workspace is tiled again.
pub proof fn law_window_snaps_back(w: World, all: Seq<Rule>, f: WindowFacts, h: isize)
    requires
        !w.paused,
        w.windows.contains_key(WindowId(h)),
        w.shown_on(w.windows[WindowId(h)].workspace) is Some,
    ensures
        w.handled(all, winevent::meaning(0x000b, h)->0, f).0 == w.retiled(
            w.windows[WindowId(h)].workspace,
        ).0,
        w.handled(all, winevent::meaning(0x000a, h)->0, f).0 == w,
{
}

// ---- new windows ------------------------------------------------------------

/// A window that cannot be managed is not taken in, and neither is one that a rule
/// says to ignore.
pub proof fn law_unwanted_window_stays_out(w: World, all: Seq<Rule>, f: WindowFacts, h: isize)
    requires
        !w.paused,
        !w.windows.contains_key(WindowId(h)),
        !f.alive || !f.visible || f.minimized || f.cloaked_by_shell || f.has_owner
            || filter::of_shell(f.class@) || rules::action_for(all, f.exe@, f.class@, f.title@)
            == Some(RuleAction::Ignore),
    ensures
        w.handled(all, winevent::meaning(0x8002, h)->0, f).0 == w,
        w.handled(all, winevent::meaning(0x8018, h)->0, f).0 == w,
        w.handled(all, winevent::meaning(0x0017, h)->0, f).0 == w,
{
}

/// A window that a rule sends to a workspace is managed there, as a tile, and the focus
/// stays where it was. Where no monitor shows the workspace, the window is hidden.
pub proof fn law_rule_sends_the_window(
    w: World,
    all: Seq<Rule>,
    f: WindowFacts,
    id: WindowId,
    n: u32,
)
    requires
        w.wf(),
        !w.windows.contains_key(id),
        filter::manageable(f, all),
        rules::action_for(all, f.exe@, f.class@, f.title@) == Some(RuleAction::Workspace(n)),
        w.knows(WorkspaceId(n)),
    ensures
        ({
            let ws = WorkspaceId(n);
            let after = w.admitted(id, f, all).0;
            &&& after.windows.contains_key(id)
            &&& after.windows[id].workspace == ws
            &&& after.windows[id].mode == WindowMode::Tiled
            &&& after.windows[id].title == f.title
            &&& after.windows[id].class == f.class
            &&& after.windows[id].exe_name == f.exe
            &&& after.ws(ws).tree.holds(id)
            &&& after.focused_window == w.focused_window
            &&& after.focused_monitor == w.focused_monitor
            &&& w.shown_on(ws) is None ==> after.windows[id].hidden_by_us
        }),
{
    let ws = WorkspaceId(n);
    let there = w.say(Act::DisableTransitions(id)).adopted(
        id,
        f.title,
        f.class,
        f.exe,
        ws,
        model::default_screen(),
    );
    assert(w.workspaces[ws.0 - 1].tree.wf());
    let area = w.work_area_or(ws, model::default_screen());
    tree::law_insert_adds_the_window(w.ws(ws).tree, id, area);
    assert(there.windows.contains_key(id));
    assert(there.ws(ws).tree.holds(id));
    if there.shown_on(ws) is Some {
        laws::law_retile_only_notes(there, ws);
        assert(w.managed_on(id, f.title, f.class, f.exe, ws).0.windows.contains_key(id));
    } else {
        let hidden = there.visit(id, Visit::Hide);
        assert(hidden.windows.contains_key(id));
    }
}

/// A new window without a rule of its own is managed on the workspace of the monitor
/// that it appears on, as a tile that has the focus.
pub proof fn law_new_window_gets_a_tile(
    w: World,
    all: Seq<Rule>,
    f: WindowFacts,
    id: WindowId,
    ws: WorkspaceId,
)
    requires
        w.wf(),
        !w.windows.contains_key(id),
        filter::manageable(f, all),
        rules::action_for(all, f.exe@, f.class@, f.title@) is None,
        w.host_of(w.desk.answer()) == Some(ws),
        w.knows(ws),
    ensures
        ({
            let after = w.admitted(id, f, all).0;
            &&& after.windows.contains_key(id)
            &&& after.windows[id].workspace == ws
            &&& after.windows[id].mode == WindowMode::Tiled
            &&& after.windows[id].title == f.title
            &&& after.windows[id].class == f.class
            &&& after.windows[id].exe_name == f.exe
            &&& after.ws(ws).tree.holds(id)
            &&& after.ws(ws).tree.focus == Some(id)
            &&& after.focused_window == Some(id)
        }),
{
    let asked = World { desk: w.desk.asked(id), ..w };
    replay::lemma_host_twins(w, asked, w.desk.answer());
    let there = asked.say(Act::DisableTransitions(id)).adopted(
        id,
        f.title,
        f.class,
        f.exe,
        ws,
        model::nowhere(),
    );
    assert(w.workspaces[ws.0 - 1].tree.wf());
    laws::lemma_nowhere_else(w, id);
    assert(!w.workspaces[ws.0 - 1].has(id));
    let area = w.work_area_or(ws, model::nowhere());
    tree::law_insert_adds_the_window(w.ws(ws).tree, id, area);
    let focused = there.focusing(Some(id));
    assert(focused.windows.contains_key(id));
    laws::law_retile_only_notes(focused, ws);
    assert(focused.retiled(ws).0.windows.contains_key(id));
}

/// A rule that floats windows floats a new one that has the focus, where the desktop
/// says it is; one that tiles windows tiles it again.
pub proof fn law_rule_floats_the_window(w: World, id: WindowId)
    requires
        w.wf(),
        w.focused_window == Some(id),
        w.windows.contains_key(id),
        w.knows(w.windows[id].workspace),
        w.ws(w.windows[id].workspace).has(id),
    ensures
        w.windows[id].mode == WindowMode::Tiled ==> {
            let after = w.rule_followed(id, Some(RuleAction::Float));
            let ws = w.windows[id].workspace;
            &&& after.windows[id].mode == WindowMode::Floating
            &&& after.ws(ws).floats(id) && !after.ws(ws).tree.holds(id)
            &&& w.rule_followed(id, Some(RuleAction::Tile)) == w
        },
        w.ws(w.windows[id].workspace).floats(id) ==> {
            let after = w.rule_followed(id, Some(RuleAction::Tile));
            let ws = w.windows[id].workspace;
            &&& after.windows[id].mode == WindowMode::Tiled
            &&& !after.ws(ws).floats(id) && after.ws(ws).tree.holds(id)
        },
        w.rule_followed(id, None) == w,
{
    let ws = w.windows[id].workspace;
    assert(w.workspaces[ws.0 - 1].has(id));
    if w.windows[id].mode == WindowMode::Tiled {
        acting::law_floating_window_stays_where_it_is(w, None, id);
        let after = w.float_toggled().0;
        let n = after.ws(ws).floating.len() - 1;
        assert(after.ws(ws).floating[n].0 == id);
    }
    if w.ws(ws).floats(id) {
        assert(w.workspaces[ws.0 - 1].floats(id));
        acting::law_floating_window_is_tiled_again(w, None, id);
    }
}

/// Where the window that had the focus is closed, the one that its workspace has the focus
/// on gets it; otherwise the focus stays where it is.
pub proof fn law_closed_window_hands_the_focus_on(
    w: World,
    all: Seq<Rule>,
    f: WindowFacts,
    h: isize,
)
    requires
        w.wf(),
        !w.paused,
        w.windows.contains_key(WindowId(h)),
        w.knows(w.windows[WindowId(h)].workspace),
    ensures
        ({
            let id = WindowId(h);
            let ws = w.windows[id].workspace;
            let after = w.handled(all, winevent::meaning(0x8001, h)->0, f).0;
            &&& w.focused_window == Some(id) ==> after.focused_window == after.ws(ws).tree.focus
            &&& w.focused_window != Some(id) ==> after.focused_window == w.focused_window
        }),
{
    let id = WindowId(h);
    let ws = w.windows[id].workspace;
    let gone = World { windows: w.windows.remove(id), ..w }.detached(ws, id);
    let next = if gone.focused_window == Some(id) {
        gone.tree_focus(ws)
    } else {
        gone.focused_window
    };
    laws::law_retile_only_notes(World { focused_window: next, ..gone }, ws);
}

/// The status bars are drawn again where a window comes, goes or gets the focus, and where
/// the title of the focused one changes; not where windows are only moved about, nor
/// where a window is hidden or shown by the window manager itself.
pub proof fn law_bars_are_drawn_again(
    w: World,
    all: Seq<Rule>,
    f: WindowFacts,
    event: WinEvent,
)
    ensures
        ({
            let id = WindowId(event.window());
            let again = w.handled(all, event, f).1;
            let own = w.windows.contains_key(id) && w.windows[id].hidden_by_us;
            &&& w.paused ==> (again <==> event is Foreground)
            &&& !w.paused ==> {
                &&& event is Foreground || event is Destroyed || event is Uncloaked ==> again
                &&& event is Shown ==> (again <==> !own)
                &&& event is Hidden ==> (again <==> !own && w.windows.contains_key(id))
                &&& event is Cloaked || event is Minimized || event is Restored ==> (again
                    <==> w.windows.contains_key(id))
                &&& event is MoveSizeStart || event is MoveSizeEnd || event is LocationChanged
                    ==> !again
                &&& event is NameChanged ==> (again <==> w.focused_window == Some(id))
            }
        }),
{
}

/// Where a window that has the focus leaves the layout, the window that its workspace has
/// the focus on then gets the focus and comes to the foreground.
pub proof fn law_leaving_window_hands_the_focus_on(w: World, id: WindowId)
    requires
        w.wf(),
        w.windows.contains_key(id),
        w.knows(w.windows[id].workspace),
        w.ws(w.windows[id].workspace).has(id),
    ensures
        ({
            let ws = w.windows[id].workspace;
            let after = w.soft_removed(id).0;
            &&& w.focused_window == Some(id) ==> after.focused_window == after.ws(ws).tree.focus
            &&& w.focused_window != Some(id) ==> after.focused_window == w.focused_window
            &&& after.windows.contains_key(id)
        }),
{
    let ws = w.windows[id].workspace;
    assert(w.workspaces[ws.0 - 1].has(id));
    let out = w.detached(ws, id);
    let handed = if out.focused_window == Some(id) {
        out.raising(out.tree_focus(ws))
    } else {
        out
    };
    laws::law_retile_only_notes(handed, ws);
    assert(handed.retiled(ws).0.windows.contains_key(id) <==> handed.windows.contains_key(id));
}

} // verus!
