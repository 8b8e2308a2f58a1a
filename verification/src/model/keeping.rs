//! What every command and every event keeps.

use crate::command::Command;
use crate::desk::Act;
use crate::filter::WindowFacts;
use crate::ids::{MonitorId, WindowId, WorkspaceId};
use crate::model::events;
use crate::model::laws;
use crate::model::moving;
use crate::model::World;
use crate::rect::Direction;
use crate::rules;
use crate::rules::{Rule, RuleAction};
use crate::window::WindowMode;
use crate::winevent::WinEvent;
use vstd::prelude::*;

verus! {

/// A request keeps the invariant.
pub proof fn lemma_said(w: World, act: Act)
    requires
        w.wf(),
    ensures
        w.say(act).wf(),
{
    assert(w.only_notes(w.say(act)));
    laws::lemma_notes_hold(w, w.say(act));
}

/// Another title of a window keeps the invariant.
proof fn lemma_retitled(w: World, id: WindowId, title: String)
    requires
        w.wf(),
    ensures
        w.retitled(id, title).wf(),
{
    let after = w.retitled(id, title);
    assert forall|i: int, k: WindowId|
        0 <= i < after.workspaces.len() && #[trigger] after.workspaces[i].has(
            k,
        ) implies after.windows.contains_key(k) && after.windows[k].workspace.0 == i + 1 by {
        assert(w.workspaces[i].has(k));
    }
    assert forall|i: int, k: WindowId|
        0 <= i < after.workspaces.len() && #[trigger] after.workspaces[i].floats(
            k,
        ) implies after.windows[k].mode == WindowMode::Floating by {
        assert(w.workspaces[i].floats(k));
        assert(w.workspaces[i].has(k));
    }
    assert forall|i: int| 0 <= i < after.workspaces.len() implies laws::places_once(
        #[trigger] after.workspaces[i],
    ) by {
        assert(laws::places_once(w.workspaces[i]));
    }
    assert forall|k: WindowId| #[trigger] after.windows.contains_key(k) implies after.windows[k].id
        == k by {
        assert(w.windows.contains_key(k));
    }
    assert forall|i: int| 0 <= i < after.workspaces.len() implies ((
    #[trigger] after.workspaces[i]).active_monitor matches Some(m) ==> after.monitor(m) is Some
        && after.monitor(m)->0.current_workspace.0 == i + 1) by {
        assert(w.workspaces[i] == after.workspaces[i]);
        assert(forall|m: MonitorId| after.monitor(m) == w.monitor(m));
    }
}

/// Pausing keeps the invariant.
proof fn lemma_paused(w: World, paused: bool)
    requires
        w.wf(),
    ensures
        (World { paused, ..w }).wf(),
{
    let after = World { paused, ..w };
    assert(forall|m: MonitorId| after.monitor(m) == w.monitor(m));
    assert forall|i: int| 0 <= i < after.workspaces.len() implies ((
    #[trigger] after.workspaces[i]).active_monitor matches Some(m) ==> after.monitor(m) is Some
        && after.monitor(m)->0.current_workspace.0 == i + 1) by {
        assert(w.workspaces[i] == after.workspaces[i]);
    }
}

/// Admitting a window keeps the invariant.
pub proof fn law_admission_keeps_order(w: World, id: WindowId, f: WindowFacts, all: Seq<Rule>)
    requires
        w.wf(),
    ensures
        w.admitted(id, f, all).0.wf(),
{
    let action = rules::action_for(all, f.exe@, f.class@, f.title@);
    laws::law_manage_keeps_order(w, id, f.title, f.class, f.exe);
    match action {
        Some(RuleAction::Workspace(n)) => {
            laws::law_routing_keeps_the_focus(w, id, f.title, f.class, f.exe, WorkspaceId(n));
        },
        _ => {
            let done = w.managed(id, f.title, f.class, f.exe).0;
            laws::law_float_toggle_keeps_order(done);
        },
    }
}

/// Following an event of the desktop keeps the invariant.
pub proof fn law_events_keep_order(w: World, all: Seq<Rule>, event: WinEvent, f: WindowFacts)
    requires
        w.wf(),
    ensures
        w.handled(all, event, f).0.wf(),
{
    let id = WindowId(event.window());
    match event {
        WinEvent::Shown(_) | WinEvent::Uncloaked(_) | WinEvent::Restored(_) => {
            laws::law_soft_restore_undoes_soft_remove(w, id);
            law_admission_keeps_order(w, id, f, all);
        },
        WinEvent::Destroyed(_) => {
            laws::law_unmanage_forgets(w, id);
        },
        WinEvent::Hidden(_) | WinEvent::Cloaked(_) | WinEvent::Minimized(_) => {
            laws::law_soft_restore_undoes_soft_remove(w, id);
        },
        WinEvent::Foreground(_) => {
            laws::law_foreground_keeps_order(w, id);
        },
        WinEvent::MoveSizeEnd(_) => {
            if w.windows.contains_key(id) {
                let ws = w.windows[id].workspace;
                laws::law_retile_only_notes(w, ws);
                laws::lemma_notes_hold(w, w.retiled(ws).0);
            }
        },
        WinEvent::NameChanged(_) => {
            lemma_retitled(w, id, f.title);
        },
        WinEvent::MoveSizeStart(_) | WinEvent::LocationChanged(_) => {},
    }
}

/// While the window manager is paused, no event changes the layout.
pub proof fn law_paused_keeps_the_layout(w: World, all: Seq<Rule>, event: WinEvent, f: WindowFacts)
    requires
        w.paused,
    ensures
        ({
            let after = w.handled(all, event, f).0;
            &&& after.monitors == w.monitors
            &&& after.windows == w.windows
            &&& after.workspaces.len() == w.workspaces.len()
            &&& forall|i: int|
                0 <= i < w.workspaces.len() ==> {
                    &&& (#[trigger] after.workspaces[i]).floating == w.workspaces[i].floating
                    &&& after.workspaces[i].active_monitor == w.workspaces[i].active_monitor
                }
            &&& !(event is Foreground) ==> after == w
        }),
{
}

/// Confirming a pick keeps the invariant.
proof fn lemma_confirmed(w: World, pick: Option<WindowId>)
    requires
        w.wf(),
    ensures
        w.peek_confirmed(pick).0.wf(),
{
    match pick {
        None => {},
        Some(id) => {
            lemma_said(w, Act::PeekDismiss);
            let closed = w.say(Act::PeekDismiss);
            if closed.windows.contains_key(id) {
                laws::law_foreground_keeps_order(closed, id);
                let front = closed.foregrounded(id);
                let ws = closed.windows[id].workspace;
                laws::law_retile_only_notes(front, ws);
                laws::lemma_notes_hold(front, front.retiled(ws).0);
                lemma_said(front.retiled(ws).0, Act::Focus(id));
            }
        },
    }
}

/// Opening or closing the picker keeps the invariant.
proof fn lemma_toggled(w: World, open: bool)
    requires
        w.wf(),
    ensures
        w.peek_toggled(open).0.wf(),
{
    lemma_said(w, Act::PeekDismiss);
    if w.peek_toggled(open).1 is Ok && !open {
        let mon = w.monitor(w.focused_monitor->0)->0;
        lemma_said(
            w,
            Act::PeekOpen(
                crate::desk::PeekMonitor { bounds: mon.info.bounds },
                w.peek_sources(mon.current_workspace),
                w.focused_window,
            ),
        );
    }
}

/// Pausing and resuming keep the invariant.
proof fn lemma_pause_toggled(w: World)
    requires
        w.wf(),
    ensures
        w.pause_toggled().wf(),
{
    let paused = !w.paused;
    lemma_paused(w, paused);
    let p = World { paused, ..w };
    lemma_said(p, Act::PauseChanged(paused));
    let told = p.say(Act::PauseChanged(paused));
    let word = if paused {
        "Paused"@
    } else {
        "Resumed"@
    };
    lemma_said(told, Act::Notify(crate::toast::ToastLevel::Info, word));
}

/// Every command keeps the invariant.
#[verifier::spinoff_prover]
#[verifier::rlimit(60)]
pub proof fn law_every_command_keeps_order(
    world: World,
    cmd: Command,
    peek_open: bool,
    pick: Option<WindowId>,
)
    requires
        world.wf(),
    ensures
        world.dispatched(cmd, peek_open, pick).0.wf(),
{
    lemma_said(world, Act::PeekDismiss);
    let w = if peek_open && !events::keeps_peek(cmd) {
        world.say(Act::PeekDismiss)
    } else {
        world
    };
    match cmd {
        Command::FocusDirection(d) => {
            laws::law_commands_keep_order(w, d, 0, true);
            lemma_said(w, Act::PeekCycle(events::peek_step(d)));
        },
        Command::MoveDirection(d) => {
            laws::law_commands_keep_order(w, d, 0, true);
        },
        Command::Resize { dir, delta_px } => {
            laws::law_commands_keep_order(w, dir, delta_px as int, true);
        },
        Command::ToggleFloat => {
            laws::law_float_toggle_keeps_order(w);
        },
        Command::ToggleMonocle | Command::ToggleStack | Command::ToggleLayoutMode => {
            laws::law_commands_keep_order(w, Direction::Left, 0, true);
        },
        Command::StackSwallow(d) => {
            laws::law_commands_keep_order(w, d, 0, true);
        },
        Command::StackPop | Command::FocusStackNext => {
            laws::law_commands_keep_order(w, Direction::Left, 0, true);
        },
        Command::FocusStackPrev => {
            laws::law_commands_keep_order(w, Direction::Left, 0, false);
        },
        Command::CloseFocused => {
            if w.focused_window is Some {
                lemma_said(w, Act::Close(w.focused_window->0));
            }
        },
        Command::SwitchWorkspace(ws) => {
            moving::law_switch_shows_the_workspace(w, ws);
        },
        Command::SwitchWorkspaceOnMonitor(ws, m) => {
            moving::law_click_switches_that_monitor(w, ws, m);
        },
        Command::MoveFocusedToWorkspace(ws) => {
            moving::law_send_follows_the_window(w, ws);
        },
        Command::FocusMonitor(d) => {
            moving::law_monitor_focus_keeps_order(w, d);
        },
        Command::TogglePause => {
            lemma_pause_toggled(w);
        },
        Command::Notify(level, said) => {
            lemma_said(w, Act::Notify(level, said@));
        },
        Command::PeekToggle => {
            lemma_toggled(w, peek_open);
        },
        Command::PeekConfirm => {
            lemma_confirmed(w, pick);
        },
        Command::ReloadConfig | Command::Reap | Command::Quit | Command::ConfigChanged => {},
    }
}

/// Pausing twice leaves the window manager as it was, but for the requests.
pub proof fn law_pause_undoes_itself(w: World)
    ensures
        w.pause_toggled().paused == !w.paused,
        w.pause_toggled().pause_toggled() == (World {
            desk: w.pause_toggled().pause_toggled().desk,
            ..w
        }),
{
}

/// Reaping keeps the invariant; the dead windows are forgotten, and no other
/// window is.
pub proof fn law_reap_forgets_the_dead(w: World, dead: Seq<WindowId>, id: WindowId)
    requires
        w.wf(),
    ensures
        w.unmanaged_each(dead).wf(),
        w.unmanaged_each(dead).windows.contains_key(id) <==> w.windows.contains_key(id)
            && !dead.contains(id),
    decreases dead.len(),
{
    if dead.len() > 0 {
        let mid = w.unmanaged_each(dead.drop_last());
        law_reap_forgets_the_dead(w, dead.drop_last(), id);
        laws::law_unmanage_forgets(mid, dead.last());
        lemma_unmanage_spares(mid, dead.last(), id);
        assert(dead =~= dead.drop_last().push(dead.last()));
        assert(dead.contains(id) <==> dead.drop_last().contains(id) || id == dead.last()) by {
            if dead.drop_last().contains(id) {
                let k = choose|k: int| 0 <= k < dead.len() - 1 && dead.drop_last()[k] == id;
                assert(dead[k] == id);
            }
            if dead.contains(id) && id != dead.last() {
                let k = choose|k: int| 0 <= k < dead.len() && dead[k] == id;
                assert(dead.drop_last()[k] == id);
            }
        }
    }
}

/// Forgetting a window forgets no other one.
proof fn lemma_unmanage_spares(w: World, id: WindowId, other: WindowId)
    ensures
        other != id ==> (w.unmanaged(id).0.windows.contains_key(other)
            <==> w.windows.contains_key(other)),
{
    if w.windows.contains_key(id) {
        let ws = w.windows[id].workspace;
        let gone = World { windows: w.windows.remove(id), ..w }.detached(ws, id);
        let next = if gone.focused_window == Some(id) {
            gone.tree_focus(ws)
        } else {
            gone.focused_window
        };
        laws::law_retile_only_notes(World { focused_window: next, ..gone }, ws);
    }
}

} // verus!
