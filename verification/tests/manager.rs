use dwmend::command::Command;
use dwmend::desk::{Desk, Effect};
use dwmend::filter::{WindowFacts, WS_CAPTION};
use dwmend::ids::{MonitorId, WindowId, WorkspaceId};
use dwmend::model::{AlreadyVisibleBehaviour, Gaps, WmError};
use dwmend::monitor::MonitorInfo;
use dwmend::rect::{Direction, Rect};
use dwmend::rules::{Rule, RuleAction};
use dwmend::state::WindowManager;
use dwmend::toast::ToastLevel;
use dwmend::tree::LayoutMode;
use dwmend::window::WindowMode;
use dwmend::winevent::WinEvent;

fn monitor(id: &str, x: i32, primary: bool) -> MonitorInfo {
    MonitorInfo {
        hmonitor: 1,
        stable_id: id.to_string(),
        friendly_name: String::new(),
        bounds: Rect::new(x, 0, 1920, 1080),
        work_area: Rect::new(x, 0, 1920, 1040),
        dpi: 96,
        primary,
    }
}

fn start(ids: &[&str]) -> WindowManager {
    let infos: Vec<MonitorInfo> = ids
        .iter()
        .enumerate()
        .map(|(i, id)| monitor(id, 1920 * i as i32, i == 0))
        .collect();
    let gaps = Gaps { inner: 0, top: 0, right: 0, bottom: 0, left: 0 };
    WindowManager::new(infos, 5, gaps, AlreadyVisibleBehaviour::Swap).unwrap()
}

fn facts(title: &str) -> WindowFacts {
    WindowFacts {
        alive: true,
        visible: true,
        minimized: false,
        cloaked_by_shell: false,
        has_owner: false,
        style: WS_CAPTION,
        ex_style: 0,
        class: "Class".to_string(),
        title: title.to_string(),
        title_known: true,
        exe: "app.exe".to_string(),
    }
}

/// The requests since the last time.
fn effects(wm: &mut WindowManager) -> Vec<Effect> {
    let desk = std::mem::replace(&mut wm.desk, Desk::new(Vec::new(), Vec::new()));
    desk.effects
}

fn take_in(wm: &mut WindowManager, id: isize) {
    // The window is found on the first monitor.
    wm.desk = Desk::new(Vec::new(), vec![Some(Rect::new(100, 100, 400, 300))]);
    assert!(wm.admit_window(&Vec::new(), WindowId(id), &facts("w")));
}

fn run(wm: &mut WindowManager, cmd: Command) -> Result<(), WmError> {
    assert!(wm.can_dispatch(&cmd));
    wm.dispatch(cmd, false, None)
}

fn placed(effects: &[Effect]) -> Vec<(WindowId, Rect)> {
    effects
        .iter()
        .rev()
        .find_map(|e| match e {
            Effect::Place(moves) => Some(moves.clone()),
            _ => None,
        })
        .unwrap_or_default()
}

#[test]
fn nothing_starts_without_a_monitor() {
    let gaps = Gaps::default();
    let r = WindowManager::new(Vec::new(), 5, gaps, AlreadyVisibleBehaviour::Swap);
    assert!(matches!(r, Err(WmError::NoMonitors)));
}

#[test]
fn the_first_monitors_show_the_first_workspaces() {
    let wm = start(&["a", "b"]);
    assert_eq!(wm.monitors[0].current_workspace, WorkspaceId(1));
    assert_eq!(wm.monitors[1].current_workspace, WorkspaceId(2));
    assert_eq!(wm.focused_monitor.as_ref().unwrap().0, "a");
    assert_eq!(wm.focused_workspace_id(), Some(WorkspaceId(1)));
}

#[test]
fn admitted_windows_are_tiled() {
    let mut wm = start(&["a"]);
    take_in(&mut wm, 1);
    take_in(&mut wm, 2);
    let all = effects(&mut wm);
    assert_eq!(
        placed(&all),
        vec![
            (WindowId(1), Rect::new(0, 0, 960, 1040)),
            (WindowId(2), Rect::new(960, 0, 960, 1040)),
        ]
    );
    assert!(all.iter().any(|e| matches!(e, Effect::DisableTransitions(WindowId(2)))));
    assert_eq!(wm.focused_window, Some(WindowId(2)));
    assert_eq!(wm.workspace_of_window(WindowId(1)), Some(WorkspaceId(1)));
    assert_eq!(wm.workspace_of_window(WindowId(9)), None);
}

#[test]
fn rules_route_and_float() {
    let mut wm = start(&["a"]);
    let rules = vec![
        Rule {
            exe: Some("mail.exe".to_string()),
            class_re: None,
            title_re: None,
            action: RuleAction::Workspace(3),
        },
        Rule {
            exe: Some("calc.exe".to_string()),
            class_re: None,
            title_re: None,
            action: RuleAction::Float,
        },
    ];
    let mut mail = facts("inbox");
    mail.exe = "mail.exe".to_string();
    assert!(wm.admit_window(&rules, WindowId(1), &mail));
    assert_eq!(wm.workspace_of_window(WindowId(1)), Some(WorkspaceId(3)));
    let all = effects(&mut wm);
    assert!(all.iter().any(|e| matches!(e, Effect::Hide(WindowId(1)))));
    let mut calc = facts("calc");
    calc.exe = "calc.exe".to_string();
    assert!(wm.admit_window(&rules, WindowId(2), &calc));
    assert_eq!(wm.windows.get(WindowId(2)).unwrap().mode, WindowMode::Floating);
    let mut dead = facts("gone");
    dead.alive = false;
    assert!(!wm.admit_window(&rules, WindowId(3), &dead));
}

#[test]
fn focus_moves_between_tiles() {
    let mut wm = start(&["a"]);
    take_in(&mut wm, 1);
    take_in(&mut wm, 2);
    effects(&mut wm);
    run(&mut wm, Command::FocusDirection(Direction::Left)).unwrap();
    assert_eq!(wm.focused_window, Some(WindowId(1)));
    let all = effects(&mut wm);
    assert!(all.iter().any(|e| matches!(e, Effect::Focus(WindowId(1)))));
    // There is nothing further left.
    run(&mut wm, Command::FocusDirection(Direction::Left)).unwrap();
    assert_eq!(wm.focused_window, Some(WindowId(1)));
}

#[test]
fn moving_swaps_tiles() {
    let mut wm = start(&["a"]);
    take_in(&mut wm, 1);
    take_in(&mut wm, 2);
    effects(&mut wm);
    run(&mut wm, Command::MoveDirection(Direction::Left)).unwrap();
    let moves = placed(&effects(&mut wm));
    assert!(moves.contains(&(WindowId(2), Rect::new(0, 0, 960, 1040))));
    assert!(moves.contains(&(WindowId(1), Rect::new(960, 0, 960, 1040))));
}

#[test]
fn switching_shows_the_other_workspace() {
    let mut wm = start(&["a"]);
    take_in(&mut wm, 1);
    effects(&mut wm);
    run(&mut wm, Command::SwitchWorkspace(WorkspaceId(2))).unwrap();
    assert_eq!(wm.focused_workspace_id(), Some(WorkspaceId(2)));
    assert!(wm.windows.get(WindowId(1)).unwrap().hidden_by_us);
    assert_eq!(wm.focused_window, None);
    let all = effects(&mut wm);
    assert!(all.iter().any(|e| matches!(e, Effect::Hide(WindowId(1)))));
    assert!(all.iter().any(|e| matches!(e, Effect::SinkFocus)));
    run(&mut wm, Command::SwitchWorkspace(WorkspaceId(1))).unwrap();
    assert!(!wm.windows.get(WindowId(1)).unwrap().hidden_by_us);
    assert_eq!(wm.focused_window, Some(WindowId(1)));
    assert!(matches!(
        run(&mut wm, Command::SwitchWorkspace(WorkspaceId(9))),
        Err(WmError::NoSuchWorkspace(WorkspaceId(9)))
    ));
}

#[test]
fn a_visible_workspace_is_swapped() {
    let mut wm = start(&["a", "b"]);
    run(&mut wm, Command::SwitchWorkspace(WorkspaceId(2))).unwrap();
    assert_eq!(wm.monitors[0].current_workspace, WorkspaceId(2));
    assert_eq!(wm.monitors[1].current_workspace, WorkspaceId(1));
    assert_eq!(wm.focused_monitor.as_ref().unwrap().0, "a");
}

#[test]
fn switching_back_restores_what_the_monitors_show() {
    let shown = |wm: &WindowManager| -> Vec<WorkspaceId> {
        wm.monitors.iter().map(|m| m.current_workspace).collect()
    };
    let mut wm = start(&["a", "b", "c"]);
    for (target, then) in [(2, [2, 1, 3]), (3, [3, 2, 1]), (5, [5, 2, 3])] {
        run(&mut wm, Command::SwitchWorkspace(WorkspaceId(target))).unwrap();
        assert_eq!(shown(&wm), then.map(WorkspaceId).to_vec());
        assert_eq!(wm.focused_monitor.as_ref().unwrap().0, "a");
        if target == 5 {
            assert!(wm.workspaces[0].active_monitor.is_none());
        }
        run(&mut wm, Command::SwitchWorkspace(WorkspaceId(1))).unwrap();
        assert_eq!(shown(&wm), vec![WorkspaceId(1), WorkspaceId(2), WorkspaceId(3)]);
    }
    assert!(matches!(
        run(&mut wm, Command::SwitchWorkspace(WorkspaceId(6))),
        Err(WmError::NoSuchWorkspace(WorkspaceId(6)))
    ));
    assert_eq!(shown(&wm), vec![WorkspaceId(1), WorkspaceId(2), WorkspaceId(3)]);
}

#[test]
fn a_window_on_no_monitor_joins_the_focused_workspace() {
    let mut wm = start(&["a", "b"]);
    run(&mut wm, Command::FocusMonitor(Direction::Right)).unwrap();
    assert_eq!(wm.focused_monitor.as_ref().unwrap().0, "b");
    for (id, place) in [(1, Some(Rect::new(9000, 9000, 10, 10))), (2, None)] {
        wm.desk = Desk::new(Vec::new(), vec![place]);
        assert!(wm.admit_window(&Vec::new(), WindowId(id), &facts("w")));
        assert_eq!(wm.workspace_of_window(WindowId(id)), Some(WorkspaceId(2)));
        assert_eq!(wm.focused_window, Some(WindowId(id)));
    }
    // One that is on a monitor joins the workspace there.
    take_in(&mut wm, 3);
    assert_eq!(wm.workspace_of_window(WindowId(3)), Some(WorkspaceId(1)));
}

#[test]
fn a_visible_workspace_can_take_the_focus_along() {
    let mut wm = start(&["a", "b"]);
    wm.on_already_visible = AlreadyVisibleBehaviour::FocusOtherMonitor;
    run(&mut wm, Command::SwitchWorkspace(WorkspaceId(2))).unwrap();
    assert_eq!(wm.monitors[0].current_workspace, WorkspaceId(1));
    assert_eq!(wm.focused_monitor.as_ref().unwrap().0, "b");
}

#[test]
fn a_click_switches_its_own_monitor() {
    let mut wm = start(&["a", "b"]);
    let b = MonitorId("b".to_string());
    run(&mut wm, Command::SwitchWorkspaceOnMonitor(WorkspaceId(4), b)).unwrap();
    assert_eq!(wm.monitors[1].current_workspace, WorkspaceId(4));
    assert_eq!(wm.monitors[0].current_workspace, WorkspaceId(1));
    let c = MonitorId("c".to_string());
    assert!(matches!(
        run(&mut wm, Command::SwitchWorkspaceOnMonitor(WorkspaceId(4), c)),
        Err(WmError::NoSuchMonitor(_))
    ));
}

#[test]
fn sent_windows_are_on_the_other_workspace() {
    let mut wm = start(&["a"]);
    take_in(&mut wm, 1);
    take_in(&mut wm, 2);
    run(&mut wm, Command::MoveFocusedToWorkspace(WorkspaceId(3))).unwrap();
    assert_eq!(wm.workspace_of_window(WindowId(2)), Some(WorkspaceId(3)));
    assert_eq!(wm.workspace_of_window(WindowId(1)), Some(WorkspaceId(1)));
}

#[test]
fn focus_crosses_to_the_other_monitor() {
    let mut wm = start(&["a", "b"]);
    run(&mut wm, Command::FocusMonitor(Direction::Right)).unwrap();
    assert_eq!(wm.focused_monitor.as_ref().unwrap().0, "b");
    run(&mut wm, Command::FocusMonitor(Direction::Right)).unwrap();
    assert_eq!(wm.focused_monitor.as_ref().unwrap().0, "b");
    run(&mut wm, Command::FocusMonitor(Direction::Left)).unwrap();
    assert_eq!(wm.focused_monitor.as_ref().unwrap().0, "a");
}

#[test]
fn monocle_covers_the_work_area() {
    let mut wm = start(&["a"]);
    take_in(&mut wm, 1);
    take_in(&mut wm, 2);
    effects(&mut wm);
    run(&mut wm, Command::ToggleMonocle).unwrap();
    let moves = placed(&effects(&mut wm));
    assert!(moves.iter().all(|m| m.1 == Rect::new(0, 0, 1920, 1040)));
    run(&mut wm, Command::ToggleMonocle).unwrap();
    assert_eq!(placed(&effects(&mut wm)).len(), 2);
}

#[test]
fn layout_mode_is_announced() {
    let mut wm = start(&["a"]);
    run(&mut wm, Command::ToggleLayoutMode).unwrap();
    assert_eq!(wm.workspaces[0].tree.layout_mode(), LayoutMode::Spiral);
    let all = effects(&mut wm);
    assert!(all.iter().any(|e| matches!(e, Effect::Notify(ToastLevel::Info, _))));
}

#[test]
fn floating_and_tiling_again() {
    let mut wm = start(&["a"]);
    take_in(&mut wm, 1);
    wm.desk = Desk::new(Vec::new(), vec![Some(Rect::new(50, 60, 700, 500))]);
    run(&mut wm, Command::ToggleFloat).unwrap();
    assert_eq!(wm.windows.get(WindowId(1)).unwrap().mode, WindowMode::Floating);
    assert_eq!(wm.workspaces[0].floating, vec![(WindowId(1), Rect::new(50, 60, 700, 500))]);
    run(&mut wm, Command::MoveDirection(Direction::Right)).unwrap();
    assert_eq!(wm.workspaces[0].floating[0].1, Rect::new(82, 60, 700, 500));
    run(&mut wm, Command::Resize { dir: Direction::Left, delta_px: 100 }).unwrap();
    assert_eq!(wm.workspaces[0].floating[0].1, Rect::new(-18, 60, 800, 500));
    run(&mut wm, Command::ToggleFloat).unwrap();
    assert_eq!(wm.windows.get(WindowId(1)).unwrap().mode, WindowMode::Tiled);
    assert!(wm.workspaces[0].floating.is_empty());
}

#[test]
fn stacks_hide_their_other_members() {
    let mut wm = start(&["a"]);
    take_in(&mut wm, 1);
    take_in(&mut wm, 2);
    run(&mut wm, Command::ToggleStack).unwrap();
    assert!(wm.windows.get(WindowId(1)).unwrap().hidden_by_us);
    run(&mut wm, Command::FocusStackNext).unwrap();
    assert_eq!(wm.focused_window, Some(WindowId(1)));
    assert!(!wm.windows.get(WindowId(1)).unwrap().hidden_by_us);
    assert!(wm.windows.get(WindowId(2)).unwrap().hidden_by_us);
    let bars = wm.publish_bar_state();
    assert_eq!(bars[0].1.focused_title, "w [2/2]");
    run(&mut wm, Command::StackPop).unwrap();
    assert!(!wm.windows.get(WindowId(2)).unwrap().hidden_by_us);
}

#[test]
fn closing_asks_the_window() {
    let mut wm = start(&["a"]);
    take_in(&mut wm, 1);
    effects(&mut wm);
    run(&mut wm, Command::CloseFocused).unwrap();
    let all = effects(&mut wm);
    assert!(matches!(all[..], [Effect::Close(WindowId(1))]));
}

#[test]
fn refused_positions_are_reported() {
    let mut wm = start(&["a"]);
    take_in(&mut wm, 1);
    wm.desk = Desk::new(vec![false], Vec::new());
    assert!(matches!(wm.retile_workspace(WorkspaceId(1)), Err(WmError::NotPlaced)));
}

#[test]
fn a_returning_monitor_gets_its_workspace_back() {
    let mut wm = start(&["a", "b"]);
    wm.reconcile_monitors(vec![monitor("a", 0, true)]);
    assert_eq!(wm.monitors.len(), 1);
    wm.reconcile_monitors(vec![monitor("a", 0, true), monitor("b", 1920, false)]);
    assert_eq!(wm.monitors[1].id.0, "b");
    assert_eq!(wm.monitors[1].current_workspace, WorkspaceId(2));
    assert_eq!(wm.monitors[0].current_workspace, WorkspaceId(1));
}

#[test]
fn a_replug_shows_every_window_again() {
    let mut wm = start(&["a", "b"]);
    // A tiled and a floating window on workspace 1, and another pair on workspace 2.
    take_in(&mut wm, 1);
    take_in(&mut wm, 2);
    run(&mut wm, Command::ToggleFloat).unwrap();
    run(&mut wm, Command::FocusMonitor(Direction::Right)).unwrap();
    for id in [3, 4] {
        wm.desk = Desk::new(Vec::new(), vec![None]);
        assert!(wm.admit_window(&Vec::new(), WindowId(id), &facts("w")));
    }
    run(&mut wm, Command::ToggleFloat).unwrap();
    run(&mut wm, Command::FocusMonitor(Direction::Left)).unwrap();
    let hidden = |wm: &WindowManager| -> Vec<isize> {
        let mut all: Vec<isize> =
            wm.windows.items.iter().filter(|w| w.hidden_by_us).map(|w| w.id.0).collect();
        all.sort();
        all
    };
    assert_eq!(wm.workspaces[0].floating.len(), 1);
    assert_eq!(wm.workspaces[1].floating.len(), 1);
    assert_eq!(hidden(&wm), Vec::<isize>::new());
    // Workspace 2 comes onto the first monitor, and workspace 1 goes to the pool.
    wm.reconcile_monitors(vec![monitor("a", 0, true)]);
    assert_eq!(hidden(&wm), vec![1, 2]);
    wm.desk = Desk::new(Vec::new(), Vec::new());
    wm.reconcile_monitors(vec![monitor("a", 0, true), monitor("b", 1920, false)]);
    assert_eq!(wm.monitors[0].current_workspace, WorkspaceId(1));
    assert_eq!(hidden(&wm), Vec::<isize>::new());
    let all = effects(&mut wm);
    for id in [1, 2] {
        assert!(all.iter().any(|e| matches!(e, Effect::Show(WindowId(n)) if *n == id)));
    }
}

#[test]
fn orphans_are_taken_in_by_the_order_of_the_system() {
    let mut wm = start(&["d", "c", "b", "a"]);
    // The system lists "c" before "a"; "d" has the focus. Two workspaces have
    // lost their monitors: the one of "a", and the one of "b".
    wm.reconcile_monitors(vec![monitor("c", 1920, false), monitor("d", 0, true)]);
    let shown: Vec<(&str, WorkspaceId)> = wm
        .monitors
        .iter()
        .map(|m| (m.id.0.as_str(), m.current_workspace))
        .collect();
    assert_eq!(shown, vec![("c", WorkspaceId(3)), ("d", WorkspaceId(4))]);
    let mut wm = start(&["m", "z", "k", "g", "h"]);
    wm.reconcile_monitors(vec![
        monitor("m", 0, true),
        monitor("z", 1920, false),
        monitor("k", 3840, false),
    ]);
    let shown: Vec<(&str, WorkspaceId)> = wm
        .monitors
        .iter()
        .map(|m| (m.id.0.as_str(), m.current_workspace))
        .collect();
    assert_eq!(
        shown,
        vec![("k", WorkspaceId(3)), ("m", WorkspaceId(4)), ("z", WorkspaceId(5))]
    );
}

#[test]
fn several_returning_monitors_get_their_workspaces_back() {
    let mut wm = start(&["a", "b", "c"]);
    wm.reconcile_monitors(vec![monitor("a", 0, true)]);
    assert_eq!(wm.monitors[0].current_workspace, WorkspaceId(2));
    wm.reconcile_monitors(vec![
        monitor("c", 3840, false),
        monitor("a", 0, true),
        monitor("b", 1920, false),
    ]);
    let shown: Vec<(&str, WorkspaceId)> = wm
        .monitors
        .iter()
        .map(|m| (m.id.0.as_str(), m.current_workspace))
        .collect();
    assert_eq!(
        shown,
        vec![("a", WorkspaceId(1)), ("b", WorkspaceId(2)), ("c", WorkspaceId(3))]
    );
}

#[test]
fn unplugging_every_monitor_keeps_the_windows() {
    let mut wm = start(&["a"]);
    take_in(&mut wm, 1);
    wm.reconcile_monitors(Vec::new());
    assert!(wm.monitors.is_empty());
    assert!(wm.focused_monitor.is_none());
    assert!(wm.windows.contains_key(WindowId(1)));
    wm.reconcile_monitors(vec![monitor("a", 0, true)]);
    assert_eq!(wm.monitors[0].current_workspace, WorkspaceId(1));
    assert_eq!(wm.focused_monitor.as_ref().unwrap().0, "a");
}

#[test]
fn events_manage_and_forget_windows() {
    let mut wm = start(&["a"]);
    let rules = Vec::new();
    assert!(wm.handle(&rules, WinEvent::Shown(7), &facts("new")));
    assert!(wm.windows.contains_key(WindowId(7)));
    assert!(wm.handle(&rules, WinEvent::NameChanged(7), &facts("other")));
    assert_eq!(wm.windows.get(WindowId(7)).unwrap().title, "other");
    assert!(wm.handle(&rules, WinEvent::Destroyed(7), &facts("")));
    assert!(!wm.windows.contains_key(WindowId(7)));
}

#[test]
fn minimised_windows_make_room_and_come_back() {
    let mut wm = start(&["a"]);
    take_in(&mut wm, 1);
    take_in(&mut wm, 2);
    effects(&mut wm);
    wm.soft_remove(WindowId(2)).unwrap();
    assert_eq!(placed(&effects(&mut wm)), vec![(WindowId(1), Rect::new(0, 0, 1920, 1040))]);
    assert!(wm.windows.contains_key(WindowId(2)));
    wm.soft_restore(WindowId(2)).unwrap();
    assert_eq!(placed(&effects(&mut wm)).len(), 2);
}

#[test]
fn pausing_twice_is_not_pausing() {
    let mut wm = start(&["a"]);
    run(&mut wm, Command::TogglePause).unwrap();
    assert!(wm.paused);
    assert_eq!(wm.publish_bar_state()[0].1.right_label, Some("PAUSED".to_string()));
    run(&mut wm, Command::TogglePause).unwrap();
    assert!(!wm.paused);
    let said: Vec<String> = effects(&mut wm)
        .into_iter()
        .filter_map(|e| match e {
            Effect::Notify(_, text) => Some(text),
            _ => None,
        })
        .collect();
    assert_eq!(said, vec!["Paused".to_string(), "Resumed".to_string()]);
}

#[test]
fn an_open_picker_takes_the_focus_commands() {
    let mut wm = start(&["a"]);
    take_in(&mut wm, 1);
    take_in(&mut wm, 2);
    effects(&mut wm);
    wm.dispatch(Command::FocusDirection(Direction::Right), true, None).unwrap();
    assert!(matches!(effects(&mut wm)[..], [Effect::PeekCycle(1)]));
    assert_eq!(wm.focused_window, Some(WindowId(2)));
    wm.dispatch(Command::ToggleMonocle, true, None).unwrap();
    assert!(matches!(effects(&mut wm)[0], Effect::PeekDismiss));
    wm.dispatch(Command::PeekToggle, false, None).unwrap();
    match &effects(&mut wm)[..] {
        [Effect::PeekOpen(m, sources, focused)] => {
            assert_eq!(m.bounds, Rect::new(0, 0, 1920, 1080));
            assert_eq!(sources.len(), 2);
            assert_eq!(*focused, Some(WindowId(2)));
        }
        other => panic!("got {other:?}"),
    }
    wm.dispatch(Command::PeekConfirm, true, Some(WindowId(1))).unwrap();
    assert_eq!(wm.focused_window, Some(WindowId(1)));
}

#[test]
fn all_hidden_windows_are_shown_at_the_end() {
    let mut wm = start(&["a"]);
    take_in(&mut wm, 1);
    run(&mut wm, Command::SwitchWorkspace(WorkspaceId(2))).unwrap();
    take_in(&mut wm, 2);
    effects(&mut wm);
    wm.restore_all_managed_windows();
    let all = effects(&mut wm);
    assert!(all.iter().any(|e| matches!(e, Effect::Show(WindowId(1)))));
    assert!(!all.iter().any(|e| matches!(e, Effect::Show(WindowId(2)))));
    assert!(wm.windows.items.iter().all(|w| !w.hidden_by_us));
}

#[test]
fn the_dead_are_reaped() {
    let mut wm = start(&["a"]);
    take_in(&mut wm, 1);
    take_in(&mut wm, 2);
    take_in(&mut wm, 3);
    wm.reap(&vec![WindowId(1), WindowId(3), WindowId(99)]);
    assert_eq!(wm.windows.items.len(), 1);
    assert!(wm.windows.contains_key(WindowId(2)));
}

#[test]
fn a_command_can_run_again_on_other_answers() {
    let mut wm = start(&["a"]);
    take_in(&mut wm, 1);
    take_in(&mut wm, 2);
    let before = wm.with_desk(Desk::new(Vec::new(), Vec::new()));
    let mut once = before.with_desk(Desk::new(Vec::new(), Vec::new()));
    assert!(run(&mut once, Command::ToggleMonocle).is_ok());
    let done = effects(&mut once);
    let at = done.iter().position(|e| matches!(e, Effect::Place(_))).unwrap();
    let mut again = before.with_desk(Desk::new(vec![false], Vec::new()));
    assert!(matches!(run(&mut again, Command::ToggleMonocle), Err(WmError::NotPlaced)));
    let redone = effects(&mut again);
    assert_eq!(format!("{:?}", &done[..=at]), format!("{:?}", &redone[..=at]));
    assert_eq!(before.windows.items.len(), 2);
    assert_eq!(before.workspaces[0].tree.windows(), wm.workspaces[0].tree.windows());
}
