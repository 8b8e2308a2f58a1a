use dwmend::bar::{BarColors, BarSegments};
use dwmend::cli::{parse_args, AutostartAction, Subcommand};
use dwmend::color::rgb;
use dwmend::command::Command;
use dwmend::config::{
    AlreadyVisible, Bar, BarColorsConfig, Config, General, LayoutKind, NotificationColors,
    Notifications,
};
use dwmend::daemon::{
    duty_of, is_save_due, snapshot_ids, survey, Daemon, Debounce, Duty, Route,
};
use dwmend::desk::{Desk, Effect};
use dwmend::filter::{WindowFacts, WS_CAPTION};
use dwmend::hotkey::HotkeyId;
use dwmend::ids::{WindowId, WorkspaceId};
use dwmend::model::{AlreadyVisibleBehaviour, Gaps, WmError};
use dwmend::monitor::MonitorInfo;
use dwmend::rect::Rect;
use dwmend::rules::{Rule, RuleAction};
use dwmend::settings::{
    bar_height, bar_segments_from_cfg, build_toast_specs, compose_gaps, has_fitting_gaps,
    map_layout, parse_bar_colors, parse_focus_color, parse_toast_config, theme_of,
};
use dwmend::toast::ToastLevel;
use dwmend::tray::{command_of, opens_menu, Chosen, MenuLine, Tray, TrayAction, TrayConfig};
use dwmend::tree::LayoutMode;

fn monitor(id: &str) -> MonitorInfo {
    MonitorInfo {
        hmonitor: 1,
        stable_id: id.to_string(),
        friendly_name: String::new(),
        bounds: Rect::new(0, 0, 1920, 1080),
        work_area: Rect::new(0, 0, 1920, 1040),
        dpi: 96,
        primary: true,
    }
}

fn bound(pairs: &[(&str, &str)]) -> Config {
    Config {
        keybindings: pairs.iter().map(|(k, a)| (k.to_string(), a.to_string())).collect(),
        ..Config::default()
    }
}

fn started(cfg: &Config) -> Daemon {
    let (d, errors) = Daemon::start(cfg, Vec::new(), vec![monitor("a")]).unwrap();
    assert!(errors.is_empty());
    d
}

fn notices(d: &mut Daemon) -> Vec<(ToastLevel, String)> {
    let desk = std::mem::replace(&mut d.wm.desk, Desk::new(Vec::new(), Vec::new()));
    desk.effects
        .into_iter()
        .filter_map(|e| match e {
            Effect::Notify(level, text) => Some((level, text)),
            _ => None,
        })
        .collect()
}

fn facts() -> WindowFacts {
    WindowFacts {
        alive: true,
        visible: true,
        minimized: false,
        cloaked_by_shell: false,
        has_owner: false,
        style: WS_CAPTION,
        ex_style: 0,
        class: "Class".to_string(),
        title: "t".to_string(),
        title_known: true,
        exe: "app.exe".to_string(),
    }
}

#[test]
fn gaps_make_room_for_the_bar() {
    let mut cfg = Config::default();
    cfg.general.outer_gap_top = 4;
    cfg.general.outer_gap_left = 2;
    assert_eq!(bar_height(&cfg), 28);
    let gaps = compose_gaps(&cfg, bar_height(&cfg));
    assert_eq!(gaps, Gaps { inner: 8, top: 32, right: 0, bottom: 0, left: 2 });
    assert!(has_fitting_gaps(&cfg, 28));
    cfg.bar.height = 3;
    assert_eq!(bar_height(&cfg), 16);
    cfg.general.bar_enabled = false;
    assert_eq!(bar_height(&cfg), 0);
    cfg.general.outer_gap_top = i32::MAX;
    assert!(!has_fitting_gaps(&cfg, 28));
}

#[test]
fn a_typo_only_spoils_its_own_color() {
    let mut cfg = Config::default();
    cfg.general.focused_border_color = "sky".to_string();
    assert_eq!(parse_focus_color(&cfg), rgb(0x4f, 0xc3, 0xf7));
    cfg.general.focused_border_color = "#010203".to_string();
    assert_eq!(parse_focus_color(&cfg), rgb(1, 2, 3));
    let mut bar = Bar::default();
    bar.colors.background = "#000001".to_string();
    bar.colors.foreground = "oops".to_string();
    let colors = parse_bar_colors(&bar);
    assert_eq!(colors.background, rgb(0, 0, 1));
    assert_eq!(colors.foreground, BarColors::default().foreground);
    assert_eq!(parse_bar_colors(&Bar::default()), BarColors::default());
    let mut notifications = Notifications::default();
    notifications.max_concurrent = 0;
    notifications.colors.warn_bg = "#112233".to_string();
    notifications.colors.error_fg = "".to_string();
    let toasts = parse_toast_config(&notifications);
    assert_eq!(toasts.max_concurrent, 1);
    assert_eq!(toasts.colors.warn_bg, rgb(0x11, 0x22, 0x33));
    assert_eq!(toasts.colors.error_fg, rgb(0xff, 0xff, 0xff));
}

#[test]
fn settings_of_the_parts() {
    let mut bar = Bar::default();
    bar.show_clock = false;
    assert_eq!(
        bar_segments_from_cfg(&bar),
        BarSegments {
            icon: true,
            workspaces: true,
            focused_title: true,
            clock: false,
            battery: true,
            network: true,
            pause_indicator: true,
        }
    );
    assert_eq!(map_layout(LayoutKind::Spiral), LayoutMode::Spiral);
    assert_eq!(map_layout(LayoutKind::Dwindle), LayoutMode::Dwindle);
    assert_eq!(
        AlreadyVisibleBehaviour::from(AlreadyVisible::FocusOtherMonitor),
        AlreadyVisibleBehaviour::FocusOtherMonitor
    );
    let theme = theme_of(&Config::default());
    assert_eq!(theme.border_width, 3);
    assert_eq!(theme.corner_radius, 8);
}

#[test]
fn what_is_not_written_down() {
    let general = General::default();
    assert_eq!(general.workspace_count, 5);
    assert_eq!(general.focused_border_color, "#4FC3F7");
    assert_eq!(Bar::default().height, 28);
    assert_eq!(BarColorsConfig::default().active_fg, "#101018");
    assert_eq!(NotificationColors::default().error_bg, "#E53935");
    assert_eq!(Notifications::default().ttl_ms, 2200);
    assert!(Config::default().keybindings.is_empty());
}

#[test]
fn notifications_start_below_the_bar() {
    let mut tiny = monitor("b");
    tiny.work_area = Rect::new(0, 0, 100, 20);
    let specs = build_toast_specs(&vec![monitor("a"), tiny], 28);
    assert_eq!(specs[0].monitor_id, "a");
    assert_eq!(specs[0].work_area, Rect::new(0, 28, 1920, 1012));
    assert_eq!(specs[1].work_area, Rect::new(0, 0, 100, 20));
}

#[test]
fn there_is_no_daemon_without_a_monitor() {
    let r = Daemon::start(&Config::default(), Vec::new(), Vec::new());
    assert!(matches!(r, Err(WmError::NoMonitors)));
}

#[test]
fn the_configured_layout_is_used_from_the_start() {
    let mut cfg = bound(&[("ALT+H", "focus left"), ("bad", "focus left")]);
    cfg.general.layout = LayoutKind::Spiral;
    cfg.general.workspace_count = 3;
    let (d, errors) = Daemon::start(&cfg, Vec::new(), vec![monitor("a")]).unwrap();
    assert_eq!(errors.len(), 1);
    assert_eq!(d.wm.workspaces.len(), 3);
    assert_eq!(d.wm.workspaces[2].tree.layout_mode(), LayoutMode::Spiral);
    assert_eq!(d.wm.gaps.top, 28);
    assert_eq!(d.wm.focused_workspace_id(), Some(WorkspaceId(1)));
}

#[test]
fn paused_hotkeys() {
    let mut d = started(&bound(&[
        ("ALT+H", "focus left"),
        ("ALT+P", "toggle_pause"),
        ("ALT+Q", "quit"),
        ("ALT+R", "reload_config"),
    ]));
    assert!(matches!(d.on_hotkey(HotkeyId(1)), Route::Run(Command::FocusDirection(_))));
    assert!(matches!(d.on_hotkey(HotkeyId(3)), Route::Queue(Command::Quit)));
    assert!(matches!(d.on_hotkey(HotkeyId(9)), Route::Drop));
    d.wm.paused = true;
    assert!(matches!(d.on_hotkey(HotkeyId(1)), Route::Drop));
    assert!(matches!(d.on_hotkey(HotkeyId(2)), Route::Run(Command::TogglePause)));
    assert!(matches!(d.on_hotkey(HotkeyId(3)), Route::Queue(Command::Quit)));
    assert!(matches!(d.on_hotkey(HotkeyId(4)), Route::Queue(Command::ReloadConfig)));
}

#[test]
fn duties_of_commands() {
    assert!(matches!(duty_of(Command::Quit), Duty::Stop));
    assert!(matches!(duty_of(Command::ReloadConfig), Duty::Reload));
    assert!(matches!(duty_of(Command::ConfigChanged), Duty::Reload));
    assert!(matches!(duty_of(Command::Reap), Duty::Reap));
    assert!(matches!(duty_of(Command::ToggleFloat), Duty::Run(Command::ToggleFloat)));
}

#[test]
fn reloading_takes_over_the_bindings() {
    let mut d = started(&bound(&[("ALT+H", "focus left")]));
    assert!(d.rebinding(&bound(&[("ALT+H", "focus left")])).is_none());
    let other = bound(&[("ALT+H", "close"), ("ALT+J", "quit")]);
    let (router, errors) = d.rebinding(&other).unwrap();
    assert!(errors.is_empty());
    d.rebound(&other, router);
    assert_eq!(notices(&mut d), vec![(ToastLevel::Info, "Bindings reloaded (2)".to_string())]);
    assert!(d.rebinding(&other).is_none());
    assert!(matches!(d.on_hotkey(HotkeyId(2)), Route::Queue(Command::Quit)));
    d.rebind_failed();
    assert_eq!(notices(&mut d), vec![(ToastLevel::Error, "Keybinding reload failed".to_string())]);
}

#[test]
fn reloading_keeps_the_room_of_the_bar() {
    let mut d = started(&Config::default());
    let mut cfg = Config::default();
    cfg.general.gap = 20;
    cfg.general.outer_gap_top = 5;
    cfg.bar.height = 40;
    cfg.general.layout = LayoutKind::Spiral;
    cfg.general.on_workspace_already_visible = AlreadyVisible::FocusOtherMonitor;
    let rules = vec![Rule {
        exe: Some("x".to_string()),
        class_re: None,
        title_re: None,
        action: RuleAction::Ignore,
    }];
    d.apply_config(&cfg, rules);
    assert_eq!(d.wm.gaps, Gaps { inner: 20, top: 33, right: 0, bottom: 0, left: 0 });
    assert_eq!(d.wm.on_already_visible, AlreadyVisibleBehaviour::FocusOtherMonitor);
    assert_eq!(d.wm.workspaces[0].tree.layout_mode(), LayoutMode::Spiral);
    assert_eq!(d.rules.len(), 1);
    assert!(d.wm.desk.effects.iter().any(|e| matches!(e, Effect::Restyle(_))));
    assert_eq!(
        notices(&mut d),
        vec![
            (ToastLevel::Warn, "Bar height changed; restart to apply".to_string()),
            (ToastLevel::Info, "Config reloaded".to_string()),
        ]
    );
}

#[test]
fn only_another_list_of_windows_is_saved() {
    let mut d = started(&Config::default());
    assert!(d.ids_to_save().is_none());
    for id in [30, -4, 7] {
        assert!(d.wm.admit_window(&Vec::new(), WindowId(id), &facts()));
    }
    assert_eq!(snapshot_ids(&d.wm), vec![-4, 7, 30]);
    let ids = d.ids_to_save().unwrap();
    assert_eq!(ids, vec![-4, 7, 30]);
    d.note_saved(ids);
    assert!(d.ids_to_save().is_none());
    d.wm.reap(&vec![WindowId(7)]);
    assert_eq!(d.ids_to_save(), Some(vec![-4, 30]));
    assert!(!is_save_due(5_000_000_000));
    assert!(is_save_due(5_000_000_001));
}

#[test]
fn changes_in_a_row_count_once() {
    let mut gate = Debounce::new();
    assert!(gate.passes(1_000));
    assert!(!gate.passes(199_000_000));
    assert!(!gate.passes(500));
    assert!(gate.passes(200_001_000));
    assert!(!gate.passes(200_001_001));
}

#[test]
fn a_survey_counts_what_can_be_seen() {
    let mut hidden = facts();
    hidden.visible = false;
    let mut owned = facts();
    owned.has_owner = true;
    let s = survey(&vec![facts(), hidden, owned, facts()], &Vec::new());
    assert_eq!(s.verdicts, vec![Some(true), None, Some(false), Some(true)]);
    assert_eq!((s.managed, s.skipped), (2, 1));
}

#[test]
fn the_menu_of_the_tray_icon() {
    let mut tray = Tray::new(TrayConfig {
        config_path: "c".to_string(),
        log_dir: "l".to_string(),
    });
    assert!(matches!(tray.menu()[0], MenuLine::Entry(100, "Pause")));
    tray.set_paused(true);
    assert!(matches!(tray.menu()[0], MenuLine::Entry(100, "Resume")));
    assert_eq!(tray.menu().len(), 7);
    assert!(matches!(tray.chosen(100), Chosen::Act(TrayAction::TogglePause)));
    assert!(matches!(tray.chosen(101), Chosen::Act(TrayAction::ReloadConfig)));
    match tray.chosen(102) {
        Chosen::Open(p) => assert_eq!(p, "c"),
        other => panic!("got {other:?}"),
    }
    match tray.chosen(103) {
        Chosen::Open(p) => assert_eq!(p, "l"),
        other => panic!("got {other:?}"),
    }
    assert!(matches!(tray.chosen(199), Chosen::Act(TrayAction::Quit)));
    assert!(matches!(tray.chosen(0), Chosen::Nothing));
    assert!(matches!(command_of(TrayAction::Quit), Command::Quit));
    assert!(opens_menu(0x0001_0205));
    assert!(opens_menu(0x203));
    assert!(!opens_menu(0x202));
}

fn args(all: &[&str]) -> Vec<String> {
    all.iter().map(|s| s.to_string()).collect()
}

#[test]
fn subcommands() {
    assert!(matches!(parse_args(&args(&[])), Subcommand::Daemon));
    assert!(matches!(parse_args(&args(&["restore"])), Subcommand::Restore));
    assert!(matches!(parse_args(&args(&["dryrun"])), Subcommand::Dryrun));
    assert!(matches!(parse_args(&args(&["help"])), Subcommand::Help));
    assert!(matches!(parse_args(&args(&["-h"])), Subcommand::Help));
    assert!(matches!(
        parse_args(&args(&["autostart"])),
        Subcommand::Autostart(AutostartAction::Status)
    ));
    assert!(matches!(
        parse_args(&args(&["autostart", "on"])),
        Subcommand::Autostart(AutostartAction::Enable)
    ));
    assert!(matches!(
        parse_args(&args(&["autostart", "disable"])),
        Subcommand::Autostart(AutostartAction::Disable)
    ));
    assert!(matches!(
        parse_args(&args(&["autostart", "never"])),
        Subcommand::Autostart(AutostartAction::Unknown(_))
    ));
    match parse_args(&args(&["cmd", "focus", "left "])) {
        Subcommand::Cmd(Some(s)) => assert_eq!(s, "focus left"),
        other => panic!("got {other:?}"),
    }
    assert!(matches!(parse_args(&args(&["cmd", " "])), Subcommand::Cmd(None)));
    match parse_args(&args(&["query", "state", "now"])) {
        Subcommand::Query(Some(s)) => assert_eq!(s, "state"),
        other => panic!("got {other:?}"),
    }
    assert!(matches!(parse_args(&args(&["query"])), Subcommand::Query(None)));
    match parse_args(&args(&["tile"])) {
        Subcommand::Unknown(s) => assert_eq!(s, "tile"),
        other => panic!("got {other:?}"),
    }
}

#[test]
fn gaps_have_to_suit_every_monitor() {
    let none = Gaps::default();
    let mut far = monitor("a");
    assert!(none.are_suited(&far));
    // The right edge is the last coordinate there is.
    far.bounds = Rect::new(i32::MAX - 1920, 0, 1920, 1080);
    far.work_area = Rect::new(i32::MAX - 1920, 0, 1920, 1040);
    assert!(none.are_suited(&far));
    assert!(!Gaps { inner: 1, ..none }.are_suited(&far));
    assert!(Gaps { inner: 1, right: 1, ..none }.are_suited(&far));
    assert!(!Gaps { left: i32::MIN, ..none }.are_suited(&monitor("a")));
    assert!(Gaps { left: i32::MAX - 1920, ..none }.are_suited(&monitor("a")));
    far.bounds = Rect::new(i32::MAX - 1920, 0, 1921, 1080);
    assert!(!none.are_suited(&far));
}

#[test]
fn another_configuration_has_to_suit_the_monitors() {
    let mut cfg = Config::default();
    let (d, _) = Daemon::start(&cfg, Vec::new(), vec![monitor("a")]).unwrap();
    assert!(d.can_apply(&cfg));
    cfg.general.outer_gap_left = i32::MIN;
    assert!(!d.can_apply(&cfg));
    cfg.general.outer_gap_left = 0;
    cfg.general.outer_gap_top = i32::MAX;
    assert!(!d.can_apply(&cfg));
}
