use dwmend::config::Config;
use dwmend::filter::{
    is_manageable_inputs, WS_CAPTION, WS_EX_NOACTIVATE, WS_EX_TOOLWINDOW, WS_POPUP,
};
use dwmend::rules::{
    first_matching_action, RawRule, RawRuleAction, Rule, RuleAction, RuleError, RuleMatcher,
};
use regex::Regex;

/// A "normal" window: alive, visible, has caption, not owned, no
/// blocklist class. The starting point for boundary-condition tests.
fn normal() -> ManageableArgs {
    ManageableArgs {
        alive: true,
        visible: true,
        minimized: false,
        cloaked_by_shell: false,
        has_owner: false,
        style: WS_CAPTION,
        ex_style: 0,
        class: "Mozilla".into(),
        title: "GitHub - Firefox".into(),
        exe: "firefox.exe".into(),
        rules: Vec::new(),
    }
}

struct ManageableArgs {
    alive: bool,
    visible: bool,
    minimized: bool,
    cloaked_by_shell: bool,
    has_owner: bool,
    style: u32,
    ex_style: u32,
    class: String,
    title: String,
    exe: String,
    rules: Vec<Rule>,
}

impl ManageableArgs {
    fn run(&self) -> bool {
        is_manageable_inputs(
            self.alive,
            self.visible,
            self.minimized,
            self.cloaked_by_shell,
            self.has_owner,
            self.style,
            self.ex_style,
            &self.class,
            &self.title,
            &self.exe,
            &self.rules,
        )
    }
}

#[test]
fn normal_app_window_is_manageable() {
    assert!(normal().run());
}

#[test]
fn dead_window_rejected() {
    let mut a = normal();
    a.alive = false;
    assert!(!a.run());
}

#[test]
fn invisible_window_rejected() {
    let mut a = normal();
    a.visible = false;
    assert!(!a.run());
}

#[test]
fn minimized_window_rejected() {
    let mut a = normal();
    a.minimized = true;
    assert!(!a.run());
}

#[test]
fn cloaked_by_shell_rejected() {
    // Virtual-desktop hidden windows must not be hijacked onto the
    // current desktop - doing so dumps every off-desktop window onto
    // workspace 1 the moment DWMend starts.
    let mut a = normal();
    a.cloaked_by_shell = true;
    assert!(!a.run());
}

#[test]
fn owned_window_rejected() {
    // Owned popups (Save dialog, color picker) belong to their parent
    // app and would visually fight any tile we placed them in.
    let mut a = normal();
    a.has_owner = true;
    assert!(!a.run());
}

#[test]
fn tool_window_rejected() {
    let mut a = normal();
    a.ex_style |= WS_EX_TOOLWINDOW;
    assert!(!a.run());
}

#[test]
fn noactivate_window_rejected() {
    let mut a = normal();
    a.ex_style |= WS_EX_NOACTIVATE;
    assert!(!a.run());
}

#[test]
fn no_caption_no_popup_rejected() {
    // Bare child-style window with no caption and no popup bit -
    // typically a borderless overlay / background sink. Shouldn't
    // be tiled.
    let mut a = normal();
    a.style = 0;
    assert!(!a.run());
}

#[test]
fn popup_without_caption_is_manageable() {
    // Some games and Electron apps draw their own chrome and leave
    // WS_CAPTION off but set WS_POPUP. We intentionally accept these
    // so the user's primary launcher / app actually tiles.
    let mut a = normal();
    a.style = WS_POPUP;
    assert!(a.run());
}

#[test]
fn shell_class_progman_rejected() {
    // The OS desktop window. Hijacking this would let the user
    // tile their wallpaper - funny once, breaks Explorer forever.
    let mut a = normal();
    a.class = "Progman".into();
    assert!(!a.run());
}

#[test]
fn shell_class_match_is_case_insensitive() {
    let mut a = normal();
    a.class = "shell_traywnd".into();
    assert!(!a.run());
}

#[test]
fn application_frame_host_rejected() {
    // UWP host: we manage the inner content HWND, not this frame.
    let mut a = normal();
    a.class = "ApplicationFrameHost".into();
    assert!(!a.run());
}

#[test]
fn ignore_rule_vetoes_otherwise_manageable_window() {
    let rule = Rule {
        exe: Some("spotify.exe".into()),
        class_re: None,
        title_re: None,
        action: RuleAction::Ignore,
    };
    let mut a = normal();
    a.exe = "spotify.exe".into();
    a.rules = vec![rule];
    assert!(!a.run());
}

#[test]
fn float_rule_keeps_window_manageable() {
    // Float means "manage but don't tile" - the WM still owns the
    // window, just lets it float in the BSP tree.
    let rule = Rule {
        exe: Some("calculator.exe".into()),
        class_re: None,
        title_re: None,
        action: RuleAction::Float,
    };
    let mut a = normal();
    a.exe = "calculator.exe".into();
    a.rules = vec![rule];
    assert!(a.run());
}

#[test]
fn first_matching_rule_wins_subsequent_ignored() {
    // Tile-then-Ignore on the same exe: tile wins because it's first.
    // Documents the "first match wins" contract - if this flips, the
    // implications for user configs are large.
    let r1 = Rule {
        exe: Some("Code.exe".into()),
        class_re: None,
        title_re: None,
        action: RuleAction::Tile,
    };
    let r2 = Rule {
        exe: Some("Code.exe".into()),
        class_re: None,
        title_re: None,
        action: RuleAction::Ignore,
    };
    let mut a = normal();
    a.exe = "Code.exe".into();
    a.rules = vec![r1, r2];
    assert!(a.run());
}

#[test]
fn ignore_rule_with_class_regex_filter() {
    // Only the matching class is vetoed, others stay manageable.
    let rule = Rule {
        exe: None,
        class_re: Some(Regex::new(r"^Chrome_PiP_").unwrap()),
        title_re: None,
        action: RuleAction::Ignore,
    };
    let mut a = normal();
    a.class = "Chrome_PiP_Window".into();
    a.rules = vec![rule.clone()];
    assert!(!a.run());

    let mut b = normal(); // different class
    b.rules = vec![rule];
    assert!(b.run());
}

#[test]
fn no_rule_lets_the_shell_in() {
    let mut a = normal();
    a.class = "WorkerW".into();
    a.rules = vec![Rule {
        exe: Some("firefox.exe".into()),
        class_re: None,
        title_re: None,
        action: RuleAction::Tile,
    }];
    assert!(!a.run());
}

fn raw(exe: Option<&str>, class: Option<&str>, title: Option<&str>) -> RawRule {
    RawRule {
        matcher: RuleMatcher {
            exe: exe.map(|s| s.to_string()),
            class: class.map(|s| s.to_string()),
            title: title.map(|s| s.to_string()),
        },
        action: RawRuleAction::Float,
        workspace: None,
    }
}

#[test]
fn compiled_patterns_are_regular_expressions() {
    let cfg = Config {
        raw_rules: vec![raw(None, Some("^Mozilla.*$"), Some("(?i)picture.in.picture"))],
        ..Config::default()
    };
    let all = cfg.compile_rules().unwrap();
    assert_eq!(all.len(), 1);
    assert!(all[0].matches("firefox.exe", "MozillaDialogClass", "Picture-in-Picture"));
    assert!(!all[0].matches("firefox.exe", "MozillaDialogClass", "Downloads"));
    assert!(!all[0].matches("firefox.exe", "Chrome", "Picture-in-Picture"));
    assert_eq!(
        first_matching_action(&all, "x", "MozillaWindow", "picture in picture"),
        Some(RuleAction::Float)
    );
    assert_eq!(first_matching_action(&all, "x", "Mozilla", ""), None);
}

#[test]
fn names_of_programs_match_in_any_case() {
    let cfg = Config { raw_rules: vec![raw(Some("Spotify.EXE"), None, None)], ..Config::default() };
    let all = cfg.compile_rules().unwrap();
    assert!(all[0].matches("spotify.exe", "", ""));
    assert!(!all[0].matches("spotify2.exe", "", ""));
}

#[test]
fn a_rule_without_a_pattern_never_matches() {
    let cfg = Config { raw_rules: vec![raw(None, None, None)], ..Config::default() };
    assert!(!cfg.compile_rules().unwrap()[0].matches("a", "b", "c"));
}

#[test]
fn what_is_wrong_with_rules() {
    let bad_class = Config { raw_rules: vec![raw(None, Some("("), None)], ..Config::default() };
    match bad_class.compile_rules() {
        Err(RuleError::BadClass(m, e)) => {
            assert_eq!(m.class, Some("(".to_string()));
            assert_eq!(e, Regex::new("(").unwrap_err().to_string());
        }
        other => panic!("got {other:?}"),
    }
    let bad_title = Config { raw_rules: vec![raw(None, None, Some("["))], ..Config::default() };
    assert!(matches!(bad_title.compile_rules(), Err(RuleError::BadTitle(_, _))));
    let mut no_workspace = raw(Some("a.exe"), None, None);
    no_workspace.action = RawRuleAction::Workspace;
    let mut zero = no_workspace.clone();
    zero.workspace = Some(0);
    let mut third = no_workspace.clone();
    third.workspace = Some(3);
    let cfg = Config { raw_rules: vec![no_workspace], ..Config::default() };
    assert!(matches!(cfg.compile_rules(), Err(RuleError::MissingWorkspace(_))));
    let cfg = Config { raw_rules: vec![zero], ..Config::default() };
    assert!(matches!(cfg.compile_rules(), Err(RuleError::ZeroWorkspace(_))));
    let cfg = Config { raw_rules: vec![third], ..Config::default() };
    assert_eq!(cfg.compile_rules().unwrap()[0].action, RuleAction::Workspace(3));
}
