use dwmend::command::Command;
use dwmend::hotkey::{parse_action, parse_combo, HotkeyId, HotkeyRouter, Mod, Mods};
use dwmend::ids::WorkspaceId;
use dwmend::rect::Direction;
use dwmend::toast::ToastLevel;

#[test]
fn parse_super_h() {
    let (m, vk) = parse_combo("SUPER+H").unwrap();
    assert!(m.contains(Mod::Super));
    assert_eq!(vk, 0x48);
}

#[test]
fn parse_alt_shift_ctrl_combo() {
    let (m, vk) = parse_combo("ALT+SHIFT+CTRL+F4").unwrap();
    assert!(m.contains(Mod::Alt));
    assert!(m.contains(Mod::Shift));
    assert!(m.contains(Mod::Ctrl));
    assert_eq!(vk, 0x73);
}

#[test]
fn parse_combo_is_case_insensitive() {
    let a = parse_combo("alt+h").unwrap();
    let b = parse_combo("ALT+H").unwrap();
    let c = parse_combo("Alt+h").unwrap();
    assert_eq!(a, b);
    assert_eq!(b, c);
}

#[test]
fn parse_combo_aliases() {
    // SUPER == WIN == META, CTRL == CONTROL, ENTER == RETURN.
    let win = parse_combo("WIN+LEFT").unwrap();
    let meta = parse_combo("META+LEFT").unwrap();
    let sup = parse_combo("SUPER+LEFT").unwrap();
    assert_eq!(win, meta);
    assert_eq!(meta, sup);
    assert_eq!(sup.1, 0x25);
    assert_eq!(
        parse_combo("CTRL+H").unwrap(),
        parse_combo("CONTROL+H").unwrap()
    );
}

#[test]
fn parse_combo_rejects_empty_token() {
    assert!(parse_combo("ALT++H").is_err());
}

#[test]
fn parse_combo_rejects_two_non_modifiers() {
    // "ALT+H+J" is ambiguous: which is the trigger key?
    assert!(parse_combo("ALT+H+J").is_err());
}

#[test]
fn parse_combo_rejects_no_key() {
    // Modifiers only — no actual key to bind.
    assert!(parse_combo("ALT+SHIFT").is_err());
}

#[test]
fn parse_combo_rejects_unknown_key() {
    assert!(parse_combo("ALT+BLARGH").is_err());
}

#[test]
fn parse_workspace_action() {
    match parse_action("workspace 3").unwrap() {
        Command::SwitchWorkspace(WorkspaceId(3)) => {}
        other => panic!("got {other:?}"),
    }
}

#[test]
fn parse_move_to_workspace_action() {
    match parse_action("move_to_workspace 10").unwrap() {
        Command::MoveFocusedToWorkspace(WorkspaceId(10)) => {}
        other => panic!("got {other:?}"),
    }
}

#[test]
fn parse_resize_action() {
    match parse_action("resize left 64").unwrap() {
        Command::Resize {
            dir: Direction::Left,
            delta_px: 64,
        } => {}
        other => panic!("got {other:?}"),
    }
}

#[test]
fn parse_focus_monitor_action() {
    match parse_action("focus_monitor right").unwrap() {
        Command::FocusMonitor(Direction::Right) => {}
        other => panic!("got {other:?}"),
    }
}

#[test]
fn parse_singleton_actions() {
    assert!(matches!(
        parse_action("toggle_float").unwrap(),
        Command::ToggleFloat
    ));
    assert!(matches!(
        parse_action("toggle_monocle").unwrap(),
        Command::ToggleMonocle
    ));
    assert!(matches!(
        parse_action("close").unwrap(),
        Command::CloseFocused
    ));
    assert!(matches!(
        parse_action("toggle_pause").unwrap(),
        Command::TogglePause
    ));
    assert!(matches!(parse_action("quit").unwrap(), Command::Quit));
    assert!(matches!(
        parse_action("reload_config").unwrap(),
        Command::ReloadConfig
    ));
}

#[test]
fn parse_action_errors_on_empty() {
    assert!(parse_action("").is_err());
}

#[test]
fn parse_action_errors_on_unknown_verb() {
    assert!(parse_action("teleport left").is_err());
}

#[test]
fn parse_invalid_direction_errors() {
    assert!(parse_action("focus diagonal").is_err());
}

#[test]
fn parse_resize_errors_on_missing_pixels() {
    assert!(parse_action("resize left").is_err());
}

#[test]
fn parse_workspace_errors_on_missing_number() {
    assert!(parse_action("workspace").is_err());
}

fn complaint(action: &str) -> String {
    match parse_action(action) {
        Err(e) => e,
        Ok(c) => panic!("got {c:?}"),
    }
}

#[test]
fn what_is_wrong_with_actions() {
    assert_eq!(complaint("   "), "empty action");
    assert_eq!(complaint("fly"), "unknown action `fly`");
    assert_eq!(complaint("focus"), "missing direction");
    assert_eq!(complaint("move Sideways"), "unknown direction `sideways`");
    assert_eq!(complaint("resize up"), "resize: missing delta");
    assert_eq!(complaint("resize up x"), "resize: bad delta: invalid digit found in string");
    assert_eq!(
        complaint("resize up 99999999999"),
        "resize: bad delta: number too large to fit in target type"
    );
    assert_eq!(
        complaint("resize up -99999999999"),
        "resize: bad delta: number too small to fit in target type"
    );
    assert_eq!(complaint("workspace"), "workspace: missing N");
    assert_eq!(complaint("workspace -1"), "workspace: bad N: invalid digit found in string");
    assert_eq!(complaint("move_to_workspace"), "move_to_workspace: missing N");
    assert_eq!(complaint("notify"), "notify: missing level");
    assert_eq!(complaint("notify loud x"), "notify: unknown level `loud`");
    assert_eq!(complaint("notify info"), "notify: missing text");
}

#[test]
fn what_is_wrong_with_combinations() {
    assert_eq!(parse_combo("ALT++H").unwrap_err(), "empty token in `ALT++H`");
    assert_eq!(parse_combo("ALT+H+J").unwrap_err(), "more than one non-modifier key in `ALT+H+J`");
    assert_eq!(parse_combo("ALT+SHIFT").unwrap_err(), "no key found in `ALT+SHIFT`");
    assert_eq!(parse_combo("alt+blargh").unwrap_err(), "unknown key `BLARGH`");
}

#[test]
fn names_of_keys() {
    for (name, vk) in [
        ("A", 0x41),
        ("Z", 0x5a),
        ("0", 0x30),
        ("9", 0x39),
        ("F1", 0x70),
        ("F12", 0x7b),
        ("RIGHT", 0x27),
        ("UP", 0x26),
        ("DOWN", 0x28),
        ("SPACE", 0x20),
        ("ENTER", 0x0d),
        ("RETURN", 0x0d),
        ("TAB", 0x09),
        ("ESC", 0x1b),
        ("BACKSPACE", 0x08),
        ("DEL", 0x2e),
        ("HOME", 0x24),
        ("END", 0x23),
        ("PGUP", 0x21),
        ("PAGEDOWN", 0x22),
    ] {
        assert_eq!(parse_combo(name).unwrap(), (Mods::empty(), vk), "{name}");
    }
}

#[test]
fn notifications_can_be_quoted() {
    match parse_action("notify warn 'low battery'").unwrap() {
        Command::Notify(ToastLevel::Warn, text) => assert_eq!(text, "low battery"),
        other => panic!("got {other:?}"),
    }
}

fn bind(pairs: &[(&str, &str)]) -> Vec<(String, String)> {
    pairs.iter().map(|(k, a)| (k.to_string(), a.to_string())).collect()
}

#[test]
fn the_router_skips_malformed_bindings() {
    let (router, errors) = HotkeyRouter::build(&bind(&[
        ("ALT+H", "focus left"),
        ("ALT+", "focus right"),
        ("ALT+J", "dance"),
        ("ALT+Q", "quit"),
    ]));
    assert_eq!(
        errors,
        vec![
            "ALT+ = focus right → empty token in `ALT+`".to_string(),
            "ALT+J = dance → unknown action `dance`".to_string(),
        ]
    );
    assert_eq!(router.commands.len(), 2);
    assert!(matches!(
        router.command_for(HotkeyId(1)),
        Some(Command::FocusDirection(Direction::Left))
    ));
    assert!(matches!(router.command_for(HotkeyId(2)), Some(Command::Quit)));
    assert!(router.command_for(HotkeyId(0)).is_none());
    assert!(router.command_for(HotkeyId(3)).is_none());
}

#[test]
fn a_combination_that_is_bound_twice_has_the_later_command() {
    let (router, errors) =
        HotkeyRouter::build(&bind(&[("ALT+H", "focus left"), ("alt+h", "close")]));
    assert!(errors.is_empty());
    assert_eq!(router.table.entries.len(), 1);
    let (_, _, id) = router.table.entries[0];
    assert!(matches!(router.command_for(id), Some(Command::CloseFocused)));
}

#[test]
fn pressed_combinations_are_found_by_their_number() {
    let (router, _) = HotkeyRouter::build(&bind(&[("ALT+H", "focus left"), ("ALT+L", "close")]));
    let accepted = vec![true, false];
    let m = router.table.match_for(&accepted, 1).unwrap();
    assert_eq!(m.vk, 0x48);
    assert!(m.mods.contains(Mod::Alt));
    assert!(router.table.match_for(&accepted, 0).is_none());
    assert!(router.table.match_for(&accepted, 2).is_none());
    assert!(router.table.match_for(&accepted, 3).is_none());
}

#[test]
fn modifiers_for_the_system() {
    let (m, _) = parse_combo("SUPER+CTRL+ALT+SHIFT+H").unwrap();
    assert_eq!(m.to_win32(), 0x400f);
    assert_eq!(Mods::empty().to_win32(), 0x4000);
    let (m, _) = parse_combo("CTRL+H").unwrap();
    assert_eq!(m.to_win32(), 0x4002);
}
