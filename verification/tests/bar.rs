use dwmend::bar::{
    are_pills_fit, bar_texts, battery_from, current_network, draw_bar, empty_snapshot, format_battery,
    format_clock, format_network, is_bar_fit, plan_bars, workspace_clicked, Adapter, BarColors,
    BarSegments, BarSnapshot, BarStep, BatteryStatus, NetworkCache, NetworkKind, RightSide, Stroke,
    WorkspaceState,
};
use dwmend::desk::BarSpec;
use dwmend::rect::{Edges, Rect};

fn ws(id: u32, is_active: bool, is_visible: bool, has_windows: bool) -> WorkspaceState {
    WorkspaceState { id, is_active, is_visible, has_windows }
}

const RC: Edges = Edges { left: 0, top: 0, right: 1000, bottom: 28 };

#[test]
fn workspaces_stand_behind_the_icon() {
    let all = vec![ws(1, true, true, true), ws(2, false, true, true), ws(3, false, false, false)];
    let right = RightSide { clock: None, battery: None, network: None, label: None };
    let colors = BarColors::default();
    assert!(is_bar_fit(RC, 3, &String::new(), 0, &right, true));
    assert!(are_pills_fit(RC, true, 3));
    let strokes = draw_bar(RC, &all, &String::new(), 0, &right, true, &colors);
    // The background, the icon, two strokes each for the visible workspaces.
    assert_eq!(strokes.len(), 7);
    assert!(matches!(strokes[1], Stroke::Icon(6, 4, 20)));
    match &strokes[2] {
        Stroke::Fill(e, c) => {
            assert_eq!(*e, Edges { left: 32, top: 0, right: 54, bottom: 28 });
            assert_eq!(*c, colors.active_bg);
        }
        other => panic!("got {other:?}"),
    }
    match &strokes[4] {
        Stroke::Outline(e, c) => {
            assert_eq!(*e, Edges { left: 58, top: 0, right: 80, bottom: 28 });
            assert_eq!(*c, colors.visible_outline);
        }
        other => panic!("got {other:?}"),
    }
    match &strokes[6] {
        Stroke::Write(e, s, c, _) => {
            assert_eq!(*e, Edges { left: 84, top: 0, right: 106, bottom: 28 });
            assert_eq!(s, "3");
            assert_eq!(*c, colors.dim_fg);
        }
        other => panic!("got {other:?}"),
    }
    assert_eq!(workspace_clicked(RC, true, &all, 60), Some(2));
    assert_eq!(workspace_clicked(RC, true, &all, 56), None);
    assert_eq!(workspace_clicked(RC, true, &all, 10), None);
}

fn written(strokes: &[Stroke], text: &str) -> Edges {
    strokes
        .iter()
        .find_map(|s| match s {
            Stroke::Write(e, t, _, _) if t == text => Some(*e),
            _ => None,
        })
        .unwrap()
}

#[test]
fn the_title_stands_in_the_middle() {
    let right = RightSide {
        clock: Some(("12:00 PM".to_string(), 60)),
        battery: Some(("50%".to_string(), 40)),
        network: None,
        label: Some(("PAUSED".to_string(), 50)),
    };
    let colors = BarColors::default();
    let title = "title".to_string();
    let strokes = draw_bar(RC, &Vec::new(), &title, 100, &right, false, &colors);
    assert_eq!(written(&strokes, "title").left, 450);
    assert_eq!(written(&strokes, "title").right, 550);
    assert_eq!(written(&strokes, "12:00 PM").left, 930);
    assert_eq!(written(&strokes, "50%").left, 878);
    assert_eq!(written(&strokes, "PAUSED").left, 818);
    // A long title keeps clear of what is on both sides.
    let strokes = draw_bar(RC, &Vec::new(), &title, 5000, &right, false, &colors);
    assert_eq!(written(&strokes, "title").left, 10);
    assert_eq!(written(&strokes, "title").right, 808);
}

#[test]
fn indicators_in_words() {
    assert_eq!(battery_from(0x80, 50, 1), None);
    let b = battery_from(1, 50, 1).unwrap();
    assert_eq!(b, BatteryStatus { percent: 50, on_ac: true });
    assert_eq!(format_battery(b), "\u{26A1} 50%");
    assert_eq!(format_battery(BatteryStatus { percent: 255, on_ac: false }), "\u{1F50B} \u{2014}");
    assert_eq!(format_clock(0, 5), "12:05 AM");
    assert_eq!(format_clock(12, 30), "12:30 PM");
    assert_eq!(format_clock(23, 59), "11:59 PM");
    assert_eq!(format_network(NetworkKind::WiFi), "\u{1F4F6}");
}

#[test]
fn a_cable_counts_more_than_the_air() {
    let wifi = Adapter { up: true, if_type: 71 };
    let cable = Adapter { up: true, if_type: 6 };
    let unplugged = Adapter { up: false, if_type: 6 };
    assert_eq!(current_network(&vec![wifi, cable]), Some(NetworkKind::Ethernet));
    assert_eq!(current_network(&vec![wifi, unplugged]), Some(NetworkKind::WiFi));
    assert_eq!(current_network(&vec![unplugged]), None);
    let mut cache = NetworkCache::new();
    assert_eq!(cache.current_network_cached(0), None);
    cache.store(1000, Some(NetworkKind::WiFi));
    assert_eq!(cache.current_network_cached(5999), Some(Some(NetworkKind::WiFi)));
    assert_eq!(cache.current_network_cached(6000), None);
}

#[test]
fn parts_that_are_switched_off_say_nothing() {
    let first = WorkspaceState { id: 1, is_active: true, is_visible: true, has_windows: false };
    let snap = BarSnapshot {
        workspaces: vec![first],
        focused_title: "T".to_string(),
        right_label: Some("PAUSED".to_string()),
    };
    let on = BarSegments {
        icon: true,
        workspaces: true,
        focused_title: true,
        clock: true,
        battery: true,
        network: true,
        pause_indicator: true,
    };
    let t = bar_texts(on, &snap, 9, 7, None, Some(NetworkKind::Ethernet));
    assert_eq!(t.workspaces, vec![first]);
    assert_eq!(t.clock, Some("9:07 AM".to_string()));
    assert_eq!(t.battery, None);
    assert_eq!(t.network, Some("\u{1F310}".to_string()));
    assert_eq!(t.label, Some("PAUSED".to_string()));
    assert_eq!(t.title, "T");
    let off = BarSegments {
        workspaces: false,
        clock: false,
        pause_indicator: false,
        focused_title: false,
        ..on
    };
    let t = bar_texts(off, &snap, 9, 7, None, None);
    assert!(t.workspaces.is_empty());
    assert_eq!(t.clock, None);
    assert_eq!(t.label, None);
    assert_eq!(t.title, "");
    assert!(empty_snapshot().workspaces.is_empty());
    assert!(!empty_snapshot().shows_same(&snap));
    assert!(snap.shows_same(&snap.clone()));
}

#[test]
fn bars_follow_the_monitors() {
    let spec = |id: &str| BarSpec { monitor_id: id.to_string(), bounds: Rect::new(0, 0, 10, 10) };
    let (go, steps) =
        plan_bars(&vec!["a".to_string(), "b".to_string()], &vec![spec("b"), spec("c")]);
    assert_eq!(go, vec![true, false]);
    assert_eq!(steps, vec![BarStep::Move, BarStep::Create]);
}

#[test]
fn a_bar_can_end_where_the_coordinates_end() {
    let rc = Edges { left: i32::MAX - 100, top: 0, right: i32::MAX, bottom: 28 };
    let right = RightSide { clock: None, battery: None, network: None, label: None };
    let all = vec![ws(1, false, false, true), ws(2, false, false, true)];
    assert!(is_bar_fit(rc, 2, &String::new(), 0, &right, true));
    assert_eq!(workspace_clicked(rc, true, &all, i32::MAX - 100 + 58), Some(2));
    assert!(are_pills_fit(rc, true, 2));
    assert!(!are_pills_fit(rc, true, 3));
    assert!(are_pills_fit(rc, false, 4));
    assert!(!is_bar_fit(rc, 3, &String::new(), 0, &right, true));
    assert!(!are_pills_fit(rc, true, usize::MAX));
}
