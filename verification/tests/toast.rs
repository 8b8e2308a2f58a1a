use dwmend::bar::Stroke;
use dwmend::rect::{Edges, Rect};
use dwmend::toast::{
    alpha_at, compute_alpha, draw_toast, glyph, AlphaState, ToastAnchor, ToastColors, ToastConfig,
    ToastLevel, ToastSpec, ToastWindow, Toasts, FADE_OUT_MS, MS,
};

/// The moment that the tests look at.
const NOW: u64 = 100_000 * MS;

fn fake_toast(monitor_id: &str, born: u64) -> ToastWindow {
    ToastWindow {
        hwnd: 0,
        monitor_id: monitor_id.to_string(),
        level: ToastLevel::Info,
        text: String::new(),
        born,
        ttl_ms: 2000,
        forced_dismiss: false,
        fade_out_start: None,
        colors: ToastColors::default(),
    }
}

#[test]
fn fade_in_ramps_alpha_from_zero() {
    // At t = born, alpha should be ~0.
    let t = fake_toast("m", NOW);
    match compute_alpha(&t, NOW) {
        AlphaState::Alpha(a) => assert!(a < 32, "expected near-zero alpha, got {a}"),
        AlphaState::Done => panic!("brand-new toast reported Done"),
    }
}

#[test]
fn hold_phase_is_full_alpha() {
    // Simulate "born 200 ms ago" so we're past fade-in.
    let mut t = fake_toast("m", NOW - 200 * MS);
    t.ttl_ms = 60_000; // ensure we're not in fade-out
    match compute_alpha(&t, NOW) {
        AlphaState::Alpha(255) => {}
        other => panic!("hold phase expected Alpha(255), got {other:?}"),
    }
}

#[test]
fn forced_dismiss_short_circuits_to_fade_out() {
    // Simulate eviction: born now, fade_out_start = now -> we
    // immediately enter fade-out and finish after FADE_OUT_MS.
    let mut t = fake_toast("m", NOW);
    t.fade_out_start = Some(NOW - (FADE_OUT_MS + 50) * MS);
    match compute_alpha(&t, NOW) {
        AlphaState::Done => {}
        other => panic!("expected Done after forced dismiss, got {other:?}"),
    }
}

#[test]
fn default_config_round_trip() {
    let cfg = ToastConfig::default();
    assert!(cfg.enabled);
    assert!(cfg.ttl_ms > 0);
    assert!(cfg.max_concurrent >= 1);
}

#[test]
fn half_way_in_is_half_opaque() {
    let t = fake_toast("m", NOW - 75 * MS);
    assert_eq!(compute_alpha(&t, NOW), AlphaState::Alpha(127));
    assert_eq!(alpha_at(&t, NOW), 127);
}

#[test]
fn half_way_out_is_half_opaque() {
    // Fading in takes 150 ms, then 2000 ms in full, then 100 of 200 ms out.
    let t = fake_toast("m", NOW - 2250 * MS);
    assert_eq!(compute_alpha(&t, NOW), AlphaState::Alpha(128));
}

#[test]
fn gone_after_fading_out() {
    let t = fake_toast("m", NOW - 2350 * MS);
    assert_eq!(compute_alpha(&t, NOW), AlphaState::Done);
}

#[test]
fn early_dismissal_starts_from_the_opacity_reached() {
    // Dismissed 75 ms after it appeared, looked at 100 ms later.
    let mut t = fake_toast("m", NOW - 175 * MS);
    t.forced_dismiss = true;
    t.fade_out_start = Some(NOW - 100 * MS);
    match compute_alpha(&t, NOW) {
        AlphaState::Alpha(a) => assert!(a <= 64),
        AlphaState::Done => panic!("not gone yet"),
    }
}

fn two_monitors(max_concurrent: u32) -> Toasts {
    let mut toasts = Toasts::new(
        vec![
            ToastSpec { monitor_id: "a".to_string(), work_area: Rect::new(0, 28, 1920, 1000) },
            ToastSpec { monitor_id: "b".to_string(), work_area: Rect::new(1920, 0, 1280, 1024) },
        ],
        ToastConfig { max_concurrent, ..ToastConfig::default() },
    );
    toasts.started = true;
    toasts
}

fn put(toasts: &mut Toasts, hwnd: isize, monitor: &str, now: u64) {
    assert!(toasts.show_on(ToastLevel::Warn, "hello".to_string(), monitor.to_string()));
    let req = toasts.next_request().unwrap();
    assert!(toasts.make_room(&req.monitor_id, now).is_some());
    toasts.add(hwnd, req, now);
}

#[test]
fn stack_grows_downwards_from_the_corner() {
    let mut toasts = two_monitors(3);
    put(&mut toasts, 1, "a", NOW);
    put(&mut toasts, 2, "a", NOW + MS);
    put(&mut toasts, 3, "b", NOW + 2 * MS);
    let places = toasts.reflow_stack(&"a".to_string());
    // 1920 - 320 - 12 from the left; 12 below the top, and 46 for each one.
    assert_eq!(places.len(), 2);
    assert!(places.iter().all(|p| p.1 == 1588));
    let mut ys: Vec<i32> = places.iter().map(|p| p.2).collect();
    ys.sort();
    assert_eq!(ys, vec![40, 86]);
    assert_eq!(toasts.reflow_stack(&"b".to_string()), vec![(3, 2868, 12)]);
    assert_eq!(toasts.reflow_all_stacks().len(), 2);
}

#[test]
fn the_oldest_makes_room() {
    let mut toasts = two_monitors(2);
    put(&mut toasts, 1, "a", NOW);
    put(&mut toasts, 2, "a", NOW + MS);
    put(&mut toasts, 3, "b", NOW + 2 * MS);
    put(&mut toasts, 4, "a", NOW + 3 * MS);
    let dismissed: Vec<isize> =
        toasts.live.iter().filter(|t| t.forced_dismiss).map(|t| t.hwnd).collect();
    assert_eq!(dismissed, vec![1]);
}

#[test]
fn what_fades_by_itself_is_let_go() {
    let mut toasts = two_monitors(1);
    put(&mut toasts, 1, "a", NOW);
    // It has held for its time and fades already: the next one finds room.
    let fading = NOW + (150 + 2200 + 190) * MS;
    let before = compute_alpha(&toasts.live[0], fading);
    put(&mut toasts, 2, "a", fading);
    assert!(toasts.live.iter().all(|t| !t.forced_dismiss));
    assert_eq!(compute_alpha(&toasts.live[0], fading), before);
    // The one that holds makes room for the third.
    put(&mut toasts, 3, "a", fading + MS);
    let dismissed: Vec<isize> =
        toasts.live.iter().filter(|t| t.forced_dismiss).map(|t| t.hwnd).collect();
    assert_eq!(dismissed, vec![2]);
}

#[test]
fn unknown_monitor_is_dropped() {
    let mut toasts = two_monitors(2);
    assert!(toasts.make_room(&"c".to_string(), NOW).is_none());
}

#[test]
fn default_monitor_gets_what_has_no_target() {
    let mut toasts = two_monitors(2);
    toasts.set_default_monitor("b".to_string());
    assert!(toasts.show(ToastLevel::Error, "no".to_string()));
    let req = toasts.next_request().unwrap();
    assert_eq!(req.monitor_id, "b");
    assert_eq!(req.text, "no");
    assert!(toasts.next_request().is_none());
}

#[test]
fn nothing_is_shown_before_the_start() {
    let mut toasts = two_monitors(2);
    toasts.started = false;
    assert!(!toasts.show(ToastLevel::Info, "x".to_string()));
    assert!(!toasts.show_on(ToastLevel::Info, "x".to_string(), "a".to_string()));
    assert!(toasts.next_request().is_none());
}

#[test]
fn nothing_is_shown_while_switched_off() {
    let mut toasts = two_monitors(2);
    toasts.set_config(ToastConfig { enabled: false, ..ToastConfig::default() });
    toasts.show(ToastLevel::Info, "x".to_string());
    match toasts.next_request() {
        None => {}
        Some(req) => assert!(toasts.make_room(&req.monitor_id, NOW).is_none()),
    }
}

#[test]
fn retired_toasts_leave_the_stack() {
    let mut toasts = two_monitors(3);
    put(&mut toasts, 1, "a", NOW);
    put(&mut toasts, 2, "a", NOW + MS);
    assert_eq!(toasts.tick(1, NOW + 10_000 * MS), Some(AlphaState::Done));
    assert_eq!(toasts.retire(1), Some("a".to_string()));
    assert_eq!(toasts.tick(1, NOW), None);
    assert_eq!(toasts.retire(1), None);
    assert_eq!(toasts.reflow_stack(&"a".to_string()), vec![(2, 1588, 40)]);
}

#[test]
fn toasts_of_an_unplugged_monitor_fade_out() {
    let mut toasts = two_monitors(3);
    put(&mut toasts, 1, "a", NOW);
    put(&mut toasts, 2, "b", NOW + MS);
    toasts.apply_sync(
        vec![ToastSpec { monitor_id: "a".to_string(), work_area: Rect::new(0, 0, 800, 600) }],
        NOW + 2 * MS,
    );
    let dismissed: Vec<isize> =
        toasts.live.iter().filter(|t| t.forced_dismiss).map(|t| t.hwnd).collect();
    assert_eq!(dismissed, vec![2]);
    assert_eq!(toasts.reflow_stack(&"a".to_string()), vec![(1, 468, 12)]);
}

#[test]
fn a_toast_is_drawn_with_its_sign() {
    let mut t = fake_toast("m", NOW);
    t.level = ToastLevel::Error;
    t.text = "bad".to_string();
    let strokes = draw_toast(&t);
    assert_eq!(strokes.len(), 3);
    match &strokes[0] {
        Stroke::Fill(e, c) => {
            assert_eq!(*e, Edges { left: 0, top: 0, right: 320, bottom: 40 });
            assert_eq!(*c, 0x003539E5);
        }
        other => panic!("got {other:?}"),
    }
    match &strokes[1] {
        Stroke::Write(e, s, c, cut) => {
            assert_eq!(*e, Edges { left: 12, top: 0, right: 36, bottom: 40 });
            assert_eq!(s, glyph(ToastLevel::Error));
            assert_eq!(*c, 0x00FFFFFF);
            assert!(!cut);
        }
        other => panic!("got {other:?}"),
    }
    match &strokes[2] {
        Stroke::Write(e, s, _, cut) => {
            assert_eq!(*e, Edges { left: 42, top: 0, right: 308, bottom: 40 });
            assert_eq!(s, "bad");
            assert!(*cut);
        }
        other => panic!("got {other:?}"),
    }
    assert_eq!(ToastConfig::default().anchor, ToastAnchor::TopRight);
}

#[test]
fn a_notification_can_appear_at_the_end_of_time() {
    let t = fake_toast("m", u64::MAX - 30 * MS);
    assert_eq!(alpha_at(&t, u64::MAX), 51);
    assert_eq!(compute_alpha(&t, u64::MAX), AlphaState::Alpha(51));
}
