use dwmend::ratio::Ratio;
use dwmend::rect::{Axis, Direction, Edges, Rect, ToRect, ToWinRect};

#[test]
fn split_vertical_halves_width() {
    let r = Rect::new(0, 0, 1920, 1080);
    let (l, r2) = r.split_vertical(Ratio::half());
    assert_eq!(l, Rect::new(0, 0, 960, 1080));
    assert_eq!(r2, Rect::new(960, 0, 960, 1080));
    assert_eq!(l.w + r2.w, 1920); // no pixel loss
}

#[test]
fn split_horizontal_halves_height() {
    let r = Rect::new(0, 0, 1920, 1080);
    let (t, b) = r.split_horizontal(Ratio::half());
    assert_eq!(t, Rect::new(0, 0, 1920, 540));
    assert_eq!(b, Rect::new(0, 540, 1920, 540));
    assert_eq!(t.h + b.h, 1080);
}

#[test]
fn inset_clamps_to_zero() {
    let r = Rect::new(0, 0, 10, 10).inset(100);
    assert_eq!(r.w, 0);
    assert_eq!(r.h, 0);
}

#[test]
fn from_ltrb_round_trip() {
    let r = Rect::from_ltrb(10, 20, 110, 220);
    assert_eq!(r, Rect::new(10, 20, 100, 200));
    assert_eq!(r.right(), 110);
    assert_eq!(r.bottom(), 220);
}

#[test]
fn direction_opposites() {
    assert_eq!(Direction::Left.opposite(), Direction::Right);
    assert_eq!(Direction::Up.opposite(), Direction::Down);
}

#[test]
fn clamp_inside_already_inside_is_no_op() {
    let inner = Rect::new(100, 100, 400, 300);
    let outer = Rect::new(0, 0, 1920, 1080);
    assert_eq!(inner.clamp_inside(outer), inner);
}

#[test]
fn clamp_inside_off_right_edge_slides_back() {
    // 800x600 floating window remembered from a 2nd monitor at x=3440
    // dragged back to fit a single 1920-wide surviving monitor.
    let stale = Rect::new(3500, 200, 800, 600);
    let surviving = Rect::new(0, 0, 1920, 1080);
    let clamped = stale.clamp_inside(surviving);
    assert_eq!(clamped.w, 800);
    assert_eq!(clamped.h, 600);
    // Right edge sits on the container's right edge.
    assert_eq!(clamped.right(), 1920);
    assert_eq!(clamped.bottom(), 800);
}

#[test]
fn clamp_inside_oversized_shrinks_then_aligns() {
    let huge = Rect::new(5000, 5000, 4000, 3000);
    let small = Rect::new(0, 0, 1280, 720);
    let clamped = huge.clamp_inside(small);
    assert_eq!(clamped, small);
}

#[test]
fn clamping_twice_is_clamping_once() {
    let container = Rect::new(10, 10, 300, 200);
    let once = Rect::new(-50, 400, 500, 90).clamp_inside(container);
    assert_eq!(once, Rect::new(10, 120, 300, 90));
    assert_eq!(once.clamp_inside(container), once);
    // An empty container moves nothing.
    assert_eq!(once.clamp_inside(Rect::new(0, 0, 0, 50)), once);
}

#[test]
fn splits_of_odd_sides_lose_no_pixel() {
    for w in [1, 3, 5, 1921, 3839] {
        let r = Rect::new(7, 9, w, w + 2);
        let (a, b) = r.split_vertical(Ratio::half());
        assert_eq!(a.w + b.w, w);
        assert_eq!(a.right(), b.left());
        let (a, b) = r.split_horizontal(Ratio::half());
        assert_eq!(a.h + b.h, w + 2);
        assert_eq!(a.bottom(), b.top());
    }
    // Half of an odd side is rounded away from zero.
    assert_eq!(Rect::new(0, 0, 5, 5).split_vertical(Ratio::half()).0.w, 3);
}

#[test]
fn ratios_split_as_single_precision_numbers_do() {
    let mut ratio = Ratio::half();
    let mut single = 0.5f32;
    for (delta, total) in [(100, 1920), (-333, 1081), (7, 2559), (10_000, 1920), (-1, 3), (64, 1366)] {
        ratio = ratio.pushed(delta, total);
        single = (single + delta as f32 / total as f32).clamp(0.1, 0.9);
        assert_eq!(ratio.units as f64 / 134_217_728.0, single as f64);
        for side in [0, 1, 2, 3, 100, 1079, 1920, 16_777_217, 2_000_000_001] {
            let px = ((side as f32 * single).round() as i32).clamp(0, side);
            assert_eq!(ratio.offset(side), px);
        }
    }
}

#[test]
fn edges_and_sides_convert_both_ways() {
    let e = Edges { left: -10, top: 5, right: 90, bottom: 55 };
    let r = e.to_rect();
    assert_eq!(r, Rect::new(-10, 5, 100, 50));
    assert_eq!(r.to_win_rect(), e);
}

#[test]
fn turning_around() {
    for d in [Direction::Left, Direction::Right, Direction::Up, Direction::Down] {
        assert_eq!(d.opposite().opposite(), d);
        assert_ne!(d.opposite(), d);
        assert_eq!(Axis::from_direction(d), Axis::from_direction(d.opposite()));
    }
    assert_eq!(Axis::Horizontal.flip(), Axis::Vertical);
    assert_eq!(Axis::Horizontal.flip().flip(), Axis::Horizontal);
    assert!(Direction::Left.is_horizontal());
    assert!(!Direction::Up.is_horizontal());
}

#[test]
fn measures_of_a_rectangle() {
    let r = Rect::new(10, 20, 31, 41);
    assert_eq!((r.left(), r.top(), r.right(), r.bottom()), (10, 20, 41, 61));
    assert_eq!((r.center_x(), r.center_y()), (25, 40));
    assert_eq!(r.area(), 1271);
    assert!(r.contains(10, 20));
    assert!(!r.contains(41, 20));
    assert_eq!(r.inset_each(1, 2, 3, 4), Rect::new(11, 22, 27, 35));
    // What is taken off one side and put on at the other need not fit in between.
    let wide = Rect::new(0, 0, i32::MAX, 5);
    assert_eq!(wide.inset_each(-9, 3, 9, 3), Rect::new(-9, 3, i32::MAX, 0));
}

#[test]
fn an_even_inset_is_an_inset_of_each_side() {
    for n in [-7, 0, 3, 2_000_000_000] {
        let r = Rect::new(10, 20, 31, 41);
        assert_eq!(r.inset(n), r.inset_each(n, n, n, n));
    }
    assert_eq!(Rect::new(0, 0, 10, 10).inset(i32::MAX), Rect::new(i32::MAX, i32::MAX, 0, 0));
}
