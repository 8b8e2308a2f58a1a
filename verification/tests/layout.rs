use dwmend::bsp::BspTree;
use dwmend::monocle::compute;
use dwmend::rect::{Direction, Rect};
use dwmend::tree::LayoutMode;
use std::collections::{HashMap, HashSet};

fn fhd() -> Rect {
    Rect::new(0, 0, 1920, 1080)
}

#[test]
fn single_window_fills_work_area() {
    let mut t = BspTree::<u32>::new();
    t.insert(1, fhd());
    let pos = t.compute(fhd(), 0);
    assert_eq!(pos, vec![(1, fhd())]);
}

#[test]
fn two_windows_split_vertically_for_wide_area() {
    let mut t = BspTree::<u32>::new();
    t.insert(1, fhd());
    t.insert(2, fhd());
    let pos = t.compute(fhd(), 0);
    assert_eq!(pos.len(), 2);
    let r1 = pos.iter().find(|(w, _)| *w == 1).unwrap().1;
    let r2 = pos.iter().find(|(w, _)| *w == 2).unwrap().1;
    // Vertical split → left + right, each 960 wide
    assert_eq!(r1.w, 960);
    assert_eq!(r2.w, 960);
    assert_eq!(r1.h, 1080);
    assert_eq!(r2.h, 1080);
    // They tile exactly with no gap.
    assert_eq!(r1.right(), r2.left());
}

#[test]
fn spiral_alternates_split_axis() {
    // Spiral: each new split flips the parent split's axis. The first
    // split, which has no parent, is vertical. The second insert
    // splits w2's parent (vertical) into a horizontal child, so
    // w2 and w3 share the right column.
    let mut t = BspTree::<u32>::new();
    t.set_layout_mode(LayoutMode::Spiral);
    for i in 1..=3 {
        t.insert(i, fhd());
    }
    let pos = t.compute(fhd(), 0);
    let r1 = pos.iter().find(|(w, _)| *w == 1).unwrap().1;
    let r2 = pos.iter().find(|(w, _)| *w == 2).unwrap().1;
    let r3 = pos.iter().find(|(w, _)| *w == 3).unwrap().1;
    // w1 occupies the left half (vertical split first).
    assert_eq!(r1.x, 0);
    assert_eq!(r1.w, 960);
    // w2 and w3 split the right half horizontally (axis flipped
    // from the vertical parent), so they share x and width.
    assert_eq!(r2.x, 960);
    assert_eq!(r3.x, 960);
    assert_eq!(r2.w, 960);
    assert_eq!(r3.w, 960);
    // And their heights stack together to fill the right column.
    assert_eq!(r2.h + r3.h, 1080);
}

#[test]
fn spiral_four_windows_no_overlap() {
    // Sanity check: 4 inserts in spiral mode still cover the full
    // work area without overlap (each leaf rect is unique).
    let mut t = BspTree::<u32>::new();
    t.set_layout_mode(LayoutMode::Spiral);
    for i in 1..=4 {
        t.insert(i, fhd());
    }
    let pos = t.compute(fhd(), 0);
    assert_eq!(pos.len(), 4);
    let total: i64 = pos.iter().map(|(_, r)| r.area()).sum();
    assert_eq!(total, fhd().area());
    let unique: HashSet<_> = pos.iter().map(|(_, r)| *r).collect();
    assert_eq!(unique.len(), 4);
}

#[test]
fn layout_mode_round_trip() {
    let mut t = BspTree::<u32>::new();
    assert_eq!(t.layout_mode(), LayoutMode::Dwindle); // default
    t.set_layout_mode(LayoutMode::Spiral);
    assert_eq!(t.layout_mode(), LayoutMode::Spiral);
    t.set_layout_mode(LayoutMode::Dwindle);
    assert_eq!(t.layout_mode(), LayoutMode::Dwindle);
}

#[test]
fn four_windows_distinct_rects() {
    let mut t = BspTree::<u32>::new();
    for i in 1..=4 {
        t.insert(i, fhd());
    }
    let pos = t.compute(fhd(), 0);
    assert_eq!(pos.len(), 4);
    // Total area should equal the work area.
    let total: i64 = pos.iter().map(|(_, r)| r.area()).sum();
    assert_eq!(total, fhd().area());
    // All rects should be unique.
    let unique: HashSet<_> = pos.iter().map(|(_, r)| *r).collect();
    assert_eq!(unique.len(), 4);
}

#[test]
fn eight_windows_no_overlap_no_gap() {
    let mut t = BspTree::<u32>::new();
    for i in 1..=8 {
        t.insert(i, fhd());
    }
    let pos = t.compute(fhd(), 0);
    assert_eq!(pos.len(), 8);
    let total: i64 = pos.iter().map(|(_, r)| r.area()).sum();
    assert_eq!(total, fhd().area());
}

#[test]
fn remove_collapses_split() {
    let mut t = BspTree::<u32>::new();
    t.insert(1, fhd());
    t.insert(2, fhd());
    assert!(t.remove(2));
    let pos = t.compute(fhd(), 0);
    assert_eq!(pos, vec![(1, fhd())]);
    assert!(!t.is_empty());
}

#[test]
fn remove_last_empties_tree() {
    let mut t = BspTree::<u32>::new();
    t.insert(1, fhd());
    assert!(t.remove(1));
    assert!(t.is_empty());
    assert_eq!(t.len(), 0);
}

#[test]
fn gap_inset_shrinks_each_tile() {
    let mut t = BspTree::<u32>::new();
    t.insert(1, fhd());
    t.insert(2, fhd());
    let pos = t.compute(fhd(), 8);
    // Each tile should be inset by 8 px on all sides.
    let r1 = pos[0].1;
    assert_eq!(r1.w, 960 - 16);
    assert_eq!(r1.h, 1080 - 16);
}

#[test]
fn swap_preserves_geometry_swaps_payload() {
    let mut t = BspTree::<u32>::new();
    t.insert(1, fhd());
    t.insert(2, fhd());
    let before = t.compute(fhd(), 0);
    t.swap(1, 2);
    let after = t.compute(fhd(), 0);
    // The rects in the same positions are the same, but the windows in
    // them are swapped.
    let by_rect_before: HashMap<_, _> = before.iter().map(|(w, r)| (*r, *w)).collect();
    let by_rect_after: HashMap<_, _> = after.iter().map(|(w, r)| (*r, *w)).collect();
    for (r, w_before) in by_rect_before {
        assert_ne!(by_rect_after[&r], w_before);
    }
}

#[test]
fn focus_in_direction_picks_neighbour() {
    let mut t = BspTree::<u32>::new();
    t.insert(1, fhd());
    t.insert(2, fhd()); // right of 1 (vertical split)
    t.focus(1);
    let f = t.focus_in_direction(Direction::Right, fhd());
    assert_eq!(f, Some(2));
}

#[test]
fn focus_in_direction_returns_none_at_edge() {
    let mut t = BspTree::<u32>::new();
    t.insert(1, fhd());
    t.insert(2, fhd());
    t.focus(2); // right tile
    let f = t.focus_in_direction(Direction::Right, fhd());
    assert_eq!(f, None);
}

#[test]
fn move_in_direction_swaps_with_neighbour() {
    let mut t = BspTree::<u32>::new();
    t.insert(1, fhd());
    t.insert(2, fhd());
    let before = t.compute(fhd(), 0);
    assert!(t.move_in_direction(1, Direction::Right, fhd()));
    let after = t.compute(fhd(), 0);
    // window 1 should now occupy the rect window 2 used to.
    let r1_before = before.iter().find(|(w, _)| *w == 1).unwrap().1;
    let r1_after = after.iter().find(|(w, _)| *w == 1).unwrap().1;
    assert_ne!(r1_before, r1_after);
}

#[test]
fn resize_changes_split_ratio_only() {
    let mut t = BspTree::<u32>::new();
    t.insert(1, fhd());
    t.insert(2, fhd());
    let before = t.compute(fhd(), 0);
    t.resize(1, Direction::Right, 100, fhd()); // grow 1 by 100px
    let after = t.compute(fhd(), 0);
    let w1_before = before.iter().find(|(w, _)| *w == 1).unwrap().1.w;
    let w1_after = after.iter().find(|(w, _)| *w == 1).unwrap().1.w;
    assert!(w1_after > w1_before);
}

#[test]
fn resize_clamps_so_no_tile_collapses_to_zero() {
    // The split ratio stays between 0.1 and 0.9, so that one oversized
    // resize leaves room for every tile.
    let mut t = BspTree::<u32>::new();
    t.insert(1, fhd());
    t.insert(2, fhd());

    // Push the split as far left as possible - enough to overshoot
    // the 0.1 floor by an order of magnitude.
    t.resize(1, Direction::Left, 10_000, fhd());
    let rects = t.compute(fhd(), 0);
    assert_eq!(rects.len(), 2);
    for (id, r) in &rects {
        assert!(
            r.w > 0,
            "tile {id} collapsed to width {}; resize clamp regressed",
            r.w
        );
        assert!(
            r.h > 0,
            "tile {id} collapsed to height {}; resize clamp regressed",
            r.h
        );
    }
    // Specifically: the smaller side must still be at least 10% of
    // the work area's width - the documented contract of the 0.1
    // clamp. Pinning the lower edge directly catches any "0.05 is
    // close enough" softening of the bound.
    let min_w = rects.iter().map(|(_, r)| r.w).min().unwrap();
    let total = fhd().w;
    assert!(
        min_w >= total / 10,
        "smaller tile width {min_w} below 10% of total {total}; clamp regressed"
    );

    // And the symmetric case in the opposite direction.
    t.resize(1, Direction::Right, 10_000, fhd());
    let rects = t.compute(fhd(), 0);
    let min_w = rects.iter().map(|(_, r)| r.w).min().unwrap();
    assert!(
        min_w >= total / 10,
        "smaller tile width {min_w} below 10% of total after right-saturation"
    );
}

// ---- stack containers ------------------------------------------------

#[test]
fn toggle_stack_on_single_leaf_then_back() {
    let mut t = BspTree::<u32>::new();
    t.insert(1, fhd());
    assert!(t.toggle_stack_focused());
    assert_eq!(t.focused(), Some(1));
    assert_eq!(t.focused_stack_info(), Some((0, 1)));
    // Compute still emits the single member at the full area.
    assert_eq!(t.compute(fhd(), 0), vec![(1, fhd())]);
    // Toggle off returns to a plain Leaf.
    assert!(t.toggle_stack_focused());
    assert_eq!(t.focused_stack_info(), None);
    assert_eq!(t.compute(fhd(), 0), vec![(1, fhd())]);
}

#[test]
fn insert_into_focused_stack_appends_instead_of_splitting() {
    let mut t = BspTree::<u32>::new();
    t.insert(1, fhd());
    t.toggle_stack_focused();
    t.insert(2, fhd()); // joins the stack
    t.insert(3, fhd()); // also joins
    assert_eq!(t.focused_stack_info(), Some((2, 3)));
    // Visible window is the newest member, occupying the full area.
    assert_eq!(t.compute(fhd(), 0), vec![(3, fhd())]);
    // Stack members 1 and 2 are hidden.
    let hidden: HashSet<_> = t.hidden_in_stacks().into_iter().collect();
    assert_eq!(hidden, [1u32, 2].into_iter().collect());
    // windows() reports all three.
    let all: HashSet<_> = t.windows().into_iter().collect();
    assert_eq!(all, [1u32, 2, 3].into_iter().collect());
}

#[test]
fn focus_stack_next_prev_cycles() {
    let mut t = BspTree::<u32>::new();
    t.insert(1, fhd());
    t.toggle_stack_focused();
    t.insert(2, fhd());
    t.insert(3, fhd());
    // Currently focused: 3 (idx 2 of 3).
    assert_eq!(t.focused(), Some(3));
    // Next wraps around.
    assert_eq!(t.focus_stack_next(), Some(1));
    assert_eq!(t.focused(), Some(1));
    // Prev goes backwards.
    assert_eq!(t.focus_stack_prev(), Some(3));
}

#[test]
fn focus_member_updates_stack_focused_index() {
    let mut t = BspTree::<u32>::new();
    t.insert(1, fhd());
    t.toggle_stack_focused();
    t.insert(2, fhd());
    t.insert(3, fhd());
    t.focus(1);
    assert_eq!(t.focused(), Some(1));
    assert_eq!(t.compute(fhd(), 0), vec![(1, fhd())]);
}

#[test]
fn remove_from_stack_keeps_node() {
    let mut t = BspTree::<u32>::new();
    t.insert(1, fhd());
    t.toggle_stack_focused();
    t.insert(2, fhd());
    t.insert(3, fhd());
    assert!(t.remove(3));
    assert_eq!(t.focused_stack_info(), Some((1, 2))); // focused = last idx
    assert!(t.remove(1));
    assert_eq!(t.focused_stack_info(), Some((0, 1)));
    assert!(t.remove(2));
    assert!(t.is_empty());
}

#[test]
fn toggle_off_multi_stack_expands_into_splits() {
    let mut t = BspTree::<u32>::new();
    t.insert(1, fhd());
    t.toggle_stack_focused();
    t.insert(2, fhd());
    t.insert(3, fhd());
    // Expand the 3-stack back into separate tiles.
    assert!(t.toggle_stack_focused());
    let pos = t.compute(fhd(), 0);
    // Now every former member has its own rect.
    assert_eq!(pos.len(), 3);
    let total: i64 = pos.iter().map(|(_, r)| r.area()).sum();
    assert_eq!(total, fhd().area());
    // Stack info gone.
    assert_eq!(t.focused_stack_info(), None);
}

#[test]
fn stack_alongside_leaf_only_focused_member_visible() {
    // Three-tile layout so the focused leaf has a Split-shaped sibling,
    // which falls back to the 1-stack toggle. That way the *other* two
    // tiles stay visible after the toggle.
    let mut t = BspTree::<u32>::new();
    t.insert(1, fhd());
    t.insert(2, fhd()); // Split(1, 2)
    t.focus(1);
    t.insert(3, fhd()); // Splits leaf 1 again -> Split(Split(1, 3), 2)
    t.focus(2);
    // Focused leaf 2's sibling under the root Split is a Split(1, 3) —
    // not a Leaf/Stack — so toggle falls back to 1-stack on leaf 2.
    assert!(t.toggle_stack_focused());
    t.insert(4, fhd()); // joins the stack at the focused node
    let pos = t.compute(fhd(), 0);
    // 3 tiles visible: leaves 1 and 3, plus the stack's focused
    // member 4 (the original 2 is hidden behind it).
    assert_eq!(pos.len(), 3);
    let visible: HashSet<_> = pos.iter().map(|(w, _)| *w).collect();
    assert_eq!(visible, [1u32, 3, 4].into_iter().collect());
    assert_eq!(t.hidden_in_stacks(), vec![2]);
}

// ---- smart toggle merge behaviour ------------------------------------

#[test]
fn toggle_two_leaves_merges_into_stack() {
    // The headline UX behaviour: two side-by-side tiles + Alt+G should
    // visibly collapse into a single tile (a 2-stack).
    let mut t = BspTree::<u32>::new();
    t.insert(1, fhd());
    t.insert(2, fhd()); // Split(1, 2), focus on 2
    assert!(t.toggle_stack_focused());
    let pos = t.compute(fhd(), 0);
    // One visible tile now, occupying the whole work area.
    assert_eq!(pos.len(), 1);
    assert_eq!(pos[0].1, fhd());
    // Focused window is still 2 (the original focus); 1 is hidden.
    assert_eq!(t.focused(), Some(2));
    assert_eq!(t.focused_stack_info(), Some((0, 2)));
    assert_eq!(t.hidden_in_stacks(), vec![1]);
}

#[test]
fn toggle_leaf_with_stack_sibling_joins_stack() {
    // Build Split(Leaf 1, Stack[2, 3]) by inserting 1/2/3 then merging
    // the rightmost pair into a stack.
    let mut t = BspTree::<u32>::new();
    t.insert(1, fhd()); // Leaf 1 at root
    t.insert(2, fhd()); // Split(Leaf 1, Leaf 2), focus 2
    t.insert(3, fhd()); // Split(Leaf 1, Split(Leaf 2, Leaf 3)), focus 3
    t.focus(2);
    // 2's sibling is Leaf 3 → merge into Stack[2, 3] at the inner
    // split's slot. Tree becomes Split(Leaf 1, Stack[2, 3]).
    assert!(t.toggle_stack_focused());
    // Now focus Leaf 1; its sibling is the Stack.
    t.focus(1);
    assert!(t.toggle_stack_focused());
    // Result: the outer Split collapses into a single Stack at the
    // root with all three windows; 1 is the visible (just-swallowed)
    // member.
    let pos = t.compute(fhd(), 0);
    assert_eq!(pos.len(), 1);
    assert_eq!(pos[0].0, 1);
    assert_eq!(t.focused(), Some(1));
    // Stack now has three members.
    assert_eq!(t.focused_stack_info().map(|(_, n)| n), Some(3));
}

#[test]
fn toggle_stack_off_two_member_expands() {
    // Smart toggle ON, then immediate toggle OFF, should round-trip
    // back to two separate tiles.
    let mut t = BspTree::<u32>::new();
    t.insert(1, fhd());
    t.insert(2, fhd());
    t.toggle_stack_focused(); // merges into 2-stack
    assert_eq!(t.compute(fhd(), 0).len(), 1);
    t.toggle_stack_focused(); // expands back
    let pos = t.compute(fhd(), 0);
    assert_eq!(pos.len(), 2);
    let visible: HashSet<_> = pos.iter().map(|(w, _)| *w).collect();
    assert_eq!(visible, [1u32, 2].into_iter().collect());
}

#[test]
fn stack_swallow_dir_pulls_in_neighbor() {
    let mut t = BspTree::<u32>::new();
    t.insert(1, fhd());
    t.insert(2, fhd()); // Split(1, 2) — 2 on the right, focused
    // Swallow the leftward neighbor (1) into 2's tile.
    assert!(t.stack_swallow_dir(Direction::Left, fhd()));
    let pos = t.compute(fhd(), 0);
    assert_eq!(pos.len(), 1);
    // The swallowed window (1) becomes the visible member.
    assert_eq!(pos[0].0, 1);
    assert_eq!(t.focused(), Some(1));
}

#[test]
fn stack_pop_focused_extracts_member_back_to_leaf() {
    let mut t = BspTree::<u32>::new();
    t.insert(1, fhd());
    t.insert(2, fhd());
    t.toggle_stack_focused(); // 2-stack at root with [2, 1], focused 2
    assert!(t.stack_pop_focused());
    let pos = t.compute(fhd(), 0);
    // After popping the focused member (2) back out, we should be at
    // Split(Stack[1], Leaf 2) — two visible tiles again.
    assert_eq!(pos.len(), 2);
    let visible: HashSet<_> = pos.iter().map(|(w, _)| *w).collect();
    assert_eq!(visible, [1u32, 2].into_iter().collect());
}

#[test]
fn all_get_same_rect() {
    let pos = compute(&[1u32, 2, 3], Rect::new(0, 0, 1000, 800), 0);
    assert_eq!(pos.len(), 3);
    for (_, r) in &pos {
        assert_eq!(*r, Rect::new(0, 0, 1000, 800));
    }
}

#[test]
fn swapping_twice_changes_nothing() {
    let mut t = BspTree::<u32>::new();
    for i in 1..=5 {
        t.insert(i, fhd());
    }
    let before = t.compute(fhd(), 4);
    t.swap(2, 5);
    assert_ne!(t.compute(fhd(), 4), before);
    t.swap(2, 5);
    assert_eq!(t.compute(fhd(), 4), before);
}

#[test]
fn removing_undoes_inserting() {
    let mut t = BspTree::<u32>::new();
    for i in 1..=4 {
        t.insert(i, fhd());
    }
    let before = t.compute(fhd(), 0);
    t.insert(9, fhd());
    assert!(t.contains(&9));
    assert!(t.remove(9));
    assert!(!t.remove(9));
    assert_eq!(t.compute(fhd(), 0), before);
}

#[test]
fn tiles_and_hidden_windows_are_all_windows() {
    let mut t = BspTree::<u32>::new();
    for i in 1..=5 {
        t.insert(i, fhd());
    }
    t.focus(4);
    t.toggle_stack_focused();
    let mut all: Vec<u32> = t.compute(fhd(), 0).into_iter().map(|p| p.0).collect();
    all.extend(t.hidden_in_stacks());
    all.sort();
    assert_eq!(all, vec![1, 2, 3, 4, 5]);
    assert_eq!(t.len(), 5);
}

#[test]
fn spiral_turns_inwards() {
    let mut t = BspTree::<u32>::new();
    t.set_layout_mode(LayoutMode::Spiral);
    for i in 1..=4 {
        t.insert(i, fhd());
    }
    let pos = t.compute(fhd(), 0);
    assert_eq!(
        pos,
        vec![
            (1, Rect::new(0, 0, 960, 1080)),
            (2, Rect::new(960, 0, 960, 540)),
            (3, Rect::new(960, 540, 480, 540)),
            (4, Rect::new(1440, 540, 480, 540)),
        ]
    );
}

#[test]
fn spiral_starts_side_by_side_in_any_area() {
    let mut t = BspTree::<u32>::new();
    t.set_layout_mode(LayoutMode::Spiral);
    let area = Rect::new(0, 0, 100, 200);
    t.insert(1, area);
    t.insert(2, area);
    assert_eq!(
        t.compute(area, 0),
        vec![(1, Rect::new(0, 0, 50, 200)), (2, Rect::new(50, 0, 50, 200))]
    );
    t.insert(3, area);
    assert_eq!(
        t.compute(area, 0),
        vec![
            (1, Rect::new(0, 0, 50, 200)),
            (2, Rect::new(50, 0, 50, 100)),
            (3, Rect::new(50, 100, 50, 100)),
        ]
    );
}

#[test]
fn a_stack_of_one_has_a_position() {
    let mut t = BspTree::<u32>::new();
    t.insert(1, fhd());
    assert_eq!(t.stack_position(1), None);
    t.toggle_stack_focused();
    t.insert(2, fhd());
    assert_eq!(t.stack_position(1), Some((0, 2)));
    assert_eq!(t.stack_position(2), Some((1, 2)));
    assert_eq!(t.stack_position(3), None);
}

#[test]
fn resizing_moves_the_split_by_that_much() {
    let mut t = BspTree::<u32>::new();
    t.insert(1, fhd());
    t.insert(2, fhd());
    t.resize(1, Direction::Right, 96, fhd());
    assert_eq!(t.compute(fhd(), 0)[0].1, Rect::new(0, 0, 1056, 1080));
}

#[test]
fn monocle_takes_the_gap_off() {
    let pos = compute(&[7u32], Rect::new(0, 0, 100, 50), 8);
    assert_eq!(pos, vec![(7, Rect::new(8, 8, 84, 34))]);
}
