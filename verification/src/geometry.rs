//! Where the tiles are after an operation on a layout.

use crate::nearest;
use crate::ratio;
use crate::ratio::Ratio;
use crate::rect;
use crate::rect::{Axis, Direction, Rect};
use crate::tree;
use crate::tree::{Layout, LayoutMode, Tree};
use vstd::prelude::*;

verus! {

/// What is put into a place of a tree is tiled in that place.
proof fn lemma_put_inside<T>(n: Tree<T>, f: T, sub: Tree<T>, w: T, area: Rect)
    requires
        n.wf(),
        n.holds(f),
        sub.wf(),
        sub.holds(w),
        forall|x: T|
            #![trigger sub.holds(x)]
            #![trigger n.holds(x)]
            sub.holds(x) && n.holds(x) ==> n.node_of(f).holds(x),
    ensures
        n.put(f, sub).tile_of(w, area) == sub.tile_of(w, n.tile_of(f, area)),
        n.put(f, sub).node_of(w) == sub.node_of(w),
    decreases n,
{
    if let Tree::Split { axis, ratio, left, right } = n {
        let (a, b) = area.split_spec(axis, ratio);
        tree::lemma_split(n);
        if left.holds(f) {
            assert forall|x: T| sub.holds(x) && #[trigger] left.holds(x) implies left.node_of(
                f,
            ).holds(x) by {
                assert(n.holds(x));
            }
            lemma_put_inside(*left, f, sub, w, a);
            tree::lemma_put(*left, f, sub);
        } else {
            tree::lemma_node_of(*right, f);
            assert forall|x: T| sub.holds(x) && #[trigger] right.holds(x) implies right.node_of(
                f,
            ).holds(x) by {
                assert(n.holds(x));
            }
            lemma_put_inside(*right, f, sub, w, b);
            if left.holds(w) {
                assert(n.holds(w));
                assert(right.holds(w));
            }
        }
    }
}

/// What is elsewhere in a tree keeps its tile.
proof fn lemma_put_outside<T>(n: Tree<T>, f: T, sub: Tree<T>, w: T, area: Rect)
    requires
        n.wf(),
        n.holds(f),
        sub.wf(),
        n.holds(w),
        !n.node_of(f).holds(w),
        forall|x: T|
            #![trigger sub.holds(x)]
            #![trigger n.holds(x)]
            sub.holds(x) && n.holds(x) ==> n.node_of(f).holds(x),
    ensures
        n.put(f, sub).tile_of(w, area) == n.tile_of(w, area),
        n.put(f, sub).node_of(w) == n.node_of(w),
    decreases n,
{
    if let Tree::Split { axis, ratio, left, right } = n {
        let (a, b) = area.split_spec(axis, ratio);
        tree::lemma_split(n);
        if left.holds(f) {
            assert forall|x: T| sub.holds(x) && #[trigger] left.holds(x) implies left.node_of(
                f,
            ).holds(x) by {
                assert(n.holds(x));
            }
            tree::lemma_put(*left, f, sub);
            if left.holds(w) {
                lemma_put_outside(*left, f, sub, w, a);
            } else {
                assert(!left.put(f, sub).holds(w));
            }
        } else {
            assert forall|x: T| sub.holds(x) && #[trigger] right.holds(x) implies right.node_of(
                f,
            ).holds(x) by {
                assert(n.holds(x));
            }
            if !left.holds(w) {
                lemma_put_outside(*right, f, sub, w, b);
            }
        }
    }
}

/// A tile lies within the area, and can be split where the area can.
proof fn lemma_tile_within<T>(n: Tree<T>, t: T, area: Rect)
    requires
        n.wf(),
        area.valid(),
    ensures
        n.tile_of(t, area).valid(),
        n.tile_of(t, area).within(area),
    decreases n,
{
    if let Tree::Split { axis, ratio, left, right } = n {
        let (a, b) = area.split_spec(axis, ratio);
        rect::law_split_is_exact(area, axis, ratio);
        if left.holds(t) {
            lemma_tile_within(*left, t, a);
        } else {
            lemma_tile_within(*right, t, b);
        }
    }
}

/// A new window shares the tile of the focused one, half and half, and no other tile
/// changes. By its shape, a tile that is at least as wide as high is shared side by
/// side, with the new window on the right, and another with the new window below.
pub proof fn law_new_window_halves_the_focused_tile<T>(
    l: Layout<T>,
    t: T,
    area: Rect,
    other: T,
)
    requires
        l.wf(),
        l.mode == LayoutMode::Dwindle,
        l.tree is Some,
        l.focused_node() is Leaf,
        !l.holds(t),
        area.valid(),
        area.w < 0x100_0000 && area.h < 0x100_0000,
    ensures
        ({
            let f = l.focus->0;
            let whole = l.tree->0.tile_of(f, area);
            let after = l.inserted(t, area).tree->0;
            let old_one = after.tile_of(f, area);
            let new_one = after.tile_of(t, area);
            &&& whole.w >= whole.h ==> {
                &&& old_one.x == whole.x && new_one.x == old_one.x + old_one.w
                &&& new_one.x + new_one.w == whole.x + whole.w
                &&& old_one.w == new_one.w || old_one.w == new_one.w + 1
                &&& old_one.y == whole.y && new_one.y == whole.y
                &&& old_one.h == whole.h && new_one.h == whole.h
            }
            &&& whole.w < whole.h ==> {
                &&& old_one.y == whole.y && new_one.y == old_one.y + old_one.h
                &&& new_one.y + new_one.h == whole.y + whole.h
                &&& old_one.h == new_one.h || old_one.h == new_one.h + 1
                &&& old_one.x == whole.x && new_one.x == whole.x
                &&& old_one.w == whole.w && new_one.w == whole.w
            }
            &&& l.holds(other) && other != f ==> after.tile_of(other, area) == l.tree->0.tile_of(
                other,
                area,
            )
        }),
{
    lemma_inserted_tiles(l, t, area, other);
}

/// What a new window does to the tiles, along whichever axis.
proof fn lemma_inserted_tiles<T>(l: Layout<T>, t: T, area: Rect, other: T)
    requires
        l.wf(),
        l.tree is Some,
        l.focused_node() is Leaf,
        !l.holds(t),
        area.valid(),
        area.w < 0x100_0000 && area.h < 0x100_0000,
    ensures
        ({
            let f = l.focus->0;
            let whole = l.tree->0.tile_of(f, area);
            let axis = l.next_axis(area);
            let after = l.inserted(t, area).tree->0;
            let (a, b) = (after.tile_of(f, area), after.tile_of(t, area));
            &&& axis == Axis::Vertical ==> {
                &&& a.x == whole.x && b.x == a.x + a.w && b.x + b.w == whole.x + whole.w
                &&& a.w == b.w || a.w == b.w + 1
                &&& a.y == whole.y && b.y == whole.y && a.h == whole.h && b.h == whole.h
            }
            &&& axis == Axis::Horizontal ==> {
                &&& a.y == whole.y && b.y == a.y + a.h && b.y + b.h == whole.y + whole.h
                &&& a.h == b.h || a.h == b.h + 1
                &&& a.x == whole.x && b.x == whole.x && a.w == whole.w && b.w == whole.w
            }
            &&& l.holds(other) && other != f ==> after.tile_of(other, area) == l.tree->0.tile_of(
                other,
                area,
            )
        }),
{
    let n = l.tree->0;
    let f = l.focus->0;
    let whole = n.tile_of(f, area);
    tree::lemma_shows_holds(n);
    tree::lemma_node_of(n, f);
    lemma_tile_within(n, f, area);
    let node = l.focused_node();
    let leaf = Tree::Leaf { value: t };
    let axis = l.next_axis(area);
    let sub = tree::joined(axis, node, leaf);
    tree::lemma_split(sub);
    ratio::lemma_half_valid();
    assert(leaf.wf());
    assert forall|w: T| #[trigger] leaf.holds(w) <==> w == t by {}
    assert forall|w: T| #[trigger] node.holds(w) <==> w == f by {
        assert(node.holds(f));
    }
    assert(sub.wf());
    lemma_put_inside(n, f, sub, f, area);
    lemma_put_inside(n, f, sub, t, area);
    if l.holds(other) && other != f {
        lemma_put_outside(n, f, sub, other, area);
    }
    rect::law_split_is_exact(whole, axis, tree::middle());
    ratio::law_middle_halves(whole.w as nat);
    ratio::law_middle_halves(whole.h as nat);
    let (a, b) = whole.split_spec(axis, tree::middle());
    reveal_with_fuel(Tree::tile_of, 2);
    assert(sub.tile_of(f, whole) == a);
    assert(sub.tile_of(t, whole) == b);
}

/// The first of two windows has the left half, and each finds the other beside it and
/// nothing above or below.
pub proof fn law_two_windows_are_neighbours<T>(a: T, b: T, mode: LayoutMode, area: Rect)
    requires
        a != b,
        area.valid(),
        2 <= area.h <= area.w < 0x100_0000,
    ensures
        ({
            let none = Layout { tree: None, focus: None, mode };
            let l = none.inserted(a, area).inserted(b, area);
            &&& l.neighbour(a, Direction::Right, area) == Some(b)
            &&& l.neighbour(b, Direction::Left, area) == Some(a)
            &&& l.neighbour(a, Direction::Left, area) is None
            &&& l.neighbour(b, Direction::Right, area) is None
            &&& l.neighbour(a, Direction::Up, area) is None
            &&& l.neighbour(b, Direction::Down, area) is None
        }),
{
    let none = Layout { tree: None, focus: None, mode };
    let first = none.inserted(a, area);
    assert(first == Layout { tree: Some(Tree::Leaf { value: a }), focus: Some(a), mode });
    assert(!first.holds(b));
    let l = first.inserted(b, area);
    let both = tree::joined(
        Axis::Vertical,
        Tree::Leaf { value: a },
        Tree::Leaf { value: b },
    );
    assert(first.tree->0.axis_above(a) is None);
    assert(l.tree == Some(both));
    let (p, q) = area.split_spec(Axis::Vertical, tree::middle());
    rect::law_split_is_exact(area, Axis::Vertical, tree::middle());
    ratio::law_middle_halves(area.w as nat);
    let tiles = l.laid_out(area, 0);
    reveal_with_fuel(Tree::tiles, 2);
    assert(both.tiles(area) =~= seq![(a, p), (b, q)]);
    assert(p.inset_spec(0) == p && q.inset_spec(0) == q);
    assert(tiles =~= seq![(a, p), (b, q)]);
    assert(tiles[0].0 == a && tiles[1].0 == b);
    assert(tree::tile_in(tiles, a) == Some(p));
    assert(tree::tile_in(tiles, b) == Some(q));
    assert(nearest::is_nearest(tiles, a, p, Direction::Right, 1));
    nearest::lemma_nearest_unique(tiles, a, p, Direction::Right, 1);
    assert(nearest::is_nearest(tiles, b, q, Direction::Left, 0));
    nearest::lemma_nearest_unique(tiles, b, q, Direction::Left, 0);
    nearest::law_neighbour_is_found(tiles, a, p, Direction::Left);
    nearest::law_neighbour_is_found(tiles, a, p, Direction::Up);
    nearest::law_neighbour_is_found(tiles, b, q, Direction::Right);
    nearest::law_neighbour_is_found(tiles, b, q, Direction::Down);
}

// ---- neighbours -----------------------------------------------------------------

/// Each tile is the tile of its window.
pub proof fn lemma_tile_entry<T>(n: Tree<T>, area: Rect, i: int)
    requires
        n.wf(),
        area.valid(),
        0 <= i < n.tiles(area).len(),
    ensures
        n.tiles(area)[i].1 == n.tile_of(n.tiles(area)[i].0, area),
        n.tiles(area)[i].1.valid(),
    decreases n,
{
    if let Tree::Split { axis, ratio, left, right } = n {
        let (a, b) = area.split_spec(axis, ratio);
        rect::law_split_is_exact(area, axis, ratio);
        tree::lemma_tiles_show(*left, a);
        tree::lemma_tiles_show(*right, b);
        tree::lemma_shows_holds(*left);
        tree::lemma_shows_holds(*right);
        let k = left.tiles(a).len() as int;
        if i < k {
            lemma_tile_entry(*left, a, i);
            assert(n.tiles(area)[i] == left.tiles(a)[i]);
        } else {
            lemma_tile_entry(*right, b, i - k);
            assert(n.tiles(area)[i] == right.tiles(b)[i - k]);
            let w = right.tiles(b)[i - k].0;
            assert(right.holds(w));
            tree::lemma_split(n);
            assert(!left.holds(w));
        }
    }
}

/// The neighbour in a direction is a window whose tile's centre lies that way, and
/// there is one wherever some tile's centre does.
pub proof fn law_neighbour_lies_that_way<T>(l: Layout<T>, t: T, dir: Direction, area: Rect)
    requires
        l.wf(),
        l.tree is Some,
        l.tree->0.shows(t),
        area.valid(),
    ensures
        l.neighbour(t, dir, area) matches Some(other) ==> {
            let a = l.tree->0.tile_of(t, area);
            let b = l.tree->0.tile_of(other, area);
            &&& other != t
            &&& l.tree->0.shows(other)
            &&& match dir {
                Direction::Left => b.x + b.w / 2 < a.x + a.w / 2,
                Direction::Right => b.x + b.w / 2 > a.x + a.w / 2,
                Direction::Up => b.y + b.h / 2 < a.y + a.h / 2,
                Direction::Down => b.y + b.h / 2 > a.y + a.h / 2,
            }
        },
        forall|other: T|
            {
                let a = l.tree->0.tile_of(t, area);
                let b = l.tree->0.tile_of(other, area);
                &&& other != t
                &&& #[trigger] l.tree->0.shows(other)
                &&& match dir {
                    Direction::Left => b.x + b.w / 2 < a.x + a.w / 2,
                    Direction::Right => b.x + b.w / 2 > a.x + a.w / 2,
                    Direction::Up => b.y + b.h / 2 < a.y + a.h / 2,
                    Direction::Down => b.y + b.h / 2 > a.y + a.h / 2,
                }
            } ==> l.neighbour(t, dir, area) is Some,
{
    let n = l.tree->0;
    let raw = n.tiles(area);
    let tiles = l.laid_out(area, 0);
    tree::lemma_tiles_show(n, area);
    assert forall|i: int| 0 <= i < tiles.len() implies #[trigger] tiles[i] == raw[i] && tiles[i].1
        == n.tile_of(tiles[i].0, area) && tiles[i].1.valid() && n.shows(tiles[i].0) by {
        lemma_tile_entry(n, area, i);
        assert(raw[i].1.inset_spec(0) == raw[i].1);
    }
    let k = choose|i: int| 0 <= i < raw.len() && #[trigger] raw[i].0 == t;
    assert(tiles[k].0 == t);
    let h = choose|i: int| 0 <= i < tiles.len() && (#[trigger] tiles[i]).0 == t;
    let from = tree::tile_in(tiles, t)->0;
    assert(from == tiles[h].1);
    nearest::law_neighbour_is_found(tiles, t, from, dir);
    if l.neighbour(t, dir, area) is Some {
        let i = choose|i: int| nearest::is_nearest(tiles, t, from, dir, i);
        assert(l.neighbour(t, dir, area) == Some(tiles[i].0));
    }
    assert forall|other: T|
        {
            let a = l.tree->0.tile_of(t, area);
            let b = l.tree->0.tile_of(other, area);
            &&& other != t
            &&& #[trigger] l.tree->0.shows(other)
            &&& match dir {
                Direction::Left => b.x + b.w / 2 < a.x + a.w / 2,
                Direction::Right => b.x + b.w / 2 > a.x + a.w / 2,
                Direction::Up => b.y + b.h / 2 < a.y + a.h / 2,
                Direction::Down => b.y + b.h / 2 > a.y + a.h / 2,
            }
        } implies l.neighbour(t, dir, area) is Some by {
        let j = choose|i: int| 0 <= i < raw.len() && #[trigger] raw[i].0 == other;
        assert(tiles[j].0 == other);
    }
}

/// Two visible windows that are swapped have each other's tile afterwards.
pub proof fn law_swapped_pair_trades_tiles<T>(l: Layout<T>, a: T, b: T, area: Rect)
    requires
        l.wf(),
        l.tree is Some,
        l.tree->0.shows(a) && l.tree->0.shows(b),
        area.valid(),
    ensures
        ({
            let n = l.tree->0;
            let m = l.swapped(a, b).tree->0;
            &&& m.tile_of(a, area) == n.tile_of(b, area)
            &&& m.tile_of(b, area) == n.tile_of(a, area)
            &&& m.shows(a) && m.shows(b)
        }),
{
    lemma_swapped_tile(l, a, b, area, a);
    lemma_swapped_tile(l, a, b, area, b);
}

/// Swapping two windows leaves every other window its tile.
pub proof fn law_swap_spares_the_others<T>(l: Layout<T>, a: T, b: T, area: Rect, w: T)
    requires
        l.wf(),
        l.tree is Some,
        l.tree->0.shows(w),
        l.holds(a) && l.holds(b),
        w != a && w != b,
        area.valid(),
    ensures
        l.swapped(a, b).tree->0.tile_of(w, area) == l.tree->0.tile_of(w, area),
        l.swapped(a, b).tree->0.shows(w),
{
    lemma_swapped_tile(l, a, b, area, w);
}

proof fn lemma_swapped_tile<T>(l: Layout<T>, a: T, b: T, area: Rect, w: T)
    requires
        l.wf(),
        l.tree is Some,
        l.tree->0.shows(w),
        l.tree->0.shows(a) && l.tree->0.shows(b) || l.holds(a) && l.holds(b),
        area.valid(),
    ensures
        ({
            let x = tree::exchange(w, a, b);
            let m = l.swapped(a, b).tree->0;
            m.tile_of(x, area) == l.tree->0.tile_of(w, area) && m.shows(x)
        }),
{
    let n = l.tree->0;
    let m = n.swapped(a, b);
    tree::lemma_shows_holds(n);
    tree::law_swap_is_its_own_inverse(l, a, b);
    tree::law_swap_keeps_geometry(n, a, b, area);
    tree::lemma_tiles_show(n, area);
    tree::lemma_tiles_show(m, area);
    let tiles = n.tiles(area);
    let i = choose|i: int| 0 <= i < tiles.len() && #[trigger] tiles[i].0 == w;
    lemma_tile_entry(n, area, i);
    lemma_tile_entry(m, area, i);
    assert(m.shows(m.tiles(area)[i].0));
}

// ---- stacks -----------------------------------------------------------------

/// Cycling goes from each member of a stack to the next one, and from the last to the
/// first; the other way round it goes to the one before.
pub proof fn law_cycle_shows_the_next_member<T>(l: Layout<T>, children: Seq<T>, k: int)
    requires
        l.wf(),
        l.tree is Some,
        l.focused_node() is Stack,
        children == l.focused_node()->children,
        0 <= k < children.len(),
        children[k] == l.focus->0,
    ensures
        k + 1 < children.len() ==> l.cycled(true).focus == Some(children[k + 1]),
        k + 1 == children.len() ==> l.cycled(true).focus == Some(children[0]),
        k > 0 ==> l.cycled(false).focus == Some(children[k - 1]),
        k == 0 ==> l.cycled(false).focus == Some(children[children.len() - 1]),
        l.cycled(true).tree->0.shows(l.cycled(true).focus->0),
        l.cycled(false).tree->0.shows(l.cycled(false).focus->0),
{
    let n = l.tree->0;
    let f = l.focus->0;
    tree::lemma_shows_holds(n);
    tree::lemma_node_of(n, f);
    let focused = l.focused_node()->focused;
    assert(l.focused_node().shows(f));
    assert(children[focused] == f);
    assert(k == focused);
    tree::law_cycle_goes_round(l, true);
    tree::law_cycle_goes_round(l, false);
    if k + 1 < children.len() {
        assert((k + 1) % children.len() as int == k + 1) by (nonlinear_arith)
            requires
                0 <= k + 1 < children.len(),
        ;
    } else {
        assert((k + 1) % children.len() as int == 0) by (nonlinear_arith)
            requires
                k + 1 == children.len(),
                children.len() > 0,
        ;
    }
}

/// The neighbour that is swallowed shares the tile of the focused window afterwards,
/// and is the one that is seen.
pub proof fn law_swallowed_window_shares_the_tile<T>(
    l: Layout<T>,
    dir: Direction,
    area: Rect,
    other: T,
)
    requires
        l.wf(),
        l.focus is Some,
        l.neighbour(l.focus->0, dir, area) == Some(other),
    ensures
        ({
            let after = l.swallowed(dir, area);
            let f = l.focus->0;
            let node = after.tree->0.node_of(f);
            &&& node is Stack
            &&& node.holds(f) && node.holds(other)
            &&& node == after.tree->0.node_of(other)
            &&& node.shows(other)
            &&& node->children.last() == other
            &&& after.focus == Some(other)
        }),
{
    let f = l.focus->0;
    tree::law_swallow_keeps_windows(l, dir, area);
    tree::law_remove_drops_the_window(l, other);
    tree::lemma_shows_holds(l.tree->0);
    let n = l.removed(other).tree->0;
    assert(l.holds(f) && other != f);
    assert(l.removed(other).holds(f));
    tree::lemma_node_of(n, f);
    let node = n.node_of(f);
    let sub = node.with_member(other);
    assert(!l.removed(other).holds(other));
    assert(!n.holds(other));
    lemma_member(node, other);
    lemma_put_inside(n, f, sub, f, area);
    lemma_put_inside(n, f, sub, other, area);
}

/// A leaf or stack with one more member.
proof fn lemma_member<T>(node: Tree<T>, t: T)
    requires
        node.wf(),
        !(node is Split),
        !node.holds(t),
    ensures
        node.with_member(t).wf(),
        node.with_member(t) is Stack,
        node.with_member(t).shows(t),
        forall|w: T| #[trigger] node.with_member(t).holds(w) <==> node.holds(w) || w == t,
{
    let after = node.with_member(t);
    match node {
        Tree::Leaf { value } => {
            assert(after->children =~= seq![value, t]);
            assert forall|w: T| #[trigger] after.holds(w) <==> node.holds(w) || w == t by {
                assert(after->children[0] == value && after->children[1] == t);
            }
        },
        Tree::Stack { children, focused } => {
            let more = children.push(t);
            assert forall|w: T| #[trigger] more.contains(w) <==> children.contains(w) || w == t by {
                if children.contains(w) {
                    let i = children.index_of(w);
                    assert(more[i] == w);
                }
                assert(more[children.len() as int] == t);
            }
        },
        _ => {},
    }
}

/// What is put in place of a split stands there.
proof fn lemma_put_above_inside<T>(n: Tree<T>, f: T, sub: Tree<T>, w: T)
    requires
        n.wf(),
        n.holds(f),
        n is Split,
        sub.wf(),
        sub.holds(w),
        forall|x: T|
            #![trigger sub.holds(x)]
            #![trigger n.holds(x)]
            sub.holds(x) && n.holds(x) ==> n.node_of(f).holds(x) || n.sibling_of(f)->0.holds(x),
    ensures
        n.put_above(f, sub).node_of(w) == sub.node_of(w),
    decreases n,
{
    if let Tree::Split { axis, ratio, left, right } = n {
        tree::lemma_split(n);
        if left.holds(f) {
            if *left is Split {
                assert forall|x: T| sub.holds(x) && #[trigger] left.holds(x) implies left.node_of(
                    f,
                ).holds(x) || left.sibling_of(f)->0.holds(x) by {
                    assert(n.holds(x));
                }
                lemma_put_above_inside(*left, f, sub, w);
                tree::lemma_put_above(*left, f, sub);
            }
        } else if *right is Split {
            tree::lemma_node_of(*right, f);
            tree::lemma_sibling_of(*right, f);
            assert forall|x: T| sub.holds(x) && #[trigger] right.holds(x) implies right.node_of(
                f,
            ).holds(x) || right.sibling_of(f)->0.holds(x) by {
                assert(n.holds(x));
            }
            lemma_put_above_inside(*right, f, sub, w);
            if left.holds(w) {
                assert(n.holds(w));
                assert(right.holds(w));
            }
        }
    }
}

/// Stacking a window puts it together with the window beside it: they share one tile,
/// and the focused one is seen. A window beside a stack joins the stack.
pub proof fn law_stacking_merges_with_the_sibling<T>(l: Layout<T>, other: T)
    requires
        l.wf(),
        l.tree is Some,
        l.focused_node() is Leaf,
        l.tree->0.sibling_of(l.focus->0) matches Some(s) && !(s is Split) && s.holds(other),
    ensures
        ({
            let f = l.focus->0;
            let node = l.toggled().tree->0.node_of(f);
            &&& node is Stack
            &&& node.holds(f) && node.holds(other) && f != other
            &&& node.shows(f)
            &&& l.tree->0.sibling_of(f)->0 is Leaf ==> node->children == seq![f, other]
            &&& l.tree->0.sibling_of(f)->0 is Stack ==> node->children.last() == f
            &&& l.toggled().focus == Some(f)
        }),
{
    let n = l.tree->0;
    let f = l.focus->0;
    tree::lemma_shows_holds(n);
    tree::lemma_node_of(n, f);
    tree::lemma_sibling_of(n, f);
    let s = n.sibling_of(f)->0;
    match s {
        Tree::Leaf { value } => {
            let pair = Tree::Stack { children: seq![f, value], focused: 0 };
            assert(pair->children[0] == f && pair->children[1] == value);
            assert(s.holds(value));
            assert(!n.node_of(f).holds(value));
            assert forall|x: T| #[trigger] pair.holds(x) implies x == f || x == value by {}
            assert(pair.holds(f) && pair.holds(value));
            lemma_put_above_inside(n, f, pair, f);
            assert(pair.node_of(f) == pair);
        },
        Tree::Stack { children, focused } => {
            let all = Tree::Stack { children: children.push(f), focused: children.len() as int };
            assert(!s.holds(f));
            lemma_member(s, f);
            assert(all == s.with_member(f));
            assert(all.holds(f));
            assert(all.holds(other));
            lemma_put_above_inside(n, f, all, f);
            assert(all.node_of(f) == all);
        },
        _ => {},
    }
}

/// Every member of a chain has a tile of its own.
proof fn lemma_chain_of_leaves<T>(members: Seq<T>, w: T)
    requires
        members.no_duplicates(),
        members.contains(w),
    ensures
        tree::chain(members).node_of(w) == (Tree::Leaf { value: w }),
    decreases members.len(),
{
    reveal_with_fuel(Tree::node_of, 2);
    let k = choose|k: int| 0 <= k < members.len() && members[k] == w;
    if members.len() > 1 {
        let leaf = Tree::Leaf { value: members[0] };
        assert(leaf.holds(w) <==> w == members[0]);
        if w != members[0] {
            let rest = members.drop_first();
            assert(rest[k - 1] == w);
            lemma_chain_of_leaves(rest, w);
        }
    }
}

/// Toggling a stack gives each of its members a tile of its own.
pub proof fn law_unstacking_gives_each_a_tile<T>(l: Layout<T>, w: T)
    requires
        l.wf(),
        l.tree is Some,
        l.focused_node() is Stack,
        l.focused_node().holds(w),
    ensures
        l.toggled().tree->0.node_of(w) == (Tree::Leaf { value: w }),
        l.toggled().focus == l.focus,
{
    let n = l.tree->0;
    let f = l.focus->0;
    tree::lemma_shows_holds(n);
    tree::lemma_node_of(n, f);
    let members = l.focused_node()->children;
    tree::lemma_chain(members);
    lemma_chain_of_leaves(members, w);
    let sub = tree::chain(members);
    assert forall|x: T| #[trigger] sub.holds(x) implies n.node_of(f).holds(x) by {}
    lemma_put_inside(n, f, sub, w, Rect { x: 0, y: 0, w: 0, h: 0 });
}

/// The tiles of a chain stand side by side, in the order of its members.
proof fn lemma_chain_stands_side_by_side<T>(members: Seq<T>, i: int, j: int, area: Rect)
    requires
        members.no_duplicates(),
        0 <= i < j < members.len(),
        area.valid(),
    ensures
        ({
            let n = tree::chain(members);
            let a = n.tile_of(members[i], area);
            let b = n.tile_of(members[j], area);
            &&& area.x <= a.x && a.x + a.w <= b.x && b.x + b.w <= area.x + area.w
            &&& a.y == area.y && a.h == area.h && b.y == area.y && b.h == area.h
        }),
    decreases members.len(),
{
    let n = tree::chain(members);
    let rest = members.drop_first();
    let (p, q) = area.split_spec(Axis::Vertical, tree::middle());
    ratio::lemma_half_valid();
    rect::law_split_is_exact(area, Axis::Vertical, tree::middle());
    let leaf = Tree::Leaf { value: members[0] };
    assert(leaf.holds(members[i]) <==> i == 0);
    assert(!leaf.holds(members[j]));
    reveal_with_fuel(Tree::tile_of, 2);
    assert(rest.no_duplicates());
    assert(rest[j - 1] == members[j]);
    lemma_chain_tile(rest, j - 1, q);
    if i > 0 {
        assert(rest[i - 1] == members[i]);
        lemma_chain_stands_side_by_side(rest, i - 1, j - 1, q);
    }
}

proof fn lemma_chain_tile<T>(members: Seq<T>, i: int, area: Rect)
    requires
        members.no_duplicates(),
        0 <= i < members.len(),
        area.valid(),
    ensures
        ({
            let a = tree::chain(members).tile_of(members[i], area);
            &&& area.x <= a.x && a.x + a.w <= area.x + area.w
            &&& a.y == area.y && a.h == area.h
        }),
    decreases members.len(),
{
    reveal_with_fuel(Tree::tile_of, 2);
    if members.len() > 1 {
        let rest = members.drop_first();
        let (p, q) = area.split_spec(Axis::Vertical, tree::middle());
        ratio::lemma_half_valid();
        rect::law_split_is_exact(area, Axis::Vertical, tree::middle());
        let leaf = Tree::Leaf { value: members[0] };
        assert(leaf.holds(members[i]) <==> i == 0);
        if i > 0 {
            assert(rest.no_duplicates());
            assert(rest[i - 1] == members[i]);
            lemma_chain_tile(rest, i - 1, q);
        }
    }
}

/// The members of a stack that is taken apart stand side by side in the tile of the stack,
/// in their order.
pub proof fn law_unstacked_windows_stand_side_by_side<T>(
    l: Layout<T>,
    i: int,
    j: int,
    area: Rect,
)
    requires
        l.wf(),
        l.tree is Some,
        l.focused_node() is Stack,
        0 <= i < j < l.focused_node()->children.len(),
        area.valid(),
    ensures
        ({
            let whole = l.tree->0.tile_of(l.focus->0, area);
            let after = l.toggled().tree->0;
            let a = after.tile_of(l.focused_node()->children[i], area);
            let b = after.tile_of(l.focused_node()->children[j], area);
            &&& whole.x <= a.x && a.x + a.w <= b.x && b.x + b.w <= whole.x + whole.w
            &&& a.y == whole.y && a.h == whole.h && b.y == whole.y && b.h == whole.h
        }),
{
    let n = l.tree->0;
    let f = l.focus->0;
    tree::lemma_shows_holds(n);
    tree::lemma_node_of(n, f);
    lemma_tile_within(n, f, area);
    let members = l.focused_node()->children;
    let sub = tree::chain(members);
    tree::lemma_chain(members);
    assert(members.contains(members[i]) && members.contains(members[j]));
    assert forall|x: T| #[trigger] sub.holds(x) implies n.node_of(f).holds(x) by {}
    lemma_put_inside(n, f, sub, members[i], area);
    lemma_put_inside(n, f, sub, members[j], area);
    lemma_chain_stands_side_by_side(members, i, j, n.tile_of(f, area));
}

/// The window that is popped out of a stack has the right part of the stack's tile,
/// and the rest of the stack the left one.
pub proof fn law_popped_window_stands_to_the_right<T>(l: Layout<T>, area: Rect, other: T)
    requires
        l.wf(),
        l.can_pop(),
        l.focused_node().holds(other),
        other != l.focus->0,
        area.valid(),
        area.w < 0x100_0000,
    ensures
        ({
            let f = l.focus->0;
            let whole = l.tree->0.tile_of(f, area);
            let after = l.popped().tree->0;
            let a = after.tile_of(other, area);
            let b = after.tile_of(f, area);
            &&& a.x == whole.x && b.x == a.x + a.w && b.x + b.w == whole.x + whole.w
            &&& a.w == b.w || a.w == b.w + 1
            &&& a.y == whole.y && b.y == whole.y && a.h == whole.h && b.h == whole.h
        }),
{
    let n = l.tree->0;
    let f = l.focus->0;
    let node = l.focused_node();
    tree::lemma_shows_holds(n);
    tree::lemma_node_of(n, f);
    lemma_tile_within(n, f, area);
    tree::lemma_less(node, f);
    let left = node.reduced(f);
    lemma_reduced(node, f);
    let leaf = Tree::Leaf { value: f };
    let sub = tree::joined(Axis::Vertical, left, leaf);
    tree::lemma_split(sub);
    ratio::lemma_half_valid();
    assert forall|x: T| #[trigger] leaf.holds(x) <==> x == f by {}
    assert(leaf.wf());
    assert(sub.wf());
    lemma_put_inside(n, f, sub, f, area);
    lemma_put_inside(n, f, sub, other, area);
    let whole = n.tile_of(f, area);
    rect::law_split_is_exact(whole, Axis::Vertical, tree::middle());
    ratio::law_middle_halves(whole.w as nat);
    reveal_with_fuel(Tree::tile_of, 2);
    assert(!(left is Split));
}

/// What is left of a stack of several.
proof fn lemma_reduced<T>(node: Tree<T>, f: T)
    requires
        node.wf(),
        node is Stack,
        node->children.len() > 1,
        node.holds(f),
    ensures
        node.reduced(f).wf(),
        !(node.reduced(f) is Split),
        forall|x: T| #[trigger] node.reduced(f).holds(x) <==> node.holds(x) && x != f,
{
    tree::lemma_less(node, f);
    let children = node->children;
    let rest = children.remove(children.index_of(f));
    assert(rest.len() == children.len() - 1);
    let less = node.less(f)->0;
    if rest.len() == 1 {
        assert forall|x: T| #[trigger] node.reduced(f).holds(x) <==> node.holds(x) && x != f by {
            assert(less.holds(x) <==> node.holds(x) && x != f);
            if less.holds(x) {
                assert(rest[rest.index_of(x)] == x);
            }
            assert(rest.contains(rest[0]));
        }
    }
}

// ---- coming into a stack, and leaving -----------------------------------------

/// A new window joins the focused stack: it shares the stack's tile and is the one that
/// is seen.
pub proof fn law_new_window_joins_the_focused_stack<T>(l: Layout<T>, t: T, area: Rect)
    requires
        l.wf(),
        l.tree is Some,
        l.focused_node() is Stack,
        !l.holds(t),
        area.valid(),
    ensures
        ({
            let f = l.focus->0;
            let after = l.inserted(t, area).tree->0;
            &&& after.node_of(t) == after.node_of(f)
            &&& after.node_of(t).shows(t)
            &&& after.node_of(t)->children == l.focused_node()->children.push(t)
            &&& after.tile_of(t, area) == l.tree->0.tile_of(f, area)
            &&& after.tile_of(f, area) == l.tree->0.tile_of(f, area)
            &&& l.inserted(t, area).focus == Some(t)
        }),
{
    let n = l.tree->0;
    let f = l.focus->0;
    tree::lemma_shows_holds(n);
    tree::lemma_node_of(n, f);
    let node = l.focused_node();
    let sub = node.with_member(t);
    lemma_member(node, t);
    lemma_put_inside(n, f, sub, f, area);
    lemma_put_inside(n, f, sub, t, area);
}

/// Where the visible member leaves a stack, the next one is seen in its place, or the one
/// before where it was the last; where a later member leaves, the visible one stays. A
/// member in front of it that leaves moves the others up, so that the one behind the
/// visible one is seen, where there is one.
pub proof fn law_stack_shows_another_member<T>(l: Layout<T>, at: int, k: int, area: Rect)
    requires
        l.wf(),
        l.tree is Some,
        l.focused_node() is Stack,
        l.focused_node()->children.len() > 1,
        at == l.focused_node()->focused,
        0 <= k < l.focused_node()->children.len(),
    ensures
        ({
            let children = l.focused_node()->children;
            let next = if k > at {
                children[at]
            } else if at + 1 < children.len() {
                children[at + 1]
            } else if k == at {
                children[at - 1]
            } else {
                children[at]
            };
            let after = l.removed(children[k]);
            &&& after.focus == Some(next)
            &&& after.tree->0.shows(next)
            &&& after.tree->0.tile_of(next, area) == l.tree->0.tile_of(l.focus->0, area)
        }),
{
    let n = l.tree->0;
    let f = l.focus->0;
    tree::lemma_shows_holds(n);
    tree::lemma_node_of(n, f);
    let node = l.focused_node();
    let children = node->children;
    assert(children[at] == f);
    let t = children[k];
    assert(node.holds(t));
    assert(n.holds(t));
    lemma_same_node(n, f, t);
    assert(children.index_of(t) == k);
    tree::lemma_less(node, t);
    let sub = node.less(t)->0;
    let next = sub->children[sub->focused];
    assert(sub.holds(next));
    tree::law_remove_drops_the_window(l, t);
    lemma_put_same(n, f, t, sub);
    lemma_put_inside(n, f, sub, next, area);
    let after = l.removed(t).tree->0;
    tree::lemma_put(n, f, sub);
}

/// The members of a stack are in the same place of the tree.
proof fn lemma_same_node<T>(n: Tree<T>, f: T, t: T)
    requires
        n.wf(),
        n.holds(f),
        n.node_of(f).holds(t),
    ensures
        n.node_of(t) == n.node_of(f),
    decreases n,
{
    if let Tree::Split { axis, ratio, left, right } = n {
        tree::lemma_split(n);
        if left.holds(f) {
            lemma_same_node(*left, f, t);
            tree::lemma_node_of(*left, f);
        } else {
            lemma_same_node(*right, f, t);
            tree::lemma_node_of(*right, f);
        }
    }
}

proof fn lemma_put_same<T>(n: Tree<T>, f: T, t: T, sub: Tree<T>)
    requires
        n.wf(),
        n.holds(f),
        n.node_of(f).holds(t),
    ensures
        n.put(t, sub) == n.put(f, sub),
    decreases n,
{
    if let Tree::Split { axis, ratio, left, right } = n {
        tree::lemma_split(n);
        if left.holds(f) {
            lemma_put_same(*left, f, t, sub);
            tree::lemma_node_of(*left, f);
        } else {
            lemma_put_same(*right, f, t, sub);
            tree::lemma_node_of(*right, f);
        }
    }
}

/// A window that stands beside one tile leaves its own to it: the tile grows over both.
/// The focus goes there where it was on the window that left.
pub proof fn law_neighbour_takes_the_room<T>(l: Layout<T>, t: T, w: T, area: Rect)
    requires
        l.wf(),
        l.holds(t),
        l.tree->0.node_of(t) is Leaf,
        l.tree->0.sibling_of(t) matches Some(s) && !(s is Split) && s.shows(w),
        area.valid(),
    ensures
        ({
            let a = l.tree->0.tile_of(t, area);
            let b = l.tree->0.tile_of(w, area);
            let r = l.removed(t).tree->0.tile_of(w, area);
            &&& r.x == a.x || r.x == b.x
            &&& r.y == a.y || r.y == b.y
            &&& r.x <= a.x && r.x <= b.x && r.y <= a.y && r.y <= b.y
            &&& r.x + r.w == a.x + a.w || r.x + r.w == b.x + b.w
            &&& r.x + r.w >= a.x + a.w && r.x + r.w >= b.x + b.w
            &&& r.y + r.h == a.y + a.h || r.y + r.h == b.y + b.h
            &&& r.y + r.h >= a.y + a.h && r.y + r.h >= b.y + b.h
            &&& l.focus == Some(t) ==> l.removed(t).focus == Some(w)
        }),
{
    let n = l.tree->0;
    tree::lemma_shows_holds(n);
    tree::lemma_node_of(n, t);
    tree::lemma_sibling_of(n, t);
    lemma_room(n, t, w, area);
}

/// Where the focused tile goes away, the first tile of what stands beside it gets the
/// focus.
pub proof fn law_first_tile_gets_the_focus<T>(l: Layout<T>, t: T, area: Rect)
    requires
        l.wf(),
        l.focus == Some(t),
        l.holds(t),
        l.tree->0.node_of(t) is Leaf,
    ensures
        l.tree->0.sibling_of(t) matches Some(s) ==> l.removed(t).focus == Some(
            s.tiles(area)[0].0,
        ),
        l.tree->0.sibling_of(t) is None ==> l.removed(t).focus is None && l.removed(t).tree is None,
{
    tree::lemma_node_of(l.tree->0, t);
    if l.tree->0.sibling_of(t) is Some {
        let s = l.tree->0.sibling_of(t)->0;
        tree::lemma_sibling_of(l.tree->0, t);
        lemma_front(s, area);
    }
}

proof fn lemma_front<T>(n: Tree<T>, area: Rect)
    ensures
        n.tiles(area).len() > 0,
        n.front() == n.tiles(area)[0].0,
    decreases n,
{
    if let Tree::Split { axis, ratio, left, right } = n {
        let (a, b) = area.split_spec(axis, ratio);
        lemma_front(*left, a);
    }
}

proof fn lemma_room<T>(n: Tree<T>, t: T, w: T, area: Rect)
    requires
        n.wf(),
        n.holds(t),
        n.node_of(t) is Leaf,
        n.sibling_of(t) matches Some(s) && !(s is Split) && s.shows(w),
        area.valid(),
    ensures
        ({
            let s = n.sibling_of(t)->0;
            let a = n.tile_of(t, area);
            let b = n.tile_of(w, area);
            let r = n.put_above(t, s).tile_of(w, area);
            &&& s.holds(w) && w != t
            &&& r.x == a.x || r.x == b.x
            &&& r.y == a.y || r.y == b.y
            &&& r.x <= a.x && r.x <= b.x && r.y <= a.y && r.y <= b.y
            &&& r.x + r.w == a.x + a.w || r.x + r.w == b.x + b.w
            &&& r.x + r.w >= a.x + a.w && r.x + r.w >= b.x + b.w
            &&& r.y + r.h == a.y + a.h || r.y + r.h == b.y + b.h
            &&& r.y + r.h >= a.y + a.h && r.y + r.h >= b.y + b.h
        }),
    decreases n,
{
    let s = n.sibling_of(t)->0;
    if let Tree::Split { axis, ratio, left, right } = n {
        let (p, q) = area.split_spec(axis, ratio);
        rect::law_split_is_exact(area, axis, ratio);
        tree::lemma_split(n);
        tree::lemma_shows_holds(*left);
        tree::lemma_shows_holds(*right);
        tree::lemma_sibling_of(n, t);
        tree::lemma_shows_holds(s);
        if left.holds(t) {
            if *left is Split {
                lemma_room(*left, t, w, p);
                tree::lemma_put_above(*left, t, s);
                tree::lemma_sibling_of(*left, t);
            } else {
                reveal_with_fuel(Tree::tile_of, 2);
            }
        } else if *right is Split {
            lemma_room(*right, t, w, q);
            tree::lemma_sibling_of(*right, t);
        } else {
            reveal_with_fuel(Tree::tile_of, 2);
        }
    }
}

// ---- resizing -----------------------------------------------------------------

/// Pushing to one side is pulling from the other.
pub proof fn law_resize_has_two_sides<T>(l: Layout<T>, t: T, delta: int, area: Rect)
    ensures
        l.resized(t, Direction::Left, delta, area) == l.resized(
            t,
            Direction::Right,
            -delta,
            area,
        ),
        l.resized(t, Direction::Up, delta, area) == l.resized(t, Direction::Down, -delta, area),
{
}

/// The top and the height of a tile depend on those of the area alone, and so do the
/// left and the width.
proof fn lemma_sides_are_apart<T>(n: Tree<T>, w: T, a: Rect, b: Rect)
    requires
        n.wf(),
        a.valid() && b.valid(),
    ensures
        a.y == b.y && a.h == b.h ==> n.tile_of(w, a).y == n.tile_of(w, b).y && n.tile_of(w, a).h
            == n.tile_of(w, b).h,
        a.x == b.x && a.w == b.w ==> n.tile_of(w, a).x == n.tile_of(w, b).x && n.tile_of(w, a).w
            == n.tile_of(w, b).w,
    decreases n,
{
    if let Tree::Split { axis, ratio, left, right } = n {
        let (a1, a2) = a.split_spec(axis, ratio);
        let (b1, b2) = b.split_spec(axis, ratio);
        rect::law_split_is_exact(a, axis, ratio);
        rect::law_split_is_exact(b, axis, ratio);
        if left.holds(w) {
            lemma_sides_are_apart(*left, w, a1, b1);
        } else {
            lemma_sides_are_apart(*right, w, a2, b2);
        }
    }
}

proof fn lemma_pushed_tiles<T>(n: Tree<T>, t: T, along: Axis, delta: int, area: Rect, w: T)
    requires
        n.wf(),
        area.valid(),
    ensures
        along == Axis::Vertical ==> n.pushed(t, along, delta, area).tile_of(w, area).y
            == n.tile_of(w, area).y && n.pushed(t, along, delta, area).tile_of(w, area).h
            == n.tile_of(w, area).h,
        along == Axis::Horizontal ==> n.pushed(t, along, delta, area).tile_of(w, area).x
            == n.tile_of(w, area).x && n.pushed(t, along, delta, area).tile_of(w, area).w
            == n.tile_of(w, area).w,
    decreases n,
{
    if let Tree::Split { axis, ratio, left, right } = n {
        let (a, b) = area.split_spec(axis, ratio);
        rect::law_split_is_exact(area, axis, ratio);
        tree::lemma_pushed(*left, t, along, delta, a);
        tree::lemma_pushed(*right, t, along, delta, b);
        let side = if left.holds(t) {
            left
        } else {
            right
        };
        if side.has_split_above(t, along) {
            lemma_pushed_tiles(*left, t, along, delta, a, w);
            lemma_pushed_tiles(*right, t, along, delta, b, w);
        } else if axis == along && area.length(along) > 0 {
            let units = ratio::pushed_spec(ratio.units as nat, delta, area.length(along) as nat);
            ratio::lemma_pushed_valid(ratio.units as nat, delta, area.length(along) as nat);
            let moved = Ratio { units: units as u32 };
            let (c, d) = area.split_spec(axis, moved);
            rect::law_split_is_exact(area, axis, moved);
            if left.holds(w) {
                lemma_sides_are_apart(*left, w, a, c);
            } else {
                lemma_sides_are_apart(*right, w, b, d);
            }
        }
    }
}

/// Resizing to the side changes no tile's height, and resizing up or down no width.
pub proof fn law_resize_keeps_the_other_side<T>(
    l: Layout<T>,
    t: T,
    dir: Direction,
    delta: int,
    area: Rect,
    w: T,
)
    requires
        l.wf(),
        l.tree is Some,
        area.valid(),
    ensures
        ({
            let before = l.tree->0.tile_of(w, area);
            let after = l.resized(t, dir, delta, area).tree->0.tile_of(w, area);
            &&& dir is Left || dir is Right ==> after.y == before.y && after.h == before.h
            &&& dir is Up || dir is Down ==> after.x == before.x && after.w == before.w
        }),
{
    let toward_end = dir is Right || dir is Down;
    let by = if toward_end {
        delta
    } else {
        -delta
    };
    lemma_pushed_tiles(l.tree->0, t, Axis::across(dir), by, area, w);
}

/// Where two windows stand side by side, pushing to the right makes the left one wider
/// and the right one narrower by as many pixels, give or take one, and pulling to the
/// left does the opposite; each keeps at least a tenth.
pub proof fn law_resize_moves_the_border<T>(
    l: Layout<T>,
    a: T,
    b: T,
    ratio: Ratio,
    t: T,
    delta: int,
    area: Rect,
)
    requires
        a != b,
        t == a || t == b,
        ratio.valid(),
        l.tree == Some(
            Tree::Split {
                axis: Axis::Vertical,
                ratio,
                left: Box::new(Tree::Leaf { value: a }),
                right: Box::new(Tree::Leaf { value: b }),
            },
        ),
        area.valid(),
        0 < area.w <= 0x10_0000,
        -area.w <= delta <= area.w,
    ensures
        ({
            let n = l.tree->0;
            let m = l.resized(t, Direction::Right, delta, area).tree->0;
            let before = n.tile_of(a, area);
            let after = m.tile_of(a, area);
            let rest = m.tile_of(b, area);
            &&& after.x == area.x && rest.x == after.x + after.w && rest.x + rest.w == area.x
                + area.w
            &&& delta >= 0 ==> after.w >= before.w
            &&& delta <= 0 ==> after.w <= before.w
            &&& 10 * (before.w + delta) >= area.w + 20 && 10 * (before.w + delta) <= 9 * area.w - 20
                ==> before.w + delta - 1 <= after.w <= before.w + delta + 1
            &&& area.w / 10 <= after.w <= area.w - area.w / 10
            &&& l.resized(t, Direction::Down, delta, area).tree->0.tile_of(a, area) == before
        }),
{
    let n = l.tree->0;
    let total = area.w as nat;
    let units = ratio::pushed_spec(ratio.units as nat, delta, total);
    ratio::lemma_pushed_valid(ratio.units as nat, delta, total);
    let moved = Ratio { units: units as u32 };
    reveal_with_fuel(Tree::pushed, 2);
    reveal_with_fuel(Tree::tile_of, 2);
    reveal_with_fuel(Tree::has_split_above, 2);
    reveal_with_fuel(Tree::holds, 2);
    let m = l.resized(t, Direction::Right, delta, area).tree->0;
    assert(l.holds(t));
    assert(m == Tree::Split { axis: Axis::Vertical, ratio: moved, left: n->left, right: n->right });
    rect::law_split_is_exact(area, Axis::Vertical, ratio);
    rect::law_split_is_exact(area, Axis::Vertical, moved);
    ratio::law_push_direction(ratio, delta, total);
    ratio::law_split_keeps_a_tenth(moved, total);
    if 10 * (n.tile_of(a, area).w + delta) >= area.w + 20 && 10 * (n.tile_of(a, area).w + delta) <= 9
        * area.w - 20 {
        ratio::law_push_moves_by_pixels(ratio, delta, total);
    }
    if delta >= 0 {
        ratio::law_larger_ratio_is_no_earlier(ratio.units as nat, units, total);
    }
    if delta <= 0 {
        ratio::law_larger_ratio_is_no_earlier(units, ratio.units as nat, total);
    }
    assert(l.resized(t, Direction::Down, delta, area).tree->0 == n);
}

/// Of two splits that could make room for a window, the closest one moves. With two
/// windows side by side in the left part, pushing at the first leaves the right part
/// alone; with one above the other, the border to the right part moves.
pub proof fn law_closest_split_moves<T>(
    l: Layout<T>,
    a: T,
    b: T,
    c: T,
    outer: Ratio,
    inner: Ratio,
    axis: Axis,
    delta: int,
    area: Rect,
)
    requires
        a != b && b != c && a != c,
        outer.valid() && inner.valid(),
        l.tree == Some(
            Tree::Split {
                axis: Axis::Vertical,
                ratio: outer,
                left: Box::new(
                    Tree::Split {
                        axis,
                        ratio: inner,
                        left: Box::new(Tree::Leaf { value: a }),
                        right: Box::new(Tree::Leaf { value: b }),
                    },
                ),
                right: Box::new(Tree::Leaf { value: c }),
            },
        ),
        area.valid(),
        0 < area.w <= 0x10_0000,
        0 <= delta <= area.w,
    ensures
        ({
            let n = l.tree->0;
            let m = l.resized(a, Direction::Right, delta, area).tree->0;
            let whole = n.tile_of(a, area);
            &&& axis is Vertical ==> m.tile_of(c, area) == n.tile_of(c, area) && m.tile_of(
                a,
                area,
            ).w >= whole.w
            &&& axis is Horizontal ==> {
                &&& m.tile_of(a, area).w >= whole.w && m.tile_of(b, area).w == m.tile_of(a, area).w
                &&& m.tile_of(c, area).x == area.x + m.tile_of(a, area).w
                &&& m.tile_of(a, area).h == whole.h
                &&& 10 * (whole.w + delta) >= area.w + 20 && 10 * (whole.w + delta) <= 9 * area.w
                    - 20 ==> whole.w + delta - 1 <= m.tile_of(a, area).w <= whole.w + delta + 1
            }
            &&& l.resized(c, Direction::Right, delta, area).tree->0.tile_of(a, area).x == area.x
        }),
{
    let n = l.tree->0;
    let total = area.w as nat;
    let (p, q) = area.split_spec(Axis::Vertical, outer);
    rect::law_split_is_exact(area, Axis::Vertical, outer);
    ratio::law_split_keeps_a_tenth(outer, total);
    reveal_with_fuel(Tree::pushed, 3);
    reveal_with_fuel(Tree::tile_of, 3);
    reveal_with_fuel(Tree::has_split_above, 3);
    reveal_with_fuel(Tree::holds, 3);
    assert(l.holds(a) && l.holds(c));
    rect::law_split_is_exact(p, axis, inner);
    let m = l.resized(a, Direction::Right, delta, area).tree->0;
    let units = ratio::pushed_spec(outer.units as nat, delta, total);
    ratio::lemma_pushed_valid(outer.units as nat, delta, total);
    ratio::law_push_direction(outer, delta, total);
    ratio::law_larger_ratio_is_no_earlier(outer.units as nat, units, total);
    let moved = Ratio { units: units as u32 };
    rect::law_split_is_exact(area, Axis::Vertical, moved);
    let (u, v) = area.split_spec(Axis::Vertical, moved);
    rect::law_split_is_exact(u, axis, inner);
    if axis is Vertical {
        if p.w > 0 {
            let part = p.w as nat;
            let finer = ratio::pushed_spec(inner.units as nat, delta, part);
            ratio::lemma_pushed_valid(inner.units as nat, delta, part);
            ratio::law_push_direction(inner, delta, part);
            ratio::law_larger_ratio_is_no_earlier(inner.units as nat, finer, part);
            rect::law_split_is_exact(p, axis, Ratio { units: finer as u32 });
        }
    } else {
        let whole = n.tile_of(a, area);
        if 10 * (whole.w + delta) >= area.w + 20 && 10 * (whole.w + delta) <= 9 * area.w - 20 {
            ratio::law_push_moves_by_pixels(outer, delta, total);
        }
        let side = p.split_spec(axis, inner);
        let other = u.split_spec(axis, inner);
        assert(p.h == u.h);
    }
}

} // verus!
