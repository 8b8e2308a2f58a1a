//! The mathematical model of a layout tree, and what holds of it.
//!
//! A [`Tree`] is what a workspace's tiles look like on paper: leaves with one
//! window, stacks of which one member is visible, and splits. A [`Layout`] adds
//! which window has the focus and how the next window is to be placed. The
//! operations are stated here as functions from layout to layout; the
//! executable tree in [`crate::bsp`] is proved to follow them.

use crate::nearest;
use crate::ratio;
use crate::ratio::Ratio;
use crate::rect::{Axis, Direction, Rect};
use vstd::prelude::*;

verus! {

/// How a new window chooses the axis of the split that makes room for it.
#[derive(Debug, Clone, Copy, PartialEq, Eq, Structural)]
pub enum LayoutMode {
    /// By the aspect ratio of the tile that is split: a tile at least as wide
    /// as high splits into left and right, another into top and bottom.
    Dwindle,
    /// By the split above, whose axis is flipped. The first split, of a single
    /// tile, is into left and right.
    Spiral,
}

impl Default for LayoutMode {
    fn default() -> (r: Self)
        ensures
            r == LayoutMode::Dwindle,
    {
        LayoutMode::Dwindle
    }
}

/// A binary space partition of an area among windows.
pub enum Tree<T> {
    /// One window.
    Leaf { value: T },
    /// Windows that share one tile, of which the one at `focused` is visible.
    Stack { children: Seq<T>, focused: int },
    /// Two parts of the area.
    Split { axis: Axis, ratio: Ratio, left: Box<Tree<T>>, right: Box<Tree<T>> },
}

/// A split in the middle.
pub open spec fn middle() -> Ratio {
    Ratio { units: 0x400_0000 }
}

/// The split of `left` and `right` in the middle.
pub open spec fn joined<T>(axis: Axis, left: Tree<T>, right: Tree<T>) -> Tree<T> {
    Tree::Split { axis, ratio: middle(), left: Box::new(left), right: Box::new(right) }
}

/// The members of a former stack as separate tiles: a chain of side-by-side
/// splits that leans to the right.
pub open spec fn chain<T>(members: Seq<T>) -> Tree<T>
    decreases members.len(),
{
    if members.len() <= 1 {
        Tree::Leaf { value: members[0] }
    } else {
        joined(Axis::Vertical, Tree::Leaf { value: members[0] }, chain(members.drop_first()))
    }
}

/// The axis along which a tile of this shape is split.
pub open spec fn axis_by_shape(tile: Rect) -> Axis {
    if tile.w >= tile.h {
        Axis::Vertical
    } else {
        Axis::Horizontal
    }
}

impl<T> Tree<T> {
    /// Every window, in the order of the tiles.
    pub open spec fn windows(self) -> Seq<T>
        decreases self,
    {
        match self {
            Tree::Leaf { value } => seq![value],
            Tree::Stack { children, focused } => children,
            Tree::Split { axis, ratio, left, right } => left.windows() + right.windows(),
        }
    }

    /// The stack members that are not visible.
    pub open spec fn hidden(self) -> Seq<T>
        decreases self,
    {
        match self {
            Tree::Leaf { value } => Seq::empty(),
            Tree::Stack { children, focused } => children.remove(focused),
            Tree::Split { axis, ratio, left, right } => left.hidden() + right.hidden(),
        }
    }

    /// The tile of each visible window when the tree fills `area`.
    pub open spec fn tiles(self, area: Rect) -> Seq<(T, Rect)>
        decreases self,
    {
        match self {
            Tree::Leaf { value } => seq![(value, area)],
            Tree::Stack { children, focused } => seq![(children[focused], area)],
            Tree::Split { axis, ratio, left, right } => {
                let (a, b) = area.split_spec(axis, ratio);
                left.tiles(a) + right.tiles(b)
            },
        }
    }

    /// Whether `area` can be split the way this tree splits it.
    pub open spec fn splits(self, area: Rect) -> bool
        decreases self,
    {
        match self {
            Tree::Split { axis, ratio, left, right } => {
                let (a, b) = area.split_spec(axis, ratio);
                &&& area.splittable(axis, ratio)
                &&& left.splits(a)
                &&& right.splits(b)
            },
            _ => true,
        }
    }

    /// Whether `t` is one of the windows.
    pub open spec fn holds(self, t: T) -> bool
        decreases self,
    {
        match self {
            Tree::Leaf { value } => value == t,
            Tree::Stack { children, focused } => children.contains(t),
            Tree::Split { axis, ratio, left, right } => left.holds(t) || right.holds(t),
        }
    }

    /// Whether `t` is one of the visible windows.
    pub open spec fn shows(self, t: T) -> bool
        decreases self,
    {
        match self {
            Tree::Leaf { value } => value == t,
            Tree::Stack { children, focused } => children[focused] == t,
            Tree::Split { axis, ratio, left, right } => left.shows(t) || right.shows(t),
        }
    }

    /// No window occurs twice, no stack is empty, every stack shows one of its
    /// members, and every split sits between 0.1 and 0.9.
    pub open spec fn wf(self) -> bool
        decreases self,
    {
        match self {
            Tree::Leaf { value } => true,
            Tree::Stack { children, focused } => {
                &&& 0 <= focused < children.len()
                &&& children.no_duplicates()
            },
            Tree::Split { axis, ratio, left, right } => {
                &&& ratio.valid()
                &&& left.wf()
                &&& right.wf()
                &&& forall|t: T|
                    #![trigger left.holds(t)]
                    #![trigger right.holds(t)]
                    !(left.holds(t) && right.holds(t))
            },
        }
    }

    /// The leaf or stack that holds `t`.
    pub open spec fn node_of(self, t: T) -> Tree<T>
        decreases self,
    {
        match self {
            Tree::Split { axis, ratio, left, right } => if left.holds(t) {
                left.node_of(t)
            } else {
                right.node_of(t)
            },
            _ => self,
        }
    }

    /// What the split directly above the leaf or stack that holds `t` has on
    /// its other side.
    pub open spec fn sibling_of(self, t: T) -> Option<Tree<T>>
        decreases self,
    {
        match self {
            Tree::Split { axis, ratio, left, right } => if left.holds(t) {
                if *left is Split {
                    left.sibling_of(t)
                } else {
                    Some(*right)
                }
            } else {
                if *right is Split {
                    right.sibling_of(t)
                } else {
                    Some(*left)
                }
            },
            _ => None,
        }
    }

    /// The axis of the split directly above the leaf or stack that holds `t`.
    pub open spec fn axis_above(self, t: T) -> Option<Axis>
        decreases self,
    {
        match self {
            Tree::Split { axis, ratio, left, right } => {
                let side = if left.holds(t) {
                    left
                } else {
                    right
                };
                if *side is Split {
                    side.axis_above(t)
                } else {
                    Some(axis)
                }
            },
            _ => None,
        }
    }

    /// The tile of the leaf or stack that holds `t` when the tree fills `area`.
    pub open spec fn tile_of(self, t: T, area: Rect) -> Rect
        decreases self,
    {
        match self {
            Tree::Split { axis, ratio, left, right } => {
                let (a, b) = area.split_spec(axis, ratio);
                if left.holds(t) {
                    left.tile_of(t, a)
                } else {
                    right.tile_of(t, b)
                }
            },
            _ => area,
        }
    }

    /// This tree with `sub` in place of the leaf or stack that holds `t`.
    pub open spec fn put(self, t: T, sub: Tree<T>) -> Tree<T>
        decreases self,
    {
        match self {
            Tree::Split { axis, ratio, left, right } => if left.holds(t) {
                Tree::Split { axis, ratio, left: Box::new(left.put(t, sub)), right }
            } else {
                Tree::Split { axis, ratio, left, right: Box::new(right.put(t, sub)) }
            },
            _ => sub,
        }
    }

    /// This tree with `sub` in place of the split directly above the leaf or
    /// stack that holds `t`.
    pub open spec fn put_above(self, t: T, sub: Tree<T>) -> Tree<T>
        decreases self,
    {
        match self {
            Tree::Split { axis, ratio, left, right } => if left.holds(t) {
                if *left is Split {
                    Tree::Split { axis, ratio, left: Box::new(left.put_above(t, sub)), right }
                } else {
                    sub
                }
            } else {
                if *right is Split {
                    Tree::Split { axis, ratio, left, right: Box::new(right.put_above(t, sub)) }
                } else {
                    sub
                }
            },
            _ => sub,
        }
    }

    /// The visible window of the first leaf or stack.
    pub open spec fn front(self) -> T
        decreases self,
    {
        match self {
            Tree::Leaf { value } => value,
            Tree::Stack { children, focused } => children[focused],
            Tree::Split { axis, ratio, left, right } => left.front(),
        }
    }

    /// This leaf or stack as a stack with `t` added and visible.
    pub open spec fn with_member(self, t: T) -> Tree<T> {
        match self {
            Tree::Leaf { value } => Tree::Stack { children: seq![value, t], focused: 1 },
            Tree::Stack { children, focused } => Tree::Stack {
                children: children.push(t),
                focused: children.len() as int,
            },
            _ => self,
        }
    }

    /// This leaf or stack with `t`, one of its members, visible.
    pub open spec fn showing(self, t: T) -> Tree<T> {
        match self {
            Tree::Stack { children, focused } => Tree::Stack {
                children,
                focused: children.index_of(t),
            },
            _ => self,
        }
    }

    /// What is left of this leaf or stack without `t`. The visible position
    /// stays where it is, or moves to the last member where it would be past
    /// the end.
    pub open spec fn less(self, t: T) -> Option<Tree<T>> {
        match self {
            Tree::Stack { children, focused } => {
                let rest = children.remove(children.index_of(t));
                if rest.len() == 0 {
                    None
                } else {
                    Some(
                        Tree::Stack {
                            children: rest,
                            focused: if focused < rest.len() {
                                focused
                            } else {
                                rest.len() - 1
                            },
                        },
                    )
                }
            },
            _ => None,
        }
    }

    /// This tree without `t`: a leaf or stack with nothing left gives its place
    /// to its sibling.
    pub open spec fn without(self, t: T) -> Option<Tree<T>> {
        match self.node_of(t).less(t) {
            Some(rest) => Some(self.put(t, rest)),
            None => match self.sibling_of(t) {
                Some(sibling) => Some(self.put_above(t, sibling)),
                None => None,
            },
        }
    }

    /// This tree with two windows in each other's place.
    pub open spec fn swapped(self, a: T, b: T) -> Tree<T>
        decreases self,
    {
        match self {
            Tree::Leaf { value } => Tree::Leaf { value: exchange(value, a, b) },
            Tree::Stack { children, focused } => Tree::Stack {
                children: children.map_values(|t: T| exchange(t, a, b)),
                focused,
            },
            Tree::Split { axis, ratio, left, right } => Tree::Split {
                axis,
                ratio,
                left: Box::new(left.swapped(a, b)),
                right: Box::new(right.swapped(a, b)),
            },
        }
    }

    /// This tree with stack mode toggled on the leaf or stack that holds `f`. A
    /// stack of several becomes a chain of tiles and a stack of one a leaf; a
    /// leaf merges with a sibling leaf or joins a sibling stack, and else
    /// becomes a stack of one.
    pub open spec fn toggled(self, f: T) -> Tree<T> {
        match self.node_of(f) {
            Tree::Stack { children, focused } => self.put(f, chain(children)),
            _ => match self.sibling_of(f) {
                Some(Tree::Leaf { value }) => self.put_above(
                    f,
                    Tree::Stack { children: seq![f, value], focused: 0 },
                ),
                Some(Tree::Stack { children, focused }) => self.put_above(
                    f,
                    Tree::Stack { children: children.push(f), focused: children.len() as int },
                ),
                _ => self.put(f, Tree::Stack { children: seq![f], focused: 0 }),
            },
        }
    }

    /// What is left of this stack of several once `f` has a tile of its own.
    pub open spec fn reduced(self, f: T) -> Tree<T> {
        match self.less(f) {
            Some(Tree::Stack { children, focused }) => if children.len() == 1 {
                Tree::Leaf { value: children[0] }
            } else {
                Tree::Stack { children, focused }
            },
            _ => self,
        }
    }

    /// Whether a split along `axis` lies above the leaf or stack that holds `t`.
    pub open spec fn has_split_above(self, t: T, axis: Axis) -> bool
        decreases self,
    {
        match self {
            Tree::Split { axis: own, ratio, left, right } => {
                let side = if left.holds(t) {
                    left
                } else {
                    right
                };
                own == axis || side.has_split_above(t, axis)
            },
            _ => false,
        }
    }

    /// This tree with the closest split along `along` above `t` pushed by
    /// `delta` pixels towards the end; unchanged where there is no such split
    /// or it has no length to be moved in.
    pub open spec fn pushed(self, t: T, along: Axis, delta: int, area: Rect) -> Tree<T>
        decreases self,
    {
        match self {
            Tree::Split { axis, ratio, left, right } => {
                let (a, b) = area.split_spec(axis, ratio);
                let side = if left.holds(t) {
                    left
                } else {
                    right
                };
                if side.has_split_above(t, along) {
                    if left.holds(t) {
                        Tree::Split {
                            axis,
                            ratio,
                            left: Box::new(left.pushed(t, along, delta, a)),
                            right,
                        }
                    } else {
                        Tree::Split {
                            axis,
                            ratio,
                            left,
                            right: Box::new(right.pushed(t, along, delta, b)),
                        }
                    }
                } else if axis == along && area.length(along) > 0 {
                    let units = ratio::pushed_spec(ratio.units as nat, delta, area.length(along) as nat);
                    Tree::Split { axis, ratio: Ratio { units: units as u32 }, left, right }
                } else {
                    self
                }
            },
            _ => self,
        }
    }
}

/// `b` for `a`, `a` for `b`, and anything else for itself.
pub open spec fn exchange<T>(t: T, a: T, b: T) -> T {
    if t == a {
        b
    } else if t == b {
        a
    } else {
        t
    }
}

/// What a split holds and shows is what its two sides do.
pub proof fn lemma_split<T>(n: Tree<T>)
    requires
        n is Split,
    ensures
        forall|w: T| #[trigger] n.holds(w) <==> (n->left.holds(w) || n->right.holds(w)),
        forall|w: T| #[trigger] n.shows(w) <==> (n->left.shows(w) || n->right.shows(w)),
{
    assert forall|w: T| #[trigger] n.holds(w) <==> (n->left.holds(w) || n->right.holds(w)) by {
        reveal_with_fuel(Tree::holds, 2);
    }
    assert forall|w: T| #[trigger] n.shows(w) <==> (n->left.shows(w) || n->right.shows(w)) by {
        reveal_with_fuel(Tree::shows, 2);
    }
}

/// A visible window is one of the windows.
pub proof fn lemma_shows_holds<T>(n: Tree<T>)
    requires
        n.wf(),
    ensures
        forall|t: T| #[trigger] n.shows(t) ==> n.holds(t),
    decreases n,
{
    match n {
        Tree::Split { axis, ratio, left, right } => {
            lemma_split(n);
            lemma_shows_holds(*left);
            lemma_shows_holds(*right);
        },
        _ => {},
    }
}

/// The first visible window is a visible window.
pub proof fn lemma_front<T>(n: Tree<T>)
    requires
        n.wf(),
    ensures
        n.shows(n.front()),
    decreases n,
{
    match n {
        Tree::Split { axis, ratio, left, right } => {
            lemma_split(n);
            lemma_front(*left);
        },
        _ => {},
    }
}

/// The leaf or stack that holds `t` is a well-formed part of the tree, and of
/// its windows the tree shows the one it shows itself.
pub proof fn lemma_node_of<T>(n: Tree<T>, t: T)
    requires
        n.wf(),
        n.holds(t),
    ensures
        n.node_of(t).wf(),
        !(n.node_of(t) is Split),
        n.node_of(t).holds(t),
        forall|w: T| #[trigger] n.node_of(t).holds(w) ==> n.holds(w),
        forall|w: T| #[trigger] n.node_of(t).holds(w) ==> n.node_of(w) == n.node_of(t),
        forall|w: T|
            n.node_of(t).holds(w) ==> (#[trigger] n.shows(w) <==> n.node_of(t).shows(w)),
    decreases n,
{
    match n {
        Tree::Split { axis, ratio, left, right } => {
            lemma_split(n);
            lemma_shows_holds(*left);
            lemma_shows_holds(*right);
            if left.holds(t) {
                lemma_node_of(*left, t);
            } else {
                lemma_node_of(*right, t);
            }
        },
        _ => {},
    }
}

/// Replacing a leaf or stack by something well-formed that brings no window
/// which is elsewhere in the tree.
pub proof fn lemma_put<T>(n: Tree<T>, t: T, sub: Tree<T>)
    requires
        n.wf(),
        n.holds(t),
        sub.wf(),
        forall|w: T|
            #![trigger sub.holds(w)]
            #![trigger n.holds(w)]
            sub.holds(w) && n.holds(w) ==> n.node_of(t).holds(w),
    ensures
        n.put(t, sub).wf(),
        forall|w: T| #[trigger]
            n.put(t, sub).holds(w) <==> (sub.holds(w) || (n.holds(w) && !n.node_of(t).holds(w))),
        forall|w: T| #[trigger]
            n.put(t, sub).shows(w) <==> (sub.shows(w) || (n.shows(w) && !n.node_of(t).holds(w))),
    decreases n,
{
    lemma_shows_holds(n);
    lemma_node_of(n, t);
    match n {
        Tree::Split { axis, ratio, left, right } => {
            lemma_split(n);
            lemma_shows_holds(*left);
            lemma_shows_holds(*right);
            if left.holds(t) {
                lemma_node_of(*left, t);
                lemma_put(*left, t, sub);
            } else {
                lemma_node_of(*right, t);
                lemma_put(*right, t, sub);
            }
            lemma_split(n.put(t, sub));
        },
        _ => {},
    }
}

/// What stands beside a leaf or stack is a well-formed part of the tree that
/// shares no window with it.
pub proof fn lemma_sibling_of<T>(n: Tree<T>, t: T)
    requires
        n.wf(),
        n.holds(t),
    ensures
        n.sibling_of(t) is Some <==> n is Split,
        n.sibling_of(t) matches Some(s) ==> {
            &&& s.wf()
            &&& forall|w: T| #[trigger] s.holds(w) ==> n.holds(w) && !n.node_of(t).holds(w)
            &&& forall|w: T| s.holds(w) ==> (#[trigger] n.shows(w) <==> s.shows(w))
        },
    decreases n,
{
    lemma_node_of(n, t);
    match n {
        Tree::Split { axis, ratio, left, right } => {
            lemma_split(n);
            lemma_shows_holds(*left);
            lemma_shows_holds(*right);
            if left.holds(t) {
                lemma_node_of(*left, t);
                lemma_sibling_of(*left, t);
            } else {
                lemma_node_of(*right, t);
                lemma_sibling_of(*right, t);
            }
        },
        _ => {},
    }
}

/// Replacing the split above a leaf or stack by something well-formed that
/// brings no window which is elsewhere in the tree.
pub proof fn lemma_put_above<T>(n: Tree<T>, t: T, sub: Tree<T>)
    requires
        n.wf(),
        n.holds(t),
        n is Split,
        sub.wf(),
        forall|w: T|
            #![trigger sub.holds(w)]
            #![trigger n.holds(w)]
            sub.holds(w) && n.holds(w) ==> n.node_of(t).holds(w) || n.sibling_of(t)->0.holds(w),
    ensures
        n.put_above(t, sub).wf(),
        forall|w: T| #[trigger]
            n.put_above(t, sub).holds(w) <==> (sub.holds(w) || (n.holds(w) && !n.node_of(t).holds(w)
                && !n.sibling_of(t)->0.holds(w))),
        forall|w: T| #[trigger]
            n.put_above(t, sub).shows(w) <==> (sub.shows(w) || (n.shows(w) && !n.node_of(t).holds(w)
                && !n.sibling_of(t)->0.holds(w))),
    decreases n,
{
    lemma_shows_holds(n);
    lemma_node_of(n, t);
    lemma_sibling_of(n, t);
    match n {
        Tree::Split { axis, ratio, left, right } => {
            lemma_split(n);
            lemma_shows_holds(*left);
            lemma_shows_holds(*right);
            if left.holds(t) {
                lemma_node_of(*left, t);
                lemma_sibling_of(*left, t);
                if *left is Split {
                    lemma_put_above(*left, t, sub);
                    lemma_split(n.put_above(t, sub));
                }
            } else {
                lemma_node_of(*right, t);
                lemma_sibling_of(*right, t);
                if *right is Split {
                    lemma_put_above(*right, t, sub);
                    lemma_split(n.put_above(t, sub));
                }
            }
        },
        _ => {},
    }
}

/// The chain of a stack's members shows every one of them.
pub proof fn lemma_chain<T>(members: Seq<T>)
    requires
        members.len() > 0,
        members.no_duplicates(),
    ensures
        chain(members).wf(),
        forall|w: T| #[trigger] chain(members).holds(w) <==> members.contains(w),
        forall|w: T| #[trigger] chain(members).shows(w) <==> members.contains(w),
    decreases members.len(),
{
    if members.len() == 1 {
        assert forall|w: T| members.contains(w) <==> members[0] == w by {
            if members[0] == w {
                assert(members.contains(w));
            }
        }
    } else {
        let rest = members.drop_first();
        let n = chain(members);
        assert(rest.no_duplicates());
        lemma_chain(rest);
        lemma_split(n);
        lemma_middle();
        assert forall|w: T| #[trigger] members.contains(w) <==> (members[0] == w || rest.contains(w)) by {
            if members.contains(w) {
                let i = members.index_of(w);
                if i > 0 {
                    assert(rest[i - 1] == w);
                }
            }
            if rest.contains(w) {
                let i = rest.index_of(w);
                assert(members[i + 1] == w);
            }
            if members[0] == w {
                assert(members.contains(w));
            }
        }
        let leaf = Tree::Leaf { value: members[0] };
        assert forall|w: T| #[trigger] leaf.holds(w) <==> members[0] == w by {}
        assert forall|w: T| #[trigger] leaf.shows(w) <==> members[0] == w by {}
        assert(!rest.contains(members[0])) by {
            if rest.contains(members[0]) {
                let i = rest.index_of(members[0]);
                assert(members[i + 1] == members[0]);
            }
        }
        assert(leaf.wf());
        assert(n == joined(Axis::Vertical, leaf, chain(rest)));
    }
}

/// A split in the middle is a valid one.
proof fn lemma_middle()
    ensures
        middle().valid(),
{
    ratio::lemma_half_valid();
}

/// What is left of a leaf or stack without one of its windows.
pub proof fn lemma_less<T>(n: Tree<T>, t: T)
    requires
        n.wf(),
        n.holds(t),
        !(n is Split),
    ensures
        match n.less(t) {
            Some(rest) => {
                &&& rest.wf()
                &&& rest is Stack
                &&& forall|w: T| #[trigger] rest.holds(w) <==> (n.holds(w) && w != t)
            },
            None => forall|w: T| #[trigger] n.holds(w) <==> w == t,
        },
{
    match n {
        Tree::Stack { children, focused } => {
            let p = children.index_of(t);
            let rest = children.remove(p);
            assert(children[p] == t);
            assert forall|w: T| #[trigger] rest.contains(w) <==> (children.contains(w) && w != t) by {
                if rest.contains(w) {
                    let i = rest.index_of(w);
                    if i < p {
                        assert(children[i] == w);
                    } else {
                        assert(children[i + 1] == w);
                    }
                }
                if children.contains(w) && w != t {
                    let i = children.index_of(w);
                    if i < p {
                        assert(rest[i] == w);
                    } else {
                        assert(rest[i - 1] == w);
                    }
                }
            }
            if rest.len() == 0 {
                assert forall|w: T| #[trigger] n.holds(w) <==> w == t by {
                    if children.contains(w) && w != t {
                        assert(rest.contains(w));
                    }
                }
            }
        },
        _ => {},
    }
}

/// The tree without one of its windows.
pub proof fn lemma_without<T>(n: Tree<T>, t: T)
    requires
        n.wf(),
        n.holds(t),
    ensures
        match n.without(t) {
            Some(rest) => {
                &&& rest.wf()
                &&& forall|w: T| #[trigger] rest.holds(w) <==> (n.holds(w) && w != t)
                &&& forall|w: T|
                    n.shows(w) && !n.node_of(t).holds(w) ==> #[trigger] rest.shows(w)
                &&& n.node_of(t).less(t) matches Some(less) ==> rest.shows(less.front())
                &&& n.node_of(t).less(t) is None ==> n.sibling_of(t) is Some && rest.shows(
                    n.sibling_of(t)->0.front(),
                )
            },
            None => {
                &&& forall|w: T| #[trigger] n.holds(w) <==> w == t
                &&& n.node_of(t).less(t) is None
                &&& n.sibling_of(t) is None
            },
        },
{
    lemma_node_of(n, t);
    lemma_shows_holds(n);
    lemma_sibling_of(n, t);
    lemma_less(n.node_of(t), t);
    match n.node_of(t).less(t) {
        Some(rest) => {
            lemma_put(n, t, rest);
            lemma_front(rest);
        },
        None => match n.sibling_of(t) {
            Some(sibling) => {
                lemma_put_above(n, t, sibling);
                lemma_front(sibling);
                lemma_shows_holds(sibling);
            },
            None => {},
        },
    }
}

/// Exchanging two windows renames the windows and nothing else.
pub proof fn lemma_swapped<T>(n: Tree<T>, a: T, b: T)
    requires
        n.wf(),
    ensures
        n.swapped(a, b).wf(),
        forall|w: T| #[trigger] n.swapped(a, b).holds(w) <==> n.holds(exchange(w, a, b)),
        forall|w: T| #[trigger] n.swapped(a, b).shows(w) <==> n.shows(exchange(w, a, b)),
    decreases n,
{
    match n {
        Tree::Leaf { value } => {},
        Tree::Stack { children, focused } => {
            let after = children.map_values(|t: T| exchange(t, a, b));
            assert forall|w: T| #[trigger] after.contains(w) <==> children.contains(
                exchange(w, a, b),
            ) by {
                if after.contains(w) {
                    let i = after.index_of(w);
                    assert(children[i] == exchange(w, a, b));
                }
                if children.contains(exchange(w, a, b)) {
                    let i = children.index_of(exchange(w, a, b));
                    assert(after[i] == w);
                }
            }
        },
        Tree::Split { axis, ratio, left, right } => {
            lemma_swapped(*left, a, b);
            lemma_swapped(*right, a, b);
            lemma_split(n);
            lemma_split(n.swapped(a, b));
        },
    }
}

/// Pushing a split moves no window to another place in the tree.
pub proof fn lemma_pushed<T>(n: Tree<T>, t: T, along: Axis, delta: int, area: Rect)
    requires
        n.wf(),
    ensures
        n.pushed(t, along, delta, area).wf(),
        forall|w: T| #[trigger] n.pushed(t, along, delta, area).holds(w) <==> n.holds(w),
        forall|w: T| #[trigger] n.pushed(t, along, delta, area).shows(w) <==> n.shows(w),
    decreases n,
{
    match n {
        Tree::Split { axis, ratio, left, right } => {
            let (a, b) = area.split_spec(axis, ratio);
            lemma_pushed(*left, t, along, delta, a);
            lemma_pushed(*right, t, along, delta, b);
            lemma_split(n);
            lemma_split(n.pushed(t, along, delta, area));
            ratio::lemma_pushed_valid(ratio.units as nat, delta, area.length(along) as nat);
        },
        _ => {},
    }
}

/// A tree, the visible window that has the focus, and how the next window is
/// placed.
pub struct Layout<T> {
    pub tree: Option<Tree<T>>,
    pub focus: Option<T>,
    pub mode: LayoutMode,
}

/// The tile of window `t`.
pub open spec fn tile_in<T>(tiles: Seq<(T, Rect)>, t: T) -> Option<Rect> {
    if exists|i: int| 0 <= i < tiles.len() && (#[trigger] tiles[i]).0 == t {
        Some(tiles[choose|i: int| 0 <= i < tiles.len() && (#[trigger] tiles[i]).0 == t].1)
    } else {
        None
    }
}

impl<T> Layout<T> {
    /// The tree is well-formed, and one of its visible windows has the focus
    /// unless it is empty.
    pub open spec fn wf(self) -> bool {
        match (self.tree, self.focus) {
            (None, None) => true,
            (Some(n), Some(f)) => n.wf() && n.shows(f),
            _ => false,
        }
    }

    pub open spec fn holds(self, t: T) -> bool {
        self.tree is Some && self.tree->0.holds(t)
    }

    pub open spec fn windows(self) -> Seq<T> {
        match self.tree {
            Some(n) => n.windows(),
            None => Seq::empty(),
        }
    }

    pub open spec fn hidden(self) -> Seq<T> {
        match self.tree {
            Some(n) => n.hidden(),
            None => Seq::empty(),
        }
    }

    pub open spec fn tiles(self, area: Rect) -> Seq<(T, Rect)> {
        match self.tree {
            Some(n) => n.tiles(area),
            None => Seq::empty(),
        }
    }

    pub open spec fn splits(self, area: Rect) -> bool {
        self.tree is Some ==> self.tree->0.splits(area)
    }

    /// The tiles with `gap` pixels taken off each side.
    pub open spec fn laid_out(self, area: Rect, gap: int) -> Seq<(T, Rect)> {
        self.tiles(area).map_values(|p: (T, Rect)| (p.0, p.1.inset_spec(gap)))
    }

    /// The focused leaf or stack.
    pub open spec fn focused_node(self) -> Tree<T> {
        self.tree->0.node_of(self.focus->0)
    }

    /// The axis along which the next window splits the focused tile.
    pub open spec fn next_axis(self, area: Rect) -> Axis {
        let n = self.tree->0;
        let f = self.focus->0;
        match (self.mode, n.axis_above(f)) {
            (LayoutMode::Spiral, Some(above)) => above.flip_spec(),
            (LayoutMode::Spiral, None) => Axis::Vertical,
            (LayoutMode::Dwindle, _) => axis_by_shape(n.tile_of(f, area)),
        }
    }

    /// With `t` added: as the only window, as a member of the focused stack, or
    /// beside the focused leaf in a new split. It gets the focus.
    pub open spec fn inserted(self, t: T, area: Rect) -> Layout<T> {
        if self.holds(t) {
            self
        } else {
            let tree = match self.tree {
                None => Tree::Leaf { value: t },
                Some(n) => {
                    let node = self.focused_node();
                    if node is Stack {
                        n.put(self.focus->0, node.with_member(t))
                    } else {
                        n.put(
                            self.focus->0,
                            joined(self.next_axis(area), node, Tree::Leaf { value: t }),
                        )
                    }
                },
            };
            Layout { tree: Some(tree), focus: Some(t), mode: self.mode }
        }
    }

    /// The window that has the focus once `t` is gone: what the stack that lost
    /// it shows where the focus was there, the first window of the sibling
    /// where the focused tile went away, and the same window otherwise.
    pub open spec fn focus_without(self, t: T) -> Option<T> {
        let n = self.tree->0;
        let node = n.node_of(t);
        let f = self.focus->0;
        if !node.holds(f) {
            Some(f)
        } else {
            match (node.less(t), n.sibling_of(t)) {
                (Some(rest), _) => Some(rest.front()),
                (None, Some(sibling)) => Some(sibling.front()),
                (None, None) => None,
            }
        }
    }

    /// Without `t`.
    pub open spec fn removed(self, t: T) -> Layout<T> {
        if self.holds(t) {
            Layout {
                tree: self.tree->0.without(t),
                focus: self.focus_without(t),
                mode: self.mode,
            }
        } else {
            self
        }
    }

    /// With the focus on `t`, which becomes visible.
    pub open spec fn focused_on(self, t: T) -> Layout<T> {
        if self.holds(t) {
            let n = self.tree->0;
            Layout { tree: Some(n.put(t, n.node_of(t).showing(t))), focus: Some(t), mode: self.mode }
        } else {
            self
        }
    }

    /// With `a` and `b` in each other's place. The focus stays at its place.
    pub open spec fn swapped(self, a: T, b: T) -> Layout<T> {
        if self.holds(a) && self.holds(b) {
            Layout {
                tree: Some(self.tree->0.swapped(a, b)),
                focus: Some(exchange(self.focus->0, a, b)),
                mode: self.mode,
            }
        } else {
            self
        }
    }

    /// With stack mode toggled on the focused tile.
    pub open spec fn toggled(self) -> Layout<T> {
        match (self.tree, self.focus) {
            (Some(n), Some(f)) => Layout {
                tree: Some(n.toggled(f)),
                focus: Some(f),
                mode: self.mode,
            },
            _ => self,
        }
    }

    /// Whether the focus is on a stack of several.
    pub open spec fn can_pop(self) -> bool {
        self.tree is Some && match self.focused_node() {
            Tree::Stack { children, focused } => children.len() > 1,
            _ => false,
        }
    }

    /// With the focused stack member in a tile of its own, right of what is
    /// left of the stack; a single member left over becomes a leaf.
    pub open spec fn popped(self) -> Layout<T> {
        if self.can_pop() {
            let f = self.focus->0;
            let left = self.focused_node().reduced(f);
            Layout {
                tree: Some(
                    self.tree->0.put(f, joined(Axis::Vertical, left, Tree::Leaf { value: f })),
                ),
                focus: Some(f),
                mode: self.mode,
            }
        } else {
            self
        }
    }

    /// With the next or the previous member of the focused stack visible and
    /// focused, round and round.
    pub open spec fn cycled(self, forward: bool) -> Layout<T> {
        match (self.tree, self.focus) {
            (Some(n), Some(f)) => match n.node_of(f) {
                Tree::Stack { children, focused } => {
                    let next = if forward {
                        (focused + 1) % children.len() as int
                    } else if focused == 0 {
                        children.len() - 1
                    } else {
                        focused - 1
                    };
                    Layout {
                        tree: Some(n.put(f, Tree::Stack { children, focused: next })),
                        focus: Some(children[next]),
                        mode: self.mode,
                    }
                },
                _ => self,
            },
            _ => self,
        }
    }

    /// The neighbour of the visible window `t` in direction `dir`.
    pub open spec fn neighbour(self, t: T, dir: Direction, area: Rect) -> Option<T> {
        let tiles = self.laid_out(area, 0);
        match tile_in(tiles, t) {
            Some(from) => nearest::nearest_spec(tiles, t, from, dir),
            None => None,
        }
    }

    /// With the focused tile's neighbour in direction `dir` stacked onto the
    /// focused tile, visible and focused.
    pub open spec fn swallowed(self, dir: Direction, area: Rect) -> Layout<T> {
        match self.focus {
            Some(f) => match self.neighbour(f, dir, area) {
                Some(other) => {
                    let n = self.removed(other).tree->0;
                    Layout {
                        tree: Some(n.put(f, n.node_of(f).with_member(other))),
                        focus: Some(other),
                        mode: self.mode,
                    }
                },
                None => self,
            },
            None => self,
        }
    }

    /// With the closest fitting split above `t` pushed in direction `dir`.
    pub open spec fn resized(self, t: T, dir: Direction, delta: int, area: Rect) -> Layout<T> {
        if self.holds(t) {
            let toward_end = dir is Right || dir is Down;
            Layout {
                tree: Some(
                    self.tree->0.pushed(
                        t,
                        Axis::across(dir),
                        if toward_end {
                            delta
                        } else {
                            -delta
                        },
                        area,
                    ),
                ),
                focus: self.focus,
                mode: self.mode,
            }
        } else {
            self
        }
    }
}

/// Adding a window adds that window, which gets the focus, and loses none.
pub proof fn law_insert_adds_the_window<T>(l: Layout<T>, t: T, area: Rect)
    requires
        l.wf(),
    ensures
        l.inserted(t, area).wf(),
        forall|w: T| #[trigger] l.inserted(t, area).holds(w) <==> (l.holds(w) || w == t),
        !l.holds(t) ==> l.inserted(t, area).focus == Some(t),
{
    if l.tree is Some && !l.holds(t) {
        let n = l.tree->0;
        let f = l.focus->0;
        let node = l.focused_node();
        lemma_shows_holds(n);
        lemma_node_of(n, f);
        lemma_middle();
        if node is Stack {
            let sub = node.with_member(t);
            lemma_with_member(node, t);
            lemma_put(n, f, sub);
        } else {
            let leaf = Tree::Leaf { value: t };
            let sub = joined(l.next_axis(area), node, leaf);
            lemma_split(sub);
            assert(leaf.wf());
            assert forall|w: T| #[trigger] leaf.holds(w) <==> w == t by {}
            assert forall|w: T| #[trigger] leaf.shows(w) <==> w == t by {}
            assert(sub.wf());
            lemma_put(n, f, sub);
            assert(sub.shows(t));
        }
    } else if l.tree is None {
        let leaf = Tree::Leaf { value: t };
        assert(leaf.wf());
        assert forall|w: T| #[trigger] leaf.holds(w) <==> w == t by {}
        assert(leaf.shows(t));
    }
}

/// In spiral mode the axes alternate: the split that makes room for a window is
/// across the split above it, and the first split is into left and right,
/// whatever the area.
pub proof fn law_spiral_alternates<T>(l: Layout<T>, t: T, area: Rect)
    requires
        l.wf(),
        l.mode == LayoutMode::Spiral,
        l.tree is Some,
        l.focused_node() is Leaf,
        !l.holds(t),
    ensures
        ({
            let after = l.inserted(t, area);
            let axis = match l.tree->0.axis_above(l.focus->0) {
                Some(above) => above.flip_spec(),
                None => Axis::Vertical,
            };
            &&& after.tree->0.axis_above(t) == Some(axis)
            &&& after.tree->0.axis_above(l.focus->0) == Some(axis)
        }),
{
    lemma_shows_holds(l.tree->0);
    lemma_graft_undone(l.tree->0, l.focus->0, l.next_axis(area), t);
}

/// A leaf or stack with one more member, which is visible.
proof fn lemma_with_member<T>(n: Tree<T>, t: T)
    requires
        n.wf(),
        !(n is Split),
        !n.holds(t),
    ensures
        n.with_member(t).wf(),
        n.with_member(t).shows(t),
        forall|w: T| #[trigger] n.with_member(t).holds(w) <==> (n.holds(w) || w == t),
        forall|w: T| #[trigger] n.with_member(t).shows(w) <==> w == t,
{
    let after = n.with_member(t);
    let members = match after {
        Tree::Stack { children, focused } => children,
        _ => Seq::empty(),
    };
    match n {
        Tree::Leaf { value } => {
            assert forall|w: T| #[trigger] members.contains(w) <==> (w == value || w == t) by {
                assert(members[0] == value);
                assert(members[1] == t);
            }
        },
        Tree::Stack { children, focused } => {
            assert forall|w: T| #[trigger] members.contains(w) <==> (children.contains(w) || w == t) by {
                if children.contains(w) {
                    let i = children.index_of(w);
                    assert(members[i] == w);
                }
                assert(members[children.len() as int] == t);
            }
            assert(members.no_duplicates()) by {
                assert(!children.contains(t));
            }
        },
        _ => {},
    }
}

/// Removing a window removes that window and no other, and leaves the focus on
/// a visible window unless nothing is left.
pub proof fn law_remove_drops_the_window<T>(l: Layout<T>, t: T)
    requires
        l.wf(),
    ensures
        l.removed(t).wf(),
        forall|w: T| #[trigger] l.removed(t).holds(w) <==> (l.holds(w) && w != t),
        l.holds(t) && !l.tree->0.node_of(t).holds(l.focus->0) ==> l.removed(t).focus == l.focus,
{
    if l.holds(t) {
        let n = l.tree->0;
        let f = l.focus->0;
        lemma_shows_holds(n);
        lemma_node_of(n, t);
        lemma_without(n, t);
    }
}

/// Taking a window out again right after it was put beside a focused leaf
/// restores the layout.
pub proof fn law_remove_undoes_insert<T>(l: Layout<T>, t: T, area: Rect)
    requires
        l.wf(),
        !l.holds(t),
        l.tree is Some ==> l.focused_node() is Leaf,
    ensures
        l.inserted(t, area).removed(t) == l,
{
    law_insert_adds_the_window(l, t, area);
    if l.tree is Some {
        let n = l.tree->0;
        let f = l.focus->0;
        let leaf = Tree::Leaf { value: t };
        let sub = joined(l.next_axis(area), l.focused_node(), leaf);
        lemma_shows_holds(n);
        lemma_node_of(n, f);
        lemma_graft_undone(n, f, l.next_axis(area), t);
        assert(l.focused_node().holds(f));
    }
}

/// A leaf put beside another one in a new split and taken out again.
proof fn lemma_graft_undone<T>(n: Tree<T>, f: T, axis: Axis, t: T)
    requires
        n.wf(),
        n.holds(f),
        !n.holds(t),
        n.node_of(f) is Leaf,
    ensures
        ({
            let after = n.put(f, joined(axis, n.node_of(f), Tree::Leaf { value: t }));
            &&& after.holds(t)
            &&& after.holds(f)
            &&& after.node_of(t) == (Tree::Leaf { value: t })
            &&& after.sibling_of(t) == Some(n.node_of(f))
            &&& after.put_above(t, n.node_of(f)) == n
            &&& after.axis_above(t) == Some(axis)
            &&& after.axis_above(f) == Some(axis)
        }),
    decreases n,
{
    let sub = joined(axis, n.node_of(f), Tree::Leaf { value: t });
    lemma_node_of(n, f);
    match n {
        Tree::Split { axis: own, ratio, left, right } => {
            lemma_split(n);
            lemma_split(n.put(f, sub));
            if left.holds(f) {
                lemma_graft_undone(*left, f, axis, t);
                assert(left.put(f, sub) is Split);
            } else {
                lemma_graft_undone(*right, f, axis, t);
                assert(right.put(f, sub) is Split);
            }
        },
        _ => {
            lemma_split(sub);
            let leaf = Tree::Leaf { value: t };
            assert(leaf.holds(t));
            reveal_with_fuel(Tree::node_of, 2);
            reveal_with_fuel(Tree::holds, 2);
        },
    }
}

/// Focusing a window keeps all windows and makes that one visible.
pub proof fn law_focus_shows_the_window<T>(l: Layout<T>, t: T)
    requires
        l.wf(),
    ensures
        l.focused_on(t).wf(),
        forall|w: T| #[trigger] l.focused_on(t).holds(w) <==> l.holds(w),
        l.holds(t) ==> l.focused_on(t).focus == Some(t),
        forall|w: T|
            l.tree is Some && #[trigger] l.focused_on(t).tree->0.shows(w) ==> w == t
                || l.tree->0.shows(w),
{
    if l.holds(t) {
        let n = l.tree->0;
        let node = n.node_of(t);
        let sub = node.showing(t);
        lemma_node_of(n, t);
        assert(sub.wf() && sub.shows(t));
        assert forall|w: T| #[trigger] sub.holds(w) <==> node.holds(w) by {}
        assert forall|w: T| #[trigger] sub.shows(w) implies w == t by {}
        lemma_put(n, t, sub);
    }
}

/// Swapping two windows keeps all windows, and swapping them again restores the
/// layout.
pub proof fn law_swap_is_its_own_inverse<T>(l: Layout<T>, a: T, b: T)
    requires
        l.wf(),
    ensures
        l.swapped(a, b).wf(),
        forall|w: T| #[trigger] l.swapped(a, b).holds(w) <==> l.holds(w),
        l.swapped(a, b).swapped(a, b) == l,
{
    if l.holds(a) && l.holds(b) {
        let n = l.tree->0;
        lemma_swapped(n, a, b);
        lemma_swapped_twice(n, a, b);
        assert(exchange(exchange(l.focus->0, a, b), a, b) == l.focus->0);
        assert forall|w: T| #[trigger] l.swapped(a, b).holds(w) <==> l.holds(w) by {
            assert(n.swapped(a, b).holds(w) <==> n.holds(exchange(w, a, b)));
        }
    }
}

proof fn lemma_swapped_twice<T>(n: Tree<T>, a: T, b: T)
    ensures
        n.swapped(a, b).swapped(a, b) == n,
    decreases n,
{
    match n {
        Tree::Leaf { value } => {},
        Tree::Stack { children, focused } => {
            let once = children.map_values(|t: T| exchange(t, a, b));
            assert(once.map_values(|t: T| exchange(t, a, b)) =~= children);
        },
        Tree::Split { axis, ratio, left, right } => {
            lemma_swapped_twice(*left, a, b);
            lemma_swapped_twice(*right, a, b);
        },
    }
}

/// Toggling stack mode keeps all windows, and the focused one stays visible and
/// focused.
pub proof fn law_toggle_keeps_windows<T>(l: Layout<T>)
    requires
        l.wf(),
    ensures
        l.toggled().wf(),
        forall|w: T| #[trigger] l.toggled().holds(w) <==> l.holds(w),
        l.toggled().focus == l.focus,
{
    if l.tree is Some {
        let n = l.tree->0;
        let f = l.focus->0;
        let node = n.node_of(f);
        lemma_shows_holds(n);
        lemma_node_of(n, f);
        lemma_sibling_of(n, f);
        match node {
            Tree::Stack { children, focused } => {
                lemma_chain(children);
                assert forall|w: T| #[trigger] chain(children).holds(w) <==> node.holds(w) by {}
                lemma_put(n, f, chain(children));
                assert(chain(children).shows(f));
                assert forall|w: T| #[trigger] l.toggled().holds(w) <==> l.holds(w) by {
                    assert(n.put(f, chain(children)).holds(w) <==> n.holds(w));
                }
            },
            _ => match n.sibling_of(f) {
                Some(Tree::Leaf { value }) => {
                    let sibling = Tree::Leaf { value };
                    let members = seq![f, value];
                    let sub = Tree::Stack { children: members, focused: 0 };
                    assert(sibling.holds(value));
                    assert forall|w: T| #[trigger] members.contains(w) <==> (w == f || w == value) by {
                        assert(members[0] == f);
                        assert(members[1] == value);
                    }
                    assert forall|w: T| #[trigger] sub.holds(w) <==> (node.holds(w)
                        || sibling.holds(w)) by {
                        assert(members.contains(w) <==> (w == f || w == value));
                    }
                    assert(members.no_duplicates());
                    lemma_put_above(n, f, sub);
                    assert(sub.shows(f));
                    assert forall|w: T| #[trigger] l.toggled().holds(w) <==> l.holds(w) by {
                        assert(n.put_above(f, sub).holds(w) <==> n.holds(w));
                    }
                },
                Some(Tree::Stack { children, focused }) => {
                    let sibling = Tree::Stack { children, focused };
                    lemma_with_member(sibling, f);
                    let sub = sibling.with_member(f);
                    lemma_put_above(n, f, sub);
                    assert(sub.shows(f));
                    assert forall|w: T| #[trigger] l.toggled().holds(w) <==> l.holds(w) by {
                        assert(n.put_above(f, sub).holds(w) <==> n.holds(w));
                    }
                },
                _ => {
                    let members = seq![f];
                    let sub = Tree::Stack { children: members, focused: 0 };
                    assert forall|w: T| #[trigger] members.contains(w) <==> w == f by {
                        assert(members[0] == f);
                    }
                    assert forall|w: T| #[trigger] sub.holds(w) <==> node.holds(w) by {
                        assert(members.contains(w) <==> w == f);
                    }
                    lemma_put(n, f, sub);
                    assert(sub.shows(f));
                    assert forall|w: T| #[trigger] l.toggled().holds(w) <==> l.holds(w) by {
                        assert(n.put(f, sub).holds(w) <==> n.holds(w));
                    }
                },
            },
        }
    }
}

/// Popping the focused stack member keeps all windows; it gets a tile of its
/// own and stays focused.
pub proof fn law_pop_keeps_windows<T>(l: Layout<T>)
    requires
        l.wf(),
    ensures
        l.popped().wf(),
        forall|w: T| #[trigger] l.popped().holds(w) <==> l.holds(w),
        l.popped().focus == l.focus,
        l.can_pop() ==> l.popped().focused_node() == (Tree::Leaf { value: l.focus->0 }),
{
    if l.can_pop() {
        let n = l.tree->0;
        let f = l.focus->0;
        let node = n.node_of(f);
        lemma_shows_holds(n);
        lemma_node_of(n, f);
        lemma_less(node, f);
        lemma_middle();
        let rest = node.less(f)->0;
        let left = node.reduced(f);
        assert forall|w: T| #[trigger] left.holds(w) <==> rest.holds(w) by {
            match rest {
                Tree::Stack { children, focused } => {
                    if children.len() == 1 {
                        assert(children.contains(w) <==> children[0] == w) by {
                            assert(children[0] == w ==> children.contains(w));
                        }
                    }
                },
                _ => {},
            }
        }
        let leaf = Tree::Leaf { value: f };
        assert(leaf.wf());
        assert forall|w: T| #[trigger] leaf.holds(w) <==> w == f by {}
        assert(leaf.shows(f));
        let sub = joined(Axis::Vertical, left, leaf);
        lemma_split(sub);
        assert(left.wf());
        assert(sub.wf());
        lemma_put(n, f, sub);
        lemma_put_node(n, f, sub);
        assert(sub.node_of(f) == leaf) by {
            reveal_with_fuel(Tree::node_of, 2);
        }
    }
}

/// Looking for a window in what was put in its place.
proof fn lemma_put_node<T>(n: Tree<T>, t: T, sub: Tree<T>)
    requires
        n.wf(),
        n.holds(t),
        sub.holds(t),
    ensures
        n.put(t, sub).holds(t),
        n.put(t, sub).node_of(t) == sub.node_of(t),
    decreases n,
{
    match n {
        Tree::Split { axis, ratio, left, right } => {
            lemma_split(n);
            lemma_split(n.put(t, sub));
            if left.holds(t) {
                lemma_put_node(*left, t, sub);
            } else {
                lemma_put_node(*right, t, sub);
            }
        },
        _ => {},
    }
}

/// Cycling through a stack keeps all windows, and one step forward undoes one
/// step backward and the other way round.
pub proof fn law_cycle_goes_round<T>(l: Layout<T>, forward: bool)
    requires
        l.wf(),
    ensures
        l.cycled(forward).wf(),
        forall|w: T| #[trigger] l.cycled(forward).holds(w) <==> l.holds(w),
        l.cycled(forward).cycled(!forward) == l,
{
    if l.tree is Some {
        let n = l.tree->0;
        let f = l.focus->0;
        lemma_shows_holds(n);
        lemma_node_of(n, f);
        match n.node_of(f) {
            Tree::Stack { children, focused } => {
                let once = l.cycled(forward);
                let len = children.len() as int;
                let next = if forward {
                    (focused + 1) % len
                } else if focused == 0 {
                    len - 1
                } else {
                    focused - 1
                };
                assert(0 <= next < len) by {
                    if forward {
                        if focused + 1 < len {
                            vstd::arithmetic::div_mod::lemma_small_mod(
                                (focused + 1) as nat,
                                len as nat,
                            );
                        } else {
                            vstd::arithmetic::div_mod::lemma_mod_self_0(len);
                        }
                    }
                }
                let sub = Tree::Stack { children, focused: next };
                let g = children[next];
                assert(children.contains(g));
                assert(sub.wf() && sub.shows(g) && sub.holds(g));
                assert forall|w: T| #[trigger] sub.holds(w) <==> n.node_of(f).holds(w) by {}
                lemma_put(n, f, sub);
                assert(n.node_of(f).holds(g));
                lemma_put_same_place(n, f, g, sub);
                lemma_put_node(n, g, sub);
                lemma_put_twice(n, g, sub, n.node_of(f));
                let back = if !forward {
                    (next + 1) % len
                } else if next == 0 {
                    len - 1
                } else {
                    next - 1
                };
                assert(back == focused) by {
                    if forward {
                        if focused + 1 < len {
                            vstd::arithmetic::div_mod::lemma_small_mod(
                                (focused + 1) as nat,
                                len as nat,
                            );
                        } else {
                            vstd::arithmetic::div_mod::lemma_mod_self_0(len);
                        }
                    } else {
                        if focused == 0 {
                            vstd::arithmetic::div_mod::lemma_mod_self_0(len);
                        } else {
                            vstd::arithmetic::div_mod::lemma_small_mod(
                                focused as nat,
                                len as nat,
                            );
                        }
                    }
                }
                assert(once.tree == Some(n.put(g, sub)));
                lemma_put_own_node(n, g);
            },
            _ => {},
        }
    }
}

/// Two windows of the same leaf or stack name the same place.
proof fn lemma_put_same_place<T>(n: Tree<T>, t: T, u: T, sub: Tree<T>)
    requires
        n.wf(),
        n.holds(t),
        n.node_of(t).holds(u),
    ensures
        n.put(t, sub) == n.put(u, sub),
    decreases n,
{
    lemma_node_of(n, t);
    match n {
        Tree::Split { axis, ratio, left, right } => {
            lemma_split(n);
            if left.holds(t) {
                lemma_node_of(*left, t);
                lemma_put_same_place(*left, t, u, sub);
            } else {
                lemma_node_of(*right, t);
                lemma_put_same_place(*right, t, u, sub);
            }
        },
        _ => {},
    }
}

/// The second of two things put in the same place stays.
proof fn lemma_put_twice<T>(n: Tree<T>, t: T, first: Tree<T>, second: Tree<T>)
    requires
        n.wf(),
        n.holds(t),
        first.holds(t),
        !(first is Split),
    ensures
        n.put(t, first).put(t, second) == n.put(t, second),
    decreases n,
{
    match n {
        Tree::Split { axis, ratio, left, right } => {
            lemma_split(n);
            if left.holds(t) {
                lemma_put_node(*left, t, first);
                lemma_put_twice(*left, t, first, second);
            } else {
                lemma_put_node(*right, t, first);
                lemma_put_twice(*right, t, first, second);
            }
        },
        _ => {},
    }
}

/// Putting back what is there changes nothing.
proof fn lemma_put_own_node<T>(n: Tree<T>, t: T)
    ensures
        n.put(t, n.node_of(t)) == n,
    decreases n,
{
    match n {
        Tree::Split { axis, ratio, left, right } => {
            if left.holds(t) {
                lemma_put_own_node(*left, t);
            } else {
                lemma_put_own_node(*right, t);
            }
        },
        _ => {},
    }
}

/// Resizing keeps every window where it is in the tree, and the focus.
pub proof fn law_resize_keeps_windows<T>(
    l: Layout<T>,
    t: T,
    dir: Direction,
    delta: int,
    area: Rect,
)
    requires
        l.wf(),
    ensures
        l.resized(t, dir, delta, area).wf(),
        forall|w: T| #[trigger] l.resized(t, dir, delta, area).holds(w) <==> l.holds(w),
        l.resized(t, dir, delta, area).focus == l.focus,
{
    if l.holds(t) {
        lemma_pushed(l.tree->0, t, Axis::across(dir), delta, area);
        lemma_pushed(l.tree->0, t, Axis::across(dir), -delta, area);
    }
}

/// The tiles are those of the visible windows, one for each.
pub proof fn lemma_tiles_show<T>(n: Tree<T>, area: Rect)
    requires
        n.wf(),
    ensures
        n.tiles(area).len() > 0,
        forall|i: int| 0 <= i < n.tiles(area).len() ==> n.shows(#[trigger] n.tiles(area)[i].0),
        forall|w: T| #[trigger]
            n.shows(w) ==> exists|i: int|
                0 <= i < n.tiles(area).len() && #[trigger] n.tiles(area)[i].0 == w,
        forall|i: int, j: int|
            0 <= i < n.tiles(area).len() && 0 <= j < n.tiles(area).len() && i != j
                ==> #[trigger] n.tiles(area)[i].0 != #[trigger] n.tiles(area)[j].0,
    decreases n,
{
    let tiles = n.tiles(area);
    match n {
        Tree::Split { axis, ratio, left, right } => {
            let (a, b) = area.split_spec(axis, ratio);
            lemma_split(n);
            lemma_shows_holds(*left);
            lemma_shows_holds(*right);
            lemma_tiles_show(*left, a);
            lemma_tiles_show(*right, b);
            let l = left.tiles(a);
            let r = right.tiles(b);
            assert(tiles == l + r);
            assert forall|i: int| 0 <= i < tiles.len() implies n.shows(#[trigger] tiles[i].0) by {
                if i < l.len() {
                    assert(left.shows(l[i].0));
                } else {
                    assert(right.shows(r[i - l.len()].0));
                }
            }
            assert forall|w: T| #[trigger] n.shows(w) implies exists|i: int|
                0 <= i < tiles.len() && #[trigger] tiles[i].0 == w by {
                if left.shows(w) {
                    let i = choose|i: int| 0 <= i < l.len() && #[trigger] l[i].0 == w;
                    assert(tiles[i].0 == w);
                } else {
                    let i = choose|i: int| 0 <= i < r.len() && #[trigger] r[i].0 == w;
                    assert(tiles[i + l.len()].0 == w);
                }
            }
            assert forall|i: int, j: int|
                0 <= i < tiles.len() && 0 <= j < tiles.len() && i != j implies #[trigger] tiles[i].0
                != #[trigger] tiles[j].0 by {
                if i < l.len() && j < l.len() {
                    assert(l[i].0 != l[j].0);
                } else if i >= l.len() && j >= l.len() {
                    assert(r[i - l.len()].0 != r[j - l.len()].0);
                } else if i < l.len() {
                    assert(left.shows(l[i].0) && right.shows(r[j - l.len()].0));
                    assert(left.holds(l[i].0) && right.holds(r[j - l.len()].0));
                } else {
                    assert(left.shows(l[j].0) && right.shows(r[i - l.len()].0));
                    assert(left.holds(l[j].0) && right.holds(r[i - l.len()].0));
                }
            }
        },
        _ => {
            assert(n.shows(tiles[0].0));
            assert forall|w: T| #[trigger] n.shows(w) implies exists|i: int|
                0 <= i < tiles.len() && #[trigger] tiles[i].0 == w by {
                assert(tiles[0].0 == w);
            }
        },
    }
}

/// The areas of the tiles added up.
pub open spec fn total_surface<T>(tiles: Seq<(T, Rect)>) -> int
    decreases tiles.len(),
{
    if tiles.len() == 0 {
        0
    } else {
        total_surface(tiles.drop_last()) + tiles.last().1.surface()
    }
}

proof fn lemma_total_surface_adds<T>(a: Seq<(T, Rect)>, b: Seq<(T, Rect)>)
    ensures
        total_surface(a + b) == total_surface(a) + total_surface(b),
    decreases b.len(),
{
    if b.len() == 0 {
        assert(a + b =~= a);
    } else {
        assert((a + b).drop_last() =~= a + b.drop_last());
        lemma_total_surface_adds(a, b.drop_last());
    }
}

/// The tiles fill the area: they lie inside it, no two share a pixel, no pixel
/// is left out, and their areas add up to the whole.
pub proof fn law_tiles_fill_the_area<T>(n: Tree<T>, area: Rect)
    requires
        n.wf(),
        area.valid(),
    ensures
        n.splits(area),
        total_surface(n.tiles(area)) == area.surface(),
        forall|i: int|
            0 <= i < n.tiles(area).len() ==> (#[trigger] n.tiles(area)[i]).1.valid()
                && n.tiles(area)[i].1.within(area),
        forall|x: int, y: int| #[trigger]
            area.has_point(x, y) ==> exists|i: int|
                0 <= i < n.tiles(area).len() && #[trigger] n.tiles(area)[i].1.has_point(x, y),
        forall|i: int, j: int, x: int, y: int|
            0 <= i < n.tiles(area).len() && 0 <= j < n.tiles(area).len() && i != j ==> !(
            #[trigger] n.tiles(area)[i].1.has_point(x, y) && #[trigger] n.tiles(
                area,
            )[j].1.has_point(x, y)),
    decreases n,
{
    let tiles = n.tiles(area);
    match n {
        Tree::Split { axis, ratio, left, right } => {
            let (a, b) = area.split_spec(axis, ratio);
            crate::rect::law_split_is_exact(area, axis, ratio);
            law_tiles_fill_the_area(*left, a);
            law_tiles_fill_the_area(*right, b);
            let l = left.tiles(a);
            let r = right.tiles(b);
            assert(tiles == l + r);
            lemma_total_surface_adds(l, r);
            assert forall|i: int| 0 <= i < tiles.len() implies (#[trigger] tiles[i]).1.valid()
                && tiles[i].1.within(area) by {
                if i < l.len() {
                    assert(l[i].1.within(a));
                } else {
                    assert(r[i - l.len()].1.within(b));
                }
            }
            assert forall|x: int, y: int| #[trigger] area.has_point(x, y) implies exists|i: int|
                0 <= i < tiles.len() && #[trigger] tiles[i].1.has_point(x, y) by {
                if a.has_point(x, y) {
                    let i = choose|i: int| 0 <= i < l.len() && #[trigger] l[i].1.has_point(x, y);
                    assert(tiles[i].1.has_point(x, y));
                } else {
                    assert(b.has_point(x, y));
                    let i = choose|i: int| 0 <= i < r.len() && #[trigger] r[i].1.has_point(x, y);
                    assert(tiles[i + l.len()].1.has_point(x, y));
                }
            }
            assert forall|i: int, j: int, x: int, y: int|
                0 <= i < tiles.len() && 0 <= j < tiles.len() && i != j implies !(
            #[trigger] tiles[i].1.has_point(x, y) && #[trigger] tiles[j].1.has_point(x, y)) by {
                if tiles[i].1.has_point(x, y) && tiles[j].1.has_point(x, y) {
                    if i < l.len() && j < l.len() {
                        assert(l[i].1.has_point(x, y) && l[j].1.has_point(x, y));
                    } else if i >= l.len() && j >= l.len() {
                        assert(r[i - l.len()].1.has_point(x, y) && r[j - l.len()].1.has_point(
                            x,
                            y,
                        ));
                    } else if i < l.len() {
                        assert(l[i].1.within(a) && r[j - l.len()].1.within(b));
                        assert(a.has_point(x, y) && b.has_point(x, y));
                    } else {
                        assert(l[j].1.within(a) && r[i - l.len()].1.within(b));
                        assert(a.has_point(x, y) && b.has_point(x, y));
                    }
                }
            }
        },
        _ => {
            assert(tiles.len() == 1 && tiles[0].1 == area);
            assert(tiles.drop_last() =~= Seq::empty());
            assert(total_surface(tiles) == area.surface()) by {
                reveal_with_fuel(total_surface, 2);
            }
            assert forall|x: int, y: int| #[trigger] area.has_point(x, y) implies exists|i: int|
                0 <= i < tiles.len() && #[trigger] tiles[i].1.has_point(x, y) by {
                assert(tiles[0].1.has_point(x, y));
            }
        },
    }
}

/// The window list names every window once, the hidden list every window that
/// has no tile, and together with the tiles they are complete.
pub proof fn law_windows_are_tiles_and_hidden<T>(n: Tree<T>, area: Rect)
    requires
        n.wf(),
    ensures
        n.windows().no_duplicates(),
        n.hidden().no_duplicates(),
        n.windows().len() > 0,
        forall|w: T| #[trigger] n.windows().contains(w) <==> n.holds(w),
        forall|w: T| #[trigger] n.hidden().contains(w) <==> (n.holds(w) && !n.shows(w)),
        n.windows().len() == n.tiles(area).len() + n.hidden().len(),
    decreases n,
{
    match n {
        Tree::Leaf { value } => {
            assert forall|w: T| #[trigger] n.windows().contains(w) <==> n.holds(w) by {
                assert(n.windows()[0] == value);
            }
        },
        Tree::Stack { children, focused } => {
            let hidden = children.remove(focused);
            assert forall|w: T| #[trigger] hidden.contains(w) <==> (n.holds(w) && !n.shows(w)) by {
                if hidden.contains(w) {
                    let i = hidden.index_of(w);
                    if i < focused {
                        assert(children[i] == w);
                    } else {
                        assert(children[i + 1] == w);
                    }
                }
                if n.holds(w) && !n.shows(w) {
                    let i = children.index_of(w);
                    if i < focused {
                        assert(hidden[i] == w);
                    } else {
                        assert(hidden[i - 1] == w);
                    }
                }
            }
        },
        Tree::Split { axis, ratio, left, right } => {
            let (a, b) = area.split_spec(axis, ratio);
            lemma_split(n);
            lemma_shows_holds(*left);
            lemma_shows_holds(*right);
            law_windows_are_tiles_and_hidden(*left, a);
            law_windows_are_tiles_and_hidden(*right, b);
            lemma_seq_joined(left.windows(), right.windows());
            lemma_seq_joined(left.hidden(), right.hidden());
            assert forall|w: T| #[trigger] n.windows().contains(w) <==> n.holds(w) by {
                assert((left.windows() + right.windows()).contains(w) <==> (
                left.windows().contains(w) || right.windows().contains(w)));
            }
            assert forall|w: T| #[trigger] n.hidden().contains(w) <==> (n.holds(w) && !n.shows(w)) by {
                assert((left.hidden() + right.hidden()).contains(w) <==> (left.hidden().contains(w)
                    || right.hidden().contains(w)));
                assert(left.holds(w) ==> !right.holds(w));
            }
            assert(n.windows().no_duplicates()) by {
                assert forall|w: T| !(#[trigger] left.windows().contains(w)
                    && right.windows().contains(w)) by {
                    assert(left.windows().contains(w) <==> left.holds(w));
                    assert(right.windows().contains(w) <==> right.holds(w));
                }
            }
            assert(n.hidden().no_duplicates()) by {
                assert forall|w: T| !(#[trigger] left.hidden().contains(w)
                    && right.hidden().contains(w)) by {
                    assert(left.hidden().contains(w) ==> left.holds(w));
                    assert(right.hidden().contains(w) ==> right.holds(w));
                }
            }
        },
    }
}

/// What two sequences, one after the other, contain.
proof fn lemma_seq_joined<T>(a: Seq<T>, b: Seq<T>)
    ensures
        forall|w: T| #[trigger] (a + b).contains(w) <==> (a.contains(w) || b.contains(w)),
        a.no_duplicates() && b.no_duplicates() && (forall|w: T| !(#[trigger] a.contains(w)
            && b.contains(w))) ==> (a + b).no_duplicates(),
{
    assert forall|w: T| #[trigger] (a + b).contains(w) <==> (a.contains(w) || b.contains(w)) by {
        if (a + b).contains(w) {
            let i = (a + b).index_of(w);
            if i < a.len() {
                assert(a[i] == w);
            } else {
                assert(b[i - a.len()] == w);
            }
        }
        if a.contains(w) {
            assert((a + b)[a.index_of(w)] == w);
        }
        if b.contains(w) {
            assert((a + b)[b.index_of(w) + a.len()] == w);
        }
    }
    if a.no_duplicates() && b.no_duplicates() && (forall|w: T| !(#[trigger] a.contains(w)
        && b.contains(w))) {
        assert forall|i: int, j: int|
            0 <= i < (a + b).len() && 0 <= j < (a + b).len() && i != j implies (a + b)[i] != (a
            + b)[j] by {
            if i < a.len() && j >= a.len() {
                assert(a.contains(a[i]));
                assert(b.contains(b[j - a.len()]));
            } else if j < a.len() && i >= a.len() {
                assert(a.contains(a[j]));
                assert(b.contains(b[i - a.len()]));
            }
        }
    }
}

/// Swapping two windows leaves every tile where it is.
pub proof fn law_swap_keeps_geometry<T>(n: Tree<T>, a: T, b: T, area: Rect)
    requires
        n.wf(),
    ensures
        n.swapped(a, b).tiles(area).len() == n.tiles(area).len(),
        forall|i: int|
            0 <= i < n.tiles(area).len() ==> #[trigger] n.swapped(a, b).tiles(area)[i] == (
                exchange(n.tiles(area)[i].0, a, b),
                n.tiles(area)[i].1,
            ),
    decreases n,
{
    match n {
        Tree::Split { axis, ratio, left, right } => {
            let (p, q) = area.split_spec(axis, ratio);
            law_swap_keeps_geometry(*left, a, b, p);
            law_swap_keeps_geometry(*right, a, b, q);
            let before = n.tiles(area);
            let after = n.swapped(a, b).tiles(area);
            assert(after == left.swapped(a, b).tiles(p) + right.swapped(a, b).tiles(q));
            assert forall|i: int| 0 <= i < before.len() implies #[trigger] after[i] == (
                exchange(before[i].0, a, b),
                before[i].1,
            ) by {
                if i < left.tiles(p).len() {
                    assert(left.swapped(a, b).tiles(p)[i] == after[i]);
                } else {
                    assert(right.swapped(a, b).tiles(q)[i - left.tiles(p).len()] == after[i]);
                }
            }
        },
        _ => {},
    }
}

/// A leaf that has no leaf or stack beside it becomes a stack of one, and a
/// leaf again on the next toggle.
pub proof fn law_toggle_undoes_lone_stack<T>(l: Layout<T>)
    requires
        l.wf(),
        l.tree is Some,
        l.focused_node() is Leaf,
        l.tree->0.sibling_of(l.focus->0) is None || l.tree->0.sibling_of(l.focus->0)->0 is Split,
    ensures
        l.toggled().focused_node() is Stack,
        l.toggled().toggled() == l,
{
    let n = l.tree->0;
    let f = l.focus->0;
    let members = seq![f];
    let sub = Tree::Stack { children: members, focused: 0 };
    lemma_shows_holds(n);
    lemma_node_of(n, f);
    assert(members[0] == f);
    assert(sub.holds(f));
    lemma_put_node(n, f, sub);
    lemma_put_twice(n, f, sub, n.node_of(f));
    lemma_put_own_node(n, f);
    assert(chain(members) == n.node_of(f));
}

/// Swallowing a neighbour keeps all windows; the swallowed one is visible and
/// focused.
pub proof fn law_swallow_keeps_windows<T>(l: Layout<T>, dir: Direction, area: Rect)
    requires
        l.wf(),
    ensures
        l.swallowed(dir, area).wf(),
        forall|w: T| #[trigger] l.swallowed(dir, area).holds(w) <==> l.holds(w),
        l.focus matches Some(f) ==> (l.neighbour(f, dir, area) matches Some(other) ==> {
            &&& l.swallowed(dir, area).focus == Some(other)
            &&& other != f
            &&& l.tree->0.shows(other)
            &&& l.removed(other).focus == Some(f)
        }),
{
    if l.focus is Some {
        let f = l.focus->0;
        if l.neighbour(f, dir, area) is Some {
            let other = l.neighbour(f, dir, area)->0;
            let n = l.tree->0;
            lemma_neighbour(l, f, dir, area);
            lemma_shows_holds(n);
            lemma_node_of(n, other);
            law_remove_drops_the_window(l, other);
            let rest = l.removed(other).tree->0;
            assert(l.removed(other).holds(f));
            assert(rest.wf() && rest.holds(f));
            lemma_node_of(rest, f);
            assert(!rest.holds(other)) by {
                assert(!l.removed(other).holds(other));
            }
            lemma_with_member(rest.node_of(f), other);
            lemma_put(rest, f, rest.node_of(f).with_member(other));
            assert forall|w: T| #[trigger] l.swallowed(dir, area).holds(w) <==> l.holds(w) by {
                assert(l.removed(other).holds(w) <==> (l.holds(w) && w != other));
            }
        }
    }
}

/// A neighbour is another visible window.
pub proof fn lemma_neighbour<T>(l: Layout<T>, t: T, dir: Direction, area: Rect)
    requires
        l.wf(),
    ensures
        l.neighbour(t, dir, area) matches Some(other) ==> {
            &&& l.tree is Some
            &&& l.tree->0.shows(t)
            &&& l.tree->0.shows(other)
            &&& other != t
        },
{
    let tiles = l.laid_out(area, 0);
    if l.neighbour(t, dir, area) is Some {
        let from = tile_in(tiles, t)->0;
        let n = l.tree->0;
        lemma_tiles_show(n, area);
        let k = choose|i: int| 0 <= i < tiles.len() && (#[trigger] tiles[i]).0 == t;
        assert(n.shows(n.tiles(area)[k].0));
        let i = choose|i: int| nearest::is_nearest(tiles, t, from, dir, i);
        assert(n.shows(n.tiles(area)[i].0));
    }
}

} // verus!
