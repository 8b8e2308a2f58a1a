//! The layout tree of a workspace: a binary space partition in the "dwindle"
//! style, with stacks.
//!
//! New windows split the focused leaf, or join the focused stack. What each
//! operation does is stated over [`Layout`], the model of the tree.

use crate::ids::Key;
use crate::nearest::nearest_in_direction;
use crate::ratio::Ratio;
use crate::rect::{Axis, Direction, Rect};
use crate::tree;
use crate::tree::{Layout, LayoutMode, Tree};
use vstd::prelude::*;

verus! {

enum Node<T> {
    Leaf { value: T },
    Stack { children: Vec<T>, focused: usize },
    Split { axis: Axis, ratio: Ratio, left: Box<Node<T>>, right: Box<Node<T>> },
}

/// The position of `t` among stack members.
fn position<T: Key>(members: &Vec<T>, t: T) -> (r: Option<usize>)
    ensures
        match r {
            Some(p) => p < members@.len() && members@[p as int] == t,
            None => !members@.contains(t),
        },
        members@.no_duplicates() && r is Some ==> members@.index_of(t) == r->0,
{
    let mut i: usize = 0;
    while i < members.len()
        invariant
            i <= members.len(),
            forall|j: int| 0 <= j < i ==> members@[j] != t,
        decreases members.len() - i,
    {
        if members[i].same(&t) {
            assert(members@.contains(t));
            return Some(i);
        }
        i = i + 1;
    }
    None
}

/// A chain of side-by-side tiles, one for each former stack member.
fn chain_of<T: Key>(members: &Vec<T>) -> (r: Node<T>)
    requires
        members@.len() > 0,
    ensures
        r.view() == tree::chain(members@),
{
    let n: usize = members.len();
    let mut right = Node::Leaf { value: members[n - 1] };
    let mut i: usize = n - 1;
    assert(members@.subrange(n - 1, n as int) =~= seq![members@[n - 1]]);
    while i > 0
        invariant
            n == members@.len(),
            0 <= i < n,
            right.view() == tree::chain(members@.subrange(i as int, n as int)),
        decreases i,
    {
        i = i - 1;
        let left = Node::Leaf { value: members[i] };
        proof {
            let s = members@.subrange(i as int, n as int);
            assert(s.drop_first() =~= members@.subrange(i + 1, n as int));
            assert(s[0] == members@[i as int]);
        }
        let middle = Ratio::half();
        assert(left.view() == Tree::Leaf { value: members@[i as int] });
        assert(middle == tree::middle());
        right = Node::Split {
            axis: Axis::Vertical,
            ratio: middle,
            left: Box::new(left),
            right: Box::new(right),
        };
    }
    assert(members@.subrange(0, n as int) =~= members@);
    right
}

impl<T> Node<T> {
    /// The tree that this node stands for.
    spec fn view(self) -> Tree<T>
        decreases self,
    {
        match self {
            Node::Leaf { value } => Tree::Leaf { value },
            Node::Stack { children, focused } => Tree::Stack {
                children: children@,
                focused: focused as int,
            },
            Node::Split { axis, ratio, left, right } => Tree::Split {
                axis,
                ratio,
                left: Box::new(left.view()),
                right: Box::new(right.view()),
            },
        }
    }
}

impl<T: Key> Node<T> {
    /// The same tree once more.
    fn copied(&self) -> (r: Self)
        ensures
            r.view() == self.view(),
        decreases self,
    {
        match self {
            Node::Leaf { value } => Node::Leaf { value: *value },
            Node::Stack { children, focused } => {
                let mut members: Vec<T> = Vec::new();
                let mut i: usize = 0;
                while i < children.len()
                    invariant
                        i <= children@.len(),
                        members@.len() == i,
                        forall|k: int| 0 <= k < i ==> #[trigger] members@[k] == children@[k],
                    decreases children@.len() - i,
                {
                    members.push(children[i]);
                    i = i + 1;
                }
                assert(members@ =~= children@);
                Node::Stack { children: members, focused: *focused }
            },
            Node::Split { axis, ratio, left, right } => Node::Split {
                axis: *axis,
                ratio: *ratio,
                left: Box::new(left.copied()),
                right: Box::new(right.copied()),
            },
        }
    }

    fn holds(&self, t: T) -> (r: bool)
        ensures
            r == self.view().holds(t),
        decreases self,
    {
        match self {
            Node::Leaf { value } => value.same(&t),
            Node::Stack { children, focused } => {
                let p = position(children, t);
                proof {
                    if p is Some {
                        assert(children@[p->0 as int] == t);
                    }
                }
                p.is_some()
            },
            Node::Split { axis, ratio, left, right } => left.holds(t) || right.holds(t),
        }
    }

    fn is_split(&self) -> (r: bool)
        ensures
            r == (self.view() is Split),
    {
        match self {
            Node::Split { axis, ratio, left, right } => true,
            _ => false,
        }
    }

    fn collect_all(&self, out: &mut Vec<T>)
        ensures
            final(out)@ == old(out)@ + self.view().windows(),
        decreases self,
    {
        match self {
            Node::Leaf { value } => {
                out.push(*value);
                assert(out@ =~= old(out)@ + self.view().windows());
            },
            Node::Stack { children, focused } => {
                let mut i: usize = 0;
                while i < children.len()
                    invariant
                        i <= children.len(),
                        out@ == old(out)@ + children@.subrange(0, i as int),
                    decreases children.len() - i,
                {
                    out.push(children[i]);
                    i = i + 1;
                    assert(children@.subrange(0, i as int) =~= children@.subrange(
                        0,
                        i - 1,
                    ).push(children@[i - 1]));
                    assert(out@ =~= old(out)@ + children@.subrange(0, i as int));
                }
                assert(children@.subrange(0, i as int) =~= children@);
            },
            Node::Split { axis, ratio, left, right } => {
                left.collect_all(out);
                right.collect_all(out);
                assert(out@ =~= old(out)@ + self.view().windows());
            },
        }
    }

    fn collect_hidden(&self, out: &mut Vec<T>)
        requires
            self.view().wf(),
        ensures
            final(out)@ == old(out)@ + self.view().hidden(),
        decreases self,
    {
        match self {
            Node::Leaf { value } => {
                assert(out@ =~= old(out)@ + self.view().hidden());
            },
            Node::Stack { children, focused } => {
                let ghost hidden = children@.remove(*focused as int);
                let mut i: usize = 0;
                while i < children.len()
                    invariant
                        i <= children.len(),
                        *focused < children.len(),
                        hidden == children@.remove(*focused as int),
                        out@ == old(out)@ + hidden.subrange(
                            0,
                            if i <= *focused {
                                i as int
                            } else {
                                i - 1
                            },
                        ),
                    decreases children.len() - i,
                {
                    if i != *focused {
                        out.push(children[i]);
                    }
                    i = i + 1;
                    assert(out@ =~= old(out)@ + hidden.subrange(
                        0,
                        if i <= *focused {
                            i as int
                        } else {
                            i - 1
                        },
                    ));
                }
                assert(hidden.subrange(0, i - 1) =~= hidden);
            },
            Node::Split { axis, ratio, left, right } => {
                left.collect_hidden(out);
                right.collect_hidden(out);
                assert(out@ =~= old(out)@ + self.view().hidden());
            },
        }
    }

    /// Append the tile of each visible window, inset by `gap`.
    fn layout_node(&self, area: Rect, gap: i32, out: &mut Vec<(T, Rect)>)
        requires
            self.view().wf(),
            self.view().splits(area),
            forall|i: int|
                0 <= i < self.view().tiles(area).len() ==> (#[trigger] self.view().tiles(
                    area,
                )[i]).1.can_inset(gap as int),
        ensures
            final(out)@ == old(out)@ + self.view().tiles(area).map_values(
                |p: (T, Rect)| (p.0, p.1.inset_spec(gap as int)),
            ),
        decreases self,
    {
        let ghost inset = |p: (T, Rect)| (p.0, p.1.inset_spec(gap as int));
        let ghost tiles = self.view().tiles(area);
        match self {
            Node::Leaf { value } => {
                assert(tiles[0].1.can_inset(gap as int));
                out.push((*value, area.inset(gap)));
                assert(out@ =~= old(out)@ + tiles.map_values(inset));
            },
            Node::Stack { children, focused } => {
                assert(tiles[0].1.can_inset(gap as int));
                out.push((children[*focused], area.inset(gap)));
                assert(out@ =~= old(out)@ + tiles.map_values(inset));
            },
            Node::Split { axis, ratio, left, right } => {
                let (a, b) = area.split(*axis, *ratio);
                let ghost l = left.view().tiles(a);
                let ghost r = right.view().tiles(b);
                assert(tiles == l + r);
                assert forall|i: int| 0 <= i < l.len() implies (#[trigger] l[i]).1.can_inset(
                    gap as int,
                ) by {
                    assert(tiles[i] == l[i]);
                }
                assert forall|i: int| 0 <= i < r.len() implies (#[trigger] r[i]).1.can_inset(
                    gap as int,
                ) by {
                    assert(tiles[i + l.len()] == r[i]);
                }
                left.layout_node(a, gap, out);
                right.layout_node(b, gap, out);
                assert(out@ =~= old(out)@ + tiles.map_values(inset));
            },
        }
    }

    /// The visible window of the first leaf or stack.
    fn front(&self) -> (r: T)
        requires
            self.view().wf(),
        ensures
            r == self.view().front(),
        decreases self,
    {
        match self {
            Node::Leaf { value } => *value,
            Node::Stack { children, focused } => children[*focused],
            Node::Split { axis, ratio, left, right } => left.front(),
        }
    }

    /// The tile of the leaf or stack that holds `t`.
    fn leaf_rect(&self, t: T, area: Rect) -> (r: Rect)
        requires
            self.view().splits(area),
        ensures
            r == self.view().tile_of(t, area),
        decreases self,
    {
        match self {
            Node::Split { axis, ratio, left, right } => {
                let (a, b) = area.split(*axis, *ratio);
                if left.holds(t) {
                    left.leaf_rect(t, a)
                } else {
                    right.leaf_rect(t, b)
                }
            },
            _ => area,
        }
    }

    /// The axis of the split directly above the leaf or stack that holds `t`.
    fn axis_above(&self, t: T) -> (r: Option<Axis>)
        ensures
            r == self.view().axis_above(t),
        decreases self,
    {
        match self {
            Node::Split { axis, ratio, left, right } => {
                if left.holds(t) {
                    if left.is_split() {
                        left.axis_above(t)
                    } else {
                        Some(*axis)
                    }
                } else {
                    if right.is_split() {
                        right.axis_above(t)
                    } else {
                        Some(*axis)
                    }
                }
            },
            _ => None,
        }
    }

    /// Where `t` is in its stack, the position that the stack shows, and its
    /// size.
    fn stack_with(&self, t: T) -> (r: Option<(usize, usize, usize)>)
        requires
            self.view().wf(),
            self.view().holds(t),
        ensures
            match self.view().node_of(t) {
                Tree::Stack { children, focused } => r matches Some((at, shown, size)) && {
                    &&& at == children.index_of(t)
                    &&& shown == focused
                    &&& size == children.len()
                    &&& at < size
                },
                _ => r is None,
            },
        decreases self,
    {
        match self {
            Node::Leaf { value } => None,
            Node::Stack { children, focused } => {
                let p = position(children, t);
                assert(children@.contains(t));
                match p {
                    Some(p) => Some((p, *focused, children.len())),
                    None => None,
                }
            },
            Node::Split { axis, ratio, left, right } => {
                if left.holds(t) {
                    left.stack_with(t)
                } else {
                    right.stack_with(t)
                }
            },
        }
    }

    /// Whether `u` is in the leaf or stack that holds `t`.
    fn together(&self, t: T, u: T) -> (r: bool)
        ensures
            r == self.view().node_of(t).holds(u),
        decreases self,
    {
        match self {
            Node::Split { axis, ratio, left, right } => {
                if left.holds(t) {
                    left.together(t, u)
                } else {
                    right.together(t, u)
                }
            },
            _ => self.holds(u),
        }
    }

    /// The split of `self` and a new leaf in the middle.
    fn beside(self, axis: Axis, t: T) -> (r: Node<T>)
        ensures
            r.view() == tree::joined(axis, self.view(), Tree::Leaf { value: t }),
    {
        let middle = Ratio::half();
        let leaf = Node::Leaf { value: t };
        assert(leaf.view() == Tree::Leaf { value: t });
        assert(middle == tree::middle());
        Node::Split { axis, ratio: middle, left: Box::new(self), right: Box::new(leaf) }
    }

    /// With `t` in a new split beside the leaf `f`.
    fn grafted(self, f: T, axis: Axis, t: T) -> (r: Node<T>)
        ensures
            r.view() == self.view().put(
                f,
                tree::joined(axis, self.view().node_of(f), Tree::Leaf { value: t }),
            ),
        decreases self,
    {
        match self {
            Node::Split { axis: own, ratio, left, right } => {
                if left.holds(f) {
                    let left = (*left).grafted(f, axis, t);
                    Node::Split { axis: own, ratio, left: Box::new(left), right }
                } else {
                    let right = (*right).grafted(f, axis, t);
                    Node::Split { axis: own, ratio, left, right: Box::new(right) }
                }
            },
            _ => self.beside(axis, t),
        }
    }

    /// With `t` added to the leaf or stack that holds `f`, and visible.
    fn stacked(self, f: T, t: T) -> (r: Node<T>)
        ensures
            r.view() == self.view().put(f, self.view().node_of(f).with_member(t)),
        decreases self,
    {
        match self {
            Node::Leaf { value } => {
                let mut children: Vec<T> = Vec::new();
                children.push(value);
                children.push(t);
                assert(children@ =~= seq![value, t]);
                Node::Stack { children, focused: 1 }
            },
            Node::Stack { children, focused } => {
                let mut children = children;
                let at: usize = children.len();
                children.push(t);
                Node::Stack { children, focused: at }
            },
            Node::Split { axis, ratio, left, right } => {
                if left.holds(f) {
                    let left = (*left).stacked(f, t);
                    Node::Split { axis, ratio, left: Box::new(left), right }
                } else {
                    let right = (*right).stacked(f, t);
                    Node::Split { axis, ratio, left, right: Box::new(right) }
                }
            },
        }
    }

    /// With `t` visible.
    fn showing(self, t: T) -> (r: Node<T>)
        requires
            self.view().wf(),
            self.view().holds(t),
        ensures
            r.view() == self.view().put(t, self.view().node_of(t).showing(t)),
        decreases self,
    {
        match self {
            Node::Leaf { value } => self,
            Node::Stack { children, focused } => {
                assert(children@.contains(t));
                match position(&children, t) {
                    Some(p) => Node::Stack { children, focused: p },
                    None => Node::Stack { children, focused },
                }
            },
            Node::Split { axis, ratio, left, right } => {
                if left.holds(t) {
                    let left = (*left).showing(t);
                    Node::Split { axis, ratio, left: Box::new(left), right }
                } else {
                    let right = (*right).showing(t);
                    Node::Split { axis, ratio, left, right: Box::new(right) }
                }
            },
        }
    }

    /// With position `at` of the stack that holds `f` visible.
    fn turned(self, f: T, at: usize) -> (r: Node<T>)
        requires
            self.view().node_of(f) is Stack,
        ensures
            self.view().node_of(f) matches Tree::Stack { children, focused } && r.view()
                == self.view().put(f, Tree::Stack { children, focused: at as int }),
        decreases self,
    {
        match self {
            Node::Leaf { value } => self,
            Node::Stack { children, focused } => Node::Stack { children, focused: at },
            Node::Split { axis, ratio, left, right } => {
                if left.holds(f) {
                    let left = (*left).turned(f, at);
                    Node::Split { axis, ratio, left: Box::new(left), right }
                } else {
                    let right = (*right).turned(f, at);
                    Node::Split { axis, ratio, left, right: Box::new(right) }
                }
            },
        }
    }

    /// The member at position `at` of the stack that holds `f`.
    fn member(&self, f: T, at: usize) -> (r: T)
        requires
            self.view().node_of(f) matches Tree::Stack { children, focused } && at < children.len(),
        ensures
            self.view().node_of(f) matches Tree::Stack { children, focused } && r
                == children[at as int],
        decreases self,
    {
        match self {
            Node::Leaf { value } => *value,
            Node::Stack { children, focused } => children[at],
            Node::Split { axis, ratio, left, right } => {
                if left.holds(f) {
                    left.member(f, at)
                } else {
                    right.member(f, at)
                }
            },
        }
    }

    /// The window that inherits the focus when `t` goes away.
    fn heir(&self, t: T) -> (r: Option<T>)
        requires
            self.view().wf(),
            self.view().holds(t),
        ensures
            r == match (self.view().node_of(t).less(t), self.view().sibling_of(t)) {
                (Some(rest), _) => Some(rest.front()),
                (None, Some(sibling)) => Some(sibling.front()),
                (None, None) => None,
            },
        decreases self,
    {
        match self {
            Node::Leaf { value } => None,
            Node::Stack { children, focused } => {
                assert(children@.contains(t));
                let ghost rest = children@.remove(children@.index_of(t));
                let size: usize = children.len();
                match position(children, t) {
                    Some(p) => {
                        if size == 1 {
                            None
                        } else {
                            let at: usize = if *focused < size - 1 {
                                *focused
                            } else {
                                size - 2
                            };
                            let from: usize = if at < p {
                                at
                            } else {
                                at + 1
                            };
                            assert(rest[at as int] == children@[from as int]);
                            Some(children[from])
                        }
                    },
                    None => None,
                }
            },
            Node::Split { axis, ratio, left, right } => {
                proof {
                    if left.view().holds(t) {
                        tree::lemma_sibling_of(left.view(), t);
                    } else {
                        tree::lemma_sibling_of(right.view(), t);
                    }
                }
                if left.holds(t) {
                    match left.heir(t) {
                        Some(w) => Some(w),
                        None => Some(right.front()),
                    }
                } else {
                    match right.heir(t) {
                        Some(w) => Some(w),
                        None => Some(left.front()),
                    }
                }
            },
        }
    }

    /// Without `t`.
    fn without(self, t: T) -> (r: Option<Node<T>>)
        requires
            self.view().wf(),
            self.view().holds(t),
        ensures
            match r {
                Some(rest) => self.view().without(t) == Some(rest.view()),
                None => self.view().without(t) is None,
            },
        decreases self,
    {
        match self {
            Node::Leaf { value } => None,
            Node::Stack { children, focused } => {
                assert(children@.contains(t));
                let mut children = children;
                match position(&children, t) {
                    Some(p) => {
                        children.remove(p);
                        if children.len() == 0 {
                            None
                        } else {
                            let at: usize = if focused < children.len() {
                                focused
                            } else {
                                children.len() - 1
                            };
                            Some(Node::Stack { children, focused: at })
                        }
                    },
                    None => None,
                }
            },
            Node::Split { axis, ratio, left, right } => {
                proof {
                    if left.view().holds(t) {
                        tree::lemma_sibling_of(left.view(), t);
                    } else {
                        tree::lemma_sibling_of(right.view(), t);
                    }
                }
                if left.holds(t) {
                    match (*left).without(t) {
                        Some(left) => Some(Node::Split { axis, ratio, left: Box::new(left), right }),
                        None => Some(*right),
                    }
                } else {
                    match (*right).without(t) {
                        Some(right) => Some(
                            Node::Split { axis, ratio, left, right: Box::new(right) },
                        ),
                        None => Some(*left),
                    }
                }
            },
        }
    }

    /// With `a` and `b` in each other's place.
    fn swapped(self, a: T, b: T) -> (r: Node<T>)
        ensures
            r.view() == self.view().swapped(a, b),
        decreases self,
    {
        match self {
            Node::Leaf { value } => Node::Leaf { value: exchanged(value, a, b) },
            Node::Stack { children, focused } => {
                let mut after: Vec<T> = Vec::new();
                let mut i: usize = 0;
                while i < children.len()
                    invariant
                        i <= children.len(),
                        after@.len() == i,
                        forall|j: int|
                            0 <= j < i ==> #[trigger] after@[j] == tree::exchange(
                                children@[j],
                                a,
                                b,
                            ),
                    decreases children.len() - i,
                {
                    after.push(exchanged(children[i], a, b));
                    i = i + 1;
                }
                assert(after@ =~= children@.map_values(|t: T| tree::exchange(t, a, b)));
                Node::Stack { children: after, focused }
            },
            Node::Split { axis, ratio, left, right } => {
                let left = (*left).swapped(a, b);
                let right = (*right).swapped(a, b);
                Node::Split { axis, ratio, left: Box::new(left), right: Box::new(right) }
            },
        }
    }

    /// What becomes of the leaf `f` and its sibling when stack mode is toggled,
    /// or `None` where the sibling is a subtree.
    fn merged(f: T, sibling: &Node<T>) -> (r: Option<Node<T>>)
        ensures
            match (sibling.view(), r) {
                (Tree::Leaf { value }, Some(merged)) => merged.view() == (Tree::Stack {
                    children: seq![f, value],
                    focused: 0,
                }),
                (Tree::Stack { children, focused }, Some(merged)) => merged.view() == (
                Tree::Stack { children: children.push(f), focused: children.len() as int }),
                (Tree::Split { axis, ratio, left, right }, None) => true,
                _ => false,
            },
    {
        match sibling {
            Node::Leaf { value } => {
                let mut children: Vec<T> = Vec::new();
                children.push(f);
                children.push(*value);
                assert(children@ =~= seq![f, *value]);
                Some(Node::Stack { children, focused: 0 })
            },
            Node::Stack { children, focused } => {
                let mut joined: Vec<T> = Vec::new();
                sibling.collect_all(&mut joined);
                let at: usize = joined.len();
                assert(joined@ =~= children@);
                joined.push(f);
                Some(Node::Stack { children: joined, focused: at })
            },
            Node::Split { axis, ratio, left, right } => None,
        }
    }

    /// With stack mode toggled on the leaf or stack that holds `f`.
    fn toggled(self, f: T) -> (r: Node<T>)
        requires
            self.view().wf(),
            self.view().holds(f),
        ensures
            r.view() == self.view().toggled(f),
        decreases self,
    {
        match self {
            Node::Leaf { value } => {
                let mut children: Vec<T> = Vec::new();
                children.push(value);
                assert(children@ =~= seq![f]);
                Node::Stack { children, focused: 0 }
            },
            Node::Stack { children, focused } => chain_of(&children),
            Node::Split { axis, ratio, left, right } => {
                proof {
                    if left.view().holds(f) {
                        tree::lemma_sibling_of(left.view(), f);
                    } else {
                        tree::lemma_sibling_of(right.view(), f);
                    }
                }
                if left.holds(f) {
                    if left.is_leaf() {
                        match Self::merged(f, &right) {
                            Some(merged) => { return merged; },
                            None => {},
                        }
                    }
                    let left = (*left).toggled(f);
                    Node::Split { axis, ratio, left: Box::new(left), right }
                } else {
                    if right.is_leaf() {
                        match Self::merged(f, &left) {
                            Some(merged) => { return merged; },
                            None => {},
                        }
                    }
                    let right = (*right).toggled(f);
                    Node::Split { axis, ratio, left, right: Box::new(right) }
                }
            },
        }
    }

    fn is_leaf(&self) -> (r: bool)
        ensures
            r == (self.view() is Leaf),
    {
        match self {
            Node::Leaf { value } => true,
            _ => false,
        }
    }

    /// With the member `f` of a stack of several in a tile of its own.
    fn popped(self, f: T) -> (r: Node<T>)
        requires
            self.view().wf(),
            self.view().holds(f),
            self.view().shows(f),
            self.view().node_of(f) matches Tree::Stack { children, focused } && children.len() > 1,
        ensures
            r.view() == self.view().put(
                f,
                tree::joined(
                    Axis::Vertical,
                    self.view().node_of(f).reduced(f),
                    Tree::Leaf { value: f },
                ),
            ),
        decreases self,
    {
        match self {
            Node::Leaf { value } => self,
            Node::Stack { children, focused } => {
                let mut children = children;
                assert(children@.index_of(f) == focused) by {
                    assert(children@.contains(f));
                }
                children.remove(focused);
                let rest = if children.len() == 1 {
                    Node::Leaf { value: children[0] }
                } else {
                    let at: usize = if focused < children.len() {
                        focused
                    } else {
                        children.len() - 1
                    };
                    Node::Stack { children, focused: at }
                };
                assert(rest.view() == self.view().reduced(f));
                rest.beside(Axis::Vertical, f)
            },
            Node::Split { axis, ratio, left, right } => {
                proof {
                    tree::lemma_shows_holds(left.view());
                    tree::lemma_shows_holds(right.view());
                    tree::lemma_split(self.view());
                }
                if left.holds(f) {
                    let left = (*left).popped(f);
                    Node::Split { axis, ratio, left: Box::new(left), right }
                } else {
                    let right = (*right).popped(f);
                    Node::Split { axis, ratio, left, right: Box::new(right) }
                }
            },
        }
    }

    /// Whether a split along `axis` lies above the leaf or stack that holds `t`.
    fn has_split_above(&self, t: T, axis: Axis) -> (r: bool)
        ensures
            r == self.view().has_split_above(t, axis),
        decreases self,
    {
        match self {
            Node::Split { axis: own, ratio, left, right } => {
                if *own == axis {
                    true
                } else if left.holds(t) {
                    left.has_split_above(t, axis)
                } else {
                    right.has_split_above(t, axis)
                }
            },
            _ => false,
        }
    }

    /// With the closest split along `along` above `t` pushed by `delta` pixels.
    fn pushed(self, t: T, along: Axis, delta: i64, area: Rect) -> (r: Node<T>)
        requires
            self.view().wf(),
            self.view().splits(area),
            -0x8000_0000 <= delta <= 0x8000_0000,
        ensures
            r.view() == self.view().pushed(t, along, delta as int, area),
        decreases self,
    {
        match self {
            Node::Split { axis, ratio, left, right } => {
                let (a, b) = area.split(axis, ratio);
                let in_left = left.holds(t);
                let deeper = if in_left {
                    left.has_split_above(t, along)
                } else {
                    right.has_split_above(t, along)
                };
                if deeper {
                    if in_left {
                        let left = (*left).pushed(t, along, delta, a);
                        Node::Split { axis, ratio, left: Box::new(left), right }
                    } else {
                        let right = (*right).pushed(t, along, delta, b);
                        Node::Split { axis, ratio, left, right: Box::new(right) }
                    }
                } else {
                    let total: i32 = match along {
                        Axis::Vertical => area.w,
                        Axis::Horizontal => area.h,
                    };
                    if axis == along && total > 0 {
                        let ratio = ratio.pushed(delta, total);
                        Node::Split { axis, ratio, left, right }
                    } else {
                        Node::Split { axis, ratio, left, right }
                    }
                }
            },
            _ => self,
        }
    }
}

/// The layout tree of a workspace. `T` identifies a window.
pub struct BspTree<T> {
    root: Option<Node<T>>,
    focus: Option<T>,
    mode: LayoutMode,
}

impl<T> View for BspTree<T> {
    type V = Layout<T>;

    closed spec fn view(&self) -> Layout<T> {
        Layout {
            tree: match self.root {
                Some(n) => Some(n.view()),
                None => None,
            },
            focus: self.focus,
            mode: self.mode,
        }
    }
}

impl<T> Default for BspTree<T> {
    fn default() -> (r: Self)
        ensures
            r@ == (Layout::<T> { tree: None, focus: None, mode: LayoutMode::Dwindle }),
    {
        BspTree { root: None, focus: None, mode: LayoutMode::Dwindle }
    }
}

impl<T: Key> BspTree<T> {
    /// An empty tree in dwindle mode.
    pub fn new() -> (r: Self)
        ensures
            r@ == (Layout::<T> { tree: None, focus: None, mode: LayoutMode::Dwindle }),
            r@.wf(),
    {
        BspTree { root: None, focus: None, mode: LayoutMode::Dwindle }
    }

    /// The same tree once more.
    pub fn copied(&self) -> (r: Self)
        ensures
            r@ == self@,
    {
        BspTree {
            root: match &self.root {
                Some(n) => Some(n.copied()),
                None => None,
            },
            focus: self.focus,
            mode: self.mode,
        }
    }

    pub fn layout_mode(&self) -> (r: LayoutMode)
        ensures
            r == self@.mode,
    {
        self.mode
    }

    /// Replace the layout mode. It affects what comes next only: the tiles stay
    /// as they are.
    pub fn set_layout_mode(&mut self, mode: LayoutMode)
        ensures
            final(self)@ == (Layout { mode, ..old(self)@ }),
            old(self)@.wf() ==> final(self)@.wf(),
    {
        self.mode = mode;
    }

    pub fn is_empty(&self) -> (r: bool)
        ensures
            r == (self@.tree is None),
    {
        self.root.is_none()
    }

    /// The number of windows, hidden stack members included.
    pub fn len(&self) -> (r: usize)
        ensures
            r == self@.windows().len(),
    {
        self.windows().len()
    }

    /// The focused window: a leaf, or the visible member of a stack.
    pub fn focused(&self) -> (r: Option<T>)
        ensures
            r == self@.focus,
    {
        self.focus
    }

    /// Focus `t`, and make it visible where it is in a stack. Nothing happens
    /// where `t` is not in the tree.
    pub fn focus(&mut self, t: T)
        requires
            old(self)@.wf(),
        ensures
            final(self)@ == old(self)@.focused_on(t),
            final(self)@.wf(),
    {
        proof {
            tree::law_focus_shows_the_window(self@, t);
        }
        match self.root.take() {
            Some(n) => {
                if n.holds(t) {
                    self.root = Some(n.showing(t));
                    self.focus = Some(t);
                } else {
                    self.root = Some(n);
                }
            },
            None => {},
        }
    }

    /// Whether the tree contains `t`.
    pub fn contains(&self, t: &T) -> (r: bool)
        ensures
            r == self@.holds(*t),
    {
        match &self.root {
            Some(n) => n.holds(*t),
            None => false,
        }
    }

    /// Where `t` is in its stack, from 0, and the size of the stack; `None` for
    /// a window that is not in a stack.
    pub fn stack_position(&self, t: T) -> (r: Option<(usize, usize)>)
        requires
            self@.wf(),
        ensures
            match r {
                Some((at, size)) => self@.holds(t) && (self@.tree->0.node_of(
                    t,
                ) matches Tree::Stack { children, focused } && at == children.index_of(t) && size
                    == children.len()) && at < size,
                None => !(self@.holds(t) && self@.tree->0.node_of(t) is Stack),
            },
    {
        match &self.root {
            Some(n) => {
                if n.holds(t) {
                    match n.stack_with(t) {
                        Some((at, shown, size)) => Some((at, size)),
                        None => None,
                    }
                } else {
                    None
                }
            },
            None => None,
        }
    }

    /// The visible position of the focused stack, from 0, and its size; `None`
    /// where the focus is not on a stack.
    pub fn focused_stack_info(&self) -> (r: Option<(usize, usize)>)
        requires
            self@.wf(),
        ensures
            match r {
                Some((shown, size)) => self@.tree is Some && (
                self@.focused_node() matches Tree::Stack { children, focused } && shown == focused
                    && size == children.len()),
                None => !(self@.tree is Some && self@.focused_node() is Stack),
            },
    {
        match (&self.root, self.focus) {
            (Some(n), Some(f)) => {
                proof {
                    tree::lemma_shows_holds(n.view());
                }
                match n.stack_with(f) {
                    Some((at, shown, size)) => Some((shown, size)),
                    None => None,
                }
            },
            _ => None,
        }
    }

    /// Every window, hidden stack members included.
    pub fn windows(&self) -> (r: Vec<T>)
        ensures
            r@ == self@.windows(),
    {
        let mut out: Vec<T> = Vec::new();
        match &self.root {
            Some(n) => {
                n.collect_all(&mut out);
                assert(out@ =~= self@.windows());
            },
            None => {},
        }
        out
    }

    /// The stack members that are not visible and have to be hidden.
    pub fn hidden_in_stacks(&self) -> (r: Vec<T>)
        requires
            self@.wf(),
        ensures
            r@ == self@.hidden(),
    {
        let mut out: Vec<T> = Vec::new();
        match &self.root {
            Some(n) => {
                n.collect_hidden(&mut out);
                assert(out@ =~= self@.hidden());
            },
            None => {},
        }
        out
    }

    /// Insert `t`.
    ///
    /// In an empty tree it becomes the root. Where the focus is on a stack it
    /// joins the stack and becomes visible. Otherwise the focused leaf is split
    /// along the axis that the layout mode gives. A window that is there
    /// already is not inserted again.
    pub fn insert(&mut self, t: T, work_area: Rect)
        requires
            old(self)@.wf(),
            old(self)@.splits(work_area),
        ensures
            final(self)@ == old(self)@.inserted(t, work_area),
            final(self)@.wf(),
    {
        proof {
            tree::law_insert_adds_the_window(self@, t, work_area);
        }
        if self.contains(&t) {
            return;
        }
        let ghost before = self@;
        match (self.root.take(), self.focus) {
            (Some(n), Some(f)) => {
                proof {
                    tree::lemma_shows_holds(n.view());
                    tree::lemma_node_of(n.view(), f);
                }
                if n.stack_with(f).is_some() {
                    self.root = Some(n.stacked(f, t));
                } else {
                    let axis = match self.mode {
                        LayoutMode::Dwindle => {
                            let tile = n.leaf_rect(f, work_area);
                            if tile.w >= tile.h {
                                Axis::Vertical
                            } else {
                                Axis::Horizontal
                            }
                        },
                        LayoutMode::Spiral => match n.axis_above(f) {
                            Some(above) => above.flip(),
                            None => Axis::Vertical,
                        },
                    };
                    assert(axis == before.next_axis(work_area));
                    self.root = Some(n.grafted(f, axis, t));
                }
            },
            _ => {
                self.root = Some(Node::Leaf { value: t });
            },
        }
        self.focus = Some(t);
    }

    /// Remove `t` and return whether it was there.
    ///
    /// A stack loses the one member and stays while it has others. A leaf, or a
    /// stack with nothing left, gives its place to its sibling.
    pub fn remove(&mut self, t: T) -> (r: bool)
        requires
            old(self)@.wf(),
        ensures
            r == old(self)@.holds(t),
            final(self)@ == old(self)@.removed(t),
            final(self)@.wf(),
    {
        proof {
            tree::law_remove_drops_the_window(self@, t);
        }
        if !self.contains(&t) {
            return false;
        }
        match (self.root.take(), self.focus) {
            (Some(n), Some(f)) => {
                let inherits = n.together(t, f);
                let heir = n.heir(t);
                self.root = n.without(t);
                if inherits {
                    self.focus = heir;
                }
            },
            _ => {},
        }
        true
    }

    /// Swap two windows; the tiles stay as they are.
    pub fn swap(&mut self, a: T, b: T)
        requires
            old(self)@.wf(),
        ensures
            final(self)@ == old(self)@.swapped(a, b),
            final(self)@.wf(),
    {
        proof {
            tree::law_swap_is_its_own_inverse(self@, a, b);
        }
        if !self.contains(&a) || !self.contains(&b) {
            return;
        }
        match (self.root.take(), self.focus) {
            (Some(n), Some(f)) => {
                self.root = Some(n.swapped(a, b));
                self.focus = Some(exchanged(f, a, b));
            },
            _ => {},
        }
    }

    /// Toggle stack mode on the focused tile and return whether there was one.
    ///
    /// A stack of several members expands into a chain of side-by-side tiles
    /// and a stack of one becomes a leaf. A leaf merges with a sibling leaf
    /// into a stack, joins a sibling stack, and becomes a stack of one where it
    /// has neither. The focused window keeps the focus.
    pub fn toggle_stack_focused(&mut self) -> (r: bool)
        requires
            old(self)@.wf(),
        ensures
            r == (old(self)@.tree is Some),
            final(self)@ == old(self)@.toggled(),
            final(self)@.wf(),
    {
        proof {
            tree::law_toggle_keeps_windows(self@);
        }
        match (self.root.take(), self.focus) {
            (Some(n), Some(f)) => {
                proof {
                    tree::lemma_shows_holds(n.view());
                }
                self.root = Some(n.toggled(f));
                true
            },
            _ => false,
        }
    }

    /// Pull the neighbour in direction `dir` into the focused tile, which
    /// becomes a stack where it is none yet. The swallowed window becomes the
    /// visible and focused one. Returns whether there was a neighbour.
    pub fn stack_swallow_dir(&mut self, dir: Direction, work_area: Rect) -> (r: bool)
        requires
            old(self)@.wf(),
            old(self)@.splits(work_area),
        ensures
            final(self)@ == old(self)@.swallowed(dir, work_area),
            r == (old(self)@.focus matches Some(f) && old(self)@.neighbour(f, dir, work_area)
                is Some),
            final(self)@.wf(),
    {
        proof {
            tree::law_swallow_keeps_windows(self@, dir, work_area);
        }
        let f = match self.focus {
            Some(f) => f,
            None => {
                return false;
            },
        };
        let other = match self.neighbour(f, dir, work_area) {
            Some(other) => other,
            None => {
                return false;
            },
        };
        self.remove(other);
        match self.root.take() {
            Some(n) => {
                self.root = Some(n.stacked(f, other));
                self.focus = Some(other);
            },
            None => {},
        }
        true
    }

    /// The neighbour of `t` in direction `dir`.
    fn neighbour(&self, t: T, dir: Direction, work_area: Rect) -> (r: Option<T>)
        requires
            self@.wf(),
            self@.splits(work_area),
        ensures
            r == self@.neighbour(t, dir, work_area),
    {
        let positions = self.compute(work_area, 0);
        let ghost tiles = self@.laid_out(work_area, 0);
        let mut i: usize = 0;
        while i < positions.len()
            invariant
                i <= positions.len(),
                self@.wf(),
                positions@ == tiles,
                tiles == self@.laid_out(work_area, 0),
                forall|j: int| 0 <= j < i ==> (#[trigger] tiles[j]).0 != t,
            decreases positions.len() - i,
        {
            let (w, from) = positions[i];
            if w.same(&t) {
                proof {
                    tree::lemma_tiles_show(self@.tree->0, work_area);
                    let k = choose|k: int| 0 <= k < tiles.len() && (#[trigger] tiles[k]).0 == t;
                    assert(tiles[i as int].0 == t);
                    assert(self@.tiles(work_area)[k].0 == t);
                    assert(self@.tiles(work_area)[i as int].0 == t);
                }
                return nearest_in_direction(&positions, t, from, dir);
            }
            i = i + 1;
        }
        None
    }

    /// Give the focused member of a stack of several a tile of its own, right
    /// of the stack; a single member left over becomes a leaf. Returns whether
    /// the focus was on such a stack.
    pub fn stack_pop_focused(&mut self) -> (r: bool)
        requires
            old(self)@.wf(),
        ensures
            r == old(self)@.can_pop(),
            final(self)@ == old(self)@.popped(),
            final(self)@.wf(),
    {
        proof {
            tree::law_pop_keeps_windows(self@);
        }
        match self.focused_stack_info() {
            Some((shown, size)) => {
                if size <= 1 {
                    return false;
                }
            },
            None => {
                return false;
            },
        }
        match (self.root.take(), self.focus) {
            (Some(n), Some(f)) => {
                proof {
                    tree::lemma_shows_holds(n.view());
                }
                self.root = Some(n.popped(f));
            },
            _ => {},
        }
        true
    }

    /// Show the next member of the focused stack and return it; `None` where
    /// the focus is not on a stack.
    pub fn focus_stack_next(&mut self) -> (r: Option<T>)
        requires
            old(self)@.wf(),
        ensures
            final(self)@ == old(self)@.cycled(true),
            r == (if old(self)@.tree is Some && old(self)@.focused_node() is Stack {
                final(self)@.focus
            } else {
                None
            }),
            final(self)@.wf(),
    {
        self.cycle(true)
    }

    /// Show the previous member of the focused stack and return it; `None`
    /// where the focus is not on a stack.
    pub fn focus_stack_prev(&mut self) -> (r: Option<T>)
        requires
            old(self)@.wf(),
        ensures
            final(self)@ == old(self)@.cycled(false),
            r == (if old(self)@.tree is Some && old(self)@.focused_node() is Stack {
                final(self)@.focus
            } else {
                None
            }),
            final(self)@.wf(),
    {
        self.cycle(false)
    }

    fn cycle(&mut self, forward: bool) -> (r: Option<T>)
        requires
            old(self)@.wf(),
        ensures
            final(self)@ == old(self)@.cycled(forward),
            r == (if old(self)@.tree is Some && old(self)@.focused_node() is Stack {
                final(self)@.focus
            } else {
                None
            }),
            final(self)@.wf(),
    {
        let ghost before = self@;
        proof {
            tree::law_cycle_goes_round(self@, forward);
        }
        let (shown, size) = match self.focused_stack_info() {
            Some((shown, size)) => (shown, size),
            None => {
                return None;
            },
        };
        match (self.root.take(), self.focus) {
            (Some(n), Some(f)) => {
                proof {
                    tree::lemma_shows_holds(n.view());
                    tree::lemma_node_of(n.view(), f);
                }
                let next: usize = if forward {
                    (shown + 1) % size
                } else if shown == 0 {
                    size - 1
                } else {
                    shown - 1
                };
                let g = n.member(f, next);
                self.root = Some(n.turned(f, next));
                self.focus = Some(g);
                Some(g)
            },
            _ => None,
        }
    }

    /// Swap `t` with its neighbour in direction `dir`, and return whether it
    /// has one.
    pub fn move_in_direction(&mut self, t: T, dir: Direction, work_area: Rect) -> (r: bool)
        requires
            old(self)@.wf(),
            old(self)@.splits(work_area),
        ensures
            match old(self)@.neighbour(t, dir, work_area) {
                Some(other) => r && final(self)@ == old(self)@.swapped(t, other),
                None => !r && final(self)@ == old(self)@,
            },
            final(self)@.wf(),
    {
        match self.neighbour(t, dir, work_area) {
            Some(target) => {
                self.swap(t, target);
                true
            },
            None => false,
        }
    }

    /// Focus the neighbour of the focused window in direction `dir`, and return
    /// it.
    pub fn focus_in_direction(&mut self, dir: Direction, work_area: Rect) -> (r: Option<T>)
        requires
            old(self)@.wf(),
            old(self)@.splits(work_area),
        ensures
            r == (match old(self)@.focus {
                Some(f) => old(self)@.neighbour(f, dir, work_area),
                None => None,
            }),
            final(self)@ == (match r {
                Some(target) => old(self)@.focused_on(target),
                None => old(self)@,
            }),
            final(self)@.wf(),
    {
        let f = match self.focus {
            Some(f) => f,
            None => {
                return None;
            },
        };
        match self.neighbour(f, dir, work_area) {
            Some(target) => {
                self.focus(target);
                Some(target)
            },
            None => None,
        }
    }

    /// Push the closest split above `t` that a push in direction `dir` can
    /// move, by `delta_px` pixels. The ratio stays between 0.1 and 0.9.
    pub fn resize(&mut self, t: T, dir: Direction, delta_px: i32, work_area: Rect)
        requires
            old(self)@.wf(),
            old(self)@.splits(work_area),
        ensures
            final(self)@ == old(self)@.resized(t, dir, delta_px as int, work_area),
            final(self)@.wf(),
    {
        proof {
            tree::law_resize_keeps_windows(self@, t, dir, delta_px as int, work_area);
        }
        if !self.contains(&t) {
            return;
        }
        let along = Axis::from_direction(dir);
        let delta: i64 = match dir {
            Direction::Right | Direction::Down => delta_px as i64,
            Direction::Left | Direction::Up => -(delta_px as i64),
        };
        match self.root.take() {
            Some(n) => {
                self.root = Some(n.pushed(t, along, delta, work_area));
            },
            None => {},
        }
    }

    /// The tile of each visible window when the tree fills `work_area`, with
    /// `gap` pixels taken off each side.
    pub fn compute(&self, work_area: Rect, gap: i32) -> (r: Vec<(T, Rect)>)
        requires
            self@.wf(),
            self@.splits(work_area),
            forall|i: int|
                0 <= i < self@.tiles(work_area).len() ==> (#[trigger] self@.tiles(
                    work_area,
                )[i]).1.can_inset(gap as int),
        ensures
            r@ == self@.laid_out(work_area, gap as int),
    {
        let mut out: Vec<(T, Rect)> = Vec::new();
        match &self.root {
            Some(n) => {
                assert(n.view().tiles(work_area) == self@.tiles(work_area));
                n.layout_node(work_area, gap, &mut out);
                assert(out@ =~= self@.laid_out(work_area, gap as int));
            },
            None => {
                assert(out@ =~= self@.laid_out(work_area, gap as int));
            },
        }
        out
    }
}

/// `b` for `a`, `a` for `b`, and anything else for itself.
fn exchanged<T: Key>(t: T, a: T, b: T) -> (r: T)
    ensures
        r == tree::exchange(t, a, b),
{
    if t.same(&a) {
        b
    } else if t.same(&b) {
        a
    } else {
        t
    }
}

} // verus!
