//! Geometric primitives shared by the layout engine and everything that puts
//! windows on the screen.
//!
//! A [`Rect`] is in virtual screen pixels: the origin is at the top left and y
//! grows downwards.

use crate::ratio;
use crate::ratio::Ratio;
use vstd::prelude::*;

verus! {

/// Whether a coordinate can be stored.
pub open spec fn fits(i: int) -> bool {
    i32::MIN <= i <= i32::MAX
}

/// Whether a coordinate can be stored.
pub fn does_fit(i: i128) -> (r: bool)
    ensures
        r == fits(i as int),
{
    i32::MIN as i128 <= i && i <= i32::MAX as i128
}

/// Half of `i`, rounded towards zero.
pub open spec fn half(i: int) -> int {
    if i >= 0 {
        i / 2
    } else {
        -((-i) / 2)
    }
}

/// The larger of two numbers.
pub open spec fn larger(a: int, b: int) -> int {
    if a >= b {
        a
    } else {
        b
    }
}

/// The smaller of two numbers.
pub open spec fn smaller(a: int, b: int) -> int {
    if a <= b {
        a
    } else {
        b
    }
}

/// The number nearest to `i` between `lo` and `hi`.
pub open spec fn between(i: int, lo: int, hi: int) -> int {
    if i < lo {
        lo
    } else if i > hi {
        hi
    } else {
        i
    }
}

/// The larger of two coordinates.
pub fn max_of(a: i32, b: i32) -> (r: i32)
    ensures
        r == larger(a as int, b as int),
{
    if a >= b {
        a
    } else {
        b
    }
}

/// What is left of a length: nothing where too much was taken off.
fn left_of(n: i64) -> (r: i32)
    requires
        n <= i32::MAX,
    ensures
        r == larger(n as int, 0),
{
    if n >= 0 {
        n as i32
    } else {
        0
    }
}

/// The smaller of two coordinates.
pub fn min_of(a: i32, b: i32) -> (r: i32)
    ensures
        r == smaller(a as int, b as int),
{
    if a <= b {
        a
    } else {
        b
    }
}

/// The coordinate nearest to `i` between `lo` and `hi`.
pub fn clamp_to(i: i32, lo: i32, hi: i32) -> (r: i32)
    requires
        lo <= hi,
    ensures
        r == between(i as int, lo as int, hi as int),
{
    if i < lo {
        lo
    } else if i > hi {
        hi
    } else {
        i
    }
}

/// An axis-aligned rectangle. `w` and `h` are never negative in a layout
/// result.
#[derive(Debug, Clone, Copy, PartialEq, Eq, Hash, Structural)]
pub struct Rect {
    pub x: i32,
    pub y: i32,
    pub w: i32,
    pub h: i32,
}

impl Default for Rect {
    fn default() -> (r: Self)
        ensures
            r == (Rect { x: 0, y: 0, w: 0, h: 0 }),
    {
        Rect { x: 0, y: 0, w: 0, h: 0 }
    }
}

impl Rect {
    /// A rectangle that lies on the screen's coordinates and has no negative
    /// side: what every layout starts from and yields.
    pub open spec fn valid(self) -> bool {
        &&& self.w >= 0
        &&& self.h >= 0
        &&& fits(self.x + self.w)
        &&& fits(self.y + self.h)
    }

    /// Whether the point is inside; the right and bottom edges are not.
    pub open spec fn has_point(self, x: int, y: int) -> bool {
        self.x <= x < self.x + self.w && self.y <= y < self.y + self.h
    }

    /// Whether this rectangle lies within `outer`.
    pub open spec fn within(self, outer: Rect) -> bool {
        &&& outer.x <= self.x
        &&& outer.y <= self.y
        &&& self.x + self.w <= outer.x + outer.w
        &&& self.y + self.h <= outer.y + outer.h
    }

    /// The area as a number.
    pub open spec fn surface(self) -> int {
        self.w * self.h
    }

    /// Whether insetting by `n` stays within the coordinates.
    pub open spec fn can_inset(self, n: int) -> bool {
        &&& fits(self.x + n)
        &&& fits(self.y + n)
        &&& self.w - 2 * n <= i32::MAX
        &&& self.h - 2 * n <= i32::MAX
    }

    /// This rectangle inset by `n` on all sides.
    pub open spec fn inset_spec(self, n: int) -> Rect {
        Rect {
            x: (self.x + n) as i32,
            y: (self.y + n) as i32,
            w: larger(self.w - 2 * n, 0) as i32,
            h: larger(self.h - 2 * n, 0) as i32,
        }
    }

    /// The length that a split along `axis` divides.
    pub open spec fn length(self, axis: Axis) -> int {
        match axis {
            Axis::Vertical => self.w as int,
            Axis::Horizontal => self.h as int,
        }
    }

    /// Whether this rectangle can be split along `axis` at `ratio`.
    pub open spec fn splittable(self, axis: Axis, ratio: Ratio) -> bool {
        &&& self.length(axis) >= 0
        &&& match axis {
            Axis::Vertical => fits(self.x + ratio::offset_spec(ratio.units as nat, self.w as nat)),
            Axis::Horizontal => fits(self.y + ratio::offset_spec(ratio.units as nat, self.h as nat)),
        }
    }

    /// The two parts of this rectangle when it is split along `axis`.
    pub open spec fn split_spec(self, axis: Axis, ratio: Ratio) -> (Rect, Rect) {
        match axis {
            Axis::Vertical => {
                let d = ratio::offset_spec(ratio.units as nat, self.w as nat);
                (
                    Rect { x: self.x, y: self.y, w: d as i32, h: self.h },
                    Rect { x: (self.x + d) as i32, y: self.y, w: (self.w - d) as i32, h: self.h },
                )
            },
            Axis::Horizontal => {
                let d = ratio::offset_spec(ratio.units as nat, self.h as nat);
                (
                    Rect { x: self.x, y: self.y, w: self.w, h: d as i32 },
                    Rect { x: self.x, y: (self.y + d) as i32, w: self.w, h: (self.h - d) as i32 },
                )
            },
        }
    }

    /// This rectangle moved, and shrunk where it must be, to lie inside
    /// `container`.
    pub open spec fn clamp_inside_spec(self, container: Rect) -> Rect {
        if container.w <= 0 || container.h <= 0 {
            self
        } else {
            let w = larger(smaller(self.w as int, container.w as int), 0);
            let h = larger(smaller(self.h as int, container.h as int), 0);
            Rect {
                x: between(self.x as int, container.x as int, container.x + container.w - w) as i32,
                y: between(self.y as int, container.y as int, container.y + container.h - h) as i32,
                w: w as i32,
                h: h as i32,
            }
        }
    }

    /// A rectangle from its position and size.
    pub fn new(x: i32, y: i32, w: i32, h: i32) -> (r: Self)
        ensures
            r == (Rect { x, y, w, h }),
    {
        Rect { x, y, w, h }
    }

    /// A rectangle from its edges.
    pub fn from_ltrb(left: i32, top: i32, right: i32, bottom: i32) -> (r: Self)
        requires
            fits(right - left),
            fits(bottom - top),
        ensures
            r.x == left,
            r.y == top,
            r.w == right - left,
            r.h == bottom - top,
    {
        Rect { x: left, y: top, w: right - left, h: bottom - top }
    }

    pub fn left(&self) -> (r: i32)
        ensures
            r == self.x,
    {
        self.x
    }

    pub fn top(&self) -> (r: i32)
        ensures
            r == self.y,
    {
        self.y
    }

    pub fn right(&self) -> (r: i32)
        requires
            fits(self.x + self.w),
        ensures
            r == self.x + self.w,
    {
        self.x + self.w
    }

    pub fn bottom(&self) -> (r: i32)
        requires
            fits(self.y + self.h),
        ensures
            r == self.y + self.h,
    {
        self.y + self.h
    }

    pub fn center_x(&self) -> (r: i32)
        requires
            fits(self.x + half(self.w as int)),
        ensures
            r == self.x + half(self.w as int),
    {
        self.x + self.w / 2
    }

    pub fn center_y(&self) -> (r: i32)
        requires
            fits(self.y + half(self.h as int)),
        ensures
            r == self.y + half(self.h as int),
    {
        self.y + self.h / 2
    }

    pub fn area(&self) -> (r: i64)
        ensures
            r == self.surface(),
    {
        proof {
            assert(-0x4000_0000_0000_0000 <= self.w * self.h <= 0x4000_0000_0000_0000)
                by (nonlinear_arith)
                requires
                    -0x8000_0000 <= self.w <= 0x7fff_ffff,
                    -0x8000_0000 <= self.h <= 0x7fff_ffff,
            ;
        }
        self.w as i64 * self.h as i64
    }

    /// Whether the sides are not negative and all edges are within the
    /// coordinates.
    pub fn is_valid(&self) -> (r: bool)
        ensures
            r == self.valid(),
    {
        self.w >= 0 && self.h >= 0 && self.x as i64 + self.w as i64 <= i32::MAX as i64
            && self.y as i64 + self.h as i64 <= i32::MAX as i64
    }

    /// Inset by `n` pixels on all sides; a side never becomes negative.
    pub fn inset(self, n: i32) -> (r: Self)
        requires
            self.can_inset(n as int),
        ensures
            r == self.inset_spec(n as int),
            r.x == self.x + n,
            r.y == self.y + n,
            r.w == larger(self.w - 2 * n, 0),
            r.h == larger(self.h - 2 * n, 0),
    {
        Rect {
            x: self.x + n,
            y: self.y + n,
            w: left_of(self.w as i64 - 2 * n as i64),
            h: left_of(self.h as i64 - 2 * n as i64),
        }
    }

    /// Inset by a separate amount on each side.
    pub fn inset_each(self, l: i32, t: i32, r: i32, b: i32) -> (res: Self)
        requires
            fits(self.x + l),
            fits(self.y + t),
            self.w - l - r <= i32::MAX,
            self.h - t - b <= i32::MAX,
        ensures
            res.x == self.x + l,
            res.y == self.y + t,
            res.w == larger(self.w - l - r, 0),
            res.h == larger(self.h - t - b, 0),
    {
        Rect {
            x: self.x + l,
            y: self.y + t,
            w: left_of(self.w as i64 - l as i64 - r as i64),
            h: left_of(self.h as i64 - t as i64 - b as i64),
        }
    }

    /// Split along `axis`: side by side or one above the other.
    pub fn split(&self, axis: Axis, ratio: Ratio) -> (r: (Self, Self))
        requires
            self.splittable(axis, ratio),
        ensures
            r == self.split_spec(axis, ratio),
    {
        match axis {
            Axis::Vertical => self.split_vertical(ratio),
            Axis::Horizontal => self.split_horizontal(ratio),
        }
    }

    /// Split into a left and a right part at `ratio` of the width.
    pub fn split_vertical(&self, ratio: Ratio) -> (r: (Self, Self))
        requires
            self.splittable(Axis::Vertical, ratio),
        ensures
            r == self.split_spec(Axis::Vertical, ratio),
            r.0.x == self.x,
            r.0.w == ratio::offset_spec(ratio.units as nat, self.w as nat),
            r.1.x == self.x + r.0.w,
            r.0.w + r.1.w == self.w,
            0 <= r.0.w <= self.w,
            r.0.y == self.y && r.1.y == self.y,
            r.0.h == self.h && r.1.h == self.h,
    {
        let left_w: i32 = ratio.offset(self.w);
        (
            Rect { x: self.x, y: self.y, w: left_w, h: self.h },
            Rect { x: self.x + left_w, y: self.y, w: self.w - left_w, h: self.h },
        )
    }

    /// Split into a top and a bottom part at `ratio` of the height.
    pub fn split_horizontal(&self, ratio: Ratio) -> (r: (Self, Self))
        requires
            self.splittable(Axis::Horizontal, ratio),
        ensures
            r == self.split_spec(Axis::Horizontal, ratio),
            r.0.y == self.y,
            r.0.h == ratio::offset_spec(ratio.units as nat, self.h as nat),
            r.1.y == self.y + r.0.h,
            r.0.h + r.1.h == self.h,
            0 <= r.0.h <= self.h,
            r.0.x == self.x && r.1.x == self.x,
            r.0.w == self.w && r.1.w == self.w,
    {
        let top_h: i32 = ratio.offset(self.h);
        (
            Rect { x: self.x, y: self.y, w: self.w, h: top_h },
            Rect { x: self.x, y: self.y + top_h, w: self.w, h: self.h - top_h },
        )
    }

    /// Whether a point lies inside; the right and bottom edges are excluded.
    pub fn contains(&self, x: i32, y: i32) -> (r: bool)
        requires
            x >= self.x ==> fits(self.x + self.w),
            self.x <= x < self.x + self.w && y >= self.y ==> fits(self.y + self.h),
        ensures
            r == self.has_point(x as int, y as int),
    {
        x >= self.x && x < self.right() && y >= self.y && y < self.bottom()
    }

    /// Clamp this rectangle so that it lies entirely inside `container`.
    ///
    /// Width and height are shrunk where the rectangle is larger than the
    /// container; then the position is moved so that all edges sit inside. A
    /// container without an area leaves the rectangle alone.
    pub fn clamp_inside(self, container: Rect) -> (r: Rect)
        requires
            container.w > 0 && container.h > 0 ==> container.valid(),
        ensures
            r == self.clamp_inside_spec(container),
            container.w > 0 && container.h > 0 ==> r.within(container) && r.valid(),
    {
        if container.w <= 0 || container.h <= 0 {
            return self;
        }
        let w: i32 = max_of(min_of(self.w, container.w), 0);
        let h: i32 = max_of(min_of(self.h, container.h), 0);
        let x: i32 = clamp_to(self.x, container.x, container.x + container.w - w);
        let y: i32 = clamp_to(self.y, container.y, container.y + container.h - h);
        Rect { x, y, w, h }
    }
}

/// A rectangle that already lies inside the container is not touched by
/// clamping, and clamping twice is clamping once.
pub proof fn law_clamp_inside_settles(r: Rect, container: Rect)
    requires
        container.valid(),
    ensures
        r.valid() && r.within(container) ==> r.clamp_inside_spec(container) == r,
        r.clamp_inside_spec(container).clamp_inside_spec(container) == r.clamp_inside_spec(
            container,
        ),
        container.w > 0 && container.h > 0 ==> r.clamp_inside_spec(container).within(container),
{
}

/// The two parts of a split neither overlap nor leave a pixel out.
pub proof fn law_split_is_exact(area: Rect, axis: Axis, ratio: Ratio)
    requires
        area.valid(),
    ensures
        ({
            let (a, b) = area.split_spec(axis, ratio);
            &&& area.splittable(axis, ratio)
            &&& a.valid() && b.valid()
            &&& a.within(area) && b.within(area)
            &&& a.surface() + b.surface() == area.surface()
            &&& forall|x: int, y: int|
                #![trigger area.has_point(x, y)]
                area.has_point(x, y) <==> (a.has_point(x, y) || b.has_point(x, y))
            &&& forall|x: int, y: int|
                #![trigger a.has_point(x, y)]
                !(a.has_point(x, y) && b.has_point(x, y))
        }),
{
    let (a, b) = area.split_spec(axis, ratio);
    assert(a.w * a.h + b.w * b.h == area.w * area.h) by (nonlinear_arith)
        requires
            (a.w + b.w == area.w && a.h == area.h && b.h == area.h) || (a.h + b.h == area.h && a.w
                == area.w && b.w == area.w),
    ;
}

/// A direction to focus, move, resize or swallow in.
#[derive(Debug, Clone, Copy, PartialEq, Eq, Hash, Structural)]
pub enum Direction {
    Left,
    Right,
    Up,
    Down,
}

impl Direction {
    pub open spec fn opposite_spec(self) -> Self {
        match self {
            Direction::Left => Direction::Right,
            Direction::Right => Direction::Left,
            Direction::Up => Direction::Down,
            Direction::Down => Direction::Up,
        }
    }

    pub open spec fn horizontal(self) -> bool {
        self is Left || self is Right
    }

    pub fn opposite(self) -> (r: Self)
        ensures
            r == self.opposite_spec(),
    {
        match self {
            Direction::Left => Direction::Right,
            Direction::Right => Direction::Left,
            Direction::Up => Direction::Down,
            Direction::Down => Direction::Up,
        }
    }

    pub fn is_horizontal(self) -> (r: bool)
        ensures
            r == self.horizontal(),
    {
        match self {
            Direction::Left | Direction::Right => true,
            Direction::Up | Direction::Down => false,
        }
    }
}

/// The axis of a split.
#[derive(Debug, Clone, Copy, PartialEq, Eq, Hash, Structural)]
pub enum Axis {
    /// The children are one above the other.
    Horizontal,
    /// The children are side by side.
    Vertical,
}

impl Axis {
    /// The axis of the splits that a push in direction `d` moves.
    pub open spec fn across(d: Direction) -> Self {
        if d.horizontal() {
            Axis::Vertical
        } else {
            Axis::Horizontal
        }
    }

    pub open spec fn flip_spec(self) -> Self {
        match self {
            Axis::Horizontal => Axis::Vertical,
            Axis::Vertical => Axis::Horizontal,
        }
    }

    pub fn from_direction(d: Direction) -> (r: Self)
        ensures
            r == Axis::across(d),
    {
        if d.is_horizontal() {
            Axis::Vertical
        } else {
            Axis::Horizontal
        }
    }

    pub fn flip(self) -> (r: Self)
        ensures
            r == self.flip_spec(),
    {
        match self {
            Axis::Horizontal => Axis::Vertical,
            Axis::Vertical => Axis::Horizontal,
        }
    }
}

/// Turning around twice, or flipping twice, changes nothing; turning around
/// stays on the same axis and is never where one started.
pub proof fn law_opposites(d: Direction, a: Axis)
    ensures
        d.opposite_spec().opposite_spec() == d,
        d.opposite_spec() != d,
        Axis::across(d.opposite_spec()) == Axis::across(d),
        a.flip_spec().flip_spec() == a,
        a.flip_spec() != a,
{
}

/// A split side by side has its first part on the left and the second right of it, as
/// high as the whole; the other split has its first part on top and the second below
/// it, as wide as the whole.
pub proof fn law_split_parts_lie_in_order(area: Rect, ratio: Ratio)
    requires
        area.valid(),
    ensures
        ({
            let (a, b) = area.split_spec(Axis::Vertical, ratio);
            &&& a.x == area.x && b.x == a.x + a.w && b.x + b.w == area.x + area.w
            &&& a.y == area.y && b.y == area.y && a.h == area.h && b.h == area.h
        }),
        ({
            let (a, b) = area.split_spec(Axis::Horizontal, ratio);
            &&& a.y == area.y && b.y == a.y + a.h && b.y + b.h == area.y + area.h
            &&& a.x == area.x && b.x == area.x && a.w == area.w && b.w == area.w
        }),
        area.length(Axis::Vertical) == area.w && area.length(Axis::Horizontal) == area.h,
{
}

/// A push to the left or the right moves splits side by side, and one up or down the
/// others.
pub proof fn law_directions_have_axes()
    ensures
        Axis::across(Direction::Left) == Axis::Vertical,
        Axis::across(Direction::Right) == Axis::Vertical,
        Axis::across(Direction::Up) == Axis::Horizontal,
        Axis::across(Direction::Down) == Axis::Horizontal,
        Direction::Left.horizontal() && Direction::Right.horizontal(),
        !Direction::Up.horizontal() && !Direction::Down.horizontal(),
{
}

/// An inset takes the same off every side, as far as there is something.
pub proof fn law_inset_takes_off_every_side(r: Rect, n: int)
    requires
        r.valid(),
        r.can_inset(n),
    ensures
        ({
            let s = r.inset_spec(n);
            &&& s.x == r.x + n && s.y == r.y + n
            &&& r.w >= 2 * n ==> s.x + s.w == r.x + r.w - n
            &&& r.h >= 2 * n ==> s.y + s.h == r.y + r.h - n
            &&& r.w <= 2 * n ==> s.w == 0
            &&& r.h <= 2 * n ==> s.h == 0
        }),
{
}

/// A rectangle that is moved into a container keeps its size as far as it fits, and
/// stays where it is as far as it can: an edge that has to move ends at the edge of the
/// container.
pub proof fn law_clamp_moves_no_more_than_it_must(r: Rect, container: Rect)
    requires
        container.valid(),
        container.w > 0 && container.h > 0,
        r.w >= 0 && r.h >= 0,
    ensures
        ({
            let s = r.clamp_inside_spec(container);
            let right = container.x + container.w;
            let bottom = container.y + container.h;
            &&& r.w <= container.w ==> s.w == r.w
            &&& r.w > container.w ==> s.w == container.w && s.x == container.x
            &&& r.h <= container.h ==> s.h == r.h
            &&& r.h > container.h ==> s.h == container.h && s.y == container.y
            &&& r.w <= container.w && r.x < container.x ==> s.x == container.x
            &&& r.w <= container.w && r.x + r.w > right ==> s.x + s.w == right
            &&& container.x <= r.x && r.x + r.w <= right ==> s.x == r.x
            &&& r.h <= container.h && r.y < container.y ==> s.y == container.y
            &&& r.h <= container.h && r.y + r.h > bottom ==> s.y + s.h == bottom
            &&& container.y <= r.y && r.y + r.h <= bottom ==> s.y == r.y
        }),
{
}

// ---- edges ----------------------------------------------------------------

/// A rectangle by its edges.
#[derive(Debug, Clone, Copy, PartialEq, Eq, Structural)]
pub struct Edges {
    pub left: i32,
    pub top: i32,
    pub right: i32,
    pub bottom: i32,
}

/// What stands for a rectangle by its corner and its sides.
pub trait ToRect: Sized {
    /// Whether the sides can be counted.
    spec fn measurable(self) -> bool;

    /// The edges that the rectangle has.
    spec fn edges(self) -> Edges;

    fn to_rect(self) -> (r: Rect)
        requires
            self.measurable(),
        ensures
            r.x == self.edges().left,
            r.y == self.edges().top,
            r.x + r.w == self.edges().right,
            r.y + r.h == self.edges().bottom,
    ;
}

impl ToRect for Edges {
    open spec fn measurable(self) -> bool {
        fits(self.right - self.left) && fits(self.bottom - self.top)
    }

    open spec fn edges(self) -> Edges {
        self
    }

    fn to_rect(self) -> (r: Rect) {
        Rect::from_ltrb(self.left, self.top, self.right, self.bottom)
    }
}

/// What stands for a rectangle by its edges.
pub trait ToWinRect: Sized {
    /// Whether the edges can be counted.
    spec fn bounded(self) -> bool;

    /// The corner and the sides that the rectangle has.
    spec fn sides(self) -> Rect;

    fn to_win_rect(self) -> (r: Edges)
        requires
            self.bounded(),
        ensures
            r.left == self.sides().x,
            r.top == self.sides().y,
            r.right == self.sides().x + self.sides().w,
            r.bottom == self.sides().y + self.sides().h,
    ;
}

impl ToWinRect for Rect {
    open spec fn bounded(self) -> bool {
        fits(self.x + self.w) && fits(self.y + self.h)
    }

    open spec fn sides(self) -> Rect {
        self
    }

    fn to_win_rect(self) -> (r: Edges) {
        Edges { left: self.x, top: self.y, right: self.x + self.w, bottom: self.y + self.h }
    }
}

} // verus!
