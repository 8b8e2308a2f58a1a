//! The neighbour of a tile in a direction.

use crate::ids::Key;
use crate::rect;
use crate::rect::{Direction, Rect};
use vstd::math;
use vstd::prelude::*;

verus! {

/// The horizontal centre of a tile.
pub open spec fn mid_x(r: Rect) -> int {
    r.x + rect::half(r.w as int)
}

/// The vertical centre of a tile.
pub open spec fn mid_y(r: Rect) -> int {
    r.y + rect::half(r.h as int)
}

/// Whether the centre of `to` lies in direction `dir` of the centre of `from`.
pub open spec fn lies_toward(from: Rect, to: Rect, dir: Direction) -> bool {
    match dir {
        Direction::Left => mid_x(to) < mid_x(from),
        Direction::Right => mid_x(to) > mid_x(from),
        Direction::Up => mid_y(to) < mid_y(from),
        Direction::Down => mid_y(to) > mid_y(from),
    }
}

/// The squared distance of the two centres, with the part across `dir` counted
/// three times so that tiles near the centre line are preferred.
pub open spec fn remoteness(from: Rect, to: Rect, dir: Direction) -> int {
    let dx = mid_x(to) - mid_x(from);
    let dy = mid_y(to) - mid_y(from);
    if dir.horizontal() {
        dx * dx + 3 * (dy * dy)
    } else {
        3 * (dx * dx) + dy * dy
    }
}

/// Whether the tile at `i` is another window's and lies in direction `dir`.
pub open spec fn is_candidate<T>(
    tiles: Seq<(T, Rect)>,
    src: T,
    from: Rect,
    dir: Direction,
    i: int,
) -> bool {
    &&& 0 <= i < tiles.len()
    &&& tiles[i].0 != src
    &&& lies_toward(from, tiles[i].1, dir)
}

/// Whether the tile at `i` is the least remote candidate, and the first of
/// those that are equally remote.
pub open spec fn is_nearest<T>(
    tiles: Seq<(T, Rect)>,
    src: T,
    from: Rect,
    dir: Direction,
    i: int,
) -> bool {
    &&& is_candidate(tiles, src, from, dir, i)
    &&& forall|j: int| #[trigger]
        is_candidate(tiles, src, from, dir, j) ==> {
            &&& remoteness(from, tiles[i].1, dir) <= remoteness(from, tiles[j].1, dir)
            &&& j < i ==> remoteness(from, tiles[i].1, dir) < remoteness(from, tiles[j].1, dir)
        }
}

/// The window of the nearest tile in direction `dir`.
pub open spec fn nearest_spec<T>(
    tiles: Seq<(T, Rect)>,
    src: T,
    from: Rect,
    dir: Direction,
) -> Option<T> {
    if exists|i: int| is_nearest(tiles, src, from, dir, i) {
        Some(tiles[choose|i: int| is_nearest(tiles, src, from, dir, i)].0)
    } else {
        None
    }
}

/// There is one nearest tile at most.
pub proof fn lemma_nearest_unique<T>(
    tiles: Seq<(T, Rect)>,
    src: T,
    from: Rect,
    dir: Direction,
    i: int,
)
    requires
        is_nearest(tiles, src, from, dir, i),
    ensures
        nearest_spec(tiles, src, from, dir) == Some(tiles[i].0),
{
    let j = choose|j: int| is_nearest(tiles, src, from, dir, j);
    assert(is_candidate(tiles, src, from, dir, j));
    assert(is_candidate(tiles, src, from, dir, i));
}

/// A number is no farther from 0 than another where its square is no larger.
proof fn lemma_squares(a: int, b: int)
    ensures
        a * a >= 0,
        a * a <= b * b <==> math::abs(a) <= math::abs(b),
{
    assert(a * a >= 0) by (nonlinear_arith);
    if math::abs(a) <= math::abs(b) {
        assert(a * a <= b * b) by (nonlinear_arith)
            requires
                -b <= a <= b || b <= a <= -b,
        ;
    } else {
        assert(a * a > b * b) by (nonlinear_arith)
            requires
                -a < b < a || a < b < -a,
        ;
    }
}

/// Of the tiles whose centres lie in a direction, the neighbour is one that is
/// close to the centre line. Of two at the same distance it is the one nearer to
/// the line; no tile beats one on the line that is as close; and a tile off the
/// line is worth as much as one on the line at the distance `2 * d` where it is
/// `d` ahead and `d` aside. Of two that are worth the same, the first is chosen.
pub proof fn law_neighbour_keeps_to_the_line<T>(
    tiles: Seq<(T, Rect)>,
    src: T,
    from: Rect,
    dir: Direction,
    i: int,
    j: int,
)
    requires
        0 <= i < tiles.len(),
        0 <= j < tiles.len(),
        from.w >= 0 && from.h >= 0,
        tiles[i].1.w >= 0 && tiles[i].1.h >= 0,
        tiles[j].1.w >= 0 && tiles[j].1.h >= 0,
        forall|a: int, b: int|
            0 <= a < b < tiles.len() ==> (#[trigger] tiles[a]).0 != (#[trigger] tiles[b]).0,
        nearest_spec(tiles, src, from, dir) == Some(tiles[i].0),
        tiles[j].0 != src,
        ({
            let x = (tiles[j].1.x + tiles[j].1.w / 2) - (from.x + from.w / 2);
            let y = (tiles[j].1.y + tiles[j].1.h / 2) - (from.y + from.h / 2);
            match dir {
                Direction::Left => x < 0,
                Direction::Right => x > 0,
                Direction::Up => y < 0,
                Direction::Down => y > 0,
            }
        }),
    ensures
        ({
            let xi = (tiles[i].1.x + tiles[i].1.w / 2) - (from.x + from.w / 2);
            let yi = (tiles[i].1.y + tiles[i].1.h / 2) - (from.y + from.h / 2);
            let xj = (tiles[j].1.x + tiles[j].1.w / 2) - (from.x + from.w / 2);
            let yj = (tiles[j].1.y + tiles[j].1.h / 2) - (from.y + from.h / 2);
            let level = dir is Left || dir is Right;
            let (ahead_i, aside_i) = if level {
                (math::abs(xi), math::abs(yi))
            } else {
                (math::abs(yi), math::abs(xi))
            };
            let (ahead_j, aside_j) = if level {
                (math::abs(xj), math::abs(yj))
            } else {
                (math::abs(yj), math::abs(xj))
            };
            let far_i = xi * xi + yi * yi;
            let far_j = xj * xj + yj * yj;
            &&& tiles[i].0 != src
            &&& match dir {
                Direction::Left => xi < 0,
                Direction::Right => xi > 0,
                Direction::Up => yi < 0,
                Direction::Down => yi > 0,
            }
            &&& far_i == far_j ==> aside_i <= aside_j
            &&& aside_j == 0 ==> far_i <= far_j
            &&& ahead_j <= ahead_i && aside_j <= aside_i ==> ahead_j == ahead_i && aside_j
                == aside_i && i <= j
            &&& aside_j == 0 && ahead_i == aside_i ==> 2 * ahead_i <= ahead_j
            &&& aside_i == 0 && ahead_j == aside_j ==> ahead_i <= 2 * ahead_j
        }),
{
    let k = choose|k: int| is_nearest(tiles, src, from, dir, k);
    assert(is_nearest(tiles, src, from, dir, k));
    assert(is_candidate(tiles, src, from, dir, k));
    assert(k == i) by {
        if k < i {
            assert(tiles[k].0 != tiles[i].0);
        } else if i < k {
            assert(tiles[i].0 != tiles[k].0);
        }
    }
    assert(is_candidate(tiles, src, from, dir, j));
    let xi = mid_x(tiles[i].1) - mid_x(from);
    let yi = mid_y(tiles[i].1) - mid_y(from);
    let xj = mid_x(tiles[j].1) - mid_x(from);
    let yj = mid_y(tiles[j].1) - mid_y(from);
    lemma_squares(xi, xj);
    lemma_squares(xj, xi);
    lemma_squares(yi, yj);
    lemma_squares(yj, yi);
    lemma_squares(xi, yi);
    lemma_squares(yi, xi);
    lemma_squares(xj, yj);
    lemma_squares(yj, xj);
    lemma_squares(2 * xi, xj);
    lemma_squares(2 * yi, yj);
    lemma_squares(xi, 2 * xj);
    lemma_squares(yi, 2 * yj);
    assert((2 * xi) * (2 * xi) == 4 * (xi * xi)) by (nonlinear_arith);
    assert((2 * yi) * (2 * yi) == 4 * (yi * yi)) by (nonlinear_arith);
    assert((2 * xj) * (2 * xj) == 4 * (xj * xj)) by (nonlinear_arith);
    assert((2 * yj) * (2 * yj) == 4 * (yj * yj)) by (nonlinear_arith);
}

/// A neighbour is found exactly where another window's centre lies that way.
pub proof fn law_neighbour_is_found<T>(tiles: Seq<(T, Rect)>, src: T, from: Rect, dir: Direction)
    requires
        from.w >= 0 && from.h >= 0,
        forall|k: int| 0 <= k < tiles.len() ==> (#[trigger] tiles[k]).1.w >= 0 && tiles[k].1.h >= 0,
    ensures
        nearest_spec(tiles, src, from, dir) is Some <==> exists|k: int|
            0 <= k < tiles.len() && (#[trigger] tiles[k]).0 != src && {
                let x = (tiles[k].1.x + tiles[k].1.w / 2) - (from.x + from.w / 2);
                let y = (tiles[k].1.y + tiles[k].1.h / 2) - (from.y + from.h / 2);
                match dir {
                    Direction::Left => x < 0,
                    Direction::Right => x > 0,
                    Direction::Up => y < 0,
                    Direction::Down => y > 0,
                }
            },
{
    if nearest_spec(tiles, src, from, dir) is Some {
        let k = choose|k: int| is_nearest(tiles, src, from, dir, k);
        assert(is_candidate(tiles, src, from, dir, k));
        assert(tiles[k].0 != src);
    }
    if exists|k: int| is_candidate(tiles, src, from, dir, k) {
        let k = choose|k: int| is_candidate(tiles, src, from, dir, k);
        let i = lemma_some_nearest(tiles, src, from, dir, tiles.len() as int, k);
        assert(is_nearest(tiles, src, from, dir, i));
    } else {
        assert forall|k: int| 0 <= k < tiles.len() && (#[trigger] tiles[k]).0 != src implies !({
            let x = (tiles[k].1.x + tiles[k].1.w / 2) - (from.x + from.w / 2);
            let y = (tiles[k].1.y + tiles[k].1.h / 2) - (from.y + from.h / 2);
            match dir {
                Direction::Left => x < 0,
                Direction::Right => x > 0,
                Direction::Up => y < 0,
                Direction::Down => y > 0,
            }
        }) by {
            assert(!is_candidate(tiles, src, from, dir, k));
        }
    }
}

/// Among the first `n` tiles one is the least remote, where there is any.
proof fn lemma_some_nearest<T>(
    tiles: Seq<(T, Rect)>,
    src: T,
    from: Rect,
    dir: Direction,
    n: int,
    k: int,
) -> (i: int)
    requires
        0 <= k < n <= tiles.len(),
        is_candidate(tiles, src, from, dir, k),
    ensures
        i < n,
        is_candidate(tiles, src, from, dir, i),
        forall|j: int|
            j < n && #[trigger] is_candidate(tiles, src, from, dir, j) ==> {
                &&& remoteness(from, tiles[i].1, dir) <= remoteness(from, tiles[j].1, dir)
                &&& j < i ==> remoteness(from, tiles[i].1, dir) < remoteness(
                    from,
                    tiles[j].1,
                    dir,
                )
            },
    decreases n,
{
    let last = n - 1;
    if exists|j: int| j < last && is_candidate(tiles, src, from, dir, j) {
        let j = choose|j: int| j < last && is_candidate(tiles, src, from, dir, j);
        let i = lemma_some_nearest(tiles, src, from, dir, last, j);
        if is_candidate(tiles, src, from, dir, last) && remoteness(from, tiles[last].1, dir)
            < remoteness(from, tiles[i].1, dir) {
            last
        } else {
            i
        }
    } else {
        last
    }
}

/// The window whose tile is nearest to `src_rect` in direction `dir`, other
/// than `src` itself.
pub fn nearest_in_direction<T: Key>(
    positions: &Vec<(T, Rect)>,
    src: T,
    src_rect: Rect,
    dir: Direction,
) -> (r: Option<T>)
    ensures
        r == nearest_spec(positions@, src, src_rect, dir),
        r is None <==> forall|i: int| !is_candidate(positions@, src, src_rect, dir, i),
{
    let sx: i64 = src_rect.x as i64 + (src_rect.w / 2) as i64;
    let sy: i64 = src_rect.y as i64 + (src_rect.h / 2) as i64;
    let mut best: Option<(usize, i128)> = None;
    let mut i: usize = 0;
    while i < positions.len()
        invariant
            i <= positions.len(),
            sx == mid_x(src_rect),
            sy == mid_y(src_rect),
            -0x1_8000_0000 <= sx <= 0x1_8000_0000,
            -0x1_8000_0000 <= sy <= 0x1_8000_0000,
            match best {
                None => forall|j: int| 0 <= j < i ==> !is_candidate(positions@, src, src_rect, dir, j),
                Some((b, d)) => {
                    &&& b < i
                    &&& d == remoteness(src_rect, positions@[b as int].1, dir)
                    &&& is_candidate(positions@, src, src_rect, dir, b as int)
                    &&& forall|j: int|
                        0 <= j < i && #[trigger] is_candidate(positions@, src, src_rect, dir, j) ==> {
                            &&& d <= remoteness(src_rect, positions@[j].1, dir)
                            &&& j < b ==> d < remoteness(src_rect, positions@[j].1, dir)
                        }
                },
            },
        decreases positions.len() - i,
    {
        let (t, r) = positions[i];
        let cx: i64 = r.x as i64 + (r.w / 2) as i64;
        let cy: i64 = r.y as i64 + (r.h / 2) as i64;
        let in_dir = match dir {
            Direction::Left => cx < sx,
            Direction::Right => cx > sx,
            Direction::Up => cy < sy,
            Direction::Down => cy > sy,
        };
        if !t.same(&src) && in_dir {
            assert(is_candidate(positions@, src, src_rect, dir, i as int));
            let dx: i128 = (cx - sx) as i128;
            let dy: i128 = (cy - sy) as i128;
            proof {
                assert(0 <= dx * dx <= 0x4_0000_0000 * 0x4_0000_0000) by (nonlinear_arith)
                    requires
                        -0x4_0000_0000 <= dx <= 0x4_0000_0000,
                ;
                assert(0 <= dy * dy <= 0x4_0000_0000 * 0x4_0000_0000) by (nonlinear_arith)
                    requires
                        -0x4_0000_0000 <= dy <= 0x4_0000_0000,
                ;
            }
            let across: i128 = if dir.is_horizontal() {
                2 * (dy * dy)
            } else {
                2 * (dx * dx)
            };
            let dist: i128 = dx * dx + dy * dy + across;
            let closer = match best {
                None => true,
                Some((_, d)) => dist < d,
            };
            if closer {
                best = Some((i, dist));
            }
        }
        i = i + 1;
    }
    match best {
        None => {
            proof {
                if exists|k: int| is_nearest(positions@, src, src_rect, dir, k) {
                    let k = choose|k: int| is_nearest(positions@, src, src_rect, dir, k);
                    assert(is_candidate(positions@, src, src_rect, dir, k));
                }
            }
            None
        },
        Some((b, _)) => {
            proof {
                lemma_nearest_unique(positions@, src, src_rect, dir, b as int);
            }
            Some(positions[b].0)
        },
    }
}

} // verus!
