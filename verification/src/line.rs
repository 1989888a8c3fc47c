use vstd::prelude::*;
use vstd::arithmetic::div_mod::{lemma_fundamental_div_mod, lemma_fundamental_div_mod_converse, lemma_mod_bound};

verus! {

/// A straight line between two pixel positions.
pub struct Line {
    pub v0: (usize, usize),
    pub v1: (usize, usize),
}

/// Distance between two coordinates along one axis.
pub open spec fn abs_diff(a: int, b: int) -> int {
    if a <= b { b - a } else { a - b }
}

/// Direction of travel along one axis: `1` towards a larger coordinate, `-1` otherwise.
pub open spec fn step_sign(a: int, b: int) -> int {
    if a < b { 1 } else { -1 }
}

/// `num / den` rounded towards positive infinity (for `den > 0`).
pub open spec fn ceil_div(num: int, den: int) -> int {
    (num + den - 1) / den
}

/// Number of steps along the major axis of the line from `(x0, y0)` to `(x1, y1)`.
pub open spec fn line_steps(x0: int, y0: int, x1: int, y1: int) -> int {
    let dx = abs_diff(x0, x1);
    let dy = abs_diff(y0, y1);
    if dx > dy { dx } else { dy }
}

/// The `t`-th pixel of the line from `(x0, y0)` to `(x1, y1)`.
///
/// The major axis advances by one pixel per step. The minor coordinate after `t` steps is
/// the exact line position `t * minor / major`, with half a pixel taken off before rounding
/// up; that is, the point nearest the ideal line, ties going towards the start point.
pub open spec fn line_pixel(x0: int, y0: int, x1: int, y1: int, t: int) -> (int, int) {
    let dx = abs_diff(x0, x1);
    let dy = abs_diff(y0, y1);
    let sx = step_sign(x0, x1);
    let sy = step_sign(y0, y1);
    if dx > dy {
        (x0 + sx * t, y0 + sy * ceil_div(t * dy - dx / 2, dx))
    } else if dy > 0 {
        (x0 + sx * ceil_div(t * dx - dy / 2, dy), y0 + sy * t)
    } else {
        (x0, y0)
    }
}

/// The running error term of the incremental algorithm after `t` steps.
pub open spec fn line_error(x0: int, y0: int, x1: int, y1: int, t: int) -> int {
    let dx = abs_diff(x0, x1);
    let dy = abs_diff(y0, y1);
    if dx > dy {
        ceil_div(t * dy - dx / 2, dx) * dx - (t * dy - dx / 2)
    } else if dy > 0 {
        (t * dx - dy / 2) - ceil_div(t * dx - dy / 2, dy) * dy
    } else {
        0
    }
}

/// The pixels of the line from `v0` to `v1`, from `v0` up to and including `v1`.
pub open spec fn line_pixels(v0: (usize, usize), v1: (usize, usize)) -> Seq<(usize, usize)> {
    let (x0, y0, x1, y1) = (v0.0 as int, v0.1 as int, v1.0 as int, v1.1 as int);
    Seq::new(
        (line_steps(x0, y0, x1, y1) + 1) as nat,
        |t: int|
            (line_pixel(x0, y0, x1, y1, t).0 as usize, line_pixel(x0, y0, x1, y1, t).1 as usize),
    )
}

/// Coordinates small enough that the signed arithmetic of the line walk cannot overflow.
pub open spec fn line_coords_in_range(v0: (usize, usize), v1: (usize, usize)) -> bool {
    &&& v0.0 <= isize::MAX / 2
    &&& v0.1 <= isize::MAX / 2
    &&& v1.0 <= isize::MAX / 2
    &&& v1.1 <= isize::MAX / 2
}

/// `ceil_div(a, d)` is the least `q` with `q * d >= a`.
proof fn lemma_ceil_div(a: int, d: int)
    requires
        d > 0,
    ensures
        0 <= ceil_div(a, d) * d - a < d,
{
    lemma_fundamental_div_mod(a + d - 1, d);
    lemma_mod_bound(a + d - 1, d);
    let q = (a + d - 1) / d;
    assert(d * q == q * d) by (nonlinear_arith);
}

/// The only `q` with `0 <= q * d - a < d` is `ceil_div(a, d)`.
proof fn lemma_ceil_div_unique(a: int, d: int, q: int)
    requires
        d > 0,
        0 <= q * d - a < d,
    ensures
        ceil_div(a, d) == q,
{
    let r = d - 1 - (q * d - a);
    lemma_fundamental_div_mod_converse(a + d - 1, d, q, r);
}

/// Multiplying by a step direction only flips the sign.
proof fn lemma_step_sign_mul(a: int, b: int, t: int)
    ensures
        step_sign(a, b) * t == (if a < b { t } else { -t }),
        step_sign(a, b) * (t + 1) == step_sign(a, b) * t + step_sign(a, b),
{
    if a < b {
        assert(1 * t == t);
        assert(1 * (t + 1) == t + 1);
    } else {
        assert((-1) * t == -t) by (nonlinear_arith);
        assert((-1) * (t + 1) == -t - 1) by (nonlinear_arith);
    }
}

/// One step of the incremental walk: from the error term at step `t`, the walk moves along
/// x exactly when `err > -dx`, along y exactly when `err < dy`, and the error term is
/// updated by `-dy` and `+dx` accordingly.
proof fn lemma_line_step(x0: int, y0: int, x1: int, y1: int, t: int)
    requires
        0 <= t < line_steps(x0, y0, x1, y1),
    ensures
        ({
            let dx = abs_diff(x0, x1);
            let dy = abs_diff(y0, y1);
            let e = line_error(x0, y0, x1, y1, t);
            let p = line_pixel(x0, y0, x1, y1, t);
            let q = line_pixel(x0, y0, x1, y1, t + 1);
            &&& q.0 == p.0 + (if e > -dx { step_sign(x0, x1) } else { 0 })
            &&& q.1 == p.1 + (if e < dy { step_sign(y0, y1) } else { 0 })
            &&& line_error(x0, y0, x1, y1, t + 1) == e - (if e > -dx { dy } else { 0 }) + (
            if e < dy { dx } else { 0 })
        }),
{
    let dx = abs_diff(x0, x1);
    let dy = abs_diff(y0, y1);
    lemma_step_sign_mul(x0, x1, t);
    lemma_step_sign_mul(y0, y1, t);
    if dx > dy {
        let a = t * dy - dx / 2;
        let a1 = (t + 1) * dy - dx / 2;
        assert(a1 == a + dy) by (nonlinear_arith)
            requires
                a1 == (t + 1) * dy - dx / 2,
                a == t * dy - dx / 2,
        ;
        let j = ceil_div(a, dx);
        lemma_ceil_div(a, dx);
        let e = j * dx - a;
        assert(e == line_error(x0, y0, x1, y1, t));
        if e < dy {
            assert((j + 1) * dx - a1 == e + dx - dy) by (nonlinear_arith)
                requires
                    a1 == a + dy,
                    e == j * dx - a,
            ;
            lemma_ceil_div_unique(a1, dx, j + 1);
            lemma_step_sign_mul(y0, y1, j);
        } else {
            lemma_ceil_div_unique(a1, dx, j);
        }
    } else {
        let a = t * dx - dy / 2;
        let a1 = (t + 1) * dx - dy / 2;
        assert(a1 == a + dx) by (nonlinear_arith)
            requires
                a1 == (t + 1) * dx - dy / 2,
                a == t * dx - dy / 2,
        ;
        let i = ceil_div(a, dy);
        lemma_ceil_div(a, dy);
        let e = a - i * dy;
        assert(e == line_error(x0, y0, x1, y1, t));
        if e > -dx {
            assert((i + 1) * dy - a1 == -e + dy - dx) by (nonlinear_arith)
                requires
                    a1 == a + dx,
                    e == a - i * dy,
            ;
            lemma_ceil_div_unique(a1, dy, i + 1);
            lemma_step_sign_mul(x0, x1, i);
        } else {
            lemma_ceil_div_unique(a1, dy, i);
        }
    }
}

/// The error term always stays within `[-dy, dx]`.
proof fn lemma_line_error_bounds(x0: int, y0: int, x1: int, y1: int, t: int)
    ensures
        -abs_diff(y0, y1) <= line_error(x0, y0, x1, y1, t) <= abs_diff(x0, x1),
{
    let dx = abs_diff(x0, x1);
    let dy = abs_diff(y0, y1);
    if dx > dy {
        lemma_ceil_div(t * dy - dx / 2, dx);
    } else if dy > 0 {
        lemma_ceil_div(t * dx - dy / 2, dy);
    }
}

/// Along the walk the minor-axis progress stays between 0 and the minor distance.
proof fn lemma_line_minor_bounds(x0: int, y0: int, x1: int, y1: int, t: int)
    requires
        0 <= t <= line_steps(x0, y0, x1, y1),
    ensures
        ({
            let dx = abs_diff(x0, x1);
            let dy = abs_diff(y0, y1);
            &&& dx > dy ==> 0 <= ceil_div(t * dy - dx / 2, dx) <= dy
            &&& (dx <= dy && dy > 0) ==> 0 <= ceil_div(t * dx - dy / 2, dy) <= dx
        }),
{
    let dx = abs_diff(x0, x1);
    let dy = abs_diff(y0, y1);
    if dx > dy {
        let a = t * dy - dx / 2;
        let j = ceil_div(a, dx);
        lemma_ceil_div(a, dx);
        assert(0 <= j <= dy) by (nonlinear_arith)
            requires
                0 <= j * dx - a < dx,
                a == t * dy - dx / 2,
                0 <= t <= dx,
                0 <= dy < dx,
                0 <= dx / 2 < dx,
        ;
    } else if dy > 0 {
        let a = t * dx - dy / 2;
        let i = ceil_div(a, dy);
        lemma_ceil_div(a, dy);
        assert(0 <= i <= dx) by (nonlinear_arith)
            requires
                0 <= i * dy - a < dy,
                a == t * dx - dy / 2,
                0 <= t <= dy,
                0 <= dx <= dy,
                0 <= dy / 2 < dy,
        ;
    }
}

/// The walk reaches the end point exactly after `line_steps` steps, and not before.
proof fn lemma_line_reaches_end(x0: int, y0: int, x1: int, y1: int, t: int)
    requires
        0 <= t <= line_steps(x0, y0, x1, y1),
    ensures
        (line_pixel(x0, y0, x1, y1, t) == (x1, y1)) <==> (t == line_steps(x0, y0, x1, y1)),
{
    let dx = abs_diff(x0, x1);
    let dy = abs_diff(y0, y1);
    if dx > dy {
        let a = dx * dy - dx / 2;
        assert(dy * dx - a == dx / 2) by (nonlinear_arith)
            requires
                a == dx * dy - dx / 2,
        ;
        lemma_ceil_div_unique(a, dx, dy);
        lemma_step_sign_mul(x0, x1, t);
        lemma_step_sign_mul(y0, y1, dy);
    } else if dy > 0 {
        let a = dy * dx - dy / 2;
        assert(dx * dy - a == dy / 2) by (nonlinear_arith)
            requires
                a == dy * dx - dy / 2,
        ;
        lemma_ceil_div_unique(a, dy, dx);
        lemma_step_sign_mul(y0, y1, t);
        lemma_step_sign_mul(x0, x1, dx);
    }
}

/// The walk starts at the start point.
proof fn lemma_line_starts(x0: int, y0: int, x1: int, y1: int)
    ensures
        line_pixel(x0, y0, x1, y1, 0) == (x0, y0),
        line_error(x0, y0, x1, y1, 0) == (if abs_diff(x0, x1) > abs_diff(y0, y1) {
            abs_diff(x0, x1) / 2
        } else {
            -(abs_diff(y0, y1) / 2)
        }),
{
    let dx = abs_diff(x0, x1);
    let dy = abs_diff(y0, y1);
    lemma_step_sign_mul(x0, x1, 0);
    lemma_step_sign_mul(y0, y1, 0);
    if dx > dy {
        lemma_ceil_div_unique(0 * dy - dx / 2, dx, 0);
    } else if dy > 0 {
        lemma_ceil_div_unique(0 * dx - dy / 2, dy, 0);
    }
}

/// Every pixel of the walk lies inside the bounding box of the two end points.
proof fn lemma_line_pixel_in_box(x0: int, y0: int, x1: int, y1: int, t: int)
    requires
        0 <= t <= line_steps(x0, y0, x1, y1),
    ensures
        ({
            let p = line_pixel(x0, y0, x1, y1, t);
            &&& (if x0 <= x1 { x0 <= p.0 <= x1 } else { x1 <= p.0 <= x0 })
            &&& (if y0 <= y1 { y0 <= p.1 <= y1 } else { y1 <= p.1 <= y0 })
        }),
{
    let dx = abs_diff(x0, x1);
    let dy = abs_diff(y0, y1);
    lemma_line_minor_bounds(x0, y0, x1, y1, t);
    lemma_step_sign_mul(x0, x1, t);
    lemma_step_sign_mul(y0, y1, t);
    if dx > dy {
        lemma_step_sign_mul(y0, y1, ceil_div(t * dy - dx / 2, dx));
    } else if dy > 0 {
        lemma_step_sign_mul(x0, x1, ceil_div(t * dx - dy / 2, dy));
    }
}

/// The line from `v0` to `v1` has one pixel more than the distance along its longer axis,
/// starts at `v0` and ends at `v1`.
pub proof fn lemma_line_endpoints(v0: (usize, usize), v1: (usize, usize))
    ensures
        line_pixels(v0, v1).len() == (if abs_diff(v0.0 as int, v1.0 as int) > abs_diff(
            v0.1 as int,
            v1.1 as int,
        ) {
            abs_diff(v0.0 as int, v1.0 as int)
        } else {
            abs_diff(v0.1 as int, v1.1 as int)
        }) + 1,
        line_pixels(v0, v1)[0] == v0,
        line_pixels(v0, v1).last() == v1,
{
    let (x0, y0, x1, y1) = (v0.0 as int, v0.1 as int, v1.0 as int, v1.1 as int);
    let n = line_steps(x0, y0, x1, y1);
    lemma_line_starts(x0, y0, x1, y1);
    lemma_line_reaches_end(x0, y0, x1, y1, n);
}

/// Consecutive pixels of a line are distinct 8-connected neighbours: each coordinate changes
/// by at most one, and every step moves by exactly one along the longer axis.
pub proof fn lemma_line_pixels_adjacent(v0: (usize, usize), v1: (usize, usize), k: int)
    requires
        0 <= k && k + 1 < line_pixels(v0, v1).len(),
    ensures
        ({
            let p = line_pixels(v0, v1)[k];
            let q = line_pixels(v0, v1)[k + 1];
            let dx = abs_diff(v0.0 as int, v1.0 as int);
            let dy = abs_diff(v0.1 as int, v1.1 as int);
            &&& abs_diff(p.0 as int, q.0 as int) <= 1
            &&& abs_diff(p.1 as int, q.1 as int) <= 1
            &&& dx > dy ==> abs_diff(p.0 as int, q.0 as int) == 1
            &&& dx <= dy ==> abs_diff(p.1 as int, q.1 as int) == 1
        }),
{
    let (x0, y0, x1, y1) = (v0.0 as int, v0.1 as int, v1.0 as int, v1.1 as int);
    lemma_line_step(x0, y0, x1, y1, k);
    lemma_line_pixel_in_box(x0, y0, x1, y1, k);
    lemma_line_pixel_in_box(x0, y0, x1, y1, k + 1);
    lemma_line_error_bounds(x0, y0, x1, y1, k);
    let dx = abs_diff(x0, x1);
    let dy = abs_diff(y0, y1);
    if dx > dy {
        lemma_ceil_div(k * dy - dx / 2, dx);
    } else {
        lemma_ceil_div(k * dx - dy / 2, dy);
    }
}

/// Every pixel of a line lies inside the bounding box of its two end points.
pub proof fn lemma_line_pixels_within_bounds(v0: (usize, usize), v1: (usize, usize), k: int)
    requires
        0 <= k < line_pixels(v0, v1).len(),
    ensures
        ({
            let p = line_pixels(v0, v1)[k];
            &&& (if v0.0 <= v1.0 { v0.0 <= p.0 <= v1.0 } else { v1.0 <= p.0 <= v0.0 })
            &&& (if v0.1 <= v1.1 { v0.1 <= p.1 <= v1.1 } else { v1.1 <= p.1 <= v0.1 })
        }),
{
    lemma_line_pixel_in_box(v0.0 as int, v0.1 as int, v1.0 as int, v1.1 as int, k);
}

impl Line {
    pub fn new(v0: (usize, usize), v1: (usize, usize)) -> (line: Self)
        ensures
            line.v0 == v0,
            line.v1 == v1,
    {
        Self { v0, v1 }
    }

    /// Returns every pixel on the line from `v0` to `v1`, both ends included, in order.
    pub fn get_intermediary_pixels(&self) -> (pixels: Vec<(usize, usize)>)
        requires
            line_coords_in_range(self.v0, self.v1),
        ensures
            pixels@ == line_pixels(self.v0, self.v1),
    {
        let mut pixels: Vec<(usize, usize)> = Vec::new();

        let x0: isize = self.v0.0 as isize;
        let y0: isize = self.v0.1 as isize;
        let x1: isize = self.v1.0 as isize;
        let y1: isize = self.v1.1 as isize;

        let dx: isize = if x1 >= x0 { x1 - x0 } else { x0 - x1 };
        let dy: isize = if y1 >= y0 { y1 - y0 } else { y0 - y1 };

        let sx: isize = if x0 < x1 { 1 } else { -1 };
        let sy: isize = if y0 < y1 { 1 } else { -1 };

        let mut err: isize = if dx > dy { dx / 2 } else { -(dy / 2) };
        let mut x: isize = x0;
        let mut y: isize = y0;

        let ghost (gx0, gy0, gx1, gy1) = (x0 as int, y0 as int, x1 as int, y1 as int);
        let ghost n = line_steps(gx0, gy0, gx1, gy1);
        let ghost mut t: int = 0;

        proof {
            lemma_line_starts(gx0, gy0, gx1, gy1);
        }

        loop
            invariant_except_break
                0 <= t <= n,
                (x as int, y as int) == line_pixel(gx0, gy0, gx1, gy1, t),
                err == line_error(gx0, gy0, gx1, gy1, t),
                pixels@.len() == t,
                forall|k: int| 0 <= k < t ==> pixels@[k] == line_pixels(self.v0, self.v1)[k],
            invariant
                gx0 == self.v0.0,
                gy0 == self.v0.1,
                gx1 == self.v1.0,
                gy1 == self.v1.1,
                line_coords_in_range(self.v0, self.v1),
                dx == abs_diff(gx0, gx1),
                dy == abs_diff(gy0, gy1),
                sx == step_sign(gx0, gx1),
                sy == step_sign(gy0, gy1),
                n == line_steps(gx0, gy0, gx1, gy1),
                x1 == gx1,
                y1 == gy1,
            ensures
                pixels@.len() == n + 1,
                forall|k: int| 0 <= k < n + 1 ==> pixels@[k] == line_pixels(self.v0, self.v1)[k],
            decreases n - t,
        {
            proof {
                lemma_line_minor_bounds(gx0, gy0, gx1, gy1, t);
                lemma_line_error_bounds(gx0, gy0, gx1, gy1, t);
            }
            pixels.push((x as usize, y as usize));
            if x == x1 && y == y1 {
                proof {
                    lemma_line_reaches_end(gx0, gy0, gx1, gy1, t);
                }
                break;
            }
            proof {
                lemma_line_reaches_end(gx0, gy0, gx1, gy1, t);
                lemma_line_step(gx0, gy0, gx1, gy1, t);
            }
            let e2 = err;
            if e2 > -dx {
                err -= dy;
                x += sx;
            }
            if e2 < dy {
                err += dx;
                y += sy;
            }
            proof {
                t = t + 1;
            }
        }
        assert(pixels@ =~= line_pixels(self.v0, self.v1));
        pixels
    }
}

} // verus!
