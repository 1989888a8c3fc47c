use vstd::prelude::*;
use vstd::arithmetic::div_mod::{lemma_fundamental_div_mod, lemma_mod_bound};

use crate::tile::{Tile, tile_count_along};

verus! {

/// The pixel bounding box of a screen-space triangle, already clamped below at zero:
/// the triangle touches the pixel columns `min_x..=max_x` and rows `min_y..=max_y`.
pub struct PixelBounds {
    pub min_x: usize,
    pub max_x: usize,
    pub min_y: usize,
    pub max_y: usize,
}

impl PixelBounds {
    pub fn new(min_x: usize, max_x: usize, min_y: usize, max_y: usize) -> (b: Self)
        ensures
            b.min_x == min_x,
            b.max_x == max_x,
            b.min_y == min_y,
            b.max_y == max_y,
    {
        PixelBounds { min_x, max_x, min_y, max_y }
    }
}

/// Index of the last tile column of a grid over a framebuffer `screen_width` pixels wide.
pub open spec fn last_tile_column(screen_width: int, tile_size: int) -> int {
    tile_count_along(screen_width, tile_size) - 1
}

/// Index of the last complete tile row among `tile_count` tiles.
pub open spec fn last_tile_row(screen_width: int, tile_count: int, tile_size: int) -> int {
    tile_count / tile_count_along(screen_width, tile_size) - 1
}

/// The smaller of two integers.
pub open spec fn clamp_to(a: int, max: int) -> int {
    if a <= max { a } else { max }
}

/// Whether a triangle with pixel bounds `b` is assigned to tile number `t`: the tile's
/// column and row fall in the range of tiles that the bounds overlap, clamped to the grid.
pub open spec fn bounds_cover_tile(
    b: PixelBounds,
    screen_width: int,
    tile_count: int,
    tile_size: int,
    t: int,
) -> bool {
    let per_row = tile_count_along(screen_width, tile_size);
    let max_tx = last_tile_column(screen_width, tile_size);
    let max_ty = last_tile_row(screen_width, tile_count, tile_size);
    let tx = t % per_row;
    let ty = t / per_row;
    &&& clamp_to((b.min_x as int) / tile_size, max_tx) <= tx <= clamp_to((b.max_x as int) / tile_size, max_tx)
    &&& clamp_to((b.min_y as int) / tile_size, max_ty) <= ty <= clamp_to((b.max_y as int) / tile_size, max_ty)
}

/// The triangle indices that tile `t` receives from the triangles with bounds `bounds`,
/// in increasing order.
pub open spec fn bin_members(
    bounds: Seq<PixelBounds>,
    screen_width: int,
    tile_count: int,
    tile_size: int,
    t: int,
) -> Seq<usize>
    decreases bounds.len(),
{
    if bounds.len() == 0 {
        Seq::empty()
    } else {
        let rest = bin_members(bounds.drop_last(), screen_width, tile_count, tile_size, t);
        if bounds_cover_tile(bounds.last(), screen_width, tile_count, tile_size, t) {
            rest.push((bounds.len() - 1) as usize)
        } else {
            rest
        }
    }
}

/// Binning pass: assigns each triangle to every tile whose bounds overlap its screen bounding
/// box. Returns one `Vec<usize>` per tile, containing indices into the triangle list.
pub fn bin_triangles(
    bounds: &Vec<PixelBounds>,
    tiles: &Vec<Tile>,
    screen_width: usize,
    tile_size: usize,
) -> (bins: Vec<Vec<usize>>)
    requires
        tile_size > 0,
        screen_width > 0,
        tiles@.len() >= tile_count_along(screen_width as int, tile_size as int),
    ensures
        bins@.len() == tiles@.len(),
        forall|t: int|
            0 <= t < bins@.len() ==> #[trigger] bins@[t]@ == bin_members(
                bounds@,
                screen_width as int,
                tiles@.len() as int,
                tile_size as int,
                t,
            ),
{
    let ghost (sw, n_tiles, ts) = (screen_width as int, tiles@.len() as int, tile_size as int);
    proof {
        lemma_fundamental_div_mod(sw, ts);
        lemma_mod_bound(sw, ts);
        assert(sw % ts != 0 ==> sw / ts < usize::MAX) by (nonlinear_arith)
            requires
                sw == ts * (sw / ts) + sw % ts,
                0 <= sw % ts < ts,
                0 <= sw <= usize::MAX,
        ;
        assert(sw / ts >= 1 || sw % ts != 0) by (nonlinear_arith)
            requires
                sw == ts * (sw / ts) + sw % ts,
                sw > 0,
                ts > 0,
        ;
        assert((sw / ts + 1) * ts == ts * (sw / ts) + ts && (sw / ts) * ts == ts * (sw / ts))
            by (nonlinear_arith);
        if sw % ts != 0 {
            vstd::arithmetic::div_mod::lemma_fundamental_div_mod_converse(
                sw + ts - 1,
                ts,
                sw / ts + 1,
                sw % ts - 1,
            );
        } else {
            vstd::arithmetic::div_mod::lemma_fundamental_div_mod_converse(
                sw + ts - 1,
                ts,
                sw / ts,
                ts - 1,
            );
        }
    }
    let tiles_per_row: usize = screen_width / tile_size + if screen_width % tile_size != 0 {
        1
    } else {
        0
    };
    assert(tiles_per_row == tile_count_along(sw, ts));
    proof {
        assert(n_tiles / (tiles_per_row as int) >= 1) by (nonlinear_arith)
            requires
                n_tiles >= tiles_per_row,
                tiles_per_row > 0,
        ;
    }
    let ghost per_row = tiles_per_row as int;

    let n_tiles_exec = tiles.len();
    assert(n_tiles == n_tiles_exec);
    let mut bins: Vec<Vec<usize>> = Vec::new();
    let mut k: usize = 0;
    while k < tiles.len()
        invariant
            k <= tiles@.len(),
            bins@.len() == k,
            forall|t: int| 0 <= t < k ==> (#[trigger] bins@[t])@ == Seq::<usize>::empty(),
        decreases tiles@.len() - k,
    {
        bins.push(Vec::new());
        k = k + 1;
    }

    let max_tile_x = tiles_per_row - 1;
    let max_tile_y = (tiles.len() / tiles_per_row) - 1;
    assert(max_tile_x == last_tile_column(sw, ts));
    assert(max_tile_y == last_tile_row(sw, n_tiles, ts));
    proof {
        assert((max_tile_y + 1) * per_row <= n_tiles) by (nonlinear_arith)
            requires
                max_tile_y + 1 == n_tiles / per_row,
                per_row > 0,
                n_tiles >= 0,
        ;
        lemma_fundamental_div_mod(n_tiles, per_row);
        lemma_mod_bound(n_tiles, per_row);
        assert((n_tiles / per_row) * per_row == per_row * (n_tiles / per_row))
            by (nonlinear_arith);
    }

    let mut i: usize = 0;
    while i < bounds.len()
        invariant
            sw == screen_width,
            ts == tile_size,
            n_tiles == tiles@.len(),
            n_tiles <= usize::MAX,
            ts > 0,
            per_row == tiles_per_row,
            per_row == tile_count_along(sw, ts),
            per_row > 0,
            max_tile_x == per_row - 1,
            max_tile_y == last_tile_row(sw, n_tiles, ts),
            max_tile_y >= 0,
            (max_tile_y + 1) * per_row <= n_tiles,
            i <= bounds@.len(),
            bins@.len() == n_tiles,
            forall|t: int|
                0 <= t < n_tiles ==> (#[trigger] bins@[t])@ == bin_members(
                    bounds@.take(i as int),
                    sw,
                    n_tiles,
                    ts,
                    t,
                ),
        decreases bounds@.len() - i,
    {
        let b = &bounds[i];
        let tile_min_x = if b.min_x / tile_size <= max_tile_x {
            b.min_x / tile_size
        } else {
            max_tile_x
        };
        let tile_max_x = if b.max_x / tile_size <= max_tile_x {
            b.max_x / tile_size
        } else {
            max_tile_x
        };
        let tile_min_y = if b.min_y / tile_size <= max_tile_y {
            b.min_y / tile_size
        } else {
            max_tile_y
        };
        let tile_max_y = if b.max_y / tile_size <= max_tile_y {
            b.max_y / tile_size
        } else {
            max_tile_y
        };
        let ghost before = bins@;
        let ghost prefix = bounds@.take(i as int);
        let ghost next = bounds@.take(i + 1);
        proof {
            assert(next.drop_last() =~= prefix);
            assert(next.last() == bounds@[i as int]);
        }

        let mut ty: usize = tile_min_y;
        while ty <= tile_max_y
            invariant
                sw == screen_width,
                ts == tile_size,
                n_tiles == tiles@.len(),
                n_tiles <= usize::MAX,
                ts > 0,
                per_row == tiles_per_row,
                per_row == tile_count_along(sw, ts),
                per_row > 0,
                max_tile_x == per_row - 1,
                max_tile_y == last_tile_row(sw, n_tiles, ts),
                (max_tile_y + 1) * per_row <= n_tiles,
                i < bounds@.len(),
                *b == bounds@[i as int],
                next == bounds@.take(i + 1),
                next.drop_last() == prefix,
                next.last() == bounds@[i as int],
                tile_min_x == clamp_to((b.min_x as int) / ts, max_tile_x as int),
                tile_max_x == clamp_to((b.max_x as int) / ts, max_tile_x as int),
                tile_min_y == clamp_to((b.min_y as int) / ts, max_tile_y as int),
                tile_max_y == clamp_to((b.max_y as int) / ts, max_tile_y as int),
                tile_max_x <= max_tile_x,
                tile_max_y <= max_tile_y,
                tile_min_y <= ty,
                bins@.len() == n_tiles,
                forall|t: int|
                    0 <= t < n_tiles ==> (#[trigger] bins@[t])@ == if bounds_cover_tile(
                        *b,
                        sw,
                        n_tiles,
                        ts,
                        t,
                    ) && t / per_row < ty {
                        bin_members(next, sw, n_tiles, ts, t)
                    } else {
                        bin_members(prefix, sw, n_tiles, ts, t)
                    },
            decreases tile_max_y + 1 - ty,
        {
            proof {
                assert(ty * per_row + per_row <= n_tiles) by (nonlinear_arith)
                    requires
                        ty <= max_tile_y,
                        (max_tile_y + 1) * per_row <= n_tiles,
                        per_row > 0,
                ;
            }
            let row_start = ty * tiles_per_row;
            let mut tx: usize = tile_min_x;
            while tx <= tile_max_x
                invariant
                    sw == screen_width,
                    ts == tile_size,
                    n_tiles == tiles@.len(),
                    n_tiles <= usize::MAX,
                    ts > 0,
                    per_row == tiles_per_row,
                    per_row == tile_count_along(sw, ts),
                    per_row > 0,
                    max_tile_x == per_row - 1,
                    max_tile_y == last_tile_row(sw, n_tiles, ts),
                    i < bounds@.len(),
                    *b == bounds@[i as int],
                    next.drop_last() == prefix,
                    next.last() == bounds@[i as int],
                    next.len() == i + 1,
                    tile_min_x == clamp_to((b.min_x as int) / ts, max_tile_x as int),
                    tile_max_x == clamp_to((b.max_x as int) / ts, max_tile_x as int),
                    tile_min_y == clamp_to((b.min_y as int) / ts, max_tile_y as int),
                    tile_max_y == clamp_to((b.max_y as int) / ts, max_tile_y as int),
                    tile_max_x <= max_tile_x,
                    tile_min_y <= ty <= tile_max_y,
                    row_start == ty * per_row,
                    row_start + per_row <= n_tiles,
                    tile_min_x <= tx,
                    bins@.len() == n_tiles,
                    forall|t: int|
                        0 <= t < n_tiles ==> (#[trigger] bins@[t])@ == if bounds_cover_tile(
                            *b,
                            sw,
                            n_tiles,
                            ts,
                            t,
                        ) && (t / per_row < ty || (t / per_row == ty && t % per_row < tx)) {
                            bin_members(next, sw, n_tiles, ts, t)
                        } else {
                            bin_members(prefix, sw, n_tiles, ts, t)
                        },
                decreases tile_max_x + 1 - tx,
            {
                let tile_idx = row_start + tx;
                proof {
                    vstd::arithmetic::div_mod::lemma_fundamental_div_mod_converse(
                        tile_idx as int,
                        per_row,
                        ty as int,
                        tx as int,
                    );
                    assert(bounds_cover_tile(*b, sw, n_tiles, ts, tile_idx as int));
                    assert(bin_members(next, sw, n_tiles, ts, tile_idx as int) == bin_members(
                        prefix,
                        sw,
                        n_tiles,
                        ts,
                        tile_idx as int,
                    ).push(i));
                }
                let ghost old_bins = bins@;
                bins[tile_idx].push(i);
                proof {
                    assert forall|t: int| 0 <= t < n_tiles implies (#[trigger] bins@[t])@ == if bounds_cover_tile(
                        *b,
                        sw,
                        n_tiles,
                        ts,
                        t,
                    ) && (t / per_row < ty || (t / per_row == ty && t % per_row < tx + 1)) {
                        bin_members(next, sw, n_tiles, ts, t)
                    } else {
                        bin_members(prefix, sw, n_tiles, ts, t)
                    } by {
                        lemma_fundamental_div_mod(t, per_row);
                        lemma_mod_bound(t, per_row);
                        assert(per_row * ty == ty * per_row) by (nonlinear_arith);
                        if t != tile_idx {
                            assert(bins@[t] == old_bins[t]);
                        } else {
                            assert(bins@[t]@ == old_bins[t]@.push(i));
                        }
                    }
                }
                tx = tx + 1;
            }
            ty = ty + 1;
        }
        proof {
            assert forall|t: int| 0 <= t < n_tiles implies (#[trigger] bins@[t])@ == bin_members(
                next,
                sw,
                n_tiles,
                ts,
                t,
            ) by {
                if !bounds_cover_tile(*b, sw, n_tiles, ts, t) {
                    assert(bin_members(next, sw, n_tiles, ts, t) == bin_members(
                        prefix,
                        sw,
                        n_tiles,
                        ts,
                        t,
                    ));
                }
            }
        }
        i = i + 1;
    }
    assert(bounds@.take(bounds@.len() as int) =~= bounds@);
    bins
}

/// Tile `t` receives triangle `i` exactly when the triangle's bounds cover the tile, and the
/// indices each tile receives are strictly increasing.
pub proof fn lemma_bin_membership(
    bounds: Seq<PixelBounds>,
    screen_width: int,
    tile_count: int,
    tile_size: int,
    t: int,
)
    requires
        bounds.len() <= usize::MAX,
    ensures
        ({
            let m = bin_members(bounds, screen_width, tile_count, tile_size, t);
            &&& forall|i: int|
                0 <= i < bounds.len() ==> (m.contains(i as usize) <==> bounds_cover_tile(
                    #[trigger] bounds[i],
                    screen_width,
                    tile_count,
                    tile_size,
                    t,
                ))
            &&& forall|a: int, c: int| 0 <= a < c < m.len() ==> m[a] < m[c]
            &&& forall|a: int| 0 <= a < m.len() ==> m[a] < bounds.len()
        }),
    decreases bounds.len(),
{
    if bounds.len() > 0 {
        let n = bounds.len() - 1;
        let rest = bounds.drop_last();
        lemma_bin_membership(rest, screen_width, tile_count, tile_size, t);
        let m = bin_members(bounds, screen_width, tile_count, tile_size, t);
        let mr = bin_members(rest, screen_width, tile_count, tile_size, t);
        let covers_last = bounds_cover_tile(bounds[n], screen_width, tile_count, tile_size, t);
        assert(bounds.last() == bounds[n]);
        if covers_last {
            assert(m == mr.push(n as usize));
        } else {
            assert(m == mr);
        }
        assert forall|a: int| 0 <= a < m.len() implies m[a] < bounds.len() by {
            if a < mr.len() {
                assert(m[a] == mr[a]);
            }
        }
        assert forall|a: int, c: int| 0 <= a < c < m.len() implies m[a] < m[c] by {
            assert(m[a] == mr[a]);
            if c < mr.len() {
                assert(m[c] == mr[c]);
            }
        }
        assert forall|i: int| 0 <= i < bounds.len() implies (m.contains(i as usize)
            <==> bounds_cover_tile(
            #[trigger] bounds[i],
            screen_width,
            tile_count,
            tile_size,
            t,
        )) by {
            if i < n {
                assert(rest[i] == bounds[i]);
                if m.contains(i as usize) {
                    let a = choose|a: int| 0 <= a < m.len() && m[a] == i as usize;
                    if a < mr.len() {
                        assert(mr[a] == i as usize);
                        assert(mr.contains(i as usize));
                    } else {
                        assert(m[a] == n as usize);
                    }
                }
                if mr.contains(i as usize) {
                    let a = choose|a: int| 0 <= a < mr.len() && mr[a] == i as usize;
                    assert(m[a] == i as usize);
                    assert(m.contains(i as usize));
                }
            } else {
                if m.contains(i as usize) {
                    let a = choose|a: int| 0 <= a < m.len() && m[a] == i as usize;
                    if a < mr.len() {
                        assert(m[a] == mr[a]);
                        assert(mr[a] < rest.len());
                        assert(false);
                    }
                }
                if covers_last {
                    assert(m[mr.len() as int] == i as usize);
                    assert(m.contains(i as usize));
                }
            }
        }
    }
}

/// Whether tile `k` of a row or column of tiles `tile_size` pixels wide, whose last tile is
/// number `last`, meets the pixel span `lo..=hi`: the tile starts at or before `hi`, and the
/// span starts before the tile ends. The last tile also takes every span that starts past
/// it, since spans reaching beyond the border are kept on the grid.
pub open spec fn tile_meets_span(lo: int, hi: int, k: int, tile_size: int, last: int) -> bool {
    k * tile_size <= hi && (lo < (k + 1) * tile_size || k == last)
}

/// `a / d <= k` exactly when `a` lies before the end of tile `k`, and `k <= a / d` exactly
/// when tile `k` starts at or before `a`.
proof fn lemma_div_compare(a: int, d: int, k: int)
    requires
        a >= 0,
        d > 0,
    ensures
        (a / d <= k) <==> (a < (k + 1) * d),
        (k <= a / d) <==> (k * d <= a),
{
    lemma_fundamental_div_mod(a, d);
    lemma_mod_bound(a, d);
    let q = a / d;
    assert((q <= k) <==> (a < (k + 1) * d)) by (nonlinear_arith)
        requires
            a == d * q + a % d,
            0 <= a % d < d,
            d > 0,
    ;
    assert((k <= q) <==> (k * d <= a)) by (nonlinear_arith)
        requires
            a == d * q + a % d,
            0 <= a % d < d,
            d > 0,
    ;
}

/// Whether `x` lies at most `max` and `lo` is at most `x` after clamping `lo` to `max`, in
/// pixel terms.
proof fn lemma_clamped_span(lo: int, hi: int, k: int, d: int, last: int)
    requires
        lo >= 0,
        hi >= 0,
        d > 0,
        0 <= k <= last,
    ensures
        (clamp_to(lo / d, last) <= k <= clamp_to(hi / d, last)) <==> tile_meets_span(
            lo,
            hi,
            k,
            d,
            last,
        ),
{
    lemma_div_compare(lo, d, k);
    lemma_div_compare(hi, d, k);
}

/// What binning is for: tile `t` receives triangle `i` exactly when the tile lies in one of
/// the complete rows of the grid and its column and row meet the triangle's pixel box, where
/// a box reaching past the right or bottom border counts against the last column or row.
pub proof fn lemma_bins_follow_pixel_boxes(
    bounds: Seq<PixelBounds>,
    screen_width: int,
    tile_count: int,
    tile_size: int,
    t: int,
    i: int,
)
    requires
        tile_size > 0,
        screen_width > 0,
        tile_count >= tile_count_along(screen_width, tile_size),
        bounds.len() <= usize::MAX,
        0 <= t < tile_count,
        0 <= i < bounds.len(),
    ensures
        ({
            let per_row = tile_count_along(screen_width, tile_size);
            let rows = tile_count / per_row;
            let b = bounds[i];
            bin_members(bounds, screen_width, tile_count, tile_size, t).contains(i as usize) <==> (
            t / per_row < rows && tile_meets_span(
                b.min_x as int,
                b.max_x as int,
                t % per_row,
                tile_size,
                per_row - 1,
            ) && tile_meets_span(
                b.min_y as int,
                b.max_y as int,
                t / per_row,
                tile_size,
                rows - 1,
            ))
        }),
{
    let per_row = tile_count_along(screen_width, tile_size);
    let rows = tile_count / per_row;
    crate::tile::lemma_tile_count_along(screen_width, tile_size);
    lemma_bin_membership(bounds, screen_width, tile_count, tile_size, t);
    lemma_fundamental_div_mod(t, per_row);
    lemma_mod_bound(t, per_row);
    assert(t / per_row >= 0) by (nonlinear_arith)
        requires
            t == per_row * (t / per_row) + t % per_row,
            0 <= t % per_row < per_row,
            t >= 0,
    ;
    let b = bounds[i];
    lemma_clamped_span(b.min_x as int, b.max_x as int, t % per_row, tile_size, per_row - 1);
    if t / per_row < rows {
        lemma_clamped_span(b.min_y as int, b.max_y as int, t / per_row, tile_size, rows - 1);
    } else {
        lemma_div_compare(b.max_y as int, tile_size, t / per_row);
    }
}

} // verus!
