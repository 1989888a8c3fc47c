use vstd::prelude::*;
use vstd::arithmetic::div_mod::{lemma_fundamental_div_mod, lemma_fundamental_div_mod_converse, lemma_mod_bound};

verus! {

/// A rectangular region of the framebuffer, in pixels.
pub struct Tile {
    pub x: usize,
    pub y: usize,
    pub width: usize,
    pub height: usize,
}

impl Tile {
    pub fn new(x: usize, y: usize, width: usize, height: usize) -> (tile: Self)
        ensures
            tile.x == x,
            tile.y == y,
            tile.width == width,
            tile.height == height,
    {
        Self { x, y, width, height }
    }

    /// The tile as `(x, y, width, height)`.
    pub open spec fn rect(self) -> (int, int, int, int) {
        (self.x as int, self.y as int, self.width as int, self.height as int)
    }
}

/// Number of tiles of `tile_size` pixels needed to cover `len` pixels.
pub open spec fn tile_count_along(len: int, tile_size: int) -> int {
    (len + tile_size - 1) / tile_size
}

/// Number of tiles in the grid over a `fb_width` x `fb_height` framebuffer.
pub open spec fn grid_tile_count(fb_width: int, fb_height: int, tile_size: int) -> int {
    tile_count_along(fb_width, tile_size) * tile_count_along(fb_height, tile_size)
}

/// The smaller of two integers.
pub open spec fn min_int(a: int, b: int) -> int {
    if a <= b { a } else { b }
}

/// Tile number `k` of the grid over a `fb_width` x `fb_height` framebuffer: tiles are laid
/// out row by row, each `tile_size` square except at the right and bottom edges, where they
/// are cut off at the framebuffer's border.
pub open spec fn grid_tile(fb_width: int, fb_height: int, tile_size: int, k: int) -> (
    int,
    int,
    int,
    int,
) {
    let cols = tile_count_along(fb_width, tile_size);
    let x = (k % cols) * tile_size;
    let y = (k / cols) * tile_size;
    (x, y, min_int(tile_size, fb_width - x), min_int(tile_size, fb_height - y))
}

/// Whether pixel `(px, py)` lies inside the rectangle `(x, y, width, height)`.
pub open spec fn rect_contains(r: (int, int, int, int), px: int, py: int) -> bool {
    r.0 <= px < r.0 + r.2 && r.1 <= py < r.1 + r.3
}

/// `(len + d - 1) / d` tiles of size `d` reach past `len` pixels, and one fewer would not.
pub(crate) proof fn lemma_tile_count_along(len: int, d: int)
    requires
        len >= 0,
        d > 0,
    ensures
        tile_count_along(len, d) >= 0,
        (tile_count_along(len, d) - 1) * d < len <= tile_count_along(len, d) * d,
        len > 0 ==> tile_count_along(len, d) > 0,
{
    let c = tile_count_along(len, d);
    lemma_fundamental_div_mod(len + d - 1, d);
    lemma_mod_bound(len + d - 1, d);
    assert((c - 1) * d < len <= c * d) by (nonlinear_arith)
        requires
            len + d - 1 == d * c + (len + d - 1) % d,
            0 <= (len + d - 1) % d < d,
    ;
    assert(c >= 0 && (len > 0 ==> c > 0)) by (nonlinear_arith)
        requires
            len <= c * d,
            len >= 0,
            d > 0,
            (c - 1) * d < len,
    ;
}

/// Pixel coordinate `p` falls in the tile column `p / d`, i.e. `[c * d, c * d + d)`.
proof fn lemma_in_column(p: int, d: int, c: int)
    requires
        p >= 0,
        d > 0,
    ensures
        (c * d <= p < c * d + d) <==> (p / d == c),
{
    lemma_fundamental_div_mod(p, d);
    lemma_mod_bound(p, d);
    if c * d <= p < c * d + d {
        lemma_fundamental_div_mod_converse(p, d, c, p - c * d);
    }
    if p / d == c {
        assert(c * d == d * (p / d)) by (nonlinear_arith)
            requires
                p / d == c,
        ;
    }
}

/// Row-major index `row * cols + col` splits back into `row` and `col`.
proof fn lemma_grid_index(row: int, col: int, cols: int)
    requires
        cols > 0,
        0 <= col < cols,
    ensures
        (row * cols + col) / cols == row,
        (row * cols + col) % cols == col,
{
    lemma_fundamental_div_mod_converse(row * cols + col, cols, row, col);
}

/// Divides the framebuffer into a grid of tiles of `tile_size` pixels.
/// Edge tiles are smaller if the dimensions don't divide evenly.
pub fn make_tiles(fb_width: usize, fb_height: usize, tile_size: usize) -> (tiles: Vec<Tile>)
    requires
        tile_size > 0,
        tile_count_along(fb_width as int, tile_size as int) * tile_count_along(
            fb_height as int,
            tile_size as int,
        ) <= usize::MAX,
    ensures
        tiles@.len() == tile_count_along(fb_width as int, tile_size as int) * tile_count_along(
            fb_height as int,
            tile_size as int,
        ),
        forall|k: int|
            0 <= k < tiles@.len() ==> #[trigger] tiles@[k].rect() == grid_tile(
                fb_width as int,
                fb_height as int,
                tile_size as int,
                k,
            ),
{
    let ghost (w, h, d) = (fb_width as int, fb_height as int, tile_size as int);
    proof {
        lemma_fundamental_div_mod(w, d);
        lemma_mod_bound(w, d);
        lemma_fundamental_div_mod(h, d);
        lemma_mod_bound(h, d);
        assert((w / d + 1) * d == d * (w / d) + d && (w / d) * d == d * (w / d))
            by (nonlinear_arith);
        if w % d != 0 {
            lemma_fundamental_div_mod_converse(w + d - 1, d, w / d + 1, w % d - 1);
        } else {
            lemma_fundamental_div_mod_converse(w + d - 1, d, w / d, d - 1);
        }
        assert((h / d + 1) * d == d * (h / d) + d && (h / d) * d == d * (h / d))
            by (nonlinear_arith);
        if h % d != 0 {
            lemma_fundamental_div_mod_converse(h + d - 1, d, h / d + 1, h % d - 1);
        } else {
            lemma_fundamental_div_mod_converse(h + d - 1, d, h / d, d - 1);
        }
        lemma_tile_count_along(w, d);
        lemma_tile_count_along(h, d);
        assert(w % d != 0 ==> w / d < usize::MAX) by (nonlinear_arith)
            requires
                w == d * (w / d) + w % d,
                0 <= w % d < d,
                0 <= w <= usize::MAX,
        ;
        assert(h % d != 0 ==> h / d < usize::MAX) by (nonlinear_arith)
            requires
                h == d * (h / d) + h % d,
                0 <= h % d < d,
                0 <= h <= usize::MAX,
        ;
    }
    let cols: usize = fb_width / tile_size + if fb_width % tile_size != 0 {
        1
    } else {
        0
    };
    let rows: usize = fb_height / tile_size + if fb_height % tile_size != 0 {
        1
    } else {
        0
    };
    assert(cols == tile_count_along(w, d));
    assert(rows == tile_count_along(h, d));
    let mut tiles: Vec<Tile> = Vec::new();
    let mut row: usize = 0;
    while row < rows
        invariant
            w == fb_width,
            h == fb_height,
            d == tile_size,
            d > 0,
            cols == tile_count_along(w, d),
            rows == tile_count_along(h, d),
            (cols - 1) * d < w <= cols * d,
            (rows - 1) * d < h <= rows * d,
            cols * rows <= usize::MAX,
            row <= rows,
            tiles@.len() == row * cols,
            forall|k: int|
                0 <= k < tiles@.len() ==> #[trigger] tiles@[k].rect() == grid_tile(w, h, d, k),
        decreases rows - row,
    {
        let mut col: usize = 0;
        while col < cols
            invariant
                w == fb_width,
                h == fb_height,
                d == tile_size,
                d > 0,
                cols == tile_count_along(w, d),
                rows == tile_count_along(h, d),
                (cols - 1) * d < w <= cols * d,
                (rows - 1) * d < h <= rows * d,
                cols * rows <= usize::MAX,
                row < rows,
                col <= cols,
                tiles@.len() == row * cols + col,
                forall|k: int|
                    0 <= k < tiles@.len() ==> #[trigger] tiles@[k].rect() == grid_tile(w, h, d, k),
            decreases cols - col,
        {
            proof {
                assert(col * d < w && row * d < h && row * cols + col < cols * rows)
                    by (nonlinear_arith)
                    requires
                        col < cols,
                        row < rows,
                        d > 0,
                        (cols - 1) * d < w,
                        (rows - 1) * d < h,
                ;
                lemma_grid_index(row as int, col as int, cols as int);
            }
            let x = col * tile_size;
            let y = row * tile_size;
            let tw = if tile_size <= fb_width - x {
                tile_size
            } else {
                fb_width - x
            };
            let th = if tile_size <= fb_height - y {
                tile_size
            } else {
                fb_height - y
            };
            tiles.push(Tile::new(x, y, tw, th));
            col = col + 1;
        }
        assert(row * cols + cols == (row + 1) * cols) by (nonlinear_arith);
        row = row + 1;
    }
    assert(rows * cols == cols * rows) by (nonlinear_arith);
    tiles
}

/// The tiles of the grid cover the framebuffer exactly once: a pixel inside the framebuffer
/// lies in tile number `(py / tile_size) * columns + px / tile_size`, and in no other tile.
pub proof fn lemma_tiles_partition_framebuffer(
    fb_width: int,
    fb_height: int,
    tile_size: int,
    px: int,
    py: int,
)
    requires
        tile_size > 0,
        0 <= px < fb_width,
        0 <= py < fb_height,
    ensures
        ({
            let cols = tile_count_along(fb_width, tile_size);
            let rows = tile_count_along(fb_height, tile_size);
            let owner = (py / tile_size) * cols + px / tile_size;
            &&& 0 <= owner < cols * rows
            &&& forall|k: int|
                0 <= k < cols * rows ==> (rect_contains(
                    #[trigger] grid_tile(fb_width, fb_height, tile_size, k),
                    px,
                    py,
                ) <==> k == owner)
        }),
{
    let d = tile_size;
    let cols = tile_count_along(fb_width, d);
    let rows = tile_count_along(fb_height, d);
    lemma_tile_count_along(fb_width, d);
    lemma_tile_count_along(fb_height, d);
    let cx = px / d;
    let cy = py / d;
    lemma_fundamental_div_mod(px, d);
    lemma_mod_bound(px, d);
    lemma_fundamental_div_mod(py, d);
    lemma_mod_bound(py, d);
    assert(0 <= cx < cols && 0 <= cy < rows) by (nonlinear_arith)
        requires
            px == d * cx + px % d,
            py == d * cy + py % d,
            0 <= px % d < d,
            0 <= py % d < d,
            0 <= px < fb_width,
            0 <= py < fb_height,
            fb_width <= cols * d,
            fb_height <= rows * d,
            d > 0,
    ;
    let owner = cy * cols + cx;
    assert(0 <= owner < cols * rows) by (nonlinear_arith)
        requires
            0 <= cx < cols,
            0 <= cy < rows,
            owner == cy * cols + cx,
    ;
    assert forall|k: int| 0 <= k < cols * rows implies (rect_contains(
        #[trigger] grid_tile(fb_width, fb_height, d, k),
        px,
        py,
    ) <==> k == owner) by {
        let col = k % cols;
        let row = k / cols;
        lemma_fundamental_div_mod(k, cols);
        lemma_mod_bound(k, cols);
        assert(0 <= row) by (nonlinear_arith)
            requires
                k == cols * row + col,
                0 <= col < cols,
                k >= 0,
        ;
        lemma_in_column(px, d, col);
        lemma_in_column(py, d, row);
        let r = grid_tile(fb_width, fb_height, d, k);
        assert(r.0 == col * d && r.1 == row * d);
        // Inside the framebuffer, being cut off at the border does not matter.
        assert(rect_contains(r, px, py) <==> (col * d <= px < col * d + d && row * d <= py
            < row * d + d));
        if k == owner {
            lemma_grid_index(cy, cx, cols);
        }
        if cx == col && cy == row {
            assert(k == cols * row + col);
            assert(cols * row == row * cols) by (nonlinear_arith);
        }
    }
}

/// Every tile of the grid is non-empty and lies inside the framebuffer.
pub proof fn lemma_tiles_inside_framebuffer(
    fb_width: int,
    fb_height: int,
    tile_size: int,
    k: int,
)
    requires
        tile_size > 0,
        fb_width >= 0,
        fb_height >= 0,
        0 <= k < tile_count_along(fb_width, tile_size) * tile_count_along(fb_height, tile_size),
    ensures
        ({
            let r = grid_tile(fb_width, fb_height, tile_size, k);
            &&& 0 <= r.0
            &&& 0 <= r.1
            &&& 0 < r.2 <= tile_size
            &&& 0 < r.3 <= tile_size
            &&& r.0 + r.2 <= fb_width
            &&& r.1 + r.3 <= fb_height
        }),
{
    let d = tile_size;
    let cols = tile_count_along(fb_width, d);
    let rows = tile_count_along(fb_height, d);
    lemma_tile_count_along(fb_width, d);
    lemma_tile_count_along(fb_height, d);
    assert(cols > 0 && rows > 0) by (nonlinear_arith)
        requires
            0 <= k < cols * rows,
            cols >= 0,
            rows >= 0,
    ;
    let col = k % cols;
    let row = k / cols;
    lemma_fundamental_div_mod(k, cols);
    lemma_mod_bound(k, cols);
    assert(0 <= row < rows) by (nonlinear_arith)
        requires
            k == cols * row + col,
            0 <= col < cols,
            0 <= k < cols * rows,
    ;
    assert(col * d < fb_width && row * d < fb_height && col * d >= 0 && row * d >= 0)
        by (nonlinear_arith)
        requires
            0 <= col < cols,
            0 <= row < rows,
            d > 0,
            (cols - 1) * d < fb_width,
            (rows - 1) * d < fb_height,
    ;
}

/// Larger tiles never make more of them: for tile sizes `small <= large`, the grid of
/// `large` tiles has at most as many tiles as the grid of `small` ones.
pub proof fn lemma_grid_tile_count_antitone(fb_width: int, fb_height: int, small: int, large: int)
    requires
        fb_width >= 0,
        fb_height >= 0,
        0 < small <= large,
    ensures
        0 <= grid_tile_count(fb_width, fb_height, large) <= grid_tile_count(
            fb_width,
            fb_height,
            small,
        ),
{
    lemma_tile_count_along(fb_width, small);
    lemma_tile_count_along(fb_width, large);
    lemma_tile_count_along(fb_height, small);
    lemma_tile_count_along(fb_height, large);
    let (cs, cl) = (tile_count_along(fb_width, small), tile_count_along(fb_width, large));
    let (rs, rl) = (tile_count_along(fb_height, small), tile_count_along(fb_height, large));
    assert(cl <= cs) by (nonlinear_arith)
        requires
            (cl - 1) * large < fb_width,
            fb_width <= cs * small,
            0 < small <= large,
            cs >= 0,
    ;
    assert(rl <= rs) by (nonlinear_arith)
        requires
            (rl - 1) * large < fb_height,
            fb_height <= rs * small,
            0 < small <= large,
            rs >= 0,
    ;
    assert(0 <= cl * rl <= cs * rs) by (nonlinear_arith)
        requires
            0 <= cl <= cs,
            0 <= rl <= rs,
    ;
}

} // verus!
