use vstd::prelude::*;

use crate::tile::{grid_tile_count, lemma_grid_tile_count_antitone};

verus! {

// Smaller than the multi-threaded renderer's map for faster single-core debug builds.
pub const SHADOW_MAP_SIZE: usize = 128;

/// Tile size after asking for more tiles: the tiles shrink by `delta` pixels, unless that
/// would leave them smaller than one pixel, in which case they stay as they are.
pub open spec fn tile_size_for_more_tiles(tile_size: nat, delta: nat) -> nat {
    if delta < tile_size {
        (tile_size - delta) as nat
    } else {
        tile_size
    }
}

/// Tile size after asking for fewer tiles: the tiles grow by `delta` pixels, up to the
/// largest size a `usize` holds.
pub open spec fn tile_size_for_fewer_tiles(tile_size: nat, delta: nat) -> nat {
    if tile_size + delta <= usize::MAX {
        tile_size + delta
    } else {
        usize::MAX as nat
    }
}

/// Shrinks the tile size so that the grid has more tiles.
fn shrink_tile_size(tile_size: usize, delta: usize) -> (r: usize)
    ensures
        r == tile_size_for_more_tiles(tile_size as nat, delta as nat),
        tile_size >= 1 ==> forall|w: nat, h: nat|
            #[trigger] grid_tile_count(w as int, h as int, r as int) >= grid_tile_count(
                w as int,
                h as int,
                tile_size as int,
            ),
{
    let r = if delta < tile_size {
        tile_size - delta
    } else {
        tile_size
    };
    proof {
        if tile_size >= 1 {
            assert forall|w: nat, h: nat|
                #[trigger] grid_tile_count(w as int, h as int, r as int) >= grid_tile_count(
                    w as int,
                    h as int,
                    tile_size as int,
                ) by {
                lemma_grid_tile_count_antitone(w as int, h as int, r as int, tile_size as int);
            }
        }
    }
    r
}

/// Grows the tile size so that the grid has fewer tiles.
fn grow_tile_size(tile_size: usize, delta: usize) -> (r: usize)
    ensures
        r == tile_size_for_fewer_tiles(tile_size as nat, delta as nat),
        tile_size >= 1 ==> forall|w: nat, h: nat|
            #[trigger] grid_tile_count(w as int, h as int, r as int) <= grid_tile_count(
                w as int,
                h as int,
                tile_size as int,
            ),
{
    let r = if tile_size <= usize::MAX - delta {
        tile_size + delta
    } else {
        usize::MAX
    };
    proof {
        if tile_size >= 1 {
            assert forall|w: nat, h: nat|
                #[trigger] grid_tile_count(w as int, h as int, r as int) <= grid_tile_count(
                    w as int,
                    h as int,
                    tile_size as int,
                ) by {
                lemma_grid_tile_count_antitone(w as int, h as int, tile_size as int, r as int);
            }
        }
    }
    r
}

/// Settings of the single-threaded tile rasterizer.
pub struct SingleThreadRasterRenderer {
    tile_size: usize,
    shadow_map_size: usize,
}

impl View for SingleThreadRasterRenderer {
    /// `(tile_size, shadow_map_size)`
    type V = (nat, nat);

    closed spec fn view(&self) -> (nat, nat) {
        (self.tile_size as nat, self.shadow_map_size as nat)
    }
}

impl SingleThreadRasterRenderer {
    pub fn new(tile_size: usize) -> (r: Self)
        ensures
            r@ == (tile_size as nat, SHADOW_MAP_SIZE as nat),
    {
        Self { tile_size, shadow_map_size: SHADOW_MAP_SIZE }
    }

    pub fn with_shadow_map_size(self, size: usize) -> (r: Self)
        ensures
            r@ == (self@.0, size as nat),
    {
        let mut r = self;
        r.shadow_map_size = size;
        r
    }

    /// Raises the number of tiles the framebuffer is split into, by shrinking the tiles.
    pub fn increase_tile_count(&mut self, delta: usize)
        ensures
            final(self)@ == (tile_size_for_more_tiles(old(self)@.0, delta as nat), old(self)@.1),
            old(self)@.0 >= 1 ==> forall|w: nat, h: nat|
                #[trigger] grid_tile_count(w as int, h as int, final(self)@.0 as int)
                    >= grid_tile_count(w as int, h as int, old(self)@.0 as int),
    {
        self.tile_size = shrink_tile_size(self.tile_size, delta);
    }

    /// Lowers the number of tiles the framebuffer is split into, by growing the tiles.
    pub fn decrease_tile_count(&mut self, delta: usize)
        ensures
            final(self)@ == (tile_size_for_fewer_tiles(old(self)@.0, delta as nat), old(self)@.1),
            old(self)@.0 >= 1 ==> forall|w: nat, h: nat|
                #[trigger] grid_tile_count(w as int, h as int, final(self)@.0 as int)
                    <= grid_tile_count(w as int, h as int, old(self)@.0 as int),
    {
        self.tile_size = grow_tile_size(self.tile_size, delta);
    }

    pub fn tile_size(&self) -> (r: usize)
        ensures
            r == self@.0,
    {
        self.tile_size
    }

    pub fn shadow_map_size(&self) -> (r: usize)
        ensures
            r == self@.1,
    {
        self.shadow_map_size
    }
}

/// Settings of the multi-threaded tile rasterizer.
pub struct MultiThreadRasterRenderer {
    tile_size: usize,
}

impl View for MultiThreadRasterRenderer {
    /// The tile size.
    type V = nat;

    closed spec fn view(&self) -> nat {
        self.tile_size as nat
    }
}

impl MultiThreadRasterRenderer {
    pub fn new(tile_size: usize) -> (r: Self)
        ensures
            r@ == tile_size as nat,
    {
        Self { tile_size }
    }

    /// Raises the number of tiles the framebuffer is split into, by shrinking the tiles.
    pub fn increase_tile_count(&mut self, delta: usize)
        ensures
            final(self)@ == tile_size_for_more_tiles(old(self)@, delta as nat),
            old(self)@ >= 1 ==> forall|w: nat, h: nat|
                #[trigger] grid_tile_count(w as int, h as int, final(self)@ as int)
                    >= grid_tile_count(w as int, h as int, old(self)@ as int),
    {
        self.tile_size = shrink_tile_size(self.tile_size, delta);
    }

    /// Lowers the number of tiles the framebuffer is split into, by growing the tiles.
    pub fn decrease_tile_count(&mut self, delta: usize)
        ensures
            final(self)@ == tile_size_for_fewer_tiles(old(self)@, delta as nat),
            old(self)@ >= 1 ==> forall|w: nat, h: nat|
                #[trigger] grid_tile_count(w as int, h as int, final(self)@ as int)
                    <= grid_tile_count(w as int, h as int, old(self)@ as int),
    {
        self.tile_size = grow_tile_size(self.tile_size, delta);
    }

    pub fn tile_size(&self) -> (r: usize)
        ensures
            r == self@,
    {
        self.tile_size
    }
}

/// Asking for more tiles never takes a positive tile size below one pixel, asking for fewer
/// keeps it positive, and asking for fewer then more by the same amount gives back the tile
/// size from before (when the larger size fits in a `usize`).
pub proof fn lemma_tile_size_changes(tile_size: nat, delta: nat)
    ensures
        tile_size >= 1 ==> tile_size_for_more_tiles(tile_size, delta) >= 1,
        tile_size >= 1 ==> tile_size_for_fewer_tiles(tile_size, delta) >= 1,
        tile_size >= 1 && tile_size + delta <= usize::MAX ==> tile_size_for_more_tiles(
            tile_size_for_fewer_tiles(tile_size, delta),
            delta,
        ) == tile_size,
{
}

/// Both controls move the tile size by exactly `delta` pixels: asking for fewer tiles makes
/// them `delta` pixels larger (stopping only at the largest `usize`), and asking for more
/// makes them `delta` pixels smaller whenever they stay at least one pixel, and otherwise
/// leaves them alone.
pub proof fn lemma_tile_controls_move_by_delta(tile_size: nat, delta: nat)
    requires
        tile_size <= usize::MAX,
    ensures
        tile_size + delta <= usize::MAX ==> tile_size_for_fewer_tiles(tile_size, delta)
            - tile_size == delta,
        tile_size + delta > usize::MAX ==> tile_size_for_fewer_tiles(tile_size, delta)
            == usize::MAX,
        tile_size_for_fewer_tiles(tile_size, delta) >= tile_size,
        delta < tile_size ==> tile_size - tile_size_for_more_tiles(tile_size, delta) == delta,
        delta >= tile_size ==> tile_size_for_more_tiles(tile_size, delta) == tile_size,
{
}

} // verus!
