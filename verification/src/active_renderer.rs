use vstd::prelude::*;

use crate::raster_renderer::{
    MultiThreadRasterRenderer, SingleThreadRasterRenderer, tile_size_for_fewer_tiles,
    tile_size_for_more_tiles,
};
use crate::renderer_choice::RendererChoice;

verus! {

/// The active renderer: one of the two tile rasterizers, or a GPU backend (`G` for the wgpu
/// renderer, `V` for the Vulkan one) whose state lives outside this library.
pub enum ActiveRenderer<G, V> {
    SingleThreadRaster(SingleThreadRasterRenderer),
    MultiThreadRaster(MultiThreadRasterRenderer),
    Gpu(G),
    Vulkan(V),
}

/// Which backend an active renderer is.
pub open spec fn active_choice<G, V>(r: ActiveRenderer<G, V>) -> RendererChoice {
    match r {
        ActiveRenderer::SingleThreadRaster(_) => RendererChoice::SingleThreadRaster,
        ActiveRenderer::MultiThreadRaster(_) => RendererChoice::MultiThreadRaster,
        ActiveRenderer::Gpu(_) => RendererChoice::Gpu,
        ActiveRenderer::Vulkan(_) => RendererChoice::Vulkan,
    }
}

impl<G, V> ActiveRenderer<G, V> {
    pub fn as_choice(&self) -> (c: RendererChoice)
        ensures
            c == active_choice(*self),
    {
        match self {
            ActiveRenderer::SingleThreadRaster(_) => RendererChoice::SingleThreadRaster,
            ActiveRenderer::MultiThreadRaster(_) => RendererChoice::MultiThreadRaster,
            ActiveRenderer::Gpu(_) => RendererChoice::Gpu,
            ActiveRenderer::Vulkan(_) => RendererChoice::Vulkan,
        }
    }

    /// Raises the tile count of a CPU renderer; the GPU backends are left unchanged.
    pub fn increase_tile_count(&mut self, delta: usize)
        ensures
            match *old(self) {
                ActiveRenderer::SingleThreadRaster(r) => match *final(self) {
                    ActiveRenderer::SingleThreadRaster(r2) => r2@ == (
                        tile_size_for_more_tiles(r@.0, delta as nat),
                        r@.1,
                    ),
                    _ => false,
                },
                ActiveRenderer::MultiThreadRaster(r) => match *final(self) {
                    ActiveRenderer::MultiThreadRaster(r2) => r2@ == tile_size_for_more_tiles(
                        r@,
                        delta as nat,
                    ),
                    _ => false,
                },
                _ => *final(self) == *old(self),
            },
    {
        match self {
            ActiveRenderer::SingleThreadRaster(r) => r.increase_tile_count(delta),
            ActiveRenderer::MultiThreadRaster(r) => r.increase_tile_count(delta),
            ActiveRenderer::Gpu(_) => {},
            ActiveRenderer::Vulkan(_) => {},
        }
    }

    /// Lowers the tile count of a CPU renderer; the GPU backends are left unchanged.
    pub fn decrease_tile_count(&mut self, delta: usize)
        ensures
            match *old(self) {
                ActiveRenderer::SingleThreadRaster(r) => match *final(self) {
                    ActiveRenderer::SingleThreadRaster(r2) => r2@ == (
                        tile_size_for_fewer_tiles(r@.0, delta as nat),
                        r@.1,
                    ),
                    _ => false,
                },
                ActiveRenderer::MultiThreadRaster(r) => match *final(self) {
                    ActiveRenderer::MultiThreadRaster(r2) => r2@ == tile_size_for_fewer_tiles(
                        r@,
                        delta as nat,
                    ),
                    _ => false,
                },
                _ => *final(self) == *old(self),
            },
    {
        match self {
            ActiveRenderer::SingleThreadRaster(r) => r.decrease_tile_count(delta),
            ActiveRenderer::MultiThreadRaster(r) => r.decrease_tile_count(delta),
            ActiveRenderer::Gpu(_) => {},
            ActiveRenderer::Vulkan(_) => {},
        }
    }
}

} // verus!
