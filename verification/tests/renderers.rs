use rust_renderer::raster_renderer::{
    MultiThreadRasterRenderer, SingleThreadRasterRenderer, SHADOW_MAP_SIZE,
};
use rust_renderer::active_renderer::ActiveRenderer;
use rust_renderer::renderer_choice::RendererChoice;
use rust_renderer::tile::make_tiles;
use rust_renderer::scene_objects::SceneObjects;

#[test]
fn single_thread_renderer_settings() {
    let r = SingleThreadRasterRenderer::new(32);
    assert_eq!(r.tile_size(), 32);
    assert_eq!(r.shadow_map_size(), SHADOW_MAP_SIZE);
    assert_eq!(r.shadow_map_size(), 128);
    let r = r.with_shadow_map_size(512);
    assert_eq!(r.shadow_map_size(), 512);
    assert_eq!(r.tile_size(), 32);
}

#[test]
fn tile_count_controls_change_the_number_of_tiles() {
    let mut r = SingleThreadRasterRenderer::new(32);
    let before = make_tiles(800, 600, r.tile_size()).len();
    r.increase_tile_count(8);
    assert_eq!(r.tile_size(), 24);
    assert!(make_tiles(800, 600, r.tile_size()).len() > before);
    r.decrease_tile_count(8);
    assert_eq!(r.tile_size(), 32);
    assert_eq!(make_tiles(800, 600, r.tile_size()).len(), before);
    assert_eq!(r.shadow_map_size(), 128);

    // 2 x 2 framebuffer: more tiles means 1 -> 4, fewer means 4 -> 1.
    let mut m = MultiThreadRasterRenderer::new(2);
    assert_eq!(make_tiles(2, 2, m.tile_size()).len(), 1);
    m.increase_tile_count(1);
    assert_eq!(m.tile_size(), 1);
    assert_eq!(make_tiles(2, 2, m.tile_size()).len(), 4);
    m.decrease_tile_count(1);
    assert_eq!(m.tile_size(), 2);
    assert_eq!(make_tiles(2, 2, m.tile_size()).len(), 1);
}

#[test]
fn tile_size_never_drops_below_one_or_overflows() {
    let mut r = SingleThreadRasterRenderer::new(4);
    r.increase_tile_count(4);
    assert_eq!(r.tile_size(), 4);
    r.increase_tile_count(3);
    assert_eq!(r.tile_size(), 1);
    r.increase_tile_count(1);
    assert_eq!(r.tile_size(), 1);
    let mut m = MultiThreadRasterRenderer::new(usize::MAX - 1);
    m.decrease_tile_count(5);
    assert_eq!(m.tile_size(), usize::MAX);
}

#[test]
fn active_renderer_dispatches_tile_controls_to_cpu_renderers_only() {
    let mut a: ActiveRenderer<&str, u8> =
        ActiveRenderer::SingleThreadRaster(SingleThreadRasterRenderer::new(32));
    a.increase_tile_count(16);
    match &a {
        ActiveRenderer::SingleThreadRaster(r) => assert_eq!(r.tile_size(), 16),
        _ => panic!("variant changed"),
    }
    assert_eq!(a.as_choice(), RendererChoice::SingleThreadRaster);
    let mut b: ActiveRenderer<&str, u8> =
        ActiveRenderer::MultiThreadRaster(MultiThreadRasterRenderer::new(32));
    b.decrease_tile_count(16);
    match &b {
        ActiveRenderer::MultiThreadRaster(r) => assert_eq!(r.tile_size(), 48),
        _ => panic!("variant changed"),
    }
    let mut g: ActiveRenderer<&str, u8> = ActiveRenderer::Gpu("wgpu");
    g.increase_tile_count(3);
    g.decrease_tile_count(3);
    assert!(matches!(g, ActiveRenderer::Gpu("wgpu")));
    assert_eq!(g.as_choice(), RendererChoice::Gpu);
    let v: ActiveRenderer<&str, u8> = ActiveRenderer::Vulkan(7);
    assert_eq!(v.as_choice(), RendererChoice::Vulkan);
}

#[test]
fn renderer_choice_cycles_through_all() {
    let start = RendererChoice::SingleThreadRaster;
    assert_eq!(start.next(), RendererChoice::MultiThreadRaster);
    assert_eq!(start.next().next(), RendererChoice::Gpu);
    assert_eq!(start.next().next().next(), RendererChoice::Vulkan);
    assert_eq!(start.next().next().next().next(), start);
    for c in RendererChoice::all() {
        let mut x = c;
        for _ in 0..4 {
            x = x.next();
        }
        assert_eq!(x, c);
    }
}

#[test]
fn scene_objects_keep_insertion_order() {
    let mut scene = SceneObjects::new();
    assert!(scene.objects.is_empty());
    scene.add_object("cube");
    scene.add_object("sphere");
    assert_eq!(scene.objects, vec!["cube", "sphere"]);
}
