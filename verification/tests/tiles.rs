use rust_renderer::binning::{bin_triangles, PixelBounds};
use rust_renderer::tile::{make_tiles, Tile};

#[test]
fn tile_new_keeps_fields() {
    let t = Tile::new(1, 2, 3, 4);
    assert_eq!((t.x, t.y, t.width, t.height), (1, 2, 3, 4));
}

#[test]
fn make_tiles_even_division() {
    let tiles = make_tiles(64, 32, 32);
    assert_eq!(tiles.len(), 2);
    assert_eq!((tiles[0].x, tiles[0].y, tiles[0].width, tiles[0].height), (0, 0, 32, 32));
    assert_eq!((tiles[1].x, tiles[1].y, tiles[1].width, tiles[1].height), (32, 0, 32, 32));
}

#[test]
fn make_tiles_edge_tiles_are_smaller() {
    let tiles = make_tiles(100, 50, 32);
    // 4 columns, 2 rows
    assert_eq!(tiles.len(), 8);
    let last_in_row = &tiles[3];
    assert_eq!((last_in_row.x, last_in_row.y, last_in_row.width, last_in_row.height), (96, 0, 4, 32));
    let bottom = &tiles[4];
    assert_eq!((bottom.x, bottom.y, bottom.width, bottom.height), (0, 32, 32, 18));
    let corner = &tiles[7];
    assert_eq!((corner.x, corner.y, corner.width, corner.height), (96, 32, 4, 18));
}

#[test]
fn make_tiles_empty_framebuffer() {
    assert_eq!(make_tiles(0, 10, 8).len(), 0);
    assert_eq!(make_tiles(10, 0, 8).len(), 0);
}

#[test]
fn make_tiles_cover_every_pixel_once() {
    let (w, h, ts) = (37usize, 23usize, 8usize);
    let tiles = make_tiles(w, h, ts);
    let cols = w.div_ceil(ts);
    for py in 0..h {
        for px in 0..w {
            let owners: Vec<usize> = tiles
                .iter()
                .enumerate()
                .filter(|(_, t)| t.x <= px && px < t.x + t.width && t.y <= py && py < t.y + t.height)
                .map(|(k, _)| k)
                .collect();
            assert_eq!(owners, vec![(py / ts) * cols + px / ts]);
        }
    }
    for t in &tiles {
        assert!(t.width > 0 && t.height > 0);
        assert!(t.x + t.width <= w && t.y + t.height <= h);
    }
}

#[test]
fn bin_triangles_assigns_overlapping_tiles() {
    // 3 x 2 grid of 10-pixel tiles over a 30 x 20 framebuffer.
    let tiles = make_tiles(30, 20, 10);
    let bounds = vec![
        PixelBounds::new(0, 5, 0, 5),    // only tile 0
        PixelBounds::new(5, 15, 5, 15),  // tiles 0, 1, 3, 4
        PixelBounds::new(25, 80, 12, 90), // clamped to tile 5
    ];
    let bins = bin_triangles(&bounds, &tiles, 30, 10);
    assert_eq!(bins.len(), 6);
    assert_eq!(bins[0], vec![0, 1]);
    assert_eq!(bins[1], vec![1]);
    assert_eq!(bins[2], Vec::<usize>::new());
    assert_eq!(bins[3], vec![1]);
    assert_eq!(bins[4], vec![1]);
    assert_eq!(bins[5], vec![2]);
}

#[test]
fn bin_triangles_inverted_bounds_land_nowhere() {
    let tiles = make_tiles(20, 20, 10);
    let bounds = vec![PixelBounds::new(15, 2, 0, 0)];
    let bins = bin_triangles(&bounds, &tiles, 20, 10);
    assert!(bins.iter().all(|b| b.is_empty()));
}
