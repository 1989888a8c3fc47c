use rust_renderer::clip::{clip_plan, fan_triangulate, ClipStep};
use rust_renderer::cube::{cube_edge_lines, cube_edges};
use rust_renderer::texture::{Material, Texture};
use rust_renderer::triangle::Triangle;
use std::sync::Arc;

#[test]
fn triangle_edges_close_the_loop() {
    let tri = Triangle::new((0, 0), (4, 0), (2, 3));
    let edges = tri.edges();
    assert_eq!((edges[0].v0, edges[0].v1), ((0, 0), (4, 0)));
    assert_eq!((edges[1].v0, edges[1].v1), ((4, 0), (2, 3)));
    assert_eq!((edges[2].v0, edges[2].v1), ((2, 3), (0, 0)));
    for k in 0..3 {
        assert_eq!(edges[k].v1, edges[(k + 1) % 3].v0);
    }
}

#[test]
fn fan_triangulate_pentagon() {
    let poly = vec!['a', 'b', 'c', 'd', 'e'];
    let tris = fan_triangulate(&poly);
    assert_eq!(tris, vec![['a', 'b', 'c'], ['a', 'c', 'd'], ['a', 'd', 'e']]);
}

#[test]
fn fan_triangulate_degenerate() {
    assert!(fan_triangulate(&vec![1, 2]).is_empty());
    assert!(fan_triangulate::<u8>(&vec![]).is_empty());
    assert_eq!(fan_triangulate(&vec![1, 2, 3]), vec![[1, 2, 3]]);
}

#[test]
fn texture_texel_clamps_to_edges() {
    // 2 x 2 texture, texel (x, y) holds [x, y, 10 * y + x, 255]
    let rgba = vec![0, 0, 0, 255, 1, 0, 1, 255, 0, 1, 10, 255, 1, 1, 11, 255];
    let tex = Texture::new(2, 2, rgba);
    assert_eq!(tex.texel(0, 0), [0, 0, 0, 255]);
    assert_eq!(tex.texel(1, 0), [1, 0, 1, 255]);
    assert_eq!(tex.texel(0, 1), [0, 1, 10, 255]);
    assert_eq!(tex.texel(7, 9), [1, 1, 11, 255]);
    let material = Material::Texture(Arc::new(tex));
    match material.clone() {
        Material::Texture(t) => assert_eq!((t.width, t.height), (2, 2)),
        Material::Color(_) => panic!("expected a texture"),
    }
}

#[test]
fn clip_plan_keeps_inside_and_marks_crossings() {
    let plan = clip_plan(&vec![true, false, false, true]);
    assert_eq!(
        plan,
        vec![ClipStep::Keep(0), ClipStep::Cross(0), ClipStep::Cross(2), ClipStep::Keep(3)]
    );
    assert_eq!(clip_plan(&vec![]), vec![]);
    assert_eq!(clip_plan(&vec![false, false, false]), vec![]);
    assert_eq!(
        clip_plan(&vec![true, true, true]),
        vec![ClipStep::Keep(0), ClipStep::Keep(1), ClipStep::Keep(2)]
    );
    let crossings = clip_plan(&vec![true, false, true, false, false])
        .iter()
        .filter(|s| matches!(s, ClipStep::Cross(_)))
        .count();
    assert_eq!(crossings % 2, 0);
    assert_eq!(crossings, 4);
}

#[test]
fn cube_edge_lines_join_projected_corners() {
    let projected = [(0, 0), (10, 0), (10, 10), (0, 10), (3, 3), (13, 3), (13, 13), (3, 13)];
    let lines = cube_edge_lines(&projected);
    assert_eq!(lines.len(), 12);
    let edges = cube_edges();
    for (k, (a, b)) in edges.iter().enumerate() {
        assert_eq!(lines[k].v0, projected[*a]);
        assert_eq!(lines[k].v1, projected[*b]);
    }
    assert_eq!((lines[7].v0, lines[7].v1), ((3, 13), (3, 3)));
    assert_eq!((lines[11].v0, lines[11].v1), ((0, 10), (3, 13)));
    for c in 0..8 {
        assert_eq!(edges.iter().filter(|(a, b)| *a == c || *b == c).count(), 3);
    }
}

#[test]
fn texture_texel_reads_only_its_own_bytes() {
    // The data stops right after texel (0, 0) of a 2 x 2 texture; reading it is fine.
    let tex = Texture::new(2, 2, vec![9, 8, 7, 6]);
    assert_eq!(tex.texel(0, 0), [9, 8, 7, 6]);
}
