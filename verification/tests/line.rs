use rust_renderer::line::Line;

#[test]
fn test_horizontal_line() {
    let line = Line::new((0, 0), (3, 0));
    let pixels = line.get_intermediary_pixels();
    let expected = vec![(0, 0), (1, 0), (2, 0), (3, 0)];
    assert_eq!(pixels, expected);
}

#[test]
fn test_vertical_line() {
    let line = Line::new((2, 1), (2, 4));
    let pixels = line.get_intermediary_pixels();
    let expected = vec![(2, 1), (2, 2), (2, 3), (2, 4)];
    assert_eq!(pixels, expected);
}

#[test]
fn test_diagonal_line() {
    let line = Line::new((0, 0), (3, 3));
    let pixels = line.get_intermediary_pixels();
    let expected = vec![(0, 0), (1, 1), (2, 2), (3, 3)];
    assert_eq!(pixels, expected);
}

#[test]
fn test_reverse_diagonal_line() {
    let line = Line::new((3, 3), (0, 0));
    let pixels = line.get_intermediary_pixels();
    let expected = vec![(3, 3), (2, 2), (1, 1), (0, 0)];
    assert_eq!(pixels, expected);
}

#[test]
fn test_steep_line() {
    let line = Line::new((0, 0), (2, 5));
    let pixels = line.get_intermediary_pixels();
    let expected = vec![(0, 0), (0, 1), (1, 2), (1, 3), (2, 4), (2, 5)];
    assert_eq!(pixels, expected);
}

#[test]
fn single_point_line_is_one_pixel() {
    let line = Line::new((7, 9), (7, 9));
    assert_eq!(line.get_intermediary_pixels(), vec![(7, 9)]);
}

#[test]
fn shallow_line_rounds_towards_the_start() {
    // x-major: the minor coordinate moves at the half-way point, ties staying back.
    let line = Line::new((0, 0), (4, 1));
    assert_eq!(
        line.get_intermediary_pixels(),
        vec![(0, 0), (1, 0), (2, 0), (3, 1), (4, 1)]
    );
    let line = Line::new((0, 0), (2, 1));
    assert_eq!(line.get_intermediary_pixels(), vec![(0, 0), (1, 0), (2, 1)]);
}

#[test]
fn line_going_up_and_left() {
    let line = Line::new((5, 4), (0, 2));
    assert_eq!(
        line.get_intermediary_pixels(),
        vec![(5, 4), (4, 4), (3, 3), (2, 3), (1, 2), (0, 2)]
    );
}

#[test]
fn line_endpoints_length_and_adjacency() {
    let cases = [((0, 0), (10, 3)), ((10, 3), (0, 0)), ((4, 20), (9, 1)), ((3, 3), (3, 12))];
    for (a, b) in cases {
        let pixels = Line::new(a, b).get_intermediary_pixels();
        let dx = (a.0 as isize - b.0 as isize).unsigned_abs();
        let dy = (a.1 as isize - b.1 as isize).unsigned_abs();
        assert_eq!(pixels.len(), dx.max(dy) + 1);
        assert_eq!(pixels[0], a);
        assert_eq!(*pixels.last().unwrap(), b);
        for w in pixels.windows(2) {
            let sx = (w[0].0 as isize - w[1].0 as isize).abs();
            let sy = (w[0].1 as isize - w[1].1 as isize).abs();
            assert!(sx <= 1 && sy <= 1);
            assert!(sx + sy >= 1);
        }
        for p in &pixels {
            assert!(p.0 >= a.0.min(b.0) && p.0 <= a.0.max(b.0));
            assert!(p.1 >= a.1.min(b.1) && p.1 <= a.1.max(b.1));
        }
    }
}
