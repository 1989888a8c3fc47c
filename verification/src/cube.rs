use vstd::prelude::*;

use crate::line::Line;

verus! {

/// The corners of a cube, as `(x > 0, y > 0, z > 0)`, in the order the cube stores them:
/// the four corners of the back face going round, then those of the front face.
pub open spec fn cube_corner(i: int) -> (bool, bool, bool) {
    if i == 0 {
        (false, false, false)
    } else if i == 1 {
        (true, false, false)
    } else if i == 2 {
        (true, true, false)
    } else if i == 3 {
        (false, true, false)
    } else if i == 4 {
        (false, false, true)
    } else if i == 5 {
        (true, false, true)
    } else if i == 6 {
        (true, true, true)
    } else {
        (false, true, true)
    }
}

/// Edge `k` of the cube's wireframe, as a pair of corner numbers: the back face, the front
/// face, then the four edges joining them.
pub open spec fn cube_edge(k: int) -> (usize, usize) {
    if k < 4 {
        (k as usize, ((k + 1) % 4) as usize)
    } else if k < 8 {
        (k as usize, (4 + (k - 3) % 4) as usize)
    } else {
        ((k - 8) as usize, (k - 4) as usize)
    }
}

/// Number of edges of a cube.
pub const CUBE_EDGE_COUNT: usize = 12;

/// The edges of the cube's wireframe.
pub fn cube_edges() -> (edges: [(usize, usize); 12])
    ensures
        forall|k: int| 0 <= k < 12 ==> #[trigger] edges@[k] == cube_edge(k),
{
    [
        (0, 1),
        (1, 2),
        (2, 3),
        (3, 0),
        (4, 5),
        (5, 6),
        (6, 7),
        (7, 4),
        (0, 4),
        (1, 5),
        (2, 6),
        (3, 7),
    ]
}

/// The lines that draw the cube's wireframe, given where each corner lands on screen.
pub fn cube_edge_lines(projected: &[(usize, usize); 8]) -> (lines: Vec<Line>)
    ensures
        lines@.len() == 12,
        forall|k: int|
            0 <= k < 12 ==> (#[trigger] lines@[k]).v0 == projected@[cube_edge(k).0 as int]
                && lines@[k].v1 == projected@[cube_edge(k).1 as int],
{
    let edges = cube_edges();
    let mut lines: Vec<Line> = Vec::new();
    let mut k: usize = 0;
    while k < CUBE_EDGE_COUNT
        invariant
            k <= 12,
            forall|j: int| 0 <= j < 12 ==> #[trigger] edges@[j] == cube_edge(j),
            lines@.len() == k,
            forall|j: int|
                0 <= j < k ==> (#[trigger] lines@[j]).v0 == projected@[cube_edge(j).0 as int]
                    && lines@[j].v1 == projected@[cube_edge(j).1 as int],
        decreases 12 - k,
    {
        let (start, end) = edges[k];
        assert(start < 8 && end < 8);
        lines.push(Line::new(projected[start], projected[end]));
        k = k + 1;
    }
    lines
}

/// Whether two corners differ along exactly one axis, i.e. are joined by a cube edge.
pub open spec fn corners_adjacent(a: (bool, bool, bool), b: (bool, bool, bool)) -> bool {
    (if a.0 != b.0 { 1int } else { 0 }) + (if a.1 != b.1 { 1int } else { 0 }) + (if a.2 != b.2 {
        1int
    } else {
        0
    }) == 1
}

/// Number of the first `upto` edges that have corner `c` as an end.
pub open spec fn edges_at_corner(c: int, upto: int) -> int
    decreases upto,
{
    if upto <= 0 {
        0
    } else {
        edges_at_corner(c, upto - 1) + if cube_edge(upto - 1).0 == c || cube_edge(upto - 1).1
            == c {
            1int
        } else {
            0
        }
    }
}

/// The wireframe draws every edge of the cube exactly once: each of its twelve edges joins
/// two corners that differ along one axis, no two of them join the same pair of corners, and
/// every corner meets exactly three of them.
pub proof fn lemma_cube_edges_are_the_cube(k: int, j: int, c: int)
    requires
        0 <= k < 12,
        0 <= j < 12,
        0 <= c < 8,
    ensures
        cube_edge(k).0 < 8 && cube_edge(k).1 < 8,
        corners_adjacent(cube_corner(cube_edge(k).0 as int), cube_corner(cube_edge(k).1 as int)),
        k != j ==> !(cube_edge(k) == cube_edge(j) || (cube_edge(k).0 == cube_edge(j).1
            && cube_edge(k).1 == cube_edge(j).0)),
        edges_at_corner(c, 12) == 3,
{
    reveal_with_fuel(edges_at_corner, 13);
}

} // verus!
