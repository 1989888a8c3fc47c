use vstd::prelude::*;

use crate::line::Line;

verus! {

/// A triangle in screen space, with pixel positions as corners.
pub struct Triangle {
    pub v0: (usize, usize),
    pub v1: (usize, usize),
    pub v2: (usize, usize),
}

impl Triangle {
    pub fn new(v0: (usize, usize), v1: (usize, usize), v2: (usize, usize)) -> (tri: Self)
        ensures
            tri.v0 == v0,
            tri.v1 == v1,
            tri.v2 == v2,
    {
        Self { v0, v1, v2 }
    }

    /// The corners in order.
    pub open spec fn corners(self) -> Seq<(usize, usize)> {
        seq![self.v0, self.v1, self.v2]
    }

    // Returns all edges as Lines
    pub fn edges(&self) -> (edges: [Line; 3])
        ensures
            edges@[0].v0 == self.v0 && edges@[0].v1 == self.v1,
            edges@[1].v0 == self.v1 && edges@[1].v1 == self.v2,
            edges@[2].v0 == self.v2 && edges@[2].v1 == self.v0,
    {
        [Line::new(self.v0, self.v1), Line::new(self.v1, self.v2), Line::new(self.v2, self.v0)]
    }
}

/// The edges of a triangle form a closed loop through its corners: edge `k` runs from
/// corner `k` to corner `k + 1`, and each edge ends where the next one starts.
pub proof fn lemma_edges_close_the_loop(tri: Triangle, edges: [Line; 3])
    requires
        edges@[0].v0 == tri.v0 && edges@[0].v1 == tri.v1,
        edges@[1].v0 == tri.v1 && edges@[1].v1 == tri.v2,
        edges@[2].v0 == tri.v2 && edges@[2].v1 == tri.v0,
    ensures
        forall|k: int|
            0 <= k < 3 ==> {
                &&& (#[trigger] edges@[k]).v0 == tri.corners()[k]
                &&& edges@[k].v1 == tri.corners()[(k + 1) % 3]
                &&& edges@[k].v1 == edges@[(k + 1) % 3].v0
            },
{
    assert forall|k: int| 0 <= k < 3 implies {
        &&& (#[trigger] edges@[k]).v0 == tri.corners()[k]
        &&& edges@[k].v1 == tri.corners()[(k + 1) % 3]
        &&& edges@[k].v1 == edges@[(k + 1) % 3].v0
    } by {
        if k == 0 {
        } else if k == 1 {
        } else {
            assert((k + 1) % 3 == 0);
        }
    }
}

} // verus!
