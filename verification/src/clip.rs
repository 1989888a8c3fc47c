use vstd::prelude::*;

verus! {

/// One output vertex of clipping a polygon against a plane.
#[derive(Clone, Copy, Debug, PartialEq, Eq, Structural)]
pub enum ClipStep {
    /// Vertex `i` lies inside and is kept.
    Keep(usize),
    /// The edge from vertex `i` to the next vertex crosses the plane; the point where it
    /// crosses is emitted.
    Cross(usize),
}

/// Whether the edge from vertex `i` to the next one (wrapping around) crosses the plane.
pub open spec fn edge_crosses(inside: Seq<bool>, i: int) -> bool {
    inside[i] != inside[(i + 1) % inside.len() as int]
}

/// The output vertices contributed by vertex `i`: itself when inside, then the crossing
/// point of its outgoing edge when that edge crosses the plane.
pub open spec fn clip_steps_at(inside: Seq<bool>, i: int) -> Seq<ClipStep> {
    (if inside[i] {
        seq![ClipStep::Keep(i as usize)]
    } else {
        Seq::empty()
    }) + (if edge_crosses(inside, i) {
        seq![ClipStep::Cross(i as usize)]
    } else {
        Seq::empty()
    })
}

/// The output vertices contributed by the first `upto` vertices, in order.
pub open spec fn clip_plan_upto(inside: Seq<bool>, upto: int) -> Seq<ClipStep>
    decreases upto,
{
    if upto <= 0 {
        Seq::empty()
    } else {
        clip_plan_upto(inside, upto - 1) + clip_steps_at(inside, upto - 1)
    }
}

/// Number of edges among the first `upto` that cross the plane.
pub open spec fn crossing_count(inside: Seq<bool>, upto: int) -> int
    decreases upto,
{
    if upto <= 0 {
        0
    } else {
        crossing_count(inside, upto - 1) + if edge_crosses(inside, upto - 1) {
            1int
        } else {
            0
        }
    }
}

/// Sutherland-Hodgman clipping of a convex polygon against one plane, given for each vertex
/// whether it lies inside: walks the vertices in order, keeping each inside vertex and
/// emitting a crossing point for each edge whose ends lie on different sides.
pub fn clip_plan(inside: &Vec<bool>) -> (plan: Vec<ClipStep>)
    ensures
        plan@ == clip_plan_upto(inside@, inside@.len() as int),
{
    let mut plan: Vec<ClipStep> = Vec::new();
    let n = inside.len();
    let mut i: usize = 0;
    while i < n
        invariant
            n == inside@.len(),
            i <= n,
            plan@ == clip_plan_upto(inside@, i as int),
        decreases n - i,
    {
        let cur = inside[i];
        let next = inside[(i + 1) % n];
        if cur {
            plan.push(ClipStep::Keep(i));
        }
        if cur != next {
            plan.push(ClipStep::Cross(i));
        }
        proof {
            assert(plan@ =~= clip_plan_upto(inside@, i as int) + clip_steps_at(inside@, i as int));
        }
        i = i + 1;
    }
    plan
}

/// Walking from vertex 0 to vertex `k`, the side changes an odd number of times exactly
/// when vertex `k` lies on the other side from vertex 0.
proof fn lemma_crossing_parity(inside: Seq<bool>, k: int)
    requires
        0 <= k < inside.len(),
    ensures
        (crossing_count(inside, k) % 2 == 1) <==> (inside[0] != inside[k]),
        crossing_count(inside, k) >= 0,
    decreases k,
{
    if k > 0 {
        lemma_crossing_parity(inside, k - 1);
        assert((k - 1 + 1) % inside.len() as int == k) by {
            vstd::arithmetic::div_mod::lemma_small_mod(k as nat, inside.len());
        }
    }
}

/// A closed polygon crosses any plane an even number of times, and its clipped outline keeps
/// exactly the inside vertices and one crossing point per crossing edge.
pub proof fn lemma_clip_plan_shape(inside: Seq<bool>)
    requires
        inside.len() <= usize::MAX,
    ensures
        crossing_count(inside, inside.len() as int) % 2 == 0,
        forall|i: int|
            0 <= i < inside.len() ==> (clip_plan_upto(inside, inside.len() as int).contains(
                ClipStep::Keep(i as usize),
            ) <==> #[trigger] inside[i]),
        forall|i: int|
            0 <= i < inside.len() ==> (clip_plan_upto(inside, inside.len() as int).contains(
                ClipStep::Cross(i as usize),
            ) <==> #[trigger] edge_crosses(inside, i)),
{
    let n = inside.len() as int;
    if n > 0 {
        lemma_crossing_parity(inside, n - 1);
        assert(n % n == 0) by {
            vstd::arithmetic::div_mod::lemma_mod_self_0(n);
        }
    }
    lemma_clip_plan_members(inside, n);
}

/// Membership in the first `upto` vertices' output.
proof fn lemma_clip_plan_members(inside: Seq<bool>, upto: int)
    requires
        0 <= upto <= inside.len(),
        inside.len() <= usize::MAX,
    ensures
        forall|i: int|
            0 <= i < upto ==> (clip_plan_upto(inside, upto).contains(ClipStep::Keep(i as usize))
                <==> #[trigger] inside[i]),
        forall|i: int|
            0 <= i < upto ==> (clip_plan_upto(inside, upto).contains(ClipStep::Cross(i as usize))
                <==> #[trigger] edge_crosses(inside, i)),
        forall|a: int|
            0 <= a < clip_plan_upto(inside, upto).len() ==> match #[trigger] clip_plan_upto(
                inside,
                upto,
            )[a] {
                ClipStep::Keep(j) => j < upto,
                ClipStep::Cross(j) => j < upto,
            },
    decreases upto,
{
    if upto > 0 {
        lemma_clip_plan_members(inside, upto - 1);
        let prev = clip_plan_upto(inside, upto - 1);
        let here = clip_steps_at(inside, upto - 1);
        let all = clip_plan_upto(inside, upto);
        assert(all == prev + here);
        assert forall|a: int| 0 <= a < all.len() implies match #[trigger] all[a] {
            ClipStep::Keep(j) => j < upto,
            ClipStep::Cross(j) => j < upto,
        } by {
            if a < prev.len() {
                assert(all[a] == prev[a]);
            } else {
                assert(all[a] == here[a - prev.len()]);
            }
        }
        assert forall|i: int| 0 <= i < upto implies (all.contains(ClipStep::Keep(i as usize))
            <==> #[trigger] inside[i]) by {
            if all.contains(ClipStep::Keep(i as usize)) {
                let a = choose|a: int| 0 <= a < all.len() && all[a] == ClipStep::Keep(i as usize);
                if a < prev.len() {
                    assert(all[a] == prev[a]);
                    assert(prev.contains(ClipStep::Keep(i as usize)));
                } else {
                    assert(all[a] == here[a - prev.len()]);
                }
            }
            if inside[i] {
                if i < upto - 1 {
                    let a = choose|a: int|
                        0 <= a < prev.len() && prev[a] == ClipStep::Keep(i as usize);
                    assert(all[a] == prev[a]);
                } else {
                    assert(all[prev.len() as int] == here[0]);
                }
            }
        }
        assert forall|i: int| 0 <= i < upto implies (all.contains(ClipStep::Cross(i as usize))
            <==> #[trigger] edge_crosses(inside, i)) by {
            if all.contains(ClipStep::Cross(i as usize)) {
                let a = choose|a: int|
                    0 <= a < all.len() && all[a] == ClipStep::Cross(i as usize);
                if a < prev.len() {
                    assert(all[a] == prev[a]);
                    assert(prev.contains(ClipStep::Cross(i as usize)));
                } else {
                    assert(all[a] == here[a - prev.len()]);
                }
            }
            if edge_crosses(inside, i) {
                if i < upto - 1 {
                    let a = choose|a: int|
                        0 <= a < prev.len() && prev[a] == ClipStep::Cross(i as usize);
                    assert(all[a] == prev[a]);
                } else {
                    assert(all[all.len() - 1] == here[here.len() - 1]);
                }
            }
        }
    }
}

/// Splits a convex polygon into a fan of triangles around its first vertex:
/// `[p0, p1, p2]`, `[p0, p2, p3]`, ..., one triangle for each vertex past the second.
/// A polygon with fewer than three vertices gives no triangles.
pub fn fan_triangulate<T: Copy>(polygon: &Vec<T>) -> (tris: Vec<[T; 3]>)
    ensures
        tris@.len() == (if polygon@.len() >= 3 { polygon@.len() - 2 } else { 0 }),
        forall|i: int|
            0 <= i < tris@.len() ==> (#[trigger] tris@[i])@ == seq![
                polygon@[0],
                polygon@[i + 1],
                polygon@[i + 2],
            ],
{
    let mut tris: Vec<[T; 3]> = Vec::new();
    if polygon.len() < 3 {
        return tris;
    }
    let mut i: usize = 1;
    while i < polygon.len() - 1
        invariant
            polygon@.len() >= 3,
            1 <= i <= polygon@.len() - 1,
            tris@.len() == i - 1,
            forall|j: int|
                0 <= j < tris@.len() ==> (#[trigger] tris@[j])@ == seq![
                    polygon@[0],
                    polygon@[j + 1],
                    polygon@[j + 2],
                ],
        decreases polygon@.len() - i,
    {
        let tri = [polygon[0], polygon[i], polygon[i + 1]];
        assert(tri@ == seq![polygon@[0], polygon@[i as int], polygon@[i + 1]]);
        tris.push(tri);
        i = i + 1;
    }
    tris
}

/// Position of a step along the polygon's boundary: vertex `i` comes at `2 * i`, the point
/// where the edge leaving it crosses the plane right after it, at `2 * i + 1`.
pub open spec fn boundary_position(step: ClipStep) -> int {
    match step {
        ClipStep::Keep(i) => 2 * i,
        ClipStep::Cross(i) => 2 * i + 1,
    }
}

/// The clipped outline runs along the polygon's boundary: its steps come in strictly
/// increasing boundary position, so each kept vertex comes before the crossing of its
/// outgoing edge, and everything from vertex `i` comes before everything from vertex `i + 1`.
/// With `lemma_clip_plan_shape` this fixes the outline completely.
pub proof fn lemma_clip_plan_follows_boundary(inside: Seq<bool>, upto: int)
    requires
        0 <= upto <= inside.len(),
        inside.len() <= usize::MAX,
    ensures
        forall|a: int, c: int|
            0 <= a < c < clip_plan_upto(inside, upto).len() ==> boundary_position(
                #[trigger] clip_plan_upto(inside, upto)[a],
            ) < boundary_position(#[trigger] clip_plan_upto(inside, upto)[c]),
        forall|a: int|
            0 <= a < clip_plan_upto(inside, upto).len() ==> 0 <= boundary_position(
                #[trigger] clip_plan_upto(inside, upto)[a],
            ) < 2 * upto,
    decreases upto,
{
    if upto > 0 {
        lemma_clip_plan_follows_boundary(inside, upto - 1);
        let prev = clip_plan_upto(inside, upto - 1);
        let here = clip_steps_at(inside, upto - 1);
        let all = clip_plan_upto(inside, upto);
        assert(all == prev + here);
        assert forall|a: int| 0 <= a < here.len() implies 2 * (upto - 1) + a <= boundary_position(
            #[trigger] here[a],
        ) < 2 * upto && (a == 1 ==> boundary_position(here[0]) < boundary_position(here[1])) by {
        }
        assert forall|a: int| 0 <= a < all.len() implies 0 <= boundary_position(
            #[trigger] all[a],
        ) < 2 * upto by {
            if a < prev.len() {
                assert(all[a] == prev[a]);
            } else {
                assert(all[a] == here[a - prev.len()]);
            }
        }
        assert forall|a: int, c: int| 0 <= a < c < all.len() implies boundary_position(
            #[trigger] all[a],
        ) < boundary_position(#[trigger] all[c]) by {
            if c < prev.len() {
                assert(all[a] == prev[a]);
                assert(all[c] == prev[c]);
            } else if a < prev.len() {
                assert(all[a] == prev[a]);
                assert(all[c] == here[c - prev.len()]);
            } else {
                assert(all[a] == here[a - prev.len()]);
                assert(all[c] == here[c - prev.len()]);
            }
        }
    }
}

} // verus!
