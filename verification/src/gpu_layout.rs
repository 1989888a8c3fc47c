use vstd::prelude::*;
use vstd::arithmetic::div_mod::{lemma_fundamental_div_mod, lemma_fundamental_div_mod_converse, lemma_mod_bound};

verus! {

/// Rounds `n` up to the next multiple of 256, as required by wgpu's texture copy alignment rules.
pub fn align_to_256(n: u32) -> (r: u32)
    requires
        n + 255 <= u32::MAX,
    ensures
        r % 256 == 0,
        n <= r < n + 256,
{
    let m: u32 = n + 255;
    let r = m & !255u32;
    assert(r % 256 == 0 && n <= r && r < n + 256) by (bit_vector)
        requires
            r == m & !255u32,
            m == n + 255,
            n + 255 <= 0xffff_ffffu32,
    ;
    r
}

/// The byte at position `k` of the tightly packed image, read from a buffer whose rows of
/// `row_bytes` bytes each start `stride` bytes apart.
pub open spec fn padded_source(k: int, row_bytes: int, stride: int) -> int {
    (k / row_bytes) * stride + k % row_bytes
}

/// Copies the `height` rows of `width` RGBA pixels out of a buffer whose rows start every
/// `bytes_per_row` bytes, dropping the padding at the end of each row.
pub fn unpad_rows(mapped: &[u8], width: usize, height: usize, bytes_per_row: usize) -> (out: Vec<
    u8,
>)
    requires
        width * 4 <= bytes_per_row,
        height * bytes_per_row <= mapped@.len(),
    ensures
        out@.len() == width * 4 * height,
        forall|k: int|
            0 <= k < out@.len() ==> #[trigger] out@[k] == mapped@[padded_source(
                k,
                width as int * 4,
                bytes_per_row as int,
            )],
{
    let mapped_len = mapped.len();
    assert(mapped@.len() == mapped_len);
    let row_bytes = width * 4;
    let mut out: Vec<u8> = Vec::new();
    let mut y: usize = 0;
    while y < height
        invariant
            row_bytes == width * 4,
            row_bytes <= bytes_per_row,
            height * bytes_per_row <= mapped@.len(),
            mapped@.len() <= usize::MAX,
            y <= height,
            out@.len() == y * row_bytes,
            forall|k: int|
                0 <= k < out@.len() ==> #[trigger] out@[k] == mapped@[padded_source(
                    k,
                    row_bytes as int,
                    bytes_per_row as int,
                )],
        decreases height - y,
    {
        proof {
            assert(y * bytes_per_row + bytes_per_row <= height * bytes_per_row) by (nonlinear_arith)
                requires
                    y < height,
            ;
        }
        let row_start = y * bytes_per_row;
        let mut b: usize = 0;
        while b < row_bytes
            invariant
                row_bytes == width * 4,
                row_bytes <= bytes_per_row,
                height * bytes_per_row <= mapped@.len(),
                mapped@.len() <= usize::MAX,
                y < height,
                row_start == y * bytes_per_row,
                row_start + bytes_per_row <= mapped@.len(),
                b <= row_bytes,
                out@.len() == y * row_bytes + b,
                forall|k: int|
                    0 <= k < out@.len() ==> #[trigger] out@[k] == mapped@[padded_source(
                        k,
                        row_bytes as int,
                        bytes_per_row as int,
                    )],
            decreases row_bytes - b,
        {
            proof {
                lemma_fundamental_div_mod_converse(
                    y * row_bytes + b,
                    row_bytes as int,
                    y as int,
                    b as int,
                );
            }
            out.push(mapped[row_start + b]);
            b = b + 1;
        }
        assert(y * row_bytes + row_bytes == (y + 1) * row_bytes) by (nonlinear_arith);
        y = y + 1;
    }
    assert(height * row_bytes == width * 4 * height) by (nonlinear_arith)
        requires
            row_bytes == width * 4,
    ;
    out
}

/// Position in the input of the byte that lands at position `k` when red and blue are
/// swapped in every RGBA pixel.
pub open spec fn red_blue_source(k: int) -> int {
    let base = k - k % 4;
    let c = k % 4;
    if c == 0 {
        base + 2
    } else if c == 2 {
        base
    } else {
        k
    }
}

/// Swaps the red and blue channels of every complete 4-byte pixel, turning RGBA into BGRA
/// and back; trailing bytes that do not make up a whole pixel are dropped.
pub fn swap_red_blue(pixels: &[u8]) -> (out: Vec<u8>)
    ensures
        out@.len() == pixels@.len() - pixels@.len() % 4,
        forall|k: int| 0 <= k < out@.len() ==> #[trigger] out@[k] == pixels@[red_blue_source(k)],
{
    let len = pixels.len();
    let n = len / 4;
    let mut out: Vec<u8> = Vec::new();
    let mut i: usize = 0;
    proof {
        lemma_fundamental_div_mod(pixels@.len() as int, 4);
        lemma_mod_bound(pixels@.len() as int, 4);
    }
    while i < n
        invariant
            n == pixels@.len() / 4,
            n * 4 <= pixels@.len(),
            pixels@.len() == len,
            i <= n,
            out@.len() == i * 4,
            forall|k: int|
                0 <= k < out@.len() ==> #[trigger] out@[k] == pixels@[red_blue_source(k)],
        decreases n - i,
    {
        let p = i * 4;
        out.push(pixels[p + 2]);
        out.push(pixels[p + 1]);
        out.push(pixels[p]);
        out.push(pixels[p + 3]);
        proof {
            assert forall|k: int| p <= k < p + 4 implies red_blue_source(k) == p + (if k == p {
                2int
            } else if k == p + 2 {
                0int
            } else {
                k - p
            }) by {
                lemma_fundamental_div_mod_converse(k, 4, i as int, k - p);
            }
        }
        i = i + 1;
    }
    out
}

/// Swapping red and blue twice gives back every complete pixel unchanged.
pub proof fn lemma_swap_red_blue_twice(pixels: Seq<u8>, once: Seq<u8>, twice: Seq<u8>)
    requires
        once.len() == pixels.len() - pixels.len() % 4,
        forall|k: int| 0 <= k < once.len() ==> #[trigger] once[k] == pixels[red_blue_source(k)],
        twice.len() == once.len() - once.len() % 4,
        forall|k: int| 0 <= k < twice.len() ==> #[trigger] twice[k] == once[red_blue_source(k)],
    ensures
        twice =~= pixels.take(once.len() as int),
{
    lemma_fundamental_div_mod(pixels.len() as int, 4);
    lemma_mod_bound(pixels.len() as int, 4);
    let n = pixels.len() as int / 4;
    assert(n * 4 == 4 * n) by (nonlinear_arith);
    lemma_fundamental_div_mod_converse(once.len() as int, 4, n, 0);
    assert(twice.len() == once.len());
    assert forall|k: int| 0 <= k < twice.len() implies twice[k] == pixels[k] by {
        lemma_fundamental_div_mod(k, 4);
        lemma_mod_bound(k, 4);
        let j = red_blue_source(k);
        let q = k / 4;
        assert(4 * q == q * 4) by (nonlinear_arith);
        assert(0 <= j - q * 4 < 4);
        lemma_fundamental_div_mod_converse(j, 4, q, j - q * 4);
        assert(0 <= j && j + 4 - (j - q * 4) <= once.len()) by (nonlinear_arith)
            requires
                k == 4 * q + k % 4,
                0 <= k % 4 < 4,
                0 <= j - q * 4 < 4,
                0 <= k < once.len(),
                once.len() == 4 * n,
        ;
    }
}

/// Index buffer for a triangle list whose vertices are stored three per face, in order:
/// `[0, 1, 2, 3, 4, 5, ...]`, so that every index names one of the `3 * face_count`
/// vertices.
pub fn triangle_list_indices(face_count: usize) -> (indices: Vec<u32>)
    requires
        face_count * 3 <= u32::MAX + 1,
    ensures
        indices@.len() == face_count * 3,
        forall|k: int| 0 <= k < indices@.len() ==> #[trigger] indices@[k] == k,
        forall|k: int| 0 <= k < indices@.len() ==> #[trigger] indices@[k] < face_count * 3,
{
    let mut indices: Vec<u32> = Vec::new();
    let mut f: usize = 0;
    while f < face_count
        invariant
            face_count * 3 <= u32::MAX + 1,
            f <= face_count,
            indices@.len() == f * 3,
            forall|k: int| 0 <= k < indices@.len() ==> #[trigger] indices@[k] == k,
        decreases face_count - f,
    {
        let base = (f * 3) as u32;
        indices.push(base);
        indices.push(base + 1);
        indices.push(base + 2);
        f = f + 1;
    }
    indices
}

/// Lights that get a shadow map.
pub const MAX_SHADOW_LIGHTS: usize = 8;

/// Faces of a cube shadow map.
pub const CUBE_FACES: usize = 6;

/// Array layer of the point-light shadow image that holds face `face` of light `light`'s
/// cube map: the six faces of each light are stored one after another.
pub fn cube_shadow_layer(light: usize, face: usize) -> (layer: u32)
    requires
        light < MAX_SHADOW_LIGHTS,
        face < CUBE_FACES,
    ensures
        layer == light * 6 + face,
        layer < MAX_SHADOW_LIGHTS * CUBE_FACES,
{
    (light * 6 + face) as u32
}

/// Different (light, face) pairs use different layers of the point-light shadow image.
pub proof fn lemma_cube_shadow_layers_distinct(l1: int, f1: int, l2: int, f2: int)
    requires
        0 <= f1 < 6,
        0 <= f2 < 6,
        l1 * 6 + f1 == l2 * 6 + f2,
    ensures
        l1 == l2 && f1 == f2,
{
    assert(l1 == l2) by (nonlinear_arith)
        requires
            0 <= f1 < 6,
            0 <= f2 < 6,
            l1 * 6 + f1 == l2 * 6 + f2,
    ;
}

/// Number of swapchain images to ask for: at least 2 (double buffering), respecting both
/// the surface's minimum and, where it has one, its maximum.
pub fn swapchain_image_count(min_image_count: u32, max_image_count: Option<u32>) -> (n: u32)
    ensures
        n == match max_image_count {
            Some(limit) => if (if min_image_count >= 2 { min_image_count } else { 2 }) <= limit {
                if min_image_count >= 2 { min_image_count } else { 2 }
            } else {
                limit
            },
            None => if min_image_count >= 2 { min_image_count } else { 2 },
        },
{
    let desired = if min_image_count >= 2 {
        min_image_count
    } else {
        2
    };
    match max_image_count {
        Some(limit) => if desired <= limit {
            desired
        } else {
            limit
        },
        None => desired,
    }
}

/// One depth-only render pass of the shadow pre-pass.
#[derive(Clone, Copy, Debug, PartialEq, Eq, Structural)]
pub enum ShadowPass {
    /// The spot light in slot `slot` is rendered into layer `slot` of the spot shadow image.
    Spot { slot: usize },
    /// Face `face` of the point light in slot `slot` is rendered into its cube map layer.
    CubeFace { slot: usize, face: usize },
}

/// Number of light slots that get shadow maps for `light_count` lights.
pub open spec fn shadow_slots(light_count: int) -> int {
    if light_count <= MAX_SHADOW_LIGHTS { light_count } else { MAX_SHADOW_LIGHTS as int }
}

/// Spot passes for the first `upto` light slots, in slot order.
pub open spec fn spot_passes(is_spot: Seq<bool>, upto: int) -> Seq<ShadowPass>
    decreases upto,
{
    if upto <= 0 {
        Seq::empty()
    } else {
        spot_passes(is_spot, upto - 1) + if is_spot[upto - 1] {
            seq![ShadowPass::Spot { slot: (upto - 1) as usize }]
        } else {
            Seq::empty()
        }
    }
}

/// The six cube-face passes of the point light in slot `slot`, in face order.
pub open spec fn cube_face_passes(slot: int) -> Seq<ShadowPass> {
    Seq::new(6, |f: int| ShadowPass::CubeFace { slot: slot as usize, face: f as usize })
}

/// Cube-face passes for the point lights among the first `upto` light slots, in slot order.
pub open spec fn point_passes(is_spot: Seq<bool>, upto: int) -> Seq<ShadowPass>
    decreases upto,
{
    if upto <= 0 {
        Seq::empty()
    } else {
        point_passes(is_spot, upto - 1) + if is_spot[upto - 1] {
            Seq::empty()
        } else {
            cube_face_passes(upto - 1)
        }
    }
}

/// The shadow pre-pass for lights that are spot lights (`true`) or point lights (`false`):
/// only the first `MAX_SHADOW_LIGHTS` lights get shadow maps; first one pass per spot light,
/// then six passes (one per cube face) per point light, each in slot order.
pub fn shadow_pass_plan(is_spot: &Vec<bool>) -> (plan: Vec<ShadowPass>)
    ensures
        plan@ == spot_passes(is_spot@, shadow_slots(is_spot@.len() as int)) + point_passes(
            is_spot@,
            shadow_slots(is_spot@.len() as int),
        ),
{
    let slots = if is_spot.len() <= MAX_SHADOW_LIGHTS {
        is_spot.len()
    } else {
        MAX_SHADOW_LIGHTS
    };
    let mut plan: Vec<ShadowPass> = Vec::new();
    let mut i: usize = 0;
    while i < slots
        invariant
            slots == shadow_slots(is_spot@.len() as int),
            slots <= is_spot@.len(),
            i <= slots,
            plan@ == spot_passes(is_spot@, i as int),
        decreases slots - i,
    {
        if is_spot[i] {
            plan.push(ShadowPass::Spot { slot: i });
        }
        proof {
            assert(plan@ =~= spot_passes(is_spot@, i as int) + if is_spot@[i as int] {
                seq![ShadowPass::Spot { slot: i }]
            } else {
                Seq::empty()
            });
        }
        i = i + 1;
    }
    let ghost spots = plan@;
    let mut i: usize = 0;
    while i < slots
        invariant
            slots == shadow_slots(is_spot@.len() as int),
            slots <= is_spot@.len(),
            i <= slots,
            spots == spot_passes(is_spot@, slots as int),
            plan@ == spots + point_passes(is_spot@, i as int),
        decreases slots - i,
    {
        if !is_spot[i] {
            let ghost before = plan@;
            let mut face: usize = 0;
            while face < CUBE_FACES
                invariant
                    face <= 6,
                    plan@ == before + Seq::new(
                        face as nat,
                        |f: int| ShadowPass::CubeFace { slot: i, face: f as usize },
                    ),
                decreases 6 - face,
            {
                plan.push(ShadowPass::CubeFace { slot: i, face });
                proof {
                    assert(plan@ =~= before + Seq::new(
                        (face + 1) as nat,
                        |f: int| ShadowPass::CubeFace { slot: i, face: f as usize },
                    ));
                }
                face = face + 1;
            }
            proof {
                assert(cube_face_passes(i as int) =~= Seq::new(
                    6,
                    |f: int| ShadowPass::CubeFace { slot: i, face: f as usize },
                ));
                assert(plan@ =~= spots + point_passes(is_spot@, i + 1));
            }
        } else {
            proof {
                assert(plan@ =~= spots + point_passes(is_spot@, i + 1));
            }
        }
        i = i + 1;
    }
    plan
}

/// Whether `p` is a pass that the light slots described by `is_spot` call for among the
/// first `upto` slots: a spot pass for a spot light, or one of the six face passes of a
/// point light.
pub open spec fn pass_fits(is_spot: Seq<bool>, upto: int, p: ShadowPass) -> bool {
    match p {
        ShadowPass::Spot { slot } => slot < upto && is_spot[slot as int],
        ShadowPass::CubeFace { slot, face } => slot < upto && face < 6 && !is_spot[slot as int],
    }
}

/// Every pass of the shadow pre-pass belongs to a light slot that has a shadow map, is of the
/// kind that light needs, and (for cube faces) names one of the six faces, so that its layer
/// `cube_shadow_layer(slot, face)` lies inside the shadow image.
pub proof fn lemma_shadow_passes_fit(is_spot: Seq<bool>, upto: int)
    requires
        0 <= upto <= is_spot.len(),
        upto <= MAX_SHADOW_LIGHTS,
    ensures
        forall|a: int|
            0 <= a < spot_passes(is_spot, upto).len() ==> pass_fits(
                is_spot,
                upto,
                #[trigger] spot_passes(is_spot, upto)[a],
            ),
        forall|a: int|
            0 <= a < point_passes(is_spot, upto).len() ==> pass_fits(
                is_spot,
                upto,
                #[trigger] point_passes(is_spot, upto)[a],
            ),
    decreases upto,
{
    if upto > 0 {
        lemma_shadow_passes_fit(is_spot, upto - 1);
        let sp = spot_passes(is_spot, upto);
        let sp0 = spot_passes(is_spot, upto - 1);
        assert forall|a: int| 0 <= a < sp.len() implies pass_fits(is_spot, upto, #[trigger] sp[a]) by {
            if a < sp0.len() {
                assert(sp[a] == sp0[a]);
                assert(pass_fits(is_spot, upto - 1, sp0[a]));
            }
        }
        let pp = point_passes(is_spot, upto);
        let pp0 = point_passes(is_spot, upto - 1);
        assert forall|a: int| 0 <= a < pp.len() implies pass_fits(is_spot, upto, #[trigger] pp[a]) by {
            if a < pp0.len() {
                assert(pp[a] == pp0[a]);
                assert(pass_fits(is_spot, upto - 1, pp0[a]));
            } else {
                assert(pp[a] == cube_face_passes(upto - 1)[a - pp0.len()]);
            }
        }
    }
}

} // verus!
