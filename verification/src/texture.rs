use vstd::prelude::*;
use std::sync::Arc;

verus! {

/// An RGBA image, stored row by row with four bytes per texel.
pub struct Texture {
    pub width: u32,
    pub height: u32,
    pub rgba: Vec<u8>,
}

/// How a surface is coloured: one flat colour, or a texture.
#[derive(Clone)]
pub enum Material {
    Color([u8; 4]),
    Texture(Arc<Texture>),
}

impl Texture {
    /// The texel bytes.
    pub open spec fn bytes(&self) -> Seq<u8> {
        self.rgba@
    }

    /// Column of the texel read for coordinate `x`: the last column for coordinates past
    /// the right edge.
    pub open spec fn clamped_column(&self, x: u32) -> int {
        if x < self.width { x as int } else { self.width - 1 }
    }

    /// Row of the texel read for coordinate `y`: the last row for coordinates past the
    /// bottom edge.
    pub open spec fn clamped_row(&self, y: u32) -> int {
        if y < self.height { y as int } else { self.height - 1 }
    }

    /// Byte offset of the texel read for coordinates `(x, y)`.
    pub open spec fn texel_offset(&self, x: u32, y: u32) -> int {
        (self.clamped_row(y) * self.width + self.clamped_column(x)) * 4
    }

    pub fn new(width: u32, height: u32, rgba: Vec<u8>) -> (t: Self)
        ensures
            t.width == width,
            t.height == height,
            t.bytes() == rgba@,
    {
        Self { width, height, rgba }
    }

    /// The texel at column `x` and row `y`, where coordinates past the right or bottom edge
    /// are moved onto the last column or row.
    pub fn texel(&self, x: u32, y: u32) -> (c: [u8; 4])
        requires
            self.width > 0,
            self.height > 0,
            self.texel_offset(x, y) <= u32::MAX,
            self.texel_offset(x, y) + 4 <= self.bytes().len(),
        ensures
            forall|k: int|
                0 <= k < 4 ==> #[trigger] c@[k] == self.bytes()[self.texel_offset(x, y) + k],
    {
        // Avoid any out of bounds issues
        let ghost (x0, y0) = (x, y);
        let x = if x <= self.width - 1 {
            x
        } else {
            self.width - 1
        };
        let y = if y <= self.height - 1 {
            y
        } else {
            self.height - 1
        };
        proof {
            let w = self.width as int;
            assert(y * w <= (y * w + x) * 4 && y * w + x <= (y * w + x) * 4) by (nonlinear_arith)
                requires
                    0 <= x,
                    0 <= y,
                    w > 0,
            ;
        }
        assert(x == self.clamped_column(x0) && y == self.clamped_row(y0));
        let idx = ((y * self.width + x) * 4) as usize;
        [self.rgba[idx], self.rgba[idx + 1], self.rgba[idx + 2], self.rgba[idx + 3]]
    }
}

/// Texels are stored row by row, four bytes each: the first texel starts at byte 0, the
/// next texel in a row starts 4 bytes later, the texel below starts a whole row of
/// `4 * width` bytes later, every texel of the image starts inside its `4 * width * height`
/// bytes, and coordinates past the right or bottom edge read the last column or row.
pub proof fn lemma_texel_layout(t: Texture, x: u32, y: u32)
    requires
        t.width > 0,
        t.height > 0,
    ensures
        t.texel_offset(0, 0) == 0,
        x + 1 < t.width ==> t.texel_offset((x + 1) as u32, y) == t.texel_offset(x, y) + 4,
        y + 1 < t.height ==> t.texel_offset(x, (y + 1) as u32) == t.texel_offset(x, y) + 4
            * t.width,
        x >= t.width ==> t.texel_offset(x, y) == t.texel_offset((t.width - 1) as u32, y),
        y >= t.height ==> t.texel_offset(x, y) == t.texel_offset(x, (t.height - 1) as u32),
        0 <= t.texel_offset(x, y) <= 4 * t.width * t.height - 4,
{
    let (w, h) = (t.width as int, t.height as int);
    let (cx, cy) = (t.clamped_column(x), t.clamped_row(y));
    assert(0 <= (cy * w + cx) * 4 <= 4 * w * h - 4) by (nonlinear_arith)
        requires
            0 <= cx < w,
            0 <= cy < h,
    ;
    if y + 1 < t.height {
        assert(((cy + 1) * w + cx) * 4 == (cy * w + cx) * 4 + 4 * w) by (nonlinear_arith);
    }
    assert(0 * w == 0);
}

} // verus!
