//! RGBA pixel buffers.
use vstd::prelude::*;

verus! {

/// One RGBA pixel with 8-bit channels.
#[derive(Clone, Copy, Debug, PartialEq, Eq, Structural)]
pub struct Pixel {
    pub r: u8,
    pub g: u8,
    pub b: u8,
    pub a: u8,
}

/// The canvas default: fully transparent black.
pub open spec fn blank_pixel() -> Pixel {
    Pixel { r: 0, g: 0, b: 0, a: 0 }
}

impl Pixel {
    pub fn transparent() -> (r: Pixel)
        ensures
            r == blank_pixel(),
    {
        Pixel { r: 0, g: 0, b: 0, a: 0 }
    }
}


/// A `width` by `height` grid of pixels stored row by row: pixel `(x, y)`
/// stands at `y * width + x`.
#[derive(Clone, Debug, PartialEq, Eq)]
pub struct PixelBuffer {
    pub width: u32,
    pub height: u32,
    pub pixels: Vec<Pixel>,
}

/// `(x, y)` lies inside a `width` by `height` grid.
pub open spec fn in_grid(width: int, height: int, x: int, y: int) -> bool {
    0 <= x < width && 0 <= y < height
}

/// Row-major cells are in range and distinct.
pub proof fn lemma_cell_index(width: int, height: int, x: int, y: int)
    requires
        in_grid(width, height, x, y),
    ensures
        0 <= y * width + x < width * height,
        (y * width + x) / width == y,
        (y * width + x) % width == x,
{
    assert(0 <= y * width + x < width * height) by (nonlinear_arith)
        requires
            0 <= x < width,
            0 <= y < height,
    ;
    vstd::arithmetic::div_mod::lemma_fundamental_div_mod_converse(y * width + x, width, y, x);
}

/// A row-major index splits back into its column and row.
pub proof fn lemma_index_cell(width: int, height: int, i: int)
    requires
        0 <= i < width * height,
        width > 0,
    ensures
        in_grid(width, height, i % width, i / width),
        (i / width) * width + i % width == i,
{
    vstd::arithmetic::div_mod::lemma_fundamental_div_mod(i, width);
    vstd::arithmetic::div_mod::lemma_mod_pos_bound(i, width);
    vstd::arithmetic::div_mod::lemma_div_pos_is_pos(i, width);
    let q = i / width;
    let m = i % width;
    assert(q < height) by (nonlinear_arith)
        requires
            0 <= i < width * height,
            width > 0,
            i == width * q + m,
            0 <= m < width,
    ;
    assert(q * width + m == i) by (nonlinear_arith)
        requires
            i == width * q + m,
    ;
}

/// The product of two `u32` values as a `u64`.
pub fn area_u64(width: u32, height: u32) -> (r: u64)
    ensures
        r == width as int * height as int,
{
    assert(width as int * height as int <= u64::MAX) by (nonlinear_arith)
        requires
            width <= u32::MAX,
            height <= u32::MAX,
    ;
    (width as u64) * (height as u64)
}

/// Bytes `4 * i .. 4 * i + 4` of `raw` are the channels of pixel `i`.
pub open spec fn rgba_cell_matches(raw: Seq<u8>, px: Seq<Pixel>, i: int) -> bool {
    &&& raw[4 * i] == px[i].r
    &&& raw[4 * i + 1] == px[i].g
    &&& raw[4 * i + 2] == px[i].b
    &&& raw[4 * i + 3] == px[i].a
}

impl PixelBuffer {
    /// The pixel count matches the dimensions.
    pub open spec fn wf(&self) -> bool {
        self.pixels@.len() == self.width as int * self.height as int
    }

    /// The pixel at column `x`, row `y`.
    pub open spec fn at(&self, x: int, y: int) -> Pixel {
        self.pixels@[y * self.width + x]
    }

    pub open spec fn same_size(&self, other: &PixelBuffer) -> bool {
        self.width == other.width && self.height == other.height
    }

    /// A fully transparent buffer of the given size.
    pub fn new(width: u32, height: u32) -> (r: PixelBuffer)
        requires
            width as int * height as int <= usize::MAX,
        ensures
            r.wf(),
            r.width == width,
            r.height == height,
            forall|i: int| 0 <= i < r.pixels@.len() ==> r.pixels@[i] == blank_pixel(),
    {
        let n = width as usize * height as usize;
        let mut pixels: Vec<Pixel> = Vec::with_capacity(n);
        let mut i: usize = 0;
        while i < n
            invariant
                i <= n,
                pixels@.len() == i,
                forall|k: int| 0 <= k < i ==> pixels@[k] == blank_pixel(),
            decreases n - i,
        {
            pixels.push(Pixel::transparent());
            i = i + 1;
        }
        PixelBuffer { width, height, pixels }
    }

    /// A buffer over the given pixels, or `None` when their count is not
    /// `width * height`.
    pub fn from_pixels(width: u32, height: u32, pixels: Vec<Pixel>) -> (r: Option<PixelBuffer>)
        ensures
            r is Some <==> pixels@.len() == width as int * height as int,
            r matches Some(b) ==> b.wf() && b.width == width && b.height == height && b.pixels@
                == pixels@,
    {
        if area_u64(width, height) == pixels.len() as u64 {
            Some(PixelBuffer { width, height, pixels })
        } else {
            None
        }
    }

    /// A buffer over raw RGBA bytes (four per pixel, row by row), or `None`
    /// when their count is not `4 * width * height`.
    pub fn from_rgba(width: u32, height: u32, raw: &Vec<u8>) -> (r: Option<PixelBuffer>)
        ensures
            r is Some <==> raw@.len() == 4 * (width as int * height as int),
            r matches Some(b) ==> b.wf() && b.width == width && b.height == height && b.pixels@.len()
                * 4 == raw@.len() && forall|i: int|
                0 <= i < b.pixels@.len() ==> #[trigger] rgba_cell_matches(raw@, b.pixels@, i),
    {
        let n = raw.len() / 4;
        if raw.len() % 4 != 0 || area_u64(width, height) != n as u64 {
            return None;
        }
        proof {
            vstd::arithmetic::div_mod::lemma_fundamental_div_mod(raw@.len() as int, 4);
        }
        let mut pixels: Vec<Pixel> = Vec::with_capacity(n);
        let mut i: usize = 0;
        let mut j: usize = 0;
        while i < n
            invariant
                4 * n == raw@.len(),
                raw@.len() <= usize::MAX,
                i <= n,
                j == 4 * i,
                pixels@.len() == i,
                forall|k: int| 0 <= k < i ==> #[trigger] rgba_cell_matches(raw@, pixels@, k),
            decreases n - i,
        {
            let p = Pixel { r: raw[j], g: raw[j + 1], b: raw[j + 2], a: raw[j + 3] };
            let ghost old_px = pixels@;
            pixels.push(p);
            proof {
                assert forall|k: int| 0 <= k < i + 1 implies #[trigger] rgba_cell_matches(
                    raw@,
                    pixels@,
                    k,
                ) by {
                    if k < i {
                        assert(rgba_cell_matches(raw@, old_px, k));
                    }
                }
            }
            i = i + 1;
            j = j + 4;
        }
        Some(PixelBuffer { width, height, pixels })
    }

    /// The raw RGBA bytes, four per pixel, row by row.
    pub fn to_rgba(&self) -> (r: Vec<u8>)
        requires
            self.pixels@.len() * 4 <= usize::MAX,
        ensures
            r@.len() == 4 * self.pixels@.len(),
            forall|i: int|
                0 <= i < self.pixels@.len() ==> #[trigger] rgba_cell_matches(r@, self.pixels@, i),
    {
        let n = self.pixels.len();
        let mut out: Vec<u8> = Vec::with_capacity(4 * n);
        let mut i: usize = 0;
        while i < n
            invariant
                n == self.pixels@.len(),
                n * 4 <= usize::MAX,
                i <= n,
                out@.len() == 4 * i,
                forall|k: int| 0 <= k < i ==> #[trigger] rgba_cell_matches(out@, self.pixels@, k),
            decreases n - i,
        {
            let p = self.pixels[i];
            let ghost old_out = out@;
            out.push(p.r);
            out.push(p.g);
            out.push(p.b);
            out.push(p.a);
            proof {
                assert forall|k: int| 0 <= k < i + 1 implies #[trigger] rgba_cell_matches(
                    out@,
                    self.pixels@,
                    k,
                ) by {
                    if k < i {
                        assert(rgba_cell_matches(old_out, self.pixels@, k));
                    }
                }
            }
            i = i + 1;
        }
        out
    }

    /// Returns whether the pixel count matches the dimensions.
    pub fn is_well_formed(&self) -> (r: bool)
        ensures
            r == self.wf(),
    {
        area_u64(self.width, self.height) == self.pixels.len() as u64
    }

    /// A copy of the buffer.
    pub fn duplicate(&self) -> (r: PixelBuffer)
        ensures
            r.width == self.width,
            r.height == self.height,
            r.pixels@ == self.pixels@,
    {
        let pixels = self.pixels.clone();
        assert(pixels@ =~= self.pixels@);
        PixelBuffer { width: self.width, height: self.height, pixels }
    }

    /// The pixel at column `x`, row `y`.
    pub fn get(&self, x: u32, y: u32) -> (r: Pixel)
        requires
            self.wf(),
            x < self.width,
            y < self.height,
        ensures
            r == self.at(x as int, y as int),
    {
        proof {
            lemma_cell_index(self.width as int, self.height as int, x as int, y as int);
        }
        let _n = self.pixels.len();
        self.pixels[y as usize * self.width as usize + x as usize]
    }

    /// Overwrites the pixel at column `x`, row `y`.
    pub fn set(&mut self, x: u32, y: u32, p: Pixel)
        requires
            old(self).wf(),
            x < old(self).width,
            y < old(self).height,
        ensures
            final(self).wf(),
            final(self).same_size(&*old(self)),
            final(self).pixels@ == old(self).pixels@.update(y * old(self).width + x, p),
            final(self).at(x as int, y as int) == p,
            forall|xx: int, yy: int|
                in_grid(old(self).width as int, old(self).height as int, xx, yy) && (xx != x || yy
                    != y) ==> #[trigger] final(self).at(xx, yy) == old(self).at(xx, yy),
    {
        proof {
            lemma_cell_index(self.width as int, self.height as int, x as int, y as int);
        }
        let _n = self.pixels.len();
        let i = y as usize * self.width as usize + x as usize;
        self.pixels.set(i, p);
        proof {
            assert forall|xx: int, yy: int|
                in_grid(self.width as int, self.height as int, xx, yy) && (xx != x || yy != y)
                    implies #[trigger] self.at(xx, yy) == old(self).at(xx, yy) by {
                lemma_cell_index(self.width as int, self.height as int, xx, yy);
            }
        }
    }
}

} // verus!
