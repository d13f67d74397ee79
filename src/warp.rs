//! Resampling an image through a flow field or an absolute warp field with
//! bilinear, edge-clamped interpolation. Positions and displacements are in
//! fixed point: `SUBPIXEL` units make one pixel.
use vstd::prelude::*;
use crate::image::{PixelBuffer, Pixel, lemma_index_cell};
use crate::types::EngineError;

verus! {

/// Fixed-point units per pixel of positions and displacements.
pub const SUBPIXEL: i64 = 256;

/// A dense displacement field in channel-first layout: the `width * height`
/// horizontal displacements row by row, then the vertical ones, each in
/// `SUBPIXEL` units.
#[derive(Clone, Debug, PartialEq, Eq)]
pub struct FlowField {
    pub width: usize,
    pub height: usize,
    pub data: Vec<i32>,
}

impl FlowField {
    /// Both channels hold one value per pixel.
    pub open spec fn wf(&self) -> bool {
        self.data@.len() == 2 * (self.width as int * self.height as int)
    }

    /// The horizontal displacement at row-major index `i`.
    pub open spec fn dx(&self, i: int) -> int {
        self.data@[i] as int
    }

    /// The vertical displacement at row-major index `i`.
    pub open spec fn dy(&self, i: int) -> int {
        self.data@[self.width as int * self.height as int + i] as int
    }
}

pub open spec fn clamp_spec(v: int, lo: int, hi: int) -> int {
    if v < lo {
        lo
    } else if v > hi {
        hi
    } else {
        v
    }
}

/// One channel of a bilinear blend of four neighbours with fractional
/// offsets `fx`, `fy` (in `SUBPIXEL` units), rounded to nearest.
pub open spec fn lerp_spec(p00: int, p10: int, p01: int, p11: int, fx: int, fy: int) -> int {
    let s = SUBPIXEL as int;
    (p00 * (s - fx) * (s - fy) + p10 * fx * (s - fy) + p01 * (s - fx) * fy + p11 * fx * fy + s * s / 2) / (s * s)
}

/// The bilinear sample of `img` at fixed-point position `(sx, sy)`, the
/// position first clamped into the image.
pub open spec fn sample_spec(img: PixelBuffer, sx: int, sy: int) -> Pixel {
    let s = SUBPIXEL as int;
    let cx = clamp_spec(sx, 0, (img.width - 1) * s);
    let cy = clamp_spec(sy, 0, (img.height - 1) * s);
    let x0 = cx / s;
    let y0 = cy / s;
    let x1 = if x0 + 1 < img.width { x0 + 1 } else { x0 };
    let y1 = if y0 + 1 < img.height { y0 + 1 } else { y0 };
    let fx = cx % s;
    let fy = cy % s;
    let p00 = img.at(x0, y0);
    let p10 = img.at(x1, y0);
    let p01 = img.at(x0, y1);
    let p11 = img.at(x1, y1);
    Pixel {
        r: lerp_spec(p00.r as int, p10.r as int, p01.r as int, p11.r as int, fx, fy) as u8,
        g: lerp_spec(p00.g as int, p10.g as int, p01.g as int, p11.g as int, fx, fy) as u8,
        b: lerp_spec(p00.b as int, p10.b as int, p01.b as int, p11.b as int, fx, fy) as u8,
        a: lerp_spec(p00.a as int, p10.a as int, p01.a as int, p11.a as int, fx, fy) as u8,
    }
}

fn lerp_channel(p00: u8, p10: u8, p01: u8, p11: u8, fx: i64, fy: i64) -> (r: u8)
    requires
        0 <= fx < SUBPIXEL,
        0 <= fy < SUBPIXEL,
    ensures
        r == lerp_spec(p00 as int, p10 as int, p01 as int, p11 as int, fx as int, fy as int),
{
    let s: i64 = SUBPIXEL;
    let a = s - fx;
    let c = s - fy;
    assert(0 <= a * c <= 65536 && 0 <= fx * c <= 65536 && 0 <= a * fy <= 65536 && 0 <= fx * fy <= 65536)
        by (nonlinear_arith)
        requires
            0 <= fx < 256,
            0 <= fy < 256,
            a == 256 - fx,
            c == 256 - fy,
    ;
    let w00 = a * c;
    let w10 = fx * c;
    let w01 = a * fy;
    let w11 = fx * fy;
    assert(w00 + w10 + w01 + w11 == 65536) by (nonlinear_arith)
        requires
            a == 256 - fx,
            c == 256 - fy,
            w00 == a * c,
            w10 == fx * c,
            w01 == a * fy,
            w11 == fx * fy,
    ;
    assert(p00 * w00 <= 255 * 65536 && p10 * w10 <= 255 * 65536 && p01 * w01 <= 255 * 65536 && p11 * w11
        <= 255 * 65536) by (nonlinear_arith)
        requires
            0 <= w00 <= 65536,
            0 <= w10 <= 65536,
            0 <= w01 <= 65536,
            0 <= w11 <= 65536,
            0 <= p00 <= 255,
            0 <= p10 <= 255,
            0 <= p01 <= 255,
            0 <= p11 <= 255,
    ;
    assert(p00 * w00 >= 0 && p10 * w10 >= 0 && p01 * w01 >= 0 && p11 * w11 >= 0) by (nonlinear_arith)
        requires
            0 <= w00,
            0 <= w10,
            0 <= w01,
            0 <= w11,
            0 <= p00,
            0 <= p10,
            0 <= p01,
            0 <= p11,
    ;
    let num = p00 as i64 * w00 + p10 as i64 * w10 + p01 as i64 * w01 + p11 as i64 * w11 + s * s / 2;
    assert(0 <= num <= 255 * 65536 + 32768) by (nonlinear_arith)
        requires
            num == p00 * w00 + p10 * w10 + p01 * w01 + p11 * w11 + 32768,
            w00 + w10 + w01 + w11 == 65536,
            0 <= w00,
            0 <= w10,
            0 <= w01,
            0 <= w11,
            0 <= p00 <= 255,
            0 <= p10 <= 255,
            0 <= p01 <= 255,
            0 <= p11 <= 255,
    ;
    assert(num == p00 as int * (256 - fx) * (256 - fy) + p10 as int * fx * (256 - fy) + p01 as int * (256
        - fx) * fy + p11 as int * fx * fy + 32768) by (nonlinear_arith)
        requires
            num == p00 * w00 + p10 * w10 + p01 * w01 + p11 * w11 + 32768,
            a == 256 - fx,
            c == 256 - fy,
            w00 == a * c,
            w10 == fx * c,
            w01 == a * fy,
            w11 == fx * fy,
    ;
    (num / (s * s)) as u8
}

/// Samples `img` bilinearly at the fixed-point position `(sx, sy)`, clamped
/// into the image first.
pub fn sample_bilinear(img: &PixelBuffer, sx: i64, sy: i64) -> (r: Pixel)
    requires
        img.wf(),
        img.width > 0,
        img.height > 0,
    ensures
        r == sample_spec(*img, sx as int, sy as int),
{
    let s: i64 = SUBPIXEL;
    let max_x = (img.width as i64 - 1) * s;
    let max_y = (img.height as i64 - 1) * s;
    let cx = if sx < 0 { 0 } else if sx > max_x { max_x } else { sx };
    let cy = if sy < 0 { 0 } else if sy > max_y { max_y } else { sy };
    let x0 = cx / s;
    let y0 = cy / s;
    proof {
        assert(x0 < img.width) by (nonlinear_arith)
            requires
                0 <= cx <= (img.width - 1) * 256,
                x0 == cx / 256,
        ;
        assert(y0 < img.height) by (nonlinear_arith)
            requires
                0 <= cy <= (img.height - 1) * 256,
                y0 == cy / 256,
        ;
    }
    let x1 = if x0 + 1 < img.width as i64 { x0 + 1 } else { x0 };
    let y1 = if y0 + 1 < img.height as i64 { y0 + 1 } else { y0 };
    let fx = cx % s;
    let fy = cy % s;
    let p00 = img.get(x0 as u32, y0 as u32);
    let p10 = img.get(x1 as u32, y0 as u32);
    let p01 = img.get(x0 as u32, y1 as u32);
    let p11 = img.get(x1 as u32, y1 as u32);
    Pixel {
        r: lerp_channel(p00.r, p10.r, p01.r, p11.r, fx, fy),
        g: lerp_channel(p00.g, p10.g, p01.g, p11.g, fx, fy),
        b: lerp_channel(p00.b, p10.b, p01.b, p11.b, fx, fy),
        a: lerp_channel(p00.a, p10.a, p01.a, p11.a, fx, fy),
    }
}

/// Sampling exactly at a pixel's own position returns that pixel.
pub proof fn lemma_sample_at_pixel(img: PixelBuffer, x: int, y: int)
    requires
        img.wf(),
        0 <= x < img.width,
        0 <= y < img.height,
    ensures
        sample_spec(img, x * SUBPIXEL, y * SUBPIXEL) == img.at(x, y),
{
    let s = SUBPIXEL as int;
    assert(x * s <= (img.width - 1) * s) by (nonlinear_arith)
        requires
            0 <= x < img.width,
            s == 256,
    ;
    assert(y * s <= (img.height - 1) * s) by (nonlinear_arith)
        requires
            0 <= y < img.height,
            s == 256,
    ;
    vstd::arithmetic::div_mod::lemma_fundamental_div_mod_converse(x * s, s, x, 0);
    vstd::arithmetic::div_mod::lemma_fundamental_div_mod_converse(y * s, s, y, 0);
    let p = img.at(x, y);
    let q = sample_spec(img, x * s, y * s);
    let x1 = if x + 1 < img.width { x + 1 } else { x };
    let y1 = if y + 1 < img.height { y + 1 } else { y };
    lemma_lerp_at_corner(p.r as int, img.at(x1, y).r as int, img.at(x, y1).r as int, img.at(x1, y1).r as int);
    lemma_lerp_at_corner(p.g as int, img.at(x1, y).g as int, img.at(x, y1).g as int, img.at(x1, y1).g as int);
    lemma_lerp_at_corner(p.b as int, img.at(x1, y).b as int, img.at(x, y1).b as int, img.at(x1, y1).b as int);
    lemma_lerp_at_corner(p.a as int, img.at(x1, y).a as int, img.at(x, y1).a as int, img.at(x1, y1).a as int);
}

/// With no fractional offset the blend is the first neighbour.
pub proof fn lemma_lerp_at_corner(a: int, b: int, c: int, d: int)
    ensures
        lerp_spec(a, b, c, d, 0, 0) == a,
{
    let s = SUBPIXEL as int;
    assert(s == 256);
    assert(a * (s - 0) * (s - 0) + b * 0 * (s - 0) + c * (s - 0) * 0 + d * 0 * 0 + s * s / 2 == a * 65536 + 32768)
        by (nonlinear_arith)
        requires
            s == 256,
    ;
    vstd::arithmetic::div_mod::lemma_fundamental_div_mod_converse(a * 65536 + 32768, 65536, a, 32768);
}


/// Output pixel `i` of warping `img` through `flow`: the sample at the
/// pixel's own position displaced by the flow there.
pub open spec fn flow_sample_at(img: PixelBuffer, flow: FlowField, i: int) -> Pixel {
    let w = img.width as int;
    sample_spec(img, (i % w) * SUBPIXEL + flow.dx(i), (i / w) * SUBPIXEL + flow.dy(i))
}

/// The flow field fits the image: same dimensions, one value per pixel in
/// each channel.
pub open spec fn flow_matches(img: PixelBuffer, flow: FlowField) -> bool {
    flow.wf() && flow.width == img.width && flow.height == img.height
}

/// Warps `image` through `flow`: output pixel `(x, y)` is the bilinear,
/// edge-clamped sample of `image` at `(x + flow_x, y + flow_y)`. Fails with
/// `InvalidInput` on an image with no pixels or when the flow field does
/// not match the image.
pub fn warp_image(image: &PixelBuffer, flow: &FlowField) -> (r: Result<PixelBuffer, EngineError>)
    requires
        image.wf(),
    ensures
        r is Err <==> image.width == 0 || image.height == 0 || !flow_matches(*image, *flow),
        r matches Err(e) ==> e == EngineError::InvalidInput,
        r matches Ok(out) ==> {
            &&& out.wf()
            &&& out.same_size(image)
            &&& forall|i: int| 0 <= i < out.pixels@.len() ==> #[trigger] out.pixels@[i] == flow_sample_at(*image, *flow, i)
        },
{
    if image.width == 0 || image.height == 0 || flow.width != image.width as usize || flow.height
        != image.height as usize {
        return Err(EngineError::InvalidInput);
    }
    let npx = image.pixels.len();
    let flen = flow.data.len();
    if npx > usize::MAX / 2 || flen != 2 * npx {
        return Err(EngineError::InvalidInput);
    }
    let w = image.width;
    let h = image.height;
    let mut out: Vec<Pixel> = Vec::with_capacity(npx);
    let mut i: usize = 0;
    while i < npx
        invariant
            image.wf(),
            flow_matches(*image, *flow),
            npx == image.pixels@.len(),
            npx <= usize::MAX / 2,
            w == image.width,
            h == image.height,
            i <= npx,
            out@.len() == i,
            forall|k: int| 0 <= k < i ==> #[trigger] out@[k] == flow_sample_at(*image, *flow, k),
        decreases npx - i,
    {
        proof {
            lemma_index_cell(w as int, h as int, i as int);
            assert(w > 0 && h > 0) by (nonlinear_arith)
                requires
                    i < npx,
                    npx == w as int * h as int,
                    i >= 0,
            ;
        }
        let x = (i % (w as usize)) as i64;
        let y = (i / (w as usize)) as i64;
        let sx = x * SUBPIXEL + flow.data[i] as i64;
        let sy = y * SUBPIXEL + flow.data[npx + i] as i64;
        out.push(sample_bilinear(image, sx, sy));
        i = i + 1;
    }
    Ok(PixelBuffer { width: w, height: h, pixels: out })
}

/// Warping through an all-zero flow field returns every pixel unchanged.
pub proof fn lemma_zero_flow_is_identity(img: PixelBuffer, flow: FlowField)
    requires
        img.wf(),
        flow_matches(img, flow),
        forall|k: int| 0 <= k < flow.data@.len() ==> flow.data@[k] == 0,
    ensures
        forall|i: int| 0 <= i < img.pixels@.len() ==> #[trigger] flow_sample_at(img, flow, i) == img.pixels@[i],
{
    assert forall|i: int| 0 <= i < img.pixels@.len() implies #[trigger] flow_sample_at(img, flow, i) == img.pixels@[i] by {
        let w = img.width as int;
        let h = img.height as int;
        assert(w > 0) by (nonlinear_arith)
            requires
                0 <= i < w * h,
                w >= 0,
                h >= 0,
        ;
        lemma_index_cell(w, h, i);
        assert(flow.dx(i) == 0);
        assert(flow.dy(i) == 0);
        lemma_sample_at_pixel(img, i % w, i / w);
    }
}

/// Output pixel `i` of resampling `img` through an absolute warp field.
pub open spec fn warp_sample_at(img: PixelBuffer, warp_x: Seq<i64>, warp_y: Seq<i64>, i: int) -> Pixel {
    sample_spec(img, warp_x[i] as int, warp_y[i] as int)
}

/// Resamples `image` through an absolute warp field: output pixel `i` is
/// the bilinear, edge-clamped sample at `(warp_x[i], warp_y[i])` (fixed
/// point). Fails with `InvalidInput` on an image with no pixels or unless
/// both fields hold one value per pixel.
pub fn apply_warp(image: &PixelBuffer, warp_x: &Vec<i64>, warp_y: &Vec<i64>) -> (r: Result<PixelBuffer, EngineError>)
    requires
        image.wf(),
    ensures
        r is Err <==> image.width == 0 || image.height == 0 || warp_x@.len() != image.pixels@.len()
            || warp_y@.len() != image.pixels@.len(),
        r matches Err(e) ==> e == EngineError::InvalidInput,
        r matches Ok(out) ==> {
            &&& out.wf()
            &&& out.same_size(image)
            &&& forall|i: int|
                0 <= i < out.pixels@.len() ==> #[trigger] out.pixels@[i] == warp_sample_at(*image, warp_x@, warp_y@, i)
        },
{
    let npx = image.pixels.len();
    if image.width == 0 || image.height == 0 || warp_x.len() != npx || warp_y.len() != npx {
        return Err(EngineError::InvalidInput);
    }
    let w = image.width;
    let h = image.height;
    let mut out: Vec<Pixel> = Vec::with_capacity(npx);
    let mut i: usize = 0;
    while i < npx
        invariant
            image.wf(),
            npx == image.pixels@.len(),
            warp_x@.len() == npx,
            warp_y@.len() == npx,
            w == image.width,
            h == image.height,
            i <= npx,
            out@.len() == i,
            forall|k: int| 0 <= k < i ==> #[trigger] out@[k] == warp_sample_at(*image, warp_x@, warp_y@, k),
        decreases npx - i,
    {
        proof {
            assert(w > 0 && h > 0) by (nonlinear_arith)
                requires
                    i < npx,
                    npx == w as int * h as int,
                    i >= 0,
            ;
        }
        out.push(sample_bilinear(image, warp_x[i], warp_y[i]));
        i = i + 1;
    }
    Ok(PixelBuffer { width: w, height: h, pixels: out })
}

/// The identity warp: every pixel maps to its own position.
pub open spec fn is_identity_warp(warp_x: Seq<i64>, warp_y: Seq<i64>, width: int, height: int) -> bool {
    &&& warp_x.len() == width * height
    &&& warp_y.len() == width * height
    &&& forall|i: int| 0 <= i < width * height ==> #[trigger] warp_x[i] == (i % width) * SUBPIXEL
    &&& forall|i: int| 0 <= i < width * height ==> #[trigger] warp_y[i] == (i / width) * SUBPIXEL
}

/// The identity warp of a `width` by `height` image.
pub fn identity_warp(width: u32, height: u32) -> (r: (Vec<i64>, Vec<i64>))
    requires
        width as int * height as int <= usize::MAX,
    ensures
        is_identity_warp(r.0@, r.1@, width as int, height as int),
{
    let n = width as usize * height as usize;
    let mut wx: Vec<i64> = Vec::with_capacity(n);
    let mut wy: Vec<i64> = Vec::with_capacity(n);
    let mut i: usize = 0;
    while i < n
        invariant
            n == width as int * height as int,
            i <= n,
            wx@.len() == i,
            wy@.len() == i,
            forall|k: int| 0 <= k < i ==> #[trigger] wx@[k] == (k % width as int) * SUBPIXEL,
            forall|k: int| 0 <= k < i ==> #[trigger] wy@[k] == (k / width as int) * SUBPIXEL,
        decreases n - i,
    {
        proof {
            assert(width > 0) by (nonlinear_arith)
                requires
                    i < n,
                    n == width as int * height as int,
            ;
            lemma_index_cell(width as int, height as int, i as int);
        }
        wx.push((i % width as usize) as i64 * SUBPIXEL);
        wy.push((i / width as usize) as i64 * SUBPIXEL);
        i = i + 1;
    }
    (wx, wy)
}

/// Resampling through the identity warp returns every pixel unchanged.
pub proof fn lemma_identity_warp_is_identity(img: PixelBuffer, warp_x: Seq<i64>, warp_y: Seq<i64>)
    requires
        img.wf(),
        is_identity_warp(warp_x, warp_y, img.width as int, img.height as int),
    ensures
        forall|i: int| 0 <= i < img.pixels@.len() ==> #[trigger] warp_sample_at(img, warp_x, warp_y, i) == img.pixels@[i],
{
    assert forall|i: int| 0 <= i < img.pixels@.len() implies #[trigger] warp_sample_at(img, warp_x, warp_y, i) == img.pixels@[i] by {
        let w = img.width as int;
        let h = img.height as int;
        assert(w > 0) by (nonlinear_arith)
            requires
                0 <= i < w * h,
                w >= 0,
                h >= 0,
        ;
        lemma_index_cell(w, h, i);
        assert(warp_x[i] == (i % w) * SUBPIXEL);
        assert(warp_y[i] == (i / w) * SUBPIXEL);
        lemma_sample_at_pixel(img, i % w, i / w);
    }
}


/// Four equal neighbours blend to their common value at any offset.
proof fn lemma_lerp_uniform(a: int, fx: int, fy: int)
    requires
        0 <= fx < SUBPIXEL,
        0 <= fy < SUBPIXEL,
    ensures
        lerp_spec(a, a, a, a, fx, fy) == a,
{
    let s = SUBPIXEL as int;
    assert(s == 256);
    assert(a * (s - fx) * (s - fy) + a * fx * (s - fy) + a * (s - fx) * fy + a * fx * fy + s * s / 2 == a * 65536
        + 32768) by (nonlinear_arith)
        requires
            s == 256,
    ;
    vstd::arithmetic::div_mod::lemma_fundamental_div_mod_converse(a * 65536 + 32768, 65536, a, 32768);
}

/// Sampling an image of one colour anywhere gives that colour.
pub proof fn lemma_sample_uniform(img: PixelBuffer, sx: int, sy: int, p: Pixel)
    requires
        img.wf(),
        img.width > 0,
        img.height > 0,
        forall|i: int| 0 <= i < img.pixels@.len() ==> img.pixels@[i] == p,
    ensures
        sample_spec(img, sx, sy) == p,
{
    let s = SUBPIXEL as int;
    let w = img.width as int;
    let h = img.height as int;
    let cx = clamp_spec(sx, 0, (w - 1) * s);
    let cy = clamp_spec(sy, 0, (h - 1) * s);
    assert(0 <= (w - 1) * s && 0 <= (h - 1) * s) by (nonlinear_arith)
        requires
            w > 0,
            h > 0,
            s == 256,
    ;
    let x0 = cx / s;
    let y0 = cy / s;
    assert(0 <= x0 < w) by (nonlinear_arith)
        requires
            0 <= cx <= (w - 1) * 256,
            x0 == cx / 256,
            s == 256,
    ;
    assert(0 <= y0 < h) by (nonlinear_arith)
        requires
            0 <= cy <= (h - 1) * 256,
            y0 == cy / 256,
            s == 256,
    ;
    let x1 = if x0 + 1 < w { x0 + 1 } else { x0 };
    let y1 = if y0 + 1 < h { y0 + 1 } else { y0 };
    crate::image::lemma_cell_index(w, h, x0, y0);
    crate::image::lemma_cell_index(w, h, x1, y0);
    crate::image::lemma_cell_index(w, h, x0, y1);
    crate::image::lemma_cell_index(w, h, x1, y1);
    vstd::arithmetic::div_mod::lemma_mod_pos_bound(cx, s);
    vstd::arithmetic::div_mod::lemma_mod_pos_bound(cy, s);
    lemma_lerp_uniform(p.r as int, cx % s, cy % s);
    lemma_lerp_uniform(p.g as int, cx % s, cy % s);
    lemma_lerp_uniform(p.b as int, cx % s, cy % s);
    lemma_lerp_uniform(p.a as int, cx % s, cy % s);
}

/// Resampling an image of one colour through any warp field, or warping it
/// through any flow field, returns it unchanged: the output does not depend
/// on the field, however it was drawn.
pub proof fn lemma_uniform_image_any_field(
    img: PixelBuffer,
    warp_x: Seq<i64>,
    warp_y: Seq<i64>,
    flow: FlowField,
    p: Pixel,
)
    requires
        img.wf(),
        img.width > 0,
        img.height > 0,
        forall|i: int| 0 <= i < img.pixels@.len() ==> img.pixels@[i] == p,
    ensures
        forall|i: int| 0 <= i < img.pixels@.len() ==> #[trigger] warp_sample_at(img, warp_x, warp_y, i) == img.pixels@[i],
        forall|i: int| 0 <= i < img.pixels@.len() ==> #[trigger] flow_sample_at(img, flow, i) == img.pixels@[i],
{
    assert forall|i: int| 0 <= i < img.pixels@.len() implies #[trigger] warp_sample_at(img, warp_x, warp_y, i)
        == img.pixels@[i] by {
        lemma_sample_uniform(img, warp_x[i] as int, warp_y[i] as int, p);
    }
    assert forall|i: int| 0 <= i < img.pixels@.len() implies #[trigger] flow_sample_at(img, flow, i)
        == img.pixels@[i] by {
        let w = img.width as int;
        lemma_sample_uniform(img, (i % w) * SUBPIXEL + flow.dx(i), (i / w) * SUBPIXEL + flow.dy(i), p);
    }
}

} // verus!
