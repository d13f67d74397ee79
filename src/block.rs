//! The block strategy: cut the image into blocks, permute them, and
//! optionally soften the seams.
use vstd::prelude::*;
use rand::rngs::StdRng;
use crate::image::{PixelBuffer, Pixel, blank_pixel, lemma_index_cell, lemma_cell_index};
use crate::rng::{seeded_rng, draw_below, draw_seed};
use crate::types::{BlockOptions, EngineError, BackgroundMode};
use crate::region::FaceRegion;
use crate::composite::{region_fits, is_crop_of, composite_at, crop, fits, composite_regions};

verus! {

/// `s` holds each of `0..n` exactly once.
pub open spec fn is_permutation(s: Seq<usize>, n: int) -> bool {
    &&& s.len() == n
    &&& forall|i: int| 0 <= i < n ==> #[trigger] s[i] < n
    &&& forall|i: int, j: int| 0 <= i < j < n ==> s[i] != s[j]
    &&& forall|d: int| 0 <= d < n ==> #[trigger] takes_value(s, n, d)
}

/// Some entry among the first `n` of `s` is `d`.
pub open spec fn takes_value(s: Seq<usize>, n: int, d: int) -> bool {
    exists|i: int| 0 <= i < n && s[i] == d
}

/// The indices `0..n` after the swaps of the first `k` draws: step `i`
/// exchanges entries `i` and `draws[i]`.
pub open spec fn shuffle_spec(n: int, draws: Seq<u32>, k: int) -> Seq<usize>
    decreases k,
{
    if k <= 0 {
        Seq::new(n as nat, |i: int| i as usize)
    } else {
        let p = shuffle_spec(n, draws, k - 1);
        let j = draws[k - 1] as int;
        p.update(k - 1, p[j]).update(j, p[k - 1])
    }
}

/// Builds the block-index array `0..n` and, for each `i` in `0..n`, swaps
/// entry `i` with entry `draws[i]`.
pub fn shuffle_indices(n: usize, draws: &Vec<u32>) -> (r: Vec<usize>)
    requires
        draws@.len() == n,
        forall|k: int| 0 <= k < n ==> (#[trigger] draws@[k] as int) < n,
    ensures
        r@ == shuffle_spec(n as int, draws@, n as int),
        is_permutation(r@, n as int),
{
    let mut idx: Vec<usize> = Vec::with_capacity(n);
    let mut i: usize = 0;
    while i < n
        invariant
            i <= n,
            idx@.len() == i,
            forall|k: int| 0 <= k < i ==> idx@[k] == k,
        decreases n - i,
    {
        idx.push(i);
        i = i + 1;
    }
    assert(idx@ =~= shuffle_spec(n as int, draws@, 0));
    let ghost mut inv: Seq<int> = Seq::new(n as nat, |d: int| d);
    let mut i: usize = 0;
    while i < n
        invariant
            i <= n,
            draws@.len() == n,
            forall|k: int| 0 <= k < n ==> (#[trigger] draws@[k] as int) < n,
            idx@ == shuffle_spec(n as int, draws@, i as int),
            idx@.len() == n,
            inv.len() == n,
            forall|k: int| 0 <= k < n ==> (#[trigger] idx@[k] as int) < n,
            forall|k: int| 0 <= k < n ==> 0 <= #[trigger] inv[k] < n,
            forall|k: int| 0 <= k < n ==> inv[#[trigger] idx@[k] as int] == k,
            forall|d: int| 0 <= d < n ==> idx@[#[trigger] inv[d]] as int == d,
        decreases n - i,
    {
        let j = draws[i] as usize;
        let a = idx[i];
        let b = idx[j];
        idx.set(i, b);
        idx.set(j, a);
        proof {
            inv = inv.update(a as int, j as int).update(b as int, i as int);
        }
        i = i + 1;
    }
    proof {
        assert forall|i: int, j: int| 0 <= i < j < n implies idx@[i] != idx@[j] by {
            assert(inv[idx@[i] as int] == i);
            assert(inv[idx@[j] as int] == j);
        }
        assert forall|d: int| 0 <= d < n implies #[trigger] takes_value(idx@, n as int, d) by {
            assert(idx@[inv[d]] as int == d);
        }
    }
    idx
}


/// How many blocks of side `b` cover `len` cells; the last one may be partial.
pub open spec fn blocks_along(len: int, b: int) -> int {
    (len + b - 1) / b
}

/// The source block that the permutation sends to destination block `d`.
pub open spec fn block_source(perm: Seq<usize>, d: int) -> int {
    choose|s: int| 0 <= s < perm.len() && perm[s] == d
}

/// The pixel at `(x, y)` after block `s` of `img` has been copied to block
/// `perm[s]`, for every `s`. A cell whose source falls outside the image
/// (a partial edge block) stays blank.
pub open spec fn block_copy_at(img: PixelBuffer, bw: int, bh: int, perm: Seq<usize>, x: int, y: int) -> Pixel {
    let bxn = blocks_along(img.width as int, bw);
    let d = (y / bh) * bxn + x / bw;
    let s = block_source(perm, d);
    let sx = (s % bxn) * bw + x % bw;
    let sy = (s / bxn) * bh + y % bh;
    if sx < img.width && sy < img.height {
        img.at(sx, sy)
    } else {
        blank_pixel()
    }
}

proof fn lemma_blocks_cover(len: int, b: int, c: int)
    requires
        len >= 0,
        b > 0,
        0 <= c < len,
    ensures
        blocks_along(len, b) * b <= len + b - 1,
        0 <= c / b < blocks_along(len, b),
        0 <= c % b < b,
{
    let q = blocks_along(len, b);
    vstd::arithmetic::div_mod::lemma_fundamental_div_mod(len + b - 1, b);
    vstd::arithmetic::div_mod::lemma_mod_pos_bound(len + b - 1, b);
    vstd::arithmetic::div_mod::lemma_fundamental_div_mod(c, b);
    vstd::arithmetic::div_mod::lemma_mod_pos_bound(c, b);
    vstd::arithmetic::div_mod::lemma_div_pos_is_pos(c, b);
    let r = (len + b - 1) % b;
    let cq = c / b;
    let cr = c % b;
    assert(q * b <= len + b - 1) by (nonlinear_arith)
        requires
            len + b - 1 == b * q + r,
            r >= 0,
    ;
    assert(cq < q) by (nonlinear_arith)
        requires
            len + b - 1 == b * q + r,
            0 <= r < b,
            c == b * cq + cr,
            0 <= cr < b,
            c < len,
            b > 0,
    ;
}

proof fn lemma_block_cell(bxn: int, b: int, s: int, o: int)
    requires
        bxn > 0,
        b > 0,
        0 <= s,
        0 <= o < b,
    ensures
        0 <= s % bxn < bxn,
        0 <= s / bxn,
        0 <= (s % bxn) * b + o < bxn * b,
{
    vstd::arithmetic::div_mod::lemma_mod_pos_bound(s, bxn);
    vstd::arithmetic::div_mod::lemma_div_pos_is_pos(s, bxn);
    let m = s % bxn;
    assert(0 <= m * b + o < bxn * b) by (nonlinear_arith)
        requires
            0 <= m < bxn,
            0 <= o < b,
    ;
}

/// Copies block `s` of `image` to block `perm[s]` for every block, clipping
/// partial edge blocks at the image bounds. Cells that no source pixel
/// reaches stay blank.
pub fn copy_blocks(image: &PixelBuffer, block_w: u32, block_h: u32, perm: &Vec<usize>) -> (r: PixelBuffer)
    requires
        image.wf(),
        block_w > 0,
        block_h > 0,
        is_permutation(
            perm@,
            blocks_along(image.width as int, block_w as int) * blocks_along(image.height as int, block_h as int),
        ),
    ensures
        r.wf(),
        r.same_size(image),
        forall|i: int|
            0 <= i < r.pixels@.len() ==> #[trigger] r.pixels@[i] == block_copy_at(
                *image,
                block_w as int,
                block_h as int,
                perm@,
                i % image.width as int,
                i / image.width as int,
            ),
{
    let w = image.width;
    let h = image.height;
    let bxn: u64 = (w as u64 + block_w as u64 - 1) / block_w as u64;
    let byn: u64 = (h as u64 + block_h as u64 - 1) / block_h as u64;
    let ghost n = blocks_along(w as int, block_w as int) * blocks_along(h as int, block_h as int);
    let total = perm.len();
    // the inverse permutation: inv[perm[s]] == s
    let mut inv: Vec<usize> = Vec::with_capacity(total);
    let mut k: usize = 0;
    while k < total
        invariant
            k <= total,
            inv@.len() == k,
        decreases total - k,
    {
        inv.push(0);
        k = k + 1;
    }
    let mut s: usize = 0;
    while s < total
        invariant
            total == perm@.len(),
            inv@.len() == total,
            s <= total,
            is_permutation(perm@, n),
            forall|t: int| 0 <= t < s ==> inv@[#[trigger] perm@[t] as int] == t,
        decreases total - s,
    {
        let d = perm[s];
        proof {
            assert(perm@[s as int] < n);
        }
        inv.set(d, s);
        proof {
            assert forall|t: int| 0 <= t < s + 1 implies inv@[#[trigger] perm@[t] as int] == t by {
                if t < s {
                    assert(perm@[t] != perm@[s as int]);
                }
            }
        }
        s = s + 1;
    }
    let npx = image.pixels.len();
    let mut out: Vec<Pixel> = Vec::with_capacity(npx);
    let mut i: usize = 0;
    while i < npx
        invariant
            image.wf(),
            npx == image.pixels@.len(),
            w == image.width,
            h == image.height,
            block_w > 0,
            block_h > 0,
            bxn == blocks_along(w as int, block_w as int),
            byn == blocks_along(h as int, block_h as int),
            n == bxn * byn,
            total == n,
            total == perm@.len(),
            inv@.len() == total,
            is_permutation(perm@, n),
            forall|t: int| 0 <= t < total ==> inv@[#[trigger] perm@[t] as int] == t,
            i <= npx,
            out@.len() == i,
            forall|k: int|
                0 <= k < i ==> #[trigger] out@[k] == block_copy_at(
                    *image,
                    block_w as int,
                    block_h as int,
                    perm@,
                    k % w as int,
                    k / w as int,
                ),
        decreases npx - i,
    {
        proof {
            lemma_index_cell(w as int, h as int, i as int);
        }
        let x = (i % (w as usize)) as u64;
        let y = (i / (w as usize)) as u64;
        proof {
            lemma_blocks_cover(w as int, block_w as int, x as int);
            lemma_blocks_cover(h as int, block_h as int, y as int);
            let bx = x as int / block_w as int;
            let by = y as int / block_h as int;
            assert(0 <= by * bxn + bx < bxn * byn) by (nonlinear_arith)
                requires
                    0 <= bx < bxn,
                    0 <= by < byn,
            ;
        }
        let d = ((y / block_h as u64) * bxn + x / block_w as u64) as usize;
        let src = inv[d];
        proof {
            assert(takes_value(perm@, n, d as int));
            let t = choose|t: int| 0 <= t < n && perm@[t] == d;
            assert(inv@[perm@[t] as int] == t);
            let c = block_source(perm@, d as int);
            assert(0 <= c < perm@.len() && perm@[c] == d);
            if c != t {
                if c < t {
                    assert(perm@[c] != perm@[t]);
                } else {
                    assert(perm@[t] != perm@[c]);
                }
            }
            assert(src == c);
            lemma_block_cell(bxn as int, block_w as int, src as int, x as int % block_w as int);
            lemma_block_cell(bxn as int, block_h as int, src as int, y as int % block_h as int);
            let q = src as int / bxn as int;
            let o = y as int % block_h as int;
            assert(q < byn) by (nonlinear_arith)
                requires
                    0 <= src < bxn * byn,
                    bxn > 0,
                    q == src as int / bxn as int,
            ;
            assert(q * block_h + o < byn * block_h) by (nonlinear_arith)
                requires
                    q < byn,
                    0 <= o < block_h,
                    q >= 0,
            ;
        }
        let sx: u64 = (src as u64 % bxn) * block_w as u64 + x % block_w as u64;
        let sy: u64 = (src as u64 / bxn) * block_h as u64 + y % block_h as u64;
        let p = if sx < w as u64 && sy < h as u64 {
            image.get(sx as u32, sy as u32)
        } else {
            Pixel::transparent()
        };
        out.push(p);
        i = i + 1;
    }
    PixelBuffer { width: w, height: h, pixels: out }
}


/// The pixels of `copy_blocks` as a sequence.
pub open spec fn block_copy_spec(img: PixelBuffer, bw: int, bh: int, perm: Seq<usize>) -> Seq<Pixel> {
    Seq::new(
        (img.width * img.height) as nat,
        |i: int| block_copy_at(img, bw, bh, perm, i % img.width as int, i / img.width as int),
    )
}

/// The even blend of two pixels, each channel rounded down.
pub open spec fn blend_spec(p: Pixel, q: Pixel) -> Pixel {
    Pixel {
        r: ((p.r + q.r) / 2) as u8,
        g: ((p.g + q.g) / 2) as u8,
        b: ((p.b + q.b) / 2) as u8,
        a: ((p.a + q.a) / 2) as u8,
    }
}

/// Blends two pixels 50/50.
pub fn blend_pixels(p: Pixel, q: Pixel) -> (r: Pixel)
    ensures
        r == blend_spec(p, q),
{
    Pixel {
        r: ((p.r as u16 + q.r as u16) / 2) as u8,
        g: ((p.g as u16 + q.g as u16) / 2) as u8,
        b: ((p.b as u16 + q.b as u16) / 2) as u8,
        a: ((p.a as u16 + q.a as u16) / 2) as u8,
    }
}

/// Line `c` is the last one before a block boundary inside `0..len`.
pub open spec fn seam_before(c: int, b: int, len: int) -> bool {
    (c + 1) % b == 0 && c + 1 < len
}

/// The cell `(x, y)` of a row-major grid of width `w`.
pub open spec fn cell(px: Seq<Pixel>, w: int, x: int, y: int) -> Pixel {
    px[y * w + x]
}

/// After the horizontal pass: the row above each horizontal block boundary
/// is blended with the row below it.
pub open spec fn seam_rows_at(px: Seq<Pixel>, w: int, h: int, bh: int, x: int, y: int) -> Pixel {
    if seam_before(y, bh, h) {
        blend_spec(cell(px, w, x, y), cell(px, w, x, y + 1))
    } else {
        cell(px, w, x, y)
    }
}

/// After both passes: then the column left of each vertical block boundary
/// is blended with the column right of it.
pub open spec fn seams_at(px: Seq<Pixel>, w: int, h: int, bw: int, bh: int, x: int, y: int) -> Pixel {
    if seam_before(x, bw, w) {
        blend_spec(seam_rows_at(px, w, h, bh, x, y), seam_rows_at(px, w, h, bh, x + 1, y))
    } else {
        seam_rows_at(px, w, h, bh, x, y)
    }
}

/// The pixel of `image` at `(x, y)` after the horizontal seam pass.
fn seam_rows_pixel(image: &PixelBuffer, block_h: u32, x: u32, y: u32) -> (r: Pixel)
    requires
        image.wf(),
        block_h > 0,
        x < image.width,
        y < image.height,
    ensures
        r == seam_rows_at(image.pixels@, image.width as int, image.height as int, block_h as int, x as int, y as int),
{
    let p = image.get(x, y);
    if (y as u64 + 1) % (block_h as u64) == 0 && (y as u64 + 1) < image.height as u64 {
        blend_pixels(p, image.get(x, y + 1))
    } else {
        p
    }
}

/// Softens the seams between `block_w` by `block_h` blocks: first each row
/// above a horizontal boundary is blended with the row below, then each
/// column left of a vertical boundary with the column to its right.
pub fn interpolate_block_edges(image: &PixelBuffer, block_w: u32, block_h: u32) -> (r: PixelBuffer)
    requires
        image.wf(),
        block_w > 0,
        block_h > 0,
    ensures
        r.wf(),
        r.same_size(image),
        forall|i: int|
            0 <= i < r.pixels@.len() ==> #[trigger] r.pixels@[i] == seams_at(
                image.pixels@,
                image.width as int,
                image.height as int,
                block_w as int,
                block_h as int,
                i % image.width as int,
                i / image.width as int,
            ),
{
    let w = image.width;
    let h = image.height;
    let npx = image.pixels.len();
    let mut out: Vec<Pixel> = Vec::with_capacity(npx);
    let mut i: usize = 0;
    while i < npx
        invariant
            image.wf(),
            npx == image.pixels@.len(),
            w == image.width,
            h == image.height,
            block_w > 0,
            block_h > 0,
            i <= npx,
            out@.len() == i,
            forall|k: int|
                0 <= k < i ==> #[trigger] out@[k] == seams_at(
                    image.pixels@,
                    w as int,
                    h as int,
                    block_w as int,
                    block_h as int,
                    k % w as int,
                    k / w as int,
                ),
        decreases npx - i,
    {
        proof {
            lemma_index_cell(w as int, h as int, i as int);
        }
        let x = (i % (w as usize)) as u32;
        let y = (i / (w as usize)) as u32;
        let p = seam_rows_pixel(image, block_h, x, y);
        let q = if (x as u64 + 1) % (block_w as u64) == 0 && (x as u64 + 1) < w as u64 {
            blend_pixels(p, seam_rows_pixel(image, block_h, x + 1, y))
        } else {
            p
        };
        out.push(q);
        i = i + 1;
    }
    PixelBuffer { width: w, height: h, pixels: out }
}


/// The block count of a scramble, when the image has pixels, the block size
/// is usable and the count fits a `u32`.
pub open spec fn block_count(width: int, height: int, opts: BlockOptions) -> Option<int> {
    let (bw, bh) = opts.block_size;
    if width == 0 || height == 0 || bw == 0 || bh == 0 {
        None
    } else {
        let n = blocks_along(width, bw as int) * blocks_along(height, bh as int);
        if n > u32::MAX {
            None
        } else {
            Some(n)
        }
    }
}

/// The pixels of a block scramble of `img` under the block permutation
/// `perm`, seams softened when the options ask for it.
pub open spec fn block_scramble_spec(img: PixelBuffer, opts: BlockOptions, perm: Seq<usize>) -> Seq<Pixel> {
    let (bw, bh) = opts.block_size;
    let copied = block_copy_spec(img, bw as int, bh as int, perm);
    if opts.interpolate_edges {
        Seq::new(
            copied.len(),
            |i: int|
                seams_at(
                    copied,
                    img.width as int,
                    img.height as int,
                    bw as int,
                    bh as int,
                    i % img.width as int,
                    i / img.width as int,
                ),
        )
    } else {
        copied
    }
}

/// Every region fits the image and its crop can be block-scrambled.
pub open spec fn block_regions_ok(regions: Seq<FaceRegion>, width: int, height: int, opts: BlockOptions) -> bool {
    forall|k: int| 0 <= k < regions.len() ==> #[trigger] block_region_ok(regions[k], width, height, opts)
}

pub open spec fn block_region_ok(r: FaceRegion, width: int, height: int, opts: BlockOptions) -> bool {
    region_fits(r, width, height) && block_count(r.x2 - r.x1, r.y2 - r.y1, opts) is Some
}

/// `p` is a block scramble, under some block permutation, of the crop of
/// `image` to region `r`.
pub open spec fn is_block_patch(p: PixelBuffer, image: PixelBuffer, r: FaceRegion, opts: BlockOptions) -> bool {
    &&& p.wf()
    &&& exists|c: PixelBuffer, perm: Seq<usize>|
        {
            &&& is_crop_of(c, image, r)
            &&& p.same_size(&c)
            &&& is_permutation(perm, block_count(c.width as int, c.height as int, opts)->0)
            &&& p.pixels@ == block_scramble_spec(c, opts, perm)
        }
}

/// `out` is the composite of `patches`, one block patch per region.
pub open spec fn is_block_composite(
    out: PixelBuffer,
    image: PixelBuffer,
    regions: Seq<FaceRegion>,
    patches: Seq<PixelBuffer>,
    opts: BlockOptions,
    mode: BackgroundMode,
) -> bool {
    &&& patches.len() == regions.len()
    &&& forall|k: int| 0 <= k < patches.len() ==> #[trigger] is_block_patch(patches[k], image, regions[k], opts)
    &&& forall|i: int|
        0 <= i < out.pixels@.len() ==> #[trigger] out.pixels@[i] == composite_at(
            image,
            mode,
            regions,
            patches,
            regions.len() as int,
            i % image.width as int,
            i / image.width as int,
        )
}

/// Scrambles images by permuting fixed-size blocks.
pub struct BlockScrambler {
    options: BlockOptions,
    rng: StdRng,
}

impl BlockScrambler {
    pub closed spec fn spec_options(&self) -> BlockOptions {
        self.options
    }

    /// A scrambler whose generator is seeded with `seed`.
    pub fn new(options: BlockOptions, seed: u64) -> (r: BlockScrambler)
        ensures
            r.spec_options() == options,
    {
        BlockScrambler { options, rng: seeded_rng(seed) }
    }

    /// Partitions `image` into blocks (edge blocks may be partial), shuffles
    /// the block indices with random swaps, copies each block to its new
    /// place, and softens the seams if the options ask for it. Fails with
    /// `InvalidInput` on an image with no pixels, when a block side is zero,
    /// or when the block count does not fit a `u32`.
    pub fn scramble(&mut self, image: &PixelBuffer) -> (r: Result<PixelBuffer, EngineError>)
        requires
            image.wf(),
        ensures
            final(self).spec_options() == old(self).spec_options(),
            r is Err <==> block_count(image.width as int, image.height as int, old(self).spec_options()) is None,
            r matches Err(e) ==> e == EngineError::InvalidInput,
            r matches Ok(out) ==> {
                &&& out.wf()
                &&& out.same_size(image)
                &&& exists|perm: Seq<usize>|
                    is_permutation(perm, block_count(image.width as int, image.height as int, old(self).spec_options())->0)
                        && out.pixels@ == block_scramble_spec(*image, old(self).spec_options(), perm)
            },
    {
        let (bw, bh) = self.options.block_size;
        if image.width == 0 || image.height == 0 || bw == 0 || bh == 0 {
            return Err(EngineError::InvalidInput);
        }
        let bxn: u64 = (image.width as u64 + bw as u64 - 1) / bw as u64;
        let byn: u64 = (image.height as u64 + bh as u64 - 1) / bh as u64;
        assert(bxn * byn <= u128::MAX) by (nonlinear_arith)
            requires
                bxn <= u64::MAX,
                byn <= u64::MAX,
        ;
        let total: u128 = bxn as u128 * byn as u128;
        if total > u32::MAX as u128 {
            return Err(EngineError::InvalidInput);
        }
        let n = total as u32;
        let mut draws: Vec<u32> = Vec::with_capacity(n as usize);
        let mut i: u32 = 0;
        while i < n
            invariant
                self.options == old(self).options,
                i <= n,
                draws@.len() == i,
                forall|k: int| 0 <= k < i ==> (#[trigger] draws@[k]) < n,
            decreases n - i,
        {
            let j = draw_below(&mut self.rng, n);
            draws.push(j);
            i = i + 1;
        }
        let perm = shuffle_indices(n as usize, &draws);
        let copied = copy_blocks(image, bw, bh, &perm);
        assert(copied.pixels@ =~= block_copy_spec(*image, bw as int, bh as int, perm@));
        proof {
            assert(block_count(image.width as int, image.height as int, self.options) == Some(n as int));
        }
        if self.options.interpolate_edges {
            let out = interpolate_block_edges(&copied, bw, bh);
            assert(out.pixels@ =~= block_scramble_spec(*image, self.options, perm@));
            Ok(out)
        } else {
            assert(copied.pixels@ =~= block_scramble_spec(*image, self.options, perm@));
            Ok(copied)
        }
    }

    /// Block-scrambles each region's crop with a fresh scrambler of the same
    /// options, seeded by a draw from this scrambler's generator, then pastes
    /// the results over the untouched image (`Include`) or a blank canvas
    /// (`Exclude`). Fails with `InvalidInput` on an image with no pixels,
    /// when a region does not fit the image, or when its crop cannot be
    /// block-scrambled.
    pub fn scramble_with_face_detection(
        &mut self,
        image: &PixelBuffer,
        regions: &Vec<FaceRegion>,
        mode: BackgroundMode,
    ) -> (r: Result<PixelBuffer, EngineError>)
        requires
            image.wf(),
        ensures
            final(self).spec_options() == old(self).spec_options(),
            r is Err <==> image.width == 0 || image.height == 0 || !block_regions_ok(
                regions@,
                image.width as int,
                image.height as int,
                old(self).spec_options(),
            ),
            r matches Err(e) ==> e == EngineError::InvalidInput,
            r matches Ok(out) ==> {
                &&& out.wf()
                &&& out.same_size(image)
                &&& exists|patches: Seq<PixelBuffer>|
                    #[trigger] is_block_composite(out, *image, regions@, patches, old(self).spec_options(), mode)
            },
    {
        if image.width == 0 || image.height == 0 {
            return Err(EngineError::InvalidInput);
        }
        let opts = self.options;
        let mut patches: Vec<PixelBuffer> = Vec::new();
        let mut k: usize = 0;
        while k < regions.len()
            invariant
                image.wf(),
                image.width > 0 && image.height > 0,
                opts == self.options,
                self.options == old(self).options,
                k <= regions@.len(),
                patches@.len() == k,
                forall|j: int| 0 <= j < k ==> #[trigger] block_region_ok(regions@[j], image.width as int, image.height as int, opts),
                forall|j: int| 0 <= j < k ==> #[trigger] is_block_patch(patches@[j], *image, regions@[j], opts),
            decreases regions@.len() - k,
        {
            let reg = regions[k];
            if !fits(&reg, image.width, image.height) {
                proof {
                    assert(!block_region_ok(regions@[k as int], image.width as int, image.height as int, opts));
                }
                return Err(EngineError::InvalidInput);
            }
            let c = crop(image, &reg);
            let seed = draw_seed(&mut self.rng);
            let mut fresh = BlockScrambler::new(opts, seed);
            match fresh.scramble(&c) {
                Ok(p) => {
                    proof {
                        assert(block_region_ok(reg, image.width as int, image.height as int, opts));
                        assert(is_block_patch(p, *image, reg, opts));
                    }
                    patches.push(p);
                },
                Err(e) => {
                    proof {
                        assert(!block_region_ok(regions@[k as int], image.width as int, image.height as int, opts));
                    }
                    return Err(e);
                },
            }
            k = k + 1;
        }
        proof {
            assert forall|j: int| 0 <= j < patches@.len() implies (#[trigger] patches@[j]).wf() by {
                assert(is_block_patch(patches@[j], *image, regions@[j], opts));
            }
        }
        let out = composite_regions(image, regions, &patches, mode);
        match out {
            Ok(o) => {
                assert(is_block_composite(o, *image, regions@, patches@, opts, mode));
                Ok(o)
            },
            Err(e) => Err(e),
        }
    }
}


/// Where the source block of destination pixel `(x, y)` puts it: the
/// block's own cell at the pixel's offset, inside the image.
pub open spec fn tile_source_in_image(img: PixelBuffer, bw: int, bh: int, perm: Seq<usize>, x: int, y: int) -> bool {
    let bxn = blocks_along(img.width as int, bw);
    let s = block_source(perm, (y / bh) * bxn + x / bw);
    (s % bxn) * bw + x % bw < img.width && (s / bxn) * bh + y % bh < img.height
}

/// When the block size divides both sides there are no partial blocks:
/// every output pixel of the block copy comes from inside the image, so
/// each output tile is a whole input tile, and the permutation makes the
/// input tiles used distinct.
pub proof fn lemma_whole_tiles_copied(img: PixelBuffer, bw: int, bh: int, perm: Seq<usize>)
    requires
        img.wf(),
        bw > 0,
        bh > 0,
        img.width as int % bw == 0,
        img.height as int % bh == 0,
        is_permutation(perm, blocks_along(img.width as int, bw) * blocks_along(img.height as int, bh)),
    ensures
        forall|x: int, y: int|
            crate::image::in_grid(img.width as int, img.height as int, x, y) ==> #[trigger] tile_source_in_image(
                img,
                bw,
                bh,
                perm,
                x,
                y,
            ),
{
    let w = img.width as int;
    let h = img.height as int;
    let bxn = blocks_along(w, bw);
    let byn = blocks_along(h, bh);
    let n = bxn * byn;
    vstd::arithmetic::div_mod::lemma_fundamental_div_mod(w, bw as int);
    vstd::arithmetic::div_mod::lemma_fundamental_div_mod(h, bh as int);
    assert(w % bw == 0);
    assert(h % bh == 0);
    let qw = w / bw;
    let qh = h / bh;
    assert(w + bw - 1 == qw * bw + (bw - 1)) by (nonlinear_arith)
        requires
            w == bw * qw + w % bw,
            w % bw == 0,
    ;
    assert(h + bh - 1 == qh * bh + (bh - 1)) by (nonlinear_arith)
        requires
            h == bh * qh + h % bh,
            h % bh == 0,
    ;
    vstd::arithmetic::div_mod::lemma_fundamental_div_mod_converse(w + bw - 1, bw, qw, bw - 1);
    vstd::arithmetic::div_mod::lemma_fundamental_div_mod_converse(h + bh - 1, bh, qh, bh - 1);
    assert(w % (bw as int) == 0);
    assert(h % (bh as int) == 0);
    assert(bxn == w / (bw as int));
    assert(byn == h / (bh as int));
    assert(bxn * bw == w) by (nonlinear_arith)
        requires
            w == (bw as int) * (w / (bw as int)) + w % (bw as int),
            w % (bw as int) == 0,
            bxn == w / (bw as int),
    ;
    assert(byn * bh == h) by (nonlinear_arith)
        requires
            h == (bh as int) * (h / (bh as int)) + h % (bh as int),
            h % (bh as int) == 0,
            byn == h / (bh as int),
    ;
    assert forall|x: int, y: int| crate::image::in_grid(w, h, x, y) implies #[trigger] tile_source_in_image(
        img,
        bw,
        bh,
        perm,
        x,
        y,
    ) by {
        lemma_blocks_cover(w, bw as int, x);
        lemma_blocks_cover(h, bh as int, y);
        let d = (y / (bh as int)) * bxn + x / (bw as int);
        assert(0 <= d < n) by (nonlinear_arith)
            requires
                0 <= x / (bw as int) < bxn,
                0 <= y / (bh as int) < byn,
                d == (y / (bh as int)) * bxn + x / (bw as int),
                n == bxn * byn,
        ;
        assert(takes_value(perm, n, d));
        let src = block_source(perm, d);
        assert(0 <= src < n);
        lemma_block_cell(bxn, bw as int, src, x % (bw as int));
        lemma_block_cell(bxn, bh as int, src, y % (bh as int));
        let q = src / bxn;
        let o = y % (bh as int);
        assert(q < byn) by (nonlinear_arith)
            requires
                0 <= src < bxn * byn,
                bxn > 0,
                q == src / bxn,
        ;
        assert(q * bh + o < byn * bh) by (nonlinear_arith)
            requires
                q < byn,
                0 <= o < bh,
                q >= 0,
        ;
        let sx = (src % bxn) * bw + x % (bw as int);
        let sy = q * bh + o;
    }
}

/// On an image of one colour whose sides the block size divides, every
/// block permutation gives the image back, seams softened or not: the
/// output does not depend on the random draws.
pub proof fn lemma_uniform_image_unchanged(img: PixelBuffer, opts: BlockOptions, perm: Seq<usize>, p: Pixel)
    requires
        img.wf(),
        forall|i: int| 0 <= i < img.pixels@.len() ==> img.pixels@[i] == p,
        opts.block_size.0 > 0,
        opts.block_size.1 > 0,
        img.width % opts.block_size.0 == 0,
        img.height % opts.block_size.1 == 0,
        is_permutation(
            perm,
            blocks_along(img.width as int, opts.block_size.0 as int) * blocks_along(
                img.height as int,
                opts.block_size.1 as int,
            ),
        ),
    ensures
        block_scramble_spec(img, opts, perm) == img.pixels@,
{
    let (bw, bh) = opts.block_size;
    let w = img.width as int;
    let h = img.height as int;
    let bxn = blocks_along(w, bw as int);
    let byn = blocks_along(h, bh as int);
    let n = bxn * byn;
    vstd::arithmetic::div_mod::lemma_fundamental_div_mod(w, bw as int);
    vstd::arithmetic::div_mod::lemma_fundamental_div_mod(h, bh as int);
    let qw = w / (bw as int);
    let qh = h / (bh as int);
    assert(w + bw - 1 == qw * bw + (bw - 1)) by (nonlinear_arith)
        requires
            w == (bw as int) * qw + w % (bw as int),
            w % (bw as int) == 0,
    ;
    assert(h + bh - 1 == qh * bh + (bh - 1)) by (nonlinear_arith)
        requires
            h == (bh as int) * qh + h % (bh as int),
            h % (bh as int) == 0,
    ;
    vstd::arithmetic::div_mod::lemma_fundamental_div_mod_converse(w + bw - 1, bw as int, qw, bw - 1);
    vstd::arithmetic::div_mod::lemma_fundamental_div_mod_converse(h + bh - 1, bh as int, qh, bh - 1);
    assert(w % (bw as int) == 0);
    assert(h % (bh as int) == 0);
    assert(bxn == w / (bw as int));
    assert(byn == h / (bh as int));
    assert(bxn * bw == w) by (nonlinear_arith)
        requires
            w == (bw as int) * (w / (bw as int)) + w % (bw as int),
            w % (bw as int) == 0,
            bxn == w / (bw as int),
    ;
    assert(byn * bh == h) by (nonlinear_arith)
        requires
            h == (bh as int) * (h / (bh as int)) + h % (bh as int),
            h % (bh as int) == 0,
            byn == h / (bh as int),
    ;
    let copied = block_copy_spec(img, bw as int, bh as int, perm);
    lemma_whole_tiles_copied(img, bw as int, bh as int, perm);
    assert forall|i: int| 0 <= i < copied.len() implies #[trigger] copied[i] == p by {
        assert(w > 0) by (nonlinear_arith)
            requires
                0 <= i < w * h,
                h >= 0,
        ;
        lemma_index_cell(w, h, i);
        let x = i % w;
        let y = i / w;
        assert(tile_source_in_image(img, bw as int, bh as int, perm, x, y));
        let src = block_source(perm, (y / (bh as int)) * bxn + x / (bw as int));
        vstd::arithmetic::div_mod::lemma_mod_pos_bound(x, bw as int);
        vstd::arithmetic::div_mod::lemma_mod_pos_bound(y, bh as int);
        assert(0 <= (y / (bh as int)) * bxn + x / (bw as int)) by (nonlinear_arith)
            requires
                x >= 0,
                y >= 0,
                bw > 0,
                bh > 0,
                bxn >= 0,
        ;
        lemma_blocks_cover(w, bw as int, x);
        lemma_blocks_cover(h, bh as int, y);
        assert(takes_value(perm, n, (y / (bh as int)) * bxn + x / (bw as int))) by {
            assert(0 <= (y / (bh as int)) * bxn + x / (bw as int) < n) by (nonlinear_arith)
                requires
                    0 <= x / (bw as int) < bxn,
                    0 <= y / (bh as int) < byn,
                    n == bxn * byn,
            ;
        }
        lemma_block_cell(bxn, bw as int, src, x % (bw as int));
        lemma_block_cell(bxn, bh as int, src, y % (bh as int));
        let sx = (src % bxn) * bw + x % (bw as int);
        let sy = (src / bxn) * bh + y % (bh as int);
        assert(0 <= sy) by (nonlinear_arith)
            requires
                sy == (src / bxn) * bh + y % (bh as int),
                src / bxn >= 0,
                bh > 0,
                y % (bh as int) >= 0,
        ;
        lemma_cell_index(w, h, sx, sy);
    }
    if opts.interpolate_edges {
        let out = block_scramble_spec(img, opts, perm);
        assert forall|i: int| 0 <= i < out.len() implies out[i] == img.pixels@[i] by {
            assert(w > 0) by (nonlinear_arith)
                requires
                    0 <= i < w * h,
                    h >= 0,
            ;
            lemma_index_cell(w, h, i);
            let x = i % w;
            let y = i / w;
            lemma_cell_index(w, h, x, y);
            if y + 1 < h {
                lemma_cell_index(w, h, x, y + 1);
            }
            if x + 1 < w {
                lemma_cell_index(w, h, x + 1, y);
                if y + 1 < h {
                    lemma_cell_index(w, h, x + 1, y + 1);
                }
            }
        }
        assert(out =~= img.pixels@);
    } else {
        assert(copied =~= img.pixels@);
    }
}

} // verus!
