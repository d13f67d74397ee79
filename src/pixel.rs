//! The pixel strategy: swap randomly drawn pairs of pixels.
use vstd::prelude::*;
use crate::image::{PixelBuffer, Pixel, in_grid, lemma_cell_index};
use crate::rng::{seeded_rng, draw_below};
use rand::rngs::StdRng;
use crate::types::{ONE, EngineError};

verus! {

broadcast use vstd::seq_lib::group_to_multiset_ensures;

/// One drawn pair: swap pixel `(x1, y1)` with pixel `(x2, y2)`.
#[derive(Clone, Copy, Debug, PartialEq, Eq, Structural)]
pub struct PixelSwap {
    pub x1: u32,
    pub y1: u32,
    pub x2: u32,
    pub y2: u32,
}

/// Both ends of the swap lie in a `width` by `height` grid.
pub open spec fn swap_in_grid(s: PixelSwap, width: int, height: int) -> bool {
    in_grid(width, height, s.x1 as int, s.y1 as int) && in_grid(width, height, s.x2 as int, s.y2 as int)
}

/// Exchange the pixels at two row-major positions.
pub open spec fn swap_cells(px: Seq<Pixel>, i: int, j: int) -> Seq<Pixel> {
    px.update(i, px[j]).update(j, px[i])
}

/// The pixels after applying `swaps` in order to a grid of the given width.
pub open spec fn apply_swaps_spec(px: Seq<Pixel>, width: int, swaps: Seq<PixelSwap>) -> Seq<Pixel>
    decreases swaps.len(),
{
    if swaps.len() == 0 {
        px
    } else {
        let s = swaps.last();
        swap_cells(
            apply_swaps_spec(px, width, swaps.drop_last()),
            s.y1 * width + s.x1,
            s.y2 * width + s.x2,
        )
    }
}

/// How many pairs a pixel scramble draws: `intensity` (in units of `ONE`)
/// times the pixel count, rounded down and capped at `u32::MAX`.
pub open spec fn swap_count_spec(width: int, height: int, intensity: int) -> int {
    let c = (width * height * intensity) / (ONE as int);
    if c > u32::MAX {
        u32::MAX as int
    } else {
        c
    }
}

/// Returns how many pairs a pixel scramble draws.
pub fn swap_count(width: u32, height: u32, intensity: u32) -> (r: u32)
    ensures
        r == swap_count_spec(width as int, height as int, intensity as int),
{
    let total: u128 = crate::image::area_u64(width, height) as u128;
    assert(total * intensity <= u128::MAX) by (nonlinear_arith)
        requires
            total == width as int * height as int,
            width <= u32::MAX,
            height <= u32::MAX,
            intensity <= u32::MAX,
    ;
    let c = total * (intensity as u128) / (ONE as u128);
    if c > u32::MAX as u128 {
        u32::MAX
    } else {
        c as u32
    }
}

/// Applies `swaps` in order to a copy of `image`.
pub fn apply_pixel_swaps(image: &PixelBuffer, swaps: &Vec<PixelSwap>) -> (r: PixelBuffer)
    requires
        image.wf(),
        forall|k: int| 0 <= k < swaps@.len() ==> swap_in_grid(#[trigger] swaps@[k], image.width as int, image.height as int),
    ensures
        r.wf(),
        r.same_size(image),
        r.pixels@ == apply_swaps_spec(image.pixels@, image.width as int, swaps@),
{
    let mut out = PixelBuffer { width: image.width, height: image.height, pixels: image.pixels.clone() };
    assert(out.pixels@ =~= image.pixels@);
    let mut k: usize = 0;
    while k < swaps.len()
        invariant
            image.wf(),
            out.wf(),
            out.same_size(image),
            k <= swaps@.len(),
            forall|k: int| 0 <= k < swaps@.len() ==> swap_in_grid(#[trigger] swaps@[k], image.width as int, image.height as int),
            out.pixels@ == apply_swaps_spec(image.pixels@, image.width as int, swaps@.subrange(0, k as int)),
        decreases swaps@.len() - k,
    {
        let s = swaps[k];
        swap_in_place(&mut out, s);
        proof {
            assert(swaps@.subrange(0, k + 1).drop_last() =~= swaps@.subrange(0, k as int));
        }
        k = k + 1;
    }
    assert(swaps@.subrange(0, swaps@.len() as int) =~= swaps@);
    out
}

/// Swaps the two pixels of `s` in place.
fn swap_in_place(img: &mut PixelBuffer, s: PixelSwap)
    requires
        old(img).wf(),
        swap_in_grid(s, old(img).width as int, old(img).height as int),
    ensures
        final(img).wf(),
        final(img).same_size(&*old(img)),
        final(img).pixels@ == swap_cells(
            old(img).pixels@,
            s.y1 * old(img).width + s.x1,
            s.y2 * old(img).width + s.x2,
        ),
{
    let p1 = img.get(s.x1, s.y1);
    let p2 = img.get(s.x2, s.y2);
    img.set(s.x1, s.y1, p2);
    img.set(s.x2, s.y2, p1);
}

/// Swapping pixels only reorders them: the multiset of pixels is kept.
pub proof fn lemma_swaps_keep_pixels(px: Seq<Pixel>, width: int, height: int, swaps: Seq<PixelSwap>)
    requires
        px.len() == width * height,
        forall|k: int| 0 <= k < swaps.len() ==> swap_in_grid(#[trigger] swaps[k], width, height),
    ensures
        apply_swaps_spec(px, width, swaps).len() == px.len(),
        apply_swaps_spec(px, width, swaps).to_multiset() == px.to_multiset(),
    decreases swaps.len(),
{
    if swaps.len() > 0 {
        let rest = swaps.drop_last();
        lemma_swaps_keep_pixels(px, width, height, rest);
        let q = apply_swaps_spec(px, width, rest);
        let s = swaps.last();
        assert(swap_in_grid(swaps[swaps.len() - 1], width, height));
        lemma_cell_index(width, height, s.x1 as int, s.y1 as int);
        lemma_cell_index(width, height, s.x2 as int, s.y2 as int);
        let i = s.y1 * width + s.x1;
        let j = s.y2 * width + s.x2;
        let q1 = q.update(i, q[j]);
        assert(q1.to_multiset() == q.to_multiset().insert(q[j]).remove(q[i]));
        assert(q1.update(j, q[i]).to_multiset() == q1.to_multiset().insert(q[i]).remove(q1[j]));
        assert(q1[j] == q[j]);
        assert(q1.update(j, q[i]).to_multiset() =~= q.to_multiset());
    }
}

/// Draws a random pair inside a `width` by `height` grid.
fn draw_swap(rng: &mut StdRng, width: u32, height: u32) -> (r: PixelSwap)
    requires
        width > 0,
        height > 0,
    ensures
        swap_in_grid(r, width as int, height as int),
{
    let x1 = draw_below(rng, width);
    let y1 = draw_below(rng, height);
    let x2 = draw_below(rng, width);
    let y2 = draw_below(rng, height);
    PixelSwap { x1, y1, x2, y2 }
}

/// Scrambles `image` by swapping `swap_count(width, height, intensity)`
/// randomly drawn pairs of pixels, drawn from a generator seeded with
/// `seed`; `intensity` is in units of `ONE`. The pairs are drawn with
/// replacement, so this is not a uniform permutation. Fails with
/// `InvalidInput` on an image with no pixels.
pub fn scramble_pixels(image: &PixelBuffer, intensity: u32, seed: u64) -> (r: Result<PixelBuffer, EngineError>)
    requires
        image.wf(),
    ensures
        r is Err <==> image.width == 0 || image.height == 0,
        r matches Err(e) ==> e == EngineError::InvalidInput,
        r matches Ok(out) ==> {
            &&& out.wf()
            &&& out.same_size(image)
            &&& exists|swaps: Seq<PixelSwap>| #[trigger] is_swap_run(*image, intensity as int, swaps, out.pixels@)
        },
{
    if image.width == 0 || image.height == 0 {
        return Err(EngineError::InvalidInput);
    }
    let mut rng = seeded_rng(seed);
    let count = swap_count(image.width, image.height, intensity);
    let mut swaps: Vec<PixelSwap> = Vec::new();
    let mut k: u32 = 0;
    while k < count
        invariant
            k <= count,
            image.width > 0 && image.height > 0,
            swaps@.len() == k,
            forall|i: int| 0 <= i < swaps@.len() ==> swap_in_grid(#[trigger] swaps@[i], image.width as int, image.height as int),
        decreases count - k,
    {
        let s = draw_swap(&mut rng, image.width, image.height);
        swaps.push(s);
        k = k + 1;
    }
    let r = apply_pixel_swaps(image, &swaps);
    assert(is_swap_run(*image, intensity as int, swaps@, r.pixels@));
    Ok(r)
}

/// `out` is what `image` becomes under `swaps`, a run of the right number of
/// pairs inside the grid.
pub open spec fn is_swap_run(image: PixelBuffer, intensity: int, swaps: Seq<PixelSwap>, out: Seq<Pixel>) -> bool {
    &&& swaps.len() == swap_count_spec(image.width as int, image.height as int, intensity)
    &&& forall|k: int| 0 <= k < swaps.len() ==> swap_in_grid(#[trigger] swaps[k], image.width as int, image.height as int)
    &&& out == apply_swaps_spec(image.pixels@, image.width as int, swaps)
}

/// A pixel scramble at zero intensity returns the image unchanged.
pub proof fn lemma_zero_intensity_identity(image: PixelBuffer, swaps: Seq<PixelSwap>, out: Seq<Pixel>)
    requires
        image.wf(),
        is_swap_run(image, 0, swaps, out),
    ensures
        out == image.pixels@,
{
    assert(swaps.len() == 0);
}

/// On an image of one colour every run of swaps gives the same pixels: the
/// image itself.
pub proof fn lemma_uniform_image_unchanged(px: Seq<Pixel>, width: int, height: int, swaps: Seq<PixelSwap>, p: Pixel)
    requires
        px.len() == width * height,
        forall|i: int| 0 <= i < px.len() ==> px[i] == p,
        forall|k: int| 0 <= k < swaps.len() ==> swap_in_grid(#[trigger] swaps[k], width, height),
    ensures
        apply_swaps_spec(px, width, swaps) == px,
    decreases swaps.len(),
{
    if swaps.len() > 0 {
        let rest = swaps.drop_last();
        lemma_uniform_image_unchanged(px, width, height, rest, p);
        let s = swaps.last();
        assert(swap_in_grid(swaps[swaps.len() - 1], width, height));
        lemma_cell_index(width, height, s.x1 as int, s.y1 as int);
        lemma_cell_index(width, height, s.x2 as int, s.y2 as int);
        assert(swap_cells(px, s.y1 * width + s.x1, s.y2 * width + s.x2) =~= px);
    }
}

} // verus!
