//! Restricting a transform to regions: crops, masks, and pasting transformed
//! crops back in `Include` or `Exclude` mode.
use vstd::prelude::*;
use crate::image::{PixelBuffer, Pixel, blank_pixel, lemma_index_cell};
use crate::region::FaceRegion;
use crate::types::{BackgroundMode, EngineError};

verus! {

/// The region is a proper box inside a `width` by `height` image.
pub open spec fn region_fits(r: FaceRegion, width: int, height: int) -> bool {
    r.x1 < r.x2 <= width && r.y1 < r.y2 <= height
}

/// Returns whether the region is a proper box inside the image.
pub fn fits(r: &FaceRegion, width: u32, height: u32) -> (b: bool)
    ensures
        b == region_fits(*r, width as int, height as int),
{
    r.x1 < r.x2 && r.x2 <= width && r.y1 < r.y2 && r.y2 <= height
}

/// `c` holds exactly the pixels of `image` inside region `r`.
pub open spec fn is_crop_of(c: PixelBuffer, image: PixelBuffer, r: FaceRegion) -> bool {
    &&& c.wf()
    &&& c.width == r.x2 - r.x1
    &&& c.height == r.y2 - r.y1
    &&& forall|i: int|
        0 <= i < c.pixels@.len() ==> #[trigger] c.pixels@[i] == image.at(
            r.x1 + i % c.width as int,
            r.y1 + i / c.width as int,
        )
}

/// The sub-image of `image` inside region `r`.
pub fn crop(image: &PixelBuffer, r: &FaceRegion) -> (c: PixelBuffer)
    requires
        image.wf(),
        region_fits(*r, image.width as int, image.height as int),
    ensures
        is_crop_of(c, *image, *r),
{
    let w = r.x2 - r.x1;
    let h = r.y2 - r.y1;
    let n = crate::image::area_u64(w, h);
    let _total = image.pixels.len();
    proof {
        assert(n <= image.pixels@.len()) by (nonlinear_arith)
            requires
                n == w as int * h as int,
                image.pixels@.len() == image.width as int * image.height as int,
                w <= image.width,
                h <= image.height,
        ;
    }
    let n = n as usize;
    let mut pixels: Vec<Pixel> = Vec::with_capacity(n);
    let mut i: usize = 0;
    while i < n
        invariant
            image.wf(),
            region_fits(*r, image.width as int, image.height as int),
            w == r.x2 - r.x1,
            h == r.y2 - r.y1,
            n == w as int * h as int,
            i <= n,
            pixels@.len() == i,
            forall|k: int|
                0 <= k < i ==> #[trigger] pixels@[k] == image.at(r.x1 + k % w as int, r.y1 + k / w as int),
        decreases n - i,
    {
        proof {
            lemma_index_cell(w as int, h as int, i as int);
        }
        let x = r.x1 + (i % w as usize) as u32;
        let y = r.y1 + (i / w as usize) as u32;
        pixels.push(image.get(x, y));
        i = i + 1;
    }
    PixelBuffer { width: w, height: h, pixels }
}

/// Patch `p` placed at the top-left corner of region `r` covers `(x, y)`.
pub open spec fn patch_covers(r: FaceRegion, p: PixelBuffer, x: int, y: int) -> bool {
    r.x1 <= x < r.x1 + p.width && r.y1 <= y < r.y1 + p.height
}

/// The canvas a composite starts from.
pub open spec fn base_at(image: PixelBuffer, mode: BackgroundMode, x: int, y: int) -> Pixel {
    match mode {
        BackgroundMode::Include => image.at(x, y),
        BackgroundMode::Exclude => blank_pixel(),
    }
}

/// The pixel at `(x, y)` after pasting the first `k` patches, in order, each
/// at the top-left corner of its region: the last patch that covers the
/// pixel wins, and an uncovered pixel keeps the canvas.
pub open spec fn composite_at(
    image: PixelBuffer,
    mode: BackgroundMode,
    regions: Seq<FaceRegion>,
    patches: Seq<PixelBuffer>,
    k: int,
    x: int,
    y: int,
) -> Pixel
    decreases k,
{
    if k <= 0 {
        base_at(image, mode, x, y)
    } else if patch_covers(regions[k - 1], patches[k - 1], x, y) {
        patches[k - 1].at(x - regions[k - 1].x1, y - regions[k - 1].y1)
    } else {
        composite_at(image, mode, regions, patches, k - 1, x, y)
    }
}

fn composite_pixel(
    image: &PixelBuffer,
    mode: BackgroundMode,
    regions: &Vec<FaceRegion>,
    patches: &Vec<PixelBuffer>,
    x: u32,
    y: u32,
) -> (r: Pixel)
    requires
        image.wf(),
        x < image.width,
        y < image.height,
        regions@.len() == patches@.len(),
        forall|k: int| 0 <= k < patches@.len() ==> (#[trigger] patches@[k]).wf(),
    ensures
        r == composite_at(*image, mode, regions@, patches@, regions@.len() as int, x as int, y as int),
{
    let mut k: usize = regions.len();
    while k > 0
        invariant
            k <= regions@.len(),
            regions@.len() == patches@.len(),
            forall|j: int| 0 <= j < patches@.len() ==> (#[trigger] patches@[j]).wf(),
            composite_at(*image, mode, regions@, patches@, regions@.len() as int, x as int, y as int)
                == composite_at(*image, mode, regions@, patches@, k as int, x as int, y as int),
        decreases k,
    {
        let r = regions[k - 1];
        let p = &patches[k - 1];
        if r.x1 as u64 <= x as u64 && (x as u64) < r.x1 as u64 + p.width as u64 && r.y1 as u64 <= y as u64
            && (y as u64) < r.y1 as u64 + p.height as u64 {
            return p.get(x - r.x1, y - r.y1);
        }
        k = k - 1;
    }
    match mode {
        BackgroundMode::Include => image.get(x, y),
        BackgroundMode::Exclude => Pixel::transparent(),
    }
}

/// Pastes each patch at the top-left corner of its region, in order, onto
/// the untouched image (`Include`) or onto a blank canvas of the image's
/// size (`Exclude`). Patch pixels outside the image are dropped. Fails with
/// `InvalidInput` when the two lists differ in length.
pub fn composite_regions(
    image: &PixelBuffer,
    regions: &Vec<FaceRegion>,
    patches: &Vec<PixelBuffer>,
    mode: BackgroundMode,
) -> (r: Result<PixelBuffer, EngineError>)
    requires
        image.wf(),
        forall|k: int| 0 <= k < patches@.len() ==> (#[trigger] patches@[k]).wf(),
    ensures
        r is Err <==> regions@.len() != patches@.len(),
        r matches Err(e) ==> e == EngineError::InvalidInput,
        r matches Ok(out) ==> {
            &&& out.wf()
            &&& out.same_size(image)
            &&& forall|i: int|
                0 <= i < out.pixels@.len() ==> #[trigger] out.pixels@[i] == composite_at(
                    *image,
                    mode,
                    regions@,
                    patches@,
                    regions@.len() as int,
                    i % image.width as int,
                    i / image.width as int,
                )
        },
{
    if regions.len() != patches.len() {
        return Err(EngineError::InvalidInput);
    }
    let w = image.width;
    let h = image.height;
    let npx = image.pixels.len();
    let mut out: Vec<Pixel> = Vec::with_capacity(npx);
    let mut i: usize = 0;
    while i < npx
        invariant
            image.wf(),
            npx == image.pixels@.len(),
            w == image.width,
            h == image.height,
            regions@.len() == patches@.len(),
            forall|k: int| 0 <= k < patches@.len() ==> (#[trigger] patches@[k]).wf(),
            i <= npx,
            out@.len() == i,
            forall|k: int|
                0 <= k < i ==> #[trigger] out@[k] == composite_at(
                    *image,
                    mode,
                    regions@,
                    patches@,
                    regions@.len() as int,
                    k % w as int,
                    k / w as int,
                ),
        decreases npx - i,
    {
        proof {
            lemma_index_cell(w as int, h as int, i as int);
        }
        let x = (i % (w as usize)) as u32;
        let y = (i / (w as usize)) as u32;
        out.push(composite_pixel(image, mode, regions, patches, x, y));
        i = i + 1;
    }
    Ok(PixelBuffer { width: w, height: h, pixels: out })
}

/// Pixel `(x, y)` lies inside some region.
pub open spec fn in_some_region(regions: Seq<FaceRegion>, x: int, y: int) -> bool {
    exists|k: int| 0 <= k < regions.len() && #[trigger] covers(regions[k], x, y)
}

/// Region `r` contains pixel `(x, y)`.
pub open spec fn covers(r: FaceRegion, x: int, y: int) -> bool {
    r.x1 <= x < r.x2 && r.y1 <= y < r.y2
}

/// A per-pixel mask of a `width` by `height` image, row by row: `true`
/// inside any of the regions.
pub fn region_mask(regions: &Vec<FaceRegion>, width: u32, height: u32) -> (m: Vec<bool>)
    requires
        width as int * height as int <= usize::MAX,
    ensures
        m@.len() == width as int * height as int,
        forall|i: int|
            0 <= i < m@.len() ==> #[trigger] m@[i] == in_some_region(regions@, i % width as int, i / width as int),
{
    let n = width as usize * height as usize;
    let mut m: Vec<bool> = Vec::with_capacity(n);
    let mut i: usize = 0;
    while i < n
        invariant
            n == width as int * height as int,
            i <= n,
            m@.len() == i,
            forall|k: int|
                0 <= k < i ==> #[trigger] m@[k] == in_some_region(regions@, k % width as int, k / width as int),
        decreases n - i,
    {
        proof {
            assert(width > 0) by (nonlinear_arith)
                requires
                    i < n,
                    n == width as int * height as int,
            ;
            lemma_index_cell(width as int, height as int, i as int);
        }
        let x = (i % (width as usize)) as u32;
        let y = (i / (width as usize)) as u32;
        let mut inside = false;
        let mut k: usize = 0;
        while k < regions.len()
            invariant
                k <= regions@.len(),
                inside == exists|j: int| 0 <= j < k && #[trigger] covers(regions@[j], x as int, y as int),
            decreases regions@.len() - k,
        {
            let r = regions[k];
            if r.x1 <= x && x < r.x2 && r.y1 <= y && y < r.y2 {
                inside = true;
                assert(covers(regions@[k as int], x as int, y as int));
            }
            proof {
                if !inside {
                    assert forall|j: int| 0 <= j < k + 1 implies !#[trigger] covers(regions@[j], x as int, y as int) by {
                        if j < k {
                            assert(!covers(regions@[j], x as int, y as int));
                        }
                    }
                }
            }
            k = k + 1;
        }
        m.push(inside);
        i = i + 1;
    }
    m
}

} // verus!
