//! The per-video keyframe controller. Frame `i` is a keyframe when `i == 0`
//! or it falls on the keyframe interval; a keyframe is scrambled afresh,
//! any other frame warps the previous scrambled frame along the optical flow
//! and, near a keyframe, crossfades with a fresh scramble. The caller runs
//! the scrambler and the flow service and hands their results back.
use vstd::prelude::*;
use crate::image::{PixelBuffer, Pixel};
use crate::warp::{FlowField, flow_sample_at, flow_matches, warp_image};
use crate::types::EngineError;
use crate::region::FaceRegion;
use crate::composite::{region_mask, in_some_region};

verus! {

/// Frame `i` is a keyframe: the first frame, or one on the interval (an
/// interval of zero makes only the first frame a keyframe).
pub open spec fn is_keyframe_spec(i: int, interval: int) -> bool {
    i == 0 || (interval > 0 && i % interval == 0)
}

/// Returns whether frame `frame_index` is a keyframe.
pub fn is_keyframe(frame_index: u64, keyframe_interval: u32) -> (r: bool)
    ensures
        r == is_keyframe_spec(frame_index as int, keyframe_interval as int),
{
    frame_index == 0 || (keyframe_interval > 0 && frame_index % (keyframe_interval as u64) == 0)
}

/// The weight of a fresh scramble in inter-frame `i`, out of `blend + 1`
/// parts. Within `blend` frames after a keyframe it falls from `blend`
/// (`1 - since / (blend + 1)`); within `blend` frames before the next one it
/// rises to `blend` (`1 - until / (blend + 1)`); where both apply the larger
/// counts; elsewhere it is zero.
pub open spec fn fresh_weight_spec(i: int, interval: int, blend: int) -> int {
    let since = if interval > 0 {
        i % interval
    } else {
        i
    };
    let after = if since <= blend {
        blend + 1 - since
    } else {
        0
    };
    let before = if interval > 0 && interval - since <= blend {
        blend + 1 - (interval - since)
    } else {
        0
    };
    if after >= before {
        after
    } else {
        before
    }
}

/// Returns the fresh weight of inter-frame `frame_index`, out of
/// `blend_frames + 1` parts.
pub fn fresh_weight(frame_index: u64, keyframe_interval: u32, blend_frames: u32) -> (r: u64)
    requires
        !is_keyframe_spec(frame_index as int, keyframe_interval as int),
    ensures
        r == fresh_weight_spec(frame_index as int, keyframe_interval as int, blend_frames as int),
        r <= blend_frames,
{
    let since: u64 = if keyframe_interval > 0 { frame_index % keyframe_interval as u64 } else { frame_index };
    let b = blend_frames as u64;
    let after: u64 = if since <= b { b + 1 - since } else { 0 };
    let before: u64 = if keyframe_interval > 0 && keyframe_interval as u64 - since <= b {
        b + 1 - (keyframe_interval as u64 - since)
    } else {
        0
    };
    if after >= before {
        after
    } else {
        before
    }
}

/// One channel of a crossfade that gives `fresh` `weight` parts out of
/// `total`, rounded to nearest.
pub open spec fn crossfade_spec(base: int, fresh: int, weight: int, total: int) -> int {
    (base * (total - weight) + fresh * weight + total / 2) / total
}

pub open spec fn crossfade_pixel_spec(p: Pixel, q: Pixel, weight: int, total: int) -> Pixel {
    Pixel {
        r: crossfade_spec(p.r as int, q.r as int, weight, total) as u8,
        g: crossfade_spec(p.g as int, q.g as int, weight, total) as u8,
        b: crossfade_spec(p.b as int, q.b as int, weight, total) as u8,
        a: crossfade_spec(p.a as int, q.a as int, weight, total) as u8,
    }
}

fn crossfade_channel(p: u8, q: u8, weight: u64, total: u64) -> (r: u8)
    requires
        0 < total <= u32::MAX + 1,
        weight <= total,
    ensures
        r == crossfade_spec(p as int, q as int, weight as int, total as int),
{
    assert(p * (total - weight) + q * weight <= 255 * total) by (nonlinear_arith)
        requires
            0 <= p <= 255,
            0 <= q <= 255,
            0 <= weight <= total,
    ;
    assert(p * (total - weight) >= 0 && q * weight >= 0) by (nonlinear_arith)
        requires
            0 <= p,
            0 <= q,
            0 <= weight <= total,
    ;
    let num = p as u64 * (total - weight) + q as u64 * weight + total / 2;
    assert(num / total <= 255) by (nonlinear_arith)
        requires
            num <= 255 * total + total / 2,
            total > 0,
    ;
    (num / total) as u8
}

/// Crossfades two pixels, `fresh` taking `weight` parts out of `total`.
pub fn crossfade_pixel(p: Pixel, fresh: Pixel, weight: u64, total: u64) -> (r: Pixel)
    requires
        0 < total <= u32::MAX + 1,
        weight <= total,
    ensures
        r == crossfade_pixel_spec(p, fresh, weight as int, total as int),
{
    Pixel {
        r: crossfade_channel(p.r, fresh.r, weight, total),
        g: crossfade_channel(p.g, fresh.g, weight, total),
        b: crossfade_channel(p.b, fresh.b, weight, total),
        a: crossfade_channel(p.a, fresh.a, weight, total),
    }
}

/// A crossfade with no fresh weight keeps the base channel, and one with
/// the full weight gives the fresh channel.
pub proof fn lemma_crossfade_ends(base: int, fresh: int, total: int)
    requires
        0 <= base <= 255,
        0 <= fresh <= 255,
        total > 0,
    ensures
        crossfade_spec(base, fresh, 0, total) == base,
        crossfade_spec(base, fresh, total, total) == fresh,
{
    assert(base * (total - 0) + fresh * 0 + total / 2 == total * base + total / 2) by (nonlinear_arith);
    assert(base * (total - total) + fresh * total + total / 2 == total * fresh + total / 2) by (nonlinear_arith);
    vstd::arithmetic::div_mod::lemma_mod_pos_bound(total, 2);
    vstd::arithmetic::div_mod::lemma_fundamental_div_mod(total, 2);
    vstd::arithmetic::div_mod::lemma_fundamental_div_mod_converse(base * total + total / 2, total, base, total / 2);
    vstd::arithmetic::div_mod::lemma_fundamental_div_mod_converse(fresh * total + total / 2, total, fresh, total / 2);
}

/// The mask a keyframe caches: none without face detection (`regions` is
/// `None`) or when no region was found, else one flag per pixel of a
/// `width` by `height` frame, set inside any region.
pub fn keyframe_mask(regions: Option<&Vec<FaceRegion>>, width: u32, height: u32) -> (m: Option<Vec<bool>>)
    requires
        width as int * height as int <= usize::MAX,
    ensures
        m is None <==> (regions is None || regions->0@.len() == 0),
        m matches Some(v) ==> {
            &&& v@.len() == width as int * height as int
            &&& forall|i: int|
                0 <= i < v@.len() ==> #[trigger] v@[i] == in_some_region(
                    regions->0@,
                    i % width as int,
                    i / width as int,
                )
        },
{
    match regions {
        Some(r) => {
            if r.len() == 0 {
                None
            } else {
                Some(region_mask(r, width, height))
            }
        },
        None => None,
    }
}

/// Options of the keyframe controller.
#[derive(Clone, Copy, Debug, PartialEq, Eq, Structural)]
pub struct TemporalOptions {
    /// Frames between keyframes; zero makes only the first frame one.
    pub keyframe_interval: u32,
    /// Frames on each side of a keyframe that crossfade with a fresh scramble.
    pub blend_frames: u32,
}

/// What the caller must supply for the next frame.
#[derive(Clone, Copy, Debug, PartialEq, Eq, Structural)]
pub enum FrameAction {
    /// Scramble the frame afresh (and detect regions, if enabled).
    Keyframe,
    /// Compute the flow from the frame to the previous original; when
    /// `fresh_weight` is not zero, also scramble the frame afresh for a
    /// crossfade in which the fresh frame takes `fresh_weight` parts out of
    /// `blend_frames + 1`.
    InterFrame { fresh_weight: u64 },
}

/// The state carried from one frame to the next.
pub struct FrameState {
    pub frame_index: u64,
    pub prev_original: Option<PixelBuffer>,
    pub prev_scrambled: Option<PixelBuffer>,
    /// The region mask of the last keyframe, one flag per pixel.
    pub keyframe_face_mask: Option<Vec<bool>>,
}

/// Drives one video stream frame by frame, in order.
pub struct TemporalController {
    pub options: TemporalOptions,
    pub state: FrameState,
}

/// The output pixel `i` of an inter-frame before any crossfade: the warped
/// previous scrambled frame, restricted to the mask when there is one (the
/// rest is the current original).
pub open spec fn inter_pixel_spec(
    prev: PixelBuffer,
    current: PixelBuffer,
    flow: FlowField,
    mask: Option<Vec<bool>>,
    i: int,
) -> Pixel {
    match mask {
        Some(m) => if m@[i] {
            flow_sample_at(prev, flow, i)
        } else {
            current.pixels@[i]
        },
        None => flow_sample_at(prev, flow, i),
    }
}

/// The output pixel `i` of an inter-frame.
pub open spec fn inter_frame_output_spec(
    prev: PixelBuffer,
    current: PixelBuffer,
    flow: FlowField,
    mask: Option<Vec<bool>>,
    fresh: Option<PixelBuffer>,
    weight: int,
    total: int,
    i: int,
) -> Pixel {
    let p = inter_pixel_spec(prev, current, flow, mask, i);
    if weight == 0 {
        p
    } else {
        crossfade_pixel_spec(p, fresh->0.pixels@[i], weight, total)
    }
}

/// Why an inter-frame cannot be completed, if it cannot.
pub open spec fn inter_frame_check(
    c: TemporalController,
    original: PixelBuffer,
    flow: FlowField,
    fresh: Option<PixelBuffer>,
) -> Option<EngineError> {
    let i = c.state.frame_index as int;
    let k = c.options.keyframe_interval as int;
    if is_keyframe_spec(i, k) {
        Some(EngineError::InvalidInput)
    } else if c.state.prev_original is None || c.state.prev_scrambled is None {
        Some(EngineError::MissingKeyframe)
    } else {
        let prev = c.state.prev_scrambled->0;
        let prev_original = c.state.prev_original->0;
        let w = fresh_weight_spec(i, k, c.options.blend_frames as int);
        if original.width == 0 || original.height == 0 || !prev.wf() || !prev.same_size(&original) || !prev_original.same_size(&original) || !flow_matches(
            prev,
            flow,
        ) || (c.state.keyframe_face_mask matches Some(m) && m@.len() != original.pixels@.len()) || (w > 0
            && !(fresh matches Some(f) && f.same_size(&original))) {
            Some(EngineError::InvalidInput)
        } else {
            None
        }
    }
}

impl TemporalController {
    /// A controller at the start of a stream.
    pub fn new(options: TemporalOptions) -> (r: TemporalController)
        ensures
            r.options == options,
            r.state.frame_index == 0,
            r.state.prev_original is None,
            r.state.prev_scrambled is None,
            r.state.keyframe_face_mask is None,
    {
        TemporalController {
            options,
            state: FrameState { frame_index: 0, prev_original: None, prev_scrambled: None, keyframe_face_mask: None },
        }
    }

    /// What the next frame needs: a keyframe exactly when the frame index
    /// says so, otherwise an inter-frame with its fresh weight.
    pub fn next_action(&self) -> (r: FrameAction)
        ensures
            r is Keyframe <==> is_keyframe_spec(self.state.frame_index as int, self.options.keyframe_interval as int),
            r matches FrameAction::InterFrame { fresh_weight } ==> fresh_weight == fresh_weight_spec(
                self.state.frame_index as int,
                self.options.keyframe_interval as int,
                self.options.blend_frames as int,
            ),
    {
        let i = self.state.frame_index;
        if is_keyframe(i, self.options.keyframe_interval) {
            FrameAction::Keyframe
        } else {
            FrameAction::InterFrame {
                fresh_weight: fresh_weight(i, self.options.keyframe_interval, self.options.blend_frames),
            }
        }
    }

    /// Completes a keyframe: `scrambled` is the fresh scramble of
    /// `original`, `mask` the region mask to cache (or `None` to clear it).
    /// Stores both frames and the mask, advances the frame index, and returns
    /// the scrambled frame. Fails with `InvalidInput` when the frame is not a
    /// keyframe, has no pixels, the two frames differ in size, or the mask
    /// does not hold one flag per pixel.
    pub fn finish_keyframe(
        &mut self,
        original: PixelBuffer,
        scrambled: PixelBuffer,
        mask: Option<Vec<bool>>,
    ) -> (r: Result<PixelBuffer, EngineError>)
        requires
            original.wf(),
            scrambled.wf(),
            old(self).state.frame_index < u64::MAX,
        ensures
            r is Err <==> !is_keyframe_spec(old(self).state.frame_index as int, old(self).options.keyframe_interval as int)
                || original.width == 0 || original.height == 0 || !original.same_size(&scrambled) || (mask matches Some(m) && m@.len() != original.pixels@.len()),
            r matches Err(e) ==> e == EngineError::InvalidInput && *final(self) == *old(self),
            r matches Ok(out) ==> {
                &&& out.same_size(&scrambled) && out.pixels@ == scrambled.pixels@
                &&& final(self).options == old(self).options
                &&& final(self).state.frame_index == old(self).state.frame_index + 1
                &&& final(self).state.prev_original == Some(original)
                &&& final(self).state.prev_scrambled == Some(scrambled)
                &&& final(self).state.keyframe_face_mask == mask
            },
    {
        if !is_keyframe(self.state.frame_index, self.options.keyframe_interval) {
            return Err(EngineError::InvalidInput);
        }
        if original.width == 0 || original.height == 0 || original.width != scrambled.width
            || original.height != scrambled.height {
            return Err(EngineError::InvalidInput);
        }
        match &mask {
            Some(m) => {
                if m.len() != original.pixels.len() {
                    return Err(EngineError::InvalidInput);
                }
            },
            None => {},
        }
        let out = scrambled.duplicate();
        self.state.frame_index = self.state.frame_index + 1;
        self.state.prev_original = Some(original);
        self.state.prev_scrambled = Some(scrambled);
        self.state.keyframe_face_mask = mask;
        Ok(out)
    }

    /// Completes an inter-frame: warps the previous scrambled frame along
    /// `flow` (the flow from `original` to the previous original), keeps the
    /// warped pixels only inside the cached mask if there is one (the current
    /// original elsewhere), and crossfades with `fresh` by the frame's fresh
    /// weight. Stores the original and the result, advances the frame index,
    /// and returns the result. Fails with `MissingKeyframe` before any
    /// keyframe, and with `InvalidInput` on a keyframe, on a frame with no
    /// pixels, or on mismatched sizes (a fresh frame is needed exactly when
    /// the fresh weight is not zero).
    pub fn finish_inter_frame(
        &mut self,
        original: PixelBuffer,
        flow: &FlowField,
        fresh: Option<PixelBuffer>,
    ) -> (r: Result<PixelBuffer, EngineError>)
        requires
            original.wf(),
            fresh matches Some(f) ==> f.wf(),
            old(self).state.frame_index < u64::MAX,
        ensures
            r is Err <==> inter_frame_check(*old(self), original, *flow, fresh) is Some,
            r matches Err(e) ==> inter_frame_check(*old(self), original, *flow, fresh) == Some(e) && *final(self)
                == *old(self),
            r matches Ok(out) ==> {
                &&& out.wf()
                &&& out.same_size(&original)
                &&& forall|i: int|
                    0 <= i < out.pixels@.len() ==> #[trigger] out.pixels@[i] == inter_frame_output_spec(
                        old(self).state.prev_scrambled->0,
                        original,
                        *flow,
                        old(self).state.keyframe_face_mask,
                        fresh,
                        fresh_weight_spec(
                            old(self).state.frame_index as int,
                            old(self).options.keyframe_interval as int,
                            old(self).options.blend_frames as int,
                        ),
                        old(self).options.blend_frames + 1,
                        i,
                    )
                &&& final(self).options == old(self).options
                &&& final(self).state.frame_index == old(self).state.frame_index + 1
                &&& final(self).state.prev_original == Some(original)
                &&& (final(self).state.prev_scrambled matches Some(p) && p.same_size(&out) && p.pixels@ == out.pixels@)
                &&& final(self).state.keyframe_face_mask == old(self).state.keyframe_face_mask
            },
    {
        let index = self.state.frame_index;
        let interval = self.options.keyframe_interval;
        if is_keyframe(index, interval) {
            return Err(EngineError::InvalidInput);
        }
        let weight = fresh_weight(index, interval, self.options.blend_frames);
        let total = self.options.blend_frames as u64 + 1;
        let warped = match (&self.state.prev_original, &self.state.prev_scrambled) {
            (Some(prev_original), Some(prev)) => {
                if original.width == 0 || original.height == 0 || !prev.is_well_formed() || prev.width != original.width || prev.height != original.height
                    || prev_original.width != original.width || prev_original.height != original.height {
                    return Err(EngineError::InvalidInput);
                }
                match warp_image(prev, flow) {
                    Ok(w) => w,
                    Err(e) => {
                        return Err(e);
                    },
                }
            },
            _ => {
                return Err(EngineError::MissingKeyframe);
            },
        };
        let npx = original.pixels.len();
        match &self.state.keyframe_face_mask {
            Some(m) => {
                if m.len() != npx {
                    return Err(EngineError::InvalidInput);
                }
            },
            None => {},
        }
        if weight > 0 {
            match &fresh {
                Some(f) => {
                    if f.width != original.width || f.height != original.height {
                        return Err(EngineError::InvalidInput);
                    }
                },
                None => {
                    return Err(EngineError::InvalidInput);
                },
            }
        }
        let ghost prev = self.state.prev_scrambled->0;
        let mut out: Vec<Pixel> = Vec::with_capacity(npx);
        let mut i: usize = 0;
        while i < npx
            invariant
                original.wf(),
                npx == original.pixels@.len(),
                warped.wf(),
                warped.same_size(&original),
                forall|k: int| 0 <= k < warped.pixels@.len() ==> #[trigger] warped.pixels@[k] == flow_sample_at(prev, *flow, k),
                self.state.keyframe_face_mask matches Some(m) ==> m@.len() == npx,
                weight > 0 ==> (fresh matches Some(f) && f.same_size(&original)),
                fresh matches Some(f) ==> f.wf(),
                weight <= self.options.blend_frames,
                total == self.options.blend_frames + 1,
                i <= npx,
                out@.len() == i,
                forall|k: int|
                    0 <= k < i ==> #[trigger] out@[k] == inter_frame_output_spec(
                        prev,
                        original,
                        *flow,
                        self.state.keyframe_face_mask,
                        fresh,
                        weight as int,
                        total as int,
                        k,
                    ),
            decreases npx - i,
        {
            let w = warped.pixels[i];
            let p = match &self.state.keyframe_face_mask {
                Some(m) => if m[i] {
                    w
                } else {
                    original.pixels[i]
                },
                None => w,
            };
            let q = if weight > 0 {
                match &fresh {
                    Some(f) => crossfade_pixel(p, f.pixels[i], weight, total),
                    None => p,
                }
            } else {
                p
            };
            out.push(q);
            i = i + 1;
        }
        let result = PixelBuffer { width: original.width, height: original.height, pixels: out };
        let stored = result.duplicate();
        self.state.frame_index = index + 1;
        self.state.prev_original = Some(original);
        self.state.prev_scrambled = Some(stored);
        Ok(result)
    }
}


/// The first frame is a keyframe whatever the interval.
pub proof fn lemma_first_frame_is_keyframe(interval: int)
    ensures
        is_keyframe_spec(0, interval),
{
}

/// With an interval of one every frame is a keyframe: the controller never
/// asks for an inter-frame, and refuses to complete one, so the flow path is
/// never taken.
pub proof fn lemma_interval_one_never_warps(
    c: TemporalController,
    original: PixelBuffer,
    flow: FlowField,
    fresh: Option<PixelBuffer>,
)
    requires
        c.options.keyframe_interval == 1,
    ensures
        is_keyframe_spec(c.state.frame_index as int, 1),
        inter_frame_check(c, original, flow, fresh) == Some(EngineError::InvalidInput),
{
    assert(c.state.frame_index as int % 1 == 0);
}

} // verus!
