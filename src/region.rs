//! Detected regions: validation, expansion, overlap, greedy non-maximum
//! suppression, and compositing of transformed regions.
use vstd::prelude::*;
use crate::types::ONE;
use vstd::math::{max, min};

verus! {

/// An axis-aligned box `[x1, x2) x [y1, y2)` in pixel coordinates with a
/// detection confidence in units of `ONE`.
#[derive(Clone, Copy, Debug, PartialEq, Eq, Structural)]
pub struct FaceRegion {
    pub x1: u32,
    pub y1: u32,
    pub x2: u32,
    pub y2: u32,
    pub confidence: u32,
}

/// How far an expansion by `factor` (in units of `ONE`) grows each side of
/// an extent of `len`: `len * (factor - 1) / 2`, rounded down, and nothing
/// for a factor of at most one.
pub open spec fn expansion_spec(len: int, factor: int) -> int {
    if factor <= ONE {
        0
    } else {
        (len * (factor - ONE)) / (2 * ONE)
    }
}

fn expansion(len: u32, factor: u32) -> (r: u64)
    ensures
        r == expansion_spec(len as int, factor as int),
        r < 0x1000_0000_0000,
{
    if factor <= ONE {
        0
    } else {
        assert(len as int * (factor - ONE) <= u64::MAX) by (nonlinear_arith)
            requires
                len <= u32::MAX,
                factor <= u32::MAX,
                factor > ONE,
        ;
        let d = ((len as u64) * ((factor - ONE) as u64)) / (2 * ONE as u64);
        assert(d < 0x1000_0000_0000) by (nonlinear_arith)
            requires
                d == (len as int * (factor - ONE)) / (2 * ONE as int),
                len as int * (factor - ONE) <= u64::MAX,
                factor > ONE,
                len >= 0,
        ;
        d
    }
}

/// The box grown by `factor`, as `FaceRegion::expand` computes it.
pub open spec fn expand_spec(a: FaceRegion, factor: int, max_width: int, max_height: int) -> FaceRegion {
    let ex = expansion_spec(a.x2 - a.x1, factor);
    let ey = expansion_spec(a.y2 - a.y1, factor);
    FaceRegion {
        x1: max(0, a.x1 - ex) as u32,
        y1: max(0, a.y1 - ey) as u32,
        x2: min(a.x2 + ex, max_width) as u32,
        y2: min(a.y2 + ey, max_height) as u32,
        confidence: a.confidence,
    }
}

impl FaceRegion {
    /// The box has a positive width and height.
    pub open spec fn is_proper(&self) -> bool {
        self.x1 < self.x2 && self.y1 < self.y2
    }

    /// The box is not inverted.
    pub open spec fn is_ordered(&self) -> bool {
        self.x1 <= self.x2 && self.y1 <= self.y2
    }

    /// Whether the region's confidence reaches `min_confidence`.
    pub fn is_valid_for_scrambling(&self, min_confidence: u32) -> (r: bool)
        ensures
            r == (self.confidence >= min_confidence),
    {
        self.confidence >= min_confidence
    }

    /// Width and height of the box.
    pub fn dimensions(&self) -> (r: (u32, u32))
        requires
            self.is_ordered(),
        ensures
            r.0 == self.x2 - self.x1,
            r.1 == self.y2 - self.y1,
    {
        (self.x2 - self.x1, self.y2 - self.y1)
    }

    /// Grows the box symmetrically by `factor` (in units of `ONE`): each side
    /// moves out by `expansion_spec` of the box's extent, clamped at zero
    /// below and at `max_width` / `max_height` above. The confidence is kept.
    pub fn expand(&self, factor: u32, max_width: u32, max_height: u32) -> (r: FaceRegion)
        requires
            self.is_ordered(),
        ensures
            r == expand_spec(*self, factor as int, max_width as int, max_height as int),
            r.confidence == self.confidence,
            r.x1 == max(0, self.x1 - expansion_spec(self.x2 - self.x1, factor as int)),
            r.y1 == max(0, self.y1 - expansion_spec(self.y2 - self.y1, factor as int)),
            r.x2 == min(self.x2 + expansion_spec(self.x2 - self.x1, factor as int), max_width as int),
            r.y2 == min(self.y2 + expansion_spec(self.y2 - self.y1, factor as int), max_height as int),
    {
        let ex = expansion(self.x2 - self.x1, factor);
        let ey = expansion(self.y2 - self.y1, factor);
        let x1 = if ex >= self.x1 as u64 { 0 } else { self.x1 - ex as u32 };
        let y1 = if ey >= self.y1 as u64 { 0 } else { self.y1 - ey as u32 };
        let x2 = if self.x2 as u64 + ex >= max_width as u64 { max_width } else { (self.x2 as u64 + ex) as u32 };
        let y2 = if self.y2 as u64 + ey >= max_height as u64 { max_height } else { (self.y2 as u64 + ey) as u32 };
        FaceRegion { x1, y1, x2, y2, confidence: self.confidence }
    }
}

/// The area of the overlap of two boxes (zero when they do not meet).
pub open spec fn intersection_spec(a: FaceRegion, b: FaceRegion) -> int {
    let xl = max(a.x1 as int, b.x1 as int);
    let yt = max(a.y1 as int, b.y1 as int);
    let xr = min(a.x2 as int, b.x2 as int);
    let yb = min(a.y2 as int, b.y2 as int);
    if xr < xl || yb < yt {
        0
    } else {
        (xr - xl) * (yb - yt)
    }
}

/// The area of a box; an inverted box has none.
pub open spec fn area_spec(a: FaceRegion) -> int {
    if a.is_ordered() {
        (a.x2 - a.x1) * (a.y2 - a.y1)
    } else {
        0
    }
}

/// Intersection over union of `a` and `b` is strictly above `threshold`
/// (in units of `ONE`): `inter / (area_a + area_b - inter) > threshold / ONE`.
pub open spec fn iou_exceeds_spec(a: FaceRegion, b: FaceRegion, threshold: int) -> bool {
    let inter = intersection_spec(a, b);
    let union = area_spec(a) + area_spec(b) - inter;
    inter * ONE > threshold * union
}

fn region_area(a: &FaceRegion) -> (r: u128)
    ensures
        r == area_spec(*a),
        r <= u64::MAX,
{
    if a.x1 <= a.x2 && a.y1 <= a.y2 {
        crate::image::area_u64(a.x2 - a.x1, a.y2 - a.y1) as u128
    } else {
        0
    }
}

/// Returns whether the intersection over union of `a` and `b` is strictly
/// above `threshold` (in units of `ONE`).
pub fn iou_exceeds(a: &FaceRegion, b: &FaceRegion, threshold: u32) -> (r: bool)
    ensures
        r == iou_exceeds_spec(*a, *b, threshold as int),
{
    let xl = if a.x1 >= b.x1 { a.x1 } else { b.x1 };
    let yt = if a.y1 >= b.y1 { a.y1 } else { b.y1 };
    let xr = if a.x2 <= b.x2 { a.x2 } else { b.x2 };
    let yb = if a.y2 <= b.y2 { a.y2 } else { b.y2 };
    let inter: u128 = if xr < xl || yb < yt {
        0
    } else {
        crate::image::area_u64(xr - xl, yb - yt) as u128
    };
    let area_a = region_area(a);
    let area_b = region_area(b);
    proof {
        if !(xr < xl || yb < yt) {
            assert(inter <= u64::MAX);
            assert(a.is_ordered());
            {
                assert(inter <= area_a) by (nonlinear_arith)
                    requires
                        inter == (xr - xl) as int * (yb - yt) as int,
                        area_a == (a.x2 - a.x1) as int * (a.y2 - a.y1) as int,
                        0 <= xr - xl <= a.x2 - a.x1,
                        0 <= yb - yt <= a.y2 - a.y1,
                ;
            }
        }
        assert(area_a <= u64::MAX);
        assert(area_b <= u64::MAX);
    }
    assert(inter * ONE <= u128::MAX) by (nonlinear_arith)
        requires
            inter <= u64::MAX,
            ONE == 1_000_000,
    ;
    let union = area_a + area_b - inter;
    assert(threshold * union <= u128::MAX) by (nonlinear_arith)
        requires
            area_a <= u64::MAX,
            area_b <= u64::MAX,
            union <= area_a + area_b,
            threshold <= u32::MAX,
    ;
    inter * (ONE as u128) > (threshold as u128) * union
}


/// Inserts `r` after the last entry (from the end) whose confidence is at
/// least `r`'s: one step of a stable sort by descending confidence.
pub open spec fn insert_by_confidence(s: Seq<FaceRegion>, r: FaceRegion) -> Seq<FaceRegion>
    decreases s.len(),
{
    if s.len() == 0 {
        seq![r]
    } else if s.last().confidence >= r.confidence {
        s.push(r)
    } else {
        insert_by_confidence(s.drop_last(), r).push(s.last())
    }
}

/// `s` stably sorted by descending confidence.
pub open spec fn sort_by_confidence_spec(s: Seq<FaceRegion>) -> Seq<FaceRegion>
    decreases s.len(),
{
    if s.len() == 0 {
        s
    } else {
        insert_by_confidence(sort_by_confidence_spec(s.drop_last()), s.last())
    }
}

proof fn lemma_insert_at(s: Seq<FaceRegion>, r: FaceRegion, k: int)
    requires
        0 <= k <= s.len(),
        forall|j: int| k <= j < s.len() ==> (#[trigger] s[j]).confidence < r.confidence,
        k == 0 || s[k - 1].confidence >= r.confidence,
    ensures
        insert_by_confidence(s, r) == s.insert(k, r),
    decreases s.len(),
{
    if s.len() == k {
        if k == 0 {
            assert(s.insert(k, r) =~= seq![r]);
        } else {
            assert(s.insert(k, r) =~= s.push(r));
        }
    } else {
        assert(s[s.len() - 1].confidence < r.confidence);
        lemma_insert_at(s.drop_last(), r, k);
        assert(s.drop_last().insert(k, r).push(s.last()) =~= s.insert(k, r));
    }
}

/// Sorts regions by descending confidence; regions of equal confidence keep
/// their order.
pub fn sort_by_confidence(regions: &Vec<FaceRegion>) -> (r: Vec<FaceRegion>)
    ensures
        r@ == sort_by_confidence_spec(regions@),
{
    let mut sorted: Vec<FaceRegion> = Vec::new();
    let mut i: usize = 0;
    while i < regions.len()
        invariant
            i <= regions@.len(),
            sorted@ == sort_by_confidence_spec(regions@.subrange(0, i as int)),
        decreases regions@.len() - i,
    {
        let r = regions[i];
        let mut k: usize = sorted.len();
        while k > 0 && sorted[k - 1].confidence < r.confidence
            invariant
                k <= sorted@.len(),
                forall|j: int| k <= j < sorted@.len() ==> (#[trigger] sorted@[j]).confidence < r.confidence,
            decreases k,
        {
            k = k - 1;
        }
        proof {
            lemma_insert_at(sorted@, r, k as int);
            assert(regions@.subrange(0, i + 1).drop_last() =~= regions@.subrange(0, i as int));
        }
        sorted.insert(k, r);
        i = i + 1;
    }
    assert(regions@.subrange(0, regions@.len() as int) =~= regions@);
    sorted
}

/// Confidences never increase along `s`.
pub open spec fn sorted_by_confidence(s: Seq<FaceRegion>) -> bool {
    forall|i: int, j: int| 0 <= i < j < s.len() ==> (#[trigger] s[i]).confidence >= (#[trigger] s[j]).confidence
}

proof fn lemma_insert_keeps_order(s: Seq<FaceRegion>, r: FaceRegion)
    requires
        sorted_by_confidence(s),
    ensures
        sorted_by_confidence(insert_by_confidence(s, r)),
        insert_by_confidence(s, r).len() == s.len() + 1,
        forall|k: int|
            0 <= k < s.len() + 1 ==> #[trigger] insert_by_confidence(s, r)[k] == r || s.contains(
                insert_by_confidence(s, r)[k],
            ),
    decreases s.len(),
{
    let out = insert_by_confidence(s, r);
    if s.len() == 0 {
    } else if s.last().confidence >= r.confidence {
        assert forall|k: int| 0 <= k < s.len() + 1 implies #[trigger] out[k] == r || s.contains(out[k]) by {
            if k < s.len() {
                assert(out[k] == s[k]);
            }
        }
    } else {
        let d = s.drop_last();
        let last = s.last();
        assert(sorted_by_confidence(d)) by {
            assert forall|i: int, j: int| 0 <= i < j < d.len() implies (#[trigger] d[i]).confidence >= (
            #[trigger] d[j]).confidence by {
                assert(d[i] == s[i] && d[j] == s[j]);
            }
        }
        lemma_insert_keeps_order(d, r);
        let m = insert_by_confidence(d, r);
        assert(out == m.push(last));
        assert forall|k: int| 0 <= k < m.len() implies (#[trigger] m[k]).confidence >= last.confidence by {
            if m[k] != r {
                assert(d.contains(m[k]));
                let t = choose|t: int| 0 <= t < d.len() && d[t] == m[k];
                assert(s[t] == d[t]);
                assert(s[t].confidence >= s[s.len() - 1].confidence);
            }
        }
        assert forall|k: int| 0 <= k < s.len() + 1 implies #[trigger] out[k] == r || s.contains(out[k]) by {
            if k < m.len() {
                assert(out[k] == m[k]);
                if m[k] != r {
                    assert(d.contains(m[k]));
                    let t = choose|t: int| 0 <= t < d.len() && d[t] == m[k];
                    assert(s[t] == m[k]);
                }
            } else {
                assert(out[k] == last);
                assert(s[s.len() - 1] == last);
            }
        }
        assert forall|i: int, j: int| 0 <= i < j < out.len() implies (#[trigger] out[i]).confidence >= (
        #[trigger] out[j]).confidence by {
            if j < m.len() {
                assert(out[i] == m[i] && out[j] == m[j]);
            } else {
                assert(out[i] == m[i]);
            }
        }
    }
}

/// Sorting by confidence gives a sequence of the same length whose
/// confidences never increase.
pub proof fn lemma_sort_orders(s: Seq<FaceRegion>)
    ensures
        sorted_by_confidence(sort_by_confidence_spec(s)),
        sort_by_confidence_spec(s).len() == s.len(),
    decreases s.len(),
{
    if s.len() > 0 {
        lemma_sort_orders(s.drop_last());
        lemma_insert_keeps_order(sort_by_confidence_spec(s.drop_last()), s.last());
    }
}

/// The boxes that survive next to a kept box `first`.
pub open spec fn not_suppressed_by(first: FaceRegion, threshold: int) -> spec_fn(FaceRegion) -> bool {
    |b: FaceRegion| !iou_exceeds_spec(first, b, threshold)
}

/// Greedy non-maximum suppression over `s` in its order: keep the first box,
/// drop every later box whose overlap with it exceeds `threshold`, repeat.
pub open spec fn nms_spec(s: Seq<FaceRegion>, threshold: int) -> Seq<FaceRegion>
    decreases s.len(),
    via nms_decreases
{
    if s.len() == 0 {
        s
    } else {
        seq![s[0]] + nms_spec(s.skip(1).filter(not_suppressed_by(s[0], threshold)), threshold)
    }
}

#[via_fn]
proof fn nms_decreases(s: Seq<FaceRegion>, threshold: int) {
    if s.len() != 0 {
        s.skip(1).lemma_filter_len(not_suppressed_by(s[0], threshold));
    }
}

/// Greedy non-maximum suppression: walking `boxes` in order, keeps a box
/// and removes every later box whose intersection over union with it is
/// above `iou_threshold` (in units of `ONE`).
pub fn apply_nms(boxes: Vec<FaceRegion>, iou_threshold: u32) -> (r: Vec<FaceRegion>)
    ensures
        r@ == nms_spec(boxes@, iou_threshold as int),
{
    let mut result: Vec<FaceRegion> = Vec::new();
    let mut rest = boxes;
    while rest.len() > 0
        invariant
            result@ + nms_spec(rest@, iou_threshold as int) == nms_spec(boxes@, iou_threshold as int),
        decreases rest@.len(),
    {
        let first = rest[0];
        let ghost pred = not_suppressed_by(first, iou_threshold as int);
        let mut next: Vec<FaceRegion> = Vec::new();
        let mut k: usize = 1;
        while k < rest.len()
            invariant
                1 <= k <= rest@.len(),
                first == rest@[0],
                pred == not_suppressed_by(first, iou_threshold as int),
                next@ == rest@.subrange(1, k as int).filter(pred),
            decreases rest@.len() - k,
        {
            let b = rest[k];
            proof {
                reveal(Seq::filter);
                assert(rest@.subrange(1, k + 1).drop_last() =~= rest@.subrange(1, k as int));
                assert(rest@.subrange(1, k + 1).last() == b);
            }
            if !iou_exceeds(&first, &b, iou_threshold) {
                next.push(b);
            }
            k = k + 1;
        }
        proof {
            assert(rest@.subrange(1, rest@.len() as int) =~= rest@.skip(1));
            rest@.skip(1).lemma_filter_len(pred);
            assert(result@.push(first) + nms_spec(next@, iou_threshold as int) =~= result@ + nms_spec(rest@, iou_threshold as int));
        }
        result.push(first);
        rest = next;
    }
    assert(result@ + nms_spec(rest@, iou_threshold as int) =~= result@);
    result
}


/// Every box that non-maximum suppression keeps comes from its input.
pub proof fn lemma_nms_from_input(s: Seq<FaceRegion>, threshold: int)
    ensures
        forall|k: int| 0 <= k < nms_spec(s, threshold).len() ==> s.contains(#[trigger] nms_spec(s, threshold)[k]),
    decreases s.len(),
{
    if s.len() > 0 {
        let p = not_suppressed_by(s[0], threshold);
        let f = s.skip(1).filter(p);
        s.skip(1).lemma_filter_len(p);
        lemma_nms_from_input(f, threshold);
        let out = nms_spec(s, threshold);
        assert(out == seq![s[0]] + nms_spec(f, threshold));
        assert forall|k: int| 0 <= k < out.len() implies s.contains(#[trigger] out[k]) by {
            if k == 0 {
                assert(s[0] == out[0]);
            } else {
                let e = out[k];
                assert(e == nms_spec(f, threshold)[k - 1]);
                assert(f.contains(e));
                s.skip(1).lemma_filter_contains_rev(p, e);
                let j = choose|j: int| 0 <= j < s.skip(1).len() && s.skip(1)[j] == e;
                assert(s[j + 1] == e);
            }
        }
    }
}

/// No two boxes that non-maximum suppression keeps overlap by more than
/// the threshold.
pub proof fn lemma_nms_no_overlap(s: Seq<FaceRegion>, threshold: int)
    ensures
        forall|i: int, j: int|
            0 <= i < j < nms_spec(s, threshold).len() ==> !iou_exceeds_spec(
                #[trigger] nms_spec(s, threshold)[i],
                #[trigger] nms_spec(s, threshold)[j],
                threshold,
            ),
    decreases s.len(),
{
    if s.len() > 0 {
        let p = not_suppressed_by(s[0], threshold);
        let f = s.skip(1).filter(p);
        s.skip(1).lemma_filter_len(p);
        lemma_nms_no_overlap(f, threshold);
        lemma_nms_from_input(f, threshold);
        let out = nms_spec(s, threshold);
        let rest = nms_spec(f, threshold);
        assert(out == seq![s[0]] + rest);
        assert forall|i: int, j: int| 0 <= i < j < out.len() implies !iou_exceeds_spec(
            #[trigger] out[i],
            #[trigger] out[j],
            threshold,
        ) by {
            assert(out[j] == rest[j - 1]);
            if i == 0 {
                assert(f.contains(rest[j - 1]));
                let m = choose|m: int| 0 <= m < f.len() && f[m] == rest[j - 1];
                s.skip(1).lemma_filter_pred(p, m);
            } else {
                assert(out[i] == rest[i - 1]);
            }
        }
    }
}

/// The overlap above which non-maximum suppression drops the weaker box:
/// an intersection over union of one half.
pub const NMS_IOU_THRESHOLD: u32 = 500_000;

/// A detection as it is used: expanded when a factor is given.
pub open spec fn prepared_spec(d: FaceRegion, factor: Option<u32>, width: int, height: int) -> FaceRegion {
    match factor {
        Some(f) => expand_spec(d, f as int, width, height),
        None => d,
    }
}

/// A detection survives filtering: its confidence reaches the threshold and
/// its box is proper before and after expansion.
pub open spec fn is_candidate(d: FaceRegion, threshold: int, factor: Option<u32>, width: int, height: int) -> bool {
    d.confidence >= threshold && d.is_proper() && prepared_spec(d, factor, width, height).is_proper()
}

/// The surviving detections, prepared, in their original order.
pub open spec fn candidates_spec(
    dets: Seq<FaceRegion>,
    threshold: int,
    factor: Option<u32>,
    width: int,
    height: int,
) -> Seq<FaceRegion>
    decreases dets.len(),
{
    if dets.len() == 0 {
        dets
    } else {
        let rest = candidates_spec(dets.drop_last(), threshold, factor, width, height);
        if is_candidate(dets.last(), threshold, factor, width, height) {
            rest.push(prepared_spec(dets.last(), factor, width, height))
        } else {
            rest
        }
    }
}

/// What region selection returns for the given detections.
pub open spec fn select_spec(
    dets: Seq<FaceRegion>,
    threshold: int,
    factor: Option<u32>,
    width: int,
    height: int,
) -> Seq<FaceRegion> {
    nms_spec(
        sort_by_confidence_spec(candidates_spec(dets, threshold, factor, width, height)),
        NMS_IOU_THRESHOLD as int,
    )
}

/// Turns raw detections (boxes already scaled to a `width` by `height`
/// image) into the regions to scramble: drops those below
/// `confidence_threshold` and degenerate boxes, expands the rest by
/// `expansion_factor` if one is given, sorts them by descending confidence
/// and applies greedy non-maximum suppression at an overlap of one half.
pub fn select_face_regions(
    detections: &Vec<FaceRegion>,
    confidence_threshold: u32,
    expansion_factor: Option<u32>,
    width: u32,
    height: u32,
) -> (r: Vec<FaceRegion>)
    ensures
        r@ == select_spec(detections@, confidence_threshold as int, expansion_factor, width as int, height as int),
{
    let ghost thr = confidence_threshold as int;
    let mut cands: Vec<FaceRegion> = Vec::new();
    let mut i: usize = 0;
    while i < detections.len()
        invariant
            i <= detections@.len(),
            thr == confidence_threshold as int,
            cands@ == candidates_spec(detections@.subrange(0, i as int), thr, expansion_factor, width as int, height as int),
        decreases detections@.len() - i,
    {
        let d = detections[i];
        proof {
            assert(detections@.subrange(0, i + 1).drop_last() =~= detections@.subrange(0, i as int));
        }
        if d.confidence >= confidence_threshold && d.x1 < d.x2 && d.y1 < d.y2 {
            let e = match expansion_factor {
                Some(f) => d.expand(f, width, height),
                None => d,
            };
            if e.x1 < e.x2 && e.y1 < e.y2 {
                cands.push(e);
            }
        }
        i = i + 1;
    }
    assert(detections@.subrange(0, detections@.len() as int) =~= detections@);
    let sorted = sort_by_confidence(&cands);
    apply_nms(sorted, NMS_IOU_THRESHOLD)
}

/// Of two boxes that overlap by more than one half, only the one of higher
/// confidence survives selection, in whichever order they were detected.
pub proof fn lemma_nms_keeps_stronger(a: FaceRegion, b: FaceRegion)
    requires
        a.confidence > b.confidence,
        iou_exceeds_spec(a, b, NMS_IOU_THRESHOLD as int),
    ensures
        nms_spec(sort_by_confidence_spec(seq![a, b]), NMS_IOU_THRESHOLD as int) == seq![a],
        nms_spec(sort_by_confidence_spec(seq![b, a]), NMS_IOU_THRESHOLD as int) == seq![a],
{
    let t = NMS_IOU_THRESHOLD as int;
    assert(seq![a, b].drop_last() =~= seq![a]);
    assert(seq![b, a].drop_last() =~= seq![b]);
    assert(seq![a].drop_last() =~= Seq::<FaceRegion>::empty());
    assert(seq![b].drop_last() =~= Seq::<FaceRegion>::empty());
    assert(sort_by_confidence_spec(Seq::<FaceRegion>::empty()) == Seq::<FaceRegion>::empty());
    assert(insert_by_confidence(Seq::<FaceRegion>::empty(), a) == seq![a]);
    assert(insert_by_confidence(Seq::<FaceRegion>::empty(), b) == seq![b]);
    assert(sort_by_confidence_spec(seq![a]) == seq![a]);
    assert(sort_by_confidence_spec(seq![b]) == seq![b]);
    assert(sort_by_confidence_spec(seq![a, b]) =~= seq![a, b]);
    assert(insert_by_confidence(Seq::<FaceRegion>::empty(), a) == seq![a]);
    assert(seq![a].push(b) =~= seq![a, b]);
    assert(sort_by_confidence_spec(seq![b, a]) =~= seq![a, b]);
    let rest = seq![a, b].skip(1);
    assert(rest =~= seq![b]);
    reveal_with_fuel(Seq::filter, 2);
    assert(rest.filter(not_suppressed_by(a, t)) =~= Seq::<FaceRegion>::empty());
    assert(nms_spec(Seq::<FaceRegion>::empty(), t) == Seq::<FaceRegion>::empty());
    assert(nms_spec(seq![a, b], t) =~= seq![a]);
}

} // verus!
