//! Composition of small displacement steps into a diffeomorphic warp.
//! Starting from the identity, each step replaces the warp by the warp
//! sampled at every pixel's position moved by the step's displacement. The
//! smooth random displacement field itself is computed by the caller.
use vstd::prelude::*;
use crate::image::{lemma_index_cell, lemma_cell_index, in_grid};
use crate::warp::{SUBPIXEL, clamp_spec, lerp_spec, is_identity_warp, lemma_lerp_at_corner};
use crate::types::EngineError;

verus! {

/// The bilinear sample of a scalar field (row-major, `w` wide) at the
/// fixed-point position `(sx, sy)`, clamped into the grid first.
pub open spec fn sample_field_spec(field: Seq<i64>, w: int, h: int, sx: int, sy: int) -> int {
    let s = SUBPIXEL as int;
    let cx = clamp_spec(sx, 0, (w - 1) * s);
    let cy = clamp_spec(sy, 0, (h - 1) * s);
    let x0 = cx / s;
    let y0 = cy / s;
    let x1 = if x0 + 1 < w { x0 + 1 } else { x0 };
    let y1 = if y0 + 1 < h { y0 + 1 } else { y0 };
    lerp_spec(
        field[y0 * w + x0] as int,
        field[y0 * w + x1] as int,
        field[y1 * w + x0] as int,
        field[y1 * w + x1] as int,
        cx % s,
        cy % s,
    )
}

/// Every value of the field lies in `0..=bound`.
pub open spec fn field_within(field: Seq<i64>, bound: int) -> bool {
    forall|i: int| 0 <= i < field.len() ==> 0 <= #[trigger] field[i] <= bound
}

/// One composition step for one coordinate field: entry `i` becomes the
/// field sampled at pixel `i`'s position moved by the displacement there.
pub open spec fn compose_step_spec(field: Seq<i64>, dx: Seq<i32>, dy: Seq<i32>, w: int, h: int) -> Seq<i64> {
    Seq::new(
        field.len(),
        |i: int| sample_field_spec(field, w, h, (i % w) * SUBPIXEL + dx[i], (i / w) * SUBPIXEL + dy[i]) as i64,
    )
}

/// The warp after `k` composition steps, starting from the identity.
pub open spec fn composed_warp_spec(dx: Seq<i32>, dy: Seq<i32>, w: int, h: int, k: nat) -> (Seq<i64>, Seq<i64>)
    decreases k,
{
    if k == 0 {
        (
            Seq::new((w * h) as nat, |i: int| ((i % w) * SUBPIXEL) as i64),
            Seq::new((w * h) as nat, |i: int| ((i / w) * SUBPIXEL) as i64),
        )
    } else {
        let prev = composed_warp_spec(dx, dy, w, h, (k - 1) as nat);
        (compose_step_spec(prev.0, dx, dy, w, h), compose_step_spec(prev.1, dx, dy, w, h))
    }
}

proof fn lemma_lerp_bounded(a: int, b: int, c: int, d: int, fx: int, fy: int, m: int)
    requires
        0 <= a <= m,
        0 <= b <= m,
        0 <= c <= m,
        0 <= d <= m,
        0 <= fx < SUBPIXEL,
        0 <= fy < SUBPIXEL,
    ensures
        0 <= lerp_spec(a, b, c, d, fx, fy) <= m,
{
    let s = SUBPIXEL as int;
    assert(s == 256);
    let num = a * (s - fx) * (s - fy) + b * fx * (s - fy) + c * (s - fx) * fy + d * fx * fy + s * s / 2;
    assert(0 <= num <= m * 65536 + 32768) by (nonlinear_arith)
        requires
            num == a * (256 - fx) * (256 - fy) + b * fx * (256 - fy) + c * (256 - fx) * fy + d * fx * fy + 32768,
            0 <= a <= m,
            0 <= b <= m,
            0 <= c <= m,
            0 <= d <= m,
            0 <= fx < 256,
            0 <= fy < 256,
    ;
    assert(0 <= num / 65536 <= m) by (nonlinear_arith)
        requires
            0 <= num <= m * 65536 + 32768,
    ;
}

/// Samples a coordinate field bilinearly; the result stays within the
/// field's bound.
fn sample_field(field: &Vec<i64>, w: u32, h: u32, sx: i64, sy: i64, bound: i64) -> (r: i64)
    requires
        field@.len() == w as int * h as int,
        w > 0,
        h > 0,
        0 <= bound <= 0x100_0000_0000,
        field_within(field@, bound as int),
    ensures
        r == sample_field_spec(field@, w as int, h as int, sx as int, sy as int),
        0 <= r <= bound,
{
    let s: i64 = SUBPIXEL;
    let max_x = (w as i64 - 1) * s;
    let max_y = (h as i64 - 1) * s;
    let cx = if sx < 0 { 0 } else if sx > max_x { max_x } else { sx };
    let cy = if sy < 0 { 0 } else if sy > max_y { max_y } else { sy };
    let x0 = cx / s;
    let y0 = cy / s;
    proof {
        assert(x0 < w) by (nonlinear_arith)
            requires
                0 <= cx <= (w - 1) * 256,
                x0 == cx / 256,
        ;
        assert(y0 < h) by (nonlinear_arith)
            requires
                0 <= cy <= (h - 1) * 256,
                y0 == cy / 256,
        ;
    }
    let x1 = if x0 + 1 < w as i64 { x0 + 1 } else { x0 };
    let y1 = if y0 + 1 < h as i64 { y0 + 1 } else { y0 };
    let fx = cx % s;
    let fy = cy % s;
    proof {
        lemma_cell_index(w as int, h as int, x0 as int, y0 as int);
        lemma_cell_index(w as int, h as int, x1 as int, y0 as int);
        lemma_cell_index(w as int, h as int, x0 as int, y1 as int);
        lemma_cell_index(w as int, h as int, x1 as int, y1 as int);
    }
    let _n = field.len();
    let wu = w as usize;
    let v00 = field[y0 as usize * wu + x0 as usize];
    let v10 = field[y0 as usize * wu + x1 as usize];
    let v01 = field[y1 as usize * wu + x0 as usize];
    let v11 = field[y1 as usize * wu + x1 as usize];
    lerp_coordinate(v00, v10, v01, v11, fx, fy, bound)
}

fn lerp_coordinate(v00: i64, v10: i64, v01: i64, v11: i64, fx: i64, fy: i64, bound: i64) -> (r: i64)
    requires
        0 <= fx < SUBPIXEL,
        0 <= fy < SUBPIXEL,
        0 <= bound <= 0x100_0000_0000,
        0 <= v00 <= bound,
        0 <= v10 <= bound,
        0 <= v01 <= bound,
        0 <= v11 <= bound,
    ensures
        r == lerp_spec(v00 as int, v10 as int, v01 as int, v11 as int, fx as int, fy as int),
        0 <= r <= bound,
{
    let s: i64 = SUBPIXEL;
    let a = s - fx;
    let c = s - fy;
    proof {
        lemma_lerp_bounded(v00 as int, v10 as int, v01 as int, v11 as int, fx as int, fy as int, bound as int);
        assert(0 <= a * c <= 65536 && 0 <= fx * c <= 65536 && 0 <= a * fy <= 65536 && 0 <= fx * fy <= 65536)
            by (nonlinear_arith)
            requires
                0 <= fx < 256,
                0 <= fy < 256,
                a == 256 - fx,
                c == 256 - fy,
        ;
    }
    let w00 = a * c;
    let w10 = fx * c;
    let w01 = a * fy;
    let w11 = fx * fy;
    proof {
        assert(0 <= v00 * w00 <= bound * 65536) by (nonlinear_arith)
            requires
                0 <= w00 <= 65536,
                0 <= v00 <= bound,
        ;
        assert(0 <= v10 * w10 <= bound * 65536) by (nonlinear_arith)
            requires
                0 <= w10 <= 65536,
                0 <= v10 <= bound,
        ;
        assert(0 <= v01 * w01 <= bound * 65536) by (nonlinear_arith)
            requires
                0 <= w01 <= 65536,
                0 <= v01 <= bound,
        ;
        assert(0 <= v11 * w11 <= bound * 65536) by (nonlinear_arith)
            requires
                0 <= w11 <= 65536,
                0 <= v11 <= bound,
        ;
        assert(v00 * w00 + v10 * w10 + v01 * w01 + v11 * w11 == v00 * (256 - fx) * (256 - fy) + v10 * fx * (256
            - fy) + v01 * (256 - fx) * fy + v11 * fx * fy) by (nonlinear_arith)
            requires
                a == 256 - fx,
                c == 256 - fy,
                w00 == a * c,
                w10 == fx * c,
                w01 == a * fy,
                w11 == fx * fy,
        ;
    }
    let num = v00 * w00 + v10 * w10 + v01 * w01 + v11 * w11 + s * s / 2;
    num / (s * s)
}

/// The bound within which the coordinates of a `w` by `h` warp stay.
pub open spec fn coordinate_bound(len: int) -> int {
    (len - 1) * SUBPIXEL
}

fn compose_step(field: &Vec<i64>, dx: &Vec<i32>, dy: &Vec<i32>, w: u32, h: u32, bound: i64) -> (r: Vec<i64>)
    requires
        field@.len() == w as int * h as int,
        dx@.len() == field@.len(),
        dy@.len() == field@.len(),
        0 <= bound <= 0x100_0000_0000,
        field_within(field@, bound as int),
    ensures
        r@ == compose_step_spec(field@, dx@, dy@, w as int, h as int),
        field_within(r@, bound as int),
{
    let n = field.len();
    let mut out: Vec<i64> = Vec::with_capacity(n);
    let mut i: usize = 0;
    while i < n
        invariant
            n == field@.len(),
            field@.len() == w as int * h as int,
            dx@.len() == n,
            dy@.len() == n,
            0 <= bound <= 0x100_0000_0000,
            field_within(field@, bound as int),
            i <= n,
            out@.len() == i,
            forall|k: int|
                0 <= k < i ==> #[trigger] out@[k] == sample_field_spec(
                    field@,
                    w as int,
                    h as int,
                    (k % w as int) * SUBPIXEL + dx@[k],
                    (k / w as int) * SUBPIXEL + dy@[k],
                ),
            field_within(out@, bound as int),
        decreases n - i,
    {
        proof {
            assert(w > 0 && h > 0) by (nonlinear_arith)
                requires
                    i < n,
                    n == w as int * h as int,
                    i >= 0,
            ;
            lemma_index_cell(w as int, h as int, i as int);
        }
        let x = (i % (w as usize)) as i64;
        let y = (i / (w as usize)) as i64;
        let v = sample_field(field, w, h, x * SUBPIXEL + dx[i] as i64, y * SUBPIXEL + dy[i] as i64, bound);
        out.push(v);
        i = i + 1;
    }
    assert(out@ =~= compose_step_spec(field@, dx@, dy@, w as int, h as int));
    out
}

/// Builds the warp of a `width` by `height` image by composing `n_steps`
/// steps of the displacement field `(dx, dy)` (fixed point, one value per
/// pixel), starting from the identity: after each step the warp at a pixel
/// is the previous warp sampled at the pixel's position plus its
/// displacement. Fails with `InvalidInput` for an image with no pixels or
/// when a field does not hold one value per pixel.
pub fn compose_warp(
    width: u32,
    height: u32,
    dx: &Vec<i32>,
    dy: &Vec<i32>,
    n_steps: u32,
) -> (r: Result<(Vec<i64>, Vec<i64>), EngineError>)
    ensures
        r is Err <==> width == 0 || height == 0 || dx@.len() != width as int * height as int || dy@.len()
            != width as int * height as int,
        r matches Err(e) ==> e == EngineError::InvalidInput,
        r matches Ok(p) ==> (p.0@, p.1@) == composed_warp_spec(dx@, dy@, width as int, height as int, n_steps as nat),
{
    let n = dx.len();
    if width == 0 || height == 0 || crate::image::area_u64(width, height) != n as u64 || dy.len() != n {
        return Err(EngineError::InvalidInput);
    }
    let (mut wx, mut wy) = crate::warp::identity_warp(width, height);
    let bx: i64 = if width > 0 { (width as i64 - 1) * SUBPIXEL } else { 0 };
    let by: i64 = if height > 0 { (height as i64 - 1) * SUBPIXEL } else { 0 };
    proof {
        let id = composed_warp_spec(dx@, dy@, width as int, height as int, 0);
        assert(wx@ =~= id.0);
        assert(wy@ =~= id.1);
        assert forall|i: int| 0 <= i < wx@.len() implies 0 <= #[trigger] wx@[i] <= bx by {
            lemma_index_cell(width as int, height as int, i);
            assert((i % width as int) * 256 <= (width - 1) * 256) by (nonlinear_arith)
                requires
                    0 <= (i % (width as int)) < width,
            ;
        }
        assert forall|i: int| 0 <= i < wy@.len() implies 0 <= #[trigger] wy@[i] <= by by {
            assert(width > 0) by (nonlinear_arith)
                requires
                    0 <= i < width as int * height as int,
                    height >= 0,
            ;
            lemma_index_cell(width as int, height as int, i);
            assert((i / width as int) * 256 <= (height - 1) * 256) by (nonlinear_arith)
                requires
                    0 <= (i / (width as int)) < height,
            ;
        }
    }
    let mut k: u32 = 0;
    while k < n_steps
        invariant
            k <= n_steps,
            dx@.len() == n,
            dy@.len() == n,
            n == width as int * height as int,
            wx@.len() == n,
            wy@.len() == n,
            0 <= bx <= 0x100_0000_0000,
            0 <= by <= 0x100_0000_0000,
            field_within(wx@, bx as int),
            field_within(wy@, by as int),
            (wx@, wy@) == composed_warp_spec(dx@, dy@, width as int, height as int, k as nat),
        decreases n_steps - k,
    {
        let nx = compose_step(&wx, dx, dy, width, height, bx);
        let ny = compose_step(&wy, dx, dy, width, height, by);
        wx = nx;
        wy = ny;
        k = k + 1;
    }
    Ok((wx, wy))
}

/// Composing steps of an all-zero displacement field leaves the identity
/// warp: a warp built with no distortion is the identity, however many steps.
pub proof fn lemma_zero_field_keeps_identity(dx: Seq<i32>, dy: Seq<i32>, w: int, h: int, k: nat)
    requires
        0 <= w <= u32::MAX,
        0 <= h <= u32::MAX,
        dx.len() == w * h,
        dy.len() == w * h,
        forall|i: int| 0 <= i < dx.len() ==> dx[i] == 0,
        forall|i: int| 0 <= i < dy.len() ==> dy[i] == 0,
    ensures
        is_identity_warp(composed_warp_spec(dx, dy, w, h, k).0, composed_warp_spec(dx, dy, w, h, k).1, w, h),
    decreases k,
{
    let id = composed_warp_spec(dx, dy, w, h, 0);
    assert forall|i: int| 0 <= i < w * h implies #[trigger] id.0[i] == (i % w) * SUBPIXEL && id.1[i] == (i / w)
        * SUBPIXEL by {
        assert(w > 0) by (nonlinear_arith)
            requires
                0 <= i < w * h,
                h >= 0,
        ;
        lemma_index_cell(w, h, i);
        assert(0 <= (i % w) * 256 <= i64::MAX && 0 <= (i / w) * 256 <= i64::MAX) by (nonlinear_arith)
            requires
                0 <= i % w < w,
                0 <= i / w < h,
                w <= u32::MAX,
                h <= u32::MAX,
        ;
    }
    if k == 0 {
        assert forall|i: int| 0 <= i < w * h implies #[trigger] id.1[i] == (i / w) * SUBPIXEL by {
            assert(id.0[i] == (i % w) * SUBPIXEL && id.1[i] == (i / w) * SUBPIXEL);
        }
    }
    if k > 0 {
        lemma_zero_field_keeps_identity(dx, dy, w, h, (k - 1) as nat);
        let prev = composed_warp_spec(dx, dy, w, h, (k - 1) as nat);
        let cur = composed_warp_spec(dx, dy, w, h, k);
        assert forall|i: int| 0 <= i < w * h implies #[trigger] cur.0[i] == (i % w) * SUBPIXEL && cur.1[i] == (
        i / w) * SUBPIXEL by {
            assert(w > 0) by (nonlinear_arith)
                requires
                    0 <= i < w * h,
                    h >= 0,
            ;
            lemma_index_cell(w, h, i);
            let x = i % w;
            let y = i / w;
            lemma_sample_field_at_cell(prev.0, w, h, x, y);
            lemma_sample_field_at_cell(prev.1, w, h, x, y);
            let x1 = if x + 1 < w { x + 1 } else { x };
            let y1 = if y + 1 < h { y + 1 } else { y };
            lemma_lerp_at_corner(prev.0[y * w + x] as int, prev.0[y * w + x1] as int, prev.0[y1 * w + x] as int, prev.0[y1 * w + x1] as int);
            lemma_lerp_at_corner(prev.1[y * w + x] as int, prev.1[y * w + x1] as int, prev.1[y1 * w + x] as int, prev.1[y1 * w + x1] as int);
            assert(y * w + x == i);
        }
        assert forall|i: int| 0 <= i < w * h implies #[trigger] cur.1[i] == (i / w) * SUBPIXEL by {
            assert(cur.0[i] == (i % w) * SUBPIXEL && cur.1[i] == (i / w) * SUBPIXEL);
        }
    }
}

proof fn lemma_sample_field_at_cell(field: Seq<i64>, w: int, h: int, x: int, y: int)
    requires
        in_grid(w, h, x, y),
        field.len() == w * h,
    ensures
        sample_field_spec(field, w, h, x * SUBPIXEL, y * SUBPIXEL) == lerp_spec(
            field[y * w + x] as int,
            field[y * w + (if x + 1 < w { x + 1 } else { x })] as int,
            field[(if y + 1 < h { y + 1 } else { y }) * w + x] as int,
            field[(if y + 1 < h { y + 1 } else { y }) * w + (if x + 1 < w { x + 1 } else { x })] as int,
            0,
            0,
        ),
{
    let s = SUBPIXEL as int;
    assert(x * s <= (w - 1) * s) by (nonlinear_arith)
        requires
            0 <= x < w,
            s == 256,
    ;
    assert(y * s <= (h - 1) * s) by (nonlinear_arith)
        requires
            0 <= y < h,
            s == 256,
    ;
    vstd::arithmetic::div_mod::lemma_fundamental_div_mod_converse(x * s, s, x, 0);
    vstd::arithmetic::div_mod::lemma_fundamental_div_mod_converse(y * s, s, y, 0);
}

} // verus!
