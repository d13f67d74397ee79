//! Index arithmetic of the frequency-domain path: the padded square's side,
//! how padding maps a padded cell back to the image, and the Hermitian mirror
//! of a frequency bin.
use vstd::prelude::*;
use crate::types::{PaddingMode, FrequencyRange, ONE};

verus! {

/// Whether `n` is a power of two (1, 2, 4, ...).
pub open spec fn is_pow2(n: nat) -> bool
    decreases n,
{
    if n == 0 {
        false
    } else if n == 1 {
        true
    } else if n % 2 == 1 {
        false
    } else {
        is_pow2(n / 2)
    }
}

/// The largest side that `get_optimal_fft_size` accepts: the result then fits
/// a `usize` on every target.
pub const MAX_FFT_SIZE: usize = 0x8000_0000;

proof fn lemma_max_fft_size_is_pow2()
    ensures
        is_pow2(MAX_FFT_SIZE as nat),
{
    reveal_with_fuel(is_pow2, 33);
}

/// Returns whether `n` is a power of two.
pub fn is_power_of_two(n: usize) -> (r: bool)
    ensures
        r == is_pow2(n as nat),
{
    if n == 0 {
        return false;
    }
    let mut m: usize = n;
    while m > 1 && m % 2 == 0
        invariant
            m >= 1,
            is_pow2(m as nat) == is_pow2(n as nat),
        decreases m,
    {
        m = m / 2;
    }
    m == 1
}

/// Returns the smallest power of two that is at least `size`.
pub fn get_optimal_fft_size(size: usize) -> (r: usize)
    requires
        size <= MAX_FFT_SIZE,
    ensures
        is_pow2(r as nat),
        size <= r,
        forall|m: nat| size <= m < r ==> !is_pow2(m),
{
    proof {
        lemma_max_fft_size_is_pow2();
    }
    let mut optimal_size: usize = size;
    while !is_power_of_two(optimal_size)
        invariant
            size <= optimal_size <= MAX_FFT_SIZE,
            is_pow2(MAX_FFT_SIZE as nat),
            forall|m: nat| size <= m < optimal_size ==> !is_pow2(m),
        decreases MAX_FFT_SIZE - optimal_size,
    {
        optimal_size = optimal_size + 1;
    }
    optimal_size
}

/// Symmetric reflection of an index into `0..size` (the edge cell is not
/// repeated): `0, 1, .., size-1, size-2, .., 1, 0, 1, ..`.
pub open spec fn reflect_spec(x: nat, size: nat) -> nat {
    if size <= 1 {
        0
    } else {
        let period = (2 * size - 2) as nat;
        let m = x % period;
        if m < size {
            m
        } else {
            (period - m) as nat
        }
    }
}

/// Reflects index `x` into `0..size` by symmetric reflection.
pub fn reflect_index(x: usize, size: usize) -> (r: usize)
    requires
        size <= usize::MAX / 2,
    ensures
        r == reflect_spec(x as nat, size as nat),
        size > 0 ==> r < size,
        x < size ==> r == x,
{
    if size == 0 {
        return 0;
    }
    if size == 1 {
        return 0;
    }
    let period = 2 * size - 2;
    let x_mod = x % period;
    proof {
        if x < size {
            vstd::arithmetic::div_mod::lemma_small_mod(x as nat, period as nat);
        }
    }
    if x_mod < size {
        x_mod
    } else {
        period - x_mod
    }
}

/// The image cell `(row, column)` that padding copies into padded cell
/// `(y, x)`, or `None` where the padded cell is zero.
pub open spec fn padding_source_spec(mode: PaddingMode, y: nat, x: nat, height: nat, width: nat) -> Option<(nat, nat)> {
    match mode {
        PaddingMode::Zero => if y < height && x < width {
            Some((y, x))
        } else {
            None
        },
        PaddingMode::Reflect => Some((reflect_spec(y, height), reflect_spec(x, width))),
        PaddingMode::Wrap => Some((y % height, x % width)),
    }
}

/// Where padded cell `(y, x)` takes its value from, for an image of
/// `height` rows and `width` columns.
pub fn padding_source_index(mode: PaddingMode, y: usize, x: usize, height: usize, width: usize) -> (r: Option<(usize, usize)>)
    requires
        0 < height <= usize::MAX / 2,
        0 < width <= usize::MAX / 2,
    ensures
        r matches Some(p) ==> p.0 < height && p.1 < width,
        match (r, padding_source_spec(mode, y as nat, x as nat, height as nat, width as nat)) {
            (Some(p), Some(q)) => p.0 as nat == q.0 && p.1 as nat == q.1,
            (None, None) => true,
            _ => false,
        },
{
    match mode {
        PaddingMode::Zero => {
            if y < height && x < width {
                Some((y, x))
            } else {
                None
            }
        },
        PaddingMode::Reflect => Some((reflect_index(y, height), reflect_index(x, width))),
        PaddingMode::Wrap => Some((y % height, x % width)),
    }
}

/// The mirror of one coordinate of a bin in an `n`-point transform.
pub open spec fn mirror_spec(i: nat, n: nat) -> nat {
    if i == 0 {
        0
    } else {
        (n - i) as nat
    }
}

/// The Hermitian mirror `(n - y, n - x)` of bin `(y, x)`, with a zero
/// coordinate mirrored onto itself.
pub fn hermitian_mirror(y: usize, x: usize, n: usize) -> (r: (usize, usize))
    requires
        y < n,
        x < n,
    ensures
        r.0 as nat == mirror_spec(y as nat, n as nat),
        r.1 as nat == mirror_spec(x as nat, n as nat),
        r.0 < n,
        r.1 < n,
{
    let sym_y = if y == 0 { 0 } else { n - y };
    let sym_x = if x == 0 { 0 } else { n - x };
    (sym_y, sym_x)
}

/// Whether bin `(y, x)` is the one of its mirror pair that receives a fresh
/// random phase (its mirror then takes the conjugate).
pub open spec fn is_canonical_spec(y: nat, x: nat, n: nat) -> bool {
    let sy = mirror_spec(y, n);
    let sx = mirror_spec(x, n);
    !(y > sy || (y == sy && x > sx))
}

/// Returns whether bin `(y, x)` draws its own phase.
pub fn is_canonical_bin(y: usize, x: usize, n: usize) -> (r: bool)
    requires
        y < n,
        x < n,
    ensures
        r == is_canonical_spec(y as nat, x as nat, n as nat),
{
    let (sym_y, sym_x) = hermitian_mirror(y, x, n);
    !(y > sym_y || (y == sym_y && x > sym_x))
}

/// The mirror of the mirror of a bin is the bin itself.
pub proof fn lemma_mirror_involution(y: nat, x: nat, n: nat)
    requires
        y < n,
        x < n,
    ensures
        mirror_spec(mirror_spec(y, n), n) == y,
        mirror_spec(mirror_spec(x, n), n) == x,
{
}

/// Every bin is canonical or has a canonical mirror, and a bin and its
/// distinct mirror are never both canonical: each pair draws one phase.
pub proof fn lemma_one_phase_per_pair(y: nat, x: nat, n: nat)
    requires
        y < n,
        x < n,
    ensures
        is_canonical_spec(y, x, n) || is_canonical_spec(mirror_spec(y, n), mirror_spec(x, n), n),
        (y, x) != (mirror_spec(y, n), mirror_spec(x, n)) ==> !(is_canonical_spec(y, x, n)
            && is_canonical_spec(mirror_spec(y, n), mirror_spec(x, n), n)),
{
}

/// The DC bin is its own mirror and draws its own phase.
pub proof fn lemma_dc_bin_self_mirror(n: nat)
    requires
        n > 0,
    ensures
        mirror_spec(0, n) == 0,
        is_canonical_spec(0, 0, n),
{
}


/// The distance of coordinate `i` of an `n`-point spectrum from the zero
/// frequency, counting the upper half as negative frequencies.
pub open spec fn freq_distance(i: int, n: int) -> int {
    if 2 * i <= n {
        i
    } else {
        n - i
    }
}

/// The squared radius of bin `(y, x)`.
pub open spec fn radius_sq(y: int, x: int, n: int) -> int {
    freq_distance(y, n) * freq_distance(y, n) + freq_distance(x, n) * freq_distance(x, n)
}

/// The bin's radius, as a fraction of the Nyquist radius `n / 2`, is at
/// least `cutoff / ONE`.
pub open spec fn at_least(y: int, x: int, n: int, cutoff: int) -> bool {
    4 * radius_sq(y, x, n) * (ONE as int) * (ONE as int) >= cutoff * cutoff * n * n
}

/// The bin's radius, as a fraction of the Nyquist radius, is at most
/// `cutoff / ONE`.
pub open spec fn at_most(y: int, x: int, n: int, cutoff: int) -> bool {
    4 * radius_sq(y, x, n) * (ONE as int) * (ONE as int) <= cutoff * cutoff * n * n
}

/// Whether a frequency filter keeps bin `(y, x)` of an `n` by `n` spectrum.
pub open spec fn keeps_bin_spec(range: FrequencyRange, y: int, x: int, n: int) -> bool {
    match range {
        FrequencyRange::All => true,
        FrequencyRange::HighPass(c) => at_least(y, x, n, c as int),
        FrequencyRange::LowPass(c) => at_most(y, x, n, c as int),
        FrequencyRange::BandPass { low, high } => at_least(y, x, n, low as int) && at_most(y, x, n, high as int),
    }
}

fn scaled_radius(y: u64, x: u64, n: u64) -> (r: u128)
    requires
        y < n,
        x < n,
        n <= MAX_FFT_SIZE,
    ensures
        r == 4 * radius_sq(y as int, x as int, n as int) * (ONE as int) * (ONE as int),
{
    let fy: u128 = if 2 * y <= n { y as u128 } else { (n - y) as u128 };
    let fx: u128 = if 2 * x <= n { x as u128 } else { (n - x) as u128 };
    assert(fy * fy <= 0x4000_0000_0000_0000 && fx * fx <= 0x4000_0000_0000_0000) by (nonlinear_arith)
        requires
            fy <= 0x8000_0000,
            fx <= 0x8000_0000,
    ;
    let r2 = fy * fy + fx * fx;
    let a = 4 * r2 * (ONE as u128);
    assert(a * 1_000_000 <= u128::MAX) by (nonlinear_arith)
        requires
            a == 4 * r2 * 1_000_000,
            r2 <= 0x8000_0000_0000_0000,
    ;
    a * (ONE as u128)
}

fn scaled_cutoff(c: u32, n: u64) -> (r: u128)
    requires
        n <= MAX_FFT_SIZE,
    ensures
        r == c as int * c as int * n as int * n as int,
{
    assert(c as int * c as int <= u64::MAX) by (nonlinear_arith)
        requires
            c <= u32::MAX,
    ;
    let cc = (c as u128) * (c as u128);
    assert(cc * n <= 0x1_0000_0000_0000_0000_0000_0000 && cc * n * n <= u128::MAX) by (nonlinear_arith)
        requires
            cc == c * c,
            c <= u32::MAX,
            n <= 0x8000_0000,
    ;
    let ccn = cc * (n as u128);
    ccn * (n as u128)
}

/// Returns whether a frequency filter keeps bin `(y, x)` of an `n` by `n`
/// spectrum: radii are measured from the zero frequency as a fraction of
/// the Nyquist radius `n / 2`, against cutoffs in units of `ONE`.
pub fn keeps_bin(range: FrequencyRange, y: usize, x: usize, n: usize) -> (r: bool)
    requires
        y < n,
        x < n,
        n <= MAX_FFT_SIZE,
    ensures
        r == keeps_bin_spec(range, y as int, x as int, n as int),
{
    let rad = scaled_radius(y as u64, x as u64, n as u64);
    match range {
        FrequencyRange::All => true,
        FrequencyRange::HighPass(c) => rad >= scaled_cutoff(c, n as u64),
        FrequencyRange::LowPass(c) => rad <= scaled_cutoff(c, n as u64),
        FrequencyRange::BandPass { low, high } => rad >= scaled_cutoff(low, n as u64) && rad <= scaled_cutoff(
            high,
            n as u64,
        ),
    }
}

} // verus!
