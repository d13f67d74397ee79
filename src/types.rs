//! Options and small shared types.
use vstd::prelude::*;

verus! {

/// The fixed-point unit of every fraction in this library: `ONE` stands for 1.0.
pub const ONE: u32 = 1_000_000;

/// How a padded square is filled beyond the image.
#[derive(Clone, Copy, Debug, PartialEq, Eq, Structural)]
pub enum PaddingMode {
    Zero,
    Reflect,
    Wrap,
}

/// Whether a region-restricted transform keeps the untouched background.
#[derive(Clone, Copy, Debug, PartialEq, Eq, Structural)]
pub enum BackgroundMode {
    /// Keep the background as it is and scramble only the regions.
    Include,
    /// Output only the scrambled regions on a blank canvas.
    Exclude,
}

/// Options of the block strategy.
#[derive(Clone, Copy, Debug, PartialEq, Eq)]
pub struct BlockOptions {
    /// Width and height of a block.
    pub block_size: (u32, u32),
    /// Soften the seams between blocks after the copy.
    pub interpolate_edges: bool,
    pub padding_mode: PaddingMode,
}

impl BlockOptions {
    pub fn default() -> (r: BlockOptions)
        ensures
            r.block_size == (32u32, 32u32),
            r.interpolate_edges,
            r.padding_mode == PaddingMode::Reflect,
    {
        BlockOptions { block_size: (32, 32), interpolate_edges: true, padding_mode: PaddingMode::Reflect }
    }
}

} // verus!

verus! {

/// Which frequencies the Fourier strategy keeps, by radial distance from
/// the centre of the spectrum; cutoffs are in units of `ONE`.
#[derive(Clone, Copy, Debug, PartialEq, Eq, Structural)]
pub enum FrequencyRange {
    All,
    HighPass(u32),
    LowPass(u32),
    BandPass { low: u32, high: u32 },
}

/// Options of the Fourier strategy; `intensity` is in units of `ONE`.
#[derive(Clone, Copy, Debug, PartialEq, Eq, Structural)]
pub struct FourierOptions {
    pub frequency_range: FrequencyRange,
    pub phase_scramble: bool,
    pub magnitude_scramble: bool,
    pub padding_mode: PaddingMode,
    pub intensity: u32,
    pub grayscale: bool,
}

impl FourierOptions {
    pub fn default() -> (r: FourierOptions)
        ensures
            r.frequency_range == FrequencyRange::All,
            r.phase_scramble,
            !r.magnitude_scramble,
            r.padding_mode == PaddingMode::Reflect,
            r.intensity == ONE,
            !r.grayscale,
    {
        FourierOptions {
            frequency_range: FrequencyRange::All,
            phase_scramble: true,
            magnitude_scramble: false,
            padding_mode: PaddingMode::Reflect,
            intensity: ONE,
            grayscale: false,
        }
    }
}

/// Options of the blur strategy; `sigma` is in units of `ONE` pixels.
#[derive(Clone, Copy, Debug, PartialEq, Eq, Structural)]
pub struct BlurOptions {
    pub sigma: u32,
}

impl BlurOptions {
    pub fn default() -> (r: BlurOptions)
        ensures
            r.sigma == 5 * ONE,
    {
        BlurOptions { sigma: 5 * ONE }
    }
}

/// Options of the diffeomorphic strategy: an `n_comp` by `n_comp` grid of
/// cosine components, composed over `n_steps` small steps into a warp of
/// `max_distortion` pixels (in units of `ONE`).
#[derive(Clone, Copy, Debug, PartialEq, Eq, Structural)]
pub struct DiffeomorphicOptions {
    pub max_distortion: u32,
    pub n_steps: u32,
    pub n_comp: u32,
}

/// The strategy to run and the options it needs.
#[derive(Clone, Copy, Debug, PartialEq, Eq)]
pub enum ScrambleType {
    Pixel,
    Fourier(FourierOptions),
    Block(BlockOptions),
    Blur(BlurOptions),
    Diffeomorphic(DiffeomorphicOptions),
}

/// Options of region-restricted scrambling. The threshold and the
/// expansion factor are in units of `ONE`.
#[derive(Clone, Copy, Debug, PartialEq, Eq, Structural)]
pub struct FaceDetectionOptions {
    pub confidence_threshold: u32,
    pub expansion_factor: u32,
    pub background_mode: BackgroundMode,
}

impl FaceDetectionOptions {
    pub fn default() -> (r: FaceDetectionOptions)
        ensures
            r.confidence_threshold == 700_000,
            r.expansion_factor == ONE,
            r.background_mode == BackgroundMode::Include,
    {
        FaceDetectionOptions { confidence_threshold: 700_000, expansion_factor: ONE, background_mode: BackgroundMode::Include }
    }
}

/// Everything a scramble needs: the strategy, its strength (in units of
/// `ONE`), an optional seed for reproducible output, and optional region
/// restriction.
#[derive(Clone, Copy, Debug, PartialEq, Eq)]
pub struct ScrambleOptions {
    pub scramble_type: ScrambleType,
    pub intensity: u32,
    pub seed: Option<u64>,
    pub face_detection: Option<FaceDetectionOptions>,
}

impl ScrambleOptions {
    pub fn default() -> (r: ScrambleOptions)
        ensures
            r.scramble_type == ScrambleType::Pixel,
            r.intensity == ONE / 2,
            r.seed is None,
            r.face_detection is None,
    {
        ScrambleOptions { scramble_type: ScrambleType::Pixel, intensity: ONE / 2, seed: None, face_detection: None }
    }
}

/// How an inference model is fed and read.
#[derive(Clone, Debug, PartialEq, Eq)]
pub struct ModelConfig {
    pub input_name: String,
    pub input_dims: Vec<i64>,
    pub output_names: Vec<String>,
}

/// Why an operation of this library was refused.
#[derive(Clone, Copy, Debug, PartialEq, Eq, Structural)]
pub enum EngineError {
    /// Mismatched dimensions, an unusable option or a degenerate region.
    InvalidInput,
    /// An inter-frame was asked for before any keyframe set the state.
    MissingKeyframe,
}

} // verus!
