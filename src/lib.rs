//! Content-scrambling engine: pixel, block and region transforms on RGBA
//! buffers, the index arithmetic of the frequency-domain path, flow-field
//! warping, and the keyframe controller that keeps video scrambling coherent.
use vstd::prelude::*;

pub mod types;
pub mod image;
pub mod fft;
pub mod rng;
pub mod pixel;
pub mod block;
pub mod region;
pub mod composite;
pub mod warp;
pub mod diffeo;
pub mod flo;
pub mod batch;
pub mod temporal;

verus! {

} // verus!
