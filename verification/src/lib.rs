//! A small real-time audio effects engine: a configurable chain of up to
//! eight effect slots (distortion, delay, reverb, tremolo), applied
//! per sample and per channel on interleaved blocks of audio.
//!
//! Samples and parameters are Q16 fixed-point values: `num::SCALE`
//! (65536) stands for 1.0. A host that works in `f32` converts at the
//! boundary.

pub mod num;
pub mod effects;
pub mod engine;
pub mod slot;

use vstd::prelude::*;

verus! {

/// Engine ABI revision. Revision 1 was pass-through only, with no
/// configuration surface.
pub fn version() -> (r: u32)
    ensures
        r == 2,
{
    2
}

} // verus!
