//! One configurable effect unit: its type, its enabled flag, and three
//! Q16 parameters. A slot is replaced wholesale on update, never merged.

use vstd::prelude::*;

verus! {

/// The effect an enabled slot applies. `NoEffect` marks an empty slot,
/// which always passes the sample through.
#[derive(Clone, Copy, PartialEq, Eq, Structural, Debug)]
pub enum EffectType {
    NoEffect,
    Distortion,
    Delay,
    Reverb,
    Tremolo,
}

/// One slot of the effect chain. The parameters are Q16 fixed-point
/// values; each effect clamps them into its own range when it runs.
#[derive(Clone, Copy, PartialEq, Eq, Structural, Debug)]
pub struct Slot {
    pub effect_type: EffectType,
    pub enabled: bool,
    pub p0: i64,
    pub p1: i64,
    pub p2: i64,
}

impl Slot {
    /// A slot may be enabled only when it holds an actual effect.
    pub open spec fn wf(self) -> bool {
        self.enabled ==> self.effect_type != EffectType::NoEffect
    }
}

impl Default for Slot {
    /// An empty, disabled slot with zeroed parameters.
    fn default() -> (r: Slot)
        ensures
            r == (Slot { effect_type: EffectType::NoEffect, enabled: false, p0: 0, p1: 0, p2: 0 }),
            r.wf(),
    {
        Slot { effect_type: EffectType::NoEffect, enabled: false, p0: 0, p1: 0, p2: 0 }
    }
}

/// The wire encoding of an effect type, one code per variant.
pub open spec fn spec_effect_type_of_code(code: u32) -> EffectType {
    if code == 1 {
        EffectType::Distortion
    } else if code == 2 {
        EffectType::Delay
    } else if code == 3 {
        EffectType::Reverb
    } else if code == 4 {
        EffectType::Tremolo
    } else {
        EffectType::NoEffect
    }
}

/// Decodes a numeric effect-type code. An unrecognized code maps to
/// `NoEffect`, so it can never alter a sample.
pub fn effect_type_of_code(code: u32) -> (r: EffectType)
    ensures
        r == spec_effect_type_of_code(code),
{
    if code == 1 {
        EffectType::Distortion
    } else if code == 2 {
        EffectType::Delay
    } else if code == 3 {
        EffectType::Reverb
    } else if code == 4 {
        EffectType::Tremolo
    } else {
        EffectType::NoEffect
    }
}

} // verus!
