//! The engine: sample rate, channel count, the slot chain, and all
//! persistent effect state, with the per-frame / per-channel / per-slot
//! drive loop over interleaved sample blocks.

use crate::effects::{
    lemma_samples_update, process_delay, process_distortion, process_reverb, process_tremolo,
    samples_of, spec_delay, spec_distortion, spec_reverb, spec_tremolo, CombChannel, CombChannelV,
    PHASE_STEPS,
};
use crate::num::{max_i, min_i, SCALE};
use crate::slot::{effect_type_of_code, spec_effect_type_of_code, EffectType, Slot};
use vstd::prelude::*;

verus! {

/// Number of slots in the chain array.
pub const MAX_SLOTS: usize = 8;

/// The mathematical value of a whole engine.
#[verifier::ext_equal]
pub struct EngineV {
    pub initialized: bool,
    pub sample_rate: int,
    pub channels: int,
    pub chain_len: int,
    pub slots: Seq<Slot>,
    pub delay_bufs: Seq<Seq<int>>,
    pub delay_write_index: int,
    pub delay_max_samples: int,
    pub combs: Seq<CombChannelV>,
    pub tremolo_phase: int,
    pub distortion_lp: Seq<int>,
}

/// The per-channel delay buffers as integer sequences.
pub open spec fn delay_views(s: Seq<Vec<i64>>) -> Seq<Seq<int>> {
    s.map_values(|b: Vec<i64>| samples_of(b@))
}

/// The per-channel reverb states as their mathematical values.
pub open spec fn comb_views(s: Seq<CombChannel>) -> Seq<CombChannelV> {
    s.map_values(|c: CombChannel| c@)
}

/// An audio effects engine instance. Freshly constructed it is
/// uninitialized and passes audio through verbatim; `init` sizes every
/// buffer from the sample rate and channel count.
pub struct Engine {
    initialized: bool,
    sample_rate: u32,
    channels: usize,
    chain_len: usize,
    slots: Vec<Slot>,
    delay_bufs: Vec<Vec<i64>>,
    delay_write_index: usize,
    delay_max_samples: usize,
    combs: Vec<CombChannel>,
    tremolo_phase: u64,
    distortion_lp: Vec<i64>,
}

impl View for Engine {
    type V = EngineV;

    closed spec fn view(&self) -> EngineV {
        EngineV {
            initialized: self.initialized,
            sample_rate: self.sample_rate as int,
            channels: self.channels as int,
            chain_len: self.chain_len as int,
            slots: self.slots@,
            delay_bufs: delay_views(self.delay_bufs@),
            delay_write_index: self.delay_write_index as int,
            delay_max_samples: self.delay_max_samples as int,
            combs: comb_views(self.combs@),
            tremolo_phase: self.tremolo_phase as int,
            distortion_lp: samples_of(self.distortion_lp@),
        }
    }
}

impl EngineV {
    /// Structural soundness: one buffer of each kind per channel, every
    /// cursor inside its buffer, every slot well formed, the distortion
    /// accumulators strictly inside (-1.0, 1.0) and the phase inside one
    /// LFO cycle.
    pub open spec fn wf(self) -> bool {
        &&& self.channels >= 1
        &&& self.slots.len() == MAX_SLOTS
        &&& 0 <= self.chain_len <= MAX_SLOTS
        &&& (forall|i: int| 0 <= i < MAX_SLOTS ==> (#[trigger] self.slots[i]).wf())
        &&& self.delay_max_samples >= 1
        &&& self.delay_bufs.len() == self.channels
        &&& (forall|c: int|
            0 <= c < self.channels ==> (#[trigger] self.delay_bufs[c]).len()
                == self.delay_max_samples)
        &&& 0 <= self.delay_write_index < self.delay_max_samples
        &&& self.combs.len() == self.channels
        &&& (forall|c: int| 0 <= c < self.channels ==> (#[trigger] self.combs[c]).wf())
        &&& self.distortion_lp.len() == self.channels
        &&& (forall|c: int|
            0 <= c < self.channels ==> -SCALE < #[trigger] self.distortion_lp[c] < SCALE)
        &&& 0 <= self.tremolo_phase < PHASE_STEPS
    }
}

/// A run of silence of the given length.
pub open spec fn zero_seq(n: int) -> Seq<int> {
    Seq::new(n as nat, |i: int| 0)
}

/// Delay buffer length for a sample rate: two seconds of audio, at
/// least one sample.
pub open spec fn spec_delay_buf_len(sr: int) -> int {
    max_i(1, 2 * sr)
}

/// Comb line length for a sample rate: the base delay in ten
/// thousandths of a second, rounded to the nearest sample, at least one.
pub open spec fn spec_comb_len(sr: int, base: int) -> int {
    max_i(1, (sr * base + 5000) / 10000)
}

/// A freshly initialized per-channel reverb state.
pub open spec fn spec_fresh_comb(sr: int) -> CombChannelV {
    CombChannelV {
        buf0: zero_seq(spec_comb_len(sr, 297)),
        buf1: zero_seq(spec_comb_len(sr, 371)),
        buf2: zero_seq(spec_comb_len(sr, 411)),
        idx0: 0,
        idx1: 0,
        idx2: 0,
        lp0: 0,
        lp1: 0,
        lp2: 0,
    }
}

/// The engine state `init` establishes: every buffer sized from the
/// sample rate, all state silent, the chain empty, every slot disabled.
pub open spec fn spec_init(sr: int, channels: int) -> EngineV {
    let ch = max_i(1, channels);
    EngineV {
        initialized: true,
        sample_rate: sr,
        channels: ch,
        chain_len: 0,
        slots: Seq::new(MAX_SLOTS as nat, |i: int| Slot {
            effect_type: EffectType::NoEffect,
            enabled: false,
            p0: 0,
            p1: 0,
            p2: 0,
        }),
        delay_bufs: Seq::new(ch as nat, |c: int| zero_seq(spec_delay_buf_len(sr))),
        delay_write_index: 0,
        delay_max_samples: spec_delay_buf_len(sr),
        combs: Seq::new(ch as nat, |c: int| spec_fresh_comb(sr)),
        tremolo_phase: 0,
        distortion_lp: zero_seq(ch),
    }
}

/// `set_chain_len` stores `min(len, MAX_SLOTS)` as the active prefix;
/// before `init` it does nothing.
pub open spec fn spec_set_chain_len(v: EngineV, len: int) -> EngineV {
    if !v.initialized {
        v
    } else {
        EngineV { chain_len: min_i(len, MAX_SLOTS as int), ..v }
    }
}

/// `set_slot` replaces one slot wholesale; an index past the chain
/// array or a call before `init` does nothing, and a slot without an
/// actual effect is forced disabled.
pub open spec fn spec_set_slot(
    v: EngineV,
    index: int,
    code: u32,
    enabled: bool,
    p0: int,
    p1: int,
    p2: int,
) -> EngineV {
    if !v.initialized || index < 0 || index >= MAX_SLOTS {
        v
    } else {
        let ty = spec_effect_type_of_code(code);
        let slot = Slot {
            effect_type: ty,
            enabled: enabled && ty != EffectType::NoEffect,
            p0: p0 as i64,
            p1: p1 as i64,
            p2: p2 as i64,
        };
        EngineV { slots: v.slots.update(index, slot), ..v }
    }
}

/// A buffer of silence.
fn zeros(n: usize) -> (v: Vec<i64>)
    ensures
        v@.len() == n,
        samples_of(v@) == zero_seq(n as int),
{
    let mut v: Vec<i64> = Vec::new();
    while v.len() < n
        invariant
            v@.len() <= n,
            forall|i: int| 0 <= i < v@.len() ==> v@[i] == 0,
        decreases n - v@.len(),
    {
        v.push(0);
    }
    proof {
        assert(samples_of(v@) =~= zero_seq(n as int));
    }
    v
}

impl Engine {
    /// An engine that has not been initialized: it copies audio through
    /// verbatim and ignores configuration.
    pub fn new() -> (r: Engine)
        ensures
            r@.wf(),
            !r@.initialized,
    {
        Engine::build(0, 1, false)
    }

    /// Builds an engine for a sample rate and channel count, sizing
    /// every buffer and silencing all state.
    fn build(sample_rate: u32, channels: usize, initialized: bool) -> (r: Engine)
        requires
            2 * (sample_rate as int) <= usize::MAX as int,
        ensures
            r@ == (EngineV { initialized, ..spec_init(sample_rate as int, channels as int) }),
            r@.wf(),
    {
        let ch: usize = if channels < 1 {
            1
        } else {
            channels
        };
        let delay_len: usize = {
            let d: u64 = 2 * (sample_rate as u64);
            if d < 1 {
                1
            } else {
                d as usize
            }
        };
        let mut slots: Vec<Slot> = Vec::new();
        while slots.len() < MAX_SLOTS
            invariant
                slots@.len() <= MAX_SLOTS,
                forall|i: int|
                    0 <= i < slots@.len() ==> slots@[i] == (Slot {
                        effect_type: EffectType::NoEffect,
                        enabled: false,
                        p0: 0,
                        p1: 0,
                        p2: 0,
                    }),
            decreases MAX_SLOTS - slots@.len(),
        {
            slots.push(Slot { effect_type: EffectType::NoEffect, enabled: false, p0: 0, p1: 0, p2: 0 });
        }
        let mut delay_bufs: Vec<Vec<i64>> = Vec::new();
        while delay_bufs.len() < ch
            invariant
                delay_bufs@.len() <= ch,
                forall|c: int|
                    0 <= c < delay_bufs@.len() ==> samples_of((#[trigger] delay_bufs@[c])@)
                        == zero_seq(delay_len as int),
            decreases ch - delay_bufs@.len(),
        {
            delay_bufs.push(zeros(delay_len));
        }
        let mut combs: Vec<CombChannel> = Vec::new();
        while combs.len() < ch
            invariant
                combs@.len() <= ch,
                forall|c: int|
                    0 <= c < combs@.len() ==> (#[trigger] combs@[c])@ == spec_fresh_comb(
                        sample_rate as int,
                    ),
            decreases ch - combs@.len(),
        {
            combs.push(Engine::fresh_comb(sample_rate));
        }
        let distortion_lp = zeros(ch);
        let r = Engine {
            initialized,
            sample_rate,
            channels: ch,
            chain_len: 0,
            slots,
            delay_bufs,
            delay_write_index: 0,
            delay_max_samples: delay_len,
            combs,
            tremolo_phase: 0,
            distortion_lp,
        };
        proof {
            assert(r@.slots =~= spec_init(sample_rate as int, channels as int).slots);
            assert(r@.delay_bufs =~= spec_init(sample_rate as int, channels as int).delay_bufs);
            assert(r@.combs =~= spec_init(sample_rate as int, channels as int).combs);
            assert(r@ =~= (EngineV {
                initialized,
                ..spec_init(sample_rate as int, channels as int)
            }));
        }
        r
    }

    /// One comb line length in samples for a base delay given in ten
    /// thousandths of a second.
    fn comb_len(sample_rate: u32, base: u64) -> (r: usize)
        requires
            base <= 10000,
        ensures
            r as int == spec_comb_len(sample_rate as int, base as int),
            r >= 1,
    {
        proof {
            let sr = sample_rate as int;
            assert(0 <= sr * (base as int) <= sr * 10000) by (nonlinear_arith)
                requires
                    0 <= base as int <= 10000,
                    sr >= 0,
            ;
            assert(sr * 10000 <= 42949672950000) by (nonlinear_arith)
                requires
                    0 <= sr <= 4294967295,
            ;
            vstd::arithmetic::div_mod::lemma_div_is_ordered(
                sr * (base as int) + 5000,
                10000 * sr + 5000,
                10000,
            );
            vstd::arithmetic::div_mod::lemma_div_multiples_vanish_fancy(sr, 5000, 10000);
            vstd::arithmetic::div_mod::lemma_div_pos_is_pos(sr * (base as int) + 5000, 10000);
        }
        let n: u64 = ((sample_rate as u64) * base + 5000) / 10000;
        if n < 1 {
            1
        } else {
            n as usize
        }
    }

    /// A freshly initialized per-channel reverb state.
    fn fresh_comb(sample_rate: u32) -> (r: CombChannel)
        ensures
            r@ == spec_fresh_comb(sample_rate as int),
            r@.wf(),
    {
        let r = CombChannel {
            buf0: zeros(Engine::comb_len(sample_rate, 297)),
            buf1: zeros(Engine::comb_len(sample_rate, 371)),
            buf2: zeros(Engine::comb_len(sample_rate, 411)),
            idx0: 0,
            idx1: 0,
            idx2: 0,
            lp0: 0,
            lp1: 0,
            lp2: 0,
        };
        proof {
            assert(r@ =~= spec_fresh_comb(sample_rate as int));
        }
        r
    }

    /// (Re)initializes the engine: sizes every buffer from the sample
    /// rate, coerces the channel count to at least one, resets the
    /// chain to empty and every slot to disabled.
    pub fn init(&mut self, sample_rate: u32, channels: usize)
        requires
            2 * (sample_rate as int) <= usize::MAX as int,
        ensures
            final(self)@ == spec_init(sample_rate as int, channels as int),
            final(self)@.wf(),
            final(self)@.initialized,
    {
        *self = Engine::build(sample_rate, channels, true);
        proof {
            assert(self@ =~= spec_init(sample_rate as int, channels as int));
        }
    }

    /// Stores `min(len, MAX_SLOTS)` as the active slot prefix; a no-op
    /// on an uninitialized engine.
    pub fn set_chain_len(&mut self, len: usize)
        requires
            old(self)@.wf(),
        ensures
            final(self)@ == spec_set_chain_len(old(self)@, len as int),
            final(self)@.wf(),
    {
        if self.initialized {
            self.chain_len = if len < MAX_SLOTS {
                len
            } else {
                MAX_SLOTS
            };
        }
        proof {
            assert(self@ =~= spec_set_chain_len(old(self)@, len as int));
        }
    }

    /// Replaces one slot wholesale. An index past the chain array is
    /// ignored, a slot whose code decodes to no actual effect is forced
    /// disabled, and a call before `init` does nothing.
    pub fn set_slot(&mut self, index: usize, effect_type: u32, enabled: bool, p0: i64, p1: i64, p2: i64)
        requires
            old(self)@.wf(),
        ensures
            final(self)@ == spec_set_slot(
                old(self)@,
                index as int,
                effect_type,
                enabled,
                p0 as int,
                p1 as int,
                p2 as int,
            ),
            final(self)@.wf(),
    {
        if self.initialized && index < MAX_SLOTS {
            let ty = effect_type_of_code(effect_type);
            let on = enabled && !matches!(ty, EffectType::NoEffect);
            self.slots[index] = Slot { effect_type: ty, enabled: on, p0, p1, p2 };
        }
        proof {
            assert(self@ =~= spec_set_slot(
                old(self)@,
                index as int,
                effect_type,
                enabled,
                p0 as int,
                p1 as int,
                p2 as int,
            ));
        }
    }

    /// Whether `init` has run.
    pub fn is_initialized(&self) -> (r: bool)
        ensures
            r == self@.initialized,
    {
        self.initialized
    }
}

/// One slot applied to one sample of one channel. A disabled slot, and
/// a slot holding no actual effect, leaves both the sample and the
/// engine untouched. `wi` is the delay write cursor snapshot taken at
/// the start of the frame. Returns (new engine, output sample).
pub open spec fn spec_apply_slot(v: EngineV, slot: Slot, x: int, ch: int, wi: int) -> (EngineV, int) {
    if !slot.enabled {
        (v, x)
    } else {
        match slot.effect_type {
            EffectType::NoEffect => (v, x),
            EffectType::Distortion => {
                let (out, lp2) = spec_distortion(
                    v.distortion_lp[ch],
                    x,
                    slot.p0 as int,
                    slot.p1 as int,
                    slot.p2 as int,
                );
                (EngineV { distortion_lp: v.distortion_lp.update(ch, lp2), ..v }, out)
            },
            EffectType::Delay => {
                let (out, nb) = spec_delay(
                    v.delay_bufs[ch],
                    wi,
                    x,
                    slot.p0 as int,
                    slot.p1 as int,
                    slot.p2 as int,
                );
                (EngineV { delay_bufs: v.delay_bufs.update(ch, nb), ..v }, out)
            },
            EffectType::Reverb => {
                let (out, c2) = spec_reverb(
                    v.combs[ch],
                    x,
                    slot.p0 as int,
                    slot.p1 as int,
                    slot.p2 as int,
                );
                (EngineV { combs: v.combs.update(ch, c2), ..v }, out)
            },
            EffectType::Tremolo => {
                let (out, ph2) = spec_tremolo(
                    v.tremolo_phase,
                    v.sample_rate,
                    ch,
                    x,
                    slot.p0 as int,
                    slot.p1 as int,
                    slot.p2 as int,
                );
                (EngineV { tremolo_phase: ph2, ..v }, out)
            },
        }
    }
}

/// The slot chain applied in order from slot `i` on: the output of each
/// enabled slot feeds the next, and only slots before `chain_len` take
/// part.
pub open spec fn spec_chain_from(v: EngineV, x: int, ch: int, wi: int, i: int) -> (EngineV, int)
    decreases v.chain_len - i,
{
    if i < 0 || i >= v.chain_len {
        (v, x)
    } else {
        let (v2, x2) = spec_apply_slot(v, v.slots[i], x, ch, wi);
        spec_chain_from(v2, x2, ch, wi, i + 1)
    }
}

/// Applying a slot never touches the configuration, the cursors of
/// other state kinds, or any other channel's state; and on a well
/// formed engine it keeps the engine well formed.
pub proof fn lemma_apply_slot_frame(v: EngineV, slot: Slot, x: int, ch: int, wi: int)
    requires
        v.wf(),
        0 <= ch < v.channels,
        0 <= wi < v.delay_max_samples,
    ensures
        ({
            let (v2, x2) = spec_apply_slot(v, slot, x, ch, wi);
            &&& v2.wf()
            &&& v2 == (EngineV {
                delay_bufs: v2.delay_bufs,
                combs: v2.combs,
                tremolo_phase: v2.tremolo_phase,
                distortion_lp: v2.distortion_lp,
                ..v
            })
            &&& v2.delay_bufs.len() == v.delay_bufs.len()
            &&& forall|c: int|
                0 <= c < v.channels ==> (#[trigger] v2.delay_bufs[c]).len()
                    == v.delay_bufs[c].len()
        }),
{
    let (v2, x2) = spec_apply_slot(v, slot, x, ch, wi);
    if slot.enabled {
        match slot.effect_type {
            EffectType::Distortion => {
                crate::effects::lemma_distortion_state_bounded(
                    v.distortion_lp[ch],
                    x,
                    slot.p0 as int,
                    slot.p1 as int,
                    slot.p2 as int,
                );
            },
            EffectType::Tremolo => {
                vstd::arithmetic::div_mod::lemma_mod_bound(
                    v.tremolo_phase + (crate::num::spec_clamp(
                        slot.p0 as int,
                        0,
                        crate::effects::RATE_MAX as int,
                    ) * 65536) / max_i(v.sample_rate, 1),
                    PHASE_STEPS as int,
                );
            },
            EffectType::Reverb => {
                let c = v.combs[ch];
                vstd::arithmetic::div_mod::lemma_mod_bound(c.idx0 + 1, c.buf0.len() as int);
                vstd::arithmetic::div_mod::lemma_mod_bound(c.idx1 + 1, c.buf1.len() as int);
                vstd::arithmetic::div_mod::lemma_mod_bound(c.idx2 + 1, c.buf2.len() as int);
            },
            _ => {},
        }
    }
}

/// Viewing the delay buffers commutes with replacing one of them.
proof fn lemma_delay_views_update(s: Seq<Vec<i64>>, i: int, b: Vec<i64>)
    requires
        0 <= i < s.len(),
    ensures
        delay_views(s.update(i, b)) == delay_views(s).update(i, samples_of(b@)),
{
    assert(delay_views(s.update(i, b)) =~= delay_views(s).update(i, samples_of(b@)));
}

/// Viewing the reverb channels commutes with replacing one of them.
proof fn lemma_comb_views_update(s: Seq<CombChannel>, i: int, c: CombChannel)
    requires
        0 <= i < s.len(),
    ensures
        comb_views(s.update(i, c)) == comb_views(s).update(i, c@),
{
    assert(comb_views(s.update(i, c)) =~= comb_views(s).update(i, c@));
}

/// A mutable borrow of one element of a buffer vector.
fn elem_mut<T>(v: &mut Vec<T>, i: usize) -> (element: &mut T)
    requires
        i < old(v)@.len(),
    ensures
        *element == old(v)@[i as int],
        final(v)@ == old(v)@.update(i as int, *final(element)),
{
    &mut v[i]
}

impl Engine {
    /// Applies one slot to one sample of one channel, exactly as
    /// `spec_apply_slot` says. `wi` is the frame's delay write cursor
    /// snapshot.
    fn apply_slot(&mut self, slot: Slot, x: i64, channel: usize, wi: usize) -> (r: i64)
        requires
            old(self)@.wf(),
            (channel as int) < old(self)@.channels,
            (wi as int) < old(self)@.delay_max_samples,
        ensures
            ({
                let (v2, x2) = spec_apply_slot(old(self)@, slot, x as int, channel as int, wi as int);
                &&& final(self)@ == v2
                &&& r as int == x2
                &&& final(self)@.wf()
            }),
    {
        proof {
            lemma_apply_slot_frame(self@, slot, x as int, channel as int, wi as int);
        }
        if !slot.enabled {
            return x;
        }
        match slot.effect_type {
            EffectType::NoEffect => x,
            EffectType::Distortion => {
                let lp = self.distortion_lp[channel];
                let (out, lp2) = process_distortion(lp, x, slot.p0, slot.p1, slot.p2);
                let ghost pre = self.distortion_lp@;
                self.distortion_lp[channel] = lp2;
                proof {
                    lemma_samples_update(pre, channel as int, lp2);
                    assert(self@ =~= spec_apply_slot(
                        old(self)@,
                        slot,
                        x as int,
                        channel as int,
                        wi as int,
                    ).0);
                }
                out
            },
            EffectType::Delay => {
                let ghost pre = self.delay_bufs@;
                let buf = elem_mut(&mut self.delay_bufs, channel);
                let out = process_delay(buf, wi, x, slot.p0, slot.p1, slot.p2);
                proof {
                    lemma_delay_views_update(pre, channel as int, self.delay_bufs@[channel as int]);
                    assert(self@ =~= spec_apply_slot(
                        old(self)@,
                        slot,
                        x as int,
                        channel as int,
                        wi as int,
                    ).0);
                }
                out
            },
            EffectType::Reverb => {
                let ghost pre = self.combs@;
                let c = elem_mut(&mut self.combs, channel);
                let out = process_reverb(c, x, slot.p0, slot.p1, slot.p2);
                proof {
                    lemma_comb_views_update(pre, channel as int, self.combs@[channel as int]);
                    assert(self@ =~= spec_apply_slot(
                        old(self)@,
                        slot,
                        x as int,
                        channel as int,
                        wi as int,
                    ).0);
                }
                out
            },
            EffectType::Tremolo => {
                let (out, ph2) = process_tremolo(
                    self.tremolo_phase,
                    self.sample_rate,
                    channel,
                    x,
                    slot.p0,
                    slot.p1,
                    slot.p2,
                );
                self.tremolo_phase = ph2;
                proof {
                    assert(self@ =~= spec_apply_slot(
                        old(self)@,
                        slot,
                        x as int,
                        channel as int,
                        wi as int,
                    ).0);
                }
                out
            },
        }
    }

    /// Runs the whole enabled-slot chain over one sample of one
    /// channel, in chain order.
    fn apply_chain(&mut self, x: i64, channel: usize, wi: usize) -> (r: i64)
        requires
            old(self)@.wf(),
            (channel as int) < old(self)@.channels,
            (wi as int) < old(self)@.delay_max_samples,
        ensures
            ({
                let (v2, x2) = spec_chain_from(old(self)@, x as int, channel as int, wi as int, 0);
                &&& final(self)@ == v2
                &&& r as int == x2
                &&& final(self)@.wf()
            }),
    {
        let mut sample = x;
        let mut i: usize = 0;
        #[verifier::loop_isolation(false)]
        while i < self.chain_len
            invariant
                self@.wf(),
                i <= self@.chain_len,
                self@.chain_len == old(self)@.chain_len,
                self@.slots == old(self)@.slots,
                self@.channels == old(self)@.channels,
                self@.delay_max_samples == old(self)@.delay_max_samples,
                spec_chain_from(old(self)@, x as int, channel as int, wi as int, 0)
                    == spec_chain_from(self@, sample as int, channel as int, wi as int, i as int),
            decreases self@.chain_len - i,
        {
            let ghost v_pre = self@;
            let ghost s_pre = sample;
            let slot = self.slots[i];
            proof {
                lemma_apply_slot_frame(self@, slot, sample as int, channel as int, wi as int);
            }
            if slot.enabled {
                sample = self.apply_slot(slot, sample, channel, wi);
            }
            proof {
                assert((self@, sample as int) == spec_apply_slot(
                    v_pre,
                    slot,
                    s_pre as int,
                    channel as int,
                    wi as int,
                ));
                assert(spec_chain_from(v_pre, s_pre as int, channel as int, wi as int, i as int)
                    == spec_chain_from(self@, sample as int, channel as int, wi as int, i + 1));
            }
            i = i + 1;
        }
        sample
    }
}

/// The whole chain inherits the per-slot frame property: configuration
/// and cursors of untouched state kinds survive, and well-formedness is
/// preserved.
pub proof fn lemma_chain_frame(v: EngineV, x: int, ch: int, wi: int, i: int)
    requires
        v.wf(),
        0 <= ch < v.channels,
        0 <= wi < v.delay_max_samples,
    ensures
        ({
            let (v2, x2) = spec_chain_from(v, x, ch, wi, i);
            &&& v2.wf()
            &&& v2 == (EngineV {
                delay_bufs: v2.delay_bufs,
                combs: v2.combs,
                tremolo_phase: v2.tremolo_phase,
                distortion_lp: v2.distortion_lp,
                ..v
            })
            &&& v2.delay_bufs.len() == v.delay_bufs.len()
            &&& forall|c: int|
                0 <= c < v.channels ==> (#[trigger] v2.delay_bufs[c]).len()
                    == v.delay_bufs[c].len()
        }),
    decreases v.chain_len - i,
{
    if i < 0 || i >= v.chain_len {
    } else {
        lemma_apply_slot_frame(v, v.slots[i], x, ch, wi);
        let (v1, x1) = spec_apply_slot(v, v.slots[i], x, ch, wi);
        lemma_chain_frame(v1, x1, ch, wi, i + 1);
    }
}

/// The output block for an uninitialized engine: the first `total`
/// samples copied from the input, the rest of the buffer untouched.
pub open spec fn spec_copy_prefix(out: Seq<int>, inp: Seq<int>, total: int) -> Seq<int> {
    Seq::new(out.len(), |i: int| if i < total { inp[i] } else { out[i] })
}

/// How many requested channels the chain processes: the configured
/// count at most, always at least one; requested channels beyond it
/// pass through unmodified.
pub open spec fn spec_active_channels(v: EngineV, channels: int) -> int {
    max_i(1, min_i(channels, v.channels))
}

/// One frame's channels from channel `c` on: each sample runs the chain
/// if its channel is active, then lands in the output block.
pub open spec fn spec_frame_channels(
    v: EngineV,
    inp: Seq<int>,
    out: Seq<int>,
    f: int,
    channels: int,
    active: int,
    wi: int,
    c: int,
) -> (EngineV, Seq<int>)
    decreases channels - c,
{
    if c < 0 || c >= channels {
        (v, out)
    } else {
        let idx = f * channels + c;
        let x = inp[idx];
        let (v1, x1) = if c < active {
            spec_chain_from(v, x, c, wi, 0)
        } else {
            (v, x)
        };
        spec_frame_channels(v1, inp, out.update(idx, x1), f, channels, active, wi, c + 1)
    }
}

/// The frames from frame `f` on: per frame, the delay write cursor is
/// snapshotted, every channel is processed against that snapshot, and
/// only then does the shared cursor advance by one — once per frame,
/// never once per slot.
pub open spec fn spec_frames(
    v: EngineV,
    inp: Seq<int>,
    out: Seq<int>,
    frames: int,
    channels: int,
    active: int,
    f: int,
) -> (EngineV, Seq<int>)
    decreases frames - f,
{
    if f < 0 || f >= frames {
        (v, out)
    } else {
        let wi = v.delay_write_index;
        let (v1, out1) = spec_frame_channels(v, inp, out, f, channels, active, wi, 0);
        let v2 = EngineV {
            delay_write_index: (wi + 1) % v1.delay_max_samples,
            ..v1
        };
        spec_frames(v2, inp, out1, frames, channels, active, f + 1)
    }
}

/// A whole `process` call: an uninitialized engine copies the block
/// through verbatim; an initialized one drives every frame through the
/// chain. Returns (new engine, new output block).
pub open spec fn spec_process(
    v: EngineV,
    inp: Seq<int>,
    out: Seq<int>,
    frames: int,
    channels: int,
) -> (EngineV, Seq<int>) {
    if !v.initialized {
        (v, spec_copy_prefix(out, inp, frames * channels))
    } else {
        spec_frames(v, inp, out, frames, channels, spec_active_channels(v, channels), 0)
    }
}

impl Engine {
    /// Processes `frames` frames of `channels`-channel interleaved
    /// audio from `input` into `output`, exactly as `spec_process`
    /// says. Before `init` has run the block is copied through
    /// verbatim; output samples beyond the block stay untouched.
    pub fn process(&mut self, input: &Vec<i64>, output: &mut Vec<i64>, frames: usize, channels: usize)
        requires
            old(self)@.wf(),
            (frames as int) * (channels as int) <= usize::MAX as int,
            input@.len() >= (frames as int) * (channels as int),
            old(output)@.len() >= (frames as int) * (channels as int),
        ensures
            final(self)@.wf(),
            final(output)@.len() == old(output)@.len(),
            ({
                let (v2, out2) = spec_process(
                    old(self)@,
                    samples_of(input@),
                    samples_of(old(output)@),
                    frames as int,
                    channels as int,
                );
                &&& final(self)@ == v2
                &&& samples_of(final(output)@) == out2
            }),
    {
        let total = frames * channels;
        if !self.is_initialized() {
            let mut i: usize = 0;
            #[verifier::loop_isolation(false)]
            while i < total
                invariant
                    i <= total,
                    output@.len() == old(output)@.len(),
                    forall|j: int| 0 <= j < i ==> output@[j] == input@[j],
                    forall|j: int| i <= j < output@.len() ==> output@[j] == old(output)@[j],
                decreases total - i,
            {
                output[i] = input[i];
                i = i + 1;
            }
            proof {
                assert(samples_of(output@) =~= spec_copy_prefix(
                    samples_of(old(output)@),
                    samples_of(input@),
                    total as int,
                ));
            }
            return;
        }
        let active_channels: usize = {
            let a: usize = if channels < self.channels {
                channels
            } else {
                self.channels
            };
            if a < 1 {
                1
            } else {
                a
            }
        };
        let ghost inp = samples_of(input@);
        let ghost v0 = self@;
        let ghost out0 = samples_of(old(output)@);
        let ghost active_g = spec_active_channels(v0, channels as int);
        let mut frame: usize = 0;
        #[verifier::loop_isolation(false)]
        while frame < frames
            invariant
                self@.wf(),
                frame <= frames,
                self@.channels == v0.channels,
                self@.chain_len == v0.chain_len,
                self@.slots == v0.slots,
                self@.delay_max_samples == v0.delay_max_samples,
                output@.len() == old(output)@.len(),
                spec_frames(v0, inp, out0, frames as int, channels as int, active_g, 0)
                    == spec_frames(
                    self@,
                    inp,
                    samples_of(output@),
                    frames as int,
                    channels as int,
                    active_g,
                    frame as int,
                ),
            decreases frames - frame,
        {
            let wi = self.delay_write_index;
            let ghost v_f = self@;
            let ghost out_f = samples_of(output@);
            let mut channel: usize = 0;
            #[verifier::loop_isolation(false)]
            while channel < channels
                invariant
                    self@.wf(),
                    channel <= channels,
                    self@.channels == v_f.channels,
                    self@.chain_len == v_f.chain_len,
                    self@.slots == v_f.slots,
                    self@.delay_max_samples == v_f.delay_max_samples,
                    self@.delay_write_index == wi as int,
                    output@.len() == old(output)@.len(),
                    spec_frame_channels(
                        v_f,
                        inp,
                        out_f,
                        frame as int,
                        channels as int,
                        active_g,
                        wi as int,
                        0,
                    ) == spec_frame_channels(
                        self@,
                        inp,
                        samples_of(output@),
                        frame as int,
                        channels as int,
                        active_g,
                        wi as int,
                        channel as int,
                    ),
                decreases channels - channel,
            {
                proof {
                    assert((frame as int) * (channels as int) + (channel as int)
                        < (frames as int) * (channels as int)) by (nonlinear_arith)
                        requires
                            0 <= (frame as int) < (frames as int),
                            0 <= (channel as int) < (channels as int),
                    ;
                }
                let idx = frame * channels + channel;
                let mut sample = input[idx];
                let ghost v_c = self@;
                let ghost out_c = samples_of(output@);
                let ghost x0 = sample as int;
                if channel < active_channels {
                    proof {
                        lemma_chain_frame(self@, sample as int, channel as int, wi as int, 0);
                    }
                    sample = self.apply_chain(sample, channel, wi);
                }
                let ghost pre_out = output@;
                output[idx] = sample;
                proof {
                    lemma_samples_update(pre_out, idx as int, sample);
                    assert(spec_frame_channels(
                        v_c,
                        inp,
                        out_c,
                        frame as int,
                        channels as int,
                        active_g,
                        wi as int,
                        channel as int,
                    ) == spec_frame_channels(
                        self@,
                        inp,
                        samples_of(output@),
                        frame as int,
                        channels as int,
                        active_g,
                        wi as int,
                        channel as int + 1,
                    ));
                }
                channel = channel + 1;
            }
            let ghost v_done = self@;
            let wi2 = (wi + 1) % self.delay_max_samples;
            self.delay_write_index = wi2;
            proof {
                assert(self@ =~= (EngineV { delay_write_index: wi2 as int, ..v_done }));
                assert(spec_frames(v_f, inp, out_f, frames as int, channels as int, active_g, frame as int)
                    == spec_frames(
                    self@,
                    inp,
                    samples_of(output@),
                    frames as int,
                    channels as int,
                    active_g,
                    frame as int + 1,
                ));
            }
            frame = frame + 1;
        }
    }
}

/// Pass-through: before `init` has run, a `process` call leaves the
/// engine as it was and copies the input block into the output
/// verbatim, for any frame and channel counts; output samples beyond
/// the block keep their old values.
pub proof fn lemma_process_passthrough(
    v: EngineV,
    inp: Seq<int>,
    out: Seq<int>,
    frames: int,
    channels: int,
)
    requires
        !v.initialized,
        frames >= 0,
        channels >= 0,
        inp.len() >= frames * channels,
        out.len() >= frames * channels,
    ensures
        ({
            let (v2, out2) = spec_process(v, inp, out, frames, channels);
            &&& v2 == v
            &&& out2.len() == out.len()
            &&& (forall|i: int| 0 <= i < frames * channels ==> out2[i] == inp[i])
            &&& (forall|i: int| frames * channels <= i < out.len() ==> out2[i] == out[i])
        }),
{
    let total = frames * channels;
    vstd::arithmetic::mul::lemma_mul_nonnegative(frames, channels);
    let (v2, out2) = spec_process(v, inp, out, frames, channels);
    assert forall|i: int| 0 <= i < total implies out2[i] == inp[i] by {
        assert(i < out.len());
    }
    assert forall|i: int| total <= i < out.len() implies out2[i] == out[i] by {}
}

/// Chain ordering: with two slots in the chain, processing a sample is
/// exactly the first slot applied to it and then the second applied to
/// the result — never the other way around.
pub proof fn lemma_chain_applies_in_order(v: EngineV, x: int, ch: int, wi: int)
    requires
        v.wf(),
        v.chain_len == 2,
        0 <= ch < v.channels,
        0 <= wi < v.delay_max_samples,
    ensures
        ({
            let (va, xa) = spec_apply_slot(v, v.slots[0], x, ch, wi);
            let (vb, xb) = spec_apply_slot(va, v.slots[1], xa, ch, wi);
            spec_chain_from(v, x, ch, wi, 0) == (vb, xb)
        }),
{
    lemma_apply_slot_frame(v, v.slots[0], x, ch, wi);
    let (va, xa) = spec_apply_slot(v, v.slots[0], x, ch, wi);
    lemma_apply_slot_frame(va, v.slots[1], xa, ch, wi);
    let (vb, xb) = spec_apply_slot(va, v.slots[1], xa, ch, wi);
    assert(spec_chain_from(v, x, ch, wi, 0) == spec_chain_from(va, xa, ch, wi, 1));
    assert(spec_chain_from(va, xa, ch, wi, 1) == spec_chain_from(vb, xb, ch, wi, 2));
    assert(spec_chain_from(vb, xb, ch, wi, 2) == (vb, xb));
}

/// A disabled slot never alters the sample or the engine, whatever its
/// type and parameters.
pub proof fn lemma_disabled_slot_passes_through(v: EngineV, slot: Slot, x: int, ch: int, wi: int)
    requires
        !slot.enabled,
    ensures
        spec_apply_slot(v, slot, x, ch, wi) == (v, x),
{
}

/// A chain whose remaining slots are all disabled alters neither the
/// sample nor the engine, whatever those slots hold.
pub proof fn lemma_all_disabled_chain_passes_through(v: EngineV, x: int, ch: int, wi: int, i: int)
    requires
        forall|j: int| i <= j < v.chain_len ==> !(#[trigger] v.slots[j]).enabled,
    ensures
        spec_chain_from(v, x, ch, wi, i) == (v, x),
    decreases v.chain_len - i,
{
    if i < 0 || i >= v.chain_len {
    } else {
        lemma_all_disabled_chain_passes_through(v, x, ch, wi, i + 1);
    }
}

/// Out-of-chain slots never take part: two engines that agree on
/// everything except the slots at or past the chain length produce the
/// same sample and the same state (up to those ignored slots).
pub proof fn lemma_chain_reads_only_prefix(
    v: EngineV,
    w: EngineV,
    x: int,
    ch: int,
    wi: int,
    i: int,
)
    requires
        w.slots.len() == v.slots.len(),
        forall|j: int| 0 <= j < v.chain_len ==> v.slots[j] == w.slots[j],
        w == (EngineV { slots: w.slots, ..v }),
    ensures
        ({
            let (v2, x2) = spec_chain_from(v, x, ch, wi, i);
            let (w2, x3) = spec_chain_from(w, x, ch, wi, i);
            &&& x3 == x2
            &&& w2 == (EngineV { slots: w.slots, ..v2 })
        }),
    decreases v.chain_len - i,
{
    if i < 0 || i >= v.chain_len {
    } else {
        let (v1, x1) = spec_apply_slot(v, v.slots[i], x, ch, wi);
        let (w1, x1w) = spec_apply_slot(w, w.slots[i], x, ch, wi);
        assert(x1w == x1 && w1 == (EngineV { slots: w.slots, ..v1 }));
        lemma_chain_reads_only_prefix(v1, w1, x1, ch, wi, i + 1);
    }
}

/// Configuration idempotence: writing the same slot twice leaves
/// exactly the state one write leaves, so repeated identical `set_slot`
/// calls cannot change what a later block sounds like.
pub proof fn lemma_set_slot_idempotent(
    v: EngineV,
    index: int,
    code: u32,
    enabled: bool,
    p0: int,
    p1: int,
    p2: int,
)
    requires
        v.wf(),
    ensures
        spec_set_slot(spec_set_slot(v, index, code, enabled, p0, p1, p2), index, code, enabled, p0, p1, p2)
            == spec_set_slot(v, index, code, enabled, p0, p1, p2),
{
    let once = spec_set_slot(v, index, code, enabled, p0, p1, p2);
    let twice = spec_set_slot(once, index, code, enabled, p0, p1, p2);
    assert(twice.slots =~= once.slots);
    assert(twice =~= once);
}

} // verus!
