//! The four per-sample effect algorithms. Each takes the input sample,
//! its persistent state and the slot's three parameters, returns the
//! output sample, and mutates the state exactly as its spec function
//! says. All values are Q16 fixed point.

use crate::num::{
    abs_i, clamp, lemma_lowpass_between, lemma_mix_bound, lemma_mix_full_wet, lemma_mul_abs_bound,
    lemma_tdiv_bound, lemma_tdiv_monotone, lemma_tdiv_multiple, lemma_tdiv_strict_bound, max_i,
    min_i, mix, sat64, spec_clamp, spec_mix, spec_sat, tdiv, tdiv128, SCALE,
};
use vstd::arithmetic::div_mod::{lemma_div_is_ordered, lemma_div_multiples_vanish_fancy};
use vstd::prelude::*;

verus! {

/// Largest feedback a delay slot accepts: 0.95 in Q16, rounded down.
pub const FEEDBACK_MAX: i64 = 62259;

/// Tone lowpass coefficient at tone = 0: 0.05 in Q16.
pub const ALPHA_BASE: i64 = 3277;

/// Tone lowpass coefficient span: 0.45 in Q16.
pub const ALPHA_SPAN: i64 = 29491;

/// A sequence of samples as mathematical integers.
pub open spec fn samples_of(s: Seq<i64>) -> Seq<int> {
    s.map_values(|v: i64| v as int)
}

/// The soft-knee saturator: `(x * g) / (1 + |x * g|)` with
/// `g = 1 + 10 * drive`, written over Q16 integers. Its magnitude stays
/// strictly below `SCALE` for every input.
pub open spec fn spec_shape(x: int, drive: int) -> int {
    let g = SCALE + 10 * drive;
    let p = x * g;
    tdiv(SCALE * p, SCALE * SCALE + abs_i(p))
}

/// Distortion: soft saturation, a one-pole tone lowpass persisting per
/// channel, then the dry/wet blend. Returns (output, new filter state).
pub open spec fn spec_distortion(lp: int, x: int, p0: int, p1: int, p2: int) -> (int, int) {
    let drive = spec_clamp(p0, 0, SCALE as int);
    let tone = spec_clamp(p1, 0, SCALE as int);
    let m = spec_clamp(p2, 0, SCALE as int);
    let shaped = spec_shape(x, drive);
    let alpha = ALPHA_BASE + (tone * ALPHA_SPAN) / (SCALE as int);
    let filtered = lp + tdiv(alpha * (shaped - lp), SCALE as int);
    (spec_mix(x, filtered, m), filtered)
}

/// The shaped sample is strictly inside (-1.0, 1.0) in Q16, whatever
/// the (finite) input.
pub proof fn lemma_shape_bounded(x: int, drive: int)
    requires
        0 <= drive <= SCALE,
    ensures
        abs_i(spec_shape(x, drive)) < SCALE,
{
    let s = SCALE as int;
    let g = s + 10 * drive;
    let p = x * g;
    assert(abs_i(s * p) < s * (s * s + abs_i(p))) by (nonlinear_arith)
        requires
            s == 65536,
    ;
    lemma_tdiv_strict_bound(s * p, s * s + abs_i(p), s);
}

/// The distortion filter state stays strictly inside (-1.0, 1.0), and a
/// full wet blend returns exactly the filter state.
pub proof fn lemma_distortion_state_bounded(lp: int, x: int, p0: int, p1: int, p2: int)
    requires
        -SCALE < lp < SCALE,
    ensures
        ({
            let (out, lp2) = spec_distortion(lp, x, p0, p1, p2);
            &&& -SCALE < lp2 < SCALE
            &&& min_i(x, lp2) <= out <= max_i(x, lp2)
        }),
{
    let s = SCALE as int;
    let drive = spec_clamp(p0, 0, s);
    let tone = spec_clamp(p1, 0, s);
    let m = spec_clamp(p2, 0, s);
    let shaped = spec_shape(x, drive);
    lemma_shape_bounded(x, drive);
    let alpha = ALPHA_BASE + (tone * ALPHA_SPAN) / s;
    assert(0 <= tone * ALPHA_SPAN <= s * ALPHA_SPAN) by (nonlinear_arith)
        requires
            0 <= tone <= s,
            ALPHA_SPAN == 29491,
    ;
    lemma_tdiv_bound(tone * ALPHA_SPAN, s, ALPHA_SPAN as int);
    lemma_lowpass_between(lp, shaped, alpha);
    let filtered = lp + tdiv(alpha * (shaped - lp), s);
    lemma_mix_bound(x, filtered, m);
}

/// Distortion boundedness: with a full wet blend the output is the
/// filter state itself, strictly inside (-1.0, 1.0) in Q16, for any
/// finite input sample — the saturator never reaches full scale.
pub proof fn lemma_distortion_bounded(lp: int, x: int, p0: int, p1: int)
    requires
        -SCALE < lp < SCALE,
    ensures
        ({
            let (out, lp2) = spec_distortion(lp, x, p0, p1, SCALE as int);
            &&& out == lp2
            &&& -SCALE < out < SCALE
        }),
{
    lemma_distortion_state_bounded(lp, x, p0, p1, SCALE as int);
    let (out, lp2) = spec_distortion(lp, x, p0, p1, SCALE as int);
    crate::num::lemma_mix_full_wet(x, lp2);
}

/// Distortion on one sample. `lp` is the channel's persistent lowpass
/// accumulator; the result pairs the output sample with its new value.
pub fn process_distortion(lp: i64, x: i64, p0: i64, p1: i64, p2: i64) -> (r: (i64, i64))
    requires
        -SCALE < lp < SCALE,
    ensures
        (r.0 as int, r.1 as int) == spec_distortion(lp as int, x as int, p0 as int, p1 as int, p2 as int),
        -SCALE < r.1 < SCALE,
{
    proof {
        lemma_distortion_state_bounded(lp as int, x as int, p0 as int, p1 as int, p2 as int);
    }
    let s = SCALE as i128;
    let drive = clamp(p0, 0, SCALE);
    let tone = clamp(p1, 0, SCALE);
    let mix_value = clamp(p2, 0, SCALE);
    let g: i64 = SCALE + 10 * drive;
    proof {
        lemma_mul_abs_bound(x as int, g as int, i64::MAX as int + 1, 11 * SCALE as int);
    }
    let p: i128 = (x as i128) * (g as i128);
    proof {
        lemma_mul_abs_bound(SCALE as int, p as int, SCALE as int, abs_i(p as int));
    }
    let ap: i128 = if p >= 0 {
        p
    } else {
        -p
    };
    let shaped_wide = tdiv128(s * p, s * s + ap);
    proof {
        lemma_shape_bounded(x as int, drive as int);
    }
    let shaped: i64 = shaped_wide as i64;
    let alpha: i64 = ALPHA_BASE + (((tone as u64) * (ALPHA_SPAN as u64)) / (SCALE as u64)) as i64;
    let step_wide = tdiv128((alpha as i128) * ((shaped - lp) as i128), s);
    proof {
        lemma_lowpass_between(lp as int, shaped as int, alpha as int);
    }
    let filtered: i64 = lp + step_wide as i64;
    let out = mix(x, filtered, mix_value);
    (out, filtered)
}

/// Number of samples a delay slot reaches back:
/// `max(1, round(time * (max - 1)))` for a buffer of `max` samples.
pub open spec fn spec_delay_len(time: int, max: int) -> int {
    max_i(1, (time * (max - 1) + 32768) / (SCALE as int))
}

/// The tap position `delay_len` samples behind the write cursor on a
/// circular buffer of `max` samples.
pub open spec fn spec_read_index(wi: int, ds: int, max: int) -> int {
    if wi >= ds {
        wi - ds
    } else {
        max - ds + wi
    }
}

/// Delay: reads the tap, writes input plus feedback at the shared write
/// cursor, blends dry with the tap. Returns (output, new buffer).
pub open spec fn spec_delay(buf: Seq<int>, wi: int, x: int, p0: int, p1: int, p2: int) -> (
    int,
    Seq<int>,
) {
    let max = buf.len() as int;
    let time = spec_clamp(p0, 0, SCALE as int);
    let fb = spec_clamp(p1, 0, FEEDBACK_MAX as int);
    let m = spec_clamp(p2, 0, SCALE as int);
    let ds = spec_delay_len(time, max);
    let ri = spec_read_index(wi, ds, max);
    let d = buf[ri];
    let w = spec_sat(x + tdiv(fb * d, SCALE as int));
    (spec_mix(x, d, m), buf.update(wi, w))
}

/// The reach of a delay slot never exceeds the buffer: with a clamped
/// time, `1 <= spec_delay_len(time, max) <= max` for any `max >= 1`.
pub proof fn lemma_delay_len_in_range(time: int, max: int)
    requires
        0 <= time <= SCALE,
        max >= 1,
    ensures
        1 <= spec_delay_len(time, max),
        max >= 2 ==> spec_delay_len(time, max) <= max - 1,
        spec_delay_len(time, max) <= max,
{
    let s = SCALE as int;
    assert(0 <= time * (max - 1) <= s * (max - 1)) by (nonlinear_arith)
        requires
            0 <= time <= s,
            max >= 1,
    ;
    if max >= 2 {
        lemma_div_is_ordered(time * (max - 1) + 32768, s * (max - 1) + 32768, s);
        lemma_div_multiples_vanish_fancy(max - 1, 32768, s);
    } else {
        vstd::arithmetic::div_mod::lemma_div_pos_is_pos(time * (max - 1) + 32768, s);
        lemma_div_is_ordered(time * (max - 1) + 32768, 32768, s);
    }
}

/// Mapping a sequence update commutes with reading it as integers.
pub proof fn lemma_samples_update(s: Seq<i64>, i: int, v: i64)
    requires
        0 <= i < s.len(),
    ensures
        samples_of(s.update(i, v)) == samples_of(s).update(i, v as int),
{
    assert(samples_of(s.update(i, v)) =~= samples_of(s).update(i, v as int));
}

/// Delay round trip, the per-sample half: with no feedback and a full
/// wet blend, the output is exactly the sample stored `delay_len`
/// positions behind the write cursor, and the input lands unchanged at
/// the cursor — so an impulse written now reappears exactly when the
/// cursor has advanced that far.
pub proof fn lemma_delay_no_feedback_round_trip(buf: Seq<int>, wi: int, x: int, p0: int)
    requires
        buf.len() >= 1,
        0 <= wi < buf.len(),
        i64::MIN as int <= x <= i64::MAX as int,
    ensures
        ({
            let (out, nb) = spec_delay(buf, wi, x, p0, 0, SCALE as int);
            let ds = spec_delay_len(spec_clamp(p0, 0, SCALE as int), buf.len() as int);
            &&& out == buf[spec_read_index(wi, ds, buf.len() as int)]
            &&& nb == buf.update(wi, x)
        }),
{
    let max = buf.len() as int;
    let time = spec_clamp(p0, 0, SCALE as int);
    lemma_delay_len_in_range(time, max);
    let ds = spec_delay_len(time, max);
    assert(0 <= spec_read_index(wi, ds, max) < max);
    let d = buf[spec_read_index(wi, ds, max)];
    lemma_mix_full_wet(x, d);
    let (out, nb) = spec_delay(buf, wi, x, p0, 0, SCALE as int);
    assert(spec_clamp(0, 0, FEEDBACK_MAX as int) == 0);
    assert(tdiv(0 * d, SCALE as int) == 0);
    assert(spec_sat(x + 0) == x);
    assert(out == d);
    assert(nb == buf.update(wi, x));
}

/// Delay on one sample of one channel. `write_index` is the cursor
/// shared by every delay slot this frame; the caller advances it once
/// per frame, never here.
pub fn process_delay(buf: &mut Vec<i64>, write_index: usize, x: i64, p0: i64, p1: i64, p2: i64) -> (r:
    i64)
    requires
        old(buf)@.len() >= 1,
        write_index < old(buf)@.len(),
    ensures
        ({
            let (out, nb) = spec_delay(
                samples_of(old(buf)@),
                write_index as int,
                x as int,
                p0 as int,
                p1 as int,
                p2 as int,
            );
            &&& r as int == out
            &&& samples_of(final(buf)@) == nb
            &&& final(buf)@.len() == old(buf)@.len()
        }),
{
    let max = buf.len();
    let time = clamp(p0, 0, SCALE);
    let fb = clamp(p1, 0, FEEDBACK_MAX);
    let mix_value = clamp(p2, 0, SCALE);
    proof {
        lemma_delay_len_in_range(time as int, max as int);
        lemma_mul_abs_bound(time as int, (max - 1) as int, SCALE as int, u64::MAX as int);
    }
    let prod: u128 = (time as u128) * ((max - 1) as u128);
    let ds_wide: u128 = (prod + 32768) / 65536;
    let ds: usize = if ds_wide < 1 {
        1
    } else {
        ds_wide as usize
    };
    let read_index: usize = if write_index >= ds {
        write_index - ds
    } else {
        (max - ds) + write_index
    };
    let d = buf[read_index];
    proof {
        lemma_mul_abs_bound(fb as int, d as int, FEEDBACK_MAX as int, i64::MAX as int + 1);
    }
    let fed = tdiv128((fb as i128) * (d as i128), SCALE as i128);
    let w = sat64((x as i128) + fed);
    let ghost pre = buf@;
    buf[write_index] = w;
    proof {
        lemma_samples_update(pre, write_index as int, w);
    }
    mix(x, d, mix_value)
}

/// Reverb feedback gain at room = 0: 0.2 in Q16.
pub const FB_BASE: i64 = 13107;

/// Reverb feedback gain span: 0.7 in Q16, so the gain stays below 0.9.
pub const FB_SPAN: i64 = 45875;

/// One channel's reverb state: three parallel damped feedback delay
/// lines (comb lines), each with its own buffer, cursor and one-pole
/// damping accumulator.
pub struct CombChannel {
    pub buf0: Vec<i64>,
    pub buf1: Vec<i64>,
    pub buf2: Vec<i64>,
    pub idx0: usize,
    pub idx1: usize,
    pub idx2: usize,
    pub lp0: i64,
    pub lp1: i64,
    pub lp2: i64,
}

/// The mathematical value of one channel's reverb state.
#[verifier::ext_equal]
pub struct CombChannelV {
    pub buf0: Seq<int>,
    pub buf1: Seq<int>,
    pub buf2: Seq<int>,
    pub idx0: int,
    pub idx1: int,
    pub idx2: int,
    pub lp0: int,
    pub lp1: int,
    pub lp2: int,
}

impl View for CombChannel {
    type V = CombChannelV;

    open spec fn view(&self) -> CombChannelV {
        CombChannelV {
            buf0: samples_of(self.buf0@),
            buf1: samples_of(self.buf1@),
            buf2: samples_of(self.buf2@),
            idx0: self.idx0 as int,
            idx1: self.idx1 as int,
            idx2: self.idx2 as int,
            lp0: self.lp0 as int,
            lp1: self.lp1 as int,
            lp2: self.lp2 as int,
        }
    }
}

impl CombChannelV {
    /// Each comb line has at least one sample of storage and a cursor
    /// inside its buffer.
    pub open spec fn wf(self) -> bool {
        &&& self.buf0.len() >= 1
        &&& self.buf1.len() >= 1
        &&& self.buf2.len() >= 1
        &&& 0 <= self.idx0 < self.buf0.len()
        &&& 0 <= self.idx1 < self.buf1.len()
        &&& 0 <= self.idx2 < self.buf2.len()
    }

    /// All stored samples and accumulators within magnitude `m`.
    pub open spec fn bounded(self, m: int) -> bool {
        &&& forall|i: int| 0 <= i < self.buf0.len() ==> abs_i(#[trigger] self.buf0[i]) <= m
        &&& forall|i: int| 0 <= i < self.buf1.len() ==> abs_i(#[trigger] self.buf1[i]) <= m
        &&& forall|i: int| 0 <= i < self.buf2.len() ==> abs_i(#[trigger] self.buf2[i]) <= m
        &&& abs_i(self.lp0) <= m
        &&& abs_i(self.lp1) <= m
        &&& abs_i(self.lp2) <= m
    }
}

/// One comb line step: tap at the cursor, damp the tap into the
/// accumulator, write input plus feedback over the tap, advance the
/// cursor. Returns (pre-damping tap, new buffer, new cursor, new
/// accumulator).
pub open spec fn spec_comb(
    buf: Seq<int>,
    idx: int,
    lp: int,
    x: int,
    damping: int,
    fbg: int,
) -> (int, Seq<int>, int, int) {
    let d = buf[idx];
    let damped = lp + tdiv(damping * (d - lp), SCALE as int);
    let w = spec_sat(x + tdiv(fbg * damped, SCALE as int));
    (d, buf.update(idx, w), (idx + 1) % (buf.len() as int), damped)
}

/// Reverb: three parallel comb lines fed by the same input; the wet
/// signal is the average of the three pre-damping taps. Returns
/// (output, new channel state).
pub open spec fn spec_reverb(c: CombChannelV, x: int, p0: int, p1: int, p2: int) -> (
    int,
    CombChannelV,
) {
    let room = spec_clamp(p0, 0, SCALE as int);
    let damping = spec_clamp(p1, 0, SCALE as int);
    let m = spec_clamp(p2, 0, SCALE as int);
    let fbg = FB_BASE + (room * FB_SPAN) / (SCALE as int);
    let (d0, b0, i0, l0) = spec_comb(c.buf0, c.idx0, c.lp0, x, damping, fbg);
    let (d1, b1, i1, l1) = spec_comb(c.buf1, c.idx1, c.lp1, x, damping, fbg);
    let (d2, b2, i2, l2) = spec_comb(c.buf2, c.idx2, c.lp2, x, damping, fbg);
    let wet = tdiv(d0 + d1 + d2, 3);
    let out = spec_mix(x, wet, m);
    (
        out,
        CombChannelV {
            buf0: b0,
            buf1: b1,
            buf2: b2,
            idx0: i0,
            idx1: i1,
            idx2: i2,
            lp0: l0,
            lp1: l1,
            lp2: l2,
        },
    )
}

/// The clamped reverb feedback gain stays in `[0.2, 0.9)` in Q16.
pub proof fn lemma_reverb_gain_range(room: int)
    requires
        0 <= room <= SCALE,
    ensures
        FB_BASE <= FB_BASE + (room * FB_SPAN) / (SCALE as int) <= FB_BASE + FB_SPAN,
{
    let s = SCALE as int;
    assert(0 <= room * FB_SPAN <= s * FB_SPAN) by (nonlinear_arith)
        requires
            0 <= room <= s,
            FB_SPAN == 45875,
    ;
    lemma_tdiv_bound(room * FB_SPAN, s, FB_SPAN as int);
    vstd::arithmetic::div_mod::lemma_div_pos_is_pos(room * FB_SPAN, s);
}

/// One comb step keeps a tenfold bound: if the input is within `lim`
/// and the line's state within `10 * lim`, the new state stays within
/// `10 * lim` — the feedback gain never reaches 0.9.
proof fn lemma_comb_step_bounded(
    buf: Seq<int>,
    idx: int,
    lp: int,
    x: int,
    damping: int,
    fbg: int,
    lim: int,
)
    requires
        0 <= idx < buf.len(),
        0 <= damping <= SCALE,
        0 <= fbg <= FB_BASE + FB_SPAN,
        lim >= 0,
        abs_i(x) <= lim,
        abs_i(lp) <= 10 * lim,
        forall|i: int| 0 <= i < buf.len() ==> abs_i(#[trigger] buf[i]) <= 10 * lim,
    ensures
        ({
            let (d, b2, i2, l2) = spec_comb(buf, idx, lp, x, damping, fbg);
            &&& abs_i(d) <= 10 * lim
            &&& abs_i(l2) <= 10 * lim
            &&& 0 <= i2 < buf.len()
            &&& b2.len() == buf.len()
            &&& forall|i: int| 0 <= i < b2.len() ==> abs_i(#[trigger] b2[i]) <= 10 * lim
        }),
{
    let s = SCALE as int;
    let d = buf[idx];
    lemma_lowpass_between(lp, d, damping);
    let damped = lp + tdiv(damping * (d - lp), s);
    assert(abs_i(fbg * damped) <= (9 * lim) * s) by (nonlinear_arith)
        requires
            0 <= fbg <= 58982,
            abs_i(damped) <= 10 * lim,
            lim >= 0,
            s == 65536,
    ;
    lemma_tdiv_bound(fbg * damped, s, 9 * lim);
}

/// Reverb stability: with any room and damping settings, a reverb step
/// on an input within `lim` keeps every comb buffer sample, every
/// damping accumulator and the output within `10 * lim` — the impulse
/// response cannot diverge.
pub proof fn lemma_reverb_bounded(c: CombChannelV, x: int, p0: int, p1: int, p2: int, lim: int)
    requires
        c.wf(),
        lim >= 0,
        abs_i(x) <= lim,
        c.bounded(10 * lim),
    ensures
        ({
            let (out, c2) = spec_reverb(c, x, p0, p1, p2);
            &&& c2.wf()
            &&& c2.bounded(10 * lim)
            &&& abs_i(out) <= 10 * lim
        }),
{
    let s = SCALE as int;
    let room = spec_clamp(p0, 0, s);
    let damping = spec_clamp(p1, 0, s);
    let m = spec_clamp(p2, 0, s);
    let fbg = FB_BASE + (room * FB_SPAN) / s;
    lemma_reverb_gain_range(room);
    lemma_comb_step_bounded(c.buf0, c.idx0, c.lp0, x, damping, fbg, lim);
    lemma_comb_step_bounded(c.buf1, c.idx1, c.lp1, x, damping, fbg, lim);
    lemma_comb_step_bounded(c.buf2, c.idx2, c.lp2, x, damping, fbg, lim);
    let (d0, b0, i0, l0) = spec_comb(c.buf0, c.idx0, c.lp0, x, damping, fbg);
    let (d1, b1, i1, l1) = spec_comb(c.buf1, c.idx1, c.lp1, x, damping, fbg);
    let (d2, b2, i2, l2) = spec_comb(c.buf2, c.idx2, c.lp2, x, damping, fbg);
    lemma_tdiv_bound(d0 + d1 + d2, 3, 10 * lim);
    let wet = tdiv(d0 + d1 + d2, 3);
    lemma_mix_bound(x, wet, m);
}

/// One comb line on one sample, in executable form.
fn comb_step(buf: &mut Vec<i64>, idx: usize, lp: i64, x: i64, damping: i64, fbg: i64) -> (r: (
    i64,
    usize,
    i64,
))
    requires
        old(buf)@.len() >= 1,
        idx < old(buf)@.len(),
        0 <= damping <= SCALE,
        0 <= fbg <= FB_BASE + FB_SPAN,
    ensures
        ({
            let (d, b2, i2, l2) = spec_comb(
                samples_of(old(buf)@),
                idx as int,
                lp as int,
                x as int,
                damping as int,
                fbg as int,
            );
            &&& r.0 as int == d
            &&& samples_of(final(buf)@) == b2
            &&& final(buf)@.len() == old(buf)@.len()
            &&& r.1 as int == i2
            &&& r.1 < old(buf)@.len()
            &&& r.2 as int == l2
        }),
{
    let d = buf[idx];
    proof {
        lemma_lowpass_between(lp as int, d as int, damping as int);
    }
    let step = tdiv128((damping as i128) * ((d as i128) - (lp as i128)), SCALE as i128);
    let damped: i64 = ((lp as i128) + step) as i64;
    proof {
        assert(idx + 1 <= buf.len());
        lemma_mul_abs_bound(fbg as int, damped as int, (FB_BASE + FB_SPAN) as int, i64::MAX as int + 1);
    }
    let fed = tdiv128((fbg as i128) * (damped as i128), SCALE as i128);
    let w = sat64((x as i128) + fed);
    let ghost pre = buf@;
    buf[idx] = w;
    proof {
        lemma_samples_update(pre, idx as int, w);
    }
    let next = (idx + 1) % buf.len();
    (d, next, damped)
}

/// Reverb on one sample of one channel, mutating the channel's comb
/// bank exactly as `spec_reverb` says.
pub fn process_reverb(c: &mut CombChannel, x: i64, p0: i64, p1: i64, p2: i64) -> (r: i64)
    requires
        old(c)@.wf(),
    ensures
        ({
            let (out, c2) = spec_reverb(old(c)@, x as int, p0 as int, p1 as int, p2 as int);
            &&& r as int == out
            &&& final(c)@ == c2
            &&& final(c)@.wf()
        }),
{
    let room = clamp(p0, 0, SCALE);
    let damping = clamp(p1, 0, SCALE);
    let mix_value = clamp(p2, 0, SCALE);
    proof {
        lemma_reverb_gain_range(room as int);
    }
    let fbg: i64 = FB_BASE + (((room as u64) * (FB_SPAN as u64)) / (SCALE as u64)) as i64;
    let (d0, i0, l0) = comb_step(&mut c.buf0, c.idx0, c.lp0, x, damping, fbg);
    c.idx0 = i0;
    c.lp0 = l0;
    let (d1, i1, l1) = comb_step(&mut c.buf1, c.idx1, c.lp1, x, damping, fbg);
    c.idx1 = i1;
    c.lp1 = l1;
    let (d2, i2, l2) = comb_step(&mut c.buf2, c.idx2, c.lp2, x, damping, fbg);
    c.idx2 = i2;
    c.lp2 = l2;
    let sum: i128 = (d0 as i128) + (d1 as i128) + (d2 as i128);
    proof {
        lemma_tdiv_monotone(sum as int, 3 * (i64::MAX as int), 3);
        lemma_tdiv_monotone(3 * (i64::MIN as int), sum as int, 3);
        lemma_tdiv_multiple(i64::MAX as int, 3);
        lemma_tdiv_multiple(i64::MIN as int, 3);
    }
    let wet = tdiv128(sum, 3) as i64;
    let out = mix(x, wet, mix_value);
    proof {
        assert(c@ =~= spec_reverb(old(c)@, x as int, p0 as int, p1 as int, p2 as int).1);
    }
    out
}

/// Largest tremolo rate: 20 Hz in Q16.
pub const RATE_MAX: i64 = 1310720;

/// Number of phase steps in one LFO cycle (the whole `u32` range).
pub const PHASE_STEPS: u64 = 4294967296;

/// Half an LFO cycle in phase steps.
pub const PHASE_HALF: u64 = 2147483648;

/// A sine wave over one LFO cycle of `PHASE_STEPS` phase steps, as the
/// symmetric parabolic approximation `16 t (1/2 - t)` on the first half
/// cycle and its mirror image on the second, scaled to Q16. Its range
/// is exactly `[-SCALE, SCALE]`.
pub open spec fn spec_sine(p: int) -> int {
    let half = PHASE_HALF as int;
    if p < half {
        (p * (half - p)) / 17592186044416
    } else {
        let q = p - half;
        -((q * (half - q)) / 17592186044416)
    }
}

/// The LFO never leaves `[-1.0, 1.0]` in Q16.
pub proof fn lemma_sine_range(p: int)
    requires
        0 <= p < PHASE_STEPS,
    ensures
        -SCALE <= spec_sine(p) <= SCALE,
        p < PHASE_HALF ==> spec_sine(p) >= 0,
        p >= PHASE_HALF ==> spec_sine(p) <= 0,
{
    let half = PHASE_HALF as int;
    let q = if p < half {
        p
    } else {
        p - half
    };
    assert(0 <= q * (half - q) <= 1152921504606846976) by (nonlinear_arith)
        requires
            0 <= q < half,
            half == 2147483648,
    ;
    lemma_tdiv_bound(q * (half - q), 17592186044416, SCALE as int);
    vstd::arithmetic::div_mod::lemma_div_pos_is_pos(q * (half - q), 17592186044416);
}

/// The tremolo modulator `1 - depth + depth * (sin + 1) / 2` in Q16,
/// read with the phase value before any advance.
pub open spec fn spec_modulator(phase: int, depth: int) -> int {
    SCALE + (depth * (spec_sine(phase) + SCALE)) / 131072 - depth
}

/// Tremolo periodicity, the range half: whatever the phase, the
/// modulator stays within `[1 - depth, 1]` in Q16, the envelope the
/// depth setting promises.
pub proof fn lemma_modulator_range(phase: int, depth: int)
    requires
        0 <= phase < PHASE_STEPS,
        0 <= depth <= SCALE,
    ensures
        SCALE - depth <= spec_modulator(phase, depth) <= SCALE,
{
    lemma_sine_range(phase);
    let sine1 = spec_sine(phase) + SCALE;
    assert(0 <= depth * sine1 <= depth * 131072) by (nonlinear_arith)
        requires
            0 <= sine1 <= 131072,
            depth >= 0,
    ;
    lemma_tdiv_monotone(depth * sine1, depth * 131072, 131072);
    lemma_tdiv_multiple(depth, 131072);
    vstd::arithmetic::div_mod::lemma_div_pos_is_pos(depth * sine1, 131072);
}

/// Tremolo: scales the sample by the low-frequency modulator, then
/// blends. Only a call on channel 0 advances the engine-wide phase.
/// Returns (output, new phase).
pub open spec fn spec_tremolo(
    phase: int,
    sample_rate: int,
    channel: int,
    x: int,
    p0: int,
    p1: int,
    p2: int,
) -> (int, int) {
    let rate = spec_clamp(p0, 0, RATE_MAX as int);
    let depth = spec_clamp(p1, 0, SCALE as int);
    let m = spec_clamp(p2, 0, SCALE as int);
    let md = spec_modulator(phase, depth);
    let out = spec_mix(x, tdiv(x * md, SCALE as int), m);
    let phase2 = if channel == 0 {
        (phase + (rate * 65536) / max_i(sample_rate, 1)) % (PHASE_STEPS as int)
    } else {
        phase
    };
    (out, phase2)
}

/// Tremolo envelope: with a full wet blend the output is the sample
/// scaled by the modulator, and for a non-negative sample it stays
/// within `[(1 - depth) * x, x]` — the envelope the depth promises.
pub proof fn lemma_tremolo_envelope(
    phase: int,
    sample_rate: int,
    channel: int,
    x: int,
    p0: int,
    p1: int,
)
    requires
        0 <= phase < PHASE_STEPS,
        i64::MIN as int <= x <= i64::MAX as int,
    ensures
        ({
            let depth = spec_clamp(p1, 0, SCALE as int);
            let md = spec_modulator(phase, depth);
            let (out, _) = spec_tremolo(phase, sample_rate, channel, x, p0, p1, SCALE as int);
            &&& out == tdiv(x * md, SCALE as int)
            &&& (x >= 0 ==> tdiv(x * (SCALE - depth), SCALE as int) <= out <= x)
        }),
{
    let s = SCALE as int;
    let depth = spec_clamp(p1, 0, s);
    let md = spec_modulator(phase, depth);
    lemma_modulator_range(phase, depth);
    let wet = tdiv(x * md, s);
    lemma_mix_full_wet(x, wet);
    if x >= 0 {
        assert(x * (s - depth) <= x * md <= x * s) by (nonlinear_arith)
            requires
                x >= 0,
                s - depth <= md <= s,
        ;
        lemma_tdiv_monotone(x * (s - depth), x * md, s);
        lemma_tdiv_monotone(x * md, x * s, s);
        lemma_tdiv_multiple(x, s);
    }
}

/// The executable LFO, matching `spec_sine` step for step.
fn sine_q16(phase: u64) -> (r: i64)
    requires
        phase < PHASE_STEPS,
    ensures
        r as int == spec_sine(phase as int),
        -SCALE <= r <= SCALE,
{
    proof {
        lemma_sine_range(phase as int);
    }
    if phase < PHASE_HALF {
        let v = (phase * (PHASE_HALF - phase)) / 17592186044416;
        v as i64
    } else {
        let q = phase - PHASE_HALF;
        let v = (q * (PHASE_HALF - q)) / 17592186044416;
        -(v as i64)
    }
}

/// Tremolo on one sample. The phase is engine-wide; the caller stores
/// the returned phase back.
pub fn process_tremolo(
    phase: u64,
    sample_rate: u32,
    channel: usize,
    x: i64,
    p0: i64,
    p1: i64,
    p2: i64,
) -> (r: (i64, u64))
    requires
        phase < PHASE_STEPS,
    ensures
        (r.0 as int, r.1 as int) == spec_tremolo(
            phase as int,
            sample_rate as int,
            channel as int,
            x as int,
            p0 as int,
            p1 as int,
            p2 as int,
        ),
        r.1 < PHASE_STEPS,
{
    let rate = clamp(p0, 0, RATE_MAX);
    let depth = clamp(p1, 0, SCALE);
    let mix_value = clamp(p2, 0, SCALE);
    let sine = sine_q16(phase);
    proof {
        lemma_modulator_range(phase as int, depth as int);
    }
    let md: i64 = SCALE + (((depth as u64) * ((sine + SCALE) as u64)) / 131072) as i64 - depth;
    proof {
        let s = SCALE as int;
        assert((i64::MIN as int) * s <= (x as int) * (md as int) <= (i64::MAX as int) * s)
            by (nonlinear_arith)
            requires
                i64::MIN as int <= x as int <= i64::MAX as int,
                0 <= md as int <= s,
        ;
        lemma_tdiv_monotone((x as int) * (md as int), (i64::MAX as int) * s, s);
        lemma_tdiv_monotone((i64::MIN as int) * s, (x as int) * (md as int), s);
        lemma_tdiv_multiple(i64::MAX as int, s);
        lemma_tdiv_multiple(i64::MIN as int, s);
    }
    let wet = tdiv128((x as i128) * (md as i128), SCALE as i128);
    proof {
        lemma_mix_bound(x as int, wet as int, mix_value as int);
    }
    let out = mix(x, wet as i64, mix_value);
    let phase2: u64 = if channel == 0 {
        let sr: u64 = if sample_rate == 0 {
            1
        } else {
            sample_rate as u64
        };
        let inc: u64 = ((rate as u64) * 65536) / sr;
        (phase + inc) % PHASE_STEPS
    } else {
        phase
    };
    (out, phase2)
}

} // verus!
