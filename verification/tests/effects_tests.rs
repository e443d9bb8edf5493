//! Unit tests for the fixed-point helpers and the per-sample effect
//! algorithms, with exact expected values.

use insert_fx::effects::{
    process_delay, process_distortion, process_reverb, process_tremolo, CombChannel,
};
use insert_fx::num::{clamp, mix, SCALE};

#[test]
fn mix_exact_values() {
    assert_eq!(mix(100, 200, 32768), 150);
    assert_eq!(mix(-100, 200, 16384), -25);
}

#[test]
fn mix_full_dry_returns_dry() {
    assert_eq!(mix(12345, -999, 0), 12345);
    assert_eq!(mix(i64::MIN, 7, 0), i64::MIN);
}

#[test]
fn mix_full_wet_returns_wet() {
    assert_eq!(mix(12345, -999, SCALE), -999);
    assert_eq!(mix(3, i64::MAX, SCALE), i64::MAX);
}

#[test]
fn clamp_bounds_value() {
    assert_eq!(clamp(-5, 0, 10), 0);
    assert_eq!(clamp(15, 0, 10), 10);
    assert_eq!(clamp(7, 0, 10), 7);
}

#[test]
fn distortion_exact_value() {
    // x = 1.0, drive = 1.0, tone = 0, mix = 1.0 on a silent filter:
    // shaped = 60074, alpha = 3277, filtered = 3003.
    let (out, lp) = process_distortion(0, 65536, 65536, 0, 65536);
    assert_eq!(out, 3003);
    assert_eq!(lp, 3003);
}

#[test]
fn distortion_state_persists() {
    let (out1, lp1) = process_distortion(0, 65536, 65536, 0, 65536);
    assert_eq!(out1, 3003);
    let (out2, _) = process_distortion(lp1, 65536, 65536, 0, 65536);
    assert_eq!(out2, 5856);
}

#[test]
fn distortion_output_stays_below_full_scale() {
    let mut lp: i64 = 0;
    for &x in &[i64::MAX, i64::MIN, 0, 65536, -65536, 123456789] {
        let (out, lp2) = process_distortion(lp, x, 65536, 32768, 65536);
        assert!(out.abs() < SCALE);
        assert!(lp2.abs() < SCALE);
        lp = lp2;
    }
}

#[test]
fn distortion_mix_zero_passes_dry() {
    let (out, _) = process_distortion(0, 4242, 65536, 65536, 0);
    assert_eq!(out, 4242);
}

#[test]
fn delay_writes_input_and_reads_tap() {
    // Buffer of 4, write cursor 0, time = 1.0: the tap reaches
    // max(1, round(3.0)) = 3 samples back, to index 1.
    let mut buf: Vec<i64> = vec![0, 0, 0, 0];
    let out = process_delay(&mut buf, 0, 65536, 65536, 0, 65536);
    assert_eq!(out, 0);
    assert_eq!(buf, vec![65536, 0, 0, 0]);
}

#[test]
fn delay_feedback_accumulates_into_buffer() {
    // time = 1.0 on a 2-sample buffer reaches 1 sample back.
    let mut buf: Vec<i64> = vec![1000, 0];
    // Cursor 0: the tap is index 1, holding silence; the write lands on
    // index 0, replacing its old content wholesale.
    let out = process_delay(&mut buf, 0, 65536, 65536, 32768, 65536);
    assert_eq!(out, 0);
    assert_eq!(buf, vec![65536, 0]);
    // now write at cursor 1: tap is index 0, holding 65536 with feedback.
    let out2 = process_delay(&mut buf, 1, 0, 65536, 32768, 65536);
    assert_eq!(out2, 65536);
    assert_eq!(buf, vec![65536, 32768]);
}

#[test]
fn reverb_first_impulse_writes_combs() {
    let mut c = CombChannel {
        buf0: vec![0, 0],
        buf1: vec![0, 0, 0],
        buf2: vec![0, 0, 0, 0],
        idx0: 0,
        idx1: 0,
        idx2: 0,
        lp0: 0,
        lp1: 0,
        lp2: 0,
    };
    // Silent combs: the wet tap is 0, so a full-wet output is 0, and
    // the impulse lands in every comb line at its cursor.
    let out = process_reverb(&mut c, 65536, 65536, 0, 65536);
    assert_eq!(out, 0);
    assert_eq!(c.buf0, vec![65536, 0]);
    assert_eq!(c.buf1, vec![65536, 0, 0]);
    assert_eq!(c.buf2, vec![65536, 0, 0, 0]);
    assert_eq!((c.idx0, c.idx1, c.idx2), (1, 1, 1));
}

#[test]
fn tremolo_at_phase_zero_halves_full_depth() {
    // depth = 1, mix = 1, phase 0: modulator = 0.5 in Q16.
    let (out, phase2) = process_tremolo(0, 1000, 0, 65536, 131072, 65536, 65536);
    assert_eq!(out, 32768);
    // rate 2 Hz at 1 kHz: the phase advances by 2/1000 of a cycle.
    assert_eq!(phase2, 8589934);
}

#[test]
fn tremolo_only_channel_zero_advances_phase() {
    let (_, phase2) = process_tremolo(77, 48000, 1, 65536, 131072, 65536, 65536);
    assert_eq!(phase2, 77);
}

#[test]
fn tremolo_zero_depth_passes_signal() {
    // depth = 0: modulator is exactly 1.0, so a full-wet blend returns x.
    let (out, _) = process_tremolo(123456, 48000, 0, 54321, 131072, 0, 65536);
    assert_eq!(out, 54321);
}
