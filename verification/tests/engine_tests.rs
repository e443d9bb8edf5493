//! End-to-end tests of the engine: configuration, the drive loop, and
//! the behaviour the library promises of whole blocks.

use insert_fx::engine::Engine;
use insert_fx::version;

const DISTORTION: u32 = 1;
const DELAY: u32 = 2;
const REVERB: u32 = 3;
const TREMOLO: u32 = 4;
const ONE: i64 = 65536;

fn run(engine: &mut Engine, input: &Vec<i64>, frames: usize, channels: usize) -> Vec<i64> {
    let mut output: Vec<i64> = vec![0; frames * channels];
    engine.process(input, &mut output, frames, channels);
    output
}

#[test]
fn version_is_two() {
    assert_eq!(version(), 2);
}

#[test]
fn passthrough_before_init() {
    let mut e = Engine::new();
    let input: Vec<i64> = vec![1, -2, 300, -40000, ONE, 0, 7, -7];
    let output = run(&mut e, &input, 4, 2);
    assert_eq!(output, input);
}

#[test]
fn output_tail_untouched_before_init() {
    let mut e = Engine::new();
    let input: Vec<i64> = vec![10, 20, 30, 40];
    let mut output: Vec<i64> = vec![9, 9, 9, 9, 9, 9];
    e.process(&input, &mut output, 2, 2);
    assert_eq!(output, vec![10, 20, 30, 40, 9, 9]);
}

#[test]
fn configuration_before_init_is_ignored() {
    let mut e = Engine::new();
    e.set_chain_len(3);
    e.set_slot(0, DISTORTION, true, ONE, ONE, ONE);
    let input: Vec<i64> = vec![ONE, -ONE];
    let output = run(&mut e, &input, 2, 1);
    assert_eq!(output, input);
}

#[test]
fn empty_chain_passes_through() {
    let mut e = Engine::new();
    e.init(48000, 2);
    let input: Vec<i64> = vec![5, -5, 1234, -4321];
    let output = run(&mut e, &input, 2, 2);
    assert_eq!(output, input);
}

#[test]
fn disabled_slot_alters_nothing() {
    let mut e = Engine::new();
    e.init(48000, 1);
    e.set_chain_len(1);
    e.set_slot(0, DISTORTION, false, ONE, ONE, ONE);
    let input: Vec<i64> = vec![ONE, -ONE, 12345];
    let output = run(&mut e, &input, 3, 1);
    assert_eq!(output, input);
}

#[test]
fn unrecognized_effect_code_passes_through() {
    let mut e = Engine::new();
    e.init(48000, 1);
    e.set_chain_len(1);
    e.set_slot(0, 9, true, ONE, ONE, ONE);
    let input: Vec<i64> = vec![ONE, -ONE, 12345];
    let output = run(&mut e, &input, 3, 1);
    assert_eq!(output, input);
}

#[test]
fn slot_past_chain_length_is_ignored() {
    let mut e = Engine::new();
    e.init(48000, 1);
    e.set_chain_len(1);
    e.set_slot(1, DISTORTION, true, ONE, ONE, ONE);
    let input: Vec<i64> = vec![ONE, -ONE, 12345];
    let output = run(&mut e, &input, 3, 1);
    assert_eq!(output, input);
}

#[test]
fn set_slot_index_out_of_range_is_ignored() {
    let mut e = Engine::new();
    e.init(48000, 1);
    e.set_chain_len(8);
    e.set_slot(8, DISTORTION, true, ONE, ONE, ONE);
    e.set_slot(100, TREMOLO, true, ONE, ONE, ONE);
    let input: Vec<i64> = vec![ONE, -ONE];
    let output = run(&mut e, &input, 2, 1);
    assert_eq!(output, input);
}

#[test]
fn chain_length_is_capped() {
    let mut e = Engine::new();
    e.init(48000, 1);
    e.set_chain_len(100);
    // A dry blend makes every slot an exact pass-through even when the
    // whole (capped) chain runs.
    for i in 0..8 {
        e.set_slot(i, DISTORTION, true, ONE, ONE, 0);
    }
    let input: Vec<i64> = vec![ONE, -ONE, 777];
    let output = run(&mut e, &input, 3, 1);
    assert_eq!(output, input);
}

#[test]
fn configuration_idempotence() {
    let mut once = Engine::new();
    once.init(48000, 1);
    once.set_chain_len(2);
    once.set_slot(0, DISTORTION, true, ONE, 32768, ONE);
    once.set_slot(1, TREMOLO, true, 131072, ONE, ONE);

    let mut twice = Engine::new();
    twice.init(48000, 1);
    twice.set_chain_len(2);
    for _ in 0..3 {
        twice.set_slot(0, DISTORTION, true, ONE, 32768, ONE);
        twice.set_slot(1, TREMOLO, true, 131072, ONE, ONE);
    }

    let input: Vec<i64> = (0..64).map(|i| (i as i64 - 32) * 2048).collect();
    let a = run(&mut once, &input, 64, 1);
    let b = run(&mut twice, &input, 64, 1);
    assert_eq!(a, b);
}

#[test]
fn chain_applies_first_slot_then_second() {
    // Distortion and tremolo keep disjoint state, so a chain of the two
    // must equal running one engine with only the first, then feeding
    // its output to an engine with only the second.
    let input: Vec<i64> = (0..32).map(|i| ((i as i64 % 7) - 3) * 20000).collect();

    let mut chained = Engine::new();
    chained.init(1000, 1);
    chained.set_chain_len(2);
    chained.set_slot(0, DISTORTION, true, ONE, 0, ONE);
    chained.set_slot(1, TREMOLO, true, 131072, ONE, ONE);
    let got = run(&mut chained, &input, 32, 1);

    let mut first = Engine::new();
    first.init(1000, 1);
    first.set_chain_len(1);
    first.set_slot(0, DISTORTION, true, ONE, 0, ONE);
    let mid = run(&mut first, &input, 32, 1);

    let mut second = Engine::new();
    second.init(1000, 1);
    second.set_chain_len(1);
    second.set_slot(0, TREMOLO, true, 131072, ONE, ONE);
    let expected = run(&mut second, &mid, 32, 1);

    assert_eq!(got, expected);

    // The other order differs: A-then-B is not B-then-A.
    let mut reversed = Engine::new();
    reversed.init(1000, 1);
    reversed.set_chain_len(2);
    reversed.set_slot(0, TREMOLO, true, 131072, ONE, ONE);
    reversed.set_slot(1, DISTORTION, true, ONE, 0, ONE);
    let other = run(&mut reversed, &input, 32, 1);
    assert_ne!(got, other);
}

#[test]
fn delay_round_trip_impulse() {
    // 1000 Hz: the delay buffer holds 2000 samples; time = 1.0 reaches
    // max(1, round(1.0 * 1999)) = 1999 samples back. With no feedback
    // and a full wet blend, an impulse reappears exactly there.
    let mut e = Engine::new();
    e.init(1000, 1);
    e.set_chain_len(1);
    e.set_slot(0, DELAY, true, ONE, 0, ONE);
    let mut input: Vec<i64> = vec![0; 2100];
    input[0] = ONE;
    let output = run(&mut e, &input, 2100, 1);
    for (i, &v) in output.iter().enumerate() {
        if i == 1999 {
            assert_eq!(v, ONE);
        } else {
            assert_eq!(v, 0, "unexpected signal at frame {}", i);
        }
    }
}

#[test]
fn delay_mid_time_impulse() {
    // time = 0.5: the impulse reappears at round(0.5 * 1999) = 1000.
    let mut e = Engine::new();
    e.init(1000, 1);
    e.set_chain_len(1);
    e.set_slot(0, DELAY, true, 32768, 0, ONE);
    let mut input: Vec<i64> = vec![0; 1500];
    input[0] = ONE;
    let output = run(&mut e, &input, 1500, 1);
    assert_eq!(output[1000], ONE);
    let energy: i64 = output.iter().map(|v| v.abs()).sum();
    assert_eq!(energy, ONE);
}

#[test]
fn reverb_impulse_energy_non_increasing() {
    let mut e = Engine::new();
    e.init(1000, 1);
    e.set_chain_len(1);
    e.set_slot(0, REVERB, true, ONE, 32768, ONE);
    let mut input: Vec<i64> = vec![0; 5000];
    input[0] = ONE;
    let output = run(&mut e, &input, 5000, 1);
    // Stays bounded: nothing within ten times the input's scale.
    assert!(output.iter().all(|v| v.abs() <= 10 * ONE));
    // Per-block energy never grows once the impulse has passed.
    let energies: Vec<i128> = (0..5)
        .map(|b| output[b * 1000..(b + 1) * 1000].iter().map(|&v| (v as i128) * (v as i128)).sum())
        .collect();
    for w in energies.windows(2) {
        assert!(w[1] <= w[0], "block energy grew: {:?}", energies);
    }
    // And the tail has decayed far below the first block.
    assert!(energies[4] < energies[0] / 1000);
}

#[test]
fn tremolo_envelope_and_period() {
    // rate = 2 Hz at 1000 Hz, depth = 1, mix = 1 on a constant 1.0
    // signal: the output is the envelope itself. Expected period is
    // round(1000 / 2) = 500 frames.
    let mut e = Engine::new();
    e.init(1000, 1);
    e.set_chain_len(1);
    e.set_slot(0, TREMOLO, true, 131072, ONE, ONE);
    let input: Vec<i64> = vec![ONE; 1000];
    let output = run(&mut e, &input, 1000, 1);
    assert_eq!(output[0], 32768);
    assert_eq!(output[500], 32768);
    // The envelope sweeps the whole promised range [1 - depth, 1] * x.
    assert_eq!(*output.iter().min().unwrap(), 0);
    assert_eq!(*output.iter().max().unwrap(), 65535);
    // The crest sits a quarter period in, the trough three quarters in.
    assert_eq!(output[125], 65535);
    assert_eq!(output[375], 0);
}

#[test]
fn distortion_output_bounded_for_any_input() {
    let mut e = Engine::new();
    e.init(48000, 1);
    e.set_chain_len(1);
    e.set_slot(0, DISTORTION, true, ONE, 32768, ONE);
    let input: Vec<i64> = vec![i64::MAX, i64::MIN, 0, ONE, -ONE, 123456789012345, -1];
    let output = run(&mut e, &input, 7, 1);
    for &v in &output {
        assert!(v.abs() < ONE, "distortion left full scale: {}", v);
    }
}

#[test]
fn surplus_requested_channels_pass_through() {
    // Configured mono, processed stereo: channel 0 is driven through
    // the chain, channel 1 passes through unmodified.
    let mut e = Engine::new();
    e.init(48000, 1);
    e.set_chain_len(1);
    e.set_slot(0, DISTORTION, true, ONE, 0, ONE);
    let input: Vec<i64> = vec![ONE, ONE];
    let output = run(&mut e, &input, 1, 2);
    assert_eq!(output[0], 3003);
    assert_eq!(output[1], ONE);
}

#[test]
fn distortion_state_carries_across_blocks() {
    let mut e = Engine::new();
    e.init(48000, 1);
    e.set_chain_len(1);
    e.set_slot(0, DISTORTION, true, ONE, 0, ONE);
    let input: Vec<i64> = vec![ONE];
    let first = run(&mut e, &input, 1, 1);
    let second = run(&mut e, &input, 1, 1);
    assert_eq!(first[0], 3003);
    assert_eq!(second[0], 5856);
}

#[test]
fn zero_frames_or_channels_write_nothing() {
    let mut e = Engine::new();
    e.init(48000, 2);
    e.set_chain_len(1);
    e.set_slot(0, DISTORTION, true, ONE, 0, ONE);
    let input: Vec<i64> = vec![];
    let mut output: Vec<i64> = vec![7, 7, 7];
    e.process(&input, &mut output, 0, 5);
    assert_eq!(output, vec![7, 7, 7]);
    e.process(&input, &mut output, 3, 0);
    assert_eq!(output, vec![7, 7, 7]);
}

#[test]
fn reinit_resets_all_state() {
    let mut e = Engine::new();
    e.init(48000, 1);
    e.set_chain_len(1);
    e.set_slot(0, DISTORTION, true, ONE, 0, ONE);
    let input: Vec<i64> = vec![ONE];
    let _ = run(&mut e, &input, 1, 1);
    e.init(48000, 1);
    // The chain is empty again and the filter state silent.
    let output = run(&mut e, &input, 1, 1);
    assert_eq!(output[0], ONE);
}
