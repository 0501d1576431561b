//! Behavior of the chunked audio engine.

use ampli_fe::dsp::PluginDsp;
use ampli_fe::plugin_state::PluginState;

const UNIT: i64 = 1_000_000;

#[test]
fn ramp_across_first_chunk_after_update() {
    // Starting amplitude 0.5 (effective gain 1.0); update to 0.75. The
    // first 16-sample chunk of constant-1.0 input shows a strictly
    // monotonic ramp from near 1.0 toward the first smoothed step, not a
    // single jump.
    let mut hub = PluginState::new();
    let mut dsp = PluginDsp::new();
    hub.set_parameter(0, 750_000);
    let updates = hub.take_dsp_updates();
    let input = vec![vec![UNIT; 16]];
    let out = dsp.process(&updates, &input);
    let expected: Vec<i64> = vec![
        1_000_156, 1_000_312, 1_000_468, 1_000_625, 1_000_781, 1_000_937, 1_001_093, 1_001_250,
        1_001_406, 1_001_562, 1_001_718, 1_001_875, 1_002_031, 1_002_187, 1_002_343, 1_002_500,
    ];
    assert_eq!(out, vec![expected.clone()]);
    for k in 1..16 {
        assert!(out[0][k] > out[0][k - 1]);
    }
    assert!(out[0][0] > UNIT && out[0][0] < UNIT + 1_000);
}

#[test]
fn multiplier_converges_to_doubled_target() {
    // After enough smoothing steps at factor 0.005 / epsilon 0.001 the
    // effective multiplier settles at exactly 1.5.
    let mut hub = PluginState::new();
    let mut dsp = PluginDsp::new();
    hub.set_parameter(0, 750_000);
    let updates = hub.take_dsp_updates();
    let input = vec![vec![UNIT; 16]];
    let mut out = dsp.process(&updates, &input);
    let none: Vec<ampli_fe::channel::StateUpdate> = Vec::new();
    for _ in 0..2_000 {
        out = dsp.process(&none, &input);
    }
    assert_eq!(out, vec![vec![1_500_000; 16]]);
}

#[test]
fn remainder_reuses_last_chunk_amplitude() {
    // A block of 37 samples splits into two full chunks and a 5-sample
    // remainder; the remainder reuses the amplitude computed at the end of
    // the second chunk, unchanged across all 5 samples.
    let mut hub = PluginState::new();
    let mut dsp = PluginDsp::new();
    hub.set_parameter(0, 750_000);
    let updates = hub.take_dsp_updates();
    let input = vec![vec![UNIT; 37]];
    let out = dsp.process(&updates, &input);
    assert_eq!(out[0].len(), 37);
    // End of first chunk: first smoothed step doubled.
    assert_eq!(out[0][15], 1_002_500);
    // End of second chunk: second smoothed step doubled.
    assert_eq!(out[0][31], 1_004_986);
    for k in 32..37 {
        assert_eq!(out[0][k], out[0][31]);
    }
}

#[test]
fn unity_gain_passes_input_through() {
    // With no updates the fresh engine holds multiplier 1.0 and the block
    // (shorter than one chunk, so entirely remainder) is unchanged.
    let mut dsp = PluginDsp::new();
    let input = vec![vec![5, -7, 123_456, -UNIT, UNIT, 0, 42, -42, 999, -999]];
    let out = dsp.process(&Vec::new(), &input);
    assert_eq!(out, input);
}

#[test]
fn all_channels_share_the_multipliers() {
    let mut hub = PluginState::new();
    let mut dsp = PluginDsp::new();
    hub.set_parameter(0, 750_000);
    let updates = hub.take_dsp_updates();
    let input = vec![vec![UNIT; 16], vec![2 * UNIT; 16], vec![-UNIT; 16]];
    let out = dsp.process(&updates, &input);
    for k in 0..16 {
        assert_eq!(out[1][k], 2 * out[0][k]);
        assert_eq!(out[2][k], -out[0][k]);
    }
}

#[test]
fn empty_input_yields_empty_output() {
    let mut dsp = PluginDsp::new();
    let out = dsp.process(&Vec::new(), &Vec::new());
    assert!(out.is_empty());
}

#[test]
fn only_latest_queued_update_takes_effect() {
    // Two updates queued before one block: the block smooths toward the
    // second target only.
    let mut hub = PluginState::new();
    let mut dsp = PluginDsp::new();
    hub.set_parameter(0, 0);
    hub.set_parameter(0, 750_000);
    let updates = hub.take_dsp_updates();
    let input = vec![vec![UNIT; 16]];
    let out = dsp.process(&updates, &input);
    // Moving toward 0 would scale samples below 1.0; instead they rise.
    for k in 0..16 {
        assert!(out[0][k] > UNIT);
    }
    assert_eq!(out[0][15], 1_002_500);
}
