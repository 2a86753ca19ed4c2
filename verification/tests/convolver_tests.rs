use hrtf_synth::convolver::{
    input_channel, passthrough, DelayLines, ACTIVE_SPEAKERS, INPUT_CHANNELS, LFE_CHANNEL,
};

#[test]
fn channel_map_covers_all_but_lfe() {
    let mut seen = [false; 8];
    for s in 0..ACTIVE_SPEAKERS {
        let c = input_channel(s);
        assert!(c < INPUT_CHANNELS);
        assert_ne!(c, LFE_CHANNEL);
        assert!(!seen[c]);
        seen[c] = true;
    }
    assert_eq!(input_channel(0), 1); // FR
    assert_eq!(input_channel(4), 0); // FL
    assert_eq!(input_channel(6), 4); // RL
}

#[test]
fn new_lines_are_zero() {
    let d = DelayLines::new(4, 0i32);
    assert_eq!(d.ir_length(), 4);
    for s in 0..7 {
        for k in 0..4 {
            assert_eq!(d.tap(s, k), 0);
        }
    }
}

#[test]
fn write_is_tap_zero() {
    let mut d = DelayLines::new(3, 0i32);
    d.write(2, 5);
    assert_eq!(d.tap(2, 0), 5);
    assert_eq!(d.tap(2, 1), 0);
    assert_eq!(d.tap(1, 0), 0);
}

#[test]
fn multi_frame_delay() {
    // A sample written at frame 0 is seen at tap 1 in frame 1 and tap 2 in frame 2.
    let mut d = DelayLines::new(4, 0i32);
    d.write(0, 1);
    assert_eq!(d.tap(0, 0), 1);
    d.advance();
    d.write(0, 0);
    assert_eq!(d.tap(0, 0), 0);
    assert_eq!(d.tap(0, 1), 1);
    d.advance();
    d.write(0, 0);
    assert_eq!(d.tap(0, 1), 0);
    assert_eq!(d.tap(0, 2), 1);
}

#[test]
fn sample_falls_out_after_a_full_cycle() {
    let mut d = DelayLines::new(3, 0i32);
    d.write(6, 9);
    for _ in 0..3 {
        d.advance();
        d.write(6, 1);
    }
    for k in 0..3 {
        assert_eq!(d.tap(6, k), 1);
    }
}

#[test]
fn reset_clears() {
    let mut d = DelayLines::new(2, 0i32);
    d.write(3, 4);
    d.advance();
    d.write(3, 5);
    d.reset(0);
    for s in 0..7 {
        for k in 0..2 {
            assert_eq!(d.tap(s, k), 0);
        }
    }
}

#[test]
fn passthrough_copies_and_zeroes() {
    // 2 frames, 3 in, 4 out
    let input = [1, 2, 3, 4, 5, 6];
    let mut output = [9; 10];
    passthrough(&input, &mut output, 2, 3, 4, 0);
    assert_eq!(output, [1, 2, 3, 0, 4, 5, 6, 0, 9, 9]);
}

#[test]
fn passthrough_drops_extra_input_channels() {
    // 2 frames, 4 in, 2 out
    let input = [1, 2, 3, 4, 5, 6, 7, 8];
    let mut output = [0; 4];
    passthrough(&input, &mut output, 2, 4, 2, 0);
    assert_eq!(output, [1, 2, 5, 6]);
}

use hrtf_synth::convolver::HrtfConvolver;

#[test]
fn convolver_ir_layout() {
    // 7 speakers x 2 ears x 3 taps, value = 100 * speaker + 10 * ear + tap
    let mut irs = Vec::new();
    for s in 0..7u32 {
        for e in 0..2u32 {
            for k in 0..3u32 {
                irs.push(100 * s + 10 * e + k);
            }
        }
    }
    let conv = HrtfConvolver::new(irs, 3, 0u32);
    assert_eq!(conv.ir_length(), 3);
    assert_eq!(conv.irs().len(), 42);
    assert_eq!(conv.delay_buffer().len(), 21);
    assert_eq!(conv.ir_tap(0, 0, 0), 0);
    assert_eq!(conv.ir_tap(0, 1, 2), 12);
    assert_eq!(conv.ir_tap(6, 1, 1), 611);
    assert_eq!(conv.ir_tap(3, 0, 2), 302);
}

#[test]
fn convolver_delay_lines() {
    let mut conv = HrtfConvolver::new(vec![0i32; 14 * 2], 2, 0);
    conv.push_sample(0, 5);
    assert_eq!(conv.delayed(0, 0), 5);
    conv.advance();
    conv.push_sample(0, 6);
    assert_eq!(conv.delayed(0, 0), 6);
    assert_eq!(conv.delayed(0, 1), 5);
    conv.reset(0);
    assert_eq!(conv.delayed(0, 0), 0);
    assert_eq!(conv.delayed(0, 1), 0);
}
