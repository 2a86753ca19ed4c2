use hrtf_synth::convolver::{input_channel, HrtfConvolver, ACTIVE_SPEAKERS, LFE_CHANNEL};

/// LFE mixing gain of the processing object.
const LFE_GAIN: f32 = 0.5;

/// The processing object's frame loop, written over the library's convolver.
fn process(conv: &mut HrtfConvolver<f32>, input: &[f32], output: &mut [f32], n_frames: usize) {
    let ir_len = conv.ir_length();
    for frame in 0..n_frames {
        let in_base = frame * 8;
        let lfe = input[in_base + LFE_CHANNEL] * LFE_GAIN;
        let (mut l, mut r) = (lfe, lfe);
        for s in 0..ACTIVE_SPEAKERS {
            conv.push_sample(s, input[in_base + input_channel(s)]);
            for k in 0..ir_len {
                let x = conv.delayed(s, k);
                l += conv.ir_tap(s, 0, k) * x;
                r += conv.ir_tap(s, 1, k) * x;
            }
        }
        conv.advance();
        output[frame * 2] = l;
        output[frame * 2 + 1] = r;
    }
}

/// Impulse IR for FR speaker, left ear only — send signal on input ch 1 (FR)
#[test]
fn test_impulse_passthrough() {
    let ir_len = 4;
    let mut irs = vec![0.0f32; ACTIVE_SPEAKERS * 2 * ir_len];
    // Speaker 0 = FR (input ch 1), left ear, tap 0 = 1.0 (impulse)
    irs[0] = 1.0;

    let mut conv = HrtfConvolver::new(irs, ir_len, 0.0);

    let input = [0.0, 1.0, 0.0, 0.0, 0.0, 0.0, 0.0, 0.0f32];
    let mut output = [0.0f32; 2];

    process(&mut conv, &input, &mut output, 1);

    assert!((output[0] - 1.0).abs() < 1e-6, "Left should be 1.0, got {}", output[0]);
    assert!((output[1]).abs() < 1e-6, "Right should be 0.0, got {}", output[1]);
}

/// Multi-frame: verify delay line advances correctly across frames
#[test]
fn test_multi_frame_delay() {
    let ir_len = 4;
    let mut irs = vec![0.0f32; ACTIVE_SPEAKERS * 2 * ir_len];
    // Speaker 0 (FR), left ear: impulse at tap 1 (1-sample delay)
    irs[1] = 1.0;

    let mut conv = HrtfConvolver::new(irs, ir_len, 0.0);

    let input = [
        0.0, 1.0, 0.0, 0.0, 0.0, 0.0, 0.0, 0.0, // frame 0: FR=1.0
        0.0, 0.0, 0.0, 0.0, 0.0, 0.0, 0.0, 0.0, // frame 1: all zero
        0.0, 0.0, 0.0, 0.0, 0.0, 0.0, 0.0, 0.0, // frame 2: all zero
    ];
    let mut output = [0.0f32; 6];

    process(&mut conv, &input, &mut output, 3);

    assert!((output[0]).abs() < 1e-6, "Frame 0 left should be 0, got {}", output[0]);
    assert!((output[2] - 1.0).abs() < 1e-6, "Frame 1 left should be 1.0, got {}", output[2]);
    assert!((output[4]).abs() < 1e-6, "Frame 2 left should be 0, got {}", output[4]);
}

/// LFE should mix equally to both channels
#[test]
fn test_lfe_passthrough() {
    let ir_len = 4;
    let irs = vec![0.0f32; ACTIVE_SPEAKERS * 2 * ir_len];
    let mut conv = HrtfConvolver::new(irs, ir_len, 0.0);

    let input = [0.0, 0.0, 0.0, 1.0, 0.0, 0.0, 0.0, 0.0f32];
    let mut output = [0.0f32; 2];

    process(&mut conv, &input, &mut output, 1);

    assert!((output[0] - LFE_GAIN).abs() < 1e-6);
    assert!((output[1] - LFE_GAIN).abs() < 1e-6);
}
