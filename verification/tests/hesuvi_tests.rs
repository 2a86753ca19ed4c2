use hrtf_synth::hesuvi::{hesuvi_interleave, HeSuViError, HESUVI_CHANNELS};
use hrtf_synth::hrtf_data::HrtfData;

fn data() -> HrtfData<u32> {
    let mut data = HrtfData::new(8, 3, 44100, 0u32);
    for d in 0..8 {
        data.set_ir(d, 0, (0..3).map(|t| (d * 100 + t) as u32).collect());
        data.set_ir(d, 1, (0..3).map(|t| (d * 100 + 50 + t) as u32).collect());
    }
    data
}

#[test]
fn interleaves_fourteen_channels() {
    let d = data();
    let dirs = [7usize, 6, 5, 4, 3, 2, 1];
    let out = hesuvi_interleave(&d, &dirs).unwrap();
    assert_eq!(HESUVI_CHANNELS, 14);
    assert_eq!(out.len(), 14 * 3);
    // Frame 0: FR_L, FR_R, SR_L, ...
    assert_eq!(&out[0..4], &[700, 750, 600, 650]);
    // Frame 2, last speaker (RL, direction 1), right ear
    assert_eq!(out[2 * 14 + 13], 152);
    for i in 0..out.len() {
        let t = i / 14;
        let j = (i % 14) / 2;
        let e = i % 2;
        assert_eq!(out[i], d.get_sample(dirs[j], e, t));
    }
}

#[test]
fn wrong_speaker_count_is_refused() {
    let d = data();
    assert_eq!(hesuvi_interleave(&d, &[0, 1, 2]).err(), Some(HeSuViError::InvalidSpeakers));
    assert_eq!(
        hesuvi_interleave(&d, &[0, 1, 2, 3, 4, 5, 6, 7]).err(),
        Some(HeSuViError::InvalidSpeakers)
    );
}

#[test]
fn empty_data_gives_empty_stream() {
    let d: HrtfData<f32> = HrtfData::new(0, 0, 44100, 0.0);
    let out = hesuvi_interleave(&d, &[0, 0, 0, 0, 0, 0, 0]).unwrap();
    assert!(out.is_empty());
}
