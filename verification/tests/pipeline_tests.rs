use hrtf_synth::convolver::HrtfConvolver;
use hrtf_synth::hrtf_data::HrtfData;
use hrtf_synth::speaker_irs::SpeakerIrSet;

#[test]
fn extracted_set_feeds_the_convolver_layout() {
    let len = 4usize;
    let mut data = HrtfData::new(9, len, 48000, 0u32);
    for d in 0..9 {
        for e in 0..2 {
            data.set_ir(d, e, (0..len).map(|k| (1000 * d + 100 * e + k) as u32).collect());
        }
    }
    let dirs = [8usize, 1, 2, 0, 7, 5, 3];
    let set = SpeakerIrSet::from_hrtf_data(&data, &dirs);
    assert_eq!(set.irs.len(), 14 * len);

    // Through the file format and back.
    let loaded = SpeakerIrSet::from_bytes(&set.to_bytes()).unwrap();
    assert_eq!(loaded.irs, set.irs);
    assert_eq!(loaded.ir_length, len);

    let conv = HrtfConvolver::new(loaded.irs.clone(), loaded.ir_length, 0u32);
    for j in 0..7 {
        for e in 0..2 {
            for k in 0..len {
                assert_eq!(conv.ir_tap(j, e, k), data.get_sample(dirs[j], e, k));
            }
        }
    }
}
