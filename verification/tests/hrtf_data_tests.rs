use hrtf_synth::hrtf_data::HrtfData;

#[test]
fn new_is_zero_filled() {
    let data = HrtfData::new(4, 3, 48000, 0.0f32);
    assert_eq!(data.num_directions(), 4);
    assert_eq!(data.ir_length(), 3);
    assert_eq!(data.sample_rate(), 48000);
    assert_eq!(data.positions().len(), 4);
    for d in 0..4 {
        assert_eq!(data.get_ir(d, 0), &[0.0, 0.0, 0.0]);
        assert_eq!(data.get_ir(d, 1), &[0.0, 0.0, 0.0]);
    }
}

#[test]
fn empty_data_has_zero_ir_length() {
    let data = HrtfData::new(0, 10, 44100, 0.0f32);
    assert_eq!(data.num_directions(), 0);
    assert_eq!(data.ir_length(), 0);
}

#[test]
fn set_then_get() {
    let mut data = HrtfData::new(2, 2, 44100, 0i32);
    data.set_ir(1, 1, vec![7, 8, 9]);
    data.set_position(1, 30, 0, 1);
    assert_eq!(data.get_ir(1, 1), &[7, 8, 9]);
    assert_eq!(data.get_sample(1, 1, 2), 9);
    assert_eq!(data.get_ir(1, 0), &[0, 0]);
    assert_eq!(data.get_ir(0, 1), &[0, 0]);
    assert_eq!(data.positions()[1], (30, 0, 1));
    assert_eq!(data.positions()[0], (0, 0, 0));
    // The first response sets the reported length.
    assert_eq!(data.ir_length(), 2);
    data.set_ir(0, 0, vec![1]);
    assert_eq!(data.ir_length(), 1);
}
