use hrtf_synth::anthropometry::Anthropometry;

#[test]
fn input_vectors_order_features() {
    let a = Anthropometry {
        head_width: 15.2f32,
        head_depth: 19.5,
        ear_params_left: [1.8, 0.9, 1.7, 6.4, 0.6, 1.3],
        ear_params_right: [1.9, 1.0, 1.6, 6.3, 0.7, 1.4],
    };
    assert_eq!(a.to_input_left(), vec![15.2, 19.5, 1.8, 0.9, 1.7, 6.4, 0.6, 1.3]);
    assert_eq!(a.to_input_right(), vec![15.2, 19.5, 1.9, 1.0, 1.6, 6.3, 0.7, 1.4]);
}
