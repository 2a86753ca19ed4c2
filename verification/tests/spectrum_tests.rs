use hrtf_synth::spectrum::{mirror_spectrum, power_of_two_at_least};

#[test]
fn powers_of_two() {
    assert_eq!(power_of_two_at_least(0), 1);
    assert_eq!(power_of_two_at_least(1), 1);
    assert_eq!(power_of_two_at_least(2), 2);
    assert_eq!(power_of_two_at_least(3), 4);
    assert_eq!(power_of_two_at_least(127), 128);
    assert_eq!(power_of_two_at_least(128), 128);
    assert_eq!(power_of_two_at_least(129), 256);
    for m in 0..2000usize {
        assert_eq!(power_of_two_at_least(m), m.next_power_of_two());
    }
}

#[test]
fn mirror_small() {
    let out = mirror_spectrum(&[1u32, 2, 3], 0);
    // [1, 2, 3, 3, 2] padded to 8
    assert_eq!(out, vec![1, 2, 3, 3, 2, 0, 0, 0]);
}

#[test]
fn mirror_length_for_hrtf_bins() {
    let mag = vec![0.0f32; 64];
    let out = mirror_spectrum(&mag, 0.0);
    assert_eq!(out.len(), 128);
}

#[test]
fn mirror_of_empty_and_single() {
    assert_eq!(mirror_spectrum::<u8>(&[], 9), vec![9]);
    assert_eq!(mirror_spectrum(&[5u8], 9), vec![5]);
    assert_eq!(mirror_spectrum(&[5u8, 6], 9), vec![5, 6, 6, 9]);
}
