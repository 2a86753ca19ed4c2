use hrtf_synth::delay::apply_integer_delay;

#[test]
fn test_integer_delay() {
    let mut signal = vec![1.0f32, 2.0, 3.0, 4.0, 5.0, 6.0, 7.0, 8.0];
    apply_integer_delay(&mut signal, 2);

    // Shifted right by 2
    assert!((signal[0] - 7.0).abs() < 1e-5);
    assert!((signal[1] - 8.0).abs() < 1e-5);
    assert!((signal[2] - 1.0).abs() < 1e-5);
}

#[test]
fn test_zero_delay() {
    let original = vec![1.0f32, 2.0, 3.0, 4.0];
    let mut signal = original.clone();
    apply_integer_delay(&mut signal, 0);

    for (a, b) in signal.iter().zip(original.iter()) {
        assert!((a - b).abs() < 1e-10);
    }
}

#[test]
fn negative_delay_shifts_left() {
    let mut signal = vec![1u32, 2, 3, 4, 5];
    apply_integer_delay(&mut signal, -2);
    assert_eq!(signal, vec![3, 4, 5, 1, 2]);
}

#[test]
fn delay_longer_than_signal_wraps() {
    let mut signal = vec![10u32, 20, 30];
    apply_integer_delay(&mut signal, 7);
    // 7 mod 3 == 1
    assert_eq!(signal, vec![30, 10, 20]);
    let mut back = vec![10u32, 20, 30];
    apply_integer_delay(&mut back, -7);
    // -7 mod 3 == 2
    assert_eq!(back, vec![20, 30, 10]);
}

#[test]
fn delay_then_undo_restores() {
    let original = vec![1u8, 2, 3, 4, 5, 6, 7];
    let mut s = original.clone();
    apply_integer_delay(&mut s, 5);
    apply_integer_delay(&mut s, -5);
    assert_eq!(s, original);
}

#[test]
fn delays_compose() {
    let original = vec![1u8, 2, 3, 4, 5, 6];
    let mut a = original.clone();
    apply_integer_delay(&mut a, 2);
    apply_integer_delay(&mut a, 3);
    let mut b = original.clone();
    apply_integer_delay(&mut b, 5);
    assert_eq!(a, b);
}

#[test]
fn extreme_delays_do_not_panic() {
    let mut s = vec![1u8, 2, 3];
    apply_integer_delay(&mut s, isize::MIN);
    let mut t = vec![1u8, 2, 3];
    apply_integer_delay(&mut t, isize::MAX);
    assert_eq!(s.len(), 3);
    assert_eq!(t.len(), 3);
}

#[test]
fn empty_signal_is_left_alone() {
    let mut s: Vec<u8> = Vec::new();
    apply_integer_delay(&mut s, 3);
    assert!(s.is_empty());
}
