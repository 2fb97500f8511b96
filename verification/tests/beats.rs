use voxalfa_validator::ir::utils::BeatBuffer;

#[test]
fn test_beat_distribution() {
    let test_cases: &[(Vec<usize>, usize, fn(&mut BeatBuffer))] = &[
        // d
        (vec![1], 1, |b| b.append_note()),
        // d . r
        (vec![1, 1], 2, |b| {
            b.append_note();
            b.divide();
            b.append_note();
        }),
        // d , r . m , f
        (vec![1, 1, 1, 1], 4, |b| {
            b.append_note();
            b.divide_sub();
            b.append_note();
            b.divide();
            b.append_note();
            b.divide_sub();
            b.append_note();
        }),
        // d . r , m
        (vec![2, 1, 1], 4, |b| {
            b.append_note();
            b.divide();
            b.append_note();
            b.divide_sub();
            b.append_note();
        }),
        // d ., r
        (vec![3, 1], 4, |b| {
            b.append_note();
            b.divide();
            b.divide_sub();
            b.append_note();
        }),
        // d r m
        (vec![1, 1, 1], 3, |b| {
            b.append_note();
            b.append_note();
            b.append_note();
        }),
        // d r m . f s
        (vec![2, 2, 2, 3, 3], 12, |b| {
            b.append_note();
            b.append_note();
            b.append_note();
            b.divide();
            b.append_note();
            b.append_note();
        }),
    ];

    for (duration, total, setup) in test_cases {
        let mut buffer = BeatBuffer::default();

        setup(&mut buffer);

        let result = buffer.get_durations();

        assert!(buffer.is_valid());
        assert_eq!(duration, &result.0);
        assert_eq!(total, &result.1);
    }
}

#[test]
fn three_major_beats_are_not_valid() {
    let mut buffer = BeatBuffer::default();
    buffer.append_note();
    buffer.divide();
    buffer.append_note();
    buffer.divide();
    buffer.append_note();
    assert!(!buffer.is_valid());
    assert!(buffer.is_computable());
    assert_eq!(buffer.get_durations(), (vec![1, 1, 1], 3));
}

#[test]
fn two_empty_beats_cannot_be_divided() {
    let mut buffer = BeatBuffer::default();
    buffer.divide();
    assert!(!buffer.is_computable());
}

#[test]
fn test_durations_fill_the_pulse() {
    // d r m . f s
    let mut b = BeatBuffer::default();
    b.append_note();
    b.append_note();
    b.append_note();
    b.divide();
    b.append_note();
    b.append_note();
    let (durations, divisor) = b.get_durations();
    assert_eq!(divisor, 12);
    assert_eq!(durations.iter().sum::<usize>(), divisor);
}
