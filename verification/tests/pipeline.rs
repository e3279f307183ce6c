use uresamp::amplitude::UNIT;
use uresamp::fit::MeanRestoration;
use uresamp::length::DEFAULT_MINIMUM_FLOOR;
use uresamp::pipeline::{prepare, reconstruct};

#[test]
fn prepare_two_characters_at_ratio_two() {
    // "AB" at ratio 2.0 with no floor.
    let ready = prepare("AB", 4, 0).unwrap();
    assert_eq!(ready.lengths.original_length, 2);
    assert_eq!(ready.lengths.target_length, 4);
    assert_eq!(ready.lengths.minimum_floor, 0);
    assert_eq!(ready.lengths.process_length, 4);
    assert_eq!(ready.lengths.transform_size, 4);
    assert_eq!(ready.signal.samples, vec![-32768, 32768]);
    assert_eq!(ready.signal.mean, 4292608);
}

#[test]
fn prepare_plans_for_the_padded_signal() {
    let ready = prepare("A", 0, 0).unwrap();
    assert_eq!(ready.signal.samples.len(), 2);
    assert_eq!(ready.lengths.original_length, 2);
    assert_eq!(ready.lengths.process_length, 2);
    assert_eq!(ready.lengths.transform_size, 2);
    let ready = prepare("hello", 3, 0).unwrap();
    assert_eq!(ready.lengths.original_length, 6);
    assert_eq!(ready.lengths.target_length, 4);
    assert_eq!(ready.lengths.transform_size, 8);
}

#[test]
fn prepare_with_the_default_floor() {
    let ready = prepare("some text", 40, DEFAULT_MINIMUM_FLOOR).unwrap();
    assert_eq!(ready.lengths.original_length, 10);
    assert_eq!(ready.lengths.target_length, 40);
    assert_eq!(ready.lengths.process_length, 4096);
    assert_eq!(ready.lengths.transform_size, 4096);
}

#[test]
fn prepare_fails_where_no_plan_exists() {
    assert!(prepare("AB", usize::MAX, 0).is_none());
    assert!(prepare("AB", 0, usize::MAX).is_none());
}

#[test]
fn reconstruct_with_no_tolerance_draws_from_the_input() {
    // Tolerance zero: whatever the curve, only characters of the input come out.
    let ready = prepare("AB", 4, 0).unwrap();
    let text = reconstruct(&ready.signal, &[-50000, 10, 40000, 7], 0, MeanRestoration::AfterFitting);
    assert_eq!(text, "ABBB");
}

#[test]
fn reconstruct_with_no_tolerance_keeps_the_alphabet() {
    let input = "The quick brown fox";
    let ready = prepare(input, 64, 0).unwrap();
    let curve: Vec<i64> = (0..64)
        .map(|i: i64| ((i * 7919) % 101 - 50) * UNIT + (i * 131) % UNIT)
        .collect();
    let text = reconstruct(&ready.signal, &curve, 0, MeanRestoration::AfterFitting);
    assert_eq!(text.chars().count(), 64);
    for c in text.chars() {
        assert!(input.contains(c));
    }
}

#[test]
fn reconstruct_puts_a_space_for_an_input_control_character() {
    let ready = prepare("\t\t", 2, 0).unwrap();
    assert_eq!(reconstruct(&ready.signal, &[123, -456], 0, MeanRestoration::AfterFitting), "  ");
}

#[test]
fn reconstruct_with_the_largest_tolerance_keeps_the_curve() {
    let ready = prepare("AB", 4, 0).unwrap();
    let text = reconstruct(&ready.signal, &[-50000, 10, 40000, 7], u64::MAX, MeanRestoration::AfterFitting);
    assert_eq!(text, "@ABA");
}

#[test]
fn reconstruct_snaps_only_beyond_the_tolerance() {
    let ready = prepare("AB", 4, 0).unwrap();
    // Recentred, the curve is -47504, 2506, 42496, 2503; the samples are
    // -32768 and 32768, so the gaps are 14736, 30262, 9728 and 30265.
    assert_eq!(reconstruct(&ready.signal, &[-50000, 10, 40000, 7], 14735, MeanRestoration::AfterFitting), "ABBB");
    assert_eq!(reconstruct(&ready.signal, &[-50000, 10, 40000, 7], 14736, MeanRestoration::AfterFitting), "@BBB");
    assert_eq!(reconstruct(&ready.signal, &[-50000, 10, 40000, 7], 30262, MeanRestoration::AfterFitting), "@ABB");
    assert_eq!(reconstruct(&ready.signal, &[-50000, 10, 40000, 7], 30264, MeanRestoration::AfterFitting), "@ABB");
    assert_eq!(reconstruct(&ready.signal, &[-50000, 10, 40000, 7], 30265, MeanRestoration::AfterFitting), "@ABA");
}

#[test]
fn reconstruct_of_the_signal_itself_gives_the_padded_text() {
    for input in ["AB", "A", "hello", "你好，世界", "naïve"] {
        let ready = prepare(input, 0, 0).unwrap();
        let mut expected: String = input.to_string();
        if input.chars().count() % 2 == 1 {
            expected.push(input.chars().last().unwrap());
        }
        for tolerance in [0, 1, UNIT as u64, u64::MAX] {
            assert_eq!(reconstruct(&ready.signal, &ready.signal.samples, tolerance, MeanRestoration::AfterFitting), expected);
        }
    }
}

#[test]
fn reconstruct_restoring_first() {
    let ready = prepare("AB", 4, 0).unwrap();
    let curve = [-50000, 10, 40000, 7];
    let before = MeanRestoration::BeforeFitting;
    assert_eq!(reconstruct(&ready.signal, &curve, 0, before), "ABBB");
    assert_eq!(reconstruct(&ready.signal, &curve, 14736, before), "@BBB");
    assert_eq!(reconstruct(&ready.signal, &curve, 30264, before), "@ABB");
    assert_eq!(reconstruct(&ready.signal, &curve, u64::MAX, before), "@ABA");
}

#[test]
fn reconstruct_of_an_empty_text() {
    let ready = prepare("", 2, 0).unwrap();
    assert_eq!(ready.signal.samples, Vec::<i64>::new());
    assert_eq!(ready.lengths.transform_size, 2);
    assert_eq!(reconstruct(&ready.signal, &[5 * UNIT, -5 * UNIT], 0, MeanRestoration::AfterFitting), "  ");
    assert_eq!(reconstruct(&ready.signal, &[], 0, MeanRestoration::AfterFitting), "");
}

#[test]
fn the_same_inputs_give_the_same_text() {
    let curve: Vec<i64> = (0..32).map(|i: i64| (i * i * 37 - 9000) * 3).collect();
    let first = prepare("determinism", 32, 4096).unwrap();
    let second = prepare("determinism", 32, 4096).unwrap();
    assert_eq!(first.lengths, second.lengths);
    assert_eq!(first.signal.samples, second.signal.samples);
    assert_eq!(first.signal.mean, second.signal.mean);
    for tolerance in [0, 500, 70000, u64::MAX] {
        assert_eq!(
            reconstruct(&first.signal, &curve, tolerance, MeanRestoration::AfterFitting),
            reconstruct(&second.signal, &curve, tolerance, MeanRestoration::AfterFitting)
        );
    }
}
