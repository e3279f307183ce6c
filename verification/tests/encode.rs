use uresamp::amplitude::UNIT;
use uresamp::encode::{amplitude, amplitudes, encode};

#[test]
fn amplitude_is_the_scalar_value_in_whole_steps() {
    assert_eq!(amplitude('A'), 65 * 65536);
    assert_eq!(amplitude('\0'), 0);
    assert_eq!(amplitude(' '), 0x20 * UNIT);
    assert_eq!(amplitude('\u{10FFFF}'), 0x10FFFF * UNIT);
    assert_eq!(amplitude('你'), 0x4F60 * UNIT);
}

#[test]
fn amplitudes_follow_the_text() {
    assert_eq!(amplitudes(""), Vec::<i64>::new());
    assert_eq!(amplitudes("AB"), vec![4259840, 4325376]);
    assert_eq!(amplitudes("é你"), vec![0xE9 * UNIT, 0x4F60 * UNIT]);
}

#[test]
fn encode_two_characters() {
    let signal = encode("AB");
    assert_eq!(signal.mean, 4292608);
    assert_eq!(signal.samples, vec![-32768, 32768]);
}

#[test]
fn encode_pads_a_single_character() {
    // "A" is encoded as "AA".
    let signal = encode("A");
    assert_eq!(signal.samples.len(), 2);
    assert_eq!(signal.mean, 65 * UNIT);
    assert_eq!(signal.samples, vec![0, 0]);
    let doubled = encode("AA");
    assert_eq!(signal.samples, doubled.samples);
    assert_eq!(signal.mean, doubled.mean);
}

#[test]
fn encode_pads_an_odd_text() {
    let signal = encode("ABC");
    assert_eq!(signal.samples.len(), 4);
    assert_eq!(signal.mean, 4341760);
    assert_eq!(signal.samples, vec![-81920, -16384, 49152, 49152]);
    assert_eq!(signal.samples[3], signal.samples[2]);
    let padded = encode("ABCC");
    assert_eq!(signal.samples, padded.samples);
    assert_eq!(signal.mean, padded.mean);
}

#[test]
fn encode_leaves_an_even_text_as_it_is() {
    let signal = encode("ABCD");
    assert_eq!(signal.samples.len(), 4);
    assert_eq!(signal.mean, 4358144);
    assert_eq!(signal.samples, vec![-98304, -32768, 32768, 98304]);
}

#[test]
fn encode_rounds_the_mean_down() {
    let signal = encode("AAAAAB");
    assert_eq!(signal.mean, 4270762);
    assert_eq!(
        signal.samples,
        vec![-10922, -10922, -10922, -10922, -10922, 54614]
    );
}

#[test]
fn encode_of_no_text() {
    let signal = encode("");
    assert_eq!(signal.samples, Vec::<i64>::new());
    assert_eq!(signal.mean, 0);
}

#[test]
fn encoded_samples_and_mean_give_the_characters_back() {
    for text in ["A", "AB", "hello", "naïve café", "你好，世界", "\u{10FFFF}\u{0}x"] {
        let signal = encode(text);
        let mut expected: Vec<i64> = text.chars().map(amplitude).collect();
        if expected.len() % 2 == 1 {
            expected.push(*expected.last().unwrap());
        }
        assert_eq!(signal.samples.len() % 2, 0);
        let restored: Vec<i64> = signal.samples.iter().map(|s| s + signal.mean).collect();
        assert_eq!(restored, expected);
    }
}

#[test]
fn odd_text_ends_in_two_equal_samples() {
    for text in ["A", "abc", "hello", "x y z q w"] {
        let count = text.chars().count();
        assert_eq!(count % 2, 1);
        let signal = encode(text);
        assert_eq!(signal.samples.len(), count + 1);
        assert_eq!(signal.samples[count], signal.samples[count - 1]);
    }
}
