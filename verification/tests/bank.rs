use hardknee::binary32::{ONE, ZERO};
use hardknee::params::{ParameterBank, GAIN, PARAMETER_COUNT, THRESHOLD, THRESHOLD_FLOOR};

fn bits(x: f32) -> u32 {
    x.to_bits()
}

fn number(w: u32) -> f32 {
    f32::from_bits(w)
}

#[test]
fn constants_are_the_numbers_they_name() {
    assert_eq!(number(ONE), 1.0);
    assert_eq!(ZERO, bits(0.0));
    assert_eq!(THRESHOLD_FLOOR, bits(0.01));
    assert_eq!(PARAMETER_COUNT, 2);
    assert_eq!(THRESHOLD, 0);
    assert_eq!(GAIN, 1);
}

#[test]
fn new_bank_holds_the_defaults() {
    let bank = ParameterBank::new();
    assert_eq!(bank.count(), 2);
    assert_eq!(number(bank.get(0)), 1.0);
    assert_eq!(number(bank.get(1)), 1.0);
    assert_eq!(number(bank.threshold()), 1.0);
    assert_eq!(number(bank.gain()), 1.0);
}

#[test]
fn default_bank_is_the_new_bank() {
    let bank = ParameterBank::default();
    assert_eq!(bank.get(0), ONE);
    assert_eq!(bank.get(1), ONE);
}

#[test]
fn set_then_get_returns_a_value_in_range() {
    let mut bank = ParameterBank::new();
    bank.set(0, bits(0.5));
    bank.set(1, bits(0.25));
    assert_eq!(number(bank.get(0)), 0.5);
    assert_eq!(number(bank.get(1)), 0.25);
    assert_eq!(number(bank.threshold()), 0.5);
    assert_eq!(number(bank.gain()), 0.25);
}

#[test]
fn set_leaves_the_other_parameter_alone() {
    let mut bank = ParameterBank::new();
    bank.set(0, bits(0.5));
    assert_eq!(number(bank.get(1)), 1.0);
    bank.set(1, bits(0.75));
    assert_eq!(number(bank.get(0)), 0.5);
}

#[test]
fn threshold_is_floored_at_one_hundredth() {
    let mut bank = ParameterBank::new();
    for v in [0.0f32, 0.005, 0.009999, 0.01, f32::MIN_POSITIVE, 1.0e-40] {
        bank.set(0, bits(v));
        assert_eq!(bank.get(0), bits(0.01));
        assert!(number(bank.get(0)) >= 0.01);
    }
    for v in [0.010001f32, 0.02, 0.5, 0.99, 1.0] {
        bank.set(0, bits(v));
        assert_eq!(bank.get(0), bits(v));
        assert!(number(bank.get(0)) >= 0.01);
    }
}

#[test]
fn gain_reaches_zero() {
    let mut bank = ParameterBank::new();
    bank.set(1, bits(0.0));
    assert_eq!(bank.get(1), bits(0.0));
    bank.set(1, bits(0.004));
    assert_eq!(bank.get(1), bits(0.004));
    bank.set(1, bits(-0.0));
    assert_eq!(bank.get(1), bits(0.0));
}

#[test]
fn values_above_one_are_stored_as_one() {
    let mut bank = ParameterBank::new();
    for index in [0, 1] {
        for v in [1.0000001f32, 1.5, 2.0, 1.0e30, f32::MAX, f32::INFINITY] {
            bank.set(index, bits(0.5));
            bank.set(index, bits(v));
            assert_eq!(number(bank.get(index)), 1.0);
        }
    }
}

#[test]
fn values_below_zero_are_stored_as_the_floor() {
    let mut bank = ParameterBank::new();
    for v in [-1.0e-40f32, -0.3, -1.0, -2.5, f32::MIN, f32::NEG_INFINITY] {
        bank.set(0, bits(v));
        assert_eq!(bank.get(0), bits(0.01));
        bank.set(1, bits(0.5));
        bank.set(1, bits(v));
        assert_eq!(bank.get(1), bits(0.0));
    }
}

#[test]
fn a_word_that_holds_no_number_is_stored_as_the_floor() {
    let mut bank = ParameterBank::new();
    for w in [bits(f32::NAN), 0x7F80_0001, 0xFFC0_0000, 0xFFFF_FFFF] {
        bank.set(0, w);
        assert_eq!(bank.get(0), bits(0.01));
        bank.set(1, w);
        assert_eq!(bank.get(1), bits(0.0));
    }
}

#[test]
fn set_agrees_with_clamping_in_single_precision() {
    let samples = [
        -3.0f32, -1.0, -0.5, -0.01, 0.0, 1.0e-45, 0.0099, 0.01, 0.0100001, 0.1, 0.5, 0.999_999_9, 1.0, 1.000_000_1,
        7.0,
    ];
    let mut bank = ParameterBank::new();
    for v in samples {
        bank.set(0, bits(v));
        assert_eq!(number(bank.get(0)), v.max(0.01).min(1.0));
        bank.set(1, bits(v));
        assert_eq!(number(bank.get(1)), v.max(0.0).min(1.0));
    }
}

#[test]
fn set_outside_the_bank_is_ignored() {
    let mut bank = ParameterBank::new();
    bank.set(0, bits(0.5));
    bank.set(1, bits(0.25));
    for index in [2, 5, -1, i32::MAX, i32::MIN] {
        bank.set(index, bits(0.75));
        assert_eq!(number(bank.get(0)), 0.5);
        assert_eq!(number(bank.get(1)), 0.25);
    }
}

#[test]
fn queries_outside_the_bank_return_the_empty_values() {
    let bank = ParameterBank::new();
    assert_eq!(bank.get(5), bits(0.0));
    assert_eq!(bank.name(5), "");
    assert_eq!(bank.display_text(5, "100"), "");
    assert_eq!(bank.unit(5), "");
    assert_eq!(bank.get(-1), bits(0.0));
    assert_eq!(bank.name(-1), "");
    assert_eq!(bank.display_text(2, "100"), "");
    assert_eq!(bank.unit(2), "");
}

#[test]
fn names_and_units() {
    let bank = ParameterBank::new();
    assert_eq!(bank.name(0), "Threshold");
    assert_eq!(bank.name(1), "Gain");
    assert_eq!(bank.unit(0), "%");
    assert_eq!(bank.unit(1), "%");
}

#[test]
fn display_text_of_one_half_is_fifty_percent() {
    let mut bank = ParameterBank::new();
    for index in [0, 1] {
        bank.set(index, bits(0.5));
        let percentage = format!("{}", number(bank.get(index)) * 100.0);
        let text = bank.display_text(index, &percentage);
        assert_eq!(text, "50");
        assert_eq!(format!("{}{}", text, bank.unit(index)), "50%");
    }
}

#[test]
fn display_text_of_the_defaults() {
    let bank = ParameterBank::new();
    let percentage = format!("{}", number(bank.get(0)) * 100.0);
    assert_eq!(bank.display_text(0, &percentage), "100");
    assert_eq!(bank.display_text(1, &percentage), "100");
}
