use kubewatch::metrics::counter::{nanoseconds, nanoseconds_of_bytes};

#[test]
fn whole_seconds_are_scaled_to_nanoseconds() {
    assert_eq!(nanoseconds("0"), Some(0));
    assert_eq!(nanoseconds("1"), Some(1_000_000_000));
    assert_eq!(nanoseconds("10"), Some(10_000_000_000));
    assert_eq!(nanoseconds("+7"), Some(7_000_000_000));
    assert_eq!(nanoseconds("007"), Some(7_000_000_000));
}

#[test]
fn fractions_are_kept_down_to_the_nanosecond() {
    assert_eq!(nanoseconds("10.5"), Some(10_500_000_000));
    assert_eq!(nanoseconds("1234.567891234"), Some(1_234_567_891_234));
    assert_eq!(nanoseconds("0.000000001"), Some(1));
    assert_eq!(nanoseconds("1."), Some(1_000_000_000));
    assert_eq!(nanoseconds(".5"), Some(500_000_000));
    assert_eq!(nanoseconds("0.25"), Some(250_000_000));
}

#[test]
fn what_is_finer_than_a_nanosecond_is_cut_off() {
    assert_eq!(nanoseconds("0.0000000019"), Some(1));
    assert_eq!(nanoseconds("0.0000000009"), Some(0));
    assert_eq!(nanoseconds("1.9999999999"), Some(1_999_999_999));
    assert_eq!(nanoseconds("0.00000000000000000000000000000000000000000000000000001"), Some(0));
    assert_eq!(nanoseconds("3.14159265358979323846264338327950288419716939937510"), Some(3_141_592_653));
}

#[test]
fn exponents_move_the_point() {
    assert_eq!(nanoseconds("1.5e+09"), Some(1_500_000_000_000_000_000));
    assert_eq!(nanoseconds("1.458255915e9"), Some(1_458_255_915_000_000_000));
    assert_eq!(nanoseconds("1e0"), Some(1_000_000_000));
    assert_eq!(nanoseconds("1E3"), Some(1_000_000_000_000));
    assert_eq!(nanoseconds("25e-2"), Some(250_000_000));
    assert_eq!(nanoseconds("1e-9"), Some(1));
    assert_eq!(nanoseconds("1e-10"), Some(0));
    assert_eq!(nanoseconds("123456e-15"), Some(0));
    assert_eq!(nanoseconds("123456e-14"), Some(1));
    assert_eq!(nanoseconds(".5e1"), Some(5_000_000_000));
    assert_eq!(nanoseconds("5.e1"), Some(50_000_000_000));
    assert_eq!(nanoseconds("0e99"), Some(0));
    assert_eq!(nanoseconds("0.000e99999999999999999999999999999999999999999999"), Some(0));
    assert_eq!(nanoseconds("7e-99999999999999999999999999999999999999999999"), Some(0));
    assert_eq!(nanoseconds("1e00000000000000000000000000000000000000000001"), Some(10_000_000_000));
}

#[test]
fn the_largest_count_still_fits() {
    assert_eq!(nanoseconds("18446744073.709551615"), Some(u64::MAX));
    assert_eq!(nanoseconds("18446744073.7095516159"), Some(u64::MAX));
    assert_eq!(nanoseconds("1.8446744073709551615e10"), Some(u64::MAX));
    assert_eq!(nanoseconds("18446744073709551615e-9"), Some(u64::MAX));
    assert_eq!(nanoseconds("184467440737095516150e-10"), Some(u64::MAX));
}

#[test]
fn a_count_that_does_not_fit_is_refused() {
    assert_eq!(nanoseconds("18446744073.709551616"), None);
    assert_eq!(nanoseconds("18446744074"), None);
    assert_eq!(nanoseconds("1e11"), None);
    assert_eq!(nanoseconds("1e20"), None);
    assert_eq!(nanoseconds("1e21"), None);
    assert_eq!(nanoseconds("1e99999999999999999999999999999999999999"), None);
    assert_eq!(nanoseconds("99999999999999999999999999999999999999"), None);
    assert_eq!(nanoseconds("0.00000001e99999999999999999999"), None);
}

#[test]
fn a_negative_counter_is_refused() {
    assert_eq!(nanoseconds("-1"), None);
    assert_eq!(nanoseconds("-0.000000001"), None);
    assert_eq!(nanoseconds("-1e5"), None);
    assert_eq!(nanoseconds("-0"), Some(0));
    assert_eq!(nanoseconds("-0.0000000001"), Some(0));
    assert_eq!(nanoseconds("-0e5"), Some(0));
}

#[test]
fn what_is_no_decimal_number_is_refused() {
    for text in [
        "", "+", "-", ".", "+.", "e5", ".e5", "1e", "1e+", "1e-", "1e5x", "1x", "x1", " 1", "1 ", "1,5",
        "1.5.2", "1e5.5", "1e5e5", "++1", "--1", "1_000", "0x10", "NaN", "nan", "+Inf", "-Inf", "inf",
        "Infinity", "1e+-5", "١",
    ] {
        assert_eq!(nanoseconds(text), None, "{text:?}");
    }
}

#[test]
fn bytes_are_read_as_the_text_is() {
    assert_eq!(nanoseconds_of_bytes(b"10.5"), Some(10_500_000_000));
    assert_eq!(nanoseconds_of_bytes(b""), None);
    assert_eq!(nanoseconds_of_bytes(&[0xff, 0x31]), None);
    assert_eq!(nanoseconds_of_bytes(b"2.5e-1"), Some(250_000_000));
}

#[test]
fn the_conversion_agrees_with_floating_point_on_ordinary_values() {
    for text in ["0", "1", "10.5", "1234.567891234", "3.5", "99", "1.5e+03", "0.125", "2e-3"] {
        let seconds: f64 = text.parse().unwrap();
        assert_eq!(nanoseconds(text), Some((seconds * 1e9).round() as u64), "{text}");
    }
}
