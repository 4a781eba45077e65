use eminent_spoon::rate::{rate_per_second, NANOS_PER_SECOND};

#[test]
fn nanos_per_second() {
    assert_eq!(NANOS_PER_SECOND, 1_000_000_000);
}

#[test]
fn rate_of_an_exact_quotient() {
    assert_eq!(rate_per_second(50, 1_000_000), 50_000);
    assert_eq!(rate_per_second(65_536, 1_000_000_000), 65_536);
    assert_eq!(rate_per_second(1, 1), 1_000_000_000);
}

#[test]
fn rate_without_time_is_zero() {
    assert_eq!(rate_per_second(0, 0), 0);
    assert_eq!(rate_per_second(50, 0), 0);
    assert_eq!(rate_per_second(u64::MAX, 0), 0);
}

#[test]
fn rate_of_no_bytes_is_zero() {
    assert_eq!(rate_per_second(0, 1), 0);
    assert_eq!(rate_per_second(0, u64::MAX), 0);
}

#[test]
fn rate_rounds_to_the_nearest() {
    // 1 byte in 3 s is a third of a byte per second, 2 bytes two thirds.
    assert_eq!(rate_per_second(1, 3_000_000_000), 0);
    assert_eq!(rate_per_second(2, 3_000_000_000), 1);
    assert_eq!(rate_per_second(10, 3_000_000_000), 3);
    assert_eq!(rate_per_second(11, 3_000_000_000), 4);
}

#[test]
fn rate_rounds_a_half_to_the_even_number() {
    assert_eq!(rate_per_second(1, 2_000_000_000), 0);
    assert_eq!(rate_per_second(3, 2_000_000_000), 2);
    assert_eq!(rate_per_second(5, 2_000_000_000), 2);
    assert_eq!(rate_per_second(7, 2_000_000_000), 4);
}

#[test]
fn rate_next_to_a_half() {
    assert_eq!(rate_per_second(1, 2_000_000_001), 0);
    assert_eq!(rate_per_second(1, 1_999_999_999), 1);
    assert_eq!(rate_per_second(5, 2_000_000_001), 2);
    assert_eq!(rate_per_second(5, 1_999_999_999), 3);
}

#[test]
fn rate_reads_as_the_float_quotient_does() {
    let samples: Vec<(u64, u64)> = vec![
        (1, 2_000_000_000),
        (3, 2_000_000_000),
        (5, 2_000_000_000),
        (50, 1_000_000),
        (100, 501_000_000),
        (65_536, 250_000_000),
        (1, 4_000_000_000),
        (3, 4_000_000_000),
    ];
    for (bytes, delta) in samples {
        let seconds: f64 = delta as f64 / 1e9;
        let expected = format!("{:.0}", bytes as f64 / seconds);
        assert_eq!(format!("{}", rate_per_second(bytes, delta)), expected);
    }
}

#[test]
fn rate_of_the_largest_inputs() {
    assert_eq!(
        rate_per_second(u64::MAX, 1),
        18_446_744_073_709_551_615_000_000_000
    );
    assert_eq!(rate_per_second(u64::MAX, u64::MAX), 1_000_000_000);
    assert_eq!(rate_per_second(1, u64::MAX), 0);
}

#[test]
fn rate_is_close_to_the_float_quotient() {
    let samples: Vec<(u64, u64)> = vec![
        (1, 7),
        (4096, 123_456),
        (65_536, 999_999_999),
        (1_000_000, 3_333_333_333),
        (123_456_789, 987_654_321),
    ];
    for (bytes, delta) in samples {
        let exact: f64 = bytes as f64 * 1e9 / delta as f64;
        let rate = rate_per_second(bytes, delta) as f64;
        assert!((rate - exact).abs() <= 0.5 + exact * 1e-12);
    }
}
