use eminent_spoon::report::{decimal_string, Report, TimeOut};

#[test]
#[allow(unused_variables)]
fn as_time_format() {
    let pair = vec![(5_u64, "0:00:05")];
    let pair = vec![(60_u64, "0:01:00")];

    for (input, output) in pair {
        assert_eq!(input.as_time().as_str(), output);
    }
}

#[test]
fn as_time_of_zero() {
    assert_eq!(0_u64.as_time().as_str(), "0:00:00");
}

#[test]
fn as_time_of_seconds_only() {
    assert_eq!(5_u64.as_time().as_str(), "0:00:05");
    assert_eq!(59_u64.as_time().as_str(), "0:00:59");
}

#[test]
fn as_time_carries_into_minutes_and_hours() {
    assert_eq!(61_u64.as_time().as_str(), "0:01:01");
    assert_eq!(3599_u64.as_time().as_str(), "0:59:59");
    assert_eq!(3600_u64.as_time().as_str(), "1:00:00");
    assert_eq!(3725_u64.as_time().as_str(), "1:02:05");
}

#[test]
fn as_time_does_not_wrap_the_hours() {
    assert_eq!(86_400_u64.as_time().as_str(), "24:00:00");
    assert_eq!(360_000_u64.as_time().as_str(), "100:00:00");
    assert_eq!(u64::MAX.as_time().as_str(), "5124095576030431:00:15");
}

#[test]
fn as_time_agrees_with_std_formatting() {
    let samples: Vec<u64> = vec![0, 1, 9, 10, 60, 600, 3661, 35_999, 36_000, 123_456_789];
    for secs in samples {
        let expected = format!("{}:{:02}:{:02}", secs / 3600, secs % 3600 / 60, secs % 60);
        assert_eq!(secs.as_time(), expected);
    }
}

#[test]
fn decimal_string_of_small_numbers() {
    assert_eq!(decimal_string(0).as_str(), "0");
    assert_eq!(decimal_string(7).as_str(), "7");
    assert_eq!(decimal_string(10).as_str(), "10");
    assert_eq!(decimal_string(1_234_567_890).as_str(), "1234567890");
}

#[test]
fn decimal_string_of_the_largest_number() {
    assert_eq!(decimal_string(u128::MAX), format!("{}", u128::MAX));
    assert_eq!(
        decimal_string(u128::MAX).as_str(),
        "340282366920938463463374607431768211455"
    );
}

#[test]
fn report_parts() {
    let report = Report { total_bytes: 150, elapsed_secs: 5, rate: 1234 };
    assert_eq!(report.bytes_text().as_str(), "150 ");
    assert_eq!(report.elapsed_text().as_str(), "0:00:05");
    assert_eq!(report.rate_text().as_str(), " [1234 b/s]");
}

#[test]
fn report_line_joins_the_parts() {
    let report = Report { total_bytes: 150, elapsed_secs: 5, rate: 1234 };
    assert_eq!(report.line().as_str(), "150 0:00:05 [1234 b/s]");
    let joined = format!(
        "{}{}{}",
        report.bytes_text(),
        report.elapsed_text(),
        report.rate_text()
    );
    assert_eq!(report.line(), joined);
}

#[test]
fn report_line_of_an_empty_run() {
    let report = Report { total_bytes: 0, elapsed_secs: 0, rate: 0 };
    assert_eq!(report.line().as_str(), "0 0:00:00 [0 b/s]");
}

#[test]
fn report_line_of_large_values() {
    let report = Report {
        total_bytes: u64::MAX,
        elapsed_secs: 90_061,
        rate: 18_446_744_073_709_551_615_000_000_000,
    };
    assert_eq!(
        report.line().as_str(),
        "18446744073709551615 25:01:01 [18446744073709551615000000000 b/s]"
    );
}
