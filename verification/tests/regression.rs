use iai_callgrind::event_kind::EventKind;
use iai_callgrind::metrics::Metrics;
use iai_callgrind::percent::Percent;
use iai_callgrind::regression::{
    is_regression, parse_regression_config, percent_change, Action, Error, Regression,
    RegressionConfig, RegressionRun,
};

fn percent(text: &str) -> Percent {
    Percent::parse(&text.chars().collect()).unwrap()
}

fn metrics(values: &[(EventKind, u64)]) -> Metrics {
    let mut metrics = Metrics::new();
    for (kind, value) in values {
        metrics.add_value(*kind, *value);
    }
    metrics
}

fn regression(kind: EventKind, old: u64, new: u64, limit: &str) -> Regression {
    Regression {
        event_kind: kind,
        old,
        new,
        pct_hundredths: percent_change(old, new),
        limit: percent(limit),
    }
}

#[test]
fn test_regression_thresholds() {
    assert!(is_regression(100, 111, percent("10")));
    assert!(!is_regression(100, 109, percent("10")));
    assert!(is_regression(100, 89, percent("-10")));
    assert!(!is_regression(100, 91, percent("-10")));
}

#[test]
fn test_regression_at_the_limit() {
    assert!(is_regression(100, 110, percent("10")));
    assert!(is_regression(100, 90, percent("-10")));
    assert!(is_regression(1000, 1105, percent("10.5")));
    assert!(!is_regression(1000, 1104, percent("10.5")));
    assert!(is_regression(200, 201, percent("0.5")));
    assert!(!is_regression(201, 202, percent("0.5")));
}

#[test]
fn test_regression_zero_baseline() {
    for limit in ["10", "-10", "0", "-0", "0.001", "100"] {
        assert!(!is_regression(0, 0, percent(limit)));
    }
    assert!(is_regression(0, 5, percent("10")));
    assert!(is_regression(0, 1, percent("1000")));
    assert!(is_regression(0, 5, percent("0")));
    assert!(!is_regression(0, 5, percent("-10")));
}

#[test]
fn test_regression_with_limit_of_zero() {
    assert!(is_regression(100, 101, percent("0")));
    assert!(!is_regression(100, 100, percent("0")));
    assert!(!is_regression(100, 99, percent("0.0")));
    assert!(is_regression(100, 99, percent("-0")));
    assert!(!is_regression(100, 100, percent("-0")));
    assert!(!is_regression(100, 101, percent("-0.0")));
}

#[test]
fn test_regression_opposite_direction_is_never_flagged() {
    assert!(!is_regression(100, 1, percent("10")));
    assert!(!is_regression(100, u64::MAX, percent("-10")));
    assert!(is_regression(1, u64::MAX, percent("999999999.999999999")));
    assert!(is_regression(u64::MAX, 0, percent("-100")));
    assert!(!is_regression(u64::MAX, 1, percent("-100")));
}

#[test]
fn test_percent_change() {
    assert_eq!(percent_change(100, 111), Some(1100));
    assert_eq!(percent_change(100, 89), Some(-1100));
    assert_eq!(percent_change(3, 4), Some(3333));
    assert_eq!(percent_change(3, 2), Some(-3333));
    assert_eq!(percent_change(7, 7), Some(0));
    assert_eq!(percent_change(0, 7), None);
    assert_eq!(percent_change(0, 0), None);
    assert_eq!(percent_change(1, u64::MAX), Some(184467440737095516140000));
}

#[test]
fn test_percent_parse() {
    assert_eq!(percent("10"), Percent { negative: false, digits: 10, scale: 0 });
    assert_eq!(percent("+10"), Percent { negative: false, digits: 10, scale: 0 });
    assert_eq!(percent("-2.50"), Percent { negative: true, digits: 250, scale: 2 });
    assert_eq!(percent(".5"), Percent { negative: false, digits: 5, scale: 1 });
    assert_eq!(percent("5."), Percent { negative: false, digits: 5, scale: 0 });
    assert_eq!(percent("-0"), Percent { negative: true, digits: 0, scale: 0 });
    assert_eq!(
        percent("123456789.123456789"),
        Percent { negative: false, digits: 123456789123456789, scale: 9 }
    );
    assert_eq!(Percent::whole(10), percent("10"));
    assert_eq!(Percent::whole(-3), percent("-3"));
    for text in ["", "-", "+", ".", "1.2.3", "ten", "1 0", "--1", "1234567890123456789", "inf",
        "NaN", "infinity", "0.1234567891", "1e", "e1", ".e1", "1e1.0", "1e--1", "1ee1", "1e65",
        "1e18", "1e-10", "0x10", "1_0", "++1", ".+5"]
    {
        assert_eq!(Percent::parse(&text.chars().collect()), None);
    }
}

#[test]
fn test_parse_regression_config() {
    let cases: Vec<(&str, Vec<(EventKind, Percent)>)> = vec![
        ("default", vec![]),
        ("DefAulT", vec![]),
        ("Ir=10", vec![(EventKind::Ir, percent("10"))]),
        ("EstIMATedCycles=10", vec![(EventKind::EstimatedCycles, percent("10"))]),
        (
            "Ir=10,EstimatedCycles=5",
            vec![(EventKind::Ir, percent("10")), (EventKind::EstimatedCycles, percent("5"))],
        ),
        (
            "Ir= 10 ,  EstimatedCycles = 5",
            vec![(EventKind::Ir, percent("10")), (EventKind::EstimatedCycles, percent("5"))],
        ),
        ("  ir=0.0 ", vec![(EventKind::Ir, percent("0.0"))]),
        ("syscount=-1", vec![(EventKind::SysCount, percent("-1"))]),
    ];
    for (text, expected_limits) in cases {
        let expected = RegressionConfig { limits: expected_limits, fail_fast: None };
        let actual = parse_regression_config(text).unwrap();
        assert_eq!(actual, expected);
    }
}

#[test]
fn test_try_regression_config_from_env_then_error() {
    let cases = [
        ("Ir:10", "Invalid format of key/value pair: 'Ir:10'"),
        ("WRONG=10", "Unknown event kind: 'WRONG'"),
        ("Ir=10.0.0", "Invalid percentage for 'Ir': invalid float literal"),
        ("", "No limits found: At least one limit must be specified"),
        ("   ", "No limits found: At least one limit must be specified"),
        ("Ir=10,", "Invalid format of key/value pair: ''"),
        ("Ir=10, Dr=x, WRONG=1", "Invalid percentage for 'Dr': invalid float literal"),
    ];
    for (text, expected_reason) in cases {
        assert_eq!(&parse_regression_config(text).unwrap_err(), expected_reason);
    }
}

#[test]
fn test_check_reports_each_crossed_limit_in_order() {
    let mut config = RegressionConfig::default();
    config.limits(vec![
        (EventKind::Dr, percent("5")),
        (EventKind::Ir, percent("10")),
        (EventKind::L1hits, percent("-10")),
        (EventKind::Dw, percent("1")),
    ]);
    let old = metrics(&[(EventKind::Ir, 100), (EventKind::Dr, 100), (EventKind::L1hits, 50)]);
    let new = metrics(&[(EventKind::Ir, 120), (EventKind::Dr, 104), (EventKind::L1hits, 40),
        (EventKind::Dw, 3)]);
    assert_eq!(
        config.check(&old, &new),
        vec![
            regression(EventKind::Ir, 100, 120, "10"),
            regression(EventKind::L1hits, 50, 40, "-10"),
            regression(EventKind::Dw, 0, 3, "1"),
        ]
    );
    assert_eq!(config.check(&old, &old), vec![]);
}

#[test]
fn test_check_without_limits_uses_instructions_plus_ten_percent() {
    let config = RegressionConfig::default();
    let old = metrics(&[(EventKind::Ir, 100), (EventKind::Dr, 1)]);
    assert_eq!(config.check(&old, &metrics(&[(EventKind::Ir, 109), (EventKind::Dr, 100)])), vec![]);
    assert_eq!(
        config.check(&old, &metrics(&[(EventKind::Ir, 110)])),
        vec![regression(EventKind::Ir, 100, 110, "10")]
    );
}

#[test]
fn test_regression_config_builder() {
    let mut config = RegressionConfig::default();
    assert_eq!(config, RegressionConfig { limits: vec![], fail_fast: None });
    config.limits(vec![(EventKind::Ir, percent("5"))]).fail_fast(true);
    config.limits(vec![(EventKind::Dr, percent("6"))]);
    assert_eq!(
        config,
        RegressionConfig {
            limits: vec![(EventKind::Ir, percent("5")), (EventKind::Dr, percent("6"))],
            fail_fast: Some(true),
        }
    );
    assert_eq!(config.clone(), config);
}

fn run(fail_fast: bool, benchmarks: &[Vec<Regression>]) -> (usize, Result<(), Error>) {
    let mut run = RegressionRun::new(fail_fast);
    let mut executed = 0;
    for found in benchmarks {
        if run.is_stopped() {
            break;
        }
        executed += 1;
        if run.record(found) == Action::Abort {
            break;
        }
    }
    (executed, run.finish())
}

#[test]
fn test_fail_fast_false_collects_all_regressions() {
    let first = regression(EventKind::Ir, 100, 120, "10");
    let second = regression(EventKind::Dr, 10, 20, "10");
    let (executed, verdict) = run(false, &[vec![first], vec![second]]);
    assert_eq!(executed, 2);
    match verdict {
        Err(Error::RegressionError(list)) => assert_eq!(list, vec![first, second]),
        _ => panic!("the run must fail with both regressions"),
    }
}

#[test]
fn test_fail_fast_true_stops_at_first_regression() {
    let first = regression(EventKind::Ir, 100, 120, "10");
    let second = regression(EventKind::Dr, 10, 20, "10");
    let (executed, verdict) = run(true, &[vec![first], vec![second]]);
    assert_eq!(executed, 1);
    match verdict {
        Err(Error::RegressionError(list)) => assert_eq!(list, vec![first]),
        _ => panic!("the run must fail with the first regression"),
    }

    let (executed, verdict) = run(true, &[vec![], vec![second, first], vec![first]]);
    assert_eq!(executed, 2);
    match verdict {
        Err(Error::RegressionError(list)) => assert_eq!(list, vec![second]),
        _ => panic!("the run must fail with the first regression"),
    }
}

#[test]
fn test_run_without_regressions_passes() {
    for fail_fast in [true, false] {
        let (executed, verdict) = run(fail_fast, &[vec![], vec![], vec![]]);
        assert_eq!(executed, 3);
        assert!(verdict.is_ok());
    }
}

#[test]
fn test_stopped_run_takes_nothing_more() {
    let first = regression(EventKind::Ir, 100, 120, "10");
    let second = regression(EventKind::Dr, 10, 20, "10");
    let mut run = RegressionRun::new(true);
    assert_eq!(run.record(&vec![]), Action::Continue);
    assert!(!run.is_stopped());
    assert_eq!(run.record(&vec![first]), Action::Abort);
    assert!(run.is_stopped());
    assert_eq!(run.record(&vec![second]), Action::Abort);
    match run.finish() {
        Err(Error::RegressionError(list)) => assert_eq!(list, vec![first]),
        _ => panic!("the run must fail with the first regression"),
    }
}

#[test]
fn test_percent_text() {
    for text in ["10", "-2.50", "0.5", "5", "-0", "0", "123456789.123456789", "0.000000001",
        "-0.05", "999999999999999999"]
    {
        let percent = percent(text);
        assert_eq!(percent.text(), text);
        assert_eq!(Percent::parse(&percent.text().chars().collect()), Some(percent));
    }
    assert_eq!(percent("+10").text(), "10");
    assert_eq!(percent(".5").text(), "0.5");
    assert_eq!(percent("5.").text(), "5");
    assert_eq!(percent("007.10").text(), "7.10");
    assert_eq!(Percent::new(false, 5, 3).unwrap().text(), "0.005");
    assert_eq!(Percent::new(true, 1234, 2).unwrap().text(), "-12.34");
    assert_eq!(Percent::new(false, 1, 10), None);
    assert_eq!(Percent::new(false, 1_000_000_000_000_000_000, 0), None);
    assert!(Percent::new(false, 999_999_999_999_999_999, 9).unwrap().is_wf());
    assert!(Percent::whole(0).is_zero());
    assert!(!Percent::whole(1).is_zero());
}

#[test]
fn test_regression_config_trims_white_space_of_every_kind() {
    let config = parse_regression_config("\u{a0}Ir\u{2003}=\u{3000}10\u{85}").unwrap();
    assert_eq!(config.limits, vec![(EventKind::Ir, percent("10"))]);
    assert_eq!(
        parse_regression_config("Ir=+.+5").unwrap_err(),
        "Invalid percentage for 'Ir': invalid float literal"
    );
    assert_eq!(Percent::parse(&"++5".chars().collect()), None);
}

#[test]
fn test_run_for_config() {
    let first = regression(EventKind::Ir, 100, 120, "10");
    let mut config = RegressionConfig::default();
    let mut run = RegressionRun::for_config(&config);
    assert_eq!(run.record(&vec![first]), Action::Continue);
    config.fail_fast(false);
    let mut run = RegressionRun::for_config(&config);
    assert_eq!(run.record(&vec![first]), Action::Continue);
    config.fail_fast(true);
    let mut run = RegressionRun::for_config(&config);
    assert_eq!(run.record(&vec![first]), Action::Abort);
}

#[test]
fn test_percent_with_exponent_and_spare_zeros() {
    let cases = [
        ("1e3", "1000"),
        ("1E3", "1000"),
        ("1e+3", "1000"),
        ("1.5e3", "1500"),
        ("15e-1", "1.5"),
        ("1e-9", "0.000000001"),
        ("-2.5E-3", "-0.0025"),
        ("100e-2", "1"),
        ("+.5e1", "5"),
        ("5.e0", "5"),
        ("0e0", "0"),
        ("-0e5", "-0"),
        ("0.000e64", "0"),
        ("1e17", "100000000000000000"),
        ("0.00000000000000000001e20", "1"),
        ("1e000002", "100"),
        ("0.1234567890", "0.123456789"),
        ("10.0000000000000000000000", "10"),
        ("0000000000000000000000010", "10"),
        ("000000000000000000.50000000000", "0.5"),
        ("0000000000000000000000", "0"),
    ];
    for (text, expected) in cases {
        let read = Percent::parse(&text.chars().collect()).unwrap();
        assert_eq!(read.text(), expected);
        assert!(read.is_wf());
        let value = read.digits as f64 / 10f64.powi(i32::from(read.scale));
        let value = if read.negative { -value } else { value };
        assert_eq!(value, text.parse::<f64>().unwrap());
        assert_eq!(read.negative, text.parse::<f64>().unwrap().is_sign_negative());
    }
    assert_eq!(percent("2.50"), Percent { negative: false, digits: 250, scale: 2 });
    assert_eq!(percent("2.50e0"), Percent { negative: false, digits: 25, scale: 1 });
    let config = parse_regression_config("Ir=1e1, Dr=-5E-1").unwrap();
    assert_eq!(
        config.limits,
        vec![(EventKind::Ir, percent("10")), (EventKind::Dr, percent("-0.5"))]
    );
    assert!(is_regression(100, 110, percent("1e1")));
    assert!(!is_regression(100, 109, percent("1e1")));
}

#[test]
fn test_regression_config_with_empty_percentage() {
    for text in ["Ir=", "Ir= ", " ir =\u{a0}"] {
        let key = text.split('=').next().unwrap().trim();
        assert_eq!(
            parse_regression_config(text).unwrap_err(),
            format!("Invalid percentage for '{key}': cannot parse float from empty string")
        );
    }
    assert_eq!(
        parse_regression_config("Ir=+").unwrap_err(),
        "Invalid percentage for 'Ir': invalid float literal"
    );
}
