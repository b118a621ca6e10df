use iai_callgrind::args::{
    parse_args, parse_boolish, parse_nocapture, BaselineName, BenchmarkFilter, CommandLineArgs,
    NoCapture, OutputFormatKind, RawCommandLine, SummaryFormat,
};
use iai_callgrind::common::RawArgs;
use iai_callgrind::event_kind::EventKind;
use iai_callgrind::percent::Percent;

fn parse(args: &[&str]) -> Result<CommandLineArgs, String> {
    CommandLineArgs::try_parse_from(args.iter().map(|s| (*s).to_owned()).collect())
}

#[test]
fn test_callgrind_args_not_env() {
    let test_arg = "--just-testing=yes";
    let result =
        CommandLineArgs::try_parse_from(vec![format!("--callgrind-args={test_arg}")]).unwrap();
    assert_eq!(
        result.callgrind_args,
        Some(RawArgs::new(vec![test_arg.to_owned()]))
    );
}

#[test]
fn test_home_cli() {
    let result = CommandLineArgs::try_parse_from(vec!["--home=/test_me".to_owned()]).unwrap();
    assert_eq!(result.home, Some("/test_me".to_owned()));
}

#[test]
fn test_home_cli_when_no_value_then_error() {
    let result = CommandLineArgs::try_parse_from(vec!["--home=".to_owned()]);
    assert!(result.is_err());
}

#[test]
fn test_no_arguments_give_defaults() {
    let result = parse(&[]).unwrap();
    assert_eq!(result.filter, None);
    assert_eq!(result.callgrind_args, None);
    assert_eq!(result.save_summary, None);
    assert_eq!(result.allow_aslr, None);
    assert!(result.regression.is_none());
    assert_eq!(result.regression_fail_fast, None);
    assert!(result.save_baseline.is_none());
    assert!(result.baseline.is_none());
    assert!(result.load_baseline.is_none());
    assert_eq!(result.output_format, OutputFormatKind::Default);
    assert!(!result.separate_targets);
    assert_eq!(result.home, None);
    assert_eq!(result.nocapture, NoCapture::False);
}

#[test]
fn test_bench_flag_is_read_over() {
    let result = parse(&["my_bench", "--bench"]).unwrap();
    assert_eq!(result.filter, Some(BenchmarkFilter::Name("my_bench".to_owned())));
}

#[test]
fn test_save_summary_cli() {
    assert_eq!(parse(&["--save-summary"]).unwrap().save_summary, Some(SummaryFormat::Json));
    assert_eq!(
        parse(&["--save-summary=json"]).unwrap().save_summary,
        Some(SummaryFormat::Json)
    );
    assert_eq!(
        parse(&["--save-summary=pretty-json"]).unwrap().save_summary,
        Some(SummaryFormat::PrettyJson)
    );
    assert_eq!(
        parse(&["--save-summary=yaml"]).unwrap_err(),
        "invalid value 'yaml' for '--save-summary'"
    );
}

#[test]
fn test_allow_aslr_cli() {
    assert_eq!(parse(&["--allow-aslr"]).unwrap().allow_aslr, Some(true));
    assert_eq!(parse(&["--allow-aslr=yes"]).unwrap().allow_aslr, Some(true));
    assert_eq!(parse(&["--allow-aslr=no"]).unwrap().allow_aslr, Some(false));
    assert_eq!(
        parse(&["--allow-aslr=maybe"]).unwrap_err(),
        "invalid value 'maybe' for '--allow-aslr'"
    );
}

#[test]
fn test_separate_targets_cli() {
    assert!(parse(&["--separate-targets"]).unwrap().separate_targets);
    assert!(parse(&["--separate-targets=yes"]).unwrap().separate_targets);
    assert!(!parse(&["--separate-targets=no"]).unwrap().separate_targets);
}

#[test]
fn test_nocapture_cli() {
    assert_eq!(parse(&["--nocapture"]).unwrap().nocapture, NoCapture::True);
    assert_eq!(parse(&["--nocapture=true"]).unwrap().nocapture, NoCapture::True);
    assert_eq!(parse(&["--nocapture=false"]).unwrap().nocapture, NoCapture::False);
    assert_eq!(parse(&["--nocapture=stdout"]).unwrap().nocapture, NoCapture::Stdout);
    assert_eq!(parse(&["--nocapture=stderr"]).unwrap().nocapture, NoCapture::Stderr);
}

#[test]
fn test_boolish() {
    for value in ["y", "yes", "t", "true", "on", "1", "YES", "True"] {
        assert_eq!(parse_boolish(value), Some(true));
    }
    for value in ["n", "no", "f", "false", "off", "0", "OFF"] {
        assert_eq!(parse_boolish(value), Some(false));
    }
    assert_eq!(parse_boolish("2"), None);
    assert_eq!(parse_boolish(""), None);
}

#[test]
fn test_parse_nocapture() {
    assert_eq!(parse_nocapture("STDOUT"), Ok(NoCapture::Stdout));
    assert_eq!(parse_nocapture("StdErr"), Ok(NoCapture::Stderr));
    assert_eq!(parse_nocapture("on"), Ok(NoCapture::True));
    assert_eq!(parse_nocapture("0"), Ok(NoCapture::False));
    assert_eq!(parse_nocapture("Both"), Err("Invalid value: Both".to_owned()));
}

#[test]
fn test_parse_callgrind_args() {
    let cases: Vec<(&str, Vec<&str>)> = vec![
        ("", vec![]),
        ("--some=yes", vec!["--some=yes"]),
        ("--some=yes --other=no", vec!["--some=yes", "--other=no"]),
        ("--some='yes and no'", vec!["--some=yes and no"]),
        ("--some='\"yes and no\"'", vec!["--some=\"yes and no\""]),
        (
            "--some='yes and no' --other='no and yes'",
            vec!["--some=yes and no", "--other=no and yes"],
        ),
    ];
    for (value, expected) in cases {
        let actual = parse_args(value).unwrap();
        let expected: Vec<String> = expected.into_iter().map(str::to_owned).collect();
        assert_eq!(actual, RawArgs::new(expected));
    }
}

#[test]
fn test_parse_callgrind_args_when_quote_is_open_then_error() {
    assert_eq!(
        parse_args("--some='yes").unwrap_err(),
        "Failed to split callgrind args"
    );
}

#[test]
fn test_regression_cli() {
    let result = parse(&["--regression=ir=5, EstimatedCycles=-2.5", "--regression-fail-fast"])
        .unwrap();
    let config = result.regression.unwrap();
    assert_eq!(
        config.limits,
        vec![
            (EventKind::Ir, Percent { negative: false, digits: 5, scale: 0 }),
            (EventKind::EstimatedCycles, Percent { negative: true, digits: 25, scale: 1 }),
        ]
    );
    assert_eq!(config.fail_fast, None);
    assert_eq!(result.regression_fail_fast, Some(true));
}

#[test]
fn test_regression_fail_fast_requires_regression() {
    assert_eq!(
        parse(&["--regression-fail-fast=yes"]).unwrap_err(),
        "the argument '--regression-fail-fast' requires '--regression'"
    );
}

#[test]
fn test_regression_with_unknown_event_is_rejected_before_anything_runs() {
    assert_eq!(
        parse(&["--regression=WRONG=10"]).unwrap_err(),
        "Unknown event kind: 'WRONG'"
    );
}

#[test]
fn test_baselines_cli() {
    let result = parse(&["--save-baseline"]).unwrap();
    assert_eq!(result.save_baseline.unwrap().as_str(), "default");

    let result = parse(&["--baseline=main", "--load-baseline=feature_1"]).unwrap();
    assert_eq!(result.baseline.unwrap().as_str(), "main");
    assert_eq!(result.load_baseline.unwrap().as_str(), "feature_1");
}

#[test]
fn test_save_baseline_excludes_baseline_and_load_baseline() {
    let expected =
        "the argument '--save-baseline' cannot be used with '--baseline' or '--load-baseline'";
    assert_eq!(parse(&["--save-baseline=a", "--baseline=b"]).unwrap_err(), expected);
    assert_eq!(
        parse(&["--save-baseline=a", "--baseline=b", "--load-baseline=c"]).unwrap_err(),
        expected
    );
    let mut raw = RawCommandLine::default();
    raw.save_baseline = Some("a".to_owned());
    raw.load_baseline = Some("c".to_owned());
    assert_eq!(CommandLineArgs::from_raw(&raw).unwrap_err(), expected);
}

#[test]
fn test_load_baseline_requires_baseline() {
    assert_eq!(
        parse(&["--load-baseline=a"]).unwrap_err(),
        "the argument '--load-baseline' requires '--baseline'"
    );
}

#[test]
fn test_baseline_name() {
    assert_eq!(BaselineName::from_str("my_Baseline_1").unwrap().as_str(), "my_Baseline_1");
    assert_eq!(
        BaselineName::from_str("my-baseline").unwrap_err(),
        "A baseline name can only consist of ascii characters which are alphanumeric or '_' but \
         found: 'my-baseline'"
    );
    assert!(parse(&["--baseline=a.b"]).is_err());
}

#[test]
fn test_output_format_cli() {
    assert_eq!(
        parse(&["--output-format=json"]).unwrap().output_format,
        OutputFormatKind::Json
    );
    assert_eq!(
        parse(&["--output-format", "pretty-json"]).unwrap().output_format,
        OutputFormatKind::PrettyJson
    );
    assert_eq!(
        parse(&["--output-format=xml"]).unwrap_err(),
        "invalid value 'xml' for '--output-format'"
    );
}

#[test]
fn test_unknown_option_is_rejected() {
    assert!(parse(&["--no-such-option"]).is_err());
}

#[test]
fn test_benchmark_filter_apply() {
    let filter = BenchmarkFilter::from_str("group::bench").unwrap();
    assert!(filter.apply("file::group::bench_fast"));
    assert!(filter.apply("group::bench"));
    assert!(!filter.apply("file::group::other"));
    assert!(!filter.apply("group::benc"));
    assert!(BenchmarkFilter::Name(String::new()).apply(""));
    assert!(BenchmarkFilter::Name(String::new()).apply("anything"));
}

#[test]
fn test_raw_command_line() {
    let raw = RawCommandLine::try_parse_from(vec![
        "name".to_owned(),
        "--home=/x".to_owned(),
        "--nocapture".to_owned(),
        "--bench".to_owned(),
    ])
    .unwrap();
    let mut expected = RawCommandLine::default();
    expected.filter = Some("name".to_owned());
    expected.home = Some("/x".to_owned());
    expected.nocapture = Some("true".to_owned());
    assert_eq!(raw, expected);
    assert!(RawCommandLine::try_parse_from(vec!["--home".to_owned()]).is_err());
    assert!(RawCommandLine::try_parse_from(vec!["--home=a".to_owned(), "--home=b".to_owned()])
        .is_err());
}

#[test]
fn test_command_line_takes_precedence_over_fallback() {
    let mut given = RawCommandLine::default();
    given.callgrind_args = Some("--just-testing=no".to_owned());
    given.home = Some("/cli".to_owned());
    let mut fallback = RawCommandLine::default();
    fallback.callgrind_args = Some("--just-testing=yes".to_owned());
    fallback.save_summary = Some("json".to_owned());
    fallback.nocapture = Some("stderr".to_owned());
    let merged = given.or(fallback);
    let mut expected = RawCommandLine::default();
    expected.callgrind_args = Some("--just-testing=no".to_owned());
    expected.home = Some("/cli".to_owned());
    expected.save_summary = Some("json".to_owned());
    expected.nocapture = Some("stderr".to_owned());
    assert_eq!(merged, expected);
    let options = CommandLineArgs::from_raw(&merged).unwrap();
    assert_eq!(
        options.callgrind_args,
        Some(RawArgs::new(vec!["--just-testing=no".to_owned()]))
    );
    assert_eq!(options.save_summary, Some(SummaryFormat::Json));
    assert_eq!(options.nocapture, NoCapture::Stderr);
    assert_eq!(
        RawCommandLine::default().or(RawCommandLine::default()),
        RawCommandLine::default()
    );
}

#[test]
fn test_try_parse_from_fails_where_the_arguments_or_their_values_are_rejected() {
    assert!(RawCommandLine::try_parse_from(vec!["--unknown".to_owned()]).is_err());
    assert!(CommandLineArgs::try_parse_from(vec!["--unknown".to_owned()]).is_err());
    let raw = RawCommandLine::try_parse_from(vec!["--allow-aslr=maybe".to_owned()]).unwrap();
    assert_eq!(raw.allow_aslr, Some("maybe".to_owned()));
    assert_eq!(
        CommandLineArgs::try_parse_from(vec!["--allow-aslr=maybe".to_owned()]).unwrap_err(),
        CommandLineArgs::from_raw(&raw).unwrap_err()
    );
    assert!(CommandLineArgs::try_parse_from(vec![]).is_ok());
}
