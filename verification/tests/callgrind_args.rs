use std::collections::VecDeque;

use iai_callgrind::callgrind_args::{
    bool_to_yesno, yesno_to_bool, Args, ArgsError, FairSched, ToolArgs,
};
use iai_callgrind::common::{RawArgs, ValgrindTool};

fn strings(values: &[&str]) -> Vec<String> {
    values.iter().map(|s| (*s).to_owned()).collect()
}

fn updated(values: &[&str]) -> Args {
    let mut args = Args::default();
    args.try_update(&strings(values)).unwrap();
    args
}

#[test]
fn test_callgrind_args_default() {
    let args = Args::default();
    assert_eq!(args.i1, "32768,8,64");
    assert_eq!(args.d1, "32768,8,64");
    assert_eq!(args.ll, "8388608,16,64");
    assert!(args.cache_sim);
    assert!(args.other.is_empty());
    assert!(args.toggle_collect.is_empty());
    assert!(!args.compress_strings);
    assert!(!args.compress_pos);
    assert!(!args.verbose);
    assert!(!args.dump_instr);
    assert!(args.dump_line);
    assert!(!args.combine_dumps);
    assert_eq!(args.callgrind_out_file, None);
    assert_eq!(args.log_arg, None);
    assert!(args.trace_children);
    assert!(args.separate_threads);
    assert_eq!(args.fair_sched, FairSched::Try);
    assert!(Args::new(true).verbose);
}

#[test]
fn test_callgrind_args_update_known_options() {
    let args = updated(&[
        "--I1=1,2,3",
        " --D1 = 4,5,6 ",
        "--LL=7,8,9",
        "--cache-sim=no",
        "--dump-instr=yes",
        "--dump-line=no",
        "--trace-children=no",
        "--separate-threads=no",
        "--fair-sched=yes",
        "--toggle-collect=first",
        "--toggle-collect=second",
    ]);
    assert_eq!(args.i1, "1,2,3");
    assert_eq!(args.d1, "4,5,6");
    assert_eq!(args.ll, "7,8,9");
    assert!(!args.cache_sim);
    assert!(args.dump_instr);
    assert!(!args.dump_line);
    assert!(!args.trace_children);
    assert!(!args.separate_threads);
    assert_eq!(args.fair_sched, FairSched::Yes);
    assert_eq!(args.toggle_collect, VecDeque::from(strings(&["first", "second"])));
    assert!(args.other.is_empty());
}

#[test]
fn test_callgrind_args_update_other_arguments() {
    let args = updated(&[
        "--combine-dumps=yes",
        "--callgrind-out-file=/tmp/out",
        "--compress-strings=yes",
        "--compress-pos=yes",
        "--log-file=x",
        "--log-fd=1",
        "--log-socket=a",
        "--xml=yes",
        "--xml-file=y",
        "--xml-fd=2",
        "--xml-socket=b",
        "--xml-user-comment=c",
        "--tool=memcheck",
        "-h",
        " --help ",
        "--help-dyn-options",
        "--help-debug",
        "--version",
        "-q",
        "--quiet",
        "positional",
        "--collect-systime=yes",
        " --some = value ",
        "--flag",
        "-x",
        " -y",
        "-v",
    ]);
    assert_eq!(args.other, strings(&["--collect-systime=yes", " --some = value ", "--flag", "-x"]));
    assert!(args.verbose);
    assert!(!args.combine_dumps);
    assert!(!args.compress_strings);
    assert!(!args.compress_pos);
    assert_eq!(args.callgrind_out_file, None);
    assert!(updated(&["--verbose"]).verbose);
    assert!(!updated(&[" --verbose"]).verbose);
    assert_eq!(updated(&[" --verbose"]).other, strings(&[]));
}

#[test]
fn test_callgrind_args_update_stops_at_first_error() {
    let mut args = Args::default();
    let result = args.try_update(&strings(&["--I1=1", "--cache-sim=maybe", "--D1=2"]));
    assert_eq!(
        result,
        Err(ArgsError::InvalidBoolArgument("--cache-sim".to_owned(), "maybe".to_owned()))
    );
    assert_eq!(args.i1, "1");
    assert_eq!(args.d1, "32768,8,64");
    assert!(args.cache_sim);

    let mut args = Args::default();
    let result = args.try_update(&strings(&["--fair-sched=sometimes"]));
    assert_eq!(result, Err(ArgsError::InvalidFairSchedArgument("sometimes".to_owned())));
    for option in ["--dump-instr", "--dump-line", "--trace-children", "--separate-threads"] {
        let mut args = Args::default();
        let result = args.try_update(&vec![format!("{option}=YES")]);
        assert_eq!(
            result,
            Err(ArgsError::InvalidBoolArgument(option.to_owned(), "YES".to_owned()))
        );
    }
}

#[test]
fn test_args_error_message() {
    assert_eq!(
        ArgsError::InvalidBoolArgument("--cache-sim".to_owned(), "maybe".to_owned()).message(),
        "Invalid argument for --cache-sim: 'maybe'. Valid arguments are: 'yes', 'no'"
    );
    assert_eq!(
        ArgsError::InvalidFairSchedArgument("x".to_owned()).message(),
        "Invalid argument for --fair-sched: 'x'. Valid arguments are: 'yes', 'no', 'try'"
    );
}

#[test]
fn test_callgrind_args_from_raw_args() {
    let lists = vec![
        RawArgs::new(strings(&["--I1=1", "--toggle-collect=a"])),
        RawArgs::new(strings(&[])),
        RawArgs::new(strings(&["--I1=2", "--toggle-collect=b", "--other"])),
    ];
    let args = Args::try_from_raw_args(&lists).unwrap();
    assert_eq!(args.i1, "2");
    assert_eq!(args.toggle_collect, VecDeque::from(strings(&["a", "b"])));
    assert_eq!(args.other, strings(&["--other"]));

    let lists = vec![
        RawArgs::new(strings(&["--I1=1"])),
        RawArgs::new(strings(&["--dump-line=x"])),
        RawArgs::new(strings(&["--fair-sched=x"])),
    ];
    assert_eq!(
        Args::try_from_raw_args(&lists).unwrap_err(),
        ArgsError::InvalidBoolArgument("--dump-line".to_owned(), "x".to_owned())
    );
    assert_eq!(Args::try_from_raw_args(&vec![]).unwrap().i1, "32768,8,64");
}

#[test]
fn test_insert_toggle_collect() {
    let mut args = updated(&["--toggle-collect=second"]);
    args.insert_toggle_collect("first");
    assert_eq!(args.toggle_collect, VecDeque::from(strings(&["first", "second"])));
}

#[test]
fn test_tool_args_from_callgrind_args() {
    let tool_args = ToolArgs::from_callgrind_args(Args::default());
    assert_eq!(
        tool_args,
        ToolArgs {
            tool: ValgrindTool::Callgrind,
            output_paths: vec![],
            log_path: None,
            error_exitcode: "0".to_owned(),
            verbose: false,
            trace_children: true,
            fair_sched: FairSched::Try,
            other: strings(&[
                "--I1=32768,8,64",
                "--D1=32768,8,64",
                "--LL=8388608,16,64",
                "--cache-sim=yes",
                "--compress-strings=no",
                "--compress-pos=no",
                "--dump-line=yes",
                "--dump-instr=no",
                "--combine-dumps=no",
                "--separate-threads=yes",
            ]),
        }
    );

    let mut args = updated(&[
        "--toggle-collect=b",
        "--cache-sim=no",
        "--collect-systime=yes",
        "-v",
        "--fair-sched=no",
        "--trace-children=no",
        "--toggle-collect=c",
        "--flag",
    ]);
    args.insert_toggle_collect("a");
    args.callgrind_out_file = Some("/tmp/callgrind.out".to_owned());
    args.log_arg = Some("--log-file=/tmp/log".to_owned());
    let tool_args = ToolArgs::from_callgrind_args(args);
    assert_eq!(tool_args.output_paths, strings(&["/tmp/callgrind.out"]));
    assert_eq!(tool_args.log_path, Some("--log-file=/tmp/log".to_owned()));
    assert!(tool_args.verbose);
    assert!(!tool_args.trace_children);
    assert_eq!(tool_args.fair_sched, FairSched::No);
    assert_eq!(
        tool_args.other,
        strings(&[
            "--I1=32768,8,64",
            "--D1=32768,8,64",
            "--LL=8388608,16,64",
            "--cache-sim=no",
            "--compress-strings=no",
            "--compress-pos=no",
            "--dump-line=yes",
            "--dump-instr=no",
            "--combine-dumps=no",
            "--separate-threads=yes",
            "--toggle-collect=a",
            "--toggle-collect=b",
            "--toggle-collect=c",
            "--collect-systime=yes",
            "--flag",
        ])
    );
}

#[test]
fn test_yesno() {
    assert_eq!(yesno_to_bool(&"yes".chars().collect()), Some(true));
    assert_eq!(yesno_to_bool(&" no ".chars().collect()), Some(false));
    assert_eq!(yesno_to_bool(&"Yes".chars().collect()), None);
    assert_eq!(yesno_to_bool(&"".chars().collect()), None);
    assert_eq!(bool_to_yesno(true), "yes");
    assert_eq!(bool_to_yesno(false), "no");
}

#[test]
fn test_fair_sched() {
    assert_eq!(FairSched::from_str("yes"), Ok(FairSched::Yes));
    assert_eq!(FairSched::from_str("no"), Ok(FairSched::No));
    assert_eq!(FairSched::from_str("try"), Ok(FairSched::Try));
    assert_eq!(
        FairSched::from_str("Try"),
        Err(ArgsError::InvalidFairSchedArgument("Try".to_owned()))
    );
    for sched in [FairSched::Yes, FairSched::No, FairSched::Try] {
        assert_eq!(FairSched::from_str(sched.as_str()), Ok(sched));
    }
}

#[test]
fn test_is_ignored() {
    for arg in ["--combine-dumps=yes", " --tool = memcheck ", "--xml=yes", "-h", " --help ", "-q"] {
        assert!(iai_callgrind::callgrind_args::is_ignored(arg));
        let mut args = Args::default();
        args.try_update(&strings(&[arg])).unwrap();
        assert_eq!(
            ToolArgs::from_callgrind_args(args),
            ToolArgs::from_callgrind_args(Args::default())
        );
    }
    for arg in ["--I1=1", "--other=x", "-v", "--verbose", "positional", "--flag", "--tool"] {
        assert!(!iai_callgrind::callgrind_args::is_ignored(arg));
    }
}
