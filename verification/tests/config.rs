use iai_callgrind::common::{
    black_box, Direction, FlamegraphConfig, FlamegraphKind, OutputFormat, RawArgs, Tool, Tools,
    ValgrindTool,
};
use iai_callgrind::event_kind::EventKind;
use iai_callgrind::lib_bench::LibraryBenchmarkConfig;

fn strings(values: &[&str]) -> Vec<String> {
    values.iter().map(|s| (*s).to_owned()).collect()
}

fn tool(kind: ValgrindTool, args: &[&str]) -> Tool {
    let mut tool = Tool::new(kind);
    tool.args(&strings(args));
    tool
}

#[test]
fn test_output_format_builder() {
    let mut format = OutputFormat::default();
    assert_eq!(
        format,
        OutputFormat { truncate_description: None, show_intermediate: None, show_grid: None }
    );
    format.truncate_description(Some(200)).show_intermediate(true).show_grid(false);
    assert_eq!(
        format,
        OutputFormat {
            truncate_description: Some(Some(200)),
            show_intermediate: Some(true),
            show_grid: Some(false),
        }
    );
    format.truncate_description(None);
    assert_eq!(format.truncate_description, Some(None));
    assert_eq!(format.show_intermediate, Some(true));
}

#[test]
fn test_flamegraph_config_builder() {
    let mut config = FlamegraphConfig::default();
    assert_eq!(config.kind, None);
    assert_eq!(config.event_kinds, None);
    config
        .kind(FlamegraphKind::Differential)
        .negate_differential(true)
        .normalize_differential(false)
        .event_kinds(vec![EventKind::EstimatedCycles, EventKind::Ir])
        .direction(Direction::BottomToTop)
        .title("My flamegraph title".to_owned())
        .subtitle("My flamegraph subtitle".to_owned());
    assert_eq!(config.kind, Some(FlamegraphKind::Differential));
    assert_eq!(config.negate_differential, Some(true));
    assert_eq!(config.normalize_differential, Some(false));
    assert_eq!(config.event_kinds, Some(vec![EventKind::EstimatedCycles, EventKind::Ir]));
    assert_eq!(config.direction, Some(Direction::BottomToTop));
    assert_eq!(config.title, Some("My flamegraph title".to_owned()));
    assert_eq!(config.subtitle, Some("My flamegraph subtitle".to_owned()));
    config.kind(FlamegraphKind::Off);
    assert_eq!(config.kind, Some(FlamegraphKind::Off));
    assert_eq!(config.title, Some("My flamegraph title".to_owned()));
}

#[test]
fn test_tool_builder() {
    let mut tool = Tool::new(ValgrindTool::DHAT);
    assert_eq!(
        tool,
        Tool {
            kind: ValgrindTool::DHAT,
            enable: None,
            show_log: None,
            raw_args: RawArgs::new(vec![]),
        }
    );
    tool.enable(true).args(&strings(&["--num-callers=5", "mode=heap", "  ", " -v ", ""]));
    tool.args(&strings(&["x"]));
    assert_eq!(tool.enable, Some(true));
    assert_eq!(tool.show_log, None);
    assert_eq!(
        tool.raw_args,
        RawArgs::new(strings(&["--num-callers=5", "--mode=heap", "-v", "--x"]))
    );
}

#[test]
fn test_raw_args() {
    assert!(RawArgs::new(vec![]).is_empty());
    let mut args = RawArgs::new(strings(&["as it is"]));
    assert!(!args.is_empty());
    args.extend_ignore_flag(&strings(&[" toggle-collect=something ", "--a=b", "\t", "-", "--"]));
    assert_eq!(
        args,
        RawArgs::new(strings(&["as it is", "--toggle-collect=something", "--a=b", "-", "--"]))
    );
}

#[test]
fn test_tools_update() {
    let mut tools = Tools::default();
    tools.update(tool(ValgrindTool::DHAT, &["a"]));
    tools.update(tool(ValgrindTool::Massif, &["b"]));
    tools.update(tool(ValgrindTool::Memcheck, &["c"]));
    tools.update(tool(ValgrindTool::DHAT, &["d"]));
    assert_eq!(
        tools,
        Tools(vec![
            tool(ValgrindTool::Massif, &["b"]),
            tool(ValgrindTool::Memcheck, &["c"]),
            tool(ValgrindTool::DHAT, &["d"]),
        ])
    );
    tools.update_all(vec![
        tool(ValgrindTool::BBV, &[]),
        tool(ValgrindTool::Massif, &["e"]),
        tool(ValgrindTool::BBV, &["f"]),
    ]);
    assert_eq!(
        tools,
        Tools(vec![
            tool(ValgrindTool::Memcheck, &["c"]),
            tool(ValgrindTool::DHAT, &["d"]),
            tool(ValgrindTool::Massif, &["e"]),
            tool(ValgrindTool::BBV, &["f"]),
        ])
    );
    tools.update_all(vec![]);
    assert_eq!(tools.0.len(), 4);
}

#[test]
fn test_library_benchmark_config_builder() {
    let mut config = LibraryBenchmarkConfig::default();
    assert_eq!(config.env_clear, None);
    assert!(config.envs.is_empty());
    assert_eq!(config.tools, Tools(vec![]));
    assert_eq!(config.tools_override, None);
    assert_eq!(config.output_format, None);
    assert_eq!(config.default_tool, None);

    let mut format = OutputFormat::default();
    format.truncate_description(Some(200));
    config
        .valgrind_args(&strings(&["--trace-children=no", "num-callers=25"]))
        .env_clear(false)
        .env("FOO".to_owned(), "BAR".to_owned())
        .envs(vec![
            ("MY_CUSTOM_VAR".to_owned(), "SOME_VALUE".to_owned()),
            ("FOO".to_owned(), "BAZ".to_owned()),
        ])
        .pass_through_env("HOME".to_owned())
        .pass_through_envs(strings(&["USER", "PATH"]))
        .tool(tool(ValgrindTool::DHAT, &[]))
        .tools(vec![tool(ValgrindTool::Massif, &[]), tool(ValgrindTool::DHAT, &["x"])])
        .output_format(format)
        .default_tool(ValgrindTool::Callgrind);

    assert_eq!(
        config.valgrind_args,
        RawArgs::new(strings(&["--trace-children=no", "--num-callers=25"]))
    );
    assert!(config.callgrind_args.is_empty());
    assert_eq!(config.env_clear, Some(false));
    assert_eq!(
        config.envs,
        vec![
            ("FOO".to_owned(), Some("BAR".to_owned())),
            ("MY_CUSTOM_VAR".to_owned(), Some("SOME_VALUE".to_owned())),
            ("FOO".to_owned(), Some("BAZ".to_owned())),
            ("HOME".to_owned(), None),
            ("USER".to_owned(), None),
            ("PATH".to_owned(), None),
        ]
    );
    assert_eq!(
        config.tools,
        Tools(vec![tool(ValgrindTool::Massif, &[]), tool(ValgrindTool::DHAT, &["x"])])
    );
    assert_eq!(config.tools_override, None);
    assert_eq!(config.output_format, Some(format));
    assert_eq!(config.default_tool, Some(ValgrindTool::Callgrind));
    assert!(config.flamegraph_config.is_none());
    assert!(config.regression_config.is_none());
}

#[test]
fn test_library_benchmark_config_tool_override() {
    let mut config = LibraryBenchmarkConfig::default();
    config.tool(tool(ValgrindTool::DHAT, &[]));
    config.tool_override(tool(ValgrindTool::Memcheck, &["a"]));
    assert_eq!(config.tools_override, Some(Tools(vec![tool(ValgrindTool::Memcheck, &["a"])])));
    config.tools_override(vec![
        tool(ValgrindTool::Massif, &[]),
        tool(ValgrindTool::Memcheck, &["b"]),
    ]);
    assert_eq!(
        config.tools_override,
        Some(Tools(vec![tool(ValgrindTool::Massif, &[]), tool(ValgrindTool::Memcheck, &["b"])]))
    );
    assert_eq!(config.tools, Tools(vec![tool(ValgrindTool::DHAT, &[])]));

    let mut config = LibraryBenchmarkConfig::default();
    config.tools_override(vec![]);
    assert_eq!(config.tools_override, Some(Tools(vec![])));
}

#[test]
fn test_black_box() {
    assert_eq!(black_box(42), 42);
    assert_eq!(black_box("text".to_owned()), "text");
}
