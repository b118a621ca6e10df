use iai_callgrind::callgrind_map::{CallgrindMap, Id, Sentinel};
use iai_callgrind::event_kind::EventKind;
use iai_callgrind::metrics::Metrics;
use iai_callgrind::parser::{HashMapParser, ParseErrorKind};
use iai_callgrind::percent::Percent;
use iai_callgrind::regression::{Error, Regression};
use iai_callgrind::source_path::SourcePath;

fn id(obj: Option<SourcePath>, file: Option<SourcePath>, func: &str) -> Id {
    Id { obj, file, func: func.to_owned() }
}

fn parse(content: &str) -> CallgrindMap {
    HashMapParser::new(None, "/home/user/project")
        .parse_single("callgrind.out", content)
        .unwrap()
        .1
}

fn kind_of_error(content: &str) -> (usize, ParseErrorKind) {
    let error = HashMapParser::new(None, "/home/user/project")
        .parse_single("callgrind.out", content)
        .unwrap_err();
    assert_eq!(error.path, "callgrind.out");
    (error.line_number, error.kind)
}

fn value(map: &CallgrindMap, id: &Id, kind: EventKind) -> Option<u64> {
    map.get_key_value(id).and_then(|(_, value)| value.metrics.get(kind))
}

#[test]
fn test_minimal_parse() {
    let content = "positions: line\nevents: Ir\nfn=foo\n1 100\n";
    let (header, map) = HashMapParser::new(None, "")
        .parse_single("callgrind.out", content)
        .unwrap();
    assert_eq!(header.positions, vec!["line".to_owned()]);
    assert_eq!(header.events, vec![EventKind::Ir]);
    assert_eq!(map.len(), 1);
    let (key, entry) = map.entry(0);
    assert_eq!(key, &id(None, None, "foo"));
    assert_eq!(entry.metrics.len(), 1);
    assert_eq!(entry.metrics.get(EventKind::Ir), Some(100));
    assert!(map.sentinel().is_none());
    assert!(map.sentinel_key().is_none());
}

#[test]
fn test_full_header_and_footer_are_read_over() {
    let content = "# callgrind format\nversion: 1\ncreator: callgrind-3.21.0\npid: 1234\ncmd: \
                   ./bench --arg=value\npart: 1\n\ndesc: I1 cache: 32768 B, 64 B, 8-way \
                   associative\ndesc: Trigger: Program termination\n\npositions: line\nevents: Ir \
                   Dr Dw\nsummary: 10 4 2\n\nob=/usr/lib/libc.so\nfl=???\nfn=main\n3 7 3 \
                   1\njump=2 5\njcnd=1/2 7\n4 3 1 1\n\ntotals: 10 4 2\n";
    let map = parse(content);
    assert_eq!(map.len(), 1);
    let key = id(
        Some(SourcePath::Absolute("/usr/lib/libc.so".to_owned())),
        Some(SourcePath::Unknown),
        "main",
    );
    assert_eq!(value(&map, &key, EventKind::Ir), Some(10));
    assert_eq!(value(&map, &key, EventKind::Dr), Some(4));
    assert_eq!(value(&map, &key, EventKind::Dw), Some(2));
}

#[test]
fn test_context_persists_across_lines() {
    let content = "positions: line\nevents: Ir\nob=/bin/app\nfl=/home/user/project/src/a.rs\nfn=a\n1 \
                   1\nfn=b\n2 2\nfl=/home/user/project/src/c.rs\nfn=c\n3 4\nfn=a\n5 8\n";
    let map = parse(content);
    let obj = Some(SourcePath::Absolute("/bin/app".to_owned()));
    let file_a = Some(SourcePath::Relative("src/a.rs".to_owned()));
    let file_c = Some(SourcePath::Relative("src/c.rs".to_owned()));
    assert_eq!(map.len(), 4);
    assert_eq!(value(&map, &id(obj.clone(), file_a.clone(), "a"), EventKind::Ir), Some(1));
    assert_eq!(value(&map, &id(obj.clone(), file_a, "b"), EventKind::Ir), Some(2));
    assert_eq!(value(&map, &id(obj.clone(), file_c.clone(), "c"), EventKind::Ir), Some(4));
    assert_eq!(value(&map, &id(obj, file_c, "a"), EventKind::Ir), Some(8));
}

#[test]
fn test_inlined_file_replaces_file_and_keeps_function() {
    let content = "positions: line\nevents: Ir\nfl=/a.rs\nfn=f\n1 1\nfi=/b.rs\n2 2\nfe=/a.rs\n3 4\n";
    let map = parse(content);
    let in_a = id(None, Some(SourcePath::Absolute("/a.rs".to_owned())), "f");
    let in_b = id(None, Some(SourcePath::Absolute("/b.rs".to_owned())), "f");
    assert_eq!(map.len(), 2);
    assert_eq!(value(&map, &in_a, EventKind::Ir), Some(5));
    assert_eq!(value(&map, &in_b, EventKind::Ir), Some(2));
}

#[test]
fn test_cost_after_call_site_goes_to_callee() {
    let content = "positions: line\nevents: Ir\nfl=/a.rs\nfn=main\n1 10\ncfn=helper\ncalls=2 \
                   7\n2 300\n3 5\n";
    let map = parse(content);
    let file = Some(SourcePath::Absolute("/a.rs".to_owned()));
    assert_eq!(map.len(), 2);
    assert_eq!(value(&map, &id(None, file.clone(), "main"), EventKind::Ir), Some(15));
    assert_eq!(value(&map, &id(None, file, "helper"), EventKind::Ir), Some(300));
}

#[test]
fn test_callee_object_and_file_are_used_once() {
    let content = "positions: line\nevents: Ir\nob=/bin/app\nfl=/a.rs\nfn=main\ncob=/lib/x.so\ncfi=/x.\
                   c\ncfn=x\ncalls=1 1\n1 3\ncfn=y\ncalls=1 1\n2 4\n";
    let map = parse(content);
    let x = id(
        Some(SourcePath::Absolute("/lib/x.so".to_owned())),
        Some(SourcePath::Absolute("/x.c".to_owned())),
        "x",
    );
    let y = id(
        Some(SourcePath::Absolute("/bin/app".to_owned())),
        Some(SourcePath::Absolute("/a.rs".to_owned())),
        "y",
    );
    assert_eq!(map.len(), 2);
    assert_eq!(value(&map, &x, EventKind::Ir), Some(3));
    assert_eq!(value(&map, &y, EventKind::Ir), Some(4));
}

#[test]
fn test_position_columns_are_skipped_and_missing_costs_are_zero() {
    let content = "positions: instr line\nevents: Ir Dr Dw\nfn=f\n0x10 7 5 2\n0x14 8 1\n";
    let map = parse(content);
    let key = id(None, None, "f");
    assert_eq!(value(&map, &key, EventKind::Ir), Some(6));
    assert_eq!(value(&map, &key, EventKind::Dr), Some(2));
    assert_eq!(value(&map, &key, EventKind::Dw), Some(0));
}

#[test]
fn test_costs_saturate() {
    let content = "positions: line\nevents: Ir\nfn=f\n1 18446744073709551615\n2 1\n";
    let map = parse(content);
    assert_eq!(value(&map, &id(None, None, "f"), EventKind::Ir), Some(u64::MAX));
}

#[test]
fn test_sentinel_resolution() {
    let content = "positions: line\nevents: Ir\nfl=/a.rs\nfn=main\n1 1\nfn=bench_it\n2 2\n";
    let parser = HashMapParser::new(Some(Sentinel::new("bench_it")), "");
    let (_, map) = parser.parse_single("callgrind.out", content).unwrap();
    assert_eq!(map.sentinel(), &Some(Sentinel::new("bench_it")));
    assert_eq!(
        map.sentinel_key(),
        &Some(id(None, Some(SourcePath::Absolute("/a.rs".to_owned())), "bench_it"))
    );
}

#[test]
fn test_sentinel_first_match_wins() {
    let content = "positions: line\nevents: Ir\nfl=/a.rs\nfn=bench_it\n1 1\nfl=/b.rs\nfn=bench_it\n2 \
                   2\n";
    let parser = HashMapParser::new(Some(Sentinel::new("bench_it")), "");
    let (_, map) = parser.parse_single("callgrind.out", content).unwrap();
    assert_eq!(
        map.sentinel_key(),
        &Some(id(None, Some(SourcePath::Absolute("/a.rs".to_owned())), "bench_it"))
    );
}

#[test]
fn test_sentinel_without_match() {
    let content = "positions: line\nevents: Ir\nfn=main\n1 1\n";
    let parser = HashMapParser::new(Some(Sentinel::new("bench_it")), "");
    let (_, map) = parser.parse_single("callgrind.out", content).unwrap();
    assert!(map.sentinel_key().is_none());
}

#[test]
fn test_sentinel_matches_prefix() {
    let sentinel = Sentinel::new("my_mod::bench");
    assert!(sentinel.matches("my_mod::bench"));
    assert!(sentinel.matches("my_mod::bench::h1234"));
    assert!(!sentinel.matches("main"));
    assert!(!sentinel.matches("my_mod::benc"));
    assert_eq!(sentinel.pattern(), "my_mod::bench");
}

#[test]
fn test_empty_trace_is_rejected() {
    assert_eq!(kind_of_error(""), (1, ParseErrorKind::MissingPositions));
}

#[test]
fn test_header_without_events_is_rejected() {
    assert_eq!(kind_of_error("positions: line\nfn=foo\n1 1"), (2, ParseErrorKind::MissingEvents));
    assert_eq!(kind_of_error("positions: line"), (1, ParseErrorKind::MissingEvents));
}

#[test]
fn test_header_without_positions_is_rejected() {
    assert_eq!(kind_of_error("events: Ir\nfn=foo\n1 1"), (2, ParseErrorKind::MissingPositions));
}

#[test]
fn test_unknown_event_is_rejected() {
    assert_eq!(
        kind_of_error("positions: line\nevents: Ir Nope\nfn=foo\n1 1 1"),
        (2, ParseErrorKind::UnknownEvent)
    );
}

#[test]
fn test_malformed_line_is_rejected_with_the_line() {
    let error = HashMapParser::new(None, "")
        .parse_single("some/callgrind.out", "positions: line\nevents: Ir\nfn=foo\n  what is this  \n")
        .unwrap_err();
    assert_eq!(error.path, "some/callgrind.out");
    assert_eq!(error.line_number, 4);
    assert_eq!(error.line, "  what is this  ");
    assert_eq!(error.kind, ParseErrorKind::MalformedLine);
    assert_eq!(
        error.message(),
        "Error parsing file 'some/callgrind.out': malformed line in line 4: '  what is this  '"
    );

    assert_eq!(
        kind_of_error("positions: line\nevents: Ir\nfn=foo\nxy=3\n"),
        (4, ParseErrorKind::MalformedLine)
    );
}

#[test]
fn test_invalid_cost_is_rejected() {
    assert_eq!(
        kind_of_error("positions: line\nevents: Ir\nfn=foo\n1 abc\n"),
        (4, ParseErrorKind::InvalidCost)
    );
    assert_eq!(
        kind_of_error("positions: line\nevents: Ir\nfn=foo\n1 18446744073709551616\n"),
        (4, ParseErrorKind::InvalidCost)
    );
}

#[test]
fn test_cost_before_function_is_rejected() {
    assert_eq!(
        kind_of_error("positions: line\nevents: Ir\nfl=/a.rs\n1 1\n"),
        (4, ParseErrorKind::MissingFunction)
    );
}

#[test]
fn test_calls_without_callee_is_rejected() {
    assert_eq!(
        kind_of_error("positions: line\nevents: Ir\nfn=main\ncalls=1 1\n1 1\n"),
        (4, ParseErrorKind::CallsWithoutCallee)
    );
}

#[test]
fn test_invalid_calls_is_rejected() {
    assert_eq!(
        kind_of_error("positions: line\nevents: Ir\nfn=main\ncfn=f\ncalls=many 1\n1 1\n"),
        (5, ParseErrorKind::InvalidCalls)
    );
}

#[test]
fn test_call_site_without_cost_line_is_rejected() {
    assert_eq!(
        kind_of_error("positions: line\nevents: Ir\nfn=main\ncfn=f\ncalls=1 1\nfn=other\n1 1\n"),
        (6, ParseErrorKind::MissingCostLine)
    );
    assert_eq!(
        kind_of_error("positions: line\nevents: Ir\nfn=main\ncfn=f\ncalls=1 1"),
        (5, ParseErrorKind::MissingCostLine)
    );
}

#[test]
fn test_multiple_traces_are_merged_in_any_order() {
    let first = parse("positions: line\nevents: Ir Dr\nfn=a\n1 1 2\nfn=b\n2 10 20\n");
    let second = parse("positions: line\nevents: Ir\nfn=b\n1 5\nfn=c\n2 7\n");

    let mut forward = CallgrindMap::new(None);
    forward.add_mut(&first);
    forward.add_mut(&second);
    let mut backward = CallgrindMap::new(None);
    backward.add_mut(&second);
    backward.add_mut(&first);

    for map in [&forward, &backward] {
        assert_eq!(map.len(), 3);
        assert_eq!(value(map, &id(None, None, "a"), EventKind::Ir), Some(1));
        assert_eq!(value(map, &id(None, None, "a"), EventKind::Dr), Some(2));
        assert_eq!(value(map, &id(None, None, "b"), EventKind::Ir), Some(15));
        assert_eq!(value(map, &id(None, None, "b"), EventKind::Dr), Some(20));
        assert_eq!(value(map, &id(None, None, "c"), EventKind::Ir), Some(7));
        assert_eq!(value(map, &id(None, None, "c"), EventKind::Dr), None);
    }
    assert!(first.get_key_value(&id(None, None, "c")).is_none());
}

#[test]
fn test_callgrind_map_is_empty() {
    let mut map = CallgrindMap::new(None);
    assert!(map.is_empty());
    let mut metrics = Metrics::new();
    metrics.add_value(EventKind::Ir, 1);
    map.add_cost(id(None, None, "f"), &metrics);
    assert!(!map.is_empty());
}

#[test]
fn test_error_messages() {
    let error = HashMapParser::new(None, "").parse_single("callgrind.out", "").unwrap_err();
    assert_eq!(
        Error::ParseError(error).message(),
        "Error parsing file 'callgrind.out': the header does not name the positions in line 1: ''"
    );
    assert_eq!(
        Error::IoError("a/b".to_owned(), "No such file".to_owned()).message(),
        "Error reading file 'a/b': No such file"
    );
    assert_eq!(
        Error::InvalidConfig("Unknown event kind: 'x'".to_owned()).message(),
        "Invalid configuration: Unknown event kind: 'x'"
    );
    let first = Regression {
        event_kind: EventKind::Ir,
        old: 100,
        new: 120,
        pct_hundredths: Some(2000),
        limit: Percent { negative: false, digits: 10, scale: 0 },
    };
    let second = Regression {
        event_kind: EventKind::L1hits,
        old: 18446744073709551615,
        new: 0,
        pct_hundredths: Some(-10000),
        limit: Percent { negative: true, digits: 5, scale: 3 },
    };
    assert_eq!(first.message(), "Ir (100 -> 120) exceeds the limit of 10%");
    assert_eq!(
        Error::RegressionError(vec![first, second]).message(),
        "Performance has regressed:\n  Ir (100 -> 120) exceeds the limit of 10%\n  L1hits \
         (18446744073709551615 -> 0) exceeds the limit of -0.005%"
    );
    assert_eq!(Error::RegressionError(vec![]).message(), "Performance has regressed:");
}

#[test]
fn test_reasons() {
    let kinds = [
        ParseErrorKind::MissingPositions,
        ParseErrorKind::MissingEvents,
        ParseErrorKind::UnknownEvent,
        ParseErrorKind::MalformedLine,
        ParseErrorKind::InvalidCost,
        ParseErrorKind::MissingFunction,
        ParseErrorKind::CallsWithoutCallee,
        ParseErrorKind::InvalidCalls,
        ParseErrorKind::MissingCostLine,
    ];
    for (index, kind) in kinds.iter().enumerate() {
        assert!(!kind.reason().is_empty());
        for other in &kinds[index + 1..] {
            assert_ne!(kind.reason(), other.reason());
        }
    }
}

#[test]
fn test_line_endings_comments_and_blank_lines() {
    let content = "# callgrind format\r\nversion: 1\r\ncmd: ./bench --filter=a=b\r\ndesc: Option: \
                   --cache-sim=yes\r\npositions: line\r\nevents: Ir\r\n\r\n# body\r\n\tfn=main\r\n\
                   cfn=callee\r\ncalls=1 2\r\n\r\n# the cost of the call\r\n3 40\r\n   \r\n5 6  \
                   \r\n";
    let map = parse(content);
    assert_eq!(map.len(), 2);
    assert_eq!(value(&map, &id(None, None, "main"), EventKind::Ir), Some(6));
    assert_eq!(value(&map, &id(None, None, "callee"), EventKind::Ir), Some(40));
}

#[test]
fn test_header_lines_without_separator_are_read_over() {
    let content = "callgrind format\nsome text without separator\npositions: line\nevents: Ir\n\
                   fn=f\n1 2\n";
    assert_eq!(value(&parse(content), &id(None, None, "f"), EventKind::Ir), Some(2));
}

#[test]
fn test_header_directives_are_not_accepted_in_the_body() {
    assert_eq!(
        kind_of_error("positions: line\nevents: Ir\nfn=f\nevents: Dr\n1 2\n"),
        (4, ParseErrorKind::MalformedLine)
    );
}

#[test]
fn test_repeated_events_are_summed() {
    let content = "positions: line\nevents: Ir Dr Ir\nfn=f\n1 2 3 4\n";
    let map = parse(content);
    assert_eq!(value(&map, &id(None, None, "f"), EventKind::Ir), Some(6));
    assert_eq!(value(&map, &id(None, None, "f"), EventKind::Dr), Some(3));
}

#[test]
fn test_parse_all() {
    let parser = HashMapParser::new(Some(Sentinel::new("bench")), "/project");
    let traces = vec![
        ("a.out".to_owned(), "positions: line\nevents: Ir\nfn=main\n1 1\n".to_owned()),
        (
            "b.out".to_owned(),
            "positions: line\nevents: Ir\nfl=/project/b.rs\nfn=bench_b\n1 2\nfn=main\n2 3\n"
                .to_owned(),
        ),
        (
            "c.out".to_owned(),
            "positions: line\nevents: Ir Dr\nfl=/project/c.rs\nfn=bench_c\n1 5 6\n".to_owned(),
        ),
    ];
    let total = parser.parse_all(&traces).unwrap();
    let b = id(None, Some(SourcePath::Relative("b.rs".to_owned())), "bench_b");
    let c = id(None, Some(SourcePath::Relative("c.rs".to_owned())), "bench_c");
    let main_b = id(None, Some(SourcePath::Relative("b.rs".to_owned())), "main");
    assert_eq!(total.len(), 4);
    assert_eq!(value(&total, &id(None, None, "main"), EventKind::Ir), Some(1));
    assert_eq!(value(&total, &main_b, EventKind::Ir), Some(3));
    assert_eq!(value(&total, &b, EventKind::Ir), Some(2));
    assert_eq!(value(&total, &c, EventKind::Dr), Some(6));
    assert_eq!(total.sentinel(), &Some(Sentinel::new("bench")));
    assert_eq!(total.sentinel_key(), &Some(b.clone()));

    let mut reversed = traces.clone();
    reversed.reverse();
    let other = parser.parse_all(&reversed).unwrap();
    assert_eq!(other.sentinel_key(), &Some(c));
    let mut same_key = other.clone();
    same_key.set_sentinel_key(Some(b));
    assert!(same_key == total);
    assert!(other != total);

    assert!(parser.parse_all(&vec![]).unwrap().is_empty());
}

#[test]
fn test_parse_all_reports_the_first_rejected_trace() {
    let parser = HashMapParser::default();
    let traces = vec![
        ("a.out".to_owned(), "positions: line\nevents: Ir\nfn=main\n1 1\n".to_owned()),
        ("b.out".to_owned(), "positions: line\nevents: Ir\nfn=main\nnothing\n".to_owned()),
        ("c.out".to_owned(), "".to_owned()),
    ];
    let error = parser.parse_all(&traces).unwrap_err();
    assert_eq!(error.path, "b.out");
    assert_eq!(error.line_number, 4);
    assert_eq!(error.line, "nothing");
    assert_eq!(error.kind, ParseErrorKind::MalformedLine);
}

#[test]
fn test_maps_compare_by_content() {
    let first = parse("positions: line\nevents: Ir Dr\nfn=a\n1 1 2\nfn=b\n2 3 4\n");
    let second = parse("positions: line\nevents: Dr Ir\nfn=b\n2 4 3\nfn=a\n1 2 1\n");
    let third = parse("positions: line\nevents: Dr Ir\nfn=b\n2 4 3\nfn=a\n1 2 2\n");
    assert!(first == second);
    assert!(first != third);
    assert!(first.clone() == first);
    assert!(CallgrindMap::default() == CallgrindMap::new(None));
    assert!(CallgrindMap::default() != CallgrindMap::new(Some(Sentinel::new("x"))));
}

#[test]
fn test_sentinel_resolves_to_the_matching_function_only() {
    let content = "# callgrind format\nversion: 1\npositions: line\nevents: Ir\nfn=main\n1 \
                   10\nfn=bench_it\n2 20\n";
    let parser = HashMapParser::new(Some(Sentinel::new("bench_it")), "/proj");
    let (_, map) = parser.parse_single("callgrind.out", content).unwrap();
    assert_eq!(map.sentinel_key(), &Some(id(None, None, "bench_it")));
    assert_ne!(map.sentinel_key(), &Some(id(None, None, "main")));
    assert_eq!(map.sentinel(), &parser.sentinel);
    assert_eq!(map.len(), 2);
    assert_eq!(value(&map, &id(None, None, "main"), EventKind::Ir), Some(10));
    assert_eq!(value(&map, &id(None, None, "bench_it"), EventKind::Ir), Some(20));
}

#[test]
fn test_numbers_and_white_space_are_read_as_std_reads_them() {
    let content = "positions: line\nevents:\u{a0}Ir Dr\u{a0}\n\u{2003}fn=f\n1\u{a0}+5\u{3000}6\n\
                   cfn=g\ncalls=+2 1\n2 1 1\n";
    let map = parse(content);
    assert_eq!(value(&map, &id(None, None, "f"), EventKind::Ir), Some(5));
    assert_eq!(value(&map, &id(None, None, "f"), EventKind::Dr), Some(6));
    assert_eq!(value(&map, &id(None, None, "g"), EventKind::Ir), Some(1));
    assert_eq!(
        kind_of_error("positions: line\nevents: Ir\nfn=f\ncfn=g\ncalls=2\u{a0}1\n2 1\n"),
        (5, ParseErrorKind::InvalidCalls)
    );
    assert_eq!(
        kind_of_error("positions: line\nevents: Ir\u{a0}Dr\nfn=f\n1 2\n"),
        (2, ParseErrorKind::UnknownEvent)
    );
}

#[test]
fn test_merged_entries_keep_their_order() {
    let mut first = parse("positions: line\nevents: Ir Dr\nfn=a\n1 1 2\nfn=b\n2 3 4\n");
    let second = parse("positions: line\nevents: Dw Ir\nfn=c\n1 1 1\nfn=a\n2 5 6\nfn=d\n3 7\n");
    first.add_mut(&second);
    let names: Vec<&str> = first.entries().iter().map(|(id, _)| id.func.as_str()).collect();
    assert_eq!(names, vec!["a", "b", "c", "d"]);
    let (_, a) = first.entry(0);
    assert_eq!(
        a.metrics.entries(),
        &vec![(EventKind::Ir, 7), (EventKind::Dr, 2), (EventKind::Dw, 5)]
    );
}
