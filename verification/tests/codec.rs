use iai_callgrind::callgrind_map::{CallgrindMap, Id, Sentinel};
use iai_callgrind::event_kind::EventKind;
use iai_callgrind::framing::{read_fields, write_fields, write_number};
use iai_callgrind::metrics::Metrics;
use iai_callgrind::parser::HashMapParser;
use iai_callgrind::source_path::SourcePath;

fn chars(text: &str) -> Vec<char> {
    text.chars().collect()
}

fn text(chars: Vec<char>) -> String {
    chars.into_iter().collect()
}

fn sample() -> CallgrindMap {
    let content = "positions: line\nevents: Ir Dr sysCount\nob=/bin/app\nfl=/home/user/project/src/\
                   main.rs\nfn=main\n1 10 2 0\ncob=/lib/libc.so\ncfi=???\ncfn=memcpy\ncalls=3 \
                   7\n2 300 100 1\nfl=/rustc/0123456789abcdef/library/core/src/lib.rs\nfn=core::\
                   bench_it\n3 7\nfl=weird:name with 12:colons\nfn=\u{e9}t\u{e9}\n4 1 1 1\n";
    HashMapParser::new(Some(Sentinel::new("core::bench")), "/home/user/project")
        .parse_single("callgrind.out", content)
        .unwrap()
        .1
}

#[test]
fn test_write_number() {
    assert_eq!(text(write_number(0)), "0");
    assert_eq!(text(write_number(9)), "9");
    assert_eq!(text(write_number(10)), "10");
    assert_eq!(text(write_number(1905)), "1905");
    assert_eq!(text(write_number(u64::MAX)), "18446744073709551615");
}

#[test]
fn test_write_fields() {
    assert_eq!(text(write_fields(&vec![])), "");
    assert_eq!(text(write_fields(&vec![chars("")])), "0:");
    assert_eq!(text(write_fields(&vec![chars("abc"), chars(""), chars("1:2")])), "3:abc0:3:1:2");
    assert_eq!(text(write_fields(&vec![chars("0123456789")])), "10:0123456789");
    assert_eq!(text(write_fields(&vec![chars("\u{e9}\u{1F600}")])), "2:\u{e9}\u{1F600}");
}

#[test]
fn test_read_fields() {
    assert_eq!(read_fields(&chars("")), Some(vec![]));
    assert_eq!(
        read_fields(&chars("3:abc0:3:1:2")),
        Some(vec![chars("abc"), chars(""), chars("1:2")])
    );
    for broken in ["3", "3:ab", ":abc", "x:a", "1:ab", "-1:a", "+1:a", " 1:a",
        "18446744073709551616:a", "99999999999999999999999:a"]
    {
        assert_eq!(read_fields(&chars(broken)), None);
    }
}

#[test]
fn test_fields_round_trip() {
    let fields = vec![chars("a:b"), chars(""), chars("12:"), chars("\n\u{0}\u{10FFFF}"), chars(":")];
    assert_eq!(read_fields(&write_fields(&fields)), Some(fields));
}

#[test]
fn test_serialize_small_map() {
    let mut map = CallgrindMap::new(None);
    assert_eq!(map.serialize(), "1:-1:-1:0");

    let mut metrics = Metrics::new();
    metrics.add_value(EventKind::Dr, 25);
    metrics.add_value(EventKind::Ir, 7);
    let id = Id {
        obj: None,
        file: Some(SourcePath::Relative("src/a.rs".to_owned())),
        func: "f".to_owned(),
    };
    map.add_cost(id.clone(), &metrics);
    map.set_sentinel_key(Some(id));
    assert_eq!(
        map.serialize(),
        "1:-1:+1:-9:lsrc/a.rs1:f1:11:-9:lsrc/a.rs1:f1:21:12:251:01:7"
    );
}

#[test]
fn test_serialize_then_deserialize_gives_the_same_map() {
    let map = sample();
    assert_eq!(map.len(), 4);
    assert!(map.sentinel_key().is_some());
    let text = map.serialize();
    let read = CallgrindMap::deserialize(&text).unwrap();
    assert!(read.same_content(&map));
    assert_eq!(read.len(), map.len());
    for index in 0..map.len() {
        let (id, value) = map.entry(index);
        let (read_id, read_value) = read.entry(index);
        assert_eq!(read_id, id);
        assert_eq!(read_value.metrics.entries(), value.metrics.entries());
    }
    assert_eq!(read.sentinel(), map.sentinel());
    assert_eq!(read.sentinel_key(), map.sentinel_key());
    assert_eq!(read.serialize(), text);

    let empty = CallgrindMap::new(Some(Sentinel::new("")));
    let read = CallgrindMap::deserialize(&empty.serialize()).unwrap();
    assert!(read.same_content(&empty));
    assert!(!read.same_content(&map));
}

#[test]
fn test_deserialize_rejects_what_is_no_map() {
    for broken in [
        "",
        "1:-",
        "1:-1:-",
        "1:-1:-1:1",
        "1:x1:-1:0",
        "1:-1:x1:0",
        "1:-1:-1:01:0",
        "1:-1:-1:x",
        "1:-1:+1:-1:-1:f",
        "1:-1:-1:11:-1:-1:f1:11:01:x",
        "1:-1:-1:11:-1:-1:f1:12:291:1",
        "1:-1:-1:11:-1:z1:f1:0",
        "1:-1:-1:11:-1:-1:f1:21:01:11:01:2",
        "1:-1:-1:21:-1:-1:f1:01:-1:-1:f1:0",
        "not a map",
    ] {
        assert!(CallgrindMap::deserialize(broken).is_none());
    }
    assert!(CallgrindMap::deserialize("1:-1:-1:21:-1:-1:f1:01:-1:-1:g1:0").is_some());
    assert!(CallgrindMap::deserialize("1:-1:-1:11:-1:-1:f1:21:01:12:281:2").is_some());
}
