use iai_callgrind::event_kind::{kind_at, kind_position, kinds, EventKind};
use iai_callgrind::metrics::Metrics;
use iai_callgrind::runs_on;
use iai_callgrind::rust_version::{self, Cmp};
use iai_callgrind::text::{
    chars_of, compare_text, contains, is_ascii_space_char, is_space_char, join, parse_digits,
    parse_u64, split_ascii_words, split_at_first, split_on, split_words, starts_with, string_of,
    to_lower, trim,
};

fn chars(text: &str) -> Vec<char> {
    text.chars().collect()
}

fn texts(parts: Vec<Vec<char>>) -> Vec<String> {
    parts.into_iter().map(|p| p.into_iter().collect()).collect()
}

#[test]
fn test_runs_on_serialize() {
    assert_eq!(
        runs_on::serialize(&Some((true, "x86_64-unknown-linux-gnu".to_owned()))),
        Some(("".to_owned(), "x86_64-unknown-linux-gnu".to_owned()))
    );
    assert_eq!(
        runs_on::serialize(&Some((false, "x86_64-unknown-linux-gnu".to_owned()))),
        Some(("!".to_owned(), "x86_64-unknown-linux-gnu".to_owned()))
    );
    assert_eq!(runs_on::serialize(&None), None);
}

#[test]
fn test_runs_on_deserialize() {
    assert_eq!(runs_on::deserialize("linux"), Some((true, "linux".to_owned())));
    assert_eq!(runs_on::deserialize("  linux \n"), Some((true, "linux".to_owned())));
    assert_eq!(runs_on::deserialize("!linux"), Some((false, "linux".to_owned())));
    assert_eq!(runs_on::deserialize(" !  linux  "), Some((false, "linux".to_owned())));
    assert_eq!(runs_on::deserialize("!!linux"), Some((false, "!linux".to_owned())));
    assert_eq!(runs_on::deserialize(""), Some((true, "".to_owned())));
    assert_eq!(runs_on::deserialize("!"), Some((false, "".to_owned())));
}

#[test]
fn test_rust_version_serialize() {
    let cases = [
        (Cmp::Eq, "="),
        (Cmp::Ne, "!="),
        (Cmp::Lt, "<"),
        (Cmp::Le, "<="),
        (Cmp::Ge, ">="),
        (Cmp::Gt, ">"),
    ];
    for (how, sign) in cases {
        assert_eq!(
            rust_version::serialize(&Some((how, "1.70.0".to_owned()))),
            Some((sign.to_owned(), "1.70.0".to_owned()))
        );
    }
    assert_eq!(rust_version::serialize(&None), None);
}

#[test]
fn test_rust_version_deserialize() {
    let cases = [
        (">=1.70.0", Cmp::Ge, "1.70.0"),
        (">1.70.0", Cmp::Gt, "1.70.0"),
        ("<=1.70.0", Cmp::Le, "1.70.0"),
        ("<1.70.0", Cmp::Lt, "1.70.0"),
        ("=1.70.0", Cmp::Eq, "1.70.0"),
        ("!=1.70.0", Cmp::Ne, "1.70.0"),
        ("  >=   1.70.0  ", Cmp::Ge, "1.70.0"),
        ("> =1", Cmp::Gt, "=1"),
        ("==1", Cmp::Eq, "=1"),
        ("<", Cmp::Lt, ""),
    ];
    for (text, how, version) in cases {
        assert_eq!(rust_version::deserialize(text), Ok(Some((how, version.to_owned()))));
    }
    for text in ["1.70.0", "", "!1.70.0", "~1.70", "v>=1"] {
        assert_eq!(rust_version::deserialize(text), Err("invalid input".to_owned()));
    }
}

#[test]
fn test_event_kind_names() {
    let all = kinds();
    assert_eq!(all.len(), 29);
    for (position, kind) in all.iter().enumerate() {
        assert_eq!(EventKind::from_name(&chars(kind.name())), Some(*kind));
        assert_eq!(EventKind::from_str_ignore_case(kind.name()), Some(*kind));
        assert_eq!(EventKind::from_str_ignore_case(&kind.name().to_uppercase()), Some(*kind));
        assert_eq!(EventKind::from_str_ignore_case(&kind.name().to_lowercase()), Some(*kind));
        assert_eq!(kind_position(*kind), position as u64);
        assert_eq!(kind_at(position as u64), Some(*kind));
    }
    assert_eq!(kind_at(29), None);
    assert_eq!(EventKind::Ir.name(), "Ir");
    assert_eq!(EventKind::SysCount.name(), "sysCount");
    assert_eq!(EventKind::from_name(&chars("ir")), None);
    assert_eq!(EventKind::from_name(&chars("SysCount")), None);
    assert_eq!(EventKind::from_str_ignore_case("estimatedcycles"), Some(EventKind::EstimatedCycles));
    assert_eq!(EventKind::from_str_ignore_case("I1MR"), Some(EventKind::I1mr));
    assert_eq!(EventKind::from_str_ignore_case(" ir"), None);
    assert_eq!(EventKind::from_str_ignore_case(""), None);
}

#[test]
fn test_metrics_add() {
    let mut first = Metrics::new();
    assert!(first.is_empty());
    first.add_value(EventKind::Ir, 1);
    first.add_value(EventKind::Dr, 2);
    first.add_value(EventKind::Ir, 10);
    assert_eq!(first.len(), 2);
    assert_eq!(first.entries(), &vec![(EventKind::Ir, 11), (EventKind::Dr, 2)]);
    assert_eq!(first.entry(1), (EventKind::Dr, 2));
    assert_eq!(first.get(EventKind::Dw), None);
    assert_eq!(first.value_of(EventKind::Dw), 0);
    assert_eq!(first.value_of(EventKind::Ir), 11);

    let mut second = Metrics::new();
    second.add_value(EventKind::Dw, 5);
    second.add_value(EventKind::Ir, u64::MAX - 5);

    let mut one_way = first.clone();
    one_way.add(&second);
    let mut other_way = second.clone();
    other_way.add(&first);
    assert_eq!(
        one_way.entries(),
        &vec![(EventKind::Ir, u64::MAX), (EventKind::Dr, 2), (EventKind::Dw, 5)]
    );
    assert_eq!(
        other_way.entries(),
        &vec![(EventKind::Dw, 5), (EventKind::Ir, u64::MAX), (EventKind::Dr, 2)]
    );
    assert!(one_way.same_counts(&other_way));
    assert!(!one_way.same_counts(&first));

    let mut zero = Metrics::new();
    zero.add_value(EventKind::Ir, 0);
    assert!(!zero.same_counts(&Metrics::new()));
    assert!(!zero.is_empty());
}

#[test]
fn test_metrics_addition_is_associative() {
    let make = |values: &[(EventKind, u64)]| {
        let mut metrics = Metrics::new();
        for (kind, value) in values {
            metrics.add_value(*kind, *value);
        }
        metrics
    };
    let a = make(&[(EventKind::Ir, u64::MAX - 10), (EventKind::Dr, 1)]);
    let b = make(&[(EventKind::Ir, 8), (EventKind::Dw, 2)]);
    let c = make(&[(EventKind::Ir, 8), (EventKind::Dr, 3), (EventKind::Bc, 4)]);

    let mut left = a.clone();
    left.add(&b);
    left.add(&c);
    let mut right_inner = b.clone();
    right_inner.add(&c);
    let mut right = a.clone();
    right.add(&right_inner);
    assert!(left.same_counts(&right));
    assert_eq!(left.value_of(EventKind::Ir), u64::MAX);
    assert_eq!(left.value_of(EventKind::Dr), 4);
}

#[test]
fn test_metrics_from_entries() {
    let metrics = Metrics::from_entries(vec![(EventKind::Dr, 1), (EventKind::Ir, 2)]).unwrap();
    assert_eq!(metrics.entries(), &vec![(EventKind::Dr, 1), (EventKind::Ir, 2)]);
    assert!(Metrics::from_entries(vec![(EventKind::Dr, 1), (EventKind::Ir, 2), (EventKind::Dr, 1)])
        .is_none());
    assert!(Metrics::from_entries(vec![]).unwrap().is_empty());
}

#[test]
fn test_text_helpers() {
    assert_eq!(string_of(&chars_of("h\u{e9}llo")), "h\u{e9}llo");
    assert_eq!(string_of(&trim(&chars(" \t a b \r\n"))), "a b");
    assert_eq!(string_of(&trim(&chars(" \t "))), "");
    assert_eq!(texts(split_words(&chars("  1   22\t333 \n"))), vec!["1", "22", "333"]);
    assert!(split_words(&chars("   ")).is_empty());
    assert_eq!(texts(split_on(&chars("a,,b,"), ',')), vec!["a", "", "b", ""]);
    assert_eq!(texts(split_on(&chars(""), ',')), vec![""]);
    assert_eq!(
        split_at_first(&chars("key=value=more"), '='),
        Some((chars("key"), chars("value=more")))
    );
    assert_eq!(split_at_first(&chars("="), '='), Some((chars(""), chars(""))));
    assert_eq!(split_at_first(&chars("none"), '='), None);
    assert_eq!(string_of(&join(&vec![chars("a"), chars(""), chars("b")], '/')), "a//b");
    assert_eq!(string_of(&join(&vec![], '/')), "");
    assert_eq!(string_of(&to_lower(&chars("AbC-\u{c9}Z9"))), "abc-\u{c9}z9");
    assert!(starts_with(&chars("abc"), &chars("ab")));
    assert!(starts_with(&chars("abc"), &chars("")));
    assert!(!starts_with(&chars("ab"), &chars("abc")));
    assert!(contains(&chars("hello world"), &chars("o w")));
    assert!(!contains(&chars("hello world"), &chars("ow")));
    assert_eq!(compare_text(&chars("a"), &chars("b")), -1);
    assert_eq!(compare_text(&chars("b"), &chars("a")), 1);
    assert_eq!(compare_text(&chars("ab"), &chars("ab")), 0);
    assert_eq!(compare_text(&chars(""), &chars("a")), -1);
}

#[test]
fn test_parse_u64() {
    assert_eq!(parse_u64(&chars("0")), Some(0));
    assert_eq!(parse_u64(&chars("007")), Some(7));
    assert_eq!(parse_u64(&chars("18446744073709551615")), Some(u64::MAX));
    assert_eq!(parse_u64(&chars("18446744073709551616")), None);
    assert_eq!(parse_u64(&chars("184467440737095516150")), None);
    assert_eq!(parse_u64(&chars("")), None);
    assert_eq!(parse_u64(&chars("+1")), Some(1));
    assert_eq!(parse_u64(&chars("+18446744073709551615")), Some(u64::MAX));
    assert_eq!(parse_u64(&chars("+18446744073709551616")), None);
    assert_eq!(parse_u64(&chars("+")), None);
    assert_eq!(parse_u64(&chars("++1")), None);
    assert_eq!(parse_u64(&chars("+-1")), None);
    assert_eq!(parse_u64(&chars("1+")), None);
    assert_eq!(parse_u64(&chars("-1")), None);
    assert_eq!(parse_u64(&chars("1 ")), None);
    assert_eq!(parse_u64(&chars("\u{661}")), None);
}

#[test]
fn test_numbers_agree_with_std() {
    for text in ["0", "7", "+7", "007", "+", "", "-7", "7 ", " 7", "1_000", "18446744073709551615",
        "18446744073709551616", "+0", "++0", "0x10", "\u{661}"]
    {
        assert_eq!(parse_u64(&chars(text)), text.parse::<u64>().ok());
    }
    assert_eq!(parse_digits(&chars("7")), Some(7));
    assert_eq!(parse_digits(&chars("+7")), None);
    assert_eq!(parse_digits(&chars("")), None);
}

#[test]
fn test_white_space_agrees_with_std() {
    for code in 0..0x3100u32 {
        if let Some(c) = char::from_u32(code) {
            assert_eq!(is_space_char(c), c.is_whitespace());
            assert_eq!(is_ascii_space_char(c), c.is_ascii_whitespace());
        }
    }
    assert!(!is_space_char('\u{feff}'));
    assert!(!is_space_char('\u{10ffff}'));
    for text in ["", " a b ", "\u{a0}Ir=10\u{2003}", "\u{b}a\u{b}b\u{c}", "a\u{3000}b\u{85}c",
        "\t\r\n x\u{1680}y \u{2028}\u{2029}", "\u{200b}a"]
    {
        assert_eq!(string_of(&trim(&chars(text))), text.trim());
        let words: Vec<String> = text.split_whitespace().map(str::to_owned).collect();
        assert_eq!(texts(split_words(&chars(text))), words);
        let words: Vec<String> = text.split_ascii_whitespace().map(str::to_owned).collect();
        assert_eq!(texts(split_ascii_words(&chars(text))), words);
    }
}
