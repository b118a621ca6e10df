use iai_callgrind::args::{BaselineName, CommandLineArgs};
use iai_callgrind::baseline::{BaselineMode, BaselineStore, BenchmarkKey};
use iai_callgrind::callgrind_map::{CallgrindMap, Id, Sentinel};
use iai_callgrind::event_kind::EventKind;
use iai_callgrind::metrics::Metrics;
use iai_callgrind::percent::Percent;
use iai_callgrind::regression::RegressionConfig;

fn key(function: &str, id: Option<&str>) -> BenchmarkKey {
    BenchmarkKey {
        file: "benches/my_bench.rs".to_owned(),
        group: "my_group".to_owned(),
        function: function.to_owned(),
        id: id.map(str::to_owned),
    }
}

fn name(text: &str) -> BaselineName {
    BaselineName::from_str(text).unwrap()
}

fn func(name: &str) -> Id {
    Id { obj: None, file: None, func: name.to_owned() }
}

fn map(instructions: u64) -> CallgrindMap {
    let mut metrics = Metrics::new();
    metrics.add_value(EventKind::Ir, instructions);
    let mut map = CallgrindMap::new(Some(Sentinel::new("bench")));
    map.add_cost(func("bench"), &metrics);
    map.add_cost(func("other"), &metrics);
    map.set_sentinel_key(Some(func("bench")));
    map
}

fn instructions(map: &CallgrindMap) -> u64 {
    map.primary().value_of(EventKind::Ir)
}

fn options(args: &[&str]) -> CommandLineArgs {
    CommandLineArgs::try_parse_from(args.iter().map(|s| (*s).to_owned()).collect()).unwrap()
}

#[test]
fn test_store_save_and_load() {
    let mut store = BaselineStore::new();
    assert_eq!(store.len(), 0);
    assert!(store.load(&key("f", None), &name("default")).is_none());

    store.save(key("f", None), name("default"), map(1));
    store.save(key("f", Some("a")), name("default"), map(2));
    store.save(key("f", None), name("other"), map(3));
    store.save(key("g", None), name("default"), map(4));
    assert_eq!(store.len(), 4);
    assert_eq!(instructions(store.load(&key("f", None), &name("default")).unwrap()), 1);
    assert_eq!(instructions(store.load(&key("f", Some("a")), &name("default")).unwrap()), 2);
    assert_eq!(instructions(store.load(&key("f", None), &name("other")).unwrap()), 3);
    assert_eq!(instructions(store.load(&key("g", None), &name("default")).unwrap()), 4);
    assert!(store.load(&key("g", None), &name("other")).is_none());
    assert!(store.load(&key("f", Some("b")), &name("default")).is_none());

    store.save(key("f", None), name("default"), map(5));
    assert_eq!(store.len(), 4);
    assert_eq!(instructions(store.load(&key("f", None), &name("default")).unwrap()), 5);
    assert_eq!(instructions(store.load(&key("f", None), &name("other")).unwrap()), 3);
    assert_eq!(store.baseline(0).name.as_str(), "default");
    assert_eq!(store.baseline(0).key, key("f", None));
}

#[test]
fn test_save_baseline_overwrites_even_if_the_check_fails() {
    let mut store = BaselineStore::new();
    let config = RegressionConfig::default();
    let mode = BaselineMode::Save(name("main"));

    let found = store.compare_and_store(key("f", None), &mode, &config, map(100));
    assert!(found.is_empty());
    assert_eq!(instructions(store.load(&key("f", None), &name("main")).unwrap()), 100);

    let found = store.compare_and_store(key("f", None), &mode, &config, map(200));
    assert_eq!(found.len(), 1);
    assert_eq!(found[0].event_kind, EventKind::Ir);
    assert_eq!((found[0].old, found[0].new), (100, 200));
    assert_eq!(found[0].pct_hundredths, Some(10000));
    assert_eq!(found[0].limit, Percent::whole(10));
    assert_eq!(instructions(store.load(&key("f", None), &name("main")).unwrap()), 200);

    let found = store.compare_and_store(key("f", None), &mode, &config, map(210));
    assert!(found.is_empty());
    assert_eq!(instructions(store.load(&key("f", None), &name("main")).unwrap()), 210);
    assert_eq!(store.len(), 1);
}

#[test]
fn test_baseline_is_never_overwritten() {
    let mut store = BaselineStore::new();
    let config = RegressionConfig::default();
    store.save(key("f", None), name("main"), map(100));
    store.save(key("f", None), name("feature"), map(150));

    let found = store.compare_and_store(
        key("f", None),
        &BaselineMode::Compare(name("main")),
        &config,
        map(200),
    );
    assert_eq!(found.len(), 1);
    assert_eq!(instructions(store.load(&key("f", None), &name("main")).unwrap()), 100);

    let mode = BaselineMode::Load { load: name("feature"), baseline: name("main") };
    let loaded = CallgrindMap::deserialize(
        &store.load(&key("f", None), &name("feature")).unwrap().serialize(),
    )
    .unwrap();
    let found = store.compare_and_store(key("f", None), &mode, &config, loaded);
    assert_eq!(found.len(), 1);
    assert_eq!((found[0].old, found[0].new), (100, 150));
    assert_eq!(instructions(store.load(&key("f", None), &name("main")).unwrap()), 100);
    assert_eq!(instructions(store.load(&key("f", None), &name("feature")).unwrap()), 150);

    let found = store.compare_and_store(
        key("g", None),
        &BaselineMode::Compare(name("main")),
        &config,
        map(200),
    );
    assert!(found.is_empty());
    assert_eq!(store.len(), 2);
}

#[test]
fn test_baseline_mode_from_args() {
    match BaselineMode::from_args(&options(&[])) {
        BaselineMode::Save(name) => assert_eq!(name.as_str(), "default"),
        _ => panic!("the default baseline is saved"),
    }
    match BaselineMode::from_args(&options(&["--save-baseline=main"])) {
        BaselineMode::Save(name) => assert_eq!(name.as_str(), "main"),
        _ => panic!("the baseline is saved"),
    }
    match BaselineMode::from_args(&options(&["--baseline"])) {
        BaselineMode::Compare(name) => assert_eq!(name.as_str(), "default"),
        _ => panic!("the baseline is compared"),
    }
    match BaselineMode::from_args(&options(&["--baseline=main", "--load-baseline=feature"])) {
        BaselineMode::Load { load, baseline } => {
            assert_eq!(load.as_str(), "feature");
            assert_eq!(baseline.as_str(), "main");
        }
        _ => panic!("the baseline is loaded"),
    }
    let mode = BaselineMode::from_args(&options(&["--baseline=main", "--load-baseline=feature"]));
    assert_eq!(mode.target_name().as_str(), "main");
}

#[test]
fn test_primary_counts() {
    let with_sentinel = map(7);
    assert_eq!(instructions(&with_sentinel), 7);
    assert_eq!(with_sentinel.total().value_of(EventKind::Ir), 14);

    let mut without = CallgrindMap::new(None);
    let mut metrics = Metrics::new();
    metrics.add_value(EventKind::Ir, u64::MAX - 1);
    metrics.add_value(EventKind::Dr, 2);
    without.add_cost(func("a"), &metrics);
    without.add_cost(func("b"), &metrics);
    assert_eq!(without.primary().value_of(EventKind::Ir), u64::MAX);
    assert_eq!(without.primary().value_of(EventKind::Dr), 4);
    assert_eq!(CallgrindMap::new(None).primary().len(), 0);
}

#[test]
fn test_regression_config_of_command_line() {
    let args = options(&["--regression=Dr=5", "--regression-fail-fast=no"]);
    let config = args.regression_config().unwrap();
    assert_eq!(config.limits, vec![(EventKind::Dr, Percent::whole(5))]);
    assert_eq!(config.fail_fast, Some(false));
    let args = options(&["--regression=default"]);
    assert_eq!(
        args.regression_config(),
        Some(RegressionConfig { limits: vec![], fail_fast: None })
    );
    assert_eq!(options(&[]).regression_config(), None);
}
