use debug_metrics::drop_hook::DropHook;
use debug_metrics::label_iter::{LabelIter, NoLabels};
use debug_metrics::order::{rank, Rank};
use debug_metrics::render::{decimal, map_string};
use debug_metrics::{
    DebugMetrics, DebugMetricsConfig, DebugMetricsTrait, DefaultExt, EventType, KeyMap, KeySet,
};

fn quiet() -> DebugMetricsConfig {
    DebugMetricsConfig::default()
}

fn capture_all() -> DebugMetricsConfig {
    DebugMetricsConfig {
        process_all_events: true,
        record_label_changes: false,
        all_labels_every_event: false,
    }
}

fn metric(key: &str, count: u64, deps: Vec<(&str, u64)>, labels: Vec<(&str, &str)>) -> EventType {
    EventType::MetricChange {
        metric: key.to_string(),
        count,
        dependencies: KeyMap::from_entries(
            deps.into_iter().map(|(k, v)| (k.to_string(), v)).collect(),
        ),
        labels: KeyMap::from_entries(
            labels
                .into_iter()
                .map(|(k, v)| (k.to_string(), v.to_string()))
                .collect(),
        ),
    }
}

#[test]
fn default_config_is_all_off_and_default_on_is_all_on() {
    let off = DebugMetricsConfig::default();
    assert!(!off.process_all_events && !off.record_label_changes && !off.all_labels_every_event);
    let on = DebugMetricsConfig::default_on();
    assert!(on.process_all_events && on.record_label_changes && on.all_labels_every_event);
    assert_eq!(DebugMetrics::default().config(), off);
}

#[test]
fn nothing_is_recorded_without_rules_and_capture_all() {
    let mut dm = DebugMetrics::new(quiet());
    dm.inc("a", vec![]);
    dm.set("b", 7, vec![("stage", "one")]);
    dm.inc("a", vec![("stage", "two"), ("", "x")]);
    for key in ["a", "b", "stage", "", "other"] {
        assert_eq!(dm.events_for_key(key), vec![]);
    }
    assert_eq!(dm.drop_lines(), Vec::<String>::new());
}

#[test]
fn two_increments_count_one_and_two() {
    let mut dm = DebugMetrics::new(capture_all());
    dm.inc("k", vec![]);
    dm.inc("k", vec![]);
    assert_eq!(
        dm.events_for_key("k"),
        vec![metric("k", 1, vec![], vec![]), metric("k", 2, vec![], vec![])]
    );
}

#[test]
fn rule_captures_matching_counters_with_current_values() {
    let mut dm = DebugMetrics::new(quiet());
    dm.set("metric", 4, vec![]);
    dm.set("other", 9, vec![]);
    dm.add_recording_rule("metric", &[".+"]);
    dm.inc("metric", vec![]);
    assert_eq!(
        dm.events_for_key("metric"),
        vec![metric("metric", 5, vec![("metric", 5), ("other", 9)], vec![])]
    );
}

#[test]
fn rule_patterns_select_by_key() {
    let mut dm = DebugMetrics::new(quiet());
    dm.set("alpha", 1, vec![]);
    dm.set("beta", 2, vec![]);
    dm.set_label("alps", "high");
    dm.set_label("bay", "low");
    dm.add_recording_rule("beta", &["^al"]);
    dm.add_recording_rule("beta", &["^bay$", "^al"]);
    dm.set("beta", 3, vec![]);
    assert_eq!(
        dm.events_for_key("beta"),
        vec![metric(
            "beta",
            3,
            vec![("alpha", 1)],
            vec![("alps", "high"), ("bay", "low")]
        )]
    );
}

#[test]
fn a_key_that_is_counter_and_label_is_captured_as_counter() {
    let mut dm = DebugMetrics::new(quiet());
    dm.set("both", 1, vec![]);
    dm.set_label("both", "text");
    dm.add_recording_rule("watch", &["both"]);
    dm.set("watch", 0, vec![]);
    assert_eq!(
        dm.events_for_key("watch"),
        vec![metric("watch", 0, vec![("both", 1)], vec![])]
    );
}

#[test]
fn all_labels_every_event_overrides_rule_labels() {
    let mut dm = DebugMetrics::new(DebugMetricsConfig {
        process_all_events: false,
        record_label_changes: false,
        all_labels_every_event: true,
    });
    dm.set_label("stage", "one");
    dm.set_label("zone", "west");
    dm.add_recording_rule("m", &["^stage$"]);
    dm.inc("m", vec![]);
    assert_eq!(
        dm.events_for_key("m"),
        vec![metric(
            "m",
            1,
            vec![],
            vec![("stage", "one"), ("zone", "west")]
        )]
    );
}

#[test]
fn empty_label_keys_are_passed_over_by_inc_and_set() {
    let mut dm = DebugMetrics::new(capture_all());
    dm.inc("m", vec![("", "ignored")]);
    dm.set("m", 5, vec![("", "ignored"), ("", "")]);
    assert_eq!(dm.events_for_key(""), vec![]);
    assert_eq!(
        dm.events_for_key("m"),
        vec![metric("m", 1, vec![], vec![]), metric("m", 5, vec![], vec![])]
    );
    assert_eq!(dm.drop_lines(), vec!["m: 1 :: {}\n", "m: 5 :: {}\n"]);
}

#[test]
fn querying_a_cause_returns_its_cascades_in_log_order() {
    let mut dm = DebugMetrics::new(capture_all());
    dm.inc("m", vec![("a", "1"), ("b", "2")]);
    let events = dm.events_for_key("m");
    assert_eq!(events.len(), 3);
    assert_eq!(
        events[0],
        EventType::CascadeLabelChange {
            cause: "m".to_string(),
            label: "a".to_string(),
            value: "1".to_string(),
            dependencies: KeyMap::new(),
            labels: KeyMap::new(),
        }
    );
    assert!(matches!(&events[1], EventType::CascadeLabelChange { label, .. } if label == "b"));
    assert_eq!(events[2], metric("m", 1, vec![], vec![]));
    assert_eq!(dm.events_for_key("m"), events);
    assert_eq!(dm.events_for_key("a").len(), 1);
}

#[test]
fn the_log_only_grows() {
    let mut dm = DebugMetrics::new(capture_all());
    dm.inc("m", vec![]);
    let before = dm.events_for_key("m");
    dm.set_label("l", "v");
    dm.add_drop_hook("m");
    dm.add_recording_rule("m", &["l"]);
    dm.inc("m", vec![]);
    let after = dm.events_for_key("m");
    assert_eq!(&after[..before.len()], &before[..]);
    assert_eq!(after.len(), 2);
}

#[test]
fn drop_hook_prints_without_capture_all() {
    let mut dm = DebugMetrics::new(quiet());
    dm.add_recording_rule("a", &["^$"]);
    dm.add_recording_rule("b", &["^$"]);
    dm.add_drop_hook("a");
    dm.inc("a", vec![]);
    dm.inc("b", vec![]);
    assert_eq!(dm.drop_lines(), vec!["a: 1 :: {}\n"]);
}

#[test]
fn cascade_metric_line_names_the_cause() {
    let event = metric("m", 12, vec![("n", 3)], vec![("l", "v")]).promote_to_cascade("why");
    assert_eq!(
        event,
        EventType::CascadeMetricChange {
            cause: "why".to_string(),
            metric: "m".to_string(),
            count: 12,
            dependencies: KeyMap::from_entries(vec![("n".to_string(), 3)]),
            labels: KeyMap::from_entries(vec![("l".to_string(), "v".to_string())]),
        }
    );
    assert_eq!(
        event.line(),
        "m (caused by why): 12 :: {\"l\": \"v\", \"n\": \"3\"}\n"
    );
}

#[test]
fn a_label_stands_over_a_counter_of_the_same_key_in_a_line() {
    let event = metric("m", 1, vec![("x", 3)], vec![("x", "label")]);
    assert_eq!(event.line(), "m: 1 :: {\"x\": \"label\"}\n");
}

#[test]
fn map_text_quotes_and_escapes() {
    let map = KeyMap::from_entries(vec![
        ("b".to_string(), "two".to_string()),
        ("a\"".to_string(), "line\nfeed".to_string()),
    ]);
    assert_eq!(map_string(&map), "{\"a\\\"\": \"line\\nfeed\", \"b\": \"two\"}");
    assert_eq!(map_string(&KeyMap::new()), "{}");
}

#[test]
fn decimal_writes_numbers() {
    assert_eq!(decimal(0), "0");
    assert_eq!(decimal(7), "7");
    assert_eq!(decimal(10), "10");
    assert_eq!(decimal(42), "42");
    assert_eq!(decimal(1234567890), "1234567890");
    assert_eq!(decimal(u64::MAX), "18446744073709551615");
}

#[test]
fn keys_are_ranked_by_their_bytes() {
    assert_eq!(rank("a", "b"), Rank::Before);
    assert_eq!(rank("b", "a"), Rank::After);
    assert_eq!(rank("ab", "ab"), Rank::Same);
    assert_eq!(rank("a", "ab"), Rank::Before);
    assert_eq!(rank("", "a"), Rank::Before);
    assert_eq!(rank("Z", "a"), Rank::Before);
    assert_eq!(rank("é", "z"), Rank::After);
}

#[test]
fn key_map_keeps_key_order_and_last_value() {
    let mut map: KeyMap<u64> = KeyMap::new();
    map.insert("m".to_string(), 1);
    map.insert("a".to_string(), 2);
    map.insert("z".to_string(), 3);
    map.insert("m".to_string(), 4);
    assert_eq!(map.len(), 3);
    assert_eq!(map.key_at(0), "a");
    assert_eq!(map.key_at(1), "m");
    assert_eq!(map.key_at(2), "z");
    assert_eq!(*map.value_at(1), 4);
    assert_eq!(map.get("m"), Some(&4));
    assert_eq!(map.get("q"), None);
    assert!(map.contains_key("z"));
    assert_eq!(map.remove("a"), Some(2));
    assert_eq!(map.remove("a"), None);
    assert_eq!(map.len(), 2);
    assert_eq!(map.clone(), map);
    let mut other: KeyMap<u64> = KeyMap::new();
    other.insert("z".to_string(), 9);
    other.insert("b".to_string(), 8);
    map.extend_from(&other);
    assert_eq!(
        map,
        KeyMap::from_entries(vec![
            ("b".to_string(), 8),
            ("m".to_string(), 4),
            ("z".to_string(), 9)
        ])
    );
}

#[test]
fn key_set_holds_each_key_once() {
    let mut set = KeySet::new();
    set.insert("b".to_string());
    set.insert("a".to_string());
    set.insert("b".to_string());
    assert_eq!(set.len(), 2);
    assert_eq!(set.key_at(0), "a");
    assert_eq!(set.key_at(1), "b");
    assert!(set.contains("a"));
    assert!(!set.contains("c"));
    assert_eq!(KeySet::default().len(), 0);
}

#[test]
fn a_pattern_that_does_not_compile_is_found_before_any_change() {
    let mut dm = DebugMetrics::new(capture_all());
    dm.add_recording_rule("bad", &["foo(bar"]);
    assert!(!dm.rule_usable("bad"));
    assert!(dm.rule_usable("good"));
    assert!(!dm.try_inc("bad", vec![]));
    assert!(!dm.try_set("bad", 1, vec![]));
    assert!(!dm.try_set_label("bad", "x"));
    assert!(!dm.try_inc("good", vec![("bad", "x")]));
    assert!(dm.try_inc("good", vec![("", "x")]));
    assert!(!dm.rules_usable("good", &vec![("bad", "x")]));
    assert_eq!(dm.events_for_key("bad"), vec![]);
    assert_eq!(dm.events_for_key("good"), vec![metric("good", 1, vec![], vec![])]);
}

#[test]
fn a_counter_at_its_limit_cannot_be_incremented() {
    let mut dm = DebugMetrics::new(capture_all());
    assert!(dm.try_set("full", u64::MAX, vec![]));
    assert!(!dm.can_inc("full", &vec![]));
    assert!(!dm.try_inc("full", vec![]));
    assert_eq!(dm.events_for_key("full").len(), 1);
    assert!(dm.try_set_label("l", "v"));
    assert!(dm.try_inc("other", vec![]));
}

#[test]
fn no_labels_hands_over_nothing() {
    let mut none = NoLabels;
    assert!(none.next().is_none());
    assert!(NoLabels.iter().is_empty());
}

#[test]
fn drop_hook_runs_its_closure_on_the_engine() {
    let mut dm = DebugMetrics::new(capture_all());
    let hook = DropHook::new(&mut dm, |d: &mut DebugMetrics| {
        d.try_inc("done", vec![]);
    });
    hook.run();
    assert_eq!(dm.events_for_key("done"), vec![metric("done", 1, vec![], vec![])]);
}
