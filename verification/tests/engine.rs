use debug_metrics::{
    DebugMetrics, DebugMetricsConfig, DebugMetricsTrait, DefaultExt, EventType, KeyMap,
};

fn labels_of(entries: &[(&str, &str)]) -> KeyMap<String> {
    KeyMap::from_entries(
        entries
            .iter()
            .map(|(k, v)| (k.to_string(), v.to_string()))
            .collect(),
    )
}

fn counts_of(entries: &[(&str, u64)]) -> KeyMap<u64> {
    KeyMap::from_entries(entries.iter().map(|(k, v)| (k.to_string(), *v)).collect())
}

#[test]
fn metrics_are_displayed_if_no_rules() {
    let (events, output) = {
        let mut debug_metrics = DebugMetrics::new(DebugMetricsConfig::default_on());
        debug_metrics.inc("example", vec![("", "")]);
        (
            debug_metrics.events_for_key("example"),
            debug_metrics.drop_lines().concat(),
        )
    };
    assert_eq!(
        events,
        vec![EventType::MetricChange {
            metric: "example".to_string(),
            count: 1,
            dependencies: Default::default(),
            labels: Default::default(),
        }]
    );
    assert_eq!(output, "example: 1 :: {}\n");
}

#[test]
fn can_use_labels() {
    let (events, output) = {
        let mut debug_metrics = DebugMetrics::new(DebugMetricsConfig::default_on());
        debug_metrics.set_label("stage", "zero");
        debug_metrics.set("example", 42, vec![("stage", "one")]);
        (
            debug_metrics.events_for_key("example"),
            debug_metrics.drop_lines().concat(),
        )
    };
    assert_eq!(
        events,
        vec![
            EventType::CascadeLabelChange {
                cause: "example".to_string(),
                label: "stage".to_string(),
                value: "one".to_string(),
                dependencies: Default::default(),
                labels: labels_of(&[("stage", "one")]),
            },
            EventType::MetricChange {
                metric: "example".to_string(),
                count: 42,
                dependencies: counts_of(&[]),
                labels: labels_of(&[("stage", "one")]),
            }
        ]
    );
    let expected = "stage: zero :: {\"stage\": \"zero\"}\n\
                    stage (caused by example): one :: {\"stage\": \"one\"}\n\
                    example: 42 :: {\"stage\": \"one\"}\n";
    assert_eq!(output, expected);
}

fn recorded_for_stage(config: DebugMetricsConfig, with_rule: bool) -> (Vec<EventType>, String) {
    let mut debug_metrics = DebugMetrics::new(config);
    if with_rule {
        debug_metrics.add_recording_rule("stage", &[".+"]);
        debug_metrics.add_drop_hook("stage");
    }
    debug_metrics.set_label("stage", "zero");
    debug_metrics.inc("metric", vec![("stage", "one")]);
    (
        debug_metrics.events_for_key("stage"),
        debug_metrics.drop_lines().concat(),
    )
}

#[test]
fn label_changes_get_recorded_as_events() {
    // Disabled config and enabled recording rule
    let (events, output) = recorded_for_stage(Default::default(), true);
    assert_eq!(
        events,
        vec![
            EventType::LabelChange {
                label: "stage".to_string(),
                value: "zero".to_string(),
                dependencies: counts_of(&[]),
                labels: labels_of(&[("stage", "zero")]),
            },
            EventType::CascadeLabelChange {
                cause: "metric".to_string(),
                label: "stage".to_string(),
                value: "one".to_string(),
                dependencies: counts_of(&[("metric", 1)]),
                labels: labels_of(&[("stage", "one")]),
            },
        ],
        "Disabled config and enabled recording rule"
    );
    assert_eq!(
        output,
        "stage: zero :: {\"stage\": \"zero\"}\n\
         stage (caused by metric): one :: {\"metric\": \"1\", \"stage\": \"one\"}\n",
        "Disabled config and enabled recording rule"
    );

    // Enabled capture all config and no recording rule
    let (events, output) = recorded_for_stage(DebugMetricsConfig::default_on(), false);
    assert_eq!(
        events,
        vec![
            EventType::LabelChange {
                label: "stage".to_string(),
                value: "zero".to_string(),
                dependencies: counts_of(&[]),
                labels: labels_of(&[("stage", "zero")]),
            },
            EventType::CascadeLabelChange {
                cause: "metric".to_string(),
                label: "stage".to_string(),
                value: "one".to_string(),
                // Metrics are empty, because there is no rule to record them alongside
                dependencies: counts_of(&[]),
                labels: labels_of(&[("stage", "one")]),
            },
        ],
        "Enabled capture all config and no recording rule"
    );
    assert_eq!(
        output,
        "stage: zero :: {\"stage\": \"zero\"}\n\
         stage (caused by metric): one :: {\"stage\": \"one\"}\n\
         metric: 1 :: {\"stage\": \"one\"}\n",
        "Enabled capture all config and no recording rule"
    );
}
