//! The engine as plain mathematics: what it holds, and what each operation
//! makes of it.
//!
//! Every operation of the engine is stated as a function from the state
//! before to the state after. The executable engine is proved to follow
//! these functions, and the laws of the library are proved about them.
use crate::config::DebugMetricsConfig;
use crate::event::EventView;
use crate::pattern::{regex_compiles, regex_matches};
use vstd::prelude::*;

verus! {

/// What an engine holds.
pub struct EngineView {
    /// For a key, the patterns that say what is captured when it changes.
    pub rules: Map<Seq<char>, Set<Seq<char>>>,
    /// The counters.
    pub counts: Map<Seq<char>, u64>,
    /// The labels.
    pub labels: Map<Seq<char>, Seq<char>>,
    /// The events recorded so far, oldest first.
    pub events: Seq<EventView>,
    /// The keys whose events are printed at teardown whatever the policy.
    pub drop_print: Set<Seq<char>>,
    /// The policies.
    pub config: DebugMetricsConfig,
}

/// What a key currently stands for.
pub enum ValueView {
    Metric(u64),
    Label(Seq<char>),
}

/// A list of labels that accompanies a change of a counter.
pub type LabelsView = Seq<(Seq<char>, Seq<char>)>;

/// The engine as `new` makes it.
pub open spec fn initial(config: DebugMetricsConfig) -> EngineView {
    EngineView {
        rules: Map::empty(),
        counts: Map::empty(),
        labels: Map::empty(),
        events: Seq::empty(),
        drop_print: Set::empty(),
        config,
    }
}

/// The current value of `key`: its count if it is a counter, else its text
/// if it is a label.
pub open spec fn current_value(s: EngineView, key: Seq<char>) -> Option<ValueView> {
    if s.counts.contains_key(key) {
        Some(ValueView::Metric(s.counts[key]))
    } else if s.labels.contains_key(key) {
        Some(ValueView::Label(s.labels[key]))
    } else {
        None
    }
}

/// Whether one of `patterns` matches `key`.
pub open spec fn some_pattern_matches(patterns: Set<Seq<char>>, key: Seq<char>) -> bool {
    exists|p: Seq<char>| patterns.contains(p) && regex_matches(p, key)
}

/// The counters that a rule with `patterns` captures: those whose key one of
/// the patterns matches.
pub open spec fn matched_counts(patterns: Set<Seq<char>>, counts: Map<Seq<char>, u64>) -> Map<
    Seq<char>,
    u64,
> {
    counts.restrict(Set::new(|k: Seq<char>| some_pattern_matches(patterns, k)))
}

/// The labels that a rule with `patterns` captures: those whose key one of
/// the patterns matches, but for a key that is a counter too, which is
/// captured as a counter only.
pub open spec fn matched_labels(
    patterns: Set<Seq<char>>,
    counts: Map<Seq<char>, u64>,
    labels: Map<Seq<char>, Seq<char>>,
) -> Map<Seq<char>, Seq<char>> {
    labels.restrict(
        Set::new(|k: Seq<char>| !counts.contains_key(k) && some_pattern_matches(patterns, k)),
    )
}

/// The event, not yet a cascade, for a change of `key` to `value`.
pub open spec fn plain_event(
    key: Seq<char>,
    value: ValueView,
    dependencies: Map<Seq<char>, u64>,
    labels: Map<Seq<char>, Seq<char>>,
) -> EventView {
    match value {
        ValueView::Metric(count) => EventView::MetricChange { metric: key, count, dependencies, labels },
        ValueView::Label(text) => EventView::LabelChange { label: key, value: text, dependencies, labels },
    }
}

/// Rule lookup: where `key` has a rule and a value, the event that carries
/// what the rule captures.
pub open spec fn rule_event(s: EngineView, key: Seq<char>) -> Option<EventView> {
    if s.rules.contains_key(key) {
        match current_value(s, key) {
            Some(value) => Some(
                plain_event(
                    key,
                    value,
                    matched_counts(s.rules[key], s.counts),
                    matched_labels(s.rules[key], s.counts, s.labels),
                ),
            ),
            None => None,
        }
    } else {
        None
    }
}

/// Capture-all fallback: where there is no event yet and every change is
/// to be recorded, an event that captures nothing.
pub open spec fn with_fallback(s: EngineView, event: Option<EventView>, key: Seq<char>) -> Option<
    EventView,
> {
    if event is None && s.config.process_all_events {
        match current_value(s, key) {
            Some(value) => Some(plain_event(key, value, Map::empty(), Map::empty())),
            None => None,
        }
    } else {
        event
    }
}

/// Global-label enrichment: where every event is to carry all labels, the
/// event with every current label put into its labels, over what a rule
/// captured under the same key.
pub open spec fn with_all_labels(s: EngineView, event: Option<EventView>) -> Option<EventView> {
    match event {
        Some(e) if s.config.all_labels_every_event => Some(
            e.with_labels(e.labels().union_prefer_right(s.labels)),
        ),
        _ => event,
    }
}

/// The event, if any, that a change of `key` gives rise to in state `s`,
/// which already holds the changed value.
pub open spec fn event_for(s: EngineView, key: Seq<char>) -> Option<EventView> {
    with_all_labels(s, with_fallback(s, rule_event(s, key), key))
}

/// The state with `event`, if there is one, appended to the log.
pub open spec fn logged(s: EngineView, event: Option<EventView>) -> EngineView {
    match event {
        Some(e) => EngineView { events: s.events.push(e), ..s },
        None => s,
    }
}

/// The cascade form of an event, if there is one.
pub open spec fn promoted(event: Option<EventView>, cause: Seq<char>) -> Option<EventView> {
    match event {
        Some(e) => Some(e.promoted(cause)),
        None => None,
    }
}

/// The state after one label that accompanies a change of the counter
/// `cause`. A label with an empty key is passed over.
pub open spec fn after_label(s: EngineView, cause: Seq<char>, label: (Seq<char>, Seq<char>)) -> EngineView {
    if label.0.len() == 0 {
        s
    } else {
        let stored = EngineView { labels: s.labels.insert(label.0, label.1), ..s };
        logged(stored, promoted(event_for(stored, label.0), cause))
    }
}

/// The state after the labels that accompany a change of the counter
/// `cause`, taken in the order of the list.
pub open spec fn after_labels(s: EngineView, cause: Seq<char>, labels: LabelsView) -> EngineView
    decreases labels.len(),
{
    if labels.len() == 0 {
        s
    } else {
        after_label(after_labels(s, cause, labels.drop_last()), cause, labels.last())
    }
}

/// The state after the counter `key` has been given the value `count`,
/// with `labels` alongside: first the counter, then the labels with their
/// cascade events, then the event of the counter itself.
pub open spec fn after_count(s: EngineView, key: Seq<char>, count: u64, labels: LabelsView) -> EngineView {
    let counted = EngineView { counts: s.counts.insert(key, count), ..s };
    let labelled = after_labels(counted, key, labels);
    logged(labelled, event_for(labelled, key))
}

/// The count that `inc` gives to `key`.
pub open spec fn next_count(s: EngineView, key: Seq<char>) -> u64 {
    if s.counts.contains_key(key) {
        (s.counts[key] + 1) as u64
    } else {
        1
    }
}

/// The state after `inc`.
pub open spec fn after_inc(s: EngineView, key: Seq<char>, labels: LabelsView) -> EngineView {
    after_count(s, key, next_count(s, key), labels)
}

/// The state after `set`.
pub open spec fn after_set(s: EngineView, key: Seq<char>, value: u64, labels: LabelsView) -> EngineView {
    after_count(s, key, value, labels)
}

/// The state after `set_label`.
pub open spec fn after_set_label(s: EngineView, key: Seq<char>, value: Seq<char>) -> EngineView {
    let stored = EngineView { labels: s.labels.insert(key, value), ..s };
    logged(stored, event_for(stored, key))
}

/// The patterns registered for `key`.
pub open spec fn patterns_of(s: EngineView, key: Seq<char>) -> Set<Seq<char>> {
    if s.rules.contains_key(key) {
        s.rules[key]
    } else {
        Set::empty()
    }
}

/// The state after `add_recording_rule`.
pub open spec fn after_add_recording_rule(
    s: EngineView,
    key: Seq<char>,
    patterns: Seq<Seq<char>>,
) -> EngineView {
    EngineView { rules: s.rules.insert(key, patterns_of(s, key).union(patterns.to_set())), ..s }
}

/// The state after `add_drop_hook`.
pub open spec fn after_add_drop_hook(s: EngineView, key: Seq<char>) -> EngineView {
    EngineView { drop_print: s.drop_print.insert(key), ..s }
}

/// What `events_for_key` returns: the events that concern `key`, in the
/// order of the log.
pub open spec fn events_for_key(s: EngineView, key: Seq<char>) -> Seq<EventView> {
    s.events.filter(|e: EventView| e.concerns(key))
}

/// Whether the rule of `key`, if it has one, can be evaluated: each of its
/// patterns compiles.
pub open spec fn rule_usable(s: EngineView, key: Seq<char>) -> bool {
    forall|p: Seq<char>| patterns_of(s, key).contains(p) ==> regex_compiles(p)
}

/// Whether the rules of `key` and of every label of `labels` that is not
/// passed over can be evaluated.
pub open spec fn rules_usable(s: EngineView, key: Seq<char>, labels: LabelsView) -> bool {
    &&& rule_usable(s, key)
    &&& forall|i: int|
        0 <= i < labels.len() && (#[trigger] labels[i]).0.len() > 0 ==> rule_usable(s, labels[i].0)
}

/// Whether `inc` can be called: the rules it evaluates are usable, and the
/// counter has room for one more.
pub open spec fn can_inc(s: EngineView, key: Seq<char>, labels: LabelsView) -> bool {
    &&& rules_usable(s, key, labels)
    &&& s.counts.contains_key(key) ==> s.counts[key] < u64::MAX
}

/// Whether the event is printed at teardown.
pub open spec fn printed(s: EngineView, e: EventView) -> bool {
    s.config.process_all_events || s.drop_print.contains(e.subject())
}

} // verus!
