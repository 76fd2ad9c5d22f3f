//! The event-recording engine.
use crate::config::{DebugMetricsConfig, DefaultExt};
use crate::event::{EventType, EventView};
use crate::key_map::KeyMap;
use crate::key_set::KeySet;
use crate::laws::law_labels_only_append;
use crate::model::{
    after_add_drop_hook, after_add_recording_rule, after_count, after_inc, after_label, after_labels,
    after_set, after_set_label, can_inc, current_value, event_for, events_for_key, initial,
    matched_counts, matched_labels, patterns_of, rule_event, rule_usable, rules_usable,
    printed, some_pattern_matches, with_all_labels, with_fallback, EngineView, ValueView,
};
use crate::order::{in_order, lemma_in_order, lemma_take_next};
use crate::pattern::{match_pattern, regex_compiles, regex_matches};
use crate::render::{flush_lines, line_text};
use vstd::prelude::*;

verus! {

/// DebugMetrics that serve as a convenient way to debug complex code.
///
/// This is not at all OTEL production metrics.
pub struct DebugMetrics {
    /// Which other metrics need to be taken
    /// Regexes to match against keys.
    rules: KeyMap<KeySet>,
    counts: KeyMap<u64>,
    labels: KeyMap<String>,
    events: Vec<EventType>,
    drop_print: KeySet,
    config: DebugMetricsConfig,
}

/// The current value of a key.
enum Value {
    Metric(u64),
    Label(String),
}

impl View for Value {
    type V = ValueView;

    closed spec fn view(&self) -> ValueView {
        match self {
            Value::Metric(count) => ValueView::Metric(*count),
            Value::Label(text) => ValueView::Label(text@),
        }
    }
}

impl DeepView for Value {
    type V = ValueView;

    closed spec fn deep_view(&self) -> ValueView {
        self@
    }
}

impl View for DebugMetrics {
    type V = EngineView;

    closed spec fn view(&self) -> EngineView {
        EngineView {
            rules: self.rules@,
            counts: self.counts@,
            labels: self.labels@,
            events: self.events.deep_view(),
            drop_print: self.drop_print@,
            config: self.config,
        }
    }
}

/// What an engine offers.
pub trait DebugMetricsTrait: View<V = EngineView> {
    /// Include regex recording rules: from now on a change of `metric`
    /// captures what the patterns of `additional` match, beside what it
    /// captured before.
    fn add_recording_rule(&mut self, metric: &str, additional: &[&str])
        ensures
            final(self)@ == after_add_recording_rule(old(self)@, metric@, additional.deep_view()),
    ;

    /// Has the events of `key` printed at teardown whatever the policy says.
    fn add_drop_hook(&mut self, key: &str)
        ensures
            final(self)@ == after_add_drop_hook(old(self)@, key@),
    ;

    /// Adds one to the counter `key`, which starts at zero, and stores
    /// `labels` alongside.
    fn inc(&mut self, key: &str, labels: Vec<(&str, &str)>)
        requires
            can_inc(old(self)@, key@, labels.deep_view()),
        ensures
            final(self)@ == after_inc(old(self)@, key@, labels.deep_view()),
    ;

    /// Sets the counter `key` to `value`, and stores `labels` alongside.
    fn set(&mut self, key: &str, value: u64, labels: Vec<(&str, &str)>)
        requires
            rules_usable(old(self)@, key@, labels.deep_view()),
        ensures
            final(self)@ == after_set(old(self)@, key@, value, labels.deep_view()),
    ;

    /// Sets the label `key` to `value`.
    fn set_label(&mut self, key: &str, value: &str)
        requires
            rule_usable(old(self)@, key@),
        ensures
            final(self)@ == after_set_label(old(self)@, key@, value@),
    ;

    /// The recorded events that concern `key`, oldest first.
    fn events_for_key(&self, key: &str) -> (r: Vec<EventType>)
        ensures
            r.deep_view() == events_for_key(self@, key@),
    ;
}

impl DebugMetrics {
    /// An engine that holds nothing yet.
    pub fn new(config: DebugMetricsConfig) -> (r: DebugMetrics)
        ensures
            r@ == initial(config),
    {
        let r = DebugMetrics {
            rules: KeyMap::new(),
            counts: KeyMap::new(),
            labels: KeyMap::new(),
            events: Vec::new(),
            drop_print: KeySet::new(),
            config,
        };
        assert(r.events.deep_view() =~= Seq::<EventView>::empty());
        r
    }

    /// Whether one of `regexes` matches `key`.
    fn any_regex_matches(regexes: &KeySet, key: &str) -> (r: bool)
        requires
            forall|p: Seq<char>| regexes@.contains(p) ==> regex_compiles(p),
        ensures
            r == some_pattern_matches(regexes@, key@),
    {
        let n = regexes.len();
        proof {
            lemma_in_order(regexes@);
        }
        let mut i: usize = 0;
        while i < n
            invariant
                i <= n,
                n == regexes@.len(),
                regexes@.finite(),
                in_order(regexes@).len() == n,
                in_order(regexes@).to_set() == regexes@,
                forall|p: Seq<char>| regexes@.contains(p) ==> regex_compiles(p),
                forall|j: int| 0 <= j < i ==> !regex_matches(#[trigger] in_order(regexes@)[j], key@),
            decreases n - i,
        {
            let patt = regexes.key_at(i);
            match match_pattern(patt, key) {
                Some(true) => {
                    return true;
                },
                _ => {},
            }
            i += 1;
        }
        proof {
            assert forall|p: Seq<char>| regexes@.contains(p) implies !regex_matches(p, key@) by {
                assert(in_order(regexes@).to_set().contains(p));
                let j = choose|j: int| 0 <= j < in_order(regexes@).len() && in_order(regexes@)[j] == p;
                assert(!regex_matches(in_order(regexes@)[j], key@));
            }
        }
        false
    }

    /// The counters and the labels that a rule with the patterns `regexes`
    /// captures.
    fn matching_rules_for_regexes(
        &self,
        regexes: &KeySet,
        counts: &KeyMap<u64>,
        labels: &KeyMap<String>,
    ) -> (r: (KeyMap<u64>, KeyMap<String>))
        requires
            forall|p: Seq<char>| regexes@.contains(p) ==> regex_compiles(p),
        ensures
            r.0@ == matched_counts(regexes@, counts@),
            r.1@ == matched_labels(regexes@, counts@, labels@),
    {
        let mut count_ret: KeyMap<u64> = KeyMap::new();
        let mut label_ret: KeyMap<String> = KeyMap::new();
        let n = counts.len();
        let ghost count_keys = in_order(counts@.dom());
        proof {
            lemma_in_order(counts@.dom());
        }
        let mut i: usize = 0;
        while i < n
            invariant
                i <= n,
                n == counts@.len(),
                counts@.dom().finite(),
                count_keys == in_order(counts@.dom()),
                count_keys.len() == n,
                count_keys.to_set() == counts@.dom(),
                forall|p: Seq<char>| regexes@.contains(p) ==> regex_compiles(p),
                count_ret@ == counts@.restrict(
                    Set::new(
                        |k: Seq<char>|
                            count_keys.take(i as int).contains(k) && some_pattern_matches(regexes@, k),
                    ),
                ),
            decreases n - i,
        {
            let k = counts.key_at(i);
            if Self::any_regex_matches(regexes, k) {
                count_ret.insert(k.to_owned(), *counts.value_at(i));
            }
            proof {
                let seen_now = count_keys.take(i + 1);
                lemma_take_next(count_keys, i as int);
                assert(count_ret@ =~= counts@.restrict(
                    Set::new(
                        |q: Seq<char>| seen_now.contains(q) && some_pattern_matches(regexes@, q),
                    ),
                ));
            }
            i += 1;
        }
        proof {
            assert(count_keys.take(n as int) =~= count_keys);
            assert forall|q: Seq<char>| counts@.dom().contains(q) implies count_keys.contains(q) by {
                assert(count_keys.to_set().contains(q));
            }
            assert(count_ret@ =~= matched_counts(regexes@, counts@));
        }
        let m = labels.len();
        let ghost label_keys = in_order(labels@.dom());
        proof {
            lemma_in_order(labels@.dom());
        }
        let mut i: usize = 0;
        while i < m
            invariant
                i <= m,
                m == labels@.len(),
                labels@.dom().finite(),
                label_keys == in_order(labels@.dom()),
                label_keys.len() == m,
                label_keys.to_set() == labels@.dom(),
                forall|p: Seq<char>| regexes@.contains(p) ==> regex_compiles(p),
                label_ret@ == labels@.restrict(
                    Set::new(
                        |k: Seq<char>|
                            label_keys.take(i as int).contains(k) && !counts@.contains_key(k)
                                && some_pattern_matches(regexes@, k),
                    ),
                ),
            decreases m - i,
        {
            let k = labels.key_at(i);
            if !counts.contains_key(k) && Self::any_regex_matches(regexes, k) {
                label_ret.insert(k.to_owned(), labels.value_at(i).clone());
            }
            proof {
                let seen_now = label_keys.take(i + 1);
                lemma_take_next(label_keys, i as int);
                assert(label_ret@ =~= labels@.restrict(
                    Set::new(
                        |q: Seq<char>|
                            seen_now.contains(q) && !counts@.contains_key(q) && some_pattern_matches(
                                regexes@,
                                q,
                            ),
                    ),
                ));
            }
            i += 1;
        }
        proof {
            assert(label_keys.take(m as int) =~= label_keys);
            assert forall|q: Seq<char>| labels@.dom().contains(q) implies label_keys.contains(q) by {
                assert(label_keys.to_set().contains(q));
            }
            assert(label_ret@ =~= matched_labels(regexes@, counts@, labels@));
        }
        (count_ret, label_ret)
    }

    /// Global-label enrichment: where every event is to carry all labels,
    /// puts every current label into the labels of the event, if there is
    /// one.
    fn maybe_include_all_labels_with_event(&self, event: &mut Option<EventType>)
        requires
            *old(event) matches Some(e) ==> !e@.is_cascade(),
        ensures
            final(event).deep_view() == with_all_labels(self@, old(event).deep_view()),
    {
        if self.config.all_labels_every_event {
            let mut taken: Option<EventType> = None;
            core::mem::swap(event, &mut taken);
            match taken {
                Some(EventType::MetricChange { metric, count, dependencies, labels }) => {
                    let labels = self.with_current_labels(labels);
                    *event = Some(EventType::MetricChange { metric, count, dependencies, labels });
                },
                Some(EventType::LabelChange { label, value, dependencies, labels }) => {
                    let labels = self.with_current_labels(labels);
                    *event = Some(EventType::LabelChange { label, value, dependencies, labels });
                },
                other => {
                    *event = other;
                },
            }
        }
    }

    /// `labels` with every current label put in.
    fn with_current_labels(&self, labels: KeyMap<String>) -> (r: KeyMap<String>)
        ensures
            r@ == labels@.union_prefer_right(self@.labels),
    {
        let mut r = labels;
        r.extend_from(&self.labels);
        r
    }

    /// Rule lookup: where `metric_or_label` has a rule and a value, makes
    /// `event` the event that carries what the rule captures.
    fn maybe_find_matching_rule(&self, event: &mut Option<EventType>, metric_or_label: &str)
        requires
            rule_usable(self@, metric_or_label@),
        ensures
            final(event).deep_view() == match rule_event(self@, metric_or_label@) {
                Some(e) => Some(e),
                None => old(event).deep_view(),
            },
    {
        if let Some(rules) = self.rules.get(metric_or_label) {
            let (matching_metrics, matching_labels) = self.matching_rules_for_regexes(
                rules,
                &self.counts,
                &self.labels,
            );
            let c = self.get_metric_or_label(metric_or_label);
            match c {
                None => {},
                Some(Value::Metric(c)) => {
                    *event = Some(
                        EventType::MetricChange {
                            metric: metric_or_label.to_owned(),
                            count: c,
                            dependencies: matching_metrics,
                            labels: matching_labels,
                        },
                    );
                },
                Some(Value::Label(l)) => {
                    *event = Some(
                        EventType::LabelChange {
                            label: metric_or_label.to_owned(),
                            value: l,
                            dependencies: matching_metrics,
                            labels: matching_labels,
                        },
                    )
                },
            }
        }
    }

    /// Capture-all fallback: where there is no event yet and every change is
    /// to be recorded, makes `event` an event that captures nothing.
    fn maybe_include_all_events(&self, event: &mut Option<EventType>, metric_or_label: &str)
        ensures
            final(event).deep_view() == with_fallback(
                self@,
                old(event).deep_view(),
                metric_or_label@,
            ),
    {
        if event.is_none() && self.config.process_all_events {
            // If no rules match, we still want to record the event
            let count = self.get_metric_or_label(metric_or_label);
            match count {
                None => {},
                Some(Value::Metric(count)) => {
                    *event = Some(
                        EventType::MetricChange {
                            metric: metric_or_label.to_owned(),
                            count,
                            dependencies: KeyMap::new(),
                            labels: KeyMap::new(),
                        },
                    );
                },
                Some(Value::Label(label)) => {
                    *event = Some(
                        EventType::LabelChange {
                            label: metric_or_label.to_owned(),
                            value: label,
                            dependencies: KeyMap::new(),
                            labels: KeyMap::new(),
                        },
                    );
                },
            }
        }
    }

    /// The event, if any, for a change of `key` that the engine already
    /// holds.
    fn observe(&self, key: &str) -> (r: Option<EventType>)
        requires
            rule_usable(self@, key@),
        ensures
            r.deep_view() == event_for(self@, key@),
            r matches Some(e) ==> !e@.is_cascade(),
    {
        let mut event = None;
        self.maybe_find_matching_rule(&mut event, key);
        self.maybe_include_all_events(&mut event, key);
        self.maybe_include_all_labels_with_event(&mut event);
        event
    }

    /// The current value of `key`: its count if it is a counter, else its
    /// text if it is a label.
    fn get_metric_or_label(&self, key: &str) -> (r: Option<Value>)
        ensures
            r.deep_view() == current_value(self@, key@),
    {
        if let Some(count) = self.counts.get(key) {
            Some(Value::Metric(*count))
        } else if let Some(label) = self.labels.get(key) {
            Some(Value::Label(label.clone()))
        } else {
            None
        }
    }
}

impl DebugMetrics {
    /// Appends `event` to the log.
    fn log(&mut self, event: EventType)
        ensures
            final(self)@ == (EngineView { events: old(self)@.events.push(event@), ..old(self)@ }),
    {
        self.events.push(event);
        assert(self.events.deep_view() =~= old(self).events.deep_view().push(event@));
    }

    /// Stores the labels that accompany a change of the counter `cause`,
    /// and logs the cascade event of each.
    fn store_labels(&mut self, cause: &str, labels: &Vec<(&str, &str)>)
        requires
            forall|i: int|
                0 <= i < labels.len() && (#[trigger] labels.deep_view()[i]).0.len() > 0 ==> rule_usable(
                    old(self)@,
                    labels.deep_view()[i].0,
                ),
        ensures
            final(self)@ == after_labels(old(self)@, cause@, labels.deep_view()),
    {
        let ghost all = labels.deep_view();
        let mut i: usize = 0;
        assert(all.take(0) =~= Seq::empty());
        while i < labels.len()
            invariant
                i <= labels.len(),
                all == labels.deep_view(),
                all.len() == labels.len(),
                self@.rules == old(self)@.rules,
                forall|j: int|
                    0 <= j < all.len() && (#[trigger] all[j]).0.len() > 0 ==> rule_usable(
                        old(self)@,
                        all[j].0,
                    ),
                self@ == after_labels(old(self)@, cause@, all.take(i as int)),
            decreases labels.len() - i,
        {
            let (label_key, label_value) = labels[i];
            let ghost before = self@;
            proof {
                assert(all[i as int] == (label_key@, label_value@));
                assert(all.take(i + 1).drop_last() =~= all.take(i as int));
                assert(all.take(i + 1).last() == all[i as int]);
            }
            if !label_key.is_empty() {
                self.labels.insert(label_key.to_owned(), label_value.to_owned());
                proof {
                    assert(patterns_of(self@, label_key@) == patterns_of(old(self)@, label_key@));
                }
                let event = self.observe(label_key);
                if let Some(event) = event {
                    let event = event.promote_to_cascade(cause);
                    self.log(event);
                }
            }
            proof {
                assert(self@ == after_label(before, cause@, all[i as int]));
            }
            i += 1;
        }
        proof {
            assert(all.take(all.len() as int) =~= all);
        }
    }

    /// Gives the counter `key` the value `count`, stores `labels`
    /// alongside, and logs what follows from both.
    fn record_count(&mut self, key: &str, count: u64, labels: Vec<(&str, &str)>)
        requires
            rules_usable(old(self)@, key@, labels.deep_view()),
        ensures
            final(self)@ == after_count(old(self)@, key@, count, labels.deep_view()),
    {
        self.counts.insert(key.to_owned(), count);
        let ghost counted = self@;
        proof {
            assert forall|j: int|
                0 <= j < labels.len() && (#[trigger] labels.deep_view()[j]).0.len()
                    > 0 implies rule_usable(counted, labels.deep_view()[j].0) by {
                assert(patterns_of(counted, labels.deep_view()[j].0) == patterns_of(
                    old(self)@,
                    labels.deep_view()[j].0,
                ));
            }
        }
        self.store_labels(key, &labels);
        proof {
            law_labels_only_append(counted, key@, labels.deep_view());
            assert(patterns_of(self@, key@) == patterns_of(old(self)@, key@));
        }
        let event = self.observe(key);
        if let Some(event) = event {
            self.log(event);
        }
    }

    /// Whether the rule of `key`, if it has one, can be evaluated: each of
    /// its patterns compiles.
    pub fn rule_usable(&self, key: &str) -> (r: bool)
        ensures
            r == rule_usable(self@, key@),
    {
        match self.rules.get(key) {
            None => true,
            Some(patterns) => {
                let n = patterns.len();
                proof {
                    lemma_in_order(patterns@);
                }
                let mut i: usize = 0;
                while i < n
                    invariant
                        i <= n,
                        n == patterns@.len(),
                        patterns@.finite(),
                        in_order(patterns@).len() == n,
                        in_order(patterns@).to_set() == patterns@,
                        patterns_of(self@, key@) == patterns@,
                        forall|j: int| 0 <= j < i ==> regex_compiles(#[trigger] in_order(patterns@)[j]),
                    decreases n - i,
                {
                    let patt = patterns.key_at(i);
                    if match_pattern(patt, key).is_none() {
                        return false;
                    }
                    i += 1;
                }
                proof {
                    assert forall|p: Seq<char>| patterns@.contains(p) implies regex_compiles(p) by {
                        assert(in_order(patterns@).to_set().contains(p));
                        let j = choose|j: int|
                            0 <= j < in_order(patterns@).len() && in_order(patterns@)[j] == p;
                        assert(regex_compiles(in_order(patterns@)[j]));
                    }
                }
                true
            },
        }
    }

    /// Whether the rules of `key` and of every label of `labels` that is
    /// not passed over can be evaluated.
    pub fn rules_usable(&self, key: &str, labels: &Vec<(&str, &str)>) -> (r: bool)
        ensures
            r == rules_usable(self@, key@, labels.deep_view()),
    {
        if !self.rule_usable(key) {
            return false;
        }
        let ghost all = labels.deep_view();
        let mut i: usize = 0;
        while i < labels.len()
            invariant
                i <= labels.len(),
                all == labels.deep_view(),
                all.len() == labels.len(),
                rule_usable(self@, key@),
                forall|j: int|
                    0 <= j < i && (#[trigger] all[j]).0.len() > 0 ==> rule_usable(self@, all[j].0),
            decreases labels.len() - i,
        {
            let (label_key, _) = labels[i];
            proof {
                assert(all[i as int].0 == label_key@);
            }
            if !label_key.is_empty() && !self.rule_usable(label_key) {
                return false;
            }
            i += 1;
        }
        true
    }

    /// Whether `inc` can be called with these arguments.
    pub fn can_inc(&self, key: &str, labels: &Vec<(&str, &str)>) -> (r: bool)
        ensures
            r == can_inc(self@, key@, labels.deep_view()),
    {
        let room = match self.counts.get(key) {
            Some(count) => *count < u64::MAX,
            None => true,
        };
        room && self.rules_usable(key, labels)
    }

    /// Calls `inc` where it can be called, and says whether it did. Where
    /// it did not, nothing has changed.
    pub fn try_inc(&mut self, key: &str, labels: Vec<(&str, &str)>) -> (done: bool)
        ensures
            done == can_inc(old(self)@, key@, labels.deep_view()),
            done ==> final(self)@ == after_inc(old(self)@, key@, labels.deep_view()),
            !done ==> final(self)@ == old(self)@,
    {
        if self.can_inc(key, &labels) {
            self.inc(key, labels);
            true
        } else {
            false
        }
    }

    /// Calls `set` where it can be called, and says whether it did. Where
    /// it did not, nothing has changed.
    pub fn try_set(&mut self, key: &str, value: u64, labels: Vec<(&str, &str)>) -> (done: bool)
        ensures
            done == rules_usable(old(self)@, key@, labels.deep_view()),
            done ==> final(self)@ == after_set(old(self)@, key@, value, labels.deep_view()),
            !done ==> final(self)@ == old(self)@,
    {
        if self.rules_usable(key, &labels) {
            self.set(key, value, labels);
            true
        } else {
            false
        }
    }

    /// Calls `set_label` where it can be called, and says whether it did.
    /// Where it did not, nothing has changed.
    pub fn try_set_label(&mut self, key: &str, value: &str) -> (done: bool)
        ensures
            done == rule_usable(old(self)@, key@),
            done ==> final(self)@ == after_set_label(old(self)@, key@, value@),
            !done ==> final(self)@ == old(self)@,
    {
        if self.rule_usable(key) {
            self.set_label(key, value);
            true
        } else {
            false
        }
    }
}

impl DebugMetrics {
    /// The policies that the engine was made with.
    pub fn config(&self) -> (r: DebugMetricsConfig)
        ensures
            r == self@.config,
    {
        self.config
    }

    /// Whether the event is printed at teardown: every event is, or its key
    /// has a drop hook.
    fn is_printed(&self, event: &EventType) -> (r: bool)
        ensures
            r == printed(self@, event@),
    {
        let key = match event {
            EventType::MetricChange { metric, .. } => metric,
            EventType::LabelChange { label, .. } => label,
            EventType::CascadeMetricChange { metric, .. } => metric,
            EventType::CascadeLabelChange { label, .. } => label,
        };
        self.config.process_all_events || self.drop_print.contains(key.as_str())
    }

    /// What is to be written at teardown: one line for each event that is
    /// printed, in the order of the log. Whoever owns the output writes
    /// these lines to it and flushes it, also where there is no line.
    pub fn drop_lines(&self) -> (lines: Vec<String>)
        ensures
            lines.deep_view() == flush_lines(self@),
    {
        let mut lines: Vec<String> = Vec::new();
        let ghost log = self.events.deep_view();
        let ghost wanted = |e: EventView| printed(self@, e);
        let ghost text = |e: EventView| line_text(e);
        let mut i: usize = 0;
        proof {
            assert(log.take(0) =~= Seq::empty());
            assert(lines.deep_view() =~= log.take(0).filter(wanted).map_values(text));
        }
        while i < self.events.len()
            invariant
                i <= self.events.len(),
                log == self.events.deep_view(),
                log.len() == self.events.len(),
                wanted == |e: EventView| printed(self@, e),
                text == |e: EventView| line_text(e),
                lines.deep_view() == log.take(i as int).filter(wanted).map_values(text),
            decreases self.events.len() - i,
        {
            let ghost before = lines.deep_view();
            let e = &self.events[i];
            proof {
                lemma_take_next(log, i as int);
                assert(log[i as int] == e@);
                reveal(Seq::filter);
            }
            if self.is_printed(e) {
                let line = e.line();
                lines.push(line);
                proof {
                    assert(lines.deep_view() =~= before.push(line@));
                    assert(log.take(i + 1).filter(wanted) =~= log.take(i as int).filter(wanted).push(
                        e@,
                    ));
                    assert(lines.deep_view() =~= log.take(i + 1).filter(wanted).map_values(text));
                }
            }
            i += 1;
        }
        proof {
            assert(log.take(log.len() as int) =~= log);
        }
        lines
    }
}

impl DebugMetricsTrait for DebugMetrics {
    fn add_recording_rule(&mut self, metric: &str, additional: &[&str]) {
        let mut set = match self.rules.remove(metric) {
            Some(existing) => existing,
            None => KeySet::new(),
        };
        let ghost start = set@;
        let ghost all = additional.deep_view();
        let mut i: usize = 0;
        assert(all.take(0).to_set() =~= Set::empty());
        while i < additional.len()
            invariant
                i <= additional.len(),
                all == additional.deep_view(),
                all.len() == additional.len(),
                set@ == start.union(all.take(i as int).to_set()),
            decreases additional.len() - i,
        {
            let patt = additional[i];
            proof {
                assert(all[i as int] == patt@);
                assert(all.take(i + 1) =~= all.take(i as int).push(patt@));
                assert(all.take(i + 1).to_set() =~= all.take(i as int).to_set().insert(patt@)) by {
                    let a = all.take(i as int);
                    let b = all.take(i + 1);
                    assert forall|q: Seq<char>| b.to_set().contains(q) == a.to_set().insert(
                        patt@,
                    ).contains(q) by {
                        if b.contains(q) {
                            let j = choose|j: int| 0 <= j < b.len() && b[j] == q;
                            if j < i {
                                assert(a[j] == q);
                            }
                        }
                        if a.contains(q) {
                            let j = choose|j: int| 0 <= j < a.len() && a[j] == q;
                            assert(b[j] == q);
                        }
                        if q == patt@ {
                            assert(b[i as int] == q);
                        }
                    }
                }
            }
            set.insert(patt.to_owned());
            i += 1;
        }
        proof {
            assert(all.take(all.len() as int) =~= all);
        }
        self.rules.insert(metric.to_owned(), set);
        proof {
            assert(self@.rules =~= after_add_recording_rule(old(self)@, metric@, all).rules);
        }
    }

    fn add_drop_hook(&mut self, key: &str) {
        self.drop_print.insert(key.to_owned());
    }

    fn inc(&mut self, key: &str, labels: Vec<(&str, &str)>) {
        // Increment
        let count: u64 = match self.counts.get(key) {
            Some(count) => *count + 1,
            None => 1,
        };
        self.record_count(key, count, labels);
    }

    fn set(&mut self, key: &str, value: u64, labels: Vec<(&str, &str)>) {
        self.record_count(key, value, labels);
    }

    fn set_label(&mut self, key: &str, value: &str) {
        self.labels.insert(key.to_owned(), value.to_owned());
        proof {
            assert(patterns_of(self@, key@) == patterns_of(old(self)@, key@));
        }
        let event = self.observe(key);
        if let Some(event) = event {
            self.log(event);
        }
    }

    fn events_for_key(&self, key: &str) -> (r: Vec<EventType>) {
        let mut found: Vec<EventType> = Vec::new();
        let ghost log = self.events.deep_view();
        let ghost wanted = |e: EventView| e.concerns(key@);
        let mut i: usize = 0;
        assert(log.take(0) =~= Seq::empty());
        assert(found.deep_view() =~= log.take(0).filter(wanted));
        while i < self.events.len()
            invariant
                i <= self.events.len(),
                log == self.events.deep_view(),
                log.len() == self.events.len(),
                wanted == |e: EventView| e.concerns(key@),
                found.deep_view() == log.take(i as int).filter(wanted),
            decreases self.events.len() - i,
        {
            let ghost before = found.deep_view();
            proof {
                assert(log.take(i + 1).drop_last() =~= log.take(i as int));
                assert(log.take(i + 1).last() == self.events[i as int]@);
                reveal(Seq::filter);
            }
            if self.events[i].concerns(key) {
                let event = self.events[i].clone();
                found.push(event);
                proof {
                    assert(found.deep_view() =~= before.push(event@));
                }
            }
            i += 1;
        }
        proof {
            assert(log.take(log.len() as int) =~= log);
        }
        found
    }
}

impl DefaultExt for DebugMetrics {
    open spec fn is_on(&self) -> bool {
        self@ == initial(
            DebugMetricsConfig {
                process_all_events: true,
                record_label_changes: true,
                all_labels_every_event: true,
            },
        )
    }

    fn default_on() -> (r: Self) {
        DebugMetrics::new(DebugMetricsConfig::default_on())
    }
}

impl Default for DebugMetrics {
    fn default() -> (r: Self)
        ensures
            r@ == initial(
                DebugMetricsConfig {
                    process_all_events: false,
                    record_label_changes: false,
                    all_labels_every_event: false,
                },
            ),
    {
        DebugMetrics::new(DebugMetricsConfig::default())
    }
}

} // verus!
