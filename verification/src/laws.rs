//! What holds of the engine whatever is done with it.
//!
//! Each law is a theorem about the functions of `model`, which the engine
//! is proved to follow.
use crate::event::EventView;
use crate::model::{
    after_add_drop_hook, after_add_recording_rule, after_count, after_inc, after_label, after_labels,
    after_set, after_set_label, event_for, events_for_key, matched_counts, rule_event, EngineView,
    LabelsView,
};
use crate::pattern::regex_matches;
use vstd::prelude::*;

verus! {

/// A change of a counter: what `inc` and `set` are called with.
pub enum Change {
    Increment { key: Seq<char>, labels: LabelsView },
    Assign { key: Seq<char>, value: u64, labels: LabelsView },
}

/// The state after one change of a counter.
pub open spec fn after_change(s: EngineView, change: Change) -> EngineView {
    match change {
        Change::Increment { key, labels } => after_inc(s, key, labels),
        Change::Assign { key, value, labels } => after_set(s, key, value, labels),
    }
}

/// The state after changes of counters, made one after the other.
pub open spec fn after_changes(s: EngineView, changes: Seq<Change>) -> EngineView
    decreases changes.len(),
{
    if changes.len() == 0 {
        s
    } else {
        after_change(after_changes(s, changes.drop_last()), changes.last())
    }
}

/// Whether a label is stored, and not passed over.
pub open spec fn has_key(label: (Seq<char>, Seq<char>)) -> bool {
    label.0.len() > 0
}

/// `a` is the beginning of `b`.
pub open spec fn begins<T>(a: Seq<T>, b: Seq<T>) -> bool {
    a.len() <= b.len() && b.take(a.len() as int) == a
}

/// Storing labels changes nothing but the labels and the log, and the log
/// only by what is appended to it. Without rules and without the policy
/// that every change is recorded, the log stays as it is.
pub proof fn law_labels_only_append(s: EngineView, cause: Seq<char>, labels: LabelsView)
    ensures
        after_labels(s, cause, labels).rules == s.rules,
        after_labels(s, cause, labels).counts == s.counts,
        after_labels(s, cause, labels).drop_print == s.drop_print,
        after_labels(s, cause, labels).config == s.config,
        begins(s.events, after_labels(s, cause, labels).events),
        s.rules == Map::<Seq<char>, Set<Seq<char>>>::empty() && !s.config.process_all_events
            ==> after_labels(s, cause, labels).events == s.events,
    decreases labels.len(),
{
    if labels.len() > 0 {
        law_labels_only_append(s, cause, labels.drop_last());
        let before = after_labels(s, cause, labels.drop_last());
        let after = after_label(before, cause, labels.last());
        assert(after.events.take(before.events.len() as int) =~= before.events);
        assert(after.events.take(s.events.len() as int) =~= before.events.take(s.events.len() as int));
    } else {
        assert(s.events.take(s.events.len() as int) =~= s.events);
    }
}

/// The log never shrinks, and what is in it stays where it is: after every
/// operation the log begins with the log as it was before.
pub proof fn law_log_grows(
    s: EngineView,
    key: Seq<char>,
    value: u64,
    text: Seq<char>,
    labels: LabelsView,
    patterns: Seq<Seq<char>>,
)
    ensures
        begins(s.events, after_inc(s, key, labels).events),
        begins(s.events, after_set(s, key, value, labels).events),
        begins(s.events, after_set_label(s, key, text).events),
        after_add_recording_rule(s, key, patterns).events == s.events,
        after_add_drop_hook(s, key).events == s.events,
{
    lemma_count_appends(s, key, value, labels);
    let next = crate::model::next_count(s, key);
    lemma_count_appends(s, key, next, labels);
    let labelled = after_set_label(s, key, text);
    assert(labelled.events.take(s.events.len() as int) =~= s.events);
}

proof fn lemma_count_appends(s: EngineView, key: Seq<char>, count: u64, labels: LabelsView)
    ensures
        begins(s.events, after_count(s, key, count, labels).events),
        after_count(s, key, count, labels).rules == s.rules,
        after_count(s, key, count, labels).config == s.config,
        s.rules == Map::<Seq<char>, Set<Seq<char>>>::empty() && !s.config.process_all_events
            ==> after_count(s, key, count, labels).events == s.events,
{
    let counted = EngineView { counts: s.counts.insert(key, count), ..s };
    law_labels_only_append(counted, key, labels);
    let labelled = after_labels(counted, key, labels);
    let done = after_count(s, key, count, labels);
    assert(done.events.take(labelled.events.len() as int) =~= labelled.events);
    assert(done.events.take(s.events.len() as int) =~= labelled.events.take(s.events.len() as int));
}

/// With no rule registered and without the policy that every change is
/// recorded, changes of counters leave the log empty, and a query returns
/// nothing, whatever the key.
pub proof fn law_nothing_recorded_without_rules(s: EngineView, changes: Seq<Change>, key: Seq<char>)
    requires
        s.rules == Map::<Seq<char>, Set<Seq<char>>>::empty(),
        !s.config.process_all_events,
        s.events.len() == 0,
    ensures
        after_changes(s, changes).events.len() == 0,
        events_for_key(after_changes(s, changes), key).len() == 0,
    decreases changes.len(),
{
    lemma_changes_without_rules(s, changes);
    assert(after_changes(s, changes).events =~= Seq::empty());
    assert(events_for_key(after_changes(s, changes), key) =~= Seq::empty()) by {
        reveal(Seq::filter);
    }
}

proof fn lemma_changes_without_rules(s: EngineView, changes: Seq<Change>)
    requires
        s.rules == Map::<Seq<char>, Set<Seq<char>>>::empty(),
        !s.config.process_all_events,
    ensures
        after_changes(s, changes).events == s.events,
        after_changes(s, changes).rules == s.rules,
        after_changes(s, changes).config == s.config,
    decreases changes.len(),
{
    if changes.len() > 0 {
        lemma_changes_without_rules(s, changes.drop_last());
        let before = after_changes(s, changes.drop_last());
        match changes.last() {
            Change::Increment { key, labels } => {
                lemma_count_appends(before, key, crate::model::next_count(before, key), labels);
            },
            Change::Assign { key, value, labels } => {
                lemma_count_appends(before, key, value, labels);
            },
        }
    }
}

/// Where every change is recorded, a key that has no rule and is no
/// counter yet is incremented twice without labels, and no label is
/// stored: the log gains two events for the key, with the counts 1 and 2,
/// that capture nothing.
pub proof fn law_two_increments(s: EngineView, key: Seq<char>)
    requires
        s.config.process_all_events,
        !s.rules.contains_key(key),
        !s.counts.contains_key(key),
        s.labels == Map::<Seq<char>, Seq<char>>::empty(),
    ensures
        after_inc(after_inc(s, key, Seq::empty()), key, Seq::empty()).events == s.events.push(
            EventView::MetricChange {
                metric: key,
                count: 1,
                dependencies: Map::empty(),
                labels: Map::empty(),
            },
        ).push(
            EventView::MetricChange {
                metric: key,
                count: 2,
                dependencies: Map::empty(),
                labels: Map::empty(),
            },
        ),
{
    let none: LabelsView = Seq::empty();
    let once = after_inc(s, key, none);
    let twice = after_inc(once, key, none);
    let empty = Map::<Seq<char>, Seq<char>>::empty();
    assert(empty.union_prefer_right(empty) =~= empty);
    assert(once.counts[key] == 1);
    assert(twice.counts[key] == 2);
}

/// A rule captures every counter that one of its patterns matches, with
/// the count it has when the event is made.
pub proof fn law_rule_captures_matching_counters(
    s: EngineView,
    key: Seq<char>,
    pattern: Seq<char>,
    other: Seq<char>,
)
    requires
        s.rules.contains_key(key),
        s.rules[key].contains(pattern),
        s.counts.contains_key(key),
        s.counts.contains_key(other),
        regex_matches(pattern, other),
    ensures
        event_for(s, key) is Some,
        event_for(s, key)->0 is MetricChange,
        event_for(s, key)->0.dependencies().contains_key(other),
        event_for(s, key)->0.dependencies()[other] == s.counts[other],
{
    assert(crate::model::some_pattern_matches(s.rules[key], other));
    assert(matched_counts(s.rules[key], s.counts).contains_key(other));
    assert(rule_event(s, key) is Some);
}

/// Labels with an empty key count for nothing: the state after labels is
/// the state after those of them that have a key.
pub proof fn law_labels_without_key_are_passed_over(s: EngineView, cause: Seq<char>, labels: LabelsView)
    ensures
        after_labels(s, cause, labels) == after_labels(
            s,
            cause,
            labels.filter(|l: (Seq<char>, Seq<char>)| has_key(l)),
        ),
    decreases labels.len(),
{
    let kept = |l: (Seq<char>, Seq<char>)| has_key(l);
    reveal(Seq::filter);
    if labels.len() > 0 {
        law_labels_without_key_are_passed_over(s, cause, labels.drop_last());
        let front = labels.drop_last().filter(kept);
        if has_key(labels.last()) {
            assert(labels.filter(kept) == front.push(labels.last()));
            assert(front.push(labels.last()).drop_last() =~= front);
        }
    }
}

/// Labels with an empty key never make a label: after a change of a
/// counter an empty key is a label only if it was one before, and where
/// no label of the list has a key, labels and log are as after the change
/// without labels.
pub proof fn law_no_label_without_key(s: EngineView, key: Seq<char>, count: u64, labels: LabelsView)
    ensures
        after_count(s, key, count, labels).labels.contains_key(Seq::empty()) == s.labels.contains_key(
            Seq::empty(),
        ),
        (forall|i: int| 0 <= i < labels.len() ==> !has_key(#[trigger] labels[i])) ==> after_count(
            s,
            key,
            count,
            labels,
        ) == after_count(s, key, count, Seq::empty()),
{
    let counted = EngineView { counts: s.counts.insert(key, count), ..s };
    lemma_empty_key_stays(counted, key, labels);
    if forall|i: int| 0 <= i < labels.len() ==> !has_key(#[trigger] labels[i]) {
        lemma_all_passed_over(counted, key, labels);
    }
}

proof fn lemma_empty_key_stays(s: EngineView, cause: Seq<char>, labels: LabelsView)
    ensures
        after_labels(s, cause, labels).labels.contains_key(Seq::empty()) == s.labels.contains_key(
            Seq::empty(),
        ),
    decreases labels.len(),
{
    if labels.len() > 0 {
        lemma_empty_key_stays(s, cause, labels.drop_last());
        let last = labels.last();
        if last.0.len() > 0 {
            assert(last.0 != Seq::<char>::empty());
        }
    }
}

proof fn lemma_all_passed_over(s: EngineView, cause: Seq<char>, labels: LabelsView)
    requires
        forall|i: int| 0 <= i < labels.len() ==> !has_key(#[trigger] labels[i]),
    ensures
        after_labels(s, cause, labels) == s,
    decreases labels.len(),
{
    if labels.len() > 0 {
        assert forall|i: int| 0 <= i < labels.drop_last().len() implies !has_key(
            #[trigger] labels.drop_last()[i],
        ) by {
            assert(labels.drop_last()[i] == labels[i]);
        }
        lemma_all_passed_over(s, cause, labels.drop_last());
        assert(!has_key(labels[labels.len() - 1]));
    }
}

} // verus!
