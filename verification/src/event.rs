//! Events: what the engine records of one observed change.
use crate::key_map::KeyMap;
use crate::order::same_key;
use vstd::prelude::*;

verus! {

/// One observed change. A cascade event is a change that came along with a
/// change of the counter named by `cause`.
///
/// `dependencies` holds the counters, and `labels` the labels, that were
/// captured with the change.
#[derive(Debug, PartialEq, PartialOrd)]
pub enum EventType {
    MetricChange {
        metric: String,
        count: u64,
        dependencies: KeyMap<u64>,
        labels: KeyMap<String>,
    },
    LabelChange {
        label: String,
        value: String,
        dependencies: KeyMap<u64>,
        labels: KeyMap<String>,
    },
    CascadeMetricChange {
        cause: String,
        metric: String,
        count: u64,
        dependencies: KeyMap<u64>,
        labels: KeyMap<String>,
    },
    CascadeLabelChange {
        cause: String,
        label: String,
        value: String,
        dependencies: KeyMap<u64>,
        labels: KeyMap<String>,
    },
}

/// An event as plain mathematics.
pub enum EventView {
    MetricChange {
        metric: Seq<char>,
        count: u64,
        dependencies: Map<Seq<char>, u64>,
        labels: Map<Seq<char>, Seq<char>>,
    },
    LabelChange {
        label: Seq<char>,
        value: Seq<char>,
        dependencies: Map<Seq<char>, u64>,
        labels: Map<Seq<char>, Seq<char>>,
    },
    CascadeMetricChange {
        cause: Seq<char>,
        metric: Seq<char>,
        count: u64,
        dependencies: Map<Seq<char>, u64>,
        labels: Map<Seq<char>, Seq<char>>,
    },
    CascadeLabelChange {
        cause: Seq<char>,
        label: Seq<char>,
        value: Seq<char>,
        dependencies: Map<Seq<char>, u64>,
        labels: Map<Seq<char>, Seq<char>>,
    },
}

impl EventView {
    /// The key whose change the event records: the name of the metric or
    /// of the label.
    pub open spec fn subject(self) -> Seq<char> {
        match self {
            EventView::MetricChange { metric, .. } => metric,
            EventView::LabelChange { label, .. } => label,
            EventView::CascadeMetricChange { metric, .. } => metric,
            EventView::CascadeLabelChange { label, .. } => label,
        }
    }

    /// Whether the event came along with a change of another key.
    pub open spec fn is_cascade(self) -> bool {
        self is CascadeMetricChange || self is CascadeLabelChange
    }

    /// The labels captured with the event.
    pub open spec fn labels(self) -> Map<Seq<char>, Seq<char>> {
        match self {
            EventView::MetricChange { labels, .. } => labels,
            EventView::LabelChange { labels, .. } => labels,
            EventView::CascadeMetricChange { labels, .. } => labels,
            EventView::CascadeLabelChange { labels, .. } => labels,
        }
    }

    /// The counters captured with the event.
    pub open spec fn dependencies(self) -> Map<Seq<char>, u64> {
        match self {
            EventView::MetricChange { dependencies, .. } => dependencies,
            EventView::LabelChange { dependencies, .. } => dependencies,
            EventView::CascadeMetricChange { dependencies, .. } => dependencies,
            EventView::CascadeLabelChange { dependencies, .. } => dependencies,
        }
    }

    /// The event with other labels.
    pub open spec fn with_labels(self, labels: Map<Seq<char>, Seq<char>>) -> EventView {
        match self {
            EventView::MetricChange { metric, count, dependencies, .. } => EventView::MetricChange {
                metric,
                count,
                dependencies,
                labels,
            },
            EventView::LabelChange { label, value, dependencies, .. } => EventView::LabelChange {
                label,
                value,
                dependencies,
                labels,
            },
            EventView::CascadeMetricChange {
                cause,
                metric,
                count,
                dependencies,
                ..
            } => EventView::CascadeMetricChange { cause, metric, count, dependencies, labels },
            EventView::CascadeLabelChange {
                cause,
                label,
                value,
                dependencies,
                ..
            } => EventView::CascadeLabelChange { cause, label, value, dependencies, labels },
        }
    }

    /// The cascade event that records the same change as caused by `cause`.
    /// Only an event that is no cascade event yet has one.
    pub open spec fn promoted(self, cause: Seq<char>) -> EventView {
        match self {
            EventView::MetricChange {
                metric,
                count,
                dependencies,
                labels,
            } => EventView::CascadeMetricChange { cause, metric, count, dependencies, labels },
            EventView::LabelChange {
                label,
                value,
                dependencies,
                labels,
            } => EventView::CascadeLabelChange { cause, label, value, dependencies, labels },
            _ => self,
        }
    }

    /// Whether a query for `key` returns the event: it records a change of
    /// `key`, or a change that `key` caused.
    pub open spec fn concerns(self, key: Seq<char>) -> bool {
        match self {
            EventView::MetricChange { metric, .. } => metric == key,
            EventView::LabelChange { label, .. } => label == key,
            EventView::CascadeMetricChange { cause, metric, .. } => metric == key || cause == key,
            EventView::CascadeLabelChange { cause, label, .. } => label == key || cause == key,
        }
    }
}

impl View for EventType {
    type V = EventView;

    open spec fn view(&self) -> EventView {
        match self {
            EventType::MetricChange { metric, count, dependencies, labels } => EventView::MetricChange {
                metric: metric@,
                count: *count,
                dependencies: dependencies@,
                labels: labels@,
            },
            EventType::LabelChange { label, value, dependencies, labels } => EventView::LabelChange {
                label: label@,
                value: value@,
                dependencies: dependencies@,
                labels: labels@,
            },
            EventType::CascadeMetricChange {
                cause,
                metric,
                count,
                dependencies,
                labels,
            } => EventView::CascadeMetricChange {
                cause: cause@,
                metric: metric@,
                count: *count,
                dependencies: dependencies@,
                labels: labels@,
            },
            EventType::CascadeLabelChange {
                cause,
                label,
                value,
                dependencies,
                labels,
            } => EventView::CascadeLabelChange {
                cause: cause@,
                label: label@,
                value: value@,
                dependencies: dependencies@,
                labels: labels@,
            },
        }
    }
}

impl DeepView for EventType {
    type V = EventView;

    open spec fn deep_view(&self) -> EventView {
        self@
    }
}

impl EventType {
    /// Turns an event into the cascade event for the same change, caused by
    /// a change of `cause`.
    pub fn promote_to_cascade(self, cause: &str) -> (r: Self)
        requires
            !self@.is_cascade(),
        ensures
            r@ == self@.promoted(cause@),
    {
        match self {
            EventType::MetricChange {
                metric,
                count,
                dependencies,
                labels,
            } => EventType::CascadeMetricChange {
                cause: cause.to_owned(),
                metric,
                count,
                dependencies,
                labels,
            },
            EventType::LabelChange {
                label,
                value,
                dependencies,
                labels,
            } => EventType::CascadeLabelChange {
                cause: cause.to_owned(),
                label,
                value,
                dependencies,
                labels,
            },
            other => other,
        }
    }

    /// Whether a query for `key` returns this event.
    pub fn concerns(&self, key: &str) -> (r: bool)
        ensures
            r == self@.concerns(key@),
    {
        match self {
            EventType::MetricChange { metric, .. } => same_key(metric.as_str(), key),
            EventType::LabelChange { label, .. } => same_key(label.as_str(), key),
            EventType::CascadeMetricChange { cause, metric, .. } => same_key(metric.as_str(), key)
                || same_key(cause.as_str(), key),
            EventType::CascadeLabelChange { cause, label, .. } => same_key(label.as_str(), key)
                || same_key(cause.as_str(), key),
        }
    }
}

impl Clone for EventType {
    fn clone(&self) -> (r: Self)
        ensures
            r@ == self@,
    {
        match self {
            EventType::MetricChange { metric, count, dependencies, labels } => EventType::MetricChange {
                metric: metric.clone(),
                count: *count,
                dependencies: dependencies.clone(),
                labels: labels.clone(),
            },
            EventType::LabelChange { label, value, dependencies, labels } => EventType::LabelChange {
                label: label.clone(),
                value: value.clone(),
                dependencies: dependencies.clone(),
                labels: labels.clone(),
            },
            EventType::CascadeMetricChange {
                cause,
                metric,
                count,
                dependencies,
                labels,
            } => EventType::CascadeMetricChange {
                cause: cause.clone(),
                metric: metric.clone(),
                count: *count,
                dependencies: dependencies.clone(),
                labels: labels.clone(),
            },
            EventType::CascadeLabelChange {
                cause,
                label,
                value,
                dependencies,
                labels,
            } => EventType::CascadeLabelChange {
                cause: cause.clone(),
                label: label.clone(),
                value: value.clone(),
                dependencies: dependencies.clone(),
                labels: labels.clone(),
            },
        }
    }
}

} // verus!
