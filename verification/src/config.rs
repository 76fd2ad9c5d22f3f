//! The policies of an engine.
use vstd::prelude::*;

verus! {

/// Three policies, chosen when an engine is made and fixed from then on.
#[derive(Clone, Copy, Debug, PartialEq, Eq, Structural)]
pub struct DebugMetricsConfig {
    /// When true, events will always be recorded and printed, even if there is no rule
    pub process_all_events: bool,
    /// Record label change events. Nothing in the engine consults this
    /// policy yet.
    pub record_label_changes: bool,
    /// Include all labels for every event
    pub all_labels_every_event: bool,
}

/// Types that have, beside their default, a value with everything switched
/// on.
pub trait DefaultExt: Sized {
    /// Whether everything is switched on, as in what `default_on` returns.
    spec fn is_on(&self) -> bool;

    fn default_on() -> (r: Self)
        ensures
            r.is_on(),
    ;
}

impl Default for DebugMetricsConfig {
    fn default() -> (r: Self)
        ensures
            r == (DebugMetricsConfig {
                process_all_events: false,
                record_label_changes: false,
                all_labels_every_event: false,
            }),
    {
        DebugMetricsConfig {
            process_all_events: false,
            record_label_changes: false,
            all_labels_every_event: false,
        }
    }
}

impl DefaultExt for DebugMetricsConfig {
    open spec fn is_on(&self) -> bool {
        self.process_all_events && self.record_label_changes && self.all_labels_every_event
    }

    fn default_on() -> (r: Self) {
        DebugMetricsConfig {
            process_all_events: true,
            record_label_changes: true,
            all_labels_every_event: true,
        }
    }
}

} // verus!
