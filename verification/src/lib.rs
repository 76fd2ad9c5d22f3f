//! Counters, labels and a log of their changes, for debugging complex code.
pub mod config;
pub mod debug_metrics;
pub mod drop_hook;
pub mod event;
pub mod key_map;
pub mod key_set;
pub mod label_iter;
pub mod laws;
pub mod model;
pub mod order;
pub mod pattern;
pub mod render;

pub use config::{DebugMetricsConfig, DefaultExt};
pub use debug_metrics::{DebugMetrics, DebugMetricsTrait};
pub use drop_hook::DropHook;
pub use event::EventType;
pub use key_map::KeyMap;
pub use key_set::KeySet;
pub use label_iter::{LabelIter, NoLabels};
