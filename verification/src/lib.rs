//! A metrics recorder that reports what it stores as structured events: aggregated snapshots at a
//! fixed interval and, where a filter asks for it, one event per update.
//!
//! This crate is the logic of such a recorder, with its contracts proved. It turns registrations,
//! updates and ticks into plain [`Event`] values; a thin layer around it talks to `metrics` and
//! `tracing`.
//!
//! * [`key`]: metric keys and the texts rendered from them.
//! * [`globs`] and [`filter`]: which keys stream an event per update.
//! * [`registry`], [`cell`] and [`stream`]: where metrics are stored, how their cells are updated,
//!   and the handles that announce every update.
//! * [`recorder`], [`poller`] and [`builder`]: registration, the periodic snapshot, and the
//!   settings of both.
//! * [`bucket`], [`sketch`] and [`drain`]: the observations that wait, the histogram sketches that
//!   stay from one snapshot to the next, and how the ones get into the others.
//! * [`prometheus`]: snapshots of metric families that were aggregated elsewhere.
//! * [`laws`] and [`run`]: what holds of registrations, updates and snapshots together, and over a
//!   whole run of them.
//! * [`event`] and [`error`]: what is emitted, and what can go wrong.

pub mod bucket;
pub mod builder;
pub mod cell;
pub mod drain;
pub mod error;
pub mod event;
pub mod filter;
pub mod globs;
pub mod key;
pub mod laws;
pub mod poller;
pub mod prometheus;
pub mod recorder;
pub mod registry;
pub mod run;
pub mod sketch;
pub mod stream;

pub use builder::Builder;
pub use error::BuildError;
pub use event::{Double, Event, Level, Sample};
pub use filter::{StreamFilter, StreamFilterBuilder};
pub use key::{Label, MetricKey};
pub use poller::{HistogramReading, Polled, Poller, Reported};
pub use recorder::TracingRecorder;
