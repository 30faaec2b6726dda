//! Handles that announce every update of their metric with an event of its own.
//!
//! A handle only exists for a key that already passed the filter, so an update never checks the
//! filter again.

use std::sync::atomic::AtomicU64;
use std::sync::Arc;

use vstd::prelude::*;

use crate::cell::{apply, load, replace, Applied, CellOp, Loaded, Refused};
use crate::event;
use crate::event::{make_event, Body, Double, Event, Level, MetricKind, Number, Op};
use crate::filter::StreamFilter;
use crate::key;
use crate::key::{debug_labels, render_key, MetricKey};
use crate::registry::HistogramCell;

verus! {

/// What all streaming handles of a recorder share. The level is carried by each handle.
#[derive(Debug)]
pub struct StreamContext {
    pub scope: String,
    pub filter: StreamFilter,
}

/// The texts and settings with which a handle announces its metric.
#[derive(Debug)]
pub struct Announcer {
    metric: String,
    name: String,
    labels: String,
    level: Level,
    ctx: Arc<StreamContext>,
}

/// The mathematical value of an [`Announcer`].
#[verifier::ext_equal]
pub struct AnnouncerView {
    pub metric: Seq<char>,
    pub name: Seq<char>,
    pub labels: Seq<char>,
    pub level: Level,
    pub scope: Seq<char>,
}

impl AnnouncerView {
    /// The event of one update.
    pub open spec fn event(self, kind: MetricKind, op: Op, value: Number) -> event::EventView {
        event::event_of(
            self.level,
            self.scope,
            event::BodyView::Emit {
                metric: self.metric,
                name: self.name,
                labels: self.labels,
                kind,
                op,
                value,
            },
        )
    }
}

/// The announcer of `key`: it gives the rendered key, the bare name, and the labels as a `Debug`
/// map.
pub open spec fn announcer_of(
    key: key::KeyView,
    level: Level,
    ctx: StreamContext,
) -> AnnouncerView {
    AnnouncerView {
        metric: key::rendered(key),
        name: key.name,
        labels: key::debug_map(key.labels),
        level,
        scope: ctx.scope@,
    }
}

impl View for Announcer {
    type V = AnnouncerView;

    closed spec fn view(&self) -> AnnouncerView {
        AnnouncerView {
            metric: self.metric@,
            name: self.name@,
            labels: self.labels@,
            level: self.level,
            scope: self.ctx.scope@,
        }
    }
}

impl Announcer {
    /// An announcer for `key`.
    pub fn new(key: &MetricKey, level: Level, ctx: Arc<StreamContext>) -> (announcer: Self)
        ensures
            announcer@ == announcer_of(key@, level, *ctx),
    {
        Announcer {
            metric: render_key(key),
            name: key.name.clone(),
            labels: debug_labels(&key.labels),
            level,
            ctx,
        }
    }

    /// The event of one update.
    pub fn announce(&self, kind: MetricKind, op: Op, value: Number) -> (event: Event)
        ensures
            event@ == self@.event(kind, op, value),
    {
        let body = Body::Emit {
            metric: self.metric.clone(),
            name: self.name.clone(),
            labels: self.labels.clone(),
            kind,
            op,
            value,
        };
        make_event(self.level, self.ctx.scope.as_str(), body)
    }
}

/// The record of an update, with the event that announces it.
pub struct Update {
    pub applied: Applied,
    pub event: Event,
}

/// A counter handle that updates the registry's own cell and announces every update.
#[derive(Debug)]
pub struct StreamingCounter {
    pub cell: Arc<AtomicU64>,
    pub announcer: Announcer,
}

impl StreamingCounter {
    /// A streaming handle for the counter `key` with the registry's `cell`.
    pub fn new(
        cell: Arc<AtomicU64>,
        key: &MetricKey,
        level: Level,
        ctx: Arc<StreamContext>,
    ) -> (handle: Self)
        ensures
            handle.cell == cell,
            handle.announcer@ == announcer_of(key@, level, *ctx),
    {
        StreamingCounter { cell, announcer: Announcer::new(key, level, ctx) }
    }

    /// Adds `value` to the cell, wrapping around, and returns the event to emit.
    pub fn increment(&self, value: u64) -> (update: Update)
        ensures
            update.applied.cell() == *self.cell,
            update.applied.op() == CellOp::Add(value),
            update.applied.follows_from_op(),
            update.event@ == self.announcer@.event(
                MetricKind::Counter,
                Op::Increment,
                Number::Unsigned(value),
            ),
    {
        let applied = apply(&self.cell, CellOp::Add(value));
        let number = Number::Unsigned(value);
        let event = self.announcer.announce(MetricKind::Counter, Op::Increment, number);
        Update { applied, event }
    }

    /// Raises the cell to `value` where it holds less, so that callers out of order cannot roll
    /// it back, and returns the event to emit.
    pub fn absolute(&self, value: u64) -> (update: Update)
        ensures
            update.applied.cell() == *self.cell,
            update.applied.op() == CellOp::Max(value),
            update.applied.follows_from_op(),
            update.event@ == self.announcer@.event(
                MetricKind::Counter,
                Op::Absolute,
                Number::Unsigned(value),
            ),
    {
        let applied = apply(&self.cell, CellOp::Max(value));
        let number = Number::Unsigned(value);
        let event = self.announcer.announce(MetricKind::Counter, Op::Absolute, number);
        Update { applied, event }
    }
}

/// A gauge handle that shares the registry's own cell, which holds the bit pattern of the gauge,
/// and announces every update. The arithmetic of an increment is floating-point and is left to the
/// owner of the handle, who retries with what the gauge holds until an attempt goes through.
#[derive(Debug)]
pub struct StreamingGauge {
    pub cell: Arc<AtomicU64>,
    pub announcer: Announcer,
}

impl StreamingGauge {
    /// A streaming handle for the gauge `key` with the registry's `cell`.
    pub fn new(
        cell: Arc<AtomicU64>,
        key: &MetricKey,
        level: Level,
        ctx: Arc<StreamContext>,
    ) -> (handle: Self)
        ensures
            handle.cell == cell,
            handle.announcer@ == announcer_of(key@, level, *ctx),
    {
        StreamingGauge { cell, announcer: Announcer::new(key, level, ctx) }
    }

    /// Stores `value` in the cell and returns the event to emit.
    pub fn set(&self, value: Double) -> (update: Update)
        ensures
            update.applied.cell() == *self.cell,
            update.applied.op() == CellOp::Store(value.bits),
            update.applied.follows_from_op(),
            update.event@ == self.announcer@.event(
                MetricKind::Gauge,
                Op::Assign,
                Number::Float(value),
            ),
    {
        let applied = apply(&self.cell, CellOp::Store(value.bits));
        let event = self.announcer.announce(MetricKind::Gauge, Op::Assign, Number::Float(value));
        Update { applied, event }
    }

    /// The bit pattern that the gauge holds now.
    pub fn current(&self) -> (loaded: Loaded)
        ensures
            loaded.cell() == *self.cell,
    {
        load(&self.cell)
    }

    /// Completes an increment by `value` from what the exchange of the gauge's cell came to: an
    /// exchange that took place is announced, one that did not is passed on.
    pub fn incremented(&self, value: Double, exchange: Result<Applied, Refused>) -> (outcome: Result<
        Update,
        Refused,
    >)
        ensures
            exchange matches Ok(applied) ==> {
                &&& outcome is Ok
                &&& outcome->Ok_0.applied == applied
                &&& outcome->Ok_0.event@ == self.announcer@.event(
                    MetricKind::Gauge,
                    Op::Increment,
                    Number::Float(value),
                )
            },
            exchange matches Err(refused) ==> outcome == Err::<Update, Refused>(refused),
    {
        match exchange {
            Ok(applied) => {
                let number = Number::Float(value);
                let event = self.announcer.announce(MetricKind::Gauge, Op::Increment, number);
                Ok(Update { applied, event })
            },
            Err(refused) => Err(refused),
        }
    }

    /// Tries to complete an increment by `value`: `sum` is what it makes of `current`.
    /// Succeeds, with the event to emit, if the gauge still holds `current`; otherwise returns
    /// what it holds for the next attempt. Either way the record is of the exchange of `current` for
    /// `sum` on the gauge's cell; whether it takes place rests on the other threads.
    pub fn try_increment(&self, value: Double, current: u64, sum: Double) -> (outcome: Result<
        Update,
        Refused,
    >)
        ensures
            outcome matches Ok(update) ==> {
                &&& update.applied.cell() == *self.cell
                &&& update.applied.op() == CellOp::Store(sum.bits)
                &&& update.applied.expected() == Some(current)
                &&& update.applied.after_spec() == sum.bits
                &&& update.applied.follows_from_op()
                &&& update.event@ == self.announcer@.event(
                    MetricKind::Gauge,
                    Op::Increment,
                    Number::Float(value),
                )
            },
            outcome matches Err(refused) ==> {
                &&& refused.cell() == *self.cell
                &&& refused.expected() == current
                &&& refused.next() == sum.bits
            },
    {
        self.incremented(value, replace(&self.cell, current, sum.bits))
    }

    /// Completes a decrement by `value` from what the exchange of the gauge's cell came to: an
    /// exchange that took place is announced, one that did not is passed on.
    pub fn decremented(&self, value: Double, exchange: Result<Applied, Refused>) -> (outcome: Result<
        Update,
        Refused,
    >)
        ensures
            exchange matches Ok(applied) ==> {
                &&& outcome is Ok
                &&& outcome->Ok_0.applied == applied
                &&& outcome->Ok_0.event@ == self.announcer@.event(
                    MetricKind::Gauge,
                    Op::Decrement,
                    Number::Float(value),
                )
            },
            exchange matches Err(refused) ==> outcome == Err::<Update, Refused>(refused),
    {
        match exchange {
            Ok(applied) => {
                let number = Number::Float(value);
                let event = self.announcer.announce(MetricKind::Gauge, Op::Decrement, number);
                Ok(Update { applied, event })
            },
            Err(refused) => Err(refused),
        }
    }

    /// Tries to complete a decrement by `value`: `difference` is what it makes of `current`.
    /// Succeeds, with the event to emit, if the gauge still holds `current`; otherwise returns
    /// what it holds for the next attempt. Either way the record is of the exchange of `current` for
    /// `difference` on the gauge's cell; whether it takes place rests on the other threads.
    pub fn try_decrement(&self, value: Double, current: u64, difference: Double) -> (outcome: Result<
        Update,
        Refused,
    >)
        ensures
            outcome matches Ok(update) ==> {
                &&& update.applied.cell() == *self.cell
                &&& update.applied.op() == CellOp::Store(difference.bits)
                &&& update.applied.expected() == Some(current)
                &&& update.applied.after_spec() == difference.bits
                &&& update.applied.follows_from_op()
                &&& update.event@ == self.announcer@.event(
                    MetricKind::Gauge,
                    Op::Decrement,
                    Number::Float(value),
                )
            },
            outcome matches Err(refused) ==> {
                &&& refused.cell() == *self.cell
                &&& refused.expected() == current
                &&& refused.next() == difference.bits
            },
    {
        self.decremented(value, replace(&self.cell, current, difference.bits))
    }
}

/// A histogram handle that shares the registry's own bucket and announces every observation. It
/// only exists for keys that match the filter's list of histograms. Observations are
/// floating-point numbers: the owner of the handle records them, then asks for the event.
pub struct StreamingHistogram {
    pub cell: HistogramCell,
    pub announcer: Announcer,
}

impl StreamingHistogram {
    /// A streaming handle for the histogram `key` with the registry's `cell`.
    pub fn new(
        cell: HistogramCell,
        key: &MetricKey,
        level: Level,
        ctx: Arc<StreamContext>,
    ) -> (handle: Self)
        ensures
            handle.cell == cell,
            handle.announcer@ == announcer_of(key@, level, *ctx),
    {
        StreamingHistogram { cell, announcer: Announcer::new(key, level, ctx) }
    }

    /// The event to emit after `value` was recorded.
    pub fn recorded(&self, value: Double) -> (event: Event)
        ensures
            event@ == self.announcer@.event(
                MetricKind::Histogram,
                Op::Sample,
                Number::Float(value),
            ),
    {
        self.announcer.announce(MetricKind::Histogram, Op::Sample, Number::Float(value))
    }
}

/// A handle announces each update by an event of its metric: with the rendered key, the bare name
/// and the labels as a `Debug` map, with the level that the metric was registered with and the scope
/// of the recorder, and with the kind, the operation and the value of the update as they are.
pub proof fn updates_are_announced_as_they_are(
    key: key::KeyView,
    level: Level,
    ctx: StreamContext,
    kind: MetricKind,
    op: Op,
    value: Number,
)
    ensures
        ({
            let event = announcer_of(key, level, ctx).event(kind, op, value);
            &&& event.scope == ctx.scope@
            &&& event.level == match level {
                Level::Trace => Level::Trace,
                Level::Debug => Level::Debug,
                _ => Level::Info,
            }
            &&& event.body == (event::BodyView::Emit {
                metric: key::rendered(key),
                name: key.name,
                labels: key::debug_map(key.labels),
                kind,
                op,
                value,
            })
        }),
{
}

} // verus!
