//! Configuration of a recorder and its poller.

use std::sync::Arc;
use std::time::Duration;

use vstd::prelude::*;

use crate::event::{Level, MetricKind};
use crate::filter::StreamFilter;
use crate::key::KeyView;
use crate::poller;
use crate::poller::Poller;
use crate::recorder::TracingRecorder;
use crate::stream::StreamContext;

verus! {

/// A span of whole seconds.
pub uninterp spec fn seconds(secs: u64) -> Duration;

/// `Duration::from_secs` is a function of the number of seconds alone.
pub assume_specification[ Duration::from_secs ](secs: u64) -> (duration: Duration)
    ensures
        duration == seconds(secs),
;

/// Builds a [`TracingRecorder`] and its [`Poller`]. The hook of the poller, if one is set, is an
/// `H`. It is handed on as it is: nothing here can call it.
pub struct Builder<H> {
    interval: Duration,
    level: Level,
    scope: String,
    stream: Option<StreamFilter>,
    on_tick: Option<H>,
}

/// The mathematical value of a [`Builder`].
pub struct BuilderView<H> {
    pub interval: Duration,
    pub level: Level,
    pub scope: Seq<char>,
    pub stream: Option<StreamFilter>,
    pub on_tick: Option<H>,
}

/// The settings of a builder that nothing was set on.
pub open spec fn default_settings<H>() -> BuilderView<H> {
    BuilderView {
        interval: seconds(3),
        level: Level::Info,
        scope: Seq::empty(),
        stream: None,
        on_tick: None,
    }
}

impl<H> View for Builder<H> {
    type V = BuilderView<H>;

    closed spec fn view(&self) -> BuilderView<H> {
        BuilderView {
            interval: self.interval,
            level: self.level,
            scope: self.scope@,
            stream: self.stream,
            on_tick: self.on_tick,
        }
    }
}

impl<H> Default for Builder<H> {
    fn default() -> (builder: Self)
        ensures
            builder@ == default_settings::<H>(),
    {
        Builder {
            interval: Duration::from_secs(3),
            level: Level::Info,
            scope: String::new(),
            stream: None,
            on_tick: None,
        }
    }
}

impl<H> Builder<H> {
    /// Sets the interval between snapshots. The default is three seconds.
    pub fn snapshot_interval(self, interval: Duration) -> (builder: Self)
        ensures
            builder@ == (BuilderView { interval, ..self@ }),
    {
        Builder { interval, ..self }
    }

    /// Sets the level of snapshots and descriptions. The default is `Info`. The event of a streamed
    /// update has the level that its metric was registered with instead. Only `Info`, `Debug` and
    /// `Trace` are kept apart; the more severe levels count as `Info`.
    pub fn level(self, level: Level) -> (builder: Self)
        ensures
            builder@ == (BuilderView { level, ..self@ }),
    {
        Builder { level, ..self }
    }

    /// Sets the field `scope` of every event. The default is the empty text.
    pub fn scope(self, scope: &str) -> (builder: Self)
        ensures
            builder@ == (BuilderView { scope: scope@, ..self@ }),
    {
        Builder { scope: scope.to_owned(), ..self }
    }

    /// Enables the stream of an event per update, for the keys that `filter` lets through.
    pub fn stream(self, filter: StreamFilter) -> (builder: Self)
        ensures
            builder@ == (BuilderView { stream: Some(filter), ..self@ }),
    {
        Builder { stream: Some(filter), ..self }
    }

    /// Sets the hook that runs at the start of every tick, before the snapshot. A hook that was set
    /// before is replaced.
    pub fn on_tick<G>(self, hook: G) -> (builder: Builder<G>)
        ensures
            builder@ == (BuilderView {
                interval: self@.interval,
                level: self@.level,
                scope: self@.scope,
                stream: self@.stream,
                on_tick: Some(hook),
            }),
    {
        Builder {
            interval: self.interval,
            level: self.level,
            scope: self.scope,
            stream: self.stream,
            on_tick: Some(hook),
        }
    }

    /// Builds the recorder and the poller apart from each other, so that the recorder can be
    /// combined with others before it is installed.
    pub fn build(self) -> (parts: (TracingRecorder, Poller<H>))
        ensures
            parts.0@.counters.dom() == Set::<KeyView>::empty(),
            parts.0@.gauges.dom() == Set::<KeyView>::empty(),
            parts.0@.histograms.dom() == Set::<KeyView>::empty(),
            parts.0@.described == Set::<(Seq<char>, MetricKind)>::empty(),
            parts.0@.well_formed(),
            parts.0@.level == self@.level,
            parts.0@.scope == self@.scope,
            parts.0@.stream is Some <==> self@.stream is Some,
            parts.0@.stream matches Some(ctx) ==> ctx.scope@ == self@.scope && Some(ctx.filter)
                == self@.stream,
            parts.1@ == (poller::PollerView {
                interval: self@.interval,
                level: self@.level,
                scope: self@.scope,
                on_tick: self@.on_tick,
            }),
    {
        let stream = match self.stream {
            Some(filter) => Some(Arc::new(StreamContext { scope: self.scope.clone(), filter })),
            None => None,
        };
        let recorder = TracingRecorder::with_settings(self.level, self.scope.clone(), stream);
        let poller = Poller::with_settings(
            self.interval,
            self.level,
            self.scope,
            self.on_tick,
        );
        (recorder, poller)
    }
}

impl TracingRecorder {
    /// Starts configuring a recorder.
    pub fn builder() -> (builder: Builder<()>)
        ensures
            builder@ == default_settings::<()>(),
    {
        Builder::default()
    }
}

/// Until something is set, a builder means a snapshot every three seconds, at the level `Info`, with
/// an empty scope, no stream and no hook.
pub proof fn defaults<H>()
    ensures
        default_settings::<H>().interval == seconds(3),
        default_settings::<H>().level == Level::Info,
        default_settings::<H>().scope.len() == 0,
        default_settings::<H>().stream is None,
        default_settings::<H>().on_tick is None,
{
}

} // verus!
