# metrics_exporter_tracing

A metrics recorder that reports what it stores as structured `tracing` events, with its logic
verified in Verus.

* Snapshots: every metric lives in an in-process registry. At a fixed interval each counter and
  gauge, and each histogram that has an observation, is reported by one event.
* Stream: where a filter is configured, the keys that it lets through also give one event per
  update. Histograms stream only through a list of their own, and a deny match always wins.
* Descriptions: the first description of a name and kind gives one event.
* Families: metric families that were aggregated elsewhere give one event per series.

## Layout

* `src/` is the verified library. It turns registrations, updates and ticks into plain events.
  Floating-point numbers travel through it as bit patterns.
* `app/` implements the traits of `metrics`, does the floating-point arithmetic of gauges and
  sketches, emits the events through `tracing`, and runs the poller thread.
* `tests/` runs the library with the outside crates linked.

## Events

Every event has the target `metrics`, the name `metric`, and the fields `event`, `scope` and
`kind`.

| `event`    | further fields                                                            |
|------------|---------------------------------------------------------------------------|
| `emit`     | `metric`, `name`, `labels`, `op`, `value`                                 |
| `snapshot` | `metric`, and `value` or `count`, `sum`, `p50`, `p90`, `p99`              |
| `snapshot` | `name`, `labels`, and `value` or the fields of an aggregated histogram    |
| `describe` | `name`, `description`, `unit`                                             |

`metric` is the rendered key, `name` or `name{k=v,..}`. `labels` is a `Debug` map. `op` is
`increment` or `absolute` for counters, `set`, `increment` or `decrement` for gauges, and `sample`
for histograms.

An `emit` event has the level that its metric was registered with; every other event has the level
that the builder was given. Only the levels `TRACE`, `DEBUG` and `INFO` occur; the more severe ones
count as `INFO`.

## Laws

What holds of single functions stands in their contracts. What holds of several together is proved
as laws:

* `src/laws.rs`: a poll reports every metric once, with what it stands at; all handles of a metric
  update one number; an update touches no other metric.
* `src/drain.rs`: each histogram has one sketch, which is handed on from poll to poll.
* `src/run.rs`: over a whole run of registrations, updates, observations and polls, each observation
  counts exactly once, no raw observation is kept, polling twice reports the same, and a per-update
  stream changes no snapshot.
* `src/cell.rs`: no update of a cell is lost.
* `src/poller.rs`: a poller waits, runs its hook and reports, in this order and forever.

Laws that speak of what cells and buckets hold start from what their atomic operations do when no
other thread comes in between: that an update changes its cell as it says, that a reading is what
the cell holds, that draining takes out what waits. Nothing here proves that of the atomic
operations themselves.

## What is trusted

The contracts of the calls into `globset`, `metrics_util`, `prometheus_client` and a few functions
of the standard library are believed, not proved. Each stands next to its call, with the claim in
words.

The calls on `AtomicU64` in `src/cell.rs` are not checked either: Verus knows nothing of what an
atomic holds. Each call is recorded right next to it, in a value that only that file can make. That
the record fits the call is for a reader to see; everything that is done with the record is proved.
