# mountpoint_metrics

A verified metrics sink. It collects counters, gauges and histograms, publishes those that have
had values as sorted lines of text, and decides what is exported over OTLP.

- `src/` is the library, verified with Verus.
  - `data`: the values of single metrics, and their text.
  - `hdr`: the histograms of the crate `hdrhistogram`.
  - `key`: the identifier of a metric, and when two identifiers mean one metric.
  - `index`: the index from identifiers to entries, held in a `dashmap::DashMap`.
  - `sink`: the sink, its configuration, and the recorder in front of it.
  - `otlp`: which metrics are exported, and with which instruments.
  - `publisher`: what the publishing thread does.
  - `text`: comparing, writing and ordering text.
  - `laws`: what holds across functions.
- `app/` hooks the library up to the `metrics` facade, to `tracing`, to `sysinfo` and to
  OpenTelemetry. It also holds what computes with floating-point numbers: the library carries the
  value of a gauge as the bits of its representation.
- `tests/` runs the library.

The library changes its state through `&mut` alone, so `app/` keeps the sink behind a mutex.
What the library takes on trust from other crates and from std is marked
`#[verifier::external_body]` or `#[verifier::external_type_specification]`, each with a comment
that says what is relied on.
