//! A sink for the metrics of a process.
//!
//! Metrics are counters, gauges and histograms, each identified by a name and labels. The sink
//! collects what is emitted, and from time to time publishes, as sorted lines of text, the metrics
//! that have had values since the last time. Some metrics are also exported over OTLP as they are
//! emitted: for those the sink says what is to be exported.
//!
//! Each type has a view that models it, and the contracts are stated over the views. What holds
//! across functions is stated and proved in [`laws`], in [`line_laws`] (what published lines tell)
//! and in [`state_laws`] (how what is held moves).

pub mod data;
pub mod hdr;
pub mod index;
pub mod key;
pub mod laws;
pub mod line_laws;
pub mod otlp;
pub mod publisher;
pub mod sink;
pub mod state_laws;
pub mod text;

pub use data::{AtomicGauge, Histogram, Metric, MetricKind, ValueAndCount};
pub use hdr::HdrHistogram;
pub use key::MetricKey;
pub use otlp::{should_export_to_otlp, OtlpConfig, OtlpInstrument};
pub use publisher::{
    memory_report, publisher_step, MemoryReport, PublisherStep, Wakeup, AGGREGATION_PERIOD_SECS,
    AVAILABLE_MEMORY_GAUGE, PROCESS_MEMORY_GAUGE,
};
pub use sink::{
    MetricEntry, MetricsConfig, MetricsError, MetricsRecorder, MetricsSink, TARGET_NAME,
};
