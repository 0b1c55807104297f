//! What is exported over OTLP, the protocol of OpenTelemetry, and to where.

use vstd::prelude::*;

use crate::key::{duplicate_labels, label_views, KeyView, LabelView, MetricKey};
use crate::text::{begins_with, has_prefix, same_text};

verus! {

broadcast use vstd::string::group_string_axioms;

/// The units of the crate `metrics`.
#[verifier::external_type_specification]
#[verifier::external_body]
pub struct ExUnit(metrics::Unit);

/// Where and how often to export.
#[derive(Debug)]
pub struct OtlpConfig {
    /// The URL of the collector.
    pub endpoint: String,
    /// The seconds between two exports, where they were chosen.
    pub interval_secs: Option<u64>,
}

impl OtlpConfig {
    /// Exports to `endpoint`, at the exporter's own interval.
    pub fn new(endpoint: &str) -> (config: OtlpConfig)
        ensures
            config.endpoint@ == endpoint@,
            config.interval_secs == None::<u64>,
    {
        OtlpConfig { endpoint: endpoint.to_string(), interval_secs: None }
    }

    /// Exports every `interval_secs` seconds.
    pub fn with_interval_secs(self, interval_secs: u64) -> (config: OtlpConfig)
        ensures
            config.endpoint@ == self.endpoint@,
            config.interval_secs == Some(interval_secs),
    {
        OtlpConfig { endpoint: self.endpoint, interval_secs: Some(interval_secs) }
    }

    /// Whether the endpoint names one of the two protocols that an exporter speaks.
    pub fn has_valid_endpoint(&self) -> (valid: bool)
        ensures
            valid == valid_endpoint(self.endpoint@),
    {
        has_prefix(self.endpoint.as_str(), "http://") || has_prefix(
            self.endpoint.as_str(),
            "https://",
        )
    }
}

/// Whether an endpoint begins with `http://` or `https://`.
pub open spec fn valid_endpoint(endpoint: Seq<char>) -> bool {
    begins_with(endpoint, "http://"@) || begins_with(endpoint, "https://"@)
}

/// The metrics that are exported.
pub open spec fn stable_metric(name: Seq<char>) -> bool {
    ||| name == "fuse.op_latency_us"@
    ||| name == "fuse.io_size"@
    ||| name == "fuse.op_failures"@
    ||| name == "fuse.mp_workers.total_count"@
    ||| name == "fuse.mp_workers.idle_count"@
    ||| name == "fuse.mp_workers.busy_count"@
    ||| name == "s3.requests"@
    ||| name == "s3.requests.failures"@
    ||| name == "s3.requests.total_latency_us"@
    ||| name == "s3.requests.canceled"@
    ||| name == "process.memory_usage"@
    ||| name == "system.available_memory"@
}

/// The metrics that are exported while they are tried out.
pub open spec fn experimental_metric(name: Seq<char>) -> bool {
    ||| name == "s3.meta_requests"@
    ||| name == "s3.meta_requests.failures"@
    ||| name == "s3.meta_requests.total_latency_us"@
    ||| name == "s3.meta_requests.first_byte_latency_us"@
}

/// Whether a metric of this name is exported.
pub open spec fn exported(name: Seq<char>) -> bool {
    stable_metric(name) || experimental_metric(name)
}

/// Whether a metric of this name is exported.
pub fn should_export_to_otlp(metric_name: &str) -> (yes: bool)
    ensures
        yes == exported(metric_name@),
{
    let stable = same_text(metric_name, "fuse.op_latency_us")
        || same_text(metric_name, "fuse.io_size")
        || same_text(metric_name, "fuse.op_failures")
        || same_text(metric_name, "fuse.mp_workers.total_count")
        || same_text(metric_name, "fuse.mp_workers.idle_count")
        || same_text(metric_name, "fuse.mp_workers.busy_count")
        || same_text(metric_name, "s3.requests")
        || same_text(metric_name, "s3.requests.failures")
        || same_text(metric_name, "s3.requests.total_latency_us")
        || same_text(metric_name, "s3.requests.canceled")
        || same_text(metric_name, "process.memory_usage")
        || same_text(metric_name, "system.available_memory");
    let experimental = same_text(metric_name, "s3.meta_requests")
        || same_text(metric_name, "s3.meta_requests.failures")
        || same_text(metric_name, "s3.meta_requests.total_latency_us")
        || same_text(metric_name, "s3.meta_requests.first_byte_latency_us");
    stable || experimental
}

/// What an [`OtlpInstrument`] holds.
#[verifier::ext_equal]
pub struct InstrumentView {
    pub name: Seq<char>,
    pub unit: Option<metrics::Unit>,
    pub attributes: Seq<LabelView>,
}

/// The instrument to create for an exported metric.
#[derive(Debug)]
pub struct OtlpInstrument {
    pub name: String,
    pub unit: Option<metrics::Unit>,
    /// What goes along with each exported value.
    pub attributes: Vec<(String, String)>,
}

impl View for OtlpInstrument {
    type V = InstrumentView;

    open spec fn view(&self) -> InstrumentView {
        InstrumentView {
            name: self.name@,
            unit: self.unit,
            attributes: label_views(self.attributes@),
        }
    }
}

/// The instrument for the metric with this key and unit: its name, and its labels as attributes.
pub open spec fn instrument_for(key: KeyView, unit: Option<metrics::Unit>) -> InstrumentView {
    InstrumentView { name: key.name, unit, attributes: key.labels }
}

impl OtlpInstrument {
    /// The instrument for the metric with this key and unit.
    pub fn for_key(key: &MetricKey, unit: Option<metrics::Unit>) -> (instrument: OtlpInstrument)
        ensures
            instrument@ == instrument_for(key@, unit),
            instrument.name@ == key.name@,
            instrument.unit == unit,
            instrument.attributes.len() == key.labels.len(),
            forall|i: int|
                0 <= i < key.labels.len() ==> (#[trigger] instrument.attributes[i]).0@
                    == key.labels[i].0@ && instrument.attributes[i].1@ == key.labels[i].1@,
    {
        let attributes = duplicate_labels(&key.labels);
        assert(label_views(attributes@).len() == label_views(key.labels@).len());
        assert forall|i: int| 0 <= i < key.labels.len() implies (#[trigger] attributes[i]).0@
            == key.labels[i].0@ && attributes[i].1@ == key.labels[i].1@ by {
            assert(label_views(attributes@)[i] == label_views(key.labels@)[i]);
        }
        OtlpInstrument { name: key.name.clone(), unit, attributes }
    }
}

} // verus!
