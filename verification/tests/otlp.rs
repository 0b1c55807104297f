use mountpoint_metrics::{
    should_export_to_otlp, MetricKey, MetricKind, MetricsConfig, MetricsError, MetricsRecorder,
    MetricsSink, OtlpConfig,
};

fn key(name: &str, labels: &[(&str, &str)]) -> MetricKey {
    let labels = labels.iter().map(|(k, v)| (k.to_string(), v.to_string())).collect();
    MetricKey::from_parts(name, labels)
}

fn exporting_recorder() -> MetricsRecorder {
    let config = OtlpConfig::new("http://localhost:4317");
    let sink = MetricsSink::new(Some(MetricsConfig::Otlp(config))).unwrap();
    MetricsRecorder { sink }
}

#[test]
fn otlp_allow_list() {
    assert!(should_export_to_otlp("fuse.op_latency_us"));
    assert!(should_export_to_otlp("s3.requests"));
    assert!(should_export_to_otlp("s3.meta_requests"));
    assert!(!should_export_to_otlp("some.random.metric"));
    assert!(!should_export_to_otlp("not.allowed"));
}

#[test]
fn otlp_allow_list_is_complete() {
    let allowed = [
        "fuse.op_latency_us",
        "fuse.io_size",
        "fuse.op_failures",
        "fuse.mp_workers.total_count",
        "fuse.mp_workers.idle_count",
        "fuse.mp_workers.busy_count",
        "s3.requests",
        "s3.requests.failures",
        "s3.requests.total_latency_us",
        "s3.requests.canceled",
        "process.memory_usage",
        "system.available_memory",
        "s3.meta_requests",
        "s3.meta_requests.failures",
        "s3.meta_requests.total_latency_us",
        "s3.meta_requests.first_byte_latency_us",
    ];
    for name in allowed {
        assert!(should_export_to_otlp(name), "{name}");
        assert!(!should_export_to_otlp(&name[1..]));
        assert!(!should_export_to_otlp(&name[..name.len() - 1]));
        assert!(!should_export_to_otlp(&format!("{name}.more")));
    }
    assert!(!should_export_to_otlp(""));
    assert!(!should_export_to_otlp("s3.requests\u{e9}"));
}

#[test]
fn test_otlp_endpoint_validation() {
    // An endpoint that is no URL of a known protocol
    let otlp_config = OtlpConfig::new("not-a-valid-uri");
    let result = MetricsSink::new(Some(MetricsConfig::Otlp(otlp_config)));
    assert!(result.is_err());
    let error = result.unwrap_err().message();
    assert!(
        error.contains("Invalid OTLP endpoint configuration"),
        "Error message should indicate invalid configuration: {error}",
    );

    // No OTLP config (should succeed)
    let result = MetricsSink::new(None);
    assert!(result.is_ok());

    // A syntactically valid endpoint (should succeed)
    let otlp_config = OtlpConfig::new("http://example.com:4318/v1/metrics");
    let result = MetricsSink::new(Some(MetricsConfig::Otlp(otlp_config)));
    assert!(result.is_ok());
}

#[test]
fn endpoint_protocols() {
    let accepted = |endpoint: &str| {
        let config = OtlpConfig::new(endpoint).with_interval_secs(1);
        assert_eq!(config.interval_secs, Some(1));
        assert_eq!(config.endpoint, endpoint);
        MetricsSink::new(Some(MetricsConfig::Otlp(config))).is_ok()
    };
    assert!(accepted("http://"));
    assert!(accepted("https://collector"));
    assert!(!accepted("http:/"));
    assert!(!accepted("HTTP://collector"));
    assert!(!accepted(" http://collector"));
    assert!(!accepted("ftp://collector"));
    assert!(!accepted(""));
    assert_eq!(OtlpConfig::new("http://a").interval_secs, None);
}

#[test]
fn error_messages() {
    assert_eq!(
        MetricsError::InvalidEndpoint.message(),
        "Invalid OTLP endpoint configuration: endpoint must start with http:// or https://",
    );
    let sink = MetricsSink::new(None).unwrap();
    let error = sink.with_exporter(Err("no route".to_string())).unwrap_err();
    assert!(matches!(&error, MetricsError::Exporter(reason) if reason == "no route"));
    assert_eq!(
        error.message(),
        "Failed to initialize OTLP metrics exporter: no route. \
         If metrics export is not required, omit the OTLP configuration.",
    );
    let sink = MetricsSink::new(None).unwrap();
    assert!(sink.with_exporter(Ok(())).is_ok());
}

#[test]
fn test_otlp_real_time_recording() {
    let mut recorder = exporting_recorder();

    let counter = key("test_counter", &[("op", "read")]);
    recorder.register_counter(&counter);
    recorder.sink.increment_counter(&counter, 42);
    let gauge = key("test_gauge", &[("status", "active")]);
    recorder.register_gauge(&gauge);
    recorder.sink.set_gauge(&gauge, 100.0_f64.to_bits());
    let histogram = key("test_histogram", &[("method", "get")]);
    recorder.register_histogram(&histogram);
    recorder.sink.record_histogram(&histogram, 1.5_f64 as u64);

    assert_eq!(recorder.sink.len(), 3);

    let metric_names: Vec<String> =
        recorder.sink.entries.iter().map(|entry| entry.key.name.clone()).collect();

    assert!(metric_names.contains(&"test_counter".to_string()));
    assert!(metric_names.contains(&"test_gauge".to_string()));
    assert!(metric_names.contains(&"test_histogram".to_string()));
}

#[test]
fn test_otlp_vs_no_otlp() {
    let mut recorder_no_otlp = MetricsRecorder { sink: MetricsSink::new(None).unwrap() };
    let mut recorder_otlp = exporting_recorder();
    let counter = key("test_counter", &[]);

    recorder_no_otlp.register_counter(&counter);
    recorder_no_otlp.sink.increment_counter(&counter, 1);
    recorder_otlp.register_counter(&counter);
    recorder_otlp.sink.increment_counter(&counter, 1);

    assert_eq!(recorder_no_otlp.sink.len(), 1);
    assert_eq!(recorder_otlp.sink.len(), 1);
}

#[test]
fn export_does_not_show_in_lines() {
    let gauge_text = |bits: u64| f64::from_bits(bits).to_string();
    let mut recorders =
        [MetricsRecorder { sink: MetricsSink::new(None).unwrap() }, exporting_recorder()];
    let mut published = Vec::new();
    for recorder in &mut recorders {
        let requests = key("s3.requests", &[("op", "get")]);
        recorder.register_counter(&requests);
        recorder.sink.increment_counter(&requests, 7);
        let memory = key("process.memory_usage", &[]);
        recorder.register_gauge(&memory);
        recorder.sink.set_gauge(&memory, 2.5_f64.to_bits());
        published.push(recorder.sink.publish(&gauge_text));
    }
    assert_eq!(published[0], ["process.memory_usage: 2.5", "s3.requests[op=get]: 7"]);
    assert_eq!(published[0], published[1]);
}

#[test]
fn instruments_of_exported_metrics() {
    let mut recorder = exporting_recorder();
    let counter = key("s3.requests", &[("op", "get"), ("kind", "meta")]);
    let instrument = recorder.register_counter(&counter).expect("is exported");
    assert_eq!(instrument.name, "s3.requests");
    assert_eq!(instrument.unit, None);
    assert_eq!(
        instrument.attributes,
        [
            ("op".to_string(), "get".to_string()),
            ("kind".to_string(), "meta".to_string()),
        ],
    );
    // Once only
    assert!(recorder.register_counter(&counter).is_none());
    assert_eq!(recorder.sink.increment_counter(&counter, 3), Some(3));
    assert_eq!(recorder.sink.set_counter(&counter, 9), Some(9));

    let gauge = key("process.memory_usage", &[]);
    let instrument =
        recorder.sink.gauge(&gauge, Some(metrics::Unit::Bytes)).expect("is exported");
    assert_eq!(instrument.unit, Some(metrics::Unit::Bytes));
    // The instrument records the value that was replaced
    assert_eq!(recorder.sink.set_gauge(&gauge, 5), Some(0));
    assert_eq!(recorder.sink.update_gauge(&gauge, |bits| bits + 2), Some(5));
    assert_eq!(recorder.sink.set_gauge(&gauge, 1), Some(7));

    let histogram = key("fuse.io_size", &[]);
    assert!(recorder.register_histogram(&histogram).is_some());
    assert!(recorder.sink.record_histogram(&histogram, 1));

    let local = key("prefetch.reset", &[]);
    assert!(recorder.register_counter(&local).is_none());
    assert_eq!(recorder.sink.increment_counter(&local, 3), None);

    let mut recorder = MetricsRecorder { sink: MetricsSink::new(None).unwrap() };
    assert!(recorder.register_counter(&counter).is_none());
    assert_eq!(recorder.sink.increment_counter(&counter, 3), None);
    assert!(recorder.register_histogram(&histogram).is_none());
    assert!(!recorder.sink.record_histogram(&histogram, 1));
    assert!(recorder.register_gauge(&gauge).is_none());
    assert_eq!(recorder.sink.set_gauge(&gauge, 5), None);
}

#[test]
fn described_metrics_are_not_exported() {
    let mut recorder = exporting_recorder();
    recorder.describe_counter("s3.requests", Some(metrics::Unit::Count));
    let counter = key("s3.requests", &[]);
    assert_eq!(recorder.sink.kind(&counter), Some(MetricKind::Counter));
    assert!(recorder.register_counter(&counter).is_none());
    assert_eq!(recorder.sink.increment_counter(&counter, 3), None);
    // The description is not that of the metric with labels
    let labelled = key("s3.requests", &[("op", "get")]);
    let instrument = recorder.register_counter(&labelled).expect("is exported");
    assert_eq!(instrument.unit, None);
}
