use metrics::Unit;
use mountpoint_metrics::data::{format_counter, histogram_line};
use mountpoint_metrics::{
    memory_report, publisher_step, AtomicGauge, HdrHistogram, Histogram, MemoryReport, Metric,
    MetricKey, MetricKind, MetricsRecorder, MetricsSink, PublisherStep, ValueAndCount, Wakeup,
    AGGREGATION_PERIOD_SECS, TARGET_NAME,
};

const TEST_COUNTER: &str = "test_counter";
const TEST_GAUGE: &str = "test_gauge";
const TEST_HISTOGRAM: &str = "test_histogram";

fn key(name: &str, labels: &[(&str, &str)]) -> MetricKey {
    let labels = labels.iter().map(|(k, v)| (k.to_string(), v.to_string())).collect();
    MetricKey::from_parts(name, labels)
}

fn recorder() -> MetricsRecorder {
    MetricsRecorder { sink: MetricsSink::new(None).unwrap() }
}

fn increment(recorder: &mut MetricsRecorder, name: &str, labels: &[(&str, &str)], value: u64) {
    let key = key(name, labels);
    recorder.register_counter(&key);
    recorder.sink.increment_counter(&key, value);
}

fn set(recorder: &mut MetricsRecorder, name: &str, labels: &[(&str, &str)], value: f64) {
    let key = key(name, labels);
    recorder.register_gauge(&key);
    recorder.sink.set_gauge(&key, value.to_bits());
}

fn record(recorder: &mut MetricsRecorder, name: &str, labels: &[(&str, &str)], value: f64) {
    let key = key(name, labels);
    recorder.register_histogram(&key);
    recorder.sink.record_histogram(&key, value as u64);
}

fn gauge_text(bits: u64) -> String {
    format!("{}", f64::from_bits(bits))
}

#[test]
fn basic_metrics() {
    let mut recorder = recorder();
    // Run twice to check reset works
    for _ in 0..2 {
        increment(&mut recorder, TEST_COUNTER, &[("type", "get")], 1);
        increment(&mut recorder, TEST_COUNTER, &[("type", "put")], 1);
        increment(&mut recorder, TEST_COUNTER, &[("type", "get")], 2);
        increment(&mut recorder, TEST_COUNTER, &[("type", "put")], 2);
        increment(&mut recorder, TEST_COUNTER, &[("type", "get")], 3);
        increment(&mut recorder, TEST_COUNTER, &[("type", "put")], 4);

        set(&mut recorder, TEST_GAUGE, &[("type", "processing")], 5.0);
        set(&mut recorder, TEST_GAUGE, &[("type", "in_queue")], 5.0);
        set(&mut recorder, TEST_GAUGE, &[("type", "processing")], 2.0);
        set(&mut recorder, TEST_GAUGE, &[("type", "in_queue")], 3.0);

        record(&mut recorder, TEST_HISTOGRAM, &[("type", "get")], 3.0);
        record(&mut recorder, TEST_HISTOGRAM, &[("type", "put")], 4.0);
        record(&mut recorder, TEST_HISTOGRAM, &[("type", "put")], 4.0);

        for entry in recorder.sink.entries.iter_mut() {
            let key = &entry.key;
            assert_eq!(key.labels.len(), 1, "{key:?} has no labels");
            let label = (key.labels[0].0.as_str(), key.labels[0].1.as_str());
            match &mut entry.metric {
                Metric::Counter(inner) => {
                    assert_eq!(key.name, TEST_COUNTER);
                    let (sum, n) = inner.load_and_reset().expect("should have a value");
                    assert_eq!(n, 3);
                    if label == ("type", "get") {
                        assert_eq!(sum, 6);
                    } else if label == ("type", "put") {
                        assert_eq!(sum, 7);
                    } else {
                        panic!("wrong label");
                    }
                }
                Metric::Gauge(inner) => {
                    assert_eq!(key.name, TEST_GAUGE);
                    let value = inner.load_if_changed().map(f64::from_bits);
                    if label == ("type", "processing") {
                        assert_eq!(value, Some(2.0));
                    } else if label == ("type", "in_queue") {
                        assert_eq!(value, Some(3.0));
                    } else {
                        panic!("wrong label");
                    }
                }
                Metric::Histogram(inner) => {
                    assert_eq!(key.name, TEST_HISTOGRAM);
                    inner.run_and_reset(|histogram: &HdrHistogram| {
                        if label == ("type", "get") {
                            assert_eq!(histogram.len(), 1);
                            assert_eq!(histogram.count_at(3), 1);
                        } else if label == ("type", "put") {
                            assert_eq!(histogram.len(), 2);
                            assert_eq!(histogram.count_at(4), 2);
                        }
                    });
                }
            }
        }
    }

    // Check that each metric is zeroed (returns None) after the end of the loop reset it
    for entry in recorder.sink.entries.iter_mut() {
        match &mut entry.metric {
            Metric::Counter(inner) => assert!(inner.load_and_reset().is_none()),
            Metric::Gauge(inner) => assert!(inner.load_if_changed().is_none()),
            Metric::Histogram(inner) => {
                assert!(inner.run_and_reset(|_: &HdrHistogram| panic!("unreachable")).is_none())
            }
        }
    }

    // Set the gauges to zero and check they emit their change only once
    set(&mut recorder, TEST_GAUGE, &[("type", "processing")], 0.0);
    set(&mut recorder, TEST_GAUGE, &[("type", "in_queue")], 0.0);
    let mut gauges = 0;
    for entry in recorder.sink.entries.iter_mut() {
        let Metric::Gauge(inner) = &mut entry.metric else {
            continue;
        };
        // We want to emit once to reflect that it's changed to 0, and then not emit again
        assert!(inner.load_if_changed().is_some());
        assert!(inner.load_if_changed().is_none());
        gauges += 1;
    }
    assert_eq!(gauges, 2);
}

#[test]
fn units_support() {
    let mut recorder = recorder();

    recorder.describe_counter("bytes_counter", Some(Unit::Bytes));
    recorder.describe_gauge("time_gauge", Some(Unit::Milliseconds));
    recorder.describe_histogram("count_histogram", Some(Unit::Count));

    increment(&mut recorder, "bytes_counter", &[], 1024);
    set(&mut recorder, "time_gauge", &[], 500.0);
    record(&mut recorder, "count_histogram", &[], 5.0);

    for entry in recorder.sink.entries.iter() {
        match entry.key.name.as_str() {
            "bytes_counter" => assert_eq!(entry.unit, Some(Unit::Bytes)),
            "time_gauge" => assert_eq!(entry.unit, Some(Unit::Milliseconds)),
            "count_histogram" => assert_eq!(entry.unit, Some(Unit::Count)),
            _ => panic!("Unexpected metric: {}", entry.key.name),
        }
    }
    assert_eq!(recorder.sink.len(), 3);
}

#[test]
fn first_registration_counts() {
    let mut recorder = recorder();
    let gauge = key("queue", &[]);
    recorder.sink.gauge(&gauge, Some(Unit::Count));
    recorder.sink.gauge(&gauge, Some(Unit::Bytes));
    recorder.describe_gauge("queue", Some(Unit::Seconds));
    recorder.describe_counter("queue", None);
    assert_eq!(recorder.sink.len(), 1);
    assert_eq!(recorder.sink.unit(&gauge), Some(Unit::Count));
    assert_eq!(recorder.sink.kind(&gauge), Some(MetricKind::Gauge));
    let other = key("stack", &[]);
    assert_eq!(recorder.sink.unit(&other), None);
    assert_eq!(recorder.sink.kind(&other), None);
}

#[test]
fn labels_identify_metrics_in_any_order() {
    let mut recorder = recorder();
    increment(&mut recorder, "c", &[("a", "1"), ("b", "2")], 1);
    increment(&mut recorder, "c", &[("b", "2"), ("a", "1")], 2);
    increment(&mut recorder, "d", &[("a", "1"), ("b", "2"), ("c", "3")], 4);
    increment(&mut recorder, "d", &[("c", "3"), ("a", "1"), ("b", "2")], 8);
    // Two labels with one label key may be exchanged, but not among three labels
    increment(&mut recorder, "e", &[("a", "1"), ("a", "2")], 16);
    increment(&mut recorder, "e", &[("a", "2"), ("a", "1")], 32);
    increment(&mut recorder, "f", &[("a", "1"), ("a", "2"), ("b", "3")], 64);
    increment(&mut recorder, "f", &[("a", "2"), ("a", "1"), ("b", "3")], 128);
    increment(&mut recorder, "f", &[("b", "3"), ("a", "1"), ("a", "2")], 256);
    assert_eq!(
        recorder.sink.publish(&gauge_text),
        [
            "c[a=1,b=2]: 3 (n=2)",
            "d[a=1,b=2,c=3]: 12 (n=2)",
            "e[a=1,a=2]: 48 (n=2)",
            "f[a=1,a=2,b=3]: 320 (n=2)",
            "f[a=2,a=1,b=3]: 128",
        ],
    );
}

#[test]
fn labels_and_names_tell_apart() {
    let mut recorder = recorder();
    increment(&mut recorder, "c", &[], 1);
    increment(&mut recorder, "c", &[("a", "")], 2);
    increment(&mut recorder, "c", &[("a", "1")], 3);
    increment(&mut recorder, "ca", &[], 4);
    assert_eq!(recorder.sink.len(), 4);
    assert_eq!(
        recorder.sink.publish(&gauge_text),
        ["c: 1", "c[a=1]: 3", "c[a=]: 2", "ca: 4"],
    );
}

#[test]
fn metrics_that_read_alike_are_both_published() {
    let mut recorder = recorder();
    increment(&mut recorder, "c[a=1]", &[], 5);
    increment(&mut recorder, "c", &[("a", "1")], 5);
    assert_eq!(recorder.sink.publish(&gauge_text), ["c[a=1]: 5", "c[a=1]: 5"]);
}

#[test]
fn publish_sorts_and_resets() {
    let mut recorder = recorder();
    increment(&mut recorder, "z", &[], 3);
    increment(&mut recorder, "a", &[("op", "get"), ("ok", "true")], 10);
    increment(&mut recorder, "a", &[("op", "get"), ("ok", "true")], 90);
    increment(&mut recorder, "Z", &[], 0);
    increment(&mut recorder, "\u{e9}", &[], 5);
    set(&mut recorder, "g", &[], 0.1);
    record(&mut recorder, "h", &[], 7.9);
    recorder.describe_counter("unused", None);
    let lines = recorder.sink.publish(&gauge_text);
    assert_eq!(
        lines,
        [
            "Z: 0",
            "a[op=get,ok=true]: 100 (n=2)",
            "g: 0.1",
            "h: n=1: min=7 p10=7 p50=7 avg=7.00 p90=7 p99=7 p99.9=7 max=7",
            "z: 3",
            "\u{e9}: 5",
        ],
    );
    assert!(recorder.sink.publish(&gauge_text).is_empty());
    assert_eq!(recorder.sink.len(), 7);

    // A gauge keeps its value
    recorder.sink.update_gauge(&key("g", &[]), |bits| (f64::from_bits(bits) + 1.0).to_bits());
    increment(&mut recorder, "z", &[], 4);
    assert_eq!(recorder.sink.publish(&gauge_text), ["g: 1.1", "z: 4"]);
}

#[test]
fn counter_sum_and_count() {
    let mut counter = ValueAndCount::default();
    assert_eq!(counter.load_and_reset(), None);
    counter.increment(5);
    counter.increment(7);
    assert_eq!((counter.sum, counter.n), (12, 2));
    assert_eq!(counter.load_and_reset(), Some((12, 2)));
    assert_eq!(counter.load_and_reset(), None);
    // The sum goes on from zero
    counter.increment(u64::MAX);
    counter.increment(3);
    assert_eq!(counter.load_and_reset(), Some((2, 2)));
    // An increment by nothing is an increment
    counter.increment(0);
    assert_eq!(counter.load_and_reset(), Some((0, 1)));
    counter.increment(3);
    counter.increment(3);
    counter.absolute(11);
    assert_eq!(counter.load_and_reset(), Some((11, 1)));
    // So does the number of increments
    counter.n = usize::MAX;
    counter.increment(1);
    assert_eq!(counter.load_and_reset(), None);
}

#[test]
fn gauge_changes() {
    let mut gauge = AtomicGauge::default();
    assert_eq!(gauge.load_if_changed(), None);
    assert_eq!(f64::from_bits(gauge.bits), 0.0);
    gauge.set(3.0_f64.to_bits());
    gauge.set(4.0_f64.to_bits());
    assert_eq!(gauge.load_if_changed().map(f64::from_bits), Some(4.0));
    assert_eq!(gauge.load_if_changed(), None);
    // The same value again is a change
    gauge.set(4.0_f64.to_bits());
    assert_eq!(gauge.load_if_changed().map(f64::from_bits), Some(4.0));
    gauge.update(|bits| (f64::from_bits(bits) - 1.5).to_bits());
    assert_eq!(gauge.load_if_changed().map(f64::from_bits), Some(2.5));
}

#[test]
fn text_of_metrics() {
    let text = gauge_text;
    let mut counter = Metric::counter();
    assert_eq!(counter.kind(), MetricKind::Counter);
    assert_eq!(counter.fmt_and_reset(&text), None);
    counter.as_counter().increment(1234567890);
    assert_eq!(counter.fmt_and_reset(&text), Some("1234567890".to_string()));
    counter.as_counter().increment(u64::MAX);
    counter.as_counter().increment(0);
    assert_eq!(counter.fmt_and_reset(&text), Some("18446744073709551615 (n=2)".to_string()));
    assert_eq!(counter.fmt_and_reset(&text), None);

    let mut gauge = Metric::gauge();
    assert_eq!(gauge.kind(), MetricKind::Gauge);
    assert_eq!(gauge.fmt_and_reset(&text), None);
    gauge.as_gauge().set(1024.0_f64.to_bits());
    assert_eq!(gauge.fmt_and_reset(&text), Some("1024".to_string()));
    assert_eq!(gauge.fmt_and_reset(&text), None);

    let mut histogram = Metric::histogram();
    assert_eq!(histogram.kind(), MetricKind::Histogram);
    assert_eq!(histogram.fmt_and_reset(&text), None);
    for value in 1..=100 {
        histogram.as_histogram().record(value);
    }
    assert_eq!(histogram.as_histogram().len(), 100);
    assert_eq!(
        histogram.fmt_and_reset(&text),
        Some(
            "n=100: min=1 p10=10 p50=50 avg=50.50 p90=90 p99=99 p99.9=100 max=100".to_string(),
        ),
    );
    assert_eq!(histogram.fmt_and_reset(&text), None);
}

#[test]
fn text_of_figures() {
    assert_eq!(
        histogram_line(9, 1, 2, 3, "4.25", 5, 6, 7, u64::MAX),
        "n=9: min=1 p10=2 p50=3 avg=4.25 p90=5 p99=6 p99.9=7 max=18446744073709551615",
    );
    assert_eq!(format_counter(10, 1), "10");
    assert_eq!(format_counter(10, 0), "10 (n=0)");
    assert_eq!(format_counter(0, 10), "0 (n=10)");
}

#[test]
fn counter_emissions_are_counted_once() {
    let mut counter = ValueAndCount::default();
    let mut told = (0, 0);
    for round in 0..4_u64 {
        for value in 0..round {
            counter.increment(value + 10);
        }
        match counter.load_and_reset() {
            Some((sum, n)) => told = (told.0 + sum, told.1 + n),
            None => assert_eq!(round, 0),
        }
    }
    counter.increment(100);
    // 10, then 10 and 11, then 10, 11 and 12
    assert_eq!(told, (64, 6));
    assert_eq!((counter.sum, counter.n), (100, 1));

    // What setting the counter replaces is not told; what follows is added
    counter.increment(1);
    counter.absolute(40);
    counter.increment(2);
    counter.increment(3);
    assert_eq!(counter.load_and_reset(), Some((45, 3)));
    counter.absolute(40);
    assert_eq!(counter.load_and_reset(), Some((40, 1)));
    assert_eq!(counter.load_and_reset(), None);
}

#[test]
fn set_counter_is_published() {
    let mut recorder = recorder();
    increment(&mut recorder, "c", &[], 7);
    recorder.sink.set_counter(&key("c", &[]), 20);
    increment(&mut recorder, "c", &[], 3);
    assert_eq!(recorder.sink.publish(&gauge_text), ["c: 23 (n=2)"]);
    recorder.sink.set_counter(&key("c", &[]), 20);
    assert_eq!(recorder.sink.publish(&gauge_text), ["c: 20"]);
    assert!(recorder.sink.publish(&gauge_text).is_empty());
}

#[test]
fn histogram_values_are_read_once() {
    let mut histogram = Histogram::new();
    let mut read = 0;
    for value in 0..10 {
        histogram.record(value);
        if value % 4 == 3 {
            read += histogram.run_and_reset(|values: &HdrHistogram| values.len()).unwrap();
        }
    }
    assert_eq!((read, histogram.len()), (8, 2));
    assert_eq!(histogram.run_and_reset(|values: &HdrHistogram| values.count_at(9)), Some(1));
    assert_eq!(histogram.run_and_reset(|values: &HdrHistogram| values.len()), None);
}

#[test]
fn histogram_precision() {
    let text = gauge_text;
    let mut histogram = Metric::histogram();
    for value in [255, 257, 1_000_003] {
        histogram.as_histogram().record(value);
    }
    // 257 counts as 256 or 257, and 1_000_003 as 999_424 up to 1_003_519
    assert_eq!(
        histogram.fmt_and_reset(&text),
        Some(
            "n=3: min=255 p10=255 p50=257 avg=333994.67 p90=1003519 p99=1003519 \
             p99.9=1003519 max=1003519"
                .to_string(),
        ),
    );
    histogram.as_histogram().record(1_000_003);
    let text_of_one = histogram.fmt_and_reset(&text).unwrap();
    assert!(text_of_one.starts_with("n=1: min=999424 "), "{text_of_one}");
}

#[test]
fn histogram_extremes() {
    let text = gauge_text;
    let mut histogram = Histogram::new();
    histogram.record(0);
    histogram.record(u64::MAX - 1);
    let counted = histogram.run_and_reset(|histogram: &HdrHistogram| {
        (histogram.len(), histogram.count_at(0), histogram.count_at(u64::MAX - 1))
    });
    assert_eq!(counted, Some((2, 1, 1)));
    assert_eq!(histogram.len(), 0);

    let mut metric = Metric::histogram();
    metric.as_histogram().record(u64::MAX);
    let line = metric.fmt_and_reset(&text).unwrap();
    assert!(line.starts_with("n=1: min=18446744073709551615 "), "{line}");
    assert!(line.ends_with(" max=18446744073709551615"), "{line}");
    // The largest integer is no level of a percentile
    assert!(line.contains(" p50=18446744073709551614 "), "{line}");
    metric.as_histogram().record(u64::MAX - 1);
    let line = metric.fmt_and_reset(&text).unwrap();
    assert!(line.starts_with("n=1: min=18374686479671623680 "), "{line}");
    assert!(line.ends_with(" max=18446744073709551614"), "{line}");
    metric.as_histogram().record(0);
    let line = metric.fmt_and_reset(&text).unwrap();
    assert_eq!(line, "n=1: min=0 p10=0 p50=0 avg=0.00 p90=0 p99=0 p99.9=0 max=0");
}

#[test]
fn publisher_stops_at_shutdown() {
    assert_eq!(publisher_step(Wakeup::PeriodOver), PublisherStep::PublishAndWait);
    assert_eq!(publisher_step(Wakeup::ShutdownRequested), PublisherStep::PublishAndStop);
    assert_eq!(publisher_step(Wakeup::HandleGone), PublisherStep::PublishAndStop);
    assert_eq!(AGGREGATION_PERIOD_SECS, 5);
    assert_eq!(TARGET_NAME, "mountpoint_s3_fs::metrics");
}

#[test]
fn memory_is_reported_when_it_changes() {
    assert_eq!(
        memory_report(0, Some(4096), 8192),
        Some(MemoryReport { process: 4096, available: 8192 }),
    );
    assert_eq!(memory_report(4096, Some(4096), 1), None);
    assert_eq!(memory_report(4096, None, 1), None);
    assert_eq!(memory_report(0, Some(0), 1), None);
}
