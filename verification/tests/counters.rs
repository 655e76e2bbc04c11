use idlectl::counters::{parse, published, request_for, Sample};

fn whole(value: &str) -> Option<u64> {
    let value = value.parse::<f64>().ok()?;
    if !value.is_finite() || value < 0.0 {
        return None;
    }
    Some(value as u64)
}

fn sample(body: &str) -> Option<Sample> {
    let wholes = published(body)
        .iter()
        .map(|(_, value)| whole(value))
        .collect();
    parse(body, &wholes)
}

const BODY: &str = "\
# HELP svc_tokens_total Tokens processed.
# TYPE svc_tokens_total counter
svc_tokens_total 1200
# TYPE svc_requests_processing gauge
svc_requests_processing 0
# TYPE svc_queue_depth gauge
svc_queue_depth 7
";

#[test]
fn only_declared_counters_are_summed() {
    let sample = sample(BODY).expect("counters present");
    assert_eq!(sample.counters, 1200);
    assert_eq!(sample.in_flight, 0);
}

#[test]
fn an_in_flight_gauge_is_recognised_by_name() {
    let body = BODY.replace("svc_requests_processing 0", "svc_requests_processing 2");
    let sample = sample(&body).expect("counters present");
    assert_eq!(sample.in_flight, 2);
    assert_eq!(sample.counters, 1200);
}

#[test]
fn labels_and_timestamps_do_not_derail_the_value() {
    let body = "# TYPE a_total counter\na_total{code=\"200\",path=\"/v1\"} 42\n";
    assert_eq!(sample(body).expect("parsed").counters, 42);
}

#[test]
fn an_untyped_body_sums_every_numeric_sample() {
    let sample = sample("alpha 3\nbeta 4\n").expect("parsed");
    assert_eq!(sample.counters, 7);
}

#[test]
fn a_body_with_no_samples_is_not_a_reading() {
    assert!(sample("# HELP only comments\n").is_none());
    assert!(sample("").is_none());
}

#[test]
fn https_is_refused_with_a_reason() {
    let err = request_for("https://localhost/metrics").unwrap_err();
    assert!(err.contains("https is not supported"), "{err}");
}

#[test]
fn a_non_http_url_is_refused() {
    let err = request_for("/var/run/thing.sock").unwrap_err();
    assert!(err.contains("not an http:// URL"), "{err}");
}

#[test]
fn a_timestamp_is_not_the_value() {
    let body = "# TYPE a_total counter\na_total{code=\"200\"} 42 1700000000\n";
    assert_eq!(sample(body), Some(Sample { counters: 42, in_flight: 0 }));
    let bare = "# TYPE a_total counter\na_total 42 1700000000\n";
    assert_eq!(sample(bare), Some(Sample { counters: 42, in_flight: 0 }));
    let untyped = "alpha 3 1700000000\nbeta\t4\t1700000000\n";
    assert_eq!(sample(untyped), Some(Sample { counters: 7, in_flight: 0 }));
}

#[test]
fn what_labels_hold_is_not_the_value() {
    for line in [
        "a_total{path=\"/a b\"} 42",
        "a_total{path=\"/a b\"} 42 1700000000",
        "a_total{path=\"} 7\"} 42 1700000000",
        "a_total{path=\"\\\"} 7\"} 42 1700000000",
        "a_total{path=\"\\\\\"} 42 1700000000",
        "a_total{code=\"200\", path=\"/v1\"} 42",
        "a_total {code=\"200\"}  42  1700000000",
        "  a_total{}\t42  ",
        "a_total{code=\"200\" 42",
    ] {
        let found = published(line);
        assert_eq!(
            found,
            vec![("a_total".to_owned(), "42".to_owned())],
            "{line}"
        );
    }
    for line in ["", "  ", "a_total", "a_total{code=\"200\"}", "a_total{", "# a 1"] {
        assert!(published(line).is_empty(), "{line}");
    }
}
