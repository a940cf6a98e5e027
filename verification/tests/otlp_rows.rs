use observatory::otlp::metric_point::{
    build_metric_point, validate_metric_envelope, MetricContext, MetricEnvelope, PointAttributes, PointParts,
};
use observatory::otlp::metrics::MetricNormalizeError;
use observatory::otlp::span_input::{normalize_span, SpanParts};
use observatory::otlp::traces::TraceNormalizeError;

const RECEIVED: &str = "2026-01-01T00:00:00.000Z";

fn attributes(host: &str) -> PointAttributes {
    PointAttributes {
        host_name: host.to_string(),
        service_name: Some("svc".to_string()),
        service_version: None,
        ai_tool: Some("tool".to_string()),
        ai_project: Some("/home/p".to_string()),
        ai_session_id: None,
    }
}

fn context(ignore_start_time: bool, include_paths: bool) -> MetricContext {
    MetricContext {
        metric_name: "requests".to_string(),
        description: "d".to_string(),
        unit: "1".to_string(),
        instrument_kind: if ignore_start_time { "gauge".to_string() } else { "sum".to_string() },
        aggregation_temporality: if ignore_start_time { None } else { Some(2) },
        monotonic: if ignore_start_time { None } else { Some(true) },
        ignore_start_time,
        include_paths,
        resource_key_json: "{}".to_string(),
        scope_key_json: "{}".to_string(),
        resource_scope_json: r#"{"resource":{},"scope":{}}"#.to_string(),
        scope_name: None,
        scope_version: None,
        received_at: RECEIVED.to_string(),
        max_signal_attributes: 4,
    }
}

fn point(start: u64, time: u64) -> PointParts {
    PointParts {
        attribute_count: 1,
        exemplar_count: 0,
        start_time_unix_nano: start,
        time_unix_nano: time,
        normalized: attributes("host-a"),
        private: attributes("host-a"),
        attributes_json: r#"{"k":"v"}"#.to_string(),
        value_json: r#"{"as_int":3}"#.to_string(),
        exemplars: Ok(("[]".to_string(), vec![])),
    }
}

#[test]
fn gauge_points_drop_their_start_time_and_sums_keep_it() {
    let gauge = build_metric_point(&context(true, false), &point(5, 10)).unwrap();
    assert_eq!(gauge.start_time_unix_nano, None);
    assert_eq!(gauge.time_unix_nano, 10);
    assert_eq!(gauge.hostname, "host-a");
    assert_eq!(gauge.ai_project, None);
    assert_eq!(gauge.value_json, r#"{"as_int":3}"#);
    assert!(gauge.content_scrubbed);
    let sum = build_metric_point(&context(false, true), &point(5, 10)).unwrap();
    assert_eq!(sum.start_time_unix_nano, Some(5));
    assert_eq!(sum.ai_project.as_deref(), Some("/home/p"));
    assert_ne!(sum.point_key, gauge.point_key);
    assert_eq!(sum.point_key.len(), 64);
    let unset_start = build_metric_point(&context(false, true), &point(0, 10)).unwrap();
    assert_eq!(unset_start.start_time_unix_nano, None);
}

#[test]
fn metric_point_errors_come_in_check_order() {
    let c = context(false, false);
    let mut p = point(5, 10);
    p.attribute_count = 5;
    p.exemplar_count = 129;
    assert_eq!(
        build_metric_point(&c, &p).unwrap_err(),
        MetricNormalizeError::AttributeLimit { field: "point", actual: 5, maximum: 4 }
    );
    p.attribute_count = 4;
    assert_eq!(build_metric_point(&c, &p).unwrap_err(), MetricNormalizeError::ExemplarLimit { actual: 129, maximum: 128 });
    assert_eq!(build_metric_point(&c, &point(5, 0)).unwrap_err(), MetricNormalizeError::MissingPointTime);
    assert_eq!(
        build_metric_point(&c, &point(5, u64::MAX)).unwrap_err(),
        MetricNormalizeError::IntegerOverflow { field: "time_unix_nano" }
    );
    assert_eq!(
        build_metric_point(&c, &point(u64::MAX, 10)).unwrap_err(),
        MetricNormalizeError::IntegerOverflow { field: "start_time_unix_nano" }
    );
    assert_eq!(build_metric_point(&c, &point(11, 10)).unwrap_err(), MetricNormalizeError::TimeBeforeStart);
    let mut long_host = point(5, 10);
    long_host.normalized.host_name = "h".repeat(256);
    assert_eq!(
        build_metric_point(&c, &long_host).unwrap_err(),
        MetricNormalizeError::FieldTooLong { field: "hostname", maximum: 255 }
    );
    let mut bad_exemplar = point(5, 10);
    bad_exemplar.exemplars = Err(MetricNormalizeError::InvalidOptionalId { field: "exemplar.trace_id", expected: 16, actual: 3 });
    assert_eq!(
        build_metric_point(&c, &bad_exemplar).unwrap_err(),
        MetricNormalizeError::InvalidOptionalId { field: "exemplar.trace_id", expected: 16, actual: 3 }
    );
    let mut huge = point(5, 10);
    huge.value_json = "x".repeat(262_145);
    assert_eq!(
        build_metric_point(&c, &huge).unwrap_err(),
        MetricNormalizeError::MetadataTooLarge { field: "value", actual: 262_145, maximum: 262_144 }
    );
}

#[test]
fn metric_envelope_is_checked_before_points() {
    let envelope = MetricEnvelope {
        name: "m".to_string(),
        description: String::new(),
        unit: String::new(),
        resource_attribute_count: 0,
        scope: Some((0, "scope".to_string(), "1".to_string())),
        received_at: RECEIVED.to_string(),
        max_resource_attributes: 2,
    };
    assert_eq!(validate_metric_envelope(&envelope), Ok(()));
    let mut empty = envelope.clone();
    empty.name = String::new();
    assert_eq!(validate_metric_envelope(&empty), Err(MetricNormalizeError::EmptyMetricName));
    let mut crowded = envelope.clone();
    crowded.scope = Some((3, String::new(), String::new()));
    assert_eq!(
        validate_metric_envelope(&crowded),
        Err(MetricNormalizeError::AttributeLimit { field: "scope", actual: 3, maximum: 2 })
    );
    let mut late = envelope.clone();
    late.received_at = "yesterday".to_string();
    assert_eq!(validate_metric_envelope(&late), Err(MetricNormalizeError::InvalidReceivedAt));
}

fn span(start: u64, end: u64) -> SpanParts {
    SpanParts {
        trace_id: vec![1; 16],
        span_id: vec![2; 8],
        parent_span_id: vec![],
        trace_state: String::new(),
        flags: 1,
        name: "GET /".to_string(),
        kind: 2,
        start_time_unix_nano: start,
        end_time_unix_nano: end,
        status: Some((2, "boom".to_string())),
        resource_attribute_count: 1,
        scope: Some((0, "lib".to_string(), String::new())),
        span_attribute_count: 3,
        normalized: attributes("host-b"),
        resource_scope_json: r#"{"resource":{},"scope":{}}"#.to_string(),
        attributes_json: "{}".to_string(),
        max_resource_attributes: 2,
        max_signal_attributes: 3,
    }
}

#[test]
fn spans_become_rows_with_their_copied_fields() {
    let row = normalize_span(&span(10, 25), RECEIVED).unwrap();
    assert_eq!(row.trace_id, "01".repeat(16));
    assert_eq!(row.parent_span_id, None);
    assert_eq!(row.trace_state, None);
    assert_eq!((row.flags, row.span_kind, row.duration_nano), (1, 2, 15));
    assert_eq!(row.status_code, 2);
    assert_eq!(row.status_message.as_deref(), Some("boom"));
    assert_eq!(row.scope_name.as_deref(), Some("lib"));
    assert_eq!(row.scope_version, None);
    assert_eq!(row.hostname, "host-b");
    assert_eq!(row.events_json, "[]");
    assert_eq!(row.received_at, RECEIVED);
    assert!(!row.content_scrubbed);
}

#[test]
fn span_errors_come_in_check_order() {
    assert_eq!(normalize_span(&span(30, 25), RECEIVED).unwrap_err(), TraceNormalizeError::EndBeforeStart);
    let mut crowded = span(10, 25);
    crowded.span_attribute_count = 4;
    assert_eq!(
        normalize_span(&crowded, RECEIVED).unwrap_err(),
        TraceNormalizeError::AttributeLimit { field: "span", actual: 4, maximum: 3 }
    );
    assert_eq!(normalize_span(&span(10, 25), "not a time").unwrap_err(), TraceNormalizeError::InvalidReceivedAt);
    let mut named = span(10, 25);
    named.name = "n".repeat(1025);
    assert_eq!(
        normalize_span(&named, RECEIVED).unwrap_err(),
        TraceNormalizeError::FieldTooLong { field: "span_name", maximum: 1024 }
    );
    let mut no_status = span(10, 25);
    no_status.status = None;
    let row = normalize_span(&no_status, RECEIVED).unwrap();
    assert_eq!((row.status_code, row.status_message), (0, None));
}
