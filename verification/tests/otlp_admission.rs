use observatory::otlp::admission::{metric_request_gate, metric_storage_error, trace_request_gate, trace_storage_error};
use observatory::otlp::error::OtlpError;
use observatory::otlp::admission::{
    partial_success, MetricAdmission, PartialSuccess, SpanAdmission, MAX_METRIC_POINTS_PER_REQUEST,
    MAX_SPANS_PER_REQUEST,
};
use observatory::otlp::metric_http::MAX_NORMALIZED_METRIC_BYTES;

#[test]
fn invalid_metric_point_is_reported_as_partial_success() {
    let mut tally = MetricAdmission::new();
    let count = tally.admit_count(1);
    assert_eq!(count, 1);
    tally.admit_bytes(count, 1);
    tally.normalization_failed(1);
    let (rejected, messages) = tally.summary(0);
    let partial = partial_success(rejected, &messages).unwrap();
    assert_eq!(partial.rejected, 1);
    assert!(partial.error_message.contains("invalid metric points rejected"));
}

#[test]
fn metric_points_past_the_request_limit_are_rejected() {
    let mut tally = MetricAdmission::new();
    let admitted = tally.admit_count(MAX_METRIC_POINTS_PER_REQUEST + 1);
    assert_eq!(admitted, MAX_METRIC_POINTS_PER_REQUEST);
    assert_eq!(tally.rejected, 1);
    assert!(tally.over_count_cap);
    let (rejected, messages) = tally.summary(0);
    let partial = partial_success(rejected, &messages).unwrap();
    assert_eq!(partial.rejected, 1);
    assert!(partial.error_message.contains("5000 metric point limit"));
}

#[test]
fn metric_limit_is_shared_across_metrics_of_one_request() {
    let mut tally = MetricAdmission::new();
    assert_eq!(tally.admit_count(4000), 4000);
    assert_eq!(tally.admit_count(1500), 1000);
    assert_eq!(tally.admit_count(7), 0);
    assert_eq!(tally.seen, 5507);
    assert_eq!(tally.rejected, 507);
    assert_eq!(tally.messages(), vec!["request exceeded 5000 metric point limit"]);
}

#[test]
fn metric_without_data_counts_as_one_rejection() {
    let mut tally = MetricAdmission::new();
    tally.reject_missing_data();
    assert_eq!(tally.rejected, 1);
    assert_eq!(tally.seen, 0);
    assert!(tally.invalid);
}

#[test]
fn byte_budget_rejects_points_that_no_longer_fit() {
    let mut tally = MetricAdmission::new();
    tally.admit_bytes(10, 7);
    assert_eq!(tally.rejected, 3);
    assert!(tally.over_byte_cap);
    assert!(tally.accept_point(MAX_NORMALIZED_METRIC_BYTES - 10));
    assert!(tally.accept_point(10));
    assert_eq!(tally.normalized_bytes, MAX_NORMALIZED_METRIC_BYTES);
    assert!(!tally.accept_point(1));
    assert_eq!(tally.rejected, 4);
    let (rejected, messages) = tally.summary(2);
    assert_eq!(rejected, 6);
    assert_eq!(
        messages,
        vec!["request exceeded normalized metric byte limit", "metric points rejected by storage validation"]
    );
}

#[test]
fn failed_normalization_of_nothing_still_rejects_one() {
    let mut tally = MetricAdmission::new();
    tally.normalization_failed(0);
    assert_eq!(tally.rejected, 1);
    tally.normalization_failed(4);
    assert_eq!(tally.rejected, 5);
}

#[test]
fn all_metric_messages_come_in_report_order() {
    let tally = MetricAdmission {
        rejected: 3,
        seen: 6000,
        normalized_bytes: 0,
        invalid: true,
        over_count_cap: true,
        over_byte_cap: true,
    };
    let (_, messages) = tally.summary(0);
    let partial = partial_success(3, &messages).unwrap();
    assert_eq!(
        partial.error_message,
        "invalid metric points rejected; request exceeded 5000 metric point limit; request exceeded normalized metric byte limit"
    );
}

#[test]
fn spans_past_the_request_limit_are_rejected() {
    let mut tally = SpanAdmission::new();
    let mut admitted = 0;
    for _ in 0..(MAX_SPANS_PER_REQUEST + 1) {
        if tally.admit_span() {
            admitted += 1;
        }
    }
    assert_eq!(admitted, MAX_SPANS_PER_REQUEST);
    let (rejected, messages) = tally.summary(0);
    let partial = partial_success(rejected, &messages).unwrap();
    assert_eq!(partial.rejected, 1);
    assert!(partial.error_message.contains("5000 span limit"));
}

#[test]
fn invalid_span_is_reported_as_partial_success() {
    let mut tally = SpanAdmission::new();
    assert!(tally.admit_span());
    tally.span_invalid();
    let (rejected, messages) = tally.summary(0);
    let partial = partial_success(rejected, &messages).unwrap();
    assert_eq!(partial.rejected, 1);
    assert!(partial.error_message.contains("invalid spans rejected"));
}

#[test]
fn blocked_storage_rejects_normalized_spans_as_partial_success() {
    let mut tally = SpanAdmission::new();
    assert!(tally.admit_span());
    let (rejected, messages) = tally.blocked_summary(1);
    let partial = partial_success(rejected, &messages).unwrap();
    assert_eq!(partial.rejected, 1);
    assert!(partial.error_message.contains("storage budget"));
    let (rejected, messages) = SpanAdmission::new().blocked_summary(0);
    assert_eq!(rejected, 0);
    assert!(messages.is_empty());
}

#[test]
fn storage_rejections_of_spans_are_reported() {
    let tally = SpanAdmission::new();
    let (rejected, messages) = tally.summary(2);
    assert_eq!(rejected, 2);
    assert_eq!(messages, vec!["spans rejected by storage validation"]);
}

#[test]
fn nothing_rejected_means_no_partial_success() {
    assert_eq!(partial_success(0, &["ignored"]), None);
    assert_eq!(
        partial_success(2, &["a", "b"]),
        Some(PartialSuccess { rejected: 2, error_message: "a; b".to_string() })
    );
    let huge = partial_success(usize::MAX, &[]).unwrap();
    assert_eq!(huge.rejected, i64::MAX);
    assert_eq!(huge.error_message, "");
}

#[test]
fn metric_requests_are_gated_in_order_and_storage_failures_classified() {
    assert_eq!(metric_request_gate(false, false, false), Err(OtlpError::Unauthorized));
    assert_eq!(metric_request_gate(true, false, false), Err(OtlpError::UnsupportedContentType));
    assert_eq!(metric_request_gate(true, true, false), Err(OtlpError::MetricIngestUnavailable));
    assert_eq!(metric_request_gate(true, true, true), Ok(()));
    assert_eq!(metric_storage_error(true, true), OtlpError::MetricStorageBlocked);
    assert_eq!(metric_storage_error(false, true), OtlpError::MetricStorageUnavailable);
    assert_eq!(metric_storage_error(false, false), OtlpError::MetricPersistenceFailed);
    assert!(metric_storage_error(false, true).retryable());
    assert!(!metric_storage_error(false, false).retryable());
}

#[test]
fn trace_requests_are_gated_in_order_and_pool_exhaustion_is_retryable() {
    assert_eq!(trace_request_gate(false, true, true), Err(OtlpError::Unauthorized));
    assert_eq!(trace_request_gate(true, false, true), Err(OtlpError::UnsupportedContentType));
    assert_eq!(trace_request_gate(true, true, false), Err(OtlpError::TraceIngestUnavailable));
    assert_eq!(trace_request_gate(true, true, true), Ok(()));
    let exhausted = trace_storage_error(true);
    assert_eq!(exhausted, OtlpError::TraceStorageUnavailable);
    assert_eq!(exhausted.status(), 503);
    assert_eq!(exhausted.retry_after(), Some("1"));
    assert_eq!(exhausted.code(), "trace_storage_unavailable");
    assert_eq!(trace_storage_error(false), OtlpError::TracePersistenceFailed);
    assert!(!trace_storage_error(false).retryable());
}
