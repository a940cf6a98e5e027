use observatory::otlp::entries::{hex_bytes, severity_from_number};
use observatory::otlp::error::OtlpError;
use observatory::otlp::metric_http::{
    admitted_points, encoded_varint_len, is_protobuf_content_type, length_delimited_field_len, metric_envelope_encoded_len,
    metric_normalization_budget, MAX_NORMALIZED_METRIC_BYTES,
};
use observatory::otlp::metrics::{
    bucket_total, check_chars as metric_check_chars, check_value_limit, checked_i64 as metric_checked_i64,
    encode_json as metric_encode_json, validate_bucket_layout, MetricNormalizeError, MAX_DISTRIBUTION_VALUES,
    MAX_HISTOGRAM_BUCKETS, MAX_METADATA_JSON_BYTES,
};
use observatory::otlp::metrics_payload::{exemplar_ids, optional_hex_id, point_key, PointKeyParts};
use observatory::otlp::privacy::{
    attribute_treatment, email_hash, AttributeTreatment, PrivacyPolicy,
    is_command_content_key, is_email_key, is_path_key, is_prompt_content_key, is_tool_content_key,
    is_user_identity_key,
};
use observatory::otlp::traces_payload::BoundedJsonArray;
use observatory::otlp::traces::{
    check_chars, checked_i64, encode_json, hex_id, optional_parent_id, optional_text, span_header, TraceNormalizeError,
};

const ALL: &[OtlpError] = &[
    OtlpError::Unauthorized,
    OtlpError::DecodeFailed,
    OtlpError::UnsupportedContentType,
    OtlpError::Internal,
    OtlpError::WriterUnavailable,
    OtlpError::ChannelFull,
    OtlpError::MetricIngestUnavailable,
    OtlpError::MetricStorageBlocked,
    OtlpError::MetricStorageUnavailable,
    OtlpError::MetricPersistenceFailed,
    OtlpError::TraceIngestUnavailable,
    OtlpError::TraceStorageUnavailable,
    OtlpError::TracePersistenceFailed,
];

#[test]
fn all_lists_every_variant() {
    for error in ALL {
        match error {
            OtlpError::Unauthorized
            | OtlpError::DecodeFailed
            | OtlpError::UnsupportedContentType
            | OtlpError::Internal
            | OtlpError::WriterUnavailable
            | OtlpError::ChannelFull
            | OtlpError::MetricIngestUnavailable
            | OtlpError::MetricStorageBlocked
            | OtlpError::MetricStorageUnavailable
            | OtlpError::MetricPersistenceFailed
            | OtlpError::TraceIngestUnavailable
            | OtlpError::TraceStorageUnavailable
            | OtlpError::TracePersistenceFailed => {}
        }
    }
    let mut codes: Vec<&str> = ALL.iter().map(|error| error.code()).collect();
    codes.sort_unstable();
    let unique = codes.len();
    codes.dedup();
    assert_eq!(codes.len(), unique, "error codes must be distinct");
}

#[test]
fn retry_after_is_present_exactly_when_retryable() {
    for error in ALL {
        assert_eq!(
            error.retry_after().is_some(),
            error.retryable(),
            "{error:?} disagrees between retry_after and retryable"
        );
    }
}

#[test]
fn only_unconfigured_signals_are_non_retryable_503s() {
    let non_retryable_503: Vec<&str> =
        ALL.iter().filter(|error| error.status() == 503 && !error.retryable()).map(|error| error.code()).collect();
    assert_eq!(non_retryable_503, vec!["metric_ingest_unavailable", "trace_ingest_unavailable"]);
}

#[test]
fn the_surface_has_exactly_six_service_unavailable_codes() {
    let codes: Vec<&str> = ALL.iter().filter(|error| error.status() == 503).map(|error| error.code()).collect();
    assert_eq!(
        codes,
        vec![
            "channel_full",
            "metric_ingest_unavailable",
            "metric_storage_blocked",
            "metric_storage_unavailable",
            "trace_ingest_unavailable",
            "trace_storage_unavailable",
        ]
    );
}

#[test]
fn statuses_and_retry_after_values() {
    assert_eq!(OtlpError::Unauthorized.status(), 401);
    assert_eq!(OtlpError::DecodeFailed.status(), 400);
    assert_eq!(OtlpError::UnsupportedContentType.status(), 415);
    assert_eq!(OtlpError::TracePersistenceFailed.status(), 500);
    assert_eq!(OtlpError::ChannelFull.retry_after(), Some("1"));
    assert_eq!(OtlpError::Internal.retry_after(), None);
}

#[test]
fn privacy_key_classes() {
    assert!(is_prompt_content_key("gen_ai.prompt"));
    assert!(is_prompt_content_key("gen_ai.prompt.variable.name"));
    assert!(!is_prompt_content_key("gen_ai.prompt.variable"));
    assert!(is_tool_content_key("gen_ai.tool.call.result"));
    assert!(!is_tool_content_key("gen_ai.tool.name"));
    assert!(is_command_content_key("command"));
    assert!(!is_command_content_key("commands"));
    assert!(is_path_key("project.path"));
    assert!(is_path_key("file.path"));
    assert!(is_path_key("cwd"));
    assert!(!is_path_key("path"));
    assert!(is_email_key("email"));
    assert!(is_email_key("user.email"));
    assert!(is_email_key("contact_email"));
    assert!(!is_email_key("emails"));
    assert!(is_user_identity_key("username"));
    assert!(!is_user_identity_key("user.age"));
}

#[test]
fn severities_map_to_syslog_levels() {
    assert_eq!(severity_from_number(0), "info");
    assert_eq!(severity_from_number(1), "debug");
    assert_eq!(severity_from_number(8), "debug");
    assert_eq!(severity_from_number(9), "info");
    assert_eq!(severity_from_number(13), "warning");
    assert_eq!(severity_from_number(17), "err");
    assert_eq!(severity_from_number(24), "crit");
    assert_eq!(severity_from_number(25), "info");
    assert_eq!(severity_from_number(-3), "info");
}

#[test]
fn identifiers_are_lower_case_hex() {
    assert_eq!(hex_bytes(&[]), None);
    assert_eq!(hex_bytes(&[0x00, 0xab, 0x0f]), Some("00ab0f".to_string()));
    assert_eq!(hex_id(&[1, 2, 3, 4, 5, 6, 7, 8], 8, "span_id"), Ok("0102030405060708".to_string()));
    let error = hex_id(&[0; 8], 8, "span_id").unwrap_err();
    assert_eq!(error, TraceNormalizeError::InvalidId { field: "span_id", expected: 8, actual: 8 });
    assert_eq!(error.to_string(), "span_id must be exactly 8 non-zero bytes; got 8");
    assert_eq!(optional_parent_id(&[]), Ok(None));
    assert_eq!(optional_parent_id(&[0xff; 8]), Ok(Some("ffffffffffffffff".to_string())));
    assert_eq!(
        optional_parent_id(&[1, 2, 3]),
        Err(TraceNormalizeError::InvalidId { field: "parent_span_id", expected: 8, actual: 3 })
    );
}

#[test]
fn integer_and_text_limits() {
    assert_eq!(checked_i64(5, "start"), Ok(5));
    assert_eq!(checked_i64(u64::MAX, "start"), Err(TraceNormalizeError::IntegerOverflow { field: "start" }));
    assert_eq!(
        TraceNormalizeError::IntegerOverflow { field: "start" }.to_string(),
        "start does not fit SQLite INTEGER"
    );
    assert_eq!(check_chars("héllo", 5, "name"), Ok(()));
    assert_eq!(check_chars("héllo!", 5, "name"), Err(TraceNormalizeError::FieldTooLong { field: "name", maximum: 5 }));
    assert_eq!(optional_text(""), None);
    assert_eq!(optional_text("x"), Some("x".to_string()));
}

#[test]
fn varint_and_field_sizes() {
    assert_eq!(encoded_varint_len(0), 1);
    assert_eq!(encoded_varint_len(127), 1);
    assert_eq!(encoded_varint_len(128), 2);
    assert_eq!(encoded_varint_len(16_383), 2);
    assert_eq!(encoded_varint_len(16_384), 3);
    assert_eq!(encoded_varint_len(usize::MAX), if usize::BITS == 64 { 10 } else { 5 });
    assert_eq!(length_delimited_field_len(300), 1 + 2 + 300);
    assert_eq!(length_delimited_field_len(usize::MAX), usize::MAX);
}

#[test]
fn admitted_points_stop_at_the_first_point_over_budget() {
    // Each point costs (shared + len) * 6 + 1024 bytes.
    assert_eq!(admitted_points(&[10, 10, 10], 0, 3 * 1084, 10), 3);
    assert_eq!(admitted_points(&[10, 10, 10], 0, 3 * 1084 - 1, 10), 2);
    assert_eq!(admitted_points(&[10, 10, 10], 0, 3 * 1084, 1), 1);
    assert_eq!(admitted_points(&[10, 1000, 10], 0, 3 * 1084, 10), 1);
    assert_eq!(admitted_points(&[], 0, usize::MAX, 10), 0);
    assert_eq!(admitted_points(&[usize::MAX, 1], usize::MAX, usize::MAX, 5), 2);
}

#[test]
fn envelope_length_adds_each_metadata_field() {
    assert_eq!(metric_envelope_encoded_len(20, &[]), 20);
    assert_eq!(metric_envelope_encoded_len(20, &[5, 200]), 20 + (1 + 1 + 5) + (1 + 2 + 200));
    assert_eq!(metric_envelope_encoded_len(usize::MAX, &[1]), usize::MAX);
}

#[test]
fn normalization_budget_counts_shared_bytes_on_every_point() {
    let lens = [100usize, 100, 100];
    // shared = 10 + 3 + 20 + 4 + 30 = 67; each point (67 + 100) * 6 + 1024 = 2026 bytes.
    let budget = metric_normalization_budget(10, "abc", 20, "defg", 30, Some(&lens), MAX_NORMALIZED_METRIC_BYTES - 4052, 10);
    assert_eq!(budget, 2);
    assert_eq!(metric_normalization_budget(10, "abc", 20, "defg", 30, None, 0, 10), 0);
    assert_eq!(metric_normalization_budget(0, "", 0, "", 0, Some(&lens), usize::MAX, 10), 0);
}

#[test]
fn protobuf_content_type_ignores_case_parameters_and_spaces() {
    assert!(is_protobuf_content_type(Some("application/x-protobuf")));
    assert!(is_protobuf_content_type(Some("  Application/X-Protobuf ; charset=binary")));
    assert!(!is_protobuf_content_type(Some("application/json")));
    assert!(!is_protobuf_content_type(Some("application/x-protobuf+json")));
    assert!(!is_protobuf_content_type(None));
}

#[test]
fn bucket_layout_checks_cap_shape_then_total() {
    assert_eq!(validate_bucket_layout(&[1, 2, 3], 2, 6), Ok(()));
    assert_eq!(validate_bucket_layout(&[], 0, 0), Ok(()));
    assert_eq!(
        validate_bucket_layout(&[], 1, 0),
        Err(MetricNormalizeError::InvalidHistogramShape { buckets: 0, bounds: 1 })
    );
    assert_eq!(
        validate_bucket_layout(&[1, 2], 2, 3),
        Err(MetricNormalizeError::InvalidHistogramShape { buckets: 2, bounds: 2 })
    );
    assert_eq!(validate_bucket_layout(&[1, 2], 1, 4), Err(MetricNormalizeError::HistogramCountMismatch));
    assert_eq!(validate_bucket_layout(&[u64::MAX, 1], 1, 0), Err(MetricNormalizeError::HistogramCountMismatch));
    let many = vec![0u64; MAX_HISTOGRAM_BUCKETS + 1];
    assert_eq!(
        validate_bucket_layout(&many, 0, 0),
        Err(MetricNormalizeError::HistogramBucketLimit { actual: MAX_HISTOGRAM_BUCKETS + 1, maximum: MAX_HISTOGRAM_BUCKETS })
    );
}

#[test]
fn exponential_bucket_total_is_checked() {
    assert_eq!(bucket_total(None), Ok(0));
    assert_eq!(bucket_total(Some(&[3, 4])), Ok(7));
    assert_eq!(bucket_total(Some(&[u64::MAX, 1])), Err(MetricNormalizeError::ExponentialHistogramCountMismatch));
    assert_eq!(check_value_limit(MAX_DISTRIBUTION_VALUES), Ok(()));
    assert_eq!(
        check_value_limit(MAX_DISTRIBUTION_VALUES + 1),
        Err(MetricNormalizeError::DistributionValueLimit { actual: MAX_DISTRIBUTION_VALUES + 1, maximum: MAX_DISTRIBUTION_VALUES })
    );
}

#[test]
fn exemplar_ids_are_sorted_and_the_first_bad_id_is_reported() {
    let trace = vec![0xabu8; 16];
    let span = vec![0x01u8; 8];
    let ids = exemplar_ids(&vec![(trace.clone(), span.clone()), (Vec::new(), Vec::new()), (Vec::new(), span.clone())]).unwrap();
    assert_eq!(
        ids,
        vec![
            ":".to_string(),
            ":0101010101010101".to_string(),
            format!("{}:0101010101010101", "ab".repeat(16)),
        ]
    );
    let err = exemplar_ids(&vec![(trace.clone(), vec![0u8; 8]), (vec![1u8; 3], span.clone())]).unwrap_err();
    assert_eq!(err, MetricNormalizeError::InvalidOptionalId { field: "exemplar.span_id", expected: 8, actual: 8 });
    assert_eq!(err.to_string(), "exemplar.span_id must be empty or exactly 8 non-zero bytes; got 8");
    assert_eq!(optional_hex_id(&[], 16, "x"), Ok(None));
    assert_eq!(optional_hex_id(&[0, 1], 2, "x"), Ok(Some("0001".to_string())));
}

#[test]
fn metric_error_messages_match_their_fields() {
    assert_eq!(
        MetricNormalizeError::InvalidHistogramShape { buckets: 2, bounds: 5 }.to_string(),
        "histogram has 2 bucket counts and 5 explicit bounds"
    );
    assert_eq!(
        MetricNormalizeError::AttributeLimit { field: "point", actual: 129, maximum: 128 }.to_string(),
        "point contains 129 attributes; maximum is 128"
    );
    assert_eq!(MetricNormalizeError::MissingPointTime.to_string(), "point time must be non-zero");
}

fn policy(all: bool, hash_email: bool) -> PrivacyPolicy {
    PrivacyPolicy {
        include_prompt_content: all,
        include_tool_content: all,
        include_command_content: all,
        include_paths: all,
        hash_email,
        include_user_identity: all,
    }
}

#[test]
fn attribute_treatment_follows_the_policy_in_key_case_insensitively() {
    let strict = policy(false, true);
    assert_eq!(attribute_treatment("GEN_AI.PROMPT", &strict), AttributeTreatment::Redacted);
    assert_eq!(attribute_treatment("Project.Path", &strict), AttributeTreatment::Redacted);
    assert_eq!(attribute_treatment("user.email", &strict), AttributeTreatment::EmailHash);
    assert_eq!(attribute_treatment("user.id", &strict), AttributeTreatment::Redacted);
    assert_eq!(attribute_treatment("http.method", &strict), AttributeTreatment::Kept);
    let open = policy(true, false);
    assert_eq!(attribute_treatment("gen_ai.prompt", &open), AttributeTreatment::Kept);
    assert_eq!(attribute_treatment("user.email", &open), AttributeTreatment::Kept);
    let no_hash = policy(false, false);
    assert_eq!(attribute_treatment("user.email", &no_hash), AttributeTreatment::Redacted);
    assert_eq!(attribute_treatment("contact_email", &no_hash), AttributeTreatment::Kept);
}

#[test]
fn email_hash_trims_lowercases_and_hashes() {
    assert_eq!(
        email_hash(Some("  Alice@Example.COM \n")),
        "sha256:ff8d9819fc0e12bf0d24892e45987e249a28dce836a85cad60e28eaaa8c6d976"
    );
    assert_eq!(email_hash(Some("   ")), "[REDACTED]");
    assert_eq!(email_hash(None), "[REDACTED]");
}

fn key_parts() -> PointKeyParts {
    PointKeyParts {
        resource_json: r#"{"a":1}"#.to_string(),
        scope_json: "{}".to_string(),
        metric_name: "m".to_string(),
        instrument_kind: "gauge".to_string(),
        unit: "1".to_string(),
        aggregation_temporality: None,
        monotonic: None,
        start_time_unix_nano: None,
        time_unix_nano: 42,
        attributes_json: "{}".to_string(),
        value_json: r#"{"type":"int","value":1,"flags":0}"#.to_string(),
        exemplar_ids: Vec::new(),
    }
}

#[test]
fn point_key_hashes_length_framed_components() {
    assert_eq!(point_key(&key_parts()), "c1efb9157f311487b67d600ff599e93b7db04e101f6a9728d0658cb52ccf5528");
    let mut sum = key_parts();
    sum.instrument_kind = "sum".to_string();
    sum.aggregation_temporality = Some(2);
    sum.monotonic = Some(true);
    sum.start_time_unix_nano = Some(-5);
    sum.exemplar_ids = vec!["a:b".to_string(), "c:d".to_string()];
    assert_eq!(point_key(&sum), "d7582ae2276a8a60e4ed0608fdb70d920ff8eab305793da024614e28bf6761c4");
    sum.monotonic = Some(false);
    assert_eq!(point_key(&sum), "b507c8841a349d6a70c61e630e0c9f7c82f25785d6e2ad9d472e0538ab4ce10c");
    assert_eq!(point_key(&key_parts()), point_key(&key_parts()));
}

#[test]
fn metadata_json_is_capped_in_bytes() {
    let fits = "x".repeat(MAX_METADATA_JSON_BYTES);
    assert_eq!(metric_encode_json(fits.clone(), "attributes"), Ok(fits.clone()));
    assert_eq!(encode_json(fits.clone(), "resource"), Ok(fits));
    let over = "é".repeat(MAX_METADATA_JSON_BYTES / 2 + 1);
    assert_eq!(
        metric_encode_json(over.clone(), "attributes"),
        Err(MetricNormalizeError::MetadataTooLarge {
            field: "attributes",
            actual: MAX_METADATA_JSON_BYTES + 2,
            maximum: MAX_METADATA_JSON_BYTES
        })
    );
    assert_eq!(
        encode_json(over, "resource"),
        Err(TraceNormalizeError::MetadataTooLarge {
            field: "resource",
            actual: MAX_METADATA_JSON_BYTES + 2,
            maximum: MAX_METADATA_JSON_BYTES
        })
    );
}

#[test]
fn metric_integer_and_text_limits() {
    assert_eq!(metric_checked_i64(5, "time"), Ok(5));
    assert_eq!(metric_checked_i64(u64::MAX, "time"), Err(MetricNormalizeError::IntegerOverflow { field: "time" }));
    assert_eq!(metric_check_chars("ééé", 3, "unit"), Ok(()));
    assert_eq!(
        metric_check_chars("éééé", 3, "unit"),
        Err(MetricNormalizeError::FieldTooLong { field: "unit", maximum: 3 })
    );
}

#[test]
fn bounded_array_renders_items_in_order() {
    let empty = BoundedJsonArray::new();
    assert_eq!(empty.finish(0, "events"), "[]");
    let mut array = BoundedJsonArray::new();
    array.push(r#"{"a":1}"#.to_string());
    array.push(r#"{"b":2}"#.to_string());
    assert_eq!(array.finish(0, "events"), r#"[{"a":1},{"b":2}]"#);
}

#[test]
fn bounded_array_reports_producer_drops() {
    let mut array = BoundedJsonArray::new();
    array.push("1".to_string());
    assert_eq!(
        array.finish(2, "events"),
        r#"[1,{"_cortex_diagnostics":{"cortex_omitted":0,"kind":"events","maximum_bytes":262144,"producer_dropped":2,"reason":"producer_reported_drop"}}]"#
    );
}

#[test]
fn bounded_array_gives_way_to_the_diagnostic_within_the_cap() {
    let mut array = BoundedJsonArray::new();
    array.push("x".repeat(MAX_METADATA_JSON_BYTES - 2));
    array.push("y".to_string());
    array.push("z".to_string());
    let text = array.finish(0, "links");
    assert_eq!(
        text,
        r#"[{"_cortex_diagnostics":{"cortex_omitted":3,"kind":"links","maximum_bytes":262144,"producer_dropped":0,"reason":"max_serialized_bytes"}}]"#
    );
    assert!(text.len() <= MAX_METADATA_JSON_BYTES);
}

#[test]
fn error_bodies_carry_code_retryable_and_message() {
    assert_eq!(OtlpError::ChannelFull.body(None), r#"{"error":"channel_full","retryable":true}"#);
    assert_eq!(
        OtlpError::DecodeFailed.body(Some("bad \"protobuf\"")),
        r#"{"error":"decode_failed","message":"bad \"protobuf\"","retryable":false}"#
    );
}

#[test]
fn span_header_checks_ids_then_times_in_order() {
    let trace = [1u8; 16];
    let span = [2u8; 8];
    let header = span_header(&trace, &span, &[], 10, 25).unwrap();
    assert_eq!(header.trace_id, "01".repeat(16));
    assert_eq!(header.span_id, "02".repeat(8));
    assert_eq!(header.parent_span_id, None);
    assert_eq!((header.start_time_unix_nano, header.end_time_unix_nano, header.duration_nano), (10, 25, 15));
    assert_eq!(
        span_header(&[0u8; 16], &span, &[], 10, 25).unwrap_err(),
        TraceNormalizeError::InvalidId { field: "trace_id", expected: 16, actual: 16 }
    );
    assert_eq!(
        span_header(&trace, &span, &[3u8; 4], 10, 25).unwrap_err(),
        TraceNormalizeError::InvalidId { field: "parent_span_id", expected: 8, actual: 4 }
    );
    assert_eq!(
        span_header(&trace, &span, &[], u64::MAX, 25).unwrap_err(),
        TraceNormalizeError::IntegerOverflow { field: "start_time_unix_nano" }
    );
    assert_eq!(span_header(&trace, &span, &[], 30, 25).unwrap_err(), TraceNormalizeError::EndBeforeStart);
    assert_eq!(span_header(&trace, &span, &[9u8; 8], 1, 1).unwrap().parent_span_id, Some("09".repeat(8)));
}
