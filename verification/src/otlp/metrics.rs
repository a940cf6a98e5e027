//! OTLP metric normalization: the typed errors and the checks on bucket counts that
//! precede serialization.

use vstd::prelude::*;
use vstd::string::{StrSliceExecFns, StringExecFns};
use vstd::utf8::encode_utf8;

use crate::message::{decimal_chars, push_decimal};

verus! {

/// Most bucket counts a histogram point may carry.
pub const MAX_HISTOGRAM_BUCKETS: usize = 16384;

/// Most values (bucket counts or quantiles) a distribution point may carry.
pub const MAX_DISTRIBUTION_VALUES: usize = 16384;

/// Why a metric point was refused.
#[derive(Debug, Clone, Copy, PartialEq, Eq)]
pub enum MetricNormalizeError {
    UnsupportedInstrument,
    EmptyMetricName,
    MissingValue,
    UnspecifiedTemporality,
    AttributeLimit { field: &'static str, actual: usize, maximum: usize },
    ExemplarLimit { actual: usize, maximum: usize },
    HistogramBucketLimit { actual: usize, maximum: usize },
    InvalidHistogramShape { buckets: usize, bounds: usize },
    HistogramCountMismatch,
    HistogramBoundsNotIncreasing,
    DistributionValueLimit { actual: usize, maximum: usize },
    ExponentialHistogramCountMismatch,
    InvalidSummaryQuantiles,
    InvalidSummaryValue,
    InvalidOptionalId { field: &'static str, expected: usize, actual: usize },
    FieldTooLong { field: &'static str, maximum: usize },
    IntegerOverflow { field: &'static str },
    MissingPointTime,
    TimeBeforeStart,
    InvalidReceivedAt,
    MetadataTooLarge { field: &'static str, actual: usize, maximum: usize },
}

/// The message of each error.
pub open spec fn metric_error_message(e: MetricNormalizeError) -> Seq<char> {
    match e {
        MetricNormalizeError::UnsupportedInstrument => "metric kind is unsupported or missing"@,
        MetricNormalizeError::EmptyMetricName => "metric name must not be empty"@,
        MetricNormalizeError::MissingValue => "number data point has no value"@,
        MetricNormalizeError::UnspecifiedTemporality => "sum aggregation temporality must not be unspecified"@,
        MetricNormalizeError::AttributeLimit { field, actual, maximum } =>
            field@ + " contains "@ + decimal_chars(actual as nat) + " attributes; maximum is "@ + decimal_chars(maximum as nat),
        MetricNormalizeError::ExemplarLimit { actual, maximum } =>
            "point contains "@ + decimal_chars(actual as nat) + " exemplars; maximum is "@ + decimal_chars(maximum as nat),
        MetricNormalizeError::HistogramBucketLimit { actual, maximum } =>
            "histogram contains "@ + decimal_chars(actual as nat) + " buckets; maximum is "@ + decimal_chars(maximum as nat),
        MetricNormalizeError::InvalidHistogramShape { buckets, bounds } =>
            "histogram has "@ + decimal_chars(buckets as nat) + " bucket counts and "@ + decimal_chars(bounds as nat)
                + " explicit bounds"@,
        MetricNormalizeError::HistogramCountMismatch => "histogram bucket counts do not sum to the point count"@,
        MetricNormalizeError::HistogramBoundsNotIncreasing => "histogram explicit bounds must be strictly increasing"@,
        MetricNormalizeError::DistributionValueLimit { actual, maximum } =>
            "distribution contains "@ + decimal_chars(actual as nat) + " values; maximum is "@ + decimal_chars(maximum as nat),
        MetricNormalizeError::ExponentialHistogramCountMismatch =>
            "exponential histogram bucket counts do not sum to the point count"@,
        MetricNormalizeError::InvalidSummaryQuantiles => "summary quantiles must be finite, ordered, and within 0..=1"@,
        MetricNormalizeError::InvalidSummaryValue => "summary quantile values must be finite"@,
        MetricNormalizeError::InvalidOptionalId { field, expected, actual } =>
            field@ + " must be empty or exactly "@ + decimal_chars(expected as nat) + " non-zero bytes; got "@
                + decimal_chars(actual as nat),
        MetricNormalizeError::FieldTooLong { field, maximum } => field@ + " exceeds maximum length "@ + decimal_chars(maximum as nat),
        MetricNormalizeError::IntegerOverflow { field } => field@ + " does not fit SQLite INTEGER"@,
        MetricNormalizeError::MissingPointTime => "point time must be non-zero"@,
        MetricNormalizeError::TimeBeforeStart => "point time precedes start time"@,
        MetricNormalizeError::InvalidReceivedAt => "received_at must be RFC3339"@,
        MetricNormalizeError::MetadataTooLarge { field, actual, maximum } =>
            field@ + " JSON is "@ + decimal_chars(actual as nat) + " bytes; maximum is "@ + decimal_chars(maximum as nat),
    }
}

impl MetricNormalizeError {
    /// The error's message.
    pub fn to_string(&self) -> (s: String)
        ensures
            s@ == metric_error_message(*self),
    {
        let mut out = String::new();
        match self {
            MetricNormalizeError::UnsupportedInstrument => out.append("metric kind is unsupported or missing"),
            MetricNormalizeError::EmptyMetricName => out.append("metric name must not be empty"),
            MetricNormalizeError::MissingValue => out.append("number data point has no value"),
            MetricNormalizeError::UnspecifiedTemporality => out.append("sum aggregation temporality must not be unspecified"),
            MetricNormalizeError::AttributeLimit { field, actual, maximum } => {
                out.append(field);
                out.append(" contains ");
                push_decimal(&mut out, *actual);
                out.append(" attributes; maximum is ");
                push_decimal(&mut out, *maximum);
            },
            MetricNormalizeError::ExemplarLimit { actual, maximum } => {
                out.append("point contains ");
                push_decimal(&mut out, *actual);
                out.append(" exemplars; maximum is ");
                push_decimal(&mut out, *maximum);
            },
            MetricNormalizeError::HistogramBucketLimit { actual, maximum } => {
                out.append("histogram contains ");
                push_decimal(&mut out, *actual);
                out.append(" buckets; maximum is ");
                push_decimal(&mut out, *maximum);
            },
            MetricNormalizeError::InvalidHistogramShape { buckets, bounds } => {
                out.append("histogram has ");
                push_decimal(&mut out, *buckets);
                out.append(" bucket counts and ");
                push_decimal(&mut out, *bounds);
                out.append(" explicit bounds");
            },
            MetricNormalizeError::HistogramCountMismatch => out.append("histogram bucket counts do not sum to the point count"),
            MetricNormalizeError::HistogramBoundsNotIncreasing => out.append("histogram explicit bounds must be strictly increasing"),
            MetricNormalizeError::DistributionValueLimit { actual, maximum } => {
                out.append("distribution contains ");
                push_decimal(&mut out, *actual);
                out.append(" values; maximum is ");
                push_decimal(&mut out, *maximum);
            },
            MetricNormalizeError::ExponentialHistogramCountMismatch => {
                out.append("exponential histogram bucket counts do not sum to the point count")
            },
            MetricNormalizeError::InvalidSummaryQuantiles => {
                out.append("summary quantiles must be finite, ordered, and within 0..=1")
            },
            MetricNormalizeError::InvalidSummaryValue => out.append("summary quantile values must be finite"),
            MetricNormalizeError::InvalidOptionalId { field, expected, actual } => {
                out.append(field);
                out.append(" must be empty or exactly ");
                push_decimal(&mut out, *expected);
                out.append(" non-zero bytes; got ");
                push_decimal(&mut out, *actual);
            },
            MetricNormalizeError::FieldTooLong { field, maximum } => {
                out.append(field);
                out.append(" exceeds maximum length ");
                push_decimal(&mut out, *maximum);
            },
            MetricNormalizeError::IntegerOverflow { field } => {
                out.append(field);
                out.append(" does not fit SQLite INTEGER");
            },
            MetricNormalizeError::MissingPointTime => out.append("point time must be non-zero"),
            MetricNormalizeError::TimeBeforeStart => out.append("point time precedes start time"),
            MetricNormalizeError::InvalidReceivedAt => out.append("received_at must be RFC3339"),
            MetricNormalizeError::MetadataTooLarge { field, actual, maximum } => {
                out.append(field);
                out.append(" JSON is ");
                push_decimal(&mut out, *actual);
                out.append(" bytes; maximum is ");
                push_decimal(&mut out, *maximum);
            },
        }
        assert(out@ =~= metric_error_message(*self));
        out
    }
}

/// At most [`MAX_DISTRIBUTION_VALUES`] values.
pub fn check_value_limit(actual: usize) -> (r: Result<(), MetricNormalizeError>)
    ensures
        actual <= MAX_DISTRIBUTION_VALUES ==> r is Ok,
        actual > MAX_DISTRIBUTION_VALUES ==> r == Err::<(), MetricNormalizeError>(
            MetricNormalizeError::DistributionValueLimit { actual, maximum: MAX_DISTRIBUTION_VALUES },
        ),
{
    if actual > MAX_DISTRIBUTION_VALUES {
        return Err(MetricNormalizeError::DistributionValueLimit { actual, maximum: MAX_DISTRIBUTION_VALUES });
    }
    Ok(())
}

/// The sum of the counts.
pub open spec fn counts_sum(counts: Seq<u64>) -> nat
    decreases counts.len(),
{
    if counts.len() == 0 {
        0
    } else {
        counts_sum(counts.drop_last()) + counts.last() as nat
    }
}

proof fn lemma_counts_sum_prefix(counts: Seq<u64>, i: int)
    requires
        0 <= i <= counts.len(),
    ensures
        counts_sum(counts.take(i)) <= counts_sum(counts),
    decreases counts.len() - i,
{
    if i < counts.len() {
        lemma_counts_sum_prefix(counts, i + 1);
        assert(counts.take(i + 1).drop_last() =~= counts.take(i));
    } else {
        assert(counts.take(i) =~= counts);
    }
}

/// The sum of the counts, when it fits in `u64`.
fn checked_sum(counts: &[u64]) -> (r: Option<u64>)
    ensures
        match r {
            Some(total) => total as nat == counts_sum(counts@),
            None => counts_sum(counts@) > u64::MAX,
        },
{
    let mut total: u64 = 0;
    let mut i: usize = 0;
    assert(counts@.take(0) =~= Seq::<u64>::empty());
    while i < counts.len()
        invariant
            i <= counts.len(),
            total as nat == counts_sum(counts@.take(i as int)),
        decreases counts.len() - i,
    {
        assert(counts@.take(i + 1).drop_last() =~= counts@.take(i as int));
        match total.checked_add(counts[i]) {
            Some(t) => {
                total = t;
            },
            None => {
                proof {
                    lemma_counts_sum_prefix(counts@, i + 1);
                }
                return None;
            },
        }
        i += 1;
    }
    assert(counts@.take(i as int) =~= counts@);
    Some(total)
}

/// The total of an exponential histogram's bucket counts (0 without buckets), or the
/// count-mismatch error when it overflows.
pub fn bucket_total(bucket_counts: Option<&[u64]>) -> (r: Result<u64, MetricNormalizeError>)
    ensures
        match bucket_counts {
            None => r == Ok::<u64, MetricNormalizeError>(0),
            Some(c) => if counts_sum(c@) <= u64::MAX {
                r == Ok::<u64, MetricNormalizeError>(counts_sum(c@) as u64)
            } else {
                r == Err::<u64, MetricNormalizeError>(MetricNormalizeError::ExponentialHistogramCountMismatch)
            },
        },
{
    match bucket_counts {
        None => Ok(0),
        Some(c) => match checked_sum(c) {
            Some(total) => Ok(total),
            None => Err(MetricNormalizeError::ExponentialHistogramCountMismatch),
        },
    }
}

/// The checks on a histogram point's layout that need no floating point, in order:
/// the bucket cap; one more bucket than explicit bounds (or neither); the counts
/// summing to the point's count.
pub open spec fn bucket_layout_spec(counts: Seq<u64>, bounds_len: nat, count: u64) -> Result<(), MetricNormalizeError> {
    if counts.len() > MAX_HISTOGRAM_BUCKETS {
        Err(MetricNormalizeError::HistogramBucketLimit { actual: counts.len() as usize, maximum: MAX_HISTOGRAM_BUCKETS })
    } else if !(if counts.len() == 0 { bounds_len == 0 } else { counts.len() == bounds_len + 1 }) {
        Err(MetricNormalizeError::InvalidHistogramShape { buckets: counts.len() as usize, bounds: bounds_len as usize })
    } else if counts_sum(counts) != count {
        Err(MetricNormalizeError::HistogramCountMismatch)
    } else {
        Ok(())
    }
}

/// A histogram point's bucket layout, before its explicit bounds (floating point) are
/// checked to increase.
pub fn validate_bucket_layout(bucket_counts: &[u64], bounds_len: usize, count: u64) -> (r: Result<(), MetricNormalizeError>)
    ensures
        r == bucket_layout_spec(bucket_counts@, bounds_len as nat, count),
{
    if bucket_counts.len() > MAX_HISTOGRAM_BUCKETS {
        return Err(MetricNormalizeError::HistogramBucketLimit { actual: bucket_counts.len(), maximum: MAX_HISTOGRAM_BUCKETS });
    }
    let shape_valid = if bucket_counts.len() == 0 {
        bounds_len == 0
    } else {
        bounds_len < usize::MAX && bucket_counts.len() == bounds_len + 1
    };
    if !shape_valid {
        return Err(MetricNormalizeError::InvalidHistogramShape { buckets: bucket_counts.len(), bounds: bounds_len });
    }
    match checked_sum(bucket_counts) {
        Some(total) => if total == count {
            Ok(())
        } else {
            Err(MetricNormalizeError::HistogramCountMismatch)
        },
        None => Err(MetricNormalizeError::HistogramCountMismatch),
    }
}


/// Most bytes the JSON of one stored metadata field may take.
pub const MAX_METADATA_JSON_BYTES: usize = 262144;

/// `value` as an SQLite `INTEGER`.
pub fn checked_i64(value: u64, field: &'static str) -> (r: Result<i64, MetricNormalizeError>)
    ensures
        value <= i64::MAX ==> r == Ok::<i64, MetricNormalizeError>(value as i64),
        value > i64::MAX ==> r == Err::<i64, MetricNormalizeError>(MetricNormalizeError::IntegerOverflow { field }),
{
    if value <= 9223372036854775807u64 {
        Ok(value as i64)
    } else {
        Err(MetricNormalizeError::IntegerOverflow { field })
    }
}

/// At most `maximum` characters.
pub fn check_chars(value: &str, maximum: usize, field: &'static str) -> (r: Result<(), MetricNormalizeError>)
    ensures
        value@.len() <= maximum ==> r is Ok,
        value@.len() > maximum ==> r == Err::<(), MetricNormalizeError>(MetricNormalizeError::FieldTooLong { field, maximum }),
{
    if value.unicode_len() > maximum {
        return Err(MetricNormalizeError::FieldTooLong { field, maximum });
    }
    Ok(())
}

/// An encoded JSON field, refused when longer than [`MAX_METADATA_JSON_BYTES`].
pub fn encode_json(encoded: String, field: &'static str) -> (r: Result<String, MetricNormalizeError>)
    ensures
        (encode_utf8(encoded@).len() as usize) <= MAX_METADATA_JSON_BYTES ==> r == Ok::<String, MetricNormalizeError>(encoded),
        (encode_utf8(encoded@).len() as usize) > MAX_METADATA_JSON_BYTES ==> r == Err::<String, MetricNormalizeError>(
            MetricNormalizeError::MetadataTooLarge { field, actual: encode_utf8(encoded@).len() as usize, maximum: MAX_METADATA_JSON_BYTES },
        ),
{
    let actual = encoded.as_str().len();
    if actual > MAX_METADATA_JSON_BYTES {
        return Err(MetricNormalizeError::MetadataTooLarge { field, actual, maximum: MAX_METADATA_JSON_BYTES });
    }
    Ok(encoded)
}

} // verus!
