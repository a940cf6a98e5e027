//! Per-request admission accounting for OTLP metric and span batches: how many
//! points go on to normalization and storage, how many are rejected and why, and
//! the partial-success summary the exporter receives.

use vstd::prelude::*;

use crate::otlp::error::OtlpError;
use crate::otlp::metric_http::{sat_add, MAX_NORMALIZED_METRIC_BYTES};
use crate::strings::{join_strs, join_with, str_views};

verus! {

/// The most data points one metrics request may carry.
pub const MAX_METRIC_POINTS_PER_REQUEST: usize = 5000;

/// The most spans one traces request may carry.
pub const MAX_SPANS_PER_REQUEST: usize = 5000;

/// Separator between the messages of a partial success.
pub const MESSAGE_SEPARATOR: &'static str = "; ";

/// `seen` capped at the per-request point limit: over a request, the points let
/// through by [`MetricAdmission::admit_count`] add up to this.
pub open spec fn capped(seen: int) -> int {
    if seen > MAX_METRIC_POINTS_PER_REQUEST { MAX_METRIC_POINTS_PER_REQUEST as int } else { seen }
}

/// The running tally of one metrics request.
#[derive(Clone, Copy, Debug, PartialEq, Eq, Structural)]
pub struct MetricAdmission {
    /// Points rejected so far (saturating where the count can grow without bound).
    pub rejected: usize,
    /// Points seen so far in metrics that carried data (saturating).
    pub seen: usize,
    /// Normalized bytes kept so far.
    pub normalized_bytes: usize,
    /// Some metric had no data or failed normalization.
    pub invalid: bool,
    /// The per-request point limit cut some points.
    pub over_count_cap: bool,
    /// The normalized byte budget cut some points.
    pub over_byte_cap: bool,
}

impl MetricAdmission {
    /// The tally stays within the byte budget, and points past the count limit
    /// were only ever seen together with the flag that reports them.
    pub open spec fn wf(self) -> bool {
        &&& self.normalized_bytes <= MAX_NORMALIZED_METRIC_BYTES
        &&& self.seen > MAX_METRIC_POINTS_PER_REQUEST ==> self.over_count_cap
    }

    /// The tally of a request before its first metric.
    pub fn new() -> (r: Self)
        ensures
            r.wf(),
            r == (MetricAdmission {
                rejected: 0,
                seen: 0,
                normalized_bytes: 0,
                invalid: false,
                over_count_cap: false,
                over_byte_cap: false,
            }),
    {
        MetricAdmission {
            rejected: 0,
            seen: 0,
            normalized_bytes: 0,
            invalid: false,
            over_count_cap: false,
            over_byte_cap: false,
        }
    }

    /// A metric without data counts as one rejected point and marks the request
    /// invalid.
    pub fn reject_missing_data(&mut self)
        requires
            old(self).wf(),
        ensures
            final(self).wf(),
            *final(self) == (MetricAdmission {
                rejected: sat_add(old(self).rejected as int, 1) as usize,
                invalid: true,
                ..*old(self)
            }),
    {
        self.rejected = self.rejected.saturating_add(1);
        self.invalid = true;
    }

    /// Of a metric's `point_count` points, how many fit in what is left of the
    /// per-request limit; the rest are rejected and reported.
    pub fn admit_count(&mut self, point_count: usize) -> (count_admitted: usize)
        requires
            old(self).wf(),
        ensures
            final(self).wf(),
            count_admitted == (if old(self).seen >= MAX_METRIC_POINTS_PER_REQUEST {
                0
            } else if point_count <= MAX_METRIC_POINTS_PER_REQUEST - old(self).seen {
                point_count
            } else {
                (MAX_METRIC_POINTS_PER_REQUEST - old(self).seen) as usize
            }),
            final(self).seen == sat_add(old(self).seen as int, point_count as int),
            final(self).rejected == (if point_count > count_admitted {
                sat_add(old(self).rejected as int, point_count - count_admitted) as usize
            } else {
                old(self).rejected
            }),
            final(self).over_count_cap == (old(self).over_count_cap || point_count > count_admitted),
            capped(final(self).seen as int) == capped(old(self).seen as int) + count_admitted,
            final(self).normalized_bytes == old(self).normalized_bytes,
            final(self).invalid == old(self).invalid,
            final(self).over_byte_cap == old(self).over_byte_cap,
    {
        let remaining = MAX_METRIC_POINTS_PER_REQUEST.saturating_sub(self.seen);
        self.seen = self.seen.saturating_add(point_count);
        let count_admitted = if point_count < remaining { point_count } else { remaining };
        if point_count > count_admitted {
            self.rejected = self.rejected.saturating_add(point_count - count_admitted);
            self.over_count_cap = true;
        }
        count_admitted
    }

    /// Of `count_admitted` points, the byte budget let `admitted` through; the
    /// rest are rejected and reported.
    pub fn admit_bytes(&mut self, count_admitted: usize, admitted: usize)
        requires
            old(self).wf(),
        ensures
            final(self).wf(),
            *final(self) == (if count_admitted > admitted {
                MetricAdmission {
                    rejected: sat_add(old(self).rejected as int, count_admitted - admitted) as usize,
                    over_byte_cap: true,
                    ..*old(self)
                }
            } else {
                *old(self)
            }),
    {
        if count_admitted > admitted {
            self.rejected = self.rejected.saturating_add(count_admitted - admitted);
            self.over_byte_cap = true;
        }
    }

    /// Whether a normalized point of `point_bytes` still fits the byte budget; it
    /// is kept and counted if so, rejected and reported if not.
    pub fn accept_point(&mut self, point_bytes: usize) -> (kept: bool)
        requires
            old(self).wf(),
            sat_add(old(self).normalized_bytes as int, point_bytes as int) > MAX_NORMALIZED_METRIC_BYTES
                ==> old(self).rejected < usize::MAX,
        ensures
            final(self).wf(),
            kept == (sat_add(old(self).normalized_bytes as int, point_bytes as int) <= MAX_NORMALIZED_METRIC_BYTES),
            *final(self) == (if kept {
                MetricAdmission { normalized_bytes: (old(self).normalized_bytes + point_bytes) as usize, ..*old(self) }
            } else {
                MetricAdmission { rejected: (old(self).rejected + 1) as usize, over_byte_cap: true, ..*old(self) }
            }),
    {
        if self.normalized_bytes.saturating_add(point_bytes) > MAX_NORMALIZED_METRIC_BYTES {
            self.rejected += 1;
            self.over_byte_cap = true;
            false
        } else {
            self.normalized_bytes += point_bytes;
            true
        }
    }

    /// Normalization of a metric whose `admitted` points were let through failed:
    /// they are rejected (at least one) and the request is marked invalid.
    pub fn normalization_failed(&mut self, admitted: usize)
        requires
            old(self).wf(),
            old(self).rejected + (if admitted == 0 { 1 } else { admitted as int }) <= usize::MAX,
        ensures
            final(self).wf(),
            *final(self) == (MetricAdmission {
                rejected: (old(self).rejected + (if admitted == 0 { 1 } else { admitted as int })) as usize,
                invalid: true,
                ..*old(self)
            }),
    {
        let counted = if admitted == 0 { 1 } else { admitted };
        self.rejected += counted;
        self.invalid = true;
    }

    /// The messages the request's flags call for, in report order.
    pub open spec fn messages_spec(self) -> Seq<Seq<char>> {
        let a: Seq<Seq<char>> = if self.invalid { seq!["invalid metric points rejected"@] } else { seq![] };
        let b: Seq<Seq<char>> = if self.over_count_cap { seq!["request exceeded 5000 metric point limit"@] } else { seq![] };
        let c: Seq<Seq<char>> = if self.over_byte_cap {
            seq!["request exceeded normalized metric byte limit"@]
        } else {
            seq![]
        };
        a + b + c
    }

    /// The messages the request's flags call for, in report order.
    pub fn messages(&self) -> (r: Vec<&'static str>)
        ensures
            str_views(r@) == self.messages_spec(),
    {
        let mut out: Vec<&'static str> = Vec::new();
        if self.invalid {
            out.push("invalid metric points rejected");
        }
        if self.over_count_cap {
            out.push("request exceeded 5000 metric point limit");
        }
        if self.over_byte_cap {
            out.push("request exceeded normalized metric byte limit");
        }
        assert(str_views(out@) =~= self.messages_spec());
        out
    }

    /// The final rejected count and messages once storage rejected
    /// `storage_rejected` more points.
    pub fn summary(&self, storage_rejected: usize) -> (r: (usize, Vec<&'static str>))
        requires
            self.rejected + storage_rejected <= usize::MAX,
        ensures
            r.0 == self.rejected + storage_rejected,
            str_views(r.1@) == self.messages_spec() + (if storage_rejected > 0 {
                seq!["metric points rejected by storage validation"@]
            } else {
                seq![]
            }),
    {
        let mut messages = self.messages();
        if storage_rejected > 0 {
            messages.push("metric points rejected by storage validation");
        }
        let ghost extra: Seq<Seq<char>> = if storage_rejected > 0 {
            seq!["metric points rejected by storage validation"@]
        } else {
            seq![]
        };
        assert(str_views(messages@) =~= self.messages_spec() + extra);
        (self.rejected + storage_rejected, messages)
    }
}

/// The running tally of one traces request.
#[derive(Clone, Copy, Debug, PartialEq, Eq, Structural)]
pub struct SpanAdmission {
    /// Spans rejected so far.
    pub rejected: usize,
    /// Spans seen so far.
    pub seen: usize,
    /// Some span failed normalization.
    pub invalid: bool,
    /// The per-request span limit cut some spans.
    pub over_cap: bool,
}

impl SpanAdmission {
    /// Each seen span is rejected at most once, and spans past the limit were only
    /// ever seen together with the flag that reports them.
    pub open spec fn wf(self) -> bool {
        &&& self.rejected <= self.seen
        &&& self.seen > MAX_SPANS_PER_REQUEST ==> self.over_cap
    }

    /// The tally of a request before its first span.
    pub fn new() -> (r: Self)
        ensures
            r.wf(),
            r == (SpanAdmission { rejected: 0, seen: 0, invalid: false, over_cap: false }),
    {
        SpanAdmission { rejected: 0, seen: 0, invalid: false, over_cap: false }
    }

    /// Counts the next span: it goes on to normalization while the request is
    /// within its limit, and is rejected and reported once past it.
    pub fn admit_span(&mut self) -> (admitted: bool)
        requires
            old(self).wf(),
            old(self).seen < usize::MAX,
        ensures
            final(self).wf(),
            admitted == (old(self).seen + 1 <= MAX_SPANS_PER_REQUEST),
            *final(self) == (if admitted {
                SpanAdmission { seen: (old(self).seen + 1) as usize, ..*old(self) }
            } else {
                SpanAdmission {
                    seen: (old(self).seen + 1) as usize,
                    rejected: (old(self).rejected + 1) as usize,
                    over_cap: true,
                    ..*old(self)
                }
            }),
    {
        self.seen += 1;
        if self.seen > MAX_SPANS_PER_REQUEST {
            self.rejected += 1;
            self.over_cap = true;
            false
        } else {
            true
        }
    }

    /// An admitted span failed normalization: it is rejected and the request is
    /// marked invalid.
    pub fn span_invalid(&mut self)
        requires
            old(self).wf(),
            old(self).rejected < old(self).seen,
        ensures
            final(self).wf(),
            *final(self) == (SpanAdmission { rejected: (old(self).rejected + 1) as usize, invalid: true, ..*old(self) }),
    {
        self.rejected += 1;
        self.invalid = true;
    }

    /// The messages the request's flags call for, in report order.
    pub open spec fn messages_spec(self) -> Seq<Seq<char>> {
        let a: Seq<Seq<char>> = if self.invalid { seq!["invalid spans rejected"@] } else { seq![] };
        let b: Seq<Seq<char>> = if self.over_cap { seq!["request exceeded 5000 span limit"@] } else { seq![] };
        a + b
    }

    /// The messages the request's flags call for, in report order.
    pub fn messages(&self) -> (r: Vec<&'static str>)
        ensures
            str_views(r@) == self.messages_spec(),
    {
        let mut out: Vec<&'static str> = Vec::new();
        if self.invalid {
            out.push("invalid spans rejected");
        }
        if self.over_cap {
            out.push("request exceeded 5000 span limit");
        }
        assert(str_views(out@) =~= self.messages_spec());
        out
    }

    /// The final rejected count and messages when the storage budget blocks
    /// writes: the `normalized` spans that would have been stored are rejected too.
    pub fn blocked_summary(&self, normalized: usize) -> (r: (usize, Vec<&'static str>))
        requires
            self.rejected + normalized <= usize::MAX,
        ensures
            r.0 == self.rejected + normalized,
            str_views(r.1@) == self.messages_spec() + (if normalized > 0 {
                seq!["trace storage temporarily blocked by configured storage budget"@]
            } else {
                seq![]
            }),
    {
        let mut messages = self.messages();
        if normalized > 0 {
            messages.push("trace storage temporarily blocked by configured storage budget");
        }
        let ghost extra: Seq<Seq<char>> = if normalized > 0 {
            seq!["trace storage temporarily blocked by configured storage budget"@]
        } else {
            seq![]
        };
        assert(str_views(messages@) =~= self.messages_spec() + extra);
        (self.rejected + normalized, messages)
    }

    /// The final rejected count and messages once storage rejected
    /// `storage_rejected` more spans.
    pub fn summary(&self, storage_rejected: usize) -> (r: (usize, Vec<&'static str>))
        requires
            self.rejected + storage_rejected <= usize::MAX,
        ensures
            r.0 == self.rejected + storage_rejected,
            str_views(r.1@) == self.messages_spec() + (if storage_rejected > 0 {
                seq!["spans rejected by storage validation"@]
            } else {
                seq![]
            }),
    {
        let mut messages = self.messages();
        if storage_rejected > 0 {
            messages.push("spans rejected by storage validation");
        }
        let ghost extra: Seq<Seq<char>> = if storage_rejected > 0 {
            seq!["spans rejected by storage validation"@]
        } else {
            seq![]
        };
        assert(str_views(messages@) =~= self.messages_spec() + extra);
        (self.rejected + storage_rejected, messages)
    }
}

/// The partial-success part of an OTLP export response.
#[derive(Clone, Debug, PartialEq, Eq)]
pub struct PartialSuccess {
    /// Rejected points or spans, clamped to `i64::MAX`.
    pub rejected: i64,
    /// The messages joined by `"; "`.
    pub error_message: String,
}

/// The partial success reported for `rejected` items with `messages`: none when
/// nothing was rejected.
pub fn partial_success(rejected: usize, messages: &[&str]) -> (r: Option<PartialSuccess>)
    ensures
        r is None <==> rejected == 0,
        r matches Some(p) ==> {
            &&& p.rejected == (if rejected as int > i64::MAX { i64::MAX } else { rejected as i64 })
            &&& p.error_message@ == join_with(str_views(messages@), MESSAGE_SEPARATOR@)
        },
{
    if rejected == 0 {
        return None;
    }
    let count: i64 = if (rejected as u64) > (i64::MAX as u64) { i64::MAX } else { rejected as i64 };
    Some(PartialSuccess { rejected: count, error_message: join_strs(messages, MESSAGE_SEPARATOR) })
}

/// Whether a metrics request may go on to decoding: the bearer gate first, then
/// the protobuf content type, then a configured metric ingest.
pub fn metric_request_gate(authorized: bool, protobuf: bool, ingest_configured: bool) -> (r: Result<(), OtlpError>)
    ensures
        r == (if !authorized {
            Err(OtlpError::Unauthorized)
        } else if !protobuf {
            Err(OtlpError::UnsupportedContentType)
        } else if !ingest_configured {
            Err(OtlpError::MetricIngestUnavailable)
        } else {
            Ok::<(), OtlpError>(())
        }),
{
    if !authorized {
        return Err(OtlpError::Unauthorized);
    }
    if !protobuf {
        return Err(OtlpError::UnsupportedContentType);
    }
    if !ingest_configured {
        return Err(OtlpError::MetricIngestUnavailable);
    }
    Ok(())
}

/// The error answered when metric points could not be stored: a blocked storage
/// budget and a pool that yielded no connection are retryable; any other storage
/// failure is not.
pub fn metric_storage_error(write_blocked: bool, pool_acquire_failure: bool) -> (r: OtlpError)
    ensures
        r == (if write_blocked {
            OtlpError::MetricStorageBlocked
        } else if pool_acquire_failure {
            OtlpError::MetricStorageUnavailable
        } else {
            OtlpError::MetricPersistenceFailed
        }),
{
    if write_blocked {
        OtlpError::MetricStorageBlocked
    } else if pool_acquire_failure {
        OtlpError::MetricStorageUnavailable
    } else {
        OtlpError::MetricPersistenceFailed
    }
}

/// Whether a traces request may go on to decoding: the bearer gate first, then the
/// protobuf content type, then a configured trace ingest.
pub fn trace_request_gate(authorized: bool, protobuf: bool, ingest_configured: bool) -> (r: Result<(), OtlpError>)
    ensures
        r == (if !authorized {
            Err(OtlpError::Unauthorized)
        } else if !protobuf {
            Err(OtlpError::UnsupportedContentType)
        } else if !ingest_configured {
            Err(OtlpError::TraceIngestUnavailable)
        } else {
            Ok::<(), OtlpError>(())
        }),
{
    if !authorized {
        return Err(OtlpError::Unauthorized);
    }
    if !protobuf {
        return Err(OtlpError::UnsupportedContentType);
    }
    if !ingest_configured {
        return Err(OtlpError::TraceIngestUnavailable);
    }
    Ok(())
}

/// The error answered when spans could not be stored: a pool that yielded no
/// connection is retryable; any other storage failure is not. (A blocked storage
/// budget is answered as a partial success instead; see
/// [`SpanAdmission::blocked_summary`].)
pub fn trace_storage_error(pool_acquire_failure: bool) -> (r: OtlpError)
    ensures
        r == (if pool_acquire_failure { OtlpError::TraceStorageUnavailable } else { OtlpError::TracePersistenceFailed }),
{
    if pool_acquire_failure {
        OtlpError::TraceStorageUnavailable
    } else {
        OtlpError::TracePersistenceFailed
    }
}

} // verus!
