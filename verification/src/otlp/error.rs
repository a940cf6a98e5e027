//! Client-visible error codes for the OTLP/HTTP surface.
//!
//! The codes are a wire contract: exporters branch on them, and on `retryable`,
//! which also decides the `Retry-After` header.

use vstd::prelude::*;
use vstd::string::StringExecFns;

use crate::json::{count_members, flag_members, json_object, json_object_text, text_members};

verus! {

/// Every error the OTLP handlers report as a JSON `{"error": ...}` body.
#[derive(Clone, Copy, Debug, PartialEq, Eq, Structural)]
pub enum OtlpError {
    /// Bearer gate rejected the request.
    Unauthorized,
    /// Protobuf body did not decode.
    DecodeFailed,
    /// `Content-Type` was not `application/x-protobuf`.
    UnsupportedContentType,
    /// A blocking task panicked, or another unclassified server fault.
    Internal,
    /// The log write channel is closed.
    WriterUnavailable,
    /// The log write channel cannot fit the batch.
    ChannelFull,
    /// Metric ingest is not configured on this process.
    MetricIngestUnavailable,
    /// Metric persistence is write-blocked by the storage budget.
    MetricStorageBlocked,
    /// The pool did not yield a connection for the metric write.
    MetricStorageUnavailable,
    /// Metric persistence failed for a reason that retrying will not fix.
    MetricPersistenceFailed,
    /// Trace ingest is not configured on this process.
    TraceIngestUnavailable,
    /// The pool did not yield a connection for the span write.
    TraceStorageUnavailable,
    /// Span persistence failed for a reason that retrying will not fix.
    TracePersistenceFailed,
}

/// `Retry-After`, in seconds, for the retryable cases.
pub const RETRY_AFTER_SECONDS: &'static str = "1";

pub open spec fn code_spec(e: OtlpError) -> &'static str {
    match e {
        OtlpError::Unauthorized => "unauthorized",
        OtlpError::DecodeFailed => "decode_failed",
        OtlpError::UnsupportedContentType => "unsupported_content_type",
        OtlpError::Internal => "internal",
        OtlpError::WriterUnavailable => "writer_unavailable",
        OtlpError::ChannelFull => "channel_full",
        OtlpError::MetricIngestUnavailable => "metric_ingest_unavailable",
        OtlpError::MetricStorageBlocked => "metric_storage_blocked",
        OtlpError::MetricStorageUnavailable => "metric_storage_unavailable",
        OtlpError::MetricPersistenceFailed => "metric_persistence_failed",
        OtlpError::TraceIngestUnavailable => "trace_ingest_unavailable",
        OtlpError::TraceStorageUnavailable => "trace_storage_unavailable",
        OtlpError::TracePersistenceFailed => "trace_persistence_failed",
    }
}

/// The HTTP status: 401, 400, 415, 500 or 503.
pub open spec fn status_spec(e: OtlpError) -> u16 {
    match e {
        OtlpError::Unauthorized => 401,
        OtlpError::DecodeFailed => 400,
        OtlpError::UnsupportedContentType => 415,
        OtlpError::Internal | OtlpError::WriterUnavailable | OtlpError::MetricPersistenceFailed
        | OtlpError::TracePersistenceFailed => 500,
        OtlpError::ChannelFull | OtlpError::MetricIngestUnavailable | OtlpError::MetricStorageBlocked
        | OtlpError::MetricStorageUnavailable | OtlpError::TraceIngestUnavailable
        | OtlpError::TraceStorageUnavailable => 503,
    }
}

/// Contention that clears: a full channel, a blocked or unavailable store.
pub open spec fn retryable_spec(e: OtlpError) -> bool {
    match e {
        OtlpError::ChannelFull | OtlpError::MetricStorageBlocked | OtlpError::MetricStorageUnavailable
        | OtlpError::TraceStorageUnavailable => true,
        _ => false,
    }
}

impl OtlpError {
    /// The stable `error` string.
    pub fn code(self) -> (r: &'static str)
        ensures
            r == code_spec(self),
    {
        match self {
            OtlpError::Unauthorized => "unauthorized",
            OtlpError::DecodeFailed => "decode_failed",
            OtlpError::UnsupportedContentType => "unsupported_content_type",
            OtlpError::Internal => "internal",
            OtlpError::WriterUnavailable => "writer_unavailable",
            OtlpError::ChannelFull => "channel_full",
            OtlpError::MetricIngestUnavailable => "metric_ingest_unavailable",
            OtlpError::MetricStorageBlocked => "metric_storage_blocked",
            OtlpError::MetricStorageUnavailable => "metric_storage_unavailable",
            OtlpError::MetricPersistenceFailed => "metric_persistence_failed",
            OtlpError::TraceIngestUnavailable => "trace_ingest_unavailable",
            OtlpError::TraceStorageUnavailable => "trace_storage_unavailable",
            OtlpError::TracePersistenceFailed => "trace_persistence_failed",
        }
    }

    /// The HTTP status code.
    pub fn status(self) -> (r: u16)
        ensures
            r == status_spec(self),
    {
        match self {
            OtlpError::Unauthorized => 401,
            OtlpError::DecodeFailed => 400,
            OtlpError::UnsupportedContentType => 415,
            OtlpError::Internal | OtlpError::WriterUnavailable | OtlpError::MetricPersistenceFailed
            | OtlpError::TracePersistenceFailed => 500,
            OtlpError::ChannelFull | OtlpError::MetricIngestUnavailable | OtlpError::MetricStorageBlocked
            | OtlpError::MetricStorageUnavailable | OtlpError::TraceIngestUnavailable
            | OtlpError::TraceStorageUnavailable => 503,
        }
    }

    /// Whether the exporter should send this batch again.
    pub fn retryable(self) -> (r: bool)
        ensures
            r == retryable_spec(self),
    {
        match self {
            OtlpError::ChannelFull | OtlpError::MetricStorageBlocked | OtlpError::MetricStorageUnavailable
            | OtlpError::TraceStorageUnavailable => true,
            OtlpError::Unauthorized | OtlpError::DecodeFailed | OtlpError::UnsupportedContentType
            | OtlpError::Internal | OtlpError::WriterUnavailable | OtlpError::MetricIngestUnavailable
            | OtlpError::MetricPersistenceFailed | OtlpError::TraceIngestUnavailable
            | OtlpError::TracePersistenceFailed => false,
        }
    }

    /// The `Retry-After` value: present exactly when the error is retryable.
    pub fn retry_after(self) -> (r: Option<&'static str>)
        ensures
            r is Some <==> retryable_spec(self),
            r matches Some(s) ==> s == RETRY_AFTER_SECONDS,
    {
        if self.retryable() {
            Some(RETRY_AFTER_SECONDS)
        } else {
            None
        }
    }
}

/// The text members of an error body: `error` with the code, and `message` when
/// there is one.
pub open spec fn error_body_texts(code: Seq<char>, message: Option<Seq<char>>) -> Seq<(Seq<char>, Seq<char>)> {
    match message {
        Some(m) => seq![("error"@, code), ("message"@, m)],
        None => seq![("error"@, code)],
    }
}

/// The JSON text of the error body: the object with `error`, `retryable` and, when
/// given, `message`.
pub open spec fn error_body_text(code: Seq<char>, retryable: bool, message: Option<Seq<char>>) -> Seq<char> {
    json_object_text(error_body_texts(code, message), seq![("retryable"@, retryable)], Seq::empty())
}

impl OtlpError {
    /// The JSON body of the error response: its stable code and whether to retry,
    /// with an optional detail message alongside.
    pub fn body(self, message: Option<&str>) -> (r: String)
        ensures
            r@ == error_body_text(code_spec(self)@, retryable_spec(self), match message { Some(m) => Some(m@), None => None }),
    {
        let mut texts: Vec<(String, String)> = vec![("error".to_owned(), self.code().to_owned())];
        match message {
            Some(m) => texts.push(("message".to_owned(), m.to_owned())),
            None => {},
        }
        let flags: Vec<(String, bool)> = vec![("retryable".to_owned(), self.retryable())];
        let counts: Vec<(String, u64)> = Vec::new();
        let ghost m = match message { Some(m) => Some(m@), None => None::<Seq<char>> };
        assert(text_members(texts@) =~= error_body_texts(code_spec(self)@, m));
        assert(flag_members(flags@) =~= seq![("retryable"@, retryable_spec(self))]);
        assert(count_members(counts@) =~= Seq::<(Seq<char>, u64)>::empty());
        json_object(texts, flags, counts)
    }
}

/// Length and first and eighth characters: enough to tell the codes apart.
spec fn code_signature(s: Seq<char>) -> (nat, char, char) {
    (s.len(), s[0], s[7])
}

/// Distinct errors have distinct codes.
pub proof fn lemma_codes_distinct(a: OtlpError, b: OtlpError)
    ensures
        code_spec(a)@ == code_spec(b)@ ==> a == b,
{
    reveal_strlit("unauthorized");
    reveal_strlit("decode_failed");
    reveal_strlit("unsupported_content_type");
    reveal_strlit("internal");
    reveal_strlit("writer_unavailable");
    reveal_strlit("channel_full");
    reveal_strlit("metric_ingest_unavailable");
    reveal_strlit("metric_storage_blocked");
    reveal_strlit("metric_storage_unavailable");
    reveal_strlit("metric_persistence_failed");
    reveal_strlit("trace_ingest_unavailable");
    reveal_strlit("trace_storage_unavailable");
    reveal_strlit("trace_persistence_failed");
    let sa = code_signature(code_spec(a)@);
    let sb = code_signature(code_spec(b)@);
    if code_spec(a)@ == code_spec(b)@ {
        assert(sa == sb);
    }
}

/// Every retryable error is a `503`; the only `503`s that are not retryable are the
/// two "ingest not configured" ones.
pub proof fn lemma_retryable_is_service_unavailable(e: OtlpError)
    ensures
        retryable_spec(e) ==> status_spec(e) == 503,
        status_spec(e) == 503 && !retryable_spec(e) <==> (e == OtlpError::MetricIngestUnavailable
            || e == OtlpError::TraceIngestUnavailable),
{
}

} // verus!
