//! OTLP span normalization: identifier, integer and text checks.

use vstd::prelude::*;
use vstd::string::{StrSliceExecFns, StringExecFns};
use vstd::utf8::encode_utf8;

use crate::bytes::ascii_chars;
use crate::message::{decimal_chars, push_decimal};
use crate::otlp::entries::{hex_encode, hex_string};

verus! {

#[derive(Debug, Clone, Copy, PartialEq, Eq)]
pub enum TraceNormalizeError {
    InvalidId { field: &'static str, expected: usize, actual: usize },
    AttributeLimit { field: &'static str, actual: usize, maximum: usize },
    FieldTooLong { field: &'static str, maximum: usize },
    IntegerOverflow { field: &'static str },
    EndBeforeStart,
    InvalidReceivedAt,
    MetadataTooLarge { field: &'static str, actual: usize, maximum: usize },
}

pub open spec fn trace_error_message(e: TraceNormalizeError) -> Seq<char> {
    match e {
        TraceNormalizeError::InvalidId { field, expected, actual } =>
            field@ + " must be exactly "@ + decimal_chars(expected as nat) + " non-zero bytes; got "@ + decimal_chars(actual as nat),
        TraceNormalizeError::AttributeLimit { field, actual, maximum } =>
            field@ + " contains "@ + decimal_chars(actual as nat) + " attributes; maximum is "@ + decimal_chars(maximum as nat),
        TraceNormalizeError::FieldTooLong { field, maximum } =>
            field@ + " exceeds maximum length "@ + decimal_chars(maximum as nat),
        TraceNormalizeError::IntegerOverflow { field } => field@ + " does not fit SQLite INTEGER"@,
        TraceNormalizeError::EndBeforeStart => "span end time precedes start time"@,
        TraceNormalizeError::InvalidReceivedAt => "received_at must be RFC3339"@,
        TraceNormalizeError::MetadataTooLarge { field, actual, maximum } =>
            field@ + " JSON is "@ + decimal_chars(actual as nat) + " bytes; maximum is "@ + decimal_chars(maximum as nat),
    }
}

impl TraceNormalizeError {
    /// The error's message.
    pub fn to_string(&self) -> (s: String)
        ensures
            s@ == trace_error_message(*self),
    {
        let mut out = String::new();
        match self {
            TraceNormalizeError::InvalidId { field, expected, actual } => {
                out.append(field);
                out.append(" must be exactly ");
                push_decimal(&mut out, *expected);
                out.append(" non-zero bytes; got ");
                push_decimal(&mut out, *actual);
            },
            TraceNormalizeError::AttributeLimit { field, actual, maximum } => {
                out.append(field);
                out.append(" contains ");
                push_decimal(&mut out, *actual);
                out.append(" attributes; maximum is ");
                push_decimal(&mut out, *maximum);
            },
            TraceNormalizeError::FieldTooLong { field, maximum } => {
                out.append(field);
                out.append(" exceeds maximum length ");
                push_decimal(&mut out, *maximum);
            },
            TraceNormalizeError::IntegerOverflow { field } => {
                out.append(field);
                out.append(" does not fit SQLite INTEGER");
            },
            TraceNormalizeError::EndBeforeStart => out.append("span end time precedes start time"),
            TraceNormalizeError::InvalidReceivedAt => out.append("received_at must be RFC3339"),
            TraceNormalizeError::MetadataTooLarge { field, actual, maximum } => {
                out.append(field);
                out.append(" JSON is ");
                push_decimal(&mut out, *actual);
                out.append(" bytes; maximum is ");
                push_decimal(&mut out, *maximum);
            },
        }
        assert(out@ =~= trace_error_message(*self));
        out
    }
}

/// Every byte is zero (vacuously so for no bytes).
pub open spec fn all_zero(bs: Seq<u8>) -> bool {
    forall|i: int| 0 <= i < bs.len() ==> #[trigger] bs[i] == 0
}

fn all_zero_exec(bytes: &[u8]) -> (r: bool)
    ensures
        r == all_zero(bytes@),
{
    let mut i: usize = 0;
    while i < bytes.len()
        invariant
            i <= bytes.len(),
            forall|j: int| 0 <= j < i ==> #[trigger] bytes@[j] == 0,
        decreases bytes.len() - i,
    {
        if bytes[i] != 0 {
            return false;
        }
        i += 1;
    }
    true
}

/// An identifier of exactly `expected` bytes, not all zero, as lower-case hex.
pub fn hex_id(bytes: &[u8], expected: usize, field: &'static str) -> (r: Result<String, TraceNormalizeError>)
    ensures
        match r {
            Ok(s) => bytes@.len() == expected && !all_zero(bytes@) && s@ == ascii_chars(hex_encode(bytes@)),
            Err(e) => (bytes@.len() != expected || all_zero(bytes@))
                && e == (TraceNormalizeError::InvalidId { field, expected, actual: bytes@.len() as usize }),
        },
{
    if bytes.len() != expected || all_zero_exec(bytes) {
        return Err(TraceNormalizeError::InvalidId { field, expected, actual: bytes.len() });
    }
    Ok(hex_string(bytes))
}

/// A parent span id: absent when empty, else an eight-byte identifier.
pub fn optional_parent_id(bytes: &[u8]) -> (r: Result<Option<String>, TraceNormalizeError>)
    ensures
        bytes@.len() == 0 ==> r == Ok::<Option<String>, TraceNormalizeError>(None),
        bytes@.len() > 0 ==> match r {
            Ok(Some(s)) => bytes@.len() == 8 && !all_zero(bytes@) && s@ == ascii_chars(hex_encode(bytes@)),
            Ok(None) => false,
            Err(e) => (bytes@.len() != 8 || all_zero(bytes@))
                && e == (TraceNormalizeError::InvalidId { field: "parent_span_id", expected: 8, actual: bytes@.len() as usize }),
        },
{
    if bytes.len() == 0 {
        return Ok(None);
    }
    match hex_id(bytes, 8, "parent_span_id") {
        Ok(s) => Ok(Some(s)),
        Err(e) => Err(e),
    }
}

/// `value` as an SQLite `INTEGER`.
pub fn checked_i64(value: u64, field: &'static str) -> (r: Result<i64, TraceNormalizeError>)
    ensures
        value <= i64::MAX ==> r == Ok::<i64, TraceNormalizeError>(value as i64),
        value > i64::MAX ==> r == Err::<i64, TraceNormalizeError>(TraceNormalizeError::IntegerOverflow { field }),
{
    if value <= 9223372036854775807u64 {
        Ok(value as i64)
    } else {
        Err(TraceNormalizeError::IntegerOverflow { field })
    }
}

/// At most `maximum` characters.
pub fn check_chars(value: &str, maximum: usize, field: &'static str) -> (r: Result<(), TraceNormalizeError>)
    ensures
        value@.len() <= maximum ==> r is Ok,
        value@.len() > maximum ==> r == Err::<(), TraceNormalizeError>(TraceNormalizeError::FieldTooLong { field, maximum }),
{
    if value.unicode_len() > maximum {
        return Err(TraceNormalizeError::FieldTooLong { field, maximum });
    }
    Ok(())
}

/// Absent when empty.
pub fn optional_text(value: &str) -> (r: Option<String>)
    ensures
        value@.len() == 0 ==> r is None,
        value@.len() > 0 ==> (r matches Some(s) && s@ == value@),
{
    if value.is_empty() {
        None
    } else {
        Some(value.to_owned())
    }
}


/// Most bytes the JSON of one stored metadata field may take.
pub const MAX_METADATA_JSON_BYTES: usize = 262144;

/// An encoded JSON field, refused when longer than [`MAX_METADATA_JSON_BYTES`].
pub fn encode_json(encoded: String, field: &'static str) -> (r: Result<String, TraceNormalizeError>)
    ensures
        (encode_utf8(encoded@).len() as usize) <= MAX_METADATA_JSON_BYTES ==> r == Ok::<String, TraceNormalizeError>(encoded),
        (encode_utf8(encoded@).len() as usize) > MAX_METADATA_JSON_BYTES ==> r == Err::<String, TraceNormalizeError>(
            TraceNormalizeError::MetadataTooLarge { field, actual: encode_utf8(encoded@).len() as usize, maximum: MAX_METADATA_JSON_BYTES },
        ),
{
    let actual = encoded.as_str().len();
    if actual > MAX_METADATA_JSON_BYTES {
        return Err(TraceNormalizeError::MetadataTooLarge { field, actual, maximum: MAX_METADATA_JSON_BYTES });
    }
    Ok(encoded)
}

/// A nonzero identifier of exactly `expected` bytes.
pub open spec fn id_ok(bytes: Seq<u8>, expected: usize) -> bool {
    bytes.len() == expected && !all_zero(bytes)
}

/// The first problem with a span's identifiers and times, in the order they are
/// checked: trace id, span id, parent id (when given), start, end, then an end
/// before the start.
pub open spec fn span_header_error(trace_id: Seq<u8>, span_id: Seq<u8>, parent: Seq<u8>, start: u64, end: u64) -> Option<TraceNormalizeError> {
    if !id_ok(trace_id, 16) {
        Some(TraceNormalizeError::InvalidId { field: "trace_id", expected: 16, actual: trace_id.len() as usize })
    } else if !id_ok(span_id, 8) {
        Some(TraceNormalizeError::InvalidId { field: "span_id", expected: 8, actual: span_id.len() as usize })
    } else if parent.len() > 0 && !id_ok(parent, 8) {
        Some(TraceNormalizeError::InvalidId { field: "parent_span_id", expected: 8, actual: parent.len() as usize })
    } else if start > i64::MAX {
        Some(TraceNormalizeError::IntegerOverflow { field: "start_time_unix_nano" })
    } else if end > i64::MAX {
        Some(TraceNormalizeError::IntegerOverflow { field: "end_time_unix_nano" })
    } else if end < start {
        Some(TraceNormalizeError::EndBeforeStart)
    } else {
        None
    }
}

/// A span's identifiers as lower-case hex and its times as SQLite integers.
#[derive(Debug, Clone, PartialEq, Eq)]
pub struct SpanHeader {
    pub trace_id: String,
    pub span_id: String,
    pub parent_span_id: Option<String>,
    pub start_time_unix_nano: i64,
    pub end_time_unix_nano: i64,
    pub duration_nano: i64,
}

/// The identifiers and times of a span (`span_header_error` for the first problem).
pub fn span_header(trace_id: &[u8], span_id: &[u8], parent_span_id: &[u8], start: u64, end: u64) -> (r: Result<SpanHeader, TraceNormalizeError>)
    ensures
        match span_header_error(trace_id@, span_id@, parent_span_id@, start, end) {
            Some(e) => r == Err::<SpanHeader, TraceNormalizeError>(e),
            None => r matches Ok(h) && {
                &&& h.trace_id@ == ascii_chars(hex_encode(trace_id@))
                &&& h.span_id@ == ascii_chars(hex_encode(span_id@))
                &&& (parent_span_id@.len() == 0 ==> h.parent_span_id is None)
                &&& (parent_span_id@.len() > 0 ==> (h.parent_span_id matches Some(p) && p@ == ascii_chars(hex_encode(parent_span_id@))))
                &&& h.start_time_unix_nano == start
                &&& h.end_time_unix_nano == end
                &&& h.duration_nano == end - start
            },
        },
{
    let trace = hex_id(trace_id, 16, "trace_id")?;
    let span = hex_id(span_id, 8, "span_id")?;
    let parent = optional_parent_id(parent_span_id)?;
    let start_ns = checked_i64(start, "start_time_unix_nano")?;
    let end_ns = checked_i64(end, "end_time_unix_nano")?;
    if end_ns < start_ns {
        return Err(TraceNormalizeError::EndBeforeStart);
    }
    Ok(SpanHeader {
        trace_id: trace,
        span_id: span,
        parent_span_id: parent,
        start_time_unix_nano: start_ns,
        end_time_unix_nano: end_ns,
        duration_nano: end_ns - start_ns,
    })
}

} // verus!
