//! One span as a stored trace row: identifiers, times, attribute and text limits,
//! the received-at timestamp, and the fields copied into the row.
//!
//! The protobuf span is read into plain values first: its identifiers, times,
//! texts, attribute counts, the attribute normalizer's result, and the JSON texts
//! of its resource, scope and attributes.

use vstd::prelude::*;
use vstd::string::{StrSliceExecFns, StringExecFns};

use crate::otlp::metric_point::{json_too_large, opt_view, PointAttributes};
use crate::otlp::traces::{
    check_chars, encode_json, optional_text, span_header, span_header_error, TraceNormalizeError,
    MAX_METADATA_JSON_BYTES,
};
use crate::otlp::entries::hex_encode;
use crate::bytes::ascii_chars;
use crate::rfc3339::{is_rfc3339, rfc3339_valid};
use vstd::utf8::encode_utf8;

verus! {

/// Most characters of a span name.
pub const MAX_SPAN_NAME_CHARS: usize = 1024;
/// Most characters of a status message.
pub const MAX_STATUS_MESSAGE_CHARS: usize = 4096;
/// Most characters of a service name.
pub const MAX_SPAN_SERVICE_NAME_CHARS: usize = 512;

/// One span as plain values.
#[derive(Debug, Clone)]
pub struct SpanParts {
    pub trace_id: Vec<u8>,
    pub span_id: Vec<u8>,
    pub parent_span_id: Vec<u8>,
    pub trace_state: String,
    pub flags: u32,
    pub name: String,
    pub kind: i32,
    pub start_time_unix_nano: u64,
    pub end_time_unix_nano: u64,
    /// The status code and message, when the span has a status.
    pub status: Option<(i32, String)>,
    /// Attributes of the resource (0 without one).
    pub resource_attribute_count: usize,
    /// The scope's attribute count, name and version, when there is a scope.
    pub scope: Option<(usize, String, String)>,
    pub span_attribute_count: usize,
    /// What the attribute normalizer found in the resource and span attributes.
    pub normalized: PointAttributes,
    /// `{"resource": ..., "scope": ...}`, as JSON.
    pub resource_scope_json: String,
    /// The span's attributes as the normalizer kept them, as JSON.
    pub attributes_json: String,
    /// The attribute normalizer's limits for resource (and scope) and span attributes.
    pub max_resource_attributes: usize,
    pub max_signal_attributes: usize,
}

/// A stored span.
#[derive(Debug, Clone, PartialEq, Eq)]
pub struct OtelSpanInput {
    pub trace_id: String,
    pub span_id: String,
    pub parent_span_id: Option<String>,
    pub trace_state: Option<String>,
    pub flags: i64,
    pub span_name: String,
    pub span_kind: i64,
    pub start_time_unix_nano: i64,
    pub end_time_unix_nano: i64,
    pub duration_nano: i64,
    pub status_code: i64,
    pub status_message: Option<String>,
    pub hostname: String,
    pub service_name: Option<String>,
    pub service_version: Option<String>,
    pub scope_name: Option<String>,
    pub scope_version: Option<String>,
    pub ai_tool: Option<String>,
    pub ai_project: Option<String>,
    pub ai_session_id: Option<String>,
    pub run_id: Option<i64>,
    pub resource_json: String,
    pub attributes_json: String,
    pub events_json: String,
    pub links_json: String,
    pub received_at: String,
    pub content_scrubbed: bool,
}

/// A text, absent when empty.
pub open spec fn nonempty(s: Seq<char>) -> Option<Seq<char>> {
    if s.len() == 0 { None } else { Some(s) }
}

/// The status message stored: the status's message when not empty.
pub open spec fn status_message_of(p: SpanParts) -> Option<Seq<char>> {
    match p.status {
        Some((_, m)) => nonempty(m@),
        None => None,
    }
}

pub open spec fn span_too_large(field: &'static str, s: Seq<char>) -> TraceNormalizeError {
    TraceNormalizeError::MetadataTooLarge { field, actual: encode_utf8(s).len() as usize, maximum: MAX_METADATA_JSON_BYTES }
}

/// The first problem with a span, in the order it is checked.
pub open spec fn span_error(p: SpanParts, received_at: Seq<char>) -> Option<TraceNormalizeError> {
    match span_header_error(p.trace_id@, p.span_id@, p.parent_span_id@, p.start_time_unix_nano, p.end_time_unix_nano) {
        Some(e) => Some(e),
        None => if p.resource_attribute_count > p.max_resource_attributes {
            Some(TraceNormalizeError::AttributeLimit {
                field: "resource", actual: p.resource_attribute_count, maximum: p.max_resource_attributes,
            })
        } else if p.scope matches Some((n, _, _)) && n > p.max_resource_attributes {
            Some(TraceNormalizeError::AttributeLimit {
                field: "scope", actual: match p.scope { Some((n, _, _)) => n, None => 0 }, maximum: p.max_resource_attributes,
            })
        } else if p.span_attribute_count > p.max_signal_attributes {
            Some(TraceNormalizeError::AttributeLimit {
                field: "span", actual: p.span_attribute_count, maximum: p.max_signal_attributes,
            })
        } else if !rfc3339_valid(received_at) {
            Some(TraceNormalizeError::InvalidReceivedAt)
        } else if p.name@.len() > MAX_SPAN_NAME_CHARS {
            Some(TraceNormalizeError::FieldTooLong { field: "span_name", maximum: MAX_SPAN_NAME_CHARS })
        } else if p.normalized.service_name matches Some(v) && v@.len() > MAX_SPAN_SERVICE_NAME_CHARS {
            Some(TraceNormalizeError::FieldTooLong { field: "service_name", maximum: MAX_SPAN_SERVICE_NAME_CHARS })
        } else if status_message_of(p) matches Some(m) && m.len() > MAX_STATUS_MESSAGE_CHARS {
            Some(TraceNormalizeError::FieldTooLong { field: "status_message", maximum: MAX_STATUS_MESSAGE_CHARS })
        } else if json_too_large(p.resource_scope_json@) {
            Some(span_too_large("resource", p.resource_scope_json@))
        } else if json_too_large(p.attributes_json@) {
            Some(span_too_large("attributes", p.attributes_json@))
        } else {
            None
        },
    }
}

/// The row stored for an accepted span: hex identifiers, the times and duration,
/// the texts (empty ones absent), the status (code 0 without one), the normalizer's
/// results, the scope's name and version, the JSON texts, and empty event and link
/// lists; attributes are not yet privacy-filtered.
pub open spec fn span_row(p: SpanParts, received_at: Seq<char>, s: OtelSpanInput) -> bool {
    &&& s.trace_id@ == ascii_chars(hex_encode(p.trace_id@))
    &&& s.span_id@ == ascii_chars(hex_encode(p.span_id@))
    &&& opt_view(s.parent_span_id) == (if p.parent_span_id@.len() == 0 { None } else { Some(ascii_chars(hex_encode(p.parent_span_id@))) })
    &&& opt_view(s.trace_state) == nonempty(p.trace_state@)
    &&& s.flags == p.flags as i64
    &&& s.span_name@ == p.name@
    &&& s.span_kind == p.kind as i64
    &&& s.start_time_unix_nano == p.start_time_unix_nano as i64
    &&& s.end_time_unix_nano == p.end_time_unix_nano as i64
    &&& s.duration_nano == p.end_time_unix_nano - p.start_time_unix_nano
    &&& s.status_code == (match p.status { Some((c, _)) => c as i64, None => 0i64 })
    &&& opt_view(s.status_message) == status_message_of(p)
    &&& s.hostname@ == p.normalized.host_name@
    &&& opt_view(s.service_name) == opt_view(p.normalized.service_name)
    &&& opt_view(s.service_version) == opt_view(p.normalized.service_version)
    &&& opt_view(s.scope_name) == (match p.scope { Some((_, n, _)) => nonempty(n@), None => None })
    &&& opt_view(s.scope_version) == (match p.scope { Some((_, _, v)) => nonempty(v@), None => None })
    &&& opt_view(s.ai_tool) == opt_view(p.normalized.ai_tool)
    &&& opt_view(s.ai_project) == opt_view(p.normalized.ai_project)
    &&& opt_view(s.ai_session_id) == opt_view(p.normalized.ai_session_id)
    &&& s.run_id is None
    &&& s.resource_json@ == p.resource_scope_json@
    &&& s.attributes_json@ == p.attributes_json@
    &&& s.events_json@ == "[]"@
    &&& s.links_json@ == "[]"@
    &&& s.received_at@ == received_at
    &&& !s.content_scrubbed
}

fn clone_opt(o: &Option<String>) -> (r: Option<String>)
    ensures
        opt_view(r) == opt_view(*o),
{
    match o {
        Some(s) => Some(s.clone()),
        None => None,
    }
}

/// One span as a stored row (`span_error` gives the first problem; `span_row` the row).
pub fn normalize_span(parts: &SpanParts, received_at: &str) -> (r: Result<OtelSpanInput, TraceNormalizeError>)
    ensures
        match span_error(*parts, received_at@) {
            Some(e) => r == Err::<OtelSpanInput, TraceNormalizeError>(e),
            None => r matches Ok(s) && span_row(*parts, received_at@, s),
        },
{
    let header = span_header(parts.trace_id.as_slice(), parts.span_id.as_slice(), parts.parent_span_id.as_slice(),
        parts.start_time_unix_nano, parts.end_time_unix_nano)?;
    if parts.resource_attribute_count > parts.max_resource_attributes {
        return Err(TraceNormalizeError::AttributeLimit {
            field: "resource",
            actual: parts.resource_attribute_count,
            maximum: parts.max_resource_attributes,
        });
    }
    match &parts.scope {
        Some((count, _, _)) => {
            if *count > parts.max_resource_attributes {
                return Err(TraceNormalizeError::AttributeLimit {
                    field: "scope",
                    actual: *count,
                    maximum: parts.max_resource_attributes,
                });
            }
        },
        None => {},
    }
    if parts.span_attribute_count > parts.max_signal_attributes {
        return Err(TraceNormalizeError::AttributeLimit {
            field: "span",
            actual: parts.span_attribute_count,
            maximum: parts.max_signal_attributes,
        });
    }
    if !is_rfc3339(received_at) {
        return Err(TraceNormalizeError::InvalidReceivedAt);
    }
    check_chars(parts.name.as_str(), MAX_SPAN_NAME_CHARS, "span_name")?;
    match &parts.normalized.service_name {
        Some(v) => {
            check_chars(v.as_str(), MAX_SPAN_SERVICE_NAME_CHARS, "service_name")?;
        },
        None => {},
    }
    let (status_code, status_message) = match &parts.status {
        Some((code, message)) => (*code as i64, optional_text(message.as_str())),
        None => (0i64, None),
    };
    match &status_message {
        Some(m) => {
            check_chars(m.as_str(), MAX_STATUS_MESSAGE_CHARS, "status_message")?;
        },
        None => {},
    }
    let resource_json = encode_json(parts.resource_scope_json.clone(), "resource")?;
    let attributes_json = encode_json(parts.attributes_json.clone(), "attributes")?;
    let (scope_name, scope_version) = match &parts.scope {
        Some((_, name, version)) => (optional_text(name.as_str()), optional_text(version.as_str())),
        None => (None, None),
    };
    Ok(OtelSpanInput {
        trace_id: header.trace_id,
        span_id: header.span_id,
        parent_span_id: header.parent_span_id,
        trace_state: optional_text(parts.trace_state.as_str()),
        flags: parts.flags as i64,
        span_name: parts.name.clone(),
        span_kind: parts.kind as i64,
        start_time_unix_nano: header.start_time_unix_nano,
        end_time_unix_nano: header.end_time_unix_nano,
        duration_nano: header.duration_nano,
        status_code,
        status_message,
        hostname: parts.normalized.host_name.clone(),
        service_name: clone_opt(&parts.normalized.service_name),
        service_version: clone_opt(&parts.normalized.service_version),
        scope_name,
        scope_version,
        ai_tool: clone_opt(&parts.normalized.ai_tool),
        ai_project: clone_opt(&parts.normalized.ai_project),
        ai_session_id: clone_opt(&parts.normalized.ai_session_id),
        run_id: None,
        resource_json,
        attributes_json,
        events_json: "[]".to_owned(),
        links_json: "[]".to_owned(),
        received_at: received_at.to_owned(),
        content_scrubbed: false,
    })
}

} // verus!
