//! One gauge or sum data point as a stored metric row: the envelope checks, the
//! point's limits and times, the privacy-filtered copies and the stable point key.
//!
//! The protobuf values are read into plain values first: attribute and exemplar
//! counts, the attribute normalizer's result (raw and privacy-filtered), and the
//! JSON texts of the values copied into the row.

use vstd::prelude::*;
use vstd::string::{StrSliceExecFns, StringExecFns};
use vstd::utf8::encode_utf8;

use crate::otlp::metrics::{check_chars, checked_i64, encode_json, MetricNormalizeError, MAX_METADATA_JSON_BYTES};
use crate::otlp::metrics_payload::{key_components, point_key, point_key_spec, PointKeyParts};
use crate::rfc3339::{is_rfc3339, rfc3339_valid};

verus! {

/// Most characters of a metric name.
pub const MAX_METRIC_NAME_CHARS: usize = 512;
/// Most characters of a metric description.
pub const MAX_DESCRIPTION_CHARS: usize = 4096;
/// Most characters of a metric unit.
pub const MAX_UNIT_CHARS: usize = 128;
/// Most characters of a scope name.
pub const MAX_SCOPE_NAME_CHARS: usize = 512;
/// Most characters of a scope version.
pub const MAX_SCOPE_VERSION_CHARS: usize = 512;
/// Most characters of a host name.
pub const MAX_HOSTNAME_CHARS: usize = 255;
/// Most characters of a service name.
pub const MAX_SERVICE_NAME_CHARS: usize = 512;
/// Most characters of a service version.
pub const MAX_SERVICE_VERSION_CHARS: usize = 512;
/// Most exemplars one point may carry.
pub const MAX_EXEMPLARS: usize = 128;

/// A metric's envelope as plain values: its name, description and unit, how many
/// attributes its resource carries (0 without one), its scope's attribute count,
/// name and version (when there is a scope), and when the request was received.
#[derive(Debug, Clone)]
pub struct MetricEnvelope {
    pub name: String,
    pub description: String,
    pub unit: String,
    pub resource_attribute_count: usize,
    pub scope: Option<(usize, String, String)>,
    pub received_at: String,
    /// The attribute normalizer's limit for resource and scope attributes.
    pub max_resource_attributes: usize,
}

/// The first problem with a metric's envelope, in the order it is checked.
pub open spec fn envelope_error(e: MetricEnvelope) -> Option<MetricNormalizeError> {
    if e.name@.len() == 0 {
        Some(MetricNormalizeError::EmptyMetricName)
    } else if e.name@.len() > MAX_METRIC_NAME_CHARS {
        Some(MetricNormalizeError::FieldTooLong { field: "metric_name", maximum: MAX_METRIC_NAME_CHARS })
    } else if e.description@.len() > MAX_DESCRIPTION_CHARS {
        Some(MetricNormalizeError::FieldTooLong { field: "description", maximum: MAX_DESCRIPTION_CHARS })
    } else if e.unit@.len() > MAX_UNIT_CHARS {
        Some(MetricNormalizeError::FieldTooLong { field: "unit", maximum: MAX_UNIT_CHARS })
    } else if e.resource_attribute_count > e.max_resource_attributes {
        Some(MetricNormalizeError::AttributeLimit {
            field: "resource", actual: e.resource_attribute_count, maximum: e.max_resource_attributes,
        })
    } else {
        match e.scope {
            Some((count, name, version)) => if count > e.max_resource_attributes {
                Some(MetricNormalizeError::AttributeLimit { field: "scope", actual: count, maximum: e.max_resource_attributes })
            } else if name@.len() > MAX_SCOPE_NAME_CHARS {
                Some(MetricNormalizeError::FieldTooLong { field: "scope_name", maximum: MAX_SCOPE_NAME_CHARS })
            } else if version@.len() > MAX_SCOPE_VERSION_CHARS {
                Some(MetricNormalizeError::FieldTooLong { field: "scope_version", maximum: MAX_SCOPE_VERSION_CHARS })
            } else if !rfc3339_valid(e.received_at@) {
                Some(MetricNormalizeError::InvalidReceivedAt)
            } else {
                None
            },
            None => if !rfc3339_valid(e.received_at@) {
                Some(MetricNormalizeError::InvalidReceivedAt)
            } else {
                None
            },
        }
    }
}

/// Checks a metric's envelope (`envelope_error` gives the first problem).
pub fn validate_metric_envelope(envelope: &MetricEnvelope) -> (r: Result<(), MetricNormalizeError>)
    ensures
        match envelope_error(*envelope) {
            Some(e) => r == Err::<(), MetricNormalizeError>(e),
            None => r is Ok,
        },
{
    if envelope.name.as_str().unicode_len() == 0 {
        return Err(MetricNormalizeError::EmptyMetricName);
    }
    check_chars(envelope.name.as_str(), MAX_METRIC_NAME_CHARS, "metric_name")?;
    check_chars(envelope.description.as_str(), MAX_DESCRIPTION_CHARS, "description")?;
    check_chars(envelope.unit.as_str(), MAX_UNIT_CHARS, "unit")?;
    if envelope.resource_attribute_count > envelope.max_resource_attributes {
        return Err(MetricNormalizeError::AttributeLimit {
            field: "resource",
            actual: envelope.resource_attribute_count,
            maximum: envelope.max_resource_attributes,
        });
    }
    match &envelope.scope {
        Some((count, name, version)) => {
            if *count > envelope.max_resource_attributes {
                return Err(MetricNormalizeError::AttributeLimit {
                    field: "scope",
                    actual: *count,
                    maximum: envelope.max_resource_attributes,
                });
            }
            check_chars(name.as_str(), MAX_SCOPE_NAME_CHARS, "scope_name")?;
            check_chars(version.as_str(), MAX_SCOPE_VERSION_CHARS, "scope_version")?;
        },
        None => {},
    }
    if !is_rfc3339(envelope.received_at.as_str()) {
        return Err(MetricNormalizeError::InvalidReceivedAt);
    }
    Ok(())
}

/// What the attribute normalizer found in a point's resource and point attributes.
#[derive(Debug, Clone, PartialEq, Eq)]
pub struct PointAttributes {
    pub host_name: String,
    pub service_name: Option<String>,
    pub service_version: Option<String>,
    pub ai_tool: Option<String>,
    pub ai_project: Option<String>,
    pub ai_session_id: Option<String>,
}

/// What every point of one gauge or sum metric shares. Texts that are stored are
/// already privacy-filtered; the JSON values are already encoded.
#[derive(Debug, Clone)]
pub struct MetricContext {
    pub metric_name: String,
    pub description: String,
    pub unit: String,
    /// `gauge` or `sum`.
    pub instrument_kind: String,
    pub aggregation_temporality: Option<i32>,
    pub monotonic: Option<bool>,
    /// Gauges carry no meaningful start time.
    pub ignore_start_time: bool,
    /// The privacy policy keeps project paths.
    pub include_paths: bool,
    /// The resource's identifying value, as JSON.
    pub resource_key_json: String,
    /// The scope's identifying value, as JSON.
    pub scope_key_json: String,
    /// `{"resource": ..., "scope": ...}` of those two values, as JSON.
    pub resource_scope_json: String,
    /// The scope's name and version, when present and not empty.
    pub scope_name: Option<String>,
    pub scope_version: Option<String>,
    pub received_at: String,
    /// The attribute normalizer's limit for a point's attributes.
    pub max_signal_attributes: usize,
}

/// One number data point as plain values.
#[derive(Debug)]
pub struct PointParts {
    pub attribute_count: usize,
    pub exemplar_count: usize,
    pub start_time_unix_nano: u64,
    pub time_unix_nano: u64,
    /// The normalizer's result, as found.
    pub normalized: PointAttributes,
    /// The same, privacy-filtered.
    pub private: PointAttributes,
    /// The privacy-filtered point attributes, as JSON.
    pub attributes_json: String,
    /// The point's value, as JSON.
    pub value_json: String,
    /// The serialized exemplars and their ids, or why they could not be serialized.
    pub exemplars: Result<(String, Vec<String>), MetricNormalizeError>,
}

/// A stored metric point.
#[derive(Debug, Clone, PartialEq, Eq)]
pub struct MetricPointInput {
    pub point_key: String,
    pub metric_name: String,
    pub description: String,
    pub unit: String,
    pub instrument_kind: String,
    pub aggregation_temporality: Option<i32>,
    pub monotonic: Option<bool>,
    pub start_time_unix_nano: Option<i64>,
    pub time_unix_nano: i64,
    pub hostname: String,
    pub service_name: Option<String>,
    pub service_version: Option<String>,
    pub scope_name: Option<String>,
    pub scope_version: Option<String>,
    pub ai_tool: Option<String>,
    pub ai_project: Option<String>,
    pub ai_session_id: Option<String>,
    pub run_id: Option<i64>,
    pub resource_json: String,
    pub attributes_json: String,
    pub value_json: String,
    pub exemplars_json: String,
    pub received_at: String,
    pub content_scrubbed: bool,
}

pub open spec fn opt_view(o: Option<String>) -> Option<Seq<char>> {
    match o {
        Some(s) => Some(s@),
        None => None,
    }
}

/// The JSON text is longer than a stored metadata field may be.
pub open spec fn json_too_large(s: Seq<char>) -> bool {
    (encode_utf8(s).len() as usize) > MAX_METADATA_JSON_BYTES
}

pub open spec fn too_large(field: &'static str, s: Seq<char>) -> MetricNormalizeError {
    MetricNormalizeError::MetadataTooLarge { field, actual: encode_utf8(s).len() as usize, maximum: MAX_METADATA_JSON_BYTES }
}

/// The stored start time: none for gauges or a zero start.
pub open spec fn start_kept(c: MetricContext, p: PointParts) -> bool {
    !c.ignore_start_time && p.start_time_unix_nano != 0
}

/// The first problem with a point, in the order it is checked.
pub open spec fn point_error(c: MetricContext, p: PointParts) -> Option<MetricNormalizeError> {
    if p.attribute_count > c.max_signal_attributes {
        Some(MetricNormalizeError::AttributeLimit { field: "point", actual: p.attribute_count, maximum: c.max_signal_attributes })
    } else if p.exemplar_count > MAX_EXEMPLARS {
        Some(MetricNormalizeError::ExemplarLimit { actual: p.exemplar_count, maximum: MAX_EXEMPLARS })
    } else if p.time_unix_nano == 0 {
        Some(MetricNormalizeError::MissingPointTime)
    } else if p.time_unix_nano > i64::MAX {
        Some(MetricNormalizeError::IntegerOverflow { field: "time_unix_nano" })
    } else if start_kept(c, p) && p.start_time_unix_nano > i64::MAX {
        Some(MetricNormalizeError::IntegerOverflow { field: "start_time_unix_nano" })
    } else if start_kept(c, p) && p.time_unix_nano < p.start_time_unix_nano {
        Some(MetricNormalizeError::TimeBeforeStart)
    } else if p.normalized.host_name@.len() > MAX_HOSTNAME_CHARS {
        Some(MetricNormalizeError::FieldTooLong { field: "hostname", maximum: MAX_HOSTNAME_CHARS })
    } else if p.normalized.service_name matches Some(v) && v@.len() > MAX_SERVICE_NAME_CHARS {
        Some(MetricNormalizeError::FieldTooLong { field: "service_name", maximum: MAX_SERVICE_NAME_CHARS })
    } else if p.normalized.service_version matches Some(v) && v@.len() > MAX_SERVICE_VERSION_CHARS {
        Some(MetricNormalizeError::FieldTooLong { field: "service_version", maximum: MAX_SERVICE_VERSION_CHARS })
    } else {
        match p.exemplars {
            Err(e) => Some(e),
            Ok((exemplars_json, _)) => if json_too_large(c.resource_scope_json@) {
                Some(too_large("resource", c.resource_scope_json@))
            } else if json_too_large(p.attributes_json@) {
                Some(too_large("attributes", p.attributes_json@))
            } else if json_too_large(p.value_json@) {
                Some(too_large("value", p.value_json@))
            } else if json_too_large(exemplars_json@) {
                Some(too_large("exemplars", exemplars_json@))
            } else {
                None
            },
        }
    }
}

/// The identifying values of a point, in the point key's fixed order.
pub open spec fn key_parts_of(c: MetricContext, p: PointParts, start: Option<i64>, exemplar_ids: Vec<String>) -> PointKeyParts {
    PointKeyParts {
        resource_json: c.resource_key_json,
        scope_json: c.scope_key_json,
        metric_name: c.metric_name,
        instrument_kind: c.instrument_kind,
        unit: c.unit,
        aggregation_temporality: c.aggregation_temporality,
        monotonic: c.monotonic,
        start_time_unix_nano: start,
        time_unix_nano: p.time_unix_nano as i64,
        attributes_json: p.attributes_json,
        value_json: p.value_json,
        exemplar_ids,
    }
}

/// The stored start time.
pub open spec fn start_of(c: MetricContext, p: PointParts) -> Option<i64> {
    if start_kept(c, p) { Some(p.start_time_unix_nano as i64) } else { None }
}

/// The row stored for an accepted point: the context's texts and JSON, the point's
/// times, the privacy-filtered normalizer results (the project only when the
/// policy keeps paths), and the key of its identifying values.
pub open spec fn point_row(c: MetricContext, p: PointParts, m: MetricPointInput) -> bool {
    match p.exemplars {
        Ok((exemplars_json, ids)) => {
            &&& m.point_key@ == point_key_spec(key_parts_of(c, p, start_of(c, p), ids))
            &&& m.metric_name@ == c.metric_name@
            &&& m.description@ == c.description@
            &&& m.unit@ == c.unit@
            &&& m.instrument_kind@ == c.instrument_kind@
            &&& m.aggregation_temporality == c.aggregation_temporality
            &&& m.monotonic == c.monotonic
            &&& m.start_time_unix_nano == start_of(c, p)
            &&& m.time_unix_nano == p.time_unix_nano as i64
            &&& m.hostname@ == p.private.host_name@
            &&& opt_view(m.service_name) == opt_view(p.private.service_name)
            &&& opt_view(m.service_version) == opt_view(p.private.service_version)
            &&& opt_view(m.scope_name) == opt_view(c.scope_name)
            &&& opt_view(m.scope_version) == opt_view(c.scope_version)
            &&& opt_view(m.ai_tool) == opt_view(p.private.ai_tool)
            &&& opt_view(m.ai_project) == (if c.include_paths { opt_view(p.private.ai_project) } else { None })
            &&& opt_view(m.ai_session_id) == opt_view(p.private.ai_session_id)
            &&& m.run_id is None
            &&& m.resource_json@ == c.resource_scope_json@
            &&& m.attributes_json@ == p.attributes_json@
            &&& m.value_json@ == p.value_json@
            &&& m.exemplars_json@ == exemplars_json@
            &&& m.received_at@ == c.received_at@
            &&& m.content_scrubbed
        },
        Err(_) => false,
    }
}

fn clone_opt(o: &Option<String>) -> (r: Option<String>)
    ensures
        opt_view(r) == opt_view(*o),
{
    match o {
        Some(s) => Some(s.clone()),
        None => None,
    }
}

fn check_optional_chars(value: &Option<String>, maximum: usize, field: &'static str) -> (r: Result<(), MetricNormalizeError>)
    ensures
        (value matches Some(v) && v@.len() > maximum) ==> r == Err::<(), MetricNormalizeError>(MetricNormalizeError::FieldTooLong { field, maximum }),
        !(value matches Some(v) && v@.len() > maximum) ==> r is Ok,
{
    match value {
        Some(v) => check_chars(v.as_str(), maximum, field),
        None => Ok(()),
    }
}

/// One gauge or sum point as a stored row (`point_error` gives the first problem;
/// `point_row` the row).
pub fn build_metric_point(context: &MetricContext, point: &PointParts) -> (r: Result<MetricPointInput, MetricNormalizeError>)
    ensures
        match point_error(*context, *point) {
            Some(e) => r == Err::<MetricPointInput, MetricNormalizeError>(e),
            None => r matches Ok(m) && point_row(*context, *point, m),
        },
{
    if point.attribute_count > context.max_signal_attributes {
        return Err(MetricNormalizeError::AttributeLimit {
            field: "point",
            actual: point.attribute_count,
            maximum: context.max_signal_attributes,
        });
    }
    if point.exemplar_count > MAX_EXEMPLARS {
        return Err(MetricNormalizeError::ExemplarLimit { actual: point.exemplar_count, maximum: MAX_EXEMPLARS });
    }
    if point.time_unix_nano == 0 {
        return Err(MetricNormalizeError::MissingPointTime);
    }
    let time_unix_nano = checked_i64(point.time_unix_nano, "time_unix_nano")?;
    let start_time_unix_nano = if context.ignore_start_time || point.start_time_unix_nano == 0 {
        None
    } else {
        Some(checked_i64(point.start_time_unix_nano, "start_time_unix_nano")?)
    };
    match start_time_unix_nano {
        Some(start) => {
            if time_unix_nano < start {
                return Err(MetricNormalizeError::TimeBeforeStart);
            }
        },
        None => {},
    }
    check_chars(point.normalized.host_name.as_str(), MAX_HOSTNAME_CHARS, "hostname")?;
    check_optional_chars(&point.normalized.service_name, MAX_SERVICE_NAME_CHARS, "service_name")?;
    check_optional_chars(&point.normalized.service_version, MAX_SERVICE_VERSION_CHARS, "service_version")?;
    let (exemplars_text, exemplar_ids) = match &point.exemplars {
        Ok((text, ids)) => (text, ids),
        Err(e) => {
            return Err(*e);
        },
    };
    let resource_json = encode_json(context.resource_scope_json.clone(), "resource")?;
    let attributes_json = encode_json(point.attributes_json.clone(), "attributes")?;
    let value_json = encode_json(point.value_json.clone(), "value")?;
    let exemplars_json = encode_json(exemplars_text.clone(), "exemplars")?;
    let ids = crate::git_observer::watcher::clone_strings(exemplar_ids);
    let key_parts = PointKeyParts {
        resource_json: context.resource_key_json.clone(),
        scope_json: context.scope_key_json.clone(),
        metric_name: context.metric_name.clone(),
        instrument_kind: context.instrument_kind.clone(),
        unit: context.unit.clone(),
        aggregation_temporality: context.aggregation_temporality,
        monotonic: context.monotonic,
        start_time_unix_nano,
        time_unix_nano,
        attributes_json: point.attributes_json.clone(),
        value_json: point.value_json.clone(),
        exemplar_ids: ids,
    };
    let key = point_key(&key_parts);
    proof {
        let spec_parts = key_parts_of(*context, *point, start_of(*context, *point), *exemplar_ids);
        assert(key_components(key_parts) =~= key_components(spec_parts));
    }
    let ai_project = if context.include_paths { clone_opt(&point.private.ai_project) } else { None };
    Ok(MetricPointInput {
        point_key: key,
        metric_name: context.metric_name.clone(),
        description: context.description.clone(),
        unit: context.unit.clone(),
        instrument_kind: context.instrument_kind.clone(),
        aggregation_temporality: context.aggregation_temporality,
        monotonic: context.monotonic,
        start_time_unix_nano,
        time_unix_nano,
        hostname: point.private.host_name.clone(),
        service_name: clone_opt(&point.private.service_name),
        service_version: clone_opt(&point.private.service_version),
        scope_name: clone_opt(&context.scope_name),
        scope_version: clone_opt(&context.scope_version),
        ai_tool: clone_opt(&point.private.ai_tool),
        ai_project,
        ai_session_id: clone_opt(&point.private.ai_session_id),
        run_id: None,
        resource_json,
        attributes_json,
        value_json,
        exemplars_json,
        received_at: context.received_at.clone(),
        content_scrubbed: true,
    })
}

} // verus!
