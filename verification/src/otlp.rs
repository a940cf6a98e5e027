//! OTLP ingestion: error surface, privacy classification and the pure parts of
//! span and metric normalization.

pub mod admission;
pub mod entries;
pub mod error;
pub mod metric_http;
pub mod metric_point;
pub mod metrics;
pub mod metrics_payload;
pub mod privacy;
pub mod span_input;
pub mod traces;
pub mod traces_payload;
