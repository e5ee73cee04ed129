//! Verified core of the federation merge bookkeeping, the mismatch reporter,
//! the trusted-origins CORS decisions and the Datadog span measurement rules.

pub mod merge;
pub mod text;
pub mod error_reporting;
pub mod headers;
pub mod cors;
pub mod span_measure;
