//! Development tools switch and the records they log.

use vstd::prelude::*;

verus! {

/// Development tools are on in this build.
pub const DEV_TOOLS_ENABLED: bool = true;

/// Development utilities for scene debugging.
pub struct DevTools;

/// Severity of a development log record.
#[derive(PartialEq, Eq, Structural, Clone, Copy)]
pub enum DevLogLevel {
    Info,
    Warning,
    Error,
}

/// A record for the development log (target `dev_tools`).
pub struct DevLogRecord {
    pub level: DevLogLevel,
    pub message: String,
}

/// The record a development log call emits: one when the tools are on,
/// none when they are off.
pub open spec fn dev_record_spec(r: Option<DevLogRecord>, level: DevLogLevel, message: Seq<char>) -> bool {
    if DEV_TOOLS_ENABLED {
        r matches Some(rec) && rec.level == level && rec.message@ == message
    } else {
        r is None
    }
}

impl DevTools {
    /// Whether development tools are enabled.
    pub fn is_enabled() -> (r: bool)
        ensures
            r == DEV_TOOLS_ENABLED,
    {
        DEV_TOOLS_ENABLED
    }

    fn record(level: DevLogLevel, message: &str) -> (r: Option<DevLogRecord>)
        ensures
            dev_record_spec(r, level, message@),
    {
        if Self::is_enabled() {
            Some(DevLogRecord { level, message: String::from_str(message) })
        } else {
            None
        }
    }

    /// The debug-level record to log, if the tools are enabled.
    pub fn log_dev_info(message: &str) -> (r: Option<DevLogRecord>)
        ensures
            dev_record_spec(r, DevLogLevel::Info, message@),
    {
        Self::record(DevLogLevel::Info, message)
    }

    /// The warning record to log, if the tools are enabled.
    pub fn log_dev_warning(message: &str) -> (r: Option<DevLogRecord>)
        ensures
            dev_record_spec(r, DevLogLevel::Warning, message@),
    {
        Self::record(DevLogLevel::Warning, message)
    }

    /// The error record to log, if the tools are enabled.
    pub fn log_dev_error(message: &str) -> (r: Option<DevLogRecord>)
        ensures
            dev_record_spec(r, DevLogLevel::Error, message@),
    {
        Self::record(DevLogLevel::Error, message)
    }
}

} // verus!
