//! Relaying the engine's leveled log events to the host.
//!
//! At load time the engine gets one C-callable relay, and may invoke it from
//! any of its own threads with a severity and a null-terminated message. The
//! conversion performed here is total: every severity maps to a host level
//! and every byte sequence decodes to text, so no failure can unwind back
//! through native code. Thread concerns — the relay holds no state and takes
//! no lock — belong to the unverified rim that registers the callback.

use vstd::prelude::*;

verus! {

use crate::marshal::{c_content, decoded_text, decode_c_string};

/// The host's log levels, least to most severe.
pub enum LogLevel {
    Trace,
    Debug,
    Info,
    Warn,
    Error,
    Critical,
}

/// The host level for a native severity: the native scale has six levels,
/// least to most severe, and anything past its end reads as most severe.
pub open spec fn spec_level_from_native(level: u8) -> LogLevel {
    if level == 0 {
        LogLevel::Trace
    } else if level == 1 {
        LogLevel::Debug
    } else if level == 2 {
        LogLevel::Info
    } else if level == 3 {
        LogLevel::Warn
    } else if level == 4 {
        LogLevel::Error
    } else {
        LogLevel::Critical
    }
}

/// Map a native severity onto the host's scale. Total: no value is refused.
pub fn level_from_native(level: u8) -> (r: LogLevel)
    ensures
        r == spec_level_from_native(level),
{
    if level == 0 {
        LogLevel::Trace
    } else if level == 1 {
        LogLevel::Debug
    } else if level == 2 {
        LogLevel::Info
    } else if level == 3 {
        LogLevel::Warn
    } else if level == 4 {
        LogLevel::Error
    } else {
        LogLevel::Critical
    }
}

/// One log event as the host sees it.
pub struct LogRecord {
    pub level: LogLevel,
    pub message: String,
}

/// Convert one native log event — a severity byte and a C string image —
/// into a host record. Total: any severity and any bytes convert, so the
/// relay never fails.
pub fn relay_event(level: u8, message: &Vec<u8>) -> (r: LogRecord)
    ensures
        r.level == spec_level_from_native(level),
        r.message@ == decoded_text(c_content(message@)),
{
    LogRecord { level: level_from_native(level), message: decode_c_string(message) }
}

} // verus!
