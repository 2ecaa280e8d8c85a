use vstd::prelude::*;
use crate::strutil::lower_seq;

verus! {

/// Severity of one log line, as shown in the console.
#[derive(Debug, Clone, PartialEq, Eq, Structural)]
pub enum LogLevel {
    Info,
    Warning,
    Error,
    Debug,
    Launcher,
}

pub open spec fn spec_level_str(l: LogLevel) -> Seq<char> {
    match l {
        LogLevel::Info => "INFO"@,
        LogLevel::Warning => "WARN"@,
        LogLevel::Error => "ERROR"@,
        LogLevel::Debug => "DEBUG"@,
        LogLevel::Launcher => "LAUNCHER"@,
    }
}

/// The level a game log line maps to, compared without regard to ASCII
/// case; anything unrecognized reads as plain information.
pub open spec fn spec_level_of(s: Seq<char>) -> LogLevel {
    if lower_seq(s) == lower_seq("INFO"@) {
        LogLevel::Info
    } else if lower_seq(s) == lower_seq("WARN"@) || lower_seq(s) == lower_seq("WARNING"@) {
        LogLevel::Warning
    } else if lower_seq(s) == lower_seq("ERROR"@) || lower_seq(s) == lower_seq("FATAL"@) {
        LogLevel::Error
    } else if lower_seq(s) == lower_seq("DEBUG"@) || lower_seq(s) == lower_seq("TRACE"@) {
        LogLevel::Debug
    } else {
        LogLevel::Info
    }
}

impl LogLevel {
    /// The fixed tag this level prints as.
    pub fn as_str(&self) -> (r: &'static str)
        ensures
            r@ == spec_level_str(*self),
    {
        match self {
            LogLevel::Info => "INFO",
            LogLevel::Warning => "WARN",
            LogLevel::Error => "ERROR",
            LogLevel::Debug => "DEBUG",
            LogLevel::Launcher => "LAUNCHER",
        }
    }

    /// Reads a game log level tag, ignoring ASCII case.
    pub fn from_minecraft_level(level: &str) -> (r: LogLevel)
        ensures
            r == spec_level_of(level@),
    {
        if crate::strutil::eq_ci(level, "INFO") {
            LogLevel::Info
        } else if crate::strutil::eq_ci(level, "WARN") || crate::strutil::eq_ci(level, "WARNING") {
            LogLevel::Warning
        } else if crate::strutil::eq_ci(level, "ERROR") || crate::strutil::eq_ci(level, "FATAL") {
            LogLevel::Error
        } else if crate::strutil::eq_ci(level, "DEBUG") || crate::strutil::eq_ci(level, "TRACE") {
            LogLevel::Debug
        } else {
            LogLevel::Info
        }
    }
}

} // verus!
