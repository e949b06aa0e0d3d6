//! The log line format and level filter of the host's logger.

use vstd::prelude::*;
use vstd::string::*;

verus! {

/// Log levels, most severe first.
#[derive(Debug, Clone, Copy, PartialEq, Eq, Hash, Structural)]
pub enum LogLevel {
    Error,
    Warn,
    Info,
    Debug,
    Trace,
}

/// The upper-case name of a level.
pub open spec fn level_name(l: LogLevel) -> Seq<char> {
    match l {
        LogLevel::Error => "ERROR"@,
        LogLevel::Warn => "WARN"@,
        LogLevel::Info => "INFO"@,
        LogLevel::Debug => "DEBUG"@,
        LogLevel::Trace => "TRACE"@,
    }
}

pub struct MHWLogger {
    prefix: String,
}

impl MHWLogger {
    pub closed spec fn prefix(&self) -> Seq<char> {
        self.prefix@
    }

    pub fn new() -> (r: MHWLogger)
        ensures
            r.prefix() == "LuaEngineEx"@,
    {
        MHWLogger { prefix: String::from_str("LuaEngineEx") }
    }

    /// Every level up to `Debug` is logged; `Trace` is not.
    pub fn enabled(&self, level: LogLevel) -> (r: bool)
        ensures
            r == (level != LogLevel::Trace),
    {
        match level {
            LogLevel::Trace => false,
            _ => true,
        }
    }

    /// The line written for a record: `[prefix] LEVEL - message`.
    pub fn format_line(&self, level: LogLevel, message: &str) -> (r: String)
        ensures
            r@ == "["@ + self.prefix() + "] "@ + level_name(level) + " - "@ + message@,
    {
        let name = match level {
            LogLevel::Error => "ERROR",
            LogLevel::Warn => "WARN",
            LogLevel::Info => "INFO",
            LogLevel::Debug => "DEBUG",
            LogLevel::Trace => "TRACE",
        };
        let mut out = String::from_str("[");
        out.append(self.prefix.as_str());
        out.append("] ");
        out.append(name);
        out.append(" - ");
        out.append(message);
        out
    }
}

} // verus!
