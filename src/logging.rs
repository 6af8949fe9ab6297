//! The observability hook: log levels, the logger interface components
//! report to, and the console logger's level labels. Writing the lines out
//! is the embedding application's.

use vstd::prelude::*;
use std::sync::Arc;

verus! {

#[derive(Debug, Clone, Copy, PartialEq, Eq, Structural)]
pub enum LogLevel {
    Debug,
    Info,
    Warn,
    Error,
}

/// A sink for (level, component, message) log records.
pub trait FusionLogger {
    fn log(&self, level: LogLevel, component: &str, msg: &str);
}

/// The console logger: one line per record, tagged with a fixed-width level
/// label.
pub struct ConsoleLogger;

impl ConsoleLogger {
    pub fn new() -> (r: Arc<ConsoleLogger>) {
        Arc::new(ConsoleLogger)
    }

    /// The five-character label of a level.
    pub fn label(level: LogLevel) -> (r: &'static str)
        ensures
            level == LogLevel::Debug ==> r@ == "DEBUG"@,
            level == LogLevel::Info ==> r@ == "INFO "@,
            level == LogLevel::Warn ==> r@ == "WARN "@,
            level == LogLevel::Error ==> r@ == "ERROR"@,
    {
        proof {
            reveal_strlit("DEBUG");
            reveal_strlit("INFO ");
            reveal_strlit("WARN ");
            reveal_strlit("ERROR");
        }
        match level {
            LogLevel::Debug => "DEBUG",
            LogLevel::Info => "INFO ",
            LogLevel::Warn => "WARN ",
            LogLevel::Error => "ERROR",
        }
    }
}

} // verus!
