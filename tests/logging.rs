use fusion_hawking::logging::{ConsoleLogger, FusionLogger, LogLevel};
use std::sync::{Arc, Mutex};

#[test]
fn test_log_level_enum() {
    assert_eq!(LogLevel::Debug, LogLevel::Debug);
    assert_ne!(LogLevel::Debug, LogLevel::Info);
    assert_ne!(LogLevel::Warn, LogLevel::Error);
}

#[test]
fn test_log_level_debug() {
    let level = LogLevel::Debug;
    assert_eq!(format!("{:?}", level), "Debug");
}

#[test]
fn test_console_logger_creation() {
    let logger = ConsoleLogger::new();
    assert!(Arc::strong_count(&logger) == 1);
}

#[test]
fn test_log_level_ordering() {
    let levels = [LogLevel::Debug, LogLevel::Info, LogLevel::Warn, LogLevel::Error];
    for (i, level) in levels.iter().enumerate() {
        for (j, other) in levels.iter().enumerate() {
            if i == j {
                assert_eq!(level, other);
            } else {
                assert_ne!(level, other);
            }
        }
    }
}

struct MockLogger {
    logs: Mutex<Vec<(LogLevel, String, String)>>,
}

impl FusionLogger for MockLogger {
    fn log(&self, level: LogLevel, component: &str, msg: &str) {
        self.logs.lock().unwrap().push((level, component.to_string(), msg.to_string()));
    }
}

#[test]
fn test_mock_logger_captures_logs() {
    let logger = MockLogger { logs: Mutex::new(Vec::new()) };
    logger.log(LogLevel::Debug, "Component1", "Debug message");
    logger.log(LogLevel::Info, "Component2", "Info message");
    logger.log(LogLevel::Warn, "Component3", "Warning");
    logger.log(LogLevel::Error, "Component4", "Error!");
    let logs = logger.logs.lock().unwrap().clone();
    assert_eq!(logs.len(), 4);
    assert_eq!(logs[0].0, LogLevel::Debug);
    assert_eq!(logs[0].1, "Component1");
    assert_eq!(logs[0].2, "Debug message");
    assert_eq!(logs[1].0, LogLevel::Info);
    assert_eq!(logs[2].0, LogLevel::Warn);
    assert_eq!(logs[3].0, LogLevel::Error);
}

#[test]
fn console_level_labels() {
    assert_eq!(ConsoleLogger::label(LogLevel::Debug), "DEBUG");
    assert_eq!(ConsoleLogger::label(LogLevel::Info), "INFO ");
    assert_eq!(ConsoleLogger::label(LogLevel::Warn), "WARN ");
    assert_eq!(ConsoleLogger::label(LogLevel::Error), "ERROR");
}

#[test]
fn test_empty_component_and_message() {
    let logger = MockLogger { logs: Mutex::new(Vec::new()) };
    logger.log(LogLevel::Info, "", "");
    let logs = logger.logs.lock().unwrap().clone();
    assert_eq!(logs.len(), 1);
    assert_eq!(logs[0].1, "");
    assert_eq!(logs[0].2, "");
}

#[test]
fn test_unicode_in_logs() {
    let logger = MockLogger { logs: Mutex::new(Vec::new()) };
    logger.log(LogLevel::Warn, "日本語", "Привет мир! 🚀");
    let logs = logger.logs.lock().unwrap().clone();
    assert_eq!(logs[0].1, "日本語");
    assert_eq!(logs[0].2, "Привет мир! 🚀");
}
