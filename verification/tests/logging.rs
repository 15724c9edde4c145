use vscode_atomic_tauri::logging::{ConsoleLogger, LogLevel, LoggerService, NullTelemetryService, OutputChannel};

#[test]
fn console_logger_set_level_reflected() {
    let mut logger = ConsoleLogger::new("test", LogLevel::Trace);
    assert_eq!(logger.get_level(), LogLevel::Trace);
    logger.set_level(LogLevel::Info);
    assert_eq!(logger.get_level(), LogLevel::Info);
}

#[test]
fn console_logger_respects_level_threshold() {
    let logger = ConsoleLogger::new("lvl_test", LogLevel::Info);
    assert!(!logger.should_emit(LogLevel::Trace));
    assert!(!logger.should_emit(LogLevel::Debug));
    assert!(logger.should_emit(LogLevel::Info));
    assert!(logger.should_emit(LogLevel::Warning));
    assert!(logger.should_emit(LogLevel::Error));
    assert!(logger.should_emit(LogLevel::Critical));
}

#[test]
fn console_logger_off_suppresses_all() {
    let logger = ConsoleLogger::new("off_test", LogLevel::Off);
    for level in [
        LogLevel::Trace,
        LogLevel::Debug,
        LogLevel::Info,
        LogLevel::Warning,
        LogLevel::Error,
        LogLevel::Critical,
    ] {
        assert!(!logger.should_emit(level));
    }
}

#[test]
fn output_channel_append_line_stores() {
    let mut ch = OutputChannel::new("test-channel");
    ch.append_line("hello");
    ch.append_line("world");
    let snap = ch.snapshot();
    assert_eq!(snap, vec!["hello\n", "world\n"]);
}

#[test]
fn output_channel_replace_replaces_content() {
    let mut ch = OutputChannel::new("replace-test");
    ch.append_line("old");
    ch.replace("new");
    assert_eq!(ch.snapshot(), vec!["new"]);
}

#[test]
fn output_channel_clear_empties_lines() {
    let mut ch = OutputChannel::new("clear-test");
    ch.append_line("x");
    ch.clear();
    assert!(ch.snapshot().is_empty());
    assert_eq!(ch.name(), "clear-test");
}

#[test]
fn output_channel_append_keeps_text_as_is() {
    let mut ch = OutputChannel::new("raw");
    ch.append("a");
    ch.append("b\n");
    assert_eq!(ch.snapshot(), vec!["a", "b\n"]);
}

#[test]
fn logger_service_same_name_same_arc() {
    let mut svc = LoggerService::new(LogLevel::Info);
    let a = svc.get_logger("foo");
    let b = svc.get_logger("foo");
    assert_eq!(a, b);
}

#[test]
fn logger_service_different_names() {
    let mut svc = LoggerService::new(LogLevel::Info);
    let a = svc.get_logger("a");
    let b = svc.get_logger("b");
    assert_ne!(a, b);
}

#[test]
fn logger_service_level_change_is_shared_by_name() {
    let mut svc = LoggerService::new(LogLevel::Info);
    let a = svc.get_logger("shared");
    assert_eq!(svc.logger(a).get_level(), LogLevel::Info);
    assert_eq!(svc.logger(a).name(), "shared");
    svc.set_level(a, LogLevel::Error);
    let again = svc.get_logger("shared");
    assert_eq!(svc.logger(again).get_level(), LogLevel::Error);
}

#[test]
fn log_levels_are_ranked_from_off_to_critical() {
    assert_eq!(LogLevel::Off.rank(), 0);
    assert_eq!(LogLevel::Warning.rank(), 4);
    assert_eq!(LogLevel::Critical.rank(), 6);
}

#[test]
fn null_telemetry_is_disabled() {
    let svc = NullTelemetryService;
    assert!(!svc.is_enabled());
}

#[test]
fn null_telemetry_set_enabled_noop() {
    let svc = NullTelemetryService;
    svc.set_enabled(true);
    assert!(!svc.is_enabled());
}

#[test]
fn output_channel_append_line_fires_change() {
    let mut ch = OutputChannel::new("event-test");
    let mut fired = 0u32;
    let key = ch.on_did_change();
    fired += ch.append_line("line1").iter().filter(|k| **k == key).count() as u32;
    fired += ch.append_line("line2").iter().filter(|k| **k == key).count() as u32;
    assert_eq!(fired, 2);
}

#[test]
fn output_channel_clear_empties_and_fires() {
    let mut ch = OutputChannel::new("clear-test");
    ch.append_line("x");
    let mut fired = 0u32;
    let key = ch.on_did_change();
    fired += ch.clear().iter().filter(|k| **k == key).count() as u32;
    assert!(ch.snapshot().is_empty());
    assert_eq!(fired, 1);
}

#[test]
fn output_channel_replace_tells_each_listener_once_and_removed_ones_not() {
    let mut ch = OutputChannel::new("replace-test");
    let a = ch.on_did_change();
    let b = ch.on_did_change();
    assert_eq!(ch.replace("new"), vec![a, b]);
    assert_eq!(ch.snapshot(), vec!["new"]);
    ch.remove_listener(a);
    assert_eq!(ch.append("more"), vec![b]);
}

#[test]
fn logger_service_set_level_leaves_other_loggers() {
    let mut svc = LoggerService::new(LogLevel::Info);
    let a = svc.get_logger("a");
    let b = svc.get_logger("b");
    svc.set_level(a, LogLevel::Trace);
    assert_eq!(svc.logger(a).get_level(), LogLevel::Trace);
    assert_eq!(svc.logger(b).get_level(), LogLevel::Info);
}
