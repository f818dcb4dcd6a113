use fastlog::appender::Command;
use fastlog::appender::FastLogRecord;
use fastlog::appender::Level;
use fastlog::appender::LevelFilter;
use fastlog::appender::RecordFormat;
use fastlog::filter::Filter;
use fastlog::filter::ModuleFilter;
use fastlog::formats::FastLogFormat;
use fastlog::formats::FastLogFormatJson;
use fastlog::formats::TimeType;

fn record(args: &str, file: &str, line: Option<u32>, level: Level) -> FastLogRecord {
    FastLogRecord {
        command: Command::CommandRecord,
        level,
        target: String::new(),
        args: args.to_string(),
        module: "my::module".to_string(),
        file: file.to_string(),
        line,
        now: 0,
        formated: String::new(),
    }
}

#[test]
fn test_text_format_with_line() {
    let f = FastLogFormat::new().set_time_type(TimeType::Utc);
    let r = record("hello", "src/a.rs", Some(10), Level::Info);
    let out = f.format_record(&r);
    assert_eq!(out, "1970-01-01 00:00:00.000 INFO [src/a.rs:10] hello\n");
}

#[test]
fn test_text_format_without_line() {
    let f = FastLogFormat::new().set_time_type(TimeType::Utc);
    let r = record("quiet", "src/a.rs", Some(10), Level::Trace);
    let out = f.format_record(&r);
    assert_eq!(out, "1970-01-01 00:00:00.000 TRACE quiet\n");
}

#[test]
fn test_text_format_line_threshold() {
    let f = FastLogFormat::new()
        .set_time_type(TimeType::Utc)
        .set_display_line_level(LevelFilter::Trace);
    let r = record("all", "lib.rs", Some(1), Level::Trace);
    let out = f.format_record(&r);
    assert_eq!(out, "1970-01-01 00:00:00.000 TRACE [lib.rs:1] all\n");
}

#[test]
fn test_format_twice_is_same() {
    let f = FastLogFormat::new().set_time_type(TimeType::Utc);
    let mut r = record("again", "b.rs", Some(2), Level::Warn);
    f.do_format(&mut r);
    let first = r.formated.clone();
    f.do_format(&mut r);
    assert_eq!(first, r.formated);
}

#[test]
fn test_json_format_escapes_and_slashes() {
    let f = FastLogFormatJson { time_type: TimeType::Utc, offset_sec: 0 };
    let r = record("say \"hi\"", "a\\b.rs", None, Level::Error);
    let out = f.format_record(&r);
    assert_eq!(
        out,
        "{\"args\":\"say \\\"hi\\\"\",\"date\":\"1970-01-01 00:00:00.000\",\"file\":\"a/b.rs\",\"level\":\"ERROR\",\"line\":0}\n"
    );
}

#[test]
fn test_json_format_twice_is_same() {
    let f = FastLogFormatJson { time_type: TimeType::Utc, offset_sec: 0 };
    let mut r = record("x", "y.rs", Some(7), Level::Debug);
    f.do_format(&mut r);
    let first = r.formated.clone();
    f.do_format(&mut r);
    assert_eq!(first, r.formated);
}

#[test]
fn test_module_filter_suppresses_listed_module() {
    let mut m = ModuleFilter::new();
    m.push_module("m".to_string());
    assert!(!m.do_log("m"));
    assert!(m.do_log("n"));
}

#[test]
fn test_logger_level_threshold() {
    let mut logger = fastlog::fast_log::Logger::new();
    logger.set_level(Level::Info);
    assert_eq!(logger.get_level(), Level::Info);
    assert!(logger.enabled(Level::Error));
    assert!(logger.enabled(Level::Info));
    assert!(!logger.enabled(Level::Debug));
}

struct PassAll {}

impl Filter for PassAll {
    fn do_log(&self, _module: &str) -> bool {
        true
    }
}

#[test]
fn test_logger_sender_delivers_in_order() {
    let (sender, receiver) = fastlog::fast_log::LoggerSender::new(
        fastlog::fast_log::RuntimeType::Std,
        16,
        PassAll {},
    );
    sender.send("one\n").unwrap();
    sender.send("two\n").unwrap();
    assert_eq!(receiver.try_recv().unwrap(), "one\n");
    assert_eq!(receiver.try_recv().unwrap(), "two\n");
}

#[test]
fn test_logger_sender_reports_closed_channel() {
    let (sender, receiver) = fastlog::fast_log::LoggerSender::new(
        fastlog::fast_log::RuntimeType::Std,
        16,
        PassAll {},
    );
    drop(receiver);
    let err = sender.send("lost\n").unwrap_err();
    assert!(matches!(err, fastlog::error::LogError::Channel(_)));
    assert_eq!(err.msg(), "channel disconnected");
}

#[test]
fn test_format_line_parts() {
    assert_eq!(fastlog::fast_log::format_line(Some("f.rs"), Some(3)), "(f.rs:3)");
    assert_eq!(fastlog::fast_log::format_line(None, Some(3)), "");
    assert_eq!(fastlog::fast_log::format_line(Some("f.rs"), None), "");
}
