use fastlog::date::CalDate;
use fastlog::plugin::file_name::extract_file_name;
use fastlog::plugin::file_split::archive_name;
use fastlog::plugin::file_split::get_base_name;
use fastlog::plugin::file_split::DateType;
use fastlog::plugin::file_split::Rolling;
use fastlog::plugin::file_split::RollingType;

#[test]
fn test_extract_file_name() {
    let p = extract_file_name("temp.log");
    assert_eq!(p, "temp.log");
}

#[test]
fn test_extract_file_name2() {
    let p = extract_file_name("logs/temp.log");
    assert_eq!(p, "temp.log");
}

#[test]
fn test_extract_file_name3() {
    let p = extract_file_name("logs/");
    assert_eq!(p, "");
}

#[test]
fn test_extract_file_name4() {
    let p = extract_file_name("C:/logs");
    assert_eq!(p, "logs");
}

#[test]
fn test_extract_file_name5() {
    let p = extract_file_name("C:/logs/aa.log");
    assert_eq!(p, "aa.log");
}

#[test]
fn test_extract_file_name6() {
    let p = extract_file_name("C:\\logs\\aa.log");
    assert_eq!(p, "aa.log");
}

#[test]
fn test_get_base_name() {
    assert_eq!(get_base_name("logs/temp.log"), "temp");
    assert_eq!(get_base_name("noext"), "noext");
    assert_eq!(get_base_name("dir/a.b.c"), "a.b");
}

#[test]
fn test_archive_name_stamp() {
    let d = CalDate { year: 2023, mon: 7, day: 20, hour: 10, minute: 13, sec: 17, micro: 452247 };
    assert_eq!(archive_name("temp.log", d), "temp2023-07-20T10-13-17.452247.log");
    assert_eq!(archive_name("plain", d), "plain2023-07-20T10-13-17.452247");
}

fn record_at(now: u64) -> fastlog::appender::FastLogRecord {
    fastlog::appender::FastLogRecord {
        command: fastlog::appender::Command::CommandRecord,
        level: fastlog::appender::Level::Info,
        target: String::new(),
        args: String::new(),
        module: String::new(),
        file: String::new(),
        line: None,
        now,
        formated: String::new(),
    }
}

const DAY_MICROS: u64 = 86_400_000_000;

#[test]
fn test_by_date_day_rotates_once_at_midnight() {
    let t1 = DAY_MICROS - 1_000; // 23:59:59.999
    let t2 = DAY_MICROS + 1_000; // 00:00:00.001 next day
    let t3 = DAY_MICROS + 2_000;
    let mut r = Rolling { last: t1, offset_sec: 0, how: RollingType::ByDate(DateType::Day) };
    let first = r.can("temp.log", 0, &record_at(t2));
    assert_eq!(first, Some("temp1970-01-01T23-59-59.999000.log".to_string()));
    let second = r.can("temp.log", 0, &record_at(t3));
    assert_eq!(second, None);
}

#[test]
fn test_by_size_boundary() {
    let mut r = Rolling { last: 1_000_000, offset_sec: 0, how: RollingType::BySize(100) };
    assert!(r.can("temp.log", 100, &record_at(2_000_000)).is_some());
    let mut r2 = Rolling { last: 1_000_000, offset_sec: 0, how: RollingType::BySize(100) };
    assert!(r2.can("temp.log", 99, &record_at(2_000_000)).is_none());
}

#[test]
fn test_by_duration_rotates_after_period() {
    let mut r = Rolling {
        last: 5_000_000,
        offset_sec: 0,
        how: RollingType::ByDuration(5_000_000, 10_000_000),
    };
    assert!(r.can("temp.log", 0, &record_at(10_000_000)).is_none());
    assert!(r.can("temp.log", 0, &record_at(15_000_000)).is_some());
}
