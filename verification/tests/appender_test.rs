use fastlog::appender::Command;
use fastlog::appender::FastLogRecord;
use fastlog::appender::Level;
use fastlog::error::LogError;
use fastlog::plugin::file_split::FileSplitAppender;
use fastlog::plugin::file_split::Rolling;
use fastlog::plugin::file_split::RollingType;
use fastlog::plugin::file_split::SplitFile;

/// An in-memory stand-in for the active file: appends to a byte vector and
/// records every copy it is asked to make.
struct MemFile {
    bytes: Vec<u8>,
    copies: Vec<(String, Vec<u8>)>,
}

impl SplitFile for MemFile {
    fn new(_path: &str) -> Result<Self, LogError> {
        Ok(MemFile { bytes: Vec::new(), copies: Vec::new() })
    }

    fn write(&mut self, buf: &[u8]) -> usize {
        self.bytes.extend_from_slice(buf);
        buf.len()
    }

    fn truncate(&mut self) {
        self.bytes.clear();
    }

    fn flush(&mut self) {}

    fn copy_to(&mut self, dest: &str) -> bool {
        self.copies.push((dest.to_string(), self.bytes.clone()));
        true
    }

    fn len(&self) -> usize {
        self.bytes.len()
    }

    fn offset(&self) -> usize {
        if self.bytes.is_empty() {
            0
        } else {
            self.bytes.len() - 1
        }
    }

    fn seek_end(&mut self) {}
}

/// A stand-in whose `new` pretends the file already holds bytes on disk.
struct PrefilledFile {
    inner: MemFile,
}

impl SplitFile for PrefilledFile {
    fn new(path: &str) -> Result<Self, LogError> {
        let mut inner = MemFile { bytes: Vec::new(), copies: Vec::new() };
        inner.bytes.extend_from_slice(path.as_bytes());
        Ok(PrefilledFile { inner })
    }

    fn write(&mut self, buf: &[u8]) -> usize {
        self.inner.write(buf)
    }

    fn truncate(&mut self) {
        self.inner.truncate()
    }

    fn flush(&mut self) {}

    fn copy_to(&mut self, dest: &str) -> bool {
        self.inner.copy_to(dest)
    }

    fn len(&self) -> usize {
        self.inner.len()
    }

    fn offset(&self) -> usize {
        self.inner.offset()
    }

    fn seek_end(&mut self) {}
}

fn one_byte_record() -> FastLogRecord {
    FastLogRecord {
        command: Command::CommandRecord,
        level: Level::Info,
        target: String::new(),
        args: String::new(),
        module: String::new(),
        file: String::new(),
        line: None,
        now: 1_000_000,
        formated: "a".to_string(),
    }
}

#[test]
fn test_basic_rotation_by_size() {
    let rolling = Rolling { last: 500_000, offset_sec: 0, how: RollingType::BySize(1024) };
    let (mut appender, receiver) =
        FileSplitAppender::<MemFile>::new("target/test/temp.log", rolling).unwrap();
    let mut batch = Vec::new();
    for _ in 0..3000 {
        batch.push(one_byte_record());
    }
    let all_ok = appender.do_logs(&batch);
    assert!(all_ok);
    assert_eq!(appender.file.copies.len(), 2);
    assert_eq!(appender.file.copies[0].1.len(), 1023);
    assert_eq!(appender.file.copies[1].1.len(), 1023);
    assert_eq!(appender.file.bytes.len(), 954);
    assert_eq!(appender.temp_bytes, 954);
    let total: usize = appender.file.copies.iter().map(|c| c.1.len()).sum::<usize>()
        + appender.file.bytes.len();
    assert_eq!(total, 3000);
    // Every archived and active byte is a whole record's payload.
    assert!(appender.file.copies.iter().all(|c| c.1.iter().all(|&b| b == b'a')));
    assert!(appender.file.bytes.iter().all(|&b| b == b'a'));
    let first = receiver.try_recv().unwrap();
    assert!(first.new_log_name.starts_with("target/test/temp"));
    assert!(first.new_log_name.ends_with(".log"));
    assert!(first.wg.is_none());
    let second = receiver.try_recv().unwrap();
    assert!(second.wg.is_none());
    assert!(receiver.try_recv().is_err());
}

#[test]
fn test_flush_sentinel_queued_behind_packs() {
    let rolling = Rolling { last: 500_000, offset_sec: 0, how: RollingType::BySize(1_000_000) };
    let (mut appender, receiver) =
        FileSplitAppender::<MemFile>::new("target/test/temp.log", rolling).unwrap();
    let wg = crossbeam_utils::sync::WaitGroup::new();
    let mut batch = Vec::new();
    for _ in 0..100 {
        batch.push(one_byte_record());
    }
    let mut flush_record = one_byte_record();
    flush_record.command = Command::CommandFlush(wg.clone());
    flush_record.formated = String::new();
    batch.push(flush_record);
    let all_ok = appender.do_logs(&batch);
    assert!(all_ok);
    // No rotation was due, so the only job is the flush sentinel.
    let pack = receiver.try_recv().unwrap();
    assert_eq!(pack.new_log_name, "");
    assert!(pack.wg.is_some());
    drop(pack);
    drop(batch);
    // All clones of the barrier are gone: a waiter is released at once.
    wg.wait();
    // All 100 payload bytes reached the active file before the sentinel.
    assert_eq!(appender.file.bytes.len(), 100);
}

#[test]
fn test_send_pack_truncates_and_resets() {
    let rolling = Rolling { last: 500_000, offset_sec: 0, how: RollingType::BySize(1_000_000) };
    let (mut appender, receiver) =
        FileSplitAppender::<MemFile>::new("target/test/temp.log", rolling).unwrap();
    let mut batch = Vec::new();
    for _ in 0..10 {
        batch.push(one_byte_record());
    }
    assert!(appender.do_logs(&batch));
    assert_eq!(appender.temp_bytes, 10);
    appender.send_pack("temp-archived.log".to_string(), None);
    assert_eq!(appender.temp_bytes, 0);
    assert_eq!(appender.file.bytes.len(), 0);
    assert_eq!(appender.file.copies.len(), 1);
    assert_eq!(appender.file.copies[0].0, "target/test/temp-archived.log");
    assert_eq!(appender.file.copies[0].1.len(), 10);
    let pack = receiver.try_recv().unwrap();
    assert_eq!(pack.new_log_name, "target/test/temp-archived.log");
    assert_eq!(pack.dir, "target/test/");
}

#[test]
fn test_open_existing_file_appends() {
    let rolling = Rolling { last: 500_000, offset_sec: 0, how: RollingType::BySize(1_000_000) };
    let (mut appender, _receiver) =
        FileSplitAppender::<PrefilledFile>::new("logs/temp.log", rolling).unwrap();
    // The mock "opened" a file that already holds bytes.
    let on_disk = appender.file.inner.bytes.len();
    assert!(on_disk > 0);
    assert_eq!(appender.temp_bytes, on_disk);
    let batch = vec![one_byte_record()];
    assert!(appender.do_logs(&batch));
    assert_eq!(appender.file.inner.bytes.len(), on_disk + 1);
    assert_eq!(appender.temp_bytes, on_disk + 1);
}

#[test]
fn test_empty_temp_name_resolves_to_default() {
    let rolling = Rolling { last: 500_000, offset_sec: 0, how: RollingType::BySize(1_000_000) };
    let (appender, _receiver) = FileSplitAppender::<MemFile>::new("logs/", rolling).unwrap();
    assert_eq!(appender.temp_name(), "temp.log");
    assert_eq!(appender.dir_path, "logs/");
}

#[test]
fn test_bare_name_uses_working_directory() {
    let rolling = Rolling { last: 500_000, offset_sec: 0, how: RollingType::BySize(1_000_000) };
    let (mut appender, receiver) =
        FileSplitAppender::<MemFile>::new("requests.log", rolling).unwrap();
    assert_eq!(appender.dir_path, ".");
    assert_eq!(appender.temp_name(), "requests.log");
    appender.send_pack("requests-archived.log".to_string(), None);
    let pack = receiver.try_recv().unwrap();
    assert_eq!(pack.dir, ".");
    assert_eq!(pack.new_log_name, "./requests-archived.log");
}

#[test]
fn test_unbounded_channel_accepts_every_send() {
    let (s, r) = fastlog::runtime::chan::<u64>(None);
    for i in 0..100_000u64 {
        assert!(fastlog::runtime::chan_send(&s, i));
    }
    for i in 0..100_000u64 {
        assert_eq!(r.try_recv().unwrap(), i);
    }
}
