use fastlog::plugin::file_split::read_paths;
use fastlog::plugin::file_split::KeepType;
use fastlog::plugin::file_split::LogFileEntry;

fn entry(name: &str, created: u64) -> LogFileEntry {
    LogFileEntry { name: name.to_string(), created }
}

#[test]
fn test_read_paths_filters_and_sorts_desc() {
    let entries = vec![
        entry("temp.log", 10),
        entry("temp2024-01-01T00-00-00.000000.log", 20),
        entry("other.txt", 30),
        entry("temp2024-03-01T00-00-00.000000.log", 40),
        entry("temp2024-02-01T00-00-00.000000.log", 50),
    ];
    let sorted = read_paths(&entries, "temp.log");
    let names: Vec<&str> = sorted.iter().map(|e| e.name.as_str()).collect();
    assert_eq!(
        names,
        vec![
            "temp2024-03-01T00-00-00.000000.log",
            "temp2024-02-01T00-00-00.000000.log",
            "temp2024-01-01T00-00-00.000000.log",
        ]
    );
}

#[test]
fn test_keep_num_removes_oldest_beyond_n() {
    let sorted = vec![entry("e", 1), entry("d", 2), entry("c", 3), entry("b", 4), entry("a", 5)];
    let removed = KeepType::KeepNum(2).select_removals(&sorted, 100);
    assert_eq!(removed, vec!["c".to_string(), "b".to_string(), "a".to_string()]);
}

#[test]
fn test_keep_num_zero_removes_all() {
    let sorted = vec![entry("b", 1), entry("a", 2)];
    let removed = KeepType::KeepNum(0).select_removals(&sorted, 100);
    assert_eq!(removed.len(), 2);
}

#[test]
fn test_keep_num_negative_removes_nothing() {
    let sorted = vec![entry("b", 1), entry("a", 2)];
    let removed = KeepType::KeepNum(-1).select_removals(&sorted, 100);
    assert!(removed.is_empty());
}

#[test]
fn test_keep_all_removes_nothing() {
    let sorted = vec![entry("b", 1), entry("a", 2)];
    let removed = KeepType::All.select_removals(&sorted, 100);
    assert!(removed.is_empty());
}

#[test]
fn test_keep_time_removes_older_archive() {
    // Two archives made two seconds apart; the window is one second.
    let t: u64 = 10_000_000;
    let newer = entry("temp-b.log", t + 2_000_000);
    let older = entry("temp-a.log", t);
    let sorted = vec![newer, older];
    let now = t + 2_500_000;
    let removed = KeepType::KeepTime(1_000_000).select_removals(&sorted, now);
    assert_eq!(removed, vec!["temp-a.log".to_string()]);
}

#[test]
fn test_retention_repeated_sweep_removes_nothing() {
    let sorted = vec![entry("d", 1), entry("c", 2), entry("b", 3), entry("a", 4)];
    let now: u64 = 5_000_000;
    for keep in [KeepType::KeepNum(2), KeepType::KeepTime(1_000_000), KeepType::All] {
        let removed = keep.select_removals(&sorted, now);
        let survivors: Vec<LogFileEntry> = sorted
            .iter()
            .filter(|e| !removed.contains(&e.name))
            .map(|e| LogFileEntry { name: e.name.clone(), created: e.created })
            .collect();
        let removed_again = keep.select_removals(&survivors, now);
        assert!(removed_again.is_empty());
    }
}
