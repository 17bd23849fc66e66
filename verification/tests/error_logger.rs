use easy_term::error::AppError;
use easy_term::error_logger::{
    day_after_event, level_name, log_entries, log_file_date, log_file_day, log_file_name, log_read_failed,
    source_name, Deduper, ErrorEvent, Level, LogFile, LogStamp, RetentionPlan, SizeSweep, Source,
    DEDUPE_THRESHOLD, MAX_TOTAL_BYTES,
};

fn stamp() -> LogStamp {
    LogStamp { session: "s1".to_string(), app_version: "0.1.0".to_string(), os_version: "macos".to_string() }
}

fn event(code: &str, message: &str) -> ErrorEvent {
    ErrorEvent::new(
        "2024-05-01T10:00:00+00:00".to_string(),
        Level::Warn,
        Source::Backend,
        "tests".to_string(),
        code.to_string(),
        message.to_string(),
        None,
        None,
        &stamp(),
    )
}

#[test]
fn levels_and_sources_are_written_in_lowercase() {
    assert_eq!(level_name(Level::Warn), "warn");
    assert_eq!(level_name(Level::Error), "error");
    assert_eq!(level_name(Level::Fatal), "fatal");
    assert_eq!(source_name(Source::Backend), "backend");
    assert_eq!(source_name(Source::Frontend), "frontend");
}

#[test]
fn an_app_error_is_logged_as_a_backend_error() {
    let e = AppError::new("project_store", "STORE_WRITE_FAILED", "disk full".to_string());
    let ev = ErrorEvent::from_app_error(&e, "t".to_string(), &stamp());
    assert_eq!(ev.level, Level::Error);
    assert_eq!(ev.source, Source::Backend);
    assert_eq!(ev.module, "project_store");
    assert_eq!(ev.code, "STORE_WRITE_FAILED");
    assert_eq!(ev.message, "disk full");
    assert_eq!(ev.session, "s1");
    assert_eq!(ev.repeats, None);
}

#[test]
fn a_burst_of_one_error_writes_at_most_the_threshold() {
    let mut d = Deduper::new();
    let mut written = 0;
    for i in 0..25u64 {
        written += d.handle(event("E", "boom"), 1_000 + i, "later").len();
    }
    assert_eq!(written, DEDUPE_THRESHOLD as usize);

    // Nothing closes before the window runs out.
    assert!(d.sweep(1_000 + 59_999, "t").is_empty());

    // When it runs out, the held-back occurrences are summarized once.
    let summary = d.sweep(1_000 + 60_000, "2024-05-01T10:01:00+00:00");
    assert_eq!(summary.len(), 1);
    assert_eq!(summary[0].repeats, Some(15));
    assert_eq!(summary[0].ts, "2024-05-01T10:01:00+00:00");
    assert_eq!(summary[0].code, "E");
    assert!(d.sweep(10_000_000, "t").is_empty());
}

#[test]
fn different_errors_have_their_own_windows() {
    let mut d = Deduper::new();
    for _ in 0..12 {
        d.handle(event("A", "x"), 5, "t");
    }
    assert!(d.handle(event("A", "x"), 5, "t").is_empty(), "past the threshold");
    let w = d.handle(event("A", "y"), 5, "t");
    assert_eq!(w.len(), 1, "another message is another error");
    let w = d.handle(event("B", "x"), 5, "t");
    assert_eq!(w.len(), 1, "another code is another error");
}

#[test]
fn an_occurrence_after_the_window_flushes_and_starts_over() {
    let mut d = Deduper::new();
    for _ in 0..11 {
        d.handle(event("E", "m"), 0, "t0");
    }
    let w = d.handle(event("E", "m"), 60_000, "t1");
    assert_eq!(w.len(), 2);
    assert_eq!(w[0].repeats, Some(1));
    assert_eq!(w[0].ts, "t1");
    assert_eq!(w[1].repeats, None);
    // The new window counts from one again.
    let w = d.handle(event("E", "m"), 60_001, "t2");
    assert_eq!(w.len(), 1);
}

#[test]
fn a_window_within_the_threshold_closes_silently() {
    let mut d = Deduper::new();
    for _ in 0..10 {
        assert_eq!(d.handle(event("E", "m"), 0, "t").len(), 1);
    }
    assert!(d.sweep(60_000, "t").is_empty());
    assert_eq!(d.handle(event("E", "m"), 60_000, "t").len(), 1);
}

#[test]
fn log_files_are_named_by_day() {
    assert_eq!(log_file_name("2024-05-01"), "errors-2024-05-01.jsonl");
    assert_eq!(log_file_date("errors-2024-05-01.jsonl"), Some("2024-05-01".to_string()));
    assert_eq!(log_file_date("errors-.jsonl"), Some(String::new()));
    assert_eq!(log_file_date("errors-2024-05-01.json"), None);
    assert_eq!(log_file_date("other.jsonl"), None);
    assert_eq!(log_file_date("errors-jsonl"), None);
}

#[test]
fn log_file_days_follow_the_calendar() {
    let d1 = log_file_day("errors-2024-02-28.jsonl").unwrap();
    let d2 = log_file_day("errors-2024-03-01.jsonl").unwrap();
    assert_eq!(d2 - d1, 2, "2024 is a leap year");
    assert_eq!(log_file_day("errors-0001-01-01.jsonl"), Some(1));
    assert_eq!(log_file_day("errors-2024-13-01.jsonl"), None);
    assert_eq!(log_file_day("errors-yesterday.jsonl"), None);
    assert_eq!(log_file_day("notes.txt"), None);
}

fn file(name: &str, size: u64) -> LogFile {
    LogFile { name: name.to_string(), size }
}

#[test]
fn retention_deletes_old_files_and_orders_the_rest_oldest_first() {
    let today = log_file_day("errors-2024-05-20.jsonl").unwrap();
    let files = vec![
        file("errors-2024-05-19.jsonl", 10),
        file("errors-2024-05-01.jsonl", 20),
        file("readme.txt", 1_000_000_000),
        file("errors-2024-05-06.jsonl", 30),
        file("errors-2024-05-05.jsonl", 40),
        file("errors-2024-05-10.jsonl", 50),
    ];
    let plan = RetentionPlan::new(&files, today);
    assert_eq!(plan.expired, vec![1, 4]);
    let order: Vec<usize> = plan.by_age.iter().map(|x| x.1).collect();
    assert_eq!(order, vec![3, 5, 0]);
    assert_eq!(plan.total, 90);
}

#[test]
fn the_size_sweep_removes_oldest_first_until_the_files_fit() {
    let today = log_file_day("errors-2024-05-20.jsonl").unwrap();
    let files = vec![
        file("errors-2024-05-19.jsonl", 15 * 1024 * 1024),
        file("errors-2024-05-18.jsonl", 8 * 1024 * 1024),
        file("errors-2024-05-17.jsonl", 4 * 1024 * 1024),
    ];
    let plan = RetentionPlan::new(&files, today);
    assert!(plan.total > MAX_TOTAL_BYTES);
    let mut sweep = SizeSweep::new(&plan, &files);
    assert_eq!(sweep.next_victim(), Some(2));
    // Removing it failed: the sweep moves on to the next oldest.
    sweep.record(false);
    assert_eq!(sweep.next_victim(), Some(1));
    sweep.record(true);
    assert_eq!(sweep.next_victim(), None, "15 + 4 MiB fit in 20 MiB");
}

#[test]
fn the_writer_changes_day_with_the_timestamps() {
    let (day, changed) = day_after_event("2024-05-01", "2024-05-02T00:00:01+00:00");
    assert_eq!(day, "2024-05-02");
    assert!(changed);
    let (day, changed) = day_after_event("2024-05-02", "2024-05-02T10:00:00+00:00");
    assert_eq!(day, "2024-05-02");
    assert!(!changed);
    let (day, changed) = day_after_event("2024-05-02", "short");
    assert_eq!(day, "2024-05-02");
    assert!(!changed);
    // The tenth byte falls inside a two-byte character: no day in it.
    let (day, _) = day_after_event("keep", "2024-05-0é1");
    assert_eq!(day, "keep");
}

#[test]
fn reading_a_day_keeps_the_json_lines_and_the_last_few() {
    let content = "{\"a\":1}\nnot json\n{\"a\":2}\n\n{\"a\":3}\n";
    assert_eq!(log_entries(content, None), vec!["{\"a\":1}", "{\"a\":2}", "{\"a\":3}"]);
    assert_eq!(log_entries(content, Some(2)), vec!["{\"a\":2}", "{\"a\":3}"]);
    assert_eq!(log_entries(content, Some(5)).len(), 3);
    assert!(log_entries(content, Some(0)).is_empty());
}

#[test]
fn an_unreadable_log_is_reported() {
    let e = log_read_failed("Permission denied (os error 13)");
    assert_eq!(e.code, "STORE_READ_FAILED");
    assert_eq!(e.message, "No se pudo leer el log de errores: Permission denied (os error 13)");
}
