use mining_log_stats::analysis::render_active_days;
use mining_log_stats::catalog::find_log_files;
use mining_log_stats::catalog::get_active_days;
use mining_log_stats::catalog::is_log_name_exec;
use mining_log_stats::types::LogFileInfo;

fn info(name: &str, mtime_secs: i64) -> LogFileInfo {
    LogFileInfo { name: name.to_string(), mtime_secs }
}

#[test]
fn log_name_convention_accepts_plain_and_suffixed_names() {
    assert!(is_log_name_exec("20240101_080000.txt"));
    assert!(is_log_name_exec("20240101_080000_1.txt"));
    assert!(is_log_name_exec("20240101_080000_42.txt"));
}

#[test]
fn log_name_convention_rejects_other_names() {
    assert!(!is_log_name_exec("notes.txt"));
    assert!(!is_log_name_exec("2024010_080000.txt"));
    assert!(!is_log_name_exec("20240101_080000.log"));
    assert!(!is_log_name_exec("20240101_080000_.txt"));
    assert!(!is_log_name_exec("20240101-080000.txt"));
    assert!(!is_log_name_exec("20240101_08000.txt"));
    assert!(!is_log_name_exec(""));
    assert!(!is_log_name_exec("a0240101_080000.txt"));
}

#[test]
fn find_log_files_filters_and_sorts_descending() {
    let entries = vec![
        info("20240101_080000.txt", 100),
        info("readme.md", 500),
        info("20240102_090000.txt", 300),
        info("20240101_100000_2.txt", 200),
        info("misc.txt", 400),
    ];
    let r = find_log_files(entries);
    let names: Vec<&str> = r.iter().map(|f| f.name.as_str()).collect();
    assert_eq!(
        names,
        vec!["20240102_090000.txt", "20240101_100000_2.txt", "20240101_080000.txt"]
    );
    assert!(r.windows(2).all(|w| w[0].mtime_secs >= w[1].mtime_secs));
}

#[test]
fn find_log_files_empty_catalog() {
    let r = find_log_files(Vec::new());
    assert!(r.is_empty());
}

#[test]
fn active_days_are_sorted_and_unique() {
    let day = 86400i64;
    let files = vec![
        info("20240103_080000.txt", 3 * day + 50),
        info("20240101_080000.txt", day + 7),
        info("20240101_090000.txt", day + 9000),
        info("20240102_080000.txt", 2 * day),
    ];
    let days = get_active_days(&files);
    assert_eq!(days, vec![1, 2, 3]);
}

#[test]
fn active_days_of_empty_catalog_is_empty() {
    let days = get_active_days(&Vec::new());
    assert!(days.is_empty());
}

#[test]
fn days_round_toward_the_past_for_instants_before_the_epoch() {
    let files = vec![info("19691231_235959.txt", -1)];
    let days = get_active_days(&files);
    assert_eq!(days, vec![-1]);
    let rendered = render_active_days(&days);
    assert_eq!(rendered, vec!["1969-12-31T00:00:00+00:00".to_string()]);
}

#[test]
fn epoch_day_renders_as_its_midnight() {
    let rendered = render_active_days(&vec![0]);
    assert_eq!(rendered, vec!["1970-01-01T00:00:00+00:00".to_string()]);
}
