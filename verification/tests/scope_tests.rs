use mining_log_stats::analysis::plan_analysis;
use mining_log_stats::scope::select_catalog_entries;
use mining_log_stats::scope::get_files_for_date_range;
use mining_log_stats::scope::identify_session_characters;
use mining_log_stats::types::DateRange;
use mining_log_stats::types::LogFileInfo;

fn info(name: &str, mtime_secs: i64) -> LogFileInfo {
    LogFileInfo { name: name.to_string(), mtime_secs }
}

const DAY: i64 = 86400;
// 2024-01-01 as days since the epoch.
const JAN1: i64 = 19723;

#[test]
fn hour_prefix_heuristic_scopes_same_hour_files() {
    // Catalog order: most recent first; the 08:30 file is most recent.
    let files = vec![
        info("20240101_083000.txt", JAN1 * DAY + 30600),
        info("20240101_100000.txt", JAN1 * DAY + 7200),
        info("20240101_080000.txt", JAN1 * DAY + 28800),
    ];
    let names = vec![
        Some("Alice".to_string()),
        Some("Bob".to_string()),
        Some("Alice".to_string()),
    ];
    let chars = identify_session_characters(&files, &names, &None);
    assert_eq!(chars, vec!["Alice".to_string()]);
    let picked = get_files_for_date_range(&files, &names, &chars, &None);
    assert_eq!(
        picked,
        vec!["20240101_083000.txt".to_string(), "20240101_080000.txt".to_string()]
    );
}

#[test]
fn explicit_range_overrides_hour_heuristic() {
    let range = Some(DateRange {
        start: Some("2024-01-01T00:00:00+00:00".to_string()),
        end: Some("2024-01-01T23:59:59+00:00".to_string()),
    });
    let files = vec![
        info("20240102_090000.txt", (JAN1 + 1) * DAY + 100),
        info("20240101_100000.txt", JAN1 * DAY + 7200),
        info("20240101_080000.txt", JAN1 * DAY + 28800),
    ];
    let names = vec![
        Some("Carol".to_string()),
        Some("Bob".to_string()),
        Some("Alice".to_string()),
    ];
    let mut chars = identify_session_characters(&files, &names, &range);
    chars.sort();
    assert_eq!(chars, vec!["Alice".to_string(), "Bob".to_string()]);
    let picked = get_files_for_date_range(&files, &names, &chars, &range);
    assert_eq!(
        picked,
        vec!["20240101_100000.txt".to_string(), "20240101_080000.txt".to_string()]
    );
}

#[test]
fn start_bound_excludes_earlier_days_regardless_of_hour() {
    let range = Some(DateRange {
        start: Some("2024-01-02T00:00:00+00:00".to_string()),
        end: None,
    });
    let files = vec![
        info("20240102_090000.txt", (JAN1 + 1) * DAY + 100),
        info("20240101_090000.txt", JAN1 * DAY + 100),
    ];
    let names = vec![Some("Bob".to_string()), Some("Alice".to_string())];
    let chars = identify_session_characters(&files, &names, &range);
    assert_eq!(chars, vec!["Bob".to_string()]);
    let picked = get_files_for_date_range(&files, &names, &chars, &range);
    assert_eq!(picked, vec!["20240102_090000.txt".to_string()]);
}

#[test]
fn unparsable_bound_is_treated_as_absent() {
    let range = Some(DateRange { start: Some("not a date".to_string()), end: None });
    let files = vec![
        info("20240102_090000.txt", (JAN1 + 1) * DAY + 100),
        info("20240101_090000.txt", JAN1 * DAY + 100),
    ];
    let names = vec![Some("Bob".to_string()), Some("Alice".to_string())];
    let mut chars = identify_session_characters(&files, &names, &range);
    chars.sort();
    assert_eq!(chars, vec!["Alice".to_string(), "Bob".to_string()]);
}

#[test]
fn unresolved_files_seed_no_characters() {
    let files = vec![
        info("20240101_083000.txt", JAN1 * DAY + 30600),
        info("20240101_080000.txt", JAN1 * DAY + 28800),
    ];
    let names = vec![None, Some("Alice".to_string())];
    let chars = identify_session_characters(&files, &names, &None);
    assert_eq!(chars, vec!["Alice".to_string()]);
}

#[test]
fn plan_analysis_selects_session_files() {
    let files = vec![
        info("20240101_083000.txt", JAN1 * DAY + 30600),
        info("20240101_100000.txt", JAN1 * DAY + 7200),
        info("20240101_080000.txt", JAN1 * DAY + 28800),
    ];
    let names = vec![
        Some("Alice".to_string()),
        Some("Bob".to_string()),
        Some("Alice".to_string()),
    ];
    let picked = plan_analysis(&files, &names, &None).unwrap();
    assert_eq!(
        picked,
        vec!["20240101_083000.txt".to_string(), "20240101_080000.txt".to_string()]
    );
}

#[test]
fn plan_analysis_on_empty_catalog_yields_nothing() {
    let r = plan_analysis(&Vec::new(), &Vec::new(), &None);
    assert!(r.is_none());
}

#[test]
fn plan_analysis_without_resolved_characters_yields_nothing() {
    let files = vec![info("20240101_083000.txt", JAN1 * DAY + 30600)];
    let names = vec![None];
    let r = plan_analysis(&files, &names, &None);
    assert!(r.is_none());
}

#[test]
fn select_catalog_entries_keeps_picked_files_in_order() {
    let catalog = vec![
        info("20240101_083000.txt", 300),
        info("20240101_100000.txt", 200),
        info("20240101_080000.txt", 100),
    ];
    let picked = vec![
        "20240101_083000.txt".to_string(),
        "20240101_080000.txt".to_string(),
    ];
    let selected = select_catalog_entries(catalog, &picked);
    let names: Vec<&str> = selected.iter().map(|f| f.name.as_str()).collect();
    assert_eq!(names, vec!["20240101_083000.txt", "20240101_080000.txt"]);
    assert_eq!(selected[0].mtime_secs, 300);
    assert_eq!(selected[1].mtime_secs, 100);
}
