use mining_log_stats::analysis::analyze_logs;
use mining_log_stats::types::DateRange;
use mining_log_stats::types::LogFileInfo;
use mining_log_stats::types::OverallStats;

fn info(name: &str, mtime_secs: i64) -> LogFileInfo {
    LogFileInfo { name: name.to_string(), mtime_secs }
}

const DAY: i64 = 86400;
// 2024-01-01 as days since the epoch.
const JAN1: i64 = 19723;

fn mining_line(amount: &str, ore: &str) -> String {
    format!(
        "[ 2024.01.01 08:00:05 ] (mining) You mined <color=#ff8dc169>{}</color> units of <font size=12>{}</font>",
        amount, ore
    )
}

fn crit_line(amount: &str, ore: &str) -> String {
    format!(
        "[ 2024.01.01 08:00:06 ] (mining) Critical mining success! You mined an additional <color=#fff0ff45><font size=12>{}</font></color> units of <font size=12>{}</font>",
        amount, ore
    )
}

fn file_lines(listener: &str, body: &[String]) -> Vec<String> {
    let mut ls = vec![format!("Listener: {}", listener)];
    ls.extend(body.iter().cloned());
    ls
}

#[test]
fn empty_selection_yields_no_result() {
    let r = analyze_logs(&None, &Vec::new(), &Vec::new()).unwrap();
    assert!(r.is_none());
}

#[test]
fn overall_equals_the_sum_over_characters() {
    let selected = vec![
        info("20240101_080000.txt", JAN1 * DAY + 100),
        info("20240101_081000.txt", JAN1 * DAY + 200),
    ];
    let contents = vec![
        file_lines("Alice", &[mining_line("100", "Veldspar"), crit_line("30", "Veldspar")]),
        file_lines("Bob", &[mining_line("70", "Scordite")]),
    ];
    let res = analyze_logs(&None, &selected, &contents).unwrap().unwrap();
    let sum_mined: u64 = res.characters.iter().map(|c| c.total_mined).sum();
    let sum_crit: u64 = res.characters.iter().map(|c| c.crit_mined).sum();
    let sum_cycles: u64 = res.characters.iter().map(|c| c.total_cycles).sum();
    let sum_crit_cycles: u64 = res.characters.iter().map(|c| c.crit_cycles).sum();
    let sum_residue: u64 = res.characters.iter().map(|c| c.total_residue).sum();
    assert_eq!(res.overall.total_mined, sum_mined);
    assert_eq!(res.overall.total_crit, sum_crit);
    assert_eq!(res.overall.total_cycles, sum_cycles);
    assert_eq!(res.overall.total_crit_cycles, sum_crit_cycles);
    assert_eq!(res.overall.total_residue, sum_residue);
    assert_eq!(res.overall.total_mined, 170);
    assert_eq!(res.overall.total_crit, 30);
}

#[test]
fn merged_tables_cover_both_characters_and_ores() {
    let selected = vec![
        info("20240101_080000.txt", JAN1 * DAY + 100),
        info("20240101_081000.txt", JAN1 * DAY + 200),
    ];
    let contents = vec![
        file_lines("Alice", &[mining_line("100", "Veldspar")]),
        file_lines("Alice", &[mining_line("50", "Veldspar"), mining_line("25", "Scordite")]),
    ];
    let res = analyze_logs(&None, &selected, &contents).unwrap().unwrap();
    assert_eq!(res.characters.len(), 1);
    assert_eq!(res.characters[0].character_name, "Alice");
    assert_eq!(res.characters[0].total_mined, 175);
    assert_eq!(res.characters[0].total_cycles, 3);
    let veld = res.ore_breakdown.iter().find(|o| o.ore_name == "Veldspar").unwrap();
    assert_eq!(veld.non_crit, 150);
    let row = res
        .character_ore_breakdown
        .iter()
        .find(|r| r.character_name == "Alice")
        .unwrap();
    let scord = row.ores.iter().find(|o| o.ore_name == "Scordite").unwrap();
    assert_eq!(scord.non_crit, 25);
}

#[test]
fn crit_rate_of_one_in_three_cycles() {
    let selected = vec![info("20240101_080000.txt", JAN1 * DAY + 100)];
    let contents = vec![file_lines(
        "Alice",
        &[
            mining_line("10", "Veldspar"),
            mining_line("10", "Veldspar"),
            mining_line("10", "Veldspar"),
            crit_line("5", "Veldspar"),
        ],
    )];
    let res = analyze_logs(&None, &selected, &contents).unwrap().unwrap();
    // Three normal cycles, one critical cycle: 33.33 percent.
    assert_eq!(res.overall.total_cycles, 3);
    assert_eq!(res.overall.total_crit_cycles, 1);
    assert_eq!(res.overall.overall_crit_rate_centi(), 3333);
}

#[test]
fn rates_are_zero_without_cycles_or_material() {
    let stats = OverallStats {
        total_mined: 0,
        total_crit: 0,
        total_cycles: 0,
        total_crit_cycles: 0,
        total_residue: 0,
    };
    assert_eq!(stats.overall_crit_rate_centi(), 0);
    assert_eq!(stats.overall_residue_rate_centi(), 0);
}

#[test]
fn residue_rate_counts_all_extracted_material() {
    let stats = OverallStats {
        total_mined: 70,
        total_crit: 20,
        total_cycles: 3,
        total_crit_cycles: 1,
        total_residue: 10,
    };
    // 10 of 100 units: 10 percent.
    assert_eq!(stats.overall_residue_rate_centi(), 1000);
}

#[test]
fn rerunning_the_analysis_gives_identical_numbers() {
    let selected = vec![
        info("20240101_080000.txt", JAN1 * DAY + 100),
        info("20240102_081000.txt", (JAN1 + 1) * DAY + 200),
    ];
    let contents = vec![
        file_lines("Alice", &[mining_line("100", "Veldspar"), crit_line("30", "Veldspar")]),
        file_lines("Bob", &[mining_line("70", "Scordite")]),
    ];
    let a = analyze_logs(&None, &selected, &contents).unwrap().unwrap();
    let b = analyze_logs(&None, &selected, &contents).unwrap().unwrap();
    assert_eq!(a.overall.total_mined, b.overall.total_mined);
    assert_eq!(a.overall.total_crit, b.overall.total_crit);
    assert_eq!(a.overall.total_cycles, b.overall.total_cycles);
    assert_eq!(a.overall.total_crit_cycles, b.overall.total_crit_cycles);
    assert_eq!(a.overall.total_residue, b.overall.total_residue);
    assert_eq!(a.active_days, b.active_days);
    assert_eq!(a.date_range.start, b.date_range.start);
    assert_eq!(a.date_range.end, b.date_range.end);
    for ca in &a.characters {
        let cb = b
            .characters
            .iter()
            .find(|c| c.character_name == ca.character_name)
            .unwrap();
        assert_eq!(ca.total_mined, cb.total_mined);
        assert_eq!(ca.crit_mined, cb.crit_mined);
        assert_eq!(ca.total_cycles, cb.total_cycles);
        assert_eq!(ca.crit_cycles, cb.crit_cycles);
        assert_eq!(ca.total_residue, cb.total_residue);
    }
}

#[test]
fn active_days_and_full_span_range() {
    let selected = vec![
        info("20240102_080000.txt", (JAN1 + 1) * DAY + 50),
        info("20240101_080000.txt", JAN1 * DAY + 100),
    ];
    let contents = vec![
        file_lines("Alice", &[mining_line("1", "Veldspar")]),
        file_lines("Alice", &[mining_line("2", "Veldspar")]),
    ];
    let res = analyze_logs(&None, &selected, &contents).unwrap().unwrap();
    assert_eq!(
        res.active_days,
        vec![
            "2024-01-01T00:00:00+00:00".to_string(),
            "2024-01-02T00:00:00+00:00".to_string()
        ]
    );
    assert_eq!(res.date_range.start, "2024-01-01T00:00:00+00:00");
    assert_eq!(res.date_range.end, "2024-01-02T23:59:59+00:00");
}

#[test]
fn given_bounds_are_echoed_verbatim() {
    let range = Some(DateRange {
        start: Some("whenever it started".to_string()),
        end: Some("whenever it ended".to_string()),
    });
    let selected = vec![info("20240101_080000.txt", JAN1 * DAY + 100)];
    let contents = vec![file_lines("Alice", &[mining_line("1", "Veldspar")])];
    let res = analyze_logs(&range, &selected, &contents).unwrap().unwrap();
    assert_eq!(res.date_range.start, "whenever it started");
    assert_eq!(res.date_range.end, "whenever it ended");
}

#[test]
fn start_only_range_fills_the_end_from_the_last_active_day() {
    let range = Some(DateRange {
        start: Some("2024-01-01T12:00:00+00:00".to_string()),
        end: None,
    });
    let selected = vec![info("20240101_080000.txt", JAN1 * DAY + 100)];
    let contents = vec![file_lines("Alice", &[mining_line("1", "Veldspar")])];
    let res = analyze_logs(&range, &selected, &contents).unwrap().unwrap();
    assert_eq!(res.date_range.start, "2024-01-01T12:00:00+00:00");
    assert_eq!(res.date_range.end, "2024-01-01T23:59:59+00:00");
}

#[test]
fn failing_file_aborts_the_whole_run() {
    let selected = vec![
        info("20240101_080000.txt", JAN1 * DAY + 100),
        info("20240101_081000.txt", JAN1 * DAY + 200),
    ];
    let contents = vec![
        file_lines("Alice", &[mining_line("1", "Veldspar")]),
        vec![mining_line("2", "Scordite")],
    ];
    let e = analyze_logs(&None, &selected, &contents).unwrap_err();
    assert_eq!(
        e.message(),
        "could not find character name in 20240101_081000.txt"
    );
}
