use mining_log_stats::extract::extract_character_name;
use mining_log_stats::extract::parse_log_file;
use mining_log_stats::types::LogError;

fn lines(ls: &[&str]) -> Vec<String> {
    ls.iter().map(|s| s.to_string()).collect()
}

fn mining_line(amount: &str, ore: &str) -> String {
    format!(
        "[ 2024.01.01 08:00:05 ] (mining) You mined <color=#ff8dc169>{}</color> units of <font size=12>{}</font>",
        amount, ore
    )
}

fn crit_line(amount: &str, ore: &str) -> String {
    format!(
        "[ 2024.01.01 08:00:06 ] (mining) Critical mining success! You mined an additional <color=#fff0ff45><font size=12>{}</font></color> units of <font size=12>{}</font>",
        amount, ore
    )
}

fn residue_line(amount: &str) -> String {
    format!(
        "[ 2024.01.01 08:00:07 ] (mining) Additional <font size=12><color=#ffff454b>{}</color></font> units depleted from asteroid as residue",
        amount
    )
}

#[test]
fn listener_is_read_from_the_first_five_lines() {
    let ls = lines(&["---", "  Listener: Pilot One  ", "---"]);
    assert_eq!(extract_character_name(&ls), Some("Pilot One".to_string()));
}

#[test]
fn listener_beyond_the_fifth_line_is_not_seen_by_the_prefix_scan() {
    let ls = lines(&["a", "b", "c", "d", "e", "Listener: Late Pilot"]);
    assert_eq!(extract_character_name(&ls), None);
}

#[test]
fn listener_line_without_a_name_yields_none() {
    let ls = lines(&["Listener:"]);
    assert_eq!(extract_character_name(&ls), None);
}

#[test]
fn parse_counts_normal_and_critical_events() {
    let ls = vec![
        "Listener: Pilot One".to_string(),
        mining_line("100", "Veldspar"),
        mining_line("250", "Scordite"),
        crit_line("50", "Veldspar"),
    ];
    let ft = parse_log_file("20240101_080000.txt", &ls).unwrap();
    assert_eq!(ft.character_name, "Pilot One");
    assert_eq!(ft.total_mined, 350);
    assert_eq!(ft.crit_mined, 50);
    assert_eq!(ft.total_cycles, 2);
    assert_eq!(ft.crit_cycles, 1);
    assert_eq!(ft.total_residue, 0);
    let veld = ft.ores.iter().find(|o| o.ore_name == "Veldspar").unwrap();
    assert_eq!((veld.non_crit, veld.crit, veld.residue), (100, 50, 0));
    let scord = ft.ores.iter().find(|o| o.ore_name == "Scordite").unwrap();
    assert_eq!((scord.non_crit, scord.crit, scord.residue), (250, 0, 0));
}

#[test]
fn residue_goes_to_the_most_recently_mined_ore() {
    let ls = vec![
        "Listener: Pilot One".to_string(),
        mining_line("100", "Veldspar"),
        residue_line("25"),
    ];
    let ft = parse_log_file("20240101_080000.txt", &ls).unwrap();
    assert_eq!(ft.total_residue, 25);
    let veld = ft.ores.iter().find(|o| o.ore_name == "Veldspar").unwrap();
    assert_eq!(veld.residue, 25);
}

#[test]
fn residue_before_any_mining_line_is_dropped() {
    let ls = vec![
        "Listener: Pilot One".to_string(),
        residue_line("25"),
        mining_line("100", "Veldspar"),
    ];
    let ft = parse_log_file("20240101_080000.txt", &ls).unwrap();
    assert_eq!(ft.total_residue, 0);
    let veld = ft.ores.iter().find(|o| o.ore_name == "Veldspar").unwrap();
    assert_eq!(veld.residue, 0);
    assert!(ft.ores.iter().all(|o| o.residue == 0));
}

#[test]
fn residue_follows_the_latest_ore_across_kinds() {
    let ls = vec![
        "Listener: Pilot One".to_string(),
        mining_line("100", "Veldspar"),
        crit_line("60", "Scordite"),
        residue_line("10"),
    ];
    let ft = parse_log_file("20240101_080000.txt", &ls).unwrap();
    let scord = ft.ores.iter().find(|o| o.ore_name == "Scordite").unwrap();
    assert_eq!(scord.residue, 10);
    let veld = ft.ores.iter().find(|o| o.ore_name == "Veldspar").unwrap();
    assert_eq!(veld.residue, 0);
}

#[test]
fn file_without_listener_is_a_missing_character_error() {
    let ls = vec![mining_line("100", "Veldspar")];
    let e = parse_log_file("20240101_080000.txt", &ls).unwrap_err();
    match &e {
        LogError::MissingCharacter(f) => assert_eq!(f, "20240101_080000.txt"),
        _ => panic!("expected a missing-character error"),
    }
    assert_eq!(
        e.message(),
        "could not find character name in 20240101_080000.txt"
    );
}

#[test]
fn oversized_amount_is_an_overflow_error() {
    let ls = vec![
        "Listener: Pilot One".to_string(),
        mining_line("99999999999999999999999999", "Veldspar"),
    ];
    let e = parse_log_file("20240101_080000.txt", &ls).unwrap_err();
    match &e {
        LogError::AmountOverflow(f) => assert_eq!(f, "20240101_080000.txt"),
        _ => panic!("expected an overflow error"),
    }
    assert_eq!(e.message(), "mining amount too large in 20240101_080000.txt");
}

#[test]
fn listener_found_anywhere_in_the_full_scan() {
    let ls = vec![
        "a".to_string(),
        "b".to_string(),
        "c".to_string(),
        "d".to_string(),
        "e".to_string(),
        "Listener: Deep Pilot".to_string(),
        mining_line("7", "Plagioclase"),
    ];
    let ft = parse_log_file("20240101_080000.txt", &ls).unwrap();
    assert_eq!(ft.character_name, "Deep Pilot");
    assert_eq!(ft.total_mined, 7);
}

#[test]
fn unrelated_lines_contribute_nothing() {
    let ls = vec![
        "Listener: Pilot One".to_string(),
        "[ 2024.01.01 08:00:05 ] (combat) You hit something".to_string(),
        "You mined nothing today".to_string(),
    ];
    let ft = parse_log_file("20240101_080000.txt", &ls).unwrap();
    assert_eq!(ft.total_mined, 0);
    assert_eq!(ft.total_cycles, 0);
    assert!(ft.ores.is_empty());
}

#[test]
fn ore_names_are_trimmed() {
    let ls = vec![
        "Listener: Pilot One".to_string(),
        mining_line("10", " Veldspar "),
    ];
    let ft = parse_log_file("20240101_080000.txt", &ls).unwrap();
    assert_eq!(ft.ores[0].ore_name, "Veldspar");
}
