use combatlog::names::{
    format_stamp, parse_session_stamp, session_filename, unique_zip_path, zip_candidate, UsedNames,
};

#[test]
fn stamps_parse() {
    assert_eq!(
        parse_session_stamp("4/17/2024 20:13:45.123-4  COMBAT_LOG_VERSION,22"),
        Some("041724_201345".to_string())
    );
    assert_eq!(
        parse_session_stamp("12/1/24 1:02:03  COMBAT_LOG_VERSION"),
        Some("120124_010203".to_string())
    );
}

#[test]
fn stamps_without_a_year_are_none() {
    assert_eq!(parse_session_stamp("4/17 20:13:45.123  COMBAT_LOG_VERSION,22"), None);
    assert_eq!(parse_session_stamp("COMBAT_LOG_VERSION"), None);
    assert_eq!(parse_session_stamp(" 4/17/2024 20:13:45"), None);
}

#[test]
fn digits_beyond_ascii_are_no_stamp() {
    assert_eq!(parse_session_stamp("٤/17/2024 20:13:45"), None);
}

#[test]
fn stamps_are_formatted() {
    assert_eq!(format_stamp("4", "7", "1999", "0", "05", "59"), Some("040799_000559".to_string()));
    assert_eq!(format_stamp("4", "x", "1999", "0", "05", "59"), None);
    assert_eq!(format_stamp("1", "2", "-1", "3", "4", "5"), Some("010299_030405".to_string()));
}

#[test]
fn sessions_are_named_after_their_stamp() {
    let mut used = UsedNames::new();
    let line = "4/17/2024 20:13:45.123-4  COMBAT_LOG_VERSION,22";
    assert_eq!(session_filename(line, 1, &mut used), "WoWCombatLog-041724_201345.txt");
    assert_eq!(session_filename(line, 2, &mut used), "WoWCombatLog-041724_201345_2.txt");
    assert_eq!(session_filename(line, 3, &mut used), "WoWCombatLog-041724_201345_3.txt");
    assert_eq!(used.len(), 3);
}

#[test]
fn sessions_without_a_stamp_are_counted() {
    let mut used = UsedNames::new();
    assert_eq!(session_filename("x", 4, &mut used), "WoWCombatLog-session04.txt");
    assert_eq!(session_filename("x", 104, &mut used), "WoWCombatLog-session104.txt");
    assert!(used.contains("WoWCombatLog-session04.txt"));
    assert!(!used.contains("WoWCombatLog-session05.txt"));
}

#[test]
fn zip_names_pass_over_used_ones() {
    let mut used = UsedNames::new();
    used.insert("a.zip".to_string());
    used.insert("a_3.zip".to_string());
    let first = zip_candidate("a", &used, 1);
    assert_eq!((first.attempt, first.name.as_str()), (2, "a_2.zip"));
    let second = match unique_zip_path("a", &mut used, first, true) {
        Err(next) => next,
        Ok(name) => panic!("took {name}"),
    };
    assert_eq!((second.attempt, second.name.as_str()), (4, "a_4.zip"));
    assert_eq!(unique_zip_path("a", &mut used, second, false).ok(), Some("a_4.zip".to_string()));
    assert!(used.contains("a_4.zip"));
    assert!(!used.contains("a_2.zip"));
}

#[test]
fn a_free_zip_name_is_taken_at_once() {
    let mut used = UsedNames::new();
    let first = zip_candidate("log", &used, 1);
    assert_eq!(first.name, "log.zip");
    assert_eq!(unique_zip_path("log", &mut used, first, false).ok(), Some("log.zip".to_string()));
    assert_eq!(zip_candidate("log", &used, 1).name, "log_2.zip");
}

#[test]
fn stamps_are_read_whatever_the_space() {
    assert_eq!(
        parse_session_stamp("1/2/03\t \u{a0}4:05:06COMBAT_LOG_VERSION"),
        Some("010203_040506".to_string())
    );
    assert_eq!(
        parse_session_stamp("01/02/2003 04:05:067"),
        Some("010203_040506".to_string())
    );
    for line in [
        "1/2/03x4:05:06",
        "1/2/034:05:06",
        "1/2/3 4:05:06",
        "111/2/03 4:05:06",
        "1/2/20033 4:05:06",
        "1/2/03 4:5:06",
        "1/2/03 4:05:6",
        "1/2/03",
        "",
    ] {
        assert_eq!(parse_session_stamp(line), None, "{line}");
    }
}
