use std::time::{Duration, UNIX_EPOCH};

use combatlog::clock::{epoch_ms, millis_or_zero, now_ms};
use combatlog::discover::{find_newest_log, log_pattern, DirEntry, MAX_FILE_AGE_NS};
use combatlog::listing::{
    describe_file, guild_options, login_result, login_site, not_a_file, scan_logs, FileInfo,
    ScanEntry,
};
use serde_json::Value;

fn entry(name: &str, modified: i128, age: u128) -> DirEntry {
    DirEntry { name: Some(name.to_string()), is_file: true, modified: Some(modified), age: Some(age) }
}

#[test]
fn the_newest_log_is_found() {
    let re = log_pattern().unwrap();
    let entries = vec![
        entry("notes.txt", 99, 0),
        entry("WoWCombatLog.txt", 5, 10),
        entry("WoWCombatLog-041724_201345.txt", 7, 8),
        entry("WoWCombatLog-copy.txt", 7, 8),
        entry("WoWCombatLog.txt.bak", 50, 0),
    ];
    assert_eq!(find_newest_log(&re, &entries), Some(2));
    assert_eq!(find_newest_log(&re, &Vec::new()), None);
}

#[test]
fn old_logs_are_passed_over() {
    let re = log_pattern().unwrap();
    let entries = vec![entry("WoWCombatLog.txt", 5, MAX_FILE_AGE_NS + 1)];
    assert_eq!(find_newest_log(&re, &entries), None);
    let entries = vec![entry("WoWCombatLog.txt", 5, MAX_FILE_AGE_NS)];
    assert_eq!(find_newest_log(&re, &entries), Some(0));
}

#[test]
fn unreadable_entries_are_passed_over() {
    let re = log_pattern().unwrap();
    let log = || entry("WoWCombatLog.txt", 5, 0);
    assert_eq!(find_newest_log(&re, &vec![DirEntry { name: None, ..log() }]), None);
    assert_eq!(find_newest_log(&re, &vec![DirEntry { is_file: false, ..log() }]), None);
    assert_eq!(find_newest_log(&re, &vec![DirEntry { modified: None, ..log() }]), None);
    assert_eq!(find_newest_log(&re, &vec![DirEntry { age: None, ..log() }]), Some(0));
    assert_eq!(find_newest_log(&re, &vec![entry("a\nWoWCombatLog.txt", 1, 0)]), None);
    assert_eq!(find_newest_log(&re, &vec![entry("WoWCombatLog\n.txt", 1, 0)]), None);
}

fn scanned(name: &str, extension: Option<&str>, is_file: bool, size: u64) -> ScanEntry {
    ScanEntry {
        extension: extension.map(|x| x.to_string()),
        is_file,
        file: FileInfo { path: format!("/logs/{name}"), name: name.to_string(), size },
    }
}

#[test]
fn text_files_are_listed_by_name() {
    let entries = vec![
        scanned("b.txt", Some("txt"), true, 1),
        scanned("a.TxT", Some("TxT"), true, 2),
        scanned("c.log", Some("log"), true, 3),
        scanned("d.txt", Some("txt"), false, 4),
        scanned("e", None, true, 5),
        scanned("B.txt", Some("txt"), true, 6),
        scanned("é.txt", Some("txt"), true, 7),
        scanned("b.txt", Some("txt"), true, 8),
        scanned("bb.txt", Some("txt"), true, 9),
        scanned("x.txtx", Some("txtx"), true, 10),
    ];
    let listed = scan_logs(&entries);
    let names: Vec<(&str, u64)> = listed.iter().map(|f| (f.name.as_str(), f.size)).collect();
    assert_eq!(
        names,
        [("B.txt", 6), ("a.TxT", 2), ("b.txt", 1), ("b.txt", 8), ("bb.txt", 9), ("é.txt", 7)]
    );
    assert_eq!(listed[0].path, "/logs/B.txt");
}

#[test]
fn files_are_described() {
    let file = describe_file("/a/b".to_string(), Some("b".to_string()), Some(9));
    assert_eq!((file.path.as_str(), file.name.as_str(), file.size), ("/a/b", "b", 9));
    let file = describe_file("/".to_string(), None, None);
    assert_eq!((file.path.as_str(), file.name.as_str(), file.size), ("/", "", 0));
    assert_eq!(not_a_file("/x"), "not a file: /x");
}

#[test]
fn guilds_are_read() {
    let items: Vec<Value> = serde_json::from_str(
        r#"[{"value": -1, "label": "Personal Logs"}, {"label": "none"},
            {"value": 12, "label": "Guild", "regionId": 3}, {"value": 0}, {"value": "7"}, 4]"#,
    )
    .unwrap();
    let guilds = guild_options(&items);
    let read: Vec<(Option<i64>, &str, Option<i64>)> =
        guilds.iter().map(|g| (g.id, g.label.as_str(), g.region_id)).collect();
    assert_eq!(
        read,
        [(None, "Personal Logs", None), (Some(12), "Guild", Some(3)), (Some(0), "", None)]
    );
    let login = login_result(Some("Ann".to_string()), Some(items));
    assert_eq!((login.user_name.as_deref(), login.guilds.len()), (Some("Ann"), 3));
    assert!(login_result(None, None).guilds.is_empty());
    assert_eq!(login_site(None), "warcraft");
    assert_eq!(login_site(Some("ff".to_string())), "ff");
}

#[test]
fn times_since_the_epoch() {
    assert_eq!(epoch_ms(&(UNIX_EPOCH + Duration::from_micros(1_234_999))), 1234);
    assert_eq!(epoch_ms(&(UNIX_EPOCH - Duration::from_secs(5))), 0);
    assert_eq!(millis_or_zero(None), 0);
    assert_eq!(millis_or_zero(Some(17)), 17);
    assert_eq!(millis_or_zero(Some((1u128 << 64) + 3)), 3);
    assert!(now_ms() > 1_600_000_000_000);
}
