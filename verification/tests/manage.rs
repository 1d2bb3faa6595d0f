use combatlog::archive::{
    archive_folder, archive_message, entry_name, Archive, ArchiveAction, ArchiveEvent,
};
use combatlog::split::{split_message, SplitOutput, Splitter};

fn split(size: u64, lines: &[&str]) -> (Result<Vec<SplitOutput>, &'static str>, Vec<(String, String)>, Vec<u32>) {
    let mut splitter = Splitter::new(size);
    let mut files: Vec<(String, String)> = Vec::new();
    let mut told = Vec::new();
    for line in lines {
        assert!(splitter.accepts(line));
        let (next, step) = splitter.step(line);
        splitter = next;
        if let Some(name) = step.open {
            files.push((name, String::new()));
        }
        if step.write {
            files.last_mut().unwrap().1.push_str(line);
        }
        told.extend(step.progress);
    }
    (splitter.finish(), files, told)
}

#[test]
fn sessions_become_files() {
    let first = "4/17/2024 20:13:45.123-4  COMBAT_LOG_VERSION,22\r\n";
    let second = "COMBAT_LOG_VERSION\n";
    let (outputs, files, _) = split(1000, &["lost\n", first, "a\n", "b\n", second, first]);
    let outputs = outputs.unwrap();
    assert_eq!(
        files,
        [
            ("WoWCombatLog-041724_201345.txt".to_string(), format!("{first}a\nb\n")),
            ("WoWCombatLog-session02.txt".to_string(), second.to_string()),
            ("WoWCombatLog-041724_201345_2.txt".to_string(), first.to_string()),
        ]
    );
    assert_eq!(outputs.len(), 3);
    for (output, (name, text)) in outputs.iter().zip(&files) {
        assert_eq!(&output.name, name);
        assert_eq!(output.bytes, text.len() as u64);
        assert_eq!(output.lines, text.matches('\n').count() as u64);
    }
}

#[test]
fn the_files_hold_the_log_from_its_first_marker() {
    let lines = ["x\n", "COMBAT_LOG_VERSION é\n", "y\n", "COMBAT_LOG_VERSION"];
    let (outputs, files, _) = split(10, &lines);
    let text: String = files.iter().map(|f| f.1.as_str()).collect();
    assert_eq!(text, lines[1..].concat());
    let bytes: u64 = outputs.unwrap().iter().map(|o| o.bytes).sum();
    assert_eq!(bytes, text.len() as u64);
}

#[test]
fn a_log_without_markers_is_an_error() {
    let (outputs, files, _) = split(10, &["x\n", "y\n"]);
    assert!(files.is_empty());
    assert_eq!(
        outputs.err(),
        Some("No COMBAT_LOG_VERSION markers found — is this a WoW combat log?")
    );
}

#[test]
fn progress_of_a_split() {
    let (_, _, told) = split(200, &["12\n", "1234567890\n", "x\n", "y\n"]);
    assert_eq!(told, [7, 9]);
    let (_, _, told) = split(0, &["12\n"]);
    assert_eq!(told, [300]);
    assert_eq!(split_message(9), "Splitting… 9%");
}

#[test]
fn an_empty_line_is_not_accepted() {
    assert!(!Splitter::new(1).accepts(""));
}

/// Runs an archive of files with the given stems in a folder that holds `on_disk`.
fn archive(stems: &[Option<&str>], delete: bool, on_disk: &[&str]) -> (u32, Vec<String>, u32, Vec<u32>) {
    let mut disk: Vec<String> = on_disk.iter().map(|n| n.to_string()).collect();
    let mut zips = Vec::new();
    let mut deleted = 0;
    let mut told = Vec::new();
    let (mut s, mut step) = Archive::begin(stems.len(), delete);
    loop {
        let event = match step.action {
            ArchiveAction::Name { index } => {
                ArchiveEvent::Named(stems[index].map(|n| n.to_string()))
            }
            ArchiveAction::Probe { name } => ArchiveEvent::Exists(disk.contains(&name)),
            ArchiveAction::Zip { name } => {
                zips.push(name.clone());
                disk.push(name);
                ArchiveEvent::Zipped(true)
            }
            ArchiveAction::Delete => {
                deleted += 1;
                ArchiveEvent::Deleted(true)
            }
            ArchiveAction::Fail => panic!("failed"),
            ArchiveAction::Done { count } => return (count, zips, deleted, told),
        };
        assert!(s.has_numbers());
        let (next, after) = s.step(event);
        s = next;
        step = after;
        told.extend(step.progress);
    }
}

#[test]
fn files_are_archived_under_new_names() {
    let (count, zips, deleted, told) =
        archive(&[Some("a"), Some("a"), None, Some("b")], false, &["a_2.zip", "b.zip"]);
    assert_eq!(count, 4);
    assert_eq!(zips, ["a.zip", "a_3.zip", "log.zip", "b_2.zip"]);
    assert_eq!(deleted, 0);
    assert_eq!(told, [0, 25, 50, 75]);
}

#[test]
fn originals_are_deleted_where_asked() {
    let (count, zips, deleted, told) = archive(&[Some("a"), Some("b"), Some("c")], true, &[]);
    assert_eq!((count, zips.len(), deleted), (3, 3, 3));
    assert_eq!(told, [0, 33, 66]);
}

#[test]
fn no_files_are_archived_at_once() {
    assert_eq!(archive(&[], true, &[]).0, 0);
}

#[test]
fn a_failed_zip_fails_the_archive() {
    let (s, _) = Archive::begin(1, true);
    let (s, _) = s.step(ArchiveEvent::Named(Some("a".to_string())));
    let (s, _) = s.step(ArchiveEvent::Exists(false));
    let (_, step) = s.step(ArchiveEvent::Zipped(false));
    assert!(matches!(step.action, ArchiveAction::Fail));
}

#[test]
fn names_within_archives() {
    assert_eq!(entry_name(Some("a.txt")), "a.txt");
    assert_eq!(entry_name(None), "log.txt");
    assert_eq!(archive_message(Some("a.txt")), "Archiving a.txt…");
    assert_eq!(archive_message(None), "Archiving log…");
}

#[test]
fn zips_go_to_a_folder_beside_the_logs() {
    assert_eq!(archive_folder(Some("/zips".to_string()), "/logs"), "/zips");
    assert_eq!(archive_folder(Some(String::new()), "/logs"), "");
    assert_eq!(archive_folder(None, "/logs"), "/logs/archive");
    assert_eq!(archive_folder(None, "/logs/"), "/logs/archive");
    assert_eq!(archive_folder(None, "C:\\Logs\\"), "C:\\Logs\\archive");
    assert_eq!(archive_folder(None, "C:\\é"), "C:\\é/archive");
    assert_eq!(archive_folder(None, ""), "archive");
}
