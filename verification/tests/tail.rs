use combatlog::chunk::{Chunk, MAX_CHUNK_LINES};
use combatlog::tail::{
    scan_lines, Marks, TailAction, TailEvent, TailLoop, TailNote, TailStep, DRAIN_MAX_LINES,
    IDLE_THRESHOLD_NS,
};

fn owned(lines: &[&str]) -> Vec<String> {
    lines.iter().map(|l| l.to_string()).collect()
}

fn chunk(lines: &[&str], new_offset: u64, file_size: u64) -> TailEvent {
    TailEvent::Read(Some(Chunk { lines: owned(lines), new_offset, file_size }))
}

fn found(name: &str) -> TailEvent {
    TailEvent::Found(Some(name.to_string()))
}

fn upload_of(step: &TailStep) -> (Vec<String>, bool, bool) {
    match &step.action {
        TailAction::Upload { lines, push_fight, drop_slivers } => {
            (lines.clone(), *push_fight, *drop_slivers)
        }
        _ => panic!("no upload"),
    }
}

fn read_of(step: &TailStep) -> (String, u64) {
    match &step.action {
        TailAction::Read { name, offset } => (name.clone(), *offset),
        _ => panic!("no read"),
    }
}

/// A loop that has just read the first lines of a log, at time 0.
fn tailing(lines: &[&str]) -> (TailLoop, TailStep) {
    let (s, step) = TailLoop::start(false, 0);
    assert!(matches!(step.action, TailAction::FindLog));
    let (s, step) = s.step(found("WoWCombatLog.txt"), false, 0);
    assert!(matches!(&step.action, TailAction::SetStartDate { name } if name == "WoWCombatLog.txt"));
    let (s, step) = s.step(TailEvent::DateSet(true), false, 0);
    assert_eq!(step.notes, [TailNote::Tailing]);
    assert_eq!(read_of(&step), ("WoWCombatLog.txt".to_string(), 0));
    let (s, step) = s.step(chunk(lines, 100, 100), false, 0);
    assert_eq!(read_of(&step), ("WoWCombatLog.txt".to_string(), 100));
    s.step(chunk(&[], 100, 100), false, 0)
}

/// A poll that finds nothing new.
fn quiet(s: TailLoop, now: u64) -> (TailLoop, TailStep) {
    let (s, step) = s.step(TailEvent::Rested, false, now);
    assert!(matches!(step.action, TailAction::FindLog));
    let (s, _) = s.step(found("WoWCombatLog.txt"), false, now);
    s.step(chunk(&[], 100, 100), false, now)
}

fn uploaded(s: TailLoop, sent: bool) -> TailLoop {
    let (s, step) = s.step(TailEvent::Uploaded(Some(sent)), false, 0);
    assert!(matches!(step.action, TailAction::FindLog));
    let (s, step) = s.step(found("WoWCombatLog.txt"), false, 0);
    assert_eq!(read_of(&step).1, 100);
    let (s, step) = s.step(chunk(&[], 100, 100), false, 0);
    assert!(matches!(step.action, TailAction::Rest | TailAction::Upload { .. }));
    s
}

#[test]
fn the_last_marker_decides() {
    let none = Marks { encounter_open: false, key_open: false, key_ended: false };
    let lines = owned(&["1 ENCOUNTER_START,1", "2 ENCOUNTER_END,1", "3 CHALLENGE_MODE_START"]);
    assert_eq!(scan_lines(none, &lines), Marks { key_open: true, ..none });
    let lines = owned(&["CHALLENGE_MODE_END", "ENCOUNTER_START"]);
    assert_eq!(
        scan_lines(none, &lines),
        Marks { encounter_open: true, key_open: false, key_ended: true }
    );
}

#[test]
fn lines_are_uploaded_without_a_push() {
    let (_, step) = tailing(&["a", "b"]);
    assert_eq!(upload_of(&step), (owned(&["a", "b"]), false, false));
}

#[test]
fn a_key_end_forces_the_commit_and_keeps_slivers() {
    let (_, step) = tailing(&["CHALLENGE_MODE_END"]);
    assert_eq!(upload_of(&step), (owned(&["CHALLENGE_MODE_END"]), true, false));
}

#[test]
fn a_key_end_waits_for_an_open_encounter() {
    let (s, step) = tailing(&["CHALLENGE_MODE_END", "ENCOUNTER_START"]);
    assert!(!upload_of(&step).1);
    let (s, step) = s.step(TailEvent::Uploaded(Some(false)), false, 0);
    assert!(matches!(step.action, TailAction::FindLog));
    let (s, _) = s.step(found("WoWCombatLog.txt"), false, 0);
    let (s, _) = s.step(chunk(&["ENCOUNTER_END"], 120, 120), false, 0);
    let (_, step) = s.step(chunk(&[], 120, 120), false, 0);
    assert!(upload_of(&step).1);
}

#[test]
fn a_pending_key_is_retried_until_a_segment_is_uploaded() {
    let (s, _) = tailing(&["CHALLENGE_MODE_END"]);
    let (s, step) = s.step(TailEvent::Uploaded(Some(false)), false, 0);
    assert!(matches!(step.action, TailAction::FindLog));
    let (s, _) = s.step(found("WoWCombatLog.txt"), false, 0);
    let (s, step) = s.step(chunk(&[], 100, 100), false, 0);
    assert_eq!(upload_of(&step), (Vec::new(), true, false));
    let (s, step) = s.step(TailEvent::Uploaded(Some(true)), false, 0);
    assert!(matches!(step.action, TailAction::Rest));
    let (_, step) = quiet(s, 1);
    assert!(matches!(step.action, TailAction::Rest));
}

#[test]
fn an_idle_log_is_flushed_once() {
    let (s, _) = tailing(&["a"]);
    let s = uploaded(s, false);
    let (s, step) = quiet(s, IDLE_THRESHOLD_NS);
    assert!(matches!(step.action, TailAction::Rest));
    let (s, step) = quiet(s, IDLE_THRESHOLD_NS + 1);
    assert_eq!(step.notes, [TailNote::IdleFlush { offset: 100 }]);
    assert_eq!(upload_of(&step), (Vec::new(), true, true));
    let (s, _) = s.step(TailEvent::Uploaded(Some(false)), false, IDLE_THRESHOLD_NS + 1);
    let (_, step) = quiet(s, 9 * IDLE_THRESHOLD_NS);
    assert!(matches!(step.action, TailAction::Rest));
}

#[test]
fn an_open_encounter_is_not_flushed() {
    for marker in ["ENCOUNTER_START", "CHALLENGE_MODE_START"] {
        let (s, _) = tailing(&[marker]);
        let s = uploaded(s, false);
        let now = IDLE_THRESHOLD_NS + 1;
        let (s, step) = quiet(s, now);
        assert!(matches!(step.action, TailAction::Rest));
        assert_eq!(
            step.notes,
            [TailNote::IdleFlushSkipped {
                offset: 100,
                encounter_open: marker == "ENCOUNTER_START",
                key_open: marker != "ENCOUNTER_START",
            }]
        );
        let (_, step) = quiet(s, now + IDLE_THRESHOLD_NS);
        assert!(step.notes.is_empty());
    }
}

#[test]
fn a_missing_log_is_told_once() {
    let (s, _) = TailLoop::start(false, 0);
    let (s, step) = s.step(TailEvent::Found(None), false, 0);
    assert_eq!(step.notes, [TailNote::WaitingForLog]);
    let (s, _) = s.step(TailEvent::Rested, false, 0);
    let (_, step) = s.step(TailEvent::Found(None), false, 0);
    assert!(step.notes.is_empty());
    assert!(matches!(step.action, TailAction::Rest));
}

#[test]
fn a_burst_is_uploaded_at_once() {
    let (s, _) = TailLoop::start(false, 0);
    let (s, _) = s.step(found("WoWCombatLog.txt"), false, 0);
    let (mut s, _) = s.step(TailEvent::DateSet(true), false, 0);
    let mut reads = 0;
    loop {
        let lines = vec![String::from("x"); MAX_CHUNK_LINES];
        reads += 1;
        let event = TailEvent::Read(Some(Chunk {
            lines,
            new_offset: 2 * reads * MAX_CHUNK_LINES as u64,
            file_size: u64::MAX,
        }));
        let (next, step) = s.step(event, false, 0);
        s = next;
        if let TailAction::Upload { lines, .. } = step.action {
            assert_eq!(lines.len(), DRAIN_MAX_LINES);
            break;
        }
    }
    assert_eq!(reads, 20);
}

#[test]
fn a_truncated_log_is_read_anew() {
    let (s, _) = tailing(&["a"]);
    let s = uploaded(s, false);
    let (s, _) = s.step(TailEvent::Rested, false, 0);
    let (s, _) = s.step(found("WoWCombatLog.txt"), false, 0);
    let (s, step) = s.step(chunk(&[], 100, 50), false, 0);
    assert_eq!(step.notes, [TailNote::Truncated { offset: 100, file_size: 50 }]);
    let (_, step) = s.step(found("WoWCombatLog.txt"), false, 0);
    assert_eq!(read_of(&step).1, 0);
}

#[test]
fn a_read_error_rests() {
    let (s, _) = tailing(&["a"]);
    let s = uploaded(s, false);
    let (s, _) = s.step(TailEvent::Rested, false, 0);
    let (s, _) = s.step(found("WoWCombatLog.txt"), false, 0);
    let (_, step) = s.step(TailEvent::Read(None), false, 0);
    assert_eq!(step.notes, [TailNote::ReadError { offset: 100 }]);
    assert!(matches!(step.action, TailAction::Rest));
}

#[test]
fn the_old_log_is_drained_first() {
    let (s, _) = tailing(&["a"]);
    let s = uploaded(s, false);
    let (s, _) = s.step(TailEvent::Rested, false, 0);
    let (s, step) = s.step(found("WoWCombatLog-2.txt"), false, 0);
    assert_eq!(read_of(&step), ("WoWCombatLog.txt".to_string(), 100));
    let (s, step) = s.step(chunk(&["late"], 105, 105), false, 0);
    assert_eq!(upload_of(&step), (owned(&["late"]), false, false));
    let (s, step) = s.step(TailEvent::Uploaded(Some(true)), false, 0);
    assert_eq!(read_of(&step), ("WoWCombatLog.txt".to_string(), 105));
    let (s, step) = s.step(TailEvent::Read(None), false, 0);
    assert!(matches!(&step.action, TailAction::SetStartDate { name } if name == "WoWCombatLog-2.txt"));
    let (_, step) = s.step(TailEvent::DateSet(true), false, 0);
    assert_eq!(read_of(&step), ("WoWCombatLog-2.txt".to_string(), 0));
}

#[test]
fn a_failed_upload_fails_the_session() {
    let (s, _) = tailing(&["a"]);
    let (_, step) = s.step(TailEvent::Uploaded(None), false, 0);
    assert!(matches!(step.action, TailAction::Fail));
}

#[test]
fn a_stop_drains_and_flushes() {
    let (s, _) = tailing(&["a"]);
    let (s, step) = s.step(TailEvent::Uploaded(None), true, 0);
    assert_eq!(step.notes, [TailNote::Stopping { offset: 100 }]);
    assert!(matches!(step.action, TailAction::WaitForWrites));
    let (s, step) = s.step(TailEvent::Rested, true, 0);
    assert_eq!(read_of(&step), ("WoWCombatLog.txt".to_string(), 100));
    let (s, step) = s.step(chunk(&["ENCOUNTER_END"], 120, 120), true, 0);
    assert_eq!(upload_of(&step), (owned(&["ENCOUNTER_END"]), false, false));
    let (s, _) = s.step(TailEvent::Uploaded(Some(true)), true, 0);
    let (s, step) = s.step(chunk(&[], 120, 120), true, 0);
    assert_eq!(step.notes, [TailNote::FinalFlush { offset: 120 }]);
    assert_eq!(upload_of(&step), (Vec::new(), true, true));
    let (_, step) = s.step(TailEvent::Uploaded(None), true, 0);
    assert_eq!(step.notes, [TailNote::FinalFlushFailed]);
    assert!(matches!(step.action, TailAction::Done));
}

#[test]
fn a_failed_drain_still_flushes() {
    let (s, _) = tailing(&["a"]);
    let (s, _) = s.step(TailEvent::Uploaded(None), true, 0);
    let (s, _) = s.step(TailEvent::Rested, true, 0);
    let (s, _) = s.step(chunk(&["x"], 120, 120), true, 0);
    let (_, step) = s.step(TailEvent::Uploaded(None), true, 0);
    assert_eq!(step.notes, [TailNote::FinalDrainFailed, TailNote::FinalFlush { offset: 120 }]);
    assert_eq!(upload_of(&step), (Vec::new(), true, true));
}

#[test]
fn a_stop_before_any_log_flushes_at_once() {
    let (s, step) = TailLoop::start(true, 0);
    assert_eq!(step.notes, [TailNote::Stopping { offset: 0 }]);
    let (_, step) = s.step(TailEvent::Rested, true, 0);
    assert_eq!(step.notes, [TailNote::FinalFlush { offset: 0 }]);
}

#[test]
fn a_key_end_that_is_pending_at_the_stop_is_kept() {
    let (s, _) = tailing(&["CHALLENGE_MODE_END"]);
    let (s, _) = s.step(TailEvent::Uploaded(Some(false)), true, 0);
    let (s, _) = s.step(TailEvent::Rested, true, 0);
    let (s, step) = s.step(chunk(&[], 100, 100), true, 0);
    assert_eq!(upload_of(&step), (Vec::new(), true, false));
    let (_, step) = s.step(TailEvent::Uploaded(Some(true)), true, 0);
    assert!(matches!(step.action, TailAction::Done));
}

#[test]
fn a_key_end_after_the_stop_is_kept() {
    let (s, _) = tailing(&["CHALLENGE_MODE_START"]);
    let (s, _) = s.step(TailEvent::Uploaded(Some(false)), true, 0);
    let (s, _) = s.step(TailEvent::Rested, true, 0);
    let (s, step) = s.step(chunk(&["CHALLENGE_MODE_END"], 120, 120), true, 0);
    assert_eq!(upload_of(&step), (owned(&["CHALLENGE_MODE_END"]), false, false));
    let (s, _) = s.step(TailEvent::Uploaded(Some(false)), true, 0);
    let (_, step) = s.step(chunk(&[], 120, 120), true, 0);
    assert_eq!(upload_of(&step), (Vec::new(), true, false));
}

#[test]
fn a_segment_settles_a_key_end_after_the_stop() {
    let (s, _) = tailing(&["CHALLENGE_MODE_START"]);
    let (s, _) = s.step(TailEvent::Uploaded(Some(false)), true, 0);
    let (s, _) = s.step(TailEvent::Rested, true, 0);
    let (s, _) = s.step(chunk(&["CHALLENGE_MODE_END"], 120, 120), true, 0);
    let (s, _) = s.step(TailEvent::Uploaded(Some(true)), true, 0);
    let (_, step) = s.step(chunk(&[], 120, 120), true, 0);
    assert_eq!(upload_of(&step), (Vec::new(), true, true));
}

/// A loop that has drained `lines` from the log that it leaves, and tails the new one,
/// which holds nothing yet. `sent` tells whether the drain uploaded a segment.
fn rotated(before: &[&str], lines: &[&str], sent: bool) -> (TailLoop, TailStep) {
    let (s, _) = tailing(before);
    let (s, _) = s.step(TailEvent::Uploaded(Some(false)), false, 0);
    let (s, step) = s.step(found("WoWCombatLog-2.txt"), false, 0);
    assert_eq!(read_of(&step), ("WoWCombatLog.txt".to_string(), 100));
    let (s, step) = s.step(chunk(lines, 120, 120), false, 5);
    assert_eq!(upload_of(&step), (owned(lines), false, false));
    let (s, _) = s.step(TailEvent::Uploaded(Some(sent)), false, 5);
    let (s, _) = s.step(chunk(&[], 120, 120), false, 5);
    let (s, step) = s.step(TailEvent::DateSet(true), false, 5);
    assert_eq!(read_of(&step), ("WoWCombatLog-2.txt".to_string(), 0));
    s.step(chunk(&[], 0, 0), false, 5)
}

/// A later poll of the new log that finds nothing.
fn quiet_again(s: TailLoop, now: u64) -> (TailLoop, TailStep) {
    let (s, _) = s.step(TailEvent::Rested, false, now);
    let (s, _) = s.step(found("WoWCombatLog-2.txt"), false, now);
    s.step(chunk(&[], 0, 0), false, now)
}

#[test]
fn a_key_end_in_a_rotated_log_is_retried() {
    let (s, step) = rotated(&["CHALLENGE_MODE_START"], &["CHALLENGE_MODE_END"], false);
    assert_eq!(upload_of(&step), (Vec::new(), true, false));
    let (s, step) = s.step(TailEvent::Uploaded(Some(false)), false, 6);
    assert!(matches!(step.action, TailAction::Rest));
    let (_, step) = quiet_again(s, 7);
    assert_eq!(upload_of(&step), (Vec::new(), true, false));
}

#[test]
fn a_key_end_in_a_rotated_log_is_kept_at_the_stop() {
    let (s, _) = rotated(&["a"], &["CHALLENGE_MODE_END"], false);
    let (s, _) = s.step(TailEvent::Uploaded(Some(false)), true, 6);
    let (s, step) = s.step(TailEvent::Rested, true, 6);
    assert!(matches!(step.action, TailAction::WaitForWrites));
    let (s, _) = s.step(TailEvent::Rested, true, 6);
    let (_, step) = s.step(chunk(&[], 0, 0), true, 6);
    assert_eq!(upload_of(&step), (Vec::new(), true, false));
}

#[test]
fn a_start_in_a_rotated_log_is_not_flushed() {
    for marker in ["ENCOUNTER_START", "CHALLENGE_MODE_START"] {
        let (s, step) = rotated(&["a"], &[marker], false);
        assert!(matches!(step.action, TailAction::Rest));
        let (_, step) = quiet_again(s, 6 + IDLE_THRESHOLD_NS);
        assert!(matches!(step.action, TailAction::Rest));
        assert!(matches!(step.notes[..], [TailNote::IdleFlushSkipped { .. }]));
    }
}

#[test]
fn an_end_in_a_rotated_log_allows_the_flush() {
    let (s, _) = rotated(&["ENCOUNTER_START"], &["ENCOUNTER_END"], false);
    let (s, step) = quiet_again(s, 5 + IDLE_THRESHOLD_NS);
    assert!(step.notes.is_empty());
    let (_, step) = quiet_again(s, 6 + IDLE_THRESHOLD_NS);
    assert_eq!(upload_of(&step), (Vec::new(), true, true));
}

#[test]
fn a_segment_of_a_rotated_log_ends_the_forcing() {
    let (s, step) = rotated(&["CHALLENGE_MODE_END"], &["a"], true);
    assert!(matches!(step.action, TailAction::Rest));
    let (_, step) = quiet_again(s, 6);
    assert!(matches!(step.action, TailAction::Rest));
}
