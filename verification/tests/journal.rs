use combatlog::fights::content_hash;
use combatlog::journal::{
    journal_line, journal_name, retry_record, start_record, tail_record, upload_record,
};
use combatlog::retry::RetryNote;
use combatlog::session::LiveLogArgs;
use combatlog::tail::TailNote;
use combatlog::uploader::{MasterIds, SegmentNumbers, UploadNote};
use serde_json::Value;

fn json(text: &str) -> Value {
    serde_json::from_str(text).unwrap()
}

#[test]
fn journals_are_named_after_reports() {
    assert_eq!(journal_name("abc"), "live-abc.jsonl");
}

#[test]
fn a_line_has_event_and_time() {
    let line = journal_line("stop", 17, json(r#"{"offset": 5, "ts": "old"}"#));
    assert!(line.ends_with('\n'));
    assert_eq!(line.matches('\n').count(), 1);
    assert_eq!(json(&line), json(r#"{"event": "stop", "ts": 17, "offset": 5}"#));
    let line = journal_line("a\nb", -1, json(r#"{"x": "1\n2"}"#));
    assert_eq!(line, "{\"event\":\"a\\nb\",\"ts\":-1,\"x\":\"1\\n2\"}\n");
}

#[test]
fn other_values_stay_as_they_are() {
    assert_eq!(journal_line("stop", 17, json("[1,null]")), "[1,null]\n");
}

#[test]
fn the_start_is_recorded() {
    let args = LiveLogArgs {
        directory: "/logs".to_string(),
        email: "secret".to_string(),
        password: "secret".to_string(),
        region: 2,
        visibility: 1,
        guild_id: Some(4),
        include_entire_file_in_report: true,
        enable_real_time_uploading: false,
    };
    assert_eq!(
        start_record(&args, "abc", 99),
        json(
            r#"{"code": "abc", "directory": "/logs", "region": 2, "includeExisting": true,
                "realTime": false, "startMs": 99}"#
        )
    );
}

#[test]
fn notes_of_the_tail_are_recorded() {
    let record = |note| tail_record(note, "a.txt", "boom");
    assert_eq!(record(TailNote::WaitingForLog), json("{}"));
    assert_eq!(record(TailNote::FinalDrainFailed), json("{}"));
    assert_eq!(record(TailNote::Tailing), json(r#"{"file": "a.txt"}"#));
    assert_eq!(
        record(TailNote::ReadError { offset: 7 }),
        json(r#"{"offset": 7, "error": "boom"}"#)
    );
    assert_eq!(
        record(TailNote::Truncated { offset: u64::MAX, file_size: 3 }),
        json(r#"{"offset": 18446744073709551615, "fileSize": 3}"#)
    );
    assert_eq!(
        record(TailNote::IdleFlushSkipped { offset: 7, encounter_open: true, key_open: false }),
        json(r#"{"offset": 7, "encounterOpen": true, "keyOpen": false}"#)
    );
    assert_eq!(record(TailNote::IdleFlush { offset: 7 }), json(r#"{"offset": 7}"#));
    assert_eq!(record(TailNote::Stopping { offset: 8 }), json(r#"{"offset": 8}"#));
    assert_eq!(record(TailNote::FinalFlush { offset: 9 }), json(r#"{"offset": 9}"#));
    assert_eq!(record(TailNote::FinalFlushFailed), json(r#"{"error": "boom"}"#));
}

#[test]
fn retries_are_recorded() {
    assert_eq!(
        retry_record(RetryNote { attempt: 3, unauthorized: true }, "boom"),
        json(r#"{"attempt": 3, "unauthorized": true, "error": "boom"}"#)
    );
}

#[test]
fn dropped_slivers_are_recorded() {
    let fd = json(r#"{"startTime": 4, "fights": [{"eventCount": 2}, {}]}"#);
    assert_eq!(
        upload_record(UploadNote::SliverDropped, &fd, ""),
        Some(json(r#"{"startTime": 4, "endTime": null, "eventCounts": [2, 0]}"#))
    );
    assert_eq!(
        upload_record(UploadNote::SliverDropped, &json("{}"), ""),
        Some(json(r#"{"startTime": null, "endTime": null, "eventCounts": null}"#))
    );
}

#[test]
fn uploads_are_recorded() {
    let ids = MasterIds { actor: 1, ability: 2, tuple: 3, pet: 4 };
    let note = UploadNote::MasterUploaded { segment_id: 5, is_real_time: true, ids };
    assert_eq!(
        upload_record(note, &json("{}"), ""),
        Some(json(r#"{"segmentId": 5, "isRealTime": true, "masterIds": [1, 2, 3, 4]}"#))
    );
    let note = UploadNote::SegmentUploaded(SegmentNumbers {
        segment_id: 5,
        next_segment_id: 6,
        start_time: 7,
        end_time: 8,
        mythic: 9,
        is_real_time: false,
        in_progress_count: 10,
        push_fight: true,
    });
    let fd = json(r#"{"fights": [{"eventCount": 2, "eventsString": "7|a\n8|b"}, {}]}"#);
    let expected = format!(
        r#"{{"segmentId": 5, "nextSegmentId": 6, "startTime": 7, "endTime": 8, "mythic": 9,
            "isRealTime": false, "inProgressEventCount": 10, "pushFight": true,
            "fights": [
                {{"events": 2, "firstTs": 7, "lastTs": 8, "hash": "{}"}},
                {{"events": null, "firstTs": -1, "lastTs": -1, "hash": "{}"}}
            ],
            "blobHash": "{}", "blobBytes": 5}}"#,
        content_hash("7|a\n8|b"),
        content_hash(""),
        content_hash("blüb"),
    );
    assert_eq!(upload_record(note, &fd, "blüb"), Some(json(&expected)));
    assert_eq!(upload_record(UploadNote::FightInProgress, &fd, ""), None);
    assert_eq!(upload_record(UploadNote::Counted { segments: 1 }, &fd, ""), None);
}
