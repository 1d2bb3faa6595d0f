//! The journal of a live session: one line of JSON for everything that was uploaded,
//! so that a report can be held against what was sent.

use serde_json::Value;
use vstd::prelude::*;
use vstd::utf8::*;

use crate::fights;
use crate::fights::FightMeta;
use crate::json;
use crate::messages;
use crate::retry::RetryNote;
use crate::session::LiveLogArgs;
use crate::tail::TailNote;
use crate::text;
use crate::uploader::{MasterIds, SegmentNumbers, UploadNote};

verus! {

broadcast use {
    vstd::string::group_string_axioms,
    vstd::seq::group_seq_axioms,
    vstd::map::group_map_axioms,
    vstd::set::group_set_axioms,
};

// ---- lines --------------------------------------------------------------------------

/// The name of the journal of a report.
pub fn journal_name(code: &str) -> (r: String)
    ensures
        r@ == "live-"@ + code@ + ".jsonl"@,
{
    let mut out = messages::joined("live-", code);
    out.append(".jsonl");
    out
}

/// `line` is a record of `event` at `ts` with the fields `fields`, as one line.
pub open spec fn is_line(line: Seq<char>, event: Seq<char>, ts: i64, fields: Value) -> bool {
    match json::object_fields(fields) {
        Some(map) => exists|record: Value|
            json::object_fields(record) == Some(
                map.insert("event"@, json::text_value(event)).insert(
                    "ts"@,
                    json::integer_value(ts),
                ),
            ) && line == (#[trigger] json::json_text(record)).push('\n'),
        None => line == json::json_text(fields).push('\n'),
    }
}

/// A line of the journal: the fields of a record, with the name of the event and the
/// time. It is one line, whatever the fields hold.
pub fn journal_line(event: &str, ts: i64, fields: Value) -> (r: String)
    ensures
        is_line(r@, event@, ts, fields),
        r@.len() > 0,
        r@.last() == '\n',
        !r@.drop_last().contains('\n'),
{
    let mut record = fields;
    if let Some(map) = json::object_mut(&mut record) {
        json::insert(map, "event", json::from_text(event));
        json::insert(map, "ts", json::from_integer(ts));
    }
    let mut out = json::to_text(&record);
    let ghost text = out@;
    out.push('\n');
    assert(out@.drop_last() =~= text);
    out
}

// ---- records of the session and of the tail ---------------------------------------------

/// Under which name the journal records a session's start.
pub const SESSION_START: &'static str = "session_start";

/// Under which name the journal records a failed try.
pub const UPLOAD_RETRY: &'static str = "upload_retry";

/// The fields of the record of a session's start.
pub open spec fn start_fields(args: LiveLogArgs, code: Seq<char>, start_ms: i64) -> Map<
    Seq<char>,
    Value,
> {
    json::no_entries().insert("code"@, json::text_value(code)).insert(
        "directory"@,
        json::text_value(args.directory@),
    ).insert("region"@, json::integer_value(args.region as i64)).insert(
        "includeExisting"@,
        json::bool_value(args.include_entire_file_in_report),
    ).insert("realTime"@, json::bool_value(args.enable_real_time_uploading)).insert(
        "startMs"@,
        json::integer_value(start_ms),
    )
}

/// The record of a session's start.
pub fn start_record(args: &LiveLogArgs, code: &str, start_ms: i64) -> (r: Value)
    ensures
        json::object_fields(r) == Some(start_fields(*args, code@, start_ms)),
{
    let mut map = json::empty_map();
    json::insert(&mut map, "code", json::from_text(code));
    json::insert(&mut map, "directory", json::from_text(args.directory.as_str()));
    json::insert(&mut map, "region", json::from_integer(args.region as i64));
    json::insert(
        &mut map,
        "includeExisting",
        json::from_bool(args.include_entire_file_in_report),
    );
    json::insert(&mut map, "realTime", json::from_bool(args.enable_real_time_uploading));
    json::insert(&mut map, "startMs", json::from_integer(start_ms));
    json::from_map(map)
}

/// A record that tells how far the log has been read.
pub open spec fn offset_fields(offset: u64) -> Map<Seq<char>, Value> {
    json::no_entries().insert("offset"@, json::unsigned_value(offset))
}

/// The fields of the record of a note of the tail of `file`; `error` is what failed,
/// where something did.
pub open spec fn tail_fields(note: TailNote, file: Seq<char>, error: Seq<char>) -> Map<
    Seq<char>,
    Value,
> {
    match note {
        TailNote::WaitingForLog | TailNote::FinalDrainFailed => json::no_entries(),
        TailNote::Tailing => json::no_entries().insert("file"@, json::text_value(file)),
        TailNote::ReadError { offset } => offset_fields(offset).insert(
            "error"@,
            json::text_value(error),
        ),
        TailNote::Truncated { offset, file_size } => offset_fields(offset).insert(
            "fileSize"@,
            json::unsigned_value(file_size),
        ),
        TailNote::IdleFlushSkipped { offset, encounter_open, key_open } => offset_fields(
            offset,
        ).insert("encounterOpen"@, json::bool_value(encounter_open)).insert(
            "keyOpen"@,
            json::bool_value(key_open),
        ),
        TailNote::IdleFlush { offset } => offset_fields(offset),
        TailNote::Stopping { offset } => offset_fields(offset),
        TailNote::FinalFlush { offset } => offset_fields(offset),
        TailNote::FinalFlushFailed => json::no_entries().insert(
            "error"@,
            json::text_value(error),
        ),
    }
}

/// The record of a note of the tail of `file`. `error` is what failed, where
/// something did.
pub fn tail_record(note: TailNote, file: &str, error: &str) -> (r: Value)
    ensures
        json::object_fields(r) == Some(tail_fields(note, file@, error@)),
{
    let mut map = json::empty_map();
    match note {
        TailNote::WaitingForLog | TailNote::FinalDrainFailed => {},
        TailNote::Tailing => json::insert(&mut map, "file", json::from_text(file)),
        TailNote::ReadError { offset } => {
            json::insert(&mut map, "offset", json::from_unsigned(offset));
            json::insert(&mut map, "error", json::from_text(error));
        },
        TailNote::Truncated { offset, file_size } => {
            json::insert(&mut map, "offset", json::from_unsigned(offset));
            json::insert(&mut map, "fileSize", json::from_unsigned(file_size));
        },
        TailNote::IdleFlushSkipped { offset, encounter_open, key_open } => {
            json::insert(&mut map, "offset", json::from_unsigned(offset));
            json::insert(&mut map, "encounterOpen", json::from_bool(encounter_open));
            json::insert(&mut map, "keyOpen", json::from_bool(key_open));
        },
        TailNote::IdleFlush { offset } => json::insert(
            &mut map,
            "offset",
            json::from_unsigned(offset),
        ),
        TailNote::Stopping { offset } => json::insert(
            &mut map,
            "offset",
            json::from_unsigned(offset),
        ),
        TailNote::FinalFlush { offset } => json::insert(
            &mut map,
            "offset",
            json::from_unsigned(offset),
        ),
        TailNote::FinalFlushFailed => json::insert(&mut map, "error", json::from_text(error)),
    }
    json::from_map(map)
}

// ---- records of uploads -------------------------------------------------------------------

/// The fields of the record of a failed try.
pub open spec fn retry_fields(note: RetryNote, error: Seq<char>) -> Map<
    Seq<char>,
    Value,
> {
    json::no_entries().insert("attempt"@, json::unsigned_value(note.attempt as u64)).insert(
        "unauthorized"@,
        json::bool_value(note.unauthorized),
    ).insert("error"@, json::text_value(error))
}

/// The record of a failed try.
pub fn retry_record(note: RetryNote, error: &str) -> (r: Value)
    ensures
        json::object_fields(r) == Some(retry_fields(note, error@)),
{
    let mut map = json::empty_map();
    json::insert(&mut map, "attempt", json::from_unsigned(note.attempt as u64));
    json::insert(&mut map, "unauthorized", json::from_bool(note.unauthorized));
    json::insert(&mut map, "error", json::from_text(error));
    json::from_map(map)
}

/// `value` is `given`, or `null` where nothing is given.
pub open spec fn is_given(value: Value, given: Option<Value>) -> bool {
    match given {
        Some(v) => value == v,
        None => json::is_null(value),
    }
}

/// The field `key` of `fd`, or `null`.
fn field_or_null(fd: &Value, key: &str) -> (r: Value)
    ensures
        is_given(r, json::field_of(*fd, key@)),
{
    match json::field(fd, key) {
        Some(v) => json::copy_of(v),
        None => json::null(),
    }
}

/// The event count of a fight as the parser gave it, or 0.
pub open spec fn count_or_zero(item: Value) -> Value {
    match json::field_of(item, "eventCount"@) {
        Some(v) => v,
        None => json::integer_value(0),
    }
}

/// `value` lists the event counts of the fights of `fd`; it is `null` where there is
/// no list of fights.
pub open spec fn lists_counts(value: Value, fd: Value) -> bool {
    match fights::fight_items(fd) {
        Some(items) => json::array_items(value) == Some(
            items.map_values(|item: Value| count_or_zero(item)),
        ),
        None => json::is_null(value),
    }
}

fn event_counts(fd: &Value) -> (r: Value)
    ensures
        lists_counts(r, *fd),
{
    let list = match fights::fight_list(fd) {
        Some(list) => list,
        None => {
            return json::null();
        },
    };
    let mut counts: Vec<Value> = Vec::new();
    let mut i: usize = 0;
    while i < list.len()
        invariant
            i <= list@.len(),
            counts@.len() == i,
            forall|k: int| 0 <= k < i ==> #[trigger] counts@[k] == count_or_zero(list@[k]),
        decreases list@.len() - i,
    {
        let count = match json::field(&list[i], "eventCount") {
            Some(v) => json::copy_of(v),
            None => json::from_integer(0),
        };
        counts.push(count);
        i += 1;
    }
    assert(counts@ =~= list@.map_values(|item: Value| count_or_zero(item)));
    json::from_items(counts)
}

/// `value` records the drop of the fights of `fd`.
pub open spec fn records_sliver(value: Value, fd: Value) -> bool {
    json::object_fields(value) matches Some(map) && {
        &&& map.dom() == set!["startTime"@, "endTime"@, "eventCounts"@]
        &&& is_given(map["startTime"@], json::field_of(fd, "startTime"@))
        &&& is_given(map["endTime"@], json::field_of(fd, "endTime"@))
        &&& lists_counts(map["eventCounts"@], fd)
    }
}

/// The record of a dropped sliver.
fn sliver_record(fd: &Value) -> (r: Value)
    ensures
        records_sliver(r, *fd),
{
    proof {
        reveal_strlit("startTime");
        reveal_strlit("endTime");
        reveal_strlit("eventCounts");
        assert("startTime"@.len() == 9 && "endTime"@.len() == 7 && "eventCounts"@.len() == 11);
    }
    let mut map = json::empty_map();
    json::insert(&mut map, "startTime", field_or_null(fd, "startTime"));
    json::insert(&mut map, "endTime", field_or_null(fd, "endTime"));
    json::insert(&mut map, "eventCounts", event_counts(fd));
    assert(json::map_entries(map).dom() =~= set!["startTime"@, "endTime"@, "eventCounts"@]);
    json::from_map(map)
}

/// The fields of the record of uploaded master tables.
pub open spec fn master_fields(segment_id: i64, is_real_time: bool, ids: Value) -> Map<
    Seq<char>,
    Value,
> {
    json::no_entries().insert("segmentId"@, json::integer_value(segment_id)).insert(
        "isRealTime"@,
        json::bool_value(is_real_time),
    ).insert("masterIds"@, ids)
}

/// The ids of master tables as JSON numbers.
pub open spec fn id_values(ids: MasterIds) -> Seq<Value> {
    seq![
        json::integer_value(ids.actor),
        json::integer_value(ids.ability),
        json::integer_value(ids.tuple),
        json::integer_value(ids.pet),
    ]
}

/// `value` records the upload of master tables.
pub open spec fn records_master(
    value: Value,
    segment_id: i64,
    is_real_time: bool,
    ids: MasterIds,
) -> bool {
    exists|list: Value|
        json::object_fields(value) == Some(master_fields(segment_id, is_real_time, list))
            && #[trigger] json::array_items(list) == Some(id_values(ids))
}

/// The record of a fight of a segment.
pub open spec fn records_fight(value: Value, item: Value) -> bool {
    let events = fights::fight_of(item).events;
    let span = fights::span_of(events);
    json::object_fields(value) matches Some(map) && {
        &&& map.dom() == set!["events"@, "firstTs"@, "lastTs"@, "hash"@]
        &&& is_given(map["events"@], json::field_of(item, "eventCount"@))
        &&& map["firstTs"@] == json::integer_value(span.0)
        &&& map["lastTs"@] == json::integer_value(span.1)
        &&& map["hash"@] == json::text_value(fights::fingerprint(events))
    }
}

fn fight_record(meta: &FightMeta, Ghost(item): Ghost<Value>) -> (r: Value)
    requires
        fights::meta_of(*meta, item),
    ensures
        records_fight(r, item),
{
    proof {
        reveal_strlit("events");
        reveal_strlit("firstTs");
        reveal_strlit("lastTs");
        reveal_strlit("hash");
        assert("events"@[0] == 'e' && "firstTs"@[0] == 'f' && "lastTs"@[0] == 'l' && "hash"@[0]
            == 'h');
    }
    let mut map = json::empty_map();
    let events = match &meta.events {
        Some(v) => json::copy_of(v),
        None => json::null(),
    };
    json::insert(&mut map, "events", events);
    json::insert(&mut map, "firstTs", json::from_integer(meta.first_ts));
    json::insert(&mut map, "lastTs", json::from_integer(meta.last_ts));
    json::insert(&mut map, "hash", json::from_text(meta.hash.as_str()));
    assert(json::map_entries(map).dom() =~= set!["events"@, "firstTs"@, "lastTs"@, "hash"@]);
    json::from_map(map)
}

/// `value` lists the records of the fights of `fd`.
pub open spec fn lists_fights(value: Value, fd: Value) -> bool {
    let items = match fights::fight_items(fd) {
        Some(items) => items,
        None => Seq::empty(),
    };
    json::array_items(value) matches Some(list) && {
        &&& list.len() == items.len()
        &&& forall|i: int| 0 <= i < list.len() ==> records_fight(#[trigger] list[i], items[i])
    }
}

fn fight_records(fd: &Value) -> (r: Value)
    ensures
        lists_fights(r, *fd),
{
    let ghost items = match fights::fight_items(*fd) {
        Some(items) => items,
        None => Seq::empty(),
    };
    let metas = fights::fight_meta(fd);
    let mut records: Vec<Value> = Vec::new();
    let mut i: usize = 0;
    while i < metas.len()
        invariant
            i <= metas@.len() == items.len(),
            records@.len() == i,
            forall|k: int| 0 <= k < items.len() ==> fights::meta_of(#[trigger] metas@[k], items[k]),
            forall|k: int| 0 <= k < i ==> records_fight(#[trigger] records@[k], items[k]),
        decreases metas@.len() - i,
    {
        records.push(fight_record(&metas[i], Ghost(items[i as int])));
        i += 1;
    }
    json::from_items(records)
}

/// The fields of the record of an uploaded segment: the numbers of the segment, the
/// list of its fights, and the text that was sent.
pub open spec fn segment_fields(segment: SegmentNumbers, fights: Value, sent: Seq<char>) -> Map<
    Seq<char>,
    Value,
> {
    json::no_entries().insert("segmentId"@, json::integer_value(segment.segment_id)).insert(
        "nextSegmentId"@,
        json::integer_value(segment.next_segment_id),
    ).insert("startTime"@, json::integer_value(segment.start_time)).insert(
        "endTime"@,
        json::integer_value(segment.end_time),
    ).insert("mythic"@, json::integer_value(segment.mythic as i64)).insert(
        "isRealTime"@,
        json::bool_value(segment.is_real_time),
    ).insert(
        "inProgressEventCount"@,
        json::integer_value(segment.in_progress_count),
    ).insert("pushFight"@, json::bool_value(segment.push_fight)).insert(
        "fights"@,
        fights,
    ).insert("blobHash"@, json::text_value(fights::fingerprint(sent))).insert(
        "blobBytes"@,
        json::unsigned_value(encode_utf8(sent).len() as u64),
    )
}

/// `value` records the upload of the segment of the fights of `fd` that `note` tells
/// of; `sent` is the text that was sent.
pub open spec fn records_segment(
    value: Value,
    segment: SegmentNumbers,
    fd: Value,
    sent: Seq<char>,
) -> bool {
    exists|list: Value|
        json::object_fields(value) == Some(segment_fields(segment, list, sent))
            && #[trigger] lists_fights(list, fd)
}

fn segment_record(segment: SegmentNumbers, fd: &Value, sent: &str) -> (r: Value)
    ensures
        records_segment(r, segment, *fd, sent@),
{
    let mut map = json::empty_map();
    json::insert(&mut map, "segmentId", json::from_integer(segment.segment_id));
    json::insert(&mut map, "nextSegmentId", json::from_integer(segment.next_segment_id));
    json::insert(&mut map, "startTime", json::from_integer(segment.start_time));
    json::insert(&mut map, "endTime", json::from_integer(segment.end_time));
    json::insert(&mut map, "mythic", json::from_integer(segment.mythic as i64));
    json::insert(&mut map, "isRealTime", json::from_bool(segment.is_real_time));
    json::insert(
        &mut map,
        "inProgressEventCount",
        json::from_integer(segment.in_progress_count),
    );
    json::insert(&mut map, "pushFight", json::from_bool(segment.push_fight));
    let list = fight_records(fd);
    let ghost fights = list;
    json::insert(&mut map, "fights", list);
    let hash = fights::content_hash(sent);
    json::insert(&mut map, "blobHash", json::from_text(hash.as_str()));
    let bytes = sent.as_bytes().len() as u64;
    json::insert(&mut map, "blobBytes", json::from_unsigned(bytes));
    assert(lists_fights(fights, *fd));
    json::from_map(map)
}

fn master_record(segment_id: i64, is_real_time: bool, ids: MasterIds) -> (r: Value)
    ensures
        records_master(r, segment_id, is_real_time, ids),
{
    let mut list: Vec<Value> = Vec::new();
    list.push(json::from_integer(ids.actor));
    list.push(json::from_integer(ids.ability));
    list.push(json::from_integer(ids.tuple));
    list.push(json::from_integer(ids.pet));
    assert(list@ =~= id_values(ids));
    let list = json::from_items(list);
    let ghost values = list;
    let mut map = json::empty_map();
    json::insert(&mut map, "segmentId", json::from_integer(segment_id));
    json::insert(&mut map, "isRealTime", json::from_bool(is_real_time));
    json::insert(&mut map, "masterIds", list);
    assert(json::array_items(values) == Some(id_values(ids)));
    json::from_map(map)
}

/// `value` is the record of a note of an upload of the fights of `fd`, where the
/// journal has one; `sent` is the text of the fights.
pub open spec fn records_upload(
    value: Option<Value>,
    note: UploadNote,
    fd: Value,
    sent: Seq<char>,
) -> bool {
    match note {
        UploadNote::SliverDropped => value matches Some(v) && records_sliver(v, fd),
        UploadNote::MasterUploaded { segment_id, is_real_time, ids } => value matches Some(v)
            && records_master(v, segment_id, is_real_time, ids),
        UploadNote::SegmentUploaded(segment) => value matches Some(v) && records_segment(
            v,
            segment,
            fd,
            sent,
        ),
        UploadNote::FightInProgress | UploadNote::Counted { .. } => value is None,
    }
}

/// The record of a note of an upload, where the journal has one. `fd` is what is
/// uploaded, and `sent` is the text of its fights.
pub fn upload_record(note: UploadNote, fd: &Value, sent: &str) -> (r: Option<Value>)
    ensures
        records_upload(r, note, *fd, sent@),
{
    match note {
        UploadNote::SliverDropped => Some(sliver_record(fd)),
        UploadNote::MasterUploaded { segment_id, is_real_time, ids } => Some(
            master_record(segment_id, is_real_time, ids),
        ),
        UploadNote::SegmentUploaded(segment) => Some(segment_record(segment, fd, sent)),
        UploadNote::FightInProgress => None,
        UploadNote::Counted { .. } => None,
    }
}

// ---- what the records hold --------------------------------------------------------------

/// `map` has the entry `value` under `key`.
pub open spec fn holds(map: Map<Seq<char>, Value>, key: Seq<char>, value: Value) -> bool {
    map.contains_key(key) && map[key] == value
}

/// A line of the journal is the JSON text of one object: the event's name under `event`,
/// the time under `ts`, and every other field as it was given. Behind it stands a line feed.
pub proof fn lines_hold_the_event_and_the_time(
    line: Seq<char>,
    event: Seq<char>,
    ts: i64,
    fields: Value,
)
    requires
        is_line(line, event, ts, fields),
        json::object_fields(fields) is Some,
    ensures
        exists|record: Value, map: Map<Seq<char>, Value>| {
            &&& json::object_fields(record) == Some(map)
            &&& line == #[trigger] json::json_text(record) + "\n"@
            &&& #[trigger] holds(map, "event"@, json::text_value(event))
            &&& holds(map, "ts"@, json::integer_value(ts))
            &&& forall|key: Seq<char>|
                key != "event"@ && key != "ts"@ ==> {
                    &&& #[trigger] map.contains_key(key) == (
                    json::object_fields(fields)->0).contains_key(key)
                    &&& map.contains_key(key) ==> map[key] == (json::object_fields(fields)->0)[key]
                }
        },
{
    reveal_strlit("event");
    reveal_strlit("ts");
    reveal_strlit("\n");
    assert("event"@.len() == 5 && "ts"@.len() == 2);
    let given = json::object_fields(fields)->0;
    let map = given.insert("event"@, json::text_value(event)).insert(
        "ts"@,
        json::integer_value(ts),
    );
    let record = choose|record: Value|
        json::object_fields(record) == Some(map) && line == (#[trigger] json::json_text(
            record,
        )).push('\n');
    assert("\n"@ =~= seq!['\n']);
    assert(json::json_text(record) + "\n"@ =~= json::json_text(record).push('\n'));
    assert(holds(map, "event"@, json::text_value(event)));
}

/// The record of a session's start holds the report's code, the folder, the region, the two
/// settings and the time, and no more.
pub proof fn starts_are_recorded(args: LiveLogArgs, code: Seq<char>, start_ms: i64)
    ensures
        ({
            let map = start_fields(args, code, start_ms);
            &&& holds(map, "code"@, json::text_value(code))
            &&& holds(map, "directory"@, json::text_value(args.directory@))
            &&& holds(map, "region"@, json::integer_value(args.region as i64))
            &&& holds(
                map,
                "includeExisting"@,
                json::bool_value(args.include_entire_file_in_report),
            )
            &&& holds(map, "realTime"@, json::bool_value(args.enable_real_time_uploading))
            &&& holds(map, "startMs"@, json::integer_value(start_ms))
            &&& map.dom() == set![
                "code"@,
                "directory"@,
                "region"@,
                "includeExisting"@,
                "realTime"@,
                "startMs"@,
            ]
        }),
        SESSION_START@ == "session_start"@,
{
    reveal_strlit("code");
    reveal_strlit("directory");
    reveal_strlit("region");
    reveal_strlit("includeExisting");
    reveal_strlit("realTime");
    reveal_strlit("startMs");
    assert("code"@.len() == 4 && "directory"@.len() == 9 && "region"@.len() == 6
        && "includeExisting"@.len() == 15 && "realTime"@.len() == 8 && "startMs"@.len() == 7);
    let map = start_fields(args, code, start_ms);
    assert(map.dom() =~= set![
        "code"@,
        "directory"@,
        "region"@,
        "includeExisting"@,
        "realTime"@,
        "startMs"@,
    ]);
}

/// The records of the tail hold how far the log has been read, and what else belongs to
/// each; a new file's record holds its name, and a failed commit's what failed.
pub proof fn the_tail_is_recorded(
    file: Seq<char>,
    error: Seq<char>,
    offset: u64,
    file_size: u64,
    encounter_open: bool,
    key_open: bool,
)
    ensures
        ({
            let map = tail_fields(TailNote::Tailing, file, error);
            holds(map, "file"@, json::text_value(file)) && map.dom() == set!["file"@]
        }),
        ({
            let map = tail_fields(TailNote::ReadError { offset }, file, error);
            &&& holds(map, "offset"@, json::unsigned_value(offset))
            &&& holds(map, "error"@, json::text_value(error))
            &&& map.dom() == set!["offset"@, "error"@]
        }),
        ({
            let map = tail_fields(TailNote::Truncated { offset, file_size }, file, error);
            &&& holds(map, "offset"@, json::unsigned_value(offset))
            &&& holds(map, "fileSize"@, json::unsigned_value(file_size))
            &&& map.dom() == set!["offset"@, "fileSize"@]
        }),
        ({
            let map = tail_fields(
                TailNote::IdleFlushSkipped { offset, encounter_open, key_open },
                file,
                error,
            );
            &&& holds(map, "offset"@, json::unsigned_value(offset))
            &&& holds(map, "encounterOpen"@, json::bool_value(encounter_open))
            &&& holds(map, "keyOpen"@, json::bool_value(key_open))
            &&& map.dom() == set!["offset"@, "encounterOpen"@, "keyOpen"@]
        }),
        ({
            let idle = tail_fields(TailNote::IdleFlush { offset }, file, error);
            let stop = tail_fields(TailNote::Stopping { offset }, file, error);
            let last = tail_fields(TailNote::FinalFlush { offset }, file, error);
            &&& holds(idle, "offset"@, json::unsigned_value(offset)) && idle.dom() == set!["offset"@]
            &&& holds(stop, "offset"@, json::unsigned_value(offset)) && stop.dom() == set!["offset"@]
            &&& holds(last, "offset"@, json::unsigned_value(offset)) && last.dom() == set!["offset"@]
        }),
        ({
            let map = tail_fields(TailNote::FinalFlushFailed, file, error);
            holds(map, "error"@, json::text_value(error)) && map.dom() == set!["error"@]
        }),
{
    reveal_strlit("file");
    reveal_strlit("error");
    reveal_strlit("offset");
    reveal_strlit("keyOpen");
    reveal_strlit("fileSize");
    reveal_strlit("encounterOpen");
    assert("file"@.len() == 4 && "error"@.len() == 5 && "offset"@.len() == 6 && "keyOpen"@.len()
        == 7 && "fileSize"@.len() == 8 && "encounterOpen"@.len() == 13);
}

/// The record of a failed try holds its number, whether it was refused for want of a login,
/// and what failed.
pub proof fn tries_are_recorded(note: RetryNote, error: Seq<char>)
    ensures
        ({
            let map = retry_fields(note, error);
            &&& holds(map, "attempt"@, json::unsigned_value(note.attempt as u64))
            &&& holds(map, "unauthorized"@, json::bool_value(note.unauthorized))
            &&& holds(map, "error"@, json::text_value(error))
            &&& map.dom() == set!["attempt"@, "unauthorized"@, "error"@]
        }),
        UPLOAD_RETRY@ == "upload_retry"@,
{
    reveal_strlit("attempt");
    reveal_strlit("unauthorized");
    reveal_strlit("error");
    assert("attempt"@.len() == 7 && "unauthorized"@.len() == 12 && "error"@.len() == 5);
}

/// The record of uploaded master tables holds the segment's number, whether it is real-time,
/// and the four ids in their order.
pub proof fn master_tables_are_recorded(
    value: Value,
    segment_id: i64,
    is_real_time: bool,
    ids: MasterIds,
)
    requires
        records_upload(
            Some(value),
            UploadNote::MasterUploaded { segment_id, is_real_time, ids },
            value,
            Seq::empty(),
        ),
    ensures
        json::object_fields(value) matches Some(map) && {
            &&& holds(map, "segmentId"@, json::integer_value(segment_id))
            &&& holds(map, "isRealTime"@, json::bool_value(is_real_time))
            &&& map.contains_key("masterIds"@)
            &&& json::array_items(map["masterIds"@]) == Some(
                seq![
                    json::integer_value(ids.actor),
                    json::integer_value(ids.ability),
                    json::integer_value(ids.tuple),
                    json::integer_value(ids.pet),
                ],
            )
            &&& map.dom() == set!["segmentId"@, "isRealTime"@, "masterIds"@]
        },
{
    reveal_strlit("segmentId");
    reveal_strlit("isRealTime");
    reveal_strlit("masterIds");
    assert("isRealTime"@.len() == 10 && "segmentId"@[0] == 's' && "masterIds"@[0] == 'm'
        && "segmentId"@.len() == 9 && "masterIds"@.len() == 9);
    let list = choose|list: Value|
        json::object_fields(value) == Some(master_fields(segment_id, is_real_time, list))
            && #[trigger] json::array_items(list) == Some(id_values(ids));
    let map = master_fields(segment_id, is_real_time, list);
    assert(map.dom() =~= set!["segmentId"@, "isRealTime"@, "masterIds"@]);
}

proof fn lemma_segment_keys()
    ensures
        "segmentId"@.len() == 9,
        "nextSegmentId"@.len() == 13,
        "startTime"@.len() == 9,
        "endTime"@.len() == 7,
        "mythic"@.len() == 6,
        "isRealTime"@.len() == 10,
        "inProgressEventCount"@.len() == 20,
        "pushFight"@.len() == 9,
        "fights"@.len() == 6,
        "blobHash"@.len() == 8,
        "blobBytes"@.len() == 9,
        "mythic"@[0] == 'm',
        "fights"@[0] == 'f',
        "segmentId"@[1] == 'e',
        "startTime"@[1] == 't',
        "pushFight"@[1] == 'u',
        "blobBytes"@[1] == 'l',
{
    reveal_strlit("segmentId");
    reveal_strlit("nextSegmentId");
    reveal_strlit("startTime");
    reveal_strlit("endTime");
    reveal_strlit("mythic");
    reveal_strlit("isRealTime");
    reveal_strlit("inProgressEventCount");
    reveal_strlit("pushFight");
    reveal_strlit("fights");
    reveal_strlit("blobHash");
    reveal_strlit("blobBytes");
}

/// The record of an uploaded segment holds the segment's numbers, a record of each of its
/// fights, and the fingerprint and the size of the text that was sent.
pub proof fn segments_are_recorded(
    value: Value,
    segment: SegmentNumbers,
    fd: Value,
    sent: Seq<char>,
)
    requires
        records_upload(Some(value), UploadNote::SegmentUploaded(segment), fd, sent),
    ensures
        json::object_fields(value) matches Some(map) && {
            &&& holds(map, "segmentId"@, json::integer_value(segment.segment_id))
            &&& holds(map, "nextSegmentId"@, json::integer_value(segment.next_segment_id))
            &&& holds(map, "startTime"@, json::integer_value(segment.start_time))
            &&& holds(map, "endTime"@, json::integer_value(segment.end_time))
            &&& holds(map, "mythic"@, json::integer_value(segment.mythic as i64))
            &&& holds(map, "isRealTime"@, json::bool_value(segment.is_real_time))
            &&& holds(
                map,
                "inProgressEventCount"@,
                json::integer_value(segment.in_progress_count),
            )
            &&& holds(map, "pushFight"@, json::bool_value(segment.push_fight))
            &&& map.contains_key("fights"@)
            &&& holds(map, "blobHash"@, json::text_value(fights::fingerprint(sent)))
            &&& holds(
                map,
                "blobBytes"@,
                json::unsigned_value(encode_utf8(sent).len() as u64),
            )
        },
        fights::fight_items(fd) matches Some(items) ==> (json::array_items(
            (json::object_fields(value)->0)["fights"@],
        ) matches Some(list) && {
            &&& list.len() == items.len()
            &&& forall|i: int| 0 <= i < items.len() ==> records_fight(#[trigger] list[i], items[i])
        }),
        fights::fight_items(fd) is None ==> json::array_items(
            (json::object_fields(value)->0)["fights"@],
        ) == Some(Seq::<Value>::empty()),
{
    lemma_segment_keys();
    let list = choose|list: Value|
        json::object_fields(value) == Some(segment_fields(segment, list, sent))
            && #[trigger] lists_fights(list, fd);
    let map = segment_fields(segment, list, sent);
    assert(map["fights"@] == list);
    if fights::fight_items(fd) is None {
        assert(json::array_items(list)->0 =~= Seq::<Value>::empty());
    }
}

/// A fight's record holds its count as the parser gave it, `null` where it gave none, the
/// stamps of its first and its last line, and the fingerprint of its lines.
pub proof fn fights_are_recorded(value: Value, item: Value)
    requires
        records_fight(value, item),
    ensures
        json::object_fields(value) matches Some(map) && {
            let events = fights::fight_of(item).events;
            &&& map.dom() == set!["events"@, "firstTs"@, "lastTs"@, "hash"@]
            &&& json::field_of(item, "eventCount"@) matches Some(count) ==> map["events"@] == count
            &&& json::field_of(item, "eventCount"@) is None ==> json::json_text(map["events"@])
                == "null"@
            &&& map["firstTs"@] == json::integer_value(
                fights::stamp_of(text::first_piece(events, '\n')),
            )
            &&& map["lastTs"@] == json::integer_value(
                fights::stamp_of(text::last_piece(events, '\n')),
            )
            &&& map["hash"@] == json::text_value(fights::fingerprint(events))
        },
{
}

/// A dropped sliver's record holds the reply's times as they were given, `null` where they
/// were not, and the fights' counts, 0 where one was not given.
pub proof fn slivers_are_recorded(value: Value, fd: Value, sent: Seq<char>, i: int)
    requires
        records_upload(Some(value), UploadNote::SliverDropped, fd, sent),
    ensures
        json::object_fields(value) matches Some(map) && {
            &&& map.dom() == set!["startTime"@, "endTime"@, "eventCounts"@]
            &&& json::field_of(fd, "startTime"@) matches Some(v) ==> map["startTime"@] == v
            &&& json::field_of(fd, "startTime"@) is None ==> json::json_text(map["startTime"@])
                == "null"@
            &&& json::field_of(fd, "endTime"@) matches Some(v) ==> map["endTime"@] == v
            &&& json::field_of(fd, "endTime"@) is None ==> json::json_text(map["endTime"@])
                == "null"@
            &&& fights::fight_items(fd) is None ==> json::json_text(map["eventCounts"@])
                == "null"@
            &&& fights::fight_items(fd) matches Some(items) ==> (json::array_items(
                map["eventCounts"@],
            ) matches Some(counts) && {
                &&& counts.len() == items.len()
                &&& 0 <= i < items.len() ==> match json::field_of(items[i], "eventCount"@) {
                    Some(count) => counts[i] == count,
                    None => counts[i] == json::integer_value(0),
                }
            })
        },
{
}

/// Notes that are for the user alone have no record, and the others have one.
pub proof fn other_notes_have_no_record(
    value: Option<Value>,
    note: UploadNote,
    fd: Value,
    sent: Seq<char>,
)
    requires
        records_upload(value, note, fd, sent),
    ensures
        value is None <==> note is FightInProgress || note is Counted,
{
}

/// The journal of a report is named after the report's code.
pub proof fn journals_are_named_after_their_report(code: &str, name: String)
    requires
        call_ensures(journal_name, (code,), name),
    ensures
        name@ == "live-"@ + code@ + ".jsonl"@,
{
}

} // verus!
