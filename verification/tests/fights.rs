use std::hash::{Hash, Hasher};

use combatlog::fights::{
    content_hash, fight_data, fight_meta, fight_span, fights_empty, is_sliver, FightData,
};
use serde_json::Value;

fn json(text: &str) -> Value {
    serde_json::from_str(text).unwrap()
}

#[test]
fn span_is_first_and_last_stamp() {
    assert_eq!(fight_span("10|a\n20|b\n35|c\n"), (10, 35));
    assert_eq!(fight_span("\n\n5|x"), (5, 5));
    assert_eq!(fight_span("7"), (7, 7));
}

#[test]
fn unreadable_stamps_are_minus_one() {
    assert_eq!(fight_span(""), (-1, -1));
    assert_eq!(fight_span("\n\n"), (-1, -1));
    assert_eq!(fight_span("x|1\n9|y"), (-1, 9));
    assert_eq!(fight_span("9|y\n|"), (9, -1));
    assert_eq!(fight_span("-4|y"), (-4, -4));
}

#[test]
fn hash_is_that_of_the_default_hasher() {
    for s in ["", "a", "10|a\n20|b", "é"] {
        let mut h = std::collections::hash_map::DefaultHasher::new();
        s.hash(&mut h);
        assert_eq!(content_hash(s), format!("{:016x}", h.finish()));
    }
    assert_ne!(content_hash("a"), content_hash("b"));
    assert_eq!(content_hash("a").len(), 16);
}

#[test]
fn missing_fights_are_empty() {
    assert!(fights_empty(&json("{}")));
    assert!(fights_empty(&json("null")));
    assert!(fights_empty(&json(r#"{"fights": 3}"#)));
    assert!(fights_empty(&json(r#"{"fights": []}"#)));
    assert!(!fights_empty(&json(r#"{"fights": [{}]}"#)));
}

#[test]
fn short_batches_are_slivers() {
    assert!(is_sliver(&json("{}")));
    assert!(is_sliver(&json(r#"{"fights": []}"#)));
    assert!(is_sliver(&json(
        r#"{"fights": [{"eventCount": 0, "eventsString": "0|a\n5000|b"}]}"#
    )));
    assert!(is_sliver(&json(
        r#"{"fights": [{"eventCount": 2, "eventsString": "0|a\n999|b"}]}"#
    )));
    assert!(is_sliver(&json(
        r#"{"fights": [{"eventCount": 2, "eventsString": "x"}]}"#
    )));
}

#[test]
fn a_second_is_a_fight() {
    assert!(!is_sliver(&json(
        r#"{"fights": [{"eventCount": 2, "eventsString": "0|a\n1000|b"}]}"#
    )));
    assert!(!is_sliver(&json(
        r#"{"fights": [{"eventCount": 1, "eventsString": "100|a"},
                       {"eventsString": "1100|b"}]}"#
    )));
}

#[test]
fn times_of_the_reply_do_not_count_for_slivers() {
    assert!(is_sliver(&json(
        r#"{"startTime": 0, "endTime": 90000,
            "fights": [{"eventCount": 1, "eventsString": "5|a"}]}"#
    )));
}

#[test]
fn data_of_a_reply() {
    let fd = json(
        r#"{"startTime": 3, "endTime": 4003, "mythic": 2, "logVersion": 22, "gameVersion": 1,
            "fights": [{"eventCount": 7, "eventsString": "3|a\n4003|b"}, {"eventCount": 5}]}"#,
    );
    assert_eq!(
        fight_data(&fd),
        FightData {
            empty: false,
            sliver: false,
            events: 12,
            first_count: 7,
            start_time: 3,
            end_time: 4003,
            mythic: 2,
            log_version: 22,
            game_version: 1,
        }
    );
}

#[test]
fn data_of_an_empty_reply() {
    let data = fight_data(&json("{}"));
    assert!(data.empty && data.sliver);
    assert_eq!((data.events, data.first_count, data.start_time, data.mythic), (0, 0, 0, 0));
}

#[test]
fn fights_are_recorded() {
    let fd = json(
        r#"{"fights": [{"eventCount": 7, "eventsString": "3|a\n4003|b"}, {"eventsString": 1}]}"#,
    );
    let metas = fight_meta(&fd);
    assert_eq!(metas.len(), 2);
    assert_eq!(metas[0].events, Some(Value::from(7)));
    assert_eq!((metas[0].first_ts, metas[0].last_ts), (3, 4003));
    assert_eq!(metas[0].hash, content_hash("3|a\n4003|b"));
    assert_eq!(metas[1].events, None);
    assert_eq!((metas[1].first_ts, metas[1].last_ts), (-1, -1));
    assert!(fight_meta(&json("{}")).is_empty());
}
