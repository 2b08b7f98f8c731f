//! Events, their levels and their fields.

use seer::event::{
    event_from_fields, CoreField, Event, EventBuilder, FieldValue, Hostname, Level, LoggerName,
    MissingField, Pid, Placement, Timestamp,
};
use serde_json::Value;

fn t(secs: i64) -> Timestamp {
    Timestamp { secs, nanos: 0 }
}

fn extra<'a>(event: &'a Event, key: &str) -> Option<&'a Value> {
    event.extra.iter().find(|e| e.0 == key).map(|e| &e.1)
}

#[test]
fn level_round_trip_numbers() {
    for level in [
        Level::Trace,
        Level::Debug,
        Level::Info,
        Level::Warn,
        Level::Error,
        Level::Fatal,
    ] {
        let n = level.as_bunyan_number();
        let parsed = Level::try_from(n).expect("known level");
        assert_eq!(level, parsed);
    }
}

#[test]
fn level_ord_matches_severity() {
    assert!(Level::Trace < Level::Debug);
    assert!(Level::Debug < Level::Info);
    assert!(Level::Info < Level::Warn);
    assert!(Level::Warn < Level::Error);
    assert!(Level::Error < Level::Fatal);
}

#[test]
fn level_unknown_number_rejected() {
    let err = Level::try_from(99).unwrap_err();
    assert_eq!(err.0, 99);
}

#[test]
fn level_numbers_and_names_are_those_of_bunyan() {
    let known = [
        (Level::Trace, 10, "trace"),
        (Level::Debug, 20, "debug"),
        (Level::Info, 30, "info"),
        (Level::Warn, 40, "warn"),
        (Level::Error, 50, "error"),
        (Level::Fatal, 60, "fatal"),
    ];
    for (level, number, name) in known {
        assert_eq!(level.as_bunyan_number(), number);
        assert_eq!(level.as_str().to_lowercase(), name);
    }
}

#[test]
fn parse_bunyan_record_emitted_by_slog() {
    let event = event_from_fields(vec![
        FieldValue::Msg("hello world".to_string()),
        FieldValue::V(0),
        FieldValue::Name(LoggerName("myapp".to_string())),
        FieldValue::Level(Level::Info),
        FieldValue::Time(t(5)),
        FieldValue::Hostname(Hostname("sled".to_string())),
        FieldValue::Pid(Pid(42)),
        FieldValue::Extra("component".to_string(), Value::String("Nexus".to_string())),
    ])
    .unwrap();
    assert_eq!(event.level, Level::Info);
    assert_eq!(event.name.as_str(), "myapp");
    assert_eq!(event.msg, "hello world");
    assert_eq!(event.v, 0);
    assert_eq!(extra(&event, "component").and_then(|v| v.as_str()), Some("Nexus"));
    assert!(!event.hostname.as_str().is_empty());
    let _: Pid = event.pid;
}

#[test]
fn duplicate_keys_keep_first_occurrence() {
    let mut builder = EventBuilder::new();
    builder.offer(FieldValue::Msg("hello".to_string()));
    builder.offer(FieldValue::V(0));
    builder.offer(FieldValue::Name(LoggerName("first".to_string())));
    builder.offer(FieldValue::Level(Level::Info));
    builder.offer(FieldValue::Time(t(5)));
    builder.offer(FieldValue::Hostname(Hostname("h".to_string())));
    builder.offer(FieldValue::Pid(Pid(42)));
    assert_eq!(builder.place("component"), Placement::Extra);
    builder.offer(FieldValue::Extra(
        "component".to_string(),
        Value::String("datastore".to_string()),
    ));
    assert_eq!(builder.place("component"), Placement::Skip);
    builder.offer(FieldValue::Extra(
        "component".to_string(),
        Value::String("nexus".to_string()),
    ));
    assert_eq!(builder.place("name"), Placement::Skip);
    builder.offer(FieldValue::Name(LoggerName("second".to_string())));
    let event = builder.finish().unwrap();
    assert_eq!(event.name.as_str(), "first");
    assert_eq!(extra(&event, "component").and_then(|v| v.as_str()), Some("datastore"));
    assert_eq!(event.extra.len(), 1);
}

fn complete() -> Vec<FieldValue> {
    vec![
        FieldValue::Time(t(5)),
        FieldValue::Level(Level::Warn),
        FieldValue::Name(LoggerName("n".to_string())),
        FieldValue::Hostname(Hostname("h".to_string())),
        FieldValue::Pid(Pid(1)),
        FieldValue::Msg("m".to_string()),
        FieldValue::V(0),
    ]
}

#[test]
fn missing_core_fields_are_named() {
    let fields = [
        CoreField::Time,
        CoreField::Level,
        CoreField::Name,
        CoreField::Hostname,
        CoreField::Pid,
        CoreField::Msg,
        CoreField::V,
    ];
    for (i, field) in fields.iter().enumerate() {
        let mut values = complete();
        values.remove(i);
        assert_eq!(event_from_fields(values).unwrap_err(), MissingField(*field));
    }
    assert!(event_from_fields(complete()).is_ok());
}

#[test]
fn core_keys_are_told_from_others() {
    let builder = EventBuilder::new();
    for field in [
        CoreField::Time,
        CoreField::Level,
        CoreField::Name,
        CoreField::Hostname,
        CoreField::Pid,
        CoreField::Msg,
        CoreField::V,
    ] {
        assert_eq!(builder.place(field.as_str()), Placement::Core(field));
    }
    assert_eq!(builder.place("Time"), Placement::Extra);
}

#[test]
fn copied_events_are_equal() {
    let mut values = complete();
    values.push(FieldValue::Extra("k".to_string(), Value::Bool(true)));
    let event = event_from_fields(values).unwrap();
    let copy = event.clone();
    assert_eq!(copy.time, event.time);
    assert_eq!(copy.msg, event.msg);
    assert_eq!(extra(&copy, "k"), Some(&Value::Bool(true)));
}

#[test]
fn times_shift_and_print() {
    let time = Timestamp { secs: 86_399, nanos: 500_000_000 };
    assert_eq!(time.to_second_text(), "1970-01-01 23:59:59");
    assert_eq!(time.to_milli_text(), "1970-01-01T23:59:59.500Z");
    assert_eq!(time.shift(1500), Some(Timestamp { secs: 86_401, nanos: 0 }));
    assert_eq!(time.shift(-500), Some(Timestamp { secs: 86_399, nanos: 0 }));
    assert_eq!(Timestamp { secs: i64::MAX, nanos: 0 }.shift(1), None);
    assert!(time.is_before(Timestamp { secs: 86_400, nanos: 0 }));
    assert!(!time.is_before(time));
}

#[test]
fn further_fields_come_in_key_order() {
    let mut values = complete();
    for key in ["zones", "a", "ms", "Z", "ä", "ms", ""] {
        values.push(FieldValue::Extra(key.to_string(), Value::String(key.to_string())));
    }
    let event = event_from_fields(values).unwrap();
    let keys: Vec<&str> = event.extra.iter().map(|e| e.0.as_str()).collect();
    assert_eq!(keys, vec!["", "Z", "a", "ms", "zones", "ä"]);
}

#[test]
fn later_duplicates_change_nothing() {
    let fields = || {
        let mut fields = complete();
        fields.push(FieldValue::Extra("k".to_string(), Value::Bool(true)));
        fields
    };
    let plain = event_from_fields(fields()).unwrap();
    let duplicates: [fn() -> FieldValue; 4] = [
        || FieldValue::Time(t(9)),
        || FieldValue::Msg("other".to_string()),
        || FieldValue::V(7),
        || FieldValue::Extra("k".to_string(), Value::Bool(false)),
    ];
    for duplicate in duplicates {
        let mut repeated = fields();
        repeated.push(duplicate());
        let event = event_from_fields(repeated).unwrap();
        assert_eq!(event.time, plain.time);
        assert_eq!(event.msg, plain.msg);
        assert_eq!(event.v, plain.v);
        assert_eq!(event.extra, plain.extra);
    }
    // a key that has been seen is skipped before its value is read
    let mut builder = EventBuilder::new();
    for field in fields() {
        builder.offer(field);
    }
    for key in ["time", "level", "name", "hostname", "pid", "msg", "v", "k"] {
        assert_eq!(builder.place(key), Placement::Skip);
    }
}
