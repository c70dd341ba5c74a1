use jason_os::json::to_json_text;
use jason_os::fingerprint::timeline_event_key;
use jason_os::json::{JsonNumber, JsonValue};
use jason_os::timeline::{apply_timeline_metadata, timeline_change_specs, timeline_event, timeline_precision, timeline_time_zone};

fn to_json(v: &serde_json::Value) -> JsonValue {
    match v {
        serde_json::Value::Null => JsonValue::Null,
        serde_json::Value::Bool(b) => JsonValue::Bool(*b),
        serde_json::Value::Number(n) => {
            if let Some(u) = n.as_u64() {
                JsonValue::Number(JsonNumber::PosInt(u))
            } else if let Some(i) = n.as_i64() {
                JsonValue::Number(JsonNumber::NegInt(i))
            } else {
                JsonValue::Number(JsonNumber::Float(n.to_string()))
            }
        }
        serde_json::Value::String(s) => JsonValue::Str(s.clone()),
        serde_json::Value::Array(a) => JsonValue::Array(a.iter().map(to_json).collect()),
        serde_json::Value::Object(m) => {
            JsonValue::Object(m.iter().map(|(k, v)| (k.clone(), to_json(v))).collect())
        }
    }
}

fn j(text: &str) -> JsonValue {
    to_json(&serde_json::from_str(text).unwrap())
}


#[test]
fn timeline_metadata_separates_planned_and_actual_time() {
    let planned = apply_timeline_metadata(
        "tasks",
        &j(r#"{"status":"todo","dueDate":"2026-08-12"}"#),
        "2026-08-10T08:00:00-07:00",
        "2026-08-11T08:00:00-07:00",
    );
    assert_eq!(planned.get_str("occurredAt"), Some("2026-08-12"));
    assert_eq!(planned.get_str("timeMeaning"), Some("planned"));
    assert_eq!(planned.get_str("timeZone"), Some("local"));
    let actual = apply_timeline_metadata(
        "tasks",
        &j(r#"{"status":"completed","completedAt":"2026-08-11T09:30:00-07:00"}"#),
        "2026-08-10T08:00:00-07:00",
        "2026-08-11T09:30:00-07:00",
    );
    assert_eq!(actual.get_str("occurredAt"), Some("2026-08-11T09:30:00-07:00"));
    assert_eq!(actual.get_str("timeMeaning"), Some("actual"));
    assert_eq!(actual.get_str("timeZone"), Some("offset"));
}

#[test]
fn timeline_metadata_keeps_legacy_reviews_on_created_time() {
    let review = apply_timeline_metadata(
        "reviews",
        &j(r#"{"title":"Review"}"#),
        "2026-08-01T10:00:00-07:00",
        "2026-08-11T10:00:00-07:00",
    );
    assert_eq!(review.get_str("occurredAt"), Some("2026-08-01T10:00:00-07:00"));
    assert_eq!(review.get_str("timeMeaning"), Some("recorded"));
}

#[test]
fn timeline_change_events_are_idempotent() {
    let before = j(r#"{"title":"Task","status":"todo"}"#);
    let after = j(r#"{"title":"Task","status":"completed","taskId":"task-1"}"#);
    let mut stored_keys: Vec<String> = Vec::new();
    for _ in 0..2 {
        for change in timeline_change_specs("tasks", &before, &after) {
            let key = timeline_event_key("task-1", &change);
            if stored_keys.contains(&key) {
                continue;
            }
            let event = timeline_event("tasks", "task-1", &change, &key, "5", &after);
            assert_eq!(event.get_str("taskId"), Some("task-1"));
            stored_keys.push(key);
        }
    }
    assert_eq!(stored_keys.len(), 1);
}

#[test]
fn unchanged_records_produce_no_events() {
    let same = j(r#"{"title":"Task","status":"todo"}"#);
    assert!(timeline_change_specs("tasks", &same, &same).is_empty());
}

#[test]
fn time_zone_and_precision_follow_the_text() {
    assert_eq!(timeline_time_zone("2026-08-11T09:30:00Z"), "UTC");
    assert_eq!(timeline_time_zone("2026-08-11T09:30:00-07:00"), "offset");
    assert_eq!(timeline_time_zone("2026-08-11"), "local");
    assert_eq!(timeline_precision("2026-08-11"), "date");
    assert_eq!(timeline_precision("2026-08-11T09:30"), "datetime");
}

#[test]
fn timeline_metadata_is_stable_when_applied_again() {
    for (entity, text) in [
        ("tasks", r#"{"title":"Ship","status":"completed","priority":"high"}"#),
        ("timelineEvents", r#"{"title":"Moved"}"#),
        ("decisions", r#"{"decisionDate":" 2026-08-11 ","evidenceLevel":"bogus"}"#),
    ] {
        let data = j(text);
        let once = apply_timeline_metadata(entity, &data, "10", "20");
        let twice = apply_timeline_metadata(entity, &once, "10", "20");
        assert_eq!(to_json_text(&once), to_json_text(&twice));
    }
}

#[test]
fn changes_are_reported_in_watch_order() {
    let before = j(r#"{"status":"todo","dueDate":"2024-01-01","dueAt":"9"}"#);
    let after = j(r#"{"dueAt":"9","dueDate":"2024-02-01","status":"completed"}"#);
    let changes = timeline_change_specs("tasks", &before, &after);
    let fields: Vec<String> = changes.iter().map(|c| c.get_str("field").unwrap().to_string()).collect();
    assert_eq!(fields, vec!["status".to_string(), "dueDate".to_string()]);
    assert_eq!(changes[0].get_str("timelineImportance"), Some("key"));
}
