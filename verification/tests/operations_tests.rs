use jason_os::json::{JsonNumber, JsonValue};
use jason_os::agent::checked_timer_minutes;
use jason_os::clock::checked_timestamp_after_days;
use jason_os::operations::{
    export_content, list_scope,
    archived_data, created_at_for, ensure_single_running_timer, filter_kinds, fts_query,
    item_columns, keyed_timeline_changes, like_pattern, list_limit, observation_id,
    observation_metrics, other_end, prepare_save, related_view, relation_request, restored_data,
    save_target, stored_item_id, timeline_events_to_write, title_body,
};

fn to_json(v: &serde_json::Value) -> JsonValue {
    match v {
        serde_json::Value::Null => JsonValue::Null,
        serde_json::Value::Bool(b) => JsonValue::Bool(*b),
        serde_json::Value::Number(n) => {
            if let Some(u) = n.as_u64() {
                JsonValue::Number(JsonNumber::PosInt(u))
            } else if let Some(i) = n.as_i64() {
                JsonValue::Number(JsonNumber::NegInt(i))
            } else {
                JsonValue::Number(JsonNumber::Float(n.to_string()))
            }
        }
        serde_json::Value::String(s) => JsonValue::Str(s.clone()),
        serde_json::Value::Array(a) => JsonValue::Array(a.iter().map(to_json).collect()),
        serde_json::Value::Object(m) => {
            JsonValue::Object(m.iter().map(|(k, v)| (k.clone(), to_json(v))).collect())
        }
    }
}

fn j(text: &str) -> JsonValue {
    to_json(&serde_json::from_str(text).unwrap())
}

#[test]
fn only_declared_entities_can_be_saved() {
    assert_eq!(save_target("unknown", &j("{}")).err().as_deref(), Some("Unknown entity"));
    assert_eq!(
        save_target("timelineEvents", &j("{}")).err().as_deref(),
        Some("时间线事件只能由系统生成，不能手动创建或修改")
    );
    assert_eq!(save_target("goals", &j(r#"{"id":"goal-1"}"#)).unwrap(), Some("goal-1".to_string()));
    assert_eq!(save_target("goals", &j(r#"{"id":""}"#)).unwrap(), None);
    assert_eq!(save_target("goals", &j(r#"{"id":5}"#)).unwrap(), None);
}

#[test]
fn a_saved_record_keeps_its_first_creation_time() {
    let stored = j(r#"{"createdAt":"10"}"#);
    let data = j(r#"{"createdAt":"20"}"#);
    assert_eq!(created_at_for(Some(&stored), &data, "30"), "10");
    assert_eq!(created_at_for(None, &data, "30"), "20");
    assert_eq!(created_at_for(None, &j("{}"), "30"), "30");
}

#[test]
fn only_one_timer_runs_at_a_time() {
    let running = j(r#"{"entity":"timeLogs","id":"t1","isRunning":true}"#);
    let stopped = j(r#"{"entity":"timeLogs","id":"t2","isRunning":false}"#);
    let start = j(r#"{"isRunning":true}"#);
    let recs = vec![running, stopped];
    assert_eq!(
        ensure_single_running_timer(&recs, "timeLogs", "t3", &start).err().as_deref(),
        Some("全局已有正在运行的计时器")
    );
    assert!(ensure_single_running_timer(&recs, "timeLogs", "t1", &start).is_ok());
    assert!(ensure_single_running_timer(&recs, "timeLogs", "t3", &j("{}")).is_ok());
    assert!(ensure_single_running_timer(&recs, "tasks", "t3", &start).is_ok());
}

#[test]
fn a_save_is_checked_and_completed() {
    let goal = j(r#"{"entity":"goals","id":"goal-1","title":"Ship"}"#);
    let recs = vec![goal];
    let data = j(r#"{"title":"Plan","goalId":"goal-1"}"#);
    let (saved, created) =
        prepare_save(&recs, &recs, "projects", "project-1", &data, None, "100").unwrap();
    assert_eq!(created, "100");
    assert_eq!(saved.get_str("goalId"), Some("goal-1"));
    assert_eq!(saved.get_str("title"), Some("Plan"));
    let bad = j(r#"{"title":"Plan","goalId":"missing"}"#);
    assert!(prepare_save(&recs, &recs, "projects", "project-1", &bad, None, "100").is_err());
}

#[test]
fn records_are_stored_with_a_title_and_their_json() {
    let (title, body) = title_body(&j(r#"{"name":"Model","title":"  "}"#));
    assert_eq!(title, "Model");
    assert_eq!(body, r#"{"name":"Model","title":"  "}"#);
}

#[test]
fn restoring_undoes_archiving() {
    let data = j(r#"{"title":"Note"}"#);
    let archived = archived_data(data, "55");
    assert_eq!(archived.get_str("archivedAt"), Some("55"));
    let restored = restored_data(archived);
    assert_eq!(jason_os::json::to_json_text(&restored), r#"{"title":"Note"}"#);
    let deleted = j(r#"{"title":"Note","deletedAt":"9"}"#);
    assert!(restored_data(deleted).get("deletedAt").is_none());
}

#[test]
fn relations_join_two_existing_records() {
    assert_eq!(relation_request("a", "a", true, true).err().as_deref(), Some("不能关联记录自身"));
    assert_eq!(relation_request("a", "b", true, false).err().as_deref(), Some("关联记录不存在"));
    assert!(relation_request("a", "b", true, true).is_ok());
    assert_eq!(other_end("a", "b", "a"), "b");
    assert_eq!(other_end("a", "b", "b"), "a");
    let out = related_view(j(r#"{"id":"b"}"#), "supports", "a", "a");
    assert_eq!(out.get_str("relationDirection"), Some("outgoing"));
    assert_eq!(out.get_str("relationType"), Some("supports"));
    let inc = related_view(j(r#"{"id":"a"}"#), "supports", "a", "b");
    assert_eq!(inc.get_str("relationDirection"), Some("incoming"));
}

#[test]
fn search_text_becomes_prefix_terms() {
    assert_eq!(fts_query("  low noise  "), r#""low"* "noise"*"#);
    assert_eq!(fts_query(r#"say "hi" (now):*"#), r#""say"* "hi"* "now"*"#);
    assert_eq!(fts_query(r#"a " b"#), r#""a"* "b"*"#);
    assert_eq!(fts_query("**"), r#"""*"#);
    assert_eq!(fts_query("   "), "");
    assert_eq!(like_pattern("pet"), "%pet%");
}

#[test]
fn search_results_can_be_limited_to_kinds() {
    let rs = vec![
        j(r#"{"entity":"goals","id":"1"}"#),
        j(r#"{"entity":"tasks","id":"2"}"#),
        j(r#"{"id":"3"}"#),
        j(r#"{"entity":"goals","id":"4"}"#),
    ];
    let kinds = vec!["goals".to_string()];
    let out = filter_kinds(rs, &kinds);
    let ids: Vec<&str> = out.iter().map(|r| r.get_str("id").unwrap()).collect();
    assert_eq!(ids, vec!["1", "4"]);
    let all = filter_kinds(vec![j(r#"{"id":"3"}"#)], &[]);
    assert_eq!(all.len(), 1);
}

#[test]
fn listing_limits_stay_in_range() {
    assert_eq!(list_limit(None), 80);
    assert_eq!(list_limit(Some(0)), 1);
    assert_eq!(list_limit(Some(500)), 200);
    assert_eq!(list_limit(Some(30)), 30);
}

#[test]
fn timeline_events_are_written_once() {
    let before = j(r#"{"title":"Task","status":"todo"}"#);
    let after = j(r#"{"title":"Task","status":"completed","goalId":"g1"}"#);
    let changes = keyed_timeline_changes("tasks", "task-1", Some(&before), &after);
    assert_eq!(changes.len(), 1);
    assert!(changes[0].1.starts_with("timeline:"));
    let mut known = Vec::new();
    let first = timeline_events_to_write("tasks", "task-1", &changes, &after, "7", &mut known);
    assert_eq!(first.len(), 1);
    assert_eq!(first[0].get_str("taskId"), Some("task-1"));
    assert_eq!(first[0].get_str("goalId"), Some("g1"));
    assert_eq!(first[0].get_str("occurredAt"), Some("7"));
    let second = timeline_events_to_write("tasks", "task-1", &changes, &after, "8", &mut known);
    assert!(second.is_empty());
    assert_eq!(known.len(), 1);
    assert!(keyed_timeline_changes("tasks", "task-1", None, &after).is_empty());
    assert!(keyed_timeline_changes("timelineEvents", "e", Some(&before), &after).is_empty());
}

#[test]
fn captured_items_are_stored_by_column() {
    let canonical = j(
        r#"{"platformCode":" douyin ","externalId":"123","title":"T","metrics":{"views":10,"likes":"x"}}"#,
    );
    let cols = item_columns(&canonical);
    assert_eq!(cols.len(), 11);
    assert_eq!(cols[0], "douyin");
    assert_eq!(cols[1], "123");
    assert_eq!(cols[3], "T");
    assert_eq!(cols[10], "");
    assert_eq!(observation_metrics(&canonical), vec![10, 0, 0, 0, 0, 0]);
    assert_eq!(observation_metrics(&j("{}")), vec![0, 0, 0, 0, 0, 0]);
    assert_eq!(observation_id("item-1", "100"), "observation-item-1-100");
    assert_eq!(stored_item_id(Some("a".into()), Some("b".into()), "c"), "a");
    assert_eq!(stored_item_id(None, Some("b".into()), "c"), "b");
    assert_eq!(stored_item_id(None, None, "c"), "c");
}

#[test]
fn listings_name_a_declared_kind_or_all() {
    assert_eq!(list_scope("all"), Ok(true));
    assert_eq!(list_scope("tasks"), Ok(false));
    assert_eq!(list_scope("nope").err().as_deref(), Some("Unknown entity"));
}

#[test]
fn exports_write_json_markdown_and_csv() {
    let recs = vec![j(r#"{"entity":"goals","id":"g1","title":"Say \"hi\""}"#)];
    let json = export_content("json", vec![j(r#"{"id":"g1"}"#)], "99").unwrap();
    let doc: serde_json::Value =
        serde_json::from_str(r#"{"version":1,"exportedAt":"99","records":[{"id":"g1"}]}"#).unwrap();
    let expected = serde_json::to_string_pretty(&doc).unwrap();
    assert_eq!(json, expected);
    assert_eq!(
        export_content("json", vec![], "5").unwrap(),
        "{\n  \"exportedAt\": \"5\",\n  \"records\": [],\n  \"version\": 1\n}"
    );
    let md = export_content("markdown", vec![j(r#"{"id":"a"}"#), j(r#"{"entity":"goals","title":"T"}"#)], "1")
        .unwrap();
    assert_eq!(
        md,
        "## record · Untitled\n\n{\n  \"id\": \"a\"\n}\n\n## goals · T\n\n{\n  \"entity\": \"goals\",\n  \"title\": \"T\"\n}\n"
    );
    let csv = export_content("csv", recs, "1").unwrap();
    let source: serde_json::Value =
        serde_json::from_str(r#"{"entity":"goals","id":"g1","title":"Say \"hi\""}"#).unwrap();
    let expected_csv = format!(
        "id,entity,title,createdAt,updatedAt,data\n\"g1\",\"goals\",\"{}\",\"\",\"\",\"{}\"\n",
        "Say \"hi\"".replace('"', "\"\""),
        serde_json::to_string(&source).unwrap().replace('"', "\"\"")
    );
    assert_eq!(csv, expected_csv);
    assert_eq!(export_content("pdf", vec![], "1").err().as_deref(), Some("Unsupported export format"));
}

#[test]
fn arithmetic_that_would_overflow_is_reported() {
    let running = j(r#"{"startAt":"60000"}"#);
    assert_eq!(checked_timer_minutes(&running, "240000"), Some(3));
    assert_eq!(checked_timer_minutes(&running, "60001"), Some(1));
    let far = j(r#"{"startAt":"-9223372036854775808"}"#);
    assert_eq!(checked_timer_minutes(&far, "9223372036854775807"), None);
    assert_eq!(checked_timestamp_after_days("1000", 1).as_deref(), Some("86401000"));
    assert_eq!(checked_timestamp_after_days("9223372036854775807", 1), None);
}
