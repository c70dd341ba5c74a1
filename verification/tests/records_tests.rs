use jason_os::json::{JsonNumber, JsonValue};
use jason_os::records::{
    cascade_context, ensure_external_source_capacity, normalize_record, record_by_id, record_title,
    relation_links, relationship_integrity, split_ids, stop_timer_data, value_to_record,
};

fn to_json(v: &serde_json::Value) -> JsonValue {
    match v {
        serde_json::Value::Null => JsonValue::Null,
        serde_json::Value::Bool(b) => JsonValue::Bool(*b),
        serde_json::Value::Number(n) => {
            if let Some(u) = n.as_u64() {
                JsonValue::Number(JsonNumber::PosInt(u))
            } else if let Some(i) = n.as_i64() {
                JsonValue::Number(JsonNumber::NegInt(i))
            } else {
                JsonValue::Number(JsonNumber::Float(n.to_string()))
            }
        }
        serde_json::Value::String(s) => JsonValue::Str(s.clone()),
        serde_json::Value::Array(a) => JsonValue::Array(a.iter().map(to_json).collect()),
        serde_json::Value::Object(m) => {
            JsonValue::Object(m.iter().map(|(k, v)| (k.clone(), to_json(v))).collect())
        }
    }
}

fn j(text: &str) -> JsonValue {
    to_json(&serde_json::from_str(text).unwrap())
}

fn text(v: &JsonValue, key: &str) -> Option<String> {
    v.get_str(key).map(str::to_string)
}

/// Normalizes strictly against the stored records and stores the result.
fn put(store: &mut Vec<JsonValue>, entity: &str, id: &str, data: &str) {
    let normalized = normalize_record(store, entity, &j(data), true).unwrap();
    let record = value_to_record(id.into(), entity.into(), normalized, "1".into(), "1".into());
    store.retain(|r| r.get_str("id") != Some(id));
    store.push(record);
}

fn seed_work_chain(store: &mut Vec<JsonValue>) {
    put(store, "goals", "goal-a", r#"{"title":"Goal A"}"#);
    put(store, "goals", "goal-b", r#"{"title":"Goal B"}"#);
    put(store, "projects", "project-b", r#"{"title":"Project B","goalId":"goal-a"}"#);
    put(store, "tasks", "task-c", r#"{"title":"Task C","projectId":"project-b"}"#);
}

#[test]
fn external_decisions_validate_signal_and_opportunity_relations() {
    let mut store = Vec::new();
    put(&mut store, "signals", "signal-1", r#"{"title":"Signal","status":"observing"}"#);
    put(&mut store, "opportunities", "opportunity-1", r#"{"title":"Opportunity","status":"draft"}"#);
    let decision = normalize_record(
        &store,
        "decisions",
        &j(r#"{"title":"Decision","signalIds":["signal-1"],"opportunityId":"opportunity-1"}"#),
        true,
    )
    .unwrap();
    match decision.get("signalIds") {
        Some(JsonValue::Array(a)) => {
            assert_eq!(a.len(), 1);
            assert_eq!(a[0].as_str(), Some("signal-1"));
        }
        _ => panic!("signalIds must be a list"),
    }
    assert_eq!(text(&decision, "opportunityId").as_deref(), Some("opportunity-1"));
    assert!(normalize_record(
        &store,
        "decisions",
        &j(r#"{"title":"Bad decision","signalIds":["missing"]}"#),
        true
    )
    .is_err());
}

#[test]
fn causal_relation_ids_must_reference_the_expected_entity() {
    let mut store = Vec::new();
    put(&mut store, "decisions", "decision-1", r#"{"title":"Decision"}"#);
    let task = normalize_record(&store, "tasks", &j(r#"{"title":"Task","decisionId":"decision-1"}"#), true)
        .unwrap();
    assert_eq!(text(&task, "decisionId").as_deref(), Some("decision-1"));
    assert!(normalize_record(&store, "tasks", &j(r#"{"title":"Task","decisionId":"missing"}"#), true).is_err());
}

#[test]
fn causal_context_is_inherited_and_conflicts_are_rejected() {
    let mut store = Vec::new();
    put(&mut store, "goals", "goal-1", r#"{"title":"Goal 1"}"#);
    put(&mut store, "goals", "goal-2", r#"{"title":"Goal 2"}"#);
    put(&mut store, "projects", "project-1", r#"{"title":"Project 1","goalId":"goal-1"}"#);
    put(&mut store, "projects", "project-2", r#"{"title":"Project 2","goalId":"goal-2"}"#);
    put(&mut store, "decisions", "decision-1", r#"{"title":"Decision","projectId":"project-1"}"#);
    let task = normalize_record(&store, "tasks", &j(r#"{"title":"Task","decisionId":"decision-1"}"#), true)
        .unwrap();
    assert_eq!(text(&task, "projectId").as_deref(), Some("project-1"));
    assert_eq!(text(&task, "goalId").as_deref(), Some("goal-1"));
    assert!(normalize_record(
        &store,
        "tasks",
        &j(r#"{"title":"Wrong Task","projectId":"project-2","decisionId":"decision-1"}"#),
        true
    )
    .is_err());

    put(&mut store, "tasks", "task-1", r#"{"title":"Task","projectId":"project-1"}"#);
    put(&mut store, "results", "result-1", r#"{"title":"Result","taskId":"task-1"}"#);
    put(&mut store, "reviews", "review-1", r#"{"title":"Review","resultId":"result-1"}"#);
    let review = record_by_id(&store, "review-1").unwrap();
    assert_eq!(text(review, "taskId").as_deref(), Some("task-1"));
    assert_eq!(text(review, "projectId").as_deref(), Some("project-1"));
    assert_eq!(text(review, "goalId").as_deref(), Some("goal-1"));

    let insight = normalize_record(
        &store,
        "insights",
        &j(r#"{"statement":"Insight","reviewId":"review-1"}"#),
        true,
    )
    .unwrap();
    assert_eq!(text(&insight, "taskId").as_deref(), Some("task-1"));
    assert_eq!(text(&insight, "projectId").as_deref(), Some("project-1"));
    assert_eq!(text(&insight, "goalId").as_deref(), Some("goal-1"));
}

#[test]
fn relationship_test_1_goal_project_task_chain() {
    let mut store = Vec::new();
    seed_work_chain(&mut store);
    let task = record_by_id(&store, "task-c").unwrap();
    assert_eq!(text(task, "projectId").as_deref(), Some("project-b"));
    assert_eq!(text(task, "goalId").as_deref(), Some("goal-a"));
}

#[test]
fn relationship_test_2_project_created_from_goal() {
    let mut store = Vec::new();
    put(&mut store, "goals", "goal-a", r#"{"title":"A"}"#);
    put(&mut store, "projects", "project-b", r#"{"title":"B","goalId":"goal-a"}"#);
    assert_eq!(text(record_by_id(&store, "project-b").unwrap(), "goalId").as_deref(), Some("goal-a"));
}

#[test]
fn relationship_test_3_task_created_from_project_inherits_goal() {
    let mut store = Vec::new();
    seed_work_chain(&mut store);
    let task = record_by_id(&store, "task-c").unwrap();
    assert_eq!(text(task, "goalId").as_deref(), Some("goal-a"));
}

#[test]
fn relationship_test_4_timer_from_task_inherits_project_and_goal() {
    let mut store = Vec::new();
    seed_work_chain(&mut store);
    let timer = normalize_record(&store, "timeLogs", &j(r#"{"taskId":"task-c","isRunning":true}"#), true)
        .unwrap();
    assert_eq!(text(&timer, "taskId").as_deref(), Some("task-c"));
    assert_eq!(text(&timer, "projectId").as_deref(), Some("project-b"));
    assert_eq!(text(&timer, "goalId").as_deref(), Some("goal-a"));
}

#[test]
fn relationship_test_5_timer_from_project_inherits_goal() {
    let mut store = Vec::new();
    seed_work_chain(&mut store);
    let timer = normalize_record(&store, "timeLogs", &j(r#"{"projectId":"project-b"}"#), true).unwrap();
    assert_eq!(text(&timer, "projectId").as_deref(), Some("project-b"));
    assert_eq!(text(&timer, "goalId").as_deref(), Some("goal-a"));
}

#[test]
fn relationship_test_6_timer_from_goal_is_valid() {
    let mut store = Vec::new();
    put(&mut store, "goals", "goal-a", r#"{"title":"A"}"#);
    let timer = normalize_record(&store, "timeLogs", &j(r#"{"goalId":"goal-a"}"#), true).unwrap();
    assert_eq!(text(&timer, "goalId").as_deref(), Some("goal-a"));
}

#[test]
fn relationship_test_7_independent_timer_is_allowed() {
    let store = Vec::new();
    let timer = normalize_record(&store, "timeLogs", &j(r#"{"title":"Independent"}"#), true).unwrap();
    assert!(timer.get("taskId").is_none());
    assert!(timer.get("projectId").is_none());
    assert!(timer.get("goalId").is_none());
}

#[test]
fn relationship_test_8_project_goal_change_cascades_to_tasks() {
    let mut store = Vec::new();
    seed_work_chain(&mut store);
    put(&mut store, "projects", "project-b", r#"{"title":"B","goalId":"goal-b"}"#);
    let rows: Vec<JsonValue> = store.iter().map(|r| r.duplicate()).collect();
    for record in cascade_context(&rows, "projects", "project-b", "2") {
        let id = record.get_str("id").unwrap().to_string();
        for stored in store.iter_mut() {
            if stored.get_str("id") == Some(id.as_str()) {
                *stored = record.duplicate();
            }
        }
    }
    assert_eq!(text(record_by_id(&store, "task-c").unwrap(), "goalId").as_deref(), Some("goal-b"));
}

#[test]
fn relationship_test_9_goal_aggregates_project_task_and_time() {
    let mut store = Vec::new();
    seed_work_chain(&mut store);
    put(&mut store, "timeLogs", "time-1", r#"{"taskId":"task-c","durationMinutes":30}"#);
    assert_eq!(store.iter().filter(|r| r.get_str("goalId") == Some("goal-a")).count(), 3);
}

#[test]
fn relationship_test_10_project_aggregates_tasks_and_time() {
    let mut store = Vec::new();
    seed_work_chain(&mut store);
    put(&mut store, "timeLogs", "time-1", r#"{"taskId":"task-c","durationMinutes":30}"#);
    assert_eq!(store.iter().filter(|r| r.get_str("projectId") == Some("project-b")).count(), 2);
}

#[test]
fn relationship_test_11_task_aggregates_time_and_result() {
    let mut store = Vec::new();
    seed_work_chain(&mut store);
    put(&mut store, "timeLogs", "time-1", r#"{"taskId":"task-c"}"#);
    put(&mut store, "results", "result-1", r#"{"taskId":"task-c","title":"Result"}"#);
    assert_eq!(store.iter().filter(|r| r.get_str("taskId") == Some("task-c")).count(), 2);
}

#[test]
fn relationship_test_12_mismatched_task_goal_is_auto_corrected() {
    let mut store = Vec::new();
    seed_work_chain(&mut store);
    let task = normalize_record(&store, "tasks", &j(r#"{"projectId":"project-b","goalId":"goal-b"}"#), true)
        .unwrap();
    assert_eq!(text(&task, "goalId").as_deref(), Some("goal-a"));
}

#[test]
fn relation_fields_are_materialized() {
    let store = vec![
        value_to_record("project-1".into(), "projects".into(), j("{}"), "1".into(), "1".into()),
        value_to_record("task-1".into(), "tasks".into(), j("{}"), "1".into(), "1".into()),
    ];
    let links = relation_links(&store, "task-1", &j(r#"{"projectId":"project-1"}"#));
    assert_eq!(links, vec![("field:projectId".to_string(), "project-1".to_string())]);
}

#[test]
fn relation_links_skip_missing_and_self_targets() {
    let store = vec![
        value_to_record("a".into(), "tasks".into(), j("{}"), "1".into(), "1".into()),
        value_to_record("b".into(), "tasks".into(), j("{}"), "1".into(), "1".into()),
    ];
    let links = relation_links(&store, "a", &j(r#"{"dependencyIds":" a , b ,missing","id":"b","sourceId":"b"}"#));
    assert_eq!(links, vec![("field:dependencyIds".to_string(), "b".to_string())]);
}

#[test]
fn a_title_can_be_derived_from_a_record() {
    assert_eq!(record_title(&j(r#"{"name": "First principle"}"#)), "First principle");
}

#[test]
fn titles_skip_blank_fields() {
    assert_eq!(record_title(&j(r#"{"title":"  ","statement":"S"}"#)), "S");
    assert_eq!(record_title(&j(r#"{"title":3}"#)), "");
}

#[test]
fn external_source_capacity_limits_new_and_reactivated_sources() {
    let mut store = Vec::new();
    for index in 0..20 {
        put(
            &mut store,
            "externalSources",
            &format!("source-{index}"),
            &format!(r#"{{"name":"Source {index}","status":"active"}}"#),
        );
    }
    assert!(ensure_external_source_capacity(&store, "externalSources", "source-new", &j(r#"{"name":"New","status":"active"}"#)).is_err());
    assert!(ensure_external_source_capacity(&store, "externalSources", "source-0", &j(r#"{"name":"Existing","status":"active"}"#)).is_ok());
    put(&mut store, "externalSources", "source-paused", r#"{"name":"Paused","status":"paused"}"#);
    assert!(ensure_external_source_capacity(&store, "externalSources", "source-paused", &j(r#"{"name":"Paused","status":"active"}"#)).is_err());
}

#[test]
fn lenient_normalization_drops_what_strict_refuses() {
    let store = Vec::new();
    let lenient = normalize_record(&store, "tasks", &j(r#"{"title":"T","projectId":"nope","goalIds":"x, ,y"}"#), false)
        .unwrap();
    assert!(lenient.get("projectId").is_none());
    match lenient.get("goalIds") {
        Some(JsonValue::Array(a)) => assert!(a.is_empty()),
        _ => panic!("goalIds must become a list"),
    }
    let err = normalize_record(&store, "tasks", &j(r#"{"title":"T","projectId":"nope"}"#), true).unwrap_err();
    assert_eq!(err, "关联记录无效：nope 不是有效的 projects");
}

#[test]
fn strict_normalization_reports_the_first_failing_key_in_key_order() {
    let store = Vec::new();
    let err = normalize_record(&store, "notes", &j(r#"{"taskId":"t-missing","goalId":"g-missing"}"#), true).unwrap_err();
    assert_eq!(err, "关联记录无效：g-missing 不是有效的 goals");
}

#[test]
fn time_log_status_follows_running_flag() {
    let store = Vec::new();
    let running = normalize_record(&store, "timeLogs", &j(r#"{"isRunning":true}"#), false).unwrap();
    assert_eq!(text(&running, "status").as_deref(), Some("running"));
    let stopped = normalize_record(&store, "timeLogs", &j(r#"{"isRunning":"yes"}"#), false).unwrap();
    assert_eq!(text(&stopped, "status").as_deref(), Some("completed"));
}

#[test]
fn integrity_report_lists_context_fields_that_would_change() {
    let mut store = Vec::new();
    seed_work_chain(&mut store);
    let clean = relationship_integrity(&store);
    assert_eq!(clean.bool_of("ok"), Some(true));
    store.push(value_to_record("t2".into(), "tasks".into(), j(r#"{"projectId":"project-b","goalId":"goal-b"}"#), "1".into(), "1".into()));
    let report = relationship_integrity(&store);
    assert_eq!(report.bool_of("ok"), Some(false));
    assert_eq!(report.i64_of("issueCount"), Some(1));
}

#[test]
fn comma_lists_are_split_and_trimmed() {
    assert_eq!(split_ids(" a, b ,,c "), vec!["a", "b", "c"]);
    assert_eq!(split_ids(""), Vec::<String>::new());
}

#[test]
fn stopping_a_timer_marks_it_completed() {
    let stopped = stop_timer_data("timeLogs", j(r#"{"isRunning":true}"#), "100".into(), 5).unwrap();
    assert_eq!(text(&stopped, "status").as_deref(), Some("completed"));
    assert_eq!(stopped.i64_of("durationMinutes"), Some(5));
    assert_eq!(stopped.bool_of("isRunning"), Some(false));
    assert_eq!(stop_timer_data("tasks", j("{}"), "1".into(), 1).unwrap_err(), "Record is not a time log");
    assert_eq!(stop_timer_data("timeLogs", j("[]"), "1".into(), 1).unwrap_err(), "Invalid timer data");
}

#[test]
fn every_member_gives_its_links() {
    let store = vec![
        value_to_record("p".into(), "projects".into(), j("{}"), "1".into(), "1".into()),
        value_to_record("g".into(), "goals".into(), j("{}"), "1".into(), "1".into()),
        value_to_record("t".into(), "tasks".into(), j("{}"), "1".into(), "1".into()),
    ];
    let links = relation_links(&store, "t", &j(r#"{"goalId":" g ","projectId":"p","relatedIds":["g","gone"],"title":"p"}"#));
    assert_eq!(
        links,
        vec![
            ("field:goalId".to_string(), "g".to_string()),
            ("field:projectId".to_string(), "p".to_string()),
            ("field:relatedIds".to_string(), "g".to_string()),
        ]
    );
    assert!(relation_links(&store, "t", &j(r#"["p"]"#)).is_empty());
}
