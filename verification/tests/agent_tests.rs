use jason_os::agent::{
    action_preview_fields, agent_action_record, agent_preview_title, apply_agent_context,
    begin_action, cancel_action, execute_registered_tool, finish_action_failure,
    finish_action_success, json_object_span, plan_agent_action, stop_timer_minutes,
    timeline_analysis_is_read_only, validate_agent_input, ActionStart, ToolRun,
};
use jason_os::fingerprint::action_idempotency_key;
use jason_os::json::{JsonNumber, JsonValue};
use jason_os::records::value_to_record;

fn to_json(v: &serde_json::Value) -> JsonValue {
    match v {
        serde_json::Value::Null => JsonValue::Null,
        serde_json::Value::Bool(b) => JsonValue::Bool(*b),
        serde_json::Value::Number(n) => {
            if let Some(u) = n.as_u64() {
                JsonValue::Number(JsonNumber::PosInt(u))
            } else if let Some(i) = n.as_i64() {
                JsonValue::Number(JsonNumber::NegInt(i))
            } else {
                JsonValue::Number(JsonNumber::Float(n.to_string()))
            }
        }
        serde_json::Value::String(s) => JsonValue::Str(s.clone()),
        serde_json::Value::Array(a) => JsonValue::Array(a.iter().map(to_json).collect()),
        serde_json::Value::Object(m) => {
            JsonValue::Object(m.iter().map(|(k, v)| (k.clone(), to_json(v))).collect())
        }
    }
}

fn j(text: &str) -> JsonValue {
    to_json(&serde_json::from_str(text).unwrap())
}

fn record(id: &str, entity: &str, data: &str) -> JsonValue {
    value_to_record(id.into(), entity.into(), j(data), "1".into(), "1".into())
}

#[test]
fn agent_structured_output_accepts_json_inside_code_fences() {
    let reply = "```json\n{\"mode\":\"action\",\"toolName\":\"createMentalModel\"}\n```";
    assert!(serde_json::from_str::<serde_json::Value>(reply.trim()).is_err());
    let span = json_object_span(reply).unwrap();
    assert_eq!(span, "{\"mode\":\"action\",\"toolName\":\"createMentalModel\"}");
    let parsed: serde_json::Value = serde_json::from_str(&span).unwrap();
    assert_eq!(parsed["toolName"], "createMentalModel");
}

#[test]
fn agent_write_validation_requires_a_mental_model_name() {
    assert!(validate_agent_input("mentalModels", "CREATE", &j(r#"{"name":"芒格式决策树"}"#)).is_ok());
    assert!(validate_agent_input("mentalModels", "CREATE", &j(r#"{"corePrinciple":"逆向思考"}"#)).is_err());
}

#[test]
fn validation_errors_name_the_problem() {
    assert_eq!(
        validate_agent_input("tasks", "CREATE", &j("[]")).unwrap_err(),
        "AI Action 参数必须是结构化对象"
    );
    assert_eq!(
        validate_agent_input("tasks", "UPDATE", &j(r#"{"title":"x"}"#)).unwrap_err(),
        "更新操作缺少真实记录 ID"
    );
    assert_eq!(
        validate_agent_input("knowledge", "CREATE", &j(r#"{"title":"t","content":"  "}"#)).unwrap_err(),
        "缺少必要字段：content"
    );
    assert!(validate_agent_input("tasks", "START_TIMER", &j("{}")).is_ok());
}

#[test]
fn repeated_agent_inputs_have_the_same_idempotency_key() {
    let input = j(r#"{"name":"芒格式决策树","category":"决策模型"}"#);
    assert_eq!(
        action_idempotency_key("createMentalModel", &input),
        action_idempotency_key("createMentalModel", &input)
    );
}

#[test]
fn idempotency_keys_have_the_agent_prefix_and_sixteen_hex_digits() {
    let key = action_idempotency_key("createGoal", &j(r#"{"title":"A"}"#));
    assert!(key.starts_with("agent:"));
    assert_eq!(key.len(), "agent:".len() + 16);
    assert_ne!(key, action_idempotency_key("createGoal", &j(r#"{"title":"B"}"#)));
}

#[test]
fn timeline_analysis_mode_is_read_only() {
    assert!(timeline_analysis_is_read_only(&j(r#"{"analysisMode":"timeline_readonly"}"#)));
    assert!(!timeline_analysis_is_read_only(&j(r#"{"currentRoute":"timeline"}"#)));
}

#[test]
fn page_context_fills_missing_references() {
    let store = vec![
        record("goal-1", "goals", r#"{"title":"Goal"}"#),
        record("project-1", "projects", r#"{"title":"Project","goalId":"goal-1"}"#),
        record("task-1", "tasks", r#"{"title":"Focus task"}"#),
    ];
    let ctx = j(r#"{"currentProjectId":" project-1 ","currentGoalId":"goal-1","currentTaskId":"task-1"}"#);
    let task = apply_agent_context(&store, "tasks", "COMPLETE", &j(r#"{"title":"T"}"#), &ctx).unwrap();
    assert_eq!(task.get_str("projectId"), Some("project-1"));
    assert!(task.get("goalId").is_none());
    assert_eq!(task.get_str("id"), Some("task-1"));
    let timer = apply_agent_context(&store, "timeLogs", "START_TIMER", &j("{}"), &ctx).unwrap();
    assert_eq!(timer.get_str("title"), Some("Focus task"));
    assert_eq!(timer.get_str("taskId"), Some("task-1"));
    let bad = j(r#"{"currentGoalId":"nope"}"#);
    assert_eq!(
        apply_agent_context(&store, "projects", "CREATE", &j("{}"), &bad).unwrap_err(),
        "关联记录无效：nope 不是有效的 goals"
    );
    let model = apply_agent_context(&store, "mentalModels", "CREATE", &j(r#"{"corePrinciple":"P","useCases":"U"}"#), &j("{}"))
        .unwrap();
    assert_eq!(model.get_str("definition"), Some("P"));
    assert_eq!(model.get_str("trigger"), Some("U"));
    assert_eq!(model.get_str("application"), Some("U"));
}

#[test]
fn previews_show_labelled_fields_and_a_title() {
    let input = j(r#"{"name":"模型","steps":["a","b"],"goalId":"  ","other":"x"}"#);
    let fields = action_preview_fields(&input);
    assert_eq!(fields.len(), 2);
    assert_eq!(fields[0].get_str("label"), Some("名称"));
    assert_eq!(fields[1].get_str("value"), Some("[\"a\",\"b\"]"));
    assert_eq!(agent_preview_title("updateGoal", &j(r#"{"title":"Q3"}"#)), "准备更新：Q3");
    assert_eq!(agent_preview_title("startTimer", &j("{}")), "准备开始计时：新记录");
}

#[test]
fn proposed_actions_are_planned_and_recorded() {
    let store = Vec::new();
    let plan = j(r#"{"toolName":"createMentalModel","intent":"SAVE_MENTAL_MODEL","input":{"name":"逆向思考"}}"#);
    let planned = plan_agent_action(&store, &plan, &j("{}")).unwrap();
    assert_eq!(planned.entity, "mentalModels");
    assert!(planned.requires_confirmation);
    let action = agent_action_record("a-1", &plan, &planned, &j("{}"), "5");
    assert_eq!(action.get_str("status"), Some("CONFIRM_REQUIRED"));
    assert_eq!(action.get_str("previewTitle"), Some("准备创建：逆向思考"));
    assert_eq!(action.get_str("intent"), Some("SAVE_MENTAL_MODEL"));
    assert_eq!(
        plan_agent_action(&store, &j(r#"{"toolName":"deleteProject"}"#), &j("{}")).unwrap_err(),
        "不允许执行未注册 Tool：deleteProject"
    );
    assert_eq!(plan_agent_action(&store, &j("{}"), &j("{}")).unwrap_err(), "AI 没有返回可执行 Tool");
}

#[test]
fn confirmed_actions_become_records_to_save() {
    let store = vec![record("g", "goals", r#"{"title":"Old","note":"kept"}"#)];
    let update = j(r#"{"toolName":"updateGoal","actionId":"a1","input":{"id":"g","title":"New"}}"#);
    match execute_registered_tool(&store, &update, "9").unwrap() {
        ToolRun::Save(entity, data) => {
            assert_eq!(entity, "goals");
            assert_eq!(data.get_str("title"), Some("New"));
            assert_eq!(data.get_str("note"), Some("kept"));
            assert_eq!(data.get_str("evidenceLevel"), Some("AI_CONFIRMED"));
        }
        ToolRun::StopRunningTimer => panic!("an update saves a record"),
    }
    let start = j(r#"{"toolName":"startTimer","input":{}}"#);
    match execute_registered_tool(&store, &start, "9").unwrap() {
        ToolRun::Save(entity, data) => {
            assert_eq!(entity, "timeLogs");
            assert_eq!(data.get_str("title"), Some("专注工作"));
            assert_eq!(data.get_str("startAt"), Some("9"));
        }
        ToolRun::StopRunningTimer => panic!("starting saves a record"),
    }
    assert!(matches!(
        execute_registered_tool(&store, &j(r#"{"toolName":"stopTimer","input":{}}"#), "9").unwrap(),
        ToolRun::StopRunningTimer
    ));
    let complete = j(r#"{"toolName":"completeTask","input":{"id":"g"}}"#);
    assert_eq!(execute_registered_tool(&store, &complete, "9").unwrap_err(), "记录不是任务");
    assert_eq!(execute_registered_tool(&store, &j("{}"), "9").unwrap_err(), "Action 缺少 Tool");
}

#[test]
fn timers_stop_after_at_least_one_minute() {
    assert_eq!(stop_timer_minutes(&j(r#"{"startAt":"0"}"#), "600000"), 10);
    assert_eq!(stop_timer_minutes(&j(r#"{"startAt":"0"}"#), "1000"), 1);
    assert_eq!(stop_timer_minutes(&j("{}"), "600000"), 1);
}

#[test]
fn action_lifecycle_prevents_repeats_and_late_cancels() {
    let action = j(r#"{"entity":"agentActions","status":"CONFIRM_REQUIRED","id":"a"}"#);
    let running = match begin_action(action.duplicate()).unwrap() {
        ActionStart::Execute(a) => a,
        ActionStart::Duplicate(_) => panic!("a fresh action runs"),
    };
    assert_eq!(running.get_str("status"), Some("EXECUTING"));
    let done = finish_action_success(running.duplicate(), &j(r#"{"id":"rec"}"#), "7", 3).unwrap();
    assert_eq!(done.get_str("entityId"), Some("rec"));
    match begin_action(done.duplicate()).unwrap() {
        ActionStart::Duplicate(reply) => assert_eq!(reply.bool_of("duplicate"), Some(true)),
        ActionStart::Execute(_) => panic!("a succeeded action is not run again"),
    }
    assert_eq!(cancel_action(done, "8").unwrap_err(), "已执行成功的 Action 不能取消");
    let cancelled = cancel_action(action, "8").unwrap();
    assert_eq!(begin_action(cancelled).unwrap_err(), "该 Action 已取消");
    let (failed, msg) = finish_action_failure(running, "boom", "9", 1).unwrap();
    assert_eq!(failed.get_str("status"), Some("FAILED"));
    assert_eq!(msg, "执行失败：boom。没有写入成功。");
}
