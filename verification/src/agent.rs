//! The assistant's controlled actions: how a proposed tool call is completed
//! from the page the user is on, checked, previewed, and carried out.
use vstd::prelude::*;
use crate::text::{
    eq_str, concat, own, trim, trimmed, starts_with, starts_with_str, is_blank, chars_of,
    string_of_range, find, parse_i64, parse_i64_str,
};
use crate::json::{
    JsonValue, Json, field, field_str, field_id, as_text, with, jstr, empty_obj, is_obj, json_text,
    to_json_text, items_view, lemma_items_push, json_wf,
};
use crate::fingerprint::{action_key_of, action_idempotency_key};
use crate::catalog::{
    tool_of, agent_tool_metadata, required_fields_of, required_agent_fields, preview_label,
    preview_label_of,
};
use crate::records::{
    views, lookup, is_valid, invalid_msg, start, text_or_empty_of, record_by_id, valid_reference,
};

verus! {

// ---------------------------------------------------------------------------
// The page context.
/// `context_string`: the trimmed text under `key` of the page context, when not empty.
pub fn context_string(context: &JsonValue, key: &str) -> (r: Option<String>)
    ensures
        crate::records::opt_seq(r) == field_id(context@, key@),
{
    context.id_of(key)
}

pub open spec fn read_only_context(context: Json) -> bool {
    field_str(context, "analysisMode"@) == Some("timeline_readonly"@)
}

/// Whether the page asks for read-only timeline analysis.
pub fn timeline_analysis_is_read_only(context: &JsonValue) -> (r: bool)
    ensures
        r == read_only_context(context@),
{
    match context.get_str("analysisMode") {
        Some(m) => eq_str(m, "timeline_readonly"),
        None => false,
    }
}

// ---------------------------------------------------------------------------
// Checking a proposed input.
/// The first required field that holds no non-blank text.
pub open spec fn first_missing(j: Json, fields: Seq<Seq<char>>) -> Option<Seq<char>>
    decreases fields.len(),
{
    if fields.len() == 0 {
        None
    } else if trimmed(text_or_empty_of(j, fields[0])).len() == 0 {
        Some(fields[0])
    } else {
        first_missing(j, fields.drop_first())
    }
}

/// `validate_agent_input`: an input must be an object; updates and completions
/// need the id of a real record; creations need their required fields.
pub open spec fn validation_of(entity: Seq<char>, action_type: Seq<char>, input: Json) -> Result<
    (),
    Seq<char>,
> {
    if !is_obj(input) {
        Err("AI Action 参数必须是结构化对象"@)
    } else if (action_type == "UPDATE"@ || action_type == "COMPLETE"@) && text_or_empty_of(
        input,
        "id"@,
    ).len() == 0 {
        Err("更新操作缺少真实记录 ID"@)
    } else if action_type == "CREATE"@ {
        match first_missing(input, required_fields_of(entity)) {
            Some(f) => Err("缺少必要字段："@ + f),
            None => Ok(()),
        }
    } else {
        Ok(())
    }
}

fn text_of_or_empty(j: &JsonValue, k: &str) -> (r: String)
    ensures
        r@ == text_or_empty_of(j@, k@),
{
    match j.get_str(k) {
        Some(s) => own(s),
        None => String::new(),
    }
}

pub fn validate_agent_input(entity: &str, action_type: &str, input: &JsonValue) -> (r: Result<
    (),
    String,
>)
    ensures
        match r {
            Ok(()) => validation_of(entity@, action_type@, input@) == Ok::<(), Seq<char>>(()),
            Err(e) => validation_of(entity@, action_type@, input@) == Err::<(), Seq<char>>(e@),
        },
{
    if !input.is_object() {
        return Err(own("AI Action 参数必须是结构化对象"));
    }
    if (eq_str(action_type, "UPDATE") || eq_str(action_type, "COMPLETE")) && text_of_or_empty(
        input,
        "id",
    ).as_str().is_empty() {
        return Err(own("更新操作缺少真实记录 ID"));
    }
    if eq_str(action_type, "CREATE") {
        let fields = required_agent_fields(entity);
        let ghost fv = fields@.map_values(|s: &str| s@);
        let mut i: usize = 0;
        assert(fv.skip(0) =~= fv);
        while i < fields.len()
            invariant
                i <= fields@.len(),
                fv == fields@.map_values(|s: &str| s@),
                fv == required_fields_of(entity@),
                first_missing(input@, fv) == first_missing(input@, fv.skip(i as int)),
                is_obj(input@),
                action_type@ == "CREATE"@,
                !((action_type@ == "UPDATE"@ || action_type@ == "COMPLETE"@) && text_or_empty_of(
                    input@,
                    "id"@,
                ).len() == 0),
            decreases fields.len() - i,
        {
            proof {
                assert(fv.skip(i as int).drop_first() =~= fv.skip(i + 1));
                assert(fv.skip(i as int)[0] == fields@[i as int]@);
            }
            let t = text_of_or_empty(input, fields[i]);
            if is_blank(t.as_str()) {
                assert(first_missing(input@, fv.skip(i as int)) == Some(fields@[i as int]@));
                assert(validation_of(entity@, action_type@, input@) == Err::<(), Seq<char>>(
                    "缺少必要字段："@ + fields@[i as int]@,
                ));
                return Err(concat("缺少必要字段：", fields[i]));
            }
            i = i + 1;
        }
        assert(fv.skip(i as int).len() == 0);
    }
    Ok(())
}

// ---------------------------------------------------------------------------
// Completing an input from the page context.
pub open spec fn is_empty_text(j: Json, k: Seq<char>) -> bool {
    text_or_empty_of(j, k).len() == 0
}

/// An empty reference taken from the page context; the id must name a record
/// of `expected`.
pub open spec fn fill_checked(
    recs: Seq<Json>,
    j: Json,
    f: Seq<char>,
    c: Json,
    ckey: Seq<char>,
    expected: Seq<char>,
) -> Result<Json, Seq<char>> {
    if is_empty_text(j, f) {
        match field_id(c, ckey) {
            Some(id) => if is_valid(recs, id, expected) {
                Ok(with(j, f, jstr(id)))
            } else {
                Err(invalid_msg(id, expected))
            },
            None => Ok(j),
        }
    } else {
        Ok(j)
    }
}

/// An empty field taken from the page context as it is.
pub open spec fn fill_plain(j: Json, f: Seq<char>, c: Json, ckey: Seq<char>) -> Json {
    if is_empty_text(j, f) && field_id(c, ckey) is Some {
        with(j, f, jstr(field_id(c, ckey)->Some_0))
    } else {
        j
    }
}

pub open spec fn ctx_projects(recs: Seq<Json>, j: Json, entity: Seq<char>, c: Json) -> Result<
    Json,
    Seq<char>,
> {
    if entity == "projects"@ {
        fill_checked(recs, j, "goalId"@, c, "currentGoalId"@, "goals"@)
    } else {
        Ok(j)
    }
}

pub open spec fn complete_target(j: Json, action_type: Seq<char>, c: Json) -> Json {
    if action_type == "COMPLETE"@ && field(j, "id"@) is None && field_id(c, "currentTaskId"@) is Some {
        with(j, "id"@, jstr(field_id(c, "currentTaskId"@)->Some_0))
    } else {
        j
    }
}

pub open spec fn ctx_tasks(
    recs: Seq<Json>,
    j: Json,
    entity: Seq<char>,
    action_type: Seq<char>,
    c: Json,
) -> Result<Json, Seq<char>> {
    if entity == "tasks"@ {
        match fill_checked(recs, j, "projectId"@, c, "currentProjectId"@, "projects"@) {
            Err(e) => Err(e),
            Ok(j1) => {
                let r2 = if field(j1, "projectId"@) is None {
                    fill_checked(recs, j1, "goalId"@, c, "currentGoalId"@, "goals"@)
                } else {
                    Ok(j1)
                };
                match r2 {
                    Err(e) => Err(e),
                    Ok(j2) => Ok(complete_target(j2, action_type, c)),
                }
            },
        }
    } else {
        Ok(j)
    }
}

pub open spec fn ctx_external(j: Json, entity: Seq<char>, c: Json) -> Json {
    if entity == "externalSources"@ || entity == "opportunities"@ {
        fill_plain(fill_plain(j, "projectId"@, c, "currentProjectId"@), "goalId"@, c, "currentGoalId"@)
    } else {
        j
    }
}

/// A record's `title`, or its `name` when it has no `title` at all.
pub open spec fn title_or_name(r: Json) -> Option<Seq<char>> {
    match field(r, "title"@) {
        Some(v) => as_text(Some(v)),
        None => field_str(r, "name"@),
    }
}

pub open spec fn ctx_title(recs: Seq<Json>, c: Json, ckey: Seq<char>, expected: Seq<char>) -> Option<
    Seq<char>,
> {
    match field_id(c, ckey) {
        Some(id) => if is_valid(recs, id, expected) {
            title_or_name(lookup(recs, id)->Some_0)
        } else {
            None
        },
        None => None,
    }
}

/// A new time log is named after the task, project or goal on the page.
pub open spec fn context_title(recs: Seq<Json>, c: Json) -> Seq<char> {
    match ctx_title(recs, c, "currentTaskId"@, "tasks"@) {
        Some(t) => t,
        None => match ctx_title(recs, c, "currentProjectId"@, "projects"@) {
            Some(t) => t,
            None => match ctx_title(recs, c, "currentGoalId"@, "goals"@) {
                Some(t) => t,
                None => "专注工作"@,
            },
        },
    }
}

pub open spec fn ctx_timer_title(recs: Seq<Json>, j: Json, entity: Seq<char>, c: Json) -> Json {
    if entity == "timeLogs"@ && is_empty_text(j, "title"@) {
        with(j, "title"@, jstr(context_title(recs, c)))
    } else {
        j
    }
}

pub open spec fn ctx_work(recs: Seq<Json>, j: Json, entity: Seq<char>, c: Json) -> Result<
    Json,
    Seq<char>,
> {
    if entity == "timeLogs"@ || entity == "decisions"@ || entity == "reviews"@ {
        match fill_checked(recs, j, "taskId"@, c, "currentTaskId"@, "tasks"@) {
            Err(e) => Err(e),
            Ok(j1) => match fill_checked(recs, j1, "projectId"@, c, "currentProjectId"@, "projects"@) {
                Err(e) => Err(e),
                Ok(j2) => fill_checked(recs, j2, "goalId"@, c, "currentGoalId"@, "goals"@),
            },
        }
    } else {
        Ok(j)
    }
}

/// A legacy mental-model field left empty takes the text of its current name.
pub open spec fn legacy_fill(j: Json, legacy: Seq<char>, current: Seq<char>) -> Json {
    if is_empty_text(j, legacy) && field_str(j, current) is Some {
        with(j, legacy, jstr(field_str(j, current)->Some_0))
    } else {
        j
    }
}

pub open spec fn ctx_models(j: Json, entity: Seq<char>) -> Json {
    if entity == "mentalModels"@ {
        legacy_fill(
            legacy_fill(
                legacy_fill(
                    legacy_fill(legacy_fill(j, "definition"@, "corePrinciple"@), "trigger"@, "useCases"@),
                    "questions"@,
                    "keyQuestions"@,
                ),
                "method"@,
                "steps"@,
            ),
            "application"@,
            "useCases"@,
        )
    } else {
        j
    }
}

/// `apply_agent_context`: the input of a proposed action completed from the page context.
pub open spec fn agent_context_of(
    recs: Seq<Json>,
    entity: Seq<char>,
    action_type: Seq<char>,
    input: Json,
    c: Json,
) -> Result<Json, Seq<char>> {
    match ctx_projects(recs, start(input), entity, c) {
        Err(e) => Err(e),
        Ok(j1) => match ctx_tasks(recs, j1, entity, action_type, c) {
            Err(e) => Err(e),
            Ok(j2) => {
                let j3 = ctx_timer_title(recs, ctx_external(j2, entity, c), entity, c);
                match ctx_work(recs, j3, entity, c) {
                    Err(e) => Err(e),
                    Ok(j4) => Ok(ctx_models(j4, entity)),
                }
            },
        }
    }
}

/// `b` keeps every member of `a`, and every member of `a` that holds non-empty
/// text keeps its value.
pub open spec fn keeps_input(a: Json, b: Json) -> bool {
    &&& is_obj(b)
    &&& forall|k: Seq<char>| #[trigger] field(a, k) is Some ==> field(b, k) is Some
    &&& forall|k: Seq<char>|
        #![trigger field(a, k)]
        text_or_empty_of(a, k).len() > 0 ==> field(b, k) == field(a, k)
}

proof fn lemma_keeps_refl(j: Json)
    requires
        is_obj(j),
    ensures
        keeps_input(j, j),
{
}

proof fn lemma_keeps_trans(a: Json, b: Json, c: Json)
    requires
        keeps_input(a, b),
        keeps_input(b, c),
    ensures
        keeps_input(a, c),
{
    assert forall|k: Seq<char>| text_or_empty_of(a, k).len() > 0 implies #[trigger] field(c, k) == field(a, k) by {
        assert(field(b, k) == field(a, k));
        assert(text_or_empty_of(b, k) == text_or_empty_of(a, k));
    }
}

/// Setting a member that is missing or holds no text keeps the rest.
proof fn lemma_keeps_fill(j: Json, f: Seq<char>, v: Json)
    requires
        is_obj(j),
        field(j, f) is None || is_empty_text(j, f),
    ensures
        keeps_input(j, with(j, f, v)),
{
    let r = with(j, f, v);
    assert forall|k: Seq<char>| text_or_empty_of(j, k).len() > 0 implies #[trigger] field(r, k) == field(j, k) by {
        if k == f {
            assert(false);
        }
    }
}

proof fn lemma_keeps_fill_checked(recs: Seq<Json>, j: Json, f: Seq<char>, c: Json, ckey: Seq<char>, expected: Seq<char>)
    requires
        is_obj(j),
    ensures
        fill_checked(recs, j, f, c, ckey, expected) matches Ok(r) ==> keeps_input(j, r),
{
    lemma_keeps_refl(j);
    if is_empty_text(j, f) {
        if let Some(id) = field_id(c, ckey) {
            lemma_keeps_fill(j, f, jstr(id));
        }
    }
}

proof fn lemma_keeps_fill_plain(j: Json, f: Seq<char>, c: Json, ckey: Seq<char>)
    requires
        is_obj(j),
    ensures
        keeps_input(j, fill_plain(j, f, c, ckey)),
{
    lemma_keeps_refl(j);
    if is_empty_text(j, f) && field_id(c, ckey) is Some {
        lemma_keeps_fill(j, f, jstr(field_id(c, ckey)->Some_0));
    }
}

proof fn lemma_keeps_legacy(j: Json, legacy: Seq<char>, current: Seq<char>)
    requires
        is_obj(j),
    ensures
        keeps_input(j, legacy_fill(j, legacy, current)),
{
    lemma_keeps_refl(j);
    if is_empty_text(j, legacy) && field_str(j, current) is Some {
        lemma_keeps_fill(j, legacy, jstr(field_str(j, current)->Some_0));
    }
}

/// Completing an action's input from the page context only fills members that
/// are missing or hold no text: every member of the input stays, and every
/// member that holds text keeps it.
pub proof fn lemma_context_keeps_input(recs: Seq<Json>, entity: Seq<char>, action_type: Seq<char>, input: Json, c: Json)
    requires
        is_obj(input),
    ensures
        agent_context_of(recs, entity, action_type, input, c) matches Ok(r) ==> keeps_input(input, r),
{
    let j0 = start(input);
    assert(j0 == input);
    lemma_keeps_refl(j0);
    if let Ok(j1) = ctx_projects(recs, j0, entity, c) {
        if entity == "projects"@ {
            lemma_keeps_fill_checked(recs, j0, "goalId"@, c, "currentGoalId"@, "goals"@);
        }
        assert(keeps_input(j0, j1));
        if let Ok(j2) = ctx_tasks(recs, j1, entity, action_type, c) {
            if entity == "tasks"@ {
                lemma_keeps_fill_checked(recs, j1, "projectId"@, c, "currentProjectId"@, "projects"@);
                let ja = fill_checked(recs, j1, "projectId"@, c, "currentProjectId"@, "projects"@)->Ok_0;
                lemma_keeps_refl(ja);
                if field(ja, "projectId"@) is None {
                    lemma_keeps_fill_checked(recs, ja, "goalId"@, c, "currentGoalId"@, "goals"@);
                }
                let jb = if field(ja, "projectId"@) is None {
                    fill_checked(recs, ja, "goalId"@, c, "currentGoalId"@, "goals"@)->Ok_0
                } else {
                    ja
                };
                lemma_keeps_refl(jb);
                if action_type == "COMPLETE"@ && field(jb, "id"@) is None && field_id(c, "currentTaskId"@) is Some {
                    lemma_keeps_fill(jb, "id"@, jstr(field_id(c, "currentTaskId"@)->Some_0));
                }
                lemma_keeps_trans(j1, ja, jb);
                lemma_keeps_trans(j1, jb, j2);
            } else {
                lemma_keeps_refl(j1);
            }
            lemma_keeps_trans(j0, j1, j2);
            let je = ctx_external(j2, entity, c);
            lemma_keeps_refl(j2);
            if entity == "externalSources"@ || entity == "opportunities"@ {
                let jx = fill_plain(j2, "projectId"@, c, "currentProjectId"@);
                lemma_keeps_fill_plain(j2, "projectId"@, c, "currentProjectId"@);
                lemma_keeps_fill_plain(jx, "goalId"@, c, "currentGoalId"@);
                lemma_keeps_trans(j2, jx, je);
            }
            let j3 = ctx_timer_title(recs, je, entity, c);
            lemma_keeps_refl(je);
            if entity == "timeLogs"@ && is_empty_text(je, "title"@) {
                lemma_keeps_fill(je, "title"@, jstr(context_title(recs, c)));
            }
            lemma_keeps_trans(j0, j2, je);
            lemma_keeps_trans(j0, je, j3);
            if let Ok(j4) = ctx_work(recs, j3, entity, c) {
                lemma_keeps_refl(j3);
                if entity == "timeLogs"@ || entity == "decisions"@ || entity == "reviews"@ {
                    lemma_keeps_fill_checked(recs, j3, "taskId"@, c, "currentTaskId"@, "tasks"@);
                    let wa = fill_checked(recs, j3, "taskId"@, c, "currentTaskId"@, "tasks"@)->Ok_0;
                    lemma_keeps_fill_checked(recs, wa, "projectId"@, c, "currentProjectId"@, "projects"@);
                    let wb = fill_checked(recs, wa, "projectId"@, c, "currentProjectId"@, "projects"@)->Ok_0;
                    lemma_keeps_fill_checked(recs, wb, "goalId"@, c, "currentGoalId"@, "goals"@);
                    lemma_keeps_trans(j3, wa, wb);
                    lemma_keeps_trans(j3, wb, j4);
                }
                lemma_keeps_trans(j0, j3, j4);
                let r = ctx_models(j4, entity);
                lemma_keeps_refl(j4);
                if entity == "mentalModels"@ {
                    let a1 = legacy_fill(j4, "definition"@, "corePrinciple"@);
                    let a2 = legacy_fill(a1, "trigger"@, "useCases"@);
                    let a3 = legacy_fill(a2, "questions"@, "keyQuestions"@);
                    let a4 = legacy_fill(a3, "method"@, "steps"@);
                    lemma_keeps_legacy(j4, "definition"@, "corePrinciple"@);
                    lemma_keeps_legacy(a1, "trigger"@, "useCases"@);
                    lemma_keeps_legacy(a2, "questions"@, "keyQuestions"@);
                    lemma_keeps_legacy(a3, "method"@, "steps"@);
                    lemma_keeps_legacy(a4, "application"@, "useCases"@);
                    lemma_keeps_trans(j4, a1, a2);
                    lemma_keeps_trans(j4, a2, a3);
                    lemma_keeps_trans(j4, a3, a4);
                    lemma_keeps_trans(j4, a4, r);
                }
                lemma_keeps_trans(j0, j4, r);
            }
        }
    }
}

fn is_empty_field(j: &JsonValue, k: &str) -> (r: bool)
    ensures
        r == is_empty_text(j@, k@),
{
    text_of_or_empty(j, k).as_str().is_empty()
}

fn fill_checked_exec(
    recs: &[JsonValue],
    j: &mut JsonValue,
    f: &str,
    c: &JsonValue,
    ckey: &str,
    expected: &str,
) -> (r: Result<(), String>)
    requires
        is_obj(old(j)@),
    ensures
        is_obj(final(j)@),
        json_wf(*old(j)) ==> json_wf(*final(j)),
        match r {
            Ok(()) => fill_checked(views(recs@), old(j)@, f@, c@, ckey@, expected@) == Ok::<
                Json,
                Seq<char>,
            >(final(j)@),
            Err(e) => fill_checked(views(recs@), old(j)@, f@, c@, ckey@, expected@) == Err::<
                Json,
                Seq<char>,
            >(e@),
        },
{
    if is_empty_field(j, f) {
        match c.id_of(ckey) {
            Some(id) => match valid_reference(recs, id.as_str(), expected, true) {
                Ok(Some(_)) => {
                    j.insert(f, JsonValue::from_string(id));
                    Ok(())
                },
                Ok(None) => Ok(()),
                Err(e) => Err(e),
            },
            None => Ok(()),
        }
    } else {
        Ok(())
    }
}

fn fill_plain_exec(j: &mut JsonValue, f: &str, c: &JsonValue, ckey: &str)
    requires
        is_obj(old(j)@),
    ensures
        is_obj(final(j)@),
        final(j)@ == fill_plain(old(j)@, f@, c@, ckey@),
        json_wf(*old(j)) ==> json_wf(*final(j)),
{
    if is_empty_field(j, f) {
        match c.id_of(ckey) {
            Some(id) => j.insert(f, JsonValue::from_string(id)),
            None => {},
        }
    }
}

fn legacy_fill_exec(j: &mut JsonValue, legacy: &str, current: &str)
    requires
        is_obj(old(j)@),
    ensures
        is_obj(final(j)@),
        final(j)@ == legacy_fill(old(j)@, legacy@, current@),
        json_wf(*old(j)) ==> json_wf(*final(j)),
{
    if is_empty_field(j, legacy) {
        match j.get_str(current) {
            Some(v) => {
                let t = own(v);
                j.insert(legacy, JsonValue::from_string(t));
            },
            None => {},
        }
    }
}

fn ctx_title_exec(recs: &[JsonValue], c: &JsonValue, ckey: &str, expected: &str) -> (r: Option<String>)
    ensures
        crate::records::opt_seq(r) == ctx_title(views(recs@), c@, ckey@, expected@),
{
    match c.id_of(ckey) {
        Some(id) => match valid_reference(recs, id.as_str(), expected, false) {
            Ok(Some(rec)) => match rec.get("title") {
                Some(t) => match t.as_str() {
                    Some(s) => Some(own(s)),
                    None => None,
                },
                None => match rec.get_str("name") {
                    Some(s) => Some(own(s)),
                    None => None,
                },
            },
            _ => None,
        },
        None => None,
    }
}

/// Completes the input of a proposed action of `action_type` on `entity` from
/// the page context: references the page points at are filled in where the
/// input leaves them empty (an invalid one is refused), a new time log is named
/// after what the page shows, and legacy mental-model fields are filled in.
pub fn apply_agent_context(
    recs: &[JsonValue],
    entity: &str,
    action_type: &str,
    input: &JsonValue,
    context: &JsonValue,
) -> (r: Result<JsonValue, String>)
    ensures
        crate::records::result_view(r) == agent_context_of(
            views(recs@),
            entity@,
            action_type@,
            input@,
            context@,
        ),
        json_wf(*input) ==> (r matches Ok(v) ==> json_wf(v)),
{
    let ghost rv = views(recs@);
    let mut j = if input.is_object() {
        input.duplicate()
    } else {
        JsonValue::empty_object()
    };
    assert(j@ == start(input@));
    let ghost j0 = j@;
    if eq_str(entity, "projects") {
        match fill_checked_exec(recs, &mut j, "goalId", context, "currentGoalId", "goals") {
            Err(e) => return Err(e),
            Ok(()) => {},
        }
    }
    assert(ctx_projects(rv, j0, entity@, context@) == Ok::<Json, Seq<char>>(j@));
    let ghost j1 = j@;
    if eq_str(entity, "tasks") {
        match fill_checked_exec(recs, &mut j, "projectId", context, "currentProjectId", "projects") {
            Err(e) => return Err(e),
            Ok(()) => {},
        }
        if !j.has("projectId") {
            match fill_checked_exec(recs, &mut j, "goalId", context, "currentGoalId", "goals") {
                Err(e) => return Err(e),
                Ok(()) => {},
            }
        }
        if eq_str(action_type, "COMPLETE") && !j.has("id") {
            match context.id_of("currentTaskId") {
                Some(t) => j.insert("id", JsonValue::from_string(t)),
                None => {},
            }
        }
    }
    assert(ctx_tasks(rv, j1, entity@, action_type@, context@) == Ok::<Json, Seq<char>>(j@));
    let ghost j2 = j@;
    if eq_str(entity, "externalSources") || eq_str(entity, "opportunities") {
        fill_plain_exec(&mut j, "projectId", context, "currentProjectId");
        fill_plain_exec(&mut j, "goalId", context, "currentGoalId");
    }
    assert(j@ == ctx_external(j2, entity@, context@));
    let ghost j2b = j@;
    if eq_str(entity, "timeLogs") && is_empty_field(&j, "title") {
        let title = match ctx_title_exec(recs, context, "currentTaskId", "tasks") {
            Some(t) => t,
            None => match ctx_title_exec(recs, context, "currentProjectId", "projects") {
                Some(t) => t,
                None => match ctx_title_exec(recs, context, "currentGoalId", "goals") {
                    Some(t) => t,
                    None => own("专注工作"),
                },
            },
        };
        j.insert("title", JsonValue::from_string(title));
    }
    assert(j@ == ctx_timer_title(rv, j2b, entity@, context@));
    let ghost j3 = j@;
    if eq_str(entity, "timeLogs") || eq_str(entity, "decisions") || eq_str(entity, "reviews") {
        match fill_checked_exec(recs, &mut j, "taskId", context, "currentTaskId", "tasks") {
            Err(e) => return Err(e),
            Ok(()) => {},
        }
        match fill_checked_exec(recs, &mut j, "projectId", context, "currentProjectId", "projects") {
            Err(e) => return Err(e),
            Ok(()) => {},
        }
        match fill_checked_exec(recs, &mut j, "goalId", context, "currentGoalId", "goals") {
            Err(e) => return Err(e),
            Ok(()) => {},
        }
    }
    assert(ctx_work(rv, j3, entity@, context@) == Ok::<Json, Seq<char>>(j@));
    let ghost j4 = j@;
    if eq_str(entity, "mentalModels") {
        legacy_fill_exec(&mut j, "definition", "corePrinciple");
        legacy_fill_exec(&mut j, "trigger", "useCases");
        legacy_fill_exec(&mut j, "questions", "keyQuestions");
        legacy_fill_exec(&mut j, "method", "steps");
        legacy_fill_exec(&mut j, "application", "useCases");
    }
    assert(j@ == ctx_models(j4, entity@));
    Ok(j)
}

// ---------------------------------------------------------------------------
// Previews.
/// The value of the first member with key `k`.
pub open spec fn member_value(m: Seq<(String, JsonValue)>, k: Seq<char>) -> Option<JsonValue>
    decreases m.len(),
{
    if m.len() == 0 {
        None
    } else if m[0].0@ == k {
        Some(m[0].1)
    } else {
        member_value(m.drop_first(), k)
    }
}

/// A value as a preview shows it: text as it is, anything else as JSON.
pub open spec fn rendered(v: JsonValue) -> Seq<char> {
    match v {
        JsonValue::Str(s) => s@,
        _ => json_text(v),
    }
}

pub open spec fn preview_entry(label: Seq<char>, value: Seq<char>) -> Json {
    Json::Obj(Map::empty().insert("label"@, jstr(label)).insert("value"@, jstr(value)))
}

pub open spec fn preferred_keys() -> Seq<Seq<char>> {
    seq![
        "name"@,
        "title"@,
        "category"@,
        "corePrinciple"@,
        "problem"@,
        "framework"@,
        "steps"@,
        "keyQuestions"@,
        "useCases"@,
        "statement"@,
        "content"@,
        "dueDate"@,
        "projectId"@,
        "goalId"@,
    ]
}

pub open spec fn preview_entries(m: Seq<(String, JsonValue)>, keys: Seq<Seq<char>>) -> Seq<Json>
    decreases keys.len(),
{
    if keys.len() == 0 {
        Seq::empty()
    } else {
        let rest = preview_entries(m, keys.drop_last());
        let k = keys.last();
        match member_value(m, k) {
            Some(v) => if trimmed(rendered(v)).len() > 0 {
                rest.push(preview_entry(preview_label_of(k), rendered(v)))
            } else {
                rest
            },
            None => rest,
        }
    }
}

/// `action_preview_fields`: the first eight of the preferred fields that show something.
pub open spec fn preview_of(input: JsonValue) -> Seq<Json> {
    match input {
        JsonValue::Object(m) => {
            let es = preview_entries(m@, preferred_keys());
            if es.len() > 8 {
                es.take(8)
            } else {
                es
            }
        },
        _ => Seq::empty(),
    }
}

fn member_of<'a>(m: &'a Vec<(String, JsonValue)>, k: &str) -> (r: Option<&'a JsonValue>)
    ensures
        match r {
            Some(v) => member_value(m@, k@) == Some(*v),
            None => member_value(m@, k@) is None,
        },
{
    let mut i: usize = 0;
    assert(m@.skip(0) =~= m@);
    while i < m.len()
        invariant
            i <= m@.len(),
            member_value(m@, k@) == member_value(m@.skip(i as int), k@),
        decreases m.len() - i,
    {
        proof {
            assert(m@.skip(i as int).drop_first() =~= m@.skip(i + 1));
            assert(m@.skip(i as int)[0] == m@[i as int]);
        }
        if eq_str(m[i].0.as_str(), k) {
            return Some(&m[i].1);
        }
        i = i + 1;
    }
    None
}

fn render(v: &JsonValue) -> (r: String)
    ensures
        r@ == rendered(*v),
{
    match v {
        JsonValue::Str(s) => s.clone(),
        _ => to_json_text(v),
    }
}

fn preview_entry_value(label: &str, value: String) -> (r: JsonValue)
    ensures
        r@ == preview_entry(label@, value@),
        json_wf(r),
{
    let mut o = JsonValue::empty_object();
    o.insert("label", JsonValue::text(label));
    o.insert("value", JsonValue::from_string(value));
    o
}

/// The fields a confirmation preview shows, labelled.
pub fn action_preview_fields(input: &JsonValue) -> (r: Vec<JsonValue>)
    ensures
        items_view(r@) == preview_of(*input),
        crate::json::all_wf(r@),
{
    let keys = vec![
        "name",
        "title",
        "category",
        "corePrinciple",
        "problem",
        "framework",
        "steps",
        "keyQuestions",
        "useCases",
        "statement",
        "content",
        "dueDate",
        "projectId",
        "goalId",
    ];
    let ghost kv = crate::capture::keys_view(keys@);
    assert(kv =~= preferred_keys());
    let mut out: Vec<JsonValue> = Vec::new();
    match input {
        JsonValue::Object(m) => {
            let mut i: usize = 0;
            assert(kv.take(0) =~= Seq::<Seq<char>>::empty());
            while i < keys.len()
                invariant
                    i <= keys@.len(),
                    kv == crate::capture::keys_view(keys@),
                    kv == preferred_keys(),
                    *input == JsonValue::Object(*m),
                    items_view(out@) == preview_entries(m@, kv.take(i as int)),
                    crate::json::all_wf(out@),
                decreases keys.len() - i,
            {
                proof {
                    assert(kv.take(i + 1).drop_last() =~= kv.take(i as int));
                    assert(kv.take(i + 1).last() == keys@[i as int]@);
                }
                match member_of(m, keys[i]) {
                    Some(v) => {
                        let text = render(v);
                        if !is_blank(text.as_str()) {
                            let item = preview_entry_value(preview_label(keys[i]), text);
                            proof {
                                lemma_items_push(out@, item);
                            }
                            out.push(item);
                        }
                    },
                    None => {},
                }
                i = i + 1;
            }
            assert(kv.take(i as int) =~= kv);
            proof {
                crate::json::lemma_items_len(out@);
            }
            if out.len() > 8 {
                let mut cut: Vec<JsonValue> = Vec::new();
                let mut q: usize = 0;
                while q < 8
                    invariant
                        q <= 8,
                        8 < out@.len(),
                        items_view(cut@) == items_view(out@).take(q as int),
                        items_view(out@).len() == out@.len(),
                        crate::json::all_wf(out@),
                        crate::json::all_wf(cut@),
                    decreases 8 - q,
                {
                    let item = out[q].duplicate();
                    proof {
                        lemma_items_push(cut@, item);
                        crate::json::lemma_items_index(out@, q as int);
                    }
                    cut.push(item);
                    q = q + 1;
                    assert(items_view(cut@) =~= items_view(out@).take(q as int));
                }
                return cut;
            }
            out
        },
        _ => {
            proof {
                crate::json::lemma_items_empty();
            }
            out
        },
    }
}

pub open spec fn preview_name(input: Json) -> Seq<char> {
    let v = if field(input, "name"@) is Some {
        field(input, "name"@)
    } else if field(input, "title"@) is Some {
        field(input, "title"@)
    } else {
        field(input, "statement"@)
    };
    match as_text(v) {
        Some(s) => s,
        None => "新记录"@,
    }
}

pub open spec fn preview_verb(tool: Seq<char>) -> Seq<char> {
    if starts_with(tool, "update"@) || tool == "completeTask"@ {
        "更新"@
    } else if tool == "startTimer"@ {
        "开始计时"@
    } else if tool == "stopTimer"@ {
        "停止计时"@
    } else {
        "创建"@
    }
}

pub open spec fn preview_title_of(tool: Seq<char>, input: Json) -> Seq<char> {
    "准备"@ + preview_verb(tool) + "："@ + preview_name(input)
}

/// `agent_preview_title`: what the action will do, and to what.
pub fn agent_preview_title(tool: &str, input: &JsonValue) -> (r: String)
    ensures
        r@ == preview_title_of(tool@, input@),
{
    let v = if input.has("name") {
        input.get("name")
    } else if input.has("title") {
        input.get("title")
    } else {
        input.get("statement")
    };
    let name = match v {
        Some(x) => match x.as_str() {
            Some(s) => own(s),
            None => own("新记录"),
        },
        None => own("新记录"),
    };
    let verb = if starts_with_str(tool, "update") || eq_str(tool, "completeTask") {
        "更新"
    } else if eq_str(tool, "startTimer") {
        "开始计时"
    } else if eq_str(tool, "stopTimer") {
        "停止计时"
    } else {
        "创建"
    };
    let a = concat("准备", verb);
    let b = concat(a.as_str(), "：");
    concat(b.as_str(), name.as_str())
}

// ---------------------------------------------------------------------------
// Reading the assistant's reply.
/// The position of the last `c` in `s`.
pub open spec fn last_of(s: Seq<char>, c: char) -> Option<int>
    decreases s.len(),
{
    if s.len() == 0 {
        None
    } else if s.last() == c {
        Some(s.len() - 1)
    } else {
        last_of(s.drop_last(), c)
    }
}

/// The first `{` and the last `}` of a reply.
pub open spec fn braces_of(s: Seq<char>) -> (Option<int>, Option<int>) {
    (find(s, seq!['{']), last_of(s, '}'))
}

pub proof fn lemma_last_of_bound(s: Seq<char>, c: char)
    ensures
        last_of(s, c) matches Some(i) ==> 0 <= i < s.len() && s[i] == c,
    decreases s.len(),
{
    if s.len() > 0 && s.last() != c {
        lemma_last_of_bound(s.drop_last(), c);
    }
}

/// Where the first `{` and the last `}` of `text` stand.
pub fn brace_positions(text: &str) -> (r: (Option<usize>, Option<usize>))
    ensures
        (match r.0 {
            Some(i) => Some(i as int),
            None => None,
        }, match r.1 {
            Some(i) => Some(i as int),
            None => None,
        }) == braces_of(text@),
{
    let cs = chars_of(text);
    let open = vec!['{'];
    assert(open@ =~= seq!['{']);
    let first = crate::text::find_chars(cs.as_slice(), open.as_slice());
    let mut j: usize = cs.len();
    assert(cs@.take(j as int) =~= cs@);
    while j > 0 && cs[j - 1] != '}'
        invariant
            j <= cs@.len(),
            cs@ == text@,
            last_of(text@, '}') == last_of(cs@.take(j as int), '}'),
        decreases j,
    {
        assert(cs@.take(j as int).drop_last() =~= cs@.take(j - 1));
        j = j - 1;
    }
    let last = if j == 0 {
        None
    } else {
        assert(cs@.take(j as int).last() == cs@[j - 1]);
        Some(j - 1)
    };
    (first, last)
}

/// The text from the first `{` to the last `}` of a reply, when it has both.
pub open spec fn object_span_of(s: Seq<char>) -> Option<Seq<char>> {
    match braces_of(s) {
        (Some(a), Some(b)) => Some(s.subrange(a, b + 1)),
        _ => None,
    }
}

/// Slicing from the first `{` to the last `}` is possible: the last `}` does
/// not stand two or more characters before the first `{`.
pub open spec fn span_sliceable(s: Seq<char>) -> bool {
    match braces_of(s) {
        (Some(a), Some(b)) => a <= b + 1,
        _ => true,
    }
}

/// The part of a reply that `extract_json_value` tries when the whole reply is
/// not JSON: from the first `{` to the last `}`.
pub fn json_object_span(text: &str) -> (r: Option<String>)
    requires
        span_sliceable(text@),
    ensures
        crate::records::opt_seq(r) == object_span_of(text@),
{
    let (first, last) = brace_positions(text);
    match (first, last) {
        (Some(a), Some(b)) => {
            let cs = chars_of(text);
            proof {
                lemma_last_of_bound(text@, '}');
            }
            Some(string_of_range(cs.as_slice(), a, b + 1))
        },
        _ => None,
    }
}

// ---------------------------------------------------------------------------
// Proposing an action.
/// A proposed action that passed the registry and the checks.
#[derive(Debug)]
pub struct PlannedAction {
    pub tool: String,
    pub entity: String,
    pub risk: String,
    pub requires_confirmation: bool,
    pub action_type: String,
    pub input: JsonValue,
    pub key: String,
}

pub open spec fn opt_view_of(v: Option<&JsonValue>) -> Json {
    match v {
        Some(x) => x@,
        None => empty_obj(),
    }
}

/// The part of `create_agent_action` that decides: the tool must be registered,
/// its input is completed from the page context and checked.
pub fn plan_agent_action(recs: &[JsonValue], plan: &JsonValue, context: &JsonValue) -> (r: Result<
    PlannedAction,
    String,
>)
    ensures
        crate::json::json_wf(*plan) && crate::json::json_wf(*context) ==> (r matches Ok(p) ==> crate::json::json_wf(p.input)),
        field_str(plan@, "toolName"@) is None ==> (r matches Err(e) && e@ == "AI 没有返回可执行 Tool"@),
        field_str(plan@, "toolName"@) matches Some(t) ==> {
            match tool_of(t) {
                None => r matches Err(e) && e@ == "不允许执行未注册 Tool："@ + t,
                Some(meta) => {
                    let input = if field(plan@, "input"@) is Some {
                        field(plan@, "input"@)->Some_0
                    } else {
                        empty_obj()
                    };
                    match agent_context_of(views(recs@), meta.0, meta.3, input, context@) {
                        Err(e) => r matches Err(x) && x@ == e,
                        Ok(resolved) => match validation_of(meta.0, meta.3, resolved) {
                            Err(e) => r matches Err(x) && x@ == e,
                            Ok(()) => r matches Ok(p) && p.tool@ == t && p.entity@ == meta.0
                                && p.risk@ == meta.1 && p.requires_confirmation == meta.2
                                && p.action_type@ == meta.3 && p.input@ == resolved && p.key@
                                == action_key_of(t, p.input),
                        },
                    }
                },
            }
        },
{
    let tool = match plan.get_str("toolName") {
        Some(t) => t,
        None => return Err(own("AI 没有返回可执行 Tool")),
    };
    let meta = match agent_tool_metadata(tool) {
        Some(m) => m,
        None => return Err(concat("不允许执行未注册 Tool：", tool)),
    };
    let empty = JsonValue::empty_object();
    let raw = match plan.get("input") {
        Some(v) => v,
        None => &empty,
    };
    let input = match apply_agent_context(recs, meta.0, meta.3, raw, context) {
        Ok(v) => v,
        Err(e) => return Err(e),
    };
    match validate_agent_input(meta.0, meta.3, &input) {
        Ok(()) => {},
        Err(e) => return Err(e),
    }
    let key = action_idempotency_key(tool, &input);
    Ok(
        PlannedAction {
            tool: own(tool),
            entity: own(meta.0),
            risk: own(meta.1),
            requires_confirmation: meta.2,
            action_type: own(meta.3),
            input,
            key,
        },
    )
}

/// The action record that waits for the user's confirmation.
pub open spec fn action_record_of(
    action_id: Seq<char>,
    intent: Seq<char>,
    p: PlannedAction,
    context: Json,
    created_at: Seq<char>,
) -> Json {
    Json::Obj(
        Map::empty().insert("id"@, jstr(action_id)).insert("actionId"@, jstr(action_id)).insert(
            "intent"@,
            jstr(intent),
        ).insert("toolName"@, jstr(p.tool@)).insert("entityType"@, jstr(p.entity@)).insert(
            "input"@,
            p.input@,
        ).insert(
            "status"@,
            jstr(
                if p.requires_confirmation {
                    "CONFIRM_REQUIRED"@
                } else {
                    "PENDING"@
                },
            ),
        ).insert("riskLevel"@, jstr(p.risk@)).insert(
            "requiresConfirmation"@,
            Json::Bool(p.requires_confirmation),
        ).insert("userConfirmed"@, Json::Bool(false)).insert("idempotencyKey"@, jstr(p.key@)).insert(
            "previewTitle"@,
            jstr(preview_title_of(p.tool@, p.input@)),
        ).insert("previewFields"@, Json::Arr(preview_of(p.input))).insert("context"@, context).insert(
            "createdAt"@,
            jstr(created_at),
        ),
    )
}

pub open spec fn intent_of(plan: Json) -> Seq<char> {
    match field_str(plan, "intent"@) {
        Some(s) => s,
        None => "CREATE"@,
    }
}

/// The record of a new proposed action.
pub fn agent_action_record(
    action_id: &str,
    plan: &JsonValue,
    p: &PlannedAction,
    context: &JsonValue,
    created_at: &str,
) -> (r: JsonValue)
    ensures
        crate::json::json_wf(*plan) && crate::json::json_wf(p.input) && crate::json::json_wf(*context) ==> crate::json::json_wf(r),
        r@ == action_record_of(action_id@, intent_of(plan@), *p, context@, created_at@),
{
    let intent = match plan.get_str("intent") {
        Some(s) => own(s),
        None => own("CREATE"),
    };
    let mut o = JsonValue::empty_object();
    o.insert("id", JsonValue::text(action_id));
    o.insert("actionId", JsonValue::text(action_id));
    o.insert("intent", JsonValue::from_string(intent));
    o.insert("toolName", JsonValue::text(p.tool.as_str()));
    o.insert("entityType", JsonValue::text(p.entity.as_str()));
    o.insert("input", p.input.duplicate());
    if p.requires_confirmation {
        o.insert("status", JsonValue::text("CONFIRM_REQUIRED"));
    } else {
        o.insert("status", JsonValue::text("PENDING"));
    }
    o.insert("riskLevel", JsonValue::text(p.risk.as_str()));
    o.insert("requiresConfirmation", JsonValue::Bool(p.requires_confirmation));
    o.insert("userConfirmed", JsonValue::Bool(false));
    o.insert("idempotencyKey", JsonValue::text(p.key.as_str()));
    o.insert("previewTitle", JsonValue::from_string(agent_preview_title(p.tool.as_str(), &p.input)));
    let fields = action_preview_fields(&p.input);
    proof {
        crate::json::lemma_items_wf(fields@);
    }
    o.insert("previewFields", JsonValue::Array(fields));
    o.insert("context", context.duplicate());
    o.insert("createdAt", JsonValue::text(created_at));
    o
}

// ---------------------------------------------------------------------------
// Carrying out a confirmed action.
/// What a confirmed action comes to: a record to save, or stopping the timer
/// that runs.
#[derive(Debug)]
pub enum ToolRun {
    Save(String, JsonValue),
    StopRunningTimer,
}

/// The action's input, marked as confirmed when the action has an id.
pub open spec fn tool_input_of(action: Json) -> Json {
    let input = match field(action, "input"@) {
        Some(v) => v,
        None => empty_obj(),
    };
    if is_obj(input) && field_str(action, "actionId"@) is Some {
        with(
            with(input, "agentActionId"@, jstr(field_str(action, "actionId"@)->Some_0)),
            "evidenceLevel"@,
            jstr("AI_CONFIRMED"@),
        )
    } else {
        input
    }
}

/// An update keeps every field of the stored record that the input does not set.
pub open spec fn merged_update(existing: Json, input: Json) -> Json {
    match (existing, input) {
        (Json::Obj(e), Json::Obj(i)) => Json::Obj(e.union_prefer_right(i)),
        _ => input,
    }
}

pub open spec fn started_timer(input: Json, now: Seq<char>) -> Json {
    let t = with(with(with(input, "startAt"@, jstr(now)), "isRunning"@, Json::Bool(true)), "status"@, jstr("running"@));
    if is_empty_text(t, "title"@) {
        with(t, "title"@, jstr("专注工作"@))
    } else {
        t
    }
}

pub open spec fn completed_task(task: Json, now: Seq<char>) -> Json {
    with(with(task, "status"@, jstr("completed"@)), "completedAt"@, jstr(now))
}

/// `execute_registered_tool`: the entity and data a confirmed action saves
/// (`None`: stop the running timer), or why it cannot run.
pub open spec fn tool_run_of(recs: Seq<Json>, action: Json, now: Seq<char>) -> Result<
    Option<(Seq<char>, Json)>,
    Seq<char>,
> {
    match field_str(action, "toolName"@) {
        None => Err("Action 缺少 Tool"@),
        Some(tool) => match tool_of(tool) {
            None => Err("Tool 未注册"@),
            Some(meta) => {
                let entity = meta.0;
                let at = meta.3;
                let input = tool_input_of(action);
                match validation_of(entity, at, input) {
                    Err(e) => Err(e),
                    Ok(()) => if at == "CREATE"@ {
                        Ok(Some((entity, input)))
                    } else if at == "UPDATE"@ {
                        match field_str(input, "id"@) {
                            None => Err("更新操作缺少 ID"@),
                            Some(id) => match lookup(recs, id) {
                                None => Err("要更新的记录不存在"@),
                                Some(ex) => if field(ex, "entity"@) != Some(jstr(entity)) {
                                    Err("记录类型与 Tool 不匹配"@)
                                } else {
                                    Ok(Some((entity, merged_update(ex, input))))
                                },
                            },
                        }
                    } else if at == "COMPLETE"@ {
                        match field_str(input, "id"@) {
                            None => Err("完成任务缺少 ID"@),
                            Some(id) => match lookup(recs, id) {
                                None => Err("任务不存在"@),
                                Some(task) => if field(task, "entity"@) != Some(jstr("tasks"@)) {
                                    Err("记录不是任务"@)
                                } else if !is_obj(task) {
                                    Err("任务结构无效"@)
                                } else {
                                    Ok(Some(("tasks"@, completed_task(task, now))))
                                },
                            },
                        }
                    } else if at == "START_TIMER"@ {
                        if !is_obj(input) {
                            Err("计时参数无效"@)
                        } else {
                            Ok(Some(("timeLogs"@, started_timer(input, now))))
                        }
                    } else if at == "STOP_TIMER"@ {
                        Ok(None)
                    } else {
                        Err("当前 Tool 动作尚未实现"@)
                    },
                }
            },
        },
    }
}

pub open spec fn run_view(r: Result<ToolRun, String>) -> Result<Option<(Seq<char>, Json)>, Seq<char>> {
    match r {
        Ok(ToolRun::Save(e, d)) => Ok(Some((e@, d@))),
        Ok(ToolRun::StopRunningTimer) => Ok(None),
        Err(e) => Err(e@),
    }
}

fn merge_update(existing: &JsonValue, input: JsonValue) -> (r: JsonValue)
    ensures
        r@ == merged_update(existing@, input@),
        crate::json::json_wf(*existing) && crate::json::json_wf(input) ==> crate::json::json_wf(r),
{
    match existing {
        JsonValue::Object(m) => {
            if !input.is_object() {
                return input;
            }
            let ghost e = crate::json::members_view(m@);
            let ghost i = crate::records::obj_map(input@);
            assert(input@ == Json::Obj(i));
            let ghost w0 = json_wf(*existing) && json_wf(input);
            proof {
                crate::json::lemma_members_wf(m@);
            }
            let mut out = input;
            let mut q: usize = 0;
            assert(Map::new(
                |k: Seq<char>| i.dom().contains(k) || crate::records::done_keys(m@, 0).contains(k),
                |k: Seq<char>| if i.dom().contains(k) { i[k] } else { e[k] },
            ) =~= i);
            while q < m.len()
                invariant
                    q <= m@.len(),
                    *existing == JsonValue::Object(*m),
                    e == crate::json::members_view(m@),
                    w0 ==> json_wf(out),
                    w0 ==> forall|j: int| 0 <= j < m@.len() ==> json_wf(#[trigger] m@[j].1),
                    out@ == Json::Obj(
                        Map::new(
                            |k: Seq<char>|
                                i.dom().contains(k) || crate::records::done_keys(m@, q as int).contains(k),
                            |k: Seq<char>| if i.dom().contains(k) { i[k] } else { e[k] },
                        ),
                    ),
                decreases m.len() - q,
            {
                let k = m[q].0.as_str();
                let ghost d0 = crate::records::done_keys(m@, q as int);
                let ghost d1 = crate::records::done_keys(m@, q + 1);
                proof {
                    assert(d1 =~= d0.insert(k@));
                }
                if !out.has(k) {
                    let v = m[q].1.duplicate();
                    proof {
                        assert(!d0.contains(k@));
                        assert forall|j: int| 0 <= j < q implies (#[trigger] m@[j]).0@ != k@ by {
                            if m@[j].0@ == k@ {
                                assert(d0.contains(k@));
                            }
                        }
                        crate::json::lemma_members_skip(m@, k@, q as int);
                        assert(m@.skip(q as int)[0] == m@[q as int]);
                        assert(e[k@] == v@);
                    }
                    out.insert(k, v);
                    proof {
                        assert(crate::records::obj_map(out@) =~= Map::new(
                            |k2: Seq<char>| i.dom().contains(k2) || d1.contains(k2),
                            |k2: Seq<char>| if i.dom().contains(k2) { i[k2] } else { e[k2] },
                        ));
                    }
                } else {
                    proof {
                        assert(Map::new(
                            |k2: Seq<char>| i.dom().contains(k2) || d1.contains(k2),
                            |k2: Seq<char>| if i.dom().contains(k2) { i[k2] } else { e[k2] },
                        ) =~= Map::new(
                            |k2: Seq<char>| i.dom().contains(k2) || d0.contains(k2),
                            |k2: Seq<char>| if i.dom().contains(k2) { i[k2] } else { e[k2] },
                        ));
                    }
                }
                q = q + 1;
            }
            proof {
                assert forall|k: Seq<char>| e.dom().contains(k) implies crate::records::done_keys(
                    m@,
                    q as int,
                ).contains(k) by {
                    crate::json::lemma_members_dom(m@, k);
                }
                assert forall|k: Seq<char>| crate::records::done_keys(m@, q as int).contains(k) implies e.dom().contains(
                    k,
                ) by {
                    crate::json::lemma_members_dom(m@, k);
                }
                assert(crate::records::obj_map(out@) =~= e.union_prefer_right(i));
            }
            out
        },
        _ => input,
    }
}

/// What a confirmed action comes to, given the stored records and the time.
pub fn execute_registered_tool(recs: &[JsonValue], action: &JsonValue, now: &str) -> (r: Result<
    ToolRun,
    String,
>)
    ensures
        run_view(r) == tool_run_of(views(recs@), action@, now@),
        crate::json::json_wf(*action) && crate::json::all_wf(recs@) ==> (r matches Ok(ToolRun::Save(_, v)) ==> crate::json::json_wf(v)),
{
    let tool = match action.get_str("toolName") {
        Some(t) => t,
        None => return Err(own("Action 缺少 Tool")),
    };
    let meta = match agent_tool_metadata(tool) {
        Some(m) => m,
        None => return Err(own("Tool 未注册")),
    };
    let entity = meta.0;
    let at = meta.3;
    let mut input = match action.get("input") {
        Some(v) => v.duplicate(),
        None => JsonValue::empty_object(),
    };
    if input.is_object() {
        match action.get_str("actionId") {
            Some(aid) => {
                input.insert("agentActionId", JsonValue::text(aid));
                input.insert("evidenceLevel", JsonValue::text("AI_CONFIRMED"));
            },
            None => {},
        }
    }
    assert(input@ == tool_input_of(action@));
    match validate_agent_input(entity, at, &input) {
        Ok(()) => {},
        Err(e) => return Err(e),
    }
    if eq_str(at, "CREATE") {
        Ok(ToolRun::Save(own(entity), input))
    } else if eq_str(at, "UPDATE") {
        let id = match input.get_str("id") {
            Some(x) => own(x),
            None => return Err(own("更新操作缺少 ID")),
        };
        let existing = match record_by_id(recs, id.as_str()) {
            Some(x) => x,
            None => return Err(own("要更新的记录不存在")),
        };
        let same = match existing.get("entity") {
            Some(JsonValue::Str(e)) => eq_str(e.as_str(), entity),
            _ => false,
        };
        if !same {
            return Err(own("记录类型与 Tool 不匹配"));
        }
        Ok(ToolRun::Save(own(entity), merge_update(existing, input)))
    } else if eq_str(at, "COMPLETE") {
        let id = match input.get_str("id") {
            Some(x) => own(x),
            None => return Err(own("完成任务缺少 ID")),
        };
        let task = match record_by_id(recs, id.as_str()) {
            Some(x) => x,
            None => return Err(own("任务不存在")),
        };
        let is_task = match task.get("entity") {
            Some(JsonValue::Str(e)) => eq_str(e.as_str(), "tasks"),
            _ => false,
        };
        if !is_task {
            return Err(own("记录不是任务"));
        }
        if !task.is_object() {
            return Err(own("任务结构无效"));
        }
        let mut t = task.duplicate();
        t.insert("status", JsonValue::text("completed"));
        t.insert("completedAt", JsonValue::text(now));
        Ok(ToolRun::Save(own("tasks"), t))
    } else if eq_str(at, "START_TIMER") {
        if !input.is_object() {
            return Err(own("计时参数无效"));
        }
        input.insert("startAt", JsonValue::text(now));
        input.insert("isRunning", JsonValue::Bool(true));
        input.insert("status", JsonValue::text("running"));
        if is_empty_field(&input, "title") {
            input.insert("title", JsonValue::text("专注工作"));
        }
        Ok(ToolRun::Save(own("timeLogs"), input))
    } else if eq_str(at, "STOP_TIMER") {
        Ok(ToolRun::StopRunningTimer)
    } else {
        Err(own("当前 Tool 动作尚未实现"))
    }
}

/// The start of a running timer: its `startAt`, else the current time, else zero.
pub open spec fn timer_start_of(data: Json, now: Seq<char>) -> int {
    let fallback = match parse_i64(now) {
        Some(v) => v,
        None => 0,
    };
    match field_str(data, "startAt"@) {
        Some(s) => match parse_i64(s) {
            Some(v) => v,
            None => fallback,
        },
        None => fallback,
    }
}

pub open spec fn timer_end_of(data: Json, now: Seq<char>) -> int {
    match parse_i64(now) {
        Some(v) => v,
        None => timer_start_of(data, now),
    }
}

/// Whole minutes the timer ran, at least one.
pub open spec fn timer_minutes_of(data: Json, now: Seq<char>) -> int {
    let m = crate::finance::tdiv(timer_end_of(data, now) - timer_start_of(data, now), 60000);
    if m < 1 {
        1
    } else {
        m
    }
}

/// The minutes a running timer is stopped with, where the time it ran fits in
/// 64 bits (`None` where it does not).
pub fn checked_timer_minutes(data: &JsonValue, now: &str) -> (r: Option<i64>)
    ensures
        r is None <==> !(i64::MIN <= timer_end_of(data@, now@) - timer_start_of(data@, now@) <= i64::MAX),
        r matches Some(m) ==> m as int == timer_minutes_of(data@, now@),
{
    let fallback: i64 = match parse_i64_str(now) {
        Some(v) => v,
        None => 0,
    };
    let start: i64 = match data.get_str("startAt") {
        Some(s) => match parse_i64_str(s) {
            Some(v) => v,
            None => fallback,
        },
        None => fallback,
    };
    let end: i64 = match parse_i64_str(now) {
        Some(v) => v,
        None => start,
    };
    let span: i128 = end as i128 - start as i128;
    if span < i64::MIN as i128 || span > i64::MAX as i128 {
        None
    } else {
        Some(stop_timer_minutes(data, now))
    }
}

/// The minutes a running timer is stopped with.
pub fn stop_timer_minutes(data: &JsonValue, now: &str) -> (r: i64)
    requires
        i64::MIN <= timer_end_of(data@, now@) - timer_start_of(data@, now@) <= i64::MAX,
    ensures
        r as int == timer_minutes_of(data@, now@),
{
    let fallback: i64 = match parse_i64_str(now) {
        Some(v) => v,
        None => 0,
    };
    let start: i64 = match data.get_str("startAt") {
        Some(s) => match parse_i64_str(s) {
            Some(v) => v,
            None => fallback,
        },
        None => fallback,
    };
    let end: i64 = match parse_i64_str(now) {
        Some(v) => v,
        None => start,
    };
    let span = end - start;
    let m = crate::finance::trunc_div(span as i128, 60000);
    proof {
        assert(crate::finance::abs(span as int) / 60000 <= crate::finance::abs(span as int));
    }
    if m < 1 {
        1
    } else {
        m as i64
    }
}

// ---------------------------------------------------------------------------
// The life of an action.
/// How running an action starts: a second run of a succeeded action gives back
/// its result; anything else is marked executing and confirmed.
#[derive(Debug)]
pub enum ActionStart {
    Duplicate(JsonValue),
    Execute(JsonValue),
}

pub open spec fn status_is(action: Json, s: Seq<char>) -> bool {
    field(action, "status"@) == Some(jstr(s))
}

pub open spec fn or_null_of(v: Option<Json>) -> Json {
    match v {
        Some(x) => x,
        None => Json::Null,
    }
}

pub open spec fn duplicate_reply(action: Json) -> Json {
    Json::Obj(
        Map::empty().insert("action"@, action).insert("record"@, or_null_of(field(action, "result"@))).insert(
            "duplicate"@,
            Json::Bool(true),
        ),
    )
}

/// `execute_ai_action` before the tool runs: `Ok(Ok(reply))` for an action that
/// already succeeded, `Ok(Err(action))` with the action to run.
pub open spec fn begin_of(action: Json) -> Result<Result<Json, Json>, Seq<char>> {
    if field(action, "entity"@) != Some(jstr("agentActions"@)) {
        Err("记录不是 AI Action"@)
    } else if status_is(action, "SUCCESS"@) {
        Ok(Ok(duplicate_reply(action)))
    } else if status_is(action, "CANCELLED"@) {
        Err("该 Action 已取消"@)
    } else if !is_obj(action) {
        Err("Action 结构无效"@)
    } else {
        Ok(Err(with(with(action, "status"@, jstr("EXECUTING"@)), "userConfirmed"@, Json::Bool(true))))
    }
}

pub open spec fn start_view(r: Result<ActionStart, String>) -> Result<Result<Json, Json>, Seq<char>> {
    match r {
        Ok(ActionStart::Duplicate(v)) => Ok(Ok(v@)),
        Ok(ActionStart::Execute(v)) => Ok(Err(v@)),
        Err(e) => Err(e@),
    }
}

fn has_text(j: &JsonValue, k: &str, t: &str) -> (r: bool)
    ensures
        r == (field(j@, k@) == Some(jstr(t@))),
{
    match j.get(k) {
        Some(JsonValue::Str(s)) => eq_str(s.as_str(), t),
        _ => false,
    }
}

/// Starts running a stored action.
pub fn begin_action(action: JsonValue) -> (r: Result<ActionStart, String>)
    ensures
        start_view(r) == begin_of(action@),
{
    if !has_text(&action, "entity", "agentActions") {
        return Err(own("记录不是 AI Action"));
    }
    if has_text(&action, "status", "SUCCESS") {
        let record = match action.get("result") {
            Some(v) => v.duplicate(),
            None => JsonValue::Null,
        };
        let mut reply = JsonValue::empty_object();
        reply.insert("action", action);
        reply.insert("record", record);
        reply.insert("duplicate", JsonValue::Bool(true));
        return Ok(ActionStart::Duplicate(reply));
    }
    if has_text(&action, "status", "CANCELLED") {
        return Err(own("该 Action 已取消"));
    }
    if !action.is_object() {
        return Err(own("Action 结构无效"));
    }
    let mut a = action;
    a.insert("status", JsonValue::text("EXECUTING"));
    a.insert("userConfirmed", JsonValue::Bool(true));
    Ok(ActionStart::Execute(a))
}

pub open spec fn succeeded_of(action: Json, record: Json, now: Seq<char>, duration_ms: int) -> Json {
    crate::json::without(
        with(
            with(
                with(
                    with(with(action, "status"@, jstr("SUCCESS"@)), "entityId"@, or_null_of(field(record, "id"@))),
                    "result"@,
                    record,
                ),
                "completedAt"@,
                jstr(now),
            ),
            "duration"@,
            crate::json::jint(duration_ms),
        ),
        "error"@,
    )
}

/// The action once its tool ran: it records the result and when it finished.
pub fn finish_action_success(action: JsonValue, record: &JsonValue, now: &str, duration_ms: u64) -> (r:
    Result<JsonValue, String>)
    ensures
        crate::json::json_wf(action) && crate::json::json_wf(*record) ==> (r matches Ok(v) ==> crate::json::json_wf(v)),
        !is_obj(action@) ==> (r matches Err(e) && e@ == "Action 结构无效"@),
        is_obj(action@) ==> (r matches Ok(v) && v@ == succeeded_of(
            action@,
            record@,
            now@,
            duration_ms as int,
        )),
{
    if !action.is_object() {
        return Err(own("Action 结构无效"));
    }
    let id = match record.get("id") {
        Some(v) => v.duplicate(),
        None => JsonValue::Null,
    };
    let mut a = action;
    a.insert("status", JsonValue::text("SUCCESS"));
    a.insert("entityId", id);
    a.insert("result", record.duplicate());
    a.insert("completedAt", JsonValue::text(now));
    a.insert("duration", JsonValue::Number(crate::json::JsonNumber::PosInt(duration_ms)));
    a.remove("error");
    Ok(a)
}

pub open spec fn failed_of(action: Json, error: Seq<char>, now: Seq<char>, duration_ms: int) -> Json {
    with(
        with(with(with(action, "status"@, jstr("FAILED"@)), "error"@, jstr(error)), "completedAt"@, jstr(now)),
        "duration"@,
        crate::json::jint(duration_ms),
    )
}

pub open spec fn failure_msg(error: Seq<char>) -> Seq<char> {
    "执行失败："@ + error + "。没有写入成功。"@
}

/// The action once its tool failed, and the message the user sees.
pub fn finish_action_failure(action: JsonValue, error: &str, now: &str, duration_ms: u64) -> (r: Result<
    (JsonValue, String),
    String,
>)
    ensures
        crate::json::json_wf(action) ==> (r matches Ok(p) ==> crate::json::json_wf(p.0)),
        !is_obj(action@) ==> (r matches Err(e) && e@ == "Action 结构无效"@),
        is_obj(action@) ==> (r matches Ok(p) && p.0@ == failed_of(action@, error@, now@, duration_ms as int)
            && p.1@ == failure_msg(error@)),
{
    if !action.is_object() {
        return Err(own("Action 结构无效"));
    }
    let mut a = action;
    a.insert("status", JsonValue::text("FAILED"));
    a.insert("error", JsonValue::text(error));
    a.insert("completedAt", JsonValue::text(now));
    a.insert("duration", JsonValue::Number(crate::json::JsonNumber::PosInt(duration_ms)));
    let m1 = concat("执行失败：", error);
    let msg = concat(m1.as_str(), "。没有写入成功。");
    Ok((a, msg))
}

pub open spec fn cancel_of(action: Json, now: Seq<char>) -> Result<Json, Seq<char>> {
    if status_is(action, "SUCCESS"@) {
        Err("已执行成功的 Action 不能取消"@)
    } else if !is_obj(action) {
        Err("Action 结构无效"@)
    } else {
        Ok(with(with(action, "status"@, jstr("CANCELLED"@)), "completedAt"@, jstr(now)))
    }
}

/// `cancel_ai_action`: an action that has not succeeded is cancelled.
pub fn cancel_action(action: JsonValue, now: &str) -> (r: Result<JsonValue, String>)
    ensures
        crate::json::json_wf(action) ==> (r matches Ok(v) ==> crate::json::json_wf(v)),
        crate::records::result_view(r) == cancel_of(action@, now@),
{
    if has_text(&action, "status", "SUCCESS") {
        return Err(own("已执行成功的 Action 不能取消"));
    }
    if !action.is_object() {
        return Err(own("Action 结构无效"));
    }
    let mut a = action;
    a.insert("status", JsonValue::text("CANCELLED"));
    a.insert("completedAt", JsonValue::text(now));
    Ok(a)
}

/// An action that succeeded is never run again: running it once more gives
/// back the earlier result.
pub proof fn lemma_succeeded_action_is_not_rerun(action: Json, record: Json, now: Seq<char>, d: int)
    requires
        is_obj(action),
        field(action, "entity"@) == Some(jstr("agentActions"@)),
    ensures
        begin_of(succeeded_of(action, record, now, d)) matches Ok(Ok(_)),
{
    lemma_succeeded_status(action, record, now, d);
    let s = succeeded_of(action, record, now, d);
    reveal_strlit("entity");
    reveal_strlit("status");
    reveal_strlit("entityId");
    reveal_strlit("result");
    reveal_strlit("completedAt");
    reveal_strlit("duration");
    reveal_strlit("error");
    assert("entity"@[0] != "status"@[0]);
    assert("entity"@.len() != "entityId"@.len());
    assert("entity"@.len() != "result"@.len() || "entity"@[0] != "result"@[0]);
    assert("entity"@.len() != "completedAt"@.len());
    assert("entity"@.len() != "duration"@.len());
    assert("entity"@.len() != "error"@.len());
    assert(field(s, "entity"@) == field(action, "entity"@));
}

proof fn lemma_succeeded_status(action: Json, record: Json, now: Seq<char>, d: int)
    requires
        is_obj(action),
    ensures
        status_is(succeeded_of(action, record, now, d), "SUCCESS"@),
        is_obj(succeeded_of(action, record, now, d)),
{
    reveal_strlit("status");
    reveal_strlit("entityId");
    reveal_strlit("result");
    reveal_strlit("completedAt");
    reveal_strlit("duration");
    reveal_strlit("error");
    let s = succeeded_of(action, record, now, d);
    assert("status"@.len() != "entityId"@.len());
    assert("status"@[0] != "result"@[0]);
    assert("status"@.len() != "completedAt"@.len());
    assert("status"@.len() != "duration"@.len());
    assert("status"@.len() != "error"@.len());
    assert(field(s, "status"@) == Some(jstr("SUCCESS"@)));
}

/// The life of a stored action: a second run of a succeeded action gives back
/// its result as a duplicate, a cancelled action is refused, any other action is
/// run; a run that failed is stored as failed and reported as such.
pub proof fn lemma_action_life_cycle(action: Json, error: Seq<char>, now: Seq<char>, d: int)
    requires
        field(action, "entity"@) == Some(jstr("agentActions"@)),
    ensures
        status_is(action, "SUCCESS"@) ==> begin_of(action) == Ok::<Result<Json, Json>, Seq<char>>(
            Ok(duplicate_reply(action)),
        ),
        status_is(action, "CANCELLED"@) ==> begin_of(action) == Err::<Result<Json, Json>, Seq<char>>(
            "该 Action 已取消"@,
        ),
        is_obj(action) ==> status_is(failed_of(action, error, now, d), "FAILED"@),
        failure_msg(error).take(5) == "执行失败："@,
{
    reveal_strlit("SUCCESS");
    reveal_strlit("CANCELLED");
    reveal_strlit("status");
    reveal_strlit("error");
    reveal_strlit("completedAt");
    reveal_strlit("duration");
    reveal_strlit("执行失败：");
    assert("SUCCESS"@.len() != "CANCELLED"@.len());
    assert("status"@.len() != "error"@.len());
    assert("status"@.len() != "completedAt"@.len());
    assert("status"@.len() != "duration"@.len());
    assert(failure_msg(error).take(5) =~= "执行失败："@);
}

/// An action that succeeded cannot be cancelled.
pub proof fn lemma_succeeded_action_cannot_be_cancelled(action: Json, record: Json, now: Seq<char>, d: int)
    requires
        is_obj(action),
    ensures
        cancel_of(succeeded_of(action, record, now, d), now) is Err,
{
    lemma_succeeded_status(action, record, now, d);
}

/// A cancelled action is never run.
pub proof fn lemma_cancelled_action_is_not_run(action: Json, now: Seq<char>)
    requires
        cancel_of(action, now) is Ok,
    ensures
        begin_of(cancel_of(action, now)->Ok_0) is Err,
{
    reveal_strlit("status");
    reveal_strlit("completedAt");
    reveal_strlit("SUCCESS");
    reveal_strlit("CANCELLED");
    let c = cancel_of(action, now)->Ok_0;
    assert("status"@.len() != "completedAt"@.len());
    assert(field(c, "status"@) == Some(jstr("CANCELLED"@)));
    assert("CANCELLED"@.len() != "SUCCESS"@.len());
    assert(!status_is(c, "SUCCESS"@));
}

} // verus!
