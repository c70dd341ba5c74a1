//! Asking the assistant: which records go with a question, what the provider
//! is sent, how its reply is read, and what is kept of the exchange. The
//! caller does the database reads, the provider call and the saving between
//! these steps.
use vstd::prelude::*;
use crate::text::{eq_str, concat, own, trim, trimmed, contains, contains_str};
use crate::json::{
    JsonValue, JsonNumber, Json, Num, field, field_str, field_id, as_text, with, jstr, jint, empty_obj,
    is_obj, items_view, lemma_items_push, lemma_items_len, lemma_items_index, json_eq,
};
use crate::catalog::{provider_label, provider_label_of, provider_base_url_of, models_of, provider_models,
    is_provider_name, is_provider, model_description_of, model_description};
use crate::records::{str_items, strs_of, opt_seq};
use crate::agent::{read_only_context, timeline_analysis_is_read_only};

verus! {

// ---------------------------------------------------------------------------
// Records that go with a question.
pub open spec fn add_unique(ids: Seq<Seq<char>>, x: Seq<char>) -> Seq<Seq<char>> {
    if ids.contains(x) {
        ids
    } else {
        ids.push(x)
    }
}

pub open spec fn page_keys() -> Seq<Seq<char>> {
    seq!["currentEntityId"@, "currentGoalId"@, "currentProjectId"@, "currentTaskId"@]
}

pub open spec fn add_page_ids(ids: Seq<Seq<char>>, c: Json, keys: Seq<Seq<char>>) -> Seq<Seq<char>>
    decreases keys.len(),
{
    if keys.len() == 0 {
        ids
    } else {
        let before = add_page_ids(ids, c, keys.drop_last());
        match field_id(c, keys.last()) {
            Some(id) => add_unique(before, id),
            None => before,
        }
    }
}

/// The records the page points at: the selected items, then the entity, goal,
/// project and task on the page, each once.
pub open spec fn context_ids_of(c: Json) -> Seq<Seq<char>> {
    let selected = match field(c, "selectedItems"@) {
        Some(Json::Arr(a)) => str_items(a),
        _ => Seq::empty(),
    };
    add_page_ids(selected, c, page_keys())
}

fn contains_id(ids: &Vec<String>, x: &str) -> (r: bool)
    ensures
        r == strs_of(ids@).contains(x@),
{
    let mut i: usize = 0;
    while i < ids.len()
        invariant
            i <= ids@.len(),
            forall|j: int| 0 <= j < i ==> ids@[j]@ != x@,
        decreases ids.len() - i,
    {
        if eq_str(ids[i].as_str(), x) {
            assert(strs_of(ids@)[i as int] == x@);
            return true;
        }
        i = i + 1;
    }
    proof {
        if strs_of(ids@).contains(x@) {
            let j = choose|j: int| 0 <= j < strs_of(ids@).len() && strs_of(ids@)[j] == x@;
            assert(ids@[j]@ == x@);
        }
    }
    false
}

/// The ids of the records a question is asked about.
pub fn chief_context_ids(page_context: &JsonValue) -> (r: Vec<String>)
    ensures
        strs_of(r@) == context_ids_of(page_context@),
{
    let mut ids: Vec<String> = match page_context.get("selectedItems") {
        Some(v) => match v {
            JsonValue::Array(_) => crate::records::ids_of(v),
            _ => Vec::new(),
        },
        None => Vec::new(),
    };
    proof {
        if !(field(page_context@, "selectedItems"@) matches Some(Json::Arr(_))) {
            assert(strs_of(ids@) =~= Seq::<Seq<char>>::empty());
        }
    }
    let ghost selected = strs_of(ids@);
    let keys = vec!["currentEntityId", "currentGoalId", "currentProjectId", "currentTaskId"];
    let ghost kv = crate::capture::keys_view(keys@);
    assert(kv =~= page_keys());
    let mut i: usize = 0;
    assert(kv.take(0) =~= Seq::<Seq<char>>::empty());
    while i < keys.len()
        invariant
            i <= keys@.len(),
            kv == crate::capture::keys_view(keys@),
            kv == page_keys(),
            strs_of(ids@) == add_page_ids(selected, page_context@, kv.take(i as int)),
        decreases keys.len() - i,
    {
        proof {
            assert(kv.take(i + 1).drop_last() =~= kv.take(i as int));
            assert(kv.take(i + 1).last() == keys@[i as int]@);
        }
        match page_context.id_of(keys[i]) {
            Some(id) => {
                if !contains_id(&ids, id.as_str()) {
                    let ghost before = strs_of(ids@);
                    let ghost idv = id@;
                    ids.push(id);
                    assert(strs_of(ids@) =~= before.push(idv));
                }
            },
            None => {},
        }
        i = i + 1;
    }
    assert(kv.take(i as int) =~= kv);
    ids
}

/// A record's id as the comparison of records sees it (`null` when missing).
pub open spec fn rec_id(r: Json) -> Json {
    match field(r, "id"@) {
        Some(x) => x,
        None => Json::Null,
    }
}

pub open spec fn has_record(list: Seq<Json>, r: Json) -> bool {
    exists|i: int| 0 <= i < list.len() && rec_id(list[i]) == rec_id(r)
}

fn id_value(r: &JsonValue) -> (v: JsonValue)
    ensures
        v@ == rec_id(r@),
{
    match r.get("id") {
        Some(x) => x.duplicate(),
        None => JsonValue::Null,
    }
}

/// Whether the list already holds a record with the id of `r`.
pub fn holds_record(list: &Vec<JsonValue>, r: &JsonValue) -> (b: bool)
    ensures
        b == has_record(items_view(list@), r@),
{
    let target = id_value(r);
    proof {
        lemma_items_len(list@);
    }
    let mut i: usize = 0;
    while i < list.len()
        invariant
            i <= list@.len(),
            target@ == rec_id(r@),
            items_view(list@).len() == list@.len(),
            forall|j: int| 0 <= j < i ==> rec_id(#[trigger] items_view(list@)[j]) != rec_id(r@),
        decreases list.len() - i,
    {
        let v = id_value(&list[i]);
        proof {
            lemma_items_index(list@, i as int);
        }
        if json_eq(&v, &target) {
            return true;
        }
        i = i + 1;
    }
    false
}

/// Puts `r` at the front of the list unless a record with its id is there.
pub fn context_push_front(list: &mut Vec<JsonValue>, r: JsonValue)
    ensures
        items_view(final(list)@) == (if has_record(items_view(old(list)@), r@) {
            items_view(old(list)@)
        } else {
            seq![r@] + items_view(old(list)@)
        }),
{
    if !holds_record(list, &r) {
        let ghost before = list@;
        let ghost rv = r@;
        list.insert(0, r);
        proof {
            assert(list@ =~= seq![list@[0]] + before);
            lemma_items_len(list@);
            lemma_items_len(before);
            assert forall|j: int| 0 <= j < list@.len() implies #[trigger] items_view(list@)[j] == (seq![rv]
                + items_view(before))[j] by {
                lemma_items_index(list@, j);
                if j > 0 {
                    lemma_items_index(before, j - 1);
                    assert(list@[j] == before[j - 1]);
                }
            }
            assert(items_view(list@) =~= seq![rv] + items_view(before));
        }
    }
}

/// Puts `r` at the end of the list unless a record with its id is there.
pub fn context_push_back(list: &mut Vec<JsonValue>, r: JsonValue)
    ensures
        items_view(final(list)@) == (if has_record(items_view(old(list)@), r@) {
            items_view(old(list)@)
        } else {
            items_view(old(list)@).push(r@)
        }),
{
    if !holds_record(list, &r) {
        proof {
            lemma_items_push(list@, r);
        }
        list.push(r);
    }
}

/// How many records of one kind (mental models, briefs, signals, ...) the
/// assistant's context takes.
pub const CONTEXT_BATCH: usize = 12;

/// How many verified external items the assistant is shown.
pub const VERIFIED_ITEMS_SHOWN: i64 = 30;

/// The list after `context_push_back` of `r`.
pub open spec fn pushed_back_of(list: Seq<Json>, r: Json) -> Seq<Json> {
    if has_record(list, r) {
        list
    } else {
        list.push(r)
    }
}

/// The list after `context_push_back` of each of `rs`, in order.
pub open spec fn pushed_all_of(list: Seq<Json>, rs: Seq<Json>) -> Seq<Json>
    decreases rs.len(),
{
    if rs.len() == 0 {
        list
    } else {
        pushed_back_of(pushed_all_of(list, rs.drop_last()), rs.last())
    }
}

/// Adds the first `CONTEXT_BATCH` of `records` at the end of the list, each
/// unless a record with its id is there already.
pub fn context_push_batch(list: &mut Vec<JsonValue>, records: Vec<JsonValue>)
    ensures
        items_view(final(list)@) == pushed_all_of(
            items_view(old(list)@),
            items_view(records@).take(if records@.len() < 12 { records@.len() as int } else { 12 }),
        ),
{
    let ghost rv = items_view(records@);
    let ghost l0 = items_view(list@);
    let n: usize = if records.len() < CONTEXT_BATCH {
        records.len()
    } else {
        CONTEXT_BATCH
    };
    proof {
        lemma_items_len(records@);
        assert(rv.take(0) =~= Seq::<Json>::empty());
    }
    let mut i: usize = 0;
    while i < n
        invariant
            i <= n,
            n <= records@.len(),
            n == (if records@.len() < 12 { records@.len() as int } else { 12 }),
            rv == items_view(records@),
            rv.len() == records@.len(),
            items_view(list@) == pushed_all_of(l0, rv.take(i as int)),
        decreases n - i,
    {
        let r = records[i].duplicate();
        proof {
            lemma_items_index(records@, i as int);
            assert(rv.take(i + 1).drop_last() =~= rv.take(i as int));
            assert(rv.take(i + 1).last() == r@);
        }
        context_push_back(list, r);
        i = i + 1;
    }
}

/// At most 48 records go with a question.
pub fn truncate_context(list: &mut Vec<JsonValue>)
    ensures
        items_view(final(list)@) == (if items_view(old(list)@).len() > 48 {
            items_view(old(list)@).take(48)
        } else {
            items_view(old(list)@)
        }),
{
    let ghost before = list@;
    proof {
        lemma_items_len(before);
    }
    list.truncate(48);
    proof {
        lemma_items_len(list@);
        if before.len() > 48 {
            assert forall|j: int| 0 <= j < 48 implies #[trigger] items_view(list@)[j] == items_view(
                before,
            ).take(48)[j] by {
                lemma_items_index(list@, j);
                lemma_items_index(before, j);
            }
            assert(items_view(list@) =~= items_view(before).take(48));
        } else {
            assert(list@ =~= before);
        }
    }
}

pub open spec fn external_keywords() -> Seq<Seq<char>> {
    seq!["市场"@, "竞品"@, "外部信号"@, "机会"@, "趋势"@, "RedFox"@, "抖音"@, "小红书"@, "公众号"@]
}

/// Whether the question concerns outside intelligence: asked from that page,
/// or naming one of its subjects.
pub open spec fn external_question_of(c: Json, question: Seq<char>) -> bool {
    field_str(c, "currentRoute"@) == Some("externalIntelligence"@) || exists|i: int|
        0 <= i < external_keywords().len() && contains(question, #[trigger] external_keywords()[i])
}

pub fn is_external_question(page_context: &JsonValue, question: &str) -> (r: bool)
    ensures
        r == external_question_of(page_context@, question@),
{
    let route = match page_context.get_str("currentRoute") {
        Some(s) => eq_str(s, "externalIntelligence"),
        None => false,
    };
    if route {
        return true;
    }
    let kws = vec!["市场", "竞品", "外部信号", "机会", "趋势", "RedFox", "抖音", "小红书", "公众号"];
    let ghost kv = crate::capture::keys_view(kws@);
    assert(kv =~= external_keywords());
    let mut i: usize = 0;
    while i < kws.len()
        invariant
            i <= kws@.len(),
            kv == crate::capture::keys_view(kws@),
            kv == external_keywords(),
            forall|j: int| 0 <= j < i ==> !contains(question@, #[trigger] kv[j]),
        decreases kws.len() - i,
    {
        if contains_str(question, kws[i]) {
            assert(contains(question@, kv[i as int]));
            return true;
        }
        i = i + 1;
    }
    false
}

// ---------------------------------------------------------------------------
// What the provider is sent.
pub open spec fn chat_message(role: Seq<char>, content: Seq<char>) -> Json {
    Json::Obj(Map::empty().insert("role"@, jstr(role)).insert("content"@, jstr(content)))
}

/// The kept messages of a conversation: of its last ten, those from the user
/// or the assistant that have a text.
pub open spec fn kept_messages(h: Seq<Json>) -> Seq<Json>
    decreases h.len(),
{
    if h.len() == 0 {
        Seq::empty()
    } else {
        let rest = kept_messages(h.drop_last());
        let m = h.last();
        match (field_str(m, "role"@), field_str(m, "content"@)) {
            (Some(role), Some(content)) => if role == "user"@ || role == "assistant"@ {
                rest.push(chat_message(role, content))
            } else {
                rest
            },
            _ => rest,
        }
    }
}

pub open spec fn recent_of(h: Seq<Json>) -> Seq<Json> {
    if h.len() > 10 {
        kept_messages(h.skip(h.len() - 10))
    } else {
        kept_messages(h)
    }
}

fn chat_message_value(role: &str, content: &str) -> (r: JsonValue)
    ensures
        crate::json::json_wf(r),
        r@ == chat_message(role@, content@),
{
    let mut o = JsonValue::empty_object();
    o.insert("role", JsonValue::text(role));
    o.insert("content", JsonValue::text(content));
    o
}

/// The earlier messages sent along with a question.
pub fn recent_messages(history: &[JsonValue]) -> (r: Vec<JsonValue>)
    ensures
        crate::json::all_wf(history@) ==> crate::json::all_wf(r@),
        items_view(r@) == recent_of(crate::records::views(history@)),
{
    let ghost hv = crate::records::views(history@);
    let n = history.len();
    let skip: usize = if n > 10 {
        n - 10
    } else {
        0
    };
    let ghost tail = hv.skip(skip as int);
    assert(tail.len() == n - skip);
    let mut out: Vec<JsonValue> = Vec::new();
    let mut i: usize = skip;
    assert(tail.take(0) =~= Seq::<Json>::empty());
    proof {
        crate::json::lemma_items_empty();
    }
    while i < n
        invariant
            skip <= i <= n,
            n == history@.len(),
            hv == crate::records::views(history@),
            tail == hv.skip(skip as int),
            items_view(out@) == kept_messages(tail.take(i - skip)),
            crate::json::all_wf(out@),
        decreases n - i,
    {
        proof {
            assert(tail.take(i - skip + 1).drop_last() =~= tail.take(i - skip));
            assert(tail.take(i - skip + 1).last() == history@[i as int]@);
        }
        let m = &history[i];
        match (m.get_str("role"), m.get_str("content")) {
            (Some(role), Some(content)) => {
                if eq_str(role, "user") || eq_str(role, "assistant") {
                    let item = chat_message_value(role, content);
                    proof {
                        lemma_items_push(out@, item);
                    }
                    let ghost before = out@;
                    out.push(item);
                    proof {
                        assert forall|z: int| 0 <= z < out@.len() implies crate::json::json_wf(#[trigger] out@[z]) by {
                            if z < before.len() {
                                assert(out@[z] == before[z]);
                            }
                        }
                    }
                }
            },
            _ => {},
        }
        i = i + 1;
    }
    proof {
        assert(tail.take(i - skip) =~= tail);
        if n <= 10 {
            assert(hv.skip(0) =~= hv);
        }
    }
    out
}

pub open spec fn question_text_of(
    page_json: Seq<char>,
    schema_json: Seq<char>,
    tools_json: Seq<char>,
    context_json: Seq<char>,
    question: Seq<char>,
) -> Seq<char> {
    "当前页面上下文：\n"@ + page_json + "\n\nJason OS Schema Registry：\n"@ + schema_json
        + "\n\n允许使用的 Tool Registry：\n"@ + tools_json + "\n\n相关本地记录与可调用思维模型：\n"@
        + context_json + "\n\n当前用户请求：\n"@ + question
}

/// The user's message: the page, the schema, the tools and the records, then the question.
pub fn chief_user_message(
    page_json: &str,
    schema_json: &str,
    tools_json: &str,
    context_json: &str,
    question: &str,
) -> (r: JsonValue)
    ensures
        crate::json::json_wf(r),
        r@ == chat_message(
            "user"@,
            question_text_of(page_json@, schema_json@, tools_json@, context_json@, question@),
        ),
{
    let a = concat("当前页面上下文：\n", page_json);
    let b = concat(a.as_str(), "\n\nJason OS Schema Registry：\n");
    let c = concat(b.as_str(), schema_json);
    let d = concat(c.as_str(), "\n\n允许使用的 Tool Registry：\n");
    let e = concat(d.as_str(), tools_json);
    let f = concat(e.as_str(), "\n\n相关本地记录与可调用思维模型：\n");
    let g = concat(f.as_str(), context_json);
    let h = concat(g.as_str(), "\n\n当前用户请求：\n");
    let t = concat(h.as_str(), question);
    chat_message_value("user", t.as_str())
}

// ---------------------------------------------------------------------------
// Reading the reply.
pub open spec fn opt_json(v: Option<&JsonValue>) -> Option<Json> {
    match v {
        Some(x) => Some(x@),
        None => None,
    }
}

/// The answer the user sees: the reply's `answer`, else the whole reply, trimmed.
pub open spec fn answer_of(raw: Seq<char>, parsed: Option<Json>) -> Seq<char> {
    let a = match parsed {
        Some(p) => field_str(p, "answer"@),
        None => None,
    };
    match a {
        Some(s) => trimmed(s),
        None => trimmed(raw),
    }
}

pub fn chief_answer(raw: &str, parsed: Option<&JsonValue>) -> (r: String)
    ensures
        r@ == answer_of(raw@, opt_json(parsed)),
{
    let a = match parsed {
        Some(p) => p.get_str("answer"),
        None => None,
    };
    match a {
        Some(s) => trim(s),
        None => trim(raw),
    }
}

/// The reply proposes an action, and the page allows one.
pub open spec fn wants_action_of(page: Json, parsed: Option<Json>) -> bool {
    !read_only_context(page) && match parsed {
        Some(p) => field_str(p, "mode"@) == Some("action"@),
        None => false,
    }
}

pub fn wants_action(page_context: &JsonValue, parsed: Option<&JsonValue>) -> (r: bool)
    ensures
        r == wants_action_of(page_context@, opt_json(parsed)),
{
    if timeline_analysis_is_read_only(page_context) {
        return false;
    }
    match parsed {
        Some(p) => match p.get_str("mode") {
            Some(m) => eq_str(m, "action"),
            None => false,
        },
        None => false,
    }
}

/// What the user is told once the proposed action is recorded, or why it was not.
pub open spec fn answer_after_action_of(saved: Result<Json, Seq<char>>) -> Seq<char> {
    match saved {
        Ok(a) => if field_str(a, "status"@) == Some("SUCCESS"@) {
            "相同操作已经执行成功，为避免重复，没有再次创建。"@
        } else {
            (match field_str(a, "previewTitle"@) {
                Some(t) => t,
                None => "我已整理好本次操作"@,
            }) + "。请确认后执行。"@
        },
        Err(e) => "我理解了你的操作意图，但当前还不能安全执行："@ + e,
    }
}

pub fn answer_after_action(saved: Result<&JsonValue, &str>) -> (r: String)
    ensures
        r@ == answer_after_action_of(
            match saved {
                Ok(a) => Ok(a@),
                Err(e) => Err(e@),
            },
        ),
{
    match saved {
        Ok(a) => {
            let success = match a.get_str("status") {
                Some(s) => eq_str(s, "SUCCESS"),
                None => false,
            };
            if success {
                own("相同操作已经执行成功，为避免重复，没有再次创建。")
            } else {
                let t = match a.get_str("previewTitle") {
                    Some(t) => own(t),
                    None => own("我已整理好本次操作"),
                };
                concat(t.as_str(), "。请确认后执行。")
            }
        },
        Err(e) => concat("我理解了你的操作意图，但当前还不能安全执行：", e),
    }
}

// ---------------------------------------------------------------------------
// What is kept of the exchange.
pub open spec fn null_or(v: Option<Json>) -> Json {
    match v {
        Some(x) => x,
        None => Json::Null,
    }
}

pub open spec fn run_record_of(
    id: Seq<char>,
    provider: Seq<char>,
    question: Seq<char>,
    context: Seq<Json>,
    page: Json,
    answer: Seq<char>,
    action: Option<Json>,
    model: Seq<char>,
    started: Seq<char>,
    completed: Seq<char>,
) -> Json {
    Json::Obj(
        Map::empty().insert("id"@, jstr(id)).insert("agentType"@, jstr(provider + "-agent-planner"@)).insert(
            "provider"@,
            jstr(provider),
        ).insert("input"@, jstr(question)).insert("context"@, Json::Arr(context)).insert("pageContext"@, page).insert(
            "output"@,
            jstr(answer),
        ).insert(
            "actionId"@,
            null_or(
                match action {
                    Some(a) => field(a, "actionId"@),
                    None => None,
                },
            ),
        ).insert("status"@, jstr("completed"@)).insert("model"@, jstr(model)).insert("startedAt"@, jstr(started)).insert(
            "completedAt"@,
            jstr(completed),
        ),
    )
}

/// The record of one exchange with the assistant.
pub fn agent_run_record(
    id: &str,
    provider: &str,
    question: &str,
    context: &Vec<JsonValue>,
    page_context: &JsonValue,
    answer: &str,
    action: Option<&JsonValue>,
    model: &str,
    started: &str,
    completed: &str,
) -> (r: JsonValue)
    ensures
        crate::json::all_wf(context@) && crate::json::json_wf(*page_context) && (action matches Some(a) ==> crate::json::json_wf(*a)) ==> crate::json::json_wf(r),
        r@ == run_record_of(
            id@,
            provider@,
            question@,
            items_view(context@),
            page_context@,
            answer@,
            opt_json(action),
            model@,
            started@,
            completed@,
        ),
{
    let mut items: Vec<JsonValue> = Vec::new();
    let mut i: usize = 0;
    proof {
        lemma_items_len(context@);
        crate::json::lemma_items_empty();
        assert(items_view(context@).take(0) =~= Seq::<Json>::empty());
    }
    while i < context.len()
        invariant
            i <= context@.len(),
            items_view(context@).len() == context@.len(),
            items_view(items@) == items_view(context@).take(i as int),
            items@.len() == i,
            crate::json::all_wf(context@) ==> crate::json::all_wf(items@),
        decreases context.len() - i,
    {
        let item = context[i].duplicate();
        proof {
            lemma_items_push(items@, item);
            lemma_items_index(context@, i as int);
        }
        items.push(item);
        i = i + 1;
        assert(items_view(items@) =~= items_view(context@).take(i as int));
    }
    assert(items_view(context@).take(i as int) =~= items_view(context@));
    proof {
        crate::json::lemma_items_wf(items@);
    }
    let action_id = match action {
        Some(a) => match a.get("actionId") {
            Some(x) => x.duplicate(),
            None => JsonValue::Null,
        },
        None => JsonValue::Null,
    };
    let mut o = JsonValue::empty_object();
    o.insert("id", JsonValue::text(id));
    o.insert("agentType", JsonValue::from_string(concat(provider, "-agent-planner")));
    o.insert("provider", JsonValue::text(provider));
    o.insert("input", JsonValue::text(question));
    o.insert("context", JsonValue::Array(items));
    o.insert("pageContext", page_context.duplicate());
    o.insert("output", JsonValue::text(answer));
    o.insert("actionId", action_id);
    o.insert("status", JsonValue::text("completed"));
    o.insert("model", JsonValue::text(model));
    o.insert("startedAt", JsonValue::text(started));
    o.insert("completedAt", JsonValue::text(completed));
    o
}

pub open spec fn reply_of(saved_run: Json, action: Option<Json>) -> Json {
    Json::Obj(
        Map::empty().insert("answer"@, null_or(field(saved_run, "output"@))).insert(
            "context"@,
            null_or(field(saved_run, "context"@)),
        ).insert("action"@, null_or(action)).insert("agentRun"@, saved_run),
    )
}

fn field_or_null(j: &JsonValue, k: &str) -> (r: JsonValue)
    ensures
        crate::json::json_wf(*j) ==> crate::json::json_wf(r),
        r@ == null_or(field(j@, k@)),
{
    match j.get(k) {
        Some(x) => x.duplicate(),
        None => JsonValue::Null,
    }
}

/// What the user gets back: the answer, the records used, the proposed action
/// and the kept exchange.
pub fn chief_reply(saved_run: &JsonValue, action: Option<&JsonValue>) -> (r: JsonValue)
    ensures
        crate::json::json_wf(*saved_run) && (action matches Some(a) ==> crate::json::json_wf(*a)) ==> crate::json::json_wf(r),
        r@ == reply_of(saved_run@, opt_json(action)),
{
    let mut o = JsonValue::empty_object();
    o.insert("answer", field_or_null(saved_run, "output"));
    o.insert("context", field_or_null(saved_run, "context"));
    let a = match action {
        Some(x) => x.duplicate(),
        None => JsonValue::Null,
    };
    o.insert("action", a);
    o.insert("agentRun", saved_run.duplicate());
    o
}

pub open spec fn verified_items_of(items: Seq<Json>) -> Json {
    Json::Obj(
        Map::empty().insert("id"@, jstr("verified-external-items"@)).insert("entity"@, jstr("dataRecords"@)).insert(
            "type"@,
            jstr("VERIFIED_EXTERNAL_TOOL_RESULT"@),
        ).insert("title"@, jstr("外部情报已验证内容样本"@)).insert("items"@, Json::Arr(items)).insert(
            "evidenceLevel"@,
            jstr("REALITY"@),
        ),
    )
}

/// The record that carries verified captured items along with a question.
pub fn verified_external_record(items: Vec<JsonValue>) -> (r: JsonValue)
    ensures
        crate::json::all_wf(items@) ==> crate::json::json_wf(r),
        r@ == verified_items_of(items_view(items@)),
{
    let mut o = JsonValue::empty_object();
    o.insert("id", JsonValue::text("verified-external-items"));
    o.insert("entity", JsonValue::text("dataRecords"));
    o.insert("type", JsonValue::text("VERIFIED_EXTERNAL_TOOL_RESULT"));
    o.insert("title", JsonValue::text("外部情报已验证内容样本"));
    proof {
        crate::json::lemma_items_wf(items@);
    }
    o.insert("items", JsonValue::Array(items));
    o.insert("evidenceLevel", JsonValue::text("REALITY"));
    o
}

// ---------------------------------------------------------------------------
// Talking to a provider.
pub open spec fn disabled_thinking() -> Json {
    Json::Obj(Map::empty().insert("type"@, jstr("disabled"@)))
}

/// The request body each provider expects.
pub open spec fn payload_of(
    provider: Seq<char>,
    model: Seq<char>,
    system: Seq<char>,
    messages: Seq<Json>,
    max_tokens: int,
) -> Json {
    if provider == "volc-agent-plan"@ {
        Json::Obj(
            Map::empty().insert("model"@, jstr(model)).insert("instructions"@, jstr(system)).insert(
                "input"@,
                Json::Arr(messages),
            ).insert("max_output_tokens"@, jint(max_tokens)).insert("thinking"@, disabled_thinking()),
        )
    } else if provider == "minimax"@ {
        Json::Obj(
            Map::empty().insert("model"@, jstr(model)).insert("system"@, jstr(system)).insert(
                "messages"@,
                Json::Arr(messages),
            ).insert("max_tokens"@, jint(max_tokens)),
        )
    } else {
        let base = Map::empty().insert("model"@, jstr(model)).insert("temperature"@, Json::Num(Num::Float("0.2"@))).insert(
            "messages"@,
            Json::Arr(seq![chat_message("system"@, system)] + messages),
        ).insert("max_tokens"@, jint(max_tokens));
        if provider == "deepseek"@ {
            Json::Obj(base.insert("thinking"@, disabled_thinking()))
        } else {
            Json::Obj(base)
        }
    }
}

fn disabled_thinking_value() -> (r: JsonValue)
    ensures
        crate::json::json_wf(r),
        r@ == disabled_thinking(),
{
    let mut o = JsonValue::empty_object();
    o.insert("type", JsonValue::text("disabled"));
    o
}

fn copy_all(v: &Vec<JsonValue>) -> (r: Vec<JsonValue>)
    ensures
        items_view(r@) == items_view(v@),
        crate::json::all_wf(v@) ==> crate::json::items_wf(r@),
{
    let mut out: Vec<JsonValue> = Vec::new();
    let mut i: usize = 0;
    proof {
        lemma_items_len(v@);
        crate::json::lemma_items_empty();
        assert(items_view(v@).take(0) =~= Seq::<Json>::empty());
    }
    while i < v.len()
        invariant
            i <= v@.len(),
            items_view(v@).len() == v@.len(),
            items_view(out@) == items_view(v@).take(i as int),
            out@.len() == i,
            crate::json::all_wf(v@) ==> crate::json::all_wf(out@),
        decreases v.len() - i,
    {
        let item = v[i].duplicate();
        proof {
            lemma_items_push(out@, item);
            lemma_items_index(v@, i as int);
        }
        out.push(item);
        i = i + 1;
        assert(items_view(out@) =~= items_view(v@).take(i as int));
    }
    assert(items_view(v@).take(i as int) =~= items_view(v@));
    proof {
        crate::json::lemma_items_wf(out@);
    }
    out
}

/// The request body for `provider`.
pub fn provider_payload(
    provider: &str,
    model: &str,
    system: &str,
    messages: &Vec<JsonValue>,
    max_tokens: u64,
) -> (r: JsonValue)
    ensures
        crate::json::all_wf(messages@) ==> crate::json::json_wf(r),
        r@ == payload_of(provider@, model@, system@, items_view(messages@), max_tokens as int),
{
    let mut o = JsonValue::empty_object();
    if eq_str(provider, "volc-agent-plan") {
        o.insert("model", JsonValue::text(model));
        o.insert("instructions", JsonValue::text(system));
        o.insert("input", JsonValue::Array(copy_all(messages)));
        o.insert("max_output_tokens", JsonValue::Number(JsonNumber::PosInt(max_tokens)));
        o.insert("thinking", disabled_thinking_value());
    } else if eq_str(provider, "minimax") {
        o.insert("model", JsonValue::text(model));
        o.insert("system", JsonValue::text(system));
        o.insert("messages", JsonValue::Array(copy_all(messages)));
        o.insert("max_tokens", JsonValue::Number(JsonNumber::PosInt(max_tokens)));
    } else {
        let mut chat: Vec<JsonValue> = Vec::new();
        let first = chat_message_value("system", system);
        proof {
            crate::json::lemma_items_empty();
            lemma_items_push(chat@, first);
        }
        chat.push(first);
        assert(chat@[0] == first);
        let ghost head = items_view(chat@);
        assert(head =~= seq![chat_message("system"@, system@)]);
        let mut i: usize = 0;
        proof {
            lemma_items_len(messages@);
            assert(items_view(messages@).take(0) =~= Seq::<Json>::empty());
        }
        while i < messages.len()
            invariant
                i <= messages@.len(),
                items_view(messages@).len() == messages@.len(),
                head == seq![chat_message("system"@, system@)],
                items_view(chat@) == head + items_view(messages@).take(i as int),
                chat@.len() == i + 1,
                crate::json::all_wf(messages@) ==> crate::json::all_wf(chat@),
            decreases messages.len() - i,
        {
            let item = messages[i].duplicate();
            proof {
                lemma_items_push(chat@, item);
                lemma_items_index(messages@, i as int);
            }
            chat.push(item);
            i = i + 1;
            assert(items_view(chat@) =~= head + items_view(messages@).take(i as int));
        }
        assert(items_view(messages@).take(i as int) =~= items_view(messages@));
        proof {
            crate::json::lemma_items_wf(chat@);
        }
        o.insert("model", JsonValue::text(model));
        o.insert("temperature", JsonValue::Number(JsonNumber::Float(own("0.2"))));
        o.insert("messages", JsonValue::Array(chat));
        o.insert("max_tokens", JsonValue::Number(JsonNumber::PosInt(max_tokens)));
        if eq_str(provider, "deepseek") {
            o.insert("thinking", disabled_thinking_value());
        }
    }
    o
}

pub open spec fn arr_of(v: Option<Json>) -> Seq<Json> {
    match v {
        Some(Json::Arr(a)) => a,
        _ => Seq::empty(),
    }
}

/// The texts of the items of type `ty`, joined.
pub open spec fn texts_of_type(items: Seq<Json>, ty: Seq<char>) -> Seq<char>
    decreases items.len(),
{
    if items.len() == 0 {
        Seq::empty()
    } else {
        let it = items.last();
        texts_of_type(items.drop_last(), ty) + if field(it, "type"@) == Some(jstr(ty)) && field_str(
            it,
            "text"@,
        ) is Some {
            field_str(it, "text"@)->Some_0
        } else {
            Seq::empty()
        }
    }
}

pub open spec fn output_texts(outs: Seq<Json>) -> Seq<char>
    decreases outs.len(),
{
    if outs.len() == 0 {
        Seq::empty()
    } else {
        output_texts(outs.drop_last()) + texts_of_type(arr_of(field(outs.last(), "content"@)), "output_text"@)
    }
}

/// `provider_response_text`: the text of a provider's reply.
pub open spec fn response_text_of(provider: Seq<char>, r: Json) -> Seq<char> {
    if provider == "volc-agent-plan"@ {
        output_texts(arr_of(field(r, "output"@)))
    } else if provider == "minimax"@ {
        texts_of_type(arr_of(field(r, "content"@)), "text"@)
    } else {
        let choices = arr_of(field(r, "choices"@));
        let first = if choices.len() > 0 {
            Some(choices[0])
        } else {
            None
        };
        let message = match first {
            Some(c) => field(c, "message"@),
            None => None,
        };
        match message {
            Some(m) => match field_str(m, "content"@) {
                Some(t) => t,
                None => Seq::empty(),
            },
            None => Seq::empty(),
        }
    }
}

fn push_all_text(out: &mut String, t: &str)
    ensures
        final(out)@ == old(out)@ + t@,
{
    let cs = crate::text::chars_of(t);
    let ghost start = out@;
    let mut i: usize = 0;
    while i < cs.len()
        invariant
            i <= cs@.len(),
            cs@ == t@,
            out@ == start + cs@.take(i as int),
        decreases cs.len() - i,
    {
        out.push(cs[i]);
        i = i + 1;
        assert(out@ =~= start + cs@.take(i as int));
    }
    assert(cs@.take(i as int) =~= t@);
}

fn append_texts_of_type(out: &mut String, items: &JsonValue, ty: &str)
    ensures
        final(out)@ == old(out)@ + texts_of_type(arr_of(Some(items@)), ty@),
{
    match items {
        JsonValue::Array(a) => {
            let ghost start = out@;
            let ghost av = items_view(a@);
            proof {
                lemma_items_len(a@);
            }
            let mut i: usize = 0;
            assert(av.take(0) =~= Seq::<Json>::empty());
            while i < a.len()
                invariant
                    i <= a@.len(),
                    *items == JsonValue::Array(*a),
                    av == items_view(a@),
                    av.len() == a@.len(),
                    out@ == start + texts_of_type(av.take(i as int), ty@),
                decreases a.len() - i,
            {
                proof {
                    lemma_items_index(a@, i as int);
                    assert(av.take(i + 1).drop_last() =~= av.take(i as int));
                    assert(av.take(i + 1).last() == a@[i as int]@);
                }
                let it = &a[i];
                let typed = match it.get("type") {
                    Some(JsonValue::Str(s)) => eq_str(s.as_str(), ty),
                    _ => false,
                };
                if typed {
                    match it.get_str("text") {
                        Some(t) => push_all_text(out, t),
                        None => {},
                    }
                }
                i = i + 1;
                assert(out@ =~= start + texts_of_type(av.take(i as int), ty@));
            }
            assert(av.take(i as int) =~= av);
        },
        _ => {
            assert(out@ =~= old(out)@ + texts_of_type(arr_of(Some(items@)), ty@));
        },
    }
}

/// The text of a provider's reply.
pub fn provider_response_text(provider: &str, response: &JsonValue) -> (r: String)
    ensures
        r@ == response_text_of(provider@, response@),
{
    let mut out = String::new();
    if eq_str(provider, "volc-agent-plan") {
        match response.get("output") {
            Some(JsonValue::Array(outs)) => {
                let ghost ov = items_view(outs@);
                proof {
                    lemma_items_len(outs@);
                }
                let mut i: usize = 0;
                assert(ov.take(0) =~= Seq::<Json>::empty());
                while i < outs.len()
                    invariant
                        i <= outs@.len(),
                        ov == items_view(outs@),
                        ov.len() == outs@.len(),
                        out@ == output_texts(ov.take(i as int)),
                    decreases outs.len() - i,
                {
                    proof {
                        lemma_items_index(outs@, i as int);
                        assert(ov.take(i + 1).drop_last() =~= ov.take(i as int));
                        assert(ov.take(i + 1).last() == outs@[i as int]@);
                    }
                    match outs[i].get("content") {
                        Some(c) => append_texts_of_type(&mut out, c, "output_text"),
                        None => {},
                    }
                    i = i + 1;
                }
                assert(ov.take(i as int) =~= ov);
            },
            _ => {},
        }
        out
    } else if eq_str(provider, "minimax") {
        match response.get("content") {
            Some(c) => append_texts_of_type(&mut out, c, "text"),
            None => {},
        }
        out
    } else {
        match response.get("choices") {
            Some(JsonValue::Array(cs)) => {
                proof {
                    lemma_items_len(cs@);
                }
                if cs.len() > 0 {
                    proof {
                        lemma_items_index(cs@, 0);
                    }
                    match cs[0].get("message") {
                        Some(m) => match m.get_str("content") {
                            Some(t) => own(t),
                            None => out,
                        },
                        None => out,
                    }
                } else {
                    out
                }
            },
            _ => out,
        }
    }
}

/// The reason a provider gives for refusing a request.
pub open spec fn error_reason_of(r: Json) -> Seq<char> {
    let a = match field(r, "error"@) {
        Some(e) => field_str(e, "message"@),
        None => None,
    };
    let b = match field(r, "base_resp"@) {
        Some(e) => field_str(e, "status_msg"@),
        None => None,
    };
    match a {
        Some(t) => t,
        None => match b {
            Some(t) => t,
            None => match field_str(r, "message"@) {
                Some(t) => t,
                None => "未知错误"@,
            },
        },
    }
}

pub open spec fn provider_error_of(provider: Seq<char>, status: Seq<char>, r: Json) -> Seq<char> {
    provider_label_of(provider) + " 返回 "@ + status + "："@ + error_reason_of(r)
}

/// The `message` of a reply's `error`.
pub open spec fn error_message_of(r: Json) -> Option<Seq<char>> {
    match field(r, "error"@) {
        Some(e) => field_str(e, "message"@),
        None => None,
    }
}

/// The `status_msg` of a reply's `base_resp`.
pub open spec fn status_message_of(r: Json) -> Option<Seq<char>> {
    match field(r, "base_resp"@) {
        Some(e) => field_str(e, "status_msg"@),
        None => None,
    }
}

/// A refused request is reported with the provider's name, the status and the
/// reason the reply gives: the error's message comes first, then the status
/// message, then the reply's own message, and "未知错误" when it gives none.
pub proof fn lemma_provider_error_text(provider: Seq<char>, status: Seq<char>, r: Json)
    ensures
        provider_error_of(provider, status, r) == provider_label_of(provider) + " 返回 "@ + status + "："@
            + error_reason_of(r),
        error_reason_of(r) == (match error_message_of(r) {
            Some(m) => m,
            None => match status_message_of(r) {
                Some(m) => m,
                None => match field_str(r, "message"@) {
                    Some(m) => m,
                    None => "未知错误"@,
                },
            },
        }),
{
}

/// The error shown when a provider refuses a request with the HTTP `status`.
pub fn provider_error(provider: &str, status: &str, response: &JsonValue) -> (r: String)
    ensures
        r@ == provider_error_of(provider@, status@, response@),
{
    let a = match response.get("error") {
        Some(e) => e.get_str("message"),
        None => None,
    };
    let b = match response.get("base_resp") {
        Some(e) => e.get_str("status_msg"),
        None => None,
    };
    let reason = match a {
        Some(t) => own(t),
        None => match b {
            Some(t) => own(t),
            None => match response.get_str("message") {
                Some(t) => own(t),
                None => own("未知错误"),
            },
        },
    };
    let x = concat(provider_label(provider), " 返回 ");
    let y = concat(x.as_str(), status);
    let z = concat(y.as_str(), "：");
    concat(z.as_str(), reason.as_str())
}

// ---------------------------------------------------------------------------
// Choosing a provider and model.
/// `configure_ai_provider`'s checks: a known provider, and a model it offers
/// (any model for HackStart); an empty model means the provider's first.
pub open spec fn chosen_model_of(provider: Seq<char>, model: Seq<char>) -> Result<Seq<char>, Seq<char>> {
    if !is_provider_name(provider) {
        Err("不支持的 AI 服务商"@)
    } else {
        let chosen = if trimmed(model).len() == 0 {
            models_of(provider)[0]
        } else {
            trimmed(model)
        };
        if provider != "hackstart"@ && !models_of(provider).contains(chosen) {
            Err("模型不在当前支持列表中"@)
        } else {
            Ok(chosen)
        }
    }
}

pub fn choose_model(provider: &str, model: &str) -> (r: Result<String, String>)
    ensures
        match r {
            Ok(m) => chosen_model_of(provider@, model@) == Ok::<Seq<char>, Seq<char>>(m@),
            Err(e) => chosen_model_of(provider@, model@) == Err::<Seq<char>, Seq<char>>(e@),
        },
{
    if !is_provider(provider) {
        return Err(own("不支持的 AI 服务商"));
    }
    let models = provider_models(provider);
    let ghost mv = models@.map_values(|s: &str| s@);
    assert(mv == models_of(provider@));
    let t = trim(model);
    let chosen = if t.as_str().is_empty() {
        proof {
            assert(models@.len() > 0);
            assert(mv[0] == models@[0]@);
        }
        own(models[0])
    } else {
        t
    };
    if !eq_str(provider, "hackstart") {
        let mut found = false;
        let mut i: usize = 0;
        while i < models.len()
            invariant
                i <= models@.len(),
                mv == models@.map_values(|s: &str| s@),
                found == exists|j: int| 0 <= j < i && mv[j] == chosen@,
            decreases models.len() - i,
        {
            let hit = eq_str(models[i], chosen.as_str());
            proof {
                assert(mv[i as int] == models@[i as int]@);
                if !hit {
                    assert forall|j: int| 0 <= j < i + 1 && mv[j] == chosen@ implies 0 <= j < i by {}
                }
            }
            if hit {
                found = true;
            }
            i = i + 1;
        }
        proof {
            if found {
                let j = choose|j: int| 0 <= j < i && mv[j] == chosen@;
                assert(mv.contains(chosen@));
            } else {
                assert forall|j: int| 0 <= j < mv.len() implies mv[j] != chosen@ by {}
            }
        }
        if !found {
            return Err(own("模型不在当前支持列表中"));
        }
    }
    Ok(chosen)
}

pub open spec fn model_entry(model: Seq<char>) -> Json {
    Json::Obj(
        Map::empty().insert("id"@, jstr(model)).insert("label"@, jstr(model)).insert(
            "description"@,
            jstr(model_description_of(model)),
        ),
    )
}

/// What a provider call gives once the reply has been read: the reply and the
/// time the call took for a success status (2xx), else the provider's error
/// text, which names the provider, the status and the reason the reply gives.
pub fn provider_reply(
    provider: &str,
    status_code: u16,
    status_text: &str,
    reply: JsonValue,
    latency_ms: u64,
) -> (r: Result<(JsonValue, u64), String>)
    ensures
        crate::json::json_wf(reply) ==> (r matches Ok(p) ==> crate::json::json_wf(p.0)),
        match r {
            Ok((v, l)) => 200 <= status_code < 300 && v@ == reply@ && l == latency_ms,
            Err(e) => !(200 <= status_code < 300) && e@ == provider_error_of(provider@, status_text@, reply@),
        },
{
    if 200 <= status_code && status_code < 300 {
        Ok((reply, latency_ms))
    } else {
        Err(provider_error(provider, status_text, &reply))
    }
}

pub open spec fn provider_config_of(
    provider: Seq<char>,
    configured: bool,
    model: Seq<char>,
) -> Json {
    Json::Obj(
        Map::empty().insert("id"@, jstr(provider)).insert("label"@, jstr(provider_label_of(provider))).insert(
            "configured"@,
            Json::Bool(configured),
        ).insert("baseUrl"@, jstr(provider_base_url_of(provider))).insert("model"@, jstr(model)).insert(
            "models"@,
            Json::Arr(models_of(provider).map_values(|m: Seq<char>| model_entry(m))),
        ),
    )
}

/// How a provider is shown in the settings; whether its key is configured and
/// which model is selected are read by the caller.
pub fn provider_config(provider: &str, configured: bool, model: &str) -> (r: JsonValue)
    ensures
        crate::json::json_wf(r),
        r@ == provider_config_of(provider@, configured, model@),
{
    let models = provider_models(provider);
    let ghost mv = models@.map_values(|s: &str| s@);
    assert(mv == models_of(provider@));
    let mut entries: Vec<JsonValue> = Vec::new();
    let mut i: usize = 0;
    proof {
        crate::json::lemma_items_empty();
    }
    while i < models.len()
        invariant
            i <= models@.len(),
            mv == models@.map_values(|s: &str| s@),
            items_view(entries@) == mv.take(i as int).map_values(|m: Seq<char>| model_entry(m)),
            crate::json::all_wf(entries@),
        decreases models.len() - i,
    {
        let mut e = JsonValue::empty_object();
        e.insert("id", JsonValue::text(models[i]));
        e.insert("label", JsonValue::text(models[i]));
        e.insert("description", JsonValue::text(model_description(models[i])));
        proof {
            lemma_items_push(entries@, e);
        }
        entries.push(e);
        i = i + 1;
        assert(items_view(entries@) =~= mv.take(i as int).map_values(|m: Seq<char>| model_entry(m)));
    }
    assert(mv.take(i as int) =~= mv);
    proof {
        crate::json::lemma_items_wf(entries@);
    }
    let mut o = JsonValue::empty_object();
    o.insert("id", JsonValue::text(provider));
    o.insert("label", JsonValue::text(provider_label(provider)));
    o.insert("configured", JsonValue::Bool(configured));
    o.insert("baseUrl", JsonValue::text(crate::catalog::provider_base_url(provider)));
    o.insert("model", JsonValue::text(model));
    o.insert("models", JsonValue::Array(entries));
    o
}

pub open spec fn ai_config_of(provider: Seq<char>, current: Json, providers: Seq<Json>) -> Json {
    Json::Obj(
        Map::empty().insert("provider"@, jstr(provider)).insert("providerLabel"@, null_or(field(current, "label"@))).insert(
            "configured"@,
            null_or(field(current, "configured"@)),
        ).insert("model"@, null_or(field(current, "model"@))).insert("baseUrl"@, null_or(field(current, "baseUrl"@))).insert(
            "providers"@,
            Json::Arr(providers),
        ),
    )
}

/// `get_ai_config`: the active provider and every provider's settings.
pub fn ai_config(provider: &str, current: &JsonValue, providers: Vec<JsonValue>) -> (r: JsonValue)
    ensures
        crate::json::json_wf(*current) && crate::json::all_wf(providers@) ==> crate::json::json_wf(r),
        r@ == ai_config_of(provider@, current@, items_view(providers@)),
{
    let mut o = JsonValue::empty_object();
    o.insert("provider", JsonValue::text(provider));
    o.insert("providerLabel", field_or_null(current, "label"));
    o.insert("configured", field_or_null(current, "configured"));
    o.insert("model", field_or_null(current, "model"));
    o.insert("baseUrl", field_or_null(current, "baseUrl"));
    proof {
        crate::json::lemma_items_wf(providers@);
    }
    o.insert("providers", JsonValue::Array(providers));
    o
}

} // verus!
