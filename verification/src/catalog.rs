//! Fixed vocabularies: the record kinds, the relation fields, the agent tools
//! and the AI providers.
use vstd::prelude::*;
use crate::text::{eq_str, ends_with_str, lowercase, lowercase_of, contains, contains_str, starts_with, starts_with_str};

verus! {


/// The record kinds that can be stored.
pub open spec fn is_entity_name(entity: Seq<char>) -> bool {
    ||| entity == "goals"@
    ||| entity == "keyResults"@
    ||| entity == "projects"@
    ||| entity == "tasks"@
    ||| entity == "hypotheses"@
    ||| entity == "experiments"@
    ||| entity == "timeLogs"@
    ||| entity == "results"@
    ||| entity == "reviews"@
    ||| entity == "knowledge"@
    ||| entity == "insights"@
    ||| entity == "principles"@
    ||| entity == "mentalModels"@
    ||| entity == "mentalModelUsages"@
    ||| entity == "decisions"@
    ||| entity == "inbox"@
    ||| entity == "events"@
    ||| entity == "people"@
    ||| entity == "dataRecords"@
    ||| entity == "attachments"@
    ||| entity == "timelineEvents"@
    ||| entity == "agentRuns"@
    ||| entity == "agentActions"@
    ||| entity == "externalSources"@
    ||| entity == "signals"@
    ||| entity == "opportunities"@
    ||| entity == "intelligenceBriefs"@
}

/// Whether `entity` is one of the declared record kinds.
pub fn is_entity(entity: &str) -> (r: bool)
    ensures
        r == is_entity_name(entity@),
{
    eq_str(entity, "goals") ||
        eq_str(entity, "keyResults") ||
        eq_str(entity, "projects") ||
        eq_str(entity, "tasks") ||
        eq_str(entity, "hypotheses") ||
        eq_str(entity, "experiments") ||
        eq_str(entity, "timeLogs") ||
        eq_str(entity, "results") ||
        eq_str(entity, "reviews") ||
        eq_str(entity, "knowledge") ||
        eq_str(entity, "insights") ||
        eq_str(entity, "principles") ||
        eq_str(entity, "mentalModels") ||
        eq_str(entity, "mentalModelUsages") ||
        eq_str(entity, "decisions") ||
        eq_str(entity, "inbox") ||
        eq_str(entity, "events") ||
        eq_str(entity, "people") ||
        eq_str(entity, "dataRecords") ||
        eq_str(entity, "attachments") ||
        eq_str(entity, "timelineEvents") ||
        eq_str(entity, "agentRuns") ||
        eq_str(entity, "agentActions") ||
        eq_str(entity, "externalSources") ||
        eq_str(entity, "signals") ||
        eq_str(entity, "opportunities") ||
        eq_str(entity, "intelligenceBriefs")
}

/// The declared record kinds, in order.
pub open spec fn entity_names() -> Seq<Seq<char>> {
    seq!["goals"@, "keyResults"@, "projects"@, "tasks"@, "hypotheses"@, "experiments"@, "timeLogs"@, "results"@, "reviews"@, "knowledge"@, "insights"@, "principles"@, "mentalModels"@, "mentalModelUsages"@, "decisions"@, "inbox"@, "events"@, "people"@, "dataRecords"@, "attachments"@, "timelineEvents"@, "agentRuns"@, "agentActions"@, "externalSources"@, "signals"@, "opportunities"@, "intelligenceBriefs"@]
}

/// The declared record kinds, in order.
pub fn entities() -> (r: Vec<&'static str>)
    ensures
        r@.map_values(|s: &str| s@) == entity_names(),
{
    let mut v: Vec<&'static str> = Vec::new();
    v.push("goals");
    v.push("keyResults");
    v.push("projects");
    v.push("tasks");
    v.push("hypotheses");
    v.push("experiments");
    v.push("timeLogs");
    v.push("results");
    v.push("reviews");
    v.push("knowledge");
    v.push("insights");
    v.push("principles");
    v.push("mentalModels");
    v.push("mentalModelUsages");
    v.push("decisions");
    v.push("inbox");
    v.push("events");
    v.push("people");
    v.push("dataRecords");
    v.push("attachments");
    v.push("timelineEvents");
    v.push("agentRuns");
    v.push("agentActions");
    v.push("externalSources");
    v.push("signals");
    v.push("opportunities");
    v.push("intelligenceBriefs");
    proof {
        assert(v@.map_values(|s: &str| s@) =~= entity_names());
    }
    v
}

/// The record kinds that carry timeline metadata.
pub open spec fn is_timeline_source(entity: Seq<char>) -> bool {
    ||| entity == "goals"@
    ||| entity == "projects"@
    ||| entity == "tasks"@
    ||| entity == "timeLogs"@
    ||| entity == "events"@
    ||| entity == "results"@
    ||| entity == "reviews"@
    ||| entity == "insights"@
    ||| entity == "decisions"@
    ||| entity == "signals"@
    ||| entity == "opportunities"@
    ||| entity == "intelligenceBriefs"@
    ||| entity == "timelineEvents"@
}

/// Whether records of `entity` carry timeline metadata.
pub fn timeline_source(entity: &str) -> (r: bool)
    ensures
        r == is_timeline_source(entity@),
{
    eq_str(entity, "goals") ||
        eq_str(entity, "projects") ||
        eq_str(entity, "tasks") ||
        eq_str(entity, "timeLogs") ||
        eq_str(entity, "events") ||
        eq_str(entity, "results") ||
        eq_str(entity, "reviews") ||
        eq_str(entity, "insights") ||
        eq_str(entity, "decisions") ||
        eq_str(entity, "signals") ||
        eq_str(entity, "opportunities") ||
        eq_str(entity, "intelligenceBriefs") ||
        eq_str(entity, "timelineEvents")
}

/// `trim_end_matches('s')`: every trailing `s` removed.
pub open spec fn strip_trailing_s(s: Seq<char>) -> Seq<char>
    decreases s.len(),
{
    if s.len() > 0 && s.last() == 's' {
        strip_trailing_s(s.drop_last())
    } else {
        s
    }
}


/// The record kind that a relation field points to, read from its name with trailing `s` removed.
pub open spec fn expected_entity_of(key: Seq<char>) -> Option<Seq<char>> {
    let key = strip_trailing_s(key);
    if key == "goalId"@ {
        Some("goals"@)
    } else if key == "projectId"@ {
        Some("projects"@)
    } else if key == "taskId"@ || key == "dependencyId"@ {
        Some("tasks"@)
    } else if key == "timeLogId"@ {
        Some("timeLogs"@)
    } else if key == "resultId"@ {
        Some("results"@)
    } else if key == "reviewId"@ {
        Some("reviews"@)
    } else if key == "insightId"@ {
        Some("insights"@)
    } else if key == "knowledgeId"@ {
        Some("knowledge"@)
    } else if key == "mentalModelId"@ {
        Some("mentalModels"@)
    } else if key == "principleId"@ {
        Some("principles"@)
    } else if key == "decisionId"@ {
        Some("decisions"@)
    } else if key == "hypothesisId"@ {
        Some("hypotheses"@)
    } else if key == "experimentId"@ {
        Some("experiments"@)
    } else if key == "personId"@ {
        Some("people"@)
    } else if key == "sourceId"@ {
        Some("externalSources"@)
    } else if key == "signalId"@ {
        Some("signals"@)
    } else if key == "opportunityId"@ {
        Some("opportunities"@)
    } else if key == "briefId"@ {
        Some("intelligenceBriefs"@)
    } else if key == "sourceDecisionId"@ {
        Some("decisions"@)
    } else if key == "sourceOpportunityId"@ {
        Some("opportunities"@)
    } else if key == "sourceSignalId"@ {
        Some("signals"@)
    } else {
        None
    }
}

/// The record kind that a relation field (`goalId`, `signalIds`, ...) must point to.
pub fn expected_entity(key: &str) -> (r: Option<&'static str>)
    ensures
        r matches Some(e) ==> expected_entity_of(key@) == Some(e@),
        r is None ==> expected_entity_of(key@) is None,
{
    let cs = crate::text::chars_of(key);
    let mut n: usize = cs.len();
    assert(cs@.take(n as int) =~= key@);
    while n > 0 && cs[n - 1] == 's'
        invariant
            n <= cs@.len(),
            strip_trailing_s(key@) == strip_trailing_s(cs@.take(n as int)),
        decreases n,
    {
        proof {
            assert(cs@.take(n as int).drop_last() =~= cs@.take(n - 1));
        }
        n = n - 1;
    }
    let stem = crate::text::string_of_range(cs.as_slice(), 0, n);
    proof {
        assert(cs@.take(n as int) =~= cs@.subrange(0, n as int));
        assert(cs@ == key@);
        assert(cs@.take(cs@.len() as int) =~= cs@);
    }
    let s = stem.as_str();
    if eq_str(s, "goalId") {
        Some("goals")
    } else if eq_str(s, "projectId") {
        Some("projects")
    } else if eq_str(s, "taskId") || eq_str(s, "dependencyId") {
        Some("tasks")
    } else if eq_str(s, "timeLogId") {
        Some("timeLogs")
    } else if eq_str(s, "resultId") {
        Some("results")
    } else if eq_str(s, "reviewId") {
        Some("reviews")
    } else if eq_str(s, "insightId") {
        Some("insights")
    } else if eq_str(s, "knowledgeId") {
        Some("knowledge")
    } else if eq_str(s, "mentalModelId") {
        Some("mentalModels")
    } else if eq_str(s, "principleId") {
        Some("principles")
    } else if eq_str(s, "decisionId") {
        Some("decisions")
    } else if eq_str(s, "hypothesisId") {
        Some("hypotheses")
    } else if eq_str(s, "experimentId") {
        Some("experiments")
    } else if eq_str(s, "personId") {
        Some("people")
    } else if eq_str(s, "sourceId") {
        Some("externalSources")
    } else if eq_str(s, "signalId") {
        Some("signals")
    } else if eq_str(s, "opportunityId") {
        Some("opportunities")
    } else if eq_str(s, "briefId") {
        Some("intelligenceBriefs")
    } else if eq_str(s, "sourceDecisionId") {
        Some("decisions")
    } else if eq_str(s, "sourceOpportunityId") {
        Some("opportunities")
    } else if eq_str(s, "sourceSignalId") {
        Some("signals")
    } else {
        None
    }
}

/// The registered agent tools: record kind, risk, whether confirmation is required, action.
pub open spec fn tool_of(tool: Seq<char>) -> Option<(Seq<char>, Seq<char>, bool, Seq<char>)> {
    if tool == "createMentalModel"@ {
        Some(("mentalModels"@, "LOW_WRITE"@, true, "CREATE"@))
    } else if tool == "updateMentalModel"@ {
        Some(("mentalModels"@, "MEDIUM_WRITE"@, true, "UPDATE"@))
    } else if tool == "createKnowledge"@ {
        Some(("knowledge"@, "LOW_WRITE"@, true, "CREATE"@))
    } else if tool == "updateKnowledge"@ {
        Some(("knowledge"@, "MEDIUM_WRITE"@, true, "UPDATE"@))
    } else if tool == "createGoal"@ {
        Some(("goals"@, "LOW_WRITE"@, true, "CREATE"@))
    } else if tool == "updateGoal"@ {
        Some(("goals"@, "MEDIUM_WRITE"@, true, "UPDATE"@))
    } else if tool == "createProject"@ {
        Some(("projects"@, "LOW_WRITE"@, true, "CREATE"@))
    } else if tool == "updateProject"@ {
        Some(("projects"@, "MEDIUM_WRITE"@, true, "UPDATE"@))
    } else if tool == "createTask"@ {
        Some(("tasks"@, "LOW_WRITE"@, true, "CREATE"@))
    } else if tool == "updateTask"@ {
        Some(("tasks"@, "MEDIUM_WRITE"@, true, "UPDATE"@))
    } else if tool == "completeTask"@ {
        Some(("tasks"@, "MEDIUM_WRITE"@, true, "COMPLETE"@))
    } else if tool == "startTimer"@ {
        Some(("timeLogs"@, "LOW_WRITE"@, true, "START_TIMER"@))
    } else if tool == "stopTimer"@ {
        Some(("timeLogs"@, "MEDIUM_WRITE"@, true, "STOP_TIMER"@))
    } else if tool == "createTimeRecord"@ {
        Some(("timeLogs"@, "LOW_WRITE"@, true, "CREATE"@))
    } else if tool == "createDecision"@ {
        Some(("decisions"@, "MEDIUM_WRITE"@, true, "CREATE"@))
    } else if tool == "updateDecision"@ {
        Some(("decisions"@, "MEDIUM_WRITE"@, true, "UPDATE"@))
    } else if tool == "createReview"@ {
        Some(("reviews"@, "LOW_WRITE"@, true, "CREATE"@))
    } else if tool == "createInsight"@ {
        Some(("insights"@, "LOW_WRITE"@, true, "CREATE"@))
    } else if tool == "createPrinciple"@ {
        Some(("principles"@, "LOW_WRITE"@, true, "CREATE"@))
    } else if tool == "createExternalSource"@ {
        Some(("externalSources"@, "MEDIUM_WRITE"@, true, "CREATE"@))
    } else if tool == "updateExternalSource"@ {
        Some(("externalSources"@, "MEDIUM_WRITE"@, true, "UPDATE"@))
    } else if tool == "updateExternalSignal"@ {
        Some(("signals"@, "MEDIUM_WRITE"@, true, "UPDATE"@))
    } else if tool == "createOpportunity"@ {
        Some(("opportunities"@, "LOW_WRITE"@, true, "CREATE"@))
    } else if tool == "updateOpportunity"@ {
        Some(("opportunities"@, "MEDIUM_WRITE"@, true, "UPDATE"@))
    } else {
        None
    }
}

/// The metadata of a registered agent tool; `None` for a tool that is not registered.
pub fn agent_tool_metadata(tool: &str) -> (r: Option<(&'static str, &'static str, bool, &'static str)>)
    ensures
        r matches Some(t) ==> tool_of(tool@) == Some((t.0@, t.1@, t.2, t.3@)),
        r is None ==> tool_of(tool@) is None,
{
    if eq_str(tool, "createMentalModel") {
        Some(("mentalModels", "LOW_WRITE", true, "CREATE"))
    } else if eq_str(tool, "updateMentalModel") {
        Some(("mentalModels", "MEDIUM_WRITE", true, "UPDATE"))
    } else if eq_str(tool, "createKnowledge") {
        Some(("knowledge", "LOW_WRITE", true, "CREATE"))
    } else if eq_str(tool, "updateKnowledge") {
        Some(("knowledge", "MEDIUM_WRITE", true, "UPDATE"))
    } else if eq_str(tool, "createGoal") {
        Some(("goals", "LOW_WRITE", true, "CREATE"))
    } else if eq_str(tool, "updateGoal") {
        Some(("goals", "MEDIUM_WRITE", true, "UPDATE"))
    } else if eq_str(tool, "createProject") {
        Some(("projects", "LOW_WRITE", true, "CREATE"))
    } else if eq_str(tool, "updateProject") {
        Some(("projects", "MEDIUM_WRITE", true, "UPDATE"))
    } else if eq_str(tool, "createTask") {
        Some(("tasks", "LOW_WRITE", true, "CREATE"))
    } else if eq_str(tool, "updateTask") {
        Some(("tasks", "MEDIUM_WRITE", true, "UPDATE"))
    } else if eq_str(tool, "completeTask") {
        Some(("tasks", "MEDIUM_WRITE", true, "COMPLETE"))
    } else if eq_str(tool, "startTimer") {
        Some(("timeLogs", "LOW_WRITE", true, "START_TIMER"))
    } else if eq_str(tool, "stopTimer") {
        Some(("timeLogs", "MEDIUM_WRITE", true, "STOP_TIMER"))
    } else if eq_str(tool, "createTimeRecord") {
        Some(("timeLogs", "LOW_WRITE", true, "CREATE"))
    } else if eq_str(tool, "createDecision") {
        Some(("decisions", "MEDIUM_WRITE", true, "CREATE"))
    } else if eq_str(tool, "updateDecision") {
        Some(("decisions", "MEDIUM_WRITE", true, "UPDATE"))
    } else if eq_str(tool, "createReview") {
        Some(("reviews", "LOW_WRITE", true, "CREATE"))
    } else if eq_str(tool, "createInsight") {
        Some(("insights", "LOW_WRITE", true, "CREATE"))
    } else if eq_str(tool, "createPrinciple") {
        Some(("principles", "LOW_WRITE", true, "CREATE"))
    } else if eq_str(tool, "createExternalSource") {
        Some(("externalSources", "MEDIUM_WRITE", true, "CREATE"))
    } else if eq_str(tool, "updateExternalSource") {
        Some(("externalSources", "MEDIUM_WRITE", true, "UPDATE"))
    } else if eq_str(tool, "updateExternalSignal") {
        Some(("signals", "MEDIUM_WRITE", true, "UPDATE"))
    } else if eq_str(tool, "createOpportunity") {
        Some(("opportunities", "LOW_WRITE", true, "CREATE"))
    } else if eq_str(tool, "updateOpportunity") {
        Some(("opportunities", "MEDIUM_WRITE", true, "UPDATE"))
    } else {
        None
    }
}

/// The fields an agent must fill to create a record of `entity`.
pub open spec fn required_fields_of(entity: Seq<char>) -> Seq<Seq<char>> {
    if entity == "mentalModels"@ {
        seq!["name"@]
    } else if entity == "knowledge"@ {
        seq!["title"@, "content"@]
    } else if entity == "goals"@ || entity == "projects"@ || entity == "tasks"@ || entity == "decisions"@ || entity == "reviews"@ {
        seq!["title"@]
    } else if entity == "insights"@ || entity == "principles"@ {
        seq!["statement"@]
    } else if entity == "externalSources"@ {
        seq!["name"@]
    } else if entity == "signals"@ || entity == "opportunities"@ || entity == "intelligenceBriefs"@ {
        seq!["title"@]
    } else if entity == "timeLogs"@ {
        seq!["title"@]
    } else {
        seq![]
    }
}

/// The fields an agent must fill to create a record of `entity`.
pub fn required_agent_fields(entity: &str) -> (r: Vec<&'static str>)
    ensures
        r@.map_values(|s: &str| s@) == required_fields_of(entity@),
{
    let mut v: Vec<&'static str> = Vec::new();
    if eq_str(entity, "mentalModels") {
        v.push("name");
    } else if eq_str(entity, "knowledge") {
        v.push("title");
        v.push("content");
    } else if eq_str(entity, "goals") || eq_str(entity, "projects") || eq_str(entity, "tasks") || eq_str(entity, "decisions") || eq_str(entity, "reviews") {
        v.push("title");
    } else if eq_str(entity, "insights") || eq_str(entity, "principles") {
        v.push("statement");
    } else if eq_str(entity, "externalSources") {
        v.push("name");
    } else if eq_str(entity, "signals") || eq_str(entity, "opportunities") || eq_str(entity, "intelligenceBriefs") {
        v.push("title");
    } else if eq_str(entity, "timeLogs") {
        v.push("title");
    } else {
    }
    assert(v@.map_values(|s: &str| s@) =~= required_fields_of(entity@));
    v
}

/// The models offered by an AI provider; the first is the default.
pub open spec fn models_of(provider: Seq<char>) -> Seq<Seq<char>> {
    if provider == "deepseek"@ {
        seq!["deepseek-v4-pro"@, "deepseek-v4-flash"@]
    } else if provider == "minimax"@ {
        seq!["MiniMax-M3"@]
    } else if provider == "volc-agent-plan"@ {
        seq!["kimi-k3"@]
    } else {
        seq!["gpt-5.5"@]
    }
}

/// The models offered by an AI provider; the first is the default.
pub fn provider_models(provider: &str) -> (r: Vec<&'static str>)
    ensures
        r@.map_values(|s: &str| s@) == models_of(provider@),
{
    let mut v: Vec<&'static str> = Vec::new();
    if eq_str(provider, "deepseek") {
        v.push("deepseek-v4-pro");
        v.push("deepseek-v4-flash");
    } else if eq_str(provider, "minimax") {
        v.push("MiniMax-M3");
    } else if eq_str(provider, "volc-agent-plan") {
        v.push("kimi-k3");
    } else {
        v.push("gpt-5.5");
    }
    assert(v@.map_values(|s: &str| s@) =~= models_of(provider@));
    v
}

/// The display name of an AI provider.
pub open spec fn provider_label_of(provider: Seq<char>) -> Seq<char> {
    if provider == "deepseek"@ {
        "DeepSeek"@
    } else if provider == "minimax"@ {
        "MiniMax Token Plan"@
    } else if provider == "volc-agent-plan"@ {
        "火山引擎 Agent Plan"@
    } else {
        "HackStart"@
    }
}

/// The display name of an AI provider.
pub fn provider_label(provider: &str) -> (r: &'static str)
    ensures
        r@ == provider_label_of(provider@),
{
    if eq_str(provider, "deepseek") {
        "DeepSeek"
    } else if eq_str(provider, "minimax") {
        "MiniMax Token Plan"
    } else if eq_str(provider, "volc-agent-plan") {
        "火山引擎 Agent Plan"
    } else {
        "HackStart"
    }
}

/// The endpoint of an AI provider.
pub open spec fn provider_base_url_of(provider: Seq<char>) -> Seq<char> {
    if provider == "deepseek"@ {
        "https://api.deepseek.com/chat/completions"@
    } else if provider == "minimax"@ {
        "https://api.minimaxi.com/anthropic/v1/messages"@
    } else if provider == "volc-agent-plan"@ {
        "https://ark.cn-beijing.volces.com/api/plan/v3/responses"@
    } else {
        "https://ip2.hackstart.org/v1/chat/completions"@
    }
}

/// The endpoint of an AI provider.
pub fn provider_base_url(provider: &str) -> (r: &'static str)
    ensures
        r@ == provider_base_url_of(provider@),
{
    if eq_str(provider, "deepseek") {
        "https://api.deepseek.com/chat/completions"
    } else if eq_str(provider, "minimax") {
        "https://api.minimaxi.com/anthropic/v1/messages"
    } else if eq_str(provider, "volc-agent-plan") {
        "https://ark.cn-beijing.volces.com/api/plan/v3/responses"
    } else {
        "https://ip2.hackstart.org/v1/chat/completions"
    }
}

/// The credential account name of an AI provider.
pub open spec fn provider_key_account_of(provider: Seq<char>) -> Seq<char> {
    if provider == "deepseek"@ {
        "deepseek-api-key"@
    } else if provider == "minimax"@ {
        "minimax-token-plan-api-key"@
    } else if provider == "volc-agent-plan"@ {
        "volc-agent-plan-api-key"@
    } else {
        "hackstart-api-key"@
    }
}

/// The credential account name of an AI provider.
pub fn provider_key_account(provider: &str) -> (r: &'static str)
    ensures
        r@ == provider_key_account_of(provider@),
{
    if eq_str(provider, "deepseek") {
        "deepseek-api-key"
    } else if eq_str(provider, "minimax") {
        "minimax-token-plan-api-key"
    } else if eq_str(provider, "volc-agent-plan") {
        "volc-agent-plan-api-key"
    } else {
        "hackstart-api-key"
    }
}

/// The environment variable that may hold an AI provider's key.
pub open spec fn provider_env_var_of(provider: Seq<char>) -> Seq<char> {
    if provider == "deepseek"@ {
        "DEEPSEEK_API_KEY"@
    } else if provider == "minimax"@ {
        "MINIMAX_TOKEN_PLAN_API_KEY"@
    } else if provider == "volc-agent-plan"@ {
        "VOLC_AGENT_PLAN_API_KEY"@
    } else {
        "HACKSTART_API_KEY"@
    }
}

/// The environment variable that may hold an AI provider's key.
pub fn provider_env_var(provider: &str) -> (r: &'static str)
    ensures
        r@ == provider_env_var_of(provider@),
{
    if eq_str(provider, "deepseek") {
        "DEEPSEEK_API_KEY"
    } else if eq_str(provider, "minimax") {
        "MINIMAX_TOKEN_PLAN_API_KEY"
    } else if eq_str(provider, "volc-agent-plan") {
        "VOLC_AGENT_PLAN_API_KEY"
    } else {
        "HACKSTART_API_KEY"
    }
}

/// The description shown for a model.
pub open spec fn model_description_of(model: Seq<char>) -> Seq<char> {
    if model == "deepseek-v4-pro"@ {
        "高质量复杂推理"@
    } else if model == "deepseek-v4-flash"@ {
        "低延迟高性价比"@
    } else if model == "MiniMax-M3"@ {
        "最新旗舰 Agent 与推理模型"@
    } else if model == "kimi-k3"@ {
        "Agent Plan Medium 当前文本模型"@
    } else {
        "HackStart 模型"@
    }
}

/// The description shown for a model.
pub fn model_description(model: &str) -> (r: &'static str)
    ensures
        r@ == model_description_of(model@),
{
    if eq_str(model, "deepseek-v4-pro") {
        "高质量复杂推理"
    } else if eq_str(model, "deepseek-v4-flash") {
        "低延迟高性价比"
    } else if eq_str(model, "MiniMax-M3") {
        "最新旗舰 Agent 与推理模型"
    } else if eq_str(model, "kimi-k3") {
        "Agent Plan Medium 当前文本模型"
    } else {
        "HackStart 模型"
    }
}

/// The AI providers that can be selected.
pub open spec fn is_provider_name(provider: Seq<char>) -> bool {
    ||| provider == "hackstart"@
    ||| provider == "deepseek"@
    ||| provider == "minimax"@
    ||| provider == "volc-agent-plan"@
}

/// Whether `provider` is a supported AI provider.
pub fn is_provider(provider: &str) -> (r: bool)
    ensures
        r == is_provider_name(provider@),
{
    eq_str(provider, "hackstart") ||
        eq_str(provider, "deepseek") ||
        eq_str(provider, "minimax") ||
        eq_str(provider, "volc-agent-plan")
}

/// The supported AI providers, in order.
pub open spec fn provider_names() -> Seq<Seq<char>> {
    seq!["hackstart"@, "deepseek"@, "minimax"@, "volc-agent-plan"@]
}

/// The supported AI providers, in order.
pub fn providers() -> (r: Vec<&'static str>)
    ensures
        r@.map_values(|s: &str| s@) == provider_names(),
{
    let mut v: Vec<&'static str> = Vec::new();
    v.push("hackstart");
    v.push("deepseek");
    v.push("minimax");
    v.push("volc-agent-plan");
    proof {
        assert(v@.map_values(|s: &str| s@) =~= provider_names());
    }
    v
}

/// The label shown for a field in an action preview; other fields keep their name.
pub open spec fn preview_label_of(key: Seq<char>) -> Seq<char> {
    if key == "name"@ {
        "名称"@
    } else if key == "category"@ {
        "类型"@
    } else if key == "corePrinciple"@ {
        "核心原则"@
    } else if key == "problem"@ {
        "解决的问题"@
    } else if key == "framework"@ {
        "框架"@
    } else if key == "steps"@ {
        "流程"@
    } else if key == "keyQuestions"@ {
        "核心问题"@
    } else if key == "useCases"@ {
        "适用场景"@
    } else if key == "outputTemplate"@ {
        "输出模板"@
    } else if key == "title"@ {
        "名称"@
    } else if key == "description"@ {
        "说明"@
    } else if key == "dueDate"@ {
        "截止日期"@
    } else if key == "goalId"@ {
        "目标"@
    } else if key == "projectId"@ {
        "项目"@
    } else if key == "taskId"@ {
        "任务"@
    } else if key == "statement"@ {
        "内容"@
    } else if key == "content"@ {
        "内容"@
    } else {
        key
    }
}

/// The label shown for a field in an action preview; other fields keep their name.
pub fn preview_label<'a>(key: &'a str) -> (r: &'a str)
    ensures
        r@ == preview_label_of(key@),
{
    if eq_str(key, "name") {
        "名称"
    } else if eq_str(key, "category") {
        "类型"
    } else if eq_str(key, "corePrinciple") {
        "核心原则"
    } else if eq_str(key, "problem") {
        "解决的问题"
    } else if eq_str(key, "framework") {
        "框架"
    } else if eq_str(key, "steps") {
        "流程"
    } else if eq_str(key, "keyQuestions") {
        "核心问题"
    } else if eq_str(key, "useCases") {
        "适用场景"
    } else if eq_str(key, "outputTemplate") {
        "输出模板"
    } else if eq_str(key, "title") {
        "名称"
    } else if eq_str(key, "description") {
        "说明"
    } else if eq_str(key, "dueDate") {
        "截止日期"
    } else if eq_str(key, "goalId") {
        "目标"
    } else if eq_str(key, "projectId") {
        "项目"
    } else if eq_str(key, "taskId") {
        "任务"
    } else if eq_str(key, "statement") {
        "内容"
    } else if eq_str(key, "content") {
        "内容"
    } else {
        key
    }
}
/// The platform name shown for a link, read from its lowercased text.
pub open spec fn capture_platform_of(lower: Seq<char>) -> Seq<char> {
    if contains(lower, "mp.weixin.qq.com"@) {
        "微信公众号"@
    } else if contains(lower, "douyin.com"@) {
        "抖音"@
    } else if contains(lower, "xiaohongshu.com"@) || contains(lower, "xhslink.com"@) {
        "小红书"@
    } else if contains(lower, "twitter.com"@) || contains(lower, "x.com"@) {
        "X"@
    } else if contains(lower, "tiktok.com"@) {
        "TikTok"@
    } else if contains(lower, "instagram.com"@) {
        "Instagram"@
    } else if contains(lower, "facebook.com"@) || contains(lower, "fb.watch"@) {
        "Facebook"@
    } else if contains(lower, "reddit.com"@) || contains(lower, "redd.it"@) {
        "Reddit"@
    } else if contains(lower, "channels.weixin.qq.com"@) {
        "视频号"@
    } else {
        "网页"@
    }
}

/// The platform name for a link whose text is already lowercased.
pub fn capture_platform_lower(lower: &str) -> (r: &'static str)
    ensures
        r@ == capture_platform_of(lower@),
{
    if contains_str(lower, "mp.weixin.qq.com") {
        "微信公众号"
    } else if contains_str(lower, "douyin.com") {
        "抖音"
    } else if contains_str(lower, "xiaohongshu.com") || contains_str(lower, "xhslink.com") {
        "小红书"
    } else if contains_str(lower, "twitter.com") || contains_str(lower, "x.com") {
        "X"
    } else if contains_str(lower, "tiktok.com") {
        "TikTok"
    } else if contains_str(lower, "instagram.com") {
        "Instagram"
    } else if contains_str(lower, "facebook.com") || contains_str(lower, "fb.watch") {
        "Facebook"
    } else if contains_str(lower, "reddit.com") || contains_str(lower, "redd.it") {
        "Reddit"
    } else if contains_str(lower, "channels.weixin.qq.com") {
        "视频号"
    } else {
        "网页"
    }
}

/// The platform name shown for a captured link.
pub fn capture_platform(url: &str) -> (r: &'static str)
    ensures
        r@ == capture_platform_of(lowercase_of(url@)),
{
    let lower = lowercase(url);
    capture_platform_lower(lower.as_str())
}

/// Links that may be opened outside the application: web links only.
pub open spec fn is_web_url(url: Seq<char>) -> bool {
    starts_with(url, "https://"@) || starts_with(url, "http://"@)
}

/// Whether a link is an `http` or `https` link.
pub fn is_external_url(url: &str) -> (r: bool)
    ensures
        r == is_web_url(url@),
{
    starts_with_str(url, "https://") || starts_with_str(url, "http://")
}

/// The provider in use: the stored choice when it is a supported provider, else HackStart.
pub open spec fn active_provider_of(setting: Option<Seq<char>>) -> Seq<char> {
    match setting {
        Some(p) => if is_provider_name(p) {
            p
        } else {
            "hackstart"@
        },
        None => "hackstart"@,
    }
}

/// The provider in use, from the stored `ai_provider` setting.
pub fn active_provider(setting: Option<&str>) -> (r: String)
    ensures
        r@ == active_provider_of(match setting {
            Some(s) => Some(s@),
            None => None,
        }),
{
    match setting {
        Some(p) => if is_provider(p) {
            p.to_owned()
        } else {
            "hackstart".to_owned()
        },
        None => "hackstart".to_owned(),
    }
}

/// The model in use for a provider: its stored `<provider>_model` setting; for HackStart the
/// older `hackstart_model` setting next; else the provider's first model.
pub open spec fn selected_model_of(
    provider: Seq<char>,
    own_setting: Option<Seq<char>>,
    legacy_setting: Option<Seq<char>>,
) -> Seq<char> {
    match own_setting {
        Some(m) => m,
        None => match legacy_setting {
            Some(m) if provider == "hackstart"@ => m,
            _ => models_of(provider)[0],
        },
    }
}

pub fn selected_model(provider: &str, own_setting: Option<&str>, legacy_setting: Option<&str>) -> (r: String)
    ensures
        r@ == selected_model_of(
            provider@,
            match own_setting {
                Some(s) => Some(s@),
                None => None,
            },
            match legacy_setting {
                Some(s) => Some(s@),
                None => None,
            },
        ),
{
    match own_setting {
        Some(m) => m.to_owned(),
        None => match legacy_setting {
            Some(m) if eq_str(provider, "hackstart") => m.to_owned(),
            _ => {
                let models = provider_models(provider);
                proof {
                    assert(models@.map_values(|s: &str| s@).len() > 0);
                }
                models[0].to_owned()
            },
        },
    }
}

} // verus!
