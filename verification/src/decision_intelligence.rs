//! The decision engine's own records beyond mental models: decision
//! frameworks, CEO principles and decision lenses, seeded once.
use vstd::prelude::*;
use crate::text::concat;
use crate::json::{JsonValue, Json, jstr, items_view, lemma_items_push};

verus! {

/// The decision frameworks: slug, name, purpose, components, use cases, output.
pub open spec fn framework_seeds_of() -> Seq<(Seq<char>, Seq<char>, Seq<char>, Seq<char>, Seq<char>, Seq<char>)> {
    seq![
        ("strategy-kernel"@, "战略内核"@, "回答“我们到底应该解决什么问题”。"@, "目标 + 约束 + 优势 + 关键矛盾"@, "战略方向、新业务、重大转型、年度规划"@, "目标\n约束\n优势\n关键矛盾"@),
        ("five-forces"@, "波特五力"@, "分析行业结构对利润与竞争的影响。"@, "供应商、客户、潜在进入者、替代品、现有竞争者"@, "进入新市场、行业分析、竞争判断、定价"@, "五力强度\n行业利润\n结构性威胁"@),
        ("value-chain"@, "价值链"@, "拆解价值如何被创造、传递和获取。"@, "价值创造、价值传递、价值获取"@, "成本优化、利润结构、商业模式、差异化"@, "价值环节\n成本结构\n利润来源"@),
        ("jtbd"@, "JTBD 待完成任务"@, "理解用户真正要完成的任务，而不是只分析产品。"@, "用户任务、场景、痛点、期望结果"@, "产品定义、选品、需求验证、内容方向"@, "用户任务\n场景\n痛点\n期望结果"@),
        ("strategic-inflection"@, "战略拐点"@, "发现行业结构发生重大变化的信号。"@, "技术、用户、平台、成本、竞争、监管"@, "行业变化、技术冲击、平台迁移、竞争突变"@, "变化维度\n拐点判断\n应对选项"@),
        ("innovators-dilemma"@, "创新者窘境"@, "判断成熟业务是否被新技术或新模式冲击。"@, "成熟业务惯性、颠覆式创新、低端市场"@, "成熟业务防御、新技术评估、自我颠覆"@, "被颠覆风险\n防御策略\n自我革新"@),
        ("reversible-irreversible"@, "可逆 / 不可逆决策"@, "根据可逆性决定分析深度、决策速度与验证方式。"@, "可逆性判断、分析深度、验证强度"@, "所有重要决策的前置判断"@, "可逆性等级\n分析深度\n验证方式"@),
        ("premortem"@, "预演失败"@, "假设项目已经失败，倒推最可能的失败原因。"@, "失败假设、原因倒推、预防措施"@, "项目启动、大额投入、高风险行动"@, "失败原因\n致命风险\n预防实验"@),
    ]
}

pub fn framework_seeds() -> (r: Vec<(&'static str, &'static str, &'static str, &'static str, &'static str, &'static str)>)
    ensures
        r@.map_values(|p: (&'static str, &'static str, &'static str, &'static str, &'static str, &'static str)| (p.0@, p.1@, p.2@, p.3@, p.4@, p.5@)) == framework_seeds_of(),
{
    let r = vec![
        ("strategy-kernel", "战略内核", "回答“我们到底应该解决什么问题”。", "目标 + 约束 + 优势 + 关键矛盾", "战略方向、新业务、重大转型、年度规划", "目标\n约束\n优势\n关键矛盾"),
        ("five-forces", "波特五力", "分析行业结构对利润与竞争的影响。", "供应商、客户、潜在进入者、替代品、现有竞争者", "进入新市场、行业分析、竞争判断、定价", "五力强度\n行业利润\n结构性威胁"),
        ("value-chain", "价值链", "拆解价值如何被创造、传递和获取。", "价值创造、价值传递、价值获取", "成本优化、利润结构、商业模式、差异化", "价值环节\n成本结构\n利润来源"),
        ("jtbd", "JTBD 待完成任务", "理解用户真正要完成的任务，而不是只分析产品。", "用户任务、场景、痛点、期望结果", "产品定义、选品、需求验证、内容方向", "用户任务\n场景\n痛点\n期望结果"),
        ("strategic-inflection", "战略拐点", "发现行业结构发生重大变化的信号。", "技术、用户、平台、成本、竞争、监管", "行业变化、技术冲击、平台迁移、竞争突变", "变化维度\n拐点判断\n应对选项"),
        ("innovators-dilemma", "创新者窘境", "判断成熟业务是否被新技术或新模式冲击。", "成熟业务惯性、颠覆式创新、低端市场", "成熟业务防御、新技术评估、自我颠覆", "被颠覆风险\n防御策略\n自我革新"),
        ("reversible-irreversible", "可逆 / 不可逆决策", "根据可逆性决定分析深度、决策速度与验证方式。", "可逆性判断、分析深度、验证强度", "所有重要决策的前置判断", "可逆性等级\n分析深度\n验证方式"),
        ("premortem", "预演失败", "假设项目已经失败，倒推最可能的失败原因。", "失败假设、原因倒推、预防措施", "项目启动、大额投入、高风险行动", "失败原因\n致命风险\n预防实验"),
    ];
    assert(r@.map_values(|p: (&'static str, &'static str, &'static str, &'static str, &'static str, &'static str)| (p.0@, p.1@, p.2@, p.3@, p.4@, p.5@)) =~= framework_seeds_of());
    r
}

/// The CEO principles: slug, name, definition, decision rule, use cases, anti-patterns, example.
pub open spec fn principle_seeds_of() -> Seq<(Seq<char>, Seq<char>, Seq<char>, Seq<char>, Seq<char>, Seq<char>, Seq<char>)> {
    seq![
        ("long-termism"@, "长期主义"@, "把关键资源押注在能够随时间复利的方向上。"@, "当短期收益与长期价值冲突时，优先保护长期复利资产。"@, "战略投入、研发、品牌、客户关系"@, "为了季度目标牺牲客户与团队信任。"@, "Amazon 长期亏损投入基础设施换取长期护城河。"@),
        ("customer-obsession"@, "客户至上"@, "从客户真实问题出发，而不是从内部指标出发。"@, "先确认客户是否真的因此变得更好，再判断是否值得做。"@, "产品、服务、内容、定价、售后"@, "把“客户至上”变成口号，实际只优化内部 KPI。"@, "Amazon 从客户痛点反推产品，而不是先做产品再找客户。"@),
        ("day-1"@, "Day 1"@, "保持第一天的心态，警惕组织进入衰退惯性。"@, "当流程比结果重要、官僚比速度重要时，重新回到 Day 1。"@, "组织活力、创新、危机意识、执行力"@, "用制度和流程掩盖对结果的回避。"@, "Amazon 的 Day 1 文化：永远把今天当作创业第一天。"@),
        ("effective-executive"@, "有效管理者"@, "把稀缺的注意力投入真正改变结果的事情。"@, "每次做决策前问：这值得 CEO 亲自决定吗？"@, "优先级、授权、会议、时间配置"@, "什么都想管，最终重要的事没有推进。"@, "Peter Drucker：先记录时间，再消除无效工作。"@),
        ("strengths-management"@, "优势管理"@, "围绕优势设计角色，而不是只修补弱点。"@, "把每个人放到能发挥最大优势的位置。"@, "招聘、分工、组织设计、核心团队"@, "平均主义地修补所有人的所有弱点。"@, "把擅长洞察的人从执行琐事中解放出来。"@),
        ("principle-based-management"@, "原则化管理"@, "用清晰原则代替临时命令，保证判断一致性。"@, "遇到原则没有覆盖的新情况，更新原则而不是绕过原则。"@, "授权、规模化、冲突处理、组织治理"@, "原则只写不执行，或领导带头破坏原则。"@, "Ray Dalio 把原则写成系统，用于可重复的高质量决策。"@),
        ("ceo-attention"@, "CEO 注意力配置"@, "CEO 最稀缺的资源是注意力，必须显式配置。"@, "把 80% 注意力放在不可逆、高影响、只有 CEO 能做的事。"@, "战略、关键人才、大额资源、外部关系"@, "被会议和日常事务占据，没有时间思考方向。"@, "把 CEO 的一周拆成战略块、决策块和执行块。"@),
    ]
}

pub fn principle_seeds() -> (r: Vec<(&'static str, &'static str, &'static str, &'static str, &'static str, &'static str, &'static str)>)
    ensures
        r@.map_values(|p: (&'static str, &'static str, &'static str, &'static str, &'static str, &'static str, &'static str)| (p.0@, p.1@, p.2@, p.3@, p.4@, p.5@, p.6@)) == principle_seeds_of(),
{
    let r = vec![
        ("long-termism", "长期主义", "把关键资源押注在能够随时间复利的方向上。", "当短期收益与长期价值冲突时，优先保护长期复利资产。", "战略投入、研发、品牌、客户关系", "为了季度目标牺牲客户与团队信任。", "Amazon 长期亏损投入基础设施换取长期护城河。"),
        ("customer-obsession", "客户至上", "从客户真实问题出发，而不是从内部指标出发。", "先确认客户是否真的因此变得更好，再判断是否值得做。", "产品、服务、内容、定价、售后", "把“客户至上”变成口号，实际只优化内部 KPI。", "Amazon 从客户痛点反推产品，而不是先做产品再找客户。"),
        ("day-1", "Day 1", "保持第一天的心态，警惕组织进入衰退惯性。", "当流程比结果重要、官僚比速度重要时，重新回到 Day 1。", "组织活力、创新、危机意识、执行力", "用制度和流程掩盖对结果的回避。", "Amazon 的 Day 1 文化：永远把今天当作创业第一天。"),
        ("effective-executive", "有效管理者", "把稀缺的注意力投入真正改变结果的事情。", "每次做决策前问：这值得 CEO 亲自决定吗？", "优先级、授权、会议、时间配置", "什么都想管，最终重要的事没有推进。", "Peter Drucker：先记录时间，再消除无效工作。"),
        ("strengths-management", "优势管理", "围绕优势设计角色，而不是只修补弱点。", "把每个人放到能发挥最大优势的位置。", "招聘、分工、组织设计、核心团队", "平均主义地修补所有人的所有弱点。", "把擅长洞察的人从执行琐事中解放出来。"),
        ("principle-based-management", "原则化管理", "用清晰原则代替临时命令，保证判断一致性。", "遇到原则没有覆盖的新情况，更新原则而不是绕过原则。", "授权、规模化、冲突处理、组织治理", "原则只写不执行，或领导带头破坏原则。", "Ray Dalio 把原则写成系统，用于可重复的高质量决策。"),
        ("ceo-attention", "CEO 注意力配置", "CEO 最稀缺的资源是注意力，必须显式配置。", "把 80% 注意力放在不可逆、高影响、只有 CEO 能做的事。", "战略、关键人才、大额资源、外部关系", "被会议和日常事务占据，没有时间思考方向。", "把 CEO 的一周拆成战略块、决策块和执行块。"),
    ];
    assert(r@.map_values(|p: (&'static str, &'static str, &'static str, &'static str, &'static str, &'static str, &'static str)| (p.0@, p.1@, p.2@, p.3@, p.4@, p.5@, p.6@)) =~= principle_seeds_of());
    r
}

/// The decision lenses: slug, name, focus, model slugs, framework slugs, description.
pub open spec fn lens_seeds_of() -> Seq<(Seq<char>, Seq<char>, Seq<char>, Seq<char>, Seq<char>, Seq<char>)> {
    seq![
        ("strategic"@, "战略决策"@, "市场、竞争、能力、资源、风险、长期价值"@, "first-principles,second-order-thinking,opportunity-cost,circle-of-competence,margin-of-safety"@, "strategy-kernel,five-forces,value-chain"@, "决定方向与长期资源配置。"@),
        ("investment"@, "投资决策"@, "收益、概率、下行风险、机会成本、安全边际"@, "probabilistic-thinking,base-rate,inversion,opportunity-cost,margin-of-safety"@, "strategy-kernel,five-forces"@, "判断是否投入资金与资源。"@),
        ("product"@, "产品决策"@, "用户需求、价值、验证、反馈、资源"@, "first-principles,jtbd,feedback-loop,opportunity-cost,reversible-irreversible"@, "jtbd,value-chain"@, "判断做什么产品与如何验证。"@),
        ("market-entry"@, "市场进入"@, "市场规模、竞争、用户、自身能力、进入成本"@, "five-forces,jtbd,circle-of-competence,opportunity-cost,probabilistic-thinking"@, "five-forces,jtbd,strategy-kernel"@, "判断是否进入新市场。"@),
        ("organization"@, "组织决策"@, "人、激励、能力、组织结构、长期影响"@, "incentives,circle-of-competence,second-order-thinking,opportunity-cost"@, "strategy-kernel"@, "判断组织如何设计与调整。"@),
        ("talent"@, "人才决策"@, "能力、潜力、匹配、激励、机会成本"@, "strengths-management,circle-of-competence,incentives,opportunity-cost"@, "strategy-kernel"@, "判断关键人才的引进、保留与使用。"@),
        ("finance"@, "财务决策"@, "现金流、收益、风险、安全边际、机会成本"@, "margin-of-safety,probabilistic-thinking,base-rate,opportunity-cost"@, "value-chain"@, "判断资金如何配置与保护。"@),
        ("crisis"@, "危机决策"@, "生存、速度、损失控制、不可逆后果"@, "inversion,margin-of-safety,second-order-thinking,probabilistic-thinking"@, "premortem"@, "在威胁生存时快速止损与保护关键资源。"@),
    ]
}

pub fn lens_seeds() -> (r: Vec<(&'static str, &'static str, &'static str, &'static str, &'static str, &'static str)>)
    ensures
        r@.map_values(|p: (&'static str, &'static str, &'static str, &'static str, &'static str, &'static str)| (p.0@, p.1@, p.2@, p.3@, p.4@, p.5@)) == lens_seeds_of(),
{
    let r = vec![
        ("strategic", "战略决策", "市场、竞争、能力、资源、风险、长期价值", "first-principles,second-order-thinking,opportunity-cost,circle-of-competence,margin-of-safety", "strategy-kernel,five-forces,value-chain", "决定方向与长期资源配置。"),
        ("investment", "投资决策", "收益、概率、下行风险、机会成本、安全边际", "probabilistic-thinking,base-rate,inversion,opportunity-cost,margin-of-safety", "strategy-kernel,five-forces", "判断是否投入资金与资源。"),
        ("product", "产品决策", "用户需求、价值、验证、反馈、资源", "first-principles,jtbd,feedback-loop,opportunity-cost,reversible-irreversible", "jtbd,value-chain", "判断做什么产品与如何验证。"),
        ("market-entry", "市场进入", "市场规模、竞争、用户、自身能力、进入成本", "five-forces,jtbd,circle-of-competence,opportunity-cost,probabilistic-thinking", "five-forces,jtbd,strategy-kernel", "判断是否进入新市场。"),
        ("organization", "组织决策", "人、激励、能力、组织结构、长期影响", "incentives,circle-of-competence,second-order-thinking,opportunity-cost", "strategy-kernel", "判断组织如何设计与调整。"),
        ("talent", "人才决策", "能力、潜力、匹配、激励、机会成本", "strengths-management,circle-of-competence,incentives,opportunity-cost", "strategy-kernel", "判断关键人才的引进、保留与使用。"),
        ("finance", "财务决策", "现金流、收益、风险、安全边际、机会成本", "margin-of-safety,probabilistic-thinking,base-rate,opportunity-cost", "value-chain", "判断资金如何配置与保护。"),
        ("crisis", "危机决策", "生存、速度、损失控制、不可逆后果", "inversion,margin-of-safety,second-order-thinking,probabilistic-thinking", "premortem", "在威胁生存时快速止损与保护关键资源。"),
    ];
    assert(r@.map_values(|p: (&'static str, &'static str, &'static str, &'static str, &'static str, &'static str)| (p.0@, p.1@, p.2@, p.3@, p.4@, p.5@)) =~= lens_seeds_of());
    r
}

pub open spec fn framework_record_of(
    f: (Seq<char>, Seq<char>, Seq<char>, Seq<char>, Seq<char>, Seq<char>),
    applied_at: Seq<char>,
) -> Json {
    Json::Obj(
        Map::empty().insert("id"@, jstr("decision-framework-"@ + f.0)).insert("entity"@, jstr("decisionFrameworks"@)).insert(
            "slug"@,
            jstr(f.0),
        ).insert("name"@, jstr(f.1)).insert("purpose"@, jstr(f.2)).insert("components"@, jstr(f.3)).insert(
            "useCases"@,
            jstr(f.4),
        ).insert("output"@, jstr(f.5)).insert("status"@, jstr("active"@)).insert("createdAt"@, jstr(applied_at)).insert(
            "updatedAt"@,
            jstr(applied_at),
        ),
    )
}

pub open spec fn principle_record_of(
    p: (Seq<char>, Seq<char>, Seq<char>, Seq<char>, Seq<char>, Seq<char>, Seq<char>),
    applied_at: Seq<char>,
) -> Json {
    Json::Obj(
        Map::empty().insert("id"@, jstr("ceo-principle-"@ + p.0)).insert("entity"@, jstr("ceoPrinciples"@)).insert(
            "slug"@,
            jstr(p.0),
        ).insert("name"@, jstr(p.1)).insert("definition"@, jstr(p.2)).insert("decisionRule"@, jstr(p.3)).insert(
            "useCases"@,
            jstr(p.4),
        ).insert("antiPatterns"@, jstr(p.5)).insert("example"@, jstr(p.6)).insert("status"@, jstr("active"@)).insert(
            "createdAt"@,
            jstr(applied_at),
        ).insert("updatedAt"@, jstr(applied_at)),
    )
}

pub open spec fn lens_record_of(
    l: (Seq<char>, Seq<char>, Seq<char>, Seq<char>, Seq<char>, Seq<char>),
    applied_at: Seq<char>,
) -> Json {
    Json::Obj(
        Map::empty().insert("id"@, jstr("decision-lens-"@ + l.0)).insert("entity"@, jstr("decisionLenses"@)).insert(
            "slug"@,
            jstr(l.0),
        ).insert("name"@, jstr(l.1)).insert("focus"@, jstr(l.2)).insert("recommendedModelSlugs"@, jstr(l.3)).insert(
            "recommendedFrameworkSlugs"@,
            jstr(l.4),
        ).insert("description"@, jstr(l.5)).insert("status"@, jstr("active"@)).insert("createdAt"@, jstr(applied_at)).insert(
            "updatedAt"@,
            jstr(applied_at),
        ),
    )
}

/// The seeded decision frameworks as records, stamped `applied_at`.
pub fn framework_records(applied_at: &str) -> (r: Vec<JsonValue>)
    ensures
        crate::json::all_wf(r@),
        items_view(r@) == framework_seeds_of().map_values(
            |f: (Seq<char>, Seq<char>, Seq<char>, Seq<char>, Seq<char>, Seq<char>)|
                framework_record_of(f, applied_at@),
        ),
{
    let rows = framework_seeds();
    let ghost rv = framework_seeds_of();
    let mut out: Vec<JsonValue> = Vec::new();
    let mut i: usize = 0;
    proof {
        crate::json::lemma_items_empty();
    }
    while i < rows.len()
        invariant
            i <= rows@.len(),
            rv == framework_seeds_of(),
            rows@.map_values(
                |p: (&'static str, &'static str, &'static str, &'static str, &'static str, &'static str)|
                    (p.0@, p.1@, p.2@, p.3@, p.4@, p.5@),
            ) == rv,
            items_view(out@) == rv.take(i as int).map_values(
                |f: (Seq<char>, Seq<char>, Seq<char>, Seq<char>, Seq<char>, Seq<char>)|
                    framework_record_of(f, applied_at@),
            ),
            crate::json::all_wf(out@),
        decreases rows.len() - i,
    {
        let f = rows[i];
        assert(rv[i as int] == (f.0@, f.1@, f.2@, f.3@, f.4@, f.5@));
        let mut o = JsonValue::empty_object();
        o.insert("id", JsonValue::from_string(concat("decision-framework-", f.0)));
        o.insert("entity", JsonValue::text("decisionFrameworks"));
        o.insert("slug", JsonValue::text(f.0));
        o.insert("name", JsonValue::text(f.1));
        o.insert("purpose", JsonValue::text(f.2));
        o.insert("components", JsonValue::text(f.3));
        o.insert("useCases", JsonValue::text(f.4));
        o.insert("output", JsonValue::text(f.5));
        o.insert("status", JsonValue::text("active"));
        o.insert("createdAt", JsonValue::text(applied_at));
        o.insert("updatedAt", JsonValue::text(applied_at));
        proof {
            lemma_items_push(out@, o);
        }
        let ghost before = out@;
        out.push(o);
        proof {
            assert forall|z: int| 0 <= z < out@.len() implies crate::json::json_wf(#[trigger] out@[z]) by {
                if z < before.len() {
                    assert(out@[z] == before[z]);
                }
            }
        }
        i = i + 1;
        assert(items_view(out@) =~= rv.take(i as int).map_values(
            |f: (Seq<char>, Seq<char>, Seq<char>, Seq<char>, Seq<char>, Seq<char>)|
                framework_record_of(f, applied_at@),
        ));
    }
    assert(rv.take(i as int) =~= rv);
    out
}

/// The seeded CEO principles as records, stamped `applied_at`.
pub fn principle_records(applied_at: &str) -> (r: Vec<JsonValue>)
    ensures
        crate::json::all_wf(r@),
        items_view(r@) == principle_seeds_of().map_values(
            |p: (Seq<char>, Seq<char>, Seq<char>, Seq<char>, Seq<char>, Seq<char>, Seq<char>)|
                principle_record_of(p, applied_at@),
        ),
{
    let rows = principle_seeds();
    let ghost rv = principle_seeds_of();
    let mut out: Vec<JsonValue> = Vec::new();
    let mut i: usize = 0;
    proof {
        crate::json::lemma_items_empty();
    }
    while i < rows.len()
        invariant
            i <= rows@.len(),
            rv == principle_seeds_of(),
            rows@.map_values(
                |p: (
                    &'static str,
                    &'static str,
                    &'static str,
                    &'static str,
                    &'static str,
                    &'static str,
                    &'static str,
                )| (p.0@, p.1@, p.2@, p.3@, p.4@, p.5@, p.6@),
            ) == rv,
            items_view(out@) == rv.take(i as int).map_values(
                |p: (Seq<char>, Seq<char>, Seq<char>, Seq<char>, Seq<char>, Seq<char>, Seq<char>)|
                    principle_record_of(p, applied_at@),
            ),
            crate::json::all_wf(out@),
        decreases rows.len() - i,
    {
        let p = rows[i];
        assert(rv[i as int] == (p.0@, p.1@, p.2@, p.3@, p.4@, p.5@, p.6@));
        let mut o = JsonValue::empty_object();
        o.insert("id", JsonValue::from_string(concat("ceo-principle-", p.0)));
        o.insert("entity", JsonValue::text("ceoPrinciples"));
        o.insert("slug", JsonValue::text(p.0));
        o.insert("name", JsonValue::text(p.1));
        o.insert("definition", JsonValue::text(p.2));
        o.insert("decisionRule", JsonValue::text(p.3));
        o.insert("useCases", JsonValue::text(p.4));
        o.insert("antiPatterns", JsonValue::text(p.5));
        o.insert("example", JsonValue::text(p.6));
        o.insert("status", JsonValue::text("active"));
        o.insert("createdAt", JsonValue::text(applied_at));
        o.insert("updatedAt", JsonValue::text(applied_at));
        proof {
            lemma_items_push(out@, o);
        }
        let ghost before = out@;
        out.push(o);
        proof {
            assert forall|z: int| 0 <= z < out@.len() implies crate::json::json_wf(#[trigger] out@[z]) by {
                if z < before.len() {
                    assert(out@[z] == before[z]);
                }
            }
        }
        i = i + 1;
        assert(items_view(out@) =~= rv.take(i as int).map_values(
            |p: (Seq<char>, Seq<char>, Seq<char>, Seq<char>, Seq<char>, Seq<char>, Seq<char>)|
                principle_record_of(p, applied_at@),
        ));
    }
    assert(rv.take(i as int) =~= rv);
    out
}

/// The seeded decision lenses as records, stamped `applied_at`.
pub fn lens_records(applied_at: &str) -> (r: Vec<JsonValue>)
    ensures
        crate::json::all_wf(r@),
        items_view(r@) == lens_seeds_of().map_values(
            |l: (Seq<char>, Seq<char>, Seq<char>, Seq<char>, Seq<char>, Seq<char>)| lens_record_of(l, applied_at@),
        ),
{
    let rows = lens_seeds();
    let ghost rv = lens_seeds_of();
    let mut out: Vec<JsonValue> = Vec::new();
    let mut i: usize = 0;
    proof {
        crate::json::lemma_items_empty();
    }
    while i < rows.len()
        invariant
            i <= rows@.len(),
            rv == lens_seeds_of(),
            rows@.map_values(
                |p: (&'static str, &'static str, &'static str, &'static str, &'static str, &'static str)|
                    (p.0@, p.1@, p.2@, p.3@, p.4@, p.5@),
            ) == rv,
            items_view(out@) == rv.take(i as int).map_values(
                |l: (Seq<char>, Seq<char>, Seq<char>, Seq<char>, Seq<char>, Seq<char>)| lens_record_of(l, applied_at@),
            ),
            crate::json::all_wf(out@),
        decreases rows.len() - i,
    {
        let l = rows[i];
        assert(rv[i as int] == (l.0@, l.1@, l.2@, l.3@, l.4@, l.5@));
        let mut o = JsonValue::empty_object();
        o.insert("id", JsonValue::from_string(concat("decision-lens-", l.0)));
        o.insert("entity", JsonValue::text("decisionLenses"));
        o.insert("slug", JsonValue::text(l.0));
        o.insert("name", JsonValue::text(l.1));
        o.insert("focus", JsonValue::text(l.2));
        o.insert("recommendedModelSlugs", JsonValue::text(l.3));
        o.insert("recommendedFrameworkSlugs", JsonValue::text(l.4));
        o.insert("description", JsonValue::text(l.5));
        o.insert("status", JsonValue::text("active"));
        o.insert("createdAt", JsonValue::text(applied_at));
        o.insert("updatedAt", JsonValue::text(applied_at));
        proof {
            lemma_items_push(out@, o);
        }
        let ghost before = out@;
        out.push(o);
        proof {
            assert forall|z: int| 0 <= z < out@.len() implies crate::json::json_wf(#[trigger] out@[z]) by {
                if z < before.len() {
                    assert(out@[z] == before[z]);
                }
            }
        }
        i = i + 1;
        assert(items_view(out@) =~= rv.take(i as int).map_values(
            |l: (Seq<char>, Seq<char>, Seq<char>, Seq<char>, Seq<char>, Seq<char>)| lens_record_of(l, applied_at@),
        ));
    }
    assert(rv.take(i as int) =~= rv);
    out
}

} // verus!
