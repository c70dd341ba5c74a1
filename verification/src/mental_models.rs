//! The mental-model library: its categories, the models it is seeded with,
//! and how older model records are brought up to the current fields.
use vstd::prelude::*;
use crate::text::{eq_str, concat, own, contains, contains_str, lowercase, lowercase_of, u64_to_string, int_dec};
use crate::json::{JsonValue, Json, field, field_str, with, jstr, empty_obj, is_obj, as_bool, items_view};
use crate::records::text_or_empty_of;

verus! {

/// One seeded mental model.
#[derive(Clone, Copy)]
pub struct Seed {
    pub slug: &'static str,
    pub name: &'static str,
    pub category_id: &'static str,
    pub definition: &'static str,
    pub core_idea: &'static str,
    pub source_person: &'static str,
    pub source_theory: &'static str,
    pub tags: &'static str,
    pub triggers: &'static str,
    pub output: &'static str,
}

/// A seed from its fields.
pub fn seed(
    slug: &'static str,
    name: &'static str,
    category_id: &'static str,
    definition: &'static str,
    core_idea: &'static str,
    source_person: &'static str,
    source_theory: &'static str,
    tags: &'static str,
    triggers: &'static str,
    output: &'static str,
) -> (s: Seed)
    ensures
        s.slug == slug,
        s.name == name,
        s.category_id == category_id,
        s.definition == definition,
        s.core_idea == core_idea,
        s.source_person == source_person,
        s.source_theory == source_theory,
        s.tags == tags,
        s.triggers == triggers,
        s.output == output,
{
    Seed { slug, name, category_id, definition, core_idea, source_person, source_theory, tags, triggers, output }
}

/// The categories of the library: id and label.
pub open spec fn categories_of() -> Seq<(Seq<char>, Seq<char>)> {
    seq![
        ("problem-cognition"@, "问题认知"@),
        ("risk-error"@, "风险与错误"@),
        ("decision-judgment"@, "决策判断"@),
        ("strategy"@, "战略"@),
        ("customer-product"@, "客户与产品"@),
        ("growth"@, "增长"@),
        ("organization"@, "组织"@),
        ("learning-evolution"@, "学习与进化"@),
    ]
}

pub fn categories() -> (r: Vec<(&'static str, &'static str)>)
    ensures
        r@.map_values(|p: (&'static str, &'static str)| (p.0@, p.1@)) == categories_of(),
{
    let r = vec![
        ("problem-cognition", "问题认知"),
        ("risk-error", "风险与错误"),
        ("decision-judgment", "决策判断"),
        ("strategy", "战略"),
        ("customer-product", "客户与产品"),
        ("growth", "增长"),
        ("organization", "组织"),
        ("learning-evolution", "学习与进化"),
    ];
    assert(r@.map_values(|p: (&'static str, &'static str)| (p.0@, p.1@)) =~= categories_of());
    r
}

/// The label of a category, or 待归类 for an unknown one.
pub open spec fn category_label_of(id: Seq<char>) -> Seq<char> {
    if id == "problem-cognition"@ {
        "问题认知"@
    } else if id == "risk-error"@ {
        "风险与错误"@
    } else if id == "decision-judgment"@ {
        "决策判断"@
    } else if id == "strategy"@ {
        "战略"@
    } else if id == "customer-product"@ {
        "客户与产品"@
    } else if id == "growth"@ {
        "增长"@
    } else if id == "organization"@ {
        "组织"@
    } else if id == "learning-evolution"@ {
        "学习与进化"@
    } else {
        "待归类"@
    }
}

pub fn category_label(category_id: &str) -> (r: &'static str)
    ensures
        r@ == category_label_of(category_id@),
{
    if eq_str(category_id, "problem-cognition") {
        "问题认知"
    } else if eq_str(category_id, "risk-error") {
        "风险与错误"
    } else if eq_str(category_id, "decision-judgment") {
        "决策判断"
    } else if eq_str(category_id, "strategy") {
        "战略"
    } else if eq_str(category_id, "customer-product") {
        "客户与产品"
    } else if eq_str(category_id, "growth") {
        "增长"
    } else if eq_str(category_id, "organization") {
        "组织"
    } else if eq_str(category_id, "learning-evolution") {
        "学习与进化"
    } else {
        "待归类"
    }
}

/// The models the library is seeded with, in order.
pub open spec fn seeds_of() -> Seq<Seed> {
    seq![
        Seed {
            slug: "first-principles",
            name: "第一性原理",
            category_id: "problem-cognition",
            definition: "把复杂问题拆回不可再分的事实与约束。",
            core_idea: "不从惯例出发，从事实重新推导。",
            source_person: "Elon Musk",
            source_theory: "First Principles",
            tags: "CEO,认知,产品,创新",
            triggers: "复杂问题,新产品,行业变化",
            output: "事实清单\n关键约束\n重新推导的方案",
        },
        Seed {
            slug: "circle-of-competence",
            name: "能力圈",
            category_id: "problem-cognition",
            definition: "只在理解边界和优势范围内做重要判断。",
            core_idea: "知道自己知道什么，也知道自己不知道什么。",
            source_person: "Charlie Munger",
            source_theory: "Circle of Competence",
            tags: "CEO,战略,风险",
            triggers: "陌生市场,重大投入,能力不足",
            output: "能力边界\n缺口\n是否继续进入",
        },
        Seed {
            slug: "base-rate",
            name: "基准率思维",
            category_id: "problem-cognition",
            definition: "先看同类事件的历史概率，再评估个案。",
            core_idea: "个案叙事不能替代基础概率。",
            source_person: "Daniel Kahneman",
            source_theory: "Base Rate",
            tags: "概率,风险,投资",
            triggers: "预测,新项目,成功率判断",
            output: "参考样本\n基准概率\n个案修正",
        },
        Seed {
            slug: "multiple-mental-models",
            name: "多元思维模型",
            category_id: "problem-cognition",
            definition: "用多个学科视角交叉检查同一问题。",
            core_idea: "单一模型容易造成盲区，组合模型可以提高判断质量。",
            source_person: "Charlie Munger",
            source_theory: "Latticework of Mental Models",
            tags: "CEO,系统,决策",
            triggers: "重大决策,跨部门问题,复杂系统",
            output: "调用模型\n共同结论\n冲突与盲区",
        },
        Seed {
            slug: "inversion",
            name: "逆向思维",
            category_id: "risk-error",
            definition: "从目标的失败结果反向推导原因与预防措施。",
            core_idea: "先避免明显错误，再追求成功。",
            source_person: "Charlie Munger",
            source_theory: "Inversion",
            tags: "风险,CEO,投资",
            triggers: "重大决策,高风险项目,大额投入",
            output: "失败原因\n致命风险\n风险等级\n预防措施",
        },
        Seed {
            slug: "cognitive-bias",
            name: "认知偏差",
            category_id: "risk-error",
            definition: "识别判断中系统性的心理偏误。",
            core_idea: "先检查自己的判断机制，再相信结论。",
            source_person: "Daniel Kahneman",
            source_theory: "Thinking, Fast and Slow",
            tags: "风险,组织,决策",
            triggers: "情绪化判断,冲突,过度自信",
            output: "偏差类型\n证据\n纠偏动作",
        },
        Seed {
            slug: "premortem",
            name: "预演失败",
            category_id: "risk-error",
            definition: "假设方案已经失败，提前寻找可能原因。",
            core_idea: "在行动前暴露失败路径。",
            source_person: "Gary Klein",
            source_theory: "Premortem",
            tags: "风险,项目,执行",
            triggers: "项目启动,投资,战略调整",
            output: "失败假设\n原因\n预防实验",
        },
        Seed {
            slug: "margin-of-safety",
            name: "安全边际",
            category_id: "risk-error",
            definition: "让判断和投入保留足够缓冲，降低估计错误的代价。",
            core_idea: "不要只在最乐观情景下成立。",
            source_person: "Benjamin Graham",
            source_theory: "Margin of Safety",
            tags: "投资,风险,财务",
            triggers: "大额投入,现金流,高不确定性",
            output: "基准情景\n最坏情景\n缓冲空间",
        },
        Seed {
            slug: "second-order-thinking",
            name: "二阶思维",
            category_id: "risk-error",
            definition: "分析行动直接后果之后的连锁影响。",
            core_idea: "问“然后会怎样”，避免只看第一步。",
            source_person: "Howard Marks",
            source_theory: "Second-Order Thinking",
            tags: "战略,风险,系统",
            triggers: "竞争变化,降价,组织调整",
            output: "一阶结果\n二阶结果\n长期副作用",
        },
        Seed {
            slug: "probabilistic-thinking",
            name: "概率思维",
            category_id: "decision-judgment",
            definition: "用概率、区间和更新而不是绝对断言表达不确定性。",
            core_idea: "判断不是预测单点，而是管理概率分布。",
            source_person: "Annie Duke",
            source_theory: "Thinking in Bets",
            tags: "概率,决策,投资",
            triggers: "不确定性,预测,资源下注",
            output: "概率区间\n证据\n更新后的置信度",
        },
        Seed {
            slug: "opportunity-cost",
            name: "机会成本",
            category_id: "decision-judgment",
            definition: "比较选择一个方案所放弃的最佳替代方案。",
            core_idea: "资源有限，真正的成本是放弃的机会。",
            source_person: "Friedrich von Wieser",
            source_theory: "Opportunity Cost",
            tags: "CEO,资源,战略",
            triggers: "多项目竞争,预算,时间分配",
            output: "候选方案\n最佳替代\n放弃代价",
        },
        Seed {
            slug: "reversible-irreversible",
            name: "可逆/不可逆决策",
            category_id: "decision-judgment",
            definition: "根据决策可逆程度选择行动速度与审慎程度。",
            core_idea: "可逆决策快速试错，不可逆决策提高证据门槛。",
            source_person: "Jeff Bezos",
            source_theory: "Type 1 / Type 2 Decisions",
            tags: "CEO,执行,风险",
            triggers: "重大决策,实验,大额投入",
            output: "可逆性\n证据门槛\n下一步",
        },
        Seed {
            slug: "hypothesis-driven-decision",
            name: "假设驱动决策",
            category_id: "decision-judgment",
            definition: "把商业决策拆成可验证的假设与下注。",
            core_idea: "假设、验证、更新概率，再决定是否行动。",
            source_person: "Decision Science",
            source_theory: "Hypothesis-Driven Decision",
            tags: "决策,实验,概率",
            triggers: "新产品,新市场,高不确定性",
            output: "假设
验证方式
验证成本
验证结果
更新概率",
        },
        Seed {
            slug: "information-value",
            name: "信息价值",
            category_id: "decision-judgment",
            definition: "评估获取信息是否值得其成本。",
            core_idea: "只有可能改变决策的信息才值得调查。",
            source_person: "Decision Analysis",
            source_theory: "Value of Information",
            tags: "决策,调查,效率",
            triggers: "数据缺口,调研,等待",
            output: "信息成本\n可能改变的决策\n调查或行动",
        },
        Seed {
            slug: "stopping-rule",
            name: "停止规则",
            category_id: "decision-judgment",
            definition: "在行动前定义何时继续、观察、重评估或停止。",
            core_idea: "沉没成本不能成为继续投入的理由。",
            source_person: "Decision Theory",
            source_theory: "Stopping Rule",
            tags: "项目,风险,执行",
            triggers: "项目投入,实验,现金流压力",
            output: "停止条件\n当前指标\n动作",
        },
        Seed {
            slug: "strategy-kernel",
            name: "战略内核",
            category_id: "strategy",
            definition: "用诊断、指导方针和连贯行动形成战略。",
            core_idea: "战略不是目标口号，而是针对障碍的选择。",
            source_person: "Richard Rumelt",
            source_theory: "Good Strategy Bad Strategy",
            tags: "战略,CEO,竞争",
            triggers: "战略规划,业务转型,资源取舍",
            output: "诊断\n指导方针\n连贯行动",
        },
        Seed {
            slug: "five-forces",
            name: "五力模型",
            category_id: "strategy",
            definition: "分析行业竞争结构与利润压力。",
            core_idea: "利润池由竞争力量共同决定。",
            source_person: "Michael Porter",
            source_theory: "Five Forces",
            tags: "战略,市场,竞争",
            triggers: "进入市场,竞品降价,行业变化",
            output: "五种力量\n利润压力\n战略位置",
        },
        Seed {
            slug: "value-chain",
            name: "价值链",
            category_id: "strategy",
            definition: "拆解企业创造价值与产生成本的活动。",
            core_idea: "竞争优势来自价值活动之间的系统配置。",
            source_person: "Michael Porter",
            source_theory: "Value Chain",
            tags: "战略,运营,产品",
            triggers: "成本优化,供应链,差异化",
            output: "价值活动\n成本来源\n优势环节",
        },
        Seed {
            slug: "strategic-inflection",
            name: "战略拐点",
            category_id: "strategy",
            definition: "识别外部变化使原有战略假设失效的时刻。",
            core_idea: "真正危险的是变化发生而组织仍按旧逻辑行动。",
            source_person: "Andy Grove",
            source_theory: "Strategic Inflection Point",
            tags: "战略,变化,AI",
            triggers: "行业变化,技术冲击,竞争重构",
            output: "变化信号\n失效假设\n转向选项",
        },
        Seed {
            slug: "innovators-dilemma",
            name: "创新者窘境",
            category_id: "strategy",
            definition: "解释成功企业为何可能被新技术和新市场颠覆。",
            core_idea: "既有客户与利润结构可能阻碍下一代创新。",
            source_person: "Clayton Christensen",
            source_theory: "Disruptive Innovation",
            tags: "战略,创新,产品",
            triggers: "新技术,低端竞争,业务转型",
            output: "现有优势\n颠覆路径\n双轨行动",
        },
        Seed {
            slug: "jtbd",
            name: "Jobs to Be Done",
            category_id: "customer-product",
            definition: "从客户要完成的任务理解需求与产品选择。",
            core_idea: "客户购买的不是产品，而是完成任务的进展。",
            source_person: "Clayton Christensen",
            source_theory: "Jobs to Be Done",
            tags: "产品,客户,增长",
            triggers: "新产品,用户流失,需求不清",
            output: "客户任务\n触发情境\n替代方案",
        },
        Seed {
            slug: "customer-obsession",
            name: "客户至上",
            category_id: "customer-product",
            definition: "以客户长期价值和真实反馈作为优先判断依据。",
            core_idea: "客户问题比内部假设更接近产品真相。",
            source_person: "Jeff Bezos",
            source_theory: "Customer Obsession",
            tags: "客户,产品,CEO",
            triggers: "产品取舍,投诉,增长",
            output: "客户问题\n证据\n优先行动",
        },
        Seed {
            slug: "feedback-loop",
            name: "反馈回路",
            category_id: "customer-product",
            definition: "识别行动、结果与反馈之间的循环关系。",
            core_idea: "系统会放大或抑制行为，关键在于回路结构。",
            source_person: "Systems Thinking",
            source_theory: "Feedback Loop",
            tags: "产品,增长,组织",
            triggers: "指标变化,重复问题,迭代",
            output: "回路节点\n增强或平衡\n干预点",
        },
        Seed {
            slug: "leverage",
            name: "杠杆",
            category_id: "growth",
            definition: "用较少资源放大产出、影响或速度。",
            core_idea: "优先寻找可复制、可放大的约束突破点。",
            source_person: "Archimedes",
            source_theory: "Leverage",
            tags: "增长,效率,CEO",
            triggers: "资源有限,规模化,效率",
            output: "杠杆点\n投入产出\n放大风险",
        },
        Seed {
            slug: "long-termism",
            name: "长期主义",
            category_id: "learning-evolution",
            definition: "用长期目标和累积效应约束短期选择。",
            core_idea: "不被短期噪音带偏，持续建设可复利的能力。",
            source_person: "Jeff Bezos",
            source_theory: "Long-term Thinking",
            tags: "长期主义,战略,增长",
            triggers: "行业变化,长期投资,能力建设",
            output: "长期目标\n短期代价\n累积优势",
        },
        Seed {
            slug: "compound-interest",
            name: "复利",
            category_id: "growth",
            definition: "小幅持续改善通过时间积累形成巨大差异。",
            core_idea: "增长率和持续时间共同决定长期结果。",
            source_person: "Warren Buffett",
            source_theory: "Compounding",
            tags: "增长,长期主义,投资",
            triggers: "长期项目,能力建设,品牌",
            output: "起点\n增长率\n时间\n阻断因素",
        },
        Seed {
            slug: "flywheel",
            name: "飞轮效应",
            category_id: "growth",
            definition: "多个相互强化的活动形成自我加速循环。",
            core_idea: "增长来自环环相扣，而非单点动作。",
            source_person: "Jeff Bezos",
            source_theory: "Flywheel",
            tags: "增长,平台,客户",
            triggers: "增长停滞,平台,复购",
            output: "飞轮环节\n阻力\n启动动作",
        },
        Seed {
            slug: "network-effects",
            name: "网络效应",
            category_id: "growth",
            definition: "参与者增加提升产品对其他参与者的价值。",
            core_idea: "价值随网络规模和连接质量增长。",
            source_person: "Robert Metcalfe",
            source_theory: "Network Effects",
            tags: "增长,平台,产品",
            triggers: "平台,社区,双边市场",
            output: "网络类型\n临界规模\n负向效应",
        },
        Seed {
            slug: "economies-of-scale",
            name: "规模经济",
            category_id: "growth",
            definition: "规模扩大后单位成本下降或能力提升。",
            core_idea: "规模必须转化为真实的单位经济改善。",
            source_person: "Economics",
            source_theory: "Economies of Scale",
            tags: "增长,成本,运营",
            triggers: "扩张,采购,产能",
            output: "固定成本\n单位成本\n规模风险",
        },
        Seed {
            slug: "incentives",
            name: "激励机制",
            category_id: "organization",
            definition: "分析奖励、惩罚和指标如何塑造行为。",
            core_idea: "不要只听口号，要看激励结构。",
            source_person: "Charlie Munger",
            source_theory: "Incentives",
            tags: "组织,管理,风险",
            triggers: "离职,执行偏差,绩效",
            output: "激励来源\n实际行为\n副作用",
        },
        Seed {
            slug: "effective-manager",
            name: "有效管理者",
            category_id: "organization",
            definition: "通过贡献、优先级和决策提高组织有效性。",
            core_idea: "管理者的产出是组织整体产出。",
            source_person: "Peter Drucker",
            source_theory: "Effective Executive",
            tags: "组织,管理,CEO",
            triggers: "团队协作,管理升级,效率",
            output: "贡献\n优先级\n组织动作",
        },
        Seed {
            slug: "strengths-management",
            name: "优势管理",
            category_id: "organization",
            definition: "围绕个人与团队优势设计角色和协作。",
            core_idea: "把优势变成组织结果，而不是修补所有弱点。",
            source_person: "Peter Drucker",
            source_theory: "Managing Strengths",
            tags: "组织,人才,管理",
            triggers: "招聘,分工,核心员工",
            output: "优势\n角色匹配\n缺口补偿",
        },
        Seed {
            slug: "principle-based-management",
            name: "原则化管理",
            category_id: "organization",
            definition: "用清晰原则代替临时命令，保持判断一致性。",
            core_idea: "原则让组织在复杂情境中自主决策。",
            source_person: "Ray Dalio",
            source_theory: "Principles",
            tags: "组织,管理,决策",
            triggers: "规模化,授权,冲突",
            output: "原则\n边界\n例外处理",
        },
        Seed {
            slug: "retrospective",
            name: "复盘",
            category_id: "learning-evolution",
            definition: "比较预期与实际，提炼下一次可改变的行动。",
            core_idea: "经验只有进入下一次行动才产生价值。",
            source_person: "Learning Organization",
            source_theory: "Retrospective",
            tags: "学习,结果,执行",
            triggers: "项目结束,结果偏差,重复问题",
            output: "预期\n实际\n偏差\n下一步",
        },
        Seed {
            slug: "hypothesis-update",
            name: "假设更新",
            category_id: "learning-evolution",
            definition: "把决策视为假设，并根据验证结果更新概率。",
            core_idea: "不确定性下的进步来自持续校准。",
            source_person: "Bayesian Thinking",
            source_theory: "Hypothesis Updating",
            tags: "学习,概率,产品",
            triggers: "实验,新证据,市场验证",
            output: "假设\n验证\n证据\n更新概率",
        },
        Seed {
            slug: "experience-extraction",
            name: "经验提炼",
            category_id: "learning-evolution",
            definition: "从具体事件中提炼可复用的经验边界。",
            core_idea: "经验必须包含适用条件和限制。",
            source_person: "Learning Organization",
            source_theory: "Experience Extraction",
            tags: "学习,知识,CEO",
            triggers: "复盘,重复事件,培训",
            output: "事实\n模式\n适用边界",
        },
        Seed {
            slug: "decision-feedback",
            name: "决策反馈",
            category_id: "learning-evolution",
            definition: "把决策、执行、结果和复盘连接起来校准判断。",
            core_idea: "决策质量必须用结果和过程共同评价。",
            source_person: "Decision Science",
            source_theory: "Decision Feedback",
            tags: "学习,决策,结果",
            triggers: "重大决策,结果发生,模型评价",
            output: "预测\n结果\n准确度\n模型效果",
        },
    ]
}

pub fn seeds() -> (r: Vec<Seed>)
    ensures
        r@ == seeds_of(),
{
    let r = vec![
        Seed {
            slug: "first-principles",
            name: "第一性原理",
            category_id: "problem-cognition",
            definition: "把复杂问题拆回不可再分的事实与约束。",
            core_idea: "不从惯例出发，从事实重新推导。",
            source_person: "Elon Musk",
            source_theory: "First Principles",
            tags: "CEO,认知,产品,创新",
            triggers: "复杂问题,新产品,行业变化",
            output: "事实清单\n关键约束\n重新推导的方案",
        },
        Seed {
            slug: "circle-of-competence",
            name: "能力圈",
            category_id: "problem-cognition",
            definition: "只在理解边界和优势范围内做重要判断。",
            core_idea: "知道自己知道什么，也知道自己不知道什么。",
            source_person: "Charlie Munger",
            source_theory: "Circle of Competence",
            tags: "CEO,战略,风险",
            triggers: "陌生市场,重大投入,能力不足",
            output: "能力边界\n缺口\n是否继续进入",
        },
        Seed {
            slug: "base-rate",
            name: "基准率思维",
            category_id: "problem-cognition",
            definition: "先看同类事件的历史概率，再评估个案。",
            core_idea: "个案叙事不能替代基础概率。",
            source_person: "Daniel Kahneman",
            source_theory: "Base Rate",
            tags: "概率,风险,投资",
            triggers: "预测,新项目,成功率判断",
            output: "参考样本\n基准概率\n个案修正",
        },
        Seed {
            slug: "multiple-mental-models",
            name: "多元思维模型",
            category_id: "problem-cognition",
            definition: "用多个学科视角交叉检查同一问题。",
            core_idea: "单一模型容易造成盲区，组合模型可以提高判断质量。",
            source_person: "Charlie Munger",
            source_theory: "Latticework of Mental Models",
            tags: "CEO,系统,决策",
            triggers: "重大决策,跨部门问题,复杂系统",
            output: "调用模型\n共同结论\n冲突与盲区",
        },
        Seed {
            slug: "inversion",
            name: "逆向思维",
            category_id: "risk-error",
            definition: "从目标的失败结果反向推导原因与预防措施。",
            core_idea: "先避免明显错误，再追求成功。",
            source_person: "Charlie Munger",
            source_theory: "Inversion",
            tags: "风险,CEO,投资",
            triggers: "重大决策,高风险项目,大额投入",
            output: "失败原因\n致命风险\n风险等级\n预防措施",
        },
        Seed {
            slug: "cognitive-bias",
            name: "认知偏差",
            category_id: "risk-error",
            definition: "识别判断中系统性的心理偏误。",
            core_idea: "先检查自己的判断机制，再相信结论。",
            source_person: "Daniel Kahneman",
            source_theory: "Thinking, Fast and Slow",
            tags: "风险,组织,决策",
            triggers: "情绪化判断,冲突,过度自信",
            output: "偏差类型\n证据\n纠偏动作",
        },
        Seed {
            slug: "premortem",
            name: "预演失败",
            category_id: "risk-error",
            definition: "假设方案已经失败，提前寻找可能原因。",
            core_idea: "在行动前暴露失败路径。",
            source_person: "Gary Klein",
            source_theory: "Premortem",
            tags: "风险,项目,执行",
            triggers: "项目启动,投资,战略调整",
            output: "失败假设\n原因\n预防实验",
        },
        Seed {
            slug: "margin-of-safety",
            name: "安全边际",
            category_id: "risk-error",
            definition: "让判断和投入保留足够缓冲，降低估计错误的代价。",
            core_idea: "不要只在最乐观情景下成立。",
            source_person: "Benjamin Graham",
            source_theory: "Margin of Safety",
            tags: "投资,风险,财务",
            triggers: "大额投入,现金流,高不确定性",
            output: "基准情景\n最坏情景\n缓冲空间",
        },
        Seed {
            slug: "second-order-thinking",
            name: "二阶思维",
            category_id: "risk-error",
            definition: "分析行动直接后果之后的连锁影响。",
            core_idea: "问“然后会怎样”，避免只看第一步。",
            source_person: "Howard Marks",
            source_theory: "Second-Order Thinking",
            tags: "战略,风险,系统",
            triggers: "竞争变化,降价,组织调整",
            output: "一阶结果\n二阶结果\n长期副作用",
        },
        Seed {
            slug: "probabilistic-thinking",
            name: "概率思维",
            category_id: "decision-judgment",
            definition: "用概率、区间和更新而不是绝对断言表达不确定性。",
            core_idea: "判断不是预测单点，而是管理概率分布。",
            source_person: "Annie Duke",
            source_theory: "Thinking in Bets",
            tags: "概率,决策,投资",
            triggers: "不确定性,预测,资源下注",
            output: "概率区间\n证据\n更新后的置信度",
        },
        Seed {
            slug: "opportunity-cost",
            name: "机会成本",
            category_id: "decision-judgment",
            definition: "比较选择一个方案所放弃的最佳替代方案。",
            core_idea: "资源有限，真正的成本是放弃的机会。",
            source_person: "Friedrich von Wieser",
            source_theory: "Opportunity Cost",
            tags: "CEO,资源,战略",
            triggers: "多项目竞争,预算,时间分配",
            output: "候选方案\n最佳替代\n放弃代价",
        },
        Seed {
            slug: "reversible-irreversible",
            name: "可逆/不可逆决策",
            category_id: "decision-judgment",
            definition: "根据决策可逆程度选择行动速度与审慎程度。",
            core_idea: "可逆决策快速试错，不可逆决策提高证据门槛。",
            source_person: "Jeff Bezos",
            source_theory: "Type 1 / Type 2 Decisions",
            tags: "CEO,执行,风险",
            triggers: "重大决策,实验,大额投入",
            output: "可逆性\n证据门槛\n下一步",
        },
        Seed {
            slug: "hypothesis-driven-decision",
            name: "假设驱动决策",
            category_id: "decision-judgment",
            definition: "把商业决策拆成可验证的假设与下注。",
            core_idea: "假设、验证、更新概率，再决定是否行动。",
            source_person: "Decision Science",
            source_theory: "Hypothesis-Driven Decision",
            tags: "决策,实验,概率",
            triggers: "新产品,新市场,高不确定性",
            output: "假设
验证方式
验证成本
验证结果
更新概率",
        },
        Seed {
            slug: "information-value",
            name: "信息价值",
            category_id: "decision-judgment",
            definition: "评估获取信息是否值得其成本。",
            core_idea: "只有可能改变决策的信息才值得调查。",
            source_person: "Decision Analysis",
            source_theory: "Value of Information",
            tags: "决策,调查,效率",
            triggers: "数据缺口,调研,等待",
            output: "信息成本\n可能改变的决策\n调查或行动",
        },
        Seed {
            slug: "stopping-rule",
            name: "停止规则",
            category_id: "decision-judgment",
            definition: "在行动前定义何时继续、观察、重评估或停止。",
            core_idea: "沉没成本不能成为继续投入的理由。",
            source_person: "Decision Theory",
            source_theory: "Stopping Rule",
            tags: "项目,风险,执行",
            triggers: "项目投入,实验,现金流压力",
            output: "停止条件\n当前指标\n动作",
        },
        Seed {
            slug: "strategy-kernel",
            name: "战略内核",
            category_id: "strategy",
            definition: "用诊断、指导方针和连贯行动形成战略。",
            core_idea: "战略不是目标口号，而是针对障碍的选择。",
            source_person: "Richard Rumelt",
            source_theory: "Good Strategy Bad Strategy",
            tags: "战略,CEO,竞争",
            triggers: "战略规划,业务转型,资源取舍",
            output: "诊断\n指导方针\n连贯行动",
        },
        Seed {
            slug: "five-forces",
            name: "五力模型",
            category_id: "strategy",
            definition: "分析行业竞争结构与利润压力。",
            core_idea: "利润池由竞争力量共同决定。",
            source_person: "Michael Porter",
            source_theory: "Five Forces",
            tags: "战略,市场,竞争",
            triggers: "进入市场,竞品降价,行业变化",
            output: "五种力量\n利润压力\n战略位置",
        },
        Seed {
            slug: "value-chain",
            name: "价值链",
            category_id: "strategy",
            definition: "拆解企业创造价值与产生成本的活动。",
            core_idea: "竞争优势来自价值活动之间的系统配置。",
            source_person: "Michael Porter",
            source_theory: "Value Chain",
            tags: "战略,运营,产品",
            triggers: "成本优化,供应链,差异化",
            output: "价值活动\n成本来源\n优势环节",
        },
        Seed {
            slug: "strategic-inflection",
            name: "战略拐点",
            category_id: "strategy",
            definition: "识别外部变化使原有战略假设失效的时刻。",
            core_idea: "真正危险的是变化发生而组织仍按旧逻辑行动。",
            source_person: "Andy Grove",
            source_theory: "Strategic Inflection Point",
            tags: "战略,变化,AI",
            triggers: "行业变化,技术冲击,竞争重构",
            output: "变化信号\n失效假设\n转向选项",
        },
        Seed {
            slug: "innovators-dilemma",
            name: "创新者窘境",
            category_id: "strategy",
            definition: "解释成功企业为何可能被新技术和新市场颠覆。",
            core_idea: "既有客户与利润结构可能阻碍下一代创新。",
            source_person: "Clayton Christensen",
            source_theory: "Disruptive Innovation",
            tags: "战略,创新,产品",
            triggers: "新技术,低端竞争,业务转型",
            output: "现有优势\n颠覆路径\n双轨行动",
        },
        Seed {
            slug: "jtbd",
            name: "Jobs to Be Done",
            category_id: "customer-product",
            definition: "从客户要完成的任务理解需求与产品选择。",
            core_idea: "客户购买的不是产品，而是完成任务的进展。",
            source_person: "Clayton Christensen",
            source_theory: "Jobs to Be Done",
            tags: "产品,客户,增长",
            triggers: "新产品,用户流失,需求不清",
            output: "客户任务\n触发情境\n替代方案",
        },
        Seed {
            slug: "customer-obsession",
            name: "客户至上",
            category_id: "customer-product",
            definition: "以客户长期价值和真实反馈作为优先判断依据。",
            core_idea: "客户问题比内部假设更接近产品真相。",
            source_person: "Jeff Bezos",
            source_theory: "Customer Obsession",
            tags: "客户,产品,CEO",
            triggers: "产品取舍,投诉,增长",
            output: "客户问题\n证据\n优先行动",
        },
        Seed {
            slug: "feedback-loop",
            name: "反馈回路",
            category_id: "customer-product",
            definition: "识别行动、结果与反馈之间的循环关系。",
            core_idea: "系统会放大或抑制行为，关键在于回路结构。",
            source_person: "Systems Thinking",
            source_theory: "Feedback Loop",
            tags: "产品,增长,组织",
            triggers: "指标变化,重复问题,迭代",
            output: "回路节点\n增强或平衡\n干预点",
        },
        Seed {
            slug: "leverage",
            name: "杠杆",
            category_id: "growth",
            definition: "用较少资源放大产出、影响或速度。",
            core_idea: "优先寻找可复制、可放大的约束突破点。",
            source_person: "Archimedes",
            source_theory: "Leverage",
            tags: "增长,效率,CEO",
            triggers: "资源有限,规模化,效率",
            output: "杠杆点\n投入产出\n放大风险",
        },
        Seed {
            slug: "long-termism",
            name: "长期主义",
            category_id: "learning-evolution",
            definition: "用长期目标和累积效应约束短期选择。",
            core_idea: "不被短期噪音带偏，持续建设可复利的能力。",
            source_person: "Jeff Bezos",
            source_theory: "Long-term Thinking",
            tags: "长期主义,战略,增长",
            triggers: "行业变化,长期投资,能力建设",
            output: "长期目标\n短期代价\n累积优势",
        },
        Seed {
            slug: "compound-interest",
            name: "复利",
            category_id: "growth",
            definition: "小幅持续改善通过时间积累形成巨大差异。",
            core_idea: "增长率和持续时间共同决定长期结果。",
            source_person: "Warren Buffett",
            source_theory: "Compounding",
            tags: "增长,长期主义,投资",
            triggers: "长期项目,能力建设,品牌",
            output: "起点\n增长率\n时间\n阻断因素",
        },
        Seed {
            slug: "flywheel",
            name: "飞轮效应",
            category_id: "growth",
            definition: "多个相互强化的活动形成自我加速循环。",
            core_idea: "增长来自环环相扣，而非单点动作。",
            source_person: "Jeff Bezos",
            source_theory: "Flywheel",
            tags: "增长,平台,客户",
            triggers: "增长停滞,平台,复购",
            output: "飞轮环节\n阻力\n启动动作",
        },
        Seed {
            slug: "network-effects",
            name: "网络效应",
            category_id: "growth",
            definition: "参与者增加提升产品对其他参与者的价值。",
            core_idea: "价值随网络规模和连接质量增长。",
            source_person: "Robert Metcalfe",
            source_theory: "Network Effects",
            tags: "增长,平台,产品",
            triggers: "平台,社区,双边市场",
            output: "网络类型\n临界规模\n负向效应",
        },
        Seed {
            slug: "economies-of-scale",
            name: "规模经济",
            category_id: "growth",
            definition: "规模扩大后单位成本下降或能力提升。",
            core_idea: "规模必须转化为真实的单位经济改善。",
            source_person: "Economics",
            source_theory: "Economies of Scale",
            tags: "增长,成本,运营",
            triggers: "扩张,采购,产能",
            output: "固定成本\n单位成本\n规模风险",
        },
        Seed {
            slug: "incentives",
            name: "激励机制",
            category_id: "organization",
            definition: "分析奖励、惩罚和指标如何塑造行为。",
            core_idea: "不要只听口号，要看激励结构。",
            source_person: "Charlie Munger",
            source_theory: "Incentives",
            tags: "组织,管理,风险",
            triggers: "离职,执行偏差,绩效",
            output: "激励来源\n实际行为\n副作用",
        },
        Seed {
            slug: "effective-manager",
            name: "有效管理者",
            category_id: "organization",
            definition: "通过贡献、优先级和决策提高组织有效性。",
            core_idea: "管理者的产出是组织整体产出。",
            source_person: "Peter Drucker",
            source_theory: "Effective Executive",
            tags: "组织,管理,CEO",
            triggers: "团队协作,管理升级,效率",
            output: "贡献\n优先级\n组织动作",
        },
        Seed {
            slug: "strengths-management",
            name: "优势管理",
            category_id: "organization",
            definition: "围绕个人与团队优势设计角色和协作。",
            core_idea: "把优势变成组织结果，而不是修补所有弱点。",
            source_person: "Peter Drucker",
            source_theory: "Managing Strengths",
            tags: "组织,人才,管理",
            triggers: "招聘,分工,核心员工",
            output: "优势\n角色匹配\n缺口补偿",
        },
        Seed {
            slug: "principle-based-management",
            name: "原则化管理",
            category_id: "organization",
            definition: "用清晰原则代替临时命令，保持判断一致性。",
            core_idea: "原则让组织在复杂情境中自主决策。",
            source_person: "Ray Dalio",
            source_theory: "Principles",
            tags: "组织,管理,决策",
            triggers: "规模化,授权,冲突",
            output: "原则\n边界\n例外处理",
        },
        Seed {
            slug: "retrospective",
            name: "复盘",
            category_id: "learning-evolution",
            definition: "比较预期与实际，提炼下一次可改变的行动。",
            core_idea: "经验只有进入下一次行动才产生价值。",
            source_person: "Learning Organization",
            source_theory: "Retrospective",
            tags: "学习,结果,执行",
            triggers: "项目结束,结果偏差,重复问题",
            output: "预期\n实际\n偏差\n下一步",
        },
        Seed {
            slug: "hypothesis-update",
            name: "假设更新",
            category_id: "learning-evolution",
            definition: "把决策视为假设，并根据验证结果更新概率。",
            core_idea: "不确定性下的进步来自持续校准。",
            source_person: "Bayesian Thinking",
            source_theory: "Hypothesis Updating",
            tags: "学习,概率,产品",
            triggers: "实验,新证据,市场验证",
            output: "假设\n验证\n证据\n更新概率",
        },
        Seed {
            slug: "experience-extraction",
            name: "经验提炼",
            category_id: "learning-evolution",
            definition: "从具体事件中提炼可复用的经验边界。",
            core_idea: "经验必须包含适用条件和限制。",
            source_person: "Learning Organization",
            source_theory: "Experience Extraction",
            tags: "学习,知识,CEO",
            triggers: "复盘,重复事件,培训",
            output: "事实\n模式\n适用边界",
        },
        Seed {
            slug: "decision-feedback",
            name: "决策反馈",
            category_id: "learning-evolution",
            definition: "把决策、执行、结果和复盘连接起来校准判断。",
            core_idea: "决策质量必须用结果和过程共同评价。",
            source_person: "Decision Science",
            source_theory: "Decision Feedback",
            tags: "学习,决策,结果",
            triggers: "重大决策,结果发生,模型评价",
            output: "预测\n结果\n准确度\n模型效果",
        },
    ];
    assert(r@ =~= seeds_of());
    r
}

/// The relations seeded between models: from, to and kind.
pub open spec fn relation_seeds_of() -> Seq<(Seq<char>, Seq<char>, Seq<char>)> {
    seq![
        ("inversion"@, "margin-of-safety"@, "complementary"@),
        ("inversion"@, "probabilistic-thinking"@, "complementary"@),
        ("inversion"@, "second-order-thinking"@, "related"@),
        ("first-principles"@, "jtbd"@, "related"@),
        ("compound-interest"@, "flywheel"@, "related"@),
        ("flywheel"@, "network-effects"@, "related"@),
        ("strategic-inflection"@, "innovators-dilemma"@, "related"@),
        ("opportunity-cost"@, "information-value"@, "complementary"@),
        ("hypothesis-driven-decision"@, "hypothesis-update"@, "related"@),
        ("stopping-rule"@, "margin-of-safety"@, "complementary"@),
        ("five-forces"@, "value-chain"@, "related"@),
    ]
}

/// Whether `id` is one of the library's categories.
pub open spec fn is_category(id: Seq<char>) -> bool {
    exists|j: int| 0 <= j < categories_of().len() && (#[trigger] categories_of()[j]).0 == id
}

/// Each category is labelled as the category list says, every other id is
/// labelled 待归类, and every seed model belongs to one of the categories, so
/// that it gets a label of its own.
pub proof fn lemma_category_labels()
    ensures
        forall|j: int| 0 <= j < categories_of().len() ==> category_label_of((#[trigger] categories_of()[j]).0)
            == categories_of()[j].1,
        forall|id: Seq<char>| !is_category(id) ==> #[trigger] category_label_of(id) == "待归类"@,
        forall|id: Seq<char>| is_category(id) ==> #[trigger] category_label_of(id) != "待归类"@,
        forall|i: int| 0 <= i < seeds_of().len() ==> is_category(#[trigger] seeds_of()[i].category_id@),
{
    let c = categories_of();
    assert(c[0] == ("problem-cognition"@, "问题认知"@));
    assert(c[1] == ("risk-error"@, "风险与错误"@));
    assert(c[2] == ("decision-judgment"@, "决策判断"@));
    assert(c[3] == ("strategy"@, "战略"@));
    assert(c[4] == ("customer-product"@, "客户与产品"@));
    assert(c[5] == ("growth"@, "增长"@));
    assert(c[6] == ("organization"@, "组织"@));
    assert(c[7] == ("learning-evolution"@, "学习与进化"@));
    reveal_strlit("待归类");
    reveal_strlit("问题认知");
    reveal_strlit("风险与错误");
    reveal_strlit("决策判断");
    reveal_strlit("战略");
    reveal_strlit("客户与产品");
    reveal_strlit("增长");
    reveal_strlit("组织");
    reveal_strlit("学习与进化");
    reveal_strlit("problem-cognition");
    reveal_strlit("risk-error");
    reveal_strlit("decision-judgment");
    reveal_strlit("strategy");
    reveal_strlit("customer-product");
    reveal_strlit("growth");
    reveal_strlit("organization");
    reveal_strlit("learning-evolution");
    let s = seeds_of();
    assert(s[0].category_id@ == c[0].0);
    assert(s[1].category_id@ == c[0].0);
    assert(s[2].category_id@ == c[0].0);
    assert(s[3].category_id@ == c[0].0);
    assert(s[4].category_id@ == c[1].0);
    assert(s[5].category_id@ == c[1].0);
    assert(s[6].category_id@ == c[1].0);
    assert(s[7].category_id@ == c[1].0);
    assert(s[8].category_id@ == c[1].0);
    assert(s[9].category_id@ == c[2].0);
    assert(s[10].category_id@ == c[2].0);
    assert(s[11].category_id@ == c[2].0);
    assert(s[12].category_id@ == c[2].0);
    assert(s[13].category_id@ == c[2].0);
    assert(s[14].category_id@ == c[2].0);
    assert(s[15].category_id@ == c[3].0);
    assert(s[16].category_id@ == c[3].0);
    assert(s[17].category_id@ == c[3].0);
    assert(s[18].category_id@ == c[3].0);
    assert(s[19].category_id@ == c[3].0);
    assert(s[20].category_id@ == c[4].0);
    assert(s[21].category_id@ == c[4].0);
    assert(s[22].category_id@ == c[4].0);
    assert(s[23].category_id@ == c[5].0);
    assert(s[24].category_id@ == c[7].0);
    assert(s[25].category_id@ == c[5].0);
    assert(s[26].category_id@ == c[5].0);
    assert(s[27].category_id@ == c[5].0);
    assert(s[28].category_id@ == c[5].0);
    assert(s[29].category_id@ == c[6].0);
    assert(s[30].category_id@ == c[6].0);
    assert(s[31].category_id@ == c[6].0);
    assert(s[32].category_id@ == c[6].0);
    assert(s[33].category_id@ == c[7].0);
    assert(s[34].category_id@ == c[7].0);
    assert(s[35].category_id@ == c[7].0);
    assert(s[36].category_id@ == c[7].0);
    assert forall|id: Seq<char>| !is_category(id) implies #[trigger] category_label_of(id) == "待归类"@ by {
        assert(c[0].0 != id && c[1].0 != id && c[2].0 != id && c[3].0 != id);
        assert(c[4].0 != id && c[5].0 != id && c[6].0 != id && c[7].0 != id);
    }
    assert forall|j: int| 0 <= j < categories_of().len() implies category_label_of((#[trigger] categories_of()[j]).0)
        == categories_of()[j].1 && categories_of()[j].1 != "待归类"@ by {
        assert("decision-judgment"@[0] != "problem-cognition"@[0]);
        assert("待归类"@.len() == 3);
        if j == 0 {} else if j == 1 {} else if j == 2 {} else if j == 3 {} else if j == 4 {} else if j == 5 {} else if j == 6 {} else {}
    }
    assert forall|id: Seq<char>| is_category(id) implies #[trigger] category_label_of(id) != "待归类"@ by {
        let j = choose|j: int| 0 <= j < categories_of().len() && (#[trigger] categories_of()[j]).0 == id;
        assert(category_label_of(categories_of()[j].0) == categories_of()[j].1);
    }
    assert forall|i: int| 0 <= i < seeds_of().len() implies is_category(#[trigger] seeds_of()[i].category_id@) by {
        assert(s.len() == 37);
        let k: int = if i == 0 { 0 }
        else if i == 1 { 0 }
        else if i == 2 { 0 }
        else if i == 3 { 0 }
        else if i == 4 { 1 }
        else if i == 5 { 1 }
        else if i == 6 { 1 }
        else if i == 7 { 1 }
        else if i == 8 { 1 }
        else if i == 9 { 2 }
        else if i == 10 { 2 }
        else if i == 11 { 2 }
        else if i == 12 { 2 }
        else if i == 13 { 2 }
        else if i == 14 { 2 }
        else if i == 15 { 3 }
        else if i == 16 { 3 }
        else if i == 17 { 3 }
        else if i == 18 { 3 }
        else if i == 19 { 3 }
        else if i == 20 { 4 }
        else if i == 21 { 4 }
        else if i == 22 { 4 }
        else if i == 23 { 5 }
        else if i == 24 { 7 }
        else if i == 25 { 5 }
        else if i == 26 { 5 }
        else if i == 27 { 5 }
        else if i == 28 { 5 }
        else if i == 29 { 6 }
        else if i == 30 { 6 }
        else if i == 31 { 6 }
        else if i == 32 { 6 }
        else if i == 33 { 7 }
        else if i == 34 { 7 }
        else if i == 35 { 7 } else { 7 };
        assert(s[i].category_id@ == c[k].0);
    }
}

pub fn relation_seeds() -> (r: Vec<(&'static str, &'static str, &'static str)>)
    ensures
        r@.map_values(|p: (&'static str, &'static str, &'static str)| (p.0@, p.1@, p.2@)) == relation_seeds_of(),
{
    let r = vec![
        ("inversion", "margin-of-safety", "complementary"),
        ("inversion", "probabilistic-thinking", "complementary"),
        ("inversion", "second-order-thinking", "related"),
        ("first-principles", "jtbd", "related"),
        ("compound-interest", "flywheel", "related"),
        ("flywheel", "network-effects", "related"),
        ("strategic-inflection", "innovators-dilemma", "related"),
        ("opportunity-cost", "information-value", "complementary"),
        ("hypothesis-driven-decision", "hypothesis-update", "related"),
        ("stopping-rule", "margin-of-safety", "complementary"),
        ("five-forces", "value-chain", "related"),
    ];
    assert(r@.map_values(|p: (&'static str, &'static str, &'static str)| (p.0@, p.1@, p.2@)) =~= relation_seeds_of());
    r
}

pub open spec fn default_questions() -> Seq<char> {
    "请把事实、假设、证据和下一步分开。"@
}

pub open spec fn default_steps() -> Seq<char> {
    "1. 定义问题\n2. 检查证据\n3. 形成输出"@
}

/// `seed_value`: the record a seeded model is stored as.
pub open spec fn seed_value_of(s: Seed, id: Seq<char>, now: Seq<char>) -> Json {
    Json::Obj(
        Map::empty().insert("id"@, jstr(id)).insert("entity"@, jstr("mentalModels"@)).insert("name"@, jstr(s.name@)).insert(
            "slug"@,
            jstr(s.slug@),
        ).insert("categoryId"@, jstr(s.category_id@)).insert("category"@, jstr(category_label_of(s.category_id@))).insert(
            "definition"@,
            jstr(s.definition@),
        ).insert("coreIdea"@, jstr(s.core_idea@)).insert("corePrinciple"@, jstr(s.core_idea@)).insert(
            "applicationScenarios"@,
            jstr(s.triggers@),
        ).insert("useCases"@, jstr(s.triggers@)).insert("keyQuestions"@, jstr(default_questions())).insert(
            "methodSteps"@,
            jstr(default_steps()),
        ).insert("steps"@, jstr(default_steps())).insert("outputStructure"@, jstr(s.output@)).insert(
            "outputTemplate"@,
            jstr(s.output@),
        ).insert("sourcePerson"@, jstr(s.source_person@)).insert("source"@, jstr(s.source_person@)).insert(
            "sourceTheory"@,
            jstr(s.source_theory@),
        ).insert("triggerConditions"@, jstr(s.triggers@)).insert("trigger"@, jstr(s.triggers@)).insert(
            "tags"@,
            jstr(s.tags@),
        ).insert("difficulty"@, jstr("intermediate"@)).insert("status"@, jstr("active"@)).insert(
            "needsReview"@,
            Json::Bool(false),
        ).insert("createdAt"@, jstr(now)).insert("updatedAt"@, jstr(now)),
    )
}

pub fn seed_value(seed: Seed, id: String, now: &str) -> (r: JsonValue)
    ensures
        crate::json::json_wf(r),
        r@ == seed_value_of(seed, id@, now@),
{
    let mut o = JsonValue::empty_object();
    o.insert("id", JsonValue::from_string(id));
    o.insert("entity", JsonValue::text("mentalModels"));
    o.insert("name", JsonValue::text(seed.name));
    o.insert("slug", JsonValue::text(seed.slug));
    o.insert("categoryId", JsonValue::text(seed.category_id));
    o.insert("category", JsonValue::text(category_label(seed.category_id)));
    o.insert("definition", JsonValue::text(seed.definition));
    o.insert("coreIdea", JsonValue::text(seed.core_idea));
    o.insert("corePrinciple", JsonValue::text(seed.core_idea));
    o.insert("applicationScenarios", JsonValue::text(seed.triggers));
    o.insert("useCases", JsonValue::text(seed.triggers));
    o.insert("keyQuestions", JsonValue::text("请把事实、假设、证据和下一步分开。"));
    o.insert("methodSteps", JsonValue::text("1. 定义问题\n2. 检查证据\n3. 形成输出"));
    o.insert("steps", JsonValue::text("1. 定义问题\n2. 检查证据\n3. 形成输出"));
    o.insert("outputStructure", JsonValue::text(seed.output));
    o.insert("outputTemplate", JsonValue::text(seed.output));
    o.insert("sourcePerson", JsonValue::text(seed.source_person));
    o.insert("source", JsonValue::text(seed.source_person));
    o.insert("sourceTheory", JsonValue::text(seed.source_theory));
    o.insert("triggerConditions", JsonValue::text(seed.triggers));
    o.insert("trigger", JsonValue::text(seed.triggers));
    o.insert("tags", JsonValue::text(seed.tags));
    o.insert("difficulty", JsonValue::text("intermediate"));
    o.insert("status", JsonValue::text("active"));
    o.insert("needsReview", JsonValue::Bool(false));
    o.insert("createdAt", JsonValue::text(now));
    o.insert("updatedAt", JsonValue::text(now));
    o
}

/// The id a seeded model gets when the library lacks it.
pub open spec fn seed_id_of(applied_at: Seq<char>, index: nat) -> Seq<char> {
    "mentalModels-engine-"@ + applied_at + "-"@ + int_dec(index as int)
}

pub fn seed_record_id(applied_at: &str, index: u64) -> (r: String)
    ensures
        r@ == seed_id_of(applied_at@, index as nat),
{
    let a = concat("mentalModels-engine-", applied_at);
    let b = concat(a.as_str(), "-");
    concat(b.as_str(), u64_to_string(index).as_str())
}

// ---------------------------------------------------------------------------
// Bringing older model records up to date.
/// The category an older free-text category maps to.
pub open spec fn legacy_category_of(old: Seq<char>) -> Seq<char> {
    if contains(old, "风险"@) {
        "risk-error"@
    } else if contains(old, "增长"@) {
        "growth"@
    } else if contains(old, "组织"@) {
        "organization"@
    } else if contains(old, "战略"@) {
        "strategy"@
    } else if contains(old, "产品"@) || contains(old, "客户"@) {
        "customer-product"@
    } else if contains(old, "学习"@) || contains(old, "复盘"@) {
        "learning-evolution"@
    } else {
        "decision-judgment"@
    }
}

pub fn legacy_category(old: &str) -> (r: &'static str)
    ensures
        r@ == legacy_category_of(old@),
{
    if contains_str(old, "风险") {
        "risk-error"
    } else if contains_str(old, "增长") {
        "growth"
    } else if contains_str(old, "组织") {
        "organization"
    } else if contains_str(old, "战略") {
        "strategy"
    } else if contains_str(old, "产品") || contains_str(old, "客户") {
        "customer-product"
    } else if contains_str(old, "学习") || contains_str(old, "复盘") {
        "learning-evolution"
    } else {
        "decision-judgment"
    }
}

/// Spaces become hyphens.
pub open spec fn hyphenate(s: Seq<char>) -> Seq<char> {
    s.map_values(|c: char| if c == ' ' { '-' } else { c })
}

fn hyphenate_exec(s: &str) -> (r: String)
    ensures
        r@ == hyphenate(s@),
{
    let cs = crate::text::chars_of(s);
    let mut out = String::new();
    let mut i: usize = 0;
    while i < cs.len()
        invariant
            i <= cs@.len(),
            cs@ == s@,
            out@ == hyphenate(cs@.take(i as int)),
        decreases cs.len() - i,
    {
        if cs[i] == ' ' {
            out.push('-');
        } else {
            out.push(cs[i]);
        }
        i = i + 1;
        assert(out@ =~= hyphenate(cs@.take(i as int)));
    }
    assert(cs@.take(i as int) =~= s@);
    out
}

/// A category id is filled from the older free-text category.
pub open spec fn with_category(j: Json) -> Json {
    if text_or_empty_of(j, "categoryId"@).len() == 0 {
        let mapped = legacy_category_of(text_or_empty_of(j, "category"@));
        with(with(j, "categoryId"@, jstr(mapped)), "category"@, jstr(category_label_of(mapped)))
    } else {
        j
    }
}

/// An empty field takes the non-empty text of its newer name.
pub open spec fn alias_fill(j: Json, target: Seq<char>, source: Seq<char>) -> Json {
    if text_or_empty_of(j, target).len() == 0 && field_str(j, source) is Some && field_str(j, source)->Some_0.len()
        > 0 {
        with(j, target, field(j, source)->Some_0)
    } else {
        j
    }
}

pub open spec fn with_aliases(j: Json) -> Json {
    alias_fill(
        alias_fill(
            alias_fill(
                alias_fill(
                    alias_fill(alias_fill(j, "definition"@, "coreIdea"@), "corePrinciple"@, "coreIdea"@),
                    "useCases"@,
                    "applicationScenarios"@,
                ),
                "trigger"@,
                "triggerConditions"@,
            ),
            "steps"@,
            "methodSteps"@,
        ),
        "outputTemplate"@,
        "outputStructure"@,
    )
}

/// A missing field takes a default.
pub open spec fn or_default(j: Json, k: Seq<char>, v: Json) -> Json {
    if field(j, k) is Some {
        j
    } else {
        with(j, k, v)
    }
}

pub open spec fn field_or(j: Json, k: Seq<char>, d: Json) -> Json {
    match field(j, k) {
        Some(v) => v,
        None => d,
    }
}

/// What the library's upgrade makes of an older model record.
pub open spec fn upgraded_of(data: Json) -> Json {
    let name = text_or_empty_of(data, "name"@);
    let j1 = with_aliases(with_category(data));
    let j2 = or_default(j1, "slug"@, jstr(hyphenate(lowercase_of(name))));
    let j3 = or_default(j2, "sourcePerson"@, field_or(j2, "source"@, jstr(Seq::empty())));
    let j4 = or_default(j3, "sourceTheory"@, jstr(Seq::empty()));
    let j5 = or_default(j4, "triggerConditions"@, field_or(j4, "trigger"@, jstr(Seq::empty())));
    let j6 = or_default(j5, "relatedModelIds"@, Json::Arr(Seq::empty()));
    let j7 = or_default(j6, "oppositeModelIds"@, Json::Arr(Seq::empty()));
    let j8 = or_default(j7, "difficulty"@, jstr("intermediate"@));
    let j9 = or_default(j8, "status"@, jstr("active"@));
    with(
        j9,
        "needsReview"@,
        Json::Bool(
            match as_bool(field(j9, "needsReview"@)) {
                Some(b) => b,
                None => true,
            },
        ),
    )
}

fn text_or_empty(j: &JsonValue, k: &str) -> (r: String)
    ensures
        r@ == text_or_empty_of(j@, k@),
{
    match j.get_str(k) {
        Some(s) => own(s),
        None => String::new(),
    }
}

fn alias_fill_exec(j: &mut JsonValue, target: &str, source: &str)
    requires
        is_obj(old(j)@),
    ensures
        is_obj(final(j)@),
        final(j)@ == alias_fill(old(j)@, target@, source@),
        crate::json::json_wf(*old(j)) ==> crate::json::json_wf(*final(j)),
{
    if text_or_empty(j, target).as_str().is_empty() {
        let v = match j.get(source) {
            Some(x) => match x.as_str() {
                Some(t) => if t.is_empty() {
                    None
                } else {
                    Some(x.duplicate())
                },
                None => None,
            },
            None => None,
        };
        match v {
            Some(x) => j.insert(target, x),
            None => {},
        }
    }
}

fn or_default_exec(j: &mut JsonValue, k: &str, v: JsonValue)
    requires
        is_obj(old(j)@),
    ensures
        is_obj(final(j)@),
        final(j)@ == or_default(old(j)@, k@, v@),
        crate::json::json_wf(*old(j)) && crate::json::json_wf(v) ==> crate::json::json_wf(*final(j)),
{
    if !j.has(k) {
        j.insert(k, v);
    }
}

fn field_or_exec(j: &JsonValue, k: &str, d: JsonValue) -> (r: JsonValue)
    ensures
        r@ == field_or(j@, k@, d@),
        crate::json::json_wf(*j) && crate::json::json_wf(d) ==> crate::json::json_wf(r),
{
    match j.get(k) {
        Some(x) => x.duplicate(),
        None => d,
    }
}

/// Brings an older model record up to the current fields; a record that is
/// not an object is refused.
pub fn upgrade_mental_model(data: JsonValue) -> (r: Result<JsonValue, String>)
    ensures
        crate::json::json_wf(data) ==> (r matches Ok(v) ==> crate::json::json_wf(v)),
        !is_obj(data@) ==> (r matches Err(e) && e@ == "思维模型记录结构无效"@),
        is_obj(data@) ==> (r matches Ok(v) && v@ == upgraded_of(data@)),
{
    if !data.is_object() {
        return Err(own("思维模型记录结构无效"));
    }
    let name = text_or_empty(&data, "name");
    proof {
        reveal_strlit("");
        assert(""@ =~= Seq::<char>::empty());
    }
    let mut j = data;
    let ghost j0 = j@;
    if text_or_empty(&j, "categoryId").as_str().is_empty() {
        let old = text_or_empty(&j, "category");
        let mapped = legacy_category(old.as_str());
        j.insert("categoryId", JsonValue::text(mapped));
        j.insert("category", JsonValue::text(category_label(mapped)));
    }
    assert(j@ == with_category(j0));
    alias_fill_exec(&mut j, "definition", "coreIdea");
    alias_fill_exec(&mut j, "corePrinciple", "coreIdea");
    alias_fill_exec(&mut j, "useCases", "applicationScenarios");
    alias_fill_exec(&mut j, "trigger", "triggerConditions");
    alias_fill_exec(&mut j, "steps", "methodSteps");
    alias_fill_exec(&mut j, "outputTemplate", "outputStructure");
    let ghost j1 = j@;
    assert(j1 == with_aliases(with_category(j0)));
    let slug = hyphenate_exec(lowercase(name.as_str()).as_str());
    or_default_exec(&mut j, "slug", JsonValue::from_string(slug));
    let ghost j2 = j@;
    assert(j2 == or_default(j1, "slug"@, jstr(hyphenate(lowercase_of(text_or_empty_of(j0, "name"@))))));
    let sp = field_or_exec(&j, "source", JsonValue::text(""));
    or_default_exec(&mut j, "sourcePerson", sp);
    assert(j@ == or_default(j2, "sourcePerson"@, field_or(j2, "source"@, jstr(Seq::empty()))));
    or_default_exec(&mut j, "sourceTheory", JsonValue::text(""));
    let ghost j4 = j@;
    let tc = field_or_exec(&j, "trigger", JsonValue::text(""));
    or_default_exec(&mut j, "triggerConditions", tc);
    assert(j@ == or_default(j4, "triggerConditions"@, field_or(j4, "trigger"@, jstr(Seq::empty()))));
    proof {
        crate::json::lemma_items_empty();
    }
    or_default_exec(&mut j, "relatedModelIds", JsonValue::Array(Vec::new()));
    or_default_exec(&mut j, "oppositeModelIds", JsonValue::Array(Vec::new()));
    or_default_exec(&mut j, "difficulty", JsonValue::text("intermediate"));
    or_default_exec(&mut j, "status", JsonValue::text("active"));
    let review = match j.bool_of("needsReview") {
        Some(b) => b,
        None => true,
    };
    j.insert("needsReview", JsonValue::Bool(review));
    Ok(j)
}

// ---------------------------------------------------------------------------
// Relations between models.
/// The field a relation of `kind` is listed under.
pub open spec fn relation_field_of(kind: Seq<char>) -> Seq<char> {
    if kind == "opposite"@ {
        "oppositeModelIds"@
    } else {
        "relatedModelIds"@
    }
}

/// Names and slugs, each with the id of the model record it was seen on.
pub open spec fn pairs_view(s: Seq<(String, String)>) -> Seq<(Seq<char>, Seq<char>)> {
    s.map_values(|p: (String, String)| (p.0@, p.1@))
}

/// The id recorded under `key`: the last one recorded, as a map that each
/// record overwrites gives it; `None` when nothing was recorded under it.
pub open spec fn known_id_of(known: Seq<(Seq<char>, Seq<char>)>, key: Seq<char>) -> Option<Seq<char>>
    decreases known.len(),
{
    if known.len() == 0 {
        None
    } else if known.last().0 == key {
        Some(known.last().1)
    } else {
        known_id_of(known.drop_last(), key)
    }
}

/// The id of the model that a relation end (a name or a slug) names, among
/// the models recorded so far.
pub fn known_id(known: &Vec<(String, String)>, key: &str) -> (r: Option<String>)
    ensures
        crate::records::opt_seq(r) == known_id_of(pairs_view(known@), key@),
{
    let ghost kv = pairs_view(known@);
    let mut i: usize = known.len();
    assert(kv.take(i as int) =~= kv);
    while i > 0
        invariant
            i <= known@.len(),
            kv == pairs_view(known@),
            known_id_of(kv, key@) == known_id_of(kv.take(i as int), key@),
        decreases i,
    {
        let ghost t = kv.take(i as int);
        assert(t.last() == (known@[i - 1].0@, known@[i - 1].1@));
        assert(t.drop_last() =~= kv.take(i - 1));
        if eq_str(known[i - 1].0.as_str(), key) {
            return Some(known[i - 1].1.clone());
        }
        i = i - 1;
    }
    None
}

pub fn relation_field(kind: &str) -> (r: &'static str)
    ensures
        r@ == relation_field_of(kind@),
{
    if eq_str(kind, "opposite") {
        "oppositeModelIds"
    } else {
        "relatedModelIds"
    }
}

/// The list under `key` (created empty when missing) gains `to` unless it holds it.
pub open spec fn with_related_of(data: Json, key: Seq<char>, to: Seq<char>) -> Json {
    let cur = field_or(data, key, Json::Arr(Seq::empty()));
    match cur {
        Json::Arr(a) => if a.contains(jstr(to)) {
            with(data, key, cur)
        } else {
            with(data, key, Json::Arr(a.push(jstr(to))))
        },
        _ => with(data, key, cur),
    }
}

/// Lists `to` under `key` of a model record; a record that is not an object is refused.
pub fn add_model_relation(data: JsonValue, key: &str, to: &str) -> (r: Result<JsonValue, String>)
    ensures
        crate::json::json_wf(data) ==> (r matches Ok(v) ==> crate::json::json_wf(v)),
        !is_obj(data@) ==> (r matches Err(e) && e@ == "思维模型关系记录结构无效"@),
        is_obj(data@) ==> (r matches Ok(v) && v@ == with_related_of(data@, key@, to@)),
{
    if !data.is_object() {
        return Err(own("思维模型关系记录结构无效"));
    }
    let mut j = data;
    let cur = match j.get(key) {
        Some(x) => x.duplicate(),
        None => {
            proof {
                crate::json::lemma_items_empty();
            }
            JsonValue::Array(Vec::new())
        },
    };
    match cur {
        JsonValue::Array(a) => {
            let mut items = a;
            let ghost av = items_view(items@);
            let ghost w0 = crate::json::items_wf(items@);
            proof {
                crate::json::lemma_items_len(items@);
                crate::json::lemma_items_wf(items@);
            }
            let mut found = false;
            let mut i: usize = 0;
            while i < items.len()
                invariant
                    i <= items@.len(),
                    av == items_view(items@),
                    av.len() == items@.len(),
                    found == exists|q: int| 0 <= q < i && av[q] == jstr(to@),
                decreases items.len() - i,
            {
                proof {
                    crate::json::lemma_items_index(items@, i as int);
                }
                let hit = match &items[i] {
                    JsonValue::Str(s) => eq_str(s.as_str(), to),
                    _ => false,
                };
                proof {
                    if !hit {
                        assert forall|q: int| 0 <= q < i + 1 && av[q] == jstr(to@) implies 0 <= q < i by {}
                    }
                }
                if hit {
                    found = true;
                }
                i = i + 1;
            }
            proof {
                if found {
                    let q = choose|q: int| 0 <= q < i && av[q] == jstr(to@);
                    assert(av.contains(jstr(to@)));
                } else {
                    assert forall|q: int| 0 <= q < av.len() implies av[q] != jstr(to@) by {}
                }
            }
            if !found {
                let item = JsonValue::text(to);
                proof {
                    crate::json::lemma_items_push(items@, item);
                }
                let ghost before = items@;
                items.push(item);
                proof {
                    if w0 {
                        assert forall|q: int| 0 <= q < items@.len() implies crate::json::json_wf(#[trigger] items@[q]) by {
                            if q < before.len() {
                                assert(items@[q] == before[q]);
                            }
                        }
                    }
                }
            }
            proof {
                crate::json::lemma_items_wf(items@);
            }
            j.insert(key, JsonValue::Array(items));
        },
        other => {
            j.insert(key, other);
        },
    }
    Ok(j)
}

} // verus!
