//! Research views: news impact, overseas drivers, the report workflow, AI tasks and
//! the wording of data-source errors.
use vstd::prelude::*;

use crate::json::JsonValue;
use crate::text::{
    append_str, chars_of, contains_any, contains_seq, decimal_int, decimal_nat, decimal_u64, int_to_decimal, is_blank, lowercase, opt_view, trim_ws,
    str_contains, str_eq, strings_view, to_lower, to_owned_string, views_of,
};

verus! {

/// Words that make a news text bearish.
pub open spec fn impact_bearish_words() -> Seq<Seq<char>> {
    seq!["下滑"@, "下降"@, "走弱"@, "偏弱"@, "承压"@, "累库"@, "增产"@, "宽松"@]
}

/// Words that make a news text bullish.
pub open spec fn impact_bullish_words() -> Seq<Seq<char>> {
    seq!["上涨"@, "上调"@, "偏强"@, "去化"@, "减产"@, "扰动"@, "短缺"@, "收紧"@]
}

/// The impact of a news text: bearish words win over bullish ones.
pub open spec fn news_impact_spec(text: Seq<char>) -> Seq<char> {
    if contains_any(text, impact_bearish_words()) {
        "bearish"@
    } else if contains_any(text, impact_bullish_words()) {
        "bullish"@
    } else {
        "neutral"@
    }
}

/// The impact that a news text suggests for its commodity.
pub fn infer_news_impact(text: &str) -> (r: String)
    ensures
        r@ == news_impact_spec(text@),
{
    let bearish: [&str; 8] = ["下滑", "下降", "走弱", "偏弱", "承压", "累库", "增产", "宽松"];
    let bullish: [&str; 8] = ["上涨", "上调", "偏强", "去化", "减产", "扰动", "短缺", "收紧"];
    assert(views_of(bearish@) =~= impact_bearish_words());
    assert(views_of(bullish@) =~= impact_bullish_words());
    if crate::text::contains_any_word(text, &bearish) {
        to_owned_string("bearish")
    } else if crate::text::contains_any_word(text, &bullish) {
        to_owned_string("bullish")
    } else {
        to_owned_string("neutral")
    }
}

/// The driver group of an overseas futures symbol.
pub open spec fn overseas_driver_spec(symbol: Seq<char>) -> Seq<char> {
    if symbol == "CL=F"@ || symbol == "BZ=F"@ || symbol == "NG=F"@ {
        "能源"@
    } else if symbol == "GC=F"@ || symbol == "SI=F"@ {
        "贵金属"@
    } else if symbol == "HG=F"@ {
        "有色金属"@
    } else if symbol == "ZC=F"@ || symbol == "ZS=F"@ || symbol == "ZM=F"@ {
        "农产品"@
    } else {
        "海外参考"@
    }
}

/// The driver group of an overseas futures symbol.
pub fn infer_overseas_driver(symbol: &str) -> (r: String)
    ensures
        r@ == overseas_driver_spec(symbol@),
{
    if str_eq(symbol, "CL=F") || str_eq(symbol, "BZ=F") || str_eq(symbol, "NG=F") {
        to_owned_string("能源")
    } else if str_eq(symbol, "GC=F") || str_eq(symbol, "SI=F") {
        to_owned_string("贵金属")
    } else if str_eq(symbol, "HG=F") {
        to_owned_string("有色金属")
    } else if str_eq(symbol, "ZC=F") || str_eq(symbol, "ZS=F") || str_eq(symbol, "ZM=F") {
        to_owned_string("农产品")
    } else {
        to_owned_string("海外参考")
    }
}

/// An overseas futures contract that serves as a reference quote.
#[derive(Clone, Debug)]
pub struct OverseasSymbol {
    pub symbol: String,
    pub name: String,
    pub exchange: String,
    pub sector: String,
}

/// The overseas reference contracts: symbol, name, exchange and sector.
pub open spec fn overseas_symbols_spec() -> Seq<(Seq<char>, Seq<char>, Seq<char>, Seq<char>)> {
    seq![
        ("CL=F"@, "WTI 原油"@, "NYMEX"@, "energy_chemical"@),
        ("BZ=F"@, "Brent 原油"@, "ICE"@, "energy_chemical"@),
        ("NG=F"@, "Henry Hub 天然气"@, "NYMEX"@, "energy_chemical"@),
        ("GC=F"@, "COMEX 黄金"@, "COMEX"@, "metals"@),
        ("SI=F"@, "COMEX 白银"@, "COMEX"@, "metals"@),
        ("HG=F"@, "COMEX 铜"@, "COMEX"@, "metals"@),
        ("ZC=F"@, "CBOT 玉米"@, "CBOT"@, "agriculture"@),
        ("ZS=F"@, "CBOT 大豆"@, "CBOT"@, "agriculture"@),
        ("ZM=F"@, "CBOT 豆粕"@, "CBOT"@, "agriculture"@),
    ]
}

fn overseas(symbol: &str, name: &str, exchange: &str, sector: &str) -> (r: OverseasSymbol)
    ensures
        (r.symbol@, r.name@, r.exchange@, r.sector@) == (symbol@, name@, exchange@, sector@),
{
    OverseasSymbol {
        symbol: to_owned_string(symbol),
        name: to_owned_string(name),
        exchange: to_owned_string(exchange),
        sector: to_owned_string(sector),
    }
}

/// The overseas reference contracts, in display order.
pub fn overseas_symbols() -> (r: Vec<OverseasSymbol>)
    ensures
        r@.map_values(|o: OverseasSymbol| (o.symbol@, o.name@, o.exchange@, o.sector@)) == overseas_symbols_spec(),
{
    let mut r: Vec<OverseasSymbol> = Vec::new();
    r.push(overseas("CL=F", "WTI 原油", "NYMEX", "energy_chemical"));
    r.push(overseas("BZ=F", "Brent 原油", "ICE", "energy_chemical"));
    r.push(overseas("NG=F", "Henry Hub 天然气", "NYMEX", "energy_chemical"));
    r.push(overseas("GC=F", "COMEX 黄金", "COMEX", "metals"));
    r.push(overseas("SI=F", "COMEX 白银", "COMEX", "metals"));
    r.push(overseas("HG=F", "COMEX 铜", "COMEX", "metals"));
    r.push(overseas("ZC=F", "CBOT 玉米", "CBOT", "agriculture"));
    r.push(overseas("ZS=F", "CBOT 大豆", "CBOT", "agriculture"));
    r.push(overseas("ZM=F", "CBOT 豆粕", "CBOT", "agriculture"));
    assert(r@.map_values(|o: OverseasSymbol| (o.symbol@, o.name@, o.exchange@, o.sector@)) =~= overseas_symbols_spec());
    r
}

// ---------------------------------------------------------------------------
// Reports
// ---------------------------------------------------------------------------

/// A research report written by an LLM.
#[derive(Debug)]
pub struct AnalysisReport {
    pub id: String,
    pub symbol: String,
    pub trigger: String,
    pub provider: String,
    pub prompt_version: String,
    pub context_summary: String,
    pub content: String,
    pub created_at: String,
    pub tags: Vec<String>,
    pub dimension_summary: Option<JsonValue>,
    pub news_ids: Vec<String>,
    pub anomaly_reason: Option<String>,
}

/// One step of the daily report workflow.
#[derive(Clone, Debug)]
pub struct ReportWorkflowItem {
    pub trigger: String,
    pub label: String,
    pub status: String,
    pub report_id: Option<String>,
    pub symbol: Option<String>,
    pub created_at: Option<String>,
    pub summary: String,
}

/// The workflow steps: trigger and label.
pub open spec fn workflow_steps() -> Seq<(Seq<char>, Seq<char>)> {
    seq![
        ("tomorrow"@, "盘前计划"@),
        ("anomaly"@, "盘中异动"@),
        ("short_term"@, "短线跟踪"@),
        ("scheduled"@, "收盘/定时复盘"@),
    ]
}

/// Index of the first report with trigger `t`, or -1.
pub open spec fn first_with_trigger(reports: Seq<AnalysisReport>, t: Seq<char>) -> int
    decreases reports.len(),
{
    if reports.len() == 0 {
        -1
    } else if reports[0].trigger@ == t {
        0
    } else {
        let r = first_with_trigger(reports.drop_first(), t);
        if r < 0 {
            -1
        } else {
            r + 1
        }
    }
}

/// A workflow step is ready when a report of its trigger exists (the first one is
/// shown), running while a cycle is in progress, pending otherwise.
pub open spec fn workflow_item_ok(item: ReportWorkflowItem, step: (Seq<char>, Seq<char>), reports: Seq<AnalysisReport>, cycle: bool) -> bool {
    let k = first_with_trigger(reports, step.0);
    &&& item.trigger@ == step.0
    &&& item.label@ == step.1
    &&& if k >= 0 {
        let r = reports[k];
        &&& item.status@ == "ready"@
        &&& opt_view(item.report_id) == Some(r.id@)
        &&& opt_view(item.symbol) == Some(r.symbol@)
        &&& opt_view(item.created_at) == Some(r.created_at@)
        &&& item.summary@ == r.context_summary@
    } else {
        &&& item.status@ == if cycle {
            "running"@
        } else {
            "pending"@
        }
        &&& item.report_id is None && item.symbol is None && item.created_at is None
        &&& item.summary@ == "等待定时任务或手动触发生成"@
    }
}

proof fn lemma_first_with_trigger(reports: Seq<AnalysisReport>, t: Seq<char>, i: int)
    requires
        -1 <= i < reports.len(),
        i >= 0 ==> reports[i].trigger@ == t,
        forall|j: int| 0 <= j < reports.len() && (i < 0 || j < i) ==> reports[j].trigger@ != t,
    ensures
        first_with_trigger(reports, t) == i,
    decreases reports.len(),
{
    if reports.len() > 0 && i != 0 {
        let d = reports.drop_first();
        assert forall|j: int| 0 <= j < d.len() && (i - 1 < 0 || j < i - 1) implies d[j].trigger@ != t by {
            assert(d[j] == reports[j + 1]);
        }
        if i > 0 {
            assert(d[i - 1] == reports[i]);
            lemma_first_with_trigger(d, t, i - 1);
        } else {
            lemma_first_with_trigger(d, t, -1);
        }
    }
}

fn workflow_item(reports: &Vec<AnalysisReport>, cycle: bool, trigger: &str, label: &str) -> (r: ReportWorkflowItem)
    ensures
        workflow_item_ok(r, (trigger@, label@), reports@, cycle),
{
    let mut i: usize = 0;
    while i < reports.len()
        invariant
            i <= reports.len(),
            forall|j: int| 0 <= j < i ==> reports@[j].trigger@ != trigger@,
        decreases reports.len() - i,
    {
        if str_eq(reports[i].trigger.as_str(), trigger) {
            proof {
                lemma_first_with_trigger(reports@, trigger@, i as int);
            }
            let r = &reports[i];
            return ReportWorkflowItem {
                trigger: to_owned_string(trigger),
                label: to_owned_string(label),
                status: to_owned_string("ready"),
                report_id: Some(to_owned_string(r.id.as_str())),
                symbol: Some(to_owned_string(r.symbol.as_str())),
                created_at: Some(to_owned_string(r.created_at.as_str())),
                summary: to_owned_string(r.context_summary.as_str()),
            };
        }
        i = i + 1;
    }
    proof {
        lemma_first_with_trigger(reports@, trigger@, -1);
    }
    ReportWorkflowItem {
        trigger: to_owned_string(trigger),
        label: to_owned_string(label),
        status: if cycle {
            to_owned_string("running")
        } else {
            to_owned_string("pending")
        },
        report_id: None,
        symbol: None,
        created_at: None,
        summary: to_owned_string("等待定时任务或手动触发生成"),
    }
}

/// The four steps of the daily report workflow and how far each has come.
pub fn build_report_workflow(reports: &Vec<AnalysisReport>, cycle_in_progress: bool) -> (r: Vec<ReportWorkflowItem>)
    ensures
        r@.len() == 4,
        forall|k: int| 0 <= k < 4 ==> workflow_item_ok(#[trigger] r@[k], workflow_steps()[k], reports@, cycle_in_progress),
{
    let mut r: Vec<ReportWorkflowItem> = Vec::new();
    r.push(workflow_item(reports, cycle_in_progress, "tomorrow", "盘前计划"));
    r.push(workflow_item(reports, cycle_in_progress, "anomaly", "盘中异动"));
    r.push(workflow_item(reports, cycle_in_progress, "short_term", "短线跟踪"));
    r.push(workflow_item(reports, cycle_in_progress, "scheduled", "收盘/定时复盘"));
    r
}

/// The disclaimer that every generated report carries.
pub open spec fn disclaimer_text() -> Seq<char> {
    "免责声明：以上内容仅供参考，不构成投资建议。"@
}

/// A report's content with the disclaimer appended after a blank line unless it
/// already mentions a disclaimer or says it is no investment advice.
pub open spec fn with_disclaimer_spec(content: Seq<char>) -> Seq<char> {
    if !contains_seq(content, "免责声明"@) && !contains_seq(content, "不构成投资建议"@) {
        content + "\n\n"@ + disclaimer_text()
    } else {
        content
    }
}

/// Appends the disclaimer to a report's content where it lacks one.
pub fn ensure_disclaimer(content: String) -> (r: String)
    ensures
        r@ == with_disclaimer_spec(content@),
{
    let mut content = content;
    if !str_contains(content.as_str(), "免责声明") && !str_contains(content.as_str(), "不构成投资建议") {
        append_str(&mut content, "\n\n");
        append_str(&mut content, "免责声明：以上内容仅供参考，不构成投资建议。");
    }
    content
}

/// Every report that went through `ensure_disclaimer` says it is no investment
/// advice, and a second pass changes nothing.
pub proof fn law_disclaimer(content: Seq<char>)
    ensures
        contains_seq(with_disclaimer_spec(content), "免责声明"@) || contains_seq(
            with_disclaimer_spec(content),
            "不构成投资建议"@,
        ),
        with_disclaimer_spec(with_disclaimer_spec(content)) == with_disclaimer_spec(content),
{
    let r = with_disclaimer_spec(content);
    if !contains_seq(content, "免责声明"@) && !contains_seq(content, "不构成投资建议"@) {
        reveal_strlit("免责声明");
        reveal_strlit("\n\n");
        reveal_strlit("免责声明：以上内容仅供参考，不构成投资建议。");
        let n: int = content.len() as int + 2;
        assert(r.subrange(n, n + 4) =~= "免责声明"@);
        assert(crate::text::occurs_at(r, "免责声明"@, n));
    }
}

// ---------------------------------------------------------------------------
// AI tasks
// ---------------------------------------------------------------------------

/// The kinds of AI summaries that can be requested.
pub open spec fn ai_task_types() -> Seq<Seq<char>> {
    seq![
        "market_summary"@,
        "leaderboard_explain"@,
        "asset_brief"@,
        "watchlist_summary"@,
        "position_risk"@,
        "event_impact"@,
        "custom"@,
    ]
}

/// The kinds of AI summaries that can be requested.
pub fn allowed_task_types() -> (r: Vec<String>)
    ensures
        strings_view(r@) == ai_task_types(),
{
    let mut r: Vec<String> = Vec::new();
    r.push(to_owned_string("market_summary"));
    r.push(to_owned_string("leaderboard_explain"));
    r.push(to_owned_string("asset_brief"));
    r.push(to_owned_string("watchlist_summary"));
    r.push(to_owned_string("position_risk"));
    r.push(to_owned_string("event_impact"));
    r.push(to_owned_string("custom"));
    assert(strings_view(r@) =~= ai_task_types());
    r
}

/// Whether an AI summary of this kind can be requested.
pub fn is_allowed_task_type(task_type: &str) -> (r: bool)
    ensures
        r == ai_task_types().contains(task_type@),
{
    let types = allowed_task_types();
    let mut i: usize = 0;
    while i < types.len()
        invariant
            i <= types.len(),
            strings_view(types@) == ai_task_types(),
            forall|j: int| 0 <= j < i ==> ai_task_types()[j] != task_type@,
        decreases types.len() - i,
    {
        if str_eq(types[i].as_str(), task_type) {
            assert(ai_task_types()[i as int] == task_type@);
            return true;
        }
        i = i + 1;
    }
    false
}

/// An AI summary task as the task list shows it.
#[derive(Clone, Debug)]
pub struct AiTask {
    pub id: String,
    pub task_type: String,
    pub status: String,
    pub target_symbol: Option<String>,
    pub provider: String,
    pub error: Option<String>,
    pub created_at: String,
    pub updated_at: String,
}

/// A source that an AI summary cites: its kind (`news`, ...) and its identifier, if any.
#[derive(Clone, Debug)]
pub struct AiSource {
    pub source_type: String,
    pub id: Option<String>,
}

/// The identifiers of the news sources that carry one, in order.
pub open spec fn news_source_ids(s: Seq<AiSource>) -> Seq<Seq<char>>
    decreases s.len(),
{
    if s.len() == 0 {
        seq![]
    } else {
        let prev = news_source_ids(s.drop_last());
        match s.last().id {
            Some(i) => if s.last().source_type@ == "news"@ {
                prev.push(i@)
            } else {
                prev
            },
            None => prev,
        }
    }
}

fn news_ids_of(sources: &Vec<AiSource>) -> (r: Vec<String>)
    ensures
        strings_view(r@) == news_source_ids(sources@),
{
    let mut r: Vec<String> = Vec::new();
    let mut i: usize = 0;
    while i < sources.len()
        invariant
            i <= sources.len(),
            strings_view(r@) == news_source_ids(sources@.take(i as int)),
        decreases sources.len() - i,
    {
        assert(sources@.take(i + 1).drop_last() == sources@.take(i as int));
        assert(sources@.take(i + 1).last() == sources@[i as int]);
        let src = &sources[i];
        match &src.id {
            Some(id) => {
                if str_eq(src.source_type.as_str(), "news") {
                    let ghost before = r@;
                    r.push(id.clone());
                    assert(strings_view(r@) == strings_view(before).push(id@));
                }
            },
            None => {},
        }
        i = i + 1;
    }
    assert(sources@.take(sources.len() as int) == sources@);
    r
}

/// The error for an AI answer that came back blank.
pub fn check_ai_output(raw: &str) -> (r: Result<(), String>)
    ensures
        r is Err <==> trim_ws(raw@).len() == 0,
        r matches Err(e) ==> e@ == "LLM returned empty output"@,
{
    if is_blank(raw) {
        Err(to_owned_string("LLM returned empty output"))
    } else {
        Ok(())
    }
}

/// What the report stored for an AI summary holds: the summary's id, its target symbol
/// (`ai_summary` without one), the task type as trigger and tag (after `ai`), a context
/// line `task=.. assets=.. sources=..`, and the ids of the news sources it cites.
pub open spec fn ai_report_spec(
    rep: AnalysisReport,
    id: Seq<char>,
    target_symbol: Option<Seq<char>>,
    task_type: Seq<char>,
    provider: Seq<char>,
    prompt_version: Seq<char>,
    content: Seq<char>,
    created_at: Seq<char>,
    asset_count: nat,
    sources: Seq<AiSource>,
) -> bool {
    &&& rep.id@ == id
    &&& rep.symbol@ == match target_symbol {
        Some(s) => s,
        None => "ai_summary"@,
    }
    &&& rep.trigger@ == task_type
    &&& rep.provider@ == provider
    &&& rep.prompt_version@ == prompt_version
    &&& rep.context_summary@ == "task="@ + task_type + " assets="@ + decimal_nat(asset_count) + " sources="@
        + decimal_nat(sources.len())
    &&& rep.content@ == content
    &&& rep.created_at@ == created_at
    &&& strings_view(rep.tags@) == seq!["ai"@, task_type]
    &&& rep.dimension_summary is None
    &&& strings_view(rep.news_ids@) == news_source_ids(sources)
    &&& rep.anomaly_reason is None
}

/// The report stored for an AI summary (see `ai_report_spec`); an error when the
/// summary's content is blank.
pub fn ai_summary_report(
    id: String,
    target_symbol: Option<String>,
    task_type: String,
    provider: String,
    prompt_version: String,
    content: String,
    created_at: String,
    asset_count: usize,
    sources: &Vec<AiSource>,
) -> (r: Result<AnalysisReport, String>)
    ensures
        r is Err <==> trim_ws(content@).len() == 0,
        r matches Err(e) ==> e@ == "LLM output has no content"@,
        r matches Ok(rep) ==> ai_report_spec(
            rep,
            id@,
            opt_view(target_symbol),
            task_type@,
            provider@,
            prompt_version@,
            content@,
            created_at@,
            asset_count as nat,
            sources@,
        ),
{
    if is_blank(content.as_str()) {
        return Err(to_owned_string("LLM output has no content"));
    }
    let symbol = match target_symbol {
        Some(s) => s,
        None => to_owned_string("ai_summary"),
    };
    let mut summary = to_owned_string("task=");
    append_str(&mut summary, task_type.as_str());
    append_str(&mut summary, " assets=");
    let assets = decimal_u64(asset_count as u64);
    append_str(&mut summary, assets.as_str());
    append_str(&mut summary, " sources=");
    let count = decimal_u64(sources.len() as u64);
    append_str(&mut summary, count.as_str());
    let mut tags: Vec<String> = Vec::new();
    tags.push(to_owned_string("ai"));
    tags.push(to_owned_string(task_type.as_str()));
    assert(strings_view(tags@) =~= seq!["ai"@, task_type@]);
    let news_ids = news_ids_of(sources);
    Ok(
        AnalysisReport {
            id,
            symbol,
            trigger: task_type,
            provider,
            prompt_version,
            context_summary: summary,
            content,
            created_at,
            tags,
            dimension_summary: None,
            news_ids,
            anomaly_reason: None,
        },
    )
}

/// Whether a report is an AI summary (tagged `ai`).
pub open spec fn is_ai_report(r: AnalysisReport) -> bool {
    strings_view(r.tags@).contains("ai"@)
}

/// The task that an AI report stands for: completed, typed by its trigger, aimed at
/// its symbol unless that is the placeholder `ai_summary`.
pub open spec fn task_of_report(t: AiTask, r: AnalysisReport) -> bool {
    &&& t.id@ == r.id@
    &&& t.task_type@ == r.trigger@
    &&& t.status@ == "completed"@
    &&& opt_view(t.target_symbol) == if r.symbol@ == "ai_summary"@ {
        None
    } else {
        Some(r.symbol@)
    }
    &&& t.provider@ == r.provider@
    &&& t.error is None
    &&& t.created_at@ == r.created_at@
    &&& t.updated_at@ == r.created_at@
}

/// The AI reports of a sequence, in order.
pub open spec fn ai_reports(s: Seq<AnalysisReport>) -> Seq<AnalysisReport>
    decreases s.len(),
{
    if s.len() == 0 {
        seq![]
    } else if is_ai_report(s.last()) {
        ai_reports(s.drop_last()).push(s.last())
    } else {
        ai_reports(s.drop_last())
    }
}

fn has_ai_tag(tags: &Vec<String>) -> (r: bool)
    ensures
        r == strings_view(tags@).contains("ai"@),
{
    let mut i: usize = 0;
    while i < tags.len()
        invariant
            i <= tags.len(),
            forall|j: int| 0 <= j < i ==> strings_view(tags@)[j] != "ai"@,
        decreases tags.len() - i,
    {
        if str_eq(tags[i].as_str(), "ai") {
            assert(strings_view(tags@)[i as int] == "ai"@);
            return true;
        }
        i = i + 1;
    }
    false
}

/// The AI summary tasks among stored reports, with the number still running.
pub fn ai_tasks_from_reports(reports: &Vec<AnalysisReport>) -> (r: (Vec<AiTask>, i64))
    ensures
        r.0@.len() == ai_reports(reports@).len(),
        forall|k: int| 0 <= k < r.0@.len() ==> task_of_report(#[trigger] r.0@[k], ai_reports(reports@)[k]),
        r.1 == 0,
{
    let mut tasks: Vec<AiTask> = Vec::new();
    let mut i: usize = 0;
    while i < reports.len()
        invariant
            i <= reports.len(),
            tasks@.len() == ai_reports(reports@.take(i as int)).len(),
            forall|k: int| 0 <= k < tasks@.len() ==> task_of_report(#[trigger] tasks@[k], ai_reports(reports@.take(i as int))[k]),
        decreases reports.len() - i,
    {
        assert(reports@.take(i + 1).drop_last() == reports@.take(i as int));
        assert(reports@.take(i + 1).last() == reports@[i as int]);
        let r = &reports[i];
        if has_ai_tag(&r.tags) {
            let target = if str_eq(r.symbol.as_str(), "ai_summary") {
                None
            } else {
                Some(to_owned_string(r.symbol.as_str()))
            };
            tasks.push(
                AiTask {
                    id: to_owned_string(r.id.as_str()),
                    task_type: to_owned_string(r.trigger.as_str()),
                    status: to_owned_string("completed"),
                    target_symbol: target,
                    provider: to_owned_string(r.provider.as_str()),
                    error: None,
                    created_at: to_owned_string(r.created_at.as_str()),
                    updated_at: to_owned_string(r.created_at.as_str()),
                },
            );
        }
        i = i + 1;
    }
    assert(reports@.take(reports.len() as int) == reports@);
    let mut running: i64 = 0;
    let mut k: usize = 0;
    while k < tasks.len()
        invariant
            k <= tasks.len(),
            running == 0,
            forall|j: int| 0 <= j < tasks@.len() ==> (#[trigger] tasks@[j]).status@ == "completed"@,
        decreases tasks.len() - k,
    {
        if str_eq(tasks[k].status.as_str(), "running") {
            assert(tasks@[k as int].status@ == "completed"@);
            proof {
                reveal_strlit("completed");
                reveal_strlit("running");
                assert("completed"@[0] != "running"@[0]);
            }
            running = running + 1;
        }
        k = k + 1;
    }
    (tasks, running)
}

// ---------------------------------------------------------------------------
// Data-source errors
// ---------------------------------------------------------------------------

/// What the user is told when the calendar source fails: an expired token for
/// authentication errors, rate limiting for throttling, else the first 120
/// characters of the error.
pub open spec fn calendar_error_text(raw: Seq<char>) -> Seq<char> {
    let lower = lowercase(raw);
    if contains_seq(lower, "401"@) || contains_seq(lower, "403"@) || contains_seq(lower, "token"@) {
        "MCP Token 可能已过期"@
    } else if contains_seq(lower, "429"@) || contains_seq(lower, "rate"@) || contains_seq(lower, "限流"@) {
        "请求过于频繁，请稍后再试"@
    } else if raw.len() <= 120 {
        raw
    } else {
        raw.take(120)
    }
}

/// The user-facing wording of a calendar source error.
pub fn humanize_calendar_error(raw: &str) -> (r: String)
    ensures
        r@ == calendar_error_text(raw@),
{
    let lower = to_lower(raw);
    let l = lower.as_str();
    if str_contains(l, "401") || str_contains(l, "403") || str_contains(l, "token") {
        to_owned_string("MCP Token 可能已过期")
    } else if str_contains(l, "429") || str_contains(l, "rate") || str_contains(l, "限流") {
        to_owned_string("请求过于频繁，请稍后再试")
    } else {
        let cs = chars_of(raw);
        let n = if cs.len() <= 120 {
            cs.len()
        } else {
            120
        };
        let r = crate::text::string_from_range(&cs, 0, n);
        assert(cs@.len() <= 120 ==> cs@.subrange(0, n as int) == cs@);
        r
    }
}

// ---------------------------------------------------------------------------
// Factor snapshots and the A-share dashboard
// ---------------------------------------------------------------------------

/// How complete a factor snapshot is: with a live quote and/or a stored bar.
pub open spec fn factor_quality_spec(has_quote: bool, has_bar: bool) -> Seq<char> {
    if has_quote && has_bar {
        "live+history"@
    } else if has_quote {
        "live"@
    } else if has_bar {
        "history"@
    } else {
        "pending"@
    }
}

/// How complete a factor snapshot is.
pub fn factor_quality(has_quote: bool, has_bar: bool) -> (r: String)
    ensures
        r@ == factor_quality_spec(has_quote, has_bar),
{
    if has_quote && has_bar {
        to_owned_string("live+history")
    } else if has_quote {
        to_owned_string("live")
    } else if has_bar {
        to_owned_string("history")
    } else {
        to_owned_string("pending")
    }
}

/// Parts joined by ` / `.
pub open spec fn join_slash(parts: Seq<Seq<char>>) -> Seq<char>
    decreases parts.len(),
{
    if parts.len() == 0 {
        Seq::<char>::empty()
    } else if parts.len() == 1 {
        parts[0]
    } else {
        join_slash(parts.drop_last()) + " / "@ + parts.last()
    }
}

/// The core drivers of a sector as one text: the first three, joined by ` / `.
pub fn drivers_text(drivers: &Vec<String>) -> (r: String)
    ensures
        r@ == join_slash(if drivers@.len() <= 3 {
            strings_view(drivers@)
        } else {
            strings_view(drivers@).take(3)
        }),
{
    let ghost dv = strings_view(drivers@);
    let n = if drivers.len() <= 3 { drivers.len() } else { 3 };
    let ghost want = if drivers@.len() <= 3 {
        dv
    } else {
        dv.take(3)
    };
    assert(want == dv.take(n as int));
    let mut out = String::new();
    let mut i: usize = 0;
    while i < n
        invariant
            i <= n <= drivers.len(),
            dv == strings_view(drivers@),
            out@ == join_slash(dv.take(i as int)),
        decreases n - i,
    {
        assert(dv.take(i + 1).drop_last() == dv.take(i as int));
        if i > 0 {
            append_str(&mut out, " / ");
        } else {
            assert(dv.take(0) =~= Seq::<Seq<char>>::empty());
        }
        append_str(&mut out, drivers[i].as_str());
        proof {
            reveal_strlit(" / ");
            if i == 0 {
                assert(out@ =~= dv.take(1)[0]);
            } else {
                assert(out@ =~= join_slash(dv.take(i as int)) + " / "@ + dv[i as int]);
            }
        }
        i = i + 1;
    }
    out
}

/// The trading-activity factor: the last bar's volume and `tracked` when there is
/// volume, else the placeholder text and `pending`.
pub fn volume_factor(volume: i64) -> (r: (String, String))
    ensures
        volume > 0 ==> r.0@ == decimal_int(volume as int) && r.1@ == "tracked"@,
        volume <= 0 ==> r.0@ == "待回填"@ && r.1@ == "pending"@,
{
    if volume > 0 {
        (int_to_decimal(volume), to_owned_string("tracked"))
    } else {
        (to_owned_string("待回填"), to_owned_string("pending"))
    }
}

/// The indices that the A-share dashboard shows: code and name, in order.
pub open spec fn dashboard_index_spec() -> Seq<(Seq<char>, Seq<char>)> {
    seq![("000001.SH"@, "上证指数"@), ("399001.SZ"@, "深证成指"@), ("399006.SZ"@, "创业板指"@), ("000688.SH"@, "科创50"@)]
}

/// The indices that the A-share dashboard shows.
pub fn dashboard_indices() -> (r: Vec<(String, String)>)
    ensures
        r@.map_values(|p: (String, String)| (p.0@, p.1@)) == dashboard_index_spec(),
{
    let mut r: Vec<(String, String)> = Vec::new();
    r.push((to_owned_string("000001.SH"), to_owned_string("上证指数")));
    r.push((to_owned_string("399001.SZ"), to_owned_string("深证成指")));
    r.push((to_owned_string("399006.SZ"), to_owned_string("创业板指")));
    r.push((to_owned_string("000688.SH"), to_owned_string("科创50")));
    assert(r@.map_values(|p: (String, String)| (p.0@, p.1@)) =~= dashboard_index_spec());
    r
}

/// The status of each data source on the market overview: the quote service (`ready`
/// or `unavailable`), the news service (`connected`, `enabled` while not connected, or
/// `disabled`), the database (always `ready`) and the name of the quote feed.
pub open spec fn data_source_health_spec(
    akshare_ready: bool,
    jinshi_enabled: bool,
    jinshi_connected: bool,
    feed_source: Seq<char>,
) -> Seq<(Seq<char>, Seq<char>)> {
    seq![
        ("akshare"@, if akshare_ready { "ready"@ } else { "unavailable"@ }),
        ("jinshi"@, if !jinshi_enabled { "disabled"@ } else if jinshi_connected { "connected"@ } else { "enabled"@ }),
        ("db"@, "ready"@),
        ("feed"@, feed_source),
    ]
}

/// The status of each data source (see `data_source_health_spec`), keyed by source.
pub fn data_source_health(akshare_ready: bool, jinshi_enabled: bool, jinshi_connected: bool, feed_source: &str) -> (r: Vec<(String, String)>)
    ensures
        r@.map_values(|p: (String, String)| (p.0@, p.1@)) == data_source_health_spec(
            akshare_ready,
            jinshi_enabled,
            jinshi_connected,
            feed_source@,
        ),
{
    let akshare = if akshare_ready {
        to_owned_string("ready")
    } else {
        to_owned_string("unavailable")
    };
    let jinshi = if !jinshi_enabled {
        to_owned_string("disabled")
    } else if jinshi_connected {
        to_owned_string("connected")
    } else {
        to_owned_string("enabled")
    };
    let mut r: Vec<(String, String)> = Vec::new();
    r.push((to_owned_string("akshare"), akshare));
    r.push((to_owned_string("jinshi"), jinshi));
    r.push((to_owned_string("db"), to_owned_string("ready")));
    r.push((to_owned_string("feed"), to_owned_string(feed_source)));
    assert(r@.map_values(|p: (String, String)| (p.0@, p.1@)) =~= data_source_health_spec(
        akshare_ready,
        jinshi_enabled,
        jinshi_connected,
        feed_source@,
    ));
    r
}

/// Whether the stock catalog has data: `available` once a listing is stored.
pub fn catalog_status(symbol_count: i64) -> (r: String)
    ensures
        r@ == if symbol_count > 0 {
            "available"@
        } else {
            "pending"@
        },
{
    if symbol_count > 0 {
        to_owned_string("available")
    } else {
        to_owned_string("pending")
    }
}

} // verus!
