//! The local database's catalog of data domains, its freshness grades and size
//! estimates, and the SQL text of a backup.
use vstd::prelude::*;

use crate::calendar::{chars_le, lex_le};
use crate::text::{
    append_str, chars_of, contains_seq, opt_view, push_char, str_contains, strings_view, to_owned_string,
    to_upper, uppercase,
};
use crate::time::{parse_dt, parse_dt_spec};

verus! {

/// A data domain: the tables that hold it and the column that dates their rows.
#[derive(Clone, Debug)]
pub struct DomainSpec {
    pub code: String,
    pub name: String,
    pub description: String,
    pub source: String,
    pub tables: Vec<(String, Option<String>)>,
}

/// The domains, in display order: code, name, description, source.
pub open spec fn domain_heads() -> Seq<(Seq<char>, Seq<char>, Seq<char>, Seq<char>)> {
    seq![
        ("quotes"@, "行情/报价"@, "实时 tick、主力连续报价数据"@, "akshare/sina"@),
        ("klines"@, "K 线"@, "期货与股票多周期 K 线数据"@, "akshare"@),
        ("news"@, "资讯"@, "金十新闻与分类标签"@, "jin10"@),
        ("calendar"@, "日历"@, "财经日历事件缓存"@, "jin10"@),
        ("reports"@, "报告"@, "LLM 生成的品种研报、复盘与跟进"@, "llm"@),
        ("simulation"@, "模拟交易"@, "模拟账户、委托、成交、持仓、资金曲线与交易日志"@, "local"@),
        ("watchlist"@, "自选"@, "统一自选分组与标的"@, "local"@),
        ("stocks"@, "A 股数据"@, "A 股标的、日线、板块、财务、估值与因子数据"@, "akshare/tushare"@),
        ("settings"@, "配置"@, "应用偏好、密钥与 LLM 凭据"@, "local"@),
    ]
}

/// The tables of each domain with their dating column.
pub open spec fn domain_tables() -> Seq<Seq<(Seq<char>, Seq<char>)>> {
    seq![
        seq![("ticks"@, "timestamp"@)],
        seq![("klines"@, "start_time"@)],
        seq![("news_items"@, "display_time"@)],
        seq![("calendar_cache"@, "fetched_at"@)],
        seq![("reports"@, "created_at"@)],
        seq![
            ("sim_accounts"@, "updated_at"@),
            ("sim_contract_rules"@, "updated_at"@),
            ("sim_risk_rules"@, "updated_at"@),
            ("sim_risk_events"@, "triggered_at"@),
            ("sim_orders"@, "updated_at"@),
            ("sim_trades"@, "traded_at"@),
            ("sim_positions"@, "updated_at"@),
            ("sim_equity_snapshots"@, "snapshot_at"@),
            ("sim_journal_entries"@, "updated_at"@),
            ("sim_replay_sessions"@, "updated_at"@),
        ],
        seq![("watchlist_groups"@, "updated_at"@), ("watchlist_items"@, "updated_at"@)],
        seq![
            ("stock_symbols"@, "updated_at"@),
            ("stock_daily_bars"@, "trade_date"@),
            ("stock_index_daily_bars"@, "trade_date"@),
            ("stock_boards"@, "updated_at"@),
            ("stock_board_members"@, "updated_at"@),
            ("stock_board_snapshots"@, "trade_date"@),
            ("stock_financial_metrics"@, "updated_at"@),
            ("stock_valuation_snapshots"@, "trade_date"@),
            ("stock_factor_snapshots"@, "factor_date"@),
            ("stock_screen_templates"@, "updated_at"@),
            ("stock_screen_results"@, "created_at"@),
            ("stock_watchlists"@, "updated_at"@),
        ],
        seq![("app_preferences"@, "updated_at"@), ("app_secrets"@, "updated_at"@), ("llm_credentials"@, "updated_at"@)],
    ]
}

/// The tables of a domain as text pairs.
pub open spec fn tables_view(t: Seq<(String, Option<String>)>) -> Seq<(Seq<char>, Option<Seq<char>>)> {
    t.map_values(|p: (String, Option<String>)| (p.0@, opt_view(p.1)))
}

/// Whether a domain record is domain `k` of the catalog.
pub open spec fn is_domain(d: DomainSpec, k: int) -> bool {
    &&& (d.code@, d.name@, d.description@, d.source@) == domain_heads()[k]
    &&& tables_view(d.tables@) == domain_tables()[k].map_values(|p: (Seq<char>, Seq<char>)| (p.0, Some(p.1)))
}

fn table_list(names: &[&str], cols: &[&str]) -> (r: Vec<(String, Option<String>)>)
    requires
        names@.len() == cols@.len(),
    ensures
        tables_view(r@) == Seq::new(names@.len(), |i: int| (names@[i]@, Some(cols@[i]@))),
{
    let mut r: Vec<(String, Option<String>)> = Vec::new();
    let mut i: usize = 0;
    while i < names.len()
        invariant
            i <= names@.len() == cols@.len(),
            tables_view(r@) == Seq::new(i as nat, |j: int| (names@[j]@, Some(cols@[j]@))),
        decreases names@.len() - i,
    {
        let ghost before = r@;
        let name = to_owned_string(names[i]);
        let col = to_owned_string(cols[i]);
        r.push((name, Some(col)));
        assert(r@ == before.push((name, Some(col))));
        assert(tables_view(before).len() == i);
        assert(tables_view(r@).len() == i + 1);
        assert forall|j: int| 0 <= j < i + 1 implies #[trigger] tables_view(r@)[j] == (names@[j]@, Some(cols@[j]@)) by {
            if j < i {
                assert(tables_view(r@)[j] == tables_view(before)[j]);
            }
        }
        assert(tables_view(r@) =~= Seq::new((i + 1) as nat, |j: int| (names@[j]@, Some(cols@[j]@))));
        i = i + 1;
    }
    r
}

fn domain(code: &str, name: &str, description: &str, source: &str, names: &[&str], cols: &[&str]) -> (r: DomainSpec)
    requires
        names@.len() == cols@.len(),
    ensures
        (r.code@, r.name@, r.description@, r.source@) == (code@, name@, description@, source@),
        tables_view(r.tables@) == Seq::new(names@.len(), |i: int| (names@[i]@, Some(cols@[i]@))),
{
    DomainSpec {
        code: to_owned_string(code),
        name: to_owned_string(name),
        description: to_owned_string(description),
        source: to_owned_string(source),
        tables: table_list(names, cols),
    }
}

/// The catalog of data domains that the database summary reports on.
pub fn domain_specs() -> (r: Vec<DomainSpec>)
    ensures
        r@.len() == 9,
        forall|k: int| 0 <= k < 9 ==> is_domain(#[trigger] r@[k], k),
{
    let mut r: Vec<DomainSpec> = Vec::new();
    r.push(domain("quotes", "行情/报价", "实时 tick、主力连续报价数据", "akshare/sina", &["ticks"], &["timestamp"]));
    r.push(domain("klines", "K 线", "期货与股票多周期 K 线数据", "akshare", &["klines"], &["start_time"]));
    r.push(domain("news", "资讯", "金十新闻与分类标签", "jin10", &["news_items"], &["display_time"]));
    r.push(domain("calendar", "日历", "财经日历事件缓存", "jin10", &["calendar_cache"], &["fetched_at"]));
    r.push(domain("reports", "报告", "LLM 生成的品种研报、复盘与跟进", "llm", &["reports"], &["created_at"]));
    r.push(
        domain(
            "simulation",
            "模拟交易",
            "模拟账户、委托、成交、持仓、资金曲线与交易日志",
            "local",
            &[
                "sim_accounts",
                "sim_contract_rules",
                "sim_risk_rules",
                "sim_risk_events",
                "sim_orders",
                "sim_trades",
                "sim_positions",
                "sim_equity_snapshots",
                "sim_journal_entries",
                "sim_replay_sessions",
            ],
            &[
                "updated_at",
                "updated_at",
                "updated_at",
                "triggered_at",
                "updated_at",
                "traded_at",
                "updated_at",
                "snapshot_at",
                "updated_at",
                "updated_at",
            ],
        ),
    );
    r.push(domain("watchlist", "自选", "统一自选分组与标的", "local", &["watchlist_groups", "watchlist_items"], &["updated_at", "updated_at"]));
    r.push(
        domain(
            "stocks",
            "A 股数据",
            "A 股标的、日线、板块、财务、估值与因子数据",
            "akshare/tushare",
            &[
                "stock_symbols",
                "stock_daily_bars",
                "stock_index_daily_bars",
                "stock_boards",
                "stock_board_members",
                "stock_board_snapshots",
                "stock_financial_metrics",
                "stock_valuation_snapshots",
                "stock_factor_snapshots",
                "stock_screen_templates",
                "stock_screen_results",
                "stock_watchlists",
            ],
            &[
                "updated_at",
                "trade_date",
                "trade_date",
                "updated_at",
                "updated_at",
                "trade_date",
                "updated_at",
                "trade_date",
                "factor_date",
                "updated_at",
                "created_at",
                "updated_at",
            ],
        ),
    );
    r.push(
        domain(
            "settings",
            "配置",
            "应用偏好、密钥与 LLM 凭据",
            "local",
            &["app_preferences", "app_secrets", "llm_credentials"],
            &["updated_at", "updated_at", "updated_at"],
        ),
    );
    proof {
        assert forall|k: int| 0 <= k < 9 implies is_domain(#[trigger] r@[k], k) by {
            assert(domain_tables()[k].map_values(|p: (Seq<char>, Seq<char>)| (p.0, Some(p.1))) =~= tables_view(r@[k].tables@));
        }
    }
    r
}

// ---------------------------------------------------------------------------
// Freshness
// ---------------------------------------------------------------------------

/// The freshness grade of a domain with `count` rows last updated at `last_updated`,
/// judged at `now`: pending without rows or date, error for an unreadable date or
/// one a day or more old, live under five minutes, stale otherwise.
pub open spec fn quality_spec(count: int, last_updated: Option<Seq<char>>, now: int) -> Seq<char> {
    if count == 0 {
        "pending"@
    } else {
        match last_updated {
            None => "pending"@,
            Some(ts) => match parse_dt_spec(ts) {
                None => "error"@,
                Some(t) => if now - t < 300 {
                    "live"@
                } else if now - t < 86400 {
                    "stale"@
                } else {
                    "error"@
                },
            },
        }
    }
}

/// The instants that a `chrono::DateTime<Utc>` can hold (seconds).
pub open spec fn in_datetime_range(t: int) -> bool {
    -8334601228800 <= t <= 8210266876799
}

/// The freshness grade of a data domain at the instant `now`.
pub fn quality_for(count: i64, last_updated: Option<&str>, now: i64) -> (r: String)
    requires
        in_datetime_range(now as int),
    ensures
        r@ == quality_spec(count as int, crate::config::opt_str_view(last_updated), now as int),
{
    if count == 0 {
        return to_owned_string("pending");
    }
    let ts = match last_updated {
        None => return to_owned_string("pending"),
        Some(ts) => ts,
    };
    let t = match parse_dt(ts) {
        None => return to_owned_string("error"),
        Some(t) => t,
    };
    assert(-1000000 * 86400 - 86400 <= t <= 3000000 * 86400 + 86400) by {
        crate::time::lemma_parse_dt_range(ts@);
    }
    let age = now - t;
    if age < 300 {
        to_owned_string("live")
    } else if age < 86400 {
        to_owned_string("stale")
    } else {
        to_owned_string("error")
    }
}

/// The freshness grade of a data domain now (by the system clock).
pub fn quality_now(count: i64, last_updated: Option<&str>) -> (r: String)
    ensures
        exists|now: int| in_datetime_range(now) && r@ == quality_spec(count as int, crate::config::opt_str_view(last_updated), now),
{
    let now = crate::time::now_epoch_secs();
    let r = quality_for(count, last_updated, now);
    assert(in_datetime_range(now as int) && r@ == quality_spec(count as int, crate::config::opt_str_view(last_updated), now as int));
    r
}

// ---------------------------------------------------------------------------
// Size estimates
// ---------------------------------------------------------------------------

/// Bytes a row spends on a column of a declared SQLite type: numbers 8, blobs 128,
/// text 64, anything else 32.
pub open spec fn column_bytes_spec(decl_type: Seq<char>) -> int {
    let upper = uppercase(decl_type);
    if contains_seq(upper, "INT"@) || contains_seq(upper, "REAL"@) || contains_seq(upper, "NUM"@) {
        8
    } else if contains_seq(upper, "BLOB"@) {
        128
    } else if contains_seq(upper, "TEXT"@) {
        64
    } else {
        32
    }
}

/// Bytes a row spends on columns of the given types.
pub open spec fn row_bytes_spec(types: Seq<Seq<char>>) -> int
    decreases types.len(),
{
    if types.len() == 0 {
        0
    } else {
        row_bytes_spec(types.drop_last()) + column_bytes_spec(types.last())
    }
}

/// Estimated size of a table: its rows times the bytes of a row (at least one).
pub open spec fn table_size_spec(count: int, types: Seq<Seq<char>>) -> int {
    if count == 0 {
        0
    } else {
        count * if row_bytes_spec(types) > 1 {
            row_bytes_spec(types)
        } else {
            1
        }
    }
}

/// The bytes a row spends on a column of a declared type.
pub fn column_bytes(decl_type: &str) -> (r: i64)
    ensures
        r == column_bytes_spec(decl_type@),
{
    let upper = to_upper(decl_type);
    let u = upper.as_str();
    if str_contains(u, "INT") || str_contains(u, "REAL") || str_contains(u, "NUM") {
        8
    } else if str_contains(u, "BLOB") {
        128
    } else if str_contains(u, "TEXT") {
        64
    } else {
        32
    }
}

proof fn lemma_row_bytes_bounds(types: Seq<Seq<char>>)
    ensures
        8 * types.len() <= row_bytes_spec(types) <= 128 * types.len(),
    decreases types.len(),
{
    if types.len() > 0 {
        lemma_row_bytes_bounds(types.drop_last());
    }
}

/// Estimated size in bytes of a table with `count` rows and columns of `types`.
pub fn estimate_table_size(count: i64, types: &Vec<String>) -> (r: i64)
    requires
        types@.len() <= 1000000,
        i64::MIN <= table_size_spec(count as int, strings_view(types@)) <= i64::MAX,
    ensures
        r == table_size_spec(count as int, strings_view(types@)),
{
    if count == 0 {
        return 0;
    }
    let ghost tv = strings_view(types@);
    let mut bytes: i64 = 0;
    let mut i: usize = 0;
    while i < types.len()
        invariant
            i <= types.len() <= 1000000,
            tv == strings_view(types@),
            bytes == row_bytes_spec(tv.take(i as int)),
            bytes <= 128 * i,
        decreases types.len() - i,
    {
        assert(tv.take(i + 1).drop_last() == tv.take(i as int));
        assert(tv.take(i + 1).last() == types@[i as int]@);
        let b = column_bytes(types[i].as_str());
        proof {
            lemma_row_bytes_bounds(tv.take(i as int));
        }
        bytes = bytes + b;
        i = i + 1;
    }
    assert(tv.take(types.len() as int) == tv);
    let per_row = if bytes > 1 {
        bytes
    } else {
        1
    };
    count * per_row
}

/// The earliest and latest of some optional time texts, by text order.
pub open spec fn time_bounds_spec(s: Seq<(Option<Seq<char>>, Option<Seq<char>>)>) -> (Option<Seq<char>>, Option<Seq<char>>)
    decreases s.len(),
{
    if s.len() == 0 {
        (None, None)
    } else {
        let (lo, hi) = time_bounds_spec(s.drop_last());
        let (mn, mx) = s.last();
        (
            match mn {
                Some(m) => match lo {
                    Some(c) => if lex_le(c, m) {
                        Some(c)
                    } else {
                        Some(m)
                    },
                    None => Some(m),
                },
                None => lo,
            },
            match mx {
                Some(m) => match hi {
                    Some(c) => if lex_le(m, c) {
                        Some(c)
                    } else {
                        Some(m)
                    },
                    None => Some(m),
                },
                None => hi,
            },
        )
    }
}

/// The merged range starts no later than any table's first date and ends no
/// earlier than any table's last date, and each end is one of those dates.
pub proof fn law_time_bounds(s: Seq<(Option<Seq<char>>, Option<Seq<char>>)>)
    ensures
        forall|k: int| 0 <= k < s.len() && (#[trigger] s[k]).0 is Some ==> time_bounds_spec(s).0 is Some
            && lex_le(time_bounds_spec(s).0->0, s[k].0->0),
        forall|k: int| 0 <= k < s.len() && (#[trigger] s[k]).1 is Some ==> time_bounds_spec(s).1 is Some
            && lex_le(s[k].1->0, time_bounds_spec(s).1->0),
        time_bounds_spec(s).0 is Some ==> exists|k: int| 0 <= k < s.len() && (#[trigger] s[k]).0 == time_bounds_spec(s).0,
        time_bounds_spec(s).1 is Some ==> exists|k: int| 0 <= k < s.len() && (#[trigger] s[k]).1 == time_bounds_spec(s).1,
    decreases s.len(),
{
    if s.len() > 0 {
        let d = s.drop_last();
        law_time_bounds(d);
        let (lo, hi) = time_bounds_spec(d);
        let (mn, mx) = s.last();
        let (rlo, rhi) = time_bounds_spec(s);
        assert forall|k: int| 0 <= k < s.len() && (#[trigger] s[k]).0 is Some implies rlo is Some && lex_le(rlo->0, s[k].0->0) by {
            if k < d.len() {
                assert(d[k] == s[k]);
                if let (Some(c), Some(m)) = (lo, mn) {
                    if !lex_le(c, m) {
                        crate::calendar::lemma_lex_total(c, m);
                        crate::calendar::lemma_lex_trans(m, c, s[k].0->0);
                    }
                }
            } else {
                if let Some(c) = lo {
                    crate::calendar::lemma_lex_total(c, mn->0);
                }
                lemma_lex_refl(mn->0);
            }
        }
        assert forall|k: int| 0 <= k < s.len() && (#[trigger] s[k]).1 is Some implies rhi is Some && lex_le(s[k].1->0, rhi->0) by {
            if k < d.len() {
                assert(d[k] == s[k]);
                if let (Some(c), Some(m)) = (hi, mx) {
                    if !lex_le(m, c) {
                        crate::calendar::lemma_lex_total(m, c);
                        crate::calendar::lemma_lex_trans(s[k].1->0, c, m);
                    }
                }
            } else {
                if let Some(c) = hi {
                    crate::calendar::lemma_lex_total(mx->0, c);
                }
                lemma_lex_refl(mx->0);
            }
        }
        if rlo is Some {
            if rlo == mn {
                assert(s[s.len() - 1].0 == rlo);
            } else {
                let k = choose|k: int| 0 <= k < d.len() && (#[trigger] d[k]).0 == lo;
                assert(s[k] == d[k]);
            }
        }
        if rhi is Some {
            if rhi == mx {
                assert(s[s.len() - 1].1 == rhi);
            } else {
                let k = choose|k: int| 0 <= k < d.len() && (#[trigger] d[k]).1 == hi;
                assert(s[k] == d[k]);
            }
        }
    }
}

proof fn lemma_lex_refl(a: Seq<char>)
    ensures
        lex_le(a, a),
    decreases a.len(),
{
    if a.len() > 0 {
        lemma_lex_refl(a.drop_first());
    }
}

/// How stale a freshness grade is: live, then stale, then error.
pub open spec fn staleness(grade: Seq<char>) -> int {
    if grade == "live"@ {
        0
    } else if grade == "stale"@ {
        1
    } else {
        2
    }
}

/// A domain's grade never gets fresher as time passes.
pub proof fn law_quality_ages(count: int, last_updated: Option<Seq<char>>, now1: int, now2: int)
    requires
        now1 <= now2,
    ensures
        quality_spec(count, last_updated, now1) == "pending"@ <==> quality_spec(count, last_updated, now2) == "pending"@,
        staleness(quality_spec(count, last_updated, now1)) <= staleness(quality_spec(count, last_updated, now2)),
{
    reveal_strlit("live");
    reveal_strlit("stale");
    reveal_strlit("error");
    reveal_strlit("pending");
    assert("live"@.len() != "pending"@.len());
    assert("stale"@.len() != "pending"@.len());
    assert("error"@.len() != "pending"@.len());
    assert("error"@.len() != "live"@.len());
    assert("stale"@.len() != "live"@.len());
    assert("error"@[0] != "stale"@[0]);
}

/// The time range that several tables' first and last dates span.
pub fn merge_time_bounds(bounds: &Vec<(Option<String>, Option<String>)>) -> (r: (Option<String>, Option<String>))
    ensures
        (opt_view(r.0), opt_view(r.1)) == time_bounds_spec(
            bounds@.map_values(|p: (Option<String>, Option<String>)| (opt_view(p.0), opt_view(p.1))),
        ),
{
    let ghost bv = bounds@.map_values(|p: (Option<String>, Option<String>)| (opt_view(p.0), opt_view(p.1)));
    let mut lo: Option<String> = None;
    let mut hi: Option<String> = None;
    let mut i: usize = 0;
    while i < bounds.len()
        invariant
            i <= bounds.len(),
            bv == bounds@.map_values(|p: (Option<String>, Option<String>)| (opt_view(p.0), opt_view(p.1))),
            (opt_view(lo), opt_view(hi)) == time_bounds_spec(bv.take(i as int)),
        decreases bounds.len() - i,
    {
        assert(bv.take(i + 1).drop_last() == bv.take(i as int));
        assert(bv.take(i + 1).last() == bv[i as int]);
        if let Some(m) = &bounds[i].0 {
            let keep = match &lo {
                Some(c) => {
                    let cc = chars_of(c.as_str());
                    let mc = chars_of(m.as_str());
                    chars_le(&cc, &mc)
                },
                None => false,
            };
            if !keep {
                lo = Some(to_owned_string(m.as_str()));
            }
        }
        if let Some(m) = &bounds[i].1 {
            let keep = match &hi {
                Some(c) => {
                    let cc = chars_of(c.as_str());
                    let mc = chars_of(m.as_str());
                    chars_le(&mc, &cc)
                },
                None => false,
            };
            if !keep {
                hi = Some(to_owned_string(m.as_str()));
            }
        }
        i = i + 1;
    }
    assert(bv.take(bounds.len() as int) == bv);
    (lo, hi)
}

// ---------------------------------------------------------------------------
// Backups
// ---------------------------------------------------------------------------

/// A path as an SQL string literal body: each single quote doubled.
pub open spec fn sql_quote(s: Seq<char>) -> Seq<char>
    decreases s.len(),
{
    if s.len() == 0 {
        s
    } else if s.last() == '\'' {
        sql_quote(s.drop_last()) + seq!['\'', '\'']
    } else {
        sql_quote(s.drop_last()).push(s.last())
    }
}

/// The statement that copies the open database into the file `dst`.
pub open spec fn vacuum_into_spec(dst: Seq<char>) -> Seq<char> {
    "VACUUM INTO '"@ + sql_quote(dst) + "';"@
}

/// The statement that copies the open database into the file `dst`.
pub fn vacuum_into_sql(dst: &str) -> (r: String)
    ensures
        r@ == vacuum_into_spec(dst@),
{
    let mut out = to_owned_string("VACUUM INTO '");
    let ghost head = out@;
    let cs = chars_of(dst);
    let mut i: usize = 0;
    while i < cs.len()
        invariant
            i <= cs.len(),
            cs@ == dst@,
            out@ == head + sql_quote(dst@.take(i as int)),
        decreases cs.len() - i,
    {
        assert(dst@.take(i + 1).drop_last() == dst@.take(i as int));
        assert(dst@.take(i + 1).last() == dst@[i as int]);
        if cs[i] == '\'' {
            push_char(&mut out, '\'');
            push_char(&mut out, '\'');
        } else {
            push_char(&mut out, cs[i]);
        }
        i = i + 1;
    }
    assert(dst@.take(cs.len() as int) == dst@);
    append_str(&mut out, "';");
    out
}

} // verus!
