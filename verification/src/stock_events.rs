//! Reminders about listed companies in the event stream.
use vstd::prelude::*;

use crate::events::MarketEvent;
use crate::stock::{are_core_listings, fallback_stock_event_symbols, StockSymbol};
use crate::text::{append_str, opt_view, strings_view, to_owned_string};
use crate::time::utc_timestamp;

verus! {

/// The listings that company reminders cover: the one a symbol filter found; else
/// the local catalog; else the built-in fallback listings, stamped now.
pub fn choose_event_symbols(found: Option<StockSymbol>, listed: Vec<StockSymbol>) -> (r: Vec<StockSymbol>)
    ensures
        match found {
            Some(s) => r@ == seq![s],
            None => if listed@.len() > 0 {
                r@ == listed@
            } else {
                exists|now: Seq<char>| utc_timestamp(now) && are_core_listings(r@, 4, "fallback"@, now)
            },
        },
{
    match found {
        Some(s) => {
            let mut r: Vec<StockSymbol> = Vec::new();
            r.push(s);
            assert(r@ =~= seq![s]);
            r
        },
        None => if listed.len() > 0 {
            listed
        } else {
            fallback_stock_event_symbols()
        },
    }
}

/// The industry of a listing as a list (empty when unknown).
pub open spec fn industry_list(s: StockSymbol) -> Seq<Seq<char>> {
    match s.industry {
        Some(i) => seq![i@],
        None => Seq::<Seq<char>>::empty(),
    }
}

/// Whether `ev` is the announcement reminder of listing `s` for the day `day`
/// (`YYYYMMDD`), shown at `display_time` and made at `created_at`.
pub open spec fn is_announcement_event(
    ev: MarketEvent,
    s: StockSymbol,
    day: Seq<char>,
    display_time: Seq<char>,
    created_at: Seq<char>,
) -> bool {
    let industry = match s.industry {
        Some(i) => i@,
        None => "未分类"@,
    };
    &&& ev.id@ == "announcement-"@ + s.ts_code@ + "-"@ + day
    &&& ev.title@ == s.name@ + " 公告跟踪：关注公司公告、交易所问询与经营事项"@
    &&& ev.source@ == "announcement"@
    &&& opt_view(ev.source_id) == Some(s.ts_code@)
    &&& ev.source_url is None
    &&& ev.display_time@ == display_time
    &&& ev.importance@ == "medium"@
    &&& ev.event_type@ == "announcement"@
    &&& strings_view(ev.affected_symbols@) == seq![s.ts_code@]
    &&& strings_view(ev.affected_sectors@) == industry_list(s)
    &&& opt_view(ev.direction) == Some("neutral"@)
    &&& opt_view(ev.summary) == Some(
        "本地 A 股公告提醒："@ + s.name@ + "("@ + s.ts_code@ + ") 所属行业 "@ + industry
            + "，建议在个股详情页结合行情、财务与最新公告复核。"@,
    )
    &&& ev.created_at@ == created_at
}

fn announcement_event(s: &StockSymbol, day: &str, display_time: &str, created_at: &str) -> (r: MarketEvent)
    ensures
        is_announcement_event(r, *s, day@, display_time@, created_at@),
{
    let industry: &str = match &s.industry {
        Some(i) => i.as_str(),
        None => "未分类",
    };
    let mut id = to_owned_string("announcement-");
    append_str(&mut id, s.ts_code.as_str());
    append_str(&mut id, "-");
    append_str(&mut id, day);
    let mut title = to_owned_string(s.name.as_str());
    append_str(&mut title, " 公告跟踪：关注公司公告、交易所问询与经营事项");
    let mut summary = to_owned_string("本地 A 股公告提醒：");
    append_str(&mut summary, s.name.as_str());
    append_str(&mut summary, "(");
    append_str(&mut summary, s.ts_code.as_str());
    append_str(&mut summary, ") 所属行业 ");
    append_str(&mut summary, industry);
    append_str(&mut summary, "，建议在个股详情页结合行情、财务与最新公告复核。");
    let mut symbols: Vec<String> = Vec::new();
    symbols.push(to_owned_string(s.ts_code.as_str()));
    assert(strings_view(symbols@) =~= seq![s.ts_code@]);
    let mut sectors: Vec<String> = Vec::new();
    match &s.industry {
        Some(i) => {
            sectors.push(to_owned_string(i.as_str()));
            assert(strings_view(sectors@) =~= seq![i@]);
        },
        None => {
            assert(strings_view(sectors@) =~= Seq::<Seq<char>>::empty());
        },
    }
    MarketEvent {
        id,
        title,
        source: to_owned_string("announcement"),
        source_id: Some(to_owned_string(s.ts_code.as_str())),
        source_url: None,
        display_time: to_owned_string(display_time),
        importance: to_owned_string("medium"),
        event_type: to_owned_string("announcement"),
        affected_symbols: symbols,
        affected_sectors: sectors,
        direction: Some(to_owned_string("neutral")),
        summary: Some(summary),
        created_at: to_owned_string(created_at),
    }
}

/// Announcement reminders for the first twenty listings, for the day `day`
/// (`YYYYMMDD`).
pub fn announcement_events(symbols: &Vec<StockSymbol>, day: &str, display_time: &str, created_at: &str) -> (r: Vec<
    MarketEvent,
>)
    ensures
        r@.len() == if symbols@.len() <= 20 { symbols@.len() as int } else { 20 },
        forall|k: int|
            0 <= k < r@.len() ==> is_announcement_event(#[trigger] r@[k], symbols@[k], day@, display_time@, created_at@),
{
    let n = if symbols.len() <= 20 { symbols.len() } else { 20 };
    let mut out: Vec<MarketEvent> = Vec::new();
    let mut i: usize = 0;
    while i < n
        invariant
            i <= n <= symbols.len(),
            n == if symbols@.len() <= 20 { symbols@.len() as int } else { 20 },
            out@.len() == i,
            forall|k: int|
                0 <= k < i ==> is_announcement_event(#[trigger] out@[k], symbols@[k], day@, display_time@, created_at@),
        decreases n - i,
    {
        out.push(announcement_event(&symbols[i], day, display_time, created_at));
        i = i + 1;
    }
    out
}

} // verus!
