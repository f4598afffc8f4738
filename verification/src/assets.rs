//! Which market assets a listing query keeps, by their text fields.
use vstd::prelude::*;

use crate::text::{contains_seq, lowercase, opt_view, str_contains, str_eq, to_lower, to_owned_string};

verus! {

/// The text fields of a market asset that a listing query looks at.
#[derive(Clone, Debug)]
pub struct AssetText {
    pub symbol: String,
    pub name: String,
    pub market: String,
    pub sector: Option<String>,
    pub industry: Option<String>,
    pub category: Option<String>,
    pub quality: String,
    pub watched: Option<bool>,
}

/// The text conditions of a listing query.
#[derive(Clone, Debug)]
pub struct AssetTextQuery {
    pub query: Option<String>,
    pub sector: Option<String>,
    pub industry: Option<String>,
    pub quality: Option<String>,
    pub watched: Option<bool>,
}

/// An optional text, empty when absent.
pub open spec fn or_empty(o: Option<Seq<char>>) -> Seq<char> {
    match o {
        Some(s) => s,
        None => Seq::<char>::empty(),
    }
}

/// Whether an asset meets the text conditions, all compared lowercased: the query
/// text occurs in its symbol or name; the sector occurs in its sector or equals its
/// market; the industry occurs in its industry or category; the quality equals its
/// quality; and, when asked for, it is watched.
pub open spec fn asset_text_matches_spec(a: AssetText, q: AssetTextQuery) -> bool {
    &&& match opt_view(q.query) {
        Some(t) => contains_seq(lowercase(a.symbol@), lowercase(t)) || contains_seq(lowercase(a.name@), lowercase(t)),
        None => true,
    }
    &&& match opt_view(q.sector) {
        Some(s) => contains_seq(lowercase(or_empty(opt_view(a.sector))), lowercase(s)) || a.market@ == lowercase(s),
        None => true,
    }
    &&& match opt_view(q.industry) {
        Some(i) => contains_seq(lowercase(or_empty(opt_view(a.industry))), lowercase(i)) || contains_seq(
            lowercase(or_empty(opt_view(a.category))),
            lowercase(i),
        ),
        None => true,
    }
    &&& match opt_view(q.quality) {
        Some(t) => lowercase(a.quality@) == lowercase(t),
        None => true,
    }
    &&& (q.watched == Some(true) ==> a.watched == Some(true))
}

fn lower_or_empty(o: &Option<String>) -> (r: String)
    ensures
        r@ == lowercase(or_empty(opt_view(*o))),
{
    match o {
        Some(s) => to_lower(s.as_str()),
        None => {
            let e: &str = "";
            proof {
                reveal_strlit("");
            }
            assert(e@ =~= Seq::<char>::empty());
            to_lower(e)
        },
    }
}

/// Whether an asset meets the text conditions of a listing query.
pub fn asset_text_matches(a: &AssetText, q: &AssetTextQuery) -> (r: bool)
    ensures
        r == asset_text_matches_spec(*a, *q),
{
    if let Some(t) = &q.query {
        let tl = to_lower(t.as_str());
        let sl = to_lower(a.symbol.as_str());
        let nl = to_lower(a.name.as_str());
        if !str_contains(sl.as_str(), tl.as_str()) && !str_contains(nl.as_str(), tl.as_str()) {
            return false;
        }
    }
    if let Some(s) = &q.sector {
        let sl = to_lower(s.as_str());
        let asec = lower_or_empty(&a.sector);
        if !str_contains(asec.as_str(), sl.as_str()) && !str_eq(a.market.as_str(), sl.as_str()) {
            return false;
        }
    }
    if let Some(i) = &q.industry {
        let il = to_lower(i.as_str());
        let ai = lower_or_empty(&a.industry);
        let ac = lower_or_empty(&a.category);
        if !str_contains(ai.as_str(), il.as_str()) && !str_contains(ac.as_str(), il.as_str()) {
            return false;
        }
    }
    if let Some(t) = &q.quality {
        let tl = to_lower(t.as_str());
        let ql = to_lower(a.quality.as_str());
        if !str_eq(ql.as_str(), tl.as_str()) {
            return false;
        }
    }
    match q.watched {
        Some(true) => a.watched == Some(true),
        _ => true,
    }
}

/// How a leaderboard is drawn from the asset listing.
#[derive(Clone, Debug)]
pub struct LeaderboardPlan {
    pub label: String,
    pub sort_by: String,
    pub sort_desc: bool,
    pub reverse: bool,
    pub limit: usize,
}

/// The title of a leaderboard category (compared lowercased); unknown categories
/// keep their own name.
pub open spec fn leaderboard_label(category: Seq<char>) -> Seq<char> {
    let c = lowercase(category);
    if c == "gainers"@ {
        "涨幅榜"@
    } else if c == "losers"@ {
        "跌幅榜"@
    } else if c == "turnover"@ {
        "成交额榜"@
    } else if c == "volume_spike"@ {
        "放量榜"@
    } else {
        category
    }
}

/// The field a leaderboard ranks by: turnover, volume for volume spikes, else the
/// change.
pub open spec fn leaderboard_sort(category: Seq<char>) -> Seq<char> {
    let c = lowercase(category);
    if c == "turnover"@ {
        "turnover"@
    } else if c == "volume_spike"@ {
        "volume"@
    } else {
        "change_pct"@
    }
}

/// The plan of a leaderboard: its title and ranking field; sorted descending,
/// except that losers are sorted ascending and the sorted list then reversed; at
/// most `limit` (20 when absent) assets, the limit brought into 1–100.
pub fn leaderboard_plan(category: &str, limit: Option<i64>) -> (r: LeaderboardPlan)
    ensures
        r.label@ == leaderboard_label(category@),
        r.sort_by@ == leaderboard_sort(category@),
        r.sort_desc == (lowercase(category@) != "losers"@),
        r.reverse == (lowercase(category@) == "losers"@),
        r.limit as int == crate::config::clamp_int(
            match limit {
                Some(l) => l as int,
                None => 20,
            },
            1,
            100,
        ),
{
    let c = to_lower(category);
    let cs = c.as_str();
    let label = if str_eq(cs, "gainers") {
        to_owned_string("涨幅榜")
    } else if str_eq(cs, "losers") {
        to_owned_string("跌幅榜")
    } else if str_eq(cs, "turnover") {
        to_owned_string("成交额榜")
    } else if str_eq(cs, "volume_spike") {
        to_owned_string("放量榜")
    } else {
        to_owned_string(category)
    };
    let sort_by = if str_eq(cs, "turnover") {
        to_owned_string("turnover")
    } else if str_eq(cs, "volume_spike") {
        to_owned_string("volume")
    } else {
        to_owned_string("change_pct")
    };
    let losers = str_eq(cs, "losers");
    let l: i64 = match limit {
        Some(l) => l,
        None => 20,
    };
    let n: usize = if l < 1 {
        1
    } else if l > 100 {
        100
    } else {
        l as usize
    };
    LeaderboardPlan { label, sort_by, sort_desc: !losers, reverse: losers, limit: n }
}

} // verus!
