//! The market event stream: how news and calendar items are classified, and which
//! events a query selects.
use vstd::prelude::*;

use crate::crypto::{char_utf8_len, utf8_len};
use crate::text::{
    append_str, chars_of, contains_any, contains_any_lowered, contains_seq, decimal_int,
    eq_ignore_ascii_case_spec, int_to_decimal, join_space, lowercase, lowered_views, opt_view,
    push_char, split_on, str_contains, str_eq_ignore_ascii_case, to_lower, to_owned_string,
    to_upper, trim_string, trim_ws, uppercase,
};
use crate::time::{parse_dt, parse_dt_spec, year_month_of, year_month_of_day, day_of_instant};

verus! {

/// One entry of the event stream.
#[derive(Clone, Debug)]
pub struct MarketEvent {
    pub id: String,
    pub title: String,
    pub source: String,
    pub source_id: Option<String>,
    pub source_url: Option<String>,
    pub display_time: String,
    pub importance: String,
    pub event_type: String,
    pub affected_symbols: Vec<String>,
    pub affected_sectors: Vec<String>,
    pub direction: Option<String>,
    pub summary: Option<String>,
    pub created_at: String,
}

/// A query on the event stream.
#[derive(Clone, Debug)]
pub struct MarketEventQuery {
    pub symbol: Option<String>,
    pub source: Option<String>,
    pub sector: Option<String>,
    pub importance: Option<String>,
    pub event_type: Option<String>,
    pub start: Option<String>,
    pub end: Option<String>,
    pub limit: Option<i64>,
}

// ---------------------------------------------------------------------------
// Keyword classification
// ---------------------------------------------------------------------------

/// Words that mark a headline as bullish.
pub open spec fn bullish_words() -> Seq<&'static str> {
    seq![
        "上涨", "涨", "利好", "强劲", "超预期", "宽松", "降息", "扩张", "支持", "反弹", "走高", "偏多",
        "bullish", "surge", "rally", "gain",
    ]
}

/// Words that mark a headline as bearish.
pub open spec fn bearish_words() -> Seq<&'static str> {
    seq![
        "下跌", "跌", "利空", "疲软", "不及预期", "收紧", "加息", "衰退", "压制", "走低", "偏空",
        "bearish", "drop", "fall", "plunge", "decline",
    ]
}

/// The direction of a headline: bullish or bearish when only words of that side
/// occur in its lowercase form, neutral otherwise.
pub open spec fn direction_spec(title: Seq<char>) -> Seq<char> {
    let t = lowercase(title);
    let bull = contains_any(t, lowered_views(bullish_words()));
    let bear = contains_any(t, lowered_views(bearish_words()));
    if bull && !bear {
        "bullish"@
    } else if bear && !bull {
        "bearish"@
    } else {
        "neutral"@
    }
}

/// The market direction that a headline suggests (always present).
pub fn infer_direction(title: &str) -> (r: Option<String>)
    ensures
        r matches Some(d) && d@ == direction_spec(title@),
{
    let t = to_lower(title);
    let bullish: [&'static str; 16] = [
        "上涨", "涨", "利好", "强劲", "超预期", "宽松", "降息", "扩张", "支持", "反弹", "走高", "偏多",
        "bullish", "surge", "rally", "gain",
    ];
    let bearish: [&'static str; 16] = [
        "下跌", "跌", "利空", "疲软", "不及预期", "收紧", "加息", "衰退", "压制", "走低", "偏空",
        "bearish", "drop", "fall", "plunge", "decline",
    ];
    assert(bullish@ =~= bullish_words());
    assert(bearish@ =~= bearish_words());
    let has_bull = contains_any_lowered(t.as_str(), &bullish);
    let has_bear = contains_any_lowered(t.as_str(), &bearish);
    if has_bull && !has_bear {
        Some(to_owned_string("bullish"))
    } else if has_bear && !has_bull {
        Some(to_owned_string("bearish"))
    } else {
        Some(to_owned_string("neutral"))
    }
}

/// Importance of a calendar event by its stars: 4–5 high, 3 medium, else low.
pub open spec fn star_importance_spec(star: u8) -> Seq<char> {
    if 4 <= star <= 5 {
        "high"@
    } else if star == 3 {
        "medium"@
    } else {
        "low"@
    }
}

/// The importance of a calendar event.
pub fn calendar_star_to_importance(star: u8) -> (r: String)
    ensures
        r@ == star_importance_spec(star),
{
    if 4 <= star && star <= 5 {
        to_owned_string("high")
    } else if star == 3 {
        to_owned_string("medium")
    } else {
        to_owned_string("low")
    }
}

/// Words that make a news item important.
pub open spec fn high_importance_words() -> Seq<&'static str> {
    seq!["重要", "重磅", "突发", "重大", "紧急", "震惊", "剧变", "break"]
}

/// `high` when an important word occurs in the lowercase of `title summary`.
pub open spec fn news_importance_spec(title: Seq<char>, summary: Seq<char>) -> Seq<char> {
    if contains_any(lowercase(title + seq![' '] + summary), lowered_views(high_importance_words())) {
        "high"@
    } else {
        "medium"@
    }
}

/// The importance of a news item.
pub fn infer_news_importance(title: &str, summary: &str) -> (r: String)
    ensures
        r@ == news_importance_spec(title@, summary@),
{
    let joined = join_space(title, summary);
    let text = to_lower(joined.as_str());
    let words: [&'static str; 8] = ["重要", "重磅", "突发", "重大", "紧急", "震惊", "剧变", "break"];
    assert(words@ =~= high_importance_words());
    if contains_any_lowered(text.as_str(), &words) {
        to_owned_string("high")
    } else {
        to_owned_string("medium")
    }
}

/// Dimension codes of industry news.
pub open spec fn is_industry_dimension(code: Seq<char>) -> bool {
    code == "demand"@ || code == "inventory"@ || code == "domestic_supply"@ || code == "overseas_upstream"@
}

/// Dimension codes of macro news.
pub open spec fn is_macro_dimension(code: Seq<char>) -> bool {
    code == "macro"@ || code == "overseas_finance"@
}

/// The event type that the first telling classification gives, if any.
pub open spec fn type_from_dimensions(codes: Seq<Seq<char>>) -> Option<Seq<char>>
    decreases codes.len(),
{
    if codes.len() == 0 {
        None
    } else if is_industry_dimension(codes[0]) {
        Some("industry"@)
    } else if is_macro_dimension(codes[0]) {
        Some("macro"@)
    } else {
        type_from_dimensions(codes.drop_first())
    }
}

/// Words of macro data releases in news text.
pub open spec fn macro_news_words() -> Seq<Seq<char>> {
    seq!["cpi"@, "ppi"@, "pmi"@, "gdp"@, "非农"@, "利率决议"@, "央行"@]
}

/// The event type of a news item: from its classifications, else from words of its
/// lowercase text (macro data, earnings, announcements), else industry.
pub open spec fn news_event_type_spec(title: Seq<char>, summary: Seq<char>, codes: Seq<Seq<char>>) -> Seq<char> {
    match type_from_dimensions(codes) {
        Some(t) => t,
        None => {
            let text = lowercase(title + seq![' '] + summary);
            if contains_any(text, macro_news_words()) {
                "macro"@
            } else if contains_any(text, seq!["财报"@, "业绩"@, "净利润"@]) {
                "earnings"@
            } else if contains_any(text, seq!["公告"@, "披露"@]) {
                "announcement"@
            } else {
                "industry"@
            }
        },
    }
}

/// The event type of a news item with the dimension codes of its classifications.
pub fn infer_news_event_type(title: &str, summary: &str, dimension_codes: &Vec<String>) -> (r: String)
    ensures
        r@ == news_event_type_spec(title@, summary@, dimension_codes@.map_values(|s: String| s@)),
{
    let ghost cv = dimension_codes@.map_values(|s: String| s@);
    let mut i: usize = 0;
    assert(cv.subrange(0, cv.len() as int) == cv);
    while i < dimension_codes.len()
        invariant
            i <= dimension_codes.len(),
            cv == dimension_codes@.map_values(|s: String| s@),
            type_from_dimensions(cv) == type_from_dimensions(cv.subrange(i as int, cv.len() as int)),
        decreases dimension_codes.len() - i,
    {
        let ghost rest = cv.subrange(i as int, cv.len() as int);
        assert(rest[0] == dimension_codes@[i as int]@);
        assert(rest.drop_first() == cv.subrange(i + 1, cv.len() as int));
        let c = dimension_codes[i].as_str();
        if crate::text::str_eq(c, "demand") || crate::text::str_eq(c, "inventory") || crate::text::str_eq(c, "domestic_supply")
            || crate::text::str_eq(c, "overseas_upstream") {
            return to_owned_string("industry");
        }
        if crate::text::str_eq(c, "macro") || crate::text::str_eq(c, "overseas_finance") {
            return to_owned_string("macro");
        }
        i = i + 1;
    }
    let joined = join_space(title, summary);
    let text = to_lower(joined.as_str());
    let macro_words: [&str; 7] = ["cpi", "ppi", "pmi", "gdp", "非农", "利率决议", "央行"];
    let earnings: [&str; 3] = ["财报", "业绩", "净利润"];
    let notices: [&str; 2] = ["公告", "披露"];
    assert(crate::text::views_of(macro_words@) =~= macro_news_words());
    assert(crate::text::views_of(earnings@) =~= seq!["财报"@, "业绩"@, "净利润"@]);
    assert(crate::text::views_of(notices@) =~= seq!["公告"@, "披露"@]);
    if crate::text::contains_any_word(text.as_str(), &macro_words) {
        to_owned_string("macro")
    } else if crate::text::contains_any_word(text.as_str(), &earnings) {
        to_owned_string("earnings")
    } else if crate::text::contains_any_word(text.as_str(), &notices) {
        to_owned_string("announcement")
    } else {
        to_owned_string("industry")
    }
}

/// Words of macro releases in calendar entries.
pub open spec fn macro_calendar_words() -> Seq<Seq<char>> {
    seq!["cpi"@, "ppi"@, "pmi"@, "gdp"@, "非农"@, "就业"@, "利率决议"@, "央行"@, "fed"@]
}

/// `macro` when a macro word occurs in the lowercase of `country name`, else `data`.
pub open spec fn calendar_event_type_spec(name: Seq<char>, country: Seq<char>) -> Seq<char> {
    if contains_any(lowercase(country + seq![' '] + name), macro_calendar_words()) {
        "macro"@
    } else {
        "data"@
    }
}

/// The event type of a calendar entry.
pub fn infer_calendar_event_type(name: &str, country: &str) -> (r: String)
    ensures
        r@ == calendar_event_type_spec(name@, country@),
{
    let joined = join_space(country, name);
    let text = to_lower(joined.as_str());
    let words: [&str; 9] = ["cpi", "ppi", "pmi", "gdp", "非农", "就业", "利率决议", "央行", "fed"];
    assert(crate::text::views_of(words@) =~= macro_calendar_words());
    if crate::text::contains_any_word(text.as_str(), &words) {
        to_owned_string("macro")
    } else {
        to_owned_string("data")
    }
}

/// The summary of a calendar entry: its previous, expected and actual values that
/// are present, labelled and joined by ` | `; none when all are absent.
pub open spec fn calendar_summary_spec(
    previous: Option<Seq<char>>,
    consensus: Option<Seq<char>>,
    actual: Option<Seq<char>>,
) -> Option<Seq<char>> {
    let parts = labelled(actual, "公布: "@, labelled(consensus, "预期: "@, labelled(previous, "前值: "@, seq![])));
    if parts.len() == 0 {
        None
    } else {
        Some(join_bar(parts))
    }
}

pub open spec fn labelled(v: Option<Seq<char>>, label: Seq<char>, parts: Seq<Seq<char>>) -> Seq<Seq<char>> {
    match v {
        Some(x) => parts.push(label + x),
        None => parts,
    }
}

/// Parts joined by ` | `.
pub open spec fn join_bar(parts: Seq<Seq<char>>) -> Seq<char>
    decreases parts.len(),
{
    if parts.len() == 0 {
        Seq::<char>::empty()
    } else if parts.len() == 1 {
        parts[0]
    } else {
        join_bar(parts.drop_last()) + " | "@ + parts.last()
    }
}

fn add_part(out: &mut String, first: bool, label: &str, v: &str)
    ensures
        final(out)@ == if first {
            old(out)@ + label@ + v@
        } else {
            old(out)@ + " | "@ + label@ + v@
        },
{
    if !first {
        append_str(out, " | ");
    }
    append_str(out, label);
    append_str(out, v);
}

/// The summary line of a calendar entry.
pub fn build_calendar_summary(
    previous: &Option<String>,
    consensus: &Option<String>,
    actual: &Option<String>,
) -> (r: Option<String>)
    ensures
        opt_view(r) == calendar_summary_spec(opt_view(*previous), opt_view(*consensus), opt_view(*actual)),
{
    let mut out = String::new();
    let mut n: usize = 0;
    let ghost p0: Seq<Seq<char>> = seq![];
    let ghost p1 = labelled(opt_view(*previous), "前值: "@, p0);
    if let Some(v) = previous {
        add_part(&mut out, true, "前值: ", v.as_str());
        n = 1;
    }
    assert(n == p1.len() && (n > 0 ==> out@ == join_bar(p1)) && (n == 0 ==> out@ == Seq::<char>::empty()));
    let ghost p2 = labelled(opt_view(*consensus), "预期: "@, p1);
    if let Some(v) = consensus {
        add_part(&mut out, n == 0, "预期: ", v.as_str());
        n = n + 1;
        assert(p2.drop_last() == p1);
    }
    assert(n == p2.len() && (n > 0 ==> out@ == join_bar(p2)) && (n == 0 ==> out@ == Seq::<char>::empty()));
    let ghost p3 = labelled(opt_view(*actual), "公布: "@, p2);
    if let Some(v) = actual {
        add_part(&mut out, n == 0, "公布: ", v.as_str());
        n = n + 1;
        assert(p3.drop_last() == p2);
    }
    assert(n == p3.len() && (n > 0 ==> out@ == join_bar(p3)));
    if n == 0 {
        None
    } else {
        Some(out)
    }
}

// ---------------------------------------------------------------------------
// Report periods
// ---------------------------------------------------------------------------

/// Number of leading characters of `s` whose UTF-8 form is exactly `n` bytes, if the
/// byte `n` starts a character.
pub open spec fn byte_prefix(s: Seq<char>, n: int) -> Option<int>
    decreases s.len(),
{
    if n == 0 {
        Some(0)
    } else if s.len() == 0 || n < 0 {
        None
    } else {
        let l = char_utf8_len(s[0]);
        if l > n {
            None
        } else {
            match byte_prefix(s.drop_first(), n - l) {
                Some(k) => Some(k + 1),
                None => None,
            }
        }
    }
}

/// An eight-byte period `YYYYMMDD` written `YYYY-MM-DD` (split at bytes 4 and 6);
/// anything else unchanged.
pub open spec fn report_period_spec(p: Seq<char>) -> Seq<char> {
    if utf8_len(p) == 8 {
        let a = byte_prefix(p, 4)->0;
        let b = byte_prefix(p, 6)->0;
        p.take(a) + seq!['-'] + p.subrange(a, b) + seq!['-'] + p.skip(b)
    } else {
        p
    }
}

/// The inputs on which `format_report_period` does not split a character.
pub open spec fn period_splittable(p: Seq<char>) -> bool {
    utf8_len(p) == 8 ==> byte_prefix(p, 4) is Some && byte_prefix(p, 6) is Some
}

fn byte_prefix_exec(cs: &Vec<char>, n: usize) -> (r: Option<usize>)
    requires
        n <= 8,
    ensures
        match r {
            Some(k) => byte_prefix(cs@, n as int) == Some(k as int) && k <= cs.len(),
            None => byte_prefix(cs@, n as int) is None,
        },
{
    let mut i: usize = 0;
    let mut left = n;
    assert(cs@.skip(0) == cs@);
    while left > 0 && i < cs.len()
        invariant
            i <= cs.len(),
            left <= n <= 8,
            byte_prefix(cs@, n as int) == match byte_prefix(cs@.skip(i as int), left as int) {
                Some(k) => Some(k + i),
                None => None::<int>,
            },
        decreases cs.len() - i,
    {
        let c = cs[i];
        let u = c as u32;
        let l: usize = if u < 0x80 {
            1
        } else if u < 0x800 {
            2
        } else if u < 0x10000 {
            3
        } else {
            4
        };
        assert(cs@.skip(i as int)[0] == c);
        assert(cs@.skip(i as int).drop_first() == cs@.skip(i + 1));
        if l > left {
            return None;
        }
        left = left - l;
        i = i + 1;
    }
    if left == 0 {
        Some(i)
    } else {
        None
    }
}

/// A report period `YYYYMMDD` as a date `YYYY-MM-DD`.
pub fn format_report_period(period: &str) -> (r: String)
    requires
        period_splittable(period@),
    ensures
        r@ == report_period_spec(period@),
{
    let cs = chars_of(period);
    let len = crate::crypto::utf8_len_capped(&cs, 0, cs.len(), 8);
    assert(cs@.subrange(0, cs.len() as int) == cs@);
    if len != 8 {
        return to_owned_string(period);
    }
    let a = byte_prefix_exec(&cs, 4);
    let b = byte_prefix_exec(&cs, 6);
    match (a, b) {
        (Some(a), Some(b)) => {
            proof {
                lemma_byte_prefix_mono(cs@, 4, 6);
            }
            let mut out = crate::text::string_from_range(&cs, 0, a);
            push_char(&mut out, '-');
            let mid = crate::text::string_from_range(&cs, a, b);
            append_str(&mut out, mid.as_str());
            push_char(&mut out, '-');
            let tail = crate::text::string_from_range(&cs, b, cs.len());
            append_str(&mut out, tail.as_str());
            assert(cs@.take(a as int) == cs@.subrange(0, a as int));
            assert(cs@.skip(b as int) == cs@.subrange(b as int, cs.len() as int));
            out
        },
        _ => {
            assert(false);
            to_owned_string(period)
        },
    }
}

proof fn lemma_byte_prefix_nonneg(s: Seq<char>, n: int)
    requires
        byte_prefix(s, n) is Some,
    ensures
        0 <= byte_prefix(s, n)->0 <= s.len(),
    decreases s.len(),
{
    if n != 0 && s.len() > 0 && n > 0 {
        let l = char_utf8_len(s[0]);
        if l <= n {
            lemma_byte_prefix_nonneg(s.drop_first(), n - l);
        }
    }
}

proof fn lemma_byte_prefix_mono(s: Seq<char>, m: int, n: int)
    requires
        0 <= m <= n,
        byte_prefix(s, m) is Some,
        byte_prefix(s, n) is Some,
    ensures
        byte_prefix(s, m)->0 <= byte_prefix(s, n)->0,
    decreases s.len(),
{
    lemma_byte_prefix_nonneg(s, n);
    if m > 0 {
        assert(s.len() > 0);
        let l = char_utf8_len(s[0]);
        assert(l <= m);
        lemma_byte_prefix_mono(s.drop_first(), m - l, n - l);
    }
}

/// The latest report period due at day `z` (since 1970-01-01): the previous year's
/// annual report in the first quarter, then the first-quarter, half-year and
/// third-quarter reports.
pub open spec fn latest_report_period_spec(z: int) -> Seq<char> {
    let (y, m) = year_month_of_day(z);
    if 1 <= m <= 3 {
        decimal_int(y - 1) + "1231"@
    } else if 4 <= m <= 6 {
        decimal_int(y) + "0331"@
    } else if 7 <= m <= 9 {
        decimal_int(y) + "0630"@
    } else {
        decimal_int(y) + "0930"@
    }
}

/// The report period that is most recently due at the instant `now` (seconds).
pub fn infer_latest_report_period(now: i64) -> (r: String)
    ensures
        r@ == latest_report_period_spec(day_of_instant(now as int)),
{
    let (y, m) = year_month_of(now);
    let (year, suffix) = if 1 <= m && m <= 3 {
        (y - 1, "1231")
    } else if 4 <= m && m <= 6 {
        (y, "0331")
    } else if 7 <= m && m <= 9 {
        (y, "0630")
    } else {
        (y, "0930")
    };
    let mut out = int_to_decimal(year);
    append_str(&mut out, suffix);
    out
}

// ---------------------------------------------------------------------------
// Event selection
// ---------------------------------------------------------------------------

/// Whether a source filter lets events of `target` through: no filter, `all` or
/// empty lets all through, else the names must agree up to ASCII case.
pub open spec fn include_source_spec(filter: Option<Seq<char>>, target: Seq<char>) -> bool {
    match filter {
        None => true,
        Some(s) => s == "all"@ || s.len() == 0 || eq_ignore_ascii_case_spec(s, target),
    }
}

/// Whether events of source `target` are wanted.
pub fn should_include_source(source_filter: &Option<String>, target: &str) -> (r: bool)
    ensures
        r == include_source_spec(opt_view(*source_filter), target@),
{
    match source_filter {
        None => true,
        Some(s) => {
            let cs = chars_of(s.as_str());
            crate::text::str_eq(s.as_str(), "all") || cs.len() == 0 || str_eq_ignore_ascii_case(s.as_str(), target)
        },
    }
}

/// Some symbol of `syms` equals `sym` up to ASCII case.
pub open spec fn any_symbol_matches(syms: Seq<Seq<char>>, sym: Seq<char>) -> bool {
    exists|k: int| 0 <= k < syms.len() && eq_ignore_ascii_case_spec(#[trigger] syms[k], sym)
}

/// Some sector of `secs` contains `sec` once both are lowercased.
pub open spec fn any_sector_contains(secs: Seq<Seq<char>>, sec: Seq<char>) -> bool {
    exists|k: int| 0 <= k < secs.len() && contains_seq(lowercase(#[trigger] secs[k]), lowercase(sec))
}

/// Whether an event meets a query: source, symbol (among its symbols or in its
/// title), sector (among its sectors or in its title), importance, event type, and
/// a time window that applies when both the event's and the bound's times parse.
pub open spec fn event_matches_spec(
    e_source: Seq<char>,
    e_title: Seq<char>,
    e_symbols: Seq<Seq<char>>,
    e_sectors: Seq<Seq<char>>,
    e_importance: Seq<char>,
    e_type: Seq<char>,
    e_time: Seq<char>,
    q_source: Option<Seq<char>>,
    q_sector: Option<Seq<char>>,
    q_importance: Option<Seq<char>>,
    q_type: Option<Seq<char>>,
    q_start: Option<Seq<char>>,
    q_end: Option<Seq<char>>,
    symbol: Option<Seq<char>>,
) -> bool {
    &&& match q_source {
        Some(s) => eq_ignore_ascii_case_spec(s, "all"@) || eq_ignore_ascii_case_spec(e_source, s),
        None => true,
    }
    &&& match symbol {
        Some(sym) => any_symbol_matches(e_symbols, sym) || contains_seq(uppercase(e_title), uppercase(sym)),
        None => true,
    }
    &&& match q_sector {
        Some(sec) => any_sector_contains(e_sectors, sec) || contains_seq(lowercase(e_title), lowercase(sec)),
        None => true,
    }
    &&& match q_importance {
        Some(imp) => eq_ignore_ascii_case_spec(imp, "all"@) || eq_ignore_ascii_case_spec(e_importance, imp),
        None => true,
    }
    &&& match q_type {
        Some(et) => lowercase(et) == "all"@ || contains_seq(lowercase(e_type), lowercase(et)),
        None => true,
    }
    &&& match parse_dt_spec(e_time) {
        Some(t) => {
            &&& match q_start {
                Some(s) => match parse_dt_spec(s) {
                    Some(st) => t >= st,
                    None => true,
                },
                None => true,
            }
            &&& match q_end {
                Some(s) => match parse_dt_spec(s) {
                    Some(en) => t <= en,
                    None => true,
                },
                None => true,
            }
        },
        None => true,
    }
}

/// An event whose time is after a query's end bound does not meet the query: when the
/// event's display time and the end bound both parse, the event time must not exceed
/// the bound, whatever the other filters say.
pub proof fn law_event_after_end_rejected(
    e_source: Seq<char>,
    e_title: Seq<char>,
    e_symbols: Seq<Seq<char>>,
    e_sectors: Seq<Seq<char>>,
    e_importance: Seq<char>,
    e_type: Seq<char>,
    e_time: Seq<char>,
    q_source: Option<Seq<char>>,
    q_sector: Option<Seq<char>>,
    q_importance: Option<Seq<char>>,
    q_type: Option<Seq<char>>,
    q_start: Option<Seq<char>>,
    end: Seq<char>,
    symbol: Option<Seq<char>>,
    t: int,
    b: int,
)
    requires
        parse_dt_spec(e_time) == Some(t),
        parse_dt_spec(end) == Some(b),
        t > b,
    ensures
        !event_matches_spec(e_source, e_title, e_symbols, e_sectors, e_importance, e_type, e_time,
            q_source, q_sector, q_importance, q_type, q_start, Some(end), symbol),
{
}

/// An event whose time is before a query's start bound does not meet the query (when
/// both times parse).
pub proof fn law_event_before_start_rejected(
    e_source: Seq<char>,
    e_title: Seq<char>,
    e_symbols: Seq<Seq<char>>,
    e_sectors: Seq<Seq<char>>,
    e_importance: Seq<char>,
    e_type: Seq<char>,
    e_time: Seq<char>,
    q_source: Option<Seq<char>>,
    q_sector: Option<Seq<char>>,
    q_importance: Option<Seq<char>>,
    q_type: Option<Seq<char>>,
    start: Seq<char>,
    q_end: Option<Seq<char>>,
    symbol: Option<Seq<char>>,
    t: int,
    b: int,
)
    requires
        parse_dt_spec(e_time) == Some(t),
        parse_dt_spec(start) == Some(b),
        t < b,
    ensures
        !event_matches_spec(e_source, e_title, e_symbols, e_sectors, e_importance, e_type, e_time,
            q_source, q_sector, q_importance, q_type, Some(start), q_end, symbol),
{
}

/// With no other filter, an event whose time lies within a query's window (both
/// bounds inclusive) meets the query.
pub proof fn law_event_inside_window_kept(
    e_source: Seq<char>,
    e_title: Seq<char>,
    e_symbols: Seq<Seq<char>>,
    e_sectors: Seq<Seq<char>>,
    e_importance: Seq<char>,
    e_type: Seq<char>,
    e_time: Seq<char>,
    start: Seq<char>,
    end: Seq<char>,
    t: int,
    lo: int,
    hi: int,
)
    requires
        parse_dt_spec(e_time) == Some(t),
        parse_dt_spec(start) == Some(lo),
        parse_dt_spec(end) == Some(hi),
        lo <= t <= hi,
    ensures
        event_matches_spec(e_source, e_title, e_symbols, e_sectors, e_importance, e_type, e_time,
            None, None, None, None, Some(start), Some(end), None),
{
}

/// The rank of an importance: `high` above `medium` above anything else.
pub open spec fn importance_rank(imp: Seq<char>) -> int {
    if imp == "high"@ {
        2
    } else if imp == "medium"@ {
        1
    } else {
        0
    }
}

/// Calendar stars map to importance: four and five stars are `high`, three `medium`,
/// fewer `low`; over the star scale 1 to 5 more stars never mean less importance.
/// Values above the scale count as `low`, as the calendar does.
#[verifier::spinoff_prover]
pub proof fn law_star_importance(s1: u8, s2: u8)
    ensures
        4 <= s1 <= 5 ==> star_importance_spec(s1) == "high"@,
        s1 == 3 ==> star_importance_spec(s1) == "medium"@,
        (s1 <= 2 || s1 > 5) ==> star_importance_spec(s1) == "low"@,
        s1 <= s2 <= 5 ==> importance_rank(star_importance_spec(s1)) <= importance_rank(star_importance_spec(s2)),
{
    reveal_strlit("high");
    reveal_strlit("medium");
    reveal_strlit("low");
    assert("medium"@ != "high"@) by {
        assert("medium"@.len() != "high"@.len());
    }
    assert("low"@ != "high"@) by {
        assert("low"@[0] != "high"@[0]);
    }
    assert("low"@ != "medium"@) by {
        assert("low"@.len() != "medium"@.len());
    }
    assert(importance_rank("high"@) == 2);
    assert(importance_rank("medium"@) == 1);
    assert(importance_rank("low"@) == 0);
}

/// Filter `b` is filter `a` or no filter at all.
pub open spec fn same_or_dropped(a: Option<Seq<char>>, b: Option<Seq<char>>) -> bool {
    b is None || b == a
}

/// A query without filters admits every event, and dropping filters from a query never
/// rejects an event that it admitted. A query is given as its source, sector,
/// importance, event type, start, end and symbol filter, in that order.
pub proof fn law_event_filters_monotone(
    e_source: Seq<char>,
    e_title: Seq<char>,
    e_symbols: Seq<Seq<char>>,
    e_sectors: Seq<Seq<char>>,
    e_importance: Seq<char>,
    e_type: Seq<char>,
    e_time: Seq<char>,
    q1: (Option<Seq<char>>, Option<Seq<char>>, Option<Seq<char>>, Option<Seq<char>>, Option<Seq<char>>, Option<Seq<char>>, Option<Seq<char>>),
    q2: (Option<Seq<char>>, Option<Seq<char>>, Option<Seq<char>>, Option<Seq<char>>, Option<Seq<char>>, Option<Seq<char>>, Option<Seq<char>>),
)
    requires
        same_or_dropped(q1.0, q2.0),
        same_or_dropped(q1.1, q2.1),
        same_or_dropped(q1.2, q2.2),
        same_or_dropped(q1.3, q2.3),
        same_or_dropped(q1.4, q2.4),
        same_or_dropped(q1.5, q2.5),
        same_or_dropped(q1.6, q2.6),
    ensures
        event_matches_spec(e_source, e_title, e_symbols, e_sectors, e_importance, e_type, e_time,
            None, None, None, None, None, None, None),
        event_matches_spec(e_source, e_title, e_symbols, e_sectors, e_importance, e_type, e_time,
            q1.0, q1.1, q1.2, q1.3, q1.4, q1.5, q1.6)
            ==> event_matches_spec(e_source, e_title, e_symbols, e_sectors, e_importance, e_type,
            e_time, q2.0, q2.1, q2.2, q2.3, q2.4, q2.5, q2.6),
{
}

fn symbols_match(syms: &Vec<String>, sym: &str) -> (r: bool)
    ensures
        r == any_symbol_matches(syms@.map_values(|s: String| s@), sym@),
{
    let ghost sv = syms@.map_values(|s: String| s@);
    let mut k: usize = 0;
    while k < syms.len()
        invariant
            k <= syms.len(),
            sv == syms@.map_values(|s: String| s@),
            forall|j: int| 0 <= j < k ==> !eq_ignore_ascii_case_spec(#[trigger] sv[j], sym@),
        decreases syms.len() - k,
    {
        if str_eq_ignore_ascii_case(syms[k].as_str(), sym) {
            assert(eq_ignore_ascii_case_spec(sv[k as int], sym@));
            return true;
        }
        k = k + 1;
    }
    false
}

fn sectors_contain(secs: &Vec<String>, sec: &str) -> (r: bool)
    ensures
        r == any_sector_contains(crate::text::strings_view(secs@), sec@),
{
    let ghost sv = crate::text::strings_view(secs@);
    let sec_lower = to_lower(sec);
    let mut k: usize = 0;
    while k < secs.len()
        invariant
            k <= secs.len(),
            sv == crate::text::strings_view(secs@),
            sec_lower@ == lowercase(sec@),
            forall|j: int| 0 <= j < k ==> !contains_seq(lowercase(#[trigger] sv[j]), lowercase(sec@)),
        decreases secs.len() - k,
    {
        let l = to_lower(secs[k].as_str());
        if str_contains(l.as_str(), sec_lower.as_str()) {
            assert(contains_seq(lowercase(sv[k as int]), lowercase(sec@)));
            return true;
        }
        k = k + 1;
    }
    false
}

fn time_bound_ok(t: i64, bound: &Option<String>, lower: bool) -> (r: bool)
    ensures
        r == match opt_view(*bound) {
            Some(s) => match parse_dt_spec(s) {
                Some(b) => if lower {
                    t >= b
                } else {
                    t <= b
                },
                None => true,
            },
            None => true,
        },
{
    match bound {
        Some(s) => match parse_dt(s.as_str()) {
            Some(b) => if lower {
                t >= b
            } else {
                t <= b
            },
            None => true,
        },
        None => true,
    }
}

/// Whether an event meets a query (see `event_matches_spec`); `symbol_filter` is the
/// query's symbol as the caller normalized it.
pub fn event_matches(e: &MarketEvent, query: &MarketEventQuery, symbol_filter: Option<&str>) -> (r: bool)
    ensures
        r == event_matches_spec(
            e.source@,
            e.title@,
            e.affected_symbols@.map_values(|s: String| s@),
            crate::text::strings_view(e.affected_sectors@),
            e.importance@,
            e.event_type@,
            e.display_time@,
            opt_view(query.source),
            opt_view(query.sector),
            opt_view(query.importance),
            opt_view(query.event_type),
            opt_view(query.start),
            opt_view(query.end),
            crate::config::opt_str_view(symbol_filter),
        ),
{
    if let Some(s) = &query.source {
        if !str_eq_ignore_ascii_case(s.as_str(), "all") && !str_eq_ignore_ascii_case(e.source.as_str(), s.as_str()) {
            return false;
        }
    }
    if let Some(sym) = symbol_filter {
        let title_up = to_upper(e.title.as_str());
        let sym_up = to_upper(sym);
        if !symbols_match(&e.affected_symbols, sym) && !str_contains(title_up.as_str(), sym_up.as_str()) {
            return false;
        }
    }
    if let Some(sec) = &query.sector {
        let sec_lower = to_lower(sec.as_str());
        let in_sectors = sectors_contain(&e.affected_sectors, sec.as_str());
        let title_lower = to_lower(e.title.as_str());
        let in_title = str_contains(title_lower.as_str(), sec_lower.as_str());
        if !in_sectors && !in_title {
            return false;
        }
    }
    if let Some(imp) = &query.importance {
        if !str_eq_ignore_ascii_case(imp.as_str(), "all") && !str_eq_ignore_ascii_case(e.importance.as_str(), imp.as_str()) {
            return false;
        }
    }
    if let Some(et) = &query.event_type {
        let et_lower = to_lower(et.as_str());
        let t_lower = to_lower(e.event_type.as_str());
        if !crate::text::str_eq(et_lower.as_str(), "all") && !str_contains(t_lower.as_str(), et_lower.as_str()) {
            return false;
        }
    }
    match parse_dt(e.display_time.as_str()) {
        Some(t) => time_bound_ok(t, &query.start, true) && time_bound_ok(t, &query.end, false),
        None => true,
    }
}

} // verus!
