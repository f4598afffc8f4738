//! Turning news items and calendar entries into market events.
use vstd::prelude::*;

use crate::calendar::CalendarEvent;
use crate::events::{
    build_calendar_summary, calendar_event_type_spec, calendar_star_to_importance, calendar_summary_spec,
    direction_spec, infer_calendar_event_type, infer_direction, infer_news_event_type, infer_news_importance,
    news_event_type_spec, news_importance_spec, star_importance_spec, MarketEvent,
};
use crate::news::{NewsClassificationView, NewsItemView};
use crate::text::{
    chars_of, join_space, opt_view, str_eq, string_from, strings_view, to_owned_string, to_upper, trim_string,
    trim_ws, uppercase,
};
use crate::time::{now_rfc3339, utc_timestamp};
use vstd::string::StrSliceExecFns;

verus! {

// ---------------------------------------------------------------------------
// Symbol lists
// ---------------------------------------------------------------------------

/// The separators of a calendar entry's list of affected symbols.
pub open spec fn is_list_separator(c: char) -> bool {
    c == ',' || c == '，' || c == ';' || c == '；'
}

/// The pieces of `s` between separators (as `str::split` with a set of chars).
pub open spec fn split_list(s: Seq<char>) -> Seq<Seq<char>>
    decreases s.len(),
{
    if s.len() == 0 {
        seq![Seq::<char>::empty()]
    } else {
        let prev = split_list(s.drop_last());
        if is_list_separator(s.last()) {
            prev.push(Seq::<char>::empty())
        } else {
            prev.update(prev.len() - 1, prev.last().push(s.last()))
        }
    }
}

/// `s` without repeats, each element kept where it first occurs.
pub open spec fn dedup_first(s: Seq<Seq<char>>) -> Seq<Seq<char>>
    decreases s.len(),
{
    if s.len() == 0 {
        s
    } else {
        let d = dedup_first(s.drop_last());
        if d.contains(s.last()) {
            d
        } else {
            d.push(s.last())
        }
    }
}

/// The pieces trimmed and uppercased, the empty ones dropped.
pub open spec fn cleaned_symbols(pieces: Seq<Seq<char>>) -> Seq<Seq<char>>
    decreases pieces.len(),
{
    if pieces.len() == 0 {
        Seq::<Seq<char>>::empty()
    } else {
        let prev = cleaned_symbols(pieces.drop_last());
        let u = uppercase(trim_ws(pieces.last()));
        if u.len() == 0 {
            prev
        } else {
            prev.push(u)
        }
    }
}

/// The symbols that a calendar entry's `affect` text names, each once.
pub open spec fn affected_symbols_spec(affect: Option<Seq<char>>) -> Seq<Seq<char>> {
    match affect {
        Some(a) => dedup_first(cleaned_symbols(split_list(a))),
        None => Seq::<Seq<char>>::empty(),
    }
}

/// Every element of a deduplicated sequence occurs once, and it holds the elements
/// of the sequence it was made from.
pub proof fn lemma_dedup_first_unique(s: Seq<Seq<char>>)
    ensures
        dedup_first(s).no_duplicates(),
        forall|x: Seq<char>| #[trigger] dedup_first(s).contains(x) <==> s.contains(x),
    decreases s.len(),
{
    if s.len() > 0 {
        let p = s.drop_last();
        let l = s.last();
        lemma_dedup_first_unique(p);
        let d = dedup_first(p);
        assert forall|x: Seq<char>| #[trigger] s.contains(x) <==> (p.contains(x) || x == l) by {
            if s.contains(x) {
                let k = choose|k: int| 0 <= k < s.len() && s[k] == x;
                if k < p.len() {
                    assert(p[k] == x);
                }
            }
            if p.contains(x) {
                let k = choose|k: int| 0 <= k < p.len() && p[k] == x;
                assert(s[k] == x);
            }
            if x == l {
                assert(s[s.len() - 1] == x);
            }
        }
        if !d.contains(l) {
            let e = d.push(l);
            assert forall|x: Seq<char>| #[trigger] e.contains(x) <==> (d.contains(x) || x == l) by {
                if e.contains(x) {
                    let k = choose|k: int| 0 <= k < e.len() && e[k] == x;
                    if k < d.len() {
                        assert(d[k] == x);
                    }
                }
                if d.contains(x) {
                    let k = choose|k: int| 0 <= k < d.len() && d[k] == x;
                    assert(e[k] == x);
                }
                if x == l {
                    assert(e[e.len() - 1] == x);
                }
            }
            assert forall|i: int, j: int| 0 <= i < e.len() && 0 <= j < e.len() && i != j implies e[i] != e[j] by {
                if i < d.len() && j < d.len() {
                } else if i < d.len() {
                    assert(d.contains(e[i]));
                } else {
                    assert(d.contains(e[j]));
                }
            }
        }
    }
}

fn split_list_chars(cs: &Vec<char>) -> (r: Vec<Vec<char>>)
    ensures
        r@.map_values(|v: Vec<char>| v@) == split_list(cs@),
{
    let mut done: Vec<Vec<char>> = Vec::new();
    let mut cur: Vec<char> = Vec::new();
    let mut i: usize = 0;
    while i < cs.len()
        invariant
            i <= cs.len(),
            done@.map_values(|v: Vec<char>| v@).push(cur@) == split_list(cs@.take(i as int)),
        decreases cs.len() - i,
    {
        let ghost prev = split_list(cs@.take(i as int));
        assert(cs@.take(i + 1).drop_last() == cs@.take(i as int));
        assert(cs@.take(i + 1).last() == cs@[i as int]);
        let c = cs[i];
        if c == ',' || c == '，' || c == ';' || c == '；' {
            let old_cur = cur;
            cur = Vec::new();
            done.push(old_cur);
            assert(done@.map_values(|v: Vec<char>| v@) == prev);
        } else {
            cur.push(c);
            assert(done@.map_values(|v: Vec<char>| v@).push(cur@) =~= prev.update(
                prev.len() - 1,
                prev.last().push(cs@[i as int]),
            ));
        }
        i = i + 1;
    }
    assert(cs@.take(cs.len() as int) == cs@);
    done.push(cur);
    done
}

fn contains_string(v: &Vec<String>, s: &str) -> (b: bool)
    ensures
        b == strings_view(v@).contains(s@),
{
    let mut i: usize = 0;
    while i < v.len()
        invariant
            i <= v.len(),
            forall|j: int| 0 <= j < i ==> #[trigger] strings_view(v@)[j] != s@,
        decreases v.len() - i,
    {
        if str_eq(v[i].as_str(), s) {
            assert(strings_view(v@)[i as int] == s@);
            return true;
        }
        i = i + 1;
    }
    false
}

fn push_unique(out: &mut Vec<String>, s: String)
    ensures
        strings_view(final(out)@) == if strings_view(old(out)@).contains(s@) {
            strings_view(old(out)@)
        } else {
            strings_view(old(out)@).push(s@)
        },
{
    if !contains_string(out, s.as_str()) {
        let ghost before = out@;
        let ghost sv = s@;
        out.push(s);
        assert(strings_view(out@) =~= strings_view(before).push(sv));
    }
}

/// The symbols that a calendar entry names as affected: its `affect` text split at
/// `,` `，` `;` `；`, each piece trimmed and uppercased, empty pieces dropped, each
/// symbol once in the order of its first occurrence.
pub fn calendar_affected_symbols(affect: &Option<String>) -> (r: Vec<String>)
    ensures
        strings_view(r@) == affected_symbols_spec(opt_view(*affect)),
        strings_view(r@).no_duplicates(),
{
    let mut out: Vec<String> = Vec::new();
    if let Some(a) = affect {
        let cs = chars_of(a.as_str());
        let pieces = split_list_chars(&cs);
        let ghost pv = pieces@.map_values(|v: Vec<char>| v@);
        let mut i: usize = 0;
        while i < pieces.len()
            invariant
                i <= pieces.len(),
                pv == pieces@.map_values(|v: Vec<char>| v@),
                strings_view(out@) == dedup_first(cleaned_symbols(pv.take(i as int))),
            decreases pieces.len() - i,
        {
            let p = string_from(&pieces[i]);
            let t = trim_string(p.as_str());
            let u = to_upper(t.as_str());
            let ghost prev = cleaned_symbols(pv.take(i as int));
            assert(pv.take(i + 1).drop_last() == pv.take(i as int));
            assert(pv.take(i + 1).last() == pieces@[i as int]@);
            if u.as_str().unicode_len() > 0 {
                assert(prev.push(u@).drop_last() == prev);
                push_unique(&mut out, u);
            }
            i = i + 1;
        }
        assert(pv.take(pieces.len() as int) == pv);
    }
    proof {
        lemma_dedup_first_unique(cleaned_symbols(split_list(opt_view(*affect)->0)));
    }
    out
}

// ---------------------------------------------------------------------------
// Sectors
// ---------------------------------------------------------------------------

/// A symbol-to-sector table as text pairs.
pub open spec fn pairs_view(t: Seq<(String, String)>) -> Seq<(Seq<char>, Seq<char>)> {
    t.map_values(|p: (String, String)| (p.0@, p.1@))
}

/// The sector of the first entry of `t` for symbol `k`.
pub open spec fn table_lookup(t: Seq<(Seq<char>, Seq<char>)>, k: Seq<char>) -> Option<Seq<char>>
    decreases t.len(),
{
    if t.len() == 0 {
        None
    } else if t[0].0 == k {
        Some(t[0].1)
    } else {
        table_lookup(t.drop_first(), k)
    }
}

/// The sectors found for `symbols`, in their order.
pub open spec fn sectors_found(symbols: Seq<Seq<char>>, t: Seq<(Seq<char>, Seq<char>)>) -> Seq<Seq<char>>
    decreases symbols.len(),
{
    if symbols.len() == 0 {
        Seq::<Seq<char>>::empty()
    } else {
        let prev = sectors_found(symbols.drop_last(), t);
        match table_lookup(t, symbols.last()) {
            Some(s) => prev.push(s),
            None => prev,
        }
    }
}

fn lookup_sector(table: &Vec<(String, String)>, symbol: &str) -> (r: Option<String>)
    ensures
        opt_view(r) == table_lookup(pairs_view(table@), symbol@),
{
    let ghost pv = pairs_view(table@);
    let mut i: usize = 0;
    assert(pv.skip(0) == pv);
    while i < table.len()
        invariant
            i <= table.len(),
            pv == pairs_view(table@),
            table_lookup(pv, symbol@) == table_lookup(pv.skip(i as int), symbol@),
        decreases table.len() - i,
    {
        assert(pv.skip(i as int)[0] == pv[i as int]);
        assert(pv.skip(i as int).drop_first() == pv.skip(i + 1));
        if str_eq(table[i].0.as_str(), symbol) {
            return Some(to_owned_string(table[i].1.as_str()));
        }
        i = i + 1;
    }
    None
}

/// The sectors of `symbols` in a symbol-to-sector table (first entry for a symbol
/// wins), each sector once in the order of its first occurrence.
pub fn sectors_of_symbols(symbols: &Vec<String>, table: &Vec<(String, String)>) -> (r: Vec<String>)
    ensures
        strings_view(r@) == dedup_first(sectors_found(strings_view(symbols@), pairs_view(table@))),
{
    let ghost sv = strings_view(symbols@);
    let ghost tv = pairs_view(table@);
    let mut out: Vec<String> = Vec::new();
    let mut i: usize = 0;
    while i < symbols.len()
        invariant
            i <= symbols.len(),
            sv == strings_view(symbols@),
            tv == pairs_view(table@),
            strings_view(out@) == dedup_first(sectors_found(sv.take(i as int), tv)),
        decreases symbols.len() - i,
    {
        let ghost prev = sectors_found(sv.take(i as int), tv);
        assert(sv.take(i + 1).drop_last() == sv.take(i as int));
        assert(sv.take(i + 1).last() == symbols@[i as int]@);
        match lookup_sector(table, symbols[i].as_str()) {
            Some(s) => {
                assert(prev.push(s@).drop_last() == prev);
                push_unique(&mut out, s);
            },
            None => {},
        }
        i = i + 1;
    }
    assert(sv.take(symbols.len() as int) == sv);
    out
}

// ---------------------------------------------------------------------------
// Events
// ---------------------------------------------------------------------------

/// A lowercase hexadecimal digit.
pub open spec fn is_lower_hex(c: char) -> bool {
    ('0' <= c && c <= '9') || ('a' <= c && c <= 'f')
}

/// The text of a random (version 4, RFC 4122 variant) UUID in its hyphenated lowercase
/// form: 36 characters, hyphens at 8, 13, 18 and 23, hexadecimal digits elsewhere, the
/// version digit `4` at 14 and a variant digit `8`, `9`, `a` or `b` at 19.
pub open spec fn uuid_v4_text(s: Seq<char>) -> bool {
    &&& s.len() == 36
    &&& forall|k: int| 0 <= k < 36 ==> if k == 8 || k == 13 || k == 18 || k == 23 {
        #[trigger] s[k] == '-'
    } else {
        is_lower_hex(s[k])
    }
    &&& s[14] == '4'
    &&& s[19] == '8' || s[19] == '9' || s[19] == 'a' || s[19] == 'b'
}

/// A fresh random identifier: `uuid` `Uuid::new_v4().to_string()`. `new_v4` fixes the
/// version and variant bits of random bytes, and `Display` writes the hyphenated
/// lowercase form. Which identifier comes out depends on chance and is not stated.
#[verifier::external_body]
fn new_event_id() -> (r: String)
    ensures
        uuid_v4_text(r@),
{
    uuid::Uuid::new_v4().to_string()
}

fn event_id_or_fresh(id: &str) -> (r: String)
    ensures
        id@.len() > 0 ==> r@ == id@,
        id@.len() == 0 ==> uuid_v4_text(r@),
{
    if id.unicode_len() == 0 {
        new_event_id()
    } else {
        to_owned_string(id)
    }
}

/// What the event made of a calendar entry holds: a fresh identifier when the entry has
/// none, and a creation time that is a UTC timestamp of the clock.
pub open spec fn is_calendar_event(ev: MarketEvent, e: CalendarEvent, table: Seq<(Seq<char>, Seq<char>)>) -> bool {
    &&& (e.id@.len() > 0 ==> ev.id@ == e.id@)
    &&& (e.id@.len() == 0 ==> uuid_v4_text(ev.id@))
    &&& ev.title@ == e.country@ + seq![' '] + e.name@
    &&& ev.source@ == "calendar"@
    &&& opt_view(ev.source_id) == Some(e.id@)
    &&& ev.source_url is None
    &&& ev.display_time@ == e.pub_time@
    &&& ev.importance@ == star_importance_spec(e.star)
    &&& ev.event_type@ == calendar_event_type_spec(e.name@, e.country@)
    &&& strings_view(ev.affected_symbols@) == affected_symbols_spec(opt_view(e.affect))
    &&& strings_view(ev.affected_sectors@) == dedup_first(sectors_found(strings_view(ev.affected_symbols@), table))
    &&& opt_view(ev.direction) == Some(direction_spec(e.name@))
    &&& opt_view(ev.summary) == calendar_summary_spec(opt_view(e.previous), opt_view(e.consensus), opt_view(e.actual))
    &&& utc_timestamp(ev.created_at@)
}

/// The event made of a calendar entry of four or five stars is of `high` importance,
/// one of three stars `medium`, and one of fewer `low`.
pub proof fn law_calendar_event_importance(ev: MarketEvent, e: CalendarEvent, table: Seq<(Seq<char>, Seq<char>)>)
    requires
        is_calendar_event(ev, e, table),
    ensures
        4 <= e.star <= 5 ==> ev.importance@ == "high"@,
        e.star == 3 ==> ev.importance@ == "medium"@,
        e.star <= 2 ==> ev.importance@ == "low"@,
{
    crate::events::law_star_importance(e.star, e.star);
}

/// The event of a calendar entry; `table` maps symbols to their sectors.
pub fn calendar_to_event(e: &CalendarEvent, table: &Vec<(String, String)>) -> (r: MarketEvent)
    ensures
        is_calendar_event(r, *e, pairs_view(table@)),
{
    let symbols = calendar_affected_symbols(&e.affect);
    let sectors = sectors_of_symbols(&symbols, table);
    let direction = infer_direction(e.name.as_str());
    assert(opt_view(direction) == Some(direction_spec(e.name@)));
    MarketEvent {
        id: event_id_or_fresh(e.id.as_str()),
        title: join_space(e.country.as_str(), e.name.as_str()),
        source: to_owned_string("calendar"),
        source_id: Some(to_owned_string(e.id.as_str())),
        source_url: None,
        display_time: to_owned_string(e.pub_time.as_str()),
        importance: calendar_star_to_importance(e.star),
        event_type: infer_calendar_event_type(e.name.as_str(), e.country.as_str()),
        affected_symbols: symbols,
        affected_sectors: sectors,
        direction,
        summary: build_calendar_summary(&e.previous, &e.consensus, &e.actual),
        created_at: now_rfc3339(),
    }
}

/// The events of calendar entries, one for each, in order.
pub fn calendar_to_events(events: Vec<CalendarEvent>, table: &Vec<(String, String)>) -> (r: Vec<MarketEvent>)
    ensures
        r@.len() == events@.len(),
        forall|k: int| 0 <= k < r@.len() ==> is_calendar_event(#[trigger] r@[k], events@[k], pairs_view(table@)),
{
    let mut out: Vec<MarketEvent> = Vec::new();
    let mut i: usize = 0;
    while i < events.len()
        invariant
            i <= events.len(),
            out@.len() == i,
            forall|k: int| 0 <= k < i ==> is_calendar_event(#[trigger] out@[k], events@[k], pairs_view(table@)),
        decreases events.len() - i,
    {
        let ev = calendar_to_event(&events[i], table);
        out.push(ev);
        i = i + 1;
    }
    out
}

/// The symbols of a news item's classifications, uppercased.
pub open spec fn classification_symbols(cls: Seq<NewsClassificationView>) -> Seq<Seq<char>> {
    cls.map_values(|c: NewsClassificationView| uppercase(c.symbol@))
}

/// The dimension codes of a news item's classifications.
pub open spec fn classification_codes(cls: Seq<NewsClassificationView>) -> Seq<Seq<char>> {
    cls.map_values(|c: NewsClassificationView| c.dimension_code@)
}

/// The symbols of a news item's classifications, uppercased, each once.
pub fn news_symbols(cls: &Vec<NewsClassificationView>) -> (r: Vec<String>)
    ensures
        strings_view(r@) == dedup_first(classification_symbols(cls@)),
{
    let ghost cv = classification_symbols(cls@);
    let mut out: Vec<String> = Vec::new();
    let mut i: usize = 0;
    while i < cls.len()
        invariant
            i <= cls.len(),
            cv == classification_symbols(cls@),
            strings_view(out@) == dedup_first(cv.take(i as int)),
        decreases cls.len() - i,
    {
        let u = to_upper(cls[i].symbol.as_str());
        assert(cv.take(i + 1).drop_last() == cv.take(i as int));
        assert(cv.take(i + 1).last() == u@);
        push_unique(&mut out, u);
        i = i + 1;
    }
    assert(cv.take(cls.len() as int) == cv);
    out
}

fn dimension_codes(cls: &Vec<NewsClassificationView>) -> (r: Vec<String>)
    ensures
        strings_view(r@) == classification_codes(cls@),
{
    let mut out: Vec<String> = Vec::new();
    let mut i: usize = 0;
    while i < cls.len()
        invariant
            i <= cls.len(),
            out@.len() == i,
            strings_view(out@) == classification_codes(cls@).take(i as int),
        decreases cls.len() - i,
    {
        let ghost before = out@;
        let c = to_owned_string(cls[i].dimension_code.as_str());
        out.push(c);
        assert forall|j: int| 0 <= j < i implies #[trigger] strings_view(out@)[j] == classification_codes(cls@)[j] by {
            assert(out@[j] == before[j]);
            assert(strings_view(before)[j] == classification_codes(cls@).take(i as int)[j]);
        }
        assert(strings_view(out@) =~= classification_codes(cls@).take(i + 1));
        i = i + 1;
    }
    assert(classification_codes(cls@).take(cls.len() as int) =~= classification_codes(cls@));
    out
}

/// What the event made of a news item holds: a fresh identifier when the item has none,
/// and a creation time that is a UTC timestamp of the clock.
pub open spec fn is_news_event(ev: MarketEvent, n: NewsItemView, table: Seq<(Seq<char>, Seq<char>)>) -> bool {
    &&& (n.id@.len() > 0 ==> ev.id@ == n.id@)
    &&& (n.id@.len() == 0 ==> uuid_v4_text(ev.id@))
    &&& ev.title@ == n.title@
    &&& ev.source@ == "jin10"@
    &&& ev.source_id is None
    &&& opt_view(ev.source_url) == Some(n.url@)
    &&& ev.display_time@ == n.display_time@
    &&& ev.importance@ == news_importance_spec(n.title@, n.summary@)
    &&& ev.event_type@ == news_event_type_spec(n.title@, n.summary@, classification_codes(n.classifications@))
    &&& strings_view(ev.affected_symbols@) == dedup_first(classification_symbols(n.classifications@))
    &&& strings_view(ev.affected_sectors@) == dedup_first(sectors_found(strings_view(ev.affected_symbols@), table))
    &&& opt_view(ev.direction) == Some(direction_spec(n.title@))
    &&& opt_view(ev.summary) == Some(n.summary@)
    &&& utc_timestamp(ev.created_at@)
}

/// The event of a news item; `table` maps symbols to their sectors.
pub fn news_to_event(n: &NewsItemView, table: &Vec<(String, String)>) -> (r: MarketEvent)
    ensures
        is_news_event(r, *n, pairs_view(table@)),
{
    let symbols = news_symbols(&n.classifications);
    let sectors = sectors_of_symbols(&symbols, table);
    let codes = dimension_codes(&n.classifications);
    let direction = infer_direction(n.title.as_str());
    assert(opt_view(direction) == Some(direction_spec(n.title@)));
    MarketEvent {
        id: event_id_or_fresh(n.id.as_str()),
        title: to_owned_string(n.title.as_str()),
        source: to_owned_string("jin10"),
        source_id: None,
        source_url: Some(to_owned_string(n.url.as_str())),
        display_time: to_owned_string(n.display_time.as_str()),
        importance: infer_news_importance(n.title.as_str(), n.summary.as_str()),
        event_type: infer_news_event_type(n.title.as_str(), n.summary.as_str(), &codes),
        affected_symbols: symbols,
        affected_sectors: sectors,
        direction,
        summary: Some(to_owned_string(n.summary.as_str())),
        created_at: now_rfc3339(),
    }
}

/// The events of news items, one for each, in order.
pub fn news_to_events(news: Vec<NewsItemView>, table: &Vec<(String, String)>) -> (r: Vec<MarketEvent>)
    ensures
        r@.len() == news@.len(),
        forall|k: int| 0 <= k < r@.len() ==> is_news_event(#[trigger] r@[k], news@[k], pairs_view(table@)),
{
    let mut out: Vec<MarketEvent> = Vec::new();
    let mut i: usize = 0;
    while i < news.len()
        invariant
            i <= news.len(),
            out@.len() == i,
            forall|k: int| 0 <= k < i ==> is_news_event(#[trigger] out@[k], news@[k], pairs_view(table@)),
        decreases news.len() - i,
    {
        let ev = news_to_event(&news[i], table);
        out.push(ev);
        i = i + 1;
    }
    out
}

} // verus!
