//! Answering an event-stream query: the matching events, newest first, cut to the
//! page size, with a count per source.
use vstd::prelude::*;

use crate::config::opt_str_view;
use crate::events::{event_matches, event_matches_spec, MarketEvent, MarketEventQuery};
use crate::news::{NewsItem, NewsItemView};
use crate::text::{opt_view, str_eq, strings_view, to_owned_string};
use crate::time::{parse_dt, parse_dt_spec};

verus! {

/// Whether an event meets the query, `symbol` being the caller's symbol filter.
pub open spec fn meets_query(e: MarketEvent, q: MarketEventQuery, symbol: Option<Seq<char>>) -> bool {
    event_matches_spec(
        e.source@,
        e.title@,
        e.affected_symbols@.map_values(|s: String| s@),
        strings_view(e.affected_sectors@),
        e.importance@,
        e.event_type@,
        e.display_time@,
        opt_view(q.source),
        opt_view(q.sector),
        opt_view(q.importance),
        opt_view(q.event_type),
        opt_view(q.start),
        opt_view(q.end),
        symbol,
    )
}

/// The events that meet the query, in order.
pub open spec fn matching_events(s: Seq<MarketEvent>, q: MarketEventQuery, symbol: Option<Seq<char>>) -> Seq<MarketEvent>
    decreases s.len(),
{
    if s.len() == 0 {
        Seq::<MarketEvent>::empty()
    } else {
        let prev = matching_events(s.drop_last(), q, symbol);
        if meets_query(s.last(), q, symbol) {
            prev.push(s.last())
        } else {
            prev
        }
    }
}

/// The instant an event's display time denotes, if it parses.
pub open spec fn time_key(e: MarketEvent) -> Option<int> {
    parse_dt_spec(e.display_time@)
}

/// `a` comes strictly before `b` in time, a time that does not parse before all.
pub open spec fn key_lt(a: Option<int>, b: Option<int>) -> bool {
    match (a, b) {
        (None, Some(_)) => true,
        (Some(x), Some(y)) => x < y,
        _ => false,
    }
}

/// `e` placed into `sorted` after every event that is not older than it.
pub open spec fn insert_newest(sorted: Seq<MarketEvent>, e: MarketEvent) -> Seq<MarketEvent>
    decreases sorted.len(),
{
    if sorted.len() == 0 {
        seq![e]
    } else if !key_lt(time_key(sorted.last()), time_key(e)) {
        sorted.push(e)
    } else {
        insert_newest(sorted.drop_last(), e).push(sorted.last())
    }
}

/// The stable sort of events, newest first; events whose time does not parse last.
pub open spec fn sort_newest_first(s: Seq<MarketEvent>) -> Seq<MarketEvent>
    decreases s.len(),
{
    if s.len() == 0 {
        Seq::<MarketEvent>::empty()
    } else {
        insert_newest(sort_newest_first(s.drop_last()), s.last())
    }
}

/// The page size of a query: its limit (50 when absent) brought into 1–200.
pub open spec fn page_size(limit: Option<i64>) -> int {
    let l = match limit {
        Some(l) => l as int,
        None => 50,
    };
    if l < 1 {
        1
    } else if l > 200 {
        200
    } else {
        l
    }
}

/// The number of events of each source, sources in order of first appearance.
pub open spec fn source_counts(s: Seq<MarketEvent>) -> Seq<(Seq<char>, int)>
    decreases s.len(),
{
    if s.len() == 0 {
        Seq::<(Seq<char>, int)>::empty()
    } else {
        count_source(source_counts(s.drop_last()), s.last().source@)
    }
}

/// Index of `source` among the counted sources, or -1.
pub open spec fn count_index(c: Seq<(Seq<char>, int)>, source: Seq<char>) -> int
    decreases c.len(),
{
    if c.len() == 0 {
        -1
    } else {
        let p = count_index(c.drop_last(), source);
        if p >= 0 {
            p
        } else if c.last().0 == source {
            c.len() - 1
        } else {
            -1
        }
    }
}

/// The counts with one more event of `source`.
pub open spec fn count_source(c: Seq<(Seq<char>, int)>, source: Seq<char>) -> Seq<(Seq<char>, int)> {
    let i = count_index(c, source);
    if i >= 0 {
        c.update(i, (source, c[i].1 + 1))
    } else {
        c.push((source, 1))
    }
}

/// The answer to an event-stream query.
#[derive(Clone, Debug)]
pub struct MarketEventListResult {
    pub events: Vec<MarketEvent>,
    pub total: i64,
    pub by_source: Vec<(String, i64)>,
}

/// The page size of a query.
pub fn query_page_size(limit: Option<i64>) -> (r: usize)
    ensures
        r as int == page_size(limit),
{
    let l: i64 = match limit {
        Some(l) => l,
        None => 50,
    };
    if l < 1 {
        1
    } else if l > 200 {
        200
    } else {
        l as usize
    }
}

proof fn lemma_insert_newest_at(sorted: Seq<MarketEvent>, e: MarketEvent, j: int)
    requires
        0 <= j <= sorted.len(),
        forall|k: int| j <= k < sorted.len() ==> key_lt(time_key(#[trigger] sorted[k]), time_key(e)),
        j == 0 || !key_lt(time_key(sorted[j - 1]), time_key(e)),
    ensures
        insert_newest(sorted, e) == sorted.take(j).push(e) + sorted.skip(j),
    decreases sorted.len(),
{
    if sorted.len() == j {
        if j == 0 {
            assert(sorted.take(0).push(e) + sorted.skip(0) =~= seq![e]);
        } else {
            assert(sorted.take(j) == sorted);
            assert(sorted.skip(j) =~= Seq::<MarketEvent>::empty());
        }
    } else {
        let d = sorted.drop_last();
        assert(key_lt(time_key(sorted[sorted.len() - 1]), time_key(e)));
        lemma_insert_newest_at(d, e, j);
        assert(d.take(j) == sorted.take(j));
        assert(d.skip(j).push(sorted.last()) =~= sorted.skip(j));
        assert((d.take(j).push(e) + d.skip(j)).push(sorted.last()) =~= sorted.take(j).push(e) + sorted.skip(j));
    }
}

fn time_of(e: &MarketEvent) -> (r: Option<i64>)
    ensures
        match r {
            Some(t) => time_key(*e) == Some(t as int),
            None => time_key(*e) is None,
        },
{
    parse_dt(e.display_time.as_str())
}

fn older(a: Option<i64>, b: Option<i64>) -> (r: bool)
    ensures
        r == key_lt(
            match a {
                Some(x) => Some(x as int),
                None => None,
            },
            match b {
                Some(x) => Some(x as int),
                None => None,
            },
        ),
{
    match (a, b) {
        (None, Some(_)) => true,
        (Some(x), Some(y)) => x < y,
        _ => false,
    }
}

fn insert_newest_exec(sorted: &mut Vec<MarketEvent>, e: MarketEvent)
    ensures
        final(sorted)@ == insert_newest(old(sorted)@, e),
{
    let et = time_of(&e);
    let mut j = sorted.len();
    let ghost sv = sorted@;
    while j > 0 && older(time_of(&sorted[j - 1]), et)
        invariant
            j <= sorted.len(),
            sv == sorted@,
            forall|k: int| j <= k < sv.len() ==> key_lt(time_key(#[trigger] sv[k]), time_key(e)),
            match et {
                Some(t) => time_key(e) == Some(t as int),
                None => time_key(e) is None,
            },
        decreases j,
    {
        j = j - 1;
    }
    proof {
        lemma_insert_newest_at(sv, e, j as int);
    }
    sorted.insert(j, e);
    assert(sorted@ =~= sv.take(j as int).push(e) + sv.skip(j as int));
}

fn find_count(c: &Vec<(String, i64)>, source: &str) -> (r: Option<usize>)
    ensures
        match r {
            Some(k) => k < c.len() && k as int == count_index(
                c@.map_values(|p: (String, i64)| (p.0@, p.1 as int)),
                source@,
            ),
            None => count_index(c@.map_values(|p: (String, i64)| (p.0@, p.1 as int)), source@) < 0,
        },
{
    let ghost cv = c@.map_values(|p: (String, i64)| (p.0@, p.1 as int));
    let mut i: usize = 0;
    while i < c.len()
        invariant
            i <= c.len(),
            cv == c@.map_values(|p: (String, i64)| (p.0@, p.1 as int)),
            forall|j: int| 0 <= j < i ==> (#[trigger] cv[j]).0 != source@,
        decreases c.len() - i,
    {
        if str_eq(c[i].0.as_str(), source) {
            assert(cv[i as int].0 == source@);
            proof {
                lemma_count_index(cv, source@);
            }
            return Some(i);
        }
        i = i + 1;
    }
    proof {
        lemma_count_index(cv, source@);
    }
    None
}

proof fn lemma_count_index(c: Seq<(Seq<char>, int)>, source: Seq<char>)
    ensures
        -1 <= count_index(c, source) < c.len(),
        count_index(c, source) >= 0 ==> c[count_index(c, source)].0 == source,
        forall|j: int| 0 <= j < c.len() && (#[trigger] c[j]).0 == source ==> 0 <= count_index(c, source) <= j,
    decreases c.len(),
{
    if c.len() > 0 {
        let d = c.drop_last();
        lemma_count_index(d, source);
        assert forall|j: int| 0 <= j < c.len() && (#[trigger] c[j]).0 == source implies 0 <= count_index(c, source) <= j by {
            if j < c.len() - 1 {
                assert(d[j] == c[j]);
            }
        }
        if count_index(d, source) >= 0 {
            assert(d[count_index(d, source)] == c[count_index(d, source)]);
        }
    }
}

/// The counts never exceed the number of events counted.
proof fn lemma_counts_bounded(s: Seq<MarketEvent>)
    ensures
        forall|k: int| 0 <= k < source_counts(s).len() ==> 1 <= (#[trigger] source_counts(s)[k]).1 <= s.len(),
        source_counts(s).len() <= s.len(),
    decreases s.len(),
{
    if s.len() > 0 {
        lemma_counts_bounded(s.drop_last());
        lemma_count_index(source_counts(s.drop_last()), s.last().source@);
    }
}

fn count_sources(events: &Vec<MarketEvent>) -> (r: Vec<(String, i64)>)
    requires
        events@.len() <= i64::MAX,
    ensures
        r@.map_values(|p: (String, i64)| (p.0@, p.1 as int)) == source_counts(events@),
{
    let mut out: Vec<(String, i64)> = Vec::new();
    let mut i: usize = 0;
    while i < events.len()
        invariant
            i <= events.len() <= i64::MAX,
            out@.map_values(|p: (String, i64)| (p.0@, p.1 as int)) == source_counts(events@.take(i as int)),
        decreases events.len() - i,
    {
        let ghost t = events@.take(i as int);
        assert(events@.take(i + 1).drop_last() == t);
        assert(events@.take(i + 1).last() == events@[i as int]);
        proof {
            lemma_counts_bounded(t);
        }
        let ghost before = out@.map_values(|p: (String, i64)| (p.0@, p.1 as int));
        let src = events[i].source.as_str();
        match find_count(&out, src) {
            Some(k) => {
                let n = out[k].1;
                assert(before[k as int].1 == n as int);
                assert(n as int <= t.len());
                let name = to_owned_string(out[k].0.as_str());
                proof {
                    lemma_count_index(before, src@);
                }
                out.set(k, (name, n + 1));
                assert(out@.map_values(|p: (String, i64)| (p.0@, p.1 as int)) =~= before.update(
                    k as int,
                    (src@, before[k as int].1 + 1),
                ));
            },
            None => {
                out.push((to_owned_string(src), 1));
                assert(out@.map_values(|p: (String, i64)| (p.0@, p.1 as int)) =~= before.push((src@, 1)));
            },
        }
        i = i + 1;
    }
    assert(events@.take(events.len() as int) == events@);
    out
}

/// The first `n` events (all of them when fewer).
pub open spec fn first_events(s: Seq<MarketEvent>, n: int) -> Seq<MarketEvent> {
    if s.len() <= n {
        s
    } else {
        s.take(n)
    }
}

/// Answers a query over the gathered events: the events that meet it (see
/// `event_matches`), newest first (stably; times that do not parse last), cut to the
/// page size; the number that met it; and how many of the page come from each source.
pub fn list_events(events: Vec<MarketEvent>, query: &MarketEventQuery, symbol_filter: Option<&str>) -> (r:
    MarketEventListResult)
    requires
        events@.len() <= i64::MAX,
    ensures
        r.events@ == first_events(
            sort_newest_first(matching_events(events@, *query, opt_str_view(symbol_filter))),
            page_size(query.limit),
        ),
        r.total as int == matching_events(events@, *query, opt_str_view(symbol_filter)).len(),
        r.by_source@.map_values(|p: (String, i64)| (p.0@, p.1 as int)) == source_counts(r.events@),
{
    let limit = query_page_size(query.limit);
    let ghost all = events@;
    let ghost sym = opt_str_view(symbol_filter);
    let mut rest = events;
    let mut kept: Vec<MarketEvent> = Vec::new();
    let mut i: usize = 0;
    let n = rest.len();
    while rest.len() > 0
        invariant
            i + rest.len() == n,
            n == all.len(),
            sym == opt_str_view(symbol_filter),
            rest@ == all.skip(i as int),
            kept@ == sort_newest_first(matching_events(all.take(i as int), *query, sym)),
            matching_events(all.take(i as int), *query, sym).len() <= i,
        decreases rest.len(),
    {
        let ghost old_rest = rest@;
        let e = rest.remove(0);
        assert(all.take(i + 1).drop_last() == all.take(i as int));
        assert(all.take(i + 1).last() == e) by {
            assert(old_rest[0] == e);
            assert(all.skip(i as int)[0] == all[i as int]);
        }
        assert(rest@ == all.skip(i + 1)) by {
            assert(rest@ =~= old_rest.subrange(1, old_rest.len() as int));
            assert(all.skip(i + 1) =~= all.skip(i as int).subrange(1, all.skip(i as int).len() as int));
        }
        let ghost prev = matching_events(all.take(i as int), *query, sym);
        if event_matches(&e, query, symbol_filter) {
            assert(prev.push(e).drop_last() == prev);
            insert_newest_exec(&mut kept, e);
        }
        i = i + 1;
    }
    assert(all.take(n as int) == all);
    proof {
        lemma_sort_len(matching_events(all, *query, sym));
    }
    let total = kept.len();
    kept.truncate(limit);
    let by_source = count_sources(&kept);
    MarketEventListResult { events: kept, total: total as i64, by_source }
}

/// Sorting keeps the number of events.
proof fn lemma_sort_len(s: Seq<MarketEvent>)
    ensures
        sort_newest_first(s).len() == s.len(),
    decreases s.len(),
{
    if s.len() > 0 {
        lemma_sort_len(s.drop_last());
        lemma_insert_len(sort_newest_first(s.drop_last()), s.last());
    }
}

proof fn lemma_insert_len(sorted: Seq<MarketEvent>, e: MarketEvent)
    ensures
        insert_newest(sorted, e).len() == sorted.len() + 1,
    decreases sorted.len(),
{
    if sorted.len() > 0 {
        lemma_insert_len(sorted.drop_last(), e);
    }
}

/// A feed item as a stored news record: no id and no classifications yet.
pub fn news_view_of(item: &NewsItem) -> (r: NewsItemView)
    ensures
        r.id@ == Seq::<char>::empty(),
        r.title@ == item.title@,
        r.summary@ == item.summary@,
        r.source@ == item.source@,
        r.category_id == item.category_id,
        r.display_time@ == item.display_time@,
        r.url@ == item.url@,
        r.classifications@.len() == 0,
{
    NewsItemView {
        id: String::new(),
        source: to_owned_string(item.source.as_str()),
        category_id: item.category_id,
        title: to_owned_string(item.title.as_str()),
        summary: to_owned_string(item.summary.as_str()),
        url: to_owned_string(item.url.as_str()),
        display_time: to_owned_string(item.display_time.as_str()),
        classifications: Vec::new(),
    }
}

// ---------------------------------------------------------------------------
// What an answered query is
// ---------------------------------------------------------------------------

/// Events newest first (events whose time does not parse come last).
pub open spec fn newest_first_order(s: Seq<MarketEvent>) -> bool {
    forall|i: int, j: int| 0 <= i < j < s.len() ==> !key_lt(time_key(#[trigger] s[i]), time_key(#[trigger] s[j]))
}

proof fn lemma_push_contains(s: Seq<MarketEvent>, a: MarketEvent)
    ensures
        forall|x: MarketEvent| #[trigger] s.push(a).contains(x) <==> (s.contains(x) || x == a),
{
    assert forall|x: MarketEvent| #[trigger] s.push(a).contains(x) <==> (s.contains(x) || x == a) by {
        if s.push(a).contains(x) {
            let k = choose|k: int| 0 <= k < s.push(a).len() && s.push(a)[k] == x;
            if k < s.len() {
                assert(s[k] == x);
            }
        }
        if s.contains(x) {
            let k = choose|k: int| 0 <= k < s.len() && s[k] == x;
            assert(s.push(a)[k] == x);
        }
        if x == a {
            assert(s.push(a)[s.len() as int] == x);
        }
    }
}

proof fn lemma_insert_newest(sorted: Seq<MarketEvent>, e: MarketEvent)
    requires
        newest_first_order(sorted),
    ensures
        newest_first_order(insert_newest(sorted, e)),
        forall|x: MarketEvent| #[trigger] insert_newest(sorted, e).contains(x) <==> (sorted.contains(x) || x == e),
    decreases sorted.len(),
{
    let ins = insert_newest(sorted, e);
    if sorted.len() == 0 {
        lemma_push_contains(sorted, e);
        assert(ins == sorted.push(e));
    } else if !key_lt(time_key(sorted.last()), time_key(e)) {
        lemma_push_contains(sorted, e);
        assert forall|i: int, j: int| 0 <= i < j < ins.len() implies !key_lt(time_key(#[trigger] ins[i]), time_key(#[trigger] ins[j])) by {
            if j == sorted.len() && i < sorted.len() - 1 {
                assert(!key_lt(time_key(sorted[i]), time_key(sorted[sorted.len() - 1])));
            }
        }
    } else {
        let d = sorted.drop_last();
        let l = sorted.last();
        assert(newest_first_order(d)) by {
            assert forall|i: int, j: int| 0 <= i < j < d.len() implies !key_lt(time_key(#[trigger] d[i]), time_key(#[trigger] d[j])) by {
                assert(d[i] == sorted[i] && d[j] == sorted[j]);
            }
        }
        lemma_insert_newest(d, e);
        let m = insert_newest(d, e);
        assert(ins == m.push(l));
        lemma_push_contains(m, l);
        lemma_push_contains(d, l);
        assert(d.push(l) == sorted);
        assert forall|i: int, j: int| 0 <= i < j < ins.len() implies !key_lt(time_key(#[trigger] ins[i]), time_key(#[trigger] ins[j])) by {
            if j == m.len() {
                assert(m.contains(m[i]));
                if m[i] != e {
                    let k = choose|k: int| 0 <= k < d.len() && d[k] == m[i];
                    assert(sorted[k] == d[k]);
                    assert(sorted[sorted.len() - 1] == l);
                }
            } else {
                assert(ins[i] == m[i] && ins[j] == m[j]);
            }
        }
    }
}

/// Sorting puts events newest first and keeps its members.
pub proof fn lemma_sort_newest_first(s: Seq<MarketEvent>)
    ensures
        newest_first_order(sort_newest_first(s)),
        forall|x: MarketEvent| #[trigger] sort_newest_first(s).contains(x) <==> s.contains(x),
    decreases s.len(),
{
    if s.len() > 0 {
        let d = s.drop_last();
        lemma_sort_newest_first(d);
        lemma_insert_newest(sort_newest_first(d), s.last());
        lemma_push_contains(d, s.last());
        assert(d.push(s.last()) == s);
    }
}

proof fn lemma_matching_events(s: Seq<MarketEvent>, q: MarketEventQuery, symbol: Option<Seq<char>>)
    ensures
        forall|x: MarketEvent| #[trigger] matching_events(s, q, symbol).contains(x) ==> s.contains(x) && meets_query(x, q, symbol),
    decreases s.len(),
{
    if s.len() > 0 {
        let d = s.drop_last();
        lemma_matching_events(d, q, symbol);
        lemma_push_contains(d, s.last());
        assert(d.push(s.last()) == s);
        lemma_push_contains(matching_events(d, q, symbol), s.last());
    }
}

/// The page of an answered query is newest first, no longer than the page size nor
/// than the number of matching events, and holds only gathered events that meet the
/// query.
pub proof fn law_event_page(events: Seq<MarketEvent>, q: MarketEventQuery, symbol: Option<Seq<char>>)
    ensures
        ({
            let m = matching_events(events, q, symbol);
            let page = first_events(sort_newest_first(m), page_size(q.limit));
            &&& newest_first_order(page)
            &&& page.len() <= page_size(q.limit)
            &&& page.len() <= m.len()
            &&& forall|k: int| 0 <= k < page.len() ==> events.contains(#[trigger] page[k]) && meets_query(page[k], q, symbol)
        }),
{
    let m = matching_events(events, q, symbol);
    let sorted = sort_newest_first(m);
    let page = first_events(sorted, page_size(q.limit));
    lemma_sort_newest_first(m);
    lemma_sort_len(m);
    lemma_matching_events(events, q, symbol);
    assert forall|k: int| 0 <= k < page.len() implies events.contains(#[trigger] page[k]) && meets_query(page[k], q, symbol) by {
        assert(page[k] == sorted[k]);
        assert(sorted.contains(sorted[k]));
    }
    assert forall|i: int, j: int| 0 <= i < j < page.len() implies !key_lt(time_key(#[trigger] page[i]), time_key(#[trigger] page[j])) by {
        assert(page[i] == sorted[i] && page[j] == sorted[j]);
    }
}

} // verus!
