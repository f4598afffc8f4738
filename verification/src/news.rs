//! News items: the records of the flash-news feed, their classifications, and
//! how feed items are read, chosen for a symbol and merged with their labels.
use vstd::prelude::*;

use crate::calendar::{chars_le, lex_le};
use crate::crypto::utf8_len;
use crate::json::{value_get, JsonValue};
use crate::text::{
    append_str, chars_of, contains_any, contains_seq, join_space, str_contains, str_eq, string_from_range,
    strings_view, to_owned_string,
};
use vstd::string::StrSliceExecFns;

verus! {

/// An item of the flash-news feed.
#[derive(Clone, Debug)]
pub struct NewsItem {
    pub title: String,
    pub summary: String,
    pub source: String,
    pub category_id: Option<i64>,
    pub display_time: String,
    pub url: String,
}

// ---------------------------------------------------------------------------
// Reading feed items
// ---------------------------------------------------------------------------

/// The text of an optional value when it is a string.
pub open spec fn str_of(v: Option<JsonValue>) -> Option<Seq<char>> {
    match v {
        Some(JsonValue::Str(s)) => Some(s@),
        _ => None,
    }
}

/// The text of an optional value when it is a string, else empty.
pub open spec fn str_or_empty(v: Option<JsonValue>) -> Seq<char> {
    match str_of(v) {
        Some(s) => s,
        None => Seq::<char>::empty(),
    }
}

/// Member `key` of the item's `data` object.
pub open spec fn data_member(raw: JsonValue, key: Seq<char>) -> Option<JsonValue> {
    match value_get(raw, "data"@) {
        Some(d) => value_get(d, key),
        None => None,
    }
}

/// The string elements of an array, in order.
pub open spec fn strings_in(items: Seq<JsonValue>) -> Seq<Seq<char>>
    decreases items.len(),
{
    if items.len() == 0 {
        Seq::<Seq<char>>::empty()
    } else {
        let prev = strings_in(items.drop_last());
        match items.last() {
            JsonValue::Str(s) => prev.push(s@),
            _ => prev,
        }
    }
}

/// The bullet points of an item: the strings of its `data.list`.
pub open spec fn bullets_spec(raw: JsonValue) -> Seq<Seq<char>> {
    match data_member(raw, "list"@) {
        Some(JsonValue::Array(a)) => strings_in(a@),
        _ => Seq::<Seq<char>>::empty(),
    }
}

/// Parts joined by `；`.
pub open spec fn join_semicolon(parts: Seq<Seq<char>>) -> Seq<char>
    decreases parts.len(),
{
    if parts.len() == 0 {
        Seq::<char>::empty()
    } else if parts.len() == 1 {
        parts[0]
    } else {
        join_semicolon(parts.drop_last()) + seq!['；'] + parts.last()
    }
}

/// The description of an item: `data.desc`; the first bullet when that is empty;
/// the first three bullets joined by `；` when it is shorter than 80 bytes.
pub open spec fn item_desc(raw: JsonValue) -> Seq<char> {
    let desc = str_or_empty(data_member(raw, "desc"@));
    let b = bullets_spec(raw);
    if desc.len() == 0 && b.len() > 0 {
        b[0]
    } else if b.len() > 0 && utf8_len(desc) < 80 {
        join_semicolon(if b.len() <= 3 { b } else { b.take(3) })
    } else {
        desc
    }
}

/// The first `n` characters of `s` (all of it when shorter).
pub open spec fn first_chars(s: Seq<char>, n: int) -> Seq<char> {
    if s.len() <= n {
        s
    } else {
        s.take(n)
    }
}

/// Whether `item` is what the feed's record `raw` of category `category_id` gives.
pub open spec fn is_item_of(item: NewsItem, raw: JsonValue, category_id: i64) -> bool {
    &&& item.title@ == str_or_empty(value_get(raw, "title"@))
    &&& item.summary@ == first_chars(item_desc(raw), 500)
    &&& item.source@ == "jin10"@
    &&& item.category_id == Some(category_id)
    &&& item.display_time@ == str_or_empty(value_get(raw, "display_time"@))
    &&& item.url@ == str_or_empty(data_member(raw, "url"@))
}

fn str_member(v: Option<&JsonValue>) -> (r: String)
    ensures
        r@ == str_or_empty(match v {
            Some(x) => Some(*x),
            None => None,
        }),
{
    match v {
        Some(x) => match x.as_str() {
            Some(s) => to_owned_string(s),
            None => String::new(),
        },
        None => String::new(),
    }
}

fn data_get<'a>(raw: &'a JsonValue, key: &str) -> (r: Option<&'a JsonValue>)
    ensures
        match r {
            Some(v) => data_member(*raw, key@) == Some(*v),
            None => data_member(*raw, key@) is None,
        },
{
    match raw.get("data") {
        Some(d) => d.get(key),
        None => None,
    }
}

fn bullet_strings(raw: &JsonValue) -> (r: Vec<String>)
    ensures
        strings_view(r@) == bullets_spec(*raw),
{
    let mut out: Vec<String> = Vec::new();
    match data_get(raw, "list") {
        Some(JsonValue::Array(a)) => {
            let mut i: usize = 0;
            while i < a.len()
                invariant
                    i <= a.len(),
                    strings_view(out@) == strings_in(a@.take(i as int)),
                decreases a.len() - i,
            {
                assert(a@.take(i + 1).drop_last() == a@.take(i as int));
                assert(a@.take(i + 1).last() == a@[i as int]);
                match &a[i] {
                    JsonValue::Str(s) => {
                        let ghost before = out@;
                        out.push(to_owned_string(s.as_str()));
                        assert(strings_view(out@) =~= strings_view(before).push(s@));
                    },
                    _ => {},
                }
                i = i + 1;
            }
            assert(a@.take(a.len() as int) == a@);
        },
        _ => {},
    }
    out
}

fn join_bullets(b: &Vec<String>, n: usize) -> (r: String)
    requires
        1 <= n <= b.len(),
    ensures
        r@ == join_semicolon(strings_view(b@).take(n as int)),
{
    let ghost bv = strings_view(b@);
    let mut out = to_owned_string(b[0].as_str());
    let mut i: usize = 1;
    assert(bv.take(1).drop_last() =~= Seq::<Seq<char>>::empty());
    while i < n
        invariant
            1 <= i <= n <= b.len(),
            bv == strings_view(b@),
            out@ == join_semicolon(bv.take(i as int)),
        decreases n - i,
    {
        assert(bv.take(i + 1).drop_last() == bv.take(i as int));
        append_str(&mut out, "；");
        append_str(&mut out, b[i].as_str());
        proof {
            reveal_strlit("；");
        }
        assert(out@ =~= join_semicolon(bv.take(i as int)) + seq!['；'] + bv[i as int]);
        i = i + 1;
    }
    out
}

/// Reads one record of the flash-news feed (category `category_id`).
pub fn parse_item(raw: &JsonValue, category_id: i64) -> (r: NewsItem)
    ensures
        is_item_of(r, *raw, category_id),
{
    let desc0 = str_member(data_get(raw, "desc"));
    let bullets = bullet_strings(raw);
    let ghost bv = strings_view(bullets@);
    let dcs = chars_of(desc0.as_str());
    let desc = if dcs.len() == 0 && bullets.len() > 0 {
        to_owned_string(bullets[0].as_str())
    } else if bullets.len() > 0 && crate::crypto::utf8_len_capped(&dcs, 0, dcs.len(), 80) < 80 {
        assert(dcs@.subrange(0, dcs@.len() as int) == dcs@);
        let n = if bullets.len() <= 3 { bullets.len() } else { 3 };
        assert(bullets.len() <= 3 ==> bv.take(n as int) == bv);
        join_bullets(&bullets, n)
    } else {
        assert(dcs@.subrange(0, dcs@.len() as int) == dcs@);
        desc0
    };
    let cs = chars_of(desc.as_str());
    let cut = if cs.len() <= 500 { cs.len() } else { 500 };
    let summary = string_from_range(&cs, 0, cut);
    assert(cs@.len() <= 500 ==> cs@.subrange(0, cut as int) == cs@);
    NewsItem {
        title: str_member(raw.get("title")),
        summary,
        source: to_owned_string("jin10"),
        category_id: Some(category_id),
        display_time: str_member(raw.get("display_time")),
        url: str_member(data_get(raw, "url")),
    }
}

/// Whether some keyword occurs in `title summary`.
pub open spec fn matches_keywords_spec(title: Seq<char>, summary: Seq<char>, keywords: Seq<Seq<char>>) -> bool {
    contains_any(title + seq![' '] + summary, keywords)
}

/// Whether a keyword occurs in an item's title or summary.
pub fn match_keywords(item: &NewsItem, keywords: &[String]) -> (r: bool)
    ensures
        r == matches_keywords_spec(item.title@, item.summary@, keywords@.map_values(|s: String| s@)),
{
    let text = join_space(item.title.as_str(), item.summary.as_str());
    let ghost kv = keywords@.map_values(|s: String| s@);
    let mut j: usize = 0;
    while j < keywords.len()
        invariant
            j <= keywords.len(),
            kv == keywords@.map_values(|s: String| s@),
            text@ == item.title@ + seq![' '] + item.summary@,
            forall|k: int| 0 <= k < j ==> !contains_seq(text@, #[trigger] kv[k]),
        decreases keywords.len() - j,
    {
        if str_contains(text.as_str(), keywords[j].as_str()) {
            assert(contains_seq(text@, kv[j as int]));
            return true;
        }
        j = j + 1;
    }
    false
}

/// One classification of a news item: the symbol and the dimension it bears on.
/// The confidence is carried as the bit pattern of its `f32`.
#[derive(Clone, Debug)]
pub struct NewsClassificationView {
    pub symbol: String,
    pub dimension_code: String,
    pub dimension_label: String,
    pub confidence_bits: u32,
    pub method: String,
}

/// A stored news item with its classifications.
#[derive(Clone, Debug)]
pub struct NewsItemView {
    pub id: String,
    pub source: String,
    pub category_id: Option<i64>,
    pub title: String,
    pub summary: String,
    pub url: String,
    pub display_time: String,
    pub classifications: Vec<NewsClassificationView>,
}


/// An item as text: title, summary, source, category, display time, url.
pub open spec fn item_text(i: NewsItem) -> (Seq<char>, Seq<char>, Seq<char>, Option<i64>, Seq<char>, Seq<char>) {
    (i.title@, i.summary@, i.source@, i.category_id, i.display_time@, i.url@)
}

/// The texts of items.
pub open spec fn item_texts(items: Seq<NewsItem>) -> Seq<(Seq<char>, Seq<char>, Seq<char>, Option<i64>, Seq<char>, Seq<char>)> {
    items.map_values(|i: NewsItem| item_text(i))
}

/// Whether a feed page answered with status 200.
pub open spec fn page_ok(payload: JsonValue) -> bool {
    match value_get(payload, "status"@) {
        Some(JsonValue::Number(n)) => n.as_i64 == Some(200i64),
        _ => false,
    }
}

/// The records that have a title, in order.
pub open spec fn titled(raws: Seq<JsonValue>) -> Seq<JsonValue>
    decreases raws.len(),
{
    if raws.len() == 0 {
        Seq::<JsonValue>::empty()
    } else {
        let p = titled(raws.drop_last());
        if str_or_empty(value_get(raws.last(), "title"@)).len() > 0 {
            p.push(raws.last())
        } else {
            p
        }
    }
}

/// The records of a feed page that become items: those with a title in its `data`
/// array, when the page's status is 200.
pub open spec fn page_records(payload: JsonValue) -> Seq<JsonValue> {
    if page_ok(payload) {
        match value_get(payload, "data"@) {
            Some(JsonValue::Array(a)) => titled(a@),
            _ => Seq::<JsonValue>::empty(),
        }
    } else {
        Seq::<JsonValue>::empty()
    }
}

/// Whether a feed page answered with status 200.
pub fn page_status_ok(payload: &JsonValue) -> (r: bool)
    ensures
        r == page_ok(*payload),
{
    match payload.get("status") {
        Some(JsonValue::Number(n)) => match n.as_i64 {
            Some(v) => v == 200,
            None => false,
        },
        _ => false,
    }
}

/// The items of a feed page of category `category_id`.
pub fn parse_category_page(payload: &JsonValue, category_id: i64) -> (r: Vec<NewsItem>)
    ensures
        r@.len() == page_records(*payload).len(),
        forall|k: int| 0 <= k < r@.len() ==> is_item_of(#[trigger] r@[k], page_records(*payload)[k], category_id),
{
    let mut out: Vec<NewsItem> = Vec::new();
    if !page_status_ok(payload) {
        return out;
    }
    match payload.get("data") {
        Some(JsonValue::Array(a)) => {
            let mut i: usize = 0;
            while i < a.len()
                invariant
                    i <= a.len(),
                    out@.len() == titled(a@.take(i as int)).len(),
                    forall|k: int| 0 <= k < out@.len() ==> is_item_of(#[trigger] out@[k], titled(a@.take(i as int))[k], category_id),
                decreases a.len() - i,
            {
                assert(a@.take(i + 1).drop_last() == a@.take(i as int));
                assert(a@.take(i + 1).last() == a@[i as int]);
                let item = parse_item(&a[i], category_id);
                if item.title.as_str().unicode_len() > 0 {
                    out.push(item);
                }
                i = i + 1;
            }
            assert(a@.take(a.len() as int) == a@);
        },
        _ => {},
    }
    out
}

/// Whether a keyword occurs in `title summary` (on texts).
pub open spec fn text_matches(t: (Seq<char>, Seq<char>, Seq<char>, Option<i64>, Seq<char>, Seq<char>), kw: Seq<Seq<char>>) -> bool {
    matches_keywords_spec(t.0, t.1, kw)
}

/// The titles of item texts.
pub open spec fn titles_of(items: Seq<(Seq<char>, Seq<char>, Seq<char>, Option<i64>, Seq<char>, Seq<char>)>) -> Seq<Seq<char>> {
    items.map_values(|t: (Seq<char>, Seq<char>, Seq<char>, Option<i64>, Seq<char>, Seq<char>)| t.0)
}

/// Goes through a batch in order, skipping items whose title is already taken,
/// taking those that match a keyword, and stopping once `limit` items are taken.
pub open spec fn take_matching_spec(
    taken: Seq<(Seq<char>, Seq<char>, Seq<char>, Option<i64>, Seq<char>, Seq<char>)>,
    batch: Seq<(Seq<char>, Seq<char>, Seq<char>, Option<i64>, Seq<char>, Seq<char>)>,
    kw: Seq<Seq<char>>,
    limit: int,
) -> Seq<(Seq<char>, Seq<char>, Seq<char>, Option<i64>, Seq<char>, Seq<char>)>
    decreases batch.len(),
{
    if batch.len() == 0 {
        taken
    } else if titles_of(taken).contains(batch[0].0) {
        take_matching_spec(taken, batch.drop_first(), kw, limit)
    } else {
        let next = if text_matches(batch[0], kw) {
            taken.push(batch[0])
        } else {
            taken
        };
        if next.len() >= limit {
            next
        } else {
            take_matching_spec(next, batch.drop_first(), kw, limit)
        }
    }
}

/// Choosing news for a symbol keeps what was taken before, adds only items of the
/// batch that match a keyword, keeps titles distinct, and stops at the limit.
pub proof fn law_take_matching(
    taken: Seq<(Seq<char>, Seq<char>, Seq<char>, Option<i64>, Seq<char>, Seq<char>)>,
    batch: Seq<(Seq<char>, Seq<char>, Seq<char>, Option<i64>, Seq<char>, Seq<char>)>,
    kw: Seq<Seq<char>>,
    limit: int,
)
    ensures
        ({
            let r = take_matching_spec(taken, batch, kw, limit);
            &&& r.len() >= taken.len()
            &&& r.subrange(0, taken.len() as int) == taken
            &&& forall|k: int| taken.len() <= k < r.len() ==> text_matches(#[trigger] r[k], kw) && batch.contains(r[k])
            &&& (titles_of(taken).no_duplicates() ==> titles_of(r).no_duplicates())
            &&& (taken.len() < limit ==> r.len() <= limit)
        }),
    decreases batch.len(),
{
    let r = take_matching_spec(taken, batch, kw, limit);
    if batch.len() == 0 {
        assert(r.subrange(0, taken.len() as int) =~= taken);
    } else {
        let b = batch[0];
        let rest = batch.drop_first();
        assert forall|x: (Seq<char>, Seq<char>, Seq<char>, Option<i64>, Seq<char>, Seq<char>)| rest.contains(x) implies batch.contains(x) by {
            let k = choose|k: int| 0 <= k < rest.len() && rest[k] == x;
            assert(batch[k + 1] == x);
        }
        if titles_of(taken).contains(b.0) {
            law_take_matching(taken, rest, kw, limit);
        } else {
            let next = if text_matches(b, kw) {
                taken.push(b)
            } else {
                taken
            };
            assert(next.subrange(0, taken.len() as int) =~= taken);
            assert(batch.contains(b)) by {
                assert(batch[0] == b);
            }
            if titles_of(taken).no_duplicates() && text_matches(b, kw) {
                assert(titles_of(next) =~= titles_of(taken).push(b.0));
                assert forall|i: int, j: int| 0 <= i < j < titles_of(next).len() implies titles_of(next)[i] != titles_of(next)[j] by {
                    if j == taken.len() {
                        assert(titles_of(taken)[i] == titles_of(next)[i]);
                        assert(titles_of(taken).contains(titles_of(taken)[i]));
                    }
                }
            }
            if next.len() >= limit {
                assert(r == next);
            } else {
                law_take_matching(next, rest, kw, limit);
                let rn = take_matching_spec(next, rest, kw, limit);
                assert(r == rn);
                assert(rn.subrange(0, taken.len() as int) =~= next.subrange(0, taken.len() as int)) by {
                    assert forall|k: int| 0 <= k < taken.len() implies rn[k] == next[k] by {
                        assert(rn.subrange(0, next.len() as int)[k] == next[k]);
                    }
                }
                assert forall|k: int| taken.len() <= k < r.len() implies text_matches(#[trigger] r[k], kw) && batch.contains(r[k]) by {
                    if k < next.len() {
                        assert(rn.subrange(0, next.len() as int)[k] == next[k]);
                        assert(next[k] == b);
                    }
                }
            }
        }
    }
}

fn copy_item(i: &NewsItem) -> (r: NewsItem)
    ensures
        item_text(r) == item_text(*i),
{
    NewsItem {
        title: to_owned_string(i.title.as_str()),
        summary: to_owned_string(i.summary.as_str()),
        source: to_owned_string(i.source.as_str()),
        category_id: i.category_id,
        display_time: to_owned_string(i.display_time.as_str()),
        url: to_owned_string(i.url.as_str()),
    }
}

fn title_taken(taken: &Vec<NewsItem>, title: &str) -> (b: bool)
    ensures
        b == titles_of(item_texts(taken@)).contains(title@),
{
    let ghost tv = titles_of(item_texts(taken@));
    let mut i: usize = 0;
    while i < taken.len()
        invariant
            i <= taken.len(),
            tv == titles_of(item_texts(taken@)),
            forall|j: int| 0 <= j < i ==> #[trigger] tv[j] != title@,
        decreases taken.len() - i,
    {
        if str_eq(taken[i].title.as_str(), title) {
            assert(tv[i as int] == title@);
            return true;
        }
        i = i + 1;
    }
    false
}

/// One batch of the news chosen for a symbol: takes from `batch` the items that
/// match a keyword and whose title is not taken yet, until `limit` are taken.
/// Says whether the limit is reached.
pub fn take_matching(taken: &mut Vec<NewsItem>, batch: &Vec<NewsItem>, keywords: &[String], limit: usize) -> (done: bool)
    ensures
        item_texts(final(taken)@) == take_matching_spec(
            item_texts(old(taken)@),
            item_texts(batch@),
            keywords@.map_values(|s: String| s@),
            limit as int,
        ),
        done == (final(taken)@.len() >= limit),
{
    let ghost kv = keywords@.map_values(|s: String| s@);
    let ghost bv = item_texts(batch@);
    let ghost goal = take_matching_spec(item_texts(taken@), bv, kv, limit as int);
    let mut i: usize = 0;
    assert(bv.skip(0) == bv);
    while i < batch.len()
        invariant_except_break
            i <= batch.len(),
            bv == item_texts(batch@),
            kv == keywords@.map_values(|s: String| s@),
            goal == take_matching_spec(item_texts(taken@), bv.skip(i as int), kv, limit as int),
        ensures
            item_texts(taken@) == goal,
        decreases batch.len() - i,
    {
        let ghost rest = bv.skip(i as int);
        assert(rest[0] == item_text(batch@[i as int]));
        assert(rest.drop_first() == bv.skip(i + 1));
        let item = &batch[i];
        if title_taken(taken, item.title.as_str()) {
            i = i + 1;
        } else {
            let ghost before = taken@;
            if match_keywords(item, keywords) {
                let c = copy_item(item);
                taken.push(c);
                assert(item_texts(taken@) =~= item_texts(before).push(item_text(*item)));
            }
            if taken.len() >= limit {
                break;
            }
            i = i + 1;
        }
    }
    taken.len() >= limit
}

/// The chosen news, at most `limit` of them.
pub fn finish_selection(taken: &mut Vec<NewsItem>, limit: usize)
    ensures
        item_texts(final(taken)@) == if old(taken)@.len() <= limit {
            item_texts(old(taken)@)
        } else {
            item_texts(old(taken)@).take(limit as int)
        },
{
    let ghost before = taken@;
    taken.truncate(limit);
    assert(item_texts(taken@) =~= if before.len() <= limit {
        item_texts(before)
    } else {
        item_texts(before).take(limit as int)
    });
}

// ---------------------------------------------------------------------------
// Merging stored rows
// ---------------------------------------------------------------------------

/// A classification as text.
pub ghost struct ClassificationText {
    pub symbol: Seq<char>,
    pub dimension_code: Seq<char>,
    pub dimension_label: Seq<char>,
    pub confidence_bits: u32,
    pub method: Seq<char>,
}

/// The text of a classification.
pub open spec fn cls_text(c: NewsClassificationView) -> ClassificationText {
    ClassificationText {
        symbol: c.symbol@,
        dimension_code: c.dimension_code@,
        dimension_label: c.dimension_label@,
        confidence_bits: c.confidence_bits,
        method: c.method@,
    }
}

/// The texts of classifications.
pub open spec fn cls_texts(cs: Seq<NewsClassificationView>) -> Seq<ClassificationText> {
    cs.map_values(|c: NewsClassificationView| cls_text(c))
}

/// The fields of a news item other than its classifications.
pub open spec fn news_head(n: NewsItemView) -> (Seq<char>, Seq<char>, Option<i64>, Seq<char>, Seq<char>, Seq<char>, Seq<char>) {
    (n.id@, n.source@, n.category_id, n.title@, n.summary@, n.url@, n.display_time@)
}

/// Whether a classification of this symbol and dimension is among `cs`.
pub open spec fn has_classification(cs: Seq<ClassificationText>, symbol: Seq<char>, code: Seq<char>) -> bool {
    exists|k: int| 0 <= k < cs.len() && (#[trigger] cs[k]).symbol == symbol && cs[k].dimension_code == code
}

/// The classifications that the rows give news item `id`, in row order: those that
/// name a dimension, the first one of each symbol and dimension.
pub open spec fn merged_classes(rows: Seq<(NewsItemView, NewsClassificationView)>, id: Seq<char>) -> Seq<
    ClassificationText,
>
    decreases rows.len(),
{
    if rows.len() == 0 {
        Seq::<ClassificationText>::empty()
    } else {
        let prev = merged_classes(rows.drop_last(), id);
        let c = rows.last().1;
        if rows.last().0.id@ == id && c.dimension_code@.len() > 0 && !has_classification(
            prev,
            c.symbol@,
            c.dimension_code@,
        ) {
            prev.push(cls_text(c))
        } else {
            prev
        }
    }
}

/// The merged classifications of `id` cover every row of `id` that names a dimension:
/// each such row's symbol and dimension appear among them.
proof fn lemma_merged_classes_cover(rows: Seq<(NewsItemView, NewsClassificationView)>, id: Seq<char>)
    ensures
        forall|k: int| 0 <= k < rows.len() && (#[trigger] rows[k]).0.id@ == id && rows[k].1.dimension_code@.len() > 0
            ==> exists|j: int| 0 <= j < merged_classes(rows, id).len()
                && (#[trigger] merged_classes(rows, id)[j]).symbol == rows[k].1.symbol@
                && merged_classes(rows, id)[j].dimension_code == rows[k].1.dimension_code@,
    decreases rows.len(),
{
    if rows.len() > 0 {
        let init = rows.drop_last();
        lemma_merged_classes_cover(init, id);
        let prev = merged_classes(init, id);
        let cur = merged_classes(rows, id);
        assert(prev.len() <= cur.len());
        assert forall|j: int| 0 <= j < prev.len() implies cur[j] == prev[j] by {}
        assert forall|k: int| 0 <= k < rows.len() && (#[trigger] rows[k]).0.id@ == id && rows[k].1.dimension_code@.len() > 0
            implies exists|j: int| 0 <= j < cur.len() && (#[trigger] cur[j]).symbol == rows[k].1.symbol@
                && cur[j].dimension_code == rows[k].1.dimension_code@ by {
            if k < rows.len() - 1 {
                assert(init[k] == rows[k]);
                let j = choose|j: int| 0 <= j < prev.len() && (#[trigger] prev[j]).symbol == init[k].1.symbol@
                    && prev[j].dimension_code == init[k].1.dimension_code@;
                assert(cur[j] == prev[j]);
            } else {
                let c = rows.last().1;
                if has_classification(prev, c.symbol@, c.dimension_code@) {
                    let j = choose|j: int| 0 <= j < prev.len() && (#[trigger] prev[j]).symbol == c.symbol@
                        && prev[j].dimension_code == c.dimension_code@;
                    assert(cur[j] == prev[j]);
                } else {
                    assert(cur[prev.len() as int] == cls_text(c));
                }
            }
        }
    }
}

/// The row that merged classification `j` of `id` comes from: a row of `id` that names
/// a dimension.
proof fn lemma_merged_class_source(rows: Seq<(NewsItemView, NewsClassificationView)>, id: Seq<char>, j: int) -> (k: int)
    requires
        0 <= j < merged_classes(rows, id).len(),
    ensures
        0 <= k < rows.len(),
        rows[k].0.id@ == id,
        rows[k].1.dimension_code@.len() > 0,
        merged_classes(rows, id)[j] == cls_text(rows[k].1),
    decreases rows.len(),
{
    let init = rows.drop_last();
    let prev = merged_classes(init, id);
    if j < prev.len() {
        let k = lemma_merged_class_source(init, id, j);
        assert(rows[k] == init[k]);
        k
    } else {
        (rows.len() - 1) as int
    }
}

/// No symbol and dimension occur twice among the merged classifications of `id`.
proof fn lemma_merged_classes_distinct(rows: Seq<(NewsItemView, NewsClassificationView)>, id: Seq<char>)
    ensures
        forall|i: int, j: int| 0 <= i < j < merged_classes(rows, id).len() ==> !((#[trigger] merged_classes(rows, id)[i]).symbol
            == (#[trigger] merged_classes(rows, id)[j]).symbol && merged_classes(rows, id)[i].dimension_code
            == merged_classes(rows, id)[j].dimension_code),
    decreases rows.len(),
{
    if rows.len() > 0 {
        let init = rows.drop_last();
        lemma_merged_classes_distinct(init, id);
        let prev = merged_classes(init, id);
        let cur = merged_classes(rows, id);
        assert forall|i: int, j: int| 0 <= i < j < cur.len() implies !((#[trigger] cur[i]).symbol == (#[trigger] cur[j]).symbol
            && cur[i].dimension_code == cur[j].dimension_code) by {
            if j >= prev.len() {
                let c = rows.last().1;
                if cur[i].symbol == cur[j].symbol && cur[i].dimension_code == cur[j].dimension_code {
                    assert(prev[i].symbol == c.symbol@ && prev[i].dimension_code == c.dimension_code@);
                    assert(has_classification(prev, c.symbol@, c.dimension_code@));
                }
            } else {
                assert(cur[i] == prev[i] && cur[j] == prev[j]);
            }
        }
    }
}

/// A merged news record holds the classifications of its rows: every row of its id that
/// names a dimension has one with the same symbol and dimension in the record, each
/// classification in the record comes from such a row, and no symbol and dimension
/// occur twice.
pub proof fn law_merged_classifications(g: NewsItemView, rows: Seq<(NewsItemView, NewsClassificationView)>)
    requires
        is_merged_item(g, rows),
    ensures
        forall|k: int| 0 <= k < rows.len() && (#[trigger] rows[k]).0.id@ == g.id@ && rows[k].1.dimension_code@.len() > 0
            ==> exists|j: int| 0 <= j < g.classifications@.len()
                && (#[trigger] g.classifications@[j]).symbol@ == rows[k].1.symbol@
                && g.classifications@[j].dimension_code@ == rows[k].1.dimension_code@,
        forall|j: int| #![trigger g.classifications@[j]] 0 <= j < g.classifications@.len() ==> exists|k: int| 0 <= k < rows.len()
            && (#[trigger] rows[k]).0.id@ == g.id@ && rows[k].1.dimension_code@.len() > 0
            && cls_text(g.classifications@[j]) == cls_text(rows[k].1),
        forall|i: int, j: int| 0 <= i < j < g.classifications@.len() ==> !((#[trigger] g.classifications@[i]).symbol@
            == (#[trigger] g.classifications@[j]).symbol@ && g.classifications@[i].dimension_code@
            == g.classifications@[j].dimension_code@),
{
    let m = merged_classes(rows, g.id@);
    let cs = g.classifications@;
    lemma_merged_classes_cover(rows, g.id@);
    lemma_merged_classes_distinct(rows, g.id@);
    assert(cls_texts(cs) == m);
    assert forall|j: int| 0 <= j < cs.len() implies cls_text(#[trigger] cs[j]) == m[j] by {}
    assert forall|k: int| 0 <= k < rows.len() && (#[trigger] rows[k]).0.id@ == g.id@ && rows[k].1.dimension_code@.len() > 0
        implies exists|j: int| 0 <= j < cs.len() && (#[trigger] cs[j]).symbol@ == rows[k].1.symbol@
            && cs[j].dimension_code@ == rows[k].1.dimension_code@ by {
        let j = choose|j: int| 0 <= j < m.len() && (#[trigger] m[j]).symbol == rows[k].1.symbol@
            && m[j].dimension_code == rows[k].1.dimension_code@;
        assert(cls_text(cs[j]) == m[j]);
    }
    assert forall|j: int| #![trigger cs[j]] 0 <= j < cs.len() implies exists|k: int| 0 <= k < rows.len()
        && (#[trigger] rows[k]).0.id@ == g.id@ && rows[k].1.dimension_code@.len() > 0
        && cls_text(cs[j]) == cls_text(rows[k].1) by {
        assert(cls_text(cs[j]) == m[j]);
        let k = lemma_merged_class_source(rows, g.id@, j);
        assert(rows[k].0.id@ == g.id@);
    }
    assert forall|i: int, j: int| 0 <= i < j < cs.len() implies !((#[trigger] cs[i]).symbol@ == (#[trigger] cs[j]).symbol@
        && cs[i].dimension_code@ == cs[j].dimension_code@) by {
        assert(cls_text(cs[i]) == m[i]);
        assert(cls_text(cs[j]) == m[j]);
    }
}

/// Index of the first row of news item `id`, or -1.
pub open spec fn first_row(rows: Seq<(NewsItemView, NewsClassificationView)>, id: Seq<char>) -> int
    decreases rows.len(),
{
    if rows.len() == 0 {
        -1
    } else {
        let p = first_row(rows.drop_last(), id);
        if p >= 0 {
            p
        } else if rows.last().0.id@ == id {
            rows.len() - 1
        } else {
            -1
        }
    }
}

/// Whether `g` is the merged record of its news id: the fields of the id's first
/// row, with the classifications that the rows give it.
pub open spec fn is_merged_item(g: NewsItemView, rows: Seq<(NewsItemView, NewsClassificationView)>) -> bool {
    let f = first_row(rows, g.id@);
    &&& 0 <= f < rows.len()
    &&& news_head(g) == news_head(rows[f].0)
    &&& cls_texts(g.classifications@) == merged_classes(rows, g.id@)
}

/// Newest first by display time (texts compared as `String::cmp` does).
pub open spec fn newest_first(items: Seq<NewsItemView>) -> bool {
    forall|i: int, j: int| 0 <= i < j < items.len() ==> lex_le(#[trigger] items[j].display_time@, #[trigger] items[i].display_time@)
}

/// The first row of an id is a row of that id, and no earlier row has it.
pub proof fn lemma_first_row(rows: Seq<(NewsItemView, NewsClassificationView)>, id: Seq<char>)
    ensures
        -1 <= first_row(rows, id) < rows.len(),
        first_row(rows, id) >= 0 ==> rows[first_row(rows, id)].0.id@ == id,
        forall|j: int| 0 <= j < rows.len() && #[trigger] rows[j].0.id@ == id ==> 0 <= first_row(rows, id) <= j,
    decreases rows.len(),
{
    if rows.len() > 0 {
        let d = rows.drop_last();
        lemma_first_row(d, id);
        assert forall|j: int| 0 <= j < rows.len() && #[trigger] rows[j].0.id@ == id implies 0 <= first_row(rows, id) <= j by {
            if j < rows.len() - 1 {
                assert(d[j] == rows[j]);
            }
        }
        if first_row(d, id) >= 0 {
            assert(d[first_row(d, id)] == rows[first_row(d, id)]);
        }
    }
}

fn copy_classification(c: &NewsClassificationView) -> (r: NewsClassificationView)
    ensures
        cls_text(r) == cls_text(*c),
{
    NewsClassificationView {
        symbol: to_owned_string(c.symbol.as_str()),
        dimension_code: to_owned_string(c.dimension_code.as_str()),
        dimension_label: to_owned_string(c.dimension_label.as_str()),
        confidence_bits: c.confidence_bits,
        method: to_owned_string(c.method.as_str()),
    }
}

fn has_classification_exec(cs: &Vec<NewsClassificationView>, symbol: &str, code: &str) -> (b: bool)
    ensures
        b == has_classification(cls_texts(cs@), symbol@, code@),
{
    let mut k: usize = 0;
    while k < cs.len()
        invariant
            k <= cs.len(),
            forall|j: int|
                0 <= j < k ==> !((#[trigger] cls_texts(cs@)[j]).symbol == symbol@ && cls_texts(cs@)[j].dimension_code
                    == code@),
        decreases cs.len() - k,
    {
        if str_eq(cs[k].symbol.as_str(), symbol) && str_eq(cs[k].dimension_code.as_str(), code) {
            assert(cls_texts(cs@)[k as int].symbol == symbol@);
            return true;
        }
        k = k + 1;
    }
    false
}

fn merged_classes_exec(rows: &Vec<(NewsItemView, NewsClassificationView)>, id: &str) -> (r: Vec<
    NewsClassificationView,
>)
    ensures
        cls_texts(r@) == merged_classes(rows@, id@),
{
    let mut out: Vec<NewsClassificationView> = Vec::new();
    let mut i: usize = 0;
    while i < rows.len()
        invariant
            i <= rows.len(),
            cls_texts(out@) == merged_classes(rows@.take(i as int), id@),
        decreases rows.len() - i,
    {
        assert(rows@.take(i + 1).drop_last() == rows@.take(i as int));
        assert(rows@.take(i + 1).last() == rows@[i as int]);
        let c = &rows[i].1;
        if str_eq(rows[i].0.id.as_str(), id) && c.dimension_code.as_str().unicode_len() > 0
            && !has_classification_exec(&out, c.symbol.as_str(), c.dimension_code.as_str()) {
            let ghost before = out@;
            let cc = copy_classification(c);
            out.push(cc);
            assert(cls_texts(out@) =~= cls_texts(before).push(cls_text(*c)));
        }
        i = i + 1;
    }
    assert(rows@.take(rows.len() as int) == rows@);
    out
}

fn contains_text(v: &Vec<String>, s: &str) -> (b: bool)
    ensures
        b == strings_view(v@).contains(s@),
{
    let mut i: usize = 0;
    while i < v.len()
        invariant
            i <= v.len(),
            forall|j: int| 0 <= j < i ==> #[trigger] strings_view(v@)[j] != s@,
        decreases v.len() - i,
    {
        if str_eq(v[i].as_str(), s) {
            assert(strings_view(v@)[i as int] == s@);
            return true;
        }
        i = i + 1;
    }
    false
}

/// The distinct news ids of the rows, in order of first occurrence, each with the
/// index of its first row.
fn first_rows(rows: &Vec<(NewsItemView, NewsClassificationView)>) -> (r: (Vec<String>, Vec<usize>))
    ensures
        r.0.len() == r.1.len(),
        strings_view(r.0@).no_duplicates(),
        forall|g: int| 0 <= g < r.1.len() ==> first_row(rows@, #[trigger] r.0@[g]@) == r.1@[g] as int,
        forall|j: int| 0 <= j < rows.len() ==> strings_view(r.0@).contains(#[trigger] rows@[j].0.id@),
{
    let mut ids: Vec<String> = Vec::new();
    let mut firsts: Vec<usize> = Vec::new();
    let mut i: usize = 0;
    while i < rows.len()
        invariant
            i <= rows.len(),
            ids.len() == firsts.len(),
            strings_view(ids@).no_duplicates(),
            forall|g: int| 0 <= g < firsts.len() ==> first_row(rows@.take(i as int), #[trigger] ids@[g]@) == firsts@[g] as int,
            forall|j: int| 0 <= j < i ==> strings_view(ids@).contains(#[trigger] rows@[j].0.id@),
        decreases rows.len() - i,
    {
        let ghost t = rows@.take(i as int);
        let ghost t1 = rows@.take(i + 1);
        assert(t1.drop_last() == t);
        assert(t1.last() == rows@[i as int]);
        proof {
            assert forall|g: int| 0 <= g < firsts.len() implies first_row(t1, #[trigger] ids@[g]@) == firsts@[g] as int by {
                lemma_first_row(t, ids@[g]@);
            }
        }
        let id = rows[i].0.id.as_str();
        if !contains_text(&ids, id) {
            let ghost before_ids = ids@;
            let ghost before_firsts = firsts@;
            proof {
                lemma_first_row(t, id@);
                assert forall|j: int| 0 <= j < t.len() implies #[trigger] t[j].0.id@ != id@ by {
                    assert(t[j] == rows@[j]);
                    assert(strings_view(ids@).contains(rows@[j].0.id@));
                }
                assert(first_row(t, id@) < 0);
            }
            ids.push(to_owned_string(id));
            firsts.push(i);
            assert(strings_view(ids@) =~= strings_view(before_ids).push(id@));
            assert forall|g: int| 0 <= g < firsts.len() implies first_row(t1, #[trigger] ids@[g]@) == firsts@[g] as int by {
                if g < before_firsts.len() {
                    assert(ids@[g] == before_ids[g]);
                    assert(firsts@[g] == before_firsts[g]);
                }
            }
            assert forall|j: int| 0 <= j < i + 1 implies strings_view(ids@).contains(#[trigger] rows@[j].0.id@) by {
                if j < i {
                    assert(strings_view(before_ids).contains(rows@[j].0.id@));
                    let k = choose|k: int| 0 <= k < strings_view(before_ids).len() && strings_view(before_ids)[k] == rows@[j].0.id@;
                    assert(strings_view(ids@)[k] == rows@[j].0.id@);
                } else {
                    assert(strings_view(ids@)[strings_view(ids@).len() - 1] == id@);
                }
            }
            assert forall|a: int, b: int| 0 <= a < strings_view(ids@).len() && 0 <= b < strings_view(ids@).len() && a != b
                implies strings_view(ids@)[a] != strings_view(ids@)[b] by {
                if a < before_ids.len() && b < before_ids.len() {
                } else if a < before_ids.len() {
                    assert(strings_view(before_ids)[a] == strings_view(ids@)[a]);
                } else {
                    assert(strings_view(before_ids)[b] == strings_view(ids@)[b]);
                }
            }
        } else {
            assert forall|j: int| 0 <= j < i + 1 implies strings_view(ids@).contains(#[trigger] rows@[j].0.id@) by {
                if j == i {
                }
            }
        }
        i = i + 1;
    }
    assert(rows@.take(rows.len() as int) == rows@);
    (ids, firsts)
}

fn merged_item(rows: &Vec<(NewsItemView, NewsClassificationView)>, f: usize) -> (r: NewsItemView)
    requires
        f < rows.len(),
        first_row(rows@, rows@[f as int].0.id@) == f,
    ensures
        is_merged_item(r, rows@),
        r.id@ == rows@[f as int].0.id@,
{
    let n = &rows[f].0;
    let classes = merged_classes_exec(rows, n.id.as_str());
    NewsItemView {
        id: to_owned_string(n.id.as_str()),
        source: to_owned_string(n.source.as_str()),
        category_id: n.category_id,
        title: to_owned_string(n.title.as_str()),
        summary: to_owned_string(n.summary.as_str()),
        url: to_owned_string(n.url.as_str()),
        display_time: to_owned_string(n.display_time.as_str()),
        classifications: classes,
    }
}

fn insert_newest_first(out: &mut Vec<NewsItemView>, g: NewsItemView)
    requires
        newest_first(old(out)@),
    ensures
        newest_first(final(out)@),
        exists|p: int| 0 <= p <= old(out)@.len() && final(out)@ == old(out)@.insert(p, g),
{
    let gt = chars_of(g.display_time.as_str());
    let mut p: usize = out.len();
    while p > 0
        invariant
            p <= out.len(),
            gt@ == g.display_time@,
            forall|q: int| p <= q < out.len() ==> !lex_le(gt@, #[trigger] out@[q].display_time@),
        ensures
            p <= out.len(),
            forall|q: int| p <= q < out.len() ==> !lex_le(gt@, #[trigger] out@[q].display_time@),
            p == 0 || lex_le(gt@, out@[p - 1].display_time@),
        decreases p,
    {
        let pt = chars_of(out[p - 1].display_time.as_str());
        if chars_le(&gt, &pt) {
            break;
        }
        p = p - 1;
    }
    let ghost old_out = out@;
    proof {
        assert forall|q: int| p <= q < old_out.len() implies lex_le(#[trigger] old_out[q].display_time@, gt@) by {
            crate::calendar::lemma_lex_total(old_out[q].display_time@, gt@);
        }
    }
    out.insert(p, g);
    proof {
        old_out.insert_ensures(p as int, g);
        let n = out@;
        assert forall|i: int, j: int| 0 <= i < j < n.len() implies lex_le(#[trigger] n[j].display_time@, #[trigger] n[i].display_time@) by {
            if j < p {
                assert(n[i] == old_out[i] && n[j] == old_out[j]);
            } else if j == p {
                assert(n[i] == old_out[i]);
                assert(lex_le(gt@, old_out[p - 1].display_time@));
                if i < p - 1 {
                    crate::calendar::lemma_lex_trans(gt@, old_out[p - 1].display_time@, old_out[i].display_time@);
                }
            } else if i < p {
                assert(n[i] == old_out[i] && n[j] == old_out[j - 1]);
            } else if i == p {
                assert(n[j] == old_out[j - 1]);
            } else {
                assert(n[i] == old_out[i - 1] && n[j] == old_out[j - 1]);
            }
        }
    }
}

/// Some record of `s` has news id `id`.
pub open spec fn has_news_id(s: Seq<NewsItemView>, id: Seq<char>) -> bool {
    exists|k: int| 0 <= k < s.len() && (#[trigger] s[k]).id@ == id
}

/// `id` is one of the first `n` ids.
spec fn id_among(ids: Seq<String>, n: int, id: Seq<char>) -> bool {
    exists|h: int| 0 <= h < n && (#[trigger] ids[h])@ == id
}

proof fn lemma_merged_insert(
    before: Seq<NewsItemView>,
    p: int,
    item: NewsItemView,
    ids: Seq<String>,
    g: int,
    rows: Seq<(NewsItemView, NewsClassificationView)>,
)
    requires
        0 <= p <= before.len(),
        0 <= g < ids.len(),
        strings_view(ids).no_duplicates(),
        is_merged_item(item, rows),
        item.id@ == ids[g]@,
        forall|k: int| 0 <= k < before.len() ==> is_merged_item(#[trigger] before[k], rows),
        forall|k: int| 0 <= k < before.len() ==> id_among(ids, g, #[trigger] before[k].id@),
        forall|h: int| 0 <= h < g ==> has_news_id(before, #[trigger] ids[h]@),
        forall|i: int, j: int| 0 <= i < j < before.len() ==> (#[trigger] before[i]).id@ != (#[trigger] before[j]).id@,
    ensures
        ({
            let out = before.insert(p, item);
            &&& forall|k: int| 0 <= k < out.len() ==> is_merged_item(#[trigger] out[k], rows)
            &&& forall|k: int| 0 <= k < out.len() ==> id_among(ids, g + 1, #[trigger] out[k].id@)
            &&& forall|h: int| 0 <= h < g + 1 ==> has_news_id(out, #[trigger] ids[h]@)
            &&& forall|i: int, j: int| 0 <= i < j < out.len() ==> (#[trigger] out[i]).id@ != (#[trigger] out[j]).id@
        }),
{
    let out = before.insert(p, item);
    before.insert_ensures(p, item);
    assert forall|k: int| 0 <= k < out.len() implies is_merged_item(#[trigger] out[k], rows) by {
        if k < p {
            assert(out[k] == before[k]);
        } else if k > p {
            assert(out[k] == before[k - 1]);
        }
    }
    assert forall|k: int| 0 <= k < out.len() implies id_among(ids, g + 1, #[trigger] out[k].id@) by {
        if k < p {
            assert(out[k] == before[k]);
            assert(id_among(ids, g, before[k].id@));
        } else if k > p {
            assert(out[k] == before[k - 1]);
            assert(id_among(ids, g, before[k - 1].id@));
        } else {
            assert(out[k].id@ == ids[g]@);
        }
    }
    assert forall|h: int| 0 <= h < g + 1 implies has_news_id(out, #[trigger] ids[h]@) by {
        if h < g {
            assert(has_news_id(before, ids[h]@));
            let k0 = choose|k: int| 0 <= k < before.len() && (#[trigger] before[k]).id@ == ids[h]@;
            if k0 < p {
                assert(out[k0] == before[k0]);
            } else {
                assert(out[k0 + 1] == before[k0]);
            }
        } else {
            assert(out[p].id@ == ids[h]@);
        }
    }
    assert forall|a: int, b: int| 0 <= a < b < out.len() implies (#[trigger] out[a]).id@ != (#[trigger] out[b]).id@ by {
        if a != p && b != p {
            let ia = if a < p { a } else { a - 1 };
            let ib = if b < p { b } else { b - 1 };
            assert(out[a] == before[ia]);
            assert(out[b] == before[ib]);
        } else {
            let other = if a == p { b } else { a };
            let io = if other < p { other } else { other - 1 };
            assert(out[other] == before[io]);
            assert(id_among(ids, g, before[io].id@));
            let h = choose|h: int| 0 <= h < g && (#[trigger] ids[h])@ == before[io].id@;
            assert(strings_view(ids)[h] == ids[h]@);
            assert(strings_view(ids)[g] == ids[g]@);
        }
    }
}

/// Merges the rows of a news query (each item joined with one of its
/// classifications) into one record per news id: the fields of the id's first row,
/// the classifications that name a dimension, the first of each symbol and
/// dimension; records newest first by display time.
pub fn merge_news_rows(rows: Vec<(NewsItemView, NewsClassificationView)>) -> (r: Vec<NewsItemView>)
    ensures
        forall|k: int| 0 <= k < r@.len() ==> is_merged_item(#[trigger] r@[k], rows@),
        forall|i: int, j: int| 0 <= i < j < r@.len() ==> (#[trigger] r@[i]).id@ != (#[trigger] r@[j]).id@,
        forall|j: int| 0 <= j < rows@.len() ==> has_news_id(r@, #[trigger] rows@[j].0.id@),
        newest_first(r@),
{
    let (ids, firsts) = first_rows(&rows);
    let mut out: Vec<NewsItemView> = Vec::new();
    let mut g: usize = 0;
    while g < firsts.len()
        invariant
            g <= firsts.len() == ids.len(),
            strings_view(ids@).no_duplicates(),
            forall|h: int| 0 <= h < firsts.len() ==> first_row(rows@, #[trigger] ids@[h]@) == firsts@[h] as int,
            newest_first(out@),
            out@.len() == g,
            forall|k: int| 0 <= k < out@.len() ==> is_merged_item(#[trigger] out@[k], rows@),
            forall|k: int| 0 <= k < out@.len() ==> id_among(ids@, g as int, #[trigger] out@[k].id@),
            forall|h: int| 0 <= h < g ==> has_news_id(out@, #[trigger] ids@[h]@),
            forall|i: int, j: int| 0 <= i < j < out@.len() ==> (#[trigger] out@[i]).id@ != (#[trigger] out@[j]).id@,
            forall|j: int| 0 <= j < rows@.len() ==> strings_view(ids@).contains(#[trigger] rows@[j].0.id@),
        decreases firsts.len() - g,
    {
        let f = firsts[g];
        proof {
            lemma_first_row(rows@, ids@[g as int]@);
        }
        let item = merged_item(&rows, f);
        let ghost before = out@;
        assert(item.id@ == ids@[g as int]@);
        insert_newest_first(&mut out, item);
        proof {
            let p = choose|p: int| 0 <= p <= before.len() && out@ == before.insert(p, item);
            lemma_merged_insert(before, p, item, ids@, g as int, rows@);
        }
        g = g + 1;
    }
    proof {
        assert forall|j: int| 0 <= j < rows@.len() implies has_news_id(out@, #[trigger] rows@[j].0.id@) by {
            assert(strings_view(ids@).contains(rows@[j].0.id@));
            let h = choose|h: int| 0 <= h < strings_view(ids@).len() && strings_view(ids@)[h] == rows@[j].0.id@;
            assert(ids@[h]@ == rows@[j].0.id@);
            assert(has_news_id(out@, ids@[h]@));
        }
    }
    out
}

} // verus!
