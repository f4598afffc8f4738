use thisismyquant::calendar::CalendarEvent;
use thisismyquant::event_feed::{calendar_affected_symbols, calendar_to_events, news_symbols, news_to_events, sectors_of_symbols};
use thisismyquant::event_list::{list_events, news_view_of, query_page_size};
use thisismyquant::events::{
    build_calendar_summary, calendar_star_to_importance, event_matches, infer_calendar_event_type, infer_direction,
    infer_news_event_type, infer_news_importance, MarketEvent, MarketEventQuery,
};
use thisismyquant::json::{JsonNumber, JsonValue};
use thisismyquant::news::{
    finish_selection, match_keywords, merge_news_rows, parse_category_page, parse_item, take_matching,
    NewsClassificationView, NewsItem, NewsItemView,
};

fn to_json(v: &serde_json::Value) -> JsonValue {
    match v {
        serde_json::Value::Null => JsonValue::Null,
        serde_json::Value::Bool(b) => JsonValue::Bool(*b),
        serde_json::Value::Number(n) => JsonValue::Number(JsonNumber {
            text: n.to_string(),
            as_u64: n.as_u64(),
            as_i64: n.as_i64(),
        }),
        serde_json::Value::String(s) => JsonValue::Str(s.clone()),
        serde_json::Value::Array(a) => JsonValue::Array(a.iter().map(to_json).collect()),
        serde_json::Value::Object(m) => {
            JsonValue::Object(m.iter().map(|(k, v)| (k.clone(), to_json(v))).collect())
        }
    }
}

fn json(text: &str) -> JsonValue {
    to_json(&serde_json::from_str::<serde_json::Value>(text).unwrap())
}

fn cal(id: &str, country: &str, name: &str, star: u8, affect: Option<&str>) -> CalendarEvent {
    CalendarEvent {
        id: id.into(),
        pub_time: "2026-06-25 20:30:00".into(),
        country: country.into(),
        name: name.into(),
        star,
        previous: Some("0.2%".into()),
        consensus: None,
        actual: Some("0.4%".into()),
        unit: None,
        affect: affect.map(String::from),
        status: "released".into(),
        event_type: "data".into(),
    }
}

fn cls(symbol: &str, code: &str) -> NewsClassificationView {
    NewsClassificationView {
        symbol: symbol.into(),
        dimension_code: code.into(),
        dimension_label: String::new(),
        confidence_bits: 0.5f32.to_bits(),
        method: "rule".into(),
    }
}

fn news(id: &str, title: &str, time: &str, classifications: Vec<NewsClassificationView>) -> NewsItemView {
    NewsItemView {
        id: id.into(),
        source: "jin10".into(),
        category_id: Some(52042),
        title: title.into(),
        summary: "摘要".into(),
        url: "https://example.com".into(),
        display_time: time.into(),
        classifications,
    }
}

fn market_event(source: &str, title: &str, time: &str) -> MarketEvent {
    MarketEvent {
        id: title.into(),
        title: title.into(),
        source: source.into(),
        source_id: None,
        source_url: None,
        display_time: time.into(),
        importance: "medium".into(),
        event_type: "data".into(),
        affected_symbols: vec![],
        affected_sectors: vec![],
        direction: None,
        summary: None,
        created_at: String::new(),
    }
}

fn empty_query() -> MarketEventQuery {
    MarketEventQuery {
        symbol: None,
        source: None,
        sector: None,
        importance: None,
        event_type: None,
        start: None,
        end: None,
        limit: None,
    }
}

#[test]
fn direction_follows_keywords() {
    assert_eq!(infer_direction("铜价上涨").as_deref(), Some("bullish"));
    assert_eq!(infer_direction("Oil prices DROP").as_deref(), Some("bearish"));
    assert_eq!(infer_direction("上涨后下跌").as_deref(), Some("neutral"));
    assert_eq!(infer_direction("会议召开").as_deref(), Some("neutral"));
}

#[test]
fn importance_of_stars_and_news() {
    assert_eq!(calendar_star_to_importance(5), "high");
    assert_eq!(calendar_star_to_importance(3), "medium");
    assert_eq!(calendar_star_to_importance(1), "low");
    assert_eq!(calendar_star_to_importance(9), "low");
    assert_eq!(infer_news_importance("突发消息", ""), "high");
    assert_eq!(infer_news_importance("日常", "BREAK news"), "high");
    assert_eq!(infer_news_importance("日常", "消息"), "medium");
}

#[test]
fn event_types_of_news_and_calendar() {
    assert_eq!(infer_news_event_type("x", "y", &vec!["inventory".to_string()]), "industry");
    assert_eq!(infer_news_event_type("x", "y", &vec!["overseas_finance".to_string()]), "macro");
    assert_eq!(infer_news_event_type("美国CPI", "", &vec![]), "macro");
    assert_eq!(infer_news_event_type("公司业绩", "", &vec![]), "earnings");
    assert_eq!(infer_news_event_type("发布公告", "", &vec![]), "announcement");
    assert_eq!(infer_news_event_type("其他", "", &vec![]), "industry");
    assert_eq!(infer_calendar_event_type("非农就业人数", "美国"), "macro");
    assert_eq!(infer_calendar_event_type("Fed rate", "US"), "macro");
    assert_eq!(infer_calendar_event_type("零售销售", "美国"), "data");
}

#[test]
fn calendar_summary_joins_present_values() {
    let s = build_calendar_summary(&Some("1".into()), &None, &Some("3".into()));
    assert_eq!(s.as_deref(), Some("前值: 1 | 公布: 3"));
    assert_eq!(build_calendar_summary(&None, &None, &None), None);
}

#[test]
fn affected_symbols_are_split_trimmed_and_deduplicated() {
    let r = calendar_affected_symbols(&Some(" rb , RB；au;  ，cu".into()));
    assert_eq!(r, vec!["RB".to_string(), "AU".to_string(), "CU".to_string()]);
    assert!(calendar_affected_symbols(&None).is_empty());
    assert!(calendar_affected_symbols(&Some(" , ;".into())).is_empty());
}

#[test]
fn sectors_follow_the_table() {
    let table = vec![
        ("RB".to_string(), "黑色建材".to_string()),
        ("HC".to_string(), "黑色建材".to_string()),
        ("AU".to_string(), "有色贵金属".to_string()),
        ("RB".to_string(), "其他".to_string()),
    ];
    let symbols = vec!["HC".to_string(), "AU".to_string(), "XX".to_string(), "RB".to_string()];
    assert_eq!(sectors_of_symbols(&symbols, &table), vec!["黑色建材".to_string(), "有色贵金属".to_string()]);
}

#[test]
fn calendar_entries_become_events() {
    let table = vec![("AU".to_string(), "有色贵金属".to_string())];
    let events = calendar_to_events(vec![cal("e1", "美国", "CPI上涨", 5, Some("au,AU")), cal("", "日本", "短观", 2, None)], &table);
    assert_eq!(events.len(), 2);
    let e = &events[0];
    assert_eq!(e.id, "e1");
    assert_eq!(e.title, "美国 CPI上涨");
    assert_eq!(e.source, "calendar");
    assert_eq!(e.source_id.as_deref(), Some("e1"));
    assert_eq!(e.display_time, "2026-06-25 20:30:00");
    assert_eq!(e.importance, "high");
    assert_eq!(e.event_type, "macro");
    assert_eq!(e.affected_symbols, vec!["AU".to_string()]);
    assert_eq!(e.affected_sectors, vec!["有色贵金属".to_string()]);
    assert_eq!(e.direction.as_deref(), Some("bullish"));
    assert_eq!(e.summary.as_deref(), Some("前值: 0.2% | 公布: 0.4%"));
    assert_eq!(events[1].id.len(), 36);
    let id: Vec<char> = events[1].id.chars().collect();
    assert_eq!((id[8], id[13], id[18], id[23], id[14]), ('-', '-', '-', '-', '4'));
    assert!(matches!(id[19], '8' | '9' | 'a' | 'b'));
    assert!(id.iter().all(|c| *c == '-' || c.is_ascii_digit() || ('a'..='f').contains(c)));
    for ev in &events {
        assert!(ev.created_at.ends_with("+00:00"));
        assert!([25, 29, 32, 35].contains(&ev.created_at.len()));
        assert_eq!(&ev.created_at[10..11], "T");
    }
    assert_eq!(events[1].importance, "low");
}

#[test]
fn news_items_become_events() {
    let n = news("n1", "螺纹钢去化 利好", "2026-06-01 09:00:00", vec![cls("rb", "inventory"), cls("RB", "demand")]);
    assert_eq!(news_symbols(&n.classifications), vec!["RB".to_string()]);
    let events = news_to_events(vec![n], &vec![("RB".to_string(), "黑色建材".to_string())]);
    let e = &events[0];
    assert_eq!(e.id, "n1");
    assert_eq!(e.source, "jin10");
    assert_eq!(e.source_id, None);
    assert_eq!(e.source_url.as_deref(), Some("https://example.com"));
    assert_eq!(e.event_type, "industry");
    assert_eq!(e.affected_sectors, vec!["黑色建材".to_string()]);
    assert_eq!(e.direction.as_deref(), Some("bullish"));
    assert_eq!(e.summary.as_deref(), Some("摘要"));
}

#[test]
fn merged_rows_are_grouped_and_newest_first() {
    let rows = vec![
        (news("a", "A", "2026-06-01 09:00:00", vec![]), cls("RB", "inventory")),
        (news("b", "B", "2026-06-02 09:00:00", vec![]), cls("", "")),
        (news("a", "A2", "2026-06-01 09:00:00", vec![]), cls("RB", "inventory")),
        (news("a", "A3", "2026-06-01 09:00:00", vec![]), cls("AU", "macro")),
    ];
    let merged = merge_news_rows(rows);
    assert_eq!(merged.len(), 2);
    assert_eq!(merged[0].id, "b");
    assert!(merged[0].classifications.is_empty());
    assert_eq!(merged[1].id, "a");
    assert_eq!(merged[1].title, "A");
    let codes: Vec<(&str, &str)> = merged[1]
        .classifications
        .iter()
        .map(|c| (c.symbol.as_str(), c.dimension_code.as_str()))
        .collect();
    assert_eq!(codes, vec![("RB", "inventory"), ("AU", "macro")]);
}

#[test]
fn feed_records_are_read() {
    let raw = json(r#"{"title": "标题", "display_time": "2026-06-01 10:00:00",
        "data": {"desc": "短", "list": ["一", 5, "二", "三", "四"], "url": "https://x"}}"#);
    let item = parse_item(&raw, 7);
    assert_eq!(item.title, "标题");
    assert_eq!(item.summary, "一；二；三");
    assert_eq!(item.source, "jin10");
    assert_eq!(item.category_id, Some(7));
    assert_eq!(item.url, "https://x");
    let raw2 = json(r#"{"title": "t", "data": {"desc": "", "list": ["第一条"]}}"#);
    assert_eq!(parse_item(&raw2, 1).summary, "第一条");
    let long = "长".repeat(600);
    let raw3 = json(&format!(r#"{{"title": "t", "data": {{"desc": "{long}"}}}}"#));
    assert_eq!(parse_item(&raw3, 1).summary.chars().count(), 500);
}

#[test]
fn feed_pages_need_status_200_and_titles() {
    let ok = json(r#"{"status": 200, "data": [{"title": "有标题"}, {"title": ""}, {"x": 1}]}"#);
    assert_eq!(parse_category_page(&ok, 3).len(), 1);
    let bad = json(r#"{"status": 500, "data": [{"title": "有标题"}]}"#);
    assert!(parse_category_page(&bad, 3).is_empty());
}

fn item(title: &str, summary: &str) -> NewsItem {
    NewsItem {
        title: title.into(),
        summary: summary.into(),
        source: "jin10".into(),
        category_id: Some(1),
        display_time: String::new(),
        url: String::new(),
    }
}

#[test]
fn news_for_a_symbol_is_chosen_by_keywords() {
    let kw = vec!["螺纹".to_string()];
    assert!(match_keywords(&item("螺纹钢", ""), &kw));
    assert!(match_keywords(&item("x", "螺纹"), &kw));
    assert!(!match_keywords(&item("铜", "铝"), &kw));
    let mut taken = Vec::new();
    let batch = vec![item("螺纹钢1", ""), item("铜", ""), item("螺纹钢1", "dup"), item("螺纹钢2", ""), item("螺纹钢3", "")];
    let done = take_matching(&mut taken, &batch, &kw, 2);
    assert!(done);
    let titles: Vec<&str> = taken.iter().map(|i| i.title.as_str()).collect();
    assert_eq!(titles, vec!["螺纹钢1", "螺纹钢2"]);
    let mut few = Vec::new();
    assert!(!take_matching(&mut few, &batch, &kw, 10));
    assert_eq!(few.len(), 3);
    finish_selection(&mut few, 1);
    assert_eq!(few.len(), 1);
}

#[test]
fn event_lists_are_filtered_sorted_and_counted() {
    let events = vec![
        market_event("jin10", "old", "2026-06-01 09:00:00"),
        market_event("calendar", "new", "2026-06-03 09:00:00"),
        market_event("jin10", "bad time", "not a time"),
        market_event("jin10", "mid", "2026-06-02 09:00:00"),
    ];
    let mut q = empty_query();
    q.limit = Some(3);
    let r = list_events(events, &q, None);
    let titles: Vec<&str> = r.events.iter().map(|e| e.title.as_str()).collect();
    assert_eq!(titles, vec!["new", "mid", "old"]);
    assert_eq!(r.total, 4);
    assert_eq!(r.by_source, vec![("calendar".to_string(), 1), ("jin10".to_string(), 2)]);
    let mut only_calendar = empty_query();
    only_calendar.source = Some("Calendar".into());
    let r2 = list_events(vec![market_event("jin10", "a", ""), market_event("calendar", "b", "")], &only_calendar, None);
    assert_eq!(r2.total, 1);
    assert_eq!(query_page_size(None), 50);
    assert_eq!(query_page_size(Some(0)), 1);
    assert_eq!(query_page_size(Some(999)), 200);
}

#[test]
fn event_queries_match_symbols_and_times() {
    let mut e = market_event("jin10", "螺纹钢RB走强", "2026-06-02 09:00:00");
    e.affected_symbols = vec!["au".into()];
    let mut q = empty_query();
    assert!(event_matches(&e, &q, Some("AU")));
    assert!(event_matches(&e, &q, Some("rb")));
    assert!(!event_matches(&e, &q, Some("CU")));
    q.start = Some("2026-06-03 00:00:00".into());
    assert!(!event_matches(&e, &q, None));
    q.start = Some("not a time".into());
    assert!(event_matches(&e, &q, None));
}

#[test]
fn feed_items_become_news_records() {
    let v = news_view_of(&item("t", "s"));
    assert_eq!(v.id, "");
    assert!(v.classifications.is_empty());
    assert_eq!(v.title, "t");
}

#[test]
fn dropping_filters_keeps_matches() {
    let e = market_event("jin10", "螺纹钢RB走强", "2026-06-02 09:00:00");
    assert!(event_matches(&e, &empty_query(), None));
    let mut q1 = empty_query();
    q1.source = Some("jin10".into());
    q1.importance = Some("all".into());
    q1.end = Some("2026-06-05 00:00:00".into());
    assert!(event_matches(&e, &q1, Some("RB")));
    let mut q2 = q1.clone();
    q2.source = None;
    q2.end = None;
    assert!(event_matches(&e, &q2, Some("RB")));
    assert!(event_matches(&e, &q2, None));
}
