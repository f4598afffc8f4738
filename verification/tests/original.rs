use thisismyquant::calendar::{
    filter_calendar_events, parse_calendar_payload_at, CalendarEvent, CalendarFetchOptions,
};
use thisismyquant::config::{default_watchlist, parse_env_text, preferences_path, resolve_market_feed};
use thisismyquant::crypto::{decrypt_value, encrypt_value};
use thisismyquant::json::{JsonNumber, JsonValue};
use thisismyquant::time::days_from_date;

fn to_json(v: &serde_json::Value) -> JsonValue {
    match v {
        serde_json::Value::Null => JsonValue::Null,
        serde_json::Value::Bool(b) => JsonValue::Bool(*b),
        serde_json::Value::Number(n) => JsonValue::Number(JsonNumber {
            text: n.to_string(),
            as_u64: n.as_u64(),
            as_i64: n.as_i64(),
        }),
        serde_json::Value::String(s) => JsonValue::Str(s.clone()),
        serde_json::Value::Array(a) => JsonValue::Array(a.iter().map(to_json).collect()),
        serde_json::Value::Object(m) => {
            JsonValue::Object(m.iter().map(|(k, v)| (k.clone(), to_json(v))).collect())
        }
    }
}

fn json(text: &str) -> JsonValue {
    to_json(&serde_json::from_str::<serde_json::Value>(text).unwrap())
}

/// 2026-06-01 00:00:00 UTC, before the calendar entries of these payloads.
fn june_first_2026() -> i64 {
    days_from_date(2026, 6, 1) * 86400
}

#[test]
fn akshare_is_default_feed() {
    assert_eq!(resolve_market_feed(""), "akshare_poll");
    assert_eq!(resolve_market_feed("akshare_poll"), "akshare_poll");
}

#[test]
fn deprecated_ctp_feed_falls_back() {
    assert_eq!(resolve_market_feed("ctp"), "akshare_poll");
    assert_eq!(resolve_market_feed("simnow"), "akshare_poll");
}

#[test]
fn parse_env_file_skips_comments_and_empty() {
    let map = parse_env_text("# comment\nDOUBAO_API_KEY=abc\nEMPTY=\nDEEPSEEK_API_KEY=\"xyz\"\n");
    assert_eq!(map.get("DOUBAO_API_KEY").as_deref(), Some("abc"));
    assert_eq!(map.get("DEEPSEEK_API_KEY").as_deref(), Some("xyz"));
    assert_eq!(map.get("EMPTY").as_deref(), Some(""));
}

#[test]
fn preferences_path_sits_next_to_database() {
    assert_eq!(
        preferences_path("/tmp/quant/data/quant.db", "/tmp/quant"),
        "/tmp/quant/data/user_preferences.json"
    );
}

#[test]
fn default_watchlist_not_empty() {
    assert_eq!(default_watchlist().len(), 3);
}

#[test]
fn encrypt_roundtrip() {
    let key = "test-encryption-key-32chars!!";
    let enc = encrypt_value("sk-secret-api-key", key).unwrap();
    let dec = decrypt_value(&enc, key).unwrap();
    assert_eq!(dec, "sk-secret-api-key");
}

#[test]
fn parse_get_day_array_payload() {
    let payload = json(
        r#"{
            "status": 200,
            "data": [
                {
                    "country": "美国",
                    "pub_time": "2026-06-25 20:30:00",
                    "name": "美国CPI月率",
                    "star": 5,
                    "previous": "0.2%",
                    "consensus": "0.3%",
                    "actual": "",
                    "unit": "%"
                },
                {
                    "country": "中国",
                    "pub_time": "2020-06-20 09:30:00",
                    "indicator_name": "中国官方制造业PMI",
                    "star": 4,
                    "previous": "49.5",
                    "consensus": "49.8",
                    "actual": "50.1"
                }
            ]
        }"#,
    );
    let events = parse_calendar_payload_at(&payload, june_first_2026());
    assert_eq!(events.len(), 2);
    assert_eq!(events[0].name, "美国CPI月率");
    assert_eq!(events[0].status, "scheduled");
    assert_eq!(events[1].status, "released");
    assert_eq!(events[1].star, 4);
}

#[test]
fn parse_nested_economics_payload() {
    let payload = json(
        r#"{
            "data": {
                "economics": [
                    {
                        "country": "美国",
                        "publish_time": "2026-06-27 02:00:00",
                        "indicator_name": "美联储利率决定(上限)",
                        "star": 5,
                        "previous": "4.50%",
                        "consensus": "4.25%"
                    }
                ]
            }
        }"#,
    );
    let events = parse_calendar_payload_at(&payload, june_first_2026());
    assert_eq!(events.len(), 1);
    assert!(events[0].name.contains("美联储"));
}

#[test]
fn parse_mcp_calendar_payload() {
    let payload = json(
        r#"{
            "data": [{
                "actual": "",
                "affect_txt": "利空",
                "consensus": "3.00",
                "previous": "3.00",
                "pub_time": "2026-06-25 20:30",
                "star": 4,
                "title": "美国5月核心PCE物价指数年率"
            }]
        }"#,
    );
    let events = parse_calendar_payload_at(&payload, june_first_2026());
    assert_eq!(events.len(), 1);
    assert_eq!(events[0].country, "美国");
    assert_eq!(events[0].name, "美国5月核心PCE物价指数年率");
    assert_eq!(events[0].status, "scheduled");
    assert_eq!(events[0].affect.as_deref(), Some("利空"));
}

fn event(id: &str, pub_time: &str, country: &str, name: &str, star: u8) -> CalendarEvent {
    CalendarEvent {
        id: id.into(),
        pub_time: pub_time.into(),
        country: country.into(),
        name: name.into(),
        star,
        previous: None,
        consensus: None,
        actual: None,
        unit: None,
        affect: None,
        status: "scheduled".into(),
        event_type: "data".into(),
    }
}

#[test]
fn filter_by_star_and_country() {
    let events = vec![
        event("1", "2026-06-25 20:30:00", "美国", "CPI", 5),
        event("2", "2026-06-25 10:00:00", "日本", "短观", 2),
    ];
    let filtered = filter_calendar_events(
        events,
        &CalendarFetchOptions {
            start_day: days_from_date(2026, 6, 24),
            end_day: days_from_date(2026, 6, 30),
            min_star: 3,
            country: Some("美国".into()),
        },
    );
    assert_eq!(filtered.len(), 1);
    assert_eq!(filtered[0].country, "美国");
}
