use thisismyquant::insights::{ai_summary_report, check_ai_output, AiSource};
use thisismyquant::stock::latest_of;
use thisismyquant::calendar::{event_in_range, parse_mcp_calendar_result, pick_primary_mcp_data, pub_time_checkable};
use thisismyquant::llm::fallback_result;
use thisismyquant::assets::{asset_text_matches, AssetText, AssetTextQuery};
use thisismyquant::config::{
    build_provider_config, choose_mcp_token, collect_llm_credentials_from_env_files,
    default_llm_provider_from_env_files, env_lookup, normalize_analysis_trigger, normalize_watchlist,
    parse_env_text, resolve_database_path, template, CountPreferences, EnvMap,
};
use thisismyquant::crypto::{decrypt_value, encrypt_value, encryption_ready, mask_secret};
use thisismyquant::datastore::{
    column_bytes, domain_specs, estimate_table_size, merge_time_bounds, quality_for, vacuum_into_sql,
};
use thisismyquant::insights::{
    catalog_status, dashboard_indices, drivers_text, factor_quality, volume_factor,
    allowed_task_types, ensure_disclaimer, humanize_calendar_error, infer_news_impact, infer_overseas_driver,
    is_allowed_task_type,
};
use thisismyquant::llm::{chat_completions_url, delta_content, message_content, providers_failed_message, sse_data, LlmRouter};
use thisismyquant::config::LlmProviderConfig;
use thisismyquant::json::{JsonNumber, JsonValue};
use thisismyquant::mcp::{select_rpc_result, sse_frames, RpcFailure};
use thisismyquant::quotes::{akshare_symbol, akshare_symbol_from, history_route, interval_to_period, HistoryRoute};
use thisismyquant::stock::{em_code, em_secid, normalize_ts_code, sina_code, ts_code_exchange, StockSymbol};
use thisismyquant::stock_events::{announcement_events, choose_event_symbols};
use thisismyquant::time::{days_from_date, parse_dt};

fn to_json(v: &serde_json::Value) -> JsonValue {
    match v {
        serde_json::Value::Null => JsonValue::Null,
        serde_json::Value::Bool(b) => JsonValue::Bool(*b),
        serde_json::Value::Number(n) => JsonValue::Number(JsonNumber {
            text: n.to_string(),
            as_u64: n.as_u64(),
            as_i64: n.as_i64(),
        }),
        serde_json::Value::String(s) => JsonValue::Str(s.clone()),
        serde_json::Value::Array(a) => JsonValue::Array(a.iter().map(to_json).collect()),
        serde_json::Value::Object(m) => {
            JsonValue::Object(m.iter().map(|(k, v)| (k.clone(), to_json(v))).collect())
        }
    }
}

fn json(text: &str) -> JsonValue {
    to_json(&serde_json::from_str::<serde_json::Value>(text).unwrap())
}

fn provider(name: &str, model: &str) -> LlmProviderConfig {
    LlmProviderConfig {
        name: name.into(),
        api_key: "k".into(),
        base_url: "https://api.example.com/v1/".into(),
        model: model.into(),
    }
}

fn listing(ts_code: &str, name: &str, industry: Option<&str>) -> StockSymbol {
    StockSymbol {
        ts_code: ts_code.into(),
        symbol: ts_code[..6].into(),
        name: name.into(),
        exchange: "SH".into(),
        market: Some("A股".into()),
        industry: industry.map(String::from),
        list_date: None,
        status: "active".into(),
        source: "db".into(),
        updated_at: "2026-06-01".into(),
    }
}

#[test]
fn env_files_override_and_fall_back() {
    let project = parse_env_text("A=1\nA=2\nB=  \n  C = 'x' \n=nokey\nnovalue\n");
    assert_eq!(project.get("A").as_deref(), Some("2"));
    assert_eq!(project.get("C").as_deref(), Some("x"));
    assert_eq!(project.get("missing"), None);
    let mut global = EnvMap::new();
    global.insert("B".into(), "global-b".into());
    global.insert("D".into(), "global-d".into());
    assert_eq!(env_lookup(&project, &global, "B").as_deref(), Some("global-b"));
    assert_eq!(env_lookup(&project, &global, "A").as_deref(), Some("2"));
    assert_eq!(env_lookup(&project, &global, "E"), None);
}

#[test]
fn llm_credentials_come_from_env() {
    let project = parse_env_text("DEEPSEEK_API_KEY=sk-1\nDEFAULT_LLM_PROVIDER=deepseek\n");
    let global = EnvMap::new();
    let creds = collect_llm_credentials_from_env_files(&project, &global);
    assert!(creds.iter().any(|c| c.provider == "deepseek" && c.api_key == "sk-1"));
    assert_eq!(default_llm_provider_from_env_files(&project, &global).as_deref(), Some("deepseek"));
    assert!(template("deepseek").is_some());
    assert!(template("no-such-provider").is_none());
    assert!(build_provider_config("no-such-provider", "k", None, None).is_none());
    let c = build_provider_config("deepseek", "sk-9", None, Some("m")).unwrap();
    assert_eq!(c.name, "deepseek");
    assert_eq!(c.model, "m");
}

#[test]
fn triggers_and_watchlists_normalize() {
    assert_eq!(normalize_analysis_trigger("  tomorrow "), "tomorrow");
    assert_eq!(normalize_analysis_trigger("weekly"), "scheduled");
    assert_eq!(normalize_analysis_trigger(&normalize_analysis_trigger(" manual")), "manual");
    let w = normalize_watchlist(&vec![" RB2510 ".into(), "   ".into(), "Au2512".into()]);
    assert_eq!(w, vec!["rb2510".to_string(), "au2512".to_string()]);
}

#[test]
fn count_preferences_are_clamped() {
    let p = CountPreferences {
        schedule_interval_hours: 0,
        daily_briefing_hour: 30,
        news_classify_batch: 99,
        anomaly_window_secs: -5,
        anomaly_cooldown_secs: 1_000_000,
    }
    .normalize();
    assert_eq!(p.schedule_interval_hours, 1);
    assert_eq!(p.daily_briefing_hour, 23);
    assert_eq!(p.news_classify_batch, 50);
    assert_eq!(p.anomaly_window_secs, 60);
    assert_eq!(p.anomaly_cooldown_secs, 86400);
    let d = CountPreferences::default();
    let n = CountPreferences::default().normalize();
    assert_eq!(d.schedule_interval_hours, n.schedule_interval_hours);
    assert_eq!(d.anomaly_window_secs, n.anomaly_window_secs);
}

#[test]
fn database_path_and_token() {
    assert_eq!(resolve_database_path("sqlite:///data/quant.db", "/root/app"), "/root/app/data/quant.db");
    assert_eq!(resolve_database_path("/var/db/q.db", "/root/app"), "/var/db/q.db");
    assert_eq!(choose_mcp_token("  ".into(), "bearer".into()), "bearer");
    assert_eq!(choose_mcp_token("primary".into(), "bearer".into()), "primary");
}

#[test]
fn secrets_are_masked_and_sealed() {
    assert_eq!(mask_secret("   "), "（未配置）");
    assert_eq!(mask_secret("abcd"), "****");
    assert_eq!(mask_secret(" sk-123456789 "), "****6789");
    assert_eq!(mask_secret("abcdé"), "****bcdé");
    let key = "0123456789abcdef-key";
    assert_eq!(decrypt_value("AAAA", key), Err("invalid ciphertext".to_string()));
    let sealed = encrypt_value("secret", key).unwrap();
    let other = encrypt_value("secret", "another-key-0123456789").unwrap();
    assert_eq!(decrypt_value(&other, key), Err("aead::Error".to_string()));
    assert_eq!(decrypt_value(&sealed, key), Ok("secret".to_string()));
    assert_eq!(mask_secret("ab密钥"), "****");
    assert_eq!(mask_secret("密钥密钥密"), "****钥密钥密");
    assert!(encryption_ready("0123456789abcdef"));
    assert!(!encryption_ready("  short  "));
    let key = "another-key-0123456789";
    let a = encrypt_value("同样的明文", key).unwrap();
    let b = encrypt_value("同样的明文", key).unwrap();
    assert_ne!(a, b);
    assert_ne!(a, "同样的明文");
    assert_eq!(decrypt_value(&b, key).unwrap(), "同样的明文");
    assert!(decrypt_value(&a, "a-different-key-0000").is_err());
    assert!(decrypt_value("not base64 !!", key).is_err());
    assert!(decrypt_value("AAAA", key).is_err());
}

#[test]
fn router_orders_providers() {
    let router = LlmRouter::new(
        vec![provider("doubao", "m1"), provider("deepseek", "m2"), provider("doubao", "m3")],
        "missing".into(),
    );
    assert_eq!(router.available_providers(), vec!["doubao".to_string(), "deepseek".to_string()]);
    assert_eq!(router.default_provider(), "doubao");
    let order: Vec<(String, String)> = router.ordered(Some("deepseek")).into_iter().map(|p| (p.name, p.model)).collect();
    assert_eq!(order, vec![("deepseek".to_string(), "m2".to_string()), ("doubao".to_string(), "m3".to_string())]);
    assert_eq!(router.ordered(Some("other")).len(), 2);
    let empty = LlmRouter::new(vec![], "x".into());
    assert_eq!(empty.default_provider(), "");
    assert!(empty.ordered(None).is_empty());
}

#[test]
fn chat_answers_are_read() {
    assert_eq!(chat_completions_url("https://api.example.com/v1//"), "https://api.example.com/v1/chat/completions");
    assert_eq!(sse_data("data:  {\"a\":1} ").as_deref(), Some("{\"a\":1}"));
    assert_eq!(sse_data("data: [DONE]"), None);
    assert_eq!(sse_data("event: x"), None);
    let chunk = json(r#"{"choices": [{"delta": {"content": "你好"}}]}"#);
    assert_eq!(delta_content(&chunk).as_deref(), Some("你好"));
    assert_eq!(message_content(&chunk), None);
    let answer = json(r#"{"choices": [{"message": {"content": "答"}}]}"#);
    assert_eq!(message_content(&answer).as_deref(), Some("答"));
    assert_eq!(delta_content(&json(r#"{"choices": []}"#)), None);
    assert_eq!(providers_failed_message("timeout"), "all LLM providers failed: timeout");
}

#[test]
fn futures_symbols_and_periods() {
    assert_eq!(akshare_symbol("rb2510"), "RB0");
    assert_eq!(akshare_symbol("  Au2512 "), "AU0");
    assert_eq!(akshare_symbol("2510"), "2510");
    assert_eq!(akshare_symbol("\u{17f}c2510"), "SC0");
    assert_eq!(akshare_symbol("é2510"), "É2510");
    assert_eq!(akshare_symbol_from("x1", None), "X1");
    assert_eq!(akshare_symbol_from("x1", Some("cu".into())), "CU0");
    assert_eq!(interval_to_period("1m"), Some("1"));
    assert_eq!(interval_to_period("1h"), Some("60"));
    assert_eq!(interval_to_period("1d"), None);
    assert_eq!(interval_to_period("2h"), None);
    assert!(matches!(history_route("1d"), HistoryRoute::Daily));
    assert!(matches!(history_route("15m"), HistoryRoute::Minute(p) if p == "15"));
    assert!(matches!(history_route("1w"), HistoryRoute::Unsupported));
}

#[test]
fn asset_filters_compare_lowercased() {
    let a = AssetText {
        symbol: "RB0".into(),
        name: "螺纹钢".into(),
        market: "futures".into(),
        sector: Some("Black".into()),
        industry: None,
        category: Some("Steel".into()),
        quality: "LIVE".into(),
        watched: Some(false),
    };
    let mut q = AssetTextQuery { query: Some("rb".into()), sector: None, industry: None, quality: None, watched: None };
    assert!(asset_text_matches(&a, &q));
    q.sector = Some("FUTURES".into());
    assert!(asset_text_matches(&a, &q));
    q.industry = Some("steel".into());
    q.quality = Some("live".into());
    assert!(asset_text_matches(&a, &q));
    q.watched = Some(true);
    assert!(!asset_text_matches(&a, &q));
    q.watched = None;
    q.query = Some("cu".into());
    assert!(!asset_text_matches(&a, &q));
}

#[test]
fn stock_codes() {
    assert_eq!(ts_code_exchange("600000"), "SH");
    assert_eq!(ts_code_exchange("000001"), "SZ");
    assert_eq!(ts_code_exchange("830799"), "BJ");
    assert_eq!(normalize_ts_code("600519"), "600519.SH");
    assert_eq!(normalize_ts_code("000001.sz"), "000001.SZ");
    assert_eq!(em_code("300750"), "300750.SZ");
    assert_eq!(sina_code("000001.SZ"), "sz000001");
    assert_eq!(sina_code("600000"), "sh600000");
    assert_eq!(em_secid("600000.SH"), "1.600000");
    assert_eq!(em_secid("000001.SZ"), "0.000001");
}

#[test]
fn company_reminders() {
    let found = choose_event_symbols(Some(listing("600000.SH", "浦发银行", None)), vec![]);
    assert_eq!(found.len(), 1);
    let fallback = choose_event_symbols(None, vec![]);
    assert_eq!(fallback.len(), 4);
    assert_eq!(fallback[0].source, "fallback");
    assert!(fallback[0].updated_at.ends_with("+00:00"));
    assert!([25, 29, 32, 35].contains(&fallback[0].updated_at.len()));
    let listed = choose_event_symbols(None, vec![listing("600519.SH", "贵州茅台", Some("白酒"))]);
    assert_eq!(listed[0].name, "贵州茅台");
    let events = announcement_events(&listed, "20260601", "d", "c");
    assert_eq!(events.len(), 1);
    assert_eq!(events[0].id, "announcement-600519.SH-20260601");
    assert_eq!(events[0].affected_sectors, vec!["白酒".to_string()]);
    assert!(events[0].summary.as_deref().unwrap().contains("所属行业 白酒"));
    let many: Vec<StockSymbol> = (0..25).map(|_| listing("600000.SH", "浦发银行", None)).collect();
    let capped = announcement_events(&many, "20260601", "d", "c");
    assert_eq!(capped.len(), 20);
    assert!(capped[0].summary.as_deref().unwrap().contains("未分类"));
}

#[test]
fn research_texts() {
    assert_eq!(infer_news_impact("库存累库 价格下滑"), "bearish");
    assert_eq!(infer_news_impact("减产 价格上涨"), "bullish");
    assert_eq!(infer_news_impact("平稳"), "neutral");
    assert_eq!(infer_overseas_driver("CL=F"), "能源");
    assert_eq!(infer_overseas_driver("XYZ"), "海外参考");
    let with = ensure_disclaimer("分析".into());
    assert!(with.ends_with("免责声明：以上内容仅供参考，不构成投资建议。"));
    assert_eq!(ensure_disclaimer(with.clone()), with);
    assert!(is_allowed_task_type(&allowed_task_types()[0]));
    assert!(!is_allowed_task_type("unknown"));
    assert_eq!(humanize_calendar_error("HTTP 401 Unauthorized"), "MCP Token 可能已过期");
    assert_eq!(humanize_calendar_error("429 too many"), "请求过于频繁，请稍后再试");
    assert_eq!(humanize_calendar_error(&"x".repeat(130)).len(), 120);
}

#[test]
fn database_catalog_and_estimates() {
    let specs = domain_specs();
    assert_eq!(specs.len(), 9);
    assert_eq!(specs[0].code, "quotes");
    assert_eq!(column_bytes("integer"), 8);
    assert_eq!(column_bytes("BLOB"), 128);
    assert_eq!(column_bytes("text"), 64);
    assert_eq!(column_bytes("DATE"), 32);
    assert_eq!(estimate_table_size(10, &vec!["INTEGER".into(), "TEXT".into()]), 720);
    assert_eq!(estimate_table_size(0, &vec!["TEXT".into()]), 0);
    assert_eq!(estimate_table_size(3, &vec![]), 3);
    let b = merge_time_bounds(&vec![(Some("2026-02".into()), Some("2026-03".into())), (Some("2026-01".into()), None)]);
    assert_eq!(b, (Some("2026-01".to_string()), Some("2026-03".to_string())));
    assert_eq!(vacuum_into_sql("/tmp/it's.db"), "VACUUM INTO '/tmp/it''s.db';");
    let now = parse_dt("2026-06-01 12:00:00").unwrap();
    assert_eq!(quality_for(0, Some("2026-06-01 12:00:00"), now), "pending");
    assert_eq!(quality_for(5, Some("2026-06-01 11:58:00"), now), "live");
    assert_eq!(quality_for(5, Some("2026-06-01 02:00:00"), now), "stale");
    assert_eq!(quality_for(5, Some("2026-05-01 02:00:00"), now), "error");
    assert_eq!(quality_for(5, Some("garbage"), now), "error");
}

#[test]
fn times_parse_as_utc() {
    assert_eq!(parse_dt("1970-01-02 00:00:00"), Some(86400));
    assert_eq!(parse_dt("1970-01-01T01:00:00+01:00"), Some(0));
    assert_eq!(parse_dt("2026-06-25 20:30"), Some(days_from_date(2026, 6, 25) * 86400 + 20 * 3600 + 30 * 60));
    assert_eq!(parse_dt("2026-13-01 00:00:00"), None);
    assert_eq!(parse_dt(""), None);
}

#[test]
fn mcp_streams_yield_results() {
    let frames = sse_frames("event: message\ndata: {\"a\":\ndata: 1}\n\ndata: {\"result\": 2}\n");
    assert_eq!(frames.blocks, vec!["{\"a\":\n1}".to_string()]);
    assert_eq!(frames.trailing.as_deref(), Some("{\"result\": 2}"));
    let blocks = vec![Some(json(r#"{"a": 1}"#)), Some(json(r#"{"error": {"code": 1}}"#))];
    let texts = vec!["a".to_string(), "err".to_string()];
    match select_rpc_result(&blocks, &texts, &None) {
        Err(RpcFailure::ServerError(t)) => assert_eq!(t, "err"),
        _ => panic!("expected a server error"),
    }
    let trailing = Some(json(r#"{"result": {"ok": true}}"#));
    assert!(select_rpc_result(&vec![], &vec![], &trailing).is_ok());
    assert!(matches!(select_rpc_result(&vec![None], &vec!["x".into()], &None), Err(RpcFailure::NoResult)));
}

#[test]
fn leaderboard_plans() {
    let p = thisismyquant::assets::leaderboard_plan("Losers", None);
    assert_eq!(p.label, "跌幅榜");
    assert_eq!(p.sort_by, "change_pct");
    assert!(!p.sort_desc);
    assert!(p.reverse);
    assert_eq!(p.limit, 20);
    let q = thisismyquant::assets::leaderboard_plan("volume_spike", Some(500));
    assert_eq!(q.sort_by, "volume");
    assert!(q.sort_desc);
    assert_eq!(q.limit, 100);
    assert_eq!(thisismyquant::assets::leaderboard_plan("mine", Some(0)).label, "mine");
    assert_eq!(thisismyquant::assets::leaderboard_plan("mine", Some(0)).limit, 1);
}

#[test]
fn llm_setup_page() {
    let configured = vec![provider("deepseek", "old"), provider("deepseek", "new-model")];
    let views = thisismyquant::setup::llm_setup_views(&configured);
    assert_eq!(views.len(), 7);
    let ds = views.iter().find(|v| v.name == "deepseek").unwrap();
    assert!(ds.configured);
    assert_eq!(ds.model, "new-model");
    assert_eq!(ds.api_key_masked, "****");
    let qwen = views.iter().find(|v| v.name == "qwen").unwrap();
    assert!(!qwen.configured);
    assert_eq!(qwen.api_key_masked, "（未配置）");
    assert_eq!(qwen.model, "qwen-plus");
    assert!(thisismyquant::setup::credential_to_save("ollama", " "));
    assert!(!thisismyquant::setup::credential_to_save("qwen", " "));
    assert!(thisismyquant::setup::credential_to_save("qwen", "sk"));
    let ps = vec![provider("doubao", "m"), provider("qwen", "m")];
    assert_eq!(thisismyquant::setup::choose_default_provider("kimi", "qwen", &ps), "kimi");
    assert_eq!(thisismyquant::setup::choose_default_provider("", "qwen", &ps), "qwen");
    assert_eq!(thisismyquant::setup::choose_default_provider("", "gone", &ps), "doubao");
}

#[test]
fn factor_and_dashboard_pieces() {
    assert_eq!(factor_quality(true, true), "live+history");
    assert_eq!(factor_quality(true, false), "live");
    assert_eq!(factor_quality(false, true), "history");
    assert_eq!(factor_quality(false, false), "pending");
    let d: Vec<String> = vec!["库存".into(), "利润".into(), "到港".into(), "运价".into()];
    assert_eq!(drivers_text(&d), "库存 / 利润 / 到港");
    assert_eq!(drivers_text(&vec!["库存".into()]), "库存");
    assert_eq!(drivers_text(&vec![]), "");
    assert_eq!(volume_factor(1200), ("1200".to_string(), "tracked".to_string()));
    assert_eq!(volume_factor(0), ("待回填".to_string(), "pending".to_string()));
    let idx = dashboard_indices();
    assert_eq!(idx.len(), 4);
    assert_eq!(idx[3], ("000688.SH".to_string(), "科创50".to_string()));
    assert_eq!(catalog_status(3), "available");
    assert_eq!(catalog_status(0), "pending");
}

#[test]
fn stream_buffers_split_into_lines() {
    let (lines, rest) = thisismyquant::llm::take_buffer_lines("data: a \r\n\ndata: b\npartial");
    assert_eq!(lines, vec!["data: a".to_string(), "".to_string(), "data: b".to_string()]);
    assert_eq!(rest, "partial");
    let (none, all) = thisismyquant::llm::take_buffer_lines("no newline");
    assert!(none.is_empty());
    assert_eq!(all, "no newline");
}

#[test]
fn overseas_reference_contracts() {
    let s = thisismyquant::insights::overseas_symbols();
    assert_eq!(s.len(), 9);
    assert_eq!(s[0].symbol, "CL=F");
    assert_eq!(s[8].name, "CBOT 豆粕");
    for o in &s {
        assert_ne!(thisismyquant::insights::infer_overseas_driver(&o.symbol), "海外参考");
    }
}

#[test]
fn calendar_dates_fall_back_to_chrono() {
    let (s, e) = (days_from_date(2026, 6, 24), days_from_date(2026, 6, 30));
    assert!(event_in_range("2026-06-25 20:30:00", s, e));
    assert!(!event_in_range("2026-07-02 20:30:00", s, e));
    // one-digit month and day: chrono's `%Y-%m-%d` reads them
    assert!(event_in_range("2026-6-25", s, e));
    assert!(!event_in_range("2026-7-2", s, e));
    // no date in the first ten bytes: the event passes
    assert!(event_in_range("soon", s, e));
    assert!(event_in_range("", s, e));
    assert!(pub_time_checkable("2026-6-25"));
    assert!(pub_time_checkable("2026年6"));
    assert!(!pub_time_checkable("2026年6月25日"));
}

#[test]
fn mcp_primary_data_is_chosen() {
    let structured = json(r#"{"structuredContent": {"data": [{"title": "CPI", "pub_time": "2026-06-25 20:30:00", "star": 4}]}, "content": []}"#);
    let parsed = vec![Some(json(r#"{"data": []}"#))];
    assert_eq!(
        format!("{:?}", pick_primary_mcp_data(&structured, &parsed)),
        format!("{:?}", Some(&json(r#"{"data": [{"title": "CPI", "pub_time": "2026-06-25 20:30:00", "star": 4}]}"#)))
    );
    let plain = json(r#"{"content": [{"type": "text", "text": "x"}]}"#);
    let texts = vec![None, Some(json(r#"{"data": [{"title": "PMI", "pub_time": "2026-06-26 09:45:00", "star": 3}]}"#)), Some(json("{}"))];
    assert!(std::ptr::eq(pick_primary_mcp_data(&plain, &texts).unwrap(), texts[1].as_ref().unwrap()));
    assert!(pick_primary_mcp_data(&plain, &vec![None]).is_none());
    let now = days_from_date(2026, 6, 1) * 86400;
    let events = parse_mcp_calendar_result(&plain, &texts, now);
    assert_eq!(events.len(), 1);
    assert_eq!(events[0].name, "PMI");
    assert_eq!(parse_mcp_calendar_result(&structured, &parsed, now)[0].name, "CPI");
}

#[test]
fn providers_fall_back_in_turn() {
    assert_eq!(fallback_result(&vec![Err("timeout".into()), Ok("answer".into())]), Ok("answer".to_string()));
    assert_eq!(
        fallback_result(&vec![Err("timeout".into()), Err("401".into())]),
        Err("all LLM providers failed: 401".to_string())
    );
    assert_eq!(fallback_result(&vec![]), Err("all LLM providers failed: ".to_string()));
}

#[test]
fn data_sources_report_their_state() {
    let h = thisismyquant::insights::data_source_health(true, true, false, "akshare_poll");
    let want: Vec<(String, String)> = vec![
        ("akshare".into(), "ready".into()),
        ("jinshi".into(), "enabled".into()),
        ("db".into(), "ready".into()),
        ("feed".into(), "akshare_poll".into()),
    ];
    assert_eq!(h, want);
    let h = thisismyquant::insights::data_source_health(false, false, true, "x");
    assert_eq!(h[0].1, "unavailable");
    assert_eq!(h[1].1, "disabled");
    assert_eq!(thisismyquant::insights::data_source_health(true, true, true, "x")[1].1, "connected");
}

#[test]
fn built_provider_configs_are_fixed_points() {
    let r = build_provider_config("deepseek", "  sk-1  ", Some(" https://api.example.com/v1// "), None).unwrap();
    assert_eq!(r.base_url, "https://api.example.com/v1");
    let again = build_provider_config(&r.name, &r.api_key, Some(&r.base_url), Some(&r.model)).unwrap();
    assert_eq!(
        (again.name, again.api_key, again.base_url, again.model),
        (r.name, r.api_key, r.base_url, r.model)
    );
}

#[test]
fn screens_keep_the_latest_dates() {
    let v = vec![None, Some("20260529".to_string()), Some("20260601".to_string()), None, Some("20260530".to_string())];
    assert_eq!(latest_of(&v), Some("20260601".to_string()));
    assert_eq!(latest_of(&vec![None, None]), None);
    assert_eq!(latest_of(&vec![Some("2025Q4".to_string()), Some("2026Q1".to_string())]), Some("2026Q1".to_string()));
}

#[test]
fn ai_summaries_become_reports() {
    assert_eq!(check_ai_output("  \n "), Err("LLM returned empty output".to_string()));
    assert_eq!(check_ai_output("{}"), Ok(()));
    let sources = vec![
        AiSource { source_type: "news".into(), id: Some("n1".into()) },
        AiSource { source_type: "quote".into(), id: Some("q1".into()) },
        AiSource { source_type: "news".into(), id: None },
    ];
    let rep = ai_summary_report(
        "r1".into(), None, "market_brief".into(), "deepseek".into(), "v1".into(),
        "正文".into(), "2026-06-01T00:00:00+00:00".into(), 2, &sources,
    )
    .unwrap();
    assert_eq!(rep.symbol, "ai_summary");
    assert_eq!(rep.trigger, "market_brief");
    assert_eq!(rep.context_summary, "task=market_brief assets=2 sources=3");
    assert_eq!(rep.tags, vec!["ai".to_string(), "market_brief".to_string()]);
    assert_eq!(rep.news_ids, vec!["n1".to_string()]);
    let with_symbol = ai_summary_report(
        "r2".into(), Some("AU0".into()), "t".into(), "p".into(), "v1".into(), "x".into(), "c".into(), 0, &vec![],
    )
    .unwrap();
    assert_eq!(with_symbol.symbol, "AU0");
    assert_eq!(with_symbol.context_summary, "task=t assets=0 sources=0");
    assert_eq!(
        ai_summary_report("r3".into(), None, "t".into(), "p".into(), "v".into(), " ".into(), "c".into(), 0, &vec![]).err(),
        Some("LLM output has no content".to_string())
    );
}
