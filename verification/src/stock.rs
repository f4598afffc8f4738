//! A-share codes and the stock catalog as the Eastmoney and Sina feeds give it.
use vstd::prelude::*;

use crate::json::{value_get, JsonValue};
use crate::time::utc_timestamp;
use crate::calendar::{chars_le, lemma_lex_total, lemma_lex_trans, lex_le};
use vstd::string::StrSliceExecFns;
use crate::text::{
    append_str, chars_of, contains_seq, index_of, opt_view, push_char, split_chars, split_on,
    starts_with_seq, str_eq, str_starts_with, strings_view, to_owned_string, to_upper, uppercase,
};

verus! {

// ---------------------------------------------------------------------------
// Codes
// ---------------------------------------------------------------------------

/// The exchange of a bare A-share code: Shanghai for 6/5/9, Shenzhen for
/// 00/30/12/08, Beijing for 4/8, Shanghai otherwise.
pub open spec fn exchange_spec(symbol: Seq<char>) -> Seq<char> {
    if starts_with_seq(symbol, "6"@) || starts_with_seq(symbol, "5"@) || starts_with_seq(symbol, "9"@) {
        "SH"@
    } else if starts_with_seq(symbol, "00"@) || starts_with_seq(symbol, "30"@) || starts_with_seq(symbol, "12"@)
        || starts_with_seq(symbol, "08"@) {
        "SZ"@
    } else if starts_with_seq(symbol, "4"@) || starts_with_seq(symbol, "8"@) {
        "BJ"@
    } else {
        "SH"@
    }
}

/// The exchange suffix of a bare A-share code.
pub fn ts_code_exchange(symbol: &str) -> (r: String)
    ensures
        r@ == exchange_spec(symbol@),
{
    if str_starts_with(symbol, "6") || str_starts_with(symbol, "5") || str_starts_with(symbol, "9") {
        to_owned_string("SH")
    } else if str_starts_with(symbol, "00") || str_starts_with(symbol, "30") || str_starts_with(symbol, "12")
        || str_starts_with(symbol, "08") {
        to_owned_string("SZ")
    } else if str_starts_with(symbol, "4") || str_starts_with(symbol, "8") {
        to_owned_string("BJ")
    } else {
        to_owned_string("SH")
    }
}

/// `code.EX`.
pub open spec fn with_exchange(code: Seq<char>) -> Seq<char> {
    code + seq!['.'] + exchange_spec(code)
}

fn append_exchange(code: &str) -> (r: String)
    ensures
        r@ == with_exchange(code@),
{
    let mut out = to_owned_string(code);
    push_char(&mut out, '.');
    let ex = ts_code_exchange(code);
    append_str(&mut out, ex.as_str());
    out
}

/// A code in `code.EX` form: upper-cased when it has an exchange suffix, else the suffix added.
pub open spec fn normalize_ts_code_spec(ts_code: Seq<char>) -> Seq<char> {
    if contains_seq(ts_code, seq!['.']) {
        uppercase(ts_code)
    } else {
        with_exchange(ts_code)
    }
}

fn has_dot(s: &str) -> (r: bool)
    ensures
        r == contains_seq(s@, seq!['.']),
{
    let cs = chars_of(s);
    let mut dot: Vec<char> = Vec::new();
    dot.push('.');
    assert(dot@ =~= seq!['.']);
    crate::text::chars_contain(&cs, &dot)
}

/// Normalizes an A-share code to `code.EX`.
pub fn normalize_ts_code(ts_code: &str) -> (r: String)
    ensures
        r@ == normalize_ts_code_spec(ts_code@),
{
    if has_dot(ts_code) {
        to_upper(ts_code)
    } else {
        append_exchange(ts_code)
    }
}

/// The Eastmoney form of a code: the code itself when it has a suffix, else `code.EX`.
pub fn em_code(ts_code: &str) -> (r: String)
    ensures
        r@ == if contains_seq(ts_code@, seq!['.']) {
            ts_code@
        } else {
            with_exchange(ts_code@)
        },
{
    if has_dot(ts_code) {
        to_owned_string(ts_code)
    } else {
        append_exchange(ts_code)
    }
}

/// The Sina form of a code: `sh600000`, `sz000001`, `bj…`; `sh` and the whole code
/// when it is not `code.EX`.
pub open spec fn sina_code_spec(ts_code: Seq<char>) -> Seq<char> {
    let parts = split_on(ts_code, '.');
    if parts.len() == 2 {
        let prefix = if parts[1] == "SH"@ {
            "sh"@
        } else if parts[1] == "SZ"@ {
            "sz"@
        } else if parts[1] == "BJ"@ {
            "bj"@
        } else {
            "sh"@
        };
        prefix + parts[0]
    } else {
        "sh"@ + ts_code
    }
}

/// The Sina form of a code.
pub fn sina_code(ts_code: &str) -> (r: String)
    ensures
        r@ == sina_code_spec(ts_code@),
{
    let cs = chars_of(ts_code);
    let parts = split_chars(&cs, '.');
    let ghost pv = parts@.map_values(|v: Vec<char>| v@);
    if parts.len() == 2 {
        assert(pv[0] == parts@[0]@ && pv[1] == parts@[1]@);
        let ex = crate::text::string_from(&parts[1]);
        let mut out = if str_eq(ex.as_str(), "SH") {
            to_owned_string("sh")
        } else if str_eq(ex.as_str(), "SZ") {
            to_owned_string("sz")
        } else if str_eq(ex.as_str(), "BJ") {
            to_owned_string("bj")
        } else {
            to_owned_string("sh")
        };
        let code = crate::text::string_from(&parts[0]);
        append_str(&mut out, code.as_str());
        out
    } else {
        let mut out = to_owned_string("sh");
        append_str(&mut out, ts_code);
        out
    }
}

/// The Eastmoney security id of a code: `1.code` for Shanghai, `0.code` for
/// Shenzhen and Beijing; a bare code gets its exchange by its digits.
pub open spec fn em_secid_spec(ts_code: Seq<char>) -> Seq<char> {
    let parts = split_on(ts_code, '.');
    let code = if parts.len() == 2 {
        parts[0]
    } else {
        ts_code
    };
    let ex = if parts.len() == 2 {
        parts[1]
    } else {
        exchange_spec(ts_code)
    };
    let market = if ex == "SZ"@ || ex == "BJ"@ {
        "0"@
    } else {
        "1"@
    };
    market + seq!['.'] + code
}

/// The Eastmoney security id of a code.
pub fn em_secid(ts_code: &str) -> (r: String)
    ensures
        r@ == em_secid_spec(ts_code@),
{
    let cs = chars_of(ts_code);
    let parts = split_chars(&cs, '.');
    let (code, ex) = if parts.len() == 2 {
        (crate::text::string_from(&parts[0]), crate::text::string_from(&parts[1]))
    } else {
        (to_owned_string(ts_code), ts_code_exchange(ts_code))
    };
    let mut out = if str_eq(ex.as_str(), "SZ") || str_eq(ex.as_str(), "BJ") {
        to_owned_string("0")
    } else {
        to_owned_string("1")
    };
    push_char(&mut out, '.');
    append_str(&mut out, code.as_str());
    out
}

/// The exchange that an Eastmoney market field (`f13`, when it is text) denotes.
pub open spec fn eastmoney_exchange_spec(f13: Seq<char>) -> Seq<char> {
    if f13 == "0"@ || f13 == "13"@ {
        "SZ"@
    } else {
        "SH"@
    }
}

/// The exchange of an Eastmoney market field.
pub fn eastmoney_exchange(f13: &str) -> (r: String)
    ensures
        r@ == eastmoney_exchange_spec(f13@),
{
    if str_eq(f13, "0") || str_eq(f13, "13") {
        to_owned_string("SZ")
    } else {
        to_owned_string("SH")
    }
}

// ---------------------------------------------------------------------------
// Catalog records
// ---------------------------------------------------------------------------

/// An A-share listing.
#[derive(Clone, Debug)]
pub struct StockSymbol {
    pub ts_code: String,
    pub symbol: String,
    pub name: String,
    pub exchange: String,
    pub market: Option<String>,
    pub industry: Option<String>,
    pub list_date: Option<String>,
    pub status: String,
    pub source: String,
    pub updated_at: String,
}

/// An industry or concept board.
#[derive(Clone, Debug)]
pub struct StockBoard {
    pub board_code: String,
    pub board_name: String,
    pub board_type: String,
    pub source: String,
    pub updated_at: String,
}

/// A listing's membership of a board.
#[derive(Clone, Debug)]
pub struct StockBoardMember {
    pub board_code: String,
    pub ts_code: String,
    pub source: String,
    pub updated_at: String,
}

/// A request for daily bars.
#[derive(Clone, Debug)]
pub struct StockBarsRequest {
    pub code: String,
    pub adjustment: String,
    pub start_date: Option<String>,
    pub end_date: Option<String>,
    pub limit: i64,
}

/// The text of a string member, or the empty text.
pub open spec fn str_member(v: JsonValue, key: Seq<char>) -> Seq<char> {
    match value_get(v, key) {
        Some(JsonValue::Str(s)) => s@,
        _ => Seq::<char>::empty(),
    }
}

fn str_member_exec(v: &JsonValue, key: &str) -> (r: String)
    ensures
        r@ == str_member(*v, key@),
{
    match v.get(key) {
        Some(JsonValue::Str(s)) => to_owned_string(s.as_str()),
        _ => String::new(),
    }
}

/// The items of an Eastmoney list answer: `data.diff` as an array, or the values of
/// `data.diff` as an object.
pub open spec fn diff_items_spec(data: JsonValue) -> Seq<JsonValue> {
    match value_get(data, "data"@) {
        Some(d) => match value_get(d, "diff"@) {
            Some(JsonValue::Array(a)) => a@,
            Some(JsonValue::Object(m)) => m@.map_values(|kv: (String, JsonValue)| kv.1),
            _ => seq![],
        },
        None => seq![],
    }
}

/// The items of an Eastmoney list answer.
pub fn iter_diff_items(data: &JsonValue) -> (r: Vec<&JsonValue>)
    ensures
        r@.map_values(|v: &JsonValue| *v) == diff_items_spec(*data),
{
    let mut out: Vec<&JsonValue> = Vec::new();
    match data.get("data") {
        Some(d) => match d.get("diff") {
            Some(JsonValue::Array(a)) => {
                let mut i: usize = 0;
                while i < a.len()
                    invariant
                        i <= a.len(),
                        out@.map_values(|v: &JsonValue| *v) == a@.take(i as int),
                    decreases a.len() - i,
                {
                    let ghost before = out@;
                    out.push(&a[i]);
                    assert(out@.map_values(|v: &JsonValue| *v) =~= before.map_values(|v: &JsonValue| *v).push(a@[i as int]));
                    assert(a@.take(i + 1) == a@.take(i as int).push(a@[i as int]));
                    i = i + 1;
                }
                assert(a@.take(a.len() as int) == a@);
            },
            Some(JsonValue::Object(m)) => {
                let mut i: usize = 0;
                while i < m.len()
                    invariant
                        i <= m.len(),
                        out@.map_values(|v: &JsonValue| *v) == m@.map_values(|kv: (String, JsonValue)| kv.1).take(i as int),
                    decreases m.len() - i,
                {
                    let ghost before = out@;
                    let ghost mv = m@.map_values(|kv: (String, JsonValue)| kv.1);
                    out.push(&m[i].1);
                    assert(out@.map_values(|v: &JsonValue| *v) =~= before.map_values(|v: &JsonValue| *v).push(mv[i as int]));
                    assert(mv.take(i + 1) == mv.take(i as int).push(mv[i as int]));
                    i = i + 1;
                }
                assert(m@.map_values(|kv: (String, JsonValue)| kv.1).take(m.len() as int) == m@.map_values(|kv: (String, JsonValue)| kv.1));
            },
            _ => {},
        },
        None => {},
    }
    out
}

/// The listing that an Eastmoney item describes (`f12` code, `f13` market, `f14`
/// name, `f20` industry), if it has a code and a name.
pub open spec fn listing_spec(v: JsonValue) -> Option<(Seq<char>, Seq<char>, Seq<char>, Seq<char>, Option<Seq<char>>)> {
    let symbol = str_member(v, "f12"@);
    let ex = eastmoney_exchange_spec(str_member(v, "f13"@));
    let name = str_member(v, "f14"@);
    if symbol.len() == 0 || name.len() == 0 {
        None
    } else {
        Some(
            (
                symbol + seq!['.'] + ex,
                symbol,
                name,
                ex,
                match value_get(v, "f20"@) {
                    Some(JsonValue::Str(s)) => Some(s@),
                    _ => None,
                },
            ),
        )
    }
}

/// The listing of an Eastmoney item, stamped `now`.
pub fn stock_symbol_from_item(v: &JsonValue, now: &str) -> (r: Option<StockSymbol>)
    ensures
        match r {
            Some(s) => listing_spec(*v) == Some(
                (s.ts_code@, s.symbol@, s.name@, s.exchange@, opt_view(s.industry)),
            ) && s.market is None && s.list_date is None && s.status@ == "active"@ && s.source@
                == "eastmoney"@ && s.updated_at@ == now@,
            None => listing_spec(*v) is None,
        },
{
    let symbol = str_member_exec(v, "f12");
    let f13 = str_member_exec(v, "f13");
    let exchange = eastmoney_exchange(f13.as_str());
    let name = str_member_exec(v, "f14");
    if symbol.as_str().unicode_len() == 0 || name.as_str().unicode_len() == 0 {
        return None;
    }
    let mut ts_code = to_owned_string(symbol.as_str());
    push_char(&mut ts_code, '.');
    append_str(&mut ts_code, exchange.as_str());
    let industry = match v.get("f20") {
        Some(JsonValue::Str(s)) => Some(to_owned_string(s.as_str())),
        _ => None,
    };
    Some(
        StockSymbol {
            ts_code,
            symbol,
            name,
            exchange,
            market: None,
            industry,
            list_date: None,
            status: to_owned_string("active"),
            source: to_owned_string("eastmoney"),
            updated_at: to_owned_string(now),
        },
    )
}

/// The industry board of an Eastmoney board item (`f12` code, `f14` name), stamped `now`.
pub fn stock_board_from_item(v: &JsonValue, now: &str) -> (r: Option<StockBoard>)
    ensures
        match r {
            Some(b) => str_member(*v, "f12"@).len() > 0 && str_member(*v, "f14"@).len() > 0
                && b.board_code@ == str_member(*v, "f12"@) && b.board_name@ == str_member(*v, "f14"@)
                && b.board_type@ == "industry"@ && b.source@ == "eastmoney"@ && b.updated_at@ == now@,
            None => str_member(*v, "f12"@).len() == 0 || str_member(*v, "f14"@).len() == 0,
        },
{
    let code = str_member_exec(v, "f12");
    let name = str_member_exec(v, "f14");
    if code.as_str().unicode_len() == 0 || name.as_str().unicode_len() == 0 {
        return None;
    }
    Some(
        StockBoard {
            board_code: code,
            board_name: name,
            board_type: to_owned_string("industry"),
            source: to_owned_string("eastmoney"),
            updated_at: to_owned_string(now),
        },
    )
}

/// The membership that an Eastmoney item of board `board_code` describes, stamped `now`.
pub fn board_member_from_item(v: &JsonValue, board_code: &str, now: &str) -> (r: Option<StockBoardMember>)
    ensures
        match r {
            Some(m) => str_member(*v, "f12"@).len() > 0 && m.board_code@ == board_code@ && m.ts_code@
                == str_member(*v, "f12"@) + seq!['.'] + eastmoney_exchange_spec(str_member(*v, "f13"@))
                && m.source@ == "eastmoney"@ && m.updated_at@ == now@,
            None => str_member(*v, "f12"@).len() == 0,
        },
{
    let symbol = str_member_exec(v, "f12");
    if symbol.as_str().unicode_len() == 0 {
        return None;
    }
    let f13 = str_member_exec(v, "f13");
    let exchange = eastmoney_exchange(f13.as_str());
    let mut ts_code = symbol;
    push_char(&mut ts_code, '.');
    append_str(&mut ts_code, exchange.as_str());
    Some(
        StockBoardMember {
            board_code: to_owned_string(board_code),
            ts_code,
            source: to_owned_string("eastmoney"),
            updated_at: to_owned_string(now),
        },
    )
}

// ---------------------------------------------------------------------------
// Fallback catalog
// ---------------------------------------------------------------------------

fn fallback_symbol(ts_code: &str, symbol: &str, name: &str, exchange: &str, industry: &str, source: &str, now: &str) -> (r: StockSymbol)
    ensures
        r.ts_code@ == ts_code@ && r.symbol@ == symbol@ && r.name@ == name@ && r.exchange@ == exchange@,
        r.market matches Some(m) && m@ == "A股"@,
        r.industry matches Some(i) && i@ == industry@,
        r.list_date is None && r.status@ == "active"@ && r.source@ == source@ && r.updated_at@ == now@,
{
    StockSymbol {
        ts_code: to_owned_string(ts_code),
        symbol: to_owned_string(symbol),
        name: to_owned_string(name),
        exchange: to_owned_string(exchange),
        market: Some(to_owned_string("A股")),
        industry: Some(to_owned_string(industry)),
        list_date: None,
        status: to_owned_string("active"),
        source: to_owned_string(source),
        updated_at: to_owned_string(now),
    }
}

/// Code, bare symbol, name, exchange and industry of the built-in core listings.
pub open spec fn core_listings() -> Seq<(Seq<char>, Seq<char>, Seq<char>, Seq<char>, Seq<char>)> {
    seq![
        ("600000.SH"@, "600000"@, "浦发银行"@, "SH"@, "银行"@),
        ("600519.SH"@, "600519"@, "贵州茅台"@, "SH"@, "白酒"@),
        ("000001.SZ"@, "000001"@, "平安银行"@, "SZ"@, "银行"@),
        ("300750.SZ"@, "300750"@, "宁德时代"@, "SZ"@, "电池"@),
        ("000858.SZ"@, "000858"@, "五粮液"@, "SZ"@, "白酒"@),
    ]
}

/// Whether listings are the core listings (the first `n` of them), stamped `now` by `source`.
pub open spec fn are_core_listings(s: Seq<StockSymbol>, n: int, source: Seq<char>, now: Seq<char>) -> bool {
    s.len() == n && forall|k: int|
        0 <= k < n ==> {
            let c = core_listings()[k];
            let x = #[trigger] s[k];
            &&& x.ts_code@ == c.0 && x.symbol@ == c.1 && x.name@ == c.2 && x.exchange@ == c.3
            &&& x.market matches Some(m) && m@ == "A股"@
            &&& x.industry matches Some(i) && i@ == c.4
            &&& x.list_date is None && x.status@ == "active"@ && x.source@ == source && x.updated_at@ == now
        }
}

/// The listings used when the live catalog is unavailable.
pub fn fallback_core_stock_symbols(now: &str) -> (r: Vec<StockSymbol>)
    ensures
        are_core_listings(r@, 5, "fallback+sina_hq"@, now@),
{
    let mut r: Vec<StockSymbol> = Vec::new();
    r.push(fallback_symbol("600000.SH", "600000", "浦发银行", "SH", "银行", "fallback+sina_hq", now));
    r.push(fallback_symbol("600519.SH", "600519", "贵州茅台", "SH", "白酒", "fallback+sina_hq", now));
    r.push(fallback_symbol("000001.SZ", "000001", "平安银行", "SZ", "银行", "fallback+sina_hq", now));
    r.push(fallback_symbol("300750.SZ", "300750", "宁德时代", "SZ", "电池", "fallback+sina_hq", now));
    r.push(fallback_symbol("000858.SZ", "000858", "五粮液", "SZ", "白酒", "fallback+sina_hq", now));
    r
}

/// The listings that event reminders track when the local catalog is empty,
/// stamped with the current time (by the system clock).
pub fn fallback_stock_event_symbols() -> (r: Vec<StockSymbol>)
    ensures
        exists|now: Seq<char>| utc_timestamp(now) && are_core_listings(r@, 4, "fallback"@, now),
{
    let now = crate::time::now_rfc3339();
    fallback_stock_event_symbols_at(now.as_str())
}

/// The listings that event reminders track when the local catalog is empty: the
/// first four core listings, stamped `now`.
pub fn fallback_stock_event_symbols_at(now: &str) -> (r: Vec<StockSymbol>)
    ensures
        are_core_listings(r@, 4, "fallback"@, now@),
{
    let mut r: Vec<StockSymbol> = Vec::new();
    r.push(fallback_symbol("600000.SH", "600000", "浦发银行", "SH", "银行", "fallback", now));
    r.push(fallback_symbol("600519.SH", "600519", "贵州茅台", "SH", "白酒", "fallback", now));
    r.push(fallback_symbol("000001.SZ", "000001", "平安银行", "SZ", "银行", "fallback", now));
    r.push(fallback_symbol("300750.SZ", "300750", "宁德时代", "SZ", "电池", "fallback", now));
    r
}

/// Codes and names of the built-in industry boards.
pub open spec fn core_boards() -> Seq<(Seq<char>, Seq<char>)> {
    seq![("BK0001"@, "银行"@), ("BK0002"@, "白酒"@), ("BK0003"@, "电池"@), ("BK0004"@, "半导体"@), ("BK0005"@, "新能源车"@)]
}

fn fallback_board(code: &str, name: &str, now: &str) -> (r: StockBoard)
    ensures
        r.board_code@ == code@ && r.board_name@ == name@ && r.board_type@ == "industry"@ && r.source@
            == "fallback"@ && r.updated_at@ == now@,
{
    StockBoard {
        board_code: to_owned_string(code),
        board_name: to_owned_string(name),
        board_type: to_owned_string("industry"),
        source: to_owned_string("fallback"),
        updated_at: to_owned_string(now),
    }
}

/// The boards used when the live board list is unavailable.
pub fn fallback_stock_boards(now: &str) -> (r: Vec<StockBoard>)
    ensures
        r@.len() == 5,
        forall|k: int|
            0 <= k < 5 ==> (#[trigger] r@[k]).board_code@ == core_boards()[k].0 && r@[k].board_name@
                == core_boards()[k].1 && r@[k].board_type@ == "industry"@ && r@[k].source@ == "fallback"@
                && r@[k].updated_at@ == now@,
{
    let mut r: Vec<StockBoard> = Vec::new();
    r.push(fallback_board("BK0001", "银行", now));
    r.push(fallback_board("BK0002", "白酒", now));
    r.push(fallback_board("BK0003", "电池", now));
    r.push(fallback_board("BK0004", "半导体", now));
    r.push(fallback_board("BK0005", "新能源车", now));
    r
}

/// The member codes of a built-in board: its core listings, or all five for any other board.
pub open spec fn fallback_member_codes(board_code: Seq<char>) -> Seq<Seq<char>> {
    if board_code == "BK0001"@ {
        seq!["600000.SH"@, "000001.SZ"@]
    } else if board_code == "BK0002"@ {
        seq!["600519.SH"@, "000858.SZ"@]
    } else if board_code == "BK0003"@ || board_code == "BK0005"@ {
        seq!["300750.SZ"@]
    } else {
        seq!["600000.SH"@, "600519.SH"@, "000001.SZ"@, "300750.SZ"@, "000858.SZ"@]
    }
}

/// The members of a board when the live membership is unavailable.
pub fn fallback_board_members(board_code: &str, now: &str) -> (r: Vec<StockBoardMember>)
    ensures
        r@.len() == fallback_member_codes(board_code@).len(),
        forall|k: int|
            0 <= k < r@.len() ==> (#[trigger] r@[k]).ts_code@ == fallback_member_codes(board_code@)[k]
                && r@[k].board_code@ == board_code@ && r@[k].source@ == "fallback"@ && r@[k].updated_at@ == now@,
{
    let codes: Vec<&str> = if str_eq(board_code, "BK0001") {
        let mut v = Vec::new();
        v.push("600000.SH");
        v.push("000001.SZ");
        v
    } else if str_eq(board_code, "BK0002") {
        let mut v = Vec::new();
        v.push("600519.SH");
        v.push("000858.SZ");
        v
    } else if str_eq(board_code, "BK0003") || str_eq(board_code, "BK0005") {
        let mut v = Vec::new();
        v.push("300750.SZ");
        v
    } else {
        let mut v = Vec::new();
        v.push("600000.SH");
        v.push("600519.SH");
        v.push("000001.SZ");
        v.push("300750.SZ");
        v.push("000858.SZ");
        v
    };
    let ghost cv = fallback_member_codes(board_code@);
    assert(codes@.len() == cv.len());
    assert(forall|k: int| 0 <= k < cv.len() ==> #[trigger] codes@[k]@ == cv[k]);
    let mut r: Vec<StockBoardMember> = Vec::new();
    let mut i: usize = 0;
    while i < codes.len()
        invariant
            i <= codes.len(),
            codes@.len() == cv.len(),
            cv == fallback_member_codes(board_code@),
            forall|k: int| 0 <= k < cv.len() ==> #[trigger] codes@[k]@ == cv[k],
            r@.len() == i,
            forall|k: int|
                0 <= k < i ==> (#[trigger] r@[k]).ts_code@ == cv[k] && r@[k].board_code@ == board_code@
                    && r@[k].source@ == "fallback"@ && r@[k].updated_at@ == now@,
        decreases codes.len() - i,
    {
        r.push(
            StockBoardMember {
                board_code: to_owned_string(board_code),
                ts_code: to_owned_string(codes[i]),
                source: to_owned_string("fallback"),
                updated_at: to_owned_string(now),
            },
        );
        i = i + 1;
    }
    r
}

/// Which built-in financial profile stands for a listing when no data is synced.
#[derive(Clone, Debug)]
pub enum FallbackProfile {
    Moutai,
    Catl,
    Wuliangye,
    PingAnBank,
    Default,
}

/// The profile of a listing by its normalized code.
pub open spec fn fallback_profile_spec(ts_code: Seq<char>) -> FallbackProfile {
    let c = normalize_ts_code_spec(ts_code);
    if c == "600519.SH"@ {
        FallbackProfile::Moutai
    } else if c == "300750.SZ"@ {
        FallbackProfile::Catl
    } else if c == "000858.SZ"@ {
        FallbackProfile::Wuliangye
    } else if c == "000001.SZ"@ {
        FallbackProfile::PingAnBank
    } else {
        FallbackProfile::Default
    }
}

/// The built-in financial profile that stands for a listing.
pub fn fallback_profile_of(ts_code: &str) -> (r: FallbackProfile)
    ensures
        r == fallback_profile_spec(ts_code@),
{
    let c = normalize_ts_code(ts_code);
    if str_eq(c.as_str(), "600519.SH") {
        FallbackProfile::Moutai
    } else if str_eq(c.as_str(), "300750.SZ") {
        FallbackProfile::Catl
    } else if str_eq(c.as_str(), "000858.SZ") {
        FallbackProfile::Wuliangye
    } else if str_eq(c.as_str(), "000001.SZ") {
        FallbackProfile::PingAnBank
    } else {
        FallbackProfile::Default
    }
}

// ---------------------------------------------------------------------------
// Sina quote lines
// ---------------------------------------------------------------------------

/// A date without its dashes (`2026-01-02` → `20260102`).
pub open spec fn without_dashes(s: Seq<char>) -> Seq<char>
    decreases s.len(),
{
    if s.len() == 0 {
        s
    } else if s.last() == '-' {
        without_dashes(s.drop_last())
    } else {
        without_dashes(s.drop_last()).push(s.last())
    }
}

/// A date without its dashes.
pub fn compact_date(s: &str) -> (r: String)
    ensures
        r@ == without_dashes(s@),
{
    let cs = chars_of(s);
    let mut out = String::new();
    let mut i: usize = 0;
    while i < cs.len()
        invariant
            i <= cs.len(),
            cs@ == s@,
            out@ == without_dashes(s@.take(i as int)),
        decreases cs.len() - i,
    {
        assert(s@.take(i + 1).drop_last() == s@.take(i as int));
        assert(s@.take(i + 1).last() == s@[i as int]);
        if cs[i] != '-' {
            push_char(&mut out, cs[i]);
        }
        i = i + 1;
    }
    assert(s@.take(cs.len() as int) == s@);
    out
}

/// The comma-separated fields between the first two double quotes of a Sina
/// quote line, when there are at least 32 of them.
pub open spec fn sina_hq_fields_spec(text: Seq<char>) -> Option<Seq<Seq<char>>> {
    let a = index_of(text, '"');
    if a < 0 {
        None
    } else {
        let rest = text.subrange(a + 1, text.len() as int);
        let b = index_of(rest, '"');
        if b < 0 {
            None
        } else {
            let parts = split_on(rest.subrange(0, b), ',');
            if parts.len() < 32 {
                None
            } else {
                Some(parts)
            }
        }
    }
}

/// The quoted fields of a Sina quote line (`var hq_str_sh600000="…";`).
pub fn sina_hq_fields(text: &str) -> (r: Option<Vec<String>>)
    ensures
        match r {
            Some(f) => sina_hq_fields_spec(text@) == Some(strings_view(f@)),
            None => sina_hq_fields_spec(text@) is None,
        },
{
    let cs = chars_of(text);
    proof {
        crate::text::lemma_index_of_bounds(cs@, '"');
    }
    let a = match crate::text::find_char(&cs, '"') {
        Some(a) => a,
        None => return None,
    };
    let rest = crate::text::sub_chars(&cs, a + 1, cs.len());
    proof {
        crate::text::lemma_index_of_bounds(rest@, '"');
    }
    let b = match crate::text::find_char(&rest, '"') {
        Some(b) => b,
        None => return None,
    };
    let payload = crate::text::sub_chars(&rest, 0, b);
    let parts = split_chars(&payload, ',');
    if parts.len() < 32 {
        return None;
    }
    let mut out: Vec<String> = Vec::new();
    let mut i: usize = 0;
    while i < parts.len()
        invariant
            i <= parts.len(),
            strings_view(out@) == parts@.map_values(|v: Vec<char>| v@).take(i as int),
        decreases parts.len() - i,
    {
        let s = crate::text::string_from(&parts[i]);
        let ghost before = out@;
        let ghost pv = parts@.map_values(|v: Vec<char>| v@);
        out.push(s);
        assert(strings_view(out@) =~= strings_view(before).push(s@));
        assert(pv.take(i + 1) == pv.take(i as int).push(pv[i as int]));
        i = i + 1;
    }
    assert(parts@.map_values(|v: Vec<char>| v@).take(parts.len() as int) == parts@.map_values(|v: Vec<char>| v@));
    Some(out)
}

// ---------------------------------------------------------------------------
// Screening
// ---------------------------------------------------------------------------

/// The greatest of the present texts, by the order of `String::cmp` (the first of
/// equal ones): what a scan that replaces its value by each strictly greater one keeps.
pub open spec fn latest_present(vals: Seq<Option<Seq<char>>>) -> Option<Seq<char>>
    decreases vals.len(),
{
    if vals.len() == 0 {
        None
    } else {
        let prev = latest_present(vals.drop_last());
        match vals.last() {
            None => prev,
            Some(v) => match prev {
                Some(p) => if lex_le(v, p) {
                    prev
                } else {
                    Some(v)
                },
                None => Some(v),
            },
        }
    }
}

/// The present texts of a sequence of optional ones, as views.
pub open spec fn opt_views(vals: Seq<Option<String>>) -> Seq<Option<Seq<char>>> {
    vals.map_values(|o: Option<String>| opt_view(o))
}

/// The latest of the values seen (trade dates, report periods): the greatest present
/// one by the order of `String::cmp`, none when none is present.
pub fn latest_of(vals: &Vec<Option<String>>) -> (r: Option<String>)
    ensures
        opt_view(r) == latest_present(opt_views(vals@)),
{
    let mut best: Option<String> = None;
    let mut i: usize = 0;
    while i < vals.len()
        invariant
            i <= vals.len(),
            opt_view(best) == latest_present(opt_views(vals@).take(i as int)),
        decreases vals.len() - i,
    {
        let ghost w = opt_views(vals@);
        assert(w.take(i + 1).drop_last() == w.take(i as int));
        assert(w.take(i + 1).last() == opt_view(vals@[i as int]));
        match &vals[i] {
            Some(v) => {
                let replace = match &best {
                    Some(b) => !chars_le(&chars_of(v.as_str()), &chars_of(b.as_str())),
                    None => true,
                };
                if replace {
                    best = Some(v.clone());
                }
            },
            None => {},
        }
        i = i + 1;
    }
    assert(opt_views(vals@).take(vals.len() as int) == opt_views(vals@));
    best
}

/// The latest value is one of the present values, none comes after it, and there is
/// one exactly when some value is present.
pub proof fn law_latest_is_greatest(vals: Seq<Option<Seq<char>>>)
    ensures
        latest_present(vals) is None <==> forall|k: int| 0 <= k < vals.len() ==> (#[trigger] vals[k]) is None,
        latest_present(vals) matches Some(m) ==> exists|k: int| 0 <= k < vals.len() && vals[k] == Some(m),
        latest_present(vals) matches Some(m) ==> forall|k: int| 0 <= k < vals.len() && (#[trigger] vals[k]) is Some
            ==> lex_le(vals[k]->0, m),
    decreases vals.len(),
{
    if vals.len() > 0 {
        let init = vals.drop_last();
        law_latest_is_greatest(init);
        let n = vals.len() - 1;
        assert forall|k: int| 0 <= k < n implies #[trigger] vals[k] == init[k] by {}
        match latest_present(init) {
            Some(p) => {
                assert(vals[init_witness(init, p)] == Some(p));
                match vals.last() {
                    Some(v) => {
                        lemma_lex_total(v, p);
                        if !lex_le(v, p) {
                            assert forall|k: int| 0 <= k < vals.len() && (#[trigger] vals[k]) is Some
                                implies lex_le(vals[k]->0, v) by {
                                if k < n {
                                    assert(init[k] is Some);
                                    lemma_lex_trans(vals[k]->0, p, v);
                                } else {
                                    lemma_lex_refl(v);
                                }
                            }
                            assert(vals[n] == Some(v));
                        } else {
                            assert forall|k: int| 0 <= k < vals.len() && (#[trigger] vals[k]) is Some
                                implies lex_le(vals[k]->0, p) by {
                                if k < n {
                                    assert(init[k] is Some);
                                }
                            }
                        }
                    },
                    None => {
                        assert forall|k: int| 0 <= k < vals.len() && (#[trigger] vals[k]) is Some
                            implies lex_le(vals[k]->0, p) by {
                            if k < n {
                                assert(init[k] is Some);
                            }
                        }
                    },
                }
            },
            None => {
                match vals.last() {
                    Some(v) => {
                        assert forall|k: int| 0 <= k < vals.len() && (#[trigger] vals[k]) is Some
                            implies lex_le(vals[k]->0, v) by {
                            if k < n {
                                assert(init[k] is None);
                            } else {
                                lemma_lex_refl(v);
                            }
                        }
                        assert(vals[n] == Some(v));
                    },
                    None => {
                        assert forall|k: int| 0 <= k < vals.len() implies (#[trigger] vals[k]) is None by {
                            if k < n {
                                assert(init[k] is None);
                            }
                        }
                    },
                }
            },
        }
    }
}

spec fn init_witness(vals: Seq<Option<Seq<char>>>, m: Seq<char>) -> int {
    choose|k: int| 0 <= k < vals.len() && vals[k] == Some(m)
}

proof fn lemma_lex_refl(a: Seq<char>)
    ensures
        lex_le(a, a),
{
    lemma_lex_total(a, a);
}

} // verus!
