//! The Jin10 economic calendar: payload parsing, event filtering and the framing
//! of the MCP server's answers.
use vstd::prelude::*;
use vstd::utf8::encode_utf8;
use vstd::string::StrSliceExecFns;

use crate::crypto::{sha256_digest, sha256_spec};
use crate::json::{as_array_spec, members_get, members_lookup, value_get, JsonValue};
use crate::text::{
    chars_of, string_from_range, contains_seq, is_blank, opt_view, push_char, starts_with_seq, str_contains,
    str_starts_with, to_owned_string, trim_string, trim_ws, views_of,
};
use crate::time::{chrono_ymd_days_ce, day_of, day_of_instant, parse_dt, parse_dt_spec, parse_ymd_days_ce, EPOCH_DAYS_FROM_CE};
use crate::crypto::{char_utf8_len, utf8_width};

verus! {

// ---------------------------------------------------------------------------
// Events
// ---------------------------------------------------------------------------

/// One calendar event.
#[derive(Clone, Debug)]
pub struct CalendarEvent {
    pub id: String,
    pub pub_time: String,
    pub country: String,
    pub name: String,
    pub star: u8,
    pub previous: Option<String>,
    pub consensus: Option<String>,
    pub actual: Option<String>,
    pub unit: Option<String>,
    pub affect: Option<String>,
    pub status: String,
    pub event_type: String,
}

/// The content of a calendar event.
pub ghost struct CalendarEventView {
    pub id: Seq<char>,
    pub pub_time: Seq<char>,
    pub country: Seq<char>,
    pub name: Seq<char>,
    pub star: u8,
    pub previous: Option<Seq<char>>,
    pub consensus: Option<Seq<char>>,
    pub actual: Option<Seq<char>>,
    pub unit: Option<Seq<char>>,
    pub affect: Option<Seq<char>>,
    pub status: Seq<char>,
    pub event_type: Seq<char>,
}

impl View for CalendarEvent {
    type V = CalendarEventView;

    open spec fn view(&self) -> CalendarEventView {
        CalendarEventView {
            id: self.id@,
            pub_time: self.pub_time@,
            country: self.country@,
            name: self.name@,
            star: self.star,
            previous: opt_view(self.previous),
            consensus: opt_view(self.consensus),
            actual: opt_view(self.actual),
            unit: opt_view(self.unit),
            affect: opt_view(self.affect),
            status: self.status@,
            event_type: self.event_type@,
        }
    }
}

/// The views of a sequence of events.
pub open spec fn events_view(s: Seq<CalendarEvent>) -> Seq<CalendarEventView> {
    s.map_values(|e: CalendarEvent| e@)
}

// ---------------------------------------------------------------------------
// Field extraction
// ---------------------------------------------------------------------------

/// The first of `keys` whose member is a non-blank string (trimmed) or a number
/// (its text).
pub open spec fn pick_str_spec(obj: Seq<(String, JsonValue)>, keys: Seq<Seq<char>>) -> Option<Seq<char>>
    decreases keys.len(),
{
    if keys.len() == 0 {
        None
    } else {
        match members_get(obj, keys[0]) {
            Some(JsonValue::Str(s)) => if trim_ws(s@).len() > 0 {
                Some(trim_ws(s@))
            } else {
                pick_str_spec(obj, keys.drop_first())
            },
            Some(JsonValue::Number(n)) => Some(n.text@),
            _ => pick_str_spec(obj, keys.drop_first()),
        }
    }
}

/// The first of `keys` whose member is an integer, brought into `0..=5`.
pub open spec fn pick_star_spec(obj: Seq<(String, JsonValue)>, keys: Seq<Seq<char>>) -> Option<u8>
    decreases keys.len(),
{
    if keys.len() == 0 {
        None
    } else {
        match members_get(obj, keys[0]) {
            Some(JsonValue::Number(n)) => match n.as_u64 {
                Some(u) => Some(
                    if u > 5 {
                        5u8
                    } else {
                        u as u8
                    },
                ),
                None => match n.as_i64 {
                    Some(i) => Some(
                        if i < 0 {
                            0u8
                        } else if i > 5 {
                            5u8
                        } else {
                            i as u8
                        },
                    ),
                    None => pick_star_spec(obj, keys.drop_first()),
                },
            },
            _ => pick_star_spec(obj, keys.drop_first()),
        }
    }
}

/// The first non-blank string or number among `keys` of an object.
pub fn pick_str(obj: &Vec<(String, JsonValue)>, keys: &[&str]) -> (r: Option<String>)
    ensures
        opt_view(r) == pick_str_spec(obj@, views_of(keys@)),
{
    let ghost kv = views_of(keys@);
    let mut i: usize = 0;
    assert(kv.subrange(0, kv.len() as int) == kv);
    while i < keys.len()
        invariant
            i <= keys@.len(),
            kv == views_of(keys@),
            pick_str_spec(obj@, kv) == pick_str_spec(obj@, kv.subrange(i as int, kv.len() as int)),
        decreases keys@.len() - i,
    {
        let ghost rest = kv.subrange(i as int, kv.len() as int);
        assert(rest[0] == keys@[i as int]@);
        assert(rest.drop_first() == kv.subrange(i + 1, kv.len() as int));
        match members_lookup(obj, keys[i]) {
            Some(JsonValue::Str(s)) => {
                if !is_blank(s.as_str()) {
                    return Some(trim_string(s.as_str()));
                }
            },
            Some(JsonValue::Number(n)) => {
                return Some(to_owned_string(n.text.as_str()));
            },
            _ => {},
        }
        i = i + 1;
    }
    None
}

/// The importance (`0..=5`) among `keys` of an object.
pub fn pick_star(obj: &Vec<(String, JsonValue)>, keys: &[&str]) -> (r: Option<u8>)
    ensures
        r == pick_star_spec(obj@, views_of(keys@)),
{
    let ghost kv = views_of(keys@);
    let mut i: usize = 0;
    assert(kv.subrange(0, kv.len() as int) == kv);
    while i < keys.len()
        invariant
            i <= keys@.len(),
            kv == views_of(keys@),
            pick_star_spec(obj@, kv) == pick_star_spec(obj@, kv.subrange(i as int, kv.len() as int)),
        decreases keys@.len() - i,
    {
        let ghost rest = kv.subrange(i as int, kv.len() as int);
        assert(rest[0] == keys@[i as int]@);
        assert(rest.drop_first() == kv.subrange(i + 1, kv.len() as int));
        match members_lookup(obj, keys[i]) {
            Some(JsonValue::Number(n)) => {
                match n.as_u64 {
                    Some(u) => {
                        return Some(
                            if u > 5 {
                                5u8
                            } else {
                                u as u8
                            },
                        );
                    },
                    None => match n.as_i64 {
                        Some(v) => {
                            return Some(
                                if v < 0 {
                                    0u8
                                } else if v > 5 {
                                    5u8
                                } else {
                                    v as u8
                                },
                            );
                        },
                        None => {},
                    },
                }
            },
            _ => {},
        }
        i = i + 1;
    }
    None
}

/// Country names that open an indicator's title, longest-first where one extends another.
pub open spec fn country_prefixes() -> Seq<Seq<char>> {
    seq![
        "欧元区"@, "中国香港"@, "中国台湾"@, "中国"@, "美国"@, "英国"@, "德国"@, "日本"@, "法国"@,
        "意大利"@, "西班牙"@, "加拿大"@, "澳大利亚"@, "新西兰"@, "韩国"@, "印度"@, "巴西"@, "俄罗斯"@,
        "瑞士"@, "瑞典"@, "挪威"@, "丹麦"@, "荷兰"@, "比利时"@, "奥地利"@, "新加坡"@, "马来西亚"@,
        "泰国"@, "越南"@, "菲律宾"@, "南非"@, "墨西哥"@, "阿根廷"@, "土耳其"@, "沙特"@, "阿联酋"@,
        "以色列"@, "波兰"@, "捷克"@, "匈牙利"@, "印尼"@, "印度尼西亚"@,
    ]
}

/// The first of `prefixes` that `title` starts with, or the empty text.
pub open spec fn first_prefix(title: Seq<char>, prefixes: Seq<Seq<char>>) -> Seq<char>
    decreases prefixes.len(),
{
    if prefixes.len() == 0 {
        Seq::<char>::empty()
    } else if starts_with_seq(title, prefixes[0]) {
        prefixes[0]
    } else {
        first_prefix(title, prefixes.drop_first())
    }
}

/// The country that opens a title such as `美国5月核心PCE物价指数年率`, or the empty text.
pub fn extract_country_from_title(title: &str) -> (r: String)
    ensures
        r@ == first_prefix(title@, country_prefixes()),
{
    let prefixes: [&str; 42] = [
        "欧元区", "中国香港", "中国台湾", "中国", "美国", "英国", "德国", "日本", "法国",
        "意大利", "西班牙", "加拿大", "澳大利亚", "新西兰", "韩国", "印度", "巴西", "俄罗斯",
        "瑞士", "瑞典", "挪威", "丹麦", "荷兰", "比利时", "奥地利", "新加坡", "马来西亚",
        "泰国", "越南", "菲律宾", "南非", "墨西哥", "阿根廷", "土耳其", "沙特", "阿联酋",
        "以色列", "波兰", "捷克", "匈牙利", "印尼", "印度尼西亚",
    ];
    let ghost pv = views_of(prefixes@);
    assert(pv =~= country_prefixes());
    let mut i: usize = 0;
    assert(pv.subrange(0, pv.len() as int) == pv);
    while i < 42
        invariant
            i <= 42,
            pv == views_of(prefixes@),
            pv == country_prefixes(),
            pv.len() == 42,
            first_prefix(title@, pv) == first_prefix(title@, pv.subrange(i as int, 42)),
        decreases 42 - i,
    {
        let ghost rest = pv.subrange(i as int, 42);
        assert(rest[0] == prefixes@[i as int]@);
        assert(rest.drop_first() == pv.subrange(i + 1, 42));
        if str_starts_with(title, prefixes[i]) {
            return to_owned_string(prefixes[i]);
        }
        i = i + 1;
    }
    String::new()
}

/// Whether a publication time lies after `now`: unparsable or empty times do not.
pub open spec fn is_future_spec(pub_time: Seq<char>, now: int) -> bool {
    match parse_dt_spec(pub_time) {
        Some(t) => t > now,
        None => false,
    }
}

/// Lower-case hexadecimal form of bytes.
pub open spec fn hex_lower(b: Seq<u8>) -> Seq<char>
    decreases b.len(),
{
    if b.len() == 0 {
        Seq::<char>::empty()
    } else {
        hex_lower(b.drop_last()).push(hex_digit(b.last() / 16)).push(hex_digit(b.last() % 16))
    }
}

pub open spec fn hex_digit(v: u8) -> char {
    if v < 10 {
        (('0' as u8) + v) as char
    } else {
        (('a' as u8) + v - 10) as char
    }
}

fn hex_digit_exec(v: u8) -> (c: char)
    requires
        v < 16,
    ensures
        c == hex_digit(v),
{
    if v < 10 {
        ((48u8 + v) as char)
    } else {
        ((97u8 + v - 10) as char)
    }
}

fn to_hex(b: &Vec<u8>) -> (r: String)
    ensures
        r@ == hex_lower(b@),
{
    let mut r = String::new();
    let mut i: usize = 0;
    while i < b.len()
        invariant
            i <= b.len(),
            r@ == hex_lower(b@.take(i as int)),
        decreases b.len() - i,
    {
        assert(b@.take(i + 1).drop_last() == b@.take(i as int));
        assert(b@.take(i + 1).last() == b@[i as int]);
        push_char(&mut r, hex_digit_exec(b[i] / 16));
        push_char(&mut r, hex_digit_exec(b[i] % 16));
        i = i + 1;
    }
    assert(b@.take(b.len() as int) == b@);
    r
}

/// The id of an event: the SHA-256 (hexadecimal) of `country|name|pub_time`.
pub open spec fn event_id_spec(country: Seq<char>, name: Seq<char>, pub_time: Seq<char>) -> Seq<char> {
    hex_lower(sha256_spec(encode_utf8(country + "|"@ + name + "|"@ + pub_time)))
}

fn event_id(country: &str, name: &str, pub_time: &str) -> (r: String)
    ensures
        r@ == event_id_spec(country@, name@, pub_time@),
{
    let mut key = to_owned_string(country);
    proof {
        reveal_strlit("|");
    }
    push_char(&mut key, '|');
    let n = chars_of(name);
    let mut i: usize = 0;
    let ghost head = key@;
    while i < n.len()
        invariant
            i <= n.len(),
            n@ == name@,
            key@ == head + name@.take(i as int),
        decreases n.len() - i,
    {
        push_char(&mut key, n[i]);
        i = i + 1;
        assert(name@.take(i as int) == name@.take(i - 1).push(name@[i - 1]));
    }
    assert(name@.take(n.len() as int) == name@);
    push_char(&mut key, '|');
    let t = chars_of(pub_time);
    let mut j: usize = 0;
    let ghost head2 = key@;
    while j < t.len()
        invariant
            j <= t.len(),
            t@ == pub_time@,
            key@ == head2 + pub_time@.take(j as int),
        decreases t.len() - j,
    {
        push_char(&mut key, t[j]);
        j = j + 1;
        assert(pub_time@.take(j as int) == pub_time@.take(j - 1).push(pub_time@[j - 1]));
    }
    assert(pub_time@.take(t.len() as int) == pub_time@);
    assert("|"@ == seq!['|']);
    assert(key@ == country@ + "|"@ + name@ + "|"@ + pub_time@);
    let bytes = crate::crypto::utf8_bytes(key.as_str());
    let digest = sha256_digest(bytes.as_slice());
    to_hex(&digest)
}

pub open spec fn unwrap_or_empty(o: Option<Seq<char>>) -> Seq<char> {
    match o {
        Some(s) => s,
        None => Seq::<char>::empty(),
    }
}

pub open spec fn country_keys() -> Seq<Seq<char>> {
    seq!["country"@, "country_name"@, "region"@]
}

pub open spec fn name_keys() -> Seq<Seq<char>> {
    seq!["name"@, "indicator_name"@, "title"@, "event_content"@, "event"@]
}

pub open spec fn time_keys() -> Seq<Seq<char>> {
    seq!["pub_time"@, "publish_time"@, "time"@, "event_time"@, "date"@]
}

pub open spec fn star_keys() -> Seq<Seq<char>> {
    seq!["star"@, "importance"@]
}

pub open spec fn previous_keys() -> Seq<Seq<char>> {
    seq!["previous"@, "prev"@, "前值"@]
}

pub open spec fn consensus_keys() -> Seq<Seq<char>> {
    seq!["consensus"@, "forecast"@, "预测值"@]
}

pub open spec fn actual_keys() -> Seq<Seq<char>> {
    seq!["actual"@, "act"@, "今值"@]
}

pub open spec fn unit_keys() -> Seq<Seq<char>> {
    seq!["unit"@, "time_period"@]
}

pub open spec fn affect_keys() -> Seq<Seq<char>> {
    seq!["affect_txt"@, "affect_text"@]
}

pub open spec fn event_keys() -> Seq<Seq<char>> {
    seq!["event_content"@, "event"@]
}

pub open spec fn indicator_keys() -> Seq<Seq<char>> {
    seq!["indicator_name"@, "name"@]
}

/// The market effect of an event: its text, else an integer `affect` code.
pub open spec fn affect_spec(obj: Seq<(String, JsonValue)>) -> Option<Seq<char>> {
    match pick_str_spec(obj, affect_keys()) {
        Some(a) => Some(a),
        None => match members_get(obj, "affect"@) {
            Some(JsonValue::Number(n)) => if n.as_i64 is Some {
                Some(n.text@)
            } else {
                None
            },
            _ => None,
        },
    }
}

/// The event that one calendar item describes, if it names one. Its country falls
/// back to the one that opens its name; its importance defaults to 1; it is
/// `scheduled` until an actual value is published for a time not after `now`.
pub open spec fn parse_item_spec(raw: JsonValue, default_type: Seq<char>, now: int) -> Option<CalendarEventView> {
    match raw {
        JsonValue::Object(m) => {
            let obj = m@;
            match pick_str_spec(obj, name_keys()) {
                None => None,
                Some(name) => if trim_ws(name).len() == 0 {
                    None
                } else {
                    let c0 = unwrap_or_empty(pick_str_spec(obj, country_keys()));
                    let country = if c0.len() == 0 {
                        first_prefix(name, country_prefixes())
                    } else {
                        c0
                    };
                    let pub_time = unwrap_or_empty(pick_str_spec(obj, time_keys()));
                    let actual = pick_str_spec(obj, actual_keys());
                    Some(
                        CalendarEventView {
                            id: event_id_spec(country, name, pub_time),
                            pub_time: pub_time,
                            country: country,
                            name: name,
                            star: match pick_star_spec(obj, star_keys()) {
                                Some(s) => s,
                                None => 1u8,
                            },
                            previous: pick_str_spec(obj, previous_keys()),
                            consensus: pick_str_spec(obj, consensus_keys()),
                            actual: actual,
                            unit: pick_str_spec(obj, unit_keys()),
                            affect: affect_spec(obj),
                            status: if trim_ws(unwrap_or_empty(actual)).len() == 0 {
                                "scheduled"@
                            } else if is_future_spec(pub_time, now) {
                                "scheduled"@
                            } else {
                                "released"@
                            },
                            event_type: if pick_str_spec(obj, event_keys()) is Some && pick_str_spec(
                                obj,
                                indicator_keys(),
                            ) is None {
                                "event"@
                            } else {
                                default_type
                            },
                        },
                    )
                },
            }
        },
        _ => None,
    }
}

/// A member that gives no value: absent, or a blank string.
pub open spec fn no_value(obj: Seq<(String, JsonValue)>, key: Seq<char>) -> bool {
    match members_get(obj, key) {
        None => true,
        Some(JsonValue::Str(s)) => trim_ws(s@).len() == 0,
        _ => false,
    }
}

proof fn lemma_pick_str_none(obj: Seq<(String, JsonValue)>, keys: Seq<Seq<char>>)
    requires
        forall|j: int| 0 <= j < keys.len() ==> no_value(obj, #[trigger] keys[j]),
    ensures
        pick_str_spec(obj, keys) is None,
    decreases keys.len(),
{
    if keys.len() > 0 {
        assert(no_value(obj, keys[0]));
        assert forall|j: int| 0 <= j < keys.drop_first().len() implies no_value(obj, #[trigger] keys.drop_first()[j]) by {
            assert(keys.drop_first()[j] == keys[j + 1]);
        }
        lemma_pick_str_none(obj, keys.drop_first());
    }
}

/// The release status of a parsed calendar item: `scheduled` while it has no actual
/// value (absent or blank, in the item as in the event) or its time is still ahead,
/// `released` once it has one and its time has come.
pub proof fn law_calendar_status(raw: JsonValue, default_type: Seq<char>, now: int)
    ensures
        parse_item_spec(raw, default_type, now) matches Some(ev) ==> {
            &&& (ev.actual is None || trim_ws(ev.actual->0).len() == 0) ==> ev.status == "scheduled"@
            &&& is_future_spec(ev.pub_time, now) ==> ev.status == "scheduled"@
            &&& (ev.actual matches Some(a) && trim_ws(a).len() > 0 && !is_future_spec(ev.pub_time, now))
                ==> ev.status == "released"@
            &&& (raw matches JsonValue::Object(m) && no_value(m@, "actual"@) && no_value(m@, "act"@)
                && no_value(m@, "今值"@)) ==> ev.status == "scheduled"@
        },
{
    match raw {
        JsonValue::Object(m) => {
            if no_value(m@, "actual"@) && no_value(m@, "act"@) && no_value(m@, "今值"@) {
                let keys = actual_keys();
                assert forall|j: int| 0 <= j < keys.len() implies no_value(m@, #[trigger] keys[j]) by {
                    if j == 0 {
                        assert(keys[j] == "actual"@);
                    } else if j == 1 {
                        assert(keys[j] == "act"@);
                    } else {
                        assert(keys[j] == "今值"@);
                    }
                }
                lemma_pick_str_none(m@, keys);
            }
        },
        _ => {},
    }
}

fn unwrap_string(o: Option<String>) -> (r: String)
    ensures
        r@ == unwrap_or_empty(opt_view(o)),
{
    match o {
        Some(s) => s,
        None => String::new(),
    }
}

/// Parses one calendar item at the instant `now` (seconds since the epoch).
pub fn parse_calendar_item_at(raw: &JsonValue, default_type: &str, now: i64) -> (r: Option<CalendarEvent>)
    ensures
        match r {
            Some(e) => parse_item_spec(*raw, default_type@, now as int) == Some(e@),
            None => parse_item_spec(*raw, default_type@, now as int) is None,
        },
{
    let obj = match raw {
        JsonValue::Object(m) => m,
        _ => return None,
    };
    assert(views_of(["name", "indicator_name", "title", "event_content", "event"]@) =~= name_keys());
    let name = match pick_str(obj, &["name", "indicator_name", "title", "event_content", "event"]) {
        Some(n) => n,
        None => return None,
    };
    if is_blank(name.as_str()) {
        return None;
    }
    assert(views_of(["country", "country_name", "region"]@) =~= country_keys());
    let c0 = unwrap_string(pick_str(obj, &["country", "country_name", "region"]));
    let country = if c0.as_str().unicode_len() == 0 {
        extract_country_from_title(name.as_str())
    } else {
        c0
    };
    assert(views_of(["pub_time", "publish_time", "time", "event_time", "date"]@) =~= time_keys());
    let pub_time = unwrap_string(pick_str(obj, &["pub_time", "publish_time", "time", "event_time", "date"]));
    assert(views_of(["star", "importance"]@) =~= star_keys());
    let star = match pick_star(obj, &["star", "importance"]) {
        Some(s) => s,
        None => 1u8,
    };
    assert(views_of(["previous", "prev", "前值"]@) =~= previous_keys());
    let previous = pick_str(obj, &["previous", "prev", "前值"]);
    assert(views_of(["consensus", "forecast", "预测值"]@) =~= consensus_keys());
    let consensus = pick_str(obj, &["consensus", "forecast", "预测值"]);
    assert(views_of(["actual", "act", "今值"]@) =~= actual_keys());
    let actual = pick_str(obj, &["actual", "act", "今值"]);
    assert(views_of(["unit", "time_period"]@) =~= unit_keys());
    let unit = pick_str(obj, &["unit", "time_period"]);
    assert(views_of(["affect_txt", "affect_text"]@) =~= affect_keys());
    let affect = match pick_str(obj, &["affect_txt", "affect_text"]) {
        Some(a) => Some(a),
        None => match members_lookup(obj, "affect") {
            Some(JsonValue::Number(n)) => match n.as_i64 {
                Some(_) => Some(to_owned_string(n.text.as_str())),
                None => None,
            },
            _ => None,
        },
    };
    assert(views_of(["event_content", "event"]@) =~= event_keys());
    assert(views_of(["indicator_name", "name"]@) =~= indicator_keys());
    let is_event = pick_str(obj, &["event_content", "event"]).is_some() && pick_str(
        obj,
        &["indicator_name", "name"],
    ).is_none();
    let event_type = if is_event {
        to_owned_string("event")
    } else {
        to_owned_string(default_type)
    };
    let actual_blank = match &actual {
        Some(a) => is_blank(a.as_str()),
        None => true,
    };
    proof {
        if actual is None {
            assert(trim_ws(Seq::<char>::empty()) == Seq::<char>::empty());
        }
    }
    let status = if actual_blank {
        to_owned_string("scheduled")
    } else if is_future_pub_time(pub_time.as_str(), now) {
        to_owned_string("scheduled")
    } else {
        to_owned_string("released")
    };
    let id = event_id(country.as_str(), name.as_str(), pub_time.as_str());
    assert(star == match pick_star_spec(obj@, star_keys()) {
        Some(s) => s,
        None => 1u8,
    });
    assert(opt_view(affect) == affect_spec(obj@));
    assert(event_type@ == if pick_str_spec(obj@, event_keys()) is Some && pick_str_spec(
        obj@,
        indicator_keys(),
    ) is None {
        "event"@
    } else {
        default_type@
    });
    assert(country@ == {
        let c0 = unwrap_or_empty(pick_str_spec(obj@, country_keys()));
        if c0.len() == 0 {
            first_prefix(name@, country_prefixes())
        } else {
            c0
        }
    });
    Some(
        CalendarEvent {
            id,
            pub_time,
            country,
            name,
            star,
            previous,
            consensus,
            actual,
            unit,
            affect,
            status,
            event_type,
        },
    )
}

/// Whether a publication time lies after the instant `now`.
pub fn is_future_pub_time(pub_time: &str, now: i64) -> (r: bool)
    ensures
        r == is_future_spec(pub_time@, now as int),
{
    match parse_dt(pub_time) {
        Some(t) => t > now,
        None => false,
    }
}

// ---------------------------------------------------------------------------
// Payloads
// ---------------------------------------------------------------------------

/// The arrays of a member `key` among `keys` of an object value, in order.
pub open spec fn member_arrays(v: JsonValue, keys: Seq<Seq<char>>) -> Seq<Seq<JsonValue>>
    decreases keys.len(),
{
    if keys.len() == 0 {
        seq![]
    } else {
        let prev = member_arrays(v, keys.drop_last());
        match value_get(v, keys.last()) {
            Some(JsonValue::Array(a)) => prev.push(a@),
            _ => prev,
        }
    }
}

/// The event arrays of a calendar payload: the payload itself when it is an array;
/// else its `data` array, or the arrays of `data` under `economics`, `economic`,
/// `list`, `events`, `data`; then its own arrays under `economics`, `economic`,
/// `list`, `events`.
pub open spec fn event_arrays_spec(payload: JsonValue) -> Seq<Seq<JsonValue>> {
    match payload {
        JsonValue::Array(a) => seq![a@],
        _ => {
            let from_data = match value_get(payload, "data"@) {
                Some(JsonValue::Array(a)) => seq![a@],
                Some(d) => member_arrays(d, seq!["economics"@, "economic"@, "list"@, "events"@, "data"@]),
                None => seq![],
            };
            from_data + member_arrays(payload, seq!["economics"@, "economic"@, "list"@, "events"@])
        },
    }
}

fn push_member_arrays<'a>(v: &'a JsonValue, keys: &[&str], out: &mut Vec<&'a Vec<JsonValue>>)
    ensures
        final(out)@.map_values(|a: &Vec<JsonValue>| a@) == old(out)@.map_values(
            |a: &Vec<JsonValue>| a@,
        ) + member_arrays(*v, views_of(keys@)),
{
    let ghost kv = views_of(keys@);
    let ghost base = old(out)@.map_values(|a: &Vec<JsonValue>| a@);
    let mut i: usize = 0;
    while i < keys.len()
        invariant
            i <= keys@.len(),
            kv == views_of(keys@),
            out@.map_values(|a: &Vec<JsonValue>| a@) == base + member_arrays(*v, kv.take(i as int)),
        decreases keys@.len() - i,
    {
        assert(kv.take(i + 1).drop_last() == kv.take(i as int));
        assert(kv.take(i + 1).last() == keys@[i as int]@);
        match v.get(keys[i]) {
            Some(JsonValue::Array(a)) => {
                let ghost before = out@;
                out.push(a);
                assert(out@.map_values(|a: &Vec<JsonValue>| a@) =~= before.map_values(
                    |a: &Vec<JsonValue>| a@,
                ).push(a@));
            },
            _ => {},
        }
        i = i + 1;
    }
    assert(kv.take(keys@.len() as int) == kv);
}

/// The event arrays of a calendar payload (see `event_arrays_spec`).
pub fn extract_event_arrays(payload: &JsonValue) -> (r: Vec<&Vec<JsonValue>>)
    ensures
        r@.map_values(|a: &Vec<JsonValue>| a@) == event_arrays_spec(*payload),
{
    let mut out: Vec<&Vec<JsonValue>> = Vec::new();
    if let JsonValue::Array(a) = payload {
        out.push(a);
        assert(out@.map_values(|a: &Vec<JsonValue>| a@) =~= seq![a@]);
        return out;
    }
    match payload.get("data") {
        Some(JsonValue::Array(a)) => {
            out.push(a);
            assert(out@.map_values(|a: &Vec<JsonValue>| a@) =~= seq![a@]);
        },
        Some(d) => {
            assert(views_of(["economics", "economic", "list", "events", "data"]@) =~= seq![
                "economics"@,
                "economic"@,
                "list"@,
                "events"@,
                "data"@,
            ]);
            assert(out@.map_values(|a: &Vec<JsonValue>| a@) =~= Seq::<Seq<JsonValue>>::empty());
            push_member_arrays(d, &["economics", "economic", "list", "events", "data"], &mut out);
        },
        None => {
            assert(out@.map_values(|a: &Vec<JsonValue>| a@) =~= Seq::<Seq<JsonValue>>::empty());
        },
    }
    assert(views_of(["economics", "economic", "list", "events"]@) =~= seq![
        "economics"@,
        "economic"@,
        "list"@,
        "events"@,
    ]);
    push_member_arrays(payload, &["economics", "economic", "list", "events"], &mut out);
    out
}

/// The events that a sequence of items describes, in order.
pub open spec fn parse_items_spec(items: Seq<JsonValue>, default_type: Seq<char>, now: int) -> Seq<CalendarEventView>
    decreases items.len(),
{
    if items.len() == 0 {
        seq![]
    } else {
        let prev = parse_items_spec(items.drop_last(), default_type, now);
        match parse_item_spec(items.last(), default_type, now) {
            Some(e) => prev.push(e),
            None => prev,
        }
    }
}

/// The events of several arrays of items, array after array.
pub open spec fn parse_arrays_spec(arrays: Seq<Seq<JsonValue>>, now: int) -> Seq<CalendarEventView>
    decreases arrays.len(),
{
    if arrays.len() == 0 {
        seq![]
    } else {
        parse_arrays_spec(arrays.drop_last(), now) + parse_items_spec(arrays.last(), "data"@, now)
    }
}

fn parse_items_into(items: &Vec<JsonValue>, now: i64, out: &mut Vec<CalendarEvent>)
    ensures
        events_view(final(out)@) == events_view(old(out)@) + parse_items_spec(items@, "data"@, now as int),
{
    let ghost base = events_view(old(out)@);
    let mut i: usize = 0;
    while i < items.len()
        invariant
            i <= items.len(),
            events_view(out@) == base + parse_items_spec(items@.take(i as int), "data"@, now as int),
        decreases items.len() - i,
    {
        assert(items@.take(i + 1).drop_last() == items@.take(i as int));
        assert(items@.take(i + 1).last() == items@[i as int]);
        match parse_calendar_item_at(&items[i], "data", now) {
            Some(e) => {
                let ghost before = out@;
                out.push(e);
                assert(events_view(out@) =~= events_view(before).push(e@));
            },
            None => {},
        }
        i = i + 1;
    }
    assert(items@.take(items.len() as int) == items@);
}

/// Parses the events of several arrays of items.
pub fn parse_event_arrays(arrays: &Vec<&Vec<JsonValue>>, now: i64) -> (r: Vec<CalendarEvent>)
    ensures
        events_view(r@) == parse_arrays_spec(arrays@.map_values(|a: &Vec<JsonValue>| a@), now as int),
{
    let ghost av = arrays@.map_values(|a: &Vec<JsonValue>| a@);
    let mut out: Vec<CalendarEvent> = Vec::new();
    let mut i: usize = 0;
    assert(events_view(out@) =~= Seq::<CalendarEventView>::empty());
    while i < arrays.len()
        invariant
            i <= arrays.len(),
            av == arrays@.map_values(|a: &Vec<JsonValue>| a@),
            events_view(out@) == parse_arrays_spec(av.take(i as int), now as int),
        decreases arrays.len() - i,
    {
        assert(av.take(i + 1).drop_last() == av.take(i as int));
        assert(av.take(i + 1).last() == arrays@[i as int]@);
        parse_items_into(arrays[i], now, &mut out);
        i = i + 1;
    }
    assert(av.take(arrays.len() as int) == av);
    out
}

/// The events of a calendar payload at the instant `now`.
pub open spec fn parse_payload_spec(payload: JsonValue, now: int) -> Seq<CalendarEventView> {
    parse_arrays_spec(event_arrays_spec(payload), now)
}

/// Parses a calendar payload at the instant `now` (seconds since the epoch).
pub fn parse_calendar_payload_at(payload: &JsonValue, now: i64) -> (r: Vec<CalendarEvent>)
    ensures
        events_view(r@) == parse_payload_spec(*payload, now as int),
{
    let arrays = extract_event_arrays(payload);
    parse_event_arrays(&arrays, now)
}

/// Parses a calendar payload against the current time.
pub fn parse_calendar_payload(payload: &JsonValue) -> (r: Vec<CalendarEvent>)
    ensures
        exists|now: int| events_view(r@) == parse_payload_spec(*payload, now),
{
    let now = crate::time::now_epoch_secs();
    parse_calendar_payload_at(payload, now)
}

// ---------------------------------------------------------------------------
// MCP answers
// ---------------------------------------------------------------------------

/// The events of an MCP calendar value: those of its event arrays, or, when it has
/// none, those of every array member of the object.
pub open spec fn parse_mcp_value_spec(value: JsonValue, now: int) -> Seq<CalendarEventView> {
    if event_arrays_spec(value).len() > 0 {
        parse_arrays_spec(event_arrays_spec(value), now)
    } else {
        match value {
            JsonValue::Object(m) => parse_arrays_spec(object_arrays(m@), now),
            _ => seq![],
        }
    }
}

/// The array members of an object, in order.
pub open spec fn object_arrays(members: Seq<(String, JsonValue)>) -> Seq<Seq<JsonValue>>
    decreases members.len(),
{
    if members.len() == 0 {
        seq![]
    } else {
        let prev = object_arrays(members.drop_last());
        match members.last().1 {
            JsonValue::Array(a) => prev.push(a@),
            _ => prev,
        }
    }
}

/// Parses the calendar value of an MCP tool result. (An item of it is read as an item
/// of the HTTP calendar: a title stands in for the name there already.)
pub fn parse_mcp_calendar_value(value: &JsonValue, now: i64) -> (r: Vec<CalendarEvent>)
    ensures
        events_view(r@) == parse_mcp_value_spec(*value, now as int),
{
    let arrays = extract_event_arrays(value);
    if arrays.len() > 0 {
        return parse_event_arrays(&arrays, now);
    }
    match value {
        JsonValue::Object(m) => {
            let mut found: Vec<&Vec<JsonValue>> = Vec::new();
            let mut i: usize = 0;
            while i < m.len()
                invariant
                    i <= m.len(),
                    found@.map_values(|a: &Vec<JsonValue>| a@) == object_arrays(m@.take(i as int)),
                decreases m.len() - i,
            {
                assert(m@.take(i + 1).drop_last() == m@.take(i as int));
                assert(m@.take(i + 1).last() == m@[i as int]);
                if let JsonValue::Array(a) = &m[i].1 {
                    let ghost before = found@;
                    found.push(a);
                    assert(found@.map_values(|a: &Vec<JsonValue>| a@) =~= before.map_values(
                        |a: &Vec<JsonValue>| a@,
                    ).push(a@));
                }
                i = i + 1;
            }
            assert(m@.take(m.len() as int) == m@);
            parse_event_arrays(&found, now)
        },
        _ => Vec::new(),
    }
}

/// Parses the calendar value of an MCP tool result against the current time.
pub fn parse_mcp_calendar_now(value: &JsonValue) -> (r: Vec<CalendarEvent>)
    ensures
        exists|now: int| events_view(r@) == parse_mcp_value_spec(*value, now),
{
    let now = crate::time::now_epoch_secs();
    parse_mcp_calendar_value(value, now)
}

/// The `structuredContent` of an MCP tool result, if present.
pub fn mcp_structured_content(result: &JsonValue) -> (r: Option<&JsonValue>)
    ensures
        match r {
            Some(v) => value_get(*result, "structuredContent"@) == Some(*v),
            None => value_get(*result, "structuredContent"@) is None,
        },
{
    result.get("structuredContent")
}

/// The texts of the `text` items of an MCP result's `content`, in order.
pub open spec fn mcp_texts_spec(items: Seq<JsonValue>) -> Seq<Seq<char>>
    decreases items.len(),
{
    if items.len() == 0 {
        seq![]
    } else {
        let prev = mcp_texts_spec(items.drop_last());
        let it = items.last();
        match (value_get(it, "type"@), value_get(it, "text"@)) {
            (Some(JsonValue::Str(t)), Some(JsonValue::Str(x))) => if t@ == "text"@ {
                prev.push(x@)
            } else {
                prev
            },
            _ => prev,
        }
    }
}

/// The candidate JSON texts of an MCP tool result's `content` items of type `text`.
pub fn mcp_text_contents(result: &JsonValue) -> (r: Vec<String>)
    ensures
        r@.map_values(|s: String| s@) == match value_get(*result, "content"@) {
            Some(JsonValue::Array(a)) => mcp_texts_spec(a@),
            _ => seq![],
        },
{
    let mut out: Vec<String> = Vec::new();
    match result.get("content") {
        Some(JsonValue::Array(a)) => {
            let mut i: usize = 0;
            while i < a.len()
                invariant
                    i <= a.len(),
                    out@.map_values(|s: String| s@) == mcp_texts_spec(a@.take(i as int)),
                decreases a.len() - i,
            {
                assert(a@.take(i + 1).drop_last() == a@.take(i as int));
                assert(a@.take(i + 1).last() == a@[i as int]);
                match (a[i].get("type"), a[i].get("text")) {
                    (Some(JsonValue::Str(t)), Some(JsonValue::Str(x))) => {
                        if crate::text::str_eq(t.as_str(), "text") {
                            let ghost before = out@;
                            out.push(to_owned_string(x.as_str()));
                            assert(out@.map_values(|s: String| s@) =~= before.map_values(
                                |s: String| s@,
                            ).push(x@));
                        }
                    },
                    _ => {},
                }
                i = i + 1;
            }
            assert(a@.take(a.len() as int) == a@);
        },
        _ => {},
    }
    out
}

/// The first entry of `parsed` that is present.
pub open spec fn first_present(parsed: Seq<Option<JsonValue>>) -> Option<JsonValue>
    decreases parsed.len(),
{
    if parsed.len() == 0 {
        None
    } else if parsed[0] is Some {
        parsed[0]
    } else {
        first_present(parsed.drop_first())
    }
}

/// The data of an MCP tool result that holds the calendar: its `structuredContent` when
/// present, else the first of its text items that parsed as JSON. `parsed` holds what
/// each text of `mcp_text_contents` parsed to, in order (`None` where it did not parse).
pub open spec fn primary_mcp_data_spec(result: JsonValue, parsed: Seq<Option<JsonValue>>) -> Option<JsonValue> {
    match value_get(result, "structuredContent"@) {
        Some(v) => Some(v),
        None => first_present(parsed),
    }
}

/// Picks the data of an MCP tool result that holds the calendar (see
/// `primary_mcp_data_spec`).
pub fn pick_primary_mcp_data<'a>(result: &'a JsonValue, parsed: &'a Vec<Option<JsonValue>>) -> (r: Option<&'a JsonValue>)
    ensures
        match r {
            Some(v) => primary_mcp_data_spec(*result, parsed@) == Some(*v),
            None => primary_mcp_data_spec(*result, parsed@) is None,
        },
{
    if let Some(v) = mcp_structured_content(result) {
        return Some(v);
    }
    let mut i: usize = 0;
    assert(parsed@.skip(0) == parsed@);
    while i < parsed.len()
        invariant
            i <= parsed.len(),
            value_get(*result, "structuredContent"@) is None,
            first_present(parsed@) == first_present(parsed@.skip(i as int)),
        decreases parsed.len() - i,
    {
        assert(parsed@.skip(i as int).drop_first() == parsed@.skip(i + 1));
        assert(parsed@.skip(i as int)[0] == parsed@[i as int]);
        match &parsed[i] {
            Some(v) => {
                return Some(v);
            },
            None => {},
        }
        i = i + 1;
    }
    None
}

/// The events of an MCP tool result: those of its primary data when it has some, else
/// those found in the result itself.
pub fn parse_mcp_calendar_result(result: &JsonValue, parsed: &Vec<Option<JsonValue>>, now: i64) -> (r: Vec<CalendarEvent>)
    ensures
        events_view(r@) == parse_mcp_value_spec(
            match primary_mcp_data_spec(*result, parsed@) {
                Some(c) => c,
                None => *result,
            },
            now as int,
        ),
{
    match pick_primary_mcp_data(result, parsed) {
        Some(content) => parse_mcp_calendar_value(content, now),
        None => parse_mcp_calendar_value(result, now),
    }
}

// ---------------------------------------------------------------------------
// Filtering
// ---------------------------------------------------------------------------

/// What a calendar query asks for: days are counted from 1970-01-01.
#[derive(Clone, Debug)]
pub struct CalendarFetchOptions {
    pub start_day: i64,
    pub end_day: i64,
    pub min_star: u8,
    pub country: Option<String>,
}

/// Lexicographic order of texts by code point (the order of `String::cmp`).
pub open spec fn lex_le(a: Seq<char>, b: Seq<char>) -> bool
    decreases a.len(),
{
    if a.len() == 0 {
        true
    } else if b.len() == 0 {
        false
    } else if a[0] != b[0] {
        (a[0] as u32) < (b[0] as u32)
    } else {
        lex_le(a.drop_first(), b.drop_first())
    }
}

/// The text order is total: of two texts one sorts before or with the other.
pub proof fn lemma_lex_total(a: Seq<char>, b: Seq<char>)
    ensures
        lex_le(a, b) || lex_le(b, a),
    decreases a.len(),
{
    if a.len() > 0 && b.len() > 0 {
        if a[0] == b[0] {
            lemma_lex_total(a.drop_first(), b.drop_first());
        } else {
            vstd::utf8::char_u32_cast(a[0], a[0] as u32);
            vstd::utf8::char_u32_cast(b[0], b[0] as u32);
        }
    }
}

/// The text order is transitive.
pub proof fn lemma_lex_trans(a: Seq<char>, b: Seq<char>, c: Seq<char>)
    requires
        lex_le(a, b),
        lex_le(b, c),
    ensures
        lex_le(a, c),
    decreases a.len(),
{
    if a.len() > 0 && b.len() > 0 && c.len() > 0 && a[0] == b[0] && b[0] == c[0] {
        lemma_lex_trans(a.drop_first(), b.drop_first(), c.drop_first());
    }
}

/// Whether `a` sorts before or with `b`.
pub fn chars_le(a: &Vec<char>, b: &Vec<char>) -> (r: bool)
    ensures
        r == lex_le(a@, b@),
{
    let mut i: usize = 0;
    assert(a@.subrange(0, a@.len() as int) == a@);
    assert(b@.subrange(0, b@.len() as int) == b@);
    while i < a.len() && i < b.len() && a[i] == b[i]
        invariant
            i <= a.len(),
            i <= b.len(),
            lex_le(a@, b@) == lex_le(a@.subrange(i as int, a@.len() as int), b@.subrange(i as int, b@.len() as int)),
        decreases a.len() - i,
    {
        let ghost x = a@.subrange(i as int, a@.len() as int);
        let ghost y = b@.subrange(i as int, b@.len() as int);
        assert(x.drop_first() == a@.subrange(i + 1, a@.len() as int));
        assert(y.drop_first() == b@.subrange(i + 1, b@.len() as int));
        i = i + 1;
    }
    if i == a.len() {
        true
    } else if i == b.len() {
        false
    } else {
        let x = a[i];
        let y = b[i];
        (x as u32) < (y as u32)
    }
}

/// The text of `s[..n]` when `s` is cut after at most `n` of its UTF-8 bytes (all of
/// it when it is shorter): `None` when byte `n` falls inside a character, where
/// `str` slicing panics.
pub open spec fn byte_prefix(s: Seq<char>, n: int) -> Option<Seq<char>>
    decreases s.len(),
{
    if n <= 0 || s.len() == 0 {
        Some(Seq::empty())
    } else if char_utf8_len(s[0]) > n {
        None
    } else {
        match byte_prefix(s.drop_first(), n - char_utf8_len(s[0])) {
            Some(p) => Some(seq![s[0]] + p),
            None => None,
        }
    }
}

/// Number of characters in `byte_prefix(cs[i..], m)`, counted from `i`.
fn byte_prefix_end(cs: &Vec<char>, i: usize, m: usize) -> (r: Option<usize>)
    requires
        i <= cs.len(),
        m <= 10,
    ensures
        match r {
            Some(k) => i <= k <= cs.len() && byte_prefix(cs@.subrange(i as int, cs.len() as int), m as int)
                == Some(cs@.subrange(i as int, k as int)),
            None => byte_prefix(cs@.subrange(i as int, cs.len() as int), m as int) is None,
        },
    decreases cs.len() - i,
{
    let ghost s = cs@.subrange(i as int, cs.len() as int);
    if m == 0 || i == cs.len() {
        return Some(i);
    }
    let w = utf8_width(cs[i]);
    assert(s[0] == cs@[i as int]);
    if w > m {
        return None;
    }
    assert(s.drop_first() == cs@.subrange(i + 1, cs.len() as int));
    match byte_prefix_end(cs, i + 1, m - w) {
        Some(k) => {
            assert(seq![cs@[i as int]] + cs@.subrange(i + 1, k as int) == cs@.subrange(i as int, k as int));
            Some(k)
        },
        None => None,
    }
}

/// The publication times whose date check does not panic: the date fallback cuts the
/// text after 10 bytes, which must not fall inside a character.
pub open spec fn in_range_defined(pub_time: Seq<char>) -> bool {
    pub_time.len() == 0 || parse_dt_spec(pub_time) is Some || byte_prefix(pub_time, 10) is Some
}

/// Whether a publication time falls on a day in `[start, end]`: the day of the
/// instant it denotes, else the day of the date that chrono reads (`%Y-%m-%d`) in its
/// first 10 bytes; times that are empty or hold no date pass.
pub open spec fn in_range_spec(pub_time: Seq<char>, start: int, end: int) -> bool {
    if pub_time.len() == 0 {
        true
    } else {
        match parse_dt_spec(pub_time) {
            Some(t) => start <= day_of_instant(t) <= end,
            None => match byte_prefix(pub_time, 10) {
                Some(p) => match chrono_ymd_days_ce(p) {
                    Some(ce) => start <= ce - EPOCH_DAYS_FROM_CE <= end,
                    None => true,
                },
                None => true,
            },
        }
    }
}

/// Whether the date check of a publication time is defined (see `in_range_defined`).
pub fn pub_time_checkable(pub_time: &str) -> (r: bool)
    ensures
        r == in_range_defined(pub_time@),
{
    let cs = chars_of(pub_time);
    if cs.len() == 0 {
        return true;
    }
    if parse_dt(pub_time).is_some() {
        return true;
    }
    assert(cs@.subrange(0, cs.len() as int) == cs@);
    byte_prefix_end(&cs, 0, 10).is_some()
}

/// Whether a publication time falls on a day in `[start, end]`.
pub fn event_in_range(pub_time: &str, start: i64, end: i64) -> (r: bool)
    requires
        in_range_defined(pub_time@),
    ensures
        r == in_range_spec(pub_time@, start as int, end as int),
{
    let cs = chars_of(pub_time);
    if cs.len() == 0 {
        return true;
    }
    match parse_dt(pub_time) {
        Some(t) => {
            let d = day_of(t);
            start <= d && d <= end
        },
        None => {
            assert(cs@.subrange(0, cs.len() as int) == cs@);
            match byte_prefix_end(&cs, 0, 10) {
                Some(k) => {
                    let p = string_from_range(&cs, 0, k);
                    match parse_ymd_days_ce(p.as_str()) {
                        Some(ce) => {
                            let d = ce as i64 - EPOCH_DAYS_FROM_CE;
                            start <= d && d <= end
                        },
                        None => true,
                    }
                },
                None => true,
            }
        },
    }
}

/// Whether an event passes the importance, country and date conditions.
pub open spec fn passes_filters(e: CalendarEventView, min_star: u8, country: Option<Seq<char>>, start: int, end: int) -> bool {
    &&& e.star >= min_star
    &&& match country {
        Some(c) => contains_seq(e.country, c),
        None => true,
    }
    &&& in_range_spec(e.pub_time, start, end)
}

/// Whether some event of `s` has the id `id`.
pub open spec fn has_id(s: Seq<CalendarEventView>, id: Seq<char>) -> bool {
    exists|k: int| 0 <= k < s.len() && (#[trigger] s[k]).id == id
}

/// The events that pass the conditions, each id kept once (its first passing event).
pub open spec fn kept_events(s: Seq<CalendarEventView>, min_star: u8, country: Option<Seq<char>>, start: int, end: int) -> Seq<CalendarEventView>
    decreases s.len(),
{
    if s.len() == 0 {
        seq![]
    } else {
        let prev = kept_events(s.drop_last(), min_star, country, start, end);
        let e = s.last();
        if passes_filters(e, min_star, country, start, end) && !has_id(prev, e.id) {
            prev.push(e)
        } else {
            prev
        }
    }
}

/// `e` placed into `sorted` after every event whose time sorts before or with its own.
pub open spec fn insert_by_time(sorted: Seq<CalendarEventView>, e: CalendarEventView) -> Seq<CalendarEventView>
    decreases sorted.len(),
{
    if sorted.len() == 0 {
        seq![e]
    } else if lex_le(sorted.last().pub_time, e.pub_time) {
        sorted.push(e)
    } else {
        insert_by_time(sorted.drop_last(), e).push(sorted.last())
    }
}

/// The stable sort of events by publication time.
pub open spec fn sort_by_time(s: Seq<CalendarEventView>) -> Seq<CalendarEventView>
    decreases s.len(),
{
    if s.len() == 0 {
        seq![]
    } else {
        insert_by_time(sort_by_time(s.drop_last()), s.last())
    }
}

proof fn lemma_insert_at(sorted: Seq<CalendarEventView>, e: CalendarEventView, j: int)
    requires
        0 <= j <= sorted.len(),
        forall|k: int| j <= k < sorted.len() ==> !lex_le(#[trigger] sorted[k].pub_time, e.pub_time),
        j == 0 || lex_le(sorted[j - 1].pub_time, e.pub_time),
    ensures
        insert_by_time(sorted, e) == sorted.take(j).push(e) + sorted.skip(j),
    decreases sorted.len(),
{
    if sorted.len() == j {
        if j == 0 {
            assert(sorted.take(0).push(e) + sorted.skip(0) =~= seq![e]);
        } else {
            assert(sorted.take(j) == sorted);
            assert(sorted.skip(j) =~= Seq::<CalendarEventView>::empty());
        }
    } else {
        let d = sorted.drop_last();
        assert(!lex_le(sorted.last().pub_time, e.pub_time));
        lemma_insert_at(d, e, j);
        assert(d.take(j) == sorted.take(j));
        assert(d.skip(j).push(sorted.last()) =~= sorted.skip(j));
        assert((d.take(j).push(e) + d.skip(j)).push(sorted.last()) =~= sorted.take(j).push(e)
            + sorted.skip(j));
    }
}

fn time_le(a: &CalendarEvent, t: &Vec<char>) -> (r: bool)
    ensures
        r == lex_le(a.pub_time@, t@),
{
    let st = chars_of(a.pub_time.as_str());
    chars_le(&st, t)
}

fn insert_event_by_time(sorted: &mut Vec<CalendarEvent>, e: CalendarEvent)
    ensures
        events_view(final(sorted)@) == insert_by_time(events_view(old(sorted)@), e@),
{
    let et = chars_of(e.pub_time.as_str());
    let mut j = sorted.len();
    let ghost sv = events_view(sorted@);
    while j > 0 && !time_le(&sorted[j - 1], &et)
        invariant
            j <= sorted.len(),
            sv == events_view(sorted@),
            et@ == e.pub_time@,
            forall|k: int| j <= k < sv.len() ==> !lex_le(#[trigger] sv[k].pub_time, e@.pub_time),
        decreases j,
    {
        j = j - 1;
    }
    proof {
        lemma_insert_at(sv, e@, j as int);
    }
    let ghost before = sorted@;
    sorted.insert(j, e);
    assert(events_view(sorted@) =~= sv.take(j as int).push(e@) + sv.skip(j as int));
}

fn has_event_id(s: &Vec<CalendarEvent>, id: &str) -> (r: bool)
    ensures
        r == has_id(events_view(s@), id@),
{
    let mut k: usize = 0;
    while k < s.len()
        invariant
            k <= s.len(),
            forall|m: int| 0 <= m < k ==> (#[trigger] events_view(s@)[m]).id != id@,
        decreases s.len() - k,
    {
        if crate::text::str_eq(s[k].id.as_str(), id) {
            assert(events_view(s@)[k as int].id == id@);
            return true;
        }
        k = k + 1;
    }
    false
}

fn passes(e: &CalendarEvent, opts: &CalendarFetchOptions) -> (r: bool)
    requires
        in_range_defined(e.pub_time@),
    ensures
        r == passes_filters(e@, opts.min_star, opt_view(opts.country), opts.start_day as int, opts.end_day as int),
{
    if e.star < opts.min_star {
        return false;
    }
    let country_ok = match &opts.country {
        Some(c) => str_contains(e.country.as_str(), c.as_str()),
        None => true,
    };
    country_ok && event_in_range(e.pub_time.as_str(), opts.start_day, opts.end_day)
}

/// Keeps the events that meet the query (importance, country, date range), each id
/// once, ordered by publication time (stably).
pub fn filter_calendar_events(events: Vec<CalendarEvent>, opts: &CalendarFetchOptions) -> (r: Vec<CalendarEvent>)
    requires
        forall|k: int| 0 <= k < events@.len() ==> in_range_defined(#[trigger] events@[k].pub_time@),
    ensures
        events_view(r@) == sort_by_time(
            kept_events(
                events_view(events@),
                opts.min_star,
                opt_view(opts.country),
                opts.start_day as int,
                opts.end_day as int,
            ),
        ),
{
    let ghost all = events_view(events@);
    let ghost country = opt_view(opts.country);
    let mut rest = events;
    let mut kept: Vec<CalendarEvent> = Vec::new();
    let mut i: usize = 0;
    let n = rest.len();
    while rest.len() > 0
        invariant
            i + rest.len() == n,
            n == all.len(),
            country == opt_view(opts.country),
            events_view(rest@) == all.skip(i as int),
            events_view(kept@) == kept_events(all.take(i as int), opts.min_star, country, opts.start_day as int, opts.end_day as int),
            forall|k: int| 0 <= k < rest@.len() ==> in_range_defined(#[trigger] rest@[k].pub_time@),
        decreases rest.len(),
    {
        let ghost rv = events_view(rest@);
        let ghost old_rest = rest@;
        let e = rest.remove(0);
        assert(in_range_defined(old_rest[0].pub_time@));
        assert forall|k: int| 0 <= k < rest@.len() implies in_range_defined(#[trigger] rest@[k].pub_time@) by {
            assert(rest@[k] == old_rest[k + 1]);
        }
        assert(all.take(i + 1).drop_last() == all.take(i as int));
        assert(all.take(i + 1).last() == e@) by {
            assert(rv[0] == e@);
            assert(all.skip(i as int)[0] == all[i as int]);
        }
        assert forall|k: int| 0 <= k < events_view(rest@).len() implies events_view(rest@)[k]
            == all.skip(i + 1)[k] by {
            assert(rest@[k] == old_rest[k + 1]);
            assert(rv[k + 1] == all.skip(i as int)[k + 1]);
        }
        assert(events_view(rest@) =~= all.skip(i + 1));
        let ghost prev = events_view(kept@);
        let ghost next = kept_events(all.take(i + 1), opts.min_star, country, opts.start_day as int, opts.end_day as int);
        assert(next == if passes_filters(e@, opts.min_star, country, opts.start_day as int, opts.end_day as int) && !has_id(prev, e@.id) {
            prev.push(e@)
        } else {
            prev
        });
        let ok = passes(&e, opts);
        let dup = has_event_id(&kept, e.id.as_str());
        if ok && !dup {
            let ghost before = kept@;
            kept.push(e);
            assert(events_view(kept@) =~= events_view(before).push(e@));
        }
        i = i + 1;
    }
    assert(all.take(n as int) == all);
    let ghost kv = events_view(kept@);
    let mut sorted: Vec<CalendarEvent> = Vec::new();
    let mut j: usize = 0;
    let m = kept.len();
    while kept.len() > 0
        invariant
            j + kept.len() == m,
            m == kv.len(),
            events_view(kept@) == kv.skip(j as int),
            events_view(sorted@) == sort_by_time(kv.take(j as int)),
        decreases kept.len(),
    {
        let ghost kk = events_view(kept@);
        let ghost old_kept = kept@;
        let e = kept.remove(0);
        assert(kv.take(j + 1).drop_last() == kv.take(j as int));
        assert(kv.take(j + 1).last() == e@) by {
            assert(kk[0] == e@);
            assert(kv.skip(j as int)[0] == kv[j as int]);
        }
        assert forall|k: int| 0 <= k < events_view(kept@).len() implies events_view(kept@)[k]
            == kv.skip(j + 1)[k] by {
            assert(kept@[k] == old_kept[k + 1]);
            assert(kk[k + 1] == kv.skip(j as int)[k + 1]);
        }
        assert(events_view(kept@) =~= kv.skip(j + 1));
        insert_event_by_time(&mut sorted, e);
        j = j + 1;
    }
    assert(kv.take(m as int) == kv);
    sorted
}

// ---------------------------------------------------------------------------
// What a filtered calendar is
// ---------------------------------------------------------------------------

/// Events in order of publication time.
pub open spec fn in_time_order(s: Seq<CalendarEventView>) -> bool {
    forall|i: int, j: int| 0 <= i < j < s.len() ==> lex_le(#[trigger] s[i].pub_time, #[trigger] s[j].pub_time)
}

/// No two events share an id.
pub open spec fn ids_distinct(s: Seq<CalendarEventView>) -> bool {
    forall|i: int, j: int| 0 <= i < j < s.len() ==> (#[trigger] s[i]).id != (#[trigger] s[j]).id
}

proof fn lemma_push_contains(s: Seq<CalendarEventView>, a: CalendarEventView)
    ensures
        forall|x: CalendarEventView| #[trigger] s.push(a).contains(x) <==> (s.contains(x) || x == a),
{
    assert forall|x: CalendarEventView| #[trigger] s.push(a).contains(x) <==> (s.contains(x) || x == a) by {
        if s.push(a).contains(x) {
            let k = choose|k: int| 0 <= k < s.push(a).len() && s.push(a)[k] == x;
            if k < s.len() {
                assert(s[k] == x);
            }
        }
        if s.contains(x) {
            let k = choose|k: int| 0 <= k < s.len() && s[k] == x;
            assert(s.push(a)[k] == x);
        }
        if x == a {
            assert(s.push(a)[s.len() as int] == x);
        }
    }
}

proof fn lemma_insert_by_time(sorted: Seq<CalendarEventView>, e: CalendarEventView)
    requires
        in_time_order(sorted),
    ensures
        in_time_order(insert_by_time(sorted, e)),
        insert_by_time(sorted, e).len() == sorted.len() + 1,
        forall|x: CalendarEventView| #[trigger] insert_by_time(sorted, e).contains(x) <==> (sorted.contains(x) || x == e),
        ids_distinct(sorted) && !has_id(sorted, e.id) ==> ids_distinct(insert_by_time(sorted, e)),
    decreases sorted.len(),
{
    let ins = insert_by_time(sorted, e);
    if sorted.len() == 0 {
        lemma_push_contains(sorted, e);
        assert(ins == sorted.push(e));
    } else if lex_le(sorted.last().pub_time, e.pub_time) {
        lemma_push_contains(sorted, e);
        assert forall|i: int, j: int| 0 <= i < j < ins.len() implies lex_le(#[trigger] ins[i].pub_time, #[trigger] ins[j].pub_time) by {
            if j == sorted.len() && i < sorted.len() - 1 {
                lemma_lex_trans(sorted[i].pub_time, sorted.last().pub_time, e.pub_time);
            }
        }
        if ids_distinct(sorted) && !has_id(sorted, e.id) {
            assert forall|i: int, j: int| 0 <= i < j < ins.len() implies (#[trigger] ins[i]).id != (#[trigger] ins[j]).id by {
                if j == sorted.len() {
                    assert(ins[i] == sorted[i]);
                }
            }
        }
    } else {
        let d = sorted.drop_last();
        let l = sorted.last();
        assert(in_time_order(d)) by {
            assert forall|i: int, j: int| 0 <= i < j < d.len() implies lex_le(#[trigger] d[i].pub_time, #[trigger] d[j].pub_time) by {
                assert(d[i] == sorted[i] && d[j] == sorted[j]);
            }
        }
        lemma_insert_by_time(d, e);
        let m = insert_by_time(d, e);
        assert(ins == m.push(l));
        lemma_push_contains(m, l);
        lemma_push_contains(d, l);
        assert(d.push(l) == sorted);
        lemma_lex_total(l.pub_time, e.pub_time);
        assert forall|i: int, j: int| 0 <= i < j < ins.len() implies lex_le(#[trigger] ins[i].pub_time, #[trigger] ins[j].pub_time) by {
            if j == m.len() {
                assert(m.contains(m[i]));
                if m[i] != e {
                    let k = choose|k: int| 0 <= k < d.len() && d[k] == m[i];
                    assert(sorted[k] == d[k]);
                }
            } else {
                assert(ins[i] == m[i] && ins[j] == m[j]);
            }
        }
        if ids_distinct(sorted) && !has_id(sorted, e.id) {
            assert(ids_distinct(d)) by {
                assert forall|i: int, j: int| 0 <= i < j < d.len() implies (#[trigger] d[i]).id != (#[trigger] d[j]).id by {
                    assert(d[i] == sorted[i] && d[j] == sorted[j]);
                }
            }
            assert(!has_id(d, e.id)) by {
                if has_id(d, e.id) {
                    let k = choose|k: int| 0 <= k < d.len() && (#[trigger] d[k]).id == e.id;
                    assert(sorted[k] == d[k]);
                }
            }
            assert forall|i: int, j: int| 0 <= i < j < ins.len() implies (#[trigger] ins[i]).id != (#[trigger] ins[j]).id by {
                if j == m.len() {
                    assert(m.contains(m[i]));
                    if m[i] == e {
                        assert(sorted[sorted.len() - 1] == l);
                    } else {
                        let k = choose|k: int| 0 <= k < d.len() && d[k] == m[i];
                        assert(sorted[k] == d[k]);
                        assert(sorted[sorted.len() - 1] == l);
                    }
                } else {
                    assert(ins[i] == m[i] && ins[j] == m[j]);
                }
            }
        }
    }
}

/// Sorting by time orders the events, keeps their number and members, and keeps
/// ids distinct.
pub proof fn lemma_sort_by_time(s: Seq<CalendarEventView>)
    ensures
        in_time_order(sort_by_time(s)),
        sort_by_time(s).len() == s.len(),
        forall|x: CalendarEventView| #[trigger] sort_by_time(s).contains(x) <==> s.contains(x),
        ids_distinct(s) ==> ids_distinct(sort_by_time(s)),
    decreases s.len(),
{
    if s.len() > 0 {
        let d = s.drop_last();
        let l = s.last();
        lemma_sort_by_time(d);
        lemma_insert_by_time(sort_by_time(d), l);
        lemma_push_contains(d, l);
        assert(d.push(l) == s);
        if ids_distinct(s) {
            assert(ids_distinct(d)) by {
                assert forall|i: int, j: int| 0 <= i < j < d.len() implies (#[trigger] d[i]).id != (#[trigger] d[j]).id by {
                    assert(d[i] == s[i] && d[j] == s[j]);
                }
            }
            assert(!has_id(sort_by_time(d), l.id)) by {
                if has_id(sort_by_time(d), l.id) {
                    let k = choose|k: int| 0 <= k < sort_by_time(d).len() && (#[trigger] sort_by_time(d)[k]).id == l.id;
                    let x = sort_by_time(d)[k];
                    assert(sort_by_time(d).contains(x));
                    let m = choose|m: int| 0 <= m < d.len() && d[m] == x;
                    assert(s[m] == d[m]);
                    assert(s[s.len() - 1] == l);
                }
            }
        }
    }
}

/// The kept events hold each id once, only events of the input that pass the
/// conditions, and an event of every id that some passing event has.
pub proof fn lemma_kept_events(s: Seq<CalendarEventView>, min_star: u8, country: Option<Seq<char>>, start: int, end: int)
    ensures
        ids_distinct(kept_events(s, min_star, country, start, end)),
        forall|x: CalendarEventView| #[trigger] kept_events(s, min_star, country, start, end).contains(x) ==> s.contains(x)
            && passes_filters(x, min_star, country, start, end),
        forall|j: int| 0 <= j < s.len() && passes_filters(#[trigger] s[j], min_star, country, start, end) ==> has_id(
            kept_events(s, min_star, country, start, end),
            s[j].id,
        ),
    decreases s.len(),
{
    if s.len() > 0 {
        let d = s.drop_last();
        let e = s.last();
        lemma_kept_events(d, min_star, country, start, end);
        let prev = kept_events(d, min_star, country, start, end);
        let k = kept_events(s, min_star, country, start, end);
        lemma_push_contains(d, e);
        assert(d.push(e) == s);
        lemma_push_contains(prev, e);
        if passes_filters(e, min_star, country, start, end) && !has_id(prev, e.id) {
            assert(k == prev.push(e));
            assert forall|i: int, j: int| 0 <= i < j < k.len() implies (#[trigger] k[i]).id != (#[trigger] k[j]).id by {
                if j == prev.len() {
                    assert(k[i] == prev[i]);
                }
            }
            assert forall|j: int| 0 <= j < s.len() && passes_filters(#[trigger] s[j], min_star, country, start, end) implies has_id(k, s[j].id) by {
                if j < d.len() {
                    assert(d[j] == s[j]);
                    let m = choose|m: int| 0 <= m < prev.len() && (#[trigger] prev[m]).id == s[j].id;
                    assert(k[m] == prev[m]);
                } else {
                    assert(k[prev.len() as int] == e);
                }
            }
        } else {
            assert(k == prev);
            assert forall|j: int| 0 <= j < s.len() && passes_filters(#[trigger] s[j], min_star, country, start, end) implies has_id(k, s[j].id) by {
                if j < d.len() {
                    assert(d[j] == s[j]);
                }
            }
        }
    }
}

/// A filtered calendar is in time order, holds each event id once, holds only
/// events of the input that meet the query, and holds an event of every id that a
/// meeting event has.
pub proof fn law_filtered_calendar(events: Seq<CalendarEventView>, min_star: u8, country: Option<Seq<char>>, start: int, end: int)
    ensures
        ({
            let r = sort_by_time(kept_events(events, min_star, country, start, end));
            &&& in_time_order(r)
            &&& ids_distinct(r)
            &&& forall|k: int| 0 <= k < r.len() ==> events.contains(#[trigger] r[k]) && passes_filters(r[k], min_star, country, start, end)
            &&& forall|j: int| 0 <= j < events.len() && passes_filters(#[trigger] events[j], min_star, country, start, end) ==> has_id(r, events[j].id)
        }),
{
    let kept = kept_events(events, min_star, country, start, end);
    lemma_kept_events(events, min_star, country, start, end);
    lemma_sort_by_time(kept);
    let r = sort_by_time(kept);
    assert forall|k: int| 0 <= k < r.len() implies events.contains(#[trigger] r[k]) && passes_filters(r[k], min_star, country, start, end) by {
        assert(r.contains(r[k]));
    }
    assert forall|j: int| 0 <= j < events.len() && passes_filters(#[trigger] events[j], min_star, country, start, end) implies has_id(r, events[j].id) by {
        let m = choose|m: int| 0 <= m < kept.len() && (#[trigger] kept[m]).id == events[j].id;
        assert(kept.contains(kept[m]));
        assert(r.contains(kept[m]));
        let q = choose|q: int| 0 <= q < r.len() && r[q] == kept[m];
        assert(r[q].id == events[j].id);
    }
}

} // verus!
