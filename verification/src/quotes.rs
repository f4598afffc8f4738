//! Futures symbols and bar periods as the quote source names them.
use vstd::prelude::*;

use crate::text::{append_str, opt_view, str_eq, to_owned_string, to_upper, trim_string, trim_ws, uppercase};

verus! {

/// The characters that `(?i)[a-z]` matches: the ASCII letters and, by Unicode simple
/// case folding, `ſ` (U+017F, folds with `s`) and the Kelvin sign (U+212A, folds with `k`).
pub open spec fn folded_ascii_letter(c: char) -> bool {
    ('a' <= c && c <= 'z') || ('A' <= c && c <= 'Z') || c == '\u{17f}' || c == '\u{212a}'
}

/// The longest prefix of `s` made of characters that `(?i)[a-z]` matches.
pub open spec fn leading_run(s: Seq<char>) -> Seq<char>
    decreases s.len(),
{
    if s.len() > 0 && folded_ascii_letter(s[0]) {
        seq![s[0]] + leading_run(s.drop_first())
    } else {
        Seq::empty()
    }
}

/// What group 1 of `(?i)^([a-z]+)` captures in `s`: the leading run of such letters,
/// when it is not empty.
pub open spec fn leading_letters_spec(s: Seq<char>) -> Option<Seq<char>> {
    if leading_run(s).len() > 0 {
        Some(leading_run(s))
    } else {
        None
    }
}

/// regex `Regex::new(r"(?i)^([a-z]+)")` and its `captures` on `s`: the text of
/// group 1 when the pattern matches. The pattern is anchored and its greedy group is
/// the whole match, so group 1 is the longest leading run of matching letters, and it
/// takes part in every match. The pattern is a valid constant, so building it does
/// not fail.
#[verifier::external_body]
fn leading_letters(s: &str) -> (r: Option<String>)
    ensures
        opt_view(r) == leading_letters_spec(s@),
{
    let re = regex::Regex::new(r"(?i)^([a-z]+)").unwrap();
    re.captures(s).map(|c| c[1].to_string())
}

/// The continuous-contract code for a symbol, given the letters that lead it:
/// those letters uppercased with `0` appended; without them the symbol uppercased.
pub open spec fn akshare_symbol_spec(symbol: Seq<char>, letters: Option<Seq<char>>) -> Seq<char> {
    match letters {
        Some(p) => uppercase(p) + "0"@,
        None => uppercase(symbol),
    }
}

/// The continuous-contract code for a symbol whose leading letters are `letters`.
pub fn akshare_symbol_from(symbol: &str, letters: Option<String>) -> (r: String)
    ensures
        r@ == akshare_symbol_spec(symbol@, opt_view(letters)),
{
    match letters {
        Some(p) => {
            let mut out = to_upper(p.as_str());
            append_str(&mut out, "0");
            out
        },
        None => to_upper(symbol),
    }
}

/// The continuous-contract code of a futures symbol (`rb2510` gives `RB0`).
pub fn akshare_symbol(symbol: &str) -> (r: String)
    ensures
        r@ == akshare_symbol_spec(symbol@, leading_letters_spec(trim_ws(symbol@))),
{
    let t = trim_string(symbol);
    let letters = leading_letters(t.as_str());
    akshare_symbol_from(symbol, letters)
}

/// The minute period of an intraday interval; none for daily or unknown ones.
pub open spec fn period_spec(interval: Seq<char>) -> Option<Seq<char>> {
    if interval == "1m"@ {
        Some("1"@)
    } else if interval == "5m"@ {
        Some("5"@)
    } else if interval == "15m"@ {
        Some("15"@)
    } else if interval == "30m"@ {
        Some("30"@)
    } else if interval == "1h"@ {
        Some("60"@)
    } else {
        None
    }
}

/// The minute period of an interval.
pub fn interval_to_period(interval: &str) -> (r: Option<&'static str>)
    ensures
        match r {
            Some(p) => period_spec(interval@) == Some(p@),
            None => period_spec(interval@) is None,
        },
{
    if str_eq(interval, "1m") {
        Some("1")
    } else if str_eq(interval, "5m") {
        Some("5")
    } else if str_eq(interval, "15m") {
        Some("15")
    } else if str_eq(interval, "30m") {
        Some("30")
    } else if str_eq(interval, "1h") {
        Some("60")
    } else {
        None
    }
}

/// How a history request is served.
#[derive(Clone, Debug)]
pub enum HistoryRoute {
    Daily,
    Minute(String),
    Unsupported,
}

/// Daily bars for `1d`, minute bars of its period for an intraday interval,
/// otherwise unsupported.
pub fn history_route(interval: &str) -> (r: HistoryRoute)
    ensures
        interval@ == "1d"@ ==> r is Daily,
        interval@ != "1d"@ ==> match period_spec(interval@) {
            Some(p) => r matches HistoryRoute::Minute(q) && q@ == p,
            None => r is Unsupported,
        },
{
    if str_eq(interval, "1d") {
        HistoryRoute::Daily
    } else {
        match interval_to_period(interval) {
            Some(p) => HistoryRoute::Minute(to_owned_string(p)),
            None => HistoryRoute::Unsupported,
        }
    }
}

/// The error for an interval that no source serves.
pub fn unsupported_interval_message(interval: &str) -> (r: String)
    ensures
        r@ == "unsupported interval: "@ + interval@,
{
    let mut out = to_owned_string("unsupported interval: ");
    append_str(&mut out, interval);
    out
}

} // verus!
