//! Runtime configuration: the market feed, `.env` credentials, the LLM provider
//! catalog and the preferences file location.
use vstd::prelude::*;

use crate::text::{
    chars_eq, chars_of, find_char, index_of, lemma_index_of_bounds, lemma_strip_end_idempotent, lemma_trim_idempotent, is_blank, lowercase, opt_view, split_chars, split_on,
    str_eq, string_from, string_from_range, strip_both, strip_end, strip_start, strip_trailing,
    sub_chars, to_lower, to_owned_string, trim_bounds, trim_string, trim_ws, starts_with_seq, push_char,
};
use vstd::string::StrSliceExecFns;

verus! {

// ---------------------------------------------------------------------------
// Market feed
// ---------------------------------------------------------------------------

/// The market feed is always AKShare polling; deprecated or unknown values are ignored.
pub fn resolve_market_feed(raw: &str) -> (r: String)
    ensures
        r@ == "akshare_poll"@,
{
    to_owned_string("akshare_poll")
}

// ---------------------------------------------------------------------------
// Provider settings
// ---------------------------------------------------------------------------

/// Settings of the news classifier.
#[derive(Clone, Debug)]
pub struct NewsClassifyConfig {
    pub enabled: bool,
    pub provider: String,
    pub batch_size: usize,
}

/// One configured LLM provider.
#[derive(Clone, Debug)]
pub struct LlmProviderConfig {
    pub name: String,
    pub api_key: String,
    pub base_url: String,
    pub model: String,
}

/// The textual content of a provider configuration.
pub open spec fn provider_config_view(c: LlmProviderConfig) -> (Seq<char>, Seq<char>, Seq<char>, Seq<char>) {
    (c.name@, c.api_key@, c.base_url@, c.model@)
}

// ---------------------------------------------------------------------------
// `.env` files
// ---------------------------------------------------------------------------

/// The map that a sequence of `(key, value)` assignments leaves: the last one of a key wins.
pub open spec fn entries_map(s: Seq<(String, String)>) -> Map<Seq<char>, Seq<char>>
    decreases s.len(),
{
    if s.len() == 0 {
        Map::empty()
    } else {
        entries_map(s.drop_last()).insert(s.last().0@, s.last().1@)
    }
}

/// The key/value assignment that one `.env` line makes, if any: blank lines and
/// `#` comments make none, nor do lines without `=` or with an empty key. The value
/// is trimmed and loses surrounding double, then single quotes.
pub open spec fn env_line_entry(line: Seq<char>) -> Option<(Seq<char>, Seq<char>)> {
    let t = trim_ws(line);
    if t.len() == 0 || t[0] == '#' {
        None
    } else {
        let i = index_of(t, '=');
        if i < 0 {
            None
        } else {
            let key = trim_ws(t.subrange(0, i));
            let raw = trim_ws(t.subrange(i + 1, t.len() as int));
            let val = strip_end(strip_start(strip_end(strip_start(raw, '"'), '"'), '\''), '\'');
            if key.len() == 0 {
                None
            } else {
                Some((key, val))
            }
        }
    }
}

/// The map that a sequence of `.env` lines defines.
pub open spec fn env_lines_map(lines: Seq<Seq<char>>) -> Map<Seq<char>, Seq<char>>
    decreases lines.len(),
{
    if lines.len() == 0 {
        Map::empty()
    } else {
        let m = env_lines_map(lines.drop_last());
        match env_line_entry(lines.last()) {
            Some(kv) => m.insert(kv.0, kv.1),
            None => m,
        }
    }
}

/// The map that the text of a `.env` file defines.
pub open spec fn env_text_map(content: Seq<char>) -> Map<Seq<char>, Seq<char>> {
    env_lines_map(split_on(content, '\n'))
}

/// Key/value pairs read from a `.env` file, in the order they were assigned; a later
/// assignment of a key overrides an earlier one, as inserting into a map would. The
/// pairs are kept in a vector rather than a `HashMap<String, String>`: vstd states
/// what a `HashMap` does only for key types that obey its key model, and it gives
/// that for integer keys, not for `String`.
#[derive(Clone, Debug)]
pub struct EnvMap {
    entries: Vec<(String, String)>,
}

impl View for EnvMap {
    type V = Map<Seq<char>, Seq<char>>;

    closed spec fn view(&self) -> Map<Seq<char>, Seq<char>> {
        entries_map(self.entries@)
    }
}

proof fn lemma_entries_map_skip_tail(s: Seq<(String, String)>, i: int, k: Seq<char>)
    requires
        0 <= i <= s.len(),
        forall|j: int| i <= j < s.len() ==> s[j].0@ != k,
    ensures
        entries_map(s).contains_key(k) == entries_map(s.take(i)).contains_key(k),
        entries_map(s).contains_key(k) ==> entries_map(s)[k] == entries_map(s.take(i))[k],
    decreases s.len(),
{
    if s.len() > i {
        assert(s.drop_last().take(i) == s.take(i));
        lemma_entries_map_skip_tail(s.drop_last(), i, k);
    } else {
        assert(s.take(i) == s);
    }
}

impl EnvMap {
    /// An empty map.
    pub fn new() -> (r: EnvMap)
        ensures
            r@ == Map::<Seq<char>, Seq<char>>::empty(),
    {
        EnvMap { entries: Vec::new() }
    }

    /// Sets `key` to `value`.
    pub fn insert(&mut self, key: String, value: String)
        ensures
            final(self)@ == old(self)@.insert(key@, value@),
    {
        let ghost k = key@;
        let ghost v = value@;
        self.entries.push((key, value));
        proof {
            let s = self.entries@;
            assert(s.drop_last() == old(self).entries@);
        }
    }

    /// The value of `key`, if set.
    pub fn get(&self, key: &str) -> (r: Option<String>)
        ensures
            match r {
                Some(v) => self@.contains_key(key@) && self@[key@] == v@,
                None => !self@.contains_key(key@),
            },
    {
        let k = chars_of(key);
        let mut i = self.entries.len();
        while i > 0
            invariant
                i <= self.entries.len(),
                k@ == key@,
                forall|j: int| i <= j < self.entries@.len() ==> self.entries@[j].0@ != key@,
            decreases i,
        {
            let ek = chars_of(self.entries[i - 1].0.as_str());
            if chars_eq(&ek, &k) {
                proof {
                    let s = self.entries@;
                    lemma_entries_map_skip_tail(s, i as int, key@);
                    assert(s.take(i as int).drop_last() == s.take(i - 1));
                    assert(s.take(i as int).last() == s[i - 1]);
                }
                return Some(to_owned_string(self.entries[i - 1].1.as_str()));
            }
            i = i - 1;
        }
        proof {
            lemma_entries_map_skip_tail(self.entries@, 0, key@);
            assert(self.entries@.take(0).len() == 0);
        }
        None
    }
}

/// The assignment made by one `.env` line.
fn env_line(line: &Vec<char>) -> (r: Option<(String, String)>)
    ensures
        match r {
            Some(kv) => env_line_entry(line@) == Some((kv.0@, kv.1@)),
            None => env_line_entry(line@) is None,
        },
{
    let (a, b) = trim_bounds(line);
    if a == b || line[a] == '#' {
        return None;
    }
    let t = sub_chars(line, a, b);
    assert(t@ == trim_ws(line@));
    proof {
        lemma_index_of_bounds(t@, '=');
    }
    match find_char(&t, '=') {
        None => None,
        Some(i) => {
            let left = sub_chars(&t, 0, i);
            let (ka, kb) = trim_bounds(&left);
            let right = sub_chars(&t, i + 1, t.len());
            let (va, vb) = trim_bounds(&right);
            let raw = sub_chars(&right, va, vb);
            let unq = strip_both(&raw, '"');
            let val = strip_both(&unq, '\'');
            if ka == kb {
                None
            } else {
                let key = string_from_range(&left, ka, kb);
                let value = string_from(&val);
                Some((key, value))
            }
        },
    }
}

/// Parses the text of a `.env` file.
pub fn parse_env_text(content: &str) -> (r: EnvMap)
    ensures
        r@ == env_text_map(content@),
{
    let cs = chars_of(content);
    let lines = split_chars(&cs, '\n');
    let ghost ls = lines@.map_values(|v: Vec<char>| v@);
    let mut out = EnvMap::new();
    let mut i: usize = 0;
    while i < lines.len()
        invariant
            i <= lines.len(),
            ls == lines@.map_values(|v: Vec<char>| v@),
            out@ == env_lines_map(ls.take(i as int)),
        decreases lines.len() - i,
    {
        assert(ls.take(i + 1).drop_last() == ls.take(i as int));
        assert(ls.take(i + 1).last() == lines@[i as int]@);
        match env_line(&lines[i]) {
            Some(kv) => {
                out.insert(kv.0, kv.1);
            },
            None => {},
        }
        i = i + 1;
    }
    assert(ls.take(lines.len() as int) == ls);
    out
}

/// The value of `k` in `m` if it is set to something not blank.
pub open spec fn nonblank_entry(m: Map<Seq<char>, Seq<char>>, k: Seq<char>) -> Option<Seq<char>> {
    if m.contains_key(k) && trim_ws(m[k]).len() > 0 {
        Some(m[k])
    } else {
        None
    }
}

/// The value of `k`: the project file first, the global file for what it lacks.
pub open spec fn env_lookup_spec(
    project: Map<Seq<char>, Seq<char>>,
    global: Map<Seq<char>, Seq<char>>,
    k: Seq<char>,
) -> Option<Seq<char>> {
    match nonblank_entry(project, k) {
        Some(v) => Some(v),
        None => nonblank_entry(global, k),
    }
}

fn nonblank_get(m: &EnvMap, key: &str) -> (r: Option<String>)
    ensures
        opt_view(r) == nonblank_entry(m@, key@),
{
    match m.get(key) {
        Some(v) => {
            if is_blank(v.as_str()) {
                None
            } else {
                Some(v)
            }
        },
        None => None,
    }
}

/// Looks `key` up in the project `.env`, then in the global one; blank values count as unset.
pub fn env_lookup(project: &EnvMap, global: &EnvMap, key: &str) -> (r: Option<String>)
    ensures
        opt_view(r) == env_lookup_spec(project@, global@, key@),
{
    match nonblank_get(project, key) {
        Some(v) => Some(v),
        None => nonblank_get(global, key),
    }
}

/// An LLM credential found in the `.env` files.
#[derive(Clone, Debug)]
pub struct EnvLlmCredential {
    pub provider: String,
    pub api_key: String,
    pub base_url: Option<String>,
    pub model: Option<String>,
}

/// The textual content of a credential.
pub open spec fn credential_view(c: EnvLlmCredential) -> (
    Seq<char>,
    Seq<char>,
    Option<Seq<char>>,
    Option<Seq<char>>,
) {
    (c.provider@, c.api_key@, opt_view(c.base_url), opt_view(c.model))
}

/// Provider name and the `.env` keys of its API key, base URL and model, in order.
pub open spec fn llm_env_fields() -> Seq<(Seq<char>, Seq<char>, Seq<char>, Seq<char>)> {
    seq![
        ("doubao"@, "DOUBAO_API_KEY"@, "DOUBAO_BASE_URL"@, "DOUBAO_MODEL"@),
        ("deepseek"@, "DEEPSEEK_API_KEY"@, "DEEPSEEK_BASE_URL"@, "DEEPSEEK_MODEL"@),
        ("qwen"@, "QWEN_API_KEY"@, "QWEN_BASE_URL"@, "QWEN_MODEL"@),
        ("openai"@, "OPENAI_API_KEY"@, "OPENAI_BASE_URL"@, "OPENAI_MODEL"@),
        ("minimax"@, "MINIMAX_API_KEY"@, "MINIMAX_BASE_URL"@, "MINIMAX_MODEL"@),
    ]
}

/// The credentials of `fields` whose API key is set, in order.
pub open spec fn credentials_from(
    fields: Seq<(Seq<char>, Seq<char>, Seq<char>, Seq<char>)>,
    project: Map<Seq<char>, Seq<char>>,
    global: Map<Seq<char>, Seq<char>>,
) -> Seq<(Seq<char>, Seq<char>, Option<Seq<char>>, Option<Seq<char>>)>
    decreases fields.len(),
{
    if fields.len() == 0 {
        seq![]
    } else {
        let prev = credentials_from(fields.drop_last(), project, global);
        let f = fields.last();
        match env_lookup_spec(project, global, f.1) {
            None => prev,
            Some(key) => prev.push(
                (
                    f.0,
                    key,
                    env_lookup_spec(project, global, f.2),
                    env_lookup_spec(project, global, f.3),
                ),
            ),
        }
    }
}

/// The `.env` keys of each provider share a prefix: `<P>_API_KEY`, `<P>_BASE_URL` and
/// `<P>_MODEL`.
proof fn lemma_env_field_keys(i: int) -> (pre: Seq<char>)
    requires
        0 <= i < llm_env_fields().len(),
    ensures
        llm_env_fields()[i].1 == pre + "_API_KEY"@,
        llm_env_fields()[i].2 == pre + "_BASE_URL"@,
        llm_env_fields()[i].3 == pre + "_MODEL"@,
{
    reveal_strlit("_API_KEY");
    reveal_strlit("_BASE_URL");
    reveal_strlit("_MODEL");
    reveal_strlit("DOUBAO");
    reveal_strlit("DOUBAO_API_KEY");
    reveal_strlit("DOUBAO_BASE_URL");
    reveal_strlit("DOUBAO_MODEL");
    reveal_strlit("DEEPSEEK");
    reveal_strlit("DEEPSEEK_API_KEY");
    reveal_strlit("DEEPSEEK_BASE_URL");
    reveal_strlit("DEEPSEEK_MODEL");
    reveal_strlit("QWEN");
    reveal_strlit("QWEN_API_KEY");
    reveal_strlit("QWEN_BASE_URL");
    reveal_strlit("QWEN_MODEL");
    reveal_strlit("OPENAI");
    reveal_strlit("OPENAI_API_KEY");
    reveal_strlit("OPENAI_BASE_URL");
    reveal_strlit("OPENAI_MODEL");
    reveal_strlit("MINIMAX");
    reveal_strlit("MINIMAX_API_KEY");
    reveal_strlit("MINIMAX_BASE_URL");
    reveal_strlit("MINIMAX_MODEL");
    let pre = if i == 0 {
        "DOUBAO"@
    } else if i == 1 {
        "DEEPSEEK"@
    } else if i == 2 {
        "QWEN"@
    } else if i == 3 {
        "OPENAI"@
    } else {
        "MINIMAX"@
    };
    assert(llm_env_fields()[i].1 =~= pre + "_API_KEY"@);
    assert(llm_env_fields()[i].2 =~= pre + "_BASE_URL"@);
    assert(llm_env_fields()[i].3 =~= pre + "_MODEL"@);
    pre
}

/// The field that credential `k` of `fields` was read from.
proof fn lemma_credential_field(
    fields: Seq<(Seq<char>, Seq<char>, Seq<char>, Seq<char>)>,
    project: Map<Seq<char>, Seq<char>>,
    global: Map<Seq<char>, Seq<char>>,
    k: int,
) -> (i: int)
    requires
        0 <= k < credentials_from(fields, project, global).len(),
    ensures
        0 <= i < fields.len(),
        env_lookup_spec(project, global, fields[i].1) == Some(credentials_from(fields, project, global)[k].1),
        credentials_from(fields, project, global)[k].0 == fields[i].0,
        credentials_from(fields, project, global)[k].2 == env_lookup_spec(project, global, fields[i].2),
        credentials_from(fields, project, global)[k].3 == env_lookup_spec(project, global, fields[i].3),
    decreases fields.len(),
{
    let init = fields.drop_last();
    let prev = credentials_from(init, project, global);
    if k < prev.len() {
        let i = lemma_credential_field(init, project, global, k);
        assert(fields[i] == init[i]);
        i
    } else {
        (fields.len() - 1) as int
    }
}

/// The credential read from field `i` of `fields`, when its API key is set.
proof fn lemma_field_credential(
    fields: Seq<(Seq<char>, Seq<char>, Seq<char>, Seq<char>)>,
    project: Map<Seq<char>, Seq<char>>,
    global: Map<Seq<char>, Seq<char>>,
    i: int,
) -> (k: int)
    requires
        0 <= i < fields.len(),
        env_lookup_spec(project, global, fields[i].1) is Some,
    ensures
        0 <= k < credentials_from(fields, project, global).len(),
        credentials_from(fields, project, global)[k].0 == fields[i].0,
    decreases fields.len(),
{
    let init = fields.drop_last();
    let prev = credentials_from(init, project, global);
    if i < fields.len() - 1 {
        assert(fields[i] == init[i]);
        let k = lemma_field_credential(init, project, global, i);
        assert(credentials_from(fields, project, global)[k] == prev[k]);
        k
    } else {
        prev.len() as int
    }
}

/// What the collected LLM credentials hold: each belongs to a provider whose keys are
/// `<P>_API_KEY`, `<P>_BASE_URL` and `<P>_MODEL`; its API key is the value looked up for
/// `<P>_API_KEY`, its base URL the one for `<P>_BASE_URL` and its model the one for
/// `<P>_MODEL` (the project file first, then the global one, blank values skipped);
/// and every provider whose API key is set has a credential.
pub proof fn law_llm_credentials(project: Map<Seq<char>, Seq<char>>, global: Map<Seq<char>, Seq<char>>)
    ensures
        forall|k: int| #![trigger credentials_from(llm_env_fields(), project, global)[k]]
            0 <= k < credentials_from(llm_env_fields(), project, global).len() ==> exists|i: int, pre: Seq<char>|
                #![trigger llm_env_fields()[i], env_lookup_spec(project, global, pre + "_API_KEY"@)]
            {
                let c = credentials_from(llm_env_fields(), project, global)[k];
                &&& 0 <= i < llm_env_fields().len()
                &&& llm_env_fields()[i].0 == c.0
                &&& llm_env_fields()[i].1 == pre + "_API_KEY"@
                &&& env_lookup_spec(project, global, pre + "_API_KEY"@) == Some(c.1)
                &&& c.2 == env_lookup_spec(project, global, pre + "_BASE_URL"@)
                &&& c.3 == env_lookup_spec(project, global, pre + "_MODEL"@)
            },
        forall|i: int| 0 <= i < llm_env_fields().len() && env_lookup_spec(project, global, (#[trigger] llm_env_fields()[i]).1) is Some
            ==> exists|k: int| 0 <= k < credentials_from(llm_env_fields(), project, global).len()
                && (#[trigger] credentials_from(llm_env_fields(), project, global)[k]).0 == llm_env_fields()[i].0,
{
    let fields = llm_env_fields();
    let creds = credentials_from(fields, project, global);
    assert forall|k: int| #![trigger creds[k]] 0 <= k < creds.len() implies exists|i: int, pre: Seq<char>|
        #![trigger fields[i], env_lookup_spec(project, global, pre + "_API_KEY"@)]
    {
        let c = creds[k];
        &&& 0 <= i < fields.len()
        &&& fields[i].0 == c.0
        &&& fields[i].1 == pre + "_API_KEY"@
        &&& env_lookup_spec(project, global, pre + "_API_KEY"@) == Some(c.1)
        &&& c.2 == env_lookup_spec(project, global, pre + "_BASE_URL"@)
        &&& c.3 == env_lookup_spec(project, global, pre + "_MODEL"@)
    } by {
        let i = lemma_credential_field(fields, project, global, k);
        let pre = lemma_env_field_keys(i);
        assert(fields[i].0 == creds[k].0);
    }
    assert forall|i: int| 0 <= i < fields.len() && env_lookup_spec(project, global, (#[trigger] fields[i]).1) is Some
        implies exists|k: int| 0 <= k < creds.len() && (#[trigger] creds[k]).0 == fields[i].0 by {
        let k = lemma_field_credential(fields, project, global, i);
    }
}

fn llm_env_field_table() -> (r: Vec<(&'static str, &'static str, &'static str, &'static str)>)
    ensures
        r@.map_values(
            |t: (&'static str, &'static str, &'static str, &'static str)|
                (t.0@, t.1@, t.2@, t.3@),
        ) == llm_env_fields(),
{
    let mut r = Vec::new();
    r.push(("doubao", "DOUBAO_API_KEY", "DOUBAO_BASE_URL", "DOUBAO_MODEL"));
    r.push(("deepseek", "DEEPSEEK_API_KEY", "DEEPSEEK_BASE_URL", "DEEPSEEK_MODEL"));
    r.push(("qwen", "QWEN_API_KEY", "QWEN_BASE_URL", "QWEN_MODEL"));
    r.push(("openai", "OPENAI_API_KEY", "OPENAI_BASE_URL", "OPENAI_MODEL"));
    r.push(("minimax", "MINIMAX_API_KEY", "MINIMAX_BASE_URL", "MINIMAX_MODEL"));
    assert(r@.map_values(
        |t: (&'static str, &'static str, &'static str, &'static str)| (t.0@, t.1@, t.2@, t.3@),
    ) =~= llm_env_fields());
    r
}

/// The LLM credentials that the project `.env` and the global `.env` define
/// (the project file first, the global one for what it lacks).
pub fn collect_llm_credentials_from_env_files(project: &EnvMap, global: &EnvMap) -> (r: Vec<
    EnvLlmCredential,
>)
    ensures
        r@.map_values(|c: EnvLlmCredential| credential_view(c)) == credentials_from(
            llm_env_fields(),
            project@,
            global@,
        ),
{
    let fields = llm_env_field_table();
    let ghost fv = fields@.map_values(
        |t: (&'static str, &'static str, &'static str, &'static str)| (t.0@, t.1@, t.2@, t.3@),
    );
    let mut out: Vec<EnvLlmCredential> = Vec::new();
    let mut i: usize = 0;
    while i < fields.len()
        invariant
            i <= fields.len(),
            fv == fields@.map_values(
                |t: (&'static str, &'static str, &'static str, &'static str)|
                    (t.0@, t.1@, t.2@, t.3@),
            ),
            out@.map_values(|c: EnvLlmCredential| credential_view(c)) == credentials_from(
                fv.take(i as int),
                project@,
                global@,
            ),
        decreases fields.len() - i,
    {
        let f = fields[i];
        assert(fv.take(i + 1).drop_last() == fv.take(i as int));
        assert(fv.take(i + 1).last() == fv[i as int]);
        match env_lookup(project, global, f.1) {
            None => {},
            Some(api_key) => {
                let base_url = env_lookup(project, global, f.2);
                let model = env_lookup(project, global, f.3);
                let c = EnvLlmCredential {
                    provider: to_owned_string(f.0),
                    api_key,
                    base_url,
                    model,
                };
                let ghost before = out@;
                out.push(c);
                assert(out@.map_values(|c: EnvLlmCredential| credential_view(c)) =~= before.map_values(
                    |c: EnvLlmCredential| credential_view(c),
                ).push(credential_view(c)));
            },
        }
        i = i + 1;
    }
    assert(fv.take(fields.len() as int) == fv);
    out
}

/// The `DEFAULT_LLM_PROVIDER` that the `.env` files name, if any.
pub fn default_llm_provider_from_env_files(project: &EnvMap, global: &EnvMap) -> (r: Option<String>)
    ensures
        opt_view(r) == env_lookup_spec(project@, global@, "DEFAULT_LLM_PROVIDER"@),
{
    env_lookup(project, global, "DEFAULT_LLM_PROVIDER")
}

// ---------------------------------------------------------------------------
// LLM provider catalog
// ---------------------------------------------------------------------------

/// A known LLM provider with its defaults.
#[derive(Clone, Debug)]
pub struct LlmProviderTemplate {
    pub name: String,
    pub label: String,
    pub default_base_url: String,
    pub default_model: String,
    /// `false` only for a local Ollama, which needs no API key.
    pub key_required: bool,
}

/// The textual content of a template.
pub open spec fn template_view(t: LlmProviderTemplate) -> (
    Seq<char>,
    Seq<char>,
    Seq<char>,
    Seq<char>,
    bool,
) {
    (t.name@, t.label@, t.default_base_url@, t.default_model@, t.key_required)
}

/// The provider catalog, in display order.
pub open spec fn catalog_spec() -> Seq<(Seq<char>, Seq<char>, Seq<char>, Seq<char>, bool)> {
    seq![
        ("doubao"@, "豆包 Doubao"@, "https://ark.cn-beijing.volces.com/api/v3"@, "doubao-seed-2.0-pro"@, true),
        ("deepseek"@, "DeepSeek"@, "https://api.deepseek.com"@, "deepseek-chat"@, true),
        ("qwen"@, "通义千问 Qwen"@, "https://dashscope.aliyuncs.com/compatible-mode/v1"@, "qwen-plus"@, true),
        ("kimi"@, "Kimi / Moonshot"@, "https://api.moonshot.cn/v1"@, "kimi-k2-0711-preview"@, true),
        ("openai"@, "OpenAI"@, "https://api.openai.com/v1"@, "gpt-4o-mini"@, true),
        ("minimax"@, "MiniMax"@, "https://api.minimaxi.com/v1"@, "MiniMax-M3"@, true),
        ("ollama"@, "Ollama（本地）"@, "http://127.0.0.1:11434/v1"@, "llama3.2"@, false),
    ]
}

fn mk_template(
    name: &str,
    label: &str,
    url: &str,
    model: &str,
    key_required: bool,
) -> (r: LlmProviderTemplate)
    ensures
        template_view(r) == (name@, label@, url@, model@, key_required),
{
    LlmProviderTemplate {
        name: to_owned_string(name),
        label: to_owned_string(label),
        default_base_url: to_owned_string(url),
        default_model: to_owned_string(model),
        key_required,
    }
}

/// The catalog of LLM providers that the settings page offers.
pub fn llm_catalog() -> (r: Vec<LlmProviderTemplate>)
    ensures
        r@.map_values(|t: LlmProviderTemplate| template_view(t)) == catalog_spec(),
{
    let mut r: Vec<LlmProviderTemplate> = Vec::new();
    r.push(mk_template("doubao", "豆包 Doubao", "https://ark.cn-beijing.volces.com/api/v3", "doubao-seed-2.0-pro", true));
    r.push(mk_template("deepseek", "DeepSeek", "https://api.deepseek.com", "deepseek-chat", true));
    r.push(mk_template("qwen", "通义千问 Qwen", "https://dashscope.aliyuncs.com/compatible-mode/v1", "qwen-plus", true));
    r.push(mk_template("kimi", "Kimi / Moonshot", "https://api.moonshot.cn/v1", "kimi-k2-0711-preview", true));
    r.push(mk_template("openai", "OpenAI", "https://api.openai.com/v1", "gpt-4o-mini", true));
    r.push(mk_template("minimax", "MiniMax", "https://api.minimaxi.com/v1", "MiniMax-M3", true));
    r.push(mk_template("ollama", "Ollama（本地）", "http://127.0.0.1:11434/v1", "llama3.2", false));
    assert(r@.map_values(|t: LlmProviderTemplate| template_view(t)) =~= catalog_spec());
    r
}

/// Index of the first catalog entry named `name`, or -1.
pub open spec fn catalog_index(name: Seq<char>) -> int {
    if exists|i: int| 0 <= i < catalog_spec().len() && (#[trigger] catalog_spec()[i]).0 == name {
        choose|i: int|
            0 <= i < catalog_spec().len() && (#[trigger] catalog_spec()[i]).0 == name && forall|
                j: int,
            |
                0 <= j < i ==> (#[trigger] catalog_spec()[j]).0 != name
    } else {
        -1
    }
}

/// The catalog entry named `name`.
pub open spec fn template_spec(name: Seq<char>) -> Option<(Seq<char>, Seq<char>, Seq<char>, Seq<char>, bool)> {
    if catalog_index(name) >= 0 {
        Some(catalog_spec()[catalog_index(name)])
    } else {
        None
    }
}

/// The catalog entry of a provider.
pub fn template(name: &str) -> (r: Option<LlmProviderTemplate>)
    ensures
        match r {
            Some(t) => template_spec(name@) == Some(template_view(t)),
            None => template_spec(name@) is None,
        },
{
    let mut cat = llm_catalog();
    let ghost cv = catalog_spec();
    let mut i: usize = 0;
    while i < cat.len()
        invariant
            i <= cat.len(),
            cat@.map_values(|t: LlmProviderTemplate| template_view(t)) == cv,
            cv == catalog_spec(),
            forall|j: int| 0 <= j < i ==> (#[trigger] cv[j]).0 != name@,
        decreases cat.len() - i,
    {
        if str_eq(cat[i].name.as_str(), name) {
            assert(cv[i as int].0 == name@);
            let ghost w = i as int;
            assert(0 <= w < catalog_spec().len() && catalog_spec()[w].0 == name@ && forall|
                j: int,
            |
                0 <= j < w ==> (#[trigger] catalog_spec()[j]).0 != name@);
            proof {
                let c = catalog_index(name@);
                assert(c >= 0);
                if c < w {
                    assert(catalog_spec()[c].0 != name@);
                } else if c > w {
                    assert(catalog_spec()[w].0 != name@);
                }
            }
            let t = cat.swap_remove(i);
            return Some(t);
        }
        i = i + 1;
    }
    assert forall|j: int| 0 <= j < catalog_spec().len() implies (#[trigger] catalog_spec()[j]).0
        != name@ by {
        assert(cv[j].0 != name@);
    }
    None
}

/// The configuration that the given settings make of a catalog provider, if any: `None`
/// for an unknown provider, or one that needs a key when the trimmed key is empty. A blank
/// base URL or model falls back to the template's; the base URL is trimmed and loses
/// trailing slashes; a provider without key gets the key `ollama`.
pub open spec fn provider_config_spec(
    name: Seq<char>,
    api_key: Seq<char>,
    base_url: Option<Seq<char>>,
    model: Option<Seq<char>>,
) -> Option<(Seq<char>, Seq<char>, Seq<char>, Seq<char>)> {
    match template_spec(name) {
        None => None,
        Some(t) => {
            let key = trim_ws(api_key);
            if t.4 && key.len() == 0 {
                None
            } else {
                let url = match base_url {
                    Some(u) if trim_ws(u).len() > 0 => u,
                    _ => t.2,
                };
                let m = match model {
                    Some(x) if trim_ws(x).len() > 0 => x,
                    _ => t.3,
                };
                Some(
                    (
                        t.0,
                        if t.4 {
                            key
                        } else {
                            "ollama"@
                        },
                        strip_end(trim_ws(url), '/'),
                        m,
                    ),
                )
            }
        },
    }
}

/// A configuration built from settings, fed back in as settings, is built again
/// unchanged, provided its base URL is non-empty and already trimmed (stripping the
/// trailing slashes can leave white space or nothing behind).
pub proof fn law_provider_config_fixed_point(
    name: Seq<char>,
    api_key: Seq<char>,
    base_url: Option<Seq<char>>,
    model: Option<Seq<char>>,
)
    requires
        provider_config_spec(name, api_key, base_url, model) matches Some(r) && r.2.len() > 0
            && trim_ws(r.2) == r.2,
    ensures
        ({
            let r = provider_config_spec(name, api_key, base_url, model)->0;
            provider_config_spec(r.0, r.1, Some(r.2), Some(r.3)) == Some(r)
        }),
{
    let r = provider_config_spec(name, api_key, base_url, model)->0;
    let t = template_spec(name)->0;
    assert(t == catalog_spec()[catalog_index(name)]);
    assert(t.0 == name);
    lemma_trim_idempotent(api_key);
    let url = match base_url {
        Some(u) if trim_ws(u).len() > 0 => u,
        _ => t.2,
    };
    lemma_strip_end_idempotent(trim_ws(url), '/');
}

pub open spec fn opt_str_view(o: Option<&str>) -> Option<Seq<char>> {
    match o {
        Some(s) => Some(s@),
        None => None,
    }
}

/// Builds the configuration of a catalog provider from user settings.
pub fn build_provider_config(
    name: &str,
    api_key: &str,
    base_url: Option<&str>,
    model: Option<&str>,
) -> (r: Option<LlmProviderConfig>)
    ensures
        match r {
            Some(c) => provider_config_spec(name@, api_key@, opt_str_view(base_url), opt_str_view(model))
                == Some(provider_config_view(c)),
            None => provider_config_spec(
                name@,
                api_key@,
                opt_str_view(base_url),
                opt_str_view(model),
            ) is None,
        },
{
    let t = match template(name) {
        Some(t) => t,
        None => return None,
    };
    let key = trim_string(api_key);
    if t.key_required && key.as_str().unicode_len() == 0 {
        return None;
    }
    let url_src: String = match base_url {
        Some(u) => {
            if is_blank(u) {
                t.default_base_url
            } else {
                to_owned_string(u)
            }
        },
        None => t.default_base_url,
    };
    let url_chars = chars_of(url_src.as_str());
    let (ua, ub) = trim_bounds(&url_chars);
    let url_trim = sub_chars(&url_chars, ua, ub);
    let url_final = strip_trailing(&url_trim, '/');
    let model_s: String = match model {
        Some(x) => {
            if is_blank(x) {
                t.default_model
            } else {
                to_owned_string(x)
            }
        },
        None => t.default_model,
    };
    Some(
        LlmProviderConfig {
            name: t.name,
            api_key: if t.key_required {
                key
            } else {
                to_owned_string("ollama")
            },
            base_url: string_from(&url_final),
            model: model_s,
        },
    )
}

// ---------------------------------------------------------------------------
// Preferences
// ---------------------------------------------------------------------------

/// The name for what `Path::parent` returns (as text) for a path given as text.
pub uninterp spec fn path_parent(p: Seq<char>) -> Option<Seq<char>>;

/// The name for what `Path::join` returns (as text) for two paths given as text.
pub uninterp spec fn path_join(base: Seq<char>, child: Seq<char>) -> Seq<char>;

/// std `Path::parent`; a parent of a path given as text is text too.
#[verifier::external_body]
fn parent_of(p: &str) -> (r: Option<String>)
    ensures
        opt_view(r) == path_parent(p@),
{
    std::path::Path::new(p).parent().map(|q| q.to_string_lossy().into_owned())
}

/// std `Path::join`; the join of two paths given as text is text too.
#[verifier::external_body]
fn join_path(base: &str, child: &str) -> (r: String)
    ensures
        r@ == path_join(base@, child@),
{
    std::path::Path::new(base).join(child).to_string_lossy().into_owned()
}

/// Where the preferences file lives: beside the database, or under `data/` of the
/// project root when the database path has no parent.
pub fn preferences_path(database_path: &str, project_root: &str) -> (r: String)
    ensures
        r@ == match path_parent(database_path@) {
            Some(dir) => path_join(dir, "user_preferences.json"@),
            None => path_join(path_join(project_root@, "data"@), "user_preferences.json"@),
        },
{
    match parent_of(database_path) {
        Some(dir) => join_path(dir.as_str(), "user_preferences.json"),
        None => {
            let data = join_path(project_root, "data");
            join_path(data.as_str(), "user_preferences.json")
        },
    }
}

/// The name for what `Path::is_absolute` says of a path given as text.
pub uninterp spec fn path_is_absolute(p: Seq<char>) -> bool;

/// std `Path::is_absolute` (what counts as absolute depends on the platform).
#[verifier::external_body]
fn is_absolute_path(p: &str) -> (r: bool)
    ensures
        r == path_is_absolute(p@),
{
    std::path::Path::new(p).is_absolute()
}

/// `s` with every occurrence of `pat` removed, scanning from the left (as
/// `str::replace(pat, "")`).
pub open spec fn remove_all(s: Seq<char>, pat: Seq<char>) -> Seq<char>
    recommends
        pat.len() > 0,
    decreases s.len(),
{
    if s.len() == 0 || pat.len() == 0 {
        s
    } else if starts_with_seq(s, pat) {
        remove_all(s.skip(pat.len() as int), pat)
    } else {
        seq![s[0]] + remove_all(s.drop_first(), pat)
    }
}

fn remove_all_exec(s: &str, pat: &str) -> (r: String)
    requires
        pat@.len() > 0,
    ensures
        r@ == remove_all(s@, pat@),
{
    let cs = chars_of(s);
    let ps = chars_of(pat);
    let mut out = String::new();
    let mut i: usize = 0;
    assert(cs@.skip(0) == cs@);
    while i < cs.len()
        invariant
            i <= cs.len(),
            cs@ == s@,
            ps@ == pat@,
            ps@.len() > 0,
            out@ + remove_all(cs@.skip(i as int), ps@) == remove_all(cs@, ps@),
        decreases cs.len() - i,
    {
        let ghost rest = cs@.skip(i as int);
        if crate::text::chars_occur_at(&cs, &ps, i) {
            assert(rest.subrange(0, ps@.len() as int) == cs@.subrange(i as int, i + ps@.len()));
            assert(rest.skip(ps@.len() as int) == cs@.skip(i + ps@.len()));
            i = i + ps.len();
        } else {
            assert(!starts_with_seq(rest, ps@)) by {
                if starts_with_seq(rest, ps@) {
                    assert(rest.subrange(0, ps@.len() as int) == cs@.subrange(i as int, i + ps@.len()));
                }
            }
            assert(rest[0] == cs@[i as int]);
            assert(rest.drop_first() == cs@.skip(i + 1));
            let ghost before = out@;
            push_char(&mut out, cs[i]);
            assert(out@ + remove_all(cs@.skip(i + 1), ps@) =~= before + (seq![cs@[i as int]] + remove_all(
                rest.drop_first(),
                ps@,
            )));
            i = i + 1;
        }
    }
    assert(cs@.skip(i as int) =~= Seq::<char>::empty());
    out
}

/// Where the database file is: the `DATABASE_URL` value without `sqlite:///`, taken
/// as it is when absolute, else under the project root.
pub fn resolve_database_path(database_url: &str, project_root: &str) -> (r: String)
    ensures
        ({
            let p = remove_all(database_url@, "sqlite:///"@);
            r@ == if path_is_absolute(p) {
                p
            } else {
                path_join(project_root@, p)
            }
        }),
{
    let e: &str = "sqlite:///";
    proof {
        reveal_strlit("sqlite:///");
    }
    let p = remove_all_exec(database_url, e);
    if is_absolute_path(p.as_str()) {
        p
    } else {
        join_path(project_root, p.as_str())
    }
}

/// The token of the news service: the primary one unless it is blank, then the
/// bearer token.
pub fn choose_mcp_token(primary: String, bearer: String) -> (r: String)
    ensures
        r@ == if trim_ws(primary@).len() == 0 {
            bearer@
        } else {
            primary@
        },
{
    if crate::text::is_blank(primary.as_str()) {
        bearer
    } else {
        primary
    }
}

/// The analysis triggers that a schedule may use.
pub open spec fn is_known_trigger(t: Seq<char>) -> bool {
    ||| t == "scheduled"@
    ||| t == "tomorrow"@
    ||| t == "short_term"@
    ||| t == "manual"@
    ||| t == "daily"@
    ||| t == "realtime"@
    ||| t == "anomaly"@
}

/// A known trigger keeps its trimmed form; anything else becomes `scheduled`.
pub open spec fn normalized_trigger(raw: Seq<char>) -> Seq<char> {
    if is_known_trigger(trim_ws(raw)) {
        trim_ws(raw)
    } else {
        "scheduled"@
    }
}

/// Normalizes a schedule trigger (see `normalized_trigger`).
pub fn normalize_analysis_trigger(raw: &str) -> (r: String)
    ensures
        r@ == normalized_trigger(raw@),
{
    let t = trim_string(raw);
    let s = t.as_str();
    if str_eq(s, "scheduled") || str_eq(s, "tomorrow") || str_eq(s, "short_term") || str_eq(
        s,
        "manual",
    ) || str_eq(s, "daily") || str_eq(s, "realtime") || str_eq(s, "anomaly") {
        t
    } else {
        to_owned_string("scheduled")
    }
}

/// Watchlist entries trimmed and lowercased; empty ones dropped.
pub open spec fn normalized_watchlist(items: Seq<Seq<char>>) -> Seq<Seq<char>>
    decreases items.len(),
{
    if items.len() == 0 {
        seq![]
    } else {
        let prev = normalized_watchlist(items.drop_last());
        let x = lowercase(trim_ws(items.last()));
        if x.len() == 0 {
            prev
        } else {
            prev.push(x)
        }
    }
}

/// Normalizes a watchlist: trims and lowercases each symbol and drops empty ones.
pub fn normalize_watchlist(items: &Vec<String>) -> (r: Vec<String>)
    ensures
        r@.map_values(|s: String| s@) == normalized_watchlist(items@.map_values(|s: String| s@)),
{
    let ghost iv = items@.map_values(|s: String| s@);
    let mut out: Vec<String> = Vec::new();
    let mut i: usize = 0;
    while i < items.len()
        invariant
            i <= items.len(),
            iv == items@.map_values(|s: String| s@),
            out@.map_values(|s: String| s@) == normalized_watchlist(iv.take(i as int)),
        decreases items.len() - i,
    {
        assert(iv.take(i + 1).drop_last() == iv.take(i as int));
        assert(iv.take(i + 1).last() == items@[i as int]@);
        let t = trim_string(items[i].as_str());
        let l = to_lower(t.as_str());
        if l.as_str().unicode_len() != 0 {
            let ghost before = out@;
            out.push(l);
            assert(out@.map_values(|s: String| s@) =~= before.map_values(|s: String| s@).push(
                l@,
            ));
        }
        i = i + 1;
    }
    assert(iv.take(items.len() as int) == iv);
    out
}

/// The watchlist a new installation starts with.
pub fn default_watchlist() -> (r: Vec<String>)
    ensures
        r@.map_values(|s: String| s@) == seq!["rb2510"@, "au2512"@, "if2512"@],
{
    let mut r: Vec<String> = Vec::new();
    r.push(to_owned_string("rb2510"));
    r.push(to_owned_string("au2512"));
    r.push(to_owned_string("if2512"));
    assert(r@.map_values(|s: String| s@) =~= seq!["rb2510"@, "au2512"@, "if2512"@]);
    r
}

/// The whole-number preferences of the application.
#[derive(Clone, Debug)]
pub struct CountPreferences {
    pub schedule_interval_hours: u64,
    pub daily_briefing_hour: u8,
    pub news_classify_batch: usize,
    pub anomaly_window_secs: i64,
    pub anomaly_cooldown_secs: u64,
}

/// `x` brought into `[lo, hi]`.
pub open spec fn clamp_int(x: int, lo: int, hi: int) -> int {
    if x < lo {
        lo
    } else if x > hi {
        hi
    } else {
        x
    }
}

impl Default for CountPreferences {
    fn default() -> (r: Self)
        ensures
            r.schedule_interval_hours == 6,
            r.daily_briefing_hour == 17,
            r.news_classify_batch == 10,
            r.anomaly_window_secs == 300,
            r.anomaly_cooldown_secs == 900,
    {
        CountPreferences {
            schedule_interval_hours: 6,
            daily_briefing_hour: 17,
            news_classify_batch: 10,
            anomaly_window_secs: 300,
            anomaly_cooldown_secs: 900,
        }
    }
}

impl CountPreferences {
    /// Each preference brought into its range: schedule interval 1–168 hours,
    /// briefing hour at most 23, classification batch 1–50, anomaly window and
    /// cooldown 60–86400 seconds.
    pub fn normalize(self) -> (r: Self)
        ensures
            r.schedule_interval_hours == clamp_int(self.schedule_interval_hours as int, 1, 168),
            r.daily_briefing_hour == clamp_int(self.daily_briefing_hour as int, 0, 23),
            r.news_classify_batch == clamp_int(self.news_classify_batch as int, 1, 50),
            r.anomaly_window_secs == clamp_int(self.anomaly_window_secs as int, 60, 86400),
            r.anomaly_cooldown_secs == clamp_int(self.anomaly_cooldown_secs as int, 60, 86400),
    {
        let h = self.schedule_interval_hours;
        let b = self.daily_briefing_hour;
        let n = self.news_classify_batch;
        let w = self.anomaly_window_secs;
        let c = self.anomaly_cooldown_secs;
        CountPreferences {
            schedule_interval_hours: if h < 1 { 1 } else if h > 168 { 168 } else { h },
            daily_briefing_hour: if b > 23 { 23 } else { b },
            news_classify_batch: if n < 1 { 1 } else if n > 50 { 50 } else { n },
            anomaly_window_secs: if w < 60 { 60 } else if w > 86400 { 86400 } else { w },
            anomaly_cooldown_secs: if c < 60 { 60 } else if c > 86400 { 86400 } else { c },
        }
    }
}

/// A normalized trigger is always a known one, and normalizing it again changes
/// nothing.
pub proof fn law_trigger_normalized(raw: Seq<char>)
    ensures
        is_known_trigger(normalized_trigger(raw)),
        normalized_trigger(normalized_trigger(raw)) == normalized_trigger(raw),
{
    reveal_strlit("scheduled");
    reveal_strlit("tomorrow");
    reveal_strlit("short_term");
    reveal_strlit("manual");
    reveal_strlit("daily");
    reveal_strlit("realtime");
    reveal_strlit("anomaly");
    let n = normalized_trigger(raw);
    assert(n.len() > 0);
    assert(crate::text::trim_start_ws(n) == n);
    assert(crate::text::trim_end_ws(n) == n);
}

/// Normalized preferences lie in their ranges, and normalizing them again changes
/// nothing.
pub proof fn law_clamp(x: int, lo: int, hi: int)
    requires
        lo <= hi,
    ensures
        lo <= clamp_int(x, lo, hi) <= hi,
        clamp_int(clamp_int(x, lo, hi), lo, hi) == clamp_int(x, lo, hi),
        lo <= x <= hi ==> clamp_int(x, lo, hi) == x,
{
}

} // verus!
