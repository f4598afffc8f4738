//! The LLM provider router: which providers it knows, the order in which a
//! request tries them, and how their chat answers are read.
use vstd::prelude::*;

use crate::config::{provider_config_view, LlmProviderConfig};
use crate::json::{value_get, JsonValue};
use crate::news::str_of;
use crate::text::{
    append_str, chars_of, lemma_split_on_nonempty, opt_view, split_chars, split_on, starts_with_seq, str_eq,
    str_starts_with, string_from, string_from_range, strings_view, strip_end, strip_trailing, to_owned_string,
    trim_bounds, trim_ws,
};

verus! {

/// A provider configuration as text: name, key, base url, model.
pub type ProviderText = (Seq<char>, Seq<char>, Seq<char>, Seq<char>);

/// The texts of provider configurations.
pub open spec fn provider_texts(ps: Seq<LlmProviderConfig>) -> Seq<ProviderText> {
    ps.map_values(|p: LlmProviderConfig| provider_config_view(p))
}

/// Index of the provider named `name`, or -1.
pub open spec fn provider_index(r: Seq<ProviderText>, name: Seq<char>) -> int
    decreases r.len(),
{
    if r.len() == 0 {
        -1
    } else {
        let p = provider_index(r.drop_last(), name);
        if p >= 0 {
            p
        } else if r.last().0 == name {
            r.len() - 1
        } else {
            -1
        }
    }
}

/// A registry with `p` registered: it replaces the provider of the same name in
/// its place, or comes last.
pub open spec fn registry_insert(r: Seq<ProviderText>, p: ProviderText) -> Seq<ProviderText> {
    let i = provider_index(r, p.0);
    if i >= 0 {
        r.update(i, p)
    } else {
        r.push(p)
    }
}

/// The registry of a list of providers: one entry per name, in order of a name's
/// first appearance, holding the last configuration of that name.
pub open spec fn registry_of(ps: Seq<ProviderText>) -> Seq<ProviderText>
    decreases ps.len(),
{
    if ps.len() == 0 {
        Seq::<ProviderText>::empty()
    } else {
        registry_insert(registry_of(ps.drop_last()), ps.last())
    }
}

/// No two entries share a name.
pub open spec fn names_unique(r: Seq<ProviderText>) -> bool {
    forall|i: int, j: int| 0 <= i < j < r.len() ==> (#[trigger] r[i]).0 != (#[trigger] r[j]).0
}

/// The default provider: the requested one when registered, else the first
/// registered one, else none (empty).
pub open spec fn default_spec(r: Seq<ProviderText>, requested: Seq<char>) -> Seq<char> {
    if provider_index(r, requested) >= 0 {
        requested
    } else if r.len() > 0 {
        r[0].0
    } else {
        Seq::<char>::empty()
    }
}

/// The entries whose name is not `name`, in order.
pub open spec fn others(r: Seq<ProviderText>, name: Seq<char>) -> Seq<ProviderText>
    decreases r.len(),
{
    if r.len() == 0 {
        Seq::<ProviderText>::empty()
    } else {
        let p = others(r.drop_last(), name);
        if r.last().0 == name {
            p
        } else {
            p.push(r.last())
        }
    }
}

/// The order in which a request tries providers: the one named `first` when
/// registered, then all others.
pub open spec fn ordered_spec(r: Seq<ProviderText>, first: Seq<char>) -> Seq<ProviderText> {
    let i = provider_index(r, first);
    if i >= 0 {
        seq![r[i]] + others(r, first)
    } else {
        others(r, first)
    }
}

/// Routes requests to the configured LLM providers.
pub struct LlmRouter {
    providers: Vec<LlmProviderConfig>,
    default: String,
}

impl LlmRouter {
    /// The registered providers, as text.
    pub closed spec fn registry(&self) -> Seq<ProviderText> {
        provider_texts(self.providers@)
    }

    /// The name of the default provider.
    pub closed spec fn default_name(&self) -> Seq<char> {
        self.default@
    }

    #[verifier::type_invariant]
    spec fn names_once(&self) -> bool {
        names_unique(provider_texts(self.providers@))
    }

    /// A router over `providers`; `default` names the preferred provider.
    pub fn new(providers: Vec<LlmProviderConfig>, default: String) -> (r: Self)
        ensures
            r.registry() == registry_of(provider_texts(providers@)),
            r.default_name() == default_spec(registry_of(provider_texts(providers@)), default@),
    {
        let ghost pv = provider_texts(providers@);
        let mut out: Vec<LlmProviderConfig> = Vec::new();
        let mut i: usize = 0;
        while i < providers.len()
            invariant
                i <= providers.len(),
                pv == provider_texts(providers@),
                provider_texts(out@) == registry_of(pv.take(i as int)),
                names_unique(provider_texts(out@)),
            decreases providers.len() - i,
        {
            assert(pv.take(i + 1).drop_last() == pv.take(i as int));
            assert(pv.take(i + 1).last() == pv[i as int]);
            let p = &providers[i];
            let c = copy_config(p);
            let ghost before = provider_texts(out@);
            match find_provider(&out, p.name.as_str()) {
                Some(k) => {
                    proof {
                        lemma_provider_index(before, p.name@);
                    }
                    out.set(k, c);
                    assert(provider_texts(out@) =~= before.update(k as int, pv[i as int]));
                    assert forall|a: int, b: int| 0 <= a < b < provider_texts(out@).len() implies
                        (#[trigger] provider_texts(out@)[a]).0 != (#[trigger] provider_texts(out@)[b]).0 by {
                        assert(provider_texts(out@)[a].0 == before[a].0);
                        assert(provider_texts(out@)[b].0 == before[b].0);
                    }
                },
                None => {
                    out.push(c);
                    assert(provider_texts(out@) =~= before.push(pv[i as int]));
                    assert forall|a: int, b: int| 0 <= a < b < provider_texts(out@).len() implies
                        (#[trigger] provider_texts(out@)[a]).0 != (#[trigger] provider_texts(out@)[b]).0 by {
                        if b == before.len() {
                            lemma_provider_index(before, pv[i as int].0);
                            assert(before[a].0 != pv[i as int].0);
                        }
                    }
                },
            }
            i = i + 1;
        }
        assert(pv.take(providers.len() as int) == pv);
        let d = match find_provider(&out, default.as_str()) {
            Some(_) => default,
            None => if out.len() > 0 {
                to_owned_string(out[0].name.as_str())
            } else {
                String::new()
            },
        };
        LlmRouter { providers: out, default: d }
    }

    /// The names of the registered providers.
    pub fn available_providers(&self) -> (r: Vec<String>)
        ensures
            r@.map_values(|s: String| s@) == self.registry().map_values(|p: ProviderText| p.0),
    {
        let mut out: Vec<String> = Vec::new();
        let mut i: usize = 0;
        while i < self.providers.len()
            invariant
                i <= self.providers.len(),
                out@.len() == i,
                forall|j: int| 0 <= j < i ==> (#[trigger] out@[j])@ == self.providers@[j].name@,
            decreases self.providers.len() - i,
        {
            let ghost before = out@;
            out.push(to_owned_string(self.providers[i].name.as_str()));
            assert forall|j: int| 0 <= j < i + 1 implies (#[trigger] out@[j])@ == self.providers@[j].name@ by {
                if j < i {
                    assert(out@[j] == before[j]);
                }
            }
            i = i + 1;
        }
        assert(out@.map_values(|s: String| s@) =~= self.registry().map_values(|p: ProviderText| p.0));
        out
    }

    /// The name of the default provider.
    pub fn default_provider(&self) -> (r: &str)
        ensures
            r@ == self.default_name(),
    {
        self.default.as_str()
    }

    /// The providers in the order a request tries them: `preferred` (else the
    /// default) first when registered, then the others in registry order.
    pub fn ordered(&self, preferred: Option<&str>) -> (r: Vec<LlmProviderConfig>)
        ensures
            provider_texts(r@) == ordered_spec(
                self.registry(),
                match preferred {
                    Some(p) => p@,
                    None => self.default_name(),
                },
            ),
    {
        proof {
            use_type_invariant(self);
        }
        let first: &str = match preferred {
            Some(p) => p,
            None => self.default.as_str(),
        };
        let ghost r = provider_texts(self.providers@);
        let mut out: Vec<LlmProviderConfig> = Vec::new();
        match find_provider(&self.providers, first) {
            Some(k) => {
                out.push(copy_config(&self.providers[k]));
            },
            None => {},
        }
        let ghost head = provider_texts(out@);
        let mut i: usize = 0;
        while i < self.providers.len()
            invariant
                i <= self.providers.len(),
                r == provider_texts(self.providers@),
                provider_texts(out@) == head + others(r.take(i as int), first@),
            decreases self.providers.len() - i,
        {
            assert(r.take(i + 1).drop_last() == r.take(i as int));
            assert(r.take(i + 1).last() == r[i as int]);
            if !str_eq(self.providers[i].name.as_str(), first) {
                let ghost before = provider_texts(out@);
                out.push(copy_config(&self.providers[i]));
                assert(provider_texts(out@) =~= before.push(r[i as int]));
                assert(head + others(r.take(i + 1), first@) =~= (head + others(r.take(i as int), first@)).push(
                    r[i as int],
                ));
            }
            i = i + 1;
        }
        assert(r.take(self.providers.len() as int) == r);
        proof {
            lemma_provider_index(r, first@);
            if provider_index(r, first@) >= 0 {
                assert(head =~= seq![r[provider_index(r, first@)]]);
            } else {
                assert(head =~= Seq::<ProviderText>::empty());
            }
        }
        out
    }
}

/// The index of a name is where that name first occurs.
pub proof fn lemma_provider_index(r: Seq<ProviderText>, name: Seq<char>)
    ensures
        -1 <= provider_index(r, name) < r.len(),
        provider_index(r, name) >= 0 ==> r[provider_index(r, name)].0 == name,
        forall|j: int| 0 <= j < r.len() && (#[trigger] r[j]).0 == name ==> 0 <= provider_index(r, name) <= j,
    decreases r.len(),
{
    if r.len() > 0 {
        let d = r.drop_last();
        lemma_provider_index(d, name);
        assert forall|j: int| 0 <= j < r.len() && (#[trigger] r[j]).0 == name implies 0 <= provider_index(r, name) <= j by {
            if j < r.len() - 1 {
                assert(d[j] == r[j]);
            }
        }
        if provider_index(d, name) >= 0 {
            assert(d[provider_index(d, name)] == r[provider_index(d, name)]);
        }
    }
}

proof fn lemma_others(r: Seq<ProviderText>, name: Seq<char>)
    requires
        names_unique(r),
    ensures
        others(r, name).len() + (if provider_index(r, name) >= 0 { 1int } else { 0int }) == r.len(),
        names_unique(others(r, name)),
        forall|k: int| 0 <= k < others(r, name).len() ==> (#[trigger] others(r, name)[k]).0 != name && exists|j: int|
            0 <= j < r.len() && r[j] == others(r, name)[k],
    decreases r.len(),
{
    if r.len() > 0 {
        let d = r.drop_last();
        let l = r.last();
        assert(names_unique(d)) by {
            assert forall|i: int, j: int| 0 <= i < j < d.len() implies (#[trigger] d[i]).0 != (#[trigger] d[j]).0 by {
                assert(d[i] == r[i] && d[j] == r[j]);
            }
        }
        lemma_others(d, name);
        lemma_provider_index(d, name);
        lemma_provider_index(r, name);
        let od = others(d, name);
        if l.0 == name {
            if provider_index(d, name) >= 0 {
                let p = provider_index(d, name);
                assert(r[p] == d[p]);
                assert(r[r.len() - 1] == l);
            }
            assert forall|k: int| 0 <= k < od.len() implies (#[trigger] od[k]).0 != name && exists|j: int|
                0 <= j < r.len() && r[j] == od[k] by {
                let j = choose|j: int| 0 <= j < d.len() && d[j] == od[k];
                assert(r[j] == d[j]);
            }
        } else {
            let o = od.push(l);
            assert(others(r, name) == o);
            if provider_index(d, name) < 0 {
                assert(provider_index(r, name) < 0);
            }
            assert forall|k: int| 0 <= k < o.len() implies (#[trigger] o[k]).0 != name && exists|j: int| 0 <= j < r.len() && r[j] == o[k] by {
                if k < od.len() {
                    assert(o[k] == od[k]);
                    let j = choose|j: int| 0 <= j < d.len() && d[j] == od[k];
                    assert(r[j] == d[j]);
                } else {
                    assert(r[r.len() - 1] == o[k]);
                }
            }
            assert forall|i: int, j: int| 0 <= i < j < o.len() implies (#[trigger] o[i]).0 != (#[trigger] o[j]).0 by {
                if j == od.len() {
                    assert(o[i] == od[i]);
                    let m = choose|m: int| 0 <= m < d.len() && d[m] == od[i];
                    assert(r[m] == d[m]);
                    assert(r[r.len() - 1] == l);
                } else {
                    assert(o[i] == od[i] && o[j] == od[j]);
                }
            }
        }
    }
}

/// A registry holds each name once, and every listed provider's name is registered.
pub proof fn law_registry(ps: Seq<ProviderText>)
    ensures
        names_unique(registry_of(ps)),
        forall|j: int| 0 <= j < ps.len() ==> provider_index(registry_of(ps), #[trigger] ps[j].0) >= 0,
    decreases ps.len(),
{
    if ps.len() > 0 {
        let d = ps.drop_last();
        let p = ps.last();
        law_registry(d);
        let rd = registry_of(d);
        let r = registry_of(ps);
        lemma_provider_index(rd, p.0);
        let i = provider_index(rd, p.0);
        if i >= 0 {
            assert(r == rd.update(i, p));
            assert forall|a: int, b: int| 0 <= a < b < r.len() implies (#[trigger] r[a]).0 != (#[trigger] r[b]).0 by {
                assert(r[a].0 == rd[a].0 && r[b].0 == rd[b].0);
            }
        } else {
            assert(r == rd.push(p));
            assert forall|a: int, b: int| 0 <= a < b < r.len() implies (#[trigger] r[a]).0 != (#[trigger] r[b]).0 by {
                if b == rd.len() {
                    assert(r[a] == rd[a]);
                }
            }
        }
        assert forall|j: int| 0 <= j < ps.len() implies provider_index(r, #[trigger] ps[j].0) >= 0 by {
            lemma_provider_index(r, ps[j].0);
            if j < d.len() {
                assert(d[j] == ps[j]);
                lemma_provider_index(rd, d[j].0);
                let q = provider_index(rd, d[j].0);
                assert(r[q].0 == rd[q].0);
            } else if i >= 0 {
                assert(r[i].0 == p.0);
            } else {
                assert(r[rd.len() as int].0 == p.0);
            }
        }
    }
}

/// A request tries every registered provider exactly once, the named one first
/// when it is registered.
pub proof fn law_ordered(r: Seq<ProviderText>, first: Seq<char>)
    requires
        names_unique(r),
    ensures
        ordered_spec(r, first).len() == r.len(),
        names_unique(ordered_spec(r, first)),
        provider_index(r, first) >= 0 ==> ordered_spec(r, first)[0] == r[provider_index(r, first)]
            && ordered_spec(r, first)[0].0 == first,
        forall|k: int| 0 <= k < ordered_spec(r, first).len() ==> exists|j: int| 0 <= j < r.len() && r[j] == #[trigger] ordered_spec(r, first)[k],
{
    lemma_others(r, first);
    lemma_provider_index(r, first);
    let o = others(r, first);
    let i = provider_index(r, first);
    if i >= 0 {
        let res = seq![r[i]] + o;
        assert(ordered_spec(r, first) == res);
        assert forall|a: int, b: int| 0 <= a < b < res.len() implies (#[trigger] res[a]).0 != (#[trigger] res[b]).0 by {
            assert(res[b] == o[b - 1]);
            if a > 0 {
                assert(res[a] == o[a - 1]);
            }
        }
        assert forall|k: int| 0 <= k < res.len() implies exists|j: int| 0 <= j < r.len() && r[j] == #[trigger] res[k] by {
            if k > 0 {
                assert(res[k] == o[k - 1]);
            }
        }
    }
}

fn copy_config(p: &LlmProviderConfig) -> (r: LlmProviderConfig)
    ensures
        provider_config_view(r) == provider_config_view(*p),
{
    LlmProviderConfig {
        name: to_owned_string(p.name.as_str()),
        api_key: to_owned_string(p.api_key.as_str()),
        base_url: to_owned_string(p.base_url.as_str()),
        model: to_owned_string(p.model.as_str()),
    }
}

fn find_provider(ps: &Vec<LlmProviderConfig>, name: &str) -> (r: Option<usize>)
    ensures
        match r {
            Some(k) => k as int == provider_index(provider_texts(ps@), name@) && k < ps.len(),
            None => provider_index(provider_texts(ps@), name@) < 0,
        },
{
    let ghost pv = provider_texts(ps@);
    let mut i: usize = 0;
    while i < ps.len()
        invariant
            i <= ps.len(),
            pv == provider_texts(ps@),
            forall|j: int| 0 <= j < i ==> (#[trigger] pv[j]).0 != name@,
        decreases ps.len() - i,
    {
        if str_eq(ps[i].name.as_str(), name) {
            proof {
                assert(pv[i as int].0 == name@);
                lemma_provider_index(pv, name@);
            }
            return Some(i);
        }
        i = i + 1;
    }
    proof {
        lemma_provider_index(pv, name@);
    }
    None
}

// ---------------------------------------------------------------------------
// Chat requests and answers
// ---------------------------------------------------------------------------

/// The chat endpoint of a provider: its base url without trailing `/`, then
/// `/chat/completions`.
pub fn chat_completions_url(base_url: &str) -> (r: String)
    ensures
        r@ == strip_end(base_url@, '/') + "/chat/completions"@,
{
    let cs = chars_of(base_url);
    let stripped = strip_trailing(&cs, '/');
    let mut out = string_from(&stripped);
    append_str(&mut out, "/chat/completions");
    out
}

/// The payload of a server-sent-events line: what follows `data:`, trimmed, unless
/// it is `[DONE]`.
pub open spec fn sse_data_spec(line: Seq<char>) -> Option<Seq<char>> {
    if !starts_with_seq(line, "data:"@) {
        None
    } else {
        let d = trim_ws(line.skip(5));
        if d == "[DONE]"@ {
            None
        } else {
            Some(d)
        }
    }
}

/// The payload of a streamed answer line, if it carries one.
pub fn sse_data(line: &str) -> (r: Option<String>)
    ensures
        opt_view(r) == sse_data_spec(line@),
{
    if !str_starts_with(line, "data:") {
        return None;
    }
    proof {
        reveal_strlit("data:");
    }
    let cs = chars_of(line);
    let rest_s = string_from_range(&cs, 5, cs.len());
    let rest = chars_of(rest_s.as_str());
    let (a, b) = trim_bounds(&rest);
    let d = string_from_range(&rest, a, b);
    assert(cs@.subrange(5, cs@.len() as int) == line@.skip(5));
    if str_eq(d.as_str(), "[DONE]") {
        None
    } else {
        Some(d)
    }
}

/// The complete lines of a stream buffer, trimmed, and the unfinished rest: the
/// buffer's pieces between line feeds, all but the last being complete.
pub open spec fn buffer_lines_spec(buffer: Seq<char>) -> (Seq<Seq<char>>, Seq<char>) {
    let pieces = split_on(buffer, '\n');
    (pieces.take(pieces.len() - 1).map_values(|p: Seq<char>| trim_ws(p)), pieces.last())
}

/// Takes the complete lines out of a stream buffer.
pub fn take_buffer_lines(buffer: &str) -> (r: (Vec<String>, String))
    ensures
        (strings_view(r.0@), r.1@) == buffer_lines_spec(buffer@),
{
    let cs = chars_of(buffer);
    let pieces = split_chars(&cs, '\n');
    let ghost pv = pieces@.map_values(|v: Vec<char>| v@);
    proof {
        lemma_split_on_nonempty(buffer@, '\n');
    }
    let n = pieces.len() - 1;
    let mut lines: Vec<String> = Vec::new();
    let mut i: usize = 0;
    while i < n
        invariant
            i <= n,
            n + 1 == pieces.len(),
            pv == pieces@.map_values(|v: Vec<char>| v@),
            lines@.len() == i,
            forall|j: int| 0 <= j < i ==> (#[trigger] lines@[j])@ == trim_ws(pv[j]),
        decreases n - i,
    {
        let (a, b) = trim_bounds(&pieces[i]);
        let t = string_from_range(&pieces[i], a, b);
        let ghost before = lines@;
        lines.push(t);
        assert forall|j: int| 0 <= j < i + 1 implies (#[trigger] lines@[j])@ == trim_ws(pv[j]) by {
            if j < i {
                assert(lines@[j] == before[j]);
            } else {
                assert(pv[j] == pieces@[j]@);
            }
        }
        i = i + 1;
    }
    let rest = string_from(&pieces[n]);
    assert(strings_view(lines@) =~= pv.take(pv.len() - 1).map_values(|p: Seq<char>| trim_ws(p)));
    (lines, rest)
}

/// The first choice of an answer.
pub open spec fn first_choice(v: JsonValue) -> Option<JsonValue> {
    match value_get(v, "choices"@) {
        Some(JsonValue::Array(a)) => if a@.len() > 0 {
            Some(a@[0])
        } else {
            None
        },
        _ => None,
    }
}

/// `choices[0].<part>.content` of an answer, when it is a string.
pub open spec fn choice_content(v: JsonValue, part: Seq<char>) -> Option<Seq<char>> {
    match first_choice(v) {
        Some(c) => match value_get(c, part) {
            Some(d) => str_of(value_get(d, "content"@)),
            None => None,
        },
        None => None,
    }
}

fn choice_content_exec(v: &JsonValue, part: &str) -> (r: Option<String>)
    ensures
        opt_view(r) == choice_content(*v, part@),
{
    match v.get("choices") {
        Some(JsonValue::Array(a)) => {
            if a.len() == 0 {
                return None;
            }
            match a[0].get(part) {
                Some(d) => match d.get("content") {
                    Some(JsonValue::Str(s)) => Some(to_owned_string(s.as_str())),
                    _ => None,
                },
                None => None,
            }
        },
        _ => None,
    }
}

/// The text piece of a streamed chunk: `choices[0].delta.content`.
pub fn delta_content(chunk: &JsonValue) -> (r: Option<String>)
    ensures
        opt_view(r) == choice_content(*chunk, "delta"@),
{
    choice_content_exec(chunk, "delta")
}

/// The text of a whole answer: `choices[0].message.content`.
pub fn message_content(answer: &JsonValue) -> (r: Option<String>)
    ensures
        opt_view(r) == choice_content(*answer, "message"@),
{
    choice_content_exec(answer, "message")
}

/// The error when every provider failed, naming the last failure.
pub fn providers_failed_message(last_err: &str) -> (r: String)
    ensures
        r@ == "all LLM providers failed: "@ + last_err@,
{
    let mut out = to_owned_string("all LLM providers failed: ");
    append_str(&mut out, last_err);
    out
}

/// What trying providers in turn comes to, given the outcome of each attempt in order:
/// the first answer, or, when every attempt failed, the failure message naming the last
/// error (`last` until one is seen).
pub open spec fn fallback_spec(outcomes: Seq<Result<String, String>>, last: Seq<char>) -> Result<Seq<char>, Seq<char>>
    decreases outcomes.len(),
{
    if outcomes.len() == 0 {
        Err("all LLM providers failed: "@ + last)
    } else {
        match outcomes[0] {
            Ok(s) => Ok(s@),
            Err(e) => fallback_spec(outcomes.drop_first(), e@),
        }
    }
}

/// The result of trying providers in turn, from the outcomes of the attempts made (the
/// caller stops after the first answer; later outcomes would not change the result).
pub fn fallback_result(outcomes: &Vec<Result<String, String>>) -> (r: Result<String, String>)
    ensures
        match r {
            Ok(s) => fallback_spec(outcomes@, ""@) == Ok::<Seq<char>, Seq<char>>(s@),
            Err(e) => fallback_spec(outcomes@, ""@) == Err::<Seq<char>, Seq<char>>(e@),
        },
{
    let mut last = to_owned_string("");
    let mut i: usize = 0;
    assert(outcomes@.skip(0) == outcomes@);
    while i < outcomes.len()
        invariant
            i <= outcomes.len(),
            fallback_spec(outcomes@, ""@) == fallback_spec(outcomes@.skip(i as int), last@),
        decreases outcomes.len() - i,
    {
        assert(outcomes@.skip(i as int).drop_first() == outcomes@.skip(i + 1));
        assert(outcomes@.skip(i as int)[0] == outcomes@[i as int]);
        match &outcomes[i] {
            Ok(s) => {
                return Ok(s.clone());
            },
            Err(e) => {
                last = e.clone();
            },
        }
        i = i + 1;
    }
    Err(providers_failed_message(last.as_str()))
}

} // verus!
