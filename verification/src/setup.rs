//! The LLM setup page: the catalog shown with what is configured, and which
//! provider becomes the default.
use vstd::prelude::*;

use crate::config::{catalog_spec, llm_catalog, provider_config_view, template_view, LlmProviderConfig};
use crate::crypto::{mask_secret, mask_spec};
use crate::llm::{provider_texts, ProviderText};
use crate::text::{str_eq, to_owned_string, trim_ws};
use vstd::string::StrSliceExecFns;

verus! {

/// One catalog provider as the setup page shows it.
#[derive(Clone, Debug)]
pub struct LlmProviderSetupView {
    pub name: String,
    pub label: String,
    pub default_base_url: String,
    pub default_model: String,
    pub key_required: bool,
    pub configured: bool,
    pub api_key_masked: String,
    pub base_url: String,
    pub model: String,
}

/// The last configuration named `name`, if any.
pub open spec fn last_config(ps: Seq<ProviderText>, name: Seq<char>) -> Option<ProviderText>
    decreases ps.len(),
{
    if ps.len() == 0 {
        None
    } else if ps.last().0 == name {
        Some(ps.last())
    } else {
        last_config(ps.drop_last(), name)
    }
}

/// The fields of a setup view.
pub open spec fn setup_view_text(v: LlmProviderSetupView) -> (
    Seq<char>,
    Seq<char>,
    Seq<char>,
    Seq<char>,
    bool,
    bool,
    Seq<char>,
    Seq<char>,
    Seq<char>,
) {
    (v.name@, v.label@, v.default_base_url@, v.default_model@, v.key_required, v.configured, v.api_key_masked@, v.base_url@, v.model@)
}

/// How a catalog entry shows with the configured providers: its defaults, and,
/// when a provider of that name is configured (the last one counts), its masked
/// key, base URL and model.
pub open spec fn setup_view_spec(t: (Seq<char>, Seq<char>, Seq<char>, Seq<char>, bool), configured: Seq<ProviderText>) -> (
    Seq<char>,
    Seq<char>,
    Seq<char>,
    Seq<char>,
    bool,
    bool,
    Seq<char>,
    Seq<char>,
    Seq<char>,
) {
    match last_config(configured, t.0) {
        Some(p) => (t.0, t.1, t.2, t.3, t.4, true, mask_spec(p.1), p.2, p.3),
        None => (t.0, t.1, t.2, t.3, t.4, false, "（未配置）"@, t.2, t.3),
    }
}

fn find_last(ps: &Vec<LlmProviderConfig>, name: &str) -> (r: Option<usize>)
    ensures
        match r {
            Some(k) => k < ps.len() && last_config(provider_texts(ps@), name@) == Some(provider_texts(ps@)[k as int]),
            None => last_config(provider_texts(ps@), name@) is None,
        },
{
    let ghost pv = provider_texts(ps@);
    let mut i = ps.len();
    assert(pv.take(i as int) == pv);
    while i > 0
        invariant
            i <= ps.len(),
            pv == provider_texts(ps@),
            last_config(pv, name@) == last_config(pv.take(i as int), name@),
        decreases i,
    {
        let ghost t = pv.take(i as int);
        assert(t.drop_last() == pv.take(i - 1));
        assert(t.last() == pv[i - 1]);
        if str_eq(ps[i - 1].name.as_str(), name) {
            return Some(i - 1);
        }
        i = i - 1;
    }
    None
}

/// The catalog as the setup page shows it, with the configured providers.
pub fn llm_setup_views(configured: &Vec<LlmProviderConfig>) -> (r: Vec<LlmProviderSetupView>)
    ensures
        r@.map_values(|v: LlmProviderSetupView| setup_view_text(v)) == catalog_spec().map_values(
            |t: (Seq<char>, Seq<char>, Seq<char>, Seq<char>, bool)| setup_view_spec(t, provider_texts(configured@)),
        ),
{
    let catalog = llm_catalog();
    let ghost cv = catalog_spec();
    let ghost want = cv.map_values(
        |t: (Seq<char>, Seq<char>, Seq<char>, Seq<char>, bool)| setup_view_spec(t, provider_texts(configured@)),
    );
    let mut out: Vec<LlmProviderSetupView> = Vec::new();
    let mut i: usize = 0;
    assert(catalog@.len() == cv.len());
    while i < catalog.len()
        invariant
            i <= catalog.len() == cv.len(),
            cv == catalog_spec(),
            want == cv.map_values(
                |t: (Seq<char>, Seq<char>, Seq<char>, Seq<char>, bool)| setup_view_spec(t, provider_texts(configured@)),
            ),
            catalog@.map_values(|t: crate::config::LlmProviderTemplate| template_view(t)) == cv,
            out@.len() == i,
            forall|j: int| 0 <= j < i ==> setup_view_text(#[trigger] out@[j]) == want[j],
        decreases catalog.len() - i,
    {
        let t = &catalog[i];
        assert(template_view(*t) == cv[i as int]);
        let v = match find_last(configured, t.name.as_str()) {
            Some(k) => {
                let p = &configured[k];
                LlmProviderSetupView {
                    name: to_owned_string(t.name.as_str()),
                    label: to_owned_string(t.label.as_str()),
                    default_base_url: to_owned_string(t.default_base_url.as_str()),
                    default_model: to_owned_string(t.default_model.as_str()),
                    key_required: t.key_required,
                    configured: true,
                    api_key_masked: mask_secret(p.api_key.as_str()),
                    base_url: to_owned_string(p.base_url.as_str()),
                    model: to_owned_string(p.model.as_str()),
                }
            },
            None => LlmProviderSetupView {
                name: to_owned_string(t.name.as_str()),
                label: to_owned_string(t.label.as_str()),
                default_base_url: to_owned_string(t.default_base_url.as_str()),
                default_model: to_owned_string(t.default_model.as_str()),
                key_required: t.key_required,
                configured: false,
                api_key_masked: to_owned_string("（未配置）"),
                base_url: to_owned_string(t.default_base_url.as_str()),
                model: to_owned_string(t.default_model.as_str()),
            },
        };
        assert(setup_view_text(v) == want[i as int]);
        let ghost before = out@;
        out.push(v);
        assert forall|j: int| 0 <= j < i + 1 implies setup_view_text(#[trigger] out@[j]) == want[j] by {
            if j < i {
                assert(out@[j] == before[j]);
            }
        }
        i = i + 1;
    }
    assert(out@.map_values(|v: LlmProviderSetupView| setup_view_text(v)) =~= want);
    out
}

/// Whether a submitted credential is stored: a key must be given unless the
/// provider is the local Ollama.
pub fn credential_to_save(provider: &str, api_key: &str) -> (r: bool)
    ensures
        r == (trim_ws(api_key@).len() > 0 || provider@ == "ollama"@),
{
    !crate::text::is_blank(api_key) || str_eq(provider, "ollama")
}

/// The default provider after saving a setup: the requested one if any; else the
/// current default while it is still configured; else the first configured one.
pub fn choose_default_provider(requested: &str, current: &str, providers: &Vec<LlmProviderConfig>) -> (r: String)
    requires
        providers@.len() > 0,
    ensures
        r@ == if requested@.len() > 0 {
            requested@
        } else if exists|k: int| 0 <= k < providers@.len() && (#[trigger] providers@[k]).name@ == current@ {
            current@
        } else {
            providers@[0].name@
        },
{
    if requested.unicode_len() > 0 {
        return to_owned_string(requested);
    }
    let mut i: usize = 0;
    while i < providers.len()
        invariant
            i <= providers.len(),
            requested@.len() == 0,
            forall|k: int| 0 <= k < i ==> (#[trigger] providers@[k]).name@ != current@,
        decreases providers.len() - i,
    {
        if str_eq(providers[i].name.as_str(), current) {
            assert(providers@[i as int].name@ == current@);
            return to_owned_string(current);
        }
        i = i + 1;
    }
    to_owned_string(providers[0].name.as_str())
}

} // verus!
