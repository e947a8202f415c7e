//! The configuration snapshot a council run reads: the backend API key, the
//! council model list, and the chairman model, with the defaults that apply
//! when a field is unset or empty.

use vstd::prelude::*;

verus! {

/// Persisted settings. Any field may be absent; readers fall back to the
/// defaults below.
#[derive(Clone, Debug)]
pub struct Settings {
    pub openrouter_api_key: Option<String>,
    pub council_models: Option<Vec<String>>,
    pub chairman_model: Option<String>,
}

impl Default for Settings {
    /// Settings with every field unset.
    fn default() -> (s: Settings)
        ensures
            s.openrouter_api_key is None,
            s.council_models is None,
            s.chairman_model is None,
    {
        Settings { openrouter_api_key: None, council_models: None, chairman_model: None }
    }
}

/// The council queried when none is configured.
pub open spec fn default_council_models() -> Seq<Seq<char>> {
    seq![
        "openai/gpt-oss-20b:free"@,
        "google/gemma-3-27b-it:free"@,
        "meta-llama/llama-3.3-70b-instruct:free"@,
        "x-ai/grok-4.1-fast:free"@,
        "qwen/qwen3-235b-a22b:free"@,
        "nousresearch/hermes-3-llama-3.1-405b:free"@,
        "mistralai/mistral-small-3.1-24b-instruct:free"@,
        "tngtech/deepseek-r1t2-chimera:free"@,
    ]
}

/// The chairman queried when none is configured.
pub open spec fn default_chairman_model() -> Seq<char> {
    "google/gemini-3-pro-preview"@
}

/// The council list a run uses: the configured one when present and
/// non-empty, else the default council.
pub open spec fn effective_council_models(s: Settings) -> Seq<Seq<char>> {
    match s.council_models {
        Option::Some(m) => if m@.len() > 0 {
            m.deep_view()
        } else {
            default_council_models()
        },
        Option::None => default_council_models(),
    }
}

/// The chairman a run uses: the configured one when present and non-empty,
/// else the default chairman.
pub open spec fn effective_chairman_model(s: Settings) -> Seq<char> {
    match s.chairman_model {
        Option::Some(m) => if m@.len() > 0 {
            m@
        } else {
            default_chairman_model()
        },
        Option::None => default_chairman_model(),
    }
}

/// The council models of `settings`, or the defaults.
pub fn get_council_models(settings: &Settings) -> (models: Vec<String>)
    ensures
        models.deep_view() == effective_council_models(*settings),
{
    match &settings.council_models {
        Option::Some(m) => {
            if m.len() > 0 {
                let r = m.clone();
                proof {
                    assert(r.deep_view() =~= m.deep_view());
                }
                return r;
            }
        },
        Option::None => {},
    }
    let mut defaults: Vec<String> = Vec::new();
    defaults.push(String::from_str("openai/gpt-oss-20b:free"));
    defaults.push(String::from_str("google/gemma-3-27b-it:free"));
    defaults.push(String::from_str("meta-llama/llama-3.3-70b-instruct:free"));
    defaults.push(String::from_str("x-ai/grok-4.1-fast:free"));
    defaults.push(String::from_str("qwen/qwen3-235b-a22b:free"));
    defaults.push(String::from_str("nousresearch/hermes-3-llama-3.1-405b:free"));
    defaults.push(String::from_str("mistralai/mistral-small-3.1-24b-instruct:free"));
    defaults.push(String::from_str("tngtech/deepseek-r1t2-chimera:free"));
    proof {
        assert(defaults.deep_view() =~= default_council_models());
    }
    defaults
}

/// The chairman model of `settings`, or the default.
pub fn get_chairman_model(settings: &Settings) -> (model: String)
    ensures
        model@ == effective_chairman_model(*settings),
{
    match &settings.chairman_model {
        Option::Some(m) => {
            if !m.as_str().is_empty() {
                return m.clone();
            }
        },
        Option::None => {},
    }
    String::from_str("google/gemini-3-pro-preview")
}

/// The configured API key, when one is present and non-empty. Callers fall
/// back to the environment.
pub fn configured_api_key(settings: &Settings) -> (key: Option<String>)
    ensures
        match key {
            Option::Some(k) => settings.openrouter_api_key == Option::Some(k)
                && k@.len() > 0,
            Option::None => match settings.openrouter_api_key {
                Option::Some(k0) => k0@.len() == 0,
                Option::None => true,
            },
        },
{
    match &settings.openrouter_api_key {
        Option::Some(k) => {
            if !k.as_str().is_empty() {
                Some(k.clone())
            } else {
                None
            }
        },
        Option::None => None,
    }
}

/// Stores `api_key` in the settings.
pub fn set_openrouter_api_key(settings: &mut Settings, api_key: String)
    ensures
        final(settings).openrouter_api_key == Option::Some(api_key),
        final(settings).council_models == old(settings).council_models,
        final(settings).chairman_model == old(settings).chairman_model,
{
    settings.openrouter_api_key = Some(api_key);
}

/// Removes the stored API key from the settings.
pub fn clear_openrouter_api_key(settings: &mut Settings)
    ensures
        final(settings).openrouter_api_key is None,
        final(settings).council_models == old(settings).council_models,
        final(settings).chairman_model == old(settings).chairman_model,
{
    settings.openrouter_api_key = None;
}

/// Stores the council model list in the settings.
pub fn set_council_models(settings: &mut Settings, models: Vec<String>)
    ensures
        final(settings).council_models == Option::Some(models),
        final(settings).openrouter_api_key == old(settings).openrouter_api_key,
        final(settings).chairman_model == old(settings).chairman_model,
{
    settings.council_models = Some(models);
}

/// Stores the chairman model in the settings.
pub fn set_chairman_model(settings: &mut Settings, model: String)
    ensures
        final(settings).chairman_model == Option::Some(model),
        final(settings).openrouter_api_key == old(settings).openrouter_api_key,
        final(settings).council_models == old(settings).council_models,
{
    settings.chairman_model = Some(model);
}

/// Validates a models-configuration request: at least one council model and
/// a non-empty chairman are required.
pub fn validate_models_request(council_models: &Vec<String>, chairman_model: &String) -> (ok: bool)
    ensures
        ok <==> council_models@.len() > 0 && chairman_model@.len() > 0,
{
    council_models.len() > 0 && !chairman_model.as_str().is_empty()
}

} // verus!
