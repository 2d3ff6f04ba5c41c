//! Built-in LLM provider catalog: OpenAI-compatible chat endpoints (NVIDIA
//! NIM free tier, ten common hosts and a custom entry).

use vstd::prelude::*;
use crate::text::{chars_of, lower, to_lower, chars_eq, views_of};

verus! {

/// One selectable chat provider.
#[derive(Debug, Clone)]
pub struct LlmProviderPreset {
    pub id: String,
    pub name: String,
    pub description: String,
    pub base_url: String,
    pub default_model: String,
    pub models: Vec<String>,
    /// True when a free / trial tier is commonly available.
    pub free_tier: bool,
    pub docs_url: String,
    pub auth_hint: String,
}

/// A preset as plain text.
pub struct PresetView {
    pub id: Seq<char>,
    pub name: Seq<char>,
    pub description: Seq<char>,
    pub base_url: Seq<char>,
    pub default_model: Seq<char>,
    pub models: Seq<Seq<char>>,
    pub free_tier: bool,
    pub docs_url: Seq<char>,
    pub auth_hint: Seq<char>,
}

impl View for LlmProviderPreset {
    type V = PresetView;

    open spec fn view(&self) -> PresetView {
        PresetView {
            id: self.id@,
            name: self.name@,
            description: self.description@,
            base_url: self.base_url@,
            default_model: self.default_model@,
            models: self.models@.map_values(|m: String| m@),
            free_tier: self.free_tier,
            docs_url: self.docs_url@,
            auth_hint: self.auth_hint@,
        }
    }
}

/// The catalog, in the order it is offered.
pub open spec fn catalog() -> Seq<PresetView> {
    seq![
        PresetView {
            id: "nvidia"@,
            name: "NVIDIA NIM"@,
            description: "Free API key via build.nvidia.com — OpenAI-compatible chat."@,
            base_url: "https://integrate.api.nvidia.com/v1"@,
            default_model: "meta/llama-3.1-8b-instruct"@,
            models: seq!["meta/llama-3.1-8b-instruct"@, "meta/llama-3.3-70b-instruct"@, "google/gemma-2-9b-it"@, "mistralai/mistral-7b-instruct-v0.3"@, "microsoft/phi-3-mini-128k-instruct"@],
            free_tier: true,
            docs_url: "https://build.nvidia.com/"@,
            auth_hint: "API key from build.nvidia.com (Bearer)"@,
        },
        PresetView {
            id: "groq"@,
            name: "Groq"@,
            description: "Fast open models (Llama, Gemma) via GroqCloud."@,
            base_url: "https://api.groq.com/openai/v1"@,
            default_model: "llama-3.3-70b-versatile"@,
            models: seq!["llama-3.3-70b-versatile"@, "llama-3.1-8b-instant"@, "gemma2-9b-it"@],
            free_tier: true,
            docs_url: "https://console.groq.com/"@,
            auth_hint: "Groq API key"@,
        },
        PresetView {
            id: "openrouter"@,
            name: "OpenRouter"@,
            description: "Many open models behind one OpenAI-compatible API."@,
            base_url: "https://openrouter.ai/api/v1"@,
            default_model: "meta-llama/llama-3.1-8b-instruct:free"@,
            models: seq!["meta-llama/llama-3.1-8b-instruct:free"@, "google/gemma-2-9b-it:free"@, "mistralai/mistral-7b-instruct:free"@],
            free_tier: true,
            docs_url: "https://openrouter.ai/"@,
            auth_hint: "OpenRouter API key"@,
        },
        PresetView {
            id: "together"@,
            name: "Together AI"@,
            description: "Open-weight models hosted by Together."@,
            base_url: "https://api.together.xyz/v1"@,
            default_model: "meta-llama/Meta-Llama-3.1-8B-Instruct-Turbo"@,
            models: seq!["meta-llama/Meta-Llama-3.1-8B-Instruct-Turbo"@, "mistralai/Mixtral-8x7B-Instruct-v0.1"@],
            free_tier: false,
            docs_url: "https://www.together.ai/"@,
            auth_hint: "Together API key"@,
        },
        PresetView {
            id: "deepseek"@,
            name: "DeepSeek"@,
            description: "DeepSeek chat models (OpenAI-compatible)."@,
            base_url: "https://api.deepseek.com/v1"@,
            default_model: "deepseek-chat"@,
            models: seq!["deepseek-chat"@, "deepseek-reasoner"@],
            free_tier: false,
            docs_url: "https://platform.deepseek.com/"@,
            auth_hint: "DeepSeek API key"@,
        },
        PresetView {
            id: "fireworks"@,
            name: "Fireworks"@,
            description: "Fast inference for open models."@,
            base_url: "https://api.fireworks.ai/inference/v1"@,
            default_model: "accounts/fireworks/models/llama-v3p1-8b-instruct"@,
            models: seq!["accounts/fireworks/models/llama-v3p1-8b-instruct"@, "accounts/fireworks/models/mixtral-8x7b-instruct"@],
            free_tier: false,
            docs_url: "https://fireworks.ai/"@,
            auth_hint: "Fireworks API key"@,
        },
        PresetView {
            id: "mistral"@,
            name: "Mistral"@,
            description: "Mistral large / small via official API."@,
            base_url: "https://api.mistral.ai/v1"@,
            default_model: "mistral-small-latest"@,
            models: seq!["mistral-small-latest"@, "mistral-large-latest"@, "open-mistral-nemo"@],
            free_tier: false,
            docs_url: "https://console.mistral.ai/"@,
            auth_hint: "Mistral API key"@,
        },
        PresetView {
            id: "ollama"@,
            name: "Ollama (local)"@,
            description: "Fully local open models via Ollama OpenAI shim."@,
            base_url: "http://127.0.0.1:11434/v1"@,
            default_model: "llama3.2"@,
            models: seq!["llama3.2"@, "mistral"@, "qwen2.5"@, "gemma2"@],
            free_tier: true,
            docs_url: "https://ollama.com/"@,
            auth_hint: "Usually no key (local)"@,
        },
        PresetView {
            id: "openai"@,
            name: "OpenAI"@,
            description: "OpenAI chat completions (paid)."@,
            base_url: "https://api.openai.com/v1"@,
            default_model: "gpt-4o-mini"@,
            models: seq!["gpt-4o-mini"@, "gpt-4o"@, "gpt-4.1-mini"@],
            free_tier: false,
            docs_url: "https://platform.openai.com/"@,
            auth_hint: "OpenAI API key (sk-…)"@,
        },
        PresetView {
            id: "cerebras"@,
            name: "Cerebras"@,
            description: "Very fast Llama inference."@,
            base_url: "https://api.cerebras.ai/v1"@,
            default_model: "llama3.1-8b"@,
            models: seq!["llama3.1-8b"@, "llama-3.3-70b"@],
            free_tier: true,
            docs_url: "https://inference-docs.cerebras.ai/"@,
            auth_hint: "Cerebras API key"@,
        },
        PresetView {
            id: "sambanova"@,
            name: "SambaNova"@,
            description: "SambaNova Cloud open models."@,
            base_url: "https://api.sambanova.ai/v1"@,
            default_model: "Meta-Llama-3.1-8B-Instruct"@,
            models: seq!["Meta-Llama-3.1-8B-Instruct"@, "Meta-Llama-3.3-70B-Instruct"@],
            free_tier: true,
            docs_url: "https://cloud.sambanova.ai/"@,
            auth_hint: "SambaNova API key"@,
        },
        PresetView {
            id: "custom"@,
            name: "Custom"@,
            description: "Any OpenAI-compatible base URL. Enter base URL, then pick or type a model id."@,
            base_url: "http://127.0.0.1:8000/v1"@,
            default_model: "default"@,
            models: seq![],
            free_tier: true,
            docs_url: ""@,
            auth_hint: "Provider-specific API key if required"@,
        },
    ]
}

fn preset(
    id: &str,
    name: &str,
    description: &str,
    base_url: &str,
    default_model: &str,
    models: &[&str],
    free_tier: bool,
    docs_url: &str,
    auth_hint: &str,
) -> (p: LlmProviderPreset)
    ensures
        p@ == (PresetView {
            id: id@,
            name: name@,
            description: description@,
            base_url: base_url@,
            default_model: default_model@,
            models: views_of(models@),
            free_tier: free_tier,
            docs_url: docs_url@,
            auth_hint: auth_hint@,
        }),
{
    let mut ms: Vec<String> = Vec::new();
    let mut i: usize = 0;
    while i < models.len()
        invariant
            i <= models@.len(),
            ms@.map_values(|m: String| m@) == views_of(models@).take(i as int),
        decreases models@.len() - i,
    {
        let m: String = models[i].to_owned();
        assert(m@ == views_of(models@)[i as int]);
        let ghost before = ms@.map_values(|m: String| m@);
        ms.push(m);
        assert(ms@.map_values(|m: String| m@) =~= before.push(m@));
        i = i + 1;
        assert(ms@.map_values(|m: String| m@) =~= views_of(models@).take(i as int));
    }
    assert(views_of(models@).take(i as int) =~= views_of(models@));
    let p = LlmProviderPreset {
        id: id.to_owned(),
        name: name.to_owned(),
        description: description.to_owned(),
        base_url: base_url.to_owned(),
        default_model: default_model.to_owned(),
        models: ms,
        free_tier,
        docs_url: docs_url.to_owned(),
        auth_hint: auth_hint.to_owned(),
    };
    assert(p@.models =~= views_of(models@));
    p
}

/// NVIDIA NIM + 10 hosts + custom entry (12 selectable options).
pub fn llm_provider_catalog() -> (c: Vec<LlmProviderPreset>)
    ensures
        c@.map_values(|p: LlmProviderPreset| p@) == catalog(),
{
    let mut v: Vec<LlmProviderPreset> = Vec::new();
    let models: [&str; 5] = ["meta/llama-3.1-8b-instruct", "meta/llama-3.3-70b-instruct", "google/gemma-2-9b-it", "mistralai/mistral-7b-instruct-v0.3", "microsoft/phi-3-mini-128k-instruct"];
    assert(views_of(models@) =~= catalog()[0].models);
    v.push(preset(
        "nvidia",
        "NVIDIA NIM",
        "Free API key via build.nvidia.com — OpenAI-compatible chat.",
        "https://integrate.api.nvidia.com/v1",
        "meta/llama-3.1-8b-instruct",
        &models,
        true,
        "https://build.nvidia.com/",
        "API key from build.nvidia.com (Bearer)",
    ));
    let models: [&str; 3] = ["llama-3.3-70b-versatile", "llama-3.1-8b-instant", "gemma2-9b-it"];
    assert(views_of(models@) =~= catalog()[1].models);
    v.push(preset(
        "groq",
        "Groq",
        "Fast open models (Llama, Gemma) via GroqCloud.",
        "https://api.groq.com/openai/v1",
        "llama-3.3-70b-versatile",
        &models,
        true,
        "https://console.groq.com/",
        "Groq API key",
    ));
    let models: [&str; 3] = ["meta-llama/llama-3.1-8b-instruct:free", "google/gemma-2-9b-it:free", "mistralai/mistral-7b-instruct:free"];
    assert(views_of(models@) =~= catalog()[2].models);
    v.push(preset(
        "openrouter",
        "OpenRouter",
        "Many open models behind one OpenAI-compatible API.",
        "https://openrouter.ai/api/v1",
        "meta-llama/llama-3.1-8b-instruct:free",
        &models,
        true,
        "https://openrouter.ai/",
        "OpenRouter API key",
    ));
    let models: [&str; 2] = ["meta-llama/Meta-Llama-3.1-8B-Instruct-Turbo", "mistralai/Mixtral-8x7B-Instruct-v0.1"];
    assert(views_of(models@) =~= catalog()[3].models);
    v.push(preset(
        "together",
        "Together AI",
        "Open-weight models hosted by Together.",
        "https://api.together.xyz/v1",
        "meta-llama/Meta-Llama-3.1-8B-Instruct-Turbo",
        &models,
        false,
        "https://www.together.ai/",
        "Together API key",
    ));
    let models: [&str; 2] = ["deepseek-chat", "deepseek-reasoner"];
    assert(views_of(models@) =~= catalog()[4].models);
    v.push(preset(
        "deepseek",
        "DeepSeek",
        "DeepSeek chat models (OpenAI-compatible).",
        "https://api.deepseek.com/v1",
        "deepseek-chat",
        &models,
        false,
        "https://platform.deepseek.com/",
        "DeepSeek API key",
    ));
    let models: [&str; 2] = ["accounts/fireworks/models/llama-v3p1-8b-instruct", "accounts/fireworks/models/mixtral-8x7b-instruct"];
    assert(views_of(models@) =~= catalog()[5].models);
    v.push(preset(
        "fireworks",
        "Fireworks",
        "Fast inference for open models.",
        "https://api.fireworks.ai/inference/v1",
        "accounts/fireworks/models/llama-v3p1-8b-instruct",
        &models,
        false,
        "https://fireworks.ai/",
        "Fireworks API key",
    ));
    let models: [&str; 3] = ["mistral-small-latest", "mistral-large-latest", "open-mistral-nemo"];
    assert(views_of(models@) =~= catalog()[6].models);
    v.push(preset(
        "mistral",
        "Mistral",
        "Mistral large / small via official API.",
        "https://api.mistral.ai/v1",
        "mistral-small-latest",
        &models,
        false,
        "https://console.mistral.ai/",
        "Mistral API key",
    ));
    let models: [&str; 4] = ["llama3.2", "mistral", "qwen2.5", "gemma2"];
    assert(views_of(models@) =~= catalog()[7].models);
    v.push(preset(
        "ollama",
        "Ollama (local)",
        "Fully local open models via Ollama OpenAI shim.",
        "http://127.0.0.1:11434/v1",
        "llama3.2",
        &models,
        true,
        "https://ollama.com/",
        "Usually no key (local)",
    ));
    let models: [&str; 3] = ["gpt-4o-mini", "gpt-4o", "gpt-4.1-mini"];
    assert(views_of(models@) =~= catalog()[8].models);
    v.push(preset(
        "openai",
        "OpenAI",
        "OpenAI chat completions (paid).",
        "https://api.openai.com/v1",
        "gpt-4o-mini",
        &models,
        false,
        "https://platform.openai.com/",
        "OpenAI API key (sk-…)",
    ));
    let models: [&str; 2] = ["llama3.1-8b", "llama-3.3-70b"];
    assert(views_of(models@) =~= catalog()[9].models);
    v.push(preset(
        "cerebras",
        "Cerebras",
        "Very fast Llama inference.",
        "https://api.cerebras.ai/v1",
        "llama3.1-8b",
        &models,
        true,
        "https://inference-docs.cerebras.ai/",
        "Cerebras API key",
    ));
    let models: [&str; 2] = ["Meta-Llama-3.1-8B-Instruct", "Meta-Llama-3.3-70B-Instruct"];
    assert(views_of(models@) =~= catalog()[10].models);
    v.push(preset(
        "sambanova",
        "SambaNova",
        "SambaNova Cloud open models.",
        "https://api.sambanova.ai/v1",
        "Meta-Llama-3.1-8B-Instruct",
        &models,
        true,
        "https://cloud.sambanova.ai/",
        "SambaNova API key",
    ));
    let models: [&str; 0] = [];
    assert(views_of(models@) =~= catalog()[11].models);
    v.push(preset(
        "custom",
        "Custom",
        "Any OpenAI-compatible base URL. Enter base URL, then pick or type a model id.",
        "http://127.0.0.1:8000/v1",
        "default",
        &models,
        true,
        "",
        "Provider-specific API key if required",
    ));
    assert(v@.map_values(|p: LlmProviderPreset| p@) =~~= catalog());
    v
}

/// `str::eq_ignore_ascii_case`.
pub open spec fn eq_ignore_ascii_case(a: Seq<char>, b: Seq<char>) -> bool {
    lower(a) == lower(b)
}

/// The first catalog position whose id matches (ASCII case ignored).
pub open spec fn is_first_match(id: Seq<char>, i: int) -> bool {
    &&& 0 <= i < catalog().len()
    &&& eq_ignore_ascii_case(catalog()[i].id, id)
    &&& forall|j: int| 0 <= j < i ==> !eq_ignore_ascii_case(#[trigger] catalog()[j].id, id)
}

/// The preset with this id (ASCII case ignored), if any.
pub open spec fn preset_with_id(id: Seq<char>) -> Option<PresetView> {
    if exists|i: int| is_first_match(id, i) {
        Some(catalog()[choose|i: int| is_first_match(id, i)])
    } else {
        None
    }
}

/// Looks a preset up by id, ignoring ASCII case.
pub fn find_provider(id: &str) -> (r: Option<LlmProviderPreset>)
    ensures
        match r {
            Some(p) => preset_with_id(id@) == Some(p@),
            None => preset_with_id(id@) is None,
        },
{
    let mut all = llm_provider_catalog();
    let want = to_lower(&chars_of(id));
    let mut i: usize = 0;
    while i < all.len()
        invariant
            all@.map_values(|p: LlmProviderPreset| p@) == catalog(),
            i <= all@.len(),
            want@ == lower(id@),
            forall|j: int| 0 <= j < i ==> !eq_ignore_ascii_case(#[trigger] catalog()[j].id, id@),
        decreases all@.len() - i,
    {
        let here = to_lower(&chars_of(all[i].id.as_str()));
        assert(catalog()[i as int] == all@[i as int]@);
        if chars_eq(&here, &want) {
            proof {
                assert(is_first_match(id@, i as int));
                let c = choose|k: int| is_first_match(id@, k);
                if c < i {
                    assert(!eq_ignore_ascii_case(catalog()[c].id, id@));
                } else if c > i {
                    assert(eq_ignore_ascii_case(catalog()[i as int].id, id@));
                }
            }
            return Some(all.remove(i));
        }
        i = i + 1;
    }
    None
}

/// A realtime provider the gateway can be started with.
#[derive(Debug, Clone)]
pub struct ProviderOption {
    pub id: String,
    /// The provider's class, as the protocol names it.
    pub class: String,
    pub summary: String,
    /// The command-line flags that select it.
    pub cli: String,
}

/// An option as plain text: id, class, summary and flags.
pub open spec fn option_view(o: ProviderOption) -> (Seq<char>, Seq<char>, Seq<char>, Seq<char>) {
    (o.id@, o.class@, o.summary@, o.cli@)
}

/// The providers selectable with `--provider`, in the order they are listed.
pub open spec fn provider_options() -> Seq<(Seq<char>, Seq<char>, Seq<char>, Seq<char>)> {
    seq![
        ("mock"@, "mock"@, "Offline formant duplex for demos (no external services)"@, "--provider mock"@),
        ("openai-compatible"@, "cascade"@, "ASR→LLM→TTS cascade (LocalAI / Piper / openedai-speech)"@, "--provider openai-compatible --model-base-url http://127.0.0.1:8000/v1"@),
        ("openai-realtime"@, "native_duplex"@, "OpenAI Realtime WebSocket (or compatible self-host)"@, "--provider openai-realtime --realtime-url wss://..."@),
        ("moshi"@, "native_duplex"@, "Kyutai Moshi–compatible full-duplex WebSocket worker"@, "--provider moshi --moshi-url ws://127.0.0.1:8998/api/chat"@),
        ("hybrid"@, "hybrid_streaming"@, "Fast mock path + deep cascade handoff for complex turns"@, "--provider hybrid --model-base-url http://127.0.0.1:8000/v1"@),
    ]
}

/// The static catalog of realtime providers operators can select.
pub fn provider_catalog() -> (c: Vec<ProviderOption>)
    ensures
        c@.map_values(|o: ProviderOption| option_view(o)) == provider_options(),
{
    let mut v: Vec<ProviderOption> = Vec::new();
    v.push(ProviderOption {
        id: "mock".to_owned(),
        class: "mock".to_owned(),
        summary: "Offline formant duplex for demos (no external services)".to_owned(),
        cli: "--provider mock".to_owned(),
    });
    v.push(ProviderOption {
        id: "openai-compatible".to_owned(),
        class: "cascade".to_owned(),
        summary: "ASR→LLM→TTS cascade (LocalAI / Piper / openedai-speech)".to_owned(),
        cli: "--provider openai-compatible --model-base-url http://127.0.0.1:8000/v1".to_owned(),
    });
    v.push(ProviderOption {
        id: "openai-realtime".to_owned(),
        class: "native_duplex".to_owned(),
        summary: "OpenAI Realtime WebSocket (or compatible self-host)".to_owned(),
        cli: "--provider openai-realtime --realtime-url wss://...".to_owned(),
    });
    v.push(ProviderOption {
        id: "moshi".to_owned(),
        class: "native_duplex".to_owned(),
        summary: "Kyutai Moshi–compatible full-duplex WebSocket worker".to_owned(),
        cli: "--provider moshi --moshi-url ws://127.0.0.1:8998/api/chat".to_owned(),
    });
    v.push(ProviderOption {
        id: "hybrid".to_owned(),
        class: "hybrid_streaming".to_owned(),
        summary: "Fast mock path + deep cascade handoff for complex turns".to_owned(),
        cli: "--provider hybrid --model-base-url http://127.0.0.1:8000/v1".to_owned(),
    });
    assert(v@.map_values(|o: ProviderOption| option_view(o)) =~= provider_options());
    v
}

} // verus!
