use openlive::catalog::{find_provider, llm_provider_catalog, provider_catalog};
use openlive::llm::{
    apply_llm_update, LlmUpdate, chat_url, extract_content, models_url, plan_chat, plan_voice_chat, push_history, strip_fillers_for_llm,
    strip_internal_thinking, truncate, ChatReply, ChatTurn, ContentPart, LlmError, LlmSettings, MessageContent,
    VoicePlan, MAX_HISTORY_MESSAGES, LlmBridge,
};

fn reply(content: MessageContent) -> ChatReply {
    ChatReply { content, fallbacks: vec![None; 7], message_text: None, refusal: None }
}

#[test]
fn chat_and_model_urls_complete_the_path() {
    assert_eq!(chat_url("https://h/v1/"), "https://h/v1/chat/completions");
    assert_eq!(chat_url("https://h"), "https://h/v1/chat/completions");
    assert_eq!(chat_url("https://h/v1/chat/completions"), "https://h/v1/chat/completions");
    assert_eq!(models_url("https://h/v1"), "https://h/v1/models");
    assert_eq!(models_url("https://h//"), "https://h/v1/models");
}

#[test]
fn truncate_cuts_on_bytes_with_ellipsis() {
    assert_eq!(truncate("short", 10), "short");
    assert_eq!(truncate("line one\nline two", 8), "line one…");
}

#[test]
fn fillers_are_stripped() {
    assert_eq!(strip_fillers_for_llm("Um uh what's the weather"), "what's the weather");
    assert_eq!(strip_fillers_for_llm("You know, I mean hi"), "you know, hi");
    assert_eq!(strip_fillers_for_llm("uh huh  kind of   Erm   ERROR here"), "error here");
    assert_eq!(strip_fillers_for_llm("hmm mm"), "");
}

#[test]
fn thinking_blocks_are_dropped() {
    assert_eq!(strip_internal_thinking("<think>plan</think> Hello."), "Hello.");
    assert_eq!(strip_internal_thinking("Draft\nFinal answer: 42"), "42");
    assert_eq!(strip_internal_thinking("plain"), "plain");
}

#[test]
fn content_comes_from_text_parts_or_fallbacks() {
    assert_eq!(extract_content(&reply(MessageContent::Text("Hi".to_owned()))).as_deref(), Some("Hi"));
    let parts = vec![
        ContentPart { part_type: "reasoning".to_owned(), text: Some("secret".to_owned()), as_text: None },
        ContentPart { part_type: "text".to_owned(), text: Some("Visible".to_owned()), as_text: None },
    ];
    assert_eq!(extract_content(&reply(MessageContent::Parts(parts))).as_deref(), Some("Visible"));
    let mut r = reply(MessageContent::Missing);
    r.fallbacks[2] = Some("from output_text".to_owned());
    assert_eq!(extract_content(&r).as_deref(), Some("from output_text"));
    let mut refused = reply(MessageContent::Missing);
    refused.refusal = Some("  no  ".to_owned());
    assert_eq!(extract_content(&refused).as_deref(), Some("no"));
    assert!(extract_content(&reply(MessageContent::Missing)).is_none());
}

#[test]
fn history_keeps_the_latest_messages() {
    let mut h: Vec<ChatTurn> = Vec::new();
    for i in 0..20 {
        push_history(&mut h, "user", &format!("m{i}"));
    }
    assert_eq!(h.len(), MAX_HISTORY_MESSAGES);
    assert_eq!(h[0].content, "m8");
    assert_eq!(h[MAX_HISTORY_MESSAGES - 1].content, "m19");
}

#[test]
fn chat_needs_a_key_or_local_endpoint() {
    let s = LlmSettings::default();
    match plan_chat(&s, &vec![], "hi") {
        Err(LlmError::Config(m)) => assert_eq!(m, "LLM not configured — set provider, model, and API key in Settings"),
        _ => panic!("expected a configuration error"),
    }
    let mut local = LlmSettings::from_provider_id("ollama");
    assert!(local.can_chat());
    local.model = "  ".to_owned();
    assert!(!local.configured());
    let mut keyed = LlmSettings::default();
    keyed.api_key = Some("k".to_owned());
    let m = plan_chat(&keyed, &vec![ChatTurn { role: "assistant".to_owned(), content: "a".to_owned() }], "q").expect("ok");
    assert_eq!(m.len(), 3);
    assert_eq!(m[0].role, "system");
    assert_eq!(m[2], ChatTurn { role: "user".to_owned(), content: "q".to_owned() });
}

#[test]
fn voice_chat_acknowledges_pure_fillers() {
    let mut s = LlmSettings::default();
    s.api_key = Some("k".to_owned());
    match plan_voice_chat(&s, &vec![], "um uh") {
        Ok(VoicePlan::Acknowledge(a)) => assert_eq!(a, "Mm-hmm."),
        _ => panic!("expected an acknowledgement"),
    }
    match plan_voice_chat(&s, &vec![], "um what time is it") {
        Ok(VoicePlan::Ask { cleaned, messages }) => {
            assert_eq!(cleaned, "what time is it");
            assert_eq!(messages.last().map(|m| m.content.clone()), Some("what time is it".to_owned()));
        },
        _ => panic!("expected a question"),
    }
}

#[test]
fn error_status_codes() {
    assert_eq!(LlmError::rejected(429, "slow down".to_owned()).status_code(), 429);
    assert_eq!(LlmError::Http { status: None, message: "x".to_owned() }.status_code(), 0);
    assert_eq!(LlmError::Config("x".to_owned()).status_code(), 0);
}

#[test]
fn catalog_lookup_ignores_case() {
    let all = llm_provider_catalog();
    assert_eq!(all.len(), 12);
    assert_eq!(all[0].id, "nvidia");
    let p = find_provider("OLLAMA").expect("ollama");
    assert_eq!(p.id, "ollama");
    assert!(find_provider("nope").is_none());
    let s = LlmSettings::from_provider_id("groq");
    assert_eq!(s.provider_id, "groq");
    let unknown = LlmSettings::from_provider_id("mine");
    assert_eq!(unknown.provider_id, "mine");
    assert_eq!(unknown.model, "meta/llama-3.1-8b-instruct");
}

#[test]
fn settings_updates_follow_the_submitted_fields() {
    let mut s = LlmSettings::default();
    s.api_key = Some("secret".to_owned());
    let u = LlmUpdate { provider_id: Some("groq".to_owned()), model: Some("".to_owned()), ..LlmUpdate::default() };
    let r = apply_llm_update(s.clone(), u);
    assert_eq!(r.provider_id, "groq");
    assert_eq!(r.api_key.as_deref(), Some("secret"));
    let groq = find_provider("groq").expect("groq");
    assert_eq!(r.model, groq.default_model);
    let u = LlmUpdate {
        base_url: Some("http://127.0.0.1:1234/v1".to_owned()),
        api_key: Some(String::new()),
        system_prompt: Some("Be brief.".to_owned()),
        ..LlmUpdate::default()
    };
    let r2 = apply_llm_update(r, u);
    assert_eq!(r2.base_url, "http://127.0.0.1:1234/v1");
    assert!(r2.api_key.is_none());
    assert_eq!(r2.system_prompt, "Be brief.");
    assert_eq!(r2.provider_id, "groq");
    let same = apply_llm_update(s.clone(), LlmUpdate { provider_id: Some("nvidia".to_owned()), ..LlmUpdate::default() });
    assert_eq!(same.api_key.as_deref(), Some("secret"));
    assert_eq!(same.model, s.model);
}

#[test]
fn realtime_provider_catalog_lists_five_kinds() {
    let c = provider_catalog();
    let ids: Vec<&str> = c.iter().map(|p| p.id.as_str()).collect();
    assert_eq!(ids, vec!["mock", "openai-compatible", "openai-realtime", "moshi", "hybrid"]);
    assert_eq!(c[3].class, "native_duplex");
    assert_eq!(c[0].cli, "--provider mock");
    assert_eq!(c[1].summary, "ASR→LLM→TTS cascade (LocalAI / Piper / openedai-speech)");
}

#[test]
fn bridge_keeps_settings_and_dialogue_apart() {
    let mut bridge = LlmBridge::new();
    assert_eq!(bridge.settings().provider_id, "nvidia");
    assert!(bridge.history.is_empty());
    bridge.record_exchange("hi", "hello");
    assert_eq!(bridge.history.len(), 2);
    assert_eq!(bridge.history[1].role, "assistant");
    let mut next = bridge.settings();
    next.model = "other".to_owned();
    bridge.update_settings(next);
    assert_eq!(bridge.settings().model, "other");
    assert_eq!(bridge.history.len(), 2);
    assert!(bridge.plan_chat("x").is_err());
    bridge.clear_history();
    assert!(bridge.history.is_empty());
    assert_eq!(bridge.settings().model, "other");
}

#[test]
fn chat_errors_read_as_messages() {
    assert_eq!(LlmError::rejected(429, "slow down".to_owned()).message(), "llm rejected (429): slow down");
    assert_eq!(LlmError::Config("no key".to_owned()).message(), "llm config: no key");
    assert_eq!(
        LlmError::Http { status: None, message: "timeout".to_owned() }.message(),
        "llm http: timeout"
    );
}
