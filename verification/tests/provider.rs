use base64::Engine;
use openlive::knowledge::KnowledgeStore;
use openlive::media::PcmAudioFrame;
use openlive::protocol::{ProviderClass, RealtimeEvent};
use openlive::provider::{
    append_audio, asr_window, cognition_kind, duration_ms, endpoint, merge_prompt_hint, parse_sse_line,
    moshi_events, pcm_duration_us, pcm_duration_us_b64, response_instructions, MoshiConfig, MoshiMessage,
    MoshiProvider, SseLine, MockDuplexProvider, HybridStreamingProvider, OpenAiCompatibleProvider,
    OpenAiCompatibleConfig, ProviderError, route_hybrid_input, HybridForward, HybridInput, HybridPath, build_provider, BuiltProvider, ProviderArgs, ProviderKind,
    INPUT_SAMPLE_RATE, MAX_CAPTURE_BYTES, OVERLAP_BYTES,
};

fn frame(pcm: Vec<u8>, sample_rate: u32) -> PcmAudioFrame {
    PcmAudioFrame {
        pcm,
        sample_rate,
        channels: 1,
        frame_duration_ms: 20,
        client_speech_probability: None,
        client_output_level: None,
        client_echo_probability: None,
    }
}

#[test]
fn rejects_empty_url_host_parse() {
    let err = MoshiProvider::new(MoshiConfig {
        url: "not a url".to_owned(),
        voice: "x".to_owned(),
    });
    assert!(err.is_err());
}

#[test]
fn manifest_is_native_duplex() {
    let provider = MoshiProvider::new(MoshiConfig::default()).expect("url");
    assert_eq!(provider.manifest().provider_class, ProviderClass::NativeDuplex);
    assert!(provider.manifest().duplex.native_barge_in);
}

#[test]
fn moshi_error_names_the_url_problem() {
    match MoshiProvider::new(MoshiConfig { url: "not a url".to_owned(), voice: "x".to_owned() }) {
        Err(e) => assert!(e.message().contains("invalid moshi url: ")),
        Ok(_) => panic!("must be rejected"),
    }
}

#[test]
fn capture_is_bounded() {
    let mut audio = vec![0_u8; MAX_CAPTURE_BYTES];
    append_audio(&mut audio, &frame(vec![1_u8; 640], INPUT_SAMPLE_RATE));
    assert_eq!(audio.len(), MAX_CAPTURE_BYTES);
    assert_eq!(audio[MAX_CAPTURE_BYTES - 1], 1);
}

#[test]
fn capture_ignores_foreign_formats() {
    let mut audio = vec![7_u8; 10];
    append_audio(&mut audio, &frame(vec![1_u8; 640], 24_000));
    assert_eq!(audio, vec![7_u8; 10]);
}

#[test]
fn repair_hint_is_merged_with_transcript() {
    let merged = merge_prompt_hint("The user interrupted the answer.", "Actually, stop.");
    assert!(merged.contains("interrupted"));
    assert!(merged.contains("User turn transcript: Actually, stop."));
}

#[test]
fn empty_hint_leaves_the_transcript_alone() {
    assert_eq!(merge_prompt_hint("   ", "  hello "), "hello");
}

#[test]
fn openai_realtime_wire_pcm_duration_uses_24khz_mono_s16() {
    assert_eq!(pcm_duration_us(960), 20_000);
}

#[test]
fn openai_realtime_pcm_duration_uses_24khz_mono_s16() {
    let audio = base64::engine::general_purpose::STANDARD.encode(vec![0_u8; 960]);
    assert_eq!(pcm_duration_us_b64(&audio), 20_000);
}

#[test]
fn undecodable_audio_counts_one_frame() {
    assert_eq!(pcm_duration_us_b64("%%%"), 20_000);
    let audio = base64::engine::general_purpose::STANDARD.encode(vec![0_u8; 4800]);
    assert_eq!(pcm_duration_us_b64(&audio), 100_000);
}

#[test]
fn empty_repair_instruction_is_omitted() {
    assert_eq!(response_instructions(""), None);
    assert_eq!(response_instructions("  "), None);
    assert_eq!(response_instructions("repair").as_deref(), Some("repair"));
}

#[test]
fn duration_ms_is_clamped() {
    assert_eq!(duration_ms(0), 1);
    assert_eq!(duration_ms(20_000), 20);
    assert_eq!(duration_ms(u64::MAX), 65_535);
}

#[test]
fn asr_window_keeps_overlap() {
    let prior = vec![9_u8; 4];
    let captured = vec![1_u8; OVERLAP_BYTES + 10];
    let (window, next) = asr_window(&prior, &captured);
    assert_eq!(window.len(), 4 + OVERLAP_BYTES + 10);
    assert_eq!(next.len(), OVERLAP_BYTES);
}

#[test]
fn cognition_kind_names_model() {
    assert_ne!(cognition_kind(true, true), cognition_kind(false, true));
    assert_eq!(cognition_kind(true, false), "cognition_complex");
    assert_eq!(cognition_kind(false, true), "cognition");
    assert_eq!(cognition_kind(true, true), "deep_cognition");
}

#[test]
fn endpoint_joins_base_and_path() {
    assert_eq!(endpoint("http://h/v1//", "chat/completions"), "http://h/v1/chat/completions");
}

#[test]
fn parses_streaming_delta_line() {
    assert_eq!(parse_sse_line("data: [DONE]"), SseLine::Done);
    assert_eq!(parse_sse_line(": comment"), SseLine::Ignore);
    assert_eq!(
        parse_sse_line("data: {\"x\":1}\n"),
        SseLine::Payload("{\"x\":1}".to_owned())
    );
}

fn moshi(kind: &str, text: Option<&str>, delta: Option<&str>, message: Option<&str>) -> MoshiMessage {
    MoshiMessage {
        kind: kind.to_owned(),
        text: text.map(str::to_owned),
        delta: delta.map(str::to_owned),
        message: message.map(str::to_owned),
    }
}

#[test]
fn moshi_messages_become_realtime_events() {
    match &moshi_events(&moshi("transcript", None, Some("he"), None))[..] {
        [RealtimeEvent::OutputTextDelta(d)] => assert_eq!(d.delta, "he"),
        other => panic!("unexpected {other:?}"),
    }
    let fin = moshi_events(&moshi("final", Some("hello"), None, None));
    assert_eq!(fin.len(), 2);
    assert!(matches!(&fin[0], RealtimeEvent::OutputTextFinal(f) if f.text == "hello"));
    match &moshi_events(&moshi("error", None, None, None))[..] {
        [RealtimeEvent::Error(e)] => {
            assert_eq!(e.code, "moshi_error");
            assert_eq!(e.message, "moshi error");
            assert!(e.recoverable);
        },
        other => panic!("unexpected {other:?}"),
    }
    assert!(moshi_events(&moshi("final", None, Some("x"), None)).is_empty());
    assert!(moshi_events(&moshi("pong", Some("x"), None, None)).is_empty());
}

#[test]
fn manifest_declares_mock_without_gpu_requirement() {
    let manifest = MockDuplexProvider::default().manifest();
    assert_eq!(manifest.provider_class, ProviderClass::Mock);
    assert_eq!(manifest.limits.required_gpu_memory_gb, None);
    assert!(manifest.duplex.continuous_input_while_output);
}

#[test]
fn hybrid_manifest_is_hybrid_class() {
    let provider = HybridStreamingProvider::mock_only();
    assert_eq!(provider.manifest().provider_class, ProviderClass::HybridStreaming);
}

#[test]
fn hybrid_audio_follows_fast_path() {
    let mut provider = HybridStreamingProvider::mock_only();
    provider.fast.output_sample_rate = 16_000;
    let m = provider.manifest();
    assert_eq!(m.audio.output_sample_rates, vec![16_000]);
    assert_eq!(m.audio.input_sample_rates, vec![16_000, 24_000, 48_000]);
    assert_eq!(m.audio.frame_ms, 20);
    assert_eq!(m.limits.max_session_seconds, 7_200);
    assert!(m.control.context_update);
    assert_eq!(m.id, "openlive/hybrid-streaming");
}

#[test]
fn mock_voice_can_be_switched() {
    let mut provider = MockDuplexProvider::default();
    assert_eq!(provider.voice(), "en_US-lessac-medium");
    provider.set_voice("ember");
    assert_eq!(provider.voice(), "ember");
    assert_eq!(provider.manifest().audio.output_sample_rates, vec![24_000]);
}

#[test]
fn compatible_provider_needs_a_base_url() {
    let mut config = OpenAiCompatibleConfig::default();
    config.base_url = "   ".to_owned();
    let err = OpenAiCompatibleProvider::new(config, KnowledgeStore::empty()).expect_err("blank");
    assert_eq!(err, ProviderError::InvalidConfiguration("base_url cannot be empty".to_owned()));
    let provider =
        OpenAiCompatibleProvider::new(OpenAiCompatibleConfig::default(), KnowledgeStore::empty()).expect("ok");
    let m = provider.manifest();
    assert_eq!(m.id, "openai-compatible/default");
    assert_eq!(m.provider_class, ProviderClass::Cascade);
    let hybrid = HybridStreamingProvider::with_deep(provider);
    assert!(hybrid.deep.is_some());
}

fn provider_args() -> ProviderArgs {
    ProviderArgs {
        model_base_url: "http://127.0.0.1:8000/v1".to_owned(),
        asr_model: "whisper-1".to_owned(),
        llm_model: "llama3.2".to_owned(),
        tts_model: "tts-1".to_owned(),
        voice: "ember".to_owned(),
        realtime_url: "wss://api.openai.com/v1/realtime".to_owned(),
        realtime_model: "gpt-4o-realtime-preview".to_owned(),
        moshi_url: "ws://127.0.0.1:8998/api/chat".to_owned(),
        deep_llm_model: Some("qwen2.5-32b".to_owned()),
        knowledge_dir: None,
    }
}

#[test]
fn builds_each_provider_kind() {
    let args = provider_args();
    let key = Some("sk".to_owned());
    match build_provider(ProviderKind::Mock, &args, false, None, KnowledgeStore::empty()) {
        Ok(BuiltProvider::Mock(p)) => assert_eq!(p.voice(), "ember"),
        other => panic!("unexpected {other:?}"),
    }
    match build_provider(ProviderKind::OpenaiCompatible, &args, false, key.clone(), KnowledgeStore::empty()) {
        Ok(BuiltProvider::OpenAiCompatible(p)) => {
            assert_eq!(p.config.llm_model, "llama3.2");
            assert_eq!(p.config.api_key, key);
            assert_eq!(p.config.deep_llm_model.as_deref(), Some("qwen2.5-32b"));
            assert_eq!(p.config.system_prompt, "Respond naturally and concisely for spoken conversation.");
        },
        other => panic!("unexpected {other:?}"),
    }
    let built = build_provider(ProviderKind::OpenaiRealtime, &args, false, key.clone(), KnowledgeStore::empty())
        .expect("realtime");
    assert_eq!(built.manifest().id, "openai-realtime/gpt-4o-realtime-preview");
    let built = build_provider(ProviderKind::Moshi, &args, false, None, KnowledgeStore::empty()).expect("moshi");
    assert_eq!(built.manifest().id, "moshi/ws://127.0.0.1:8998/api/chat");
    match build_provider(ProviderKind::Hybrid, &args, false, None, KnowledgeStore::empty()) {
        Ok(BuiltProvider::Hybrid(h)) => {
            assert!(h.deep.is_some());
            assert_eq!(h.fast.voice(), "en_US-lessac-medium");
        },
        other => panic!("unexpected {other:?}"),
    }
    match build_provider(ProviderKind::Hybrid, &args, true, None, KnowledgeStore::empty()) {
        Ok(BuiltProvider::Mock(p)) => assert_eq!(p.voice(), "ember"),
        other => panic!("unexpected {other:?}"),
    }
}

#[test]
fn provider_settings_are_checked() {
    let mut args = provider_args();
    args.model_base_url = " ".to_owned();
    let err = build_provider(ProviderKind::OpenaiCompatible, &args, false, None, KnowledgeStore::empty())
        .expect_err("blank base url");
    assert_eq!(err, ProviderError::InvalidConfiguration("base_url cannot be empty".to_owned()));
    match build_provider(ProviderKind::Hybrid, &args, false, None, KnowledgeStore::empty()) {
        Ok(BuiltProvider::Hybrid(h)) => assert!(h.deep.is_none()),
        other => panic!("unexpected {other:?}"),
    }
    args.realtime_model = String::new();
    let err = build_provider(ProviderKind::OpenaiRealtime, &args, false, None, KnowledgeStore::empty())
        .expect_err("blank model");
    assert_eq!(err, ProviderError::InvalidConfiguration("realtime model cannot be empty".to_owned()));
    args.moshi_url = "not a url".to_owned();
    let err = build_provider(ProviderKind::Moshi, &args, false, None, KnowledgeStore::empty()).expect_err("bad url");
    assert!(matches!(err, ProviderError::InvalidConfiguration(m) if m.starts_with("invalid moshi url: ")));
}

#[test]
fn hybrid_routes_complex_commits_to_the_deep_path() {
    let complex = HybridInput::CommitResponse { prompt_hint: "Please think carefully about this".to_owned() };
    let simple = HybridInput::CommitResponse { prompt_hint: "hi".to_owned() };
    assert_eq!(
        route_hybrid_input(true, &complex),
        vec![(HybridPath::Fast, HybridForward::Cancel), (HybridPath::Deep, HybridForward::Input)]
    );
    assert_eq!(
        route_hybrid_input(true, &simple),
        vec![(HybridPath::Deep, HybridForward::Cancel), (HybridPath::Fast, HybridForward::Input)]
    );
    assert_eq!(route_hybrid_input(false, &complex), vec![(HybridPath::Fast, HybridForward::Input)]);
    assert_eq!(
        route_hybrid_input(true, &HybridInput::Close),
        vec![(HybridPath::Fast, HybridForward::Input), (HybridPath::Deep, HybridForward::Input)]
    );
    assert_eq!(route_hybrid_input(false, &HybridInput::AudioFrame), vec![(HybridPath::Fast, HybridForward::Input)]);
}
