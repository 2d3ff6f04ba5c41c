//! Realtime speech providers: what each declares about itself, how its
//! configuration is checked, and the decisions of the cascade pipeline
//! (audio capture window, prompt merging, model and prompt choice, wire
//! durations, server-sent event lines).

use vstd::prelude::*;
use base64::Engine;
use crate::knowledge::{is_complex_turn, needs_deep_cognition, KnowledgeStore};
use crate::media::PcmAudioFrame;
use crate::protocol::{
    AudioCapabilities, ControlCapabilities, DuplexCapabilities, ErrorEvent, LicenseClass, Modality,
    ModalityCapabilities, OutputTextDelta, OutputTextFinal, ProviderClass, ProviderLifecycleState,
    ProviderLimits, ProviderManifest, ProviderState, RealtimeEvent,
};
use crate::text::{
    chars_of, copy_opt, extend_chars, extend_str, opt_chars, slice_chars, starts_with, string_of, trim, trim_chars, trim_end_chars, trim_end_set, eq_str,
};

verus! {

broadcast use vstd::seq_lib::group_seq_properties;

/// Version every adapter reports in its manifest.
pub const ADAPTER_VERSION: &'static str = "0.1.0";

/// Why a provider could not serve a session.
#[derive(Debug, Clone, PartialEq, Eq)]
pub enum ProviderError {
    Unavailable(String),
    Rejected(String),
    InvalidConfiguration(String),
}

/// The message shown for a provider error.
pub open spec fn provider_error_text(e: ProviderError) -> Seq<char> {
    match e {
        ProviderError::Unavailable(s) => "provider is unavailable: "@ + s@,
        ProviderError::Rejected(s) => "provider rejected the request: "@ + s@,
        ProviderError::InvalidConfiguration(s) => "provider configuration is invalid: "@ + s@,
    }
}

impl ProviderError {
    /// The human-readable message.
    pub fn message(&self) -> (m: String)
        ensures
            m@ == provider_error_text(*self),
    {
        let mut v: Vec<char> = Vec::new();
        match self {
            ProviderError::Unavailable(s) => {
                extend_str(&mut v, "provider is unavailable: ");
                extend_str(&mut v, s.as_str());
            },
            ProviderError::Rejected(s) => {
                extend_str(&mut v, "provider rejected the request: ");
                extend_str(&mut v, s.as_str());
            },
            ProviderError::InvalidConfiguration(s) => {
                extend_str(&mut v, "provider configuration is invalid: ");
                extend_str(&mut v, s.as_str());
            },
        }
        string_of(&v)
    }
}

/// What every adapter takes in and gives out.
pub open spec fn standard_modalities(m: ModalityCapabilities) -> bool {
    m.input@ == seq![Modality::Audio, Modality::Text] && m.output@ == seq![
        Modality::Audio,
        Modality::Text,
        Modality::State,
    ]
}

fn modalities() -> (m: ModalityCapabilities)
    ensures
        standard_modalities(m),
{
    let mut input: Vec<Modality> = Vec::new();
    input.push(Modality::Audio);
    input.push(Modality::Text);
    let mut output: Vec<Modality> = Vec::new();
    output.push(Modality::Audio);
    output.push(Modality::Text);
    output.push(Modality::State);
    assert(input@ =~= seq![Modality::Audio, Modality::Text]);
    assert(output@ =~= seq![Modality::Audio, Modality::Text, Modality::State]);
    ModalityCapabilities { input, output }
}

fn rates(items: &[u32]) -> (v: Vec<u32>)
    ensures
        v@ == items@,
{
    let mut v: Vec<u32> = Vec::new();
    let mut i: usize = 0;
    while i < items.len()
        invariant
            i <= items@.len(),
            v@ == items@.take(i as int),
        decreases items@.len() - i,
    {
        v.push(items[i]);
        i = i + 1;
        assert(v@ =~= items@.take(i as int));
    }
    assert(items@.take(i as int) =~= items@);
    v
}

/// What the offline conversational provider declares of itself.
pub open spec fn is_mock_manifest(m: ProviderManifest, output_sample_rate: u32, frame_ms: u16) -> bool {
    &&& m.id@ == "openlive/mock-duplex"@
    &&& m.adapter_version@ == ADAPTER_VERSION@
    &&& m.provider_class == ProviderClass::Mock
    &&& m.license_class == LicenseClass::Redistributable
    &&& standard_modalities(m.modalities)
    &&& m.duplex == (DuplexCapabilities {
        continuous_input_while_output: true,
        native_turn_policy: false,
        native_barge_in: true,
        state_tokens: true,
    })
    &&& m.audio.input_sample_rates@ == seq![16_000u32, 24_000, 48_000]
    &&& m.audio.output_sample_rates@ == seq![output_sample_rate]
    &&& m.audio.frame_ms == frame_ms
    &&& m.control == (ControlCapabilities {
        text_injection: true,
        context_update: false,
        voice_conditioning: false,
        cancel_generation: true,
        resume_generation: false,
    })
    &&& m.limits == (ProviderLimits { max_session_seconds: 3_600, required_gpu_memory_gb: None })
}

/// The manifest of the offline conversational provider.
fn mock_manifest(output_sample_rate: u32, frame_ms: u16) -> (m: ProviderManifest)
    ensures
        is_mock_manifest(m, output_sample_rate, frame_ms),
{
    let input: [u32; 3] = [16_000, 24_000, 48_000];
    let output: [u32; 1] = [output_sample_rate];
    let i = rates(&input);
    let o = rates(&output);
    assert(i@ =~= seq![16_000u32, 24_000, 48_000]);
    assert(o@ =~= seq![output_sample_rate]);
    ProviderManifest {
        id: "openlive/mock-duplex".to_owned(),
        adapter_version: ADAPTER_VERSION.to_owned(),
        provider_class: ProviderClass::Mock,
        license_class: LicenseClass::Redistributable,
        modalities: modalities(),
        duplex: DuplexCapabilities {
            continuous_input_while_output: true,
            native_turn_policy: false,
            native_barge_in: true,
            state_tokens: true,
        },
        audio: AudioCapabilities { input_sample_rates: i, output_sample_rates: o, frame_ms },
        control: ControlCapabilities {
            text_injection: true,
            context_update: false,
            voice_conditioning: false,
            cancel_generation: true,
            resume_generation: false,
        },
        limits: ProviderLimits { max_session_seconds: 3_600, required_gpu_memory_gb: None },
    }
}

/// What the hybrid provider declares: its audio is that of its fast path.
pub open spec fn is_hybrid_manifest(m: ProviderManifest, fast: ProviderManifest) -> bool {
    &&& m.id@ == "openlive/hybrid-streaming"@
    &&& m.adapter_version@ == ADAPTER_VERSION@
    &&& m.provider_class == ProviderClass::HybridStreaming
    &&& m.license_class == LicenseClass::Redistributable
    &&& standard_modalities(m.modalities)
    &&& m.duplex == (DuplexCapabilities {
        continuous_input_while_output: true,
        native_turn_policy: false,
        native_barge_in: true,
        state_tokens: true,
    })
    &&& m.audio.input_sample_rates@ == fast.audio.input_sample_rates@
    &&& m.audio.output_sample_rates@ == fast.audio.output_sample_rates@
    &&& m.audio.frame_ms == fast.audio.frame_ms
    &&& m.control == (ControlCapabilities {
        text_injection: true,
        context_update: true,
        voice_conditioning: false,
        cancel_generation: true,
        resume_generation: false,
    })
    &&& m.limits == (ProviderLimits { max_session_seconds: 7_200, required_gpu_memory_gb: None })
}

/// The manifest of the hybrid provider, whose audio is its fast path's.
fn hybrid_manifest(fast: &ProviderManifest) -> (m: ProviderManifest)
    ensures
        is_hybrid_manifest(m, *fast),
{
    ProviderManifest {
        id: "openlive/hybrid-streaming".to_owned(),
        adapter_version: ADAPTER_VERSION.to_owned(),
        provider_class: ProviderClass::HybridStreaming,
        license_class: LicenseClass::Redistributable,
        modalities: modalities(),
        duplex: DuplexCapabilities {
            continuous_input_while_output: true,
            native_turn_policy: false,
            native_barge_in: true,
            state_tokens: true,
        },
        audio: AudioCapabilities {
            input_sample_rates: rates(fast.audio.input_sample_rates.as_slice()),
            output_sample_rates: rates(fast.audio.output_sample_rates.as_slice()),
            frame_ms: fast.audio.frame_ms,
        },
        control: ControlCapabilities {
            text_injection: true,
            context_update: true,
            voice_conditioning: false,
            cancel_generation: true,
            resume_generation: false,
        },
        limits: ProviderLimits { max_session_seconds: 7_200, required_gpu_memory_gb: None },
    }
}

/// `prefix` followed by `rest`.
fn prefixed(prefix: &str, rest: &str) -> (s: String)
    ensures
        s@ == prefix@ + rest@,
{
    let mut v: Vec<char> = Vec::new();
    extend_str(&mut v, prefix);
    extend_str(&mut v, rest);
    string_of(&v)
}

/// The parse error `url::Url::parse` reports for `s`, if it fails.
pub uninterp spec fn url_parse_failure(s: Seq<char>) -> Option<Seq<char>>;

/// `Url::scheme` of the URL `url::Url::parse` makes of `s`.
pub uninterp spec fn url_scheme(s: Seq<char>) -> Seq<char>;

/// `Url::host_str` of the URL `url::Url::parse` makes of `s`.
pub uninterp spec fn url_host(s: Seq<char>) -> Option<Seq<char>>;

/// `Url::as_str` (the serialised URL) of what `url::Url::parse` makes of `s`.
pub uninterp spec fn url_serialization(s: Seq<char>) -> Seq<char>;

/// What a parsed URL holds as plain text: its scheme, its host (when it
/// has one) and its serialised form.
#[derive(Debug, Clone)]
pub struct UrlParts {
    pub scheme: String,
    pub host: Option<String>,
    pub text: String,
}

/// `url::Url::parse(s)`: the error's message when the text is not an
/// absolute URL; else the URL's `scheme()`, `host_str()` and `as_str()`.
/// Which texts parse, and how they are normalised, is the `url` crate's
/// (WHATWG URL) rules, named here and not restated.
#[verifier::external_body]
pub(crate) fn parse_url(s: &str) -> (r: Result<UrlParts, String>)
    ensures
        match r {
            Err(e) => url_parse_failure(s@) == Some(e@),
            Ok(p) => url_parse_failure(s@) is None && p.scheme@ == url_scheme(s@) && opt_chars(p.host)
                == url_host(s@) && p.text@ == url_serialization(s@),
        },
{
    match url::Url::parse(s) {
        Ok(u) => Ok(UrlParts {
            scheme: u.scheme().to_owned(),
            host: u.host_str().map(str::to_owned),
            text: u.as_str().to_owned(),
        }),
        Err(e) => Err(e.to_string()),
    }
}

/// Where a Moshi-compatible duplex server listens, and which voice to use.
#[derive(Debug, Clone)]
pub struct MoshiConfig {
    pub url: String,
    pub voice: String,
}

impl Default for MoshiConfig {
    fn default() -> (c: Self)
        ensures
            c.url@ == "ws://127.0.0.1:8998/api/chat"@,
            c.voice@ == "default"@,
    {
        MoshiConfig { url: "ws://127.0.0.1:8998/api/chat".to_owned(), voice: "default".to_owned() }
    }
}

/// A native duplex provider speaking to a Moshi-compatible server.
#[derive(Debug, Clone)]
pub struct MoshiProvider {
    pub config: MoshiConfig,
}

/// What a Moshi provider declares, naming its server URL.
pub open spec fn is_moshi_manifest(m: ProviderManifest, config: MoshiConfig) -> bool {
    &&& m.id@ == "moshi/"@ + config.url@
    &&& m.adapter_version@ == ADAPTER_VERSION@
    &&& m.provider_class == ProviderClass::NativeDuplex
    &&& m.license_class == LicenseClass::UserDownload
    &&& standard_modalities(m.modalities)
    &&& m.duplex == (DuplexCapabilities {
        continuous_input_while_output: true,
        native_turn_policy: true,
        native_barge_in: true,
        state_tokens: true,
    })
    &&& m.audio.input_sample_rates@ == seq![16_000u32, 24_000]
    &&& m.audio.output_sample_rates@ == seq![24_000u32]
    &&& m.audio.frame_ms == 20
    &&& m.control == (ControlCapabilities {
        text_injection: true,
        context_update: false,
        voice_conditioning: true,
        cancel_generation: true,
        resume_generation: false,
    })
    &&& m.limits == (ProviderLimits { max_session_seconds: 7_200, required_gpu_memory_gb: Some(8) })
}

impl MoshiProvider {
    /// A provider for a parseable WebSocket URL; otherwise the parse error.
    pub fn new(config: MoshiConfig) -> (r: Result<Self, ProviderError>)
        ensures
            match url_parse_failure(config.url@) {
                None => r matches Ok(p) && p.config == config,
                Some(e) => r matches Err(ProviderError::InvalidConfiguration(m)) && m@ == "invalid moshi url: "@ + e,
            },
    {
        match parse_url(config.url.as_str()) {
            Err(e) => Err(ProviderError::InvalidConfiguration(prefixed("invalid moshi url: ", e.as_str()))),
            Ok(_) => Ok(MoshiProvider { config }),
        }
    }

    /// A native duplex manifest naming the server URL.
    pub fn manifest(&self) -> (m: ProviderManifest)
        ensures
            is_moshi_manifest(m, self.config),
    {
        let input: [u32; 2] = [16_000, 24_000];
        let output: [u32; 1] = [24_000];
        let i = rates(&input);
        let o = rates(&output);
        assert(i@ =~= seq![16_000u32, 24_000]);
        assert(o@ =~= seq![24_000u32]);
        ProviderManifest {
            id: prefixed("moshi/", self.config.url.as_str()),
            adapter_version: ADAPTER_VERSION.to_owned(),
            provider_class: ProviderClass::NativeDuplex,
            license_class: LicenseClass::UserDownload,
            modalities: modalities(),
            duplex: DuplexCapabilities {
                continuous_input_while_output: true,
                native_turn_policy: true,
                native_barge_in: true,
                state_tokens: true,
            },
            audio: AudioCapabilities { input_sample_rates: i, output_sample_rates: o, frame_ms: 20 },
            control: ControlCapabilities {
                text_injection: true,
                context_update: false,
                voice_conditioning: true,
                cancel_generation: true,
                resume_generation: false,
            },
            limits: ProviderLimits { max_session_seconds: 7_200, required_gpu_memory_gb: Some(8) },
        }
    }
}

/// An OpenAI-compatible native realtime speech endpoint.
#[derive(Debug, Clone)]
pub struct OpenAiRealtimeConfig {
    pub url: String,
    pub api_key: Option<String>,
    pub model: String,
    pub voice: String,
    pub instructions: String,
}

impl Default for OpenAiRealtimeConfig {
    fn default() -> (c: Self)
        ensures
            c.url@ == "wss://api.openai.com/v1/realtime"@,
            c.api_key is None,
            c.model@ == "gpt-4o-realtime-preview"@,
            c.voice@ == "alloy"@,
            c.instructions@ == "Respond naturally and concisely in spoken conversation."@,
    {
        OpenAiRealtimeConfig {
            url: "wss://api.openai.com/v1/realtime".to_owned(),
            api_key: None,
            model: "gpt-4o-realtime-preview".to_owned(),
            voice: "alloy".to_owned(),
            instructions: "Respond naturally and concisely in spoken conversation.".to_owned(),
        }
    }
}

/// A native realtime speech provider over an OpenAI-compatible WebSocket.
#[derive(Debug, Clone)]
pub struct OpenAiRealtimeProvider {
    pub config: OpenAiRealtimeConfig,
}

/// What a hosted realtime provider declares, naming its model.
pub open spec fn is_realtime_manifest(m: ProviderManifest, config: OpenAiRealtimeConfig) -> bool {
    &&& m.id@ == "openai-realtime/"@ + config.model@
    &&& m.adapter_version@ == ADAPTER_VERSION@
    &&& m.provider_class == ProviderClass::NativeDuplex
    &&& m.license_class == LicenseClass::HostedOnly
    &&& standard_modalities(m.modalities)
    &&& m.duplex == (DuplexCapabilities {
        continuous_input_while_output: true,
        native_turn_policy: false,
        native_barge_in: true,
        state_tokens: true,
    })
    &&& m.audio.input_sample_rates@ == seq![24_000u32]
    &&& m.audio.output_sample_rates@ == seq![24_000u32]
    &&& m.audio.frame_ms == 20
    &&& m.control == (ControlCapabilities {
        text_injection: true,
        context_update: true,
        voice_conditioning: true,
        cancel_generation: true,
        resume_generation: false,
    })
    &&& m.limits == (ProviderLimits { max_session_seconds: 3_600, required_gpu_memory_gb: None })
}

impl OpenAiRealtimeProvider {
    /// A provider, unless the URL or the model is blank.
    pub fn new(config: OpenAiRealtimeConfig) -> (r: Result<Self, ProviderError>)
        ensures
            trim(config.url@).len() == 0 ==> (r matches Err(ProviderError::InvalidConfiguration(m))
                && m@ == "realtime URL cannot be empty"@),
            trim(config.url@).len() > 0 && trim(config.model@).len() == 0 ==> (r matches Err(
                ProviderError::InvalidConfiguration(m),
            ) && m@ == "realtime model cannot be empty"@),
            trim(config.url@).len() > 0 && trim(config.model@).len() > 0 ==> (r matches Ok(p)
                && p.config == config),
    {
        if trim_chars(&chars_of(config.url.as_str())).len() == 0 {
            return Err(ProviderError::InvalidConfiguration("realtime URL cannot be empty".to_owned()));
        }
        if trim_chars(&chars_of(config.model.as_str())).len() == 0 {
            return Err(ProviderError::InvalidConfiguration("realtime model cannot be empty".to_owned()));
        }
        Ok(OpenAiRealtimeProvider { config })
    }

    /// A hosted native duplex manifest naming the model.
    pub fn manifest(&self) -> (m: ProviderManifest)
        ensures
            is_realtime_manifest(m, self.config),
    {
        let one: [u32; 1] = [24_000];
        let i = rates(&one);
        let o = rates(&one);
        assert(i@ =~= seq![24_000u32]);
        assert(o@ =~= seq![24_000u32]);
        ProviderManifest {
            id: prefixed("openai-realtime/", self.config.model.as_str()),
            adapter_version: ADAPTER_VERSION.to_owned(),
            provider_class: ProviderClass::NativeDuplex,
            license_class: LicenseClass::HostedOnly,
            modalities: modalities(),
            duplex: DuplexCapabilities {
                continuous_input_while_output: true,
                native_turn_policy: false,
                native_barge_in: true,
                state_tokens: true,
            },
            audio: AudioCapabilities { input_sample_rates: i, output_sample_rates: o, frame_ms: 20 },
            control: ControlCapabilities {
                text_injection: true,
                context_update: true,
                voice_conditioning: true,
                cancel_generation: true,
                resume_generation: false,
            },
            limits: ProviderLimits { max_session_seconds: 3_600, required_gpu_memory_gb: None },
        }
    }
}

/// Realtime wire sample rate.
pub const REALTIME_SAMPLE_RATE: u32 = 24_000;

/// A frame duration in whole milliseconds, at least 1 (saturating at `u16::MAX`).
pub open spec fn duration_ms_of(duration_us: u64) -> u16 {
    let ms = duration_us / 1000;
    if ms < 1 {
        1
    } else if ms > u16::MAX {
        u16::MAX
    } else {
        ms as u16
    }
}

/// Milliseconds of a frame duration, clamped to `1..=u16::MAX`.
pub fn duration_ms(duration_us: u64) -> (ms: u16)
    ensures
        ms == duration_ms_of(duration_us),
{
    let ms = duration_us / 1_000;
    if ms < 1 {
        1
    } else if ms > 65_535 {
        65_535
    } else {
        ms as u16
    }
}

/// Microseconds of 24 kHz mono 16-bit PCM holding `byte_len` bytes.
pub open spec fn pcm_micros(byte_len: nat) -> int {
    (byte_len * 1_000_000 / 48_000) as int
}

/// Duration of 24 kHz mono 16-bit PCM, in microseconds.
pub fn pcm_duration_us(byte_len: usize) -> (us: u64)
    requires
        byte_len as int * 1_000_000 <= u64::MAX,
    ensures
        us == pcm_micros(byte_len as nat),
{
    (byte_len as u64) * 1_000_000 / 48_000
}

/// The bytes `base64::engine::general_purpose::STANDARD` decodes from `s`,
/// `None` when it rejects `s`.
pub uninterp spec fn base64_standard_decode(s: Seq<char>) -> Option<Seq<u8>>;

/// The bytes of an optional byte vector.
pub open spec fn opt_bytes(o: Option<Vec<u8>>) -> Option<Seq<u8>> {
    match o {
        Some(v) => Some(v@),
        None => None,
    }
}

/// `STANDARD.decode(s)` of the `base64` crate: the decoded bytes, or `None`
/// when the input is not canonical padded standard base64 (the crate's
/// rules, named and not restated).
#[verifier::external_body]
fn base64_decode(s: &str) -> (r: Option<Vec<u8>>)
    ensures
        opt_bytes(r) == base64_standard_decode(s@),
{
    base64::engine::general_purpose::STANDARD.decode(s).ok()
}

/// Duration of a base64 audio delta: its decoded PCM length at 24 kHz mono
/// 16-bit, or one default 20 ms frame when it does not decode.
pub open spec fn b64_audio_micros(audio_b64: Seq<char>) -> int {
    match base64_standard_decode(audio_b64) {
        Some(b) => pcm_micros(b.len()),
        None => 20_000,
    }
}

/// Microseconds of a base64 PCM delta; 20 ms when it is not base64.
pub fn pcm_duration_us_b64(audio_b64: &str) -> (us: u64)
    requires
        match base64_standard_decode(audio_b64@) {
            Some(b) => b.len() * 1_000_000 <= u64::MAX,
            None => true,
        },
    ensures
        us == b64_audio_micros(audio_b64@),
{
    match base64_decode(audio_b64) {
        Some(bytes) => pcm_duration_us(bytes.len()),
        None => 20_000,
    }
}

/// The duration of base64 audio, when it can be told without overflow:
/// `None` only when the decoded audio is too long to count in microseconds.
pub fn checked_pcm_duration_us_b64(audio_b64: &str) -> (r: Option<u64>)
    ensures
        match base64_standard_decode(audio_b64@) {
            Some(b) => if b.len() * 1_000_000 <= u64::MAX {
                r == Some(b64_audio_micros(audio_b64@) as u64)
            } else {
                r is None
            },
            None => r == Some(20_000u64),
        },
{
    match base64_decode(audio_b64) {
        Some(bytes) => {
            if (bytes.len() as u64) > 18_446_744_073_709u64 {
                None
            } else {
                Some(pcm_duration_us_b64(audio_b64))
            }
        },
        None => Some(pcm_duration_us_b64(audio_b64)),
    }
}

/// The instructions a response request carries: the prompt hint, unless blank.
pub fn response_instructions(prompt_hint: &str) -> (r: Option<String>)
    ensures
        opt_chars(r) == if trim(prompt_hint@).len() > 0 {
            Some(prompt_hint@)
        } else {
            None
        },
{
    if trim_chars(&chars_of(prompt_hint)).len() > 0 {
        Some(prompt_hint.to_owned())
    } else {
        None
    }
}

/// Input sample rate of the cascade's speech recognition.
pub const INPUT_SAMPLE_RATE: u32 = 16_000;

/// Most captured audio kept for one turn: 60 s of 16 kHz mono 16-bit PCM.
pub const MAX_CAPTURE_BYTES: usize = 1_920_000;

/// The latest `MAX_CAPTURE_BYTES` bytes.
pub open spec fn capped_capture(b: Seq<u8>) -> Seq<u8> {
    if b.len() > MAX_CAPTURE_BYTES {
        b.skip(b.len() - MAX_CAPTURE_BYTES)
    } else {
        b
    }
}

/// Adds a captured frame when it is 16 kHz mono; keeps the last 60 s.
pub fn append_audio(audio: &mut Vec<u8>, frame: &PcmAudioFrame)
    ensures
        frame.channels != 1 || frame.sample_rate != INPUT_SAMPLE_RATE ==> final(audio)@ == old(audio)@,
        frame.channels == 1 && frame.sample_rate == INPUT_SAMPLE_RATE ==> final(audio)@
            == capped_capture(old(audio)@ + frame.pcm@),
{
    if frame.channels != 1 || frame.sample_rate != INPUT_SAMPLE_RATE {
        return;
    }
    let ghost start = audio@;
    let mut i: usize = 0;
    while i < frame.pcm.len()
        invariant
            i <= frame.pcm@.len(),
            audio@ == start + frame.pcm@.take(i as int),
        decreases frame.pcm@.len() - i,
    {
        audio.push(frame.pcm[i]);
        i = i + 1;
        assert(audio@ =~= start + frame.pcm@.take(i as int));
    }
    assert(frame.pcm@.take(i as int) =~= frame.pcm@);
    if audio.len() > MAX_CAPTURE_BYTES {
        let overflow = audio.len() - MAX_CAPTURE_BYTES;
        let kept = audio.split_off(overflow);
        *audio = kept;
    }
}

/// Bytes of prior-turn audio prepended to the next recognition window
/// (400 ms of 16 kHz mono 16-bit PCM).
pub const OVERLAP_BYTES: usize = 12_800;

/// The recognition window of a turn (the previous turn's tail, then this
/// turn's audio) and the tail kept for the next turn.
pub fn asr_window(prior_overlap: &Vec<u8>, captured: &Vec<u8>) -> (r: (Vec<u8>, Vec<u8>))
    ensures
        r.0@ == prior_overlap@ + captured@,
        r.1@ == if captured@.len() > OVERLAP_BYTES {
            captured@.skip(captured@.len() - OVERLAP_BYTES)
        } else {
            captured@
        },
{
    let mut window: Vec<u8> = Vec::new();
    let mut i: usize = 0;
    while i < prior_overlap.len()
        invariant
            i <= prior_overlap@.len(),
            window@ == prior_overlap@.take(i as int),
        decreases prior_overlap@.len() - i,
    {
        window.push(prior_overlap[i]);
        i = i + 1;
        assert(window@ =~= prior_overlap@.take(i as int));
    }
    assert(prior_overlap@.take(i as int) =~= prior_overlap@);
    let mut j: usize = 0;
    while j < captured.len()
        invariant
            j <= captured@.len(),
            window@ == prior_overlap@ + captured@.take(j as int),
        decreases captured@.len() - j,
    {
        window.push(captured[j]);
        j = j + 1;
        assert(window@ =~= prior_overlap@ + captured@.take(j as int));
    }
    assert(captured@.take(j as int) =~= captured@);
    let from: usize = if captured.len() > OVERLAP_BYTES {
        captured.len() - OVERLAP_BYTES
    } else {
        0
    };
    let mut tail: Vec<u8> = Vec::new();
    let mut k: usize = from;
    while k < captured.len()
        invariant
            from <= k <= captured@.len(),
            tail@ == captured@.subrange(from as int, k as int),
        decreases captured@.len() - k,
    {
        tail.push(captured[k]);
        k = k + 1;
        assert(tail@ =~= captured@.subrange(from as int, k as int));
    }
    assert(captured@.subrange(from as int, captured@.len() as int) =~= if captured@.len() > OVERLAP_BYTES {
        captured@.skip(captured@.len() - OVERLAP_BYTES)
    } else {
        captured@
    });
    (window, tail)
}

/// The text sent to the model: the transcript, after the repair hint when
/// one is given.
pub open spec fn merged_prompt(prompt_hint: Seq<char>, transcript: Seq<char>) -> Seq<char> {
    if trim(prompt_hint).len() == 0 {
        trim(transcript)
    } else {
        trim(prompt_hint) + "\n\nUser turn transcript: "@ + trim(transcript)
    }
}

/// Merges the repair hint of an interrupted answer with the new transcript.
pub fn merge_prompt_hint(prompt_hint: &str, transcript: &str) -> (r: String)
    ensures
        r@ == merged_prompt(prompt_hint@, transcript@),
{
    let t = trim_chars(&chars_of(transcript));
    let h = trim_chars(&chars_of(prompt_hint));
    if h.len() == 0 {
        return string_of(&t);
    }
    let mut v = slice_chars(&h, 0, h.len());
    assert(v@ =~= h@);
    extend_str(&mut v, "\n\nUser turn transcript: ");
    extend_chars(&mut v, &t);
    string_of(&v)
}

/// The task kind announced for a turn.
pub open spec fn cognition_kind_of(deep: bool, has_deep_model: bool) -> Seq<char> {
    if deep && has_deep_model {
        "deep_cognition"@
    } else if deep {
        "cognition_complex"@
    } else {
        "cognition"@
    }
}

/// `deep_cognition` when a complex turn has a deep model, `cognition_complex`
/// when it has none, `cognition` otherwise.
pub fn cognition_kind(deep: bool, has_deep_model: bool) -> (k: &'static str)
    ensures
        k@ == cognition_kind_of(deep, has_deep_model),
{
    if deep && has_deep_model {
        "deep_cognition"
    } else if deep {
        "cognition_complex"
    } else {
        "cognition"
    }
}

/// A text message from a Moshi server: its `type`, and its `text`,
/// `delta` and `message` fields where they are strings.
#[derive(Debug, Clone)]
pub struct MoshiMessage {
    pub kind: String,
    pub text: Option<String>,
    pub delta: Option<String>,
    pub message: Option<String>,
}

/// The events a Moshi text message becomes: a text delta (from `text`, else
/// `delta`) for `text`/`transcript`/`assistant_text`; the final text then
/// completion for `text_final`/`final`; a recoverable `moshi_error` for
/// `error` (`moshi error` when it has no message); nothing otherwise.
pub open spec fn moshi_events_ok(m: MoshiMessage, r: Seq<RealtimeEvent>) -> bool {
    let k = m.kind@;
    if k == "text"@ || k == "transcript"@ || k == "assistant_text"@ {
        match (if m.text is Some { m.text } else { m.delta }) {
            Some(d) => r.len() == 1 && (r[0] matches RealtimeEvent::OutputTextDelta(x) && x.delta@ == d@),
            None => r.len() == 0,
        }
    } else if k == "text_final"@ || k == "final"@ {
        match m.text {
            Some(t) => r.len() == 2 && (r[0] matches RealtimeEvent::OutputTextFinal(x) && x.text@ == t@) && r[1]
                == RealtimeEvent::ProviderState(ProviderState { state: ProviderLifecycleState::Complete }),
            None => r.len() == 0,
        }
    } else if k == "error"@ {
        r.len() == 1 && (r[0] matches RealtimeEvent::Error(e) && e.code@ == "moshi_error"@ && e.recoverable
            && e.message@ == match m.message {
            Some(x) => x@,
            None => "moshi error"@,
        })
    } else {
        r.len() == 0
    }
}

/// The realtime events a Moshi text message carries.
pub fn moshi_events(m: &MoshiMessage) -> (r: Vec<RealtimeEvent>)
    ensures
        moshi_events_ok(*m, r@),
{
    let k = chars_of(m.kind.as_str());
    let mut r: Vec<RealtimeEvent> = Vec::new();
    if eq_str(&k, "text") || eq_str(&k, "transcript") || eq_str(&k, "assistant_text") {
        let d = match &m.text {
            Some(t) => Some(t),
            None => match &m.delta {
                Some(d) => Some(d),
                None => None,
            },
        };
        match d {
            Some(d) => {
                r.push(RealtimeEvent::OutputTextDelta(OutputTextDelta { delta: d.clone() }));
            },
            None => {},
        }
    } else if eq_str(&k, "text_final") || eq_str(&k, "final") {
        match &m.text {
            Some(t) => {
                r.push(RealtimeEvent::OutputTextFinal(OutputTextFinal { text: t.clone() }));
                r.push(RealtimeEvent::ProviderState(ProviderState { state: ProviderLifecycleState::Complete }));
            },
            None => {},
        }
    } else if eq_str(&k, "error") {
        let message = match &m.message {
            Some(x) => x.clone(),
            None => "moshi error".to_owned(),
        };
        r.push(RealtimeEvent::Error(ErrorEvent { code: "moshi_error".to_owned(), message, recoverable: true }));
    }
    r
}

/// Endpoints, models and voice of an OpenAI-compatible cascade.
#[derive(Debug, Clone)]
pub struct OpenAiCompatibleConfig {
    pub base_url: String,
    pub api_key: Option<String>,
    pub asr_model: String,
    pub llm_model: String,
    /// Optional slower / deeper model for complex turns; `llm_model` when unset.
    pub deep_llm_model: Option<String>,
    pub tts_model: String,
    pub voice: String,
    pub system_prompt: String,
    /// Optional directory of `.md`/`.txt` notes for pause-time retrieval.
    pub knowledge_dir: Option<String>,
}

impl Default for OpenAiCompatibleConfig {
    fn default() -> (c: Self)
        ensures
            c.base_url@ == "http://127.0.0.1:8000/v1"@,
            c.api_key is None,
            c.asr_model@ == "whisper-1"@,
            c.llm_model@ == "default"@,
            c.deep_llm_model is None,
            c.tts_model@ == "tts-1"@,
            c.voice@ == "alloy"@,
            c.system_prompt@ == "Respond naturally and concisely in spoken language."@,
            c.knowledge_dir is None,
    {
        OpenAiCompatibleConfig {
            base_url: "http://127.0.0.1:8000/v1".to_owned(),
            api_key: None,
            asr_model: "whisper-1".to_owned(),
            llm_model: "default".to_owned(),
            deep_llm_model: None,
            tts_model: "tts-1".to_owned(),
            voice: "alloy".to_owned(),
            system_prompt: "Respond naturally and concisely in spoken language.".to_owned(),
            knowledge_dir: None,
        }
    }
}

/// A configuration error for a blank base URL.
fn check_compatible_config(config: &OpenAiCompatibleConfig) -> (r: Result<(), ProviderError>)
    ensures
        r is Ok <==> trim(config.base_url@).len() > 0,
        r matches Err(e) ==> e matches ProviderError::InvalidConfiguration(m) && m@
            == "base_url cannot be empty"@,
{
    if trim_chars(&chars_of(config.base_url.as_str())).len() == 0 {
        Err(ProviderError::InvalidConfiguration("base_url cannot be empty".to_owned()))
    } else {
        Ok(())
    }
}

/// What the cascade declares, naming its chat model.
pub open spec fn is_compatible_manifest(m: ProviderManifest, config: OpenAiCompatibleConfig) -> bool {
    &&& m.id@ == "openai-compatible/"@ + config.llm_model@
    &&& m.adapter_version@ == ADAPTER_VERSION@
    &&& m.provider_class == ProviderClass::Cascade
    &&& m.license_class == LicenseClass::Unknown
    &&& standard_modalities(m.modalities)
    &&& m.duplex == (DuplexCapabilities {
        continuous_input_while_output: true,
        native_turn_policy: false,
        native_barge_in: false,
        state_tokens: true,
    })
    &&& m.audio.input_sample_rates@ == seq![INPUT_SAMPLE_RATE]
    &&& m.audio.output_sample_rates@ == seq![24_000u32]
    &&& m.audio.frame_ms == 20
    &&& m.control == (ControlCapabilities {
        text_injection: true,
        context_update: true,
        voice_conditioning: false,
        cancel_generation: true,
        resume_generation: false,
    })
    &&& m.limits == (ProviderLimits { max_session_seconds: 3_600, required_gpu_memory_gb: None })
}

/// The cascade's manifest, naming its chat model.
fn openai_compatible_manifest(config: &OpenAiCompatibleConfig) -> (m: ProviderManifest)
    ensures
        is_compatible_manifest(m, *config),
{
    let input: [u32; 1] = [INPUT_SAMPLE_RATE];
    let output: [u32; 1] = [24_000];
    let i = rates(&input);
    let o = rates(&output);
    assert(i@ =~= seq![INPUT_SAMPLE_RATE]);
    assert(o@ =~= seq![24_000u32]);
    ProviderManifest {
        id: prefixed("openai-compatible/", config.llm_model.as_str()),
        adapter_version: ADAPTER_VERSION.to_owned(),
        provider_class: ProviderClass::Cascade,
        license_class: LicenseClass::Unknown,
        modalities: modalities(),
        duplex: DuplexCapabilities {
            continuous_input_while_output: true,
            native_turn_policy: false,
            native_barge_in: false,
            state_tokens: true,
        },
        audio: AudioCapabilities { input_sample_rates: i, output_sample_rates: o, frame_ms: 20 },
        control: ControlCapabilities {
            text_injection: true,
            context_update: true,
            voice_conditioning: false,
            cancel_generation: true,
            resume_generation: false,
        },
        limits: ProviderLimits { max_session_seconds: 3_600, required_gpu_memory_gb: None },
    }
}

/// The voice the offline provider starts with.
pub const DEFAULT_MOCK_VOICE: &'static str = "en_US-lessac-medium";

/// The offline conversational provider: its audio format and the active
/// formant voice.
#[derive(Debug, Clone)]
pub struct MockDuplexProvider {
    pub output_sample_rate: u32,
    pub frame_duration_ms: u16,
    /// Active formant voice id (updated from session config / client).
    pub voice_id: String,
}

impl Default for MockDuplexProvider {
    fn default() -> (p: Self)
        ensures
            p.output_sample_rate == 24_000,
            p.frame_duration_ms == 20,
            p.voice_id@ == DEFAULT_MOCK_VOICE@,
    {
        MockDuplexProvider {
            output_sample_rate: 24_000,
            frame_duration_ms: 20,
            voice_id: DEFAULT_MOCK_VOICE.to_owned(),
        }
    }
}

impl MockDuplexProvider {
    /// What this provider declares of itself.
    pub fn manifest(&self) -> (m: ProviderManifest)
        ensures
            is_mock_manifest(m, self.output_sample_rate, self.frame_duration_ms),
    {
        mock_manifest(self.output_sample_rate, self.frame_duration_ms)
    }

    /// Switches the formant voice; the audio format is unchanged.
    pub fn set_voice(&mut self, voice_id: &str)
        ensures
            final(self).voice_id@ == voice_id@,
            final(self).output_sample_rate == old(self).output_sample_rate,
            final(self).frame_duration_ms == old(self).frame_duration_ms,
    {
        self.voice_id = voice_id.to_owned();
    }

    /// The active formant voice.
    pub fn voice(&self) -> (v: String)
        ensures
            v@ == self.voice_id@,
    {
        self.voice_id.clone()
    }
}

/// The OpenAI-compatible cascade: its configuration and the notes it
/// retrieves from at pauses.
#[derive(Debug, Clone)]
pub struct OpenAiCompatibleProvider {
    pub config: OpenAiCompatibleConfig,
    pub knowledge: KnowledgeStore,
}

impl OpenAiCompatibleProvider {
    /// A cascade over `config`; refused when its base URL is blank.
    pub fn new(config: OpenAiCompatibleConfig, knowledge: KnowledgeStore) -> (r: Result<Self, ProviderError>)
        ensures
            r is Ok <==> trim(config.base_url@).len() > 0,
            r matches Ok(p) ==> p.config == config && p.knowledge@ == knowledge@,
            r matches Err(e) ==> e matches ProviderError::InvalidConfiguration(m) && m@
                == "base_url cannot be empty"@,
    {
        match check_compatible_config(&config) {
            Ok(()) => Ok(OpenAiCompatibleProvider { config, knowledge }),
            Err(e) => Err(e),
        }
    }

    /// What the cascade declares, naming its chat model.
    pub fn manifest(&self) -> (m: ProviderManifest)
        ensures
            is_compatible_manifest(m, self.config),
    {
        openai_compatible_manifest(&self.config)
    }
}

/// The hybrid provider: the offline duplex path answers at once, an
/// optional cascade answers complex turns.
#[derive(Debug, Clone)]
pub struct HybridStreamingProvider {
    pub fast: MockDuplexProvider,
    pub deep: Option<OpenAiCompatibleProvider>,
}

impl HybridStreamingProvider {
    /// The fast path alone, with its default settings.
    pub fn mock_only() -> (p: Self)
        ensures
            p.fast.output_sample_rate == 24_000,
            p.fast.frame_duration_ms == 20,
            p.fast.voice_id@ == DEFAULT_MOCK_VOICE@,
            p.deep is None,
    {
        HybridStreamingProvider { fast: MockDuplexProvider::default(), deep: None }
    }

    /// The default fast path with `deep` for complex turns.
    pub fn with_deep(deep: OpenAiCompatibleProvider) -> (p: Self)
        ensures
            p.fast.output_sample_rate == 24_000,
            p.fast.frame_duration_ms == 20,
            p.fast.voice_id@ == DEFAULT_MOCK_VOICE@,
            p.deep == Some(deep),
    {
        HybridStreamingProvider { fast: MockDuplexProvider::default(), deep: Some(deep) }
    }

    /// What the hybrid declares: the fast path's audio, hybrid class.
    pub fn manifest(&self) -> (m: ProviderManifest)
        ensures
            exists|fast: ProviderManifest|
                is_mock_manifest(fast, self.fast.output_sample_rate, self.fast.frame_duration_ms)
                    && #[trigger] is_hybrid_manifest(m, fast),
    {
        let base = self.fast.manifest();
        hybrid_manifest(&base)
    }
}

/// One of the hybrid provider's two paths.
#[derive(Debug, Clone, Copy, PartialEq, Eq)]
pub enum HybridPath {
    /// The offline duplex path.
    Fast,
    /// The cascade for complex turns.
    Deep,
}

/// An input the hybrid provider receives from the session.
#[derive(Debug, Clone, PartialEq, Eq)]
pub enum HybridInput {
    AudioFrame,
    CommitResponse { prompt_hint: String },
    CancelGeneration,
    Close,
}

/// What the hybrid passes on to a path: the input itself, or a cancel of
/// the generation being committed.
#[derive(Debug, Clone, Copy, PartialEq, Eq)]
pub enum HybridForward {
    Input,
    Cancel,
}

/// Where each input goes. Audio, cancels and close reach both paths (the
/// deep one when present). A commit goes to the deep path when there is one
/// and the hint looks complex, the fast path being told to cancel; else to
/// the fast path, the deep one (when present) being told to cancel.
pub open spec fn hybrid_routes(has_deep: bool, input: HybridInput) -> Seq<(HybridPath, HybridForward)> {
    match input {
        HybridInput::CommitResponse { prompt_hint } => if has_deep && is_complex_turn(prompt_hint@) {
            seq![(HybridPath::Fast, HybridForward::Cancel), (HybridPath::Deep, HybridForward::Input)]
        } else if has_deep {
            seq![(HybridPath::Deep, HybridForward::Cancel), (HybridPath::Fast, HybridForward::Input)]
        } else {
            seq![(HybridPath::Fast, HybridForward::Input)]
        },
        _ => if has_deep {
            seq![(HybridPath::Fast, HybridForward::Input), (HybridPath::Deep, HybridForward::Input)]
        } else {
            seq![(HybridPath::Fast, HybridForward::Input)]
        },
    }
}

/// The sends the hybrid makes for one input, in order.
pub fn route_hybrid_input(has_deep: bool, input: &HybridInput) -> (r: Vec<(HybridPath, HybridForward)>)
    ensures
        r@ == hybrid_routes(has_deep, *input),
{
    let mut r: Vec<(HybridPath, HybridForward)> = Vec::new();
    match input {
        HybridInput::CommitResponse { prompt_hint } => {
            if has_deep && needs_deep_cognition(prompt_hint.as_str()) {
                r.push((HybridPath::Fast, HybridForward::Cancel));
                r.push((HybridPath::Deep, HybridForward::Input));
            } else if has_deep {
                r.push((HybridPath::Deep, HybridForward::Cancel));
                r.push((HybridPath::Fast, HybridForward::Input));
            } else {
                r.push((HybridPath::Fast, HybridForward::Input));
            }
        },
        _ => {
            r.push((HybridPath::Fast, HybridForward::Input));
            if has_deep {
                r.push((HybridPath::Deep, HybridForward::Input));
            }
        },
    }
    assert(r@ =~= hybrid_routes(has_deep, *input));
    r
}

/// Which realtime provider the gateway runs.
#[derive(Debug, Clone, Copy, PartialEq, Eq)]
pub enum ProviderKind {
    Mock,
    OpenaiCompatible,
    OpenaiRealtime,
    /// Kyutai Moshi–compatible native duplex WebSocket worker.
    Moshi,
    /// Fast mock duplex + deep cascade handoff for complex turns.
    Hybrid,
}

/// The command-line settings providers are built from.
#[derive(Debug, Clone)]
pub struct ProviderArgs {
    pub model_base_url: String,
    pub asr_model: String,
    pub llm_model: String,
    pub tts_model: String,
    /// Preferred voice id.
    pub voice: String,
    pub realtime_url: String,
    pub realtime_model: String,
    pub moshi_url: String,
    pub deep_llm_model: Option<String>,
    pub knowledge_dir: Option<String>,
}

/// The instruction the configured providers speak by.
pub const SPOKEN_PROMPT: &'static str = "Respond naturally and concisely for spoken conversation.";

/// A provider, built.
#[derive(Debug, Clone)]
pub enum BuiltProvider {
    Mock(MockDuplexProvider),
    OpenAiCompatible(OpenAiCompatibleProvider),
    OpenAiRealtime(OpenAiRealtimeProvider),
    Moshi(MoshiProvider),
    Hybrid(HybridStreamingProvider),
}

/// The cascade configuration the settings give, with the key found.
pub open spec fn is_cascade_config(c: OpenAiCompatibleConfig, a: ProviderArgs, api_key: Option<String>) -> bool {
    &&& c.base_url@ == a.model_base_url@
    &&& opt_chars(c.api_key) == opt_chars(api_key)
    &&& c.asr_model@ == a.asr_model@
    &&& c.llm_model@ == a.llm_model@
    &&& opt_chars(c.deep_llm_model) == opt_chars(a.deep_llm_model)
    &&& c.tts_model@ == a.tts_model@
    &&& c.voice@ == a.voice@
    &&& c.system_prompt@ == SPOKEN_PROMPT@
    &&& opt_chars(c.knowledge_dir) == opt_chars(a.knowledge_dir)
}

/// The offline provider with its defaults and the settings' voice.
pub open spec fn is_voiced_mock(p: MockDuplexProvider, a: ProviderArgs) -> bool {
    p.output_sample_rate == 24_000 && p.frame_duration_ms == 20 && p.voice_id@ == a.voice@
}

fn cascade_config(a: &ProviderArgs, api_key: Option<String>) -> (c: OpenAiCompatibleConfig)
    ensures
        is_cascade_config(c, *a, api_key),
{
    OpenAiCompatibleConfig {
        base_url: a.model_base_url.clone(),
        api_key: copy_opt(&api_key),
        asr_model: a.asr_model.clone(),
        llm_model: a.llm_model.clone(),
        deep_llm_model: copy_opt(&a.deep_llm_model),
        tts_model: a.tts_model.clone(),
        voice: a.voice.clone(),
        system_prompt: SPOKEN_PROMPT.to_owned(),
        knowledge_dir: copy_opt(&a.knowledge_dir),
    }
}

fn voiced_mock(a: &ProviderArgs) -> (p: MockDuplexProvider)
    ensures
        is_voiced_mock(p, *a),
{
    let mut mock = MockDuplexProvider::default();
    mock.set_voice(a.voice.as_str());
    mock
}

/// Builds the provider `kind` from the settings. The offline provider takes
/// the settings' voice; the cascade and hosted realtime providers take the
/// key found for them; the hybrid runs the offline provider alone when a
/// chat bridge is configured (`has_llm`), else pairs the default offline
/// path with the cascade when its configuration is valid.
pub fn build_provider(
    kind: ProviderKind,
    args: &ProviderArgs,
    has_llm: bool,
    api_key: Option<String>,
    knowledge: KnowledgeStore,
) -> (r: Result<BuiltProvider, ProviderError>)
    ensures
        kind == ProviderKind::Mock ==> (r matches Ok(BuiltProvider::Mock(p)) && is_voiced_mock(p, *args)),
        kind == ProviderKind::OpenaiCompatible ==> {
            &&& (r is Ok <==> trim(args.model_base_url@).len() > 0)
            &&& (r matches Ok(b) ==> (b matches BuiltProvider::OpenAiCompatible(p) && is_cascade_config(
                p.config,
                *args,
                api_key,
            ) && p.knowledge@ == knowledge@))
            &&& (r matches Err(e) ==> (e matches ProviderError::InvalidConfiguration(m) && m@
                == "base_url cannot be empty"@))
        },
        kind == ProviderKind::OpenaiRealtime ==> {
            &&& (trim(args.realtime_url@).len() == 0 ==> (r matches Err(ProviderError::InvalidConfiguration(m))
                && m@ == "realtime URL cannot be empty"@))
            &&& (trim(args.realtime_url@).len() > 0 && trim(args.realtime_model@).len() == 0 ==> (r matches Err(
                ProviderError::InvalidConfiguration(m),
            ) && m@ == "realtime model cannot be empty"@))
            &&& (trim(args.realtime_url@).len() > 0 && trim(args.realtime_model@).len() > 0 ==> (r matches Ok(
                BuiltProvider::OpenAiRealtime(p),
            ) && p.config.url@ == args.realtime_url@ && opt_chars(p.config.api_key) == opt_chars(api_key)
                && p.config.model@ == args.realtime_model@ && p.config.voice@ == args.voice@
                && p.config.instructions@ == SPOKEN_PROMPT@))
        },
        kind == ProviderKind::Moshi ==> match url_parse_failure(args.moshi_url@) {
            None => r matches Ok(BuiltProvider::Moshi(p)) && p.config.url@ == args.moshi_url@ && p.config.voice@
                == args.voice@,
            Some(e) => r matches Err(ProviderError::InvalidConfiguration(m)) && m@ == "invalid moshi url: "@ + e,
        },
        kind == ProviderKind::Hybrid && has_llm ==> (r matches Ok(BuiltProvider::Mock(p)) && is_voiced_mock(p, *args)),
        kind == ProviderKind::Hybrid && !has_llm ==> (r matches Ok(BuiltProvider::Hybrid(h)) && h.fast.output_sample_rate
            == 24_000 && h.fast.frame_duration_ms == 20 && h.fast.voice_id@ == DEFAULT_MOCK_VOICE@ && (if trim(
            args.model_base_url@,
        ).len() > 0 {
            h.deep matches Some(p) && is_cascade_config(p.config, *args, api_key) && p.knowledge@ == knowledge@
        } else {
            h.deep is None
        })),
{
    match kind {
        ProviderKind::Mock => Ok(BuiltProvider::Mock(voiced_mock(args))),
        ProviderKind::OpenaiCompatible => {
            match OpenAiCompatibleProvider::new(cascade_config(args, api_key), knowledge) {
                Ok(p) => Ok(BuiltProvider::OpenAiCompatible(p)),
                Err(e) => Err(e),
            }
        },
        ProviderKind::OpenaiRealtime => {
            let config = OpenAiRealtimeConfig {
                url: args.realtime_url.clone(),
                api_key: copy_opt(&api_key),
                model: args.realtime_model.clone(),
                voice: args.voice.clone(),
                instructions: SPOKEN_PROMPT.to_owned(),
            };
            match OpenAiRealtimeProvider::new(config) {
                Ok(p) => Ok(BuiltProvider::OpenAiRealtime(p)),
                Err(e) => Err(e),
            }
        },
        ProviderKind::Moshi => {
            let config = MoshiConfig { url: args.moshi_url.clone(), voice: args.voice.clone() };
            match MoshiProvider::new(config) {
                Ok(p) => Ok(BuiltProvider::Moshi(p)),
                Err(e) => Err(e),
            }
        },
        ProviderKind::Hybrid => {
            if has_llm {
                Ok(BuiltProvider::Mock(voiced_mock(args)))
            } else {
                match OpenAiCompatibleProvider::new(cascade_config(args, api_key), knowledge) {
                    Ok(deep) => Ok(BuiltProvider::Hybrid(HybridStreamingProvider::with_deep(deep))),
                    Err(_) => Ok(BuiltProvider::Hybrid(HybridStreamingProvider::mock_only())),
                }
            }
        },
    }
}

impl BuiltProvider {
    /// What the built provider declares of itself.
    pub fn manifest(&self) -> (m: ProviderManifest)
        ensures
            match self {
                BuiltProvider::Mock(p) => is_mock_manifest(m, p.output_sample_rate, p.frame_duration_ms),
                BuiltProvider::OpenAiCompatible(p) => is_compatible_manifest(m, p.config),
                BuiltProvider::OpenAiRealtime(p) => is_realtime_manifest(m, p.config),
                BuiltProvider::Moshi(p) => is_moshi_manifest(m, p.config),
                BuiltProvider::Hybrid(p) => exists|fast: ProviderManifest|
                    is_mock_manifest(fast, p.fast.output_sample_rate, p.fast.frame_duration_ms)
                        && #[trigger] is_hybrid_manifest(m, fast),
            },
    {
        match self {
            BuiltProvider::Mock(p) => p.manifest(),
            BuiltProvider::OpenAiCompatible(p) => p.manifest(),
            BuiltProvider::OpenAiRealtime(p) => p.manifest(),
            BuiltProvider::Moshi(p) => p.manifest(),
            BuiltProvider::Hybrid(p) => p.manifest(),
        }
    }
}

/// The model answering a turn: the deep model for complex turns when set.
pub open spec fn completion_model_of(config: OpenAiCompatibleConfig, deep: bool) -> Seq<char> {
    if deep {
        match config.deep_llm_model {
            Some(m) => m@,
            None => config.llm_model@,
        }
    } else {
        config.llm_model@
    }
}

/// The system prompt of a turn: the configured one, the knowledge block
/// after it when there is one, and the deep-path note on deep turns.
pub open spec fn completion_prompt_of(config: OpenAiCompatibleConfig, deep: bool, knowledge: Option<Seq<char>>) -> Seq<char> {
    let base = match knowledge {
        Some(k) => config.system_prompt@ + "\n\n"@ + k,
        None => config.system_prompt@,
    };
    if deep && config.deep_llm_model is Some {
        base + "\n\nYou are on the deep cognition path. Be thorough but still speakable."@
    } else {
        base
    }
}

/// Model and system prompt for one turn.
pub fn completion_plan(config: &OpenAiCompatibleConfig, deep: bool, knowledge: Option<&str>) -> (r: (String, String))
    ensures
        r.0@ == completion_model_of(*config, deep),
        r.1@ == completion_prompt_of(
            *config,
            deep,
            match knowledge {
                Some(k) => Some(k@),
                None => None,
            },
        ),
{
    let model = if deep {
        match &config.deep_llm_model {
            Some(m) => m.clone(),
            None => config.llm_model.clone(),
        }
    } else {
        config.llm_model.clone()
    };
    let mut prompt: Vec<char> = chars_of(config.system_prompt.as_str());
    match knowledge {
        Some(k) => {
            extend_str(&mut prompt, "\n\n");
            extend_str(&mut prompt, k);
        },
        None => {},
    }
    if deep && config.deep_llm_model.is_some() {
        extend_str(&mut prompt, "\n\nYou are on the deep cognition path. Be thorough but still speakable.");
    }
    (model, string_of(&prompt))
}

/// `{base without trailing slashes}/{path}`.
pub open spec fn endpoint_of(base: Seq<char>, path: Seq<char>) -> Seq<char> {
    trim_end_set(base, seq!['/']) + "/"@ + path
}

/// The URL of an API path under the configured base.
pub fn endpoint(base: &str, path: &str) -> (r: String)
    ensures
        r@ == endpoint_of(base@, path@),
{
    let slash: [char; 1] = ['/'];
    assert(slash@ =~= seq!['/']);
    let mut v = trim_end_chars(&chars_of(base), &slash);
    extend_str(&mut v, "/");
    extend_str(&mut v, path);
    string_of(&v)
}

/// What one server-sent event line carries.
#[derive(Debug, Clone, PartialEq, Eq)]
pub enum SseLine {
    /// Not a data line.
    Ignore,
    /// The stream's `[DONE]` marker.
    Done,
    /// The JSON payload of a data line.
    Payload(String),
}

/// A trimmed `data:` line's trimmed payload.
pub open spec fn sse_line_of(line: Seq<char>) -> SseLineView {
    let t = trim(line);
    if starts_with(t, "data:"@) {
        let data = trim(t.skip("data:"@.len() as int));
        if data == "[DONE]"@ {
            SseLineView::Done
        } else {
            SseLineView::Payload(data)
        }
    } else {
        SseLineView::Ignore
    }
}

/// An event line as plain text.
pub enum SseLineView {
    Ignore,
    Done,
    Payload(Seq<char>),
}

/// Reads one line of a server-sent event stream.
pub fn parse_sse_line(line: &str) -> (r: SseLine)
    ensures
        match (r, sse_line_of(line@)) {
            (SseLine::Ignore, SseLineView::Ignore) => true,
            (SseLine::Done, SseLineView::Done) => true,
            (SseLine::Payload(p), SseLineView::Payload(q)) => p@ == q,
            _ => false,
        },
{
    let t = trim_chars(&chars_of(line));
    let prefix = chars_of("data:");
    if !crate::text::starts_with_chars(&t, &prefix) {
        return SseLine::Ignore;
    }
    let data = trim_chars(&slice_chars(&t, prefix.len(), t.len()));
    if eq_str(&data, "[DONE]") {
        SseLine::Done
    } else {
        SseLine::Payload(string_of(&data))
    }
}

} // verus!
