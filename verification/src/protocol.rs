//! Realtime protocol vocabulary shared by gateway, providers and clients.
//!
//! Identifiers that travel as UUIDs are held as their 128-bit value, and
//! single-precision scores as their IEEE-754 bit pattern (`f32::to_bits`).

use vstd::prelude::*;

verus! {

/// Envelope protocol version.
pub const PROTOCOL_VERSION: &'static str = "1.0";

/// Additive feature revision negotiated inside v1-compatible envelopes.
pub const PROTOCOL_REVISION: u16 = 4;

#[derive(Debug, Clone, PartialEq, Eq)]
pub struct UserTranscriptDelta {
    pub text: String,
    pub is_final: bool,
}

#[derive(Debug, Clone, PartialEq, Eq)]
pub struct SessionCreated {
    pub model: String,
    pub provider_class: ProviderClass,
    pub input_sample_rate: u32,
    pub output_sample_rate: u32,
    pub media_transport: MediaTransport,
}

#[derive(Debug, Clone, Copy, PartialEq, Eq, Structural)]
pub enum MediaTransport {
    WebsocketBinaryPcm,
}

#[derive(Debug, Clone, PartialEq, Eq)]
pub struct SessionConfigured {
    pub interaction_profile: InteractionProfile,
}

/// Client-side capability offer sent after session creation.
#[derive(Debug, Clone, PartialEq, Eq)]
pub struct CapabilityOffer {
    pub protocol_revision: u16,
    pub client_id: String,
    pub requested_modalities: ModalityCapabilities,
    pub visual_input_policy: Option<VisualInputPolicy>,
    pub supports_resume: bool,
    pub supported_languages: Vec<String>,
}

/// Gateway response to a capability offer.
#[derive(Debug, Clone, PartialEq, Eq)]
pub struct CapabilitySelected {
    pub protocol_revision: u16,
    pub provider_manifest: ProviderManifest,
    pub selected_input: Vec<Modality>,
    pub selected_output: Vec<Modality>,
    pub visual_mode: VisualInputMode,
    pub resume_supported: bool,
    pub warnings: Vec<String>,
}

#[derive(Debug, Clone, Copy, PartialEq, Eq, Structural)]
pub enum VisualInputMode {
    Unsupported,
    ExplicitSnapshot,
    ContinuousFrames,
}

#[derive(Debug, Clone, Copy, PartialEq, Eq, Structural)]
pub struct VisualInputPolicy {
    pub mode: VisualInputMode,
    pub max_width: u32,
    pub max_height: u32,
    pub max_bytes: u32,
    pub durable_retention: bool,
}

#[derive(Debug, Clone, Copy, PartialEq, Eq, Structural)]
pub enum VisualInputSource {
    Camera,
    Screen,
    Upload,
}

#[derive(Debug, Clone, Copy, PartialEq, Eq, Structural)]
pub enum RetentionClass {
    Ephemeral,
    Session,
    Durable,
}

/// A user-approved bounded image.
#[derive(Debug, Clone, PartialEq, Eq)]
pub struct VisualInput {
    pub capture_id: u128,
    pub source: VisualInputSource,
    pub mime_type: String,
    pub width: u32,
    pub height: u32,
    pub byte_length: u32,
    pub captured_at: String,
    pub retention: RetentionClass,
    pub consent: String,
    pub data_url: String,
}

#[derive(Debug, Clone, PartialEq, Eq)]
pub struct VisualInputAccepted {
    pub capture_id: u128,
    pub provider_observation_id: Option<String>,
}

#[derive(Debug, Clone, PartialEq, Eq)]
pub struct VisualInputRejected {
    pub capture_id: u128,
    pub code: String,
    pub message: String,
    pub retryable: bool,
}

/// Acoustic observation; every score is an `f32` bit pattern.
#[derive(Debug, Clone, Copy, PartialEq, Eq, Structural)]
pub struct Observation {
    pub speech_probability: u32,
    pub echo_probability: u32,
    pub target_speaker_probability: u32,
    pub turn_completion_confidence: u32,
    pub prosodic_finality: u32,
    pub semantic_completion: Option<u32>,
}

/// Endpointing estimate; the two scores are `f32` bit patterns.
#[derive(Debug, Clone, PartialEq, Eq)]
pub struct EndpointingPrediction {
    pub speech_duration_ms: u32,
    pub silence_duration_ms: u32,
    pub turn_completion_confidence: u32,
    pub prosodic_finality: u32,
    pub should_respond: bool,
    pub reason: String,
}

/// Interaction decision; `confidence` is an `f32` bit pattern.
#[derive(Debug, Clone, PartialEq, Eq)]
pub struct InteractionDecision {
    pub action: InteractionAction,
    pub confidence: u32,
    pub reversible: bool,
    pub reason: String,
    pub evidence_event_ids: Vec<u128>,
}

#[derive(Debug, Clone, PartialEq, Eq)]
pub struct OutputTextDelta {
    pub delta: String,
}

#[derive(Debug, Clone, PartialEq, Eq)]
pub struct OutputTextFinal {
    pub text: String,
}

#[derive(Debug, Clone, PartialEq, Eq)]
pub struct OutputAudioCancel {
    pub requested_cutoff_us: u64,
    pub reason: String,
    pub fade_ms: u16,
}

#[derive(Debug, Clone, Copy, PartialEq, Eq, Structural)]
pub struct OutputAudioPlayed {
    pub last_media_time_us: u64,
}

#[derive(Debug, Clone, Copy, PartialEq, Eq, Structural)]
pub struct ProviderState {
    pub state: ProviderLifecycleState,
}

#[derive(Debug, Clone, Copy, PartialEq, Eq, Structural)]
pub enum ProviderLifecycleState {
    Transcribing,
    Reasoning,
    Synthesizing,
    Generating,
    NativeSpeechStarted,
    Complete,
}

#[derive(Debug, Clone, PartialEq, Eq)]
pub struct TaskCreated {
    pub task_id: u128,
    pub kind: String,
    pub conversation_version: u64,
}

/// Lifecycle states a task may occupy between request and outcome.
#[derive(Debug, Clone, Copy, PartialEq, Eq, Structural)]
pub enum TaskStatus {
    Queued,
    InProgress,
    Blocked,
}

/// Final disposition of a task.
#[derive(Debug, Clone, Copy, PartialEq, Eq, Structural)]
pub enum TaskResultKind {
    Success,
    Failure,
    Cancelled,
}

/// Categories of evidence that may back a task outcome.
#[derive(Debug, Clone, Copy, PartialEq, Eq, Structural, Hash)]
pub enum EvidenceKind {
    Transcript,
    ToolCall,
    Visual,
    Timing,
}

/// Explicit intent issued by the client after capability negotiation.
#[derive(Debug, Clone, PartialEq, Eq)]
pub struct TaskRequested {
    pub task_id: u128,
    pub intent: String,
    pub context: Option<String>,
    pub deadline_ms: Option<u64>,
    pub evidence_required: Vec<EvidenceKind>,
    pub generation_id: Option<u128>,
}

/// Client-initiated cancellation.
#[derive(Debug, Clone, PartialEq, Eq)]
pub struct TaskCancel {
    pub task_id: u128,
    pub reason: Option<String>,
}

/// Gateway receipt for a `TaskRequested`.
#[derive(Debug, Clone, PartialEq, Eq)]
pub struct TaskAcknowledged {
    pub task_id: u128,
    pub status: TaskStatus,
    pub deadline_ms: u64,
    pub provider_id: Option<String>,
    pub warnings: Vec<String>,
}

/// Final outcome of a task.
#[derive(Debug, Clone, PartialEq, Eq)]
pub struct TaskOutcome {
    pub task_id: u128,
    pub result: TaskResultKind,
    pub summary: String,
    pub evidence_ids: Vec<u128>,
    pub error_code: Option<String>,
    pub error_detail: Option<String>,
}

#[derive(Debug, Clone, Copy, PartialEq, Eq, Structural)]
pub enum EvidenceLinkType {
    TaskProof,
    TaskContext,
    TaskFailure,
}

/// Link between a task and an evidence event; `confidence` is an `f32` bit pattern.
#[derive(Debug, Clone, Copy, PartialEq, Eq, Structural)]
pub struct EvidenceLink {
    pub source_id: u128,
    pub target_id: u128,
    pub link_type: EvidenceLinkType,
    pub confidence: u32,
}

/// Client request to resume a previously opened session.
#[derive(Debug, Clone, Copy, PartialEq, Eq, Structural)]
pub struct SessionResume {
    pub session_id: u128,
    pub last_sequence_seen: u64,
    pub replay_evidence: bool,
}

/// Replay of buffered evidence defaults to on when a resume omits the field.
pub fn default_replay_evidence() -> (r: bool)
    ensures
        r,
{
    true
}

#[derive(Debug, Clone, Copy, PartialEq, Eq, Structural, PartialOrd, Ord)]
pub enum LatencyPhase {
    ResponseCommitted,
    FirstProviderEvent,
    FirstTextDelta,
    FirstAudioFrame,
    ProviderComplete,
    CancelRequested,
}

#[derive(Debug, Clone, Copy, PartialEq, Eq, Structural)]
pub struct LatencyMark {
    pub phase: LatencyPhase,
    pub elapsed_us: u64,
}

#[derive(Debug, Clone, PartialEq, Eq)]
pub struct ErrorEvent {
    pub code: String,
    pub message: String,
    pub recoverable: bool,
}

#[derive(Debug, Clone, Copy, PartialEq, Eq, Structural)]
pub enum InteractionAction {
    Listen,
    HoldFloor,
    Backchannel,
    StartResponse,
    SoftDuck,
    HardYield,
    Resume,
    Replan,
    Delegate,
    CancelTask,
    EndSession,
}

#[derive(Debug, Clone, Copy, PartialEq, Eq, Structural)]
pub enum ProviderClass {
    NativeDuplex,
    HybridStreaming,
    Cascade,
    Mock,
}

#[derive(Debug, Clone, Copy, PartialEq, Eq, Structural)]
pub struct InteractionProfile {
    pub backchannels: BackchannelLevel,
    pub pause_tolerance_ms: u32,
    pub interruption_sensitivity: InterruptionSensitivity,
}

impl Default for InteractionProfile {
    /// Conservative defaults: minimal backchannels, 650 ms pause tolerance,
    /// balanced interruption sensitivity.
    fn default() -> (p: Self)
        ensures
            p.backchannels == BackchannelLevel::Minimal,
            p.pause_tolerance_ms == 650,
            p.interruption_sensitivity == InterruptionSensitivity::Balanced,
    {
        InteractionProfile {
            backchannels: BackchannelLevel::Minimal,
            pause_tolerance_ms: 650,
            interruption_sensitivity: InterruptionSensitivity::Balanced,
        }
    }
}

#[derive(Debug, Clone, Copy, PartialEq, Eq, Structural)]
pub enum BackchannelLevel {
    Off,
    Minimal,
    Natural,
    Expressive,
}

#[derive(Debug, Clone, Copy, PartialEq, Eq, Structural)]
pub enum InterruptionSensitivity {
    Conservative,
    Balanced,
    Responsive,
}

#[derive(Debug, Clone, PartialEq, Eq)]
pub struct ProviderManifest {
    pub id: String,
    pub adapter_version: String,
    pub provider_class: ProviderClass,
    pub license_class: LicenseClass,
    pub modalities: ModalityCapabilities,
    pub duplex: DuplexCapabilities,
    pub audio: AudioCapabilities,
    pub control: ControlCapabilities,
    pub limits: ProviderLimits,
}

#[derive(Debug, Clone, Copy, PartialEq, Eq, Structural)]
pub enum LicenseClass {
    Redistributable,
    UserDownload,
    ResearchOnly,
    HostedOnly,
    Unknown,
}

#[derive(Debug, Clone, PartialEq, Eq)]
pub struct ModalityCapabilities {
    pub input: Vec<Modality>,
    pub output: Vec<Modality>,
}

#[derive(Debug, Clone, Copy, PartialEq, Eq, Structural)]
pub enum Modality {
    Audio,
    Text,
    State,
    Image,
    Screen,
}

#[derive(Debug, Clone, Copy, PartialEq, Eq, Structural)]
pub struct DuplexCapabilities {
    pub continuous_input_while_output: bool,
    pub native_turn_policy: bool,
    pub native_barge_in: bool,
    pub state_tokens: bool,
}

#[derive(Debug, Clone, PartialEq, Eq)]
pub struct AudioCapabilities {
    pub input_sample_rates: Vec<u32>,
    pub output_sample_rates: Vec<u32>,
    pub frame_ms: u16,
}

#[derive(Debug, Clone, Copy, PartialEq, Eq, Structural)]
pub struct ControlCapabilities {
    pub text_injection: bool,
    pub context_update: bool,
    pub voice_conditioning: bool,
    pub cancel_generation: bool,
    pub resume_generation: bool,
}

#[derive(Debug, Clone, Copy, PartialEq, Eq, Structural)]
pub struct ProviderLimits {
    pub max_session_seconds: u32,
    pub required_gpu_memory_gb: Option<u16>,
}


#[verifier::external_type_specification]
#[verifier::external_body]
pub struct ExJsonValue(serde_json::Value);

#[verifier::external_type_specification]
#[verifier::external_body]
#[verifier::reject_recursive_types(K)]
#[verifier::reject_recursive_types(V)]
pub struct ExJsonMap<K, V>(serde_json::Map<K, V>);

/// Structured inline card (weather, translation, tools surface, ...).
#[derive(Debug, PartialEq)]
pub struct VisualCard {
    pub kind: String,
    pub title: String,
    pub fields: serde_json::Map<String, serde_json::Value>,
    pub attribution: Option<String>,
}

/// Result of background cognition; `confidence` is an `f32` bit pattern.
#[derive(Debug, PartialEq)]
pub struct TaskResult {
    pub task_id: u128,
    pub conversation_version: u64,
    pub content: serde_json::Value,
    pub confidence: u32,
}

#[derive(Debug, PartialEq)]
pub enum RealtimeEvent {
    SessionCreated(SessionCreated),
    SessionConfigured(SessionConfigured),
    CapabilityOffer(CapabilityOffer),
    CapabilitySelected(CapabilitySelected),
    VisualInput(VisualInput),
    VisualInputAccepted(VisualInputAccepted),
    VisualInputRejected(VisualInputRejected),
    Observation(Observation),
    EndpointingPrediction(EndpointingPrediction),
    InteractionDecision(InteractionDecision),
    OutputTextDelta(OutputTextDelta),
    OutputTextFinal(OutputTextFinal),
    OutputAudioCancel(OutputAudioCancel),
    OutputAudioPlayed(OutputAudioPlayed),
    ProviderState(ProviderState),
    TaskCreated(TaskCreated),
    TaskResult(TaskResult),
    TaskRequested(TaskRequested),
    TaskAcknowledged(TaskAcknowledged),
    TaskCancel(TaskCancel),
    TaskOutcome(TaskOutcome),
    EvidenceLink(EvidenceLink),
    SessionResume(SessionResume),
    LatencyMark(LatencyMark),
    Error(ErrorEvent),
    UserTranscriptDelta(UserTranscriptDelta),
    VisualCard(VisualCard),
    Ping,
    Pong,
}

/// One control event with its routing and timeline metadata.
#[derive(Debug, PartialEq)]
pub struct EventEnvelope {
    pub protocol_version: String,
    pub event_id: u128,
    pub session_id: u128,
    pub stream_id: String,
    pub sequence: u64,
    pub media_time_us: u64,
    pub generation_id: Option<u128>,
    pub parent_event_id: Option<u128>,
    pub event: RealtimeEvent,
}

/// A fresh random (version 4) event id from `Uuid::new_v4`. Nothing is
/// promised of the value: it is drawn from the system's random source.
#[verifier::external_body]
pub(crate) fn new_event_id() -> u128 {
    uuid::Uuid::new_v4().as_u128()
}

impl EventEnvelope {
    /// An envelope with a fresh random event id and no generation or parent.
    pub fn new(session_id: u128, stream_id: &str, sequence: u64, media_time_us: u64, event: RealtimeEvent) -> (e: Self)
        ensures
            e.protocol_version@ == PROTOCOL_VERSION@,
            e.session_id == session_id,
            e.stream_id@ == stream_id@,
            e.sequence == sequence,
            e.media_time_us == media_time_us,
            e.generation_id is None,
            e.parent_event_id is None,
            e.event == event,
    {
        let event_id = new_event_id();
        Self::new_with_id(event_id, session_id, stream_id, sequence, media_time_us, event)
    }

    /// An envelope with the given event id and no generation or parent.
    pub fn new_with_id(
        event_id: u128,
        session_id: u128,
        stream_id: &str,
        sequence: u64,
        media_time_us: u64,
        event: RealtimeEvent,
    ) -> (e: Self)
        ensures
            e.protocol_version@ == PROTOCOL_VERSION@,
            e.event_id == event_id,
            e.session_id == session_id,
            e.stream_id@ == stream_id@,
            e.sequence == sequence,
            e.media_time_us == media_time_us,
            e.generation_id is None,
            e.parent_event_id is None,
            e.event == event,
    {
        EventEnvelope {
            protocol_version: PROTOCOL_VERSION.to_owned(),
            event_id,
            session_id,
            stream_id: stream_id.to_owned(),
            sequence,
            media_time_us,
            generation_id: None,
            parent_event_id: None,
            event,
        }
    }

    /// The same envelope bound to a generation.
    pub fn with_generation(self, generation_id: u128) -> (e: Self)
        ensures
            e == (EventEnvelope { generation_id: Some(generation_id), ..self }),
    {
        EventEnvelope { generation_id: Some(generation_id), ..self }
    }

    /// The same envelope with a parent event.
    pub fn with_parent(self, parent_event_id: u128) -> (e: Self)
        ensures
            e == (EventEnvelope { parent_event_id: Some(parent_event_id), ..self }),
    {
        EventEnvelope { parent_event_id: Some(parent_event_id), ..self }
    }
}

} // verus!
