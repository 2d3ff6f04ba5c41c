//! Decisions of the realtime gateway's session loop: capability
//! negotiation, visual-input refusal, which stream an event travels on,
//! which provider events count as task evidence, the per-session sequence
//! counter, the registry of open sessions, and the inline base64 encoder.

use vstd::prelude::*;
use crate::clock::now_ms;
use crate::session_state::ClientTimeline;
use crate::protocol::{
    AudioCapabilities, CapabilityOffer, CapabilitySelected, EventEnvelope, EvidenceKind,
    InteractionAction, MediaTransport, Modality, ModalityCapabilities, ProviderLifecycleState,
    ProviderManifest, RealtimeEvent, SessionCreated, VisualInput, VisualInputMode,
    VisualInputRejected, PROTOCOL_REVISION, PROTOCOL_VERSION,
};
use crate::text::{
    opt_chars, chars_eq, chars_of, decimal, decimal_chars, extend_chars, extend_str, slice_chars, starts_with,
    starts_with_chars, starts_with_str, string_of, trim, trim_chars,
};

verus! {

broadcast use vstd::seq_lib::group_seq_properties;

/// The next event sequence number (saturating at `u64::MAX`).
pub fn next_sequence(sequence: &mut u64) -> (n: u64)
    ensures
        *final(sequence) == if *old(sequence) == u64::MAX {
            u64::MAX
        } else {
            (*old(sequence) + 1) as u64
        },
        n == *final(sequence),
{
    *sequence = sequence.saturating_add(1);
    *sequence
}

/// The stream a client event is validated on; `None` for events the
/// client does not own.
pub open spec fn client_stream_of(event: RealtimeEvent) -> Option<Seq<char>> {
    match event {
        RealtimeEvent::SessionConfigured(_) | RealtimeEvent::Ping | RealtimeEvent::SessionResume(_) => Some(
            "session"@,
        ),
        RealtimeEvent::CapabilityOffer(_) => Some("capability"@),
        RealtimeEvent::VisualInput(_) => Some("visual"@),
        RealtimeEvent::OutputAudioPlayed(_) => Some("assistant_playout"@),
        RealtimeEvent::TaskRequested(_) | RealtimeEvent::TaskCancel(_) => Some("tasks"@),
        _ => None,
    }
}

/// The stream a client event is validated on.
pub fn client_stream_id(event: &RealtimeEvent) -> (r: Option<&'static str>)
    ensures
        match r {
            Some(s) => client_stream_of(*event) == Some(s@),
            None => client_stream_of(*event) is None,
        },
{
    match event {
        RealtimeEvent::SessionConfigured(_) | RealtimeEvent::Ping | RealtimeEvent::SessionResume(_) => Some(
            "session",
        ),
        RealtimeEvent::CapabilityOffer(_) => Some("capability"),
        RealtimeEvent::VisualInput(_) => Some("visual"),
        RealtimeEvent::OutputAudioPlayed(_) => Some("assistant_playout"),
        RealtimeEvent::TaskRequested(_) | RealtimeEvent::TaskCancel(_) => Some("tasks"),
        _ => None,
    }
}

/// The stream a gateway or provider event is sent on.
pub open spec fn provider_stream_of(event: RealtimeEvent) -> Seq<char> {
    match event {
        RealtimeEvent::OutputAudioCancel(_) => "assistant_audio"@,
        RealtimeEvent::OutputTextDelta(_) | RealtimeEvent::OutputTextFinal(_) => "assistant_text"@,
        RealtimeEvent::TaskCreated(_) | RealtimeEvent::TaskResult(_) => "cognition"@,
        RealtimeEvent::LatencyMark(_) => "telemetry"@,
        RealtimeEvent::EndpointingPrediction(_) => "endpointing"@,
        RealtimeEvent::CapabilitySelected(_) => "capability"@,
        RealtimeEvent::VisualInputAccepted(_) | RealtimeEvent::VisualInputRejected(_) => "visual"@,
        RealtimeEvent::TaskAcknowledged(_) | RealtimeEvent::TaskOutcome(_) => "tasks"@,
        RealtimeEvent::EvidenceLink(_) => "evidence"@,
        _ => "provider"@,
    }
}

/// The stream a gateway or provider event is sent on.
pub fn provider_stream_id(event: &RealtimeEvent) -> (s: &'static str)
    ensures
        s@ == provider_stream_of(*event),
{
    match event {
        RealtimeEvent::OutputAudioCancel(_) => "assistant_audio",
        RealtimeEvent::OutputTextDelta(_) | RealtimeEvent::OutputTextFinal(_) => "assistant_text",
        RealtimeEvent::TaskCreated(_) | RealtimeEvent::TaskResult(_) => "cognition",
        RealtimeEvent::LatencyMark(_) => "telemetry",
        RealtimeEvent::EndpointingPrediction(_) => "endpointing",
        RealtimeEvent::CapabilitySelected(_) => "capability",
        RealtimeEvent::VisualInputAccepted(_) | RealtimeEvent::VisualInputRejected(_) => "visual",
        RealtimeEvent::TaskAcknowledged(_) | RealtimeEvent::TaskOutcome(_) => "tasks",
        RealtimeEvent::EvidenceLink(_) => "evidence",
        _ => "provider",
    }
}

/// The action an interaction decision event asks for.
pub fn decision_action(event: &EventEnvelope) -> (r: Option<InteractionAction>)
    ensures
        r == match event.event {
            RealtimeEvent::InteractionDecision(d) => Some(d.action),
            _ => None,
        },
{
    match &event.event {
        RealtimeEvent::InteractionDecision(d) => Some(d.action),
        _ => None,
    }
}

/// What kind of evidence a provider event is: transcript text, timing
/// (latency marks, generation start and completion), visual acceptance.
pub open spec fn evidence_kind_of(event: RealtimeEvent) -> Option<EvidenceKind> {
    match event {
        RealtimeEvent::OutputTextDelta(_) | RealtimeEvent::OutputTextFinal(_) => Some(EvidenceKind::Transcript),
        RealtimeEvent::LatencyMark(_) => Some(EvidenceKind::Timing),
        RealtimeEvent::VisualInputAccepted(_) => Some(EvidenceKind::Visual),
        RealtimeEvent::ProviderState(s) => if s.state == ProviderLifecycleState::Generating || s.state
            == ProviderLifecycleState::Complete {
            Some(EvidenceKind::Timing)
        } else {
            None
        },
        _ => None,
    }
}

/// Classifies a provider event as task evidence, if it is any.
pub fn classify_evidence(event: &RealtimeEvent) -> (r: Option<EvidenceKind>)
    ensures
        r == evidence_kind_of(*event),
{
    match event {
        RealtimeEvent::OutputTextDelta(_) | RealtimeEvent::OutputTextFinal(_) => Some(EvidenceKind::Transcript),
        RealtimeEvent::LatencyMark(_) => Some(EvidenceKind::Timing),
        RealtimeEvent::VisualInputAccepted(_) => Some(EvidenceKind::Visual),
        RealtimeEvent::ProviderState(s) => {
            if s.state == ProviderLifecycleState::Generating || s.state == ProviderLifecycleState::Complete {
                Some(EvidenceKind::Timing)
            } else {
                None
            }
        },
        _ => None,
    }
}

/// Largest visual input accepted, in bytes, pixels wide and pixels high.
pub const MAX_VISUAL_BYTES: u32 = 393_216;
pub const MAX_VISUAL_WIDTH: u32 = 1280;
pub const MAX_VISUAL_HEIGHT: u32 = 720;

/// Why a visual input is refused: over the limits, not an image, or (the
/// gateway has no visual transport) refused as unsupported.
pub open spec fn visual_refusal(v: VisualInput) -> (Seq<char>, Seq<char>, bool) {
    if v.byte_length > MAX_VISUAL_BYTES || v.width > MAX_VISUAL_WIDTH || v.height > MAX_VISUAL_HEIGHT {
        ("visual_input_limit_exceeded"@, "visual input must be at most 1280×720 and 384 KB"@, true)
    } else if !starts_with(v.mime_type@, "image/"@) {
        ("visual_input_mime_unsupported"@, "visual input must use an image MIME type"@, false)
    } else {
        (
            "visual_input_unsupported"@,
            "the selected provider has no visual-input transport; the frame was not retained"@,
            false,
        )
    }
}

/// The refusal sent for a visual input.
pub fn visual_rejection(visual: &VisualInput) -> (r: VisualInputRejected)
    ensures
        r.capture_id == visual.capture_id,
        (r.code@, r.message@, r.retryable) == visual_refusal(*visual),
{
    let mime = chars_of(visual.mime_type.as_str());
    if visual.byte_length > MAX_VISUAL_BYTES || visual.width > MAX_VISUAL_WIDTH || visual.height
        > MAX_VISUAL_HEIGHT {
        VisualInputRejected {
            capture_id: visual.capture_id,
            code: "visual_input_limit_exceeded".to_owned(),
            message: "visual input must be at most 1280×720 and 384 KB".to_owned(),
            retryable: true,
        }
    } else if !starts_with_str(&mime, "image/") {
        VisualInputRejected {
            capture_id: visual.capture_id,
            code: "visual_input_mime_unsupported".to_owned(),
            message: "visual input must use an image MIME type".to_owned(),
            retryable: false,
        }
    } else {
        VisualInputRejected {
            capture_id: visual.capture_id,
            code: "visual_input_unsupported".to_owned(),
            message: "the selected provider has no visual-input transport; the frame was not retained".to_owned(),
            retryable: false,
        }
    }
}

/// The requested modalities the provider offers, in request order.
pub open spec fn offered(requested: Seq<Modality>, available: Seq<Modality>) -> Seq<Modality>
    decreases requested.len(),
{
    if requested.len() == 0 {
        Seq::empty()
    } else if available.contains(requested.last()) {
        offered(requested.drop_last(), available).push(requested.last())
    } else {
        offered(requested.drop_last(), available)
    }
}

/// Negotiation only narrows: every modality selected was both requested
/// and listed by the provider, and every requested modality the provider
/// lists is selected. So a provider without image or screen input never has
/// visual input selected.
pub proof fn lemma_selection_within_manifest(requested: Seq<Modality>, available: Seq<Modality>)
    ensures
        forall|i: int| 0 <= i < offered(requested, available).len() ==> available.contains(
            #[trigger] offered(requested, available)[i],
        ) && requested.contains(offered(requested, available)[i]),
        forall|m: Modality| requested.contains(m) && available.contains(m) ==> #[trigger] offered(
            requested,
            available,
        ).contains(m),
        !available.contains(Modality::Image) && !available.contains(Modality::Screen) ==> !has_visual(
            offered(requested, available),
        ),
    decreases requested.len(),
{
    let o = offered(requested, available);
    if requested.len() > 0 {
        let d = requested.drop_last();
        lemma_selection_within_manifest(d, available);
        let od = offered(d, available);
        assert forall|i: int| 0 <= i < o.len() implies available.contains(#[trigger] o[i]) && requested.contains(o[i]) by {
            if i < od.len() {
                assert(o[i] == od[i]);
                assert(d.contains(od[i]));
                let j = choose|j: int| 0 <= j < d.len() && d[j] == od[i];
                assert(requested[j] == d[j]);
            } else {
                assert(o[i] == requested.last());
                assert(requested[requested.len() - 1] == requested.last());
            }
        }
        assert forall|m: Modality| requested.contains(m) && available.contains(m) implies #[trigger] o.contains(m) by {
            let j = choose|j: int| 0 <= j < requested.len() && requested[j] == m;
            if j < d.len() {
                assert(d[j] == m);
                assert(od.contains(m));
                let k = choose|k: int| 0 <= k < od.len() && od[k] == m;
                assert(o[k] == od[k]);
            } else {
                assert(o[o.len() - 1] == m);
            }
        }
    }
    if !available.contains(Modality::Image) && !available.contains(Modality::Screen) {
        if o.contains(Modality::Image) {
            let i = choose|i: int| 0 <= i < o.len() && o[i] == Modality::Image;
            assert(available.contains(o[i]));
        }
        if o.contains(Modality::Screen) {
            let i = choose|i: int| 0 <= i < o.len() && o[i] == Modality::Screen;
            assert(available.contains(o[i]));
        }
    }
}

fn modality_in(m: Modality, available: &Vec<Modality>) -> (r: bool)
    ensures
        r == available@.contains(m),
{
    let mut i: usize = 0;
    while i < available.len()
        invariant
            i <= available@.len(),
            forall|k: int| 0 <= k < i ==> available@[k] != m,
        decreases available@.len() - i,
    {
        if available[i] == m {
            return true;
        }
        i = i + 1;
    }
    false
}

fn select_modalities(requested: &Vec<Modality>, available: &Vec<Modality>) -> (r: Vec<Modality>)
    ensures
        r@ == offered(requested@, available@),
{
    let mut r: Vec<Modality> = Vec::new();
    let mut i: usize = 0;
    while i < requested.len()
        invariant
            i <= requested@.len(),
            r@ == offered(requested@.take(i as int), available@),
        decreases requested@.len() - i,
    {
        assert(requested@.take(i + 1).drop_last() =~= requested@.take(i as int));
        assert(requested@.take(i + 1).last() == requested@[i as int]);
        if modality_in(requested[i], available) {
            r.push(requested[i]);
        }
        i = i + 1;
    }
    assert(requested@.take(i as int) =~= requested@);
    r
}

/// Whether an image or screen modality was selected.
pub open spec fn has_visual(s: Seq<Modality>) -> bool {
    s.contains(Modality::Image) || s.contains(Modality::Screen)
}

/// The warnings of a capability selection, in order.
pub open spec fn selection_warnings(offer_revision: u16, wants_visual: bool, visual: bool) -> Seq<Seq<char>> {
    (if offer_revision > PROTOCOL_REVISION {
        seq![
            "client protocol revision "@ + decimal(offer_revision as nat)
                + " is newer than gateway revision "@ + decimal(PROTOCOL_REVISION as nat),
        ]
    } else {
        Seq::empty()
    }) + (if wants_visual && !visual {
        seq!["the selected provider does not accept visual input"@]
    } else {
        Seq::empty()
    })
}

/// A field-for-field copy of a manifest.
pub fn copy_manifest(m: &ProviderManifest) -> (r: ProviderManifest)
    ensures
        r.id == m.id,
        r.adapter_version == m.adapter_version,
        r.provider_class == m.provider_class,
        r.license_class == m.license_class,
        r.modalities.input@ == m.modalities.input@,
        r.modalities.output@ == m.modalities.output@,
        r.duplex == m.duplex,
        r.audio.input_sample_rates@ == m.audio.input_sample_rates@,
        r.audio.output_sample_rates@ == m.audio.output_sample_rates@,
        r.audio.frame_ms == m.audio.frame_ms,
        r.control == m.control,
        r.limits == m.limits,
{
    let mut input: Vec<Modality> = Vec::new();
    let mut output: Vec<Modality> = Vec::new();
    let mut i: usize = 0;
    while i < m.modalities.input.len()
        invariant
            i <= m.modalities.input@.len(),
            input@ == m.modalities.input@.take(i as int),
        decreases m.modalities.input@.len() - i,
    {
        input.push(m.modalities.input[i]);
        i = i + 1;
        assert(input@ =~= m.modalities.input@.take(i as int));
    }
    assert(m.modalities.input@.take(i as int) =~= m.modalities.input@);
    let mut j: usize = 0;
    while j < m.modalities.output.len()
        invariant
            j <= m.modalities.output@.len(),
            output@ == m.modalities.output@.take(j as int),
        decreases m.modalities.output@.len() - j,
    {
        output.push(m.modalities.output[j]);
        j = j + 1;
        assert(output@ =~= m.modalities.output@.take(j as int));
    }
    assert(m.modalities.output@.take(j as int) =~= m.modalities.output@);
    let mut ins: Vec<u32> = Vec::new();
    let mut k: usize = 0;
    while k < m.audio.input_sample_rates.len()
        invariant
            k <= m.audio.input_sample_rates@.len(),
            ins@ == m.audio.input_sample_rates@.take(k as int),
        decreases m.audio.input_sample_rates@.len() - k,
    {
        ins.push(m.audio.input_sample_rates[k]);
        k = k + 1;
        assert(ins@ =~= m.audio.input_sample_rates@.take(k as int));
    }
    assert(m.audio.input_sample_rates@.take(k as int) =~= m.audio.input_sample_rates@);
    let mut outs: Vec<u32> = Vec::new();
    let mut l: usize = 0;
    while l < m.audio.output_sample_rates.len()
        invariant
            l <= m.audio.output_sample_rates@.len(),
            outs@ == m.audio.output_sample_rates@.take(l as int),
        decreases m.audio.output_sample_rates@.len() - l,
    {
        outs.push(m.audio.output_sample_rates[l]);
        l = l + 1;
        assert(outs@ =~= m.audio.output_sample_rates@.take(l as int));
    }
    assert(m.audio.output_sample_rates@.take(l as int) =~= m.audio.output_sample_rates@);
    ProviderManifest {
        id: m.id.clone(),
        adapter_version: m.adapter_version.clone(),
        provider_class: m.provider_class,
        license_class: m.license_class,
        modalities: ModalityCapabilities { input, output },
        duplex: m.duplex,
        audio: AudioCapabilities {
            input_sample_rates: ins,
            output_sample_rates: outs,
            frame_ms: m.audio.frame_ms,
        },
        control: m.control,
        limits: m.limits,
    }
}

/// The gateway's answer to a client's capability offer: the requested
/// modalities the provider has, explicit snapshots when an image or screen
/// modality was selected, the client's resume wish, and warnings for a
/// newer client revision or an unmet visual policy.
pub fn select_capabilities(manifest: &ProviderManifest, offer: &CapabilityOffer) -> (r: CapabilitySelected)
    ensures
        r.protocol_revision == PROTOCOL_REVISION,
        r.provider_manifest.id == manifest.id,
        r.provider_manifest.provider_class == manifest.provider_class,
        r.provider_manifest.modalities.input@ == manifest.modalities.input@,
        r.provider_manifest.modalities.output@ == manifest.modalities.output@,
        r.selected_input@ == offered(offer.requested_modalities.input@, manifest.modalities.input@),
        r.selected_output@ == offered(offer.requested_modalities.output@, manifest.modalities.output@),
        forall|i: int| 0 <= i < r.selected_input@.len() ==> manifest.modalities.input@.contains(
            #[trigger] r.selected_input@[i],
        ),
        forall|i: int| 0 <= i < r.selected_output@.len() ==> manifest.modalities.output@.contains(
            #[trigger] r.selected_output@[i],
        ),
        r.visual_mode == if has_visual(r.selected_input@) {
            VisualInputMode::ExplicitSnapshot
        } else {
            VisualInputMode::Unsupported
        },
        r.resume_supported == offer.supports_resume,
        r.warnings@.map_values(|w: String| w@) == selection_warnings(
            offer.protocol_revision,
            offer.visual_input_policy is Some,
            has_visual(r.selected_input@),
        ),
{
    let selected_input = select_modalities(&offer.requested_modalities.input, &manifest.modalities.input);
    let selected_output = select_modalities(&offer.requested_modalities.output, &manifest.modalities.output);
    proof {
        lemma_selection_within_manifest(offer.requested_modalities.input@, manifest.modalities.input@);
        lemma_selection_within_manifest(offer.requested_modalities.output@, manifest.modalities.output@);
    }
    let visual = modality_in(Modality::Image, &selected_input) || modality_in(Modality::Screen, &selected_input);
    let mut warnings: Vec<String> = Vec::new();
    if offer.protocol_revision > PROTOCOL_REVISION {
        let mut w: Vec<char> = Vec::new();
        extend_str(&mut w, "client protocol revision ");
        let a = decimal_chars(offer.protocol_revision as u64);
        extend_chars(&mut w, &a);
        extend_str(&mut w, " is newer than gateway revision ");
        let b = decimal_chars(PROTOCOL_REVISION as u64);
        extend_chars(&mut w, &b);
        warnings.push(string_of(&w));
    }
    if offer.visual_input_policy.is_some() && !visual {
        warnings.push("the selected provider does not accept visual input".to_owned());
    }
    assert(warnings@.map_values(|w: String| w@) =~= selection_warnings(
        offer.protocol_revision,
        offer.visual_input_policy is Some,
        visual,
    ));
    CapabilitySelected {
        protocol_revision: PROTOCOL_REVISION,
        provider_manifest: copy_manifest(manifest),
        selected_input,
        selected_output,
        visual_mode: if visual {
            VisualInputMode::ExplicitSnapshot
        } else {
            VisualInputMode::Unsupported
        },
        resume_supported: offer.supports_resume,
        warnings,
    }
}

/// The session announcement for a provider: its id and class, and its
/// first input and output sample rates (16 kHz and 24 kHz when it lists none).
pub fn session_created(manifest: &ProviderManifest) -> (r: SessionCreated)
    ensures
        r.model == manifest.id,
        r.provider_class == manifest.provider_class,
        r.input_sample_rate == if manifest.audio.input_sample_rates@.len() > 0 {
            manifest.audio.input_sample_rates@[0]
        } else {
            16_000
        },
        r.output_sample_rate == if manifest.audio.output_sample_rates@.len() > 0 {
            manifest.audio.output_sample_rates@[0]
        } else {
            24_000
        },
        r.media_transport == MediaTransport::WebsocketBinaryPcm,
{
    let input_sample_rate = if manifest.audio.input_sample_rates.len() > 0 {
        manifest.audio.input_sample_rates[0]
    } else {
        16_000
    };
    let output_sample_rate = if manifest.audio.output_sample_rates.len() > 0 {
        manifest.audio.output_sample_rates[0]
    } else {
        24_000
    };
    SessionCreated {
        model: manifest.id.clone(),
        provider_class: manifest.provider_class,
        input_sample_rate,
        output_sample_rate,
        media_transport: MediaTransport::WebsocketBinaryPcm,
    }
}

/// The base64 alphabet.
pub open spec fn b64_digit(i: int) -> char {
    if i < 26 {
        (65 + i) as char
    } else if i < 52 {
        (97 + i - 26) as char
    } else if i < 62 {
        (48 + i - 52) as char
    } else if i == 62 {
        '+'
    } else {
        '/'
    }
}

/// The four characters encoding one group of `n` bytes (1 to 3); a short
/// group is padded with `=`.
pub open spec fn b64_group(b0: u8, b1: u8, b2: u8, n: int) -> Seq<char> {
    let w = b0 * 65536 + b1 * 256 + b2;
    seq![
        b64_digit(w / 262144 % 64),
        b64_digit(w / 4096 % 64),
        if n > 1 { b64_digit(w / 64 % 64) } else { '=' },
        if n > 2 { b64_digit(w % 64) } else { '=' },
    ]
}

/// Standard padded base64 of a byte sequence.
pub open spec fn b64_encode(s: Seq<u8>) -> Seq<char>
    decreases s.len(),
{
    if s.len() == 0 {
        Seq::empty()
    } else if s.len() >= 3 {
        b64_group(s[0], s[1], s[2], 3) + b64_encode(s.skip(3))
    } else if s.len() == 2 {
        b64_group(s[0], s[1], 0, 2)
    } else {
        b64_group(s[0], 0, 0, 1)
    }
}

fn b64_char(v: u32) -> (c: char)
    requires
        v < 64,
    ensures
        c == b64_digit(v as int),
{
    if v < 26 {
        ((65 + v) as u8) as char
    } else if v < 52 {
        ((97 + v - 26) as u8) as char
    } else if v < 62 {
        ((48 + v - 52) as u8) as char
    } else if v == 62 {
        '+'
    } else {
        '/'
    }
}

proof fn lemma_b64_bits(b0: u32, b1: u32, b2: u32)
    by (bit_vector)
    requires
        b0 < 256,
        b1 < 256,
        b2 < 256,
    ensures
        ((((b0 << 16u32) | (b1 << 8u32) | b2) >> 18u32) & 63u32) == (b0 * 65536 + b1 * 256 + b2) / 262144 % 64,
        ((((b0 << 16u32) | (b1 << 8u32) | b2) >> 12u32) & 63u32) == (b0 * 65536 + b1 * 256 + b2) / 4096 % 64,
        ((((b0 << 16u32) | (b1 << 8u32) | b2) >> 6u32) & 63u32) == (b0 * 65536 + b1 * 256 + b2) / 64 % 64,
        (((b0 << 16u32) | (b1 << 8u32) | b2) & 63u32) == (b0 * 65536 + b1 * 256 + b2) % 64,
{
}

/// Standard padded base64, as the gateway inlines media.
#[verifier::rlimit(40)]
pub fn base64_encode(bytes: &[u8]) -> (r: String)
    ensures
        r@ == b64_encode(bytes@),
{
    let mut out: Vec<char> = Vec::new();
    let mut i: usize = 0;
    assert(bytes@.skip(0) =~= bytes@);
    while i < bytes.len()
        invariant
            i <= bytes@.len(),
            b64_encode(bytes@) == out@ + b64_encode(bytes@.skip(i as int)),
        decreases bytes@.len() - i,
    {
        let left = bytes.len() - i;
        let b0 = bytes[i] as u32;
        let b1: u32 = if left > 1 {
            bytes[i + 1] as u32
        } else {
            0
        };
        let b2: u32 = if left > 2 {
            bytes[i + 2] as u32
        } else {
            0
        };
        let n: u32 = (b0 << 16u32) | (b1 << 8u32) | b2;
        proof {
            lemma_b64_bits(b0, b1, b2);
        }
        let ghost rest = bytes@.skip(i as int);
        let ghost before = out@;
        out.push(b64_char((n >> 18u32) & 63));
        out.push(b64_char((n >> 12u32) & 63));
        if left > 1 {
            out.push(b64_char((n >> 6u32) & 63));
        } else {
            out.push('=');
        }
        if left > 2 {
            out.push(b64_char(n & 63));
        } else {
            out.push('=');
        }
        proof {
            assert(rest[0] == bytes@[i as int]);
            if left >= 3 {
                assert(rest[1] == bytes@[i + 1]);
                assert(rest[2] == bytes@[i + 2]);
                assert(rest.skip(3) =~= bytes@.skip(i + 3));
                assert(out@ =~= before + b64_group(rest[0], rest[1], rest[2], 3));
            } else if left == 2 {
                assert(rest[1] == bytes@[i + 1]);
                assert(out@ =~= before + b64_group(rest[0], rest[1], 0, 2));
                assert(bytes@.skip(i + 2) =~= Seq::<u8>::empty());
            } else {
                assert(out@ =~= before + b64_group(rest[0], 0, 0, 1));
                assert(bytes@.skip(i + 1) =~= Seq::<u8>::empty());
            }
        }
        i = if left >= 3 {
            i + 3
        } else {
            bytes.len()
        };
    }
    assert(b64_encode(bytes@.skip(i as int)) =~= Seq::<char>::empty());
    string_of(&out)
}

/// One open realtime session.
#[derive(Debug, Clone, PartialEq, Eq)]
pub struct SessionInfo {
    pub session_id: u128,
    pub opened_at_ms: u64,
    pub provider_id: String,
}

/// The open sessions, by id, and how many were ever opened.
#[derive(Debug)]
pub struct SessionRegistry {
    sessions: Vec<SessionInfo>,
    opened: u64,
}

/// The sessions other than `id`.
pub open spec fn without_session(s: Seq<SessionInfo>, id: u128) -> Seq<SessionInfo>
    decreases s.len(),
{
    if s.len() == 0 {
        s
    } else if s.last().session_id == id {
        without_session(s.drop_last(), id)
    } else {
        without_session(s.drop_last(), id).push(s.last())
    }
}

/// Whether a session with this id is open.
pub open spec fn has_session(s: Seq<SessionInfo>, id: u128) -> bool {
    exists|i: int| 0 <= i < s.len() && s[i].session_id == id
}

proof fn lemma_without_session(s: Seq<SessionInfo>, id: u128)
    ensures
        !has_session(without_session(s, id), id),
        forall|x: SessionInfo| x.session_id != id && s.contains(x) ==> without_session(s, id).contains(x),
        without_session(s, id).len() <= s.len(),
        !has_session(s, id) ==> without_session(s, id) == s,
    decreases s.len(),
{
    if s.len() > 0 {
        lemma_without_session(s.drop_last(), id);
        let r = without_session(s.drop_last(), id);
        assert forall|x: SessionInfo| x.session_id != id && s.contains(x) implies without_session(s, id).contains(x) by {
            let k = choose|k: int| 0 <= k < s.len() && s[k] == x;
            if k < s.len() - 1 {
                assert(s.drop_last()[k] == x);
                assert(s.drop_last().contains(x));
            }
            if s.last().session_id != id {
                let t = r.push(s.last());
                if k == s.len() - 1 {
                    assert(t[t.len() - 1] == x);
                } else {
                    let j = choose|j: int| 0 <= j < r.len() && r[j] == x;
                    assert(t[j] == x);
                }
            }
        }
        if s.last().session_id != id {
            let t = r.push(s.last());
            if has_session(t, id) {
                let j = choose|j: int| 0 <= j < t.len() && t[j].session_id == id;
                if j < r.len() {
                    assert(r[j].session_id == id);
                }
            }
        }
        if !has_session(s, id) {
            assert(!has_session(s.drop_last(), id)) by {
                if has_session(s.drop_last(), id) {
                    let j = choose|j: int| 0 <= j < s.drop_last().len() && s.drop_last()[j].session_id == id;
                    assert(s[j].session_id == id);
                }
            }
            assert(s.last().session_id != id) by {
                assert(s[s.len() - 1].session_id != id);
            }
            assert(s.drop_last().push(s.last()) =~= s);
        }
    }
}

impl View for SessionRegistry {
    type V = (Seq<SessionInfo>, u64);

    closed spec fn view(&self) -> (Seq<SessionInfo>, u64) {
        (self.sessions@, self.opened)
    }
}

impl SessionRegistry {
    pub fn new() -> (r: Self)
        ensures
            r@.0 == Seq::<SessionInfo>::empty(),
            r@.1 == 0,
    {
        SessionRegistry { sessions: Vec::new(), opened: 0 }
    }

    /// Records an opened session (replacing one with the same id) at `now`.
    pub fn register_at(&mut self, session_id: u128, provider_id: &str, now: u64)
        ensures
            final(self)@.0 == without_session(old(self)@.0, session_id).push(
                SessionInfo { session_id, opened_at_ms: now, provider_id: final(self)@.0.last().provider_id },
            ),
            final(self)@.0.last().provider_id@ == provider_id@,
            final(self)@.1 == (old(self)@.1 + 1) % 0x1_0000_0000_0000_0000,
    {
        self.remove_session(session_id);
        self.sessions.push(SessionInfo { session_id, opened_at_ms: now, provider_id: provider_id.to_owned() });
        self.opened = self.opened.wrapping_add(1);
    }

    /// Records an opened session stamped with the clock's time.
    pub fn register(&mut self, session_id: u128, provider_id: &str)
        ensures
            exists|now: u64|
                final(self)@.0 == without_session(old(self)@.0, session_id).push(
                    SessionInfo { session_id, opened_at_ms: now, provider_id: final(self)@.0.last().provider_id },
                ),
            final(self)@.0.last().provider_id@ == provider_id@,
            final(self)@.1 == (old(self)@.1 + 1) % 0x1_0000_0000_0000_0000,
    {
        self.register_at(session_id, provider_id, now_ms());
    }

    fn remove_session(&mut self, session_id: u128)
        ensures
            final(self)@.0 == without_session(old(self)@.0, session_id),
            final(self)@.1 == old(self)@.1,
    {
        let ghost orig = self.sessions@;
        let mut kept: Vec<SessionInfo> = Vec::new();
        let mut i: usize = 0;
        while i < self.sessions.len()
            invariant
                i <= orig.len(),
                self.sessions@ == orig,
                kept@ == without_session(orig.take(i as int), session_id),
            decreases orig.len() - i,
        {
            assert(orig.take(i + 1).drop_last() =~= orig.take(i as int));
            assert(orig.take(i + 1).last() == orig[i as int]);
            if self.sessions[i].session_id != session_id {
                let s = &self.sessions[i];
                kept.push(SessionInfo {
                    session_id: s.session_id,
                    opened_at_ms: s.opened_at_ms,
                    provider_id: s.provider_id.clone(),
                });
            }
            i = i + 1;
        }
        assert(orig.take(i as int) =~= orig);
        self.sessions = kept;
    }

    /// Forgets a closed session.
    pub fn unregister(&mut self, session_id: u128)
        ensures
            final(self)@.0 == without_session(old(self)@.0, session_id),
            final(self)@.1 == old(self)@.1,
    {
        self.remove_session(session_id);
    }

    /// The open sessions.
    pub fn list(&self) -> (r: Vec<SessionInfo>)
        ensures
            r@ == self@.0,
    {
        let mut r: Vec<SessionInfo> = Vec::new();
        let mut i: usize = 0;
        while i < self.sessions.len()
            invariant
                i <= self.sessions@.len(),
                r@ == self.sessions@.take(i as int),
            decreases self.sessions@.len() - i,
        {
            let s = &self.sessions[i];
            r.push(SessionInfo {
                session_id: s.session_id,
                opened_at_ms: s.opened_at_ms,
                provider_id: s.provider_id.clone(),
            });
            i = i + 1;
            assert(r@ =~= self.sessions@.take(i as int));
        }
        assert(self.sessions@.take(i as int) =~= self.sessions@);
        r
    }

    /// How many sessions are open.
    pub fn active_count(&self) -> (n: usize)
        ensures
            n == self@.0.len(),
    {
        self.sessions.len()
    }

    /// How many sessions were ever registered (wrapping at `u64::MAX`).
    pub fn opened_total(&self) -> (n: u64)
        ensures
            n == self@.1,
    {
        self.opened
    }
}

/// A failure of the WebRTC peer layer.
#[derive(Debug, Clone, PartialEq, Eq)]
pub enum WebRtcError {
    Internal(String),
    InvalidSdp(String),
}

impl WebRtcError {
    /// The message the error displays.
    pub fn message(&self) -> (m: String)
        ensures
            m@ == match self {
                WebRtcError::Internal(s) => s@,
                WebRtcError::InvalidSdp(s) => s@,
            },
    {
        match self {
            WebRtcError::Internal(s) => s.clone(),
            WebRtcError::InvalidSdp(s) => s.clone(),
        }
    }
}

/// What a WebRTC peer delivers to its session.
#[derive(Debug, Clone, PartialEq, Eq)]
pub enum PeerInbound {
    ControlText(String),
    MediaBinary(Vec<u8>),
    Closed,
}

/// What a session sends to its WebRTC peer.
#[derive(Debug, Clone, PartialEq, Eq)]
pub enum PeerOutbound {
    ControlText(String),
    MediaBinary(Vec<u8>),
}


/// Unregistering forgets a session: no open session has its id.
pub proof fn lemma_unregistered_session_is_gone(s: Seq<SessionInfo>, id: u128)
    ensures
        forall|k: int| 0 <= k < without_session(s, id).len() ==> (#[trigger] without_session(s, id)[k]).session_id != id,
    decreases s.len(),
{
    if s.len() > 0 {
        lemma_unregistered_session_is_gone(s.drop_last(), id);
        let r = without_session(s.drop_last(), id);
        if s.last().session_id != id {
            assert forall|k: int| 0 <= k < r.push(s.last()).len() implies (#[trigger] r.push(s.last())[k]).session_id != id by {
                if k < r.len() {
                    assert(r.push(s.last())[k] == r[k]);
                }
            }
        }
    }
}

/// Registering a session lists it exactly once, however often its id was
/// registered before.
pub proof fn lemma_registered_session_listed_once(s: Seq<SessionInfo>, info: SessionInfo)
    ensures
        ({
            let t = without_session(s, info.session_id).push(info);
            &&& t.contains(info)
            &&& forall|k: int| 0 <= k < t.len() && (#[trigger] t[k]).session_id == info.session_id ==> k == t.len() - 1
        }),
{
    lemma_unregistered_session_is_gone(s, info.session_id);
    let r = without_session(s, info.session_id);
    let t = r.push(info);
    assert(t[t.len() - 1] == info);
    assert forall|k: int| 0 <= k < t.len() && (#[trigger] t[k]).session_id == info.session_id implies k == t.len() - 1 by {
        if k < r.len() {
            assert(t[k] == r[k]);
        }
    }
}


/// The developer key in force: the flag's value, else the environment's
/// (`OPENLIVE_API_KEY`); an empty key is none.
pub fn resolved_api_key(flag: Option<String>, env: Option<String>) -> (r: Option<String>)
    ensures
        opt_chars(r) == (match (if flag is Some { flag } else { env }) {
            Some(k) => if k@.len() == 0 { None } else { Some(k@) },
            None => None,
        }),
{
    let chosen = match flag {
        Some(k) => Some(k),
        None => env,
    };
    match chosen {
        Some(k) => {
            if chars_of(k.as_str()).len() == 0 {
                None
            } else {
                Some(k)
            }
        },
        None => None,
    }
}

/// The key a request presents: an `Authorization: Bearer …` value, else the
/// `x-openlive-key` header.
pub open spec fn presented_key(authorization: Option<Seq<char>>, openlive_key: Option<Seq<char>>) -> Option<Seq<char>> {
    match authorization {
        Some(a) if starts_with(a, "Bearer "@) => Some(a.skip(7)),
        _ => openlive_key,
    }
}

/// Whether a request may use a guarded route: always when no key is
/// configured, else only when it presents exactly that key.
pub fn api_key_accepted(expected: Option<&str>, authorization: Option<&str>, openlive_key: Option<&str>) -> (r: bool)
    ensures
        r == match expected {
            None => true,
            Some(e) => presented_key(
                match authorization {
                    Some(a) => Some(a@),
                    None => None,
                },
                match openlive_key {
                    Some(k) => Some(k@),
                    None => None,
                },
            ) == Some(e@),
        },
{
    let want = match expected {
        None => return true,
        Some(e) => chars_of(e),
    };
    let bearer = chars_of("Bearer ");
    proof {
        reveal_strlit("Bearer ");
    }
    let presented: Option<Vec<char>> = match authorization {
        Some(a) => {
            let av = chars_of(a);
            if starts_with_chars(&av, &bearer) {
                Some(slice_chars(&av, 7, av.len()))
            } else {
                match openlive_key {
                    Some(k) => Some(chars_of(k)),
                    None => None,
                }
            }
        },
        None => match openlive_key {
            Some(k) => Some(chars_of(k)),
            None => None,
        },
    };
    match presented {
        Some(p) => chars_eq(&p, &want),
        None => false,
    }
}


/// Why a client event was refused: the media time it carried, an error code
/// and a message.
#[derive(Debug, Clone, PartialEq, Eq)]
pub struct ClientEventRejection {
    pub media_time_us: u64,
    pub code: String,
    pub message: String,
}

/// The envelope-level refusal of a client event, before its timeline is
/// checked: another session, another protocol version, an event a client
/// may not send, or the wrong stream.
pub open spec fn envelope_refusal(session_id: u128, e: EventEnvelope) -> Option<(Seq<char>, Seq<char>)> {
    if e.session_id != session_id {
        Some(("session_mismatch"@, "event session_id does not match this connection"@))
    } else if e.protocol_version@ != PROTOCOL_VERSION@ {
        Some(("protocol_version_mismatch"@, "expected protocol "@ + PROTOCOL_VERSION@ + ", received "@ + e.protocol_version@))
    } else {
        match client_stream_of(e.event) {
            None => Some(("unsupported_client_event"@, "this event type cannot be sent by a client"@)),
            Some(stream) => if e.stream_id@ != stream {
                Some(("invalid_client_stream"@, "expected stream_id "@ + stream))
            } else {
                None
            },
        }
    }
}

fn rejection(media_time_us: u64, code: &str, message: Vec<char>) -> (r: ClientEventRejection)
    ensures
        r.media_time_us == media_time_us,
        r.code@ == code@,
        r.message@ == message@,
{
    ClientEventRejection { media_time_us, code: code.to_owned(), message: string_of(&message) }
}

/// Checks a parsed client event against the connection: its session, the
/// protocol version, that a client may send it and on which stream, and
/// then the client's timeline (which records it when it passes).
pub fn check_client_event(session_id: u128, timeline: &mut ClientTimeline, event: &EventEnvelope) -> (r: Result<(), ClientEventRejection>)
    requires
        old(timeline).wf(),
    ensures
        final(timeline).wf(),
        match envelope_refusal(session_id, *event) {
            Some((code, message)) => *final(timeline) == *old(timeline) && (r matches Err(x) && x.code@ == code
                && x.message@ == message && x.media_time_us == event.media_time_us),
            None => {
                let t = old(timeline).stream_time(event.stream_id@);
                let ok = event.sequence > old(timeline).last_sequence() && (t matches Some(m) ==> event.media_time_us >= m);
                &&& (r is Ok <==> ok)
                &&& ok ==> final(timeline).last_sequence() == event.sequence && final(timeline).stream_time(event.stream_id@)
                    == Some(event.media_time_us) && forall|s: Seq<char>| s != event.stream_id@ ==> final(timeline).stream_time(s)
                    == old(timeline).stream_time(s)
                &&& !ok ==> *final(timeline) == *old(timeline) && (r matches Err(x) && x.code@ == "invalid_client_timeline"@
                    && x.media_time_us == event.media_time_us && x.message@ == if event.sequence <= old(timeline).last_sequence() {
                    "client sequence must increase"@
                } else {
                    "client media time must not move backward within a stream"@
                })
            },
        },
{
    if event.session_id != session_id {
        let mut m: Vec<char> = Vec::new();
        extend_str(&mut m, "event session_id does not match this connection");
        return Err(rejection(event.media_time_us, "session_mismatch", m));
    }
    let version = chars_of(event.protocol_version.as_str());
    if !chars_eq(&version, &chars_of(PROTOCOL_VERSION)) {
        let mut m: Vec<char> = Vec::new();
        extend_str(&mut m, "expected protocol ");
        extend_str(&mut m, PROTOCOL_VERSION);
        extend_str(&mut m, ", received ");
        extend_chars(&mut m, &version);
        return Err(rejection(event.media_time_us, "protocol_version_mismatch", m));
    }
    let expected = match client_stream_id(&event.event) {
        Some(x) => x,
        None => {
            let mut m: Vec<char> = Vec::new();
            extend_str(&mut m, "this event type cannot be sent by a client");
            return Err(rejection(event.media_time_us, "unsupported_client_event", m));
        },
    };
    if !chars_eq(&chars_of(event.stream_id.as_str()), &chars_of(expected)) {
        let mut m: Vec<char> = Vec::new();
        extend_str(&mut m, "expected stream_id ");
        extend_str(&mut m, expected);
        return Err(rejection(event.media_time_us, "invalid_client_stream", m));
    }
    match timeline.observe(event.sequence, event.stream_id.as_str(), event.media_time_us) {
        Ok(()) => Ok(()),
        Err(message) => {
            let mut m: Vec<char> = Vec::new();
            extend_str(&mut m, message);
            Err(rejection(event.media_time_us, "invalid_client_timeline", m))
        },
    }
}

/// What a transcript reads of one recorded event: its sequence and id, its
/// `type`, and the payload's `text` and `is_final` where they are a string
/// and a boolean.
#[derive(Debug, Clone)]
pub struct TranscriptRow {
    pub sequence: u64,
    pub event_id: String,
    pub event_type: String,
    pub text: Option<String>,
    pub is_final: Option<bool>,
}

/// One turn of a transcript.
#[derive(Debug, Clone, PartialEq, Eq)]
pub struct TranscriptTurn {
    /// `user` or `assistant`.
    pub role: String,
    pub text: String,
    pub sequence: u64,
    pub event_id: String,
}

/// A turn as plain values: role, text, sequence and event id.
pub open spec fn turn_view(t: TranscriptTurn) -> (Seq<char>, Seq<char>, u64, Seq<char>) {
    (t.role@, t.text@, t.sequence, t.event_id@)
}

/// The turn a row gives: the assistant's final text, or a user transcript
/// marked final; nothing for any other row or one without text.
pub open spec fn row_turn(r: TranscriptRow) -> Option<(Seq<char>, Seq<char>, u64, Seq<char>)> {
    match r.text {
        Some(t) => if r.event_type@ == "output_text_final"@ {
            Some(("assistant"@, t@, r.sequence, r.event_id@))
        } else if r.event_type@ == "user_transcript_delta"@ && r.is_final == Some(true) {
            Some(("user"@, t@, r.sequence, r.event_id@))
        } else {
            None
        },
        None => None,
    }
}

/// The turns of the rows, in order.
pub open spec fn transcript_of(rows: Seq<TranscriptRow>) -> Seq<(Seq<char>, Seq<char>, u64, Seq<char>)>
    decreases rows.len(),
{
    if rows.len() == 0 {
        Seq::empty()
    } else {
        match row_turn(rows.last()) {
            Some(t) => transcript_of(rows.drop_last()).push(t),
            None => transcript_of(rows.drop_last()),
        }
    }
}

/// The conversation a session recorded: assistant final texts and final
/// user transcripts, in event order.
pub fn transcript_turns(rows: &Vec<TranscriptRow>) -> (r: Vec<TranscriptTurn>)
    ensures
        r@.map_values(|t: TranscriptTurn| turn_view(t)) == transcript_of(rows@),
{
    let mut out: Vec<TranscriptTurn> = Vec::new();
    let mut i: usize = 0;
    while i < rows.len()
        invariant
            i <= rows@.len(),
            out@.map_values(|t: TranscriptTurn| turn_view(t)) == transcript_of(rows@.take(i as int)),
        decreases rows@.len() - i,
    {
        let row = &rows[i];
        assert(rows@.take(i + 1).drop_last() =~= rows@.take(i as int));
        assert(rows@.take(i + 1).last() == rows@[i as int]);
        let ty = chars_of(row.event_type.as_str());
        let role: Option<&str> = if chars_eq(&ty, &chars_of("output_text_final")) {
            Some("assistant")
        } else if chars_eq(&ty, &chars_of("user_transcript_delta")) && row.is_final == Some(true) {
            Some("user")
        } else {
            None
        };
        match (&row.text, role) {
            (Some(t), Some(role)) => {
                let turn = TranscriptTurn {
                    role: role.to_owned(),
                    text: t.clone(),
                    sequence: row.sequence,
                    event_id: row.event_id.clone(),
                };
                let ghost before = out@;
                out.push(turn);
                assert(out@.map_values(|t: TranscriptTurn| turn_view(t)) =~= before.map_values(
                    |t: TranscriptTurn| turn_view(t),
                ).push(turn_view(turn)));
            },
            _ => {},
        }
        i = i + 1;
    }
    assert(rows@.take(rows@.len() as int) =~= rows@);
    out
}

/// A task announced over HTTP rather than on a live session.
#[derive(Debug, Clone, PartialEq, Eq)]
pub struct TaskHint {
    /// The intent, trimmed.
    pub intent: String,
    pub deadline_ms: u64,
}

/// The deadline of a hint given none: `now` plus the default deadline (at
/// least one second), saturating.
pub open spec fn hint_deadline(now: u64, default_deadline_ms: u64) -> u64 {
    let d = if default_deadline_ms < 1000 { 1000 } else { default_deadline_ms as int };
    if now + d > u64::MAX { u64::MAX } else { (now + d) as u64 }
}

/// Accepts a task hint: refused when the trimmed intent is empty; the
/// deadline is the one given, else [`hint_deadline`].
pub fn task_hint(intent: &str, deadline_ms: Option<u64>, now: u64, default_deadline_ms: u64) -> (r: Result<TaskHint, String>)
    ensures
        r is Ok <==> trim(intent@).len() > 0,
        r matches Err(e) ==> e@ == "intent is required"@,
        r matches Ok(h) ==> h.intent@ == trim(intent@) && h.deadline_ms == match deadline_ms {
            Some(d) => d,
            None => hint_deadline(now, default_deadline_ms),
        },
{
    let t = trim_chars(&chars_of(intent));
    if t.len() == 0 {
        return Err("intent is required".to_owned());
    }
    let deadline = match deadline_ms {
        Some(d) => d,
        None => {
            let d = if default_deadline_ms < 1000 {
                1000
            } else {
                default_deadline_ms
            };
            now.saturating_add(d)
        },
    };
    Ok(TaskHint { intent: string_of(&t), deadline_ms: deadline })
}

} // verus!
