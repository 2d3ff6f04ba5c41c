//! Per-session bookkeeping of the realtime gateway: telemetry throttling,
//! client timeline validation, assistant playout tracking, interruption
//! repair context and per-generation latency marks.

use crate::protocol::{LatencyMark, LatencyPhase, ProviderLifecycleState, RealtimeEvent};
use crate::text::{chars_eq, chars_of, decimal, decimal_chars, extend_chars, extend_str, string_of};
use vstd::prelude::*;

verus! {

broadcast use vstd::seq_lib::group_seq_properties;

/// Minimum media-time spacing between two routine telemetry publications.
pub const TELEMETRY_INTERVAL_US: u64 = 100_000;

/// Throttles routine telemetry to one publication per 100 ms of media time.
#[derive(Debug, Default)]
pub struct TelemetryGate {
    pub last_media_time_us: Option<u64>,
}

/// A routine update is due: nothing was published yet, or at least
/// 100 ms of media time passed since the last publication.
pub open spec fn telemetry_due(last: Option<u64>, media_time_us: u64) -> bool {
    match last {
        None => true,
        Some(l) => media_time_us >= l && media_time_us - l >= TELEMETRY_INTERVAL_US,
    }
}

impl TelemetryGate {
    /// Whether to publish telemetry at `media_time_us`; forced events always pass.
    pub fn should_publish(&mut self, media_time_us: u64, force: bool) -> (publish: bool)
        ensures
            publish == (force || telemetry_due(old(self).last_media_time_us, media_time_us)),
            final(self).last_media_time_us == if publish {
                Some(media_time_us)
            } else {
                old(self).last_media_time_us
            },
    {
        let due = match self.last_media_time_us {
            None => true,
            Some(last) => media_time_us >= last && media_time_us - last >= TELEMETRY_INTERVAL_US,
        };
        if force || due {
            self.last_media_time_us = Some(media_time_us);
            true
        } else {
            false
        }
    }
}

/// Validates the client's event timeline: sequence numbers strictly
/// increase across all streams, and media time never moves backward within
/// a stream.
#[derive(Debug)]
pub struct ClientTimeline {
    last_sequence: u64,
    stream_media_times: Vec<(String, u64)>,
}

pub open spec fn streams_view(v: Seq<(String, u64)>) -> Seq<(Seq<char>, u64)> {
    v.map_values(|p: (String, u64)| (p.0@, p.1))
}

/// Last media time recorded for a stream.
pub open spec fn stream_time(s: Seq<(Seq<char>, u64)>, stream: Seq<char>) -> Option<u64> {
    if exists|i: int| 0 <= i < s.len() && s[i].0 == stream {
        Some(s[choose|i: int| 0 <= i < s.len() && s[i].0 == stream].1)
    } else {
        None
    }
}

pub open spec fn streams_distinct(s: Seq<(Seq<char>, u64)>) -> bool {
    forall|i: int, j: int| 0 <= i < j < s.len() ==> s[i].0 != s[j].0
}

impl ClientTimeline {
    pub closed spec fn last_sequence(&self) -> u64 {
        self.last_sequence
    }

    pub closed spec fn stream_time(&self, stream: Seq<char>) -> Option<u64> {
        stream_time(streams_view(self.stream_media_times@), stream)
    }

    pub closed spec fn wf(&self) -> bool {
        streams_distinct(streams_view(self.stream_media_times@))
    }

    pub fn new() -> (t: Self)
        ensures
            t.wf(),
            t.last_sequence() == 0,
            forall|s: Seq<char>| t.stream_time(s) is None,
    {
        ClientTimeline { last_sequence: 0, stream_media_times: Vec::new() }
    }

    /// Accepts an event at `sequence` on `stream_id` at `media_time_us`, or
    /// names the timeline rule it breaks (then nothing changes).
    pub fn observe(&mut self, sequence: u64, stream_id: &str, media_time_us: u64) -> (r: Result<(), &'static str>)
        requires
            old(self).wf(),
        ensures
            final(self).wf(),
            match r {
                Ok(()) => {
                    &&& sequence > old(self).last_sequence()
                    &&& (old(self).stream_time(stream_id@) matches Some(t) ==> media_time_us >= t)
                    &&& final(self).last_sequence() == sequence
                    &&& final(self).stream_time(stream_id@) == Some(media_time_us)
                    &&& forall|s: Seq<char>| s != stream_id@ ==> final(self).stream_time(s) == old(self).stream_time(s)
                },
                Err(e) => {
                    &&& *final(self) == *old(self)
                    &&& if sequence <= old(self).last_sequence() {
                        e@ == "client sequence must increase"@
                    } else {
                        &&& old(self).stream_time(stream_id@) matches Some(t)
                        &&& media_time_us < t
                        &&& e@ == "client media time must not move backward within a stream"@
                    }
                },
            },
    {
        if sequence <= self.last_sequence {
            return Err("client sequence must increase");
        }
        let key = chars_of(stream_id);
        let ghost sv = streams_view(self.stream_media_times@);
        let mut i: usize = 0;
        let mut found: Option<usize> = None;
        while i < self.stream_media_times.len()
            invariant
                i <= self.stream_media_times@.len(),
                sv == streams_view(self.stream_media_times@),
                key@ == stream_id@,
                found is None ==> forall|j: int| 0 <= j < i ==> sv[j].0 != stream_id@,
                found matches Some(f) ==> f < sv.len() && sv[f as int].0 == stream_id@,
            decreases self.stream_media_times@.len() - i,
        {
            if found.is_none() {
                let k = chars_of(self.stream_media_times[i].0.as_str());
                if chars_eq(&k, &key) {
                    found = Some(i);
                }
            }
            i = i + 1;
        }
        proof {
            if let Some(f) = found {
                let c = choose|j: int| 0 <= j < sv.len() && sv[j].0 == stream_id@;
                assert(c == f as int) by {
                    if c != f as int {
                        if c < f as int {
                        } else {
                        }
                    }
                }
            }
        }
        match found {
            Some(f) => {
                if media_time_us < self.stream_media_times[f].1 {
                    return Err("client media time must not move backward within a stream");
                }
                let name = self.stream_media_times[f].0.clone();
                self.stream_media_times.set(f, (name, media_time_us));
                proof {
                    let nv = streams_view(self.stream_media_times@);
                    assert(nv =~= sv.update(f as int, (stream_id@, media_time_us)));
                    assert forall|s: Seq<char>| s != stream_id@ implies stream_time(nv, s) == stream_time(sv, s) by {
                        if exists|j: int| 0 <= j < sv.len() && sv[j].0 == s {
                            let c = choose|j: int| 0 <= j < sv.len() && sv[j].0 == s;
                            assert(nv[c].0 == s);
                            let d = choose|j: int| 0 <= j < nv.len() && nv[j].0 == s;
                            assert(sv[d].0 == s);
                            assert(c == d) by {
                                if c != d {
                                    if c < d {
                                    } else {
                                    }
                                }
                            }
                        } else {
                            if exists|j: int| 0 <= j < nv.len() && nv[j].0 == s {
                                let d = choose|j: int| 0 <= j < nv.len() && nv[j].0 == s;
                                assert(sv[d].0 == s);
                            }
                        }
                    }
                    assert(nv[f as int].0 == stream_id@);
                    let d = choose|j: int| 0 <= j < nv.len() && nv[j].0 == stream_id@;
                    assert(d == f as int) by {
                        if d != f as int {
                            assert(sv[d].0 == stream_id@);
                            if d < f as int {
                            } else {
                            }
                        }
                    }
                }
            },
            None => {
                self.stream_media_times.push((stream_id.to_owned(), media_time_us));
                proof {
                    let nv = streams_view(self.stream_media_times@);
                    assert(nv =~= sv.push((stream_id@, media_time_us)));
                    assert forall|s: Seq<char>| s != stream_id@ implies stream_time(nv, s) == stream_time(sv, s) by {
                        if exists|j: int| 0 <= j < sv.len() && sv[j].0 == s {
                            let c = choose|j: int| 0 <= j < sv.len() && sv[j].0 == s;
                            assert(nv[c].0 == s);
                            let d = choose|j: int| 0 <= j < nv.len() && nv[j].0 == s;
                            assert(d < sv.len());
                            assert(sv[d].0 == s);
                            assert(c == d) by {
                                if c != d {
                                    if c < d {
                                    } else {
                                    }
                                }
                            }
                        } else {
                            if exists|j: int| 0 <= j < nv.len() && nv[j].0 == s {
                                let d = choose|j: int| 0 <= j < nv.len() && nv[j].0 == s;
                                assert(d < sv.len());
                                assert(sv[d].0 == s);
                            }
                        }
                    }
                    assert(nv[sv.len() as int].0 == stream_id@);
                    let d = choose|j: int| 0 <= j < nv.len() && nv[j].0 == stream_id@;
                    assert(d == sv.len() as int) by {
                        if d < sv.len() {
                            assert(sv[d].0 == stream_id@);
                        }
                    }
                }
            },
        }
        self.last_sequence = sequence;
        Ok(())
    }
}

impl Default for ClientTimeline {
    fn default() -> (t: Self)
        ensures
            t.wf(),
            t.last_sequence() == 0,
            forall|s: Seq<char>| t.stream_time(s) is None,
    {
        ClientTimeline::new()
    }
}

/// Tracks how far assistant audio has been sent and acknowledged as played.
#[derive(Debug, Default)]
pub struct PlayoutTracker {
    pub last_sent_media_time_us: u64,
    pub last_played_media_time_us: u64,
}

impl PlayoutTracker {
    /// Records that audio up to `media_time_us` was sent.
    pub fn sent(&mut self, media_time_us: u64)
        ensures
            final(self).last_sent_media_time_us == if media_time_us > old(self).last_sent_media_time_us {
                media_time_us
            } else {
                old(self).last_sent_media_time_us
            },
            final(self).last_played_media_time_us == old(self).last_played_media_time_us,
    {
        if media_time_us > self.last_sent_media_time_us {
            self.last_sent_media_time_us = media_time_us;
        }
    }

    /// Records that the client played audio up to `media_time_us`.
    pub fn played(&mut self, media_time_us: u64)
        ensures
            final(self).last_played_media_time_us == if media_time_us > old(self).last_played_media_time_us {
                media_time_us
            } else {
                old(self).last_played_media_time_us
            },
            final(self).last_sent_media_time_us == old(self).last_sent_media_time_us,
    {
        if media_time_us > self.last_played_media_time_us {
            self.last_played_media_time_us = media_time_us;
        }
    }

    /// Assistant audio is still playing: more was sent than acknowledged.
    pub fn is_active(&self) -> (active: bool)
        ensures
            active == (self.last_sent_media_time_us > self.last_played_media_time_us),
    {
        self.last_sent_media_time_us > self.last_played_media_time_us
    }

    /// Treats everything sent as played (playout was cut).
    pub fn cancel(&mut self)
        ensures
            final(self).last_played_media_time_us == old(self).last_sent_media_time_us,
            final(self).last_sent_media_time_us == old(self).last_sent_media_time_us,
    {
        self.last_played_media_time_us = self.last_sent_media_time_us;
    }
}

/// The hexadecimal digit for a nibble value below 16.
pub open spec fn hex_digit(n: u128) -> char {
    if n < 10 {
        (('0' as u32) + n) as char
    } else {
        (('a' as u32) + n - 10) as char
    }
}

/// The `k`-th hexadecimal digit (from the most significant) of a 128-bit id.
pub open spec fn id_nibble(x: u128, k: int) -> u128 {
    (x >> ((4 * (31 - k)) as u128)) & 0xfu128
}

/// The hyphenated lowercase text of a UUID (8-4-4-4-12 hexadecimal digits,
/// most significant first).
pub open spec fn uuid_text(x: u128) -> Seq<char> {
    Seq::new(
        36,
        |p: int|
            if p == 8 || p == 13 || p == 18 || p == 23 {
                '-'
            } else {
                hex_digit(
                    id_nibble(
                        x,
                        p - (if p < 8 {
                            0int
                        } else if p < 13 {
                            1int
                        } else if p < 18 {
                            2int
                        } else if p < 23 {
                            3int
                        } else {
                            4int
                        }),
                    ),
                )
            },
    )
}

/// `Uuid::from_u128(id).to_string()`: the hyphenated lowercase form.
#[verifier::external_body]
pub(crate) fn uuid_string(id: u128) -> (s: String)
    ensures
        s@ == uuid_text(id),
{
    uuid::Uuid::from_u128(id).to_string()
}

/// Remembers the latest barge-in so the next response can acknowledge it once.
#[derive(Debug, Default)]
pub struct RepairContext {
    pub interrupted_generation_id: Option<u128>,
    pub interrupted_at_us: u64,
}

pub open spec fn repair_prompt(generation_id: u128, at_us: u64) -> Seq<char> {
    "The user interrupted assistant generation "@ + uuid_text(generation_id) + " at media time "@
        + decimal(at_us as nat)
        + " us. Treat the new user turn as higher priority, avoid repeating the interrupted answer, briefly acknowledge any correction if useful, and answer the new intent directly."@
}

impl RepairContext {
    /// Records that `generation_id` was interrupted at `media_time_us`.
    pub fn record_interruption(&mut self, generation_id: u128, media_time_us: u64)
        ensures
            final(self).interrupted_generation_id == Some(generation_id),
            final(self).interrupted_at_us == media_time_us,
    {
        self.interrupted_generation_id = Some(generation_id);
        self.interrupted_at_us = media_time_us;
    }

    /// The repair instruction for the next response, consumed on read: empty
    /// when no interruption is pending.
    pub fn take_prompt(&mut self) -> (prompt: String)
        ensures
            final(self).interrupted_generation_id is None,
            final(self).interrupted_at_us == old(self).interrupted_at_us,
            prompt@ == match old(self).interrupted_generation_id {
                Some(g) => repair_prompt(g, old(self).interrupted_at_us),
                None => Seq::empty(),
            },
    {
        let generation_id = match self.interrupted_generation_id {
            Some(g) => g,
            None => return String::new(),
        };
        self.interrupted_generation_id = None;
        let mut v: Vec<char> = Vec::new();
        extend_str(&mut v, "The user interrupted assistant generation ");
        let id = uuid_string(generation_id);
        extend_str(&mut v, id.as_str());
        extend_str(&mut v, " at media time ");
        let digits = decimal_chars(self.interrupted_at_us);
        extend_chars(&mut v, &digits);
        extend_str(
            &mut v,
            " us. Treat the new user turn as higher priority, avoid repeating the interrupted answer, briefly acknowledge any correction if useful, and answer the new intent directly.",
        );
        string_of(&v)
    }
}

#[verifier::external_type_specification]
#[verifier::external_body]
pub struct ExInstant(std::time::Instant);

/// `Instant::now()`; nothing is promised of the value.
#[verifier::external_body]
pub(crate) fn instant_now() -> std::time::Instant {
    std::time::Instant::now()
}

/// Microseconds elapsed since `start` (`u64::MAX` past its range); the value
/// depends on the clock, so nothing is promised of it.
#[verifier::external_body]
pub(crate) fn micros_since(start: &std::time::Instant) -> u64 {
    u64::try_from(start.elapsed().as_micros()).unwrap_or(u64::MAX)
}

/// Latency milestones of one assistant generation.
#[derive(Debug)]
pub struct LatencyTracker {
    started_at: std::time::Instant,
    first_provider_event: bool,
    first_text_delta: bool,
    first_audio_frame: bool,
}

pub open spec fn phases_of(marks: Seq<LatencyMark>) -> Seq<LatencyPhase> {
    marks.map_values(|m: LatencyMark| m.phase)
}

pub open spec fn is_text_delta(event: RealtimeEvent) -> bool {
    event is OutputTextDelta
}

pub open spec fn is_provider_complete(event: RealtimeEvent) -> bool {
    event matches RealtimeEvent::ProviderState(s) && s.state == ProviderLifecycleState::Complete
}

/// Milestones reached by a provider event, in order.
pub open spec fn event_phases(seen_provider: bool, seen_text: bool, event: RealtimeEvent) -> Seq<LatencyPhase> {
    (if !seen_provider {
        seq![LatencyPhase::FirstProviderEvent]
    } else {
        Seq::empty()
    }) + (if is_text_delta(event) && !seen_text {
        seq![LatencyPhase::FirstTextDelta]
    } else {
        Seq::empty()
    }) + (if is_provider_complete(event) {
        seq![LatencyPhase::ProviderComplete]
    } else {
        Seq::empty()
    })
}

/// Milestones reached by an audio frame, in order.
pub open spec fn audio_phases(seen_provider: bool, seen_audio: bool) -> Seq<LatencyPhase> {
    (if !seen_provider {
        seq![LatencyPhase::FirstProviderEvent]
    } else {
        Seq::empty()
    }) + (if !seen_audio {
        seq![LatencyPhase::FirstAudioFrame]
    } else {
        Seq::empty()
    })
}

impl LatencyTracker {
    /// Whether some provider event or audio frame has been observed.
    pub closed spec fn saw_provider_event(self) -> bool {
        self.first_provider_event
    }

    /// Whether a text delta has been observed.
    pub closed spec fn saw_text_delta(self) -> bool {
        self.first_text_delta
    }

    /// Whether an audio frame has been observed.
    pub closed spec fn saw_audio_frame(self) -> bool {
        self.first_audio_frame
    }

    /// A tracker started now with no milestone reached.
    pub fn new() -> (t: Self)
        ensures
            !t.saw_provider_event() && !t.saw_text_delta() && !t.saw_audio_frame(),
    {
        LatencyTracker {
            started_at: instant_now(),
            first_provider_event: false,
            first_text_delta: false,
            first_audio_frame: false,
        }
    }

    /// A mark for `phase` stamped with the time elapsed since the start.
    pub fn mark(&self, phase: LatencyPhase) -> (m: LatencyMark)
        ensures
            m.phase == phase,
    {
        LatencyMark { phase, elapsed_us: micros_since(&self.started_at) }
    }

    /// Marks for the milestones a provider event reaches; each "first" is reported once.
    pub fn observe(&mut self, event: &RealtimeEvent) -> (marks: Vec<LatencyMark>)
        ensures
            phases_of(marks@) == event_phases(old(self).saw_provider_event(), old(self).saw_text_delta(), *event),
            final(self).saw_provider_event(),
            final(self).saw_text_delta() == (old(self).saw_text_delta() || is_text_delta(*event)),
            final(self).saw_audio_frame() == old(self).saw_audio_frame(),
    {
        let mut marks: Vec<LatencyMark> = Vec::new();
        let ghost p0 = self.first_provider_event;
        let ghost t0 = self.first_text_delta;
        if !self.first_provider_event {
            self.first_provider_event = true;
            marks.push(self.mark(LatencyPhase::FirstProviderEvent));
        }
        let is_delta = match event {
            RealtimeEvent::OutputTextDelta(_) => true,
            _ => false,
        };
        if is_delta && !self.first_text_delta {
            self.first_text_delta = true;
            marks.push(self.mark(LatencyPhase::FirstTextDelta));
        }
        let complete = match event {
            RealtimeEvent::ProviderState(s) => s.state == ProviderLifecycleState::Complete,
            _ => false,
        };
        if complete {
            marks.push(self.mark(LatencyPhase::ProviderComplete));
        }
        assert(phases_of(marks@) =~= event_phases(p0, t0, *event));
        marks
    }

    /// Marks for the milestones an audio frame reaches.
    pub fn observe_audio(&mut self) -> (marks: Vec<LatencyMark>)
        ensures
            phases_of(marks@) == audio_phases(old(self).saw_provider_event(), old(self).saw_audio_frame()),
            final(self).saw_provider_event(),
            final(self).saw_audio_frame(),
            final(self).saw_text_delta() == old(self).saw_text_delta(),
    {
        let mut marks: Vec<LatencyMark> = Vec::new();
        let ghost p0 = self.first_provider_event;
        let ghost a0 = self.first_audio_frame;
        if !self.first_provider_event {
            self.first_provider_event = true;
            marks.push(self.mark(LatencyPhase::FirstProviderEvent));
        }
        if !self.first_audio_frame {
            self.first_audio_frame = true;
            marks.push(self.mark(LatencyPhase::FirstAudioFrame));
        }
        assert(phases_of(marks@) =~= audio_phases(p0, a0));
        marks
    }
}

} // verus!
