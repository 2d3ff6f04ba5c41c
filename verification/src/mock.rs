//! The offline conversational provider's decisions: its voice presets,
//! which prompts get only an acknowledgement, how a reply is streamed as
//! events, how long a voice preview runs, and the PCM byte layout.

use vstd::prelude::*;
use crate::knowledge::{is_alphanumeric, unicode_alphanumeric};
use crate::protocol::{OutputTextFinal, ProviderLifecycleState, ProviderState, RealtimeEvent};
use crate::text::{
    chars_eq, chars_of, contains, contains_str, eq_any, eq_str, extend_chars,
    extend_str, is_whitespace, is_ws, join_spaced, join_with_spaces, lower, slice_chars,
    split_whitespace, string_of, to_lower, trim, trim_chars, utf8_len, utf8_len_capped, views_of,
    words,
};

verus! {

broadcast use vstd::seq_lib::group_seq_properties;

/// The built-in voice ids and their display names.
pub open spec fn voice_presets() -> Seq<(Seq<char>, Seq<char>)> {
    seq![
        ("en_US-lessac-medium"@, "Lessac"@),
        ("en_US-amy-medium"@, "Amy"@),
        ("en_US-ryan-high"@, "Ryan"@),
        ("en_US-joe-medium"@, "Joe"@),
        ("en_US-kathleen-low"@, "Kathleen"@),
        ("en_GB-alba-medium"@, "Alba"@),
        ("alloy"@, "Alloy"@),
        ("aria"@, "Aria"@),
        ("cove"@, "Cove"@),
        ("ember"@, "Ember"@),
        ("juniper"@, "Juniper"@),
        ("maple"@, "Maple"@),
    ]
}

/// The display name of the first preset with this id; the id itself otherwise.
pub open spec fn display_name_from(presets: Seq<(Seq<char>, Seq<char>)>, id: Seq<char>) -> Seq<char>
    decreases presets.len(),
{
    if presets.len() == 0 {
        id
    } else if presets[0].0 == id {
        presets[0].1
    } else {
        display_name_from(presets.drop_first(), id)
    }
}

/// The display name of a voice id (the id itself when unknown).
pub fn voice_display_name(id: &str) -> (r: String)
    ensures
        r@ == display_name_from(voice_presets(), id@),
{
    let ids: [&str; 12] = [
        "en_US-lessac-medium", "en_US-amy-medium", "en_US-ryan-high", "en_US-joe-medium",
        "en_US-kathleen-low", "en_GB-alba-medium", "alloy", "aria", "cove", "ember", "juniper",
        "maple",
    ];
    let names: [&str; 12] = [
        "Lessac", "Amy", "Ryan", "Joe", "Kathleen", "Alba", "Alloy", "Aria", "Cove", "Ember",
        "Juniper", "Maple",
    ];
    assert(forall|k: int| 0 <= k < 12 ==> (#[trigger] voice_presets()[k]).0 == ids@[k]@ && voice_presets()[k].1 == names@[k]@);
    let want = chars_of(id);
    let mut i: usize = 0;
    assert(voice_presets().skip(0) =~= voice_presets());
    while i < 12
        invariant
            i <= 12,
            want@ == id@,
            forall|k: int| 0 <= k < 12 ==> (#[trigger] voice_presets()[k]).0 == ids@[k]@ && voice_presets()[k].1 == names@[k]@,
            display_name_from(voice_presets(), id@) == display_name_from(voice_presets().skip(i as int), id@),
        decreases 12 - i,
    {
        assert(voice_presets().skip(i as int)[0] == voice_presets()[i as int]);
        assert(voice_presets().skip(i as int).drop_first() =~= voice_presets().skip(i + 1));
        let here = chars_of(ids[i]);
        if chars_eq(&here, &want) {
            return names[i].to_owned();
        }
        i = i + 1;
    }
    id.to_owned()
}

/// The base pitch of each preset voice, in Hz.
pub open spec fn voice_pitches() -> Seq<(Seq<char>, u32)> {
    seq![
        ("en_US-lessac-medium"@, 165u32),
        ("en_US-amy-medium"@, 195u32),
        ("en_US-ryan-high"@, 125u32),
        ("en_US-joe-medium"@, 140u32),
        ("en_US-kathleen-low"@, 175u32),
        ("en_GB-alba-medium"@, 185u32),
        ("alloy"@, 155u32),
        ("aria"@, 200u32),
        ("cove"@, 118u32),
        ("ember"@, 150u32),
        ("juniper"@, 190u32),
        ("maple"@, 160u32),
    ]
}

/// The pitch of the first preset with this id; 165 Hz otherwise.
pub open spec fn pitch_from(presets: Seq<(Seq<char>, u32)>, id: Seq<char>) -> u32
    decreases presets.len(),
{
    if presets.len() == 0 {
        165
    } else if presets[0].0 == id {
        presets[0].1
    } else {
        pitch_from(presets.drop_first(), id)
    }
}

/// The base pitch of a voice in Hz (165 Hz when unknown).
pub fn voice_f0(id: &str) -> (r: u32)
    ensures
        r == pitch_from(voice_pitches(), id@),
{
    let ids: [&str; 12] = [
        "en_US-lessac-medium", "en_US-amy-medium", "en_US-ryan-high", "en_US-joe-medium",
        "en_US-kathleen-low", "en_GB-alba-medium", "alloy", "aria", "cove", "ember", "juniper",
        "maple",
    ];
    let pitches: [u32; 12] = [165, 195, 125, 140, 175, 185, 155, 200, 118, 150, 190, 160];
    assert(forall|k: int| 0 <= k < 12 ==> (#[trigger] voice_pitches()[k]).0 == ids@[k]@ && voice_pitches()[k].1 == pitches@[k]);
    let want = chars_of(id);
    let mut i: usize = 0;
    assert(voice_pitches().skip(0) =~= voice_pitches());
    while i < 12
        invariant
            i <= 12,
            want@ == id@,
            forall|k: int| 0 <= k < 12 ==> (#[trigger] voice_pitches()[k]).0 == ids@[k]@ && voice_pitches()[k].1 == pitches@[k],
            pitch_from(voice_pitches(), id@) == pitch_from(voice_pitches().skip(i as int), id@),
        decreases 12 - i,
    {
        assert(voice_pitches().skip(i as int)[0] == voice_pitches()[i as int]);
        assert(voice_pitches().skip(i as int).drop_first() =~= voice_pitches().skip(i + 1));
        let here = chars_of(ids[i]);
        if chars_eq(&here, &want) {
            return pitches[i];
        }
        i = i + 1;
    }
    165
}

/// A built-in formant voice: its id, display name and base pitch in Hz.
#[derive(Debug, Clone)]
pub struct VoicePreset {
    pub id: String,
    pub name: String,
    pub f0: u32,
}

/// The built-in formant voices, in the order they are offered.
pub fn voice_preset_list() -> (r: Vec<VoicePreset>)
    ensures
        r@.map_values(|p: VoicePreset| (p.id@, p.name@)) == voice_presets(),
        r@.map_values(|p: VoicePreset| (p.id@, p.f0)) == voice_pitches(),
{
    let mut v: Vec<VoicePreset> = Vec::new();
    v.push(VoicePreset { id: "en_US-lessac-medium".to_owned(), name: "Lessac".to_owned(), f0: 165 });
    v.push(VoicePreset { id: "en_US-amy-medium".to_owned(), name: "Amy".to_owned(), f0: 195 });
    v.push(VoicePreset { id: "en_US-ryan-high".to_owned(), name: "Ryan".to_owned(), f0: 125 });
    v.push(VoicePreset { id: "en_US-joe-medium".to_owned(), name: "Joe".to_owned(), f0: 140 });
    v.push(VoicePreset { id: "en_US-kathleen-low".to_owned(), name: "Kathleen".to_owned(), f0: 175 });
    v.push(VoicePreset { id: "en_GB-alba-medium".to_owned(), name: "Alba".to_owned(), f0: 185 });
    v.push(VoicePreset { id: "alloy".to_owned(), name: "Alloy".to_owned(), f0: 155 });
    v.push(VoicePreset { id: "aria".to_owned(), name: "Aria".to_owned(), f0: 200 });
    v.push(VoicePreset { id: "cove".to_owned(), name: "Cove".to_owned(), f0: 118 });
    v.push(VoicePreset { id: "ember".to_owned(), name: "Ember".to_owned(), f0: 150 });
    v.push(VoicePreset { id: "juniper".to_owned(), name: "Juniper".to_owned(), f0: 190 });
    v.push(VoicePreset { id: "maple".to_owned(), name: "Maple".to_owned(), f0: 160 });
    assert(v@.map_values(|p: VoicePreset| (p.id@, p.name@)) =~= voice_presets());
    assert(v@.map_values(|p: VoicePreset| (p.id@, p.f0)) =~= voice_pitches());
    v
}

/// One synthesized phone: three formant frequencies in Hz, whether it is
/// voiced, and how long it lasts.
#[derive(Debug, Clone, Copy, PartialEq, Eq)]
pub struct PhoneUnit {
    pub f1: u32,
    pub f2: u32,
    pub f3: u32,
    pub voiced: bool,
    pub duration_ms: u32,
}

/// A phone from its parts.
pub open spec fn phone(f1: u32, f2: u32, f3: u32, voiced: bool, duration_ms: u32) -> PhoneUnit {
    PhoneUnit { f1, f2, f3, voiced, duration_ms }
}

/// The letter `c` in either case.
pub open spec fn is_letter(c: char, lower: char) -> bool {
    c == lower || c == ((lower as u32 - 32) as char)
}

/// The phone a character is spoken as: a pause for whitespace, a short
/// unvoiced burst for what is not an ASCII letter, else the letter's
/// vowel, nasal, liquid, glide, fricative or stop shape.
pub open spec fn phone_of(c: char) -> PhoneUnit {
    if is_ws(c) {
        phone(500, 1500, 2500, false, 50)
    } else if !(('a' <= c && c <= 'z') || ('A' <= c && c <= 'Z')) {
        phone(400, 1200, 2400, false, 40)
    } else if is_letter(c, 'a') {
        phone(800, 1200, 2500, true, 95)
    } else if is_letter(c, 'e') {
        phone(500, 1800, 2500, true, 85)
    } else if is_letter(c, 'i') {
        phone(300, 2300, 3000, true, 80)
    } else if is_letter(c, 'o') {
        phone(500, 900, 2400, true, 95)
    } else if is_letter(c, 'u') {
        phone(350, 800, 2200, true, 90)
    } else if is_letter(c, 'y') {
        phone(350, 2100, 2800, true, 75)
    } else if is_letter(c, 'm') || is_letter(c, 'n') {
        phone(300, 1200, 2200, true, 70)
    } else if is_letter(c, 'l') || is_letter(c, 'r') {
        phone(400, 1400, 2500, true, 65)
    } else if is_letter(c, 'w') {
        phone(350, 700, 2200, true, 70)
    } else if is_letter(c, 's') || is_letter(c, 'f') || is_letter(c, 'h') || is_letter(c, 'x') || is_letter(c, 'z') {
        phone(500, 4000, 5000, false, 55)
    } else if is_letter(c, 'p') || is_letter(c, 't') || is_letter(c, 'k') || is_letter(c, 'b') || is_letter(c, 'd') || is_letter(c, 'g') {
        phone(400, 1500, 2500, false, 45)
    } else {
        phone(500, 1500, 2500, true, 70)
    }
}

/// The phones of a text, one per character; a single neutral vowel for an
/// empty text.
pub open spec fn phones_of(text: Seq<char>) -> Seq<PhoneUnit> {
    if text.len() == 0 {
        seq![phone(500, 1500, 2500, true, 200)]
    } else {
        text.map_values(|c: char| phone_of(c))
    }
}

fn either(c: char, lower: char) -> (r: bool)
    requires
        'a' <= lower <= 'z',
    ensures
        r == is_letter(c, lower),
{
    let upper = ((lower as u32) - 32) as u8 as char;
    c == lower || c == upper
}

fn phone_of_char(c: char) -> (r: PhoneUnit)
    ensures
        r == phone_of(c),
{
    if is_whitespace(c) {
        PhoneUnit { f1: 500, f2: 1500, f3: 2500, voiced: false, duration_ms: 50 }
    } else if !(('a' <= c && c <= 'z') || ('A' <= c && c <= 'Z')) {
        PhoneUnit { f1: 400, f2: 1200, f3: 2400, voiced: false, duration_ms: 40 }
    } else if either(c, 'a') {
        PhoneUnit { f1: 800, f2: 1200, f3: 2500, voiced: true, duration_ms: 95 }
    } else if either(c, 'e') {
        PhoneUnit { f1: 500, f2: 1800, f3: 2500, voiced: true, duration_ms: 85 }
    } else if either(c, 'i') {
        PhoneUnit { f1: 300, f2: 2300, f3: 3000, voiced: true, duration_ms: 80 }
    } else if either(c, 'o') {
        PhoneUnit { f1: 500, f2: 900, f3: 2400, voiced: true, duration_ms: 95 }
    } else if either(c, 'u') {
        PhoneUnit { f1: 350, f2: 800, f3: 2200, voiced: true, duration_ms: 90 }
    } else if either(c, 'y') {
        PhoneUnit { f1: 350, f2: 2100, f3: 2800, voiced: true, duration_ms: 75 }
    } else if either(c, 'm') || either(c, 'n') {
        PhoneUnit { f1: 300, f2: 1200, f3: 2200, voiced: true, duration_ms: 70 }
    } else if either(c, 'l') || either(c, 'r') {
        PhoneUnit { f1: 400, f2: 1400, f3: 2500, voiced: true, duration_ms: 65 }
    } else if either(c, 'w') {
        PhoneUnit { f1: 350, f2: 700, f3: 2200, voiced: true, duration_ms: 70 }
    } else if either(c, 's') || either(c, 'f') || either(c, 'h') || either(c, 'x') || either(c, 'z') {
        PhoneUnit { f1: 500, f2: 4000, f3: 5000, voiced: false, duration_ms: 55 }
    } else if either(c, 'p') || either(c, 't') || either(c, 'k') || either(c, 'b') || either(c, 'd') || either(c, 'g') {
        PhoneUnit { f1: 400, f2: 1500, f3: 2500, voiced: false, duration_ms: 45 }
    } else {
        PhoneUnit { f1: 500, f2: 1500, f3: 2500, voiced: true, duration_ms: 70 }
    }
}

/// The phones a text is synthesized from.
pub fn text_to_phone_units(text: &str) -> (r: Vec<PhoneUnit>)
    ensures
        r@ == phones_of(text@),
{
    let cs = chars_of(text);
    let mut units: Vec<PhoneUnit> = Vec::new();
    let mut i: usize = 0;
    while i < cs.len()
        invariant
            i <= cs@.len(),
            cs@ == text@,
            units@ == cs@.take(i as int).map_values(|c: char| phone_of(c)),
        decreases cs@.len() - i,
    {
        units.push(phone_of_char(cs[i]));
        i = i + 1;
        assert(units@ =~= cs@.take(i as int).map_values(|c: char| phone_of(c)));
    }
    assert(cs@.take(i as int) =~= cs@);
    if units.len() == 0 {
        units.push(PhoneUnit { f1: 500, f2: 1500, f3: 2500, voiced: true, duration_ms: 200 });
        assert(units@ =~= seq![phone(500, 1500, 2500, true, 200)]);
    }
    units
}

/// Little-endian bytes of 16-bit samples.
pub open spec fn le_bytes(samples: Seq<i16>) -> Seq<u8> {
    Seq::new(
        2 * samples.len(),
        |i: int|
            if i % 2 == 0 {
                ((samples[i / 2] as u16) % 256) as u8
            } else {
                ((samples[i / 2] as u16) / 256) as u8
            },
    )
}

proof fn lemma_le_split(u: u16)
    by (bit_vector)
    ensures
        (u & 0xff) as u8 == (u % 256) as u8,
        (u >> 8) as u8 == (u / 256) as u8,
{
}

/// PCM samples as little-endian 16-bit bytes.
pub fn pcm_i16_to_le_bytes(samples: &[i16]) -> (r: Vec<u8>)
    ensures
        r@ == le_bytes(samples@),
{
    let mut r: Vec<u8> = Vec::new();
    let mut i: usize = 0;
    while i < samples.len()
        invariant
            i <= samples@.len(),
            r@ == le_bytes(samples@.take(i as int)),
        decreases samples@.len() - i,
    {
        let u = samples[i] as u16;
        proof {
            lemma_le_split(u);
        }
        r.push((u & 0xff) as u8);
        r.push((u >> 8) as u8);
        i = i + 1;
        assert(r@ =~= le_bytes(samples@.take(i as int)));
    }
    assert(samples@.take(i as int) =~= samples@);
    r
}

/// Characters stripped from both ends of a prompt before filler detection:
/// neither alphanumeric nor whitespace.
pub open spec fn is_edge_mark(c: char) -> bool {
    !unicode_alphanumeric(c) && !is_ws(c)
}

pub open spec fn strip_front_marks(s: Seq<char>) -> Seq<char>
    decreases s.len(),
{
    if s.len() > 0 && is_edge_mark(s[0]) {
        strip_front_marks(s.drop_first())
    } else {
        s
    }
}

pub open spec fn strip_back_marks(s: Seq<char>) -> Seq<char>
    decreases s.len(),
{
    if s.len() > 0 && is_edge_mark(s.last()) {
        strip_back_marks(s.drop_last())
    } else {
        s
    }
}

/// Spoken fillers that carry no request.
pub open spec fn filler_words() -> Seq<Seq<char>> {
    seq![
        "um"@, "uh"@, "uhm"@, "erm"@, "er"@, "ah"@, "eh"@, "hmm"@, "hm"@, "mm"@, "mmm"@, "mhm"@,
        "mhmm"@, "uh-huh"@, "like"@, "so"@, "yeah"@, "yep"@, "okay"@, "ok"@,
    ]
}

/// The words that are not fillers, in order.
pub open spec fn non_fillers(ws: Seq<Seq<char>>) -> Seq<Seq<char>>
    decreases ws.len(),
{
    if ws.len() == 0 {
        Seq::empty()
    } else if filler_words().contains(ws.last()) {
        non_fillers(ws.drop_last())
    } else {
        non_fillers(ws.drop_last()).push(ws.last())
    }
}

/// A prompt is only filler: nothing but marks, or under two bytes once
/// fillers are removed (trimmed, ASCII case ignored).
pub open spec fn filler_only(prompt: Seq<char>) -> bool {
    let t = strip_back_marks(strip_front_marks(lower(trim(prompt))));
    t.len() == 0 || utf8_len(join_spaced(non_fillers(words(t)))) < 2
}

fn strip_marks(v: &Vec<char>) -> (r: Vec<char>)
    ensures
        r@ == strip_back_marks(strip_front_marks(v@)),
{
    let mut a: usize = 0;
    assert(v@.skip(0) =~= v@);
    while a < v.len() && !is_alphanumeric(v[a]) && !is_whitespace(v[a])
        invariant
            a <= v@.len(),
            strip_front_marks(v@) == strip_front_marks(v@.skip(a as int)),
        decreases v@.len() - a,
    {
        assert(v@.skip(a as int)[0] == v@[a as int]);
        assert(v@.skip(a as int).drop_first() =~= v@.skip(a + 1));
        a = a + 1;
    }
    let front = slice_chars(v, a, v.len());
    assert(front@ =~= v@.skip(a as int));
    let mut b: usize = front.len();
    assert(front@.take(b as int) =~= front@);
    while b > 0 && !is_alphanumeric(front[b - 1]) && !is_whitespace(front[b - 1])
        invariant
            b <= front@.len(),
            strip_back_marks(front@) == strip_back_marks(front@.take(b as int)),
        decreases b,
    {
        assert(front@.take(b as int).drop_last() =~= front@.take(b - 1));
        b = b - 1;
    }
    let r = slice_chars(&front, 0, b);
    assert(r@ =~= front@.take(b as int));
    r
}

/// Whether a prompt is only filler ("um", "yeah", …).
pub fn is_filler_only(prompt: &str) -> (r: bool)
    ensures
        r == filler_only(prompt@),
{
    let t = strip_marks(&to_lower(&trim_chars(&chars_of(prompt))));
    if t.len() == 0 {
        return true;
    }
    let ws = split_whitespace(&t);
    let fillers: [&str; 20] = [
        "um", "uh", "uhm", "erm", "er", "ah", "eh", "hmm", "hm", "mm", "mmm", "mhm", "mhmm",
        "uh-huh", "like", "so", "yeah", "yep", "okay", "ok",
    ];
    assert(views_of(fillers@) =~= filler_words());
    let ghost wv = words(t@);
    let mut kept: Vec<Vec<char>> = Vec::new();
    let mut i: usize = 0;
    assert(wv.take(0) =~= Seq::<Seq<char>>::empty());
    while i < ws.len()
        invariant
            i <= ws@.len(),
            ws@.len() == wv.len(),
            wv == words(t@),
            forall|k: int| 0 <= k < ws@.len() ==> #[trigger] ws@[k]@ == wv[k],
            views_of(fillers@) == filler_words(),
            kept@.map_values(|p: Vec<char>| p@) == non_fillers(wv.take(i as int)),
        decreases ws@.len() - i,
    {
        assert(wv.take(i + 1).drop_last() =~= wv.take(i as int));
        assert(wv.take(i + 1).last() == ws@[i as int]@);
        if !eq_any(&ws[i], &fillers) {
            let ghost before = kept@.map_values(|p: Vec<char>| p@);
            let w = slice_chars(&ws[i], 0, ws[i].len());
            assert(w@ =~= ws@[i as int]@);
            kept.push(w);
            assert(kept@.map_values(|p: Vec<char>| p@) =~= before.push(w@));
        }
        i = i + 1;
    }
    assert(wv.take(i as int) =~= wv);
    let joined = join_with_spaces(&kept);
    utf8_len_capped(&joined, 2) < 2
}

/// A prompt that is empty or the gateway's synthetic end-of-turn notice.
pub open spec fn bogus_prompt(prompt: Seq<char>) -> bool {
    let t = lower(trim(prompt));
    t.len() == 0 || contains(t, "openlive detected a completed speech turn"@) || t
        == "openlive detected a completed speech turn."@
}

/// Whether a prompt is empty or synthetic.
pub fn is_bogus_prompt(prompt: &str) -> (r: bool)
    ensures
        r == bogus_prompt(prompt@),
{
    let t = to_lower(&trim_chars(&chars_of(prompt)));
    t.len() == 0 || contains_str(&t, "openlive detected a completed speech turn") || eq_str(
        &t,
        "openlive detected a completed speech turn.",
    )
}

/// How the offline provider opens a turn.
#[derive(Debug, Clone, Copy, PartialEq, Eq, Structural)]
pub enum MockOpening {
    /// Filler only: a soft acknowledgement, no model call.
    Acknowledge,
    /// Empty or synthetic: generating, then complete, with no text.
    Ignore,
    /// A real request: craft and stream a reply.
    Reply,
}

/// Which opening a prompt gets.
pub fn mock_opening(prompt: &str) -> (r: MockOpening)
    ensures
        r == if filler_only(prompt@) {
            MockOpening::Acknowledge
        } else if bogus_prompt(prompt@) {
            MockOpening::Ignore
        } else {
            MockOpening::Reply
        },
{
    if is_filler_only(prompt) {
        MockOpening::Acknowledge
    } else if is_bogus_prompt(prompt) {
        MockOpening::Ignore
    } else {
        MockOpening::Reply
    }
}

/// The streamed text of a reply: one delta per word (a space before all
/// but the first), each at 8 ms per word of media offset.
pub open spec fn reply_deltas(ws: Seq<Seq<char>>) -> Seq<(u64, Seq<char>)> {
    Seq::new(
        ws.len(),
        |i: int| ((i * 8_000) as u64, if i == 0 { ws[i] } else { " "@ + ws[i] }),
    )
}

/// The text deltas of a reply with their media offsets.
pub fn reply_text_deltas(response: &str) -> (r: Vec<(u64, String)>)
    requires
        words(response@).len() * 8_000 <= u64::MAX,
    ensures
        r@.map_values(|d: (u64, String)| (d.0, d.1@)) == reply_deltas(words(response@)),
{
    let ws = split_whitespace(&chars_of(response));
    let ghost wv = words(response@);
    let mut r: Vec<(u64, String)> = Vec::new();
    let mut i: usize = 0;
    while i < ws.len()
        invariant
            i <= ws@.len(),
            ws@.len() == wv.len(),
            wv == words(response@),
            wv.len() * 8_000 <= u64::MAX,
            forall|k: int| 0 <= k < ws@.len() ==> #[trigger] ws@[k]@ == wv[k],
            r@.map_values(|d: (u64, String)| (d.0, d.1@)) == reply_deltas(wv).take(i as int),
        decreases ws@.len() - i,
    {
        let mut text: Vec<char> = Vec::new();
        if i > 0 {
            extend_str(&mut text, " ");
        }
        extend_chars(&mut text, &ws[i]);
        let offset = (i as u64) * 8_000;
        let ghost before = r@.map_values(|d: (u64, String)| (d.0, d.1@));
        let d = (offset, string_of(&text));
        r.push(d);
        assert(r@.map_values(|d: (u64, String)| (d.0, d.1@)) =~= before.push((offset, text@)));
        i = i + 1;
        assert(r@.map_values(|d: (u64, String)| (d.0, d.1@)) =~= reply_deltas(wv).take(i as int));
    }
    assert(reply_deltas(wv).take(i as int) =~= reply_deltas(wv));
    r
}

/// The closing events of a reply: its full text, then completion.
pub fn reply_closing_events(response: &str) -> (r: (RealtimeEvent, RealtimeEvent))
    ensures
        r.0 matches RealtimeEvent::OutputTextFinal(f) && f.text@ == response@,
        r.1 == RealtimeEvent::ProviderState(ProviderState { state: ProviderLifecycleState::Complete }),
{
    (
        RealtimeEvent::OutputTextFinal(OutputTextFinal { text: response.to_owned() }),
        RealtimeEvent::ProviderState(ProviderState { state: ProviderLifecycleState::Complete }),
    )
}

/// How long a voice preview runs: its text, the samples per 20 ms frame and
/// the number of frames.
pub struct PreviewPlan {
    pub text: String,
    pub samples_per_frame: usize,
    pub frame_count: u64,
}

/// The preview text: the given text, or a sentence naming the voice.
pub open spec fn preview_text(voice_id: Seq<char>, text: Seq<char>) -> Seq<char> {
    if trim(text).len() == 0 {
        "This is the "@ + display_name_from(voice_presets(), voice_id) + " voice."@
    } else {
        text
    }
}

/// Frames of a preview: 70 ms per character (at least 8 characters), from
/// half a second to 3.5 s, at least twelve 20 ms frames.
pub open spec fn preview_frames(chars: nat) -> int {
    let c = if chars < 8 { 8 } else { chars as int };
    let ms = if c * 70 < 500 { 500 } else if c * 70 > 3_500 { 3_500 } else { c * 70 };
    if ms / 20 < 12 { 12 } else { ms / 20 }
}

/// The plan of a voice preview (24 kHz when no rate is given).
pub fn preview_plan(voice_id: &str, text: &str, sample_rate: u32) -> (p: PreviewPlan)
    ensures
        p.text@ == preview_text(voice_id@, text@),
        p.samples_per_frame == (if sample_rate == 0 { 24_000 } else { sample_rate as int }) * 20 / 1000,
        p.frame_count == preview_frames(preview_text(voice_id@, text@).len()),
{
    let rate: u64 = if sample_rate == 0 {
        24_000
    } else {
        sample_rate as u64
    };
    let samples_per_frame = (rate * 20 / 1_000) as usize;
    let speak = if trim_chars(&chars_of(text)).len() == 0 {
        let mut v: Vec<char> = Vec::new();
        extend_str(&mut v, "This is the ");
        let name = voice_display_name(voice_id);
        extend_str(&mut v, name.as_str());
        extend_str(&mut v, " voice.");
        string_of(&v)
    } else {
        text.to_owned()
    };
    let n = chars_of(speak.as_str()).len();
    let c: u64 = if n < 8 {
        8
    } else if n > 1_000 {
        1_000
    } else {
        n as u64
    };
    let raw = c * 70;
    let ms: u64 = if raw < 500 {
        500
    } else if raw > 3_500 {
        3_500
    } else {
        raw
    };
    let frames = if ms / 20 < 12 {
        12
    } else {
        ms / 20
    };
    PreviewPlan { text: speak, samples_per_frame, frame_count: frames }
}

} // verus!
