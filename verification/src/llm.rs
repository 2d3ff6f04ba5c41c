//! The OpenAI-compatible chat client's decisions: settings and when a chat
//! may be attempted, endpoint URLs, what is sent to the model, and which
//! part of a completion is the answer a person may hear.

use vstd::prelude::*;
use crate::catalog::{find_provider, preset_with_id};
use crate::text::{
    chars_of, copy_opt, collapse_whitespace, decimal, decimal_chars, collapse_ws, contains, contains_str, ends_with,
    ends_with_chars, extend_chars, extend_str, lower, replace_all, replace_chars, string_of,
    to_lower, trim, trim_chars, trim_end_chars, trim_end_set, utf8_len, utf8_len_capped, views_of,
    opt_chars, slice_chars, utf8_len_exact, first_occurrence, eq_any, eq_str, join_spaced, join_with_spaces,
    split_whitespace, words,
};

verus! {

broadcast use vstd::seq_lib::group_seq_properties;

/// Why a chat call failed.
#[derive(Debug, Clone)]
pub enum LlmError {
    /// The HTTP exchange failed; `status` is the response status when one arrived.
    Http { status: Option<u16>, message: String },
    /// Upstream model API returned a non-success HTTP status (or invalid body).
    Rejected { status: u16, body: String },
    Config(String),
}

/// The message shown for a chat error.
pub open spec fn llm_error_text(e: LlmError) -> Seq<char> {
    match e {
        LlmError::Http { message, .. } => "llm http: "@ + message@,
        LlmError::Rejected { status, body } => "llm rejected ("@ + decimal(status as nat) + "): "@ + body@,
        LlmError::Config(m) => "llm config: "@ + m@,
    }
}

impl LlmError {
    /// HTTP status when the upstream model rejected the call (0 for transport/config).
    pub fn status_code(&self) -> (s: u16)
        ensures
            s == match self {
                LlmError::Rejected { status, .. } => *status,
                LlmError::Http { status, .. } => match status {
                    Some(v) => *v,
                    None => 0,
                },
                LlmError::Config(_) => 0,
            },
    {
        match self {
            LlmError::Rejected { status, .. } => *status,
            LlmError::Http { status, .. } => match status {
                Some(v) => *v,
                None => 0,
            },
            LlmError::Config(_) => 0,
        }
    }

    /// The human-readable message.
    pub fn message(&self) -> (m: String)
        ensures
            m@ == llm_error_text(*self),
    {
        let mut v: Vec<char> = Vec::new();
        match self {
            LlmError::Http { message, .. } => {
                extend_str(&mut v, "llm http: ");
                extend_str(&mut v, message.as_str());
            },
            LlmError::Rejected { status, body } => {
                extend_str(&mut v, "llm rejected (");
                let digits = decimal_chars(*status as u64);
                extend_chars(&mut v, &digits);
                extend_str(&mut v, "): ");
                extend_str(&mut v, body.as_str());
            },
            LlmError::Config(m) => {
                extend_str(&mut v, "llm config: ");
                extend_str(&mut v, m.as_str());
            },
        }
        string_of(&v)
    }

    /// A rejection by the upstream model API.
    pub fn rejected(status: u16, body: String) -> (e: Self)
        ensures
            e == (LlmError::Rejected { status, body }),
    {
        LlmError::Rejected { status, body }
    }
}

/// Which model the chat client talks to, and how.
#[derive(Debug, Clone)]
pub struct LlmSettings {
    pub provider_id: String,
    pub base_url: String,
    pub api_key: Option<String>,
    pub model: String,
    pub system_prompt: String,
}

/// The default voice-reply instruction.
pub open spec fn default_system_prompt() -> Seq<char> {
    "You are OpenLive, a voice assistant. Answer the user in 1-2 short spoken sentences. Only the final answer — never plan, never think aloud, never mention tools, prompts, or reasoning. Plain text only."@
}

impl Default for LlmSettings {
    /// NVIDIA free-tier defaults; works once the user pastes a key.
    fn default() -> (s: Self)
        ensures
            s.provider_id@ == "nvidia"@,
            s.base_url@ == "https://integrate.api.nvidia.com/v1"@,
            s.api_key is None,
            s.model@ == "meta/llama-3.1-8b-instruct"@,
            s.system_prompt@ == default_system_prompt(),
    {
        LlmSettings {
            provider_id: "nvidia".to_owned(),
            base_url: "https://integrate.api.nvidia.com/v1".to_owned(),
            api_key: None,
            model: "meta/llama-3.1-8b-instruct".to_owned(),
            system_prompt: "You are OpenLive, a voice assistant. Answer the user in 1-2 short spoken sentences. Only the final answer — never plan, never think aloud, never mention tools, prompts, or reasoning. Plain text only.".to_owned(),
        }
    }
}

/// A base URL and a model are set.
pub open spec fn is_configured(base_url: Seq<char>, model: Seq<char>) -> bool {
    trim(base_url).len() > 0 && trim(model).len() > 0
}

/// A chat call may be attempted: configured, and a key is set or the
/// endpoint is local (Ollama, 127.0.0.1, localhost).
pub open spec fn may_chat(s: LlmSettings) -> bool {
    &&& is_configured(s.base_url@, s.model@)
    &&& {
        ||| (s.api_key matches Some(k) && k@.len() > 0)
        ||| s.provider_id@ == "ollama"@
        ||| contains(s.base_url@, "127.0.0.1"@)
        ||| contains(s.base_url@, "localhost"@)
    }
}

impl LlmSettings {
    /// Defaults, switched to the catalog preset with this id (ASCII case
    /// ignored); an unknown id is kept as the provider id.
    pub fn from_provider_id(provider_id: &str) -> (s: Self)
        ensures
            s.api_key is None,
            s.system_prompt@ == default_system_prompt(),
            match preset_with_id(provider_id@) {
                Some(p) => s.provider_id@ == p.id && s.base_url@ == p.base_url && s.model@
                    == p.default_model,
                None => s.provider_id@ == provider_id@ && s.base_url@
                    == "https://integrate.api.nvidia.com/v1"@ && s.model@
                    == "meta/llama-3.1-8b-instruct"@,
            },
    {
        let mut s = LlmSettings::default();
        match find_provider(provider_id) {
            Some(p) => {
                s.provider_id = p.id;
                s.base_url = p.base_url;
                s.model = p.default_model;
            },
            None => {
                s.provider_id = provider_id.to_owned();
            },
        }
        s
    }

    /// A base URL and a model are set (after trimming).
    pub fn configured(&self) -> (r: bool)
        ensures
            r == is_configured(self.base_url@, self.model@),
    {
        trim_chars(&chars_of(self.base_url.as_str())).len() > 0 && trim_chars(
            &chars_of(self.model.as_str()),
        ).len() > 0
    }

    /// True when a live chat call may be attempted (key optional for local endpoints).
    pub fn can_chat(&self) -> (r: bool)
        ensures
            r == may_chat(*self),
    {
        if !self.configured() {
            return false;
        }
        let has_key = match &self.api_key {
            Some(k) => !k.as_str().is_empty(),
            None => false,
        };
        let base = chars_of(self.base_url.as_str());
        has_key || eq_string(&self.provider_id, "ollama") || contains_str(&base, "127.0.0.1")
            || contains_str(&base, "localhost")
    }
}

/// A settings change as submitted: each field is optional.
#[derive(Debug, Clone, Default)]
pub struct LlmUpdate {
    pub provider_id: Option<String>,
    pub base_url: Option<String>,
    pub model: Option<String>,
    pub api_key: Option<String>,
    pub system_prompt: Option<String>,
}

/// A non-empty value of an optional field.
pub open spec fn given(o: Option<String>) -> Option<Seq<char>> {
    match o {
        Some(v) => if v@.len() > 0 {
            Some(v@)
        } else {
            None
        },
        None => None,
    }
}

/// The update names a provider other than the current one.
pub open spec fn switches_provider(s: LlmSettings, u: LlmUpdate) -> bool {
    given(u.provider_id) matches Some(p) && p != s.provider_id@
}

/// The provider id, endpoint and model a provider id selects.
pub open spec fn provider_defaults(id: Seq<char>) -> (Seq<char>, Seq<char>, Seq<char>) {
    match preset_with_id(id) {
        Some(p) => (p.id, p.base_url, p.default_model),
        None => (id, "https://integrate.api.nvidia.com/v1"@, "meta/llama-3.1-8b-instruct"@),
    }
}

/// Settings after an update: a new provider resets endpoint, model and
/// prompt to that provider's (keeping the key); then each non-empty field
/// given replaces its value, and a given key (empty clears it) replaces the key.
pub open spec fn updated_settings_ok(s: LlmSettings, u: LlmUpdate, r: LlmSettings) -> bool {
    let sw = switches_provider(s, u);
    let d = provider_defaults(given(u.provider_id).unwrap());
    &&& r.provider_id@ == if sw { d.0 } else { s.provider_id@ }
    &&& r.base_url@ == match given(u.base_url) {
        Some(b) => b,
        None => if sw { d.1 } else { s.base_url@ },
    }
    &&& r.model@ == match given(u.model) {
        Some(m) => m,
        None => if sw { d.2 } else { s.model@ },
    }
    &&& opt_chars(r.api_key) == match u.api_key {
        Some(k) => given(Some(k)),
        None => opt_chars(s.api_key),
    }
    &&& r.system_prompt@ == match given(u.system_prompt) {
        Some(p) => p,
        None => if sw { default_system_prompt() } else { s.system_prompt@ },
    }
}

fn nonempty(o: &Option<String>) -> (r: Option<&String>)
    ensures
        match r {
            Some(v) => given(*o) == Some(v@),
            None => given(*o) is None,
        },
{
    match o {
        Some(v) => if v.as_str().is_empty() {
            None
        } else {
            Some(v)
        },
        None => None,
    }
}

/// Applies a submitted settings change.
pub fn apply_llm_update(s: LlmSettings, u: LlmUpdate) -> (r: LlmSettings)
    ensures
        updated_settings_ok(s, u, r),
{
    let mut r = s;
    match nonempty(&u.provider_id) {
        Some(pid) => {
            if !eq_string(pid, r.provider_id.as_str()) {
                let key = r.api_key.clone();
                r = LlmSettings::from_provider_id(pid.as_str());
                r.api_key = key;
            }
        },
        None => {},
    }
    match nonempty(&u.base_url) {
        Some(b) => {
            r.base_url = b.clone();
        },
        None => {},
    }
    match nonempty(&u.model) {
        Some(m) => {
            r.model = m.clone();
        },
        None => {},
    }
    match &u.api_key {
        Some(k) => {
            r.api_key = if k.as_str().is_empty() {
                None
            } else {
                Some(k.clone())
            };
        },
        None => {},
    }
    match nonempty(&u.system_prompt) {
        Some(p) => {
            r.system_prompt = p.clone();
        },
        None => {},
    }
    r
}

fn eq_string(s: &String, lit: &str) -> (r: bool)
    ensures
        r == (s@ == lit@),
{
    let a = chars_of(s.as_str());
    crate::text::eq_str(&a, lit)
}

/// The chat completions endpoint for a base URL.
pub open spec fn chat_endpoint(base: Seq<char>) -> Seq<char> {
    let b = trim_end_set(base, seq!['/']);
    if ends_with(b, "/chat/completions"@) {
        b
    } else if ends_with(b, "/v1"@) {
        b + "/chat/completions"@
    } else {
        b + "/v1/chat/completions"@
    }
}

/// The chat completions URL: trailing slashes dropped, `/v1/chat/completions`
/// completed as needed.
pub fn chat_url(base: &str) -> (r: String)
    ensures
        r@ == chat_endpoint(base@),
{
    let slash: [char; 1] = ['/'];
    assert(slash@ =~= seq!['/']);
    let b = trim_end_chars(&chars_of(base), &slash);
    let mut out = slice_chars(&b, 0, b.len());
    assert(out@ =~= b@);
    let tail = chars_of("/chat/completions");
    let v1 = chars_of("/v1");
    if ends_with_chars(&b, &tail) {
    } else if ends_with_chars(&b, &v1) {
        extend_str(&mut out, "/chat/completions");
    } else {
        extend_str(&mut out, "/v1/chat/completions");
    }
    string_of(&out)
}

/// The model list endpoint for a base URL.
pub open spec fn models_endpoint(base: Seq<char>) -> Seq<char> {
    let b = trim_end_set(base, seq!['/']);
    if ends_with(b, "/v1"@) {
        b + "/models"@
    } else {
        b + "/v1/models"@
    }
}

/// The model list URL for a base URL.
pub fn models_url(base: &str) -> (r: String)
    ensures
        r@ == models_endpoint(base@),
{
    let slash: [char; 1] = ['/'];
    assert(slash@ =~= seq!['/']);
    let b = trim_end_chars(&chars_of(base), &slash);
    let mut out = slice_chars(&b, 0, b.len());
    assert(out@ =~= b@);
    let v1 = chars_of("/v1");
    if ends_with_chars(&b, &v1) {
        extend_str(&mut out, "/models");
    } else {
        extend_str(&mut out, "/v1/models");
    }
    string_of(&out)
}

/// Newlines turned into spaces.
pub open spec fn one_line(s: Seq<char>) -> Seq<char> {
    replace_all(s, seq!['\n'], seq![' '])
}

/// Whether `t` can be cut after `max` bytes (`max` is a character boundary).
pub open spec fn cuttable_at(t: Seq<char>, max: nat) -> bool {
    exists|k: int| 0 <= k <= t.len() && #[trigger] utf8_len(t.take(k)) == max
}

/// `s` on one line, cut after `max` bytes with an ellipsis when longer.
pub open spec fn truncated(s: Seq<char>, max: nat) -> Seq<char> {
    let t = one_line(s);
    if utf8_len(t) <= max {
        t
    } else {
        t.take(choose|k: int| 0 <= k <= t.len() && #[trigger] utf8_len(t.take(k)) == max) + "…"@
    }
}

proof fn lemma_utf8_take_strict(t: Seq<char>, a: int, b: int)
    requires
        0 <= a < b <= t.len(),
    ensures
        utf8_len(t.take(a)) < utf8_len(t.take(b)),
    decreases b - a,
{
    assert(t.take(b).drop_last() =~= t.take(b - 1));
    if a < b - 1 {
        lemma_utf8_take_strict(t, a, b - 1);
    }
}

/// One-line text cut after `max` bytes (with `…`); `max` must fall on a
/// character boundary when the text is longer, as slicing demands.
pub fn truncate(s: &str, max: usize) -> (r: String)
    requires
        utf8_len(one_line(s@)) <= max || cuttable_at(one_line(s@), max as nat),
    ensures
        r@ == truncated(s@, max as nat),
{
    let nl = chars_of("\n");
    let sp = chars_of(" ");
    proof {
        reveal_strlit("\n");
        reveal_strlit(" ");
        assert(nl@ =~= seq!['\n']);
        assert(sp@ =~= seq![' ']);
    }
    let t = replace_chars(&chars_of(s), &nl, &sp);
    if utf8_len_exact(&t) <= max as u128 {
        return string_of(&t);
    }
    let ghost target = choose|k: int| 0 <= k <= t@.len() && #[trigger] utf8_len(t@.take(k)) == max;
    let mut acc: usize = 0;
    let mut k: usize = 0;
    let tl: usize = t.len();
    assert(t@.take(0) =~= Seq::<char>::empty());
    while acc < max
        invariant
            tl == t@.len(),
            0 <= target <= t@.len(),
            utf8_len(t@.take(target)) == max,
            k <= target,
            acc == utf8_len(t@.take(k as int)),
        decreases target - k,
    {
        assert(k < target);
        let code: u32 = t[k] as u32;
        let w: usize = if code < 0x80 {
            1
        } else if code < 0x800 {
            2
        } else if code < 0x10000 {
            3
        } else {
            4
        };
        assert(t@.take(k + 1).drop_last() =~= t@.take(k as int));
        proof {
            if k + 1 < target {
                lemma_utf8_take_strict(t@, k + 1, target);
            }
        }
        acc = acc + w;
        k = k + 1;
    }
    proof {
        if k < target {
            lemma_utf8_take_strict(t@, k as int, target);
        }
    }
    let mut out = slice_chars(&t, 0, k);
    extend_str(&mut out, "…");
    string_of(&out)
}

/// Spoken filler words, each dropped where it stands as a word of its own.
pub open spec fn filler_words() -> Seq<Seq<char>> {
    seq![
        "uh-huh"@, "uhm"@, "erm"@, "mmm"@, "mhmm"@, "mhm"@, "hmm"@, "um"@, "uh"@, "er"@, "ah"@,
        "eh"@, "hm"@, "mm"@,
    ]
}

/// Spoken filler phrases of two words, dropped where both stand together.
pub open spec fn filler_pairs() -> Seq<(Seq<char>, Seq<char>)> {
    seq![
        ("you"@, "know"@),
        ("i"@, "mean"@),
        ("sort"@, "of"@),
        ("kind"@, "of"@),
        ("uh"@, "huh"@),
    ]
}

/// The words left once fillers are dropped, front to back: a filler pair
/// is dropped first, then a single filler word; other words are kept.
pub open spec fn drop_fillers(ws: Seq<Seq<char>>) -> Seq<Seq<char>>
    decreases ws.len(),
{
    if ws.len() == 0 {
        Seq::empty()
    } else if ws.len() >= 2 && filler_pairs().contains((ws[0], ws[1])) {
        drop_fillers(ws.skip(2))
    } else if filler_words().contains(ws[0]) {
        drop_fillers(ws.skip(1))
    } else {
        seq![ws[0]] + drop_fillers(ws.skip(1))
    }
}

/// A voice transcript without fillers: lowercased, split into words,
/// filler words and phrases dropped, the rest joined by single spaces.
pub open spec fn without_fillers(text: Seq<char>) -> Seq<char> {
    join_spaced(drop_fillers(words(lower(text))))
}

/// Strips spoken fillers so "um uh what's the weather" reaches the model clean.
pub fn strip_fillers_for_llm(text: &str) -> (r: String)
    ensures
        r@ == without_fillers(text@),
{
    let singles: [&str; 14] = [
        "uh-huh", "uhm", "erm", "mmm", "mhmm", "mhm", "hmm", "um", "uh", "er", "ah", "eh", "hm", "mm",
    ];
    let firsts: [&str; 5] = ["you", "i", "sort", "kind", "uh"];
    let seconds: [&str; 5] = ["know", "mean", "of", "of", "huh"];
    assert(views_of(singles@) =~= filler_words());
    assert(forall|k: int| 0 <= k < 5 ==> (#[trigger] filler_pairs()[k]) == (firsts@[k]@, seconds@[k]@));
    let ws = split_whitespace(&to_lower(&chars_of(text)));
    let ghost all = ws@.map_values(|w: Vec<char>| w@);
    assert(all =~= words(lower(text@)));
    let mut kept: Vec<Vec<char>> = Vec::new();
    let mut i: usize = 0;
    assert(all.skip(0) =~= all);
    while i < ws.len()
        invariant
            i <= ws@.len(),
            all == ws@.map_values(|w: Vec<char>| w@),
            views_of(singles@) == filler_words(),
            forall|k: int| 0 <= k < 5 ==> (#[trigger] filler_pairs()[k]) == (firsts@[k]@, seconds@[k]@),
            drop_fillers(all) == kept@.map_values(|w: Vec<char>| w@) + drop_fillers(all.skip(i as int)),
        decreases ws@.len() - i,
    {
        let ghost rest = all.skip(i as int);
        assert(rest[0] == ws@[i as int]@);
        let mut pair = false;
        if i + 1 < ws.len() {
            let j: usize = i + 1;
            let mut k: usize = 0;
            while k < 5
                invariant
                    k <= 5,
                    j == i + 1,
                    j < ws@.len(),
                    forall|m: int| 0 <= m < 5 ==> (#[trigger] filler_pairs()[m]) == (firsts@[m]@, seconds@[m]@),
                    pair == exists|m: int| 0 <= m < k && filler_pairs()[m] == (ws@[i as int]@, ws@[j as int]@),
                decreases 5 - k,
            {
                let hit = eq_str(&ws[i], firsts[k]) && eq_str(&ws[j], seconds[k]);
                proof {
                    assert(filler_pairs()[k as int] == (firsts@[k as int]@, seconds@[k as int]@));
                    if hit {
                        assert(filler_pairs()[k as int] == (ws@[i as int]@, ws@[j as int]@));
                    } else {
                        assert(filler_pairs()[k as int] != (ws@[i as int]@, ws@[j as int]@));
                    }
                }
                if hit {
                    pair = true;
                }
                k = k + 1;
            }
            assert(rest[1] == ws@[i + 1]@);
            assert(pair == filler_pairs().contains((rest[0], rest[1]))) by {
                if filler_pairs().contains((rest[0], rest[1])) {
                    let m = choose|m: int| 0 <= m < filler_pairs().len() && filler_pairs()[m] == (rest[0], rest[1]);
                    assert(filler_pairs()[m] == (ws@[i as int]@, ws@[i + 1]@));
                }
            }
        }
        if pair {
            assert(rest.skip(2) =~= all.skip(i + 2));
            i = i + 2;
        } else {
            let single = eq_any(&ws[i], &singles);
            assert(rest.skip(1) =~= all.skip(i + 1));
            if !single {
                let ghost before = kept@.map_values(|w: Vec<char>| w@);
                kept.push(ws[i].clone());
                assert(kept@.map_values(|w: Vec<char>| w@) =~= before.push(rest[0]));
                assert(before + drop_fillers(rest) =~= before.push(rest[0]) + drop_fillers(rest.skip(1)));
            }
            i = i + 1;
        }
    }
    assert(all.skip(i as int) =~= Seq::<Seq<char>>::empty());
    assert(kept@.map_values(|w: Vec<char>| w@) + Seq::<Seq<char>>::empty() =~= kept@.map_values(|w: Vec<char>| w@));
    string_of(&join_with_spaces(&kept))
}

/// `t` without the first `open`…`close` block (found ignoring ASCII case),
/// repeatedly; an unclosed block drops everything from its opening tag.
#[verifier::opaque]
pub open spec fn drop_blocks(t: Seq<char>, open: Seq<char>, close: Seq<char>) -> Seq<char>
    decreases t.len(),
{
    if open.len() == 0 {
        t
    } else {
        match first_occurrence(lower(t), open) {
            Some(start) => if 0 <= start && start + open.len() <= t.len() {
                let after = start + open.len();
                match first_occurrence(lower(t.skip(after)), close) {
                    Some(rel) => if 0 <= rel && rel + close.len() <= t.len() - after {
                        drop_blocks(t.take(start) + t.skip(after + rel + close.len()), open, close)
                    } else {
                        t.take(start)
                    },
                    None => t.take(start),
                }
            } else {
                t
            },
            None => t,
        }
    }
}

/// Private reasoning tags, opening and closing, in the order they are removed.
pub open spec fn thought_tags() -> Seq<(Seq<char>, Seq<char>)> {
    seq![
        ("<think>"@, "</think>"@),
        ("<thinking>"@, "</thinking>"@),
        ("<reasoning>"@, "</reasoning>"@),
        ("<reflection>"@, "</reflection>"@),
    ]
}

/// Every tagged block of the given kinds removed, kind by kind.
pub open spec fn drop_all_blocks(t: Seq<char>, tags: Seq<(Seq<char>, Seq<char>)>) -> Seq<char>
    decreases tags.len(),
{
    if tags.len() == 0 {
        t
    } else {
        drop_blocks(drop_all_blocks(t, tags.drop_last()), tags.last().0, tags.last().1)
    }
}

/// Preamble markers before the real answer, tried in this order.
pub open spec fn answer_markers() -> Seq<Seq<char>> {
    seq!["\nfinal answer:"@, "\nanswer:"@, "\nresponse:"@, "\nassistant:"@]
}

/// What follows the first of the markers that occurs (ASCII case ignored).
pub open spec fn after_marker(t: Seq<char>, markers: Seq<Seq<char>>) -> Seq<char>
    decreases markers.len(),
{
    if markers.len() == 0 {
        t
    } else {
        match first_occurrence(lower(t), markers[0]) {
            Some(i) => if 0 <= i && i + markers[0].len() <= t.len() {
                t.skip(i + markers[0].len())
            } else {
                t
            },
            None => after_marker(t, markers.drop_first()),
        }
    }
}

/// The answer for humans: thought blocks and preambles dropped, trimmed.
pub open spec fn public_answer(text: Seq<char>) -> Seq<char> {
    trim(after_marker(drop_all_blocks(text, thought_tags()), answer_markers()))
}

fn drop_blocks_chars(t: &Vec<char>, open: &str, close: &str) -> (r: Vec<char>)
    ensures
        r@ == drop_blocks(t@, open@, close@),
{
    let oc = chars_of(open);
    let cc = chars_of(close);
    let mut cur = slice_chars(t, 0, t.len());
    assert(cur@ =~= t@);
    if oc.len() == 0 {
        proof {
            reveal(drop_blocks);
        }
        return cur;
    }
    loop
        invariant
            oc@ == open@,
            cc@ == close@,
            oc@.len() > 0,
            drop_blocks(cur@, open@, close@) == drop_blocks(t@, open@, close@),
        decreases cur@.len(),
    {
        let low = to_lower(&cur);
        let cur_len: usize = cur.len();
        assert(low@.len() == cur@.len());
        match crate::text::find(&low, &oc) {
            Some(start) => {
                let after = start + oc.len();
                let rest = slice_chars(&cur, after, cur.len());
                let rest_low = to_lower(&rest);
                assert(rest_low@.len() == rest@.len());
                match crate::text::find(&rest_low, &cc) {
                    Some(rel) => {
                        let end = after + rel + cc.len();
                        let mut next = slice_chars(&cur, 0, start);
                        let tail = slice_chars(&cur, end, cur.len());
                        extend_chars(&mut next, &tail);
                        proof {
                            reveal(drop_blocks);
                            assert(rest@ =~= cur@.skip(after as int));
                            assert(tail@ =~= cur@.skip(after + rel + close@.len()));
                        }
                        cur = next;
                    },
                    None => {
                        proof {
                            reveal(drop_blocks);
                            assert(rest@ =~= cur@.skip(after as int));
                        }
                        return slice_chars(&cur, 0, start);
                    },
                }
            },
            None => {
                proof {
                    reveal(drop_blocks);
                }
                return cur;
            },
        }
    }
}

fn after_marker_chars(t: &Vec<char>) -> (r: Vec<char>)
    ensures
        r@ == after_marker(t@, answer_markers()),
{
    let markers: [&str; 4] = ["\nfinal answer:", "\nanswer:", "\nresponse:", "\nassistant:"];
    assert(views_of(markers@) =~= answer_markers());
    let low = to_lower(t);
    let t_len: usize = t.len();
    assert(low@.len() == t@.len());
    let mut i: usize = 0;
    while i < 4
        invariant
            i <= 4,
            low@ == lower(t@),
            low@.len() == t@.len(),
            t_len == t@.len(),
            views_of(markers@) == answer_markers(),
            after_marker(t@, answer_markers()) == after_marker(t@, answer_markers().skip(i as int)),
        decreases 4 - i,
    {
        let m = chars_of(markers[i]);
        assert(m@ == answer_markers()[i as int]);
        assert(answer_markers().skip(i as int)[0] == answer_markers()[i as int]);
        assert(answer_markers().skip(i as int).drop_first() =~= answer_markers().skip(i + 1));
        match crate::text::find(&low, &m) {
            Some(k) => {
                return slice_chars(t, k + m.len(), t.len());
            },
            None => {},
        }
        i = i + 1;
    }
    let r = slice_chars(t, 0, t.len());
    assert(r@ =~= t@);
    r
}

/// Drops private model thought blocks; keeps only the final answer for humans.
pub fn strip_internal_thinking(text: &str) -> (r: String)
    ensures
        r@ == public_answer(text@),
{
    let opens: [&str; 4] = ["<think>", "<thinking>", "<reasoning>", "<reflection>"];
    let closes: [&str; 4] = ["</think>", "</thinking>", "</reasoning>", "</reflection>"];
    let mut t = chars_of(text);
    let mut i: usize = 0;
    assert(thought_tags().take(0) =~= Seq::<(Seq<char>, Seq<char>)>::empty());
    while i < 4
        invariant
            i <= 4,
            t@ == drop_all_blocks(text@, thought_tags().take(i as int)),
            forall|k: int| 0 <= k < 4 ==> (#[trigger] opens@[k])@ == thought_tags()[k].0 && closes@[k]@ == thought_tags()[k].1,
        decreases 4 - i,
    {
        assert(thought_tags().take(i + 1).drop_last() =~= thought_tags().take(i as int));
        assert(thought_tags().take(i + 1).last() == thought_tags()[i as int]);
        assert(opens@[i as int]@ == thought_tags()[i as int].0);
        t = drop_blocks_chars(&t, opens[i], closes[i]);
        i = i + 1;
    }
    assert(thought_tags().take(4) =~= thought_tags());
    let cut = after_marker_chars(&t);
    string_of(&trim_chars(&cut))
}

/// One part of a multi-part message content.
#[derive(Debug, Clone)]
pub struct ContentPart {
    /// The part's `type` (empty when it has none).
    pub part_type: String,
    /// The part's `text` field, when it is a string.
    pub text: Option<String>,
    /// The part itself, when it is a plain string.
    pub as_text: Option<String>,
}

/// The shape of `choices[0].message.content`.
#[derive(Debug, Clone)]
pub enum MessageContent {
    Text(String),
    Parts(Vec<ContentPart>),
    Missing,
}

/// What a chat completion body holds in the places an answer may be.
#[derive(Debug, Clone)]
pub struct ChatReply {
    /// `choices[0].message.content`.
    pub content: MessageContent,
    /// The string values at `/choices/0/text`, `/choices/0/delta/content`,
    /// `/output_text`, `/response`, `/content`, `/text` and `/output`, in
    /// this order (`None` where absent or not a string).
    pub fallbacks: Vec<Option<String>>,
    /// `choices[0].message` when it is a string.
    pub message_text: Option<String>,
    /// `choices[0].message.refusal` when it is a string.
    pub refusal: Option<String>,
}

/// The parts' answer text, reasoning parts skipped.
pub open spec fn parts_text(parts: Seq<ContentPart>) -> Seq<char>
    decreases parts.len(),
{
    if parts.len() == 0 {
        Seq::empty()
    } else {
        let p = parts.last();
        let prev = parts_text(parts.drop_last());
        if contains(p.part_type@, "reason"@) || contains(p.part_type@, "think"@) {
            prev
        } else {
            match p.text {
                Some(t) => prev + t@,
                None => match p.as_text {
                    Some(t) => prev + t@,
                    None => prev,
                },
            }
        }
    }
}

/// The first fallback whose public answer is not empty.
pub open spec fn fallback_answer(fs: Seq<Option<String>>) -> Option<Seq<char>>
    decreases fs.len(),
{
    if fs.len() == 0 {
        None
    } else {
        match fs[0] {
            Some(c) => if public_answer(c@).len() > 0 {
                Some(public_answer(c@))
            } else {
                fallback_answer(fs.drop_first())
            },
            None => fallback_answer(fs.drop_first()),
        }
    }
}

/// The answer in the message content (empty when there is none).
pub open spec fn primary_answer(r: ChatReply) -> Seq<char> {
    match r.content {
        MessageContent::Text(c) => public_answer(c@),
        MessageContent::Parts(ps) => public_answer(parts_text(ps@)),
        MessageContent::Missing => Seq::empty(),
    }
}

/// The answer a person may hear from a completion: the message content,
/// else the fallbacks, else a string message, else the refusal; never the
/// model's private reasoning.
pub open spec fn reply_answer(r: ChatReply) -> Option<Seq<char>> {
    let primary = primary_answer(r);
    if primary.len() > 0 {
        Some(primary)
    } else {
        match fallback_answer(r.fallbacks@) {
            Some(a) => Some(a),
            None => {
                let m = match r.message_text {
                    Some(c) => public_answer(c@),
                    None => Seq::empty(),
                };
                if m.len() > 0 {
                    Some(m)
                } else {
                    match r.refusal {
                        Some(x) => if trim(x@).len() > 0 {
                            Some(trim(x@))
                        } else {
                            None
                        },
                        None => None,
                    }
                }
            },
        }
    }
}

fn parts_text_chars(parts: &Vec<ContentPart>) -> (r: Vec<char>)
    ensures
        r@ == parts_text(parts@),
{
    let mut out: Vec<char> = Vec::new();
    let mut i: usize = 0;
    while i < parts.len()
        invariant
            i <= parts@.len(),
            out@ == parts_text(parts@.take(i as int)),
        decreases parts@.len() - i,
    {
        assert(parts@.take(i + 1).drop_last() =~= parts@.take(i as int));
        assert(parts@.take(i + 1).last() == parts@[i as int]);
        let p = &parts[i];
        let kind = chars_of(p.part_type.as_str());
        if !(contains_str(&kind, "reason") || contains_str(&kind, "think")) {
            match &p.text {
                Some(t) => {
                    extend_str(&mut out, t.as_str());
                },
                None => match &p.as_text {
                    Some(t) => {
                        extend_str(&mut out, t.as_str());
                    },
                    None => {},
                },
            }
        }
        i = i + 1;
    }
    assert(parts@.take(i as int) =~= parts@);
    out
}

/// The user-facing answer of a chat completion, if it has one.
pub fn extract_content(reply: &ChatReply) -> (r: Option<String>)
    ensures
        opt_chars(r) == reply_answer(*reply),
{
    let primary = match &reply.content {
        MessageContent::Text(c) => strip_internal_thinking(c.as_str()),
        MessageContent::Parts(ps) => {
            let joined = string_of(&parts_text_chars(ps));
            strip_internal_thinking(joined.as_str())
        },
        MessageContent::Missing => String::new(),
    };
    if !primary.as_str().is_empty() {
        return Some(primary);
    }
    assert(primary_answer(*reply).len() == 0);
    let mut i: usize = 0;
    assert(reply.fallbacks@.skip(0) =~= reply.fallbacks@);
    while i < reply.fallbacks.len()
        invariant
            i <= reply.fallbacks@.len(),
            primary_answer(*reply).len() == 0,
            fallback_answer(reply.fallbacks@) == fallback_answer(reply.fallbacks@.skip(i as int)),
        decreases reply.fallbacks@.len() - i,
    {
        assert(reply.fallbacks@.skip(i as int)[0] == reply.fallbacks@[i as int]);
        assert(reply.fallbacks@.skip(i as int).drop_first() =~= reply.fallbacks@.skip(i + 1));
        match &reply.fallbacks[i] {
            Some(c) => {
                let t = strip_internal_thinking(c.as_str());
                if !t.as_str().is_empty() {
                    assert(fallback_answer(reply.fallbacks@.skip(i as int)) == Some(t@));
                    return Some(t);
                }
            },
            None => {},
        }
        i = i + 1;
    }
    match &reply.message_text {
        Some(c) => {
            let t = strip_internal_thinking(c.as_str());
            if !t.as_str().is_empty() {
                return Some(t);
            }
        },
        None => {},
    }
    match &reply.refusal {
        Some(x) => {
            let t = trim_chars(&chars_of(x.as_str()));
            if t.len() > 0 {
                Some(string_of(&t))
            } else {
                None
            }
        },
        None => None,
    }
}

/// One message of a chat conversation.
#[derive(Debug, Clone, PartialEq, Eq)]
pub struct ChatTurn {
    pub role: String,
    pub content: String,
}

/// Most messages of rolling dialogue kept for multi-turn voice.
pub const MAX_HISTORY_MESSAGES: usize = 12;

/// A message as plain text: role and content.
pub open spec fn turn_view(t: ChatTurn) -> (Seq<char>, Seq<char>) {
    (t.role@, t.content@)
}

/// The messages of a conversation as plain text.
pub open spec fn turns_view(h: Seq<ChatTurn>) -> Seq<(Seq<char>, Seq<char>)> {
    h.map_values(|t: ChatTurn| turn_view(t))
}

/// The latest `MAX_HISTORY_MESSAGES` messages.
pub open spec fn capped_history<A>(h: Seq<A>) -> Seq<A> {
    if h.len() > MAX_HISTORY_MESSAGES {
        h.skip(h.len() - MAX_HISTORY_MESSAGES)
    } else {
        h
    }
}

/// Appends a message and forgets the oldest beyond the cap.
#[verifier::rlimit(30)]
pub fn push_history(history: &mut Vec<ChatTurn>, role: &str, content: &str)
    ensures
        turns_view(final(history)@) == capped_history(turns_view(old(history)@).push((role@, content@))),
{
    let ghost before = turns_view(history@);
    history.push(ChatTurn { role: role.to_owned(), content: content.to_owned() });
    let ghost full = history@;
    let total: usize = history.len();
    assert(turns_view(full) =~= before.push((role@, content@)));
    let mut dropped: usize = 0;
    assert(full.skip(0) =~= full);
    while history.len() > MAX_HISTORY_MESSAGES
        invariant
            history@ == full.skip(dropped as int),
            dropped <= full.len(),
            total == full.len(),
            dropped > 0 ==> history@.len() >= MAX_HISTORY_MESSAGES,
        decreases history@.len(),
    {
        history.remove(0);
        dropped = dropped + 1;
        assert(history@ =~= full.skip(dropped as int));
    }
    assert(turns_view(history@) =~= capped_history(turns_view(full)));
}

/// The instruction for spoken replies.
pub open spec fn voice_system_prompt() -> Seq<char> {
    "You are OpenLive, a capable live voice assistant (similar fluidity to GPT voice mode). Reply in 1–3 short spoken sentences. Be warm, clear, and competent. Match the user's language (Chinese↔Chinese, English↔English). If they ask who you are: you are OpenLive, a local voice assistant that can chat, search, do math, and tell time. Never think aloud, never plan your reply, never mention tools or prompts. Just talk naturally."@
}

/// The conversation sent for one user turn: the instruction, the rolling
/// history, then the user's text.
pub open spec fn conversation(system: Seq<char>, history: Seq<ChatTurn>, user: Seq<char>) -> Seq<(Seq<char>, Seq<char>)> {
    seq![("system"@, system)] + turns_view(history) + seq![("user"@, user)]
}

fn build_conversation(system: &str, history: &Vec<ChatTurn>, user: &str) -> (m: Vec<ChatTurn>)
    ensures
        turns_view(m@) == conversation(system@, history@, user@),
{
    let mut m: Vec<ChatTurn> = Vec::new();
    m.push(ChatTurn { role: "system".to_owned(), content: system.to_owned() });
    let mut i: usize = 0;
    while i < history.len()
        invariant
            i <= history@.len(),
            turns_view(m@) == seq![("system"@, system@)] + turns_view(history@.take(i as int)),
        decreases history@.len() - i,
    {
        let t = ChatTurn { role: history[i].role.clone(), content: history[i].content.clone() };
        assert(turn_view(t) == turn_view(history@[i as int]));
        let ghost before = turns_view(m@);
        m.push(t);
        assert(turns_view(m@) =~= before.push(turn_view(t)));
        assert(turns_view(history@.take(i + 1)) =~= turns_view(history@.take(i as int)).push(
            turn_view(history@[i as int]),
        ));
        i = i + 1;
        assert(turns_view(m@) =~= seq![("system"@, system@)] + turns_view(history@.take(i as int)));
    }
    assert(history@.take(i as int) =~= history@);
    let ghost before = turns_view(m@);
    m.push(ChatTurn { role: "user".to_owned(), content: user.to_owned() });
    assert(turns_view(m@) =~= conversation(system@, history@, user@));
    m
}

/// The messages of a plain chat turn; a configuration error when no chat
/// may be attempted.
pub fn plan_chat(settings: &LlmSettings, history: &Vec<ChatTurn>, user_text: &str) -> (r: Result<Vec<ChatTurn>, LlmError>)
    ensures
        may_chat(*settings) <==> r is Ok,
        r matches Ok(m) ==> turns_view(m@) == conversation(settings.system_prompt@, history@, user_text@),
        r matches Err(e) ==> e matches LlmError::Config(msg)
            && msg@ == "LLM not configured — set provider, model, and API key in Settings"@,
{
    if !settings.can_chat() {
        return Err(
            LlmError::Config(
                "LLM not configured — set provider, model, and API key in Settings".to_owned(),
            ),
        );
    }
    Ok(build_conversation(settings.system_prompt.as_str(), history, user_text))
}

/// What a voice turn does: answer with a short acknowledgement, or ask the
/// model with these messages about this cleaned text.
#[derive(Debug, Clone)]
pub enum VoicePlan {
    Acknowledge(String),
    Ask { messages: Vec<ChatTurn>, cleaned: String },
}

/// A voice turn: a configuration error when no chat may be attempted; an
/// acknowledgement when under two bytes remain once fillers are stripped;
/// else the voice instruction, the history and the cleaned text.
pub fn plan_voice_chat(settings: &LlmSettings, history: &Vec<ChatTurn>, user_text: &str) -> (r: Result<VoicePlan, LlmError>)
    ensures
        may_chat(*settings) <==> r is Ok,
        r matches Err(e) ==> e matches LlmError::Config(msg) && msg@ == "LLM not configured"@,
        r matches Ok(p) ==> match p {
            VoicePlan::Acknowledge(a) => utf8_len(without_fillers(user_text@)) < 2 && a@ == "Mm-hmm."@,
            VoicePlan::Ask { messages, cleaned } => utf8_len(without_fillers(user_text@)) >= 2
                && cleaned@ == without_fillers(user_text@) && turns_view(messages@) == conversation(
                voice_system_prompt(),
                history@,
                without_fillers(user_text@),
            ),
        },
{
    if !settings.can_chat() {
        return Err(LlmError::Config("LLM not configured".to_owned()));
    }
    let cleaned = strip_fillers_for_llm(user_text);
    if utf8_len_capped(&chars_of(cleaned.as_str()), 2) < 2 {
        return Ok(VoicePlan::Acknowledge("Mm-hmm.".to_owned()));
    }
    let messages = build_conversation(
        "You are OpenLive, a capable live voice assistant (similar fluidity to GPT voice mode). Reply in 1–3 short spoken sentences. Be warm, clear, and competent. Match the user's language (Chinese↔Chinese, English↔English). If they ask who you are: you are OpenLive, a local voice assistant that can chat, search, do math, and tell time. Never think aloud, never plan your reply, never mention tools or prompts. Just talk naturally.",
        history,
        cleaned.as_str(),
    );
    Ok(VoicePlan::Ask { messages, cleaned })
}

fn copy_settings(s: &LlmSettings) -> (r: LlmSettings)
    ensures
        r == *s,
{
    LlmSettings {
        provider_id: s.provider_id.clone(),
        base_url: s.base_url.clone(),
        api_key: copy_opt(&s.api_key),
        model: s.model.clone(),
        system_prompt: s.system_prompt.clone(),
    }
}

/// The chat client's state: its settings and the rolling short-term
/// dialogue of multi-turn voice. The HTTP client that carries its calls is
/// the caller's.
#[derive(Debug, Clone)]
pub struct LlmBridge {
    pub settings: LlmSettings,
    pub history: Vec<ChatTurn>,
}

impl LlmBridge {
    /// The default settings and no history.
    pub fn new() -> (b: Self)
        ensures
            b.settings.provider_id@ == "nvidia"@,
            b.settings.base_url@ == "https://integrate.api.nvidia.com/v1"@,
            b.settings.api_key is None,
            b.settings.model@ == "meta/llama-3.1-8b-instruct"@,
            b.settings.system_prompt@ == default_system_prompt(),
            b.history@.len() == 0,
    {
        LlmBridge { settings: LlmSettings::default(), history: Vec::new() }
    }

    /// A copy of the current settings.
    pub fn settings(&self) -> (s: LlmSettings)
        ensures
            s == self.settings,
    {
        copy_settings(&self.settings)
    }

    /// Replaces the settings; the dialogue is kept.
    pub fn update_settings(&mut self, partial: LlmSettings)
        ensures
            final(self).settings == partial,
            final(self).history@ == old(self).history@,
    {
        self.settings = partial;
    }

    /// Forgets the dialogue; the settings are kept.
    pub fn clear_history(&mut self)
        ensures
            final(self).history@.len() == 0,
            final(self).settings == old(self).settings,
    {
        self.history = Vec::new();
    }

    /// Records one exchange, the user's text then the reply, forgetting the
    /// oldest messages beyond the cap.
    pub fn record_exchange(&mut self, user_text: &str, reply: &str)
        ensures
            turns_view(final(self).history@) == capped_history(
                capped_history(turns_view(old(self).history@).push(("user"@, user_text@))).push(
                    ("assistant"@, reply@),
                ),
            ),
            final(self).settings == old(self).settings,
    {
        push_history(&mut self.history, "user", user_text);
        push_history(&mut self.history, "assistant", reply);
    }

    /// The messages of a plain chat turn over the current settings and
    /// dialogue (see [`plan_chat`]).
    pub fn plan_chat(&self, user_text: &str) -> (r: Result<Vec<ChatTurn>, LlmError>)
        ensures
            may_chat(self.settings) <==> r is Ok,
            r matches Ok(m) ==> turns_view(m@) == conversation(self.settings.system_prompt@, self.history@, user_text@),
            r matches Err(e) ==> e matches LlmError::Config(msg)
                && msg@ == "LLM not configured — set provider, model, and API key in Settings"@,
    {
        plan_chat(&self.settings, &self.history, user_text)
    }

    /// What a voice turn does over the current settings and dialogue (see
    /// [`plan_voice_chat`]).
    pub fn plan_voice_chat(&self, user_text: &str) -> (r: Result<VoicePlan, LlmError>)
        ensures
            may_chat(self.settings) <==> r is Ok,
            r matches Err(e) ==> e matches LlmError::Config(msg) && msg@ == "LLM not configured"@,
            r matches Ok(p) ==> match p {
                VoicePlan::Acknowledge(a) => utf8_len(without_fillers(user_text@)) < 2 && a@ == "Mm-hmm."@,
                VoicePlan::Ask { messages, cleaned } => utf8_len(without_fillers(user_text@)) >= 2
                    && cleaned@ == without_fillers(user_text@) && turns_view(messages@) == conversation(
                    voice_system_prompt(),
                    self.history@,
                    without_fillers(user_text@),
                ),
            },
    {
        plan_voice_chat(&self.settings, &self.history, user_text)
    }
}

} // verus!
