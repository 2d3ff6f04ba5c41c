//! Short-term multi-turn context for the agent: per-session rolling
//! transcripts that expire after two hours idle, at most 64 sessions and 24
//! turns each, rendered as `role: text` lines for the model.

use vstd::prelude::*;
use crate::clock::now_ms;
use crate::text::{
    chars_eq, chars_of, extend_str, lemma_trim_idempotent, string_of, take_chars, take_prefix, trim,
    trim_chars,
};

verus! {

broadcast use vstd::seq_lib::group_seq_properties;

/// Most turns kept per session.
pub const MAX_TURNS_PER_SESSION: usize = 24;

/// Most sessions kept.
pub const MAX_SESSIONS: usize = 64;

/// Idle time after which a session is forgotten, in milliseconds.
pub const CONTEXT_TTL_MS: u64 = 7_200_000;

/// Characters of a turn's text that are kept.
pub const TURN_CHARS: usize = 500;

#[derive(Debug, Clone)]
pub struct ContextTurn {
    pub role: String,
    pub text: String,
}

#[derive(Debug, Clone)]
pub struct ContextSession {
    pub id: String,
    pub turns: Vec<ContextTurn>,
    pub last_touch: u64,
}

/// The sessions, in the order they were opened.
#[derive(Debug, Default)]
pub struct SessionContextStore {
    sessions: Vec<ContextSession>,
}

/// A turn as plain text: role and text.
pub type TurnView = (Seq<char>, Seq<char>);

/// A session as plain text: id, turns and last touch.
pub type SessionView = (Seq<char>, Seq<TurnView>, u64);

pub open spec fn turn_view(t: ContextTurn) -> TurnView {
    (t.role@, t.text@)
}

pub open spec fn session_view(s: ContextSession) -> SessionView {
    (s.id@, s.turns@.map_values(|t: ContextTurn| turn_view(t)), s.last_touch)
}

impl View for SessionContextStore {
    type V = Seq<SessionView>;

    closed spec fn view(&self) -> Seq<SessionView> {
        self.sessions@.map_values(|s: ContextSession| session_view(s))
    }
}

/// Whether a session touched at `touch` is still kept at `now`.
pub open spec fn is_live(now: u64, touch: u64) -> bool {
    (if now >= touch {
        now - touch
    } else {
        0
    }) < CONTEXT_TTL_MS
}

pub open spec fn keep_live(s: Seq<SessionView>, now: u64) -> Seq<SessionView>
    decreases s.len(),
{
    if s.len() == 0 {
        s
    } else if is_live(now, s.last().2) {
        keep_live(s.drop_last(), now).push(s.last())
    } else {
        keep_live(s.drop_last(), now)
    }
}

/// `i` is the first session with the oldest touch.
pub open spec fn is_stalest(s: Seq<SessionView>, i: int) -> bool {
    &&& 0 <= i < s.len()
    &&& forall|j: int| 0 <= j < s.len() ==> s[i].2 <= #[trigger] s[j].2
    &&& forall|j: int| 0 <= j < i ==> s[i].2 < #[trigger] s[j].2
}

pub open spec fn evict_stalest(s: Seq<SessionView>) -> Seq<SessionView>
    decreases s.len(),
{
    if s.len() <= MAX_SESSIONS {
        s
    } else if exists|i: int| is_stalest(s, i) {
        evict_stalest(s.remove(choose|i: int| is_stalest(s, i)))
    } else {
        s
    }
}

/// The sessions kept at `now`: idle ones dropped, then the stalest beyond 64.
pub open spec fn live_sessions(s: Seq<SessionView>, now: u64) -> Seq<SessionView> {
    evict_stalest(keep_live(s, now))
}

/// The first session with this id.
pub open spec fn is_session_at(s: Seq<SessionView>, id: Seq<char>, i: int) -> bool {
    0 <= i < s.len() && s[i].0 == id && forall|j: int| 0 <= j < i ==> s[j].0 != id
}

pub open spec fn session_index(s: Seq<SessionView>, id: Seq<char>) -> Option<int> {
    if exists|i: int| is_session_at(s, id, i) {
        Some(choose|i: int| is_session_at(s, id, i))
    } else {
        None
    }
}

/// The latest `MAX_TURNS_PER_SESSION` turns.
pub open spec fn capped_turns(t: Seq<TurnView>) -> Seq<TurnView> {
    if t.len() > MAX_TURNS_PER_SESSION {
        t.skip(t.len() - MAX_TURNS_PER_SESSION)
    } else {
        t
    }
}

/// `take` clamped to `1..=24`.
pub open spec fn turn_window(take: int) -> int {
    if take < 1 {
        1
    } else if take > MAX_TURNS_PER_SESSION {
        MAX_TURNS_PER_SESSION as int
    } else {
        take
    }
}

/// `role: text` lines joined by newlines.
pub open spec fn render_lines(t: Seq<TurnView>) -> Seq<char>
    decreases t.len(),
{
    if t.len() == 0 {
        Seq::empty()
    } else if t.len() == 1 {
        t[0].0 + ": "@ + t[0].1
    } else {
        render_lines(t.drop_last()) + "\n"@ + t.last().0 + ": "@ + t.last().1
    }
}

/// The last `take` turns (clamped to 1..=24), rendered.
pub open spec fn render_context(t: Seq<TurnView>, take: int) -> Seq<char> {
    let n = turn_window(take);
    render_lines(
        if t.len() > n {
            t.skip(t.len() - n)
        } else {
            t
        },
    )
}

/// The context of session `sid` at `now` and the store after the lookup
/// (idle sessions dropped, the session touched).
pub open spec fn context_only_spec(s: Seq<SessionView>, sid: Seq<char>, take: int, now: u64) -> (Seq<char>, Seq<SessionView>) {
    let t = trim(sid);
    if t.len() == 0 {
        (Seq::empty(), s)
    } else {
        let p = live_sessions(s, now);
        match session_index(p, t) {
            None => (Seq::empty(), p),
            Some(i) => (render_context(p[i].1, take), p.update(i, (p[i].0, p[i].1, now))),
        }
    }
}

/// The store after a turn is appended to session `sid` at `now`.
pub open spec fn appended(s: Seq<SessionView>, sid: Seq<char>, role: Seq<char>, text: Seq<char>, now: u64) -> Seq<SessionView> {
    let p = live_sessions(s, now);
    let turn = (role, take_chars(text, TURN_CHARS as nat));
    match session_index(p, sid) {
        Some(i) => p.update(i, (p[i].0, capped_turns(p[i].1.push(turn)), now)),
        None => p.push((sid, seq![turn], now)),
    }
}

/// Appending a turn, then reading the context: a blank session id does
/// nothing; a blank text only reads.
pub open spec fn append_spec(s: Seq<SessionView>, sid: Seq<char>, role: Seq<char>, text: Seq<char>, take: int, now: u64) -> (Seq<char>, Seq<SessionView>) {
    let t = trim(sid);
    let x = trim(text);
    if t.len() == 0 {
        (Seq::empty(), s)
    } else if x.len() == 0 {
        context_only_spec(s, t, take, now)
    } else {
        context_only_spec(appended(s, t, role, x, now), t, take, now)
    }
}

proof fn lemma_stalest_unique(s: Seq<SessionView>, a: int, b: int)
    requires
        is_stalest(s, a),
        is_stalest(s, b),
    ensures
        a == b,
{
    if a < b {
        assert(s[b].2 < s[a].2);
    } else if b < a {
        assert(s[a].2 < s[b].2);
    }
}

proof fn lemma_session_at_unique(s: Seq<SessionView>, id: Seq<char>, a: int, b: int)
    requires
        is_session_at(s, id, a),
        is_session_at(s, id, b),
    ensures
        a == b,
{
    if a < b {
        assert(s[a].0 == id);
    } else if b < a {
        assert(s[b].0 == id);
    }
}

fn copy_turn(t: &ContextTurn) -> (r: ContextTurn)
    ensures
        turn_view(r) == turn_view(*t),
{
    ContextTurn { role: t.role.clone(), text: t.text.clone() }
}

impl SessionContextStore {
    pub fn new() -> (s: Self)
        ensures
            s@ == Seq::<SessionView>::empty(),
    {
        let s = SessionContextStore { sessions: Vec::new() };
        assert(s@ =~= Seq::<SessionView>::empty());
        s
    }

    /// How many sessions are held (expired ones included until the next purge).
    pub fn len(&self) -> (n: usize)
        ensures
            n == self@.len(),
    {
        self.sessions.len()
    }

    fn purge(&mut self, now: u64)
        ensures
            final(self)@ == live_sessions(old(self)@, now),
    {
        let ghost orig = self@;
        let total: usize = self.sessions.len();
        let mut kept: Vec<ContextSession> = Vec::new();
        let mut k: usize = 0;
        assert(orig.take(0) =~= Seq::<SessionView>::empty());
        while self.sessions.len() > 0
            invariant
                k <= orig.len(),
                orig.len() == total,
                self.sessions@.len() + k == orig.len(),
                self@ == orig.skip(k as int),
                kept@.map_values(|s: ContextSession| session_view(s)) == keep_live(orig.take(k as int), now),
            decreases self.sessions@.len(),
        {
            let ghost before_self = self@;
            let e = self.sessions.remove(0);
            proof {
                assert(self@ =~= before_self.remove(0));
                assert(before_self[0] == session_view(e));
                assert(orig.take(k + 1).drop_last() =~= orig.take(k as int));
                assert(orig.take(k + 1).last() == orig[k as int]);
                assert(orig.skip(k as int)[0] == orig[k as int]);
                assert(orig.skip(k as int).remove(0) =~= orig.skip(k + 1));
            }
            let live = if now >= e.last_touch {
                now - e.last_touch < CONTEXT_TTL_MS
            } else {
                0 < CONTEXT_TTL_MS
            };
            let ghost kb = kept@.map_values(|s: ContextSession| session_view(s));
            if live {
                kept.push(e);
                assert(kept@.map_values(|s: ContextSession| session_view(s)) =~= kb.push(session_view(e)));
            }
            k = k + 1;
        }
        assert(orig.take(k as int) =~= orig);
        let ghost target = live_sessions(orig, now);
        while kept.len() > MAX_SESSIONS
            invariant
                evict_stalest(kept@.map_values(|s: ContextSession| session_view(s))) == target,
            decreases kept@.len(),
        {
            let ghost kv = kept@.map_values(|s: ContextSession| session_view(s));
            let mut best: usize = 0;
            let mut j: usize = 1;
            while j < kept.len()
                invariant
                    kv == kept@.map_values(|s: ContextSession| session_view(s)),
                    0 <= best < j <= kept@.len(),
                    forall|x: int| 0 <= x < j ==> kv[best as int].2 <= #[trigger] kv[x].2,
                    forall|x: int| 0 <= x < best ==> kv[best as int].2 < #[trigger] kv[x].2,
                decreases kept@.len() - j,
            {
                if kept[j].last_touch < kept[best].last_touch {
                    best = j;
                }
                j = j + 1;
            }
            proof {
                assert(is_stalest(kv, best as int));
                let c = choose|x: int| is_stalest(kv, x);
                lemma_stalest_unique(kv, best as int, c);
            }
            kept.remove(best);
            assert(kept@.map_values(|s: ContextSession| session_view(s)) =~= kv.remove(best as int));
        }
        self.sessions = kept;
    }

    fn find(&self, id: &Vec<char>) -> (r: Option<usize>)
        ensures
            match r {
                Some(i) => session_index(self@, id@) == Some(i as int),
                None => session_index(self@, id@) is None,
            },
    {
        let mut i: usize = 0;
        while i < self.sessions.len()
            invariant
                i <= self.sessions@.len(),
                forall|j: int| 0 <= j < i ==> self@[j].0 != id@,
            decreases self.sessions@.len() - i,
        {
            let here = chars_of(self.sessions[i].id.as_str());
            assert(self@[i as int].0 == here@);
            if chars_eq(&here, id) {
                proof {
                    assert(is_session_at(self@, id@, i as int));
                    let c = choose|x: int| is_session_at(self@, id@, x);
                    lemma_session_at_unique(self@, id@, i as int, c);
                }
                return Some(i);
            }
            i = i + 1;
        }
        None
    }

    fn render(turns: &Vec<ContextTurn>, take: usize) -> (r: String)
        ensures
            r@ == render_context(turns@.map_values(|t: ContextTurn| turn_view(t)), take as int),
    {
        let ghost tv = turns@.map_values(|t: ContextTurn| turn_view(t));
        let n: usize = if take < 1 {
            1
        } else if take > MAX_TURNS_PER_SESSION {
            MAX_TURNS_PER_SESSION
        } else {
            take
        };
        let from: usize = if turns.len() > n {
            turns.len() - n
        } else {
            0
        };
        let ghost shown = if tv.len() > n {
            tv.skip(tv.len() - n)
        } else {
            tv
        };
        assert(shown =~= tv.subrange(from as int, tv.len() as int));
        let mut out: Vec<char> = Vec::new();
        let mut k: usize = from;
        while k < turns.len()
            invariant
                from <= k <= turns@.len(),
                tv == turns@.map_values(|t: ContextTurn| turn_view(t)),
                out@ == render_lines(tv.subrange(from as int, k as int)),
            decreases turns@.len() - k,
        {
            let ghost pre = tv.subrange(from as int, k as int);
            let ghost now_s = tv.subrange(from as int, k + 1);
            assert(now_s.drop_last() =~= pre);
            assert(now_s.last() == turn_view(turns@[k as int]));
            if k > from {
                extend_str(&mut out, "\n");
            } else {
                assert(now_s =~= seq![turn_view(turns@[k as int])]);
            }
            extend_str(&mut out, turns[k].role.as_str());
            extend_str(&mut out, ": ");
            extend_str(&mut out, turns[k].text.as_str());
            k = k + 1;
        }
        string_of(&out)
    }
}

/// The context of session `sid` at `now`: its last `take` turns (clamped
/// to 1..=24) as `role: text` lines; empty for a blank or unknown id.
pub fn context_only_at(store: &mut SessionContextStore, session_id: &str, take: usize, now: u64) -> (r: String)
    ensures
        (r@, final(store)@) == context_only_spec(old(store)@, session_id@, take as int, now),
{
    let sid = trim_chars(&chars_of(session_id));
    if sid.len() == 0 {
        return String::new();
    }
    store.purge(now);
    match store.find(&sid) {
        None => String::new(),
        Some(i) => {
            let ghost p = store@;
            let text = SessionContextStore::render(&store.sessions[i].turns, take);
            store.sessions[i].last_touch = now;
            proof {
                assert(store@ =~= p.update(i as int, (p[i as int].0, p[i as int].1, now)));
            }
            text
        },
    }
}

/// Appends a turn to session `sid` at `now`, then returns its context.
pub fn append_and_context_at(
    store: &mut SessionContextStore,
    session_id: &str,
    role: &str,
    text: &str,
    take: usize,
    now: u64,
) -> (r: String)
    ensures
        (r@, final(store)@) == append_spec(old(store)@, session_id@, role@, text@, take as int, now),
{
    let sid = trim_chars(&chars_of(session_id));
    if sid.len() == 0 {
        return String::new();
    }
    let t = trim_chars(&chars_of(text));
    let sid_s = string_of(&sid);
    if t.len() == 0 {
        return context_only_at(store, sid_s.as_str(), take, now);
    }
    store.purge(now);
    let ghost p = store@;
    let turn = ContextTurn { role: role.to_owned(), text: string_of(&take_prefix(&t, TURN_CHARS)) };
    match store.find(&sid) {
        Some(i) => {
            let mut turns: Vec<ContextTurn> = Vec::new();
            let mut k: usize = 0;
            while k < store.sessions[i].turns.len()
                invariant
                    i < store.sessions@.len(),
                    k <= store.sessions@[i as int].turns@.len(),
                    turns@.map_values(|x: ContextTurn| turn_view(x)) == store.sessions@[i as int].turns@.map_values(
                        |x: ContextTurn| turn_view(x),
                    ).take(k as int),
                decreases store.sessions@[i as int].turns@.len() - k,
            {
                let ghost before = turns@.map_values(|x: ContextTurn| turn_view(x));
                let c = copy_turn(&store.sessions[i].turns[k]);
                assert(turn_view(c) == store.sessions@[i as int].turns@.map_values(|x: ContextTurn| turn_view(x))[k as int]);
                turns.push(c);
                assert(turns@.map_values(|x: ContextTurn| turn_view(x)) =~= before.push(turn_view(c)));
                k = k + 1;
                assert(turns@.map_values(|x: ContextTurn| turn_view(x)) =~= store.sessions@[i as int].turns@.map_values(
                    |x: ContextTurn| turn_view(x),
                ).take(k as int));
            }
            let ghost old_turns = store.sessions@[i as int].turns@.map_values(|x: ContextTurn| turn_view(x));
            assert(old_turns.take(k as int) =~= old_turns);
            let ghost before = turns@.map_values(|x: ContextTurn| turn_view(x));
            turns.push(turn);
            assert(turns@.map_values(|x: ContextTurn| turn_view(x)) =~= before.push(turn_view(turn)));
            let ghost full = turns@.map_values(|x: ContextTurn| turn_view(x));
            if turns.len() > MAX_TURNS_PER_SESSION {
                let n = turns.len() - MAX_TURNS_PER_SESSION;
                let kept = turns.split_off(n);
                turns = kept;
                assert(turns@.map_values(|x: ContextTurn| turn_view(x)) =~= full.skip(n as int));
            }
            let id = store.sessions[i].id.clone();
            store.sessions.set(i, ContextSession { id, turns, last_touch: now });
            assert(store@ =~= p.update(
                i as int,
                (p[i as int].0, capped_turns(p[i as int].1.push((role@, take_chars(t@, TURN_CHARS as nat)))), now),
            ));
        },
        None => {
            let mut turns: Vec<ContextTurn> = Vec::new();
            turns.push(turn);
            assert(turns@.map_values(|x: ContextTurn| turn_view(x)) =~= seq![(role@, take_chars(t@, TURN_CHARS as nat))]);
            let ghost before = store@;
            store.sessions.push(ContextSession { id: string_of(&sid), turns, last_touch: now });
            assert(store@ =~= before.push((sid@, seq![(role@, take_chars(t@, TURN_CHARS as nat))], now)));
        },
    }
    assert(store@ == appended(old(store)@, trim(session_id@), role@, trim(text@), now));
    context_only_at(store, sid_s.as_str(), take, now)
}

/// The sessions without those with this id.
pub open spec fn without_session_id(s: Seq<SessionView>, id: Seq<char>) -> Seq<SessionView>
    decreases s.len(),
{
    if s.len() == 0 {
        s
    } else if s.last().0 == id {
        without_session_id(s.drop_last(), id)
    } else {
        without_session_id(s.drop_last(), id).push(s.last())
    }
}

/// Forgets session `sid` (trimmed).
pub fn clear_session(store: &mut SessionContextStore, session_id: &str)
    ensures
        final(store)@ == without_session_id(old(store)@, trim(session_id@)),
{
    let sid = trim_chars(&chars_of(session_id));
    let ghost orig = store@;
    let total: usize = store.sessions.len();
    let mut kept: Vec<ContextSession> = Vec::new();
    let mut k: usize = 0;
    assert(orig.take(0) =~= Seq::<SessionView>::empty());
    while store.sessions.len() > 0
        invariant
            k <= orig.len(),
            orig.len() == total,
            store.sessions@.len() + k == orig.len(),
            store@ == orig.skip(k as int),
            kept@.map_values(|s: ContextSession| session_view(s)) == without_session_id(orig.take(k as int), sid@),
        decreases store.sessions@.len(),
    {
        let ghost before_store = store@;
        let e = store.sessions.remove(0);
        proof {
            assert(store@ =~= before_store.remove(0));
            assert(before_store[0] == session_view(e));
            assert(orig.take(k + 1).drop_last() =~= orig.take(k as int));
            assert(orig.take(k + 1).last() == orig[k as int]);
            assert(orig.skip(k as int)[0] == orig[k as int]);
            assert(orig.skip(k as int).remove(0) =~= orig.skip(k + 1));
        }
        let here = chars_of(e.id.as_str());
        let ghost kb = kept@.map_values(|s: ContextSession| session_view(s));
        if !chars_eq(&here, &sid) {
            kept.push(e);
            assert(kept@.map_values(|s: ContextSession| session_view(s)) =~= kb.push(session_view(e)));
        }
        k = k + 1;
    }
    assert(orig.take(k as int) =~= orig);
    store.sessions = kept;
}

/// `append_and_context_at` at the clock's current time.
pub fn append_and_context(store: &mut SessionContextStore, session_id: &str, role: &str, text: &str, take: usize) -> (r: String)
    ensures
        exists|now: u64| (r@, final(store)@) == append_spec(old(store)@, session_id@, role@, text@, take as int, now),
{
    append_and_context_at(store, session_id, role, text, take, now_ms())
}

/// `context_only_at` at the clock's current time.
pub fn context_only(store: &mut SessionContextStore, session_id: &str, take: usize) -> (r: String)
    ensures
        exists|now: u64| (r@, final(store)@) == context_only_spec(old(store)@, session_id@, take as int, now),
{
    context_only_at(store, session_id, take, now_ms())
}

/// How many sessions are live at `now` (idle ones are dropped first).
pub fn session_count_at(store: &mut SessionContextStore, now: u64) -> (n: usize)
    ensures
        final(store)@ == live_sessions(old(store)@, now),
        n == final(store)@.len(),
{
    store.purge(now);
    store.sessions.len()
}


/// What the session store reports of itself.
#[derive(Debug, Clone, PartialEq, Eq)]
pub struct SessionStats {
    pub sessions: usize,
    pub max_sessions: usize,
    pub max_turns: usize,
}

/// The live sessions now (idle ones are dropped first) and the store's caps.
pub fn session_stats(store: &mut SessionContextStore) -> (r: SessionStats)
    ensures
        exists|now: u64| final(store)@ == live_sessions(old(store)@, now),
        r.sessions == final(store)@.len(),
        r.max_sessions == MAX_SESSIONS,
        r.max_turns == MAX_TURNS_PER_SESSION,
{
    let sessions = session_count_at(store, now_ms());
    SessionStats { sessions, max_sessions: MAX_SESSIONS, max_turns: MAX_TURNS_PER_SESSION }
}

proof fn lemma_keep_live_members(s: Seq<SessionView>, now: u64)
    ensures
        keep_live(s, now).len() <= s.len(),
        forall|k: int| 0 <= k < keep_live(s, now).len() ==> s.contains(#[trigger] keep_live(s, now)[k])
            && is_live(now, keep_live(s, now)[k].2),
    decreases s.len(),
{
    if s.len() > 0 {
        let d = s.drop_last();
        lemma_keep_live_members(d, now);
        let r = keep_live(d, now);
        assert forall|k: int| 0 <= k < keep_live(s, now).len() implies s.contains(#[trigger] keep_live(s, now)[k])
            && is_live(now, keep_live(s, now)[k].2) by {
            if k < r.len() {
                assert(keep_live(s, now)[k] == r[k]);
                let j = choose|j: int| 0 <= j < d.len() && d[j] == r[k];
                assert(s[j] == d[j]);
            } else {
                assert(keep_live(s, now)[k] == s[s.len() - 1]);
            }
        }
    }
}

proof fn lemma_keep_live_all(s: Seq<SessionView>, now: u64)
    requires
        forall|k: int| 0 <= k < s.len() ==> is_live(now, #[trigger] s[k].2),
    ensures
        keep_live(s, now) == s,
    decreases s.len(),
{
    if s.len() > 0 {
        lemma_keep_live_all(s.drop_last(), now);
        assert(s.drop_last().push(s.last()) =~= s);
    }
}

proof fn lemma_stalest_exists(s: Seq<SessionView>)
    requires
        s.len() > 0,
    ensures
        exists|i: int| is_stalest(s, i),
    decreases s.len(),
{
    if s.len() == 1 {
        assert(is_stalest(s, 0));
    } else {
        let d = s.drop_last();
        lemma_stalest_exists(d);
        let i0 = choose|i: int| is_stalest(d, i);
        let n = s.len() - 1;
        if s[n].2 < s[i0].2 {
            assert forall|j: int| 0 <= j < n implies s[n].2 < #[trigger] s[j].2 by {
                assert(d[j] == s[j]);
            }
            assert(is_stalest(s, n));
        } else {
            assert forall|j: int| 0 <= j < s.len() implies s[i0].2 <= #[trigger] s[j].2 by {
                if j < n {
                    assert(d[j] == s[j]);
                }
            }
            assert forall|j: int| 0 <= j < i0 implies s[i0].2 < #[trigger] s[j].2 by {
                assert(d[j] == s[j]);
            }
            assert(is_stalest(s, i0));
        }
    }
}

proof fn lemma_evict_stalest_members(s: Seq<SessionView>)
    ensures
        evict_stalest(s).len() <= MAX_SESSIONS || evict_stalest(s) == s,
        s.len() > MAX_SESSIONS ==> evict_stalest(s).len() <= MAX_SESSIONS,
        forall|k: int| 0 <= k < evict_stalest(s).len() ==> s.contains(#[trigger] evict_stalest(s)[k]),
    decreases s.len(),
{
    if s.len() > MAX_SESSIONS {
        lemma_stalest_exists(s);
        let i = choose|i: int| is_stalest(s, i);
        let t = s.remove(i);
        lemma_evict_stalest_members(t);
        let r = evict_stalest(t);
        assert forall|k: int| 0 <= k < r.len() implies s.contains(#[trigger] r[k]) by {
            let j = choose|j: int| 0 <= j < t.len() && t[j] == r[k];
            let j2 = if j < i { j } else { j + 1 };
            assert(s[j2] == r[k]);
        }
    }
}

proof fn lemma_session_first_exists(s: Seq<SessionView>, id: Seq<char>, w: int)
    requires
        0 <= w < s.len(),
        s[w].0 == id,
    ensures
        exists|i: int| is_session_at(s, id, i),
    decreases w,
{
    if exists|j: int| 0 <= j < w && s[j].0 == id {
        let j = choose|j: int| 0 <= j < w && s[j].0 == id;
        lemma_session_first_exists(s, id, j);
    } else {
        assert(is_session_at(s, id, w));
    }
}

proof fn lemma_render_last_line(t: Seq<TurnView>, take: int)
    requires
        t.len() > 0,
    ensures
        exists|head: Seq<char>| render_context(t, take) == head + t.last().0 + ": "@ + t.last().1,
{
    let n = turn_window(take);
    let w = if t.len() > n {
        t.skip(t.len() - n)
    } else {
        t
    };
    assert(w.len() > 0);
    assert(w.last() == t.last());
    if w.len() == 1 {
        assert(render_lines(w) =~= Seq::<char>::empty() + w.last().0 + ": "@ + w.last().1);
    } else {
        let head = render_lines(w.drop_last()) + "\n"@;
        assert(render_lines(w) =~= head + w.last().0 + ": "@ + w.last().1);
    }
}

proof fn lemma_live_store_bounds(s: Seq<SessionView>, now: u64)
    requires
        forall|k: int| 0 <= k < s.len() ==> (#[trigger] s[k]).2 <= now,
    ensures
        live_sessions(s, now).len() <= MAX_SESSIONS,
        forall|k: int| 0 <= k < live_sessions(s, now).len() ==> is_live(now, (#[trigger] live_sessions(s, now)[k]).2)
            && live_sessions(s, now)[k].2 <= now,
{
    let p = live_sessions(s, now);
    let kl = keep_live(s, now);
    lemma_keep_live_members(s, now);
    lemma_evict_stalest_members(kl);
    assert forall|k: int| 0 <= k < p.len() implies is_live(now, (#[trigger] p[k]).2) && p[k].2 <= now by {
        assert(kl.contains(p[k]));
        let j = choose|j: int| 0 <= j < kl.len() && kl[j] == p[k];
        assert(s.contains(kl[j]));
    }
}

proof fn lemma_append_existing(p: Seq<SessionView>, t: Seq<char>, turn: TurnView, take: int, now: u64, i: int)
    requires
        trim(t) == t,
        t.len() > 0,
        p.len() <= MAX_SESSIONS,
        forall|k: int| 0 <= k < p.len() ==> is_live(now, #[trigger] p[k].2),
        is_session_at(p, t, i),
    ensures
        ({
            let a = p.update(i, (p[i].0, capped_turns(p[i].1.push(turn)), now));
            exists|head: Seq<char>| context_only_spec(a, t, take, now).0 == head + turn.0 + ": "@ + turn.1
        }),
{
    let turns = capped_turns(p[i].1.push(turn));
    let a = p.update(i, (p[i].0, turns, now));
    assert forall|k: int| 0 <= k < a.len() implies is_live(now, #[trigger] a[k].2) by {
        if k != i {
            assert(a[k] == p[k]);
        }
    }
    lemma_keep_live_all(a, now);
    assert(live_sessions(a, now) == a);
    assert(is_session_at(a, t, i)) by {
        assert forall|j: int| 0 <= j < i implies a[j].0 != t by {
            assert(a[j] == p[j]);
        }
    }
    let c2 = choose|c: int| is_session_at(a, t, c);
    lemma_session_at_unique(a, t, i, c2);
    assert(turns.last() == turn) by {
        let u = p[i].1.push(turn);
        if u.len() > MAX_TURNS_PER_SESSION {
            assert(turns.last() == u.last());
        }
    }
    lemma_render_last_line(turns, take);
}

proof fn lemma_append_new(p: Seq<SessionView>, t: Seq<char>, turn: TurnView, take: int, now: u64)
    requires
        trim(t) == t,
        t.len() > 0,
        p.len() <= MAX_SESSIONS,
        forall|k: int| 0 <= k < p.len() ==> is_live(now, #[trigger] p[k].2) && p[k].2 <= now,
        forall|k: int| 0 <= k < p.len() ==> (#[trigger] p[k]).0 != t,
    ensures
        ({
            let a = p.push((t, seq![turn], now));
            exists|head: Seq<char>| context_only_spec(a, t, take, now).0 == head + turn.0 + ": "@ + turn.1
        }),
{
    let e = (t, seq![turn], now);
    let a = p.push(e);
    assert forall|k: int| 0 <= k < a.len() implies is_live(now, #[trigger] a[k].2) by {
        if k < p.len() {
            assert(a[k] == p[k]);
        }
    }
    lemma_keep_live_all(a, now);
    let last = a.len() - 1;
    let r = live_sessions(a, now);
    assert(r == evict_stalest(a));
    if a.len() <= MAX_SESSIONS {
        assert(r == a);
        assert forall|j: int| 0 <= j < last implies r[j].0 != t by {
            assert(r[j] == p[j]);
        }
        assert(is_session_at(r, t, last));
        let c2 = choose|c: int| is_session_at(r, t, c);
        lemma_session_at_unique(r, t, last, c2);
    } else {
        lemma_stalest_exists(a);
        let i = choose|i: int| is_stalest(a, i);
        assert(i != last) by {
            if i == last {
                assert(a[0] == p[0]);
                assert(a[i].2 < a[0].2);
            }
        }
        let rm = a.remove(i);
        assert(rm.len() == MAX_SESSIONS);
        assert(evict_stalest(a) == evict_stalest(rm));
        assert(evict_stalest(rm) == rm);
        assert(rm[last - 1] == e);
        assert forall|j: int| 0 <= j < last - 1 implies rm[j].0 != t by {
            let j2 = if j < i { j } else { j + 1 };
            assert(rm[j] == a[j2]);
            assert(a[j2] == p[j2]);
        }
        assert(is_session_at(rm, t, last - 1));
        let c2 = choose|c: int| is_session_at(rm, t, c);
        lemma_session_at_unique(rm, t, last - 1, c2);
    }
    assert(seq![turn].last() == turn);
    lemma_render_last_line(seq![turn], take);
}

/// The context read right after a turn is appended (the clock not having
/// gone back) ends with that turn: `role: text`, the text trimmed and cut
/// at 500 characters, however many sessions are open.
pub proof fn lemma_appended_turn_ends_context(
    s: Seq<SessionView>,
    sid: Seq<char>,
    role: Seq<char>,
    text: Seq<char>,
    take: int,
    now: u64,
)
    requires
        trim(sid).len() > 0,
        trim(text).len() > 0,
        forall|k: int| 0 <= k < s.len() ==> (#[trigger] s[k]).2 <= now,
    ensures
        exists|head: Seq<char>|
            append_spec(s, sid, role, text, take, now).0 == head + role + ": "@ + take_chars(trim(text), TURN_CHARS as nat),
{
    let t = trim(sid);
    let x = trim(text);
    let turn = (role, take_chars(x, TURN_CHARS as nat));
    let p = live_sessions(s, now);
    lemma_live_store_bounds(s, now);
    lemma_trim_idempotent(sid);
    lemma_trim_idempotent(text);
    match session_index(p, t) {
        Some(i) => {
            let c = choose|c: int| is_session_at(p, t, c);
            assert(is_session_at(p, t, i));
            lemma_append_existing(p, t, turn, take, now, i);
        },
        None => {
            assert forall|k: int| 0 <= k < p.len() implies (#[trigger] p[k]).0 != t by {
                if p[k].0 == t {
                    lemma_session_first_exists(p, t, k);
                }
            }
            lemma_append_new(p, t, turn, take, now);
        },
    }
}

} // verus!
