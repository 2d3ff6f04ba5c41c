//! User-confirmable pending agent actions (destructive sandbox operations):
//! a store that forgets entries after five minutes and keeps at most 64.

use vstd::prelude::*;
use vstd::multiset::Multiset;
use crate::clock::now_ms;
use crate::protocol::new_event_id;
use crate::session_state::{uuid_string, uuid_text};
use crate::text::{chars_eq, chars_of, extend_str, opt_chars, string_of, take_chars, take_prefix};

verus! {

/// How long a pending action stays confirmable, in milliseconds.
pub const PENDING_TTL_MS: u64 = 300_000;

/// Most pending actions kept at once.
pub const MAX_PENDING: usize = 64;

#[derive(Debug, Clone, Copy, PartialEq, Eq, Structural)]
pub enum PendingKind {
    WriteFile,
    DeleteFile,
}

#[derive(Debug, Clone)]
pub struct PendingAction {
    pub id: String,
    pub kind: PendingKind,
    pub path: String,
    pub content: Option<String>,
    pub message: String,
    pub preview: Option<String>,
    pub created_at_ms: u64,
}

/// An action with the time it was queued.
#[derive(Debug, Clone)]
pub struct PendingEntry {
    pub action: PendingAction,
    pub created_ms: u64,
}

/// The pending actions, oldest insertion first.
#[derive(Debug)]
pub struct PendingStore {
    entries: Vec<PendingEntry>,
}

/// Milliseconds from `created` to `now` (zero when the clock went back).
pub open spec fn elapsed_ms(now: u64, created: u64) -> int {
    if now >= created {
        now - created
    } else {
        0
    }
}

/// Whether an entry queued at `created` is still confirmable at `now`.
pub open spec fn is_fresh(now: u64, created: u64) -> bool {
    elapsed_ms(now, created) < PENDING_TTL_MS
}

/// The entries still fresh at `now`, in order.
pub open spec fn keep_fresh(s: Seq<PendingEntry>, now: u64) -> Seq<PendingEntry>
    decreases s.len(),
{
    if s.len() == 0 {
        s
    } else if is_fresh(now, s.last().created_ms) {
        keep_fresh(s.drop_last(), now).push(s.last())
    } else {
        keep_fresh(s.drop_last(), now)
    }
}

/// `i` is the first entry with the smallest creation time.
pub open spec fn is_oldest(s: Seq<PendingEntry>, i: int) -> bool {
    &&& 0 <= i < s.len()
    &&& forall|j: int| 0 <= j < s.len() ==> s[i].created_ms <= #[trigger] s[j].created_ms
    &&& forall|j: int| 0 <= j < i ==> s[i].created_ms < #[trigger] s[j].created_ms
}

/// Drops the oldest entries until at most `cap` remain.
pub open spec fn evict_oldest(s: Seq<PendingEntry>, cap: nat) -> Seq<PendingEntry>
    decreases s.len(),
{
    if s.len() <= cap {
        s
    } else if exists|i: int| is_oldest(s, i) {
        evict_oldest(s.remove(choose|i: int| is_oldest(s, i)), cap)
    } else {
        s
    }
}

/// The store after expired entries are dropped and the cap is enforced.
pub open spec fn purged(s: Seq<PendingEntry>, now: u64) -> Seq<PendingEntry> {
    evict_oldest(keep_fresh(s, now), MAX_PENDING as nat)
}

/// Position of the entry with this id.
pub open spec fn has_id_at(s: Seq<PendingEntry>, id: Seq<char>, i: int) -> bool {
    0 <= i < s.len() && s[i].action.id@ == id
}

pub open spec fn has_id(s: Seq<PendingEntry>, id: Seq<char>) -> bool {
    exists|i: int| has_id_at(s, id, i)
}

/// No id occurs twice.
pub open spec fn ids_distinct(s: Seq<PendingEntry>) -> bool {
    forall|i: int, j: int|
        0 <= i < j < s.len() ==> (#[trigger] s[i]).action.id@ != (#[trigger] s[j]).action.id@
}

/// The entries without the first one with this id.
pub open spec fn remove_first_id(s: Seq<PendingEntry>, id: Seq<char>) -> Seq<PendingEntry> {
    if has_id(s, id) {
        s.remove(choose|i: int| first_with_id(s, id, i))
    } else {
        s
    }
}

/// The entries without the one with this id.
pub open spec fn without_id(s: Seq<PendingEntry>, id: Seq<char>) -> Seq<PendingEntry>
    decreases s.len(),
{
    if s.len() == 0 {
        s
    } else if s.last().action.id@ == id {
        without_id(s.drop_last(), id)
    } else {
        without_id(s.drop_last(), id).push(s.last())
    }
}

/// The first entry with this id.
pub open spec fn first_with_id(s: Seq<PendingEntry>, id: Seq<char>, i: int) -> bool {
    has_id_at(s, id, i) && forall|j: int| 0 <= j < i ==> s[j].action.id@ != id
}

/// The action stored under this id.
pub open spec fn action_with_id(s: Seq<PendingEntry>, id: Seq<char>) -> Option<PendingAction> {
    if has_id(s, id) {
        Some(s[choose|i: int| first_with_id(s, id, i)].action)
    } else {
        None
    }
}

/// The actions of the entries, in order.
pub open spec fn actions_of(s: Seq<PendingEntry>) -> Seq<PendingAction> {
    s.map_values(|e: PendingEntry| e.action)
}

/// Ordered by creation time, earliest first.
pub open spec fn sorted_by_created(s: Seq<PendingAction>) -> bool {
    forall|i: int, j: int| 0 <= i <= j < s.len() ==> s[i].created_at_ms <= s[j].created_at_ms
}

/// The message shown before deleting `path`.
pub open spec fn delete_message(path: Seq<char>) -> Seq<char> {
    "Delete sandbox file “"@ + path + "”?"@
}

proof fn lemma_oldest_unique(s: Seq<PendingEntry>, i: int, j: int)
    requires
        is_oldest(s, i),
        is_oldest(s, j),
    ensures
        i == j,
{
    if i < j {
        assert(s[j].created_ms < s[i].created_ms);
    } else if j < i {
        assert(s[i].created_ms < s[j].created_ms);
    }
}

proof fn lemma_first_with_id_unique(s: Seq<PendingEntry>, id: Seq<char>, i: int, j: int)
    requires
        first_with_id(s, id, i),
        first_with_id(s, id, j),
    ensures
        i == j,
{
    if i < j {
        assert(s[i].action.id@ == id);
    } else if j < i {
        assert(s[j].action.id@ == id);
    }
}


proof fn lemma_keep_fresh_distinct(s: Seq<PendingEntry>, now: u64)
    requires
        ids_distinct(s),
    ensures
        ids_distinct(keep_fresh(s, now)),
        forall|k: int| 0 <= k < keep_fresh(s, now).len() ==> s.contains(#[trigger] keep_fresh(s, now)[k]),
    decreases s.len(),
{
    if s.len() > 0 {
        let d = s.drop_last();
        assert(ids_distinct(d));
        lemma_keep_fresh_distinct(d, now);
        let r = keep_fresh(d, now);
        assert forall|k: int| 0 <= k < r.len() implies s.contains(#[trigger] r[k]) by {
            let j = choose|j: int| 0 <= j < d.len() && d[j] == r[k];
            assert(s[j] == r[k]);
        }
        if is_fresh(now, s.last().created_ms) {
            let t = r.push(s.last());
            assert forall|i: int, j: int| 0 <= i < j < t.len() implies (#[trigger] t[i]).action.id@
                != (#[trigger] t[j]).action.id@ by {
                if j == t.len() - 1 {
                    let a = choose|a: int| 0 <= a < d.len() && d[a] == r[i];
                    assert(s[a] == t[i]);
                    assert(s[s.len() - 1] == t[j]);
                } else {
                    assert(t[i] == r[i] && t[j] == r[j]);
                }
            }
            assert(s[s.len() - 1] == s.last());
        }
    }
}

proof fn lemma_without_id_distinct(s: Seq<PendingEntry>, id: Seq<char>)
    requires
        ids_distinct(s),
    ensures
        ids_distinct(without_id(s, id)),
        forall|k: int| 0 <= k < without_id(s, id).len() ==> s.contains(#[trigger] without_id(s, id)[k]),
        forall|k: int| 0 <= k < without_id(s, id).len() ==> (#[trigger] without_id(s, id)[k]).action.id@ != id,
    decreases s.len(),
{
    if s.len() > 0 {
        let d = s.drop_last();
        assert(ids_distinct(d));
        lemma_without_id_distinct(d, id);
        let r = without_id(d, id);
        assert forall|k: int| 0 <= k < r.len() implies s.contains(#[trigger] r[k]) by {
            let j = choose|j: int| 0 <= j < d.len() && d[j] == r[k];
            assert(s[j] == r[k]);
        }
        if s.last().action.id@ != id {
            let t = r.push(s.last());
            assert forall|i: int, j: int| 0 <= i < j < t.len() implies (#[trigger] t[i]).action.id@
                != (#[trigger] t[j]).action.id@ by {
                if j == t.len() - 1 {
                    let a = choose|a: int| 0 <= a < d.len() && d[a] == r[i];
                    assert(s[a] == t[i]);
                    assert(s[s.len() - 1] == t[j]);
                } else {
                    assert(t[i] == r[i] && t[j] == r[j]);
                }
            }
            assert(s[s.len() - 1] == s.last());
        }
    }
}

proof fn lemma_remove_distinct(s: Seq<PendingEntry>, i: int)
    requires
        ids_distinct(s),
        0 <= i < s.len(),
    ensures
        ids_distinct(s.remove(i)),
{
    let t = s.remove(i);
    assert forall|a: int, b: int| 0 <= a < b < t.len() implies (#[trigger] t[a]).action.id@
        != (#[trigger] t[b]).action.id@ by {
        let a2 = if a < i { a } else { a + 1 };
        let b2 = if b < i { b } else { b + 1 };
        assert(t[a] == s[a2] && t[b] == s[b2]);
    }
}

proof fn lemma_evict_distinct(s: Seq<PendingEntry>, cap: nat)
    requires
        ids_distinct(s),
    ensures
        ids_distinct(evict_oldest(s, cap)),
    decreases s.len(),
{
    if s.len() > cap && exists|i: int| is_oldest(s, i) {
        let i = choose|i: int| is_oldest(s, i);
        lemma_remove_distinct(s, i);
        lemma_evict_distinct(s.remove(i), cap);
    }
}

impl PendingStore {
    /// No id occurs twice: what every operation keeps and needs.
    #[verifier::type_invariant]
    pub(crate) open spec fn inv(&self) -> bool {
        ids_distinct(self@)
    }
}

impl View for PendingStore {
    type V = Seq<PendingEntry>;

    closed spec fn view(&self) -> Seq<PendingEntry> {
        self.entries@
    }
}

impl PendingAction {
    /// A field-for-field copy.
    pub fn duplicate(&self) -> (r: Self)
        ensures
            r == *self,
    {
        PendingAction {
            id: self.id.clone(),
            kind: self.kind,
            path: self.path.clone(),
            content: match &self.content {
                Some(c) => Some(c.clone()),
                None => None,
            },
            message: self.message.clone(),
            preview: match &self.preview {
                Some(p) => Some(p.clone()),
                None => None,
            },
            created_at_ms: self.created_at_ms,
        }
    }
}

/// Index of the first entry with the smallest creation time.
fn oldest_index(v: &Vec<PendingEntry>) -> (i: usize)
    requires
        v@.len() > 0,
    ensures
        is_oldest(v@, i as int),
{
    let mut best: usize = 0;
    let mut k: usize = 1;
    while k < v.len()
        invariant
            0 <= best < k <= v@.len(),
            forall|j: int| 0 <= j < k ==> v@[best as int].created_ms <= #[trigger] v@[j].created_ms,
            forall|j: int| 0 <= j < best ==> v@[best as int].created_ms < #[trigger] v@[j].created_ms,
        decreases v@.len() - k,
    {
        if v[k].created_ms < v[best].created_ms {
            best = k;
        }
        k = k + 1;
    }
    best
}

impl PendingStore {
    pub fn new() -> (s: Self)
        ensures
            s@ == Seq::<PendingEntry>::empty(),
            ids_distinct(s@),
    {
        PendingStore { entries: Vec::new() }
    }

    pub fn len(&self) -> (n: usize)
        ensures
            n == self@.len(),
    {
        self.entries.len()
    }

    /// Whether no id occurs twice: always so, as the store's invariant
    /// keeps it (a check for callers that cannot see the invariant).
    pub fn ids_are_distinct(&self) -> (r: bool)
        ensures
            r == ids_distinct(self@),
            r,
    {
        proof {
            use_type_invariant(self);
        }
        let mut i: usize = 0;
        while i < self.entries.len()
            invariant
                i <= self@.len(),
                ids_distinct(self@),
                forall|a: int, b: int| 0 <= a < b < self@.len() && a < i ==> (#[trigger] self@[a]).action.id@
                    != (#[trigger] self@[b]).action.id@,
            decreases self@.len() - i,
        {
            let a = chars_of(self.entries[i].action.id.as_str());
            let mut j: usize = i + 1;
            while j < self.entries.len()
                invariant
                    i < j <= self@.len(),
                    ids_distinct(self@),
                    a@ == self@[i as int].action.id@,
                    forall|b: int| i < b < j ==> self@[i as int].action.id@ != (#[trigger] self@[b]).action.id@,
                decreases self@.len() - j,
            {
                if chars_eq(&a, &chars_of(self.entries[j].action.id.as_str())) {
                    assert(self@[i as int].action.id@ == self@[j as int].action.id@);
                    return false;
                }
                j = j + 1;
            }
            i = i + 1;
        }
        true
    }

    /// Drops expired entries, then the oldest ones beyond the cap.
    pub fn purge_at(&mut self, now: u64)
        ensures
            final(self)@ == purged(old(self)@, now),
            final(self)@.len() <= MAX_PENDING,
    {
        proof {
            use_type_invariant(&*self);
            lemma_keep_fresh_distinct(self@, now);
        }
        let mut rest: Vec<PendingEntry> = Vec::new();
        std::mem::swap(&mut rest, &mut self.entries);
        let ghost orig = rest@;
        let total: usize = rest.len();
        assert(orig.len() == total);
        let mut kept: Vec<PendingEntry> = Vec::new();
        let mut k: usize = 0;
        assert(orig.take(0) =~= Seq::<PendingEntry>::empty());
        while rest.len() > 0
            invariant
                k <= orig.len(),
                orig.len() <= usize::MAX,
                rest@.len() + k == orig.len(),
                rest@ == orig.skip(k as int),
                kept@ == keep_fresh(orig.take(k as int), now),
            decreases rest@.len(),
        {
            let e = rest.remove(0);
            proof {
                assert(orig.take(k + 1).drop_last() =~= orig.take(k as int));
                assert(orig.take(k + 1).last() == orig[k as int]);
                assert(orig.skip(k as int)[0] == orig[k as int]);
                assert(orig.skip(k as int).remove(0) =~= orig.skip(k + 1));
            }
            let fresh = if now >= e.created_ms {
                now - e.created_ms < PENDING_TTL_MS
            } else {
                0 < PENDING_TTL_MS
            };
            if fresh {
                kept.push(e);
            }
            k = k + 1;
        }
        assert(orig.take(k as int) =~= orig);
        let ghost target = purged(orig, now);
        while kept.len() > MAX_PENDING
            invariant
                evict_oldest(kept@, MAX_PENDING as nat) == target,
                ids_distinct(kept@),
            decreases kept@.len(),
        {
            let i = oldest_index(&kept);
            proof {
                let c = choose|j: int| is_oldest(kept@, j);
                lemma_oldest_unique(kept@, i as int, c);
                lemma_remove_distinct(kept@, i as int);
            }
            kept.remove(i);
        }
        self.entries = kept;
    }

    /// Queues `action`, replacing any entry with the same id.
    pub fn insert_at(&mut self, action: PendingAction, now: u64)
        ensures
            final(self)@ == without_id(purged(old(self)@, now), action.id@).push(
                PendingEntry { action: action, created_ms: now },
            ),
    {
        proof {
            use_type_invariant(&*self);
            lemma_purged_members(old(self)@, now);
        }
        self.purge_at(now);
        self.remove_id(&action.id);
        proof {
            lemma_without_id_distinct(purged(old(self)@, now), action.id@);
        }
        let mut entries: Vec<PendingEntry> = Vec::new();
        std::mem::swap(&mut entries, &mut self.entries);
        let e = PendingEntry { action, created_ms: now };
        let ghost before = entries@;
        entries.push(e);
        proof {
            assert forall|i: int, j: int| 0 <= i < j < entries@.len() implies (#[trigger] entries@[i]).action.id@
                != (#[trigger] entries@[j]).action.id@ by {
                if j < before.len() {
                    assert(entries@[i] == before[i] && entries@[j] == before[j]);
                } else {
                    assert(entries@[i] == before[i]);
                }
            }
        }
        self.entries = entries;
    }

    fn remove_id(&mut self, id: &String)
        ensures
            final(self)@ == without_id(old(self)@, id@),
    {
        proof {
            use_type_invariant(&*self);
            lemma_without_id_distinct(self@, id@);
        }
        let mut rest: Vec<PendingEntry> = Vec::new();
        std::mem::swap(&mut rest, &mut self.entries);
        let ghost orig = rest@;
        let total: usize = rest.len();
        assert(orig.len() == total);
        let mut kept: Vec<PendingEntry> = Vec::new();
        let mut k: usize = 0;
        assert(orig.take(0) =~= Seq::<PendingEntry>::empty());
        while rest.len() > 0
            invariant
                k <= orig.len(),
                orig.len() <= usize::MAX,
                rest@.len() + k == orig.len(),
                rest@ == orig.skip(k as int),
                kept@ == without_id(orig.take(k as int), id@),
            decreases rest@.len(),
        {
            let e = rest.remove(0);
            proof {
                assert(orig.take(k + 1).drop_last() =~= orig.take(k as int));
                assert(orig.take(k + 1).last() == orig[k as int]);
                assert(orig.skip(k as int)[0] == orig[k as int]);
                assert(orig.skip(k as int).remove(0) =~= orig.skip(k + 1));
            }
            if !(e.action.id == *id) {
                kept.push(e);
            }
            k = k + 1;
        }
        assert(orig.take(k as int) =~= orig);
        self.entries = kept;
    }

    /// Position of the first entry with this id.
    fn find_id(&self, id: &str) -> (r: Option<usize>)
        ensures
            match r {
                Some(i) => first_with_id(self@, id@, i as int),
                None => !has_id(self@, id@),
            },
    {
        let target = chars_of(id);
        let mut i: usize = 0;
        while i < self.entries.len()
            invariant
                target@ == id@,
                i <= self.entries@.len(),
                forall|j: int| 0 <= j < i ==> self.entries@[j].action.id@ != id@,
            decreases self.entries@.len() - i,
        {
            let here = chars_of(self.entries[i].action.id.as_str());
            if chars_eq(&here, &target) {
                return Some(i);
            }
            i = i + 1;
        }
        None
    }
}

/// Queues an overwrite of `path` for confirmation, previewing its first
/// 200 characters. The id is a fresh random UUID and the time the clock's.
pub fn queue_write_file(store: &mut PendingStore, path: &str, content: &str, reason: &str) -> (a: PendingAction)
    ensures
        exists|x: u128| a.id@ == uuid_text(x),
        a.kind == PendingKind::WriteFile,
        a.path@ == path@,
        opt_chars(a.content) == Some(content@),
        a.message@ == reason@,
        opt_chars(a.preview) == Some(take_chars(content@, 200)),
        final(store)@ == without_id(purged(old(store)@, a.created_at_ms), a.id@).push(
            PendingEntry { action: a, created_ms: a.created_at_ms },
        ),
{
    let preview = string_of(&take_prefix(&chars_of(content), 200));
    let now = now_ms();
    let action = PendingAction {
        id: uuid_string(new_event_id()),
        kind: PendingKind::WriteFile,
        path: path.to_owned(),
        content: Some(content.to_owned()),
        message: reason.to_owned(),
        preview: Some(preview),
        created_at_ms: now,
    };
    store.insert_at(action.duplicate(), now);
    action
}

/// Queues the deletion of `path` for confirmation. The id is a fresh random
/// UUID and the time the clock's.
pub fn queue_delete_file(store: &mut PendingStore, path: &str) -> (a: PendingAction)
    ensures
        exists|x: u128| a.id@ == uuid_text(x),
        a.kind == PendingKind::DeleteFile,
        a.path@ == path@,
        a.content is None,
        a.message@ == delete_message(path@),
        a.preview is None,
        final(store)@ == without_id(purged(old(store)@, a.created_at_ms), a.id@).push(
            PendingEntry { action: a, created_ms: a.created_at_ms },
        ),
{
    let mut msg: Vec<char> = Vec::new();
    extend_str(&mut msg, "Delete sandbox file “");
    extend_str(&mut msg, path);
    extend_str(&mut msg, "”?");
    let now = now_ms();
    let action = PendingAction {
        id: uuid_string(new_event_id()),
        kind: PendingKind::DeleteFile,
        path: path.to_owned(),
        content: None,
        message: string_of(&msg),
        preview: None,
        created_at_ms: now,
    };
    store.insert_at(action.duplicate(), now);
    action
}

/// Removes and returns the action with this id, if still pending at `now`.
pub fn take_at(store: &mut PendingStore, id: &str, now: u64) -> (r: Option<PendingAction>)
    ensures
        r == action_with_id(purged(old(store)@, now), id@),
        final(store)@ == remove_first_id(purged(old(store)@, now), id@),
{
    store.purge_at(now);
    match store.find_id(id) {
        Some(i) => {
            proof {
                use_type_invariant(&*store);
                let c = choose|j: int| first_with_id(store@, id@, j);
                lemma_first_with_id_unique(store@, id@, i as int, c);
                lemma_remove_distinct(store@, i as int);
            }
            let mut entries: Vec<PendingEntry> = Vec::new();
            std::mem::swap(&mut entries, &mut store.entries);
            let e = entries.remove(i);
            store.entries = entries;
            Some(e.action)
        },
        None => None,
    }
}

/// The action with this id, if still pending at `now`.
pub fn peek_at(store: &mut PendingStore, id: &str, now: u64) -> (r: Option<PendingAction>)
    ensures
        r == action_with_id(purged(old(store)@, now), id@),
        final(store)@ == purged(old(store)@, now),
{
    store.purge_at(now);
    match store.find_id(id) {
        Some(i) => {
            proof {
                let c = choose|j: int| first_with_id(store@, id@, j);
                lemma_first_with_id_unique(store@, id@, i as int, c);
            }
            Some(store.entries[i].action.duplicate())
        },
        None => None,
    }
}

/// Drops the action with this id; an error when nothing is pending under it.
pub fn reject_at(store: &mut PendingStore, id: &str, now: u64) -> (r: Result<(), String>)
    ensures
        r is Ok <==> has_id(purged(old(store)@, now), id@),
        r matches Err(e) ==> e@ == "pending action not found or expired"@,
        final(store)@ == remove_first_id(purged(old(store)@, now), id@),
{
    match take_at(store, id, now) {
        Some(_) => Ok(()),
        None => Err("pending action not found or expired".to_owned()),
    }
}

/// The action an approval would execute, taken out of the store; an error
/// when nothing is pending under this id.
pub fn take_approved_at(store: &mut PendingStore, id: &str, now: u64) -> (r: Result<PendingAction, String>)
    ensures
        match r {
            Ok(a) => action_with_id(purged(old(store)@, now), id@) == Some(a),
            Err(e) => action_with_id(purged(old(store)@, now), id@) is None
                && e@ == "pending action not found or expired"@,
        },
        final(store)@ == remove_first_id(purged(old(store)@, now), id@),
{
    match take_at(store, id, now) {
        Some(a) => Ok(a),
        None => Err("pending action not found or expired".to_owned()),
    }
}

/// Every action still pending at `now`, earliest first.
pub fn list_pending_at(store: &mut PendingStore, now: u64) -> (r: Vec<PendingAction>)
    ensures
        final(store)@ == purged(old(store)@, now),
        final(store)@.len() <= MAX_PENDING,
        r@.to_multiset() == actions_of(final(store)@).to_multiset(),
        sorted_by_created(r@),
{
    broadcast use vstd::seq_lib::group_to_multiset_ensures;

    store.purge_at(now);
    let mut work: Vec<PendingAction> = Vec::new();
    let mut i: usize = 0;
    while i < store.entries.len()
        invariant
            i <= store@.len(),
            work@ == actions_of(store@).take(i as int),
        decreases store@.len() - i,
    {
        work.push(store.entries[i].action.duplicate());
        i = i + 1;
        assert(work@ =~= actions_of(store@).take(i as int));
    }
    assert(actions_of(store@).take(i as int) =~= actions_of(store@));
    let ghost all = work@.to_multiset();
    let mut out: Vec<PendingAction> = Vec::new();
    while work.len() > 0
        invariant
            out@.to_multiset().add(work@.to_multiset()) == all,
            sorted_by_created(out@),
            forall|a: int, b: int|
                0 <= a < out@.len() && 0 <= b < work@.len() ==> out@[a].created_at_ms
                    <= work@[b].created_at_ms,
        decreases work@.len(),
    {
        let mut best: usize = 0;
        let mut k: usize = 1;
        while k < work.len()
            invariant
                0 <= best < k <= work@.len(),
                forall|j: int| 0 <= j < k ==> work@[best as int].created_at_ms <= #[trigger] work@[j].created_at_ms,
            decreases work@.len() - k,
        {
            if work[k].created_at_ms < work[best].created_at_ms {
                best = k;
            }
            k = k + 1;
        }
        let ghost w0 = work@;
        let a = work.remove(best);
        proof {
            vstd::seq_lib::to_multiset_remove(w0, best as int);
            vstd::seq_lib::to_multiset_build(out@, a);
            broadcast use vstd::multiset::group_multiset_axioms;
            assert(w0[best as int] == a);
            vstd::seq_lib::to_multiset_contains(w0, a);
            assert(w0.to_multiset().count(a) > 0);
            assert(out@.push(a).to_multiset().add(work@.to_multiset()) =~= all);
            assert forall|x: int, y: int|
                0 <= x < out@.push(a).len() && 0 <= y < work@.len() implies out@.push(a)[x].created_at_ms
                <= work@[y].created_at_ms by {
                let y2 = if y < best { y } else { y + 1 };
                assert(work@[y] == w0[y2]);
                if x < out@.len() {
                    assert(out@.push(a)[x] == out@[x]);
                }
            }
        }
        out.push(a);
    }
    assert(work@.to_multiset() =~= Multiset::empty());
    assert(out@.to_multiset().add(Multiset::empty()) =~= out@.to_multiset());
    out
}

/// `take_at` at the clock's current time.
pub fn take(store: &mut PendingStore, id: &str) -> (r: Option<PendingAction>)
    ensures
        exists|now: u64|
            r == action_with_id(purged(old(store)@, now), id@) && final(store)@ == remove_first_id(
                purged(old(store)@, now),
                id@,
            ),
{
    take_at(store, id, now_ms())
}

/// `peek_at` at the clock's current time.
pub fn peek(store: &mut PendingStore, id: &str) -> (r: Option<PendingAction>)
    ensures
        exists|now: u64|
            r == action_with_id(purged(old(store)@, now), id@) && final(store)@ == purged(
                old(store)@,
                now,
            ),
{
    peek_at(store, id, now_ms())
}

/// `reject_at` at the clock's current time.
pub fn reject(store: &mut PendingStore, id: &str) -> (r: Result<(), String>)
    ensures
        exists|now: u64|
            (r is Ok <==> has_id(purged(old(store)@, now), id@)) && final(store)@
                == remove_first_id(purged(old(store)@, now), id@),
        r matches Err(e) ==> e@ == "pending action not found or expired"@,
{
    reject_at(store, id, now_ms())
}

/// `list_pending_at` at the clock's current time.
pub fn list_pending(store: &mut PendingStore) -> (r: Vec<PendingAction>)
    ensures
        exists|now: u64| final(store)@ == purged(old(store)@, now),
        final(store)@.len() <= MAX_PENDING,
        r@.to_multiset() == actions_of(final(store)@).to_multiset(),
        sorted_by_created(r@),
{
    list_pending_at(store, now_ms())
}

/// What a listing shows is pending: at most 64 actions, each found under
/// its own id in the store the listing left.
pub proof fn lemma_listed_actions_are_pending(s: Seq<PendingEntry>, r: Seq<PendingAction>)
    requires
        ids_distinct(s),
        s.len() <= MAX_PENDING,
        r.to_multiset() == actions_of(s).to_multiset(),
    ensures
        r.len() <= MAX_PENDING,
        forall|i: int| 0 <= i < r.len() ==> action_with_id(s, (#[trigger] r[i]).id@) == Some(r[i]),
        forall|i: int, j: int| 0 <= i < j < r.len() ==> (#[trigger] r[i]).id@ != (#[trigger] r[j]).id@,
{
    broadcast use vstd::seq_lib::group_to_multiset_ensures;

    let acts = actions_of(s);
    assert(acts.no_duplicates()) by {
        assert forall|i: int, j: int| 0 <= i < acts.len() && 0 <= j < acts.len() && i != j implies acts[i] != acts[j] by {
            if i < j {
                assert(s[i].action.id@ != s[j].action.id@);
            } else {
                assert(s[j].action.id@ != s[i].action.id@);
            }
        }
    }
    acts.lemma_multiset_has_no_duplicates();
    r.lemma_multiset_has_no_duplicates_conv();

    vstd::seq_lib::to_multiset_len(r);
    vstd::seq_lib::to_multiset_len(actions_of(s));
    assert(r.len() == actions_of(s).len());
    assert forall|i: int| 0 <= i < r.len() implies action_with_id(s, (#[trigger] r[i]).id@) == Some(r[i]) by {
        assert(r.contains(r[i]));
        vstd::seq_lib::to_multiset_contains(r, r[i]);
        vstd::seq_lib::to_multiset_contains(actions_of(s), r[i]);
        assert(actions_of(s).contains(r[i]));
        let k = choose|k: int| 0 <= k < actions_of(s).len() && actions_of(s)[k] == r[i];
        assert(s[k].action == r[i]);
        assert(first_with_id(s, r[i].id@, k));
        let c = choose|j: int| first_with_id(s, r[i].id@, j);
        if c < k {
            assert(s[c].action.id@ == s[k].action.id@);
        } else if c > k {
            assert(s[k].action.id@ == s[c].action.id@);
        }
    }
    assert forall|i: int, j: int| 0 <= i < j < r.len() implies (#[trigger] r[i]).id@ != (#[trigger] r[j]).id@ by {
        if r[i].id@ == r[j].id@ {
            assert(action_with_id(s, r[i].id@) == Some(r[i]));
            assert(action_with_id(s, r[j].id@) == Some(r[j]));
            assert(r[i] == r[j]);
        }
    }
}


/// The sandbox file operation an approved action performs.
#[derive(Debug, Clone)]
pub enum SandboxOp {
    Write { path: String, content: String },
    Delete { path: String },
}

/// An operation as plain values: its kind, its path and what it writes.
pub open spec fn op_view(op: SandboxOp) -> (PendingKind, Seq<char>, Seq<char>) {
    match op {
        SandboxOp::Write { path, content } => (PendingKind::WriteFile, path@, content@),
        SandboxOp::Delete { path } => (PendingKind::DeleteFile, path@, Seq::empty()),
    }
}

/// What an action does to the sandbox: a write of its content (empty when
/// it has none) or a delete, at its path.
pub open spec fn operation_of(a: PendingAction) -> (PendingKind, Seq<char>, Seq<char>) {
    match a.kind {
        PendingKind::WriteFile => (
            PendingKind::WriteFile,
            a.path@,
            match a.content {
                Some(c) => c@,
                None => Seq::empty(),
            },
        ),
        PendingKind::DeleteFile => (PendingKind::DeleteFile, a.path@, Seq::empty()),
    }
}

/// The sandbox operation of an action.
pub fn sandbox_operation(a: PendingAction) -> (op: SandboxOp)
    ensures
        op_view(op) == operation_of(a),
{
    match a.kind {
        PendingKind::WriteFile => {
            let content = match a.content {
                Some(c) => c,
                None => String::new(),
            };
            SandboxOp::Write { path: a.path, content }
        },
        PendingKind::DeleteFile => SandboxOp::Delete { path: a.path },
    }
}

/// Takes an approved action out of the store at the clock's current time and
/// gives the sandbox operation to run; an error when nothing is pending
/// under this id.
pub fn execute_approved(store: &mut PendingStore, id: &str) -> (r: Result<SandboxOp, String>)
    ensures
        exists|now: u64|
            {
                &&& final(store)@ == remove_first_id(purged(old(store)@, now), id@)
                &&& match r {
                    Ok(op) => action_with_id(purged(old(store)@, now), id@) matches Some(a)
                        && op_view(op) == operation_of(a),
                    Err(e) => action_with_id(purged(old(store)@, now), id@) is None
                        && e@ == "pending action not found or expired"@,
                }
            },
{
    let now = now_ms();
    match take_approved_at(store, id, now) {
        Ok(a) => Ok(sandbox_operation(a)),
        Err(e) => Err(e),
    }
}


proof fn lemma_oldest_exists(s: Seq<PendingEntry>)
    requires
        s.len() > 0,
    ensures
        exists|i: int| is_oldest(s, i),
    decreases s.len(),
{
    if s.len() == 1 {
        assert(is_oldest(s, 0));
    } else {
        let d = s.drop_last();
        lemma_oldest_exists(d);
        let i0 = choose|i: int| is_oldest(d, i);
        let n = s.len() - 1;
        if s[n].created_ms < s[i0].created_ms {
            assert forall|j: int| 0 <= j < n implies s[n].created_ms < #[trigger] s[j].created_ms by {
                assert(d[j] == s[j]);
            }
            assert(is_oldest(s, n));
        } else {
            assert forall|j: int| 0 <= j < s.len() implies s[i0].created_ms <= #[trigger] s[j].created_ms by {
                if j < n {
                    assert(d[j] == s[j]);
                }
            }
            assert forall|j: int| 0 <= j < i0 implies s[i0].created_ms < #[trigger] s[j].created_ms by {
                assert(d[j] == s[j]);
            }
            assert(is_oldest(s, i0));
        }
    }
}

proof fn lemma_evict_members(s: Seq<PendingEntry>, cap: nat)
    ensures
        evict_oldest(s, cap).len() <= cap || evict_oldest(s, cap) == s,
        s.len() > 0 ==> evict_oldest(s, cap).len() <= cap || s.len() <= cap,
        forall|k: int| 0 <= k < evict_oldest(s, cap).len() ==> s.contains(#[trigger] evict_oldest(s, cap)[k]),
    decreases s.len(),
{
    if s.len() > cap {
        lemma_oldest_exists(s);
        let i = choose|i: int| is_oldest(s, i);
        let t = s.remove(i);
        lemma_evict_members(t, cap);
        let r = evict_oldest(t, cap);
        assert forall|k: int| 0 <= k < r.len() implies s.contains(#[trigger] r[k]) by {
            let j = choose|j: int| 0 <= j < t.len() && t[j] == r[k];
            let j2 = if j < i { j } else { j + 1 };
            assert(s[j2] == r[k]);
        }
        if t.len() > 0 {
        } else {
            assert(r == t);
        }
    }
}

proof fn lemma_purged_members(s: Seq<PendingEntry>, now: u64)
    requires
        ids_distinct(s),
    ensures
        ids_distinct(purged(s, now)),
        purged(s, now).len() <= MAX_PENDING,
        forall|k: int| 0 <= k < purged(s, now).len() ==> s.contains(#[trigger] purged(s, now)[k]),
{
    let f = keep_fresh(s, now);
    lemma_keep_fresh_distinct(s, now);
    lemma_evict_distinct(f, MAX_PENDING as nat);
    lemma_evict_members(f, MAX_PENDING as nat);
    let p = purged(s, now);
    assert forall|k: int| 0 <= k < p.len() implies s.contains(#[trigger] p[k]) by {
        assert(f.contains(p[k]));
        let j = choose|j: int| 0 <= j < f.len() && f[j] == p[k];
        assert(s.contains(f[j]));
    }
}

/// Once an action has been taken (approved or rejected), it cannot be
/// taken, peeked or rejected again: it is gone from the store at any later
/// time.
pub proof fn lemma_taken_action_is_gone(s: Seq<PendingEntry>, id: Seq<char>, now: u64, later: u64)
    requires
        ids_distinct(s),
    ensures
        action_with_id(purged(remove_first_id(purged(s, now), id), later), id) is None,
{
    let p = purged(s, now);
    lemma_purged_members(s, now);
    let t = remove_first_id(p, id);
    if has_id(p, id) {
        lemma_first_exists(p, id);
        let i = choose|i: int| first_with_id(p, id, i);
        lemma_remove_distinct(p, i);
        assert(!has_id(t, id)) by {
            if has_id(t, id) {
                let j = choose|j: int| has_id_at(t, id, j);
                let j2 = if j < i { j } else { j + 1 };
                assert(t[j] == p[j2]);
                if j2 < i {
                    assert(p[j2].action.id@ != p[i].action.id@);
                } else {
                    assert(p[i].action.id@ != p[j2].action.id@);
                }
            }
        }
    }
    assert(ids_distinct(t)) by {
        if has_id(p, id) {
            lemma_first_exists(p, id);
            let i = choose|i: int| first_with_id(p, id, i);
            lemma_remove_distinct(p, i);
        }
    }
    lemma_purged_members(t, later);
    let q = purged(t, later);
    if has_id(q, id) {
        let j = choose|j: int| has_id_at(q, id, j);
        assert(t.contains(q[j]));
        let m = choose|m: int| 0 <= m < t.len() && t[m] == q[j];
        assert(has_id_at(t, id, m));
    }
}

/// A freshly queued action (the clock not having gone back) is found under
/// its id until it expires, however many others are queued.
pub proof fn lemma_queued_action_is_found(s: Seq<PendingEntry>, a: PendingAction, now: u64, later: u64)
    requires
        ids_distinct(s),
        forall|k: int| 0 <= k < s.len() ==> (#[trigger] s[k]).created_ms <= now,
        now <= later,
        later - now < PENDING_TTL_MS,
    ensures
        action_with_id(
            purged(without_id(purged(s, now), a.id@).push(PendingEntry { action: a, created_ms: now }), later),
            a.id@,
        ) == Some(a),
{
    let id = a.id@;
    let e = PendingEntry { action: a, created_ms: now };
    let p = purged(s, now);
    lemma_purged_members(s, now);
    let x = without_id(p, id);
    lemma_without_id_distinct(p, id);
    assert(x.len() <= p.len()) by {
        lemma_without_id_len(p, id);
    }
    let fx = keep_fresh(x, later);
    lemma_keep_fresh_distinct(x, later);
    let y = x.push(e);
    assert(y.drop_last() =~= x);
    assert(keep_fresh(y, later) == fx.push(e));
    let z = fx.push(e);
    assert(fx.len() <= x.len()) by {
        lemma_keep_fresh_len(x, later);
    }
    assert forall|k: int| 0 <= k < fx.len() implies (#[trigger] fx[k]).created_ms <= now && fx[k].action.id@ != id by {
        assert(x.contains(fx[k]));
        let m = choose|m: int| 0 <= m < x.len() && x[m] == fx[k];
        assert(p.contains(x[m]));
        let m2 = choose|m2: int| 0 <= m2 < p.len() && p[m2] == x[m];
        assert(s.contains(p[m2]));
    }
    assert(ids_distinct(z)) by {
        assert forall|i: int, j: int| 0 <= i < j < z.len() implies (#[trigger] z[i]).action.id@ != (#[trigger] z[j]).action.id@ by {
            if j == z.len() - 1 {
                assert(z[i] == fx[i]);
            } else {
                assert(z[i] == fx[i] && z[j] == fx[j]);
            }
        }
    }
    let r = evict_oldest(z, MAX_PENDING as nat);
    let last = z.len() - 1;
    assert(z[last] == e);
    // the new entry survives eviction
    let pos: int = if z.len() <= MAX_PENDING {
        assert(r == z);
        last
    } else {
        lemma_oldest_exists(z);
        let i = choose|i: int| is_oldest(z, i);
        assert(i != last) by {
            if i == last {
                assert(z[0] == fx[0]);
                assert(z[i].created_ms < z[0].created_ms);
            }
        }
        let t = z.remove(i);
        assert(t.len() == MAX_PENDING);
        assert(r == evict_oldest(t, MAX_PENDING as nat));
        assert(r == t);
        assert(t[last - 1] == e);
        last - 1
    };
    assert(r[pos] == e);
    lemma_evict_distinct(z, MAX_PENDING as nat);
    assert(has_id_at(r, id, pos));
    let f = choose|i: int| first_with_id(r, id, i);
    assert(first_with_id(r, id, pos)) by {
        assert forall|j: int| 0 <= j < pos implies r[j].action.id@ != id by {
            assert((#[trigger] r[j]).action.id@ != r[pos].action.id@);
        }
    }
    lemma_first_with_id_unique(r, id, f, pos);
}

proof fn lemma_first_exists(s: Seq<PendingEntry>, id: Seq<char>)
    requires
        has_id(s, id),
    ensures
        exists|i: int| first_with_id(s, id, i),
    decreases s.len(),
{
    let d = s.drop_last();
    if has_id(d, id) {
        lemma_first_exists(d, id);
        let i = choose|i: int| first_with_id(d, id, i);
        assert(first_with_id(s, id, i)) by {
            assert forall|j: int| 0 <= j < i implies s[j].action.id@ != id by {
                assert(d[j] == s[j]);
            }
            assert(d[i] == s[i]);
        }
    } else {
        let w = choose|w: int| has_id_at(s, id, w);
        assert(w == s.len() - 1) by {
            if w < s.len() - 1 {
                assert(d[w] == s[w]);
                assert(has_id_at(d, id, w));
            }
        }
        assert forall|j: int| 0 <= j < w implies s[j].action.id@ != id by {
            assert(d[j] == s[j]);
            if s[j].action.id@ == id {
                assert(has_id_at(d, id, j));
            }
        }
        assert(first_with_id(s, id, w));
    }
}

proof fn lemma_without_id_len(s: Seq<PendingEntry>, id: Seq<char>)
    ensures
        without_id(s, id).len() <= s.len(),
    decreases s.len(),
{
    if s.len() > 0 {
        lemma_without_id_len(s.drop_last(), id);
    }
}

proof fn lemma_keep_fresh_len(s: Seq<PendingEntry>, now: u64)
    ensures
        keep_fresh(s, now).len() <= s.len(),
    decreases s.len(),
{
    if s.len() > 0 {
        lemma_keep_fresh_len(s.drop_last(), now);
    }
}

proof fn lemma_keep_fresh_all_fresh(s: Seq<PendingEntry>, now: u64)
    ensures
        forall|k: int| 0 <= k < keep_fresh(s, now).len() ==> is_fresh(now, (#[trigger] keep_fresh(s, now)[k]).created_ms),
    decreases s.len(),
{
    if s.len() > 0 {
        lemma_keep_fresh_all_fresh(s.drop_last(), now);
        let pre = keep_fresh(s.drop_last(), now);
        assert forall|k: int| 0 <= k < keep_fresh(s, now).len() implies is_fresh(now, (#[trigger] keep_fresh(s, now)[k]).created_ms) by {
            if k < pre.len() {
                assert(keep_fresh(s, now)[k] == pre[k]);
            }
        }
    }
}

proof fn lemma_keep_fresh_of_fresh(s: Seq<PendingEntry>, now: u64)
    requires
        forall|k: int| 0 <= k < s.len() ==> is_fresh(now, (#[trigger] s[k]).created_ms),
    ensures
        keep_fresh(s, now) == s,
    decreases s.len(),
{
    if s.len() > 0 {
        let d = s.drop_last();
        assert forall|k: int| 0 <= k < d.len() implies is_fresh(now, (#[trigger] d[k]).created_ms) by {
            assert(d[k] == s[k]);
        }
        lemma_keep_fresh_of_fresh(d, now);
        assert(is_fresh(now, s[s.len() - 1].created_ms));
        assert(d.push(s.last()) =~= s);
    }
}

/// Purging twice at the same time is purging once: what a purge keeps is
/// fresh and within the cap.
pub proof fn lemma_purge_is_idempotent(s: Seq<PendingEntry>, now: u64)
    requires
        ids_distinct(s),
    ensures
        purged(purged(s, now), now) == purged(s, now),
{
    let f = keep_fresh(s, now);
    let p = purged(s, now);
    lemma_purged_members(s, now);
    lemma_keep_fresh_all_fresh(s, now);
    lemma_evict_members(f, MAX_PENDING as nat);
    assert forall|k: int| 0 <= k < p.len() implies is_fresh(now, (#[trigger] p[k]).created_ms) by {
        assert(f.contains(p[k]));
        let j = choose|j: int| 0 <= j < f.len() && f[j] == p[k];
        assert(is_fresh(now, f[j].created_ms));
    }
    lemma_keep_fresh_of_fresh(p, now);
}

proof fn lemma_keep_fresh_keeps_fresh(s: Seq<PendingEntry>, now: u64, k: int)
    requires
        0 <= k < s.len(),
        is_fresh(now, s[k].created_ms),
    ensures
        keep_fresh(s, now).contains(s[k]),
    decreases s.len(),
{
    let d = s.drop_last();
    if k == s.len() - 1 {
        assert(keep_fresh(s, now) == keep_fresh(d, now).push(s.last()));
        assert(keep_fresh(s, now)[keep_fresh(d, now).len() as int] == s[k]);
    } else {
        lemma_keep_fresh_keeps_fresh(d, now, k);
        assert(d[k] == s[k]);
        let j = choose|j: int| 0 <= j < keep_fresh(d, now).len() && keep_fresh(d, now)[j] == d[k];
        if is_fresh(now, s.last().created_ms) {
            assert(keep_fresh(s, now)[j] == keep_fresh(d, now)[j]);
        }
    }
}

/// An action found pending at one reading of the clock is still found,
/// unchanged, at any later reading at which it has not expired: later
/// purges only drop expired entries, the store being within its cap.
pub proof fn lemma_pending_until_expiry(s: Seq<PendingEntry>, id: Seq<char>, a: PendingAction, now1: u64, now2: u64)
    requires
        ids_distinct(s),
        action_with_id(purged(s, now1), id) == Some(a),
        forall|k: int|
            0 <= k < purged(s, now1).len() && (#[trigger] purged(s, now1)[k]).action.id@ == id ==> is_fresh(
                now2,
                purged(s, now1)[k].created_ms,
            ),
    ensures
        action_with_id(purged(purged(s, now1), now2), id) == Some(a),
{
    let p = purged(s, now1);
    lemma_purged_members(s, now1);
    let q = keep_fresh(p, now2);
    lemma_keep_fresh_len(p, now2);
    lemma_keep_fresh_distinct(p, now2);
    assert(evict_oldest(q, MAX_PENDING as nat) == q);
    assert(has_id(p, id));
    lemma_first_exists(p, id);
    let i = choose|i: int| first_with_id(p, id, i);
    assert(p[i].action == a);
    assert(p[i].action.id@ == id);
    lemma_keep_fresh_keeps_fresh(p, now2, i);
    let j = choose|j: int| 0 <= j < q.len() && q[j] == p[i];
    assert(q[j].action.id@ == id);
    assert(first_with_id(q, id, j)) by {
        assert forall|m: int| 0 <= m < j implies q[m].action.id@ != id by {
            if q[m].action.id@ == id {
                assert(q[m].action.id@ == q[j].action.id@);
            }
        }
    }
    let c = choose|c: int| first_with_id(q, id, c);
    if c != j {
        if c < j {
            assert(q[c].action.id@ == q[j].action.id@);
        } else {
            assert(q[j].action.id@ == q[c].action.id@);
        }
    }
}

} // verus!
