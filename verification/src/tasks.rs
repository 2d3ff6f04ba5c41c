//! Task & evidence orchestration: the per-session ledger of acknowledged
//! tasks, the evidence that backs them, and the outbound events kept for
//! resume replay.
//!
//! The orchestrator never performs provider work and never writes to the
//! wire; it validates intents, holds the canonical task state, and answers
//! resume queries. A task is completed only by the generation it is bound
//! to, by deadline expiry, or by an explicit cancel; once resolved it can
//! never be admitted or resolved again.

use crate::protocol::{
    EvidenceKind, EvidenceLink, TaskAcknowledged, TaskRequested, TaskResultKind,
    TaskStatus,
};
use crate::text::{decimal, extend_chars, extend_str, string_of, trim, trim_chars};
use vstd::prelude::*;

verus! {

broadcast use vstd::seq_lib::group_seq_properties;

/// Default soft deadline (milliseconds after acknowledgement) when the client
/// does not supply one.
pub const DEFAULT_TASK_DEADLINE_MS: u64 = 45_000;

/// How long buffered outbound events stay replayable after buffering.
pub const RESUME_BUFFER_TTL_MS: u64 = 30_000;

/// Evidence ids collected for one kind.
#[derive(Debug, Clone)]
pub struct EvidenceBucket {
    pub kind: EvidenceKind,
    pub ids: Vec<u128>,
}

/// A task acknowledged but not yet resolved.
#[derive(Debug, Clone)]
pub struct TaskRecord {
    pub task_id: u128,
    pub intent: String,
    pub deadline_ms: u64,
    /// `None` while the task waits for the next generation.
    pub generation_id: Option<u128>,
    /// Evidence grouped by kind, kinds in the order they were first seen.
    pub collected_evidence: Vec<EvidenceBucket>,
}

#[verifier::ext_equal]
pub struct TaskRecordModel {
    pub task_id: u128,
    pub intent: Seq<char>,
    pub deadline_ms: u64,
    pub generation_id: Option<u128>,
    pub evidence: Seq<(EvidenceKind, Seq<u128>)>,
}

impl View for EvidenceBucket {
    type V = (EvidenceKind, Seq<u128>);

    open spec fn view(&self) -> (EvidenceKind, Seq<u128>) {
        (self.kind, self.ids@)
    }
}

impl View for TaskRecord {
    type V = TaskRecordModel;

    open spec fn view(&self) -> TaskRecordModel {
        TaskRecordModel {
            task_id: self.task_id,
            intent: self.intent@,
            deadline_ms: self.deadline_ms,
            generation_id: self.generation_id,
            evidence: self.collected_evidence@.map_values(|b: EvidenceBucket| b@),
        }
    }
}

/// A buffered outbound envelope with the time it was buffered.
#[derive(Debug, Clone)]
pub struct BufferedEvent {
    pub event_id: u128,
    pub buffered_at_ms: u64,
    pub envelope_json: String,
}

pub struct BufferedModel {
    pub event_id: u128,
    pub buffered_at_ms: u64,
    pub envelope_json: Seq<char>,
}

impl View for BufferedEvent {
    type V = BufferedModel;

    open spec fn view(&self) -> BufferedModel {
        BufferedModel {
            event_id: self.event_id,
            buffered_at_ms: self.buffered_at_ms,
            envelope_json: self.envelope_json@,
        }
    }
}

/// An outcome the session must emit on the wire.
#[derive(Debug, Clone)]
pub struct PendingOutcome {
    pub task_id: u128,
    pub intent: String,
    pub result: TaskResultKind,
    pub evidence_ids: Vec<u128>,
    pub error_code: Option<String>,
    pub error_detail: Option<String>,
    pub summary: String,
}

pub struct PendingOutcomeModel {
    pub task_id: u128,
    pub intent: Seq<char>,
    pub result: TaskResultKind,
    pub evidence_ids: Seq<u128>,
    pub error_code: Option<Seq<char>>,
    pub error_detail: Option<Seq<char>>,
    pub summary: Seq<char>,
}

pub open spec fn opt_view(s: Option<String>) -> Option<Seq<char>> {
    match s {
        Some(t) => Some(t@),
        None => None,
    }
}

impl View for PendingOutcome {
    type V = PendingOutcomeModel;

    open spec fn view(&self) -> PendingOutcomeModel {
        PendingOutcomeModel {
            task_id: self.task_id,
            intent: self.intent@,
            result: self.result,
            evidence_ids: self.evidence_ids@,
            error_code: opt_view(self.error_code),
            error_detail: opt_view(self.error_detail),
            summary: self.summary@,
        }
    }
}

/// The whole ledger, as the contracts see it.
#[verifier::ext_equal]
pub struct OrchestratorModel {
    /// Active tasks in admission order.
    pub active: Seq<TaskRecordModel>,
    /// Resolved tasks with their result, in resolution order.
    pub completed: Seq<(u128, TaskResultKind)>,
    /// Buffered event ids with the sequence they were buffered under.
    pub buffered_ids: Seq<(u128, u64)>,
    /// Buffered events keyed by sequence, ascending.
    pub buffered: Seq<(u64, BufferedModel)>,
    /// Evidence links in insertion order.
    pub links: Seq<EvidenceLink>,
    /// Deadline given to tasks that do not carry one (0 = none).
    pub default_deadline_ms: u64,
}

pub struct TaskOrchestrator {
    active: Vec<TaskRecord>,
    completed: Vec<(u128, TaskResultKind)>,
    buffered_ids: Vec<(u128, u64)>,
    buffered: Vec<(u64, BufferedEvent)>,
    links: Vec<EvidenceLink>,
    default_deadline_ms: u64,
}

pub open spec fn buffered_view(s: Seq<(u64, BufferedEvent)>) -> Seq<(u64, BufferedModel)> {
    s.map_values(|p: (u64, BufferedEvent)| (p.0, p.1@))
}

impl View for TaskOrchestrator {
    type V = OrchestratorModel;

    closed spec fn view(&self) -> OrchestratorModel {
        OrchestratorModel {
            active: self.active@.map_values(|r: TaskRecord| r@),
            completed: self.completed@,
            buffered_ids: self.buffered_ids@,
            buffered: buffered_view(self.buffered@),
            links: self.links@,
            default_deadline_ms: self.default_deadline_ms,
        }
    }
}

/// `id` is the id of an active task.
pub open spec fn is_active(active: Seq<TaskRecordModel>, id: u128) -> bool {
    exists|i: int| 0 <= i < active.len() && active[i].task_id == id
}

/// `id` has been resolved.
pub open spec fn is_completed(completed: Seq<(u128, TaskResultKind)>, id: u128) -> bool {
    exists|i: int| 0 <= i < completed.len() && completed[i].0 == id
}

/// The ledger's invariant: active ids are distinct and never resolved,
/// resolved ids are distinct, buffered sequences strictly ascend, and each
/// buffered event id is recorded once.
pub open spec fn ledger_ok(m: OrchestratorModel) -> bool {
    &&& forall|i: int, j: int|
        0 <= i < j < m.active.len() ==> m.active[i].task_id != m.active[j].task_id
    &&& forall|i: int|
        0 <= i < m.active.len() ==> !is_completed(m.completed, #[trigger] m.active[i].task_id)
    &&& forall|i: int|
        0 <= i < m.active.len() ==> buckets_distinct(#[trigger] m.active[i].evidence)
    &&& forall|i: int, j: int|
        0 <= i < j < m.completed.len() ==> m.completed[i].0 != m.completed[j].0
    &&& forall|i: int, j: int| 0 <= i < j < m.buffered.len() ==> m.buffered[i].0 < m.buffered[j].0
    &&& forall|i: int, j: int|
        0 <= i < j < m.buffered_ids.len() ==> m.buffered_ids[i].0 != m.buffered_ids[j].0
}

impl TaskOrchestrator {
    /// The ledger's invariant holds.
    pub open spec fn wf(&self) -> bool {
        ledger_ok(self@)
    }

    /// An empty ledger with the default task deadline.
    pub fn new() -> (o: Self)
        ensures
            o.wf(),
            o@.active.len() == 0,
            o@.completed.len() == 0,
            o@.buffered_ids.len() == 0,
            o@.buffered.len() == 0,
            o@.links.len() == 0,
            o@.default_deadline_ms == DEFAULT_TASK_DEADLINE_MS,
    {
        let o = TaskOrchestrator {
            active: Vec::new(),
            completed: Vec::new(),
            buffered_ids: Vec::new(),
            buffered: Vec::new(),
            links: Vec::new(),
            default_deadline_ms: DEFAULT_TASK_DEADLINE_MS,
        };
        proof {
            assert(o@.active =~= Seq::<TaskRecordModel>::empty());
            assert(buffered_view(o.buffered@) =~= Seq::<(u64, BufferedModel)>::empty());
        }
        o
    }

    /// Sets the deadline given to tasks admitted without one (`0` disables
    /// the implicit deadline).
    pub fn set_default_task_deadline_ms(&mut self, ms: u64)
        requires
            old(self).wf(),
        ensures
            final(self).wf(),
            final(self)@ == (OrchestratorModel { default_deadline_ms: ms, ..old(self)@ }),
    {
        self.default_deadline_ms = ms;
    }

    /// The deadline given to tasks admitted without one.
    pub fn default_task_deadline_ms(&self) -> (ms: u64)
        ensures
            ms == self@.default_deadline_ms,
    {
        self.default_deadline_ms
    }

    /// Number of active (acknowledged, unresolved) tasks.
    pub fn active_count(&self) -> (n: usize)
        ensures
            n == self@.active.len(),
    {
        self.active.len()
    }

    /// Number of buffered events.
    pub fn buffered_count(&self) -> (n: usize)
        ensures
            n == self@.buffered.len(),
    {
        self.buffered.len()
    }
}


/// `a + b`, capped at `u64::MAX`.
pub open spec fn sat_add(a: u64, b: u64) -> u64 {
    if a + b > u64::MAX {
        u64::MAX
    } else {
        (a + b) as u64
    }
}

/// Deadline of a task admitted at `now` without an explicit one: the
/// default after `now`, or a far-future sentinel when the default is 0.
pub open spec fn implicit_deadline(now: u64, default_ms: u64) -> u64 {
    if default_ms == 0 {
        sat_add(now, u32::MAX as u64)
    } else {
        sat_add(now, default_ms)
    }
}

/// The deadline a request receives on admission.
pub open spec fn admitted_deadline(request: TaskRequested, now: u64, default_ms: u64) -> u64 {
    match request.deadline_ms {
        Some(d) => d,
        None => implicit_deadline(now, default_ms),
    }
}

pub open spec fn visual_warning() -> Seq<char> {
    "no provider bound to the task; visual evidence may be unavailable"@
}

/// Warnings attached to an acknowledgement.
pub open spec fn admission_warnings(request: TaskRequested, has_provider: bool) -> Seq<Seq<char>> {
    if request.evidence_required@.contains(EvidenceKind::Visual) && !has_provider {
        seq![visual_warning()]
    } else {
        Seq::empty()
    }
}

/// A request is admitted when its intent is not blank and its id has never
/// been seen (neither active nor resolved).
pub open spec fn admissible(m: OrchestratorModel, request: TaskRequested) -> bool {
    &&& trim(request.intent@).len() > 0
    &&& !is_active(m.active, request.task_id)
    &&& !is_completed(m.completed, request.task_id)
}

pub open spec fn str_opt_view(s: Option<&str>) -> Option<Seq<char>> {
    match s {
        Some(t) => Some(t@),
        None => None,
    }
}

pub open spec fn strings_view(v: Seq<String>) -> Seq<Seq<char>> {
    v.map_values(|s: String| s@)
}

/// The record stored for an admitted request.
pub open spec fn admitted_record(request: TaskRequested, deadline: u64) -> TaskRecordModel {
    TaskRecordModel {
        task_id: request.task_id,
        intent: request.intent@,
        deadline_ms: deadline,
        generation_id: request.generation_id,
        evidence: Seq::empty(),
    }
}

impl TaskOrchestrator {
    /// Position of the active task with id `id`.
    fn active_index(&self, id: u128) -> (r: Option<usize>)
        ensures
            match r {
                Some(i) => i < self@.active.len() && self@.active[i as int].task_id == id,
                None => !is_active(self@.active, id),
            },
    {
        let mut i: usize = 0;
        while i < self.active.len()
            invariant
                i <= self.active@.len(),
                self@.active == self.active@.map_values(|r: TaskRecord| r@),
                forall|j: int| 0 <= j < i ==> self@.active[j].task_id != id,
            decreases self.active@.len() - i,
        {
            if self.active[i].task_id == id {
                return Some(i);
            }
            i = i + 1;
        }
        None
    }

    /// Whether `id` has been resolved.
    fn completed_has(&self, id: u128) -> (r: bool)
        ensures
            r == is_completed(self@.completed, id),
    {
        let mut i: usize = 0;
        while i < self.completed.len()
            invariant
                i <= self.completed@.len(),
                self@.completed == self.completed@,
                forall|j: int| 0 <= j < i ==> self@.completed[j].0 != id,
            decreases self.completed@.len() - i,
        {
            if self.completed[i].0 == id {
                return true;
            }
            i = i + 1;
        }
        false
    }

    /// Validates a task request and records it, returning the acknowledgement
    /// to emit; `None` rejects a blank intent or an id already seen.
    pub fn admit_request(&mut self, request: TaskRequested, provider_id: Option<&str>, now_ms: u64) -> (ack:
        Option<TaskAcknowledged>)
        requires
            old(self).wf(),
        ensures
            final(self).wf(),
            ack is Some <==> admissible(old(self)@, request),
            ack is None ==> final(self)@ == old(self)@,
            ack matches Some(a) ==> {
                let d = admitted_deadline(request, now_ms, old(self)@.default_deadline_ms);
                &&& a.task_id == request.task_id
                &&& a.status == TaskStatus::Queued
                &&& a.deadline_ms == d
                &&& opt_view(a.provider_id) == str_opt_view(provider_id)
                &&& strings_view(a.warnings@) == admission_warnings(request, provider_id is Some)
                &&& final(self)@ == (OrchestratorModel {
                    active: old(self)@.active.push(admitted_record(request, d)),
                    ..old(self)@
                })
            },
    {
        let intent_chars = crate::text::chars_of(request.intent.as_str());
        let trimmed = trim_chars(&intent_chars);
        if trimmed.len() == 0 {
            return None;
        }
        if self.active_index(request.task_id).is_some() || self.completed_has(request.task_id) {
            return None;
        }
        let deadline_ms: u64 = match request.deadline_ms {
            Some(d) => d,
            None => {
                let extra: u64 = if self.default_deadline_ms == 0 {
                    0xffff_ffffu64
                } else {
                    self.default_deadline_ms
                };
                if now_ms > u64::MAX - extra {
                    u64::MAX
                } else {
                    now_ms + extra
                }
            },
        };
        let mut wants_visual = false;
        let mut k: usize = 0;
        while k < request.evidence_required.len()
            invariant
                k <= request.evidence_required@.len(),
                wants_visual == exists|j: int|
                    0 <= j < k && request.evidence_required@[j] == EvidenceKind::Visual,
            decreases request.evidence_required@.len() - k,
        {
            if request.evidence_required[k] == EvidenceKind::Visual {
                wants_visual = true;
            }
            k = k + 1;
        }
        let mut warnings: Vec<String> = Vec::new();
        if wants_visual && provider_id.is_none() {
            warnings.push(
                "no provider bound to the task; visual evidence may be unavailable".to_owned(),
            );
        }
        let provider_owned: Option<String> = match provider_id {
            Some(p) => Some(p.to_owned()),
            None => None,
        };
        let task_id = request.task_id;
        let ghost old_model = self@;
        let record = TaskRecord {
            task_id,
            intent: request.intent,
            deadline_ms,
            generation_id: request.generation_id,
            collected_evidence: Vec::new(),
        };
        proof {
            assert(record@.evidence =~= Seq::<(EvidenceKind, Seq<u128>)>::empty());
            assert(record@ =~= admitted_record(request, deadline_ms));
        }
        let ghost old_active = self.active@;
        self.active.push(record);
        proof {
            assert(self.active@ == old_active.push(record));
            assert(strings_view(warnings@) =~= admission_warnings(request, provider_id is Some));
            assert(self@.active =~= old_model.active.push(admitted_record(request, deadline_ms)));
            assert(self@ =~= OrchestratorModel {
                active: old_model.active.push(admitted_record(request, deadline_ms)),
                ..old_model
            });
            assert forall|i: int|
                0 <= i < self@.active.len() implies !is_completed(
                self@.completed,
                #[trigger] self@.active[i].task_id,
            ) by {
                if i < old_model.active.len() {
                    assert(self@.active[i] == old_model.active[i]);
                }
            }
        }
        Some(
            TaskAcknowledged {
                task_id,
                status: TaskStatus::Queued,
                deadline_ms,
                provider_id: provider_owned,
                warnings,
            },
        )
    }
}


/// Ids of the tasks still waiting for a generation, in order.
pub open spec fn unbound_ids(s: Seq<TaskRecordModel>) -> Seq<u128>
    decreases s.len(),
{
    if s.len() == 0 {
        Seq::empty()
    } else {
        let prefix = unbound_ids(s.drop_last());
        if s.last().generation_id is None {
            prefix.push(s.last().task_id)
        } else {
            prefix
        }
    }
}

/// Ids of the tasks bound to generation `g`, in order.
pub open spec fn ids_bound_to(s: Seq<TaskRecordModel>, g: u128) -> Seq<u128>
    decreases s.len(),
{
    if s.len() == 0 {
        Seq::empty()
    } else {
        let prefix = ids_bound_to(s.drop_last(), g);
        if s.last().generation_id == Some(g) {
            prefix.push(s.last().task_id)
        } else {
            prefix
        }
    }
}

/// A record with its generation set to `g` when it had none.
pub open spec fn bind_record(r: TaskRecordModel, g: u128) -> TaskRecordModel {
    if r.generation_id is None {
        TaskRecordModel { generation_id: Some(g), ..r }
    } else {
        r
    }
}

/// Targets of the links whose source is `source`, in insertion order.
pub open spec fn targets_of(links: Seq<EvidenceLink>, source: u128) -> Seq<u128>
    decreases links.len(),
{
    if links.len() == 0 {
        Seq::empty()
    } else {
        let prefix = targets_of(links.drop_last(), source);
        if links.last().source_id == source {
            prefix.push(links.last().target_id)
        } else {
            prefix
        }
    }
}

/// Sources of the links whose target is `target`, in insertion order.
pub open spec fn sources_of(links: Seq<EvidenceLink>, target: u128) -> Seq<u128>
    decreases links.len(),
{
    if links.len() == 0 {
        Seq::empty()
    } else {
        let prefix = sources_of(links.drop_last(), target);
        if links.last().target_id == target {
            prefix.push(links.last().source_id)
        } else {
            prefix
        }
    }
}

/// Two links are the same link: same endpoints and same type (links are
/// deduplicated by that triple, whatever their confidence).
pub open spec fn same_link(a: EvidenceLink, b: EvidenceLink) -> bool {
    &&& a.source_id == b.source_id
    &&& a.target_id == b.target_id
    &&& a.link_type == b.link_type
}

pub open spec fn has_link(links: Seq<EvidenceLink>, l: EvidenceLink) -> bool {
    exists|i: int| 0 <= i < links.len() && same_link(links[i], l)
}

/// Index of the bucket for `kind`.
pub open spec fn bucket_of(ev: Seq<(EvidenceKind, Seq<u128>)>, kind: EvidenceKind) -> Option<int> {
    if exists|j: int| 0 <= j < ev.len() && ev[j].0 == kind {
        Some(choose|j: int| 0 <= j < ev.len() && ev[j].0 == kind)
    } else {
        None
    }
}

/// The evidence of a record after attaching `id` under `kind` (a new bucket
/// is appended for a kind not seen before).
pub open spec fn evidence_after_attach(
    ev: Seq<(EvidenceKind, Seq<u128>)>,
    kind: EvidenceKind,
    id: u128,
) -> Seq<(EvidenceKind, Seq<u128>)> {
    match bucket_of(ev, kind) {
        Some(j) => ev.update(j, (kind, ev[j].1.push(id))),
        None => ev.push((kind, seq![id])),
    }
}

/// Evidence `id` is already recorded under `kind`.
pub open spec fn evidence_recorded(
    ev: Seq<(EvidenceKind, Seq<u128>)>,
    kind: EvidenceKind,
    id: u128,
) -> bool {
    match bucket_of(ev, kind) {
        Some(j) => ev[j].1.contains(id),
        None => false,
    }
}

/// Each kind has at most one bucket.
pub open spec fn buckets_distinct(ev: Seq<(EvidenceKind, Seq<u128>)>) -> bool {
    forall|i: int, j: int| 0 <= i < j < ev.len() ==> ev[i].0 != ev[j].0
}

impl TaskOrchestrator {
    /// Binds every task still waiting for a generation to `generation_id`;
    /// returns the ids bound, in admission order.
    pub fn bind_pending_to_generation(&mut self, generation_id: u128) -> (bound: Vec<u128>)
        requires
            old(self).wf(),
        ensures
            final(self).wf(),
            bound@ == unbound_ids(old(self)@.active),
            final(self)@ == (OrchestratorModel {
                active: old(self)@.active.map_values(
                    |r: TaskRecordModel| bind_record(r, generation_id),
                ),
                ..old(self)@
            }),
    {
        let ghost old_model = self@;
        let ghost old_active = self.active@;
        let mut bound: Vec<u128> = Vec::new();
        let mut i: usize = 0;
        while i < self.active.len()
            invariant
                i <= self.active@.len(),
                self.active@.len() == old_active.len(),
                forall|j: int| 0 <= j < i ==> #[trigger] self.active@[j]@ == bind_record(old_active[j]@, generation_id),
                forall|j: int| i <= j < self.active@.len() ==> #[trigger] self.active@[j] == old_active[j],
                bound@ == unbound_ids(old_model.active.subrange(0, i as int)),
                old_model.active == old_active.map_values(|r: TaskRecord| r@),
                self.completed@ == old_model.completed,
                self.buffered_ids@ == old_model.buffered_ids,
                buffered_view(self.buffered@) == old_model.buffered,
                self.links@ == old_model.links,
                self.default_deadline_ms == old_model.default_deadline_ms,
            decreases self.active@.len() - i,
        {
            assert(old_model.active.subrange(0, i + 1).drop_last() =~= old_model.active.subrange(0, i as int));
            if self.active[i].generation_id.is_none() {
                let id = self.active[i].task_id;
                self.active[i].generation_id = Some(generation_id);
                bound.push(id);
                assert(self.active@[i as int]@ =~= bind_record(old_active[i as int]@, generation_id));
            }
            i = i + 1;
        }
        proof {
            assert(old_model.active.subrange(0, old_model.active.len() as int) =~= old_model.active);
            assert(self@.active =~= old_model.active.map_values(
                |r: TaskRecordModel| bind_record(r, generation_id),
            ));
            assert(self@ =~= OrchestratorModel {
                active: old_model.active.map_values(
                    |r: TaskRecordModel| bind_record(r, generation_id),
                ),
                ..old_model
            });
            assert forall|a: int, b: int| 0 <= a < b < self@.active.len() implies self@.active[a].task_id != self@.active[b].task_id by {
                assert(self@.active[a].task_id == old_model.active[a].task_id);
                assert(self@.active[b].task_id == old_model.active[b].task_id);
            }
            assert forall|a: int|
                0 <= a < self@.active.len() implies !is_completed(
                self@.completed,
                #[trigger] self@.active[a].task_id,
            ) by {
                assert(self@.active[a].task_id == old_model.active[a].task_id);
            }
        }
        bound
    }

    /// Ids of the active tasks bound to `generation_id`, in admission order.
    pub fn task_ids_for_generation(&self, generation_id: u128) -> (ids: Vec<u128>)
        ensures
            ids@ == ids_bound_to(self@.active, generation_id),
    {
        let ghost model = self@.active;
        let mut ids: Vec<u128> = Vec::new();
        let mut i: usize = 0;
        while i < self.active.len()
            invariant
                i <= self.active@.len(),
                model == self.active@.map_values(|r: TaskRecord| r@),
                ids@ == ids_bound_to(model.subrange(0, i as int), generation_id),
            decreases self.active@.len() - i,
        {
            assert(model.subrange(0, i + 1).drop_last() =~= model.subrange(0, i as int));
            if self.active[i].generation_id == Some(generation_id) {
                ids.push(self.active[i].task_id);
            }
            i = i + 1;
        }
        assert(model.subrange(0, model.len() as int) =~= model);
        ids
    }

    /// Every evidence id linked from `task_id`, in link order.
    pub fn evidence_for(&self, task_id: u128) -> (ids: Vec<u128>)
        ensures
            ids@ == targets_of(self@.links, task_id),
    {
        let mut ids: Vec<u128> = Vec::new();
        let mut i: usize = 0;
        while i < self.links.len()
            invariant
                i <= self.links@.len(),
                self@.links == self.links@,
                ids@ == targets_of(self.links@.subrange(0, i as int), task_id),
            decreases self.links@.len() - i,
        {
            assert(self.links@.subrange(0, i + 1).drop_last() =~= self.links@.subrange(0, i as int));
            if self.links[i].source_id == task_id {
                ids.push(self.links[i].target_id);
            }
            i = i + 1;
        }
        assert(self.links@.subrange(0, self.links@.len() as int) =~= self.links@);
        ids
    }

    /// Every task that cites `evidence_id`, in link order.
    pub fn tasks_for_evidence(&self, evidence_id: u128) -> (ids: Vec<u128>)
        ensures
            ids@ == sources_of(self@.links, evidence_id),
    {
        let mut ids: Vec<u128> = Vec::new();
        let mut i: usize = 0;
        while i < self.links.len()
            invariant
                i <= self.links@.len(),
                self@.links == self.links@,
                ids@ == sources_of(self.links@.subrange(0, i as int), evidence_id),
            decreases self.links@.len() - i,
        {
            assert(self.links@.subrange(0, i + 1).drop_last() =~= self.links@.subrange(0, i as int));
            if self.links[i].target_id == evidence_id {
                ids.push(self.links[i].source_id);
            }
            i = i + 1;
        }
        assert(self.links@.subrange(0, self.links@.len() as int) =~= self.links@);
        ids
    }

    /// Records a link between a task and an evidence event; `false` when the
    /// same link is already recorded.
    pub fn link_evidence(&mut self, link: &EvidenceLink) -> (inserted: bool)
        requires
            old(self).wf(),
        ensures
            final(self).wf(),
            inserted == !has_link(old(self)@.links, *link),
            final(self)@ == (if inserted {
                OrchestratorModel { links: old(self)@.links.push(*link), ..old(self)@ }
            } else {
                old(self)@
            }),
    {
        let mut i: usize = 0;
        while i < self.links.len()
            invariant
                i <= self.links@.len(),
                self.wf(),
                self@ == old(self)@,
                forall|j: int| 0 <= j < i ==> !same_link(#[trigger] self.links@[j], *link),
            decreases self.links@.len() - i,
        {
            let l = self.links[i];
            if l.source_id == link.source_id && l.target_id == link.target_id && l.link_type
                == link.link_type {
                return false;
            }
            i = i + 1;
        }
        let ghost old_model = self@;
        self.links.push(*link);
        proof {
            assert(self@ =~= OrchestratorModel { links: old_model.links.push(*link), ..old_model });
        }
        true
    }
}


impl TaskOrchestrator {
    /// Attaches an evidence id to an active task under `kind`; `false` when
    /// the task is not active or the id is already recorded for that kind.
    pub fn attach_evidence(&mut self, task_id: u128, kind: EvidenceKind, evidence_id: u128) -> (attached: bool)
        requires
            old(self).wf(),
        ensures
            final(self).wf(),
            !is_active(old(self)@.active, task_id) ==> !attached && final(self)@ == old(self)@,
            forall|i: int|
                0 <= i < old(self)@.active.len() && old(self)@.active[i].task_id == task_id ==> {
                    let r = old(self)@.active[i];
                    &&& attached == !evidence_recorded(r.evidence, kind, evidence_id)
                    &&& final(self)@ == (if attached {
                        OrchestratorModel {
                            active: old(self)@.active.update(
                                i,
                                TaskRecordModel {
                                    evidence: evidence_after_attach(r.evidence, kind, evidence_id),
                                    ..r
                                },
                            ),
                            ..old(self)@
                        }
                    } else {
                        old(self)@
                    })
                },
    {
        let idx = match self.active_index(task_id) {
            Some(i) => i,
            None => return false,
        };
        let ghost old_model = self@;
        let ghost rec = self@.active[idx as int];
        let n = self.active[idx].collected_evidence.len();
        proof {
            assert forall|i: int|
                0 <= i < old_model.active.len() && old_model.active[i].task_id == task_id implies i
                == idx as int by {
                if i != idx as int {
                    if i < idx as int {
                    } else {
                    }
                }
            }
        }
        let mut j: usize = 0;
        while j < n && self.active[idx].collected_evidence[j].kind != kind
            invariant
                j <= n,
                idx < self.active@.len(),
                n == self.active@[idx as int].collected_evidence@.len(),
                self@ == old_model,
                old_model == old(self)@,
                ledger_ok(old_model),
                rec == old_model.active[idx as int],
                rec.evidence.len() == n,
                forall|k: int| 0 <= k < j ==> #[trigger] rec.evidence[k].0 != kind,
            decreases n - j,
        {
            j = j + 1;
        }
        if j < n {
            assert(rec.evidence[j as int].0 == kind);
            assert(bucket_of(rec.evidence, kind) == Some(j as int)) by {
                let c = choose|k: int| 0 <= k < rec.evidence.len() && rec.evidence[k].0 == kind;
                assert(buckets_distinct(rec.evidence));
                if c != j as int {
                    if c < j as int {
                    } else {
                    }
                }
            }
            let m = self.active[idx].collected_evidence[j].ids.len();
            let mut k: usize = 0;
            while k < m
                invariant
                    k <= m,
                    idx < self.active@.len(),
                    j < self.active@[idx as int].collected_evidence@.len(),
                    m == rec.evidence[j as int].1.len(),
                    self@ == old_model,
                    old_model == old(self)@,
                    ledger_ok(old_model),
                    bucket_of(rec.evidence, kind) == Some(j as int),
                    forall|i: int|
                        0 <= i < old_model.active.len() && old_model.active[i].task_id == task_id
                            ==> i == idx as int,
                    rec == old_model.active[idx as int],
                    forall|q: int| 0 <= q < k ==> #[trigger] rec.evidence[j as int].1[q] != evidence_id,
                decreases m - k,
            {
                if self.active[idx].collected_evidence[j].ids[k] == evidence_id {
                    assert(rec.evidence[j as int].1.contains(evidence_id));
                    return false;
                }
                k = k + 1;
            }
            self.active[idx].collected_evidence[j].ids.push(evidence_id);
            proof {
                assert(self@.active[idx as int].evidence =~= evidence_after_attach(rec.evidence, kind, evidence_id));
                assert(self@.active =~= old_model.active.update(
                    idx as int,
                    TaskRecordModel {
                        evidence: evidence_after_attach(rec.evidence, kind, evidence_id),
                        ..rec
                    },
                ));
            }
        } else {
            assert(bucket_of(rec.evidence, kind) is None);
            let mut ids: Vec<u128> = Vec::new();
            ids.push(evidence_id);
            self.active[idx].collected_evidence.push(EvidenceBucket { kind, ids });
            proof {
                assert(self@.active[idx as int].evidence =~= evidence_after_attach(rec.evidence, kind, evidence_id));
                assert(self@.active =~= old_model.active.update(
                    idx as int,
                    TaskRecordModel {
                        evidence: evidence_after_attach(rec.evidence, kind, evidence_id),
                        ..rec
                    },
                ));
            }
        }
        proof {
            assert(self@ =~= OrchestratorModel {
                active: old_model.active.update(
                    idx as int,
                    TaskRecordModel {
                        evidence: evidence_after_attach(rec.evidence, kind, evidence_id),
                        ..rec
                    },
                ),
                ..old_model
            });
            assert(buckets_distinct(self@.active[idx as int].evidence));
            assert forall|a: int, b: int| 0 <= a < b < self@.active.len() implies self@.active[a].task_id != self@.active[b].task_id by {
                assert(self@.active[a].task_id == old_model.active[a].task_id);
                assert(self@.active[b].task_id == old_model.active[b].task_id);
            }
            assert forall|a: int|
                0 <= a < self@.active.len() implies !is_completed(
                self@.completed,
                #[trigger] self@.active[a].task_id,
            ) by {
                assert(self@.active[a].task_id == old_model.active[a].task_id);
            }
            assert forall|a: int|
                0 <= a < self@.active.len() implies buckets_distinct(#[trigger] self@.active[a].evidence) by {
                if a != idx as int {
                    assert(self@.active[a] == old_model.active[a]);
                }
            }
        }
        true
    }
}


/// The records satisfying `p`, in order.
pub open spec fn keep_where(s: Seq<TaskRecordModel>, p: spec_fn(TaskRecordModel) -> bool) -> Seq<
    TaskRecordModel,
>
    decreases s.len(),
{
    if s.len() == 0 {
        Seq::empty()
    } else {
        let prefix = keep_where(s.drop_last(), p);
        if p(s.last()) {
            prefix.push(s.last())
        } else {
            prefix
        }
    }
}

/// A task whose deadline has passed at `now`.
pub open spec fn due_at(now: u64) -> spec_fn(TaskRecordModel) -> bool {
    |r: TaskRecordModel| r.deadline_ms <= now
}

/// A task whose deadline has not passed at `now`.
pub open spec fn pending_at(now: u64) -> spec_fn(TaskRecordModel) -> bool {
    |r: TaskRecordModel| !(r.deadline_ms <= now)
}

/// A task bound to generation `g`.
pub open spec fn bound_to(g: u128) -> spec_fn(TaskRecordModel) -> bool {
    |r: TaskRecordModel| r.generation_id == Some(g)
}

/// A task not bound to generation `g`.
pub open spec fn not_bound_to(g: u128) -> spec_fn(TaskRecordModel) -> bool {
    |r: TaskRecordModel| !(r.generation_id == Some(g))
}

/// Ids of distinct records are distinct.
pub open spec fn ids_distinct(s: Seq<TaskRecordModel>) -> bool {
    forall|i: int, j: int| 0 <= i < j < s.len() ==> s[i].task_id != s[j].task_id
}

#[verifier::spinoff_prover]
pub proof fn lemma_keep_where_members(s: Seq<TaskRecordModel>, p: spec_fn(TaskRecordModel) -> bool)
    ensures
        keep_where(s, p).len() <= s.len(),
        forall|k: int|
            0 <= k < keep_where(s, p).len() ==> exists|j: int|
                0 <= j < s.len() && #[trigger] keep_where(s, p)[k] == s[j] && p(s[j]),
    decreases s.len(),
{
    if s.len() > 0 {
        lemma_keep_where_members(s.drop_last(), p);
        let pre = keep_where(s.drop_last(), p);
        assert forall|k: int| 0 <= k < keep_where(s, p).len() implies exists|j: int|
            0 <= j < s.len() && #[trigger] keep_where(s, p)[k] == s[j] && p(s[j]) by {
            if k < pre.len() {
                let j = choose|j: int|
                    0 <= j < s.drop_last().len() && pre[k] == s.drop_last()[j] && p(
                        s.drop_last()[j],
                    );
                assert(keep_where(s, p)[k] == s[j]);
            } else {
                assert(keep_where(s, p)[k] == s[s.len() - 1]);
            }
        }
    }
}

pub proof fn lemma_keep_where_distinct(s: Seq<TaskRecordModel>, p: spec_fn(TaskRecordModel) -> bool)
    requires
        ids_distinct(s),
    ensures
        ids_distinct(keep_where(s, p)),
    decreases s.len(),
{
    if s.len() > 0 {
        assert(ids_distinct(s.drop_last()));
        lemma_keep_where_distinct(s.drop_last(), p);
        lemma_keep_where_members(s.drop_last(), p);
        let pre = keep_where(s.drop_last(), p);
        if p(s.last()) {
            assert forall|i: int, j: int|
                0 <= i < j < keep_where(s, p).len() implies keep_where(s, p)[i].task_id
                != keep_where(s, p)[j].task_id by {
                if j == pre.len() {
                    let a = choose|a: int|
                        0 <= a < s.drop_last().len() && #[trigger] pre[i] == s.drop_last()[a] && p(
                            s.drop_last()[a],
                        );
                    assert(s[a] == pre[i]);
                }
            }
        }
    }
}

/// Records chosen by `p` and by its negation never share an id.
pub proof fn lemma_keep_where_split_disjoint(
    s: Seq<TaskRecordModel>,
    p: spec_fn(TaskRecordModel) -> bool,
    q: spec_fn(TaskRecordModel) -> bool,
)
    requires
        ids_distinct(s),
        forall|r: TaskRecordModel| #[trigger] p(r) ==> !q(r),
    ensures
        forall|a: int, b: int|
            0 <= a < keep_where(s, p).len() && 0 <= b < keep_where(s, q).len() ==> keep_where(
                s,
                p,
            )[a].task_id != keep_where(s, q)[b].task_id,
{
    lemma_keep_where_members(s, p);
    lemma_keep_where_members(s, q);
    assert forall|a: int, b: int|
        0 <= a < keep_where(s, p).len() && 0 <= b < keep_where(s, q).len() implies keep_where(
        s,
        p,
    )[a].task_id != keep_where(s, q)[b].task_id by {
        let x = choose|j: int| 0 <= j < s.len() && keep_where(s, p)[a] == s[j] && p(s[j]);
        let y = choose|j: int| 0 <= j < s.len() && keep_where(s, q)[b] == s[j] && q(s[j]);
        assert(x != y);
    }
}


pub open spec fn selector(by_generation: bool, g: u128, now: u64) -> spec_fn(TaskRecordModel) -> bool {
    |r: TaskRecordModel|
        if by_generation {
            r.generation_id == Some(g)
        } else {
            r.deadline_ms <= now
        }
}

pub open spec fn rest_selector(by_generation: bool, g: u128, now: u64) -> spec_fn(
    TaskRecordModel,
) -> bool {
    |r: TaskRecordModel|
        !(if by_generation {
            r.generation_id == Some(g)
        } else {
            r.deadline_ms <= now
        })
}

pub open spec fn records_view(s: Seq<TaskRecord>) -> Seq<TaskRecordModel> {
    s.map_values(|r: TaskRecord| r@)
}

impl TaskOrchestrator {
    /// Removes the active tasks chosen by the selector (bound to `g`, or due
    /// at `now`), returning them in admission order.
    fn take_selected(&mut self, by_generation: bool, g: u128, now: u64) -> (taken: Vec<TaskRecord>)
        requires
            old(self).wf(),
        ensures
            records_view(taken@) == keep_where(old(self)@.active, selector(by_generation, g, now)),
            final(self)@ == (OrchestratorModel {
                active: keep_where(old(self)@.active, rest_selector(by_generation, g, now)),
                ..old(self)@
            }),
    {
        let ghost old_model = self@;
        let mut rest: Vec<TaskRecord> = Vec::new();
        std::mem::swap(&mut rest, &mut self.active);
        let ghost orig = rest@;
        let ghost origm = records_view(orig);
        assert(origm == old_model.active);
        let ghost n = orig.len();
        let mut kept: Vec<TaskRecord> = Vec::new();
        let mut taken: Vec<TaskRecord> = Vec::new();
        let ghost mut i: int = 0;
        while rest.len() > 0
            invariant
                0 <= i <= n,
                n == orig.len(),
                origm == records_view(orig),
                rest@ == orig.subrange(i, n as int),
                records_view(kept@) == keep_where(origm.subrange(0, i), rest_selector(by_generation, g, now)),
                records_view(taken@) == keep_where(origm.subrange(0, i), selector(by_generation, g, now)),
                self.active@.len() == 0,
                self.completed@ == old_model.completed,
                self.buffered_ids@ == old_model.buffered_ids,
                buffered_view(self.buffered@) == old_model.buffered,
                self.links@ == old_model.links,
                self.default_deadline_ms == old_model.default_deadline_ms,
            decreases rest@.len(),
        {
            let r = rest.remove(0);
            assert(r == orig[i]);
            assert(origm.subrange(0, i + 1).drop_last() =~= origm.subrange(0, i));
            assert(origm.subrange(0, i + 1).last() == r@);
            let chosen = if by_generation {
                r.generation_id == Some(g)
            } else {
                r.deadline_ms <= now
            };
            let ghost kv = kept@;
            let ghost tv = taken@;
            if chosen {
                taken.push(r);
                assert(records_view(taken@) =~= records_view(tv).push(r@));
            } else {
                kept.push(r);
                assert(records_view(kept@) =~= records_view(kv).push(r@));
            }
            proof {
                i = i + 1;
                assert(rest@ =~= orig.subrange(i, n as int));
            }
        }
        proof {
            assert(origm.subrange(0, i) =~= origm);
        }
        self.active = kept;
        proof {
            assert(self@ =~= OrchestratorModel {
                active: keep_where(old_model.active, rest_selector(by_generation, g, now)),
                ..old_model
            });
        }
        taken
    }
}


/// The ledger entries recorded when `s` is resolved with `kind`.
pub open spec fn resolved_entries(s: Seq<TaskRecordModel>, kind: TaskResultKind) -> Seq<
    (u128, TaskResultKind),
> {
    s.map_values(|r: TaskRecordModel| (r.task_id, kind))
}

/// The ledger after the tasks chosen by `p` are resolved with `kind`.
pub open spec fn resolve_model(
    m: OrchestratorModel,
    p: spec_fn(TaskRecordModel) -> bool,
    q: spec_fn(TaskRecordModel) -> bool,
    kind: TaskResultKind,
) -> OrchestratorModel {
    OrchestratorModel {
        active: keep_where(m.active, q),
        completed: m.completed + resolved_entries(keep_where(m.active, p), kind),
        ..m
    }
}

pub proof fn lemma_resolve_keeps_ledger(
    m: OrchestratorModel,
    p: spec_fn(TaskRecordModel) -> bool,
    q: spec_fn(TaskRecordModel) -> bool,
    kind: TaskResultKind,
)
    requires
        ledger_ok(m),
        forall|r: TaskRecordModel| #[trigger] p(r) ==> !q(r),
    ensures
        ledger_ok(resolve_model(m, p, q, kind)),
{
    let n = resolve_model(m, p, q, kind);
    let kept = keep_where(m.active, q);
    let gone = keep_where(m.active, p);
    assert(ids_distinct(m.active));
    lemma_keep_where_distinct(m.active, q);
    lemma_keep_where_distinct(m.active, p);
    lemma_keep_where_members(m.active, q);
    lemma_keep_where_members(m.active, p);
    lemma_keep_where_split_disjoint(m.active, p, q);
    let extra = resolved_entries(gone, kind);
    assert forall|i: int| 0 <= i < kept.len() implies !is_completed(n.completed, #[trigger] kept[i].task_id) by {
        let a = choose|j: int| 0 <= j < m.active.len() && kept[i] == m.active[j] && q(m.active[j]);
        assert(!is_completed(m.completed, m.active[a].task_id));
        if is_completed(n.completed, kept[i].task_id) {
            let c = choose|c: int| 0 <= c < n.completed.len() && n.completed[c].0 == kept[i].task_id;
            if c < m.completed.len() {
                assert(n.completed[c] == m.completed[c]);
            } else {
                assert(n.completed[c] == extra[c - m.completed.len()]);
                assert(extra[c - m.completed.len()].0 == gone[c - m.completed.len()].task_id);
            }
        }
    }
    assert forall|i: int| 0 <= i < kept.len() implies buckets_distinct(#[trigger] kept[i].evidence) by {
        let a = choose|j: int| 0 <= j < m.active.len() && kept[i] == m.active[j] && q(m.active[j]);
        assert(buckets_distinct(m.active[a].evidence));
    }
    assert forall|i: int, j: int| 0 <= i < j < n.completed.len() implies n.completed[i].0 != n.completed[j].0 by {
        let c0 = m.completed.len();
        if j < c0 {
        } else if i < c0 {
            let b = choose|b: int| 0 <= b < m.active.len() && gone[j - c0] == m.active[b] && p(m.active[b]);
            assert(n.completed[j].0 == m.active[b].task_id);
            assert(!is_completed(m.completed, m.active[b].task_id));
            assert(n.completed[i] == m.completed[i]);
        } else {
            assert(n.completed[i].0 == gone[i - c0].task_id);
            assert(n.completed[j].0 == gone[j - c0].task_id);
        }
    }
}

/// Label of an evidence kind in outcome summaries.
pub open spec fn kind_label(k: EvidenceKind) -> Seq<char> {
    match k {
        EvidenceKind::Transcript => "transcript"@,
        EvidenceKind::ToolCall => "toolcall"@,
        EvidenceKind::Visual => "visual"@,
        EvidenceKind::Timing => "timing"@,
    }
}

/// Labels of the collected kinds, comma separated, in collection order.
pub open spec fn join_labels(ev: Seq<(EvidenceKind, Seq<u128>)>) -> Seq<char>
    decreases ev.len(),
{
    if ev.len() == 0 {
        Seq::empty()
    } else if ev.len() == 1 {
        kind_label(ev[0].0)
    } else {
        join_labels(ev.drop_last()) + ", "@ + kind_label(ev.last().0)
    }
}

pub open spec fn quoted(intent: Seq<char>) -> Seq<char> {
    "\u{201c}"@ + intent + "\u{201d}"@
}

pub open spec fn timeout_summary(intent: Seq<char>) -> Seq<char> {
    quoted(intent) + " timed out before completion"@
}

pub open spec fn timeout_detail(deadline_ms: u64) -> Seq<char> {
    "task deadline of "@ + decimal(deadline_ms as nat) + " ms elapsed before the provider completed"@
}

pub open spec fn cancel_summary(intent: Seq<char>) -> Seq<char> {
    quoted(intent) + " cancelled"@
}

pub open spec fn completion_summary(
    intent: Seq<char>,
    evidence_count: nat,
    ev: Seq<(EvidenceKind, Seq<u128>)>,
) -> Seq<char> {
    if evidence_count == 0 {
        quoted(intent) + " completed (no evidence collected)"@
    } else {
        quoted(intent) + " completed \u{b7} "@ + decimal(evidence_count) + " evidence \u{b7} "@
            + join_labels(ev)
    }
}

/// Failure outcome of a task whose deadline elapsed.
pub open spec fn timeout_outcome(r: TaskRecordModel, links: Seq<EvidenceLink>) -> PendingOutcomeModel {
    PendingOutcomeModel {
        task_id: r.task_id,
        intent: r.intent,
        result: TaskResultKind::Failure,
        evidence_ids: targets_of(links, r.task_id),
        error_code: Some("DEADLINE_ELAPSED"@),
        error_detail: Some(timeout_detail(r.deadline_ms)),
        summary: timeout_summary(r.intent),
    }
}

/// Success outcome of a task completed by its generation.
pub open spec fn success_outcome(r: TaskRecordModel, links: Seq<EvidenceLink>) -> PendingOutcomeModel {
    PendingOutcomeModel {
        task_id: r.task_id,
        intent: r.intent,
        result: TaskResultKind::Success,
        evidence_ids: targets_of(links, r.task_id),
        error_code: None,
        error_detail: None,
        summary: completion_summary(r.intent, targets_of(links, r.task_id).len(), r.evidence),
    }
}

/// Cancelled outcome, with the client's reason or a default detail.
pub open spec fn cancel_outcome(
    r: TaskRecordModel,
    links: Seq<EvidenceLink>,
    reason: Option<Seq<char>>,
) -> PendingOutcomeModel {
    PendingOutcomeModel {
        task_id: r.task_id,
        intent: r.intent,
        result: TaskResultKind::Cancelled,
        evidence_ids: targets_of(links, r.task_id),
        error_code: Some("CLIENT_CANCELLED"@),
        error_detail: Some(
            match reason {
                Some(t) => t,
                None => "cancelled by client"@,
            },
        ),
        summary: cancel_summary(r.intent),
    }
}

pub open spec fn outcomes_view(v: Seq<PendingOutcome>) -> Seq<PendingOutcomeModel> {
    v.map_values(|o: PendingOutcome| o@)
}

fn quoted_chars(intent: &String) -> (v: Vec<char>)
    ensures
        v@ == quoted(intent@),
{
    let mut v: Vec<char> = Vec::new();
    extend_str(&mut v, "\u{201c}");
    extend_str(&mut v, intent.as_str());
    extend_str(&mut v, "\u{201d}");
    v
}

fn kind_label_chars(k: EvidenceKind) -> (v: Vec<char>)
    ensures
        v@ == kind_label(k),
{
    let mut v: Vec<char> = Vec::new();
    match k {
        EvidenceKind::Transcript => extend_str(&mut v, "transcript"),
        EvidenceKind::ToolCall => extend_str(&mut v, "toolcall"),
        EvidenceKind::Visual => extend_str(&mut v, "visual"),
        EvidenceKind::Timing => extend_str(&mut v, "timing"),
    }
    v
}

fn join_labels_chars(ev: &Vec<EvidenceBucket>) -> (v: Vec<char>)
    ensures
        v@ == join_labels(ev@.map_values(|b: EvidenceBucket| b@)),
{
    let ghost m = ev@.map_values(|b: EvidenceBucket| b@);
    let mut v: Vec<char> = Vec::new();
    let mut i: usize = 0;
    while i < ev.len()
        invariant
            i <= ev@.len(),
            m == ev@.map_values(|b: EvidenceBucket| b@),
            v@ == join_labels(m.subrange(0, i as int)),
        decreases ev@.len() - i,
    {
        assert(m.subrange(0, i + 1).drop_last() =~= m.subrange(0, i as int));
        if i > 0 {
            extend_str(&mut v, ", ");
        }
        let label = kind_label_chars(ev[i].kind);
        extend_chars(&mut v, &label);
        i = i + 1;
    }
    assert(m.subrange(0, ev@.len() as int) =~= m);
    v
}

fn timeout_outcome_of(r: TaskRecord, evidence_ids: Vec<u128>) -> (o: PendingOutcome)
    ensures
        o@ == (PendingOutcomeModel {
            task_id: r.task_id,
            intent: r.intent@,
            result: TaskResultKind::Failure,
            evidence_ids: evidence_ids@,
            error_code: Some("DEADLINE_ELAPSED"@),
            error_detail: Some(timeout_detail(r.deadline_ms)),
            summary: timeout_summary(r.intent@),
        }),
{
    let mut summary = quoted_chars(&r.intent);
    extend_str(&mut summary, " timed out before completion");
    let mut detail: Vec<char> = Vec::new();
    extend_str(&mut detail, "task deadline of ");
    let digits = crate::text::decimal_chars(r.deadline_ms);
    extend_chars(&mut detail, &digits);
    extend_str(&mut detail, " ms elapsed before the provider completed");
    PendingOutcome {
        task_id: r.task_id,
        intent: r.intent,
        result: TaskResultKind::Failure,
        evidence_ids,
        error_code: Some("DEADLINE_ELAPSED".to_owned()),
        error_detail: Some(string_of(&detail)),
        summary: string_of(&summary),
    }
}

fn success_outcome_of(r: TaskRecord, evidence_ids: Vec<u128>) -> (o: PendingOutcome)
    ensures
        o@ == (PendingOutcomeModel {
            task_id: r.task_id,
            intent: r.intent@,
            result: TaskResultKind::Success,
            evidence_ids: evidence_ids@,
            error_code: None,
            error_detail: None,
            summary: completion_summary(r.intent@, evidence_ids@.len(), r@.evidence),
        }),
{
    let mut summary = quoted_chars(&r.intent);
    if evidence_ids.len() == 0 {
        extend_str(&mut summary, " completed (no evidence collected)");
    } else {
        extend_str(&mut summary, " completed \u{b7} ");
        let digits = crate::text::decimal_chars(evidence_ids.len() as u64);
        extend_chars(&mut summary, &digits);
        extend_str(&mut summary, " evidence \u{b7} ");
        let labels = join_labels_chars(&r.collected_evidence);
        extend_chars(&mut summary, &labels);
    }
    PendingOutcome {
        task_id: r.task_id,
        intent: r.intent,
        result: TaskResultKind::Success,
        evidence_ids,
        error_code: None,
        error_detail: None,
        summary: string_of(&summary),
    }
}


pub open spec fn resolution_kind(by_generation: bool) -> TaskResultKind {
    if by_generation {
        TaskResultKind::Success
    } else {
        TaskResultKind::Failure
    }
}

pub open spec fn resolution_outcome(by_generation: bool, links: Seq<EvidenceLink>) -> spec_fn(
    TaskRecordModel,
) -> PendingOutcomeModel {
    |r: TaskRecordModel|
        if by_generation {
            success_outcome(r, links)
        } else {
            timeout_outcome(r, links)
        }
}

impl TaskOrchestrator {
    fn resolve_selected(&mut self, by_generation: bool, g: u128, now: u64) -> (outcomes: Vec<
        PendingOutcome,
    >)
        requires
            old(self).wf(),
        ensures
            final(self).wf(),
            final(self)@ == resolve_model(
                old(self)@,
                selector(by_generation, g, now),
                rest_selector(by_generation, g, now),
                resolution_kind(by_generation),
            ),
            outcomes_view(outcomes@) == keep_where(
                old(self)@.active,
                selector(by_generation, g, now),
            ).map_values(resolution_outcome(by_generation, old(self)@.links)),
    {
        let ghost old_model = self@;
        let mut taken = self.take_selected(by_generation, g, now);
        let ghost mid_model = self@;
        let ghost orig = taken@;
        let ghost takenm = records_view(orig);
        let ghost n = orig.len();
        let kind = if by_generation {
            TaskResultKind::Success
        } else {
            TaskResultKind::Failure
        };
        let mut outcomes: Vec<PendingOutcome> = Vec::new();
        let ghost mut k: int = 0;
        while taken.len() > 0
            invariant
                0 <= k <= n,
                n == orig.len(),
                takenm == records_view(orig),
                taken@ == orig.subrange(k, n as int),
                kind == resolution_kind(by_generation),
                outcomes_view(outcomes@) == takenm.subrange(0, k).map_values(
                    resolution_outcome(by_generation, old_model.links),
                ),
                self@ == (OrchestratorModel {
                    completed: mid_model.completed + resolved_entries(takenm.subrange(0, k), kind),
                    ..mid_model
                }),
                mid_model.links == old_model.links,
            decreases taken@.len(),
        {
            let r = taken.remove(0);
            assert(r == orig[k]);
            let evidence = self.evidence_for(r.task_id);
            let id = r.task_id;
            let ghost rm = r@;
            let o = if by_generation {
                success_outcome_of(r, evidence)
            } else {
                timeout_outcome_of(r, evidence)
            };
            let ghost ov = outcomes@;
            let ghost cv = self@.completed;
            outcomes.push(o);
            self.completed.push((id, kind));
            proof {
                assert(takenm.subrange(0, k + 1) =~= takenm.subrange(0, k).push(rm));
                assert(o@ =~= resolution_outcome(by_generation, old_model.links)(rm));
                assert(outcomes_view(outcomes@) =~= outcomes_view(ov).push(o@));
                assert(outcomes_view(outcomes@) =~= takenm.subrange(0, k + 1).map_values(
                    resolution_outcome(by_generation, old_model.links),
                ));
                assert(resolved_entries(takenm.subrange(0, k + 1), kind) =~= resolved_entries(
                    takenm.subrange(0, k),
                    kind,
                ).push((id, kind)));
                assert(self@ =~= OrchestratorModel {
                    completed: mid_model.completed + resolved_entries(takenm.subrange(0, k + 1), kind),
                    ..mid_model
                });
                k = k + 1;
                assert(taken@ =~= orig.subrange(k, n as int));
            }
        }
        proof {
            assert(takenm.subrange(0, k) =~= takenm);
            lemma_resolve_keeps_ledger(
                old_model,
                selector(by_generation, g, now),
                rest_selector(by_generation, g, now),
                resolution_kind(by_generation),
            );
            assert(self@ =~= resolve_model(
                old_model,
                selector(by_generation, g, now),
                rest_selector(by_generation, g, now),
                resolution_kind(by_generation),
            ));
        }
        outcomes
    }

    /// Resolves every task whose deadline has passed at `now_ms` as a
    /// failure, returning the outcomes to emit in admission order.
    pub fn expire_deadlines(&mut self, now_ms: u64) -> (outcomes: Vec<PendingOutcome>)
        requires
            old(self).wf(),
        ensures
            final(self).wf(),
            final(self)@ == resolve_model(
                old(self)@,
                due_at(now_ms),
                pending_at(now_ms),
                TaskResultKind::Failure,
            ),
            outcomes_view(outcomes@) == keep_where(old(self)@.active, due_at(now_ms)).map_values(
                |r: TaskRecordModel| timeout_outcome(r, old(self)@.links),
            ),
    {
        let outcomes = self.resolve_selected(false, 0, now_ms);
        proof {
            assert(selector(false, 0, now_ms) =~= due_at(now_ms));
            assert(rest_selector(false, 0, now_ms) =~= pending_at(now_ms));
            assert(resolution_outcome(false, old(self)@.links) =~= (|r: TaskRecordModel|
                timeout_outcome(r, old(self)@.links)));
        }
        outcomes
    }

    /// Completes every task bound to `generation_id` as a success, returning
    /// the outcomes to emit; tasks bound elsewhere stay active.
    pub fn complete_tasks_for_generation(&mut self, generation_id: u128) -> (outcomes: Vec<
        PendingOutcome,
    >)
        requires
            old(self).wf(),
        ensures
            final(self).wf(),
            final(self)@ == resolve_model(
                old(self)@,
                bound_to(generation_id),
                not_bound_to(generation_id),
                TaskResultKind::Success,
            ),
            outcomes_view(outcomes@) == keep_where(
                old(self)@.active,
                bound_to(generation_id),
            ).map_values(|r: TaskRecordModel| success_outcome(r, old(self)@.links)),
    {
        let outcomes = self.resolve_selected(true, generation_id, 0);
        proof {
            assert(selector(true, generation_id, 0) =~= bound_to(generation_id));
            assert(rest_selector(true, generation_id, 0) =~= not_bound_to(generation_id));
            assert(resolution_outcome(true, old(self)@.links) =~= (|r: TaskRecordModel|
                success_outcome(r, old(self)@.links)));
        }
        outcomes
    }
}


/// The ledger after the active task at `i` is resolved with `kind`.
pub open spec fn remove_model(m: OrchestratorModel, i: int, kind: TaskResultKind) -> OrchestratorModel {
    OrchestratorModel {
        active: m.active.remove(i),
        completed: m.completed.push((m.active[i].task_id, kind)),
        ..m
    }
}

pub proof fn lemma_remove_keeps_ledger(m: OrchestratorModel, i: int, kind: TaskResultKind)
    requires
        ledger_ok(m),
        0 <= i < m.active.len(),
    ensures
        ledger_ok(remove_model(m, i, kind)),
{
    let n = remove_model(m, i, kind);
    let id = m.active[i].task_id;
    assert forall|a: int, b: int| 0 <= a < b < n.active.len() implies n.active[a].task_id != n.active[b].task_id by {
        let a0 = if a < i { a } else { a + 1 };
        let b0 = if b < i { b } else { b + 1 };
        assert(n.active[a] == m.active[a0]);
        assert(n.active[b] == m.active[b0]);
    }
    assert forall|a: int| 0 <= a < n.active.len() implies !is_completed(n.completed, #[trigger] n.active[a].task_id) by {
        let a0 = if a < i { a } else { a + 1 };
        assert(n.active[a] == m.active[a0]);
        assert(m.active[a0].task_id != id);
        if is_completed(n.completed, n.active[a].task_id) {
            let c = choose|c: int| 0 <= c < n.completed.len() && n.completed[c].0 == n.active[a].task_id;
            if c < m.completed.len() {
                assert(n.completed[c] == m.completed[c]);
            }
        }
    }
    assert forall|a: int| 0 <= a < n.active.len() implies buckets_distinct(#[trigger] n.active[a].evidence) by {
        let a0 = if a < i { a } else { a + 1 };
        assert(n.active[a] == m.active[a0]);
    }
    assert forall|a: int, b: int| 0 <= a < b < n.completed.len() implies n.completed[a].0 != n.completed[b].0 by {
        if b == m.completed.len() {
            assert(n.completed[a] == m.completed[a]);
            assert(!is_completed(m.completed, id));
        }
    }
}

impl TaskOrchestrator {
    /// Cancels an active task, returning its cancelled outcome; `None` when
    /// the task is unknown or already resolved (nothing changes then).
    pub fn cancel_task(&mut self, task_id: u128, reason: Option<&str>) -> (outcome: Option<PendingOutcome>)
        requires
            old(self).wf(),
        ensures
            final(self).wf(),
            outcome is Some <==> is_active(old(self)@.active, task_id),
            outcome is None ==> final(self)@ == old(self)@,
            forall|i: int|
                0 <= i < old(self)@.active.len() && old(self)@.active[i].task_id == task_id ==> {
                    &&& final(self)@ == remove_model(old(self)@, i, TaskResultKind::Cancelled)
                    &&& outcome matches Some(o) && o@ == cancel_outcome(
                        old(self)@.active[i],
                        old(self)@.links,
                        str_opt_view(reason),
                    )
                },
    {
        let idx = match self.active_index(task_id) {
            Some(i) => i,
            None => return None,
        };
        let ghost old_model = self@;
        proof {
            assert forall|i: int|
                0 <= i < old_model.active.len() && old_model.active[i].task_id == task_id implies i
                == idx as int by {
                if i != idx as int {
                    if i < idx as int {
                    } else {
                    }
                }
            }
        }
        let ghost old_active = self.active@;
        let r = self.active.remove(idx);
        let evidence_ids = self.evidence_for(task_id);
        self.completed.push((task_id, TaskResultKind::Cancelled));
        let detail: String = match reason {
            Some(t) => t.to_owned(),
            None => "cancelled by client".to_owned(),
        };
        let mut summary = quoted_chars(&r.intent);
        extend_str(&mut summary, " cancelled");
        let o = PendingOutcome {
            task_id,
            intent: r.intent,
            result: TaskResultKind::Cancelled,
            evidence_ids,
            error_code: Some("CLIENT_CANCELLED".to_owned()),
            error_detail: Some(detail),
            summary: string_of(&summary),
        };
        proof {
            assert(self.active@ == old_active.remove(idx as int));
            assert(self@.active =~= old_model.active.remove(idx as int));
            assert(self@ =~= remove_model(old_model, idx as int, TaskResultKind::Cancelled));
            lemma_remove_keeps_ledger(old_model, idx as int, TaskResultKind::Cancelled);
            assert(o@ =~= cancel_outcome(old_model.active[idx as int], old_model.links, str_opt_view(reason)));
        }
        Some(o)
    }

    /// Resolves an active task with `result` without building an outcome;
    /// `false` when the task is unknown or already resolved.
    pub fn mark_resolved(&mut self, task_id: u128, result: TaskResultKind) -> (resolved: bool)
        requires
            old(self).wf(),
        ensures
            final(self).wf(),
            resolved == is_active(old(self)@.active, task_id),
            !resolved ==> final(self)@ == old(self)@,
            forall|i: int|
                0 <= i < old(self)@.active.len() && old(self)@.active[i].task_id == task_id
                    ==> final(self)@ == remove_model(old(self)@, i, result),
    {
        let idx = match self.active_index(task_id) {
            Some(i) => i,
            None => return false,
        };
        let ghost old_model = self@;
        proof {
            assert forall|i: int|
                0 <= i < old_model.active.len() && old_model.active[i].task_id == task_id implies i
                == idx as int by {
                if i != idx as int {
                    if i < idx as int {
                    } else {
                    }
                }
            }
        }
        let ghost old_active = self.active@;
        let _r = self.active.remove(idx);
        self.completed.push((task_id, result));
        proof {
            assert(self.active@ == old_active.remove(idx as int));
            assert(self@.active =~= old_model.active.remove(idx as int));
            assert(self@ =~= remove_model(old_model, idx as int, result));
            lemma_remove_keeps_ledger(old_model, idx as int, result);
        }
        true
    }
}


/// The elements of `s` satisfying `p`, in order.
pub open spec fn keep<A>(s: Seq<A>, p: spec_fn(A) -> bool) -> Seq<A>
    decreases s.len(),
{
    if s.len() == 0 {
        Seq::empty()
    } else {
        let prefix = keep(s.drop_last(), p);
        if p(s.last()) {
            prefix.push(s.last())
        } else {
            prefix
        }
    }
}

pub proof fn lemma_keep_members<A>(s: Seq<A>, p: spec_fn(A) -> bool)
    ensures
        keep(s, p).len() <= s.len(),
        forall|k: int|
            0 <= k < keep(s, p).len() ==> exists|j: int|
                0 <= j < s.len() && #[trigger] keep(s, p)[k] == s[j] && p(s[j]),
    decreases s.len(),
{
    if s.len() > 0 {
        lemma_keep_members(s.drop_last(), p);
        let pre = keep(s.drop_last(), p);
        assert forall|k: int| 0 <= k < keep(s, p).len() implies exists|j: int|
            0 <= j < s.len() && #[trigger] keep(s, p)[k] == s[j] && p(s[j]) by {
            if k < pre.len() {
                let j = choose|j: int|
                    0 <= j < s.drop_last().len() && pre[k] == s.drop_last()[j] && p(
                        s.drop_last()[j],
                    );
                assert(keep(s, p)[k] == s[j]);
            } else {
                assert(keep(s, p)[k] == s[s.len() - 1]);
            }
        }
    }
}

/// Keeping elements preserves their relative order: any order that holds
/// between earlier and later elements of `s` holds in the kept sequence.
pub proof fn lemma_keep_ordered<A>(s: Seq<A>, p: spec_fn(A) -> bool, lt: spec_fn(A, A) -> bool)
    requires
        forall|i: int, j: int| 0 <= i < j < s.len() ==> #[trigger] lt(s[i], s[j]),
    ensures
        forall|i: int, j: int| 0 <= i < j < keep(s, p).len() ==> #[trigger] lt(keep(s, p)[i], keep(s, p)[j]),
    decreases s.len(),
{
    if s.len() > 0 {
        lemma_keep_ordered(s.drop_last(), p, lt);
        lemma_keep_members(s.drop_last(), p);
        let pre = keep(s.drop_last(), p);
        if p(s.last()) {
            assert forall|i: int, j: int| 0 <= i < j < keep(s, p).len() implies #[trigger] lt(keep(s, p)[i], keep(s, p)[j]) by {
                if j == pre.len() {
                    let a = choose|a: int|
                        0 <= a < s.drop_last().len() && #[trigger] pre[i] == s.drop_last()[a] && p(
                            s.drop_last()[a],
                        );
                    assert(lt(s[a], s[s.len() - 1]));
                } else {
                    assert(lt(pre[i], pre[j]));
                }
            }
        }
    }
}

/// A buffered envelope stamped at `t`.
pub open spec fn stamped(json: Seq<char>, event_id: u128, t: u64) -> BufferedModel {
    BufferedModel { event_id, buffered_at_ms: t, envelope_json: json }
}

/// The position of sequence number `k` in an ascending buffer.
pub open spec fn lower_bound(b: Seq<(u64, BufferedModel)>, k: u64) -> int {
    choose|i: int|
        0 <= i <= b.len() && (forall|j: int| 0 <= j < i ==> b[j].0 < k) && (i < b.len() ==> b[i].0
            >= k)
}

/// The buffer after storing `e` under sequence `k` (replacing an entry with
/// the same sequence).
pub open spec fn buffer_insert(b: Seq<(u64, BufferedModel)>, k: u64, e: BufferedModel) -> Seq<
    (u64, BufferedModel),
> {
    let i = lower_bound(b, k);
    if i < b.len() && b[i].0 == k {
        b.update(i, (k, e))
    } else {
        b.insert(i, (k, e))
    }
}

pub open spec fn has_event_id(ids: Seq<(u128, u64)>, id: u128) -> bool {
    exists|i: int| 0 <= i < ids.len() && ids[i].0 == id
}

/// The buffered entry is replayable: past the client's last sequence and not older than the TTL at `now`.
pub open spec fn replayable(last: u64, now: u64) -> spec_fn((u64, BufferedModel)) -> bool {
    |e: (u64, BufferedModel)| e.0 > last && !(sat_sub(now, e.1.buffered_at_ms) > RESUME_BUFFER_TTL_MS)
}

/// The buffered entry has gone stale: past the client's last sequence and older than the TTL at `now`.
pub open spec fn stale(last: u64, now: u64) -> spec_fn((u64, BufferedModel)) -> bool {
    |e: (u64, BufferedModel)| e.0 > last && sat_sub(now, e.1.buffered_at_ms) > RESUME_BUFFER_TTL_MS
}

pub open spec fn not_stale(last: u64, now: u64) -> spec_fn((u64, BufferedModel)) -> bool {
    |e: (u64, BufferedModel)| !(e.0 > last && sat_sub(now, e.1.buffered_at_ms) > RESUME_BUFFER_TTL_MS)
}

pub open spec fn sat_sub(a: u64, b: u64) -> u64 {
    if a >= b {
        (a - b) as u64
    } else {
        0
    }
}

/// Event ids of buffer entries.
pub open spec fn event_ids(b: Seq<(u64, BufferedModel)>) -> Seq<u128> {
    b.map_values(|e: (u64, BufferedModel)| e.1.event_id)
}

/// Id entries whose event id is not among `removed`.
pub open spec fn id_kept(removed: Seq<u128>) -> spec_fn((u128, u64)) -> bool {
    |p: (u128, u64)| !removed.contains(p.0)
}

impl TaskOrchestrator {
    /// Buffers an outbound envelope for resume replay, stamped with `now_ms`;
    /// `false` (and nothing changes) when its event id is already buffered.
    pub fn buffer_outbound_at(&mut self, sequence: u64, event_id: u128, envelope_json: String, now_ms: u64) -> (inserted: bool)
        requires
            old(self).wf(),
        ensures
            final(self).wf(),
            inserted == !has_event_id(old(self)@.buffered_ids, event_id),
            !inserted ==> final(self)@ == old(self)@,
            inserted ==> final(self)@ == (OrchestratorModel {
                buffered_ids: old(self)@.buffered_ids.push((event_id, sequence)),
                buffered: buffer_insert(
                    old(self)@.buffered,
                    sequence,
                    BufferedModel { event_id, buffered_at_ms: now_ms, envelope_json: envelope_json@ },
                ),
                ..old(self)@
            }),
    {
        let mut i: usize = 0;
        while i < self.buffered_ids.len()
            invariant
                i <= self.buffered_ids@.len(),
                self.wf(),
                self@ == old(self)@,
                forall|j: int| 0 <= j < i ==> self.buffered_ids@[j].0 != event_id,
            decreases self.buffered_ids@.len() - i,
        {
            if self.buffered_ids[i].0 == event_id {
                return false;
            }
            i = i + 1;
        }
        let ghost old_model = self@;
        let ghost bm = self@.buffered;
        let mut pos: usize = 0;
        while pos < self.buffered.len() && self.buffered[pos].0 < sequence
            invariant
                pos <= self.buffered@.len(),
                self@ == old_model,
                bm == buffered_view(self.buffered@),
                forall|j: int| 0 <= j < pos ==> bm[j].0 < sequence,
            decreases self.buffered@.len() - pos,
        {
            pos = pos + 1;
        }
        proof {
            assert(bm.len() == self.buffered@.len());
            let c = lower_bound(bm, sequence);
            assert(0 <= pos as int <= bm.len() && (forall|j: int| 0 <= j < pos ==> bm[j].0 < sequence) && (pos < bm.len() ==> bm[pos as int].0 >= sequence));
            assert(c == pos as int) by {
                if c < pos as int {
                    assert(bm[c].0 < sequence);
                } else if c > pos as int {
                    assert(bm[pos as int].0 < sequence);
                }
            }
        }
        let entry = BufferedEvent { event_id, buffered_at_ms: now_ms, envelope_json };
        let ghost em = entry@;
        let ghost old_buf = self.buffered@;
        if pos < self.buffered.len() && self.buffered[pos].0 == sequence {
            self.buffered.set(pos, (sequence, entry));
            proof {
                assert(buffered_view(self.buffered@) =~= bm.update(pos as int, (sequence, em)));
            }
        } else {
            self.buffered.insert(pos, (sequence, entry));
            proof {
                assert(buffered_view(self.buffered@) =~= bm.insert(pos as int, (sequence, em)));
            }
        }
        self.buffered_ids.push((event_id, sequence));
        proof {
            let nb = buffered_view(self.buffered@);
            assert(nb == buffer_insert(bm, sequence, em));
            assert(self@ =~= OrchestratorModel {
                buffered_ids: old_model.buffered_ids.push((event_id, sequence)),
                buffered: buffer_insert(old_model.buffered, sequence, em),
                ..old_model
            });
            assert forall|a: int, b: int| 0 <= a < b < nb.len() implies nb[a].0 < nb[b].0 by {
                if pos < bm.len() && bm[pos as int].0 == sequence {
                } else {
                    if b == pos as int {
                        assert(nb[a] == bm[a]);
                    } else if a == pos as int {
                        assert(nb[b] == bm[b - 1]);
                    } else if a < pos as int && b > pos as int {
                        assert(nb[a] == bm[a]);
                        assert(nb[b] == bm[b - 1]);
                    } else if a > pos as int {
                        assert(nb[a] == bm[a - 1]);
                        assert(nb[b] == bm[b - 1]);
                    } else {
                        assert(nb[a] == bm[a]);
                        assert(nb[b] == bm[b]);
                    }
                }
            }
            assert forall|a: int, b: int| 0 <= a < b < self@.buffered_ids.len() implies self@.buffered_ids[a].0 != self@.buffered_ids[b].0 by {
                if b == old_model.buffered_ids.len() {
                    assert(self@.buffered_ids[a] == old_model.buffered_ids[a]);
                }
            }
        }
        true
    }

    /// Buffers an outbound envelope for resume replay, stamped with the
    /// current time; `false` when its event id is already buffered.
    pub fn buffer_outbound(&mut self, sequence: u64, event_id: u128, envelope_json: String) -> (inserted: bool)
        requires
            old(self).wf(),
        ensures
            final(self).wf(),
            inserted == !has_event_id(old(self)@.buffered_ids, event_id),
            !inserted ==> final(self)@ == old(self)@,
            inserted ==> exists|t: u64| #![trigger stamped(envelope_json@, event_id, t)] final(self)@ == (OrchestratorModel {
                buffered_ids: old(self)@.buffered_ids.push((event_id, sequence)),
                buffered: buffer_insert(
                    old(self)@.buffered,
                    sequence,
                    stamped(envelope_json@, event_id, t),
                ),
                ..old(self)@
            }),
    {
        let now = crate::clock::now_ms();
        let ghost json = envelope_json@;
        let r = self.buffer_outbound_at(sequence, event_id, envelope_json, now);
        proof {
            if r {
                assert(stamped(json, event_id, now) == BufferedModel { event_id, buffered_at_ms: now, envelope_json: json });
            }
        }
        r
    }
}


pub open spec fn json_of(e: (u64, BufferedModel)) -> Seq<char> {
    e.1.envelope_json
}

impl TaskOrchestrator {
    /// Envelopes buffered under a sequence greater than `last_sequence_seen`,
    /// ascending, as of `now_ms`; entries in that range older than the TTL
    /// are dropped from the buffer instead of being replayed.
    pub fn replay_after_at(&mut self, last_sequence_seen: u64, now_ms: u64) -> (replay: Vec<String>)
        requires
            old(self).wf(),
        ensures
            final(self).wf(),
            strings_view(replay@) == keep(
                old(self)@.buffered,
                replayable(last_sequence_seen, now_ms),
            ).map_values(|e: (u64, BufferedModel)| json_of(e)),
            final(self)@ == (OrchestratorModel {
                buffered: keep(old(self)@.buffered, not_stale(last_sequence_seen, now_ms)),
                buffered_ids: keep(
                    old(self)@.buffered_ids,
                    id_kept(event_ids(keep(old(self)@.buffered, stale(last_sequence_seen, now_ms)))),
                ),
                ..old(self)@
            }),
    {
        let ghost old_model = self@;
        let mut rest: Vec<(u64, BufferedEvent)> = Vec::new();
        std::mem::swap(&mut rest, &mut self.buffered);
        let ghost orig = rest@;
        let ghost origm = buffered_view(orig);
        let ghost n = orig.len();
        let mut kept: Vec<(u64, BufferedEvent)> = Vec::new();
        let mut removed: Vec<u128> = Vec::new();
        let mut replay: Vec<String> = Vec::new();
        let ghost mut i: int = 0;
        while rest.len() > 0
            invariant
                0 <= i <= n,
                n == orig.len(),
                origm == buffered_view(orig),
                origm == old_model.buffered,
                rest@ == orig.subrange(i, n as int),
                buffered_view(kept@) == keep(origm.subrange(0, i), not_stale(last_sequence_seen, now_ms)),
                removed@ == event_ids(keep(origm.subrange(0, i), stale(last_sequence_seen, now_ms))),
                strings_view(replay@) == keep(origm.subrange(0, i), replayable(last_sequence_seen, now_ms)).map_values(
                    |e: (u64, BufferedModel)| json_of(e),
                ),
                self.active@ == old(self).active@,
                self.completed@ == old_model.completed,
                self.buffered_ids@ == old_model.buffered_ids,
                self.links@ == old_model.links,
                self.default_deadline_ms == old_model.default_deadline_ms,
            decreases rest@.len(),
        {
            let e = rest.remove(0);
            let ghost em = (e.0, e.1@);
            assert(origm[i] == em);
            assert(origm.subrange(0, i + 1).drop_last() =~= origm.subrange(0, i));
            let ghost kv = kept@;
            let ghost rv = removed@;
            let ghost pv = replay@;
            let age: u64 = if now_ms >= e.1.buffered_at_ms {
                now_ms - e.1.buffered_at_ms
            } else {
                0
            };
            if e.0 > last_sequence_seen && age > RESUME_BUFFER_TTL_MS {
                removed.push(e.1.event_id);
                proof {
                    assert(removed@ =~= event_ids(keep(origm.subrange(0, i + 1), stale(last_sequence_seen, now_ms))));
                    assert(buffered_view(kept@) =~= keep(origm.subrange(0, i + 1), not_stale(last_sequence_seen, now_ms)));
                    assert(strings_view(replay@) =~= keep(origm.subrange(0, i + 1), replayable(last_sequence_seen, now_ms)).map_values(
                        |e: (u64, BufferedModel)| json_of(e),
                    ));
                }
            } else {
                if e.0 > last_sequence_seen {
                    let json = e.1.envelope_json.clone();
                    replay.push(json);
                    proof {
                        assert(replayable(last_sequence_seen, now_ms)(em));
                        assert(keep(origm.subrange(0, i + 1), replayable(last_sequence_seen, now_ms)) == keep(origm.subrange(0, i), replayable(last_sequence_seen, now_ms)).push(em));
                        assert(strings_view(replay@) =~= strings_view(pv).push(em.1.envelope_json));
                        assert(strings_view(replay@) =~= keep(origm.subrange(0, i + 1), replayable(last_sequence_seen, now_ms)).map_values(
                            |e: (u64, BufferedModel)| json_of(e),
                        ));
                    }
                } else {
                    proof {
                        assert(strings_view(replay@) =~= keep(origm.subrange(0, i + 1), replayable(last_sequence_seen, now_ms)).map_values(
                            |e: (u64, BufferedModel)| json_of(e),
                        ));
                    }
                }
                kept.push(e);
                proof {
                    assert(buffered_view(kept@) =~= keep(origm.subrange(0, i + 1), not_stale(last_sequence_seen, now_ms)));
                    assert(removed@ =~= event_ids(keep(origm.subrange(0, i + 1), stale(last_sequence_seen, now_ms))));
                }
            }
            proof {
                i = i + 1;
                assert(rest@ =~= orig.subrange(i, n as int));
            }
        }
        proof {
            assert(origm.subrange(0, i) =~= origm);
        }
        self.buffered = kept;
        let mut ids_rest: Vec<(u128, u64)> = Vec::new();
        std::mem::swap(&mut ids_rest, &mut self.buffered_ids);
        let ghost ids_orig = ids_rest@;
        let ghost m = ids_orig.len();
        let mut ids_kept: Vec<(u128, u64)> = Vec::new();
        let ghost mut k: int = 0;
        while ids_rest.len() > 0
            invariant
                0 <= k <= m,
                m == ids_orig.len(),
                ids_orig == old_model.buffered_ids,
                ids_rest@ == ids_orig.subrange(k, m as int),
                ids_kept@ == keep(ids_orig.subrange(0, k), id_kept(removed@)),
            decreases ids_rest@.len(),
        {
            let p = ids_rest.remove(0);
            assert(ids_orig[k] == p);
            assert(ids_orig.subrange(0, k + 1).drop_last() =~= ids_orig.subrange(0, k));
            let mut found = false;
            let mut q: usize = 0;
            while q < removed.len()
                invariant
                    q <= removed@.len(),
                    found == exists|z: int| 0 <= z < q && removed@[z] == p.0,
                decreases removed@.len() - q,
            {
                if removed[q] == p.0 {
                    found = true;
                }
                q = q + 1;
            }
            if !found {
                ids_kept.push(p);
            }
            proof {
                assert(found == removed@.contains(p.0));
                assert(ids_kept@ =~= keep(ids_orig.subrange(0, k + 1), id_kept(removed@)));
                k = k + 1;
                assert(ids_rest@ =~= ids_orig.subrange(k, m as int));
            }
        }
        proof {
            assert(ids_orig.subrange(0, k) =~= ids_orig);
        }
        self.buffered_ids = ids_kept;
        proof {
            let lt_seq = |a: (u64, BufferedModel), b: (u64, BufferedModel)| a.0 < b.0;
            let ne_id = |a: (u128, u64), b: (u128, u64)| a.0 != b.0;
            assert forall|a: int, b: int| 0 <= a < b < origm.len() implies #[trigger] lt_seq(origm[a], origm[b]) by {}
            lemma_keep_ordered(origm, not_stale(last_sequence_seen, now_ms), lt_seq);
            assert forall|a: int, b: int| 0 <= a < b < ids_orig.len() implies #[trigger] ne_id(ids_orig[a], ids_orig[b]) by {}
            lemma_keep_ordered(ids_orig, id_kept(removed@), ne_id);
            let nb = keep(origm, not_stale(last_sequence_seen, now_ms));
            assert forall|a: int, b: int| 0 <= a < b < nb.len() implies nb[a].0 < nb[b].0 by {
                assert(lt_seq(nb[a], nb[b]));
            }
            let ni = keep(ids_orig, id_kept(removed@));
            assert forall|a: int, b: int| 0 <= a < b < ni.len() implies ni[a].0 != ni[b].0 by {
                assert(ne_id(ni[a], ni[b]));
            }
            assert(self@ =~= OrchestratorModel {
                buffered: keep(old_model.buffered, not_stale(last_sequence_seen, now_ms)),
                buffered_ids: keep(
                    old_model.buffered_ids,
                    id_kept(event_ids(keep(old_model.buffered, stale(last_sequence_seen, now_ms)))),
                ),
                ..old_model
            });
        }
        replay
    }

    /// Envelopes to replay after `last_sequence_seen`, as of the current
    /// time (see `replay_after_at`).
    pub fn replay_after(&mut self, last_sequence_seen: u64) -> (replay: Vec<String>)
        requires
            old(self).wf(),
        ensures
            final(self).wf(),
            exists|now: u64| #![trigger replayable(last_sequence_seen, now)] {
                &&& strings_view(replay@) == keep(
                    old(self)@.buffered,
                    replayable(last_sequence_seen, now),
                ).map_values(|e: (u64, BufferedModel)| json_of(e))
                &&& final(self)@ == (OrchestratorModel {
                    buffered: keep(old(self)@.buffered, not_stale(last_sequence_seen, now)),
                    buffered_ids: keep(
                        old(self)@.buffered_ids,
                        id_kept(event_ids(keep(old(self)@.buffered, stale(last_sequence_seen, now)))),
                    ),
                    ..old(self)@
                })
            },
    {
        let now = crate::clock::now_ms();
        let r = self.replay_after_at(last_sequence_seen, now);
        proof {
            assert(replayable(last_sequence_seen, now) == replayable(last_sequence_seen, now));
        }
        r
    }
}


/// A task id that was resolved (completed, failed, cancelled or expired) is
/// never admitted again, and neither is one still active.
pub proof fn lemma_seen_ids_never_readmitted(m: OrchestratorModel, request: TaskRequested)
    requires
        is_completed(m.completed, request.task_id) || is_active(m.active, request.task_id),
    ensures
        !admissible(m, request),
{
}

/// Resolving an active task records its id as resolved, so it can be
/// neither admitted nor resolved again.
pub proof fn lemma_resolution_is_final(m: OrchestratorModel, i: int, kind: TaskResultKind, request: TaskRequested)
    requires
        ledger_ok(m),
        0 <= i < m.active.len(),
        request.task_id == m.active[i].task_id,
    ensures
        is_completed(remove_model(m, i, kind).completed, request.task_id),
        !is_active(remove_model(m, i, kind).active, request.task_id),
        !admissible(remove_model(m, i, kind), request),
{
    let n = remove_model(m, i, kind);
    assert(n.completed[m.completed.len() as int].0 == request.task_id);
    if is_active(n.active, request.task_id) {
        let a = choose|a: int| 0 <= a < n.active.len() && n.active[a].task_id == request.task_id;
        let a0 = if a < i { a } else { a + 1 };
        assert(n.active[a] == m.active[a0]);
    }
}

/// Attaching evidence records it: attaching the same evidence again under
/// the same kind (to a task whose evidence has one bucket per kind, as the
/// ledger keeps it) finds it already there.
pub proof fn lemma_attach_is_idempotent(ev: Seq<(EvidenceKind, Seq<u128>)>, kind: EvidenceKind, id: u128)
    requires
        buckets_distinct(ev),
    ensures
        evidence_recorded(evidence_after_attach(ev, kind, id), kind, id),
{
    let after = evidence_after_attach(ev, kind, id);
    match bucket_of(ev, kind) {
        Some(j) => {
            assert(0 <= j < after.len() && after[j].0 == kind);
            let j2 = choose|x: int| 0 <= x < after.len() && after[x].0 == kind;
            assert(after[j2].0 == kind);
            if j2 != j {
                assert(ev[j2].0 == kind);
                assert(ev[j].0 == kind);
                if j2 < j {
                    assert(ev[j2].0 != ev[j].0);
                } else {
                    assert(ev[j].0 != ev[j2].0);
                }
            }
            assert(after[j].1 == ev[j].1.push(id));
            assert(after[j].1[ev[j].1.len() as int] == id);
        },
        None => {
            assert(0 <= ev.len() < after.len() && after[ev.len() as int].0 == kind);
            let j2 = choose|x: int| 0 <= x < after.len() && after[x].0 == kind;
            assert(j2 == ev.len()) by {
                if j2 < ev.len() {
                    assert(ev[j2].0 == kind);
                }
            }
            assert(after[j2].1 == seq![id]);
            assert(after[j2].1[0] == id);
        },
    }
}

/// A link once recorded is found, so linking it again (with any
/// confidence) inserts nothing.
pub proof fn lemma_link_is_idempotent(links: Seq<EvidenceLink>, l: EvidenceLink, again: EvidenceLink)
    requires
        again.source_id == l.source_id,
        again.target_id == l.target_id,
        again.link_type == l.link_type,
    ensures
        has_link(links.push(l), again),
{
    assert(same_link(links.push(l)[links.len() as int], again));
}

/// An event id once buffered is recognised, so buffering it again inserts
/// nothing.
pub proof fn lemma_buffered_ids_dedupe(ids: Seq<(u128, u64)>, id: u128, sequence: u64)
    ensures
        has_event_id(ids.push((id, sequence)), id),
{
    assert(ids.push((id, sequence))[ids.len() as int].0 == id);
}

/// A replay lists only events past the client's last sequence, in strictly
/// ascending sequence order.
pub proof fn lemma_replay_ascends_past_threshold(m: OrchestratorModel, last: u64, now: u64)
    requires
        ledger_ok(m),
    ensures
        forall|i: int|
            0 <= i < keep(m.buffered, replayable(last, now)).len() ==> (#[trigger] keep(
                m.buffered,
                replayable(last, now),
            )[i]).0 > last,
        forall|i: int, j: int|
            0 <= i < j < keep(m.buffered, replayable(last, now)).len() ==> (#[trigger] keep(
                m.buffered,
                replayable(last, now),
            )[i]).0 < (#[trigger] keep(m.buffered, replayable(last, now))[j]).0,
{
    let p = replayable(last, now);
    let lt = |a: (u64, BufferedModel), b: (u64, BufferedModel)| a.0 < b.0;
    assert forall|i: int, j: int| 0 <= i < j < m.buffered.len() implies #[trigger] lt(m.buffered[i], m.buffered[j]) by {
    }
    lemma_keep_ordered(m.buffered, p, lt);
    lemma_keep_members(m.buffered, p);
    let k = keep(m.buffered, p);
    assert forall|i: int, j: int| 0 <= i < j < k.len() implies (#[trigger] k[i]).0 < (#[trigger] k[j]).0 by {
        assert(lt(k[i], k[j]));
    }
    assert forall|i: int| 0 <= i < k.len() implies (#[trigger] k[i]).0 > last by {
        let a = choose|a: int| 0 <= a < m.buffered.len() && k[i] == m.buffered[a] && p(m.buffered[a]);
    }
}

/// Finishing a generation leaves no task bound to it active, keeps every
/// other active task in order, records each finished task as resolved, and
/// refuses to admit any of their ids again.
pub proof fn lemma_generation_completion_is_exact(m: OrchestratorModel, g: u128)
    ensures
        forall|k: int|
            0 <= k < resolve_model(m, bound_to(g), not_bound_to(g), TaskResultKind::Success).active.len()
                ==> (#[trigger] resolve_model(m, bound_to(g), not_bound_to(g), TaskResultKind::Success).active[k]).generation_id
                != Some(g),
        resolve_model(m, bound_to(g), not_bound_to(g), TaskResultKind::Success).active == keep_where(
            m.active,
            not_bound_to(g),
        ),
        resolve_model(m, bound_to(g), not_bound_to(g), TaskResultKind::Success).completed == m.completed
            + resolved_entries(keep_where(m.active, bound_to(g)), TaskResultKind::Success),
        forall|k: int| 0 <= k < keep_where(m.active, bound_to(g)).len() ==> is_completed(
            resolve_model(m, bound_to(g), not_bound_to(g), TaskResultKind::Success).completed,
            (#[trigger] keep_where(m.active, bound_to(g))[k]).task_id,
        ),
        forall|k: int, request: TaskRequested|
            #![trigger keep_where(m.active, bound_to(g))[k], admissible(resolve_model(m, bound_to(g), not_bound_to(g), TaskResultKind::Success), request)]
            0 <= k < keep_where(m.active, bound_to(g)).len() && request.task_id == keep_where(
                m.active,
                bound_to(g),
            )[k].task_id ==> !admissible(resolve_model(m, bound_to(g), not_bound_to(g), TaskResultKind::Success), request),
{
    let n = resolve_model(m, bound_to(g), not_bound_to(g), TaskResultKind::Success);
    let done = keep_where(m.active, bound_to(g));
    assert forall|k: int| 0 <= k < done.len() implies is_completed(n.completed, (#[trigger] done[k]).task_id) by {
        let at = m.completed.len() + k;
        assert(n.completed[at] == (done[k].task_id, TaskResultKind::Success));
    }
    assert forall|k: int, request: TaskRequested|
        #![trigger done[k], admissible(n, request)]
        0 <= k < done.len() && request.task_id == done[k].task_id implies !admissible(n, request) by {
        lemma_seen_ids_never_readmitted(n, request);
    }
    lemma_keep_where_members(m.active, not_bound_to(g));
    assert forall|k: int| 0 <= k < n.active.len() implies (#[trigger] n.active[k]).generation_id != Some(g) by {
        let j = choose|j: int| 0 <= j < m.active.len() && #[trigger] n.active[k] == m.active[j] && not_bound_to(g)(m.active[j]);
    }
}

/// Keeping what every element satisfies keeps all; keeping what none
/// satisfies keeps nothing; two tests that agree on every element keep alike.
proof fn lemma_keep_by_agreement<A>(s: Seq<A>, p: spec_fn(A) -> bool, q: spec_fn(A) -> bool)
    ensures
        (forall|i: int| 0 <= i < s.len() ==> p(#[trigger] s[i])) ==> keep(s, p) == s,
        (forall|i: int| 0 <= i < s.len() ==> !p(#[trigger] s[i])) ==> keep(s, p) == Seq::<A>::empty(),
        (forall|i: int| 0 <= i < s.len() ==> p(#[trigger] s[i]) == q(s[i])) ==> keep(s, p) == keep(s, q),
    decreases s.len(),
{
    if s.len() > 0 {
        let d = s.drop_last();
        lemma_keep_by_agreement(d, p, q);
        assert(forall|i: int| 0 <= i < d.len() ==> d[i] == s[i]);
        if forall|i: int| 0 <= i < s.len() ==> p(#[trigger] s[i]) {
            assert(forall|i: int| 0 <= i < d.len() ==> p(#[trigger] d[i]));
            assert(p(s[s.len() - 1]));
            assert(d.push(s.last()) =~= s);
        }
        if forall|i: int| 0 <= i < s.len() ==> !p(#[trigger] s[i]) {
            assert(forall|i: int| 0 <= i < d.len() ==> !p(#[trigger] d[i]));
            assert(!p(s[s.len() - 1]));
        }
        if forall|i: int| 0 <= i < s.len() ==> p(#[trigger] s[i]) == q(s[i]) {
            assert(forall|i: int| 0 <= i < d.len() ==> p(#[trigger] d[i]) == q(d[i]));
            assert(p(s[s.len() - 1]) == q(s[s.len() - 1]));
        }
    } else {
        assert(s =~= Seq::<A>::empty());
    }
}

/// The buffered entries past the client's last sequence.
pub open spec fn past(last: u64) -> spec_fn((u64, BufferedModel)) -> bool {
    |e: (u64, BufferedModel)| e.0 > last
}

/// While every buffered entry is fresh, a replay lists every entry past the
/// client's last sequence (in buffer order) and leaves the buffer and its
/// id index exactly as they were.
pub proof fn lemma_fresh_replay_keeps_buffer(m: OrchestratorModel, last: u64, now: u64)
    requires
        forall|i: int| 0 <= i < m.buffered.len() ==> sat_sub(now, (#[trigger] m.buffered[i]).1.buffered_at_ms) <= RESUME_BUFFER_TTL_MS,
    ensures
        keep(m.buffered, replayable(last, now)) == keep(m.buffered, past(last)),
        keep(m.buffered, not_stale(last, now)) == m.buffered,
        keep(m.buffered_ids, id_kept(event_ids(keep(m.buffered, stale(last, now))))) == m.buffered_ids,
{
    let b = m.buffered;
    assert forall|i: int| 0 <= i < b.len() implies (replayable(last, now))(#[trigger] b[i]) == (past(last))(b[i]) by {}
    lemma_keep_by_agreement(b, replayable(last, now), past(last));
    assert forall|i: int| 0 <= i < b.len() implies (not_stale(last, now))(#[trigger] b[i]) by {}
    lemma_keep_by_agreement(b, not_stale(last, now), not_stale(last, now));
    assert forall|i: int| 0 <= i < b.len() implies !(stale(last, now))(#[trigger] b[i]) by {}
    lemma_keep_by_agreement(b, stale(last, now), stale(last, now));
    assert(event_ids(Seq::<(u64, BufferedModel)>::empty()) =~= Seq::<u128>::empty());
    let ids = m.buffered_ids;
    assert forall|i: int| 0 <= i < ids.len() implies (id_kept(Seq::<u128>::empty()))(#[trigger] ids[i]) by {}
    lemma_keep_by_agreement(ids, id_kept(Seq::<u128>::empty()), id_kept(Seq::<u128>::empty()));
}

} // verus!
