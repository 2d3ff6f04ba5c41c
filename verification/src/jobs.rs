//! Live status of background research pools: a store of job snapshots,
//! forgotten fifteen minutes after they start, updated as workers finish.

use vstd::prelude::*;
use crate::clock::now_ms;
use crate::pool::{
    angles_for, derive_angles, index_keys, pool_size, pool_size_of, sort_by_index, PoolAgentResult, PoolRequest,
    PoolResult,
};
use crate::order::is_stable_order;
use crate::text::{chars_eq, chars_of, copy_opt, eq_str, lemma_map_multiset, opt_chars, strings_view};

verus! {

broadcast use vstd::seq_lib::group_seq_properties;

/// How long a job's status is kept, in milliseconds.
pub const POOL_JOB_TTL_MS: u64 = 900_000;

/// A snapshot of one pool job.
#[derive(Debug, Clone)]
pub struct PoolJobStatus {
    pub pool_id: String,
    /// queued | running | completed | error
    pub status: String,
    pub total: usize,
    pub completed: usize,
    pub intent: String,
    pub partial: Vec<PoolAgentResult>,
    pub synthesis: Option<String>,
    pub error: Option<String>,
}

/// A worker result as plain values.
pub type ResultView = (usize, Seq<char>, Seq<char>, Option<Seq<char>>, Option<Seq<char>>, Seq<Seq<char>>);

pub open spec fn result_view(r: PoolAgentResult) -> ResultView {
    (r.index, r.intent@, r.status@, opt_chars(r.result), opt_chars(r.error), strings_view(r.tools_used@))
}

/// The worker indices of result views, position by position.
pub open spec fn view_keys(s: Seq<ResultView>) -> Seq<u64> {
    s.map_values(|r: ResultView| r.0 as u64)
}

/// The views of worker results.
pub open spec fn results_view(rs: Seq<PoolAgentResult>) -> Seq<ResultView> {
    rs.map_values(|r: PoolAgentResult| result_view(r))
}

/// A job snapshot as plain values.
pub struct JobView {
    pub pool_id: Seq<char>,
    pub status: Seq<char>,
    pub total: nat,
    pub completed: nat,
    pub intent: Seq<char>,
    pub partial: Seq<ResultView>,
    pub synthesis: Option<Seq<char>>,
    pub error: Option<Seq<char>>,
}

pub open spec fn job_view(s: PoolJobStatus) -> JobView {
    JobView {
        pool_id: s.pool_id@,
        status: s.status@,
        total: s.total as nat,
        completed: s.completed as nat,
        intent: s.intent@,
        partial: results_view(s.partial@),
        synthesis: opt_chars(s.synthesis),
        error: opt_chars(s.error),
    }
}

/// One stored job and when it started.
#[derive(Debug)]
pub struct JobEntry {
    pub status: PoolJobStatus,
    pub created_ms: u64,
}

/// The jobs, in start order.
#[derive(Debug, Default)]
pub struct PoolJobStore {
    jobs: Vec<JobEntry>,
}

impl View for PoolJobStore {
    type V = Seq<(JobView, u64)>;

    closed spec fn view(&self) -> Seq<(JobView, u64)> {
        self.jobs@.map_values(|e: JobEntry| (job_view(e.status), e.created_ms))
    }
}

/// Whether a job started at `created` is still kept at `now`.
pub open spec fn job_live(now: u64, created: u64) -> bool {
    (if now >= created {
        now - created
    } else {
        0
    }) < POOL_JOB_TTL_MS
}

pub open spec fn live_jobs(s: Seq<(JobView, u64)>, now: u64) -> Seq<(JobView, u64)>
    decreases s.len(),
{
    if s.len() == 0 {
        s
    } else if job_live(now, s.last().1) {
        live_jobs(s.drop_last(), now).push(s.last())
    } else {
        live_jobs(s.drop_last(), now)
    }
}

/// The first job with this id.
pub open spec fn is_job_at(s: Seq<(JobView, u64)>, id: Seq<char>, i: int) -> bool {
    0 <= i < s.len() && s[i].0.pool_id == id && forall|j: int| 0 <= j < i ==> s[j].0.pool_id != id
}

pub open spec fn job_index(s: Seq<(JobView, u64)>, id: Seq<char>) -> Option<int> {
    if exists|i: int| is_job_at(s, id, i) {
        Some(choose|i: int| is_job_at(s, id, i))
    } else {
        None
    }
}

/// The jobs without those with this id.
pub open spec fn without_job(s: Seq<(JobView, u64)>, id: Seq<char>) -> Seq<(JobView, u64)>
    decreases s.len(),
{
    if s.len() == 0 {
        s
    } else if s.last().0.pool_id == id {
        without_job(s.drop_last(), id)
    } else {
        without_job(s.drop_last(), id).push(s.last())
    }
}

proof fn lemma_job_at_unique(s: Seq<(JobView, u64)>, id: Seq<char>, a: int, b: int)
    requires
        is_job_at(s, id, a),
        is_job_at(s, id, b),
    ensures
        a == b,
{
    if a < b {
        assert(s[a].0.pool_id == id);
    } else if b < a {
        assert(s[b].0.pool_id == id);
    }
}

fn copy_result(r: &PoolAgentResult) -> (c: PoolAgentResult)
    ensures
        result_view(c) == result_view(*r),
{
    let c = r.duplicate();
    assert(strings_view(c.tools_used@) =~= strings_view(r.tools_used@));
    c
}

fn copy_results(v: &Vec<PoolAgentResult>) -> (c: Vec<PoolAgentResult>)
    ensures
        results_view(c@) == results_view(v@),
{
    let mut c: Vec<PoolAgentResult> = Vec::new();
    let mut i: usize = 0;
    while i < v.len()
        invariant
            i <= v@.len(),
            c@.map_values(|r: PoolAgentResult| result_view(r)) == v@.map_values(|r: PoolAgentResult| result_view(r)).take(i as int),
        decreases v@.len() - i,
    {
        let ghost before = c@.map_values(|r: PoolAgentResult| result_view(r));
        let x = copy_result(&v[i]);
        c.push(x);
        assert(c@.map_values(|r: PoolAgentResult| result_view(r)) =~= before.push(result_view(x)));
        i = i + 1;
        assert(c@.map_values(|r: PoolAgentResult| result_view(r)) =~= v@.map_values(|r: PoolAgentResult| result_view(r)).take(i as int));
    }
    assert(v@.map_values(|r: PoolAgentResult| result_view(r)).take(i as int) =~= v@.map_values(|r: PoolAgentResult| result_view(r)));
    c
}

/// A copy of a job snapshot.
pub fn copy_status(s: &PoolJobStatus) -> (c: PoolJobStatus)
    ensures
        job_view(c) == job_view(*s),
{
    let c = PoolJobStatus {
        pool_id: s.pool_id.clone(),
        status: s.status.clone(),
        total: s.total,
        completed: s.completed,
        intent: s.intent.clone(),
        partial: copy_results(&s.partial),
        synthesis: copy_opt(&s.synthesis),
        error: copy_opt(&s.error),
    };
    c
}

/// The snapshot of a job that just started.
pub open spec fn running_job(pool_id: Seq<char>, total: usize, intent: Seq<char>) -> JobView {
    JobView {
        pool_id,
        status: "running"@,
        total: total as nat,
        completed: 0,
        intent,
        partial: Seq::empty(),
        synthesis: None,
        error: None,
    }
}

impl PoolJobStore {
    pub fn new() -> (s: Self)
        ensures
            s@ == Seq::<(JobView, u64)>::empty(),
    {
        let s = PoolJobStore { jobs: Vec::new() };
        assert(s@ =~= Seq::<(JobView, u64)>::empty());
        s
    }

    fn purge(&mut self, now: u64)
        ensures
            final(self)@ == live_jobs(old(self)@, now),
    {
        let ghost orig = self@;
        let total: usize = self.jobs.len();
        let mut kept: Vec<JobEntry> = Vec::new();
        let mut k: usize = 0;
        assert(orig.take(0) =~= Seq::<(JobView, u64)>::empty());
        while self.jobs.len() > 0
            invariant
                k <= orig.len(),
                orig.len() == total,
                self.jobs@.len() + k == orig.len(),
                self@ == orig.skip(k as int),
                kept@.map_values(|e: JobEntry| (job_view(e.status), e.created_ms)) == live_jobs(orig.take(k as int), now),
            decreases self.jobs@.len(),
        {
            let ghost before_self = self@;
            let e = self.jobs.remove(0);
            proof {
                assert(self@ =~= before_self.remove(0));
                assert(before_self[0] == (job_view(e.status), e.created_ms));
                assert(orig.take(k + 1).drop_last() =~= orig.take(k as int));
                assert(orig.take(k + 1).last() == orig[k as int]);
                assert(orig.skip(k as int)[0] == orig[k as int]);
                assert(orig.skip(k as int).remove(0) =~= orig.skip(k + 1));
            }
            let live = if now >= e.created_ms {
                now - e.created_ms < POOL_JOB_TTL_MS
            } else {
                0 < POOL_JOB_TTL_MS
            };
            let ghost kb = kept@.map_values(|e: JobEntry| (job_view(e.status), e.created_ms));
            if live {
                kept.push(e);
                assert(kept@.map_values(|e: JobEntry| (job_view(e.status), e.created_ms)) =~= kb.push((job_view(e.status), e.created_ms)));
            }
            k = k + 1;
        }
        assert(orig.take(k as int) =~= orig);
        self.jobs = kept;
    }

    fn find(&self, id: &str) -> (r: Option<usize>)
        ensures
            match r {
                Some(i) => job_index(self@, id@) == Some(i as int),
                None => job_index(self@, id@) is None,
            },
    {
        let want = chars_of(id);
        let mut i: usize = 0;
        while i < self.jobs.len()
            invariant
                want@ == id@,
                i <= self.jobs@.len(),
                forall|j: int| 0 <= j < i ==> self@[j].0.pool_id != id@,
            decreases self.jobs@.len() - i,
        {
            let here = chars_of(self.jobs[i].status.pool_id.as_str());
            assert(self@[i as int].0.pool_id == here@);
            if chars_eq(&here, &want) {
                proof {
                    assert(is_job_at(self@, id@, i as int));
                    let c = choose|x: int| is_job_at(self@, id@, x);
                    lemma_job_at_unique(self@, id@, i as int, c);
                }
                return Some(i);
            }
            i = i + 1;
        }
        None
    }

    fn remove_job(&mut self, id: &str)
        ensures
            final(self)@ == without_job(old(self)@, id@),
    {
        let want = chars_of(id);
        let ghost orig = self@;
        let total: usize = self.jobs.len();
        let mut kept: Vec<JobEntry> = Vec::new();
        let mut k: usize = 0;
        assert(orig.take(0) =~= Seq::<(JobView, u64)>::empty());
        while self.jobs.len() > 0
            invariant
                want@ == id@,
                k <= orig.len(),
                orig.len() == total,
                self.jobs@.len() + k == orig.len(),
                self@ == orig.skip(k as int),
                kept@.map_values(|e: JobEntry| (job_view(e.status), e.created_ms)) == without_job(orig.take(k as int), id@),
            decreases self.jobs@.len(),
        {
            let ghost before_self = self@;
            let e = self.jobs.remove(0);
            proof {
                assert(self@ =~= before_self.remove(0));
                assert(before_self[0] == (job_view(e.status), e.created_ms));
                assert(orig.take(k + 1).drop_last() =~= orig.take(k as int));
                assert(orig.take(k + 1).last() == orig[k as int]);
                assert(orig.skip(k as int)[0] == orig[k as int]);
                assert(orig.skip(k as int).remove(0) =~= orig.skip(k + 1));
            }
            let here = chars_of(e.status.pool_id.as_str());
            let ghost kb = kept@.map_values(|e: JobEntry| (job_view(e.status), e.created_ms));
            if !chars_eq(&here, &want) {
                kept.push(e);
                assert(kept@.map_values(|e: JobEntry| (job_view(e.status), e.created_ms)) =~= kb.push((job_view(e.status), e.created_ms)));
            }
            k = k + 1;
        }
        assert(orig.take(k as int) =~= orig);
        self.jobs = kept;
    }

    /// Records a job that starts running at `now` (replacing one with the same id).
    pub fn begin_at(&mut self, pool_id: &str, total: usize, intent: &str, now: u64)
        ensures
            final(self)@ == without_job(live_jobs(old(self)@, now), pool_id@).push(
                (running_job(pool_id@, total, intent@), now),
            ),
    {
        self.purge(now);
        self.remove_job(pool_id);
        let status = PoolJobStatus {
            pool_id: pool_id.to_owned(),
            status: "running".to_owned(),
            total,
            completed: 0,
            intent: intent.to_owned(),
            partial: Vec::new(),
            synthesis: None,
            error: None,
        };
        assert(job_view(status).partial =~= Seq::<ResultView>::empty());
        let ghost before = self@;
        self.jobs.push(JobEntry { status, created_ms: now });
        assert(self@ =~= before.push((running_job(pool_id@, total, intent@), now)));
    }

    /// The snapshot of a job still kept at `now`.
    pub fn get_status_at(&mut self, id: &str, now: u64) -> (r: Option<PoolJobStatus>)
        ensures
            final(self)@ == live_jobs(old(self)@, now),
            match r {
                Some(s) => job_index(final(self)@, id@) matches Some(i) && job_view(s) == final(self)@[i].0,
                None => job_index(final(self)@, id@) is None,
            },
    {
        self.purge(now);
        match self.find(id) {
            Some(i) => Some(copy_status(&self.jobs[i].status)),
            None => None,
        }
    }

    /// Records that `completed` workers have finished, `result` the latest;
    /// partial results stay ordered by worker index. Unknown jobs are left alone.
    pub fn record_progress(&mut self, id: &str, completed: usize, result: PoolAgentResult)
        ensures
            match job_index(old(self)@, id@) {
                None => final(self)@ == old(self)@,
                Some(i) => {
                    &&& final(self)@.len() == old(self)@.len()
                    &&& forall|j: int| 0 <= j < old(self)@.len() && j != i ==> final(self)@[j] == old(self)@[j]
                    &&& final(self)@[i].1 == old(self)@[i].1
                    &&& final(self)@[i].0 == (JobView {
                        completed: completed as nat,
                        partial: final(self)@[i].0.partial,
                        ..old(self)@[i].0
                    })
                    &&& final(self)@[i].0.partial.to_multiset()
                        == old(self)@[i].0.partial.push(result_view(result)).to_multiset()
                    &&& forall|a: int, b: int|
                        0 <= a <= b < final(self)@[i].0.partial.len() ==> (#[trigger] final(self)@[i].0.partial[a]).0
                            <= (#[trigger] final(self)@[i].0.partial[b]).0
                    &&& exists|order: Seq<int>|
                        is_stable_order(order, view_keys(old(self)@[i].0.partial.push(result_view(result))), false)
                            && final(self)@[i].0.partial == order.map_values(
                            |k: int| old(self)@[i].0.partial.push(result_view(result))[k],
                        )
                },
            },
    {
        match self.find(id) {
            None => {},
            Some(i) => {
                let ghost before = self@;
                let mut entry = self.jobs.remove(i);
                let mut partial: Vec<PoolAgentResult> = Vec::new();
                std::mem::swap(&mut partial, &mut entry.status.partial);
                let ghost p0 = partial@;
                partial.push(result);
                let sorted = sort_by_index(partial);
                proof {
                    lemma_map_multiset(sorted@, p0.push(result), |r: PoolAgentResult| result_view(r));
                    assert(results_view(p0.push(result)) =~= results_view(p0).push(result_view(result)));
                    let all = p0.push(result);
                    let order = choose|order: Seq<int>|
                        is_stable_order(order, index_keys(all), false) && sorted@ == order.map_values(|k: int| all[k]);
                    assert(view_keys(results_view(all)) =~= index_keys(all));
                    assert(results_view(sorted@) =~= order.map_values(|k: int| results_view(all)[k]));
                    assert(before[i as int].0.partial == results_view(p0));
                    assert(is_stable_order(order, view_keys(before[i as int].0.partial.push(result_view(result))), false)
                        && results_view(sorted@) == order.map_values(
                        |k: int| before[i as int].0.partial.push(result_view(result))[k],
                    ));
                }
                entry.status.partial = sorted;
                entry.status.completed = completed;
                self.jobs.insert(i, entry);
                assert(self@.len() == before.len());
                assert forall|j: int| 0 <= j < before.len() && j != i implies self@[j] == before[j] by {
                    if j < i {
                    } else {
                    }
                }
            },
        }
    }

    /// Records a finished pool: its status, its ordered results, how many
    /// completed, its synthesis, and an error note when no worker answered.
    /// Unknown jobs are left alone.
    pub fn finish(&mut self, id: &str, p: &PoolResult)
        ensures
            match job_index(old(self)@, id@) {
                None => final(self)@ == old(self)@,
                Some(i) => final(self)@ == old(self)@.update(
                    i,
                    (finished_job(old(self)@[i].0, p), old(self)@[i].1),
                ),
            },
    {
        match self.find(id) {
            None => {},
            Some(i) => {
                let ghost before = self@;
                let count = count_completed(&p.results);
                let ok = eq_str(&chars_of(p.status.as_str()), "completed");
                let mut entry = self.jobs.remove(i);
                entry.status.status = p.status.clone();
                entry.status.completed = count;
                entry.status.partial = copy_results(&p.results);
                entry.status.synthesis = copy_opt(&p.synthesis);
                if !ok {
                    entry.status.error = Some("one or more agents failed".to_owned());
                }
                self.jobs.insert(i, entry);
                assert(self@ =~= before.update(i as int, (job_view(entry.status), entry.created_ms)));
            },
        }
    }
}

/// A job's snapshot once its pool finished.
pub open spec fn finished_job(j: JobView, p: &PoolResult) -> JobView {
    JobView {
        status: p.status@,
        completed: completed_count(p.results@),
        partial: results_view(p.results@),
        synthesis: opt_chars(p.synthesis),
        error: if p.status@ == "completed"@ {
            j.error
        } else {
            Some("one or more agents failed"@)
        },
        ..j
    }
}

/// How many workers completed.
pub open spec fn completed_count(rs: Seq<PoolAgentResult>) -> nat
    decreases rs.len(),
{
    if rs.len() == 0 {
        0
    } else {
        completed_count(rs.drop_last()) + if rs.last().status@ == "completed"@ { 1nat } else { 0nat }
    }
}

fn count_completed(rs: &Vec<PoolAgentResult>) -> (n: usize)
    ensures
        n == completed_count(rs@),
{
    let mut n: usize = 0;
    let mut i: usize = 0;
    assert(rs@.take(0) =~= Seq::<PoolAgentResult>::empty());
    while i < rs.len()
        invariant
            i <= rs@.len(),
            n == completed_count(rs@.take(i as int)),
            n <= i,
        decreases rs@.len() - i,
    {
        assert(rs@.take(i + 1).drop_last() =~= rs@.take(i as int));
        assert(rs@.take(i + 1).last() == rs@[i as int]);
        let st = chars_of(rs[i].status.as_str());
        if eq_str(&st, "completed") {
            n = n + 1;
        }
        i = i + 1;
    }
    assert(rs@.take(i as int) =~= rs@);
    n
}

/// `get_status_at` at the clock's current time.
pub fn get_status(store: &mut PoolJobStore, id: &str) -> (r: Option<PoolJobStatus>)
    ensures
        exists|now: u64| final(store)@ == live_jobs(old(store)@, now),
        match r {
            Some(s) => job_index(final(store)@, id@) matches Some(i) && job_view(s) == final(store)@[i].0,
            None => job_index(final(store)@, id@) is None,
        },
{
    store.get_status_at(id, now_ms())
}

/// The sub-intents a tracked pool runs, with their worker indices: the
/// request's own tasks (at most the pool size) or the derived angles.
pub fn plan_tracked_tasks(req: &PoolRequest) -> (r: Vec<(usize, String)>)
    ensures
        forall|k: int| 0 <= k < r@.len() ==> (#[trigger] r@[k]).0 == k,
        req.tasks@.len() == 0 ==> r@.len() == pool_size(req.max_agents) && forall|k: int|
            0 <= k < r@.len() ==> (#[trigger] r@[k]).1@ == angles_for(req.intent@, pool_size(req.max_agents))[k],
        req.tasks@.len() > 0 ==> r@.len() == (if req.tasks@.len() < pool_size(req.max_agents) {
            req.tasks@.len() as int
        } else {
            pool_size(req.max_agents)
        }) && forall|k: int| 0 <= k < r@.len() ==> (#[trigger] r@[k]).1 == req.tasks@[k].intent,
{
    let max = pool_size_of(req.max_agents);
    let mut r: Vec<(usize, String)> = Vec::new();
    if req.tasks.len() == 0 {
        let angles = derive_angles(req.intent.as_str(), max);
        assert(crate::pool::clamp_agents(max as int) == max);
        let mut i: usize = 0;
        while i < angles.len()
            invariant
                i <= angles@.len(),
                angles@.len() == angles_for(req.intent@, max as int).len(),
                forall|k: int| 0 <= k < angles@.len() ==> #[trigger] angles@[k]@ == angles_for(req.intent@, max as int)[k],
                r@.len() == i,
                forall|k: int| 0 <= k < i ==> (#[trigger] r@[k]).0 == k && r@[k].1@ == angles_for(req.intent@, max as int)[k],
            decreases angles@.len() - i,
        {
            r.push((i, angles[i].clone()));
            i = i + 1;
        }
    } else {
        let n = if req.tasks.len() < max {
            req.tasks.len()
        } else {
            max
        };
        let mut i: usize = 0;
        while i < n
            invariant
                n <= req.tasks@.len(),
                i <= n,
                r@.len() == i,
                forall|k: int| 0 <= k < i ==> (#[trigger] r@[k]).0 == k && r@[k].1 == req.tasks@[k].intent,
            decreases n - i,
        {
            r.push((i, req.tasks[i].intent.clone()));
            i = i + 1;
        }
    }
    r
}


proof fn lemma_without_job_members(s: Seq<(JobView, u64)>, id: Seq<char>)
    ensures
        forall|k: int| 0 <= k < without_job(s, id).len() ==> (#[trigger] without_job(s, id)[k]).0.pool_id != id,
    decreases s.len(),
{
    if s.len() > 0 {
        lemma_without_job_members(s.drop_last(), id);
        let r = without_job(s.drop_last(), id);
        if s.last().0.pool_id != id {
            assert forall|k: int| 0 <= k < r.push(s.last()).len() implies (#[trigger] r.push(s.last())[k]).0.pool_id != id by {
                if k < r.len() {
                    assert(r.push(s.last())[k] == r[k]);
                }
            }
        }
    }
}

proof fn lemma_live_jobs_members(s: Seq<(JobView, u64)>, now: u64)
    ensures
        forall|k: int| 0 <= k < live_jobs(s, now).len() ==> s.contains(#[trigger] live_jobs(s, now)[k]),
    decreases s.len(),
{
    if s.len() > 0 {
        let d = s.drop_last();
        lemma_live_jobs_members(d, now);
        let r = live_jobs(d, now);
        assert forall|k: int| 0 <= k < live_jobs(s, now).len() implies s.contains(#[trigger] live_jobs(s, now)[k]) by {
            if k < r.len() {
                assert(live_jobs(s, now)[k] == r[k]);
                let j = choose|j: int| 0 <= j < d.len() && d[j] == r[k];
                assert(s[j] == d[j]);
            } else {
                assert(live_jobs(s, now)[k] == s[s.len() - 1]);
            }
        }
    }
}

/// A job just begun is reported as running, with its total and intent and
/// no progress, until fifteen minutes pass.
pub proof fn lemma_begun_job_is_reported(s: Seq<(JobView, u64)>, id: Seq<char>, total: usize, intent: Seq<char>, now: u64, later: u64)
    requires
        now <= later,
        later - now < POOL_JOB_TTL_MS,
    ensures
        ({
            let store = live_jobs(without_job(live_jobs(s, now), id).push((running_job(id, total, intent), now)), later);
            job_index(store, id) matches Some(i) && store[i].0 == running_job(id, total, intent)
        }),
{
    let x = without_job(live_jobs(s, now), id);
    let e = (running_job(id, total, intent), now);
    lemma_without_job_members(live_jobs(s, now), id);
    let y = x.push(e);
    assert(y.drop_last() =~= x);
    let lx = live_jobs(x, later);
    lemma_live_jobs_members(x, later);
    let store = live_jobs(y, later);
    assert(store == lx.push(e));
    let i = lx.len() as int;
    assert(store[i] == e);
    assert forall|j: int| 0 <= j < i implies store[j].0.pool_id != id by {
        assert(store[j] == lx[j]);
        assert(x.contains(lx[j]));
    }
    assert(is_job_at(store, id, i));
    let c = choose|c: int| is_job_at(store, id, c);
    lemma_job_at_unique(store, id, i, c);
}

} // verus!
