//! Multi-agent research pool: how a question is split into focused
//! sub-intents, how a worker's search query is derived, and how the
//! workers' answers are ordered and merged into one spoken synthesis.

use vstd::prelude::*;
use crate::order::{is_stable_order, key_before};
use vstd::multiset::Multiset;
use crate::text::{
    chars_of, decimal, decimal_chars, extend_chars, extend_str, lines, split_lines, starts_with,
    starts_with_chars, string_of, take_chars, take_prefix, trim, trim_chars, utf8_len,
    utf8_len_capped, chars_eq, slice_chars, opt_chars, copy_opt, copy_strings, eq_str, join_spaced,
    lemma_decimal_injective, lemma_decimal_len,
};
use crate::agent::Citation;

verus! {

broadcast use vstd::seq_lib::group_seq_properties;

/// Hard cap on concurrent agents in one pool.
pub const MAX_AGENTS: usize = 50;

/// Default number of agents for one research job.
pub const DEFAULT_POOL_SIZE: usize = 4;

/// What the pool reports of its limits.
#[derive(Debug, Clone)]
pub struct PoolLimits {
    pub max_agents: usize,
    pub default_pool_size: usize,
    /// The ways a pool can run its workers.
    pub modes: Vec<String>,
}

/// The pool's limits and modes, for health and status pages.
pub fn pool_limits() -> (r: PoolLimits)
    ensures
        r.max_agents == MAX_AGENTS,
        r.default_pool_size == DEFAULT_POOL_SIZE,
        r.modes@.map_values(|m: String| m@) == seq!["search_workers"@, "llm_agents"@],
{
    let mut modes: Vec<String> = Vec::new();
    modes.push("search_workers".to_owned());
    modes.push("llm_agents".to_owned());
    assert(modes@.map_values(|m: String| m@) =~= seq!["search_workers"@, "llm_agents"@]);
    PoolLimits { max_agents: MAX_AGENTS, default_pool_size: DEFAULT_POOL_SIZE, modes }
}

#[derive(Debug, Clone)]
pub struct PoolTask {
    pub intent: String,
    pub thought_depth: Option<String>,
}

#[derive(Debug, Clone)]
pub struct PoolRequest {
    /// Parent research question (used for final synthesis framing).
    pub intent: String,
    /// Explicit sub-tasks. If empty, the pool derives angles from `intent`.
    pub tasks: Vec<PoolTask>,
    /// How many agents to run (clamped `1..=MAX_AGENTS`).
    pub max_agents: Option<usize>,
    pub thought_depth: Option<String>,
}

#[derive(Debug, Clone)]
pub struct PoolAgentResult {
    pub index: usize,
    pub intent: String,
    pub status: String,
    pub result: Option<String>,
    pub error: Option<String>,
    pub tools_used: Vec<String>,
}

#[derive(Debug, Clone)]
pub struct PoolResult {
    pub pool_id: String,
    pub status: String,
    pub agents_run: usize,
    pub max_agents: usize,
    pub results: Vec<PoolAgentResult>,
    /// Merged spoken-friendly answer.
    pub synthesis: Option<String>,
}

/// `n` clamped to `1..=MAX_AGENTS`.
pub open spec fn clamp_agents(n: int) -> int {
    if n < 1 {
        1
    } else if n > MAX_AGENTS {
        MAX_AGENTS as int
    } else {
        n
    }
}

/// The `i`-th research angle on question `q`: six fixed framings, then
/// numbered aspects.
pub open spec fn angle(q: Seq<char>, i: int) -> Seq<char> {
    if i == 0 {
        "search "@ + q
    } else if i == 1 {
        "search "@ + q + " overview definition"@
    } else if i == 2 {
        "search "@ + q + " examples use cases"@
    } else if i == 3 {
        "search "@ + q + " history background"@
    } else if i == 4 {
        "search "@ + q + " vs alternatives comparison"@
    } else if i == 5 {
        "search "@ + q + " latest news"@
    } else {
        "search "@ + q + " aspect "@ + decimal((i + 1) as nat)
    }
}

/// The angles a pool of `n` agents explores for `intent`.
pub open spec fn angles_for(intent: Seq<char>, n: int) -> Seq<Seq<char>> {
    Seq::new(clamp_agents(n) as nat, |i: int| angle(trim(intent), i))
}

/// What angle `i` adds after the question.
pub open spec fn angle_suffix(i: int) -> Seq<char> {
    if i == 0 {
        Seq::empty()
    } else if i == 1 {
        " overview definition"@
    } else if i == 2 {
        " examples use cases"@
    } else if i == 3 {
        " history background"@
    } else if i == 4 {
        " vs alternatives comparison"@
    } else if i == 5 {
        " latest news"@
    } else {
        " aspect "@ + decimal((i + 1) as nat)
    }
}

proof fn lemma_angle_split(q: Seq<char>, i: int)
    ensures
        angle(q, i) == ("search "@ + q) + angle_suffix(i),
{
    if i == 0 {
        assert(("search "@ + q) + Seq::<char>::empty() =~= "search "@ + q);
    } else if i >= 6 {
        assert(("search "@ + q) + (" aspect "@ + decimal((i + 1) as nat)) =~= "search "@ + q + " aspect "@ + decimal((i + 1) as nat));
    }
}

proof fn lemma_suffixes_differ(i: int, j: int)
    requires
        0 <= i < j,
    ensures
        angle_suffix(i) != angle_suffix(j),
{
    reveal_strlit(" overview definition");
    reveal_strlit(" examples use cases");
    reveal_strlit(" history background");
    reveal_strlit(" vs alternatives comparison");
    reveal_strlit(" latest news");
    reveal_strlit(" aspect ");
    if j >= 6 {
        lemma_decimal_len((j + 1) as nat);
        let sj = angle_suffix(j);
        assert(sj[1] == 'a');
        if i >= 6 {
            lemma_decimal_len((i + 1) as nat);
            if angle_suffix(i) == sj {
                assert(angle_suffix(i).skip(8) =~= decimal((i + 1) as nat));
                assert(sj.skip(8) =~= decimal((j + 1) as nat));
                lemma_decimal_injective((i + 1) as nat, (j + 1) as nat);
            }
        } else if i > 0 {
            assert(angle_suffix(i)[1] != 'a');
        }
    } else {
        assert(" overview definition"@.len() == 20);
        assert(" examples use cases"@.len() == 19);
        assert(" history background"@.len() == 19);
        assert(" vs alternatives comparison"@.len() == 27);
        assert(" latest news"@.len() == 12);
        assert(" examples use cases"@[1] != " history background"@[1]);
    }
}

/// Growing a pool only appends angles; the angles of one pool all begin
/// with `search ` and the trimmed question, the first is exactly that, and
/// no two are alike.
pub proof fn lemma_angles_grow_and_differ(intent: Seq<char>, n: int, m: int)
    requires
        n <= m,
    ensures
        angles_for(intent, m).take(angles_for(intent, n).len() as int) == angles_for(intent, n),
        angles_for(intent, n)[0] == "search "@ + trim(intent),
        forall|i: int| 0 <= i < angles_for(intent, n).len() ==> starts_with(#[trigger] angles_for(intent, n)[i], "search "@ + trim(intent)),
        forall|i: int, j: int| 0 <= i < j < angles_for(intent, n).len() ==> #[trigger] angles_for(intent, n)[i] != #[trigger] angles_for(intent, n)[j],
{
    let q = trim(intent);
    let p = "search "@ + q;
    assert(angles_for(intent, m).take(angles_for(intent, n).len() as int) =~= angles_for(intent, n));
    assert forall|i: int| 0 <= i < angles_for(intent, n).len() implies starts_with(#[trigger] angles_for(intent, n)[i], p) by {
        lemma_angle_split(q, i);
        assert((p + angle_suffix(i)).take(p.len() as int) =~= p);
    }
    assert forall|i: int, j: int| 0 <= i < j < angles_for(intent, n).len() implies #[trigger] angles_for(intent, n)[i] != #[trigger] angles_for(intent, n)[j] by {
        lemma_angle_split(q, i);
        lemma_angle_split(q, j);
        lemma_suffixes_differ(i, j);
        if angle(q, i) == angle(q, j) {
            assert((p + angle_suffix(i)).skip(p.len() as int) =~= angle_suffix(i));
            assert((p + angle_suffix(j)).skip(p.len() as int) =~= angle_suffix(j));
        }
    }
}

fn angle_text(q: &Vec<char>, i: usize) -> (r: String)
    requires
        i < MAX_AGENTS,
    ensures
        r@ == angle(q@, i as int),
{
    let mut v: Vec<char> = Vec::new();
    extend_str(&mut v, "search ");
    extend_chars(&mut v, q);
    if i == 1 {
        extend_str(&mut v, " overview definition");
    } else if i == 2 {
        extend_str(&mut v, " examples use cases");
    } else if i == 3 {
        extend_str(&mut v, " history background");
    } else if i == 4 {
        extend_str(&mut v, " vs alternatives comparison");
    } else if i == 5 {
        extend_str(&mut v, " latest news");
    } else if i >= 6 {
        extend_str(&mut v, " aspect ");
        let d = decimal_chars((i + 1) as u64);
        extend_chars(&mut v, &d);
    }
    string_of(&v)
}

/// Focused research angles for a question, one per agent (1 to 50).
pub fn derive_angles(intent: &str, n: usize) -> (r: Vec<String>)
    ensures
        r@.len() == angles_for(intent@, n as int).len(),
        forall|i: int| 0 <= i < r@.len() ==> #[trigger] r@[i]@ == angles_for(intent@, n as int)[i],
{
    let q = trim_chars(&chars_of(intent));
    let n = if n < 1 {
        1
    } else if n > MAX_AGENTS {
        MAX_AGENTS
    } else {
        n
    };
    let mut r: Vec<String> = Vec::new();
    let mut i: usize = 0;
    while i < n
        invariant
            n == clamp_agents(n as int),
            n <= MAX_AGENTS,
            i <= n,
            q@ == trim(intent@),
            r@.len() == i,
            forall|k: int| 0 <= k < i ==> #[trigger] r@[k]@ == angle(q@, k),
        decreases n - i,
    {
        r.push(angle_text(&q, i));
        i = i + 1;
    }
    r
}

/// `s` without the repeated prefix `p` (`str::trim_start_matches`).
pub open spec fn strip_repeated(s: Seq<char>, p: Seq<char>) -> Seq<char>
    decreases s.len(),
{
    if p.len() > 0 && starts_with(s, p) {
        strip_repeated(s.skip(p.len() as int), p)
    } else {
        s
    }
}

fn strip_repeated_chars(v: &Vec<char>, p: &str) -> (r: Vec<char>)
    ensures
        r@ == strip_repeated(v@, p@),
{
    let pc = chars_of(p);
    let mut cur = slice_chars(v, 0, v.len());
    assert(cur@ =~= v@);
    while pc.len() > 0 && starts_with_chars(&cur, &pc)
        invariant
            pc@ == p@,
            strip_repeated(cur@, p@) == strip_repeated(v@, p@),
        decreases cur@.len(),
    {
        cur = slice_chars(&cur, pc.len(), cur.len());
    }
    cur
}

/// The web query a search worker runs for one sub-intent.
pub open spec fn search_query(intent: Seq<char>) -> Seq<char> {
    strip_repeated(strip_repeated(trim(intent), "search "@), "Search "@)
}

/// The query a search worker runs: the trimmed intent without leading
/// `search ` / `Search ` words.
pub fn pool_search_query(intent: &str) -> (q: String)
    ensures
        q@ == search_query(intent@),
{
    let t = trim_chars(&chars_of(intent));
    let a = strip_repeated_chars(&t, "search ");
    let b = strip_repeated_chars(&a, "Search ");
    string_of(&b)
}

/// The thought depth a pool runs with (`balanced` when none is given).
pub open spec fn pool_depth(req_depth: Option<String>) -> Seq<char> {
    match req_depth {
        Some(d) => d@,
        None => "balanced"@,
    }
}

/// The pool's size: the requested count, else 4, clamped to 1..=50.
pub open spec fn pool_size(max_agents: Option<usize>) -> int {
    match max_agents {
        Some(m) => clamp_agents(m as int),
        None => clamp_agents(DEFAULT_POOL_SIZE as int),
    }
}

/// The pool's size for a request.
pub fn pool_size_of(max_agents: Option<usize>) -> (n: usize)
    ensures
        n == pool_size(max_agents),
        1 <= n <= MAX_AGENTS,
{
    let m = match max_agents {
        Some(m) => m,
        None => DEFAULT_POOL_SIZE,
    };
    if m < 1 {
        1
    } else if m > MAX_AGENTS {
        MAX_AGENTS
    } else {
        m
    }
}

/// The tasks a pool runs: the request's own (at most `pool_size`), or the
/// derived angles, each at the pool's depth.
pub fn plan_pool_tasks(req: &PoolRequest) -> (tasks: Vec<PoolTask>)
    ensures
        req.tasks@.len() == 0 ==> {
            &&& tasks@.len() == pool_size(req.max_agents)
            &&& forall|i: int|
                0 <= i < tasks@.len() ==> (#[trigger] tasks@[i]).intent@ == angles_for(
                    req.intent@,
                    pool_size(req.max_agents),
                )[i] && opt_chars(tasks@[i].thought_depth) == Some(pool_depth(req.thought_depth))
        },
        req.tasks@.len() > 0 ==> tasks@ == req.tasks@.take(
            if req.tasks@.len() < pool_size(req.max_agents) {
                req.tasks@.len() as int
            } else {
                pool_size(req.max_agents)
            },
        ),
{
    let max = pool_size_of(req.max_agents);
    if req.tasks.len() == 0 {
        let depth = match &req.thought_depth {
            Some(d) => d.clone(),
            None => "balanced".to_owned(),
        };
        let angles = derive_angles(req.intent.as_str(), max);
        assert(clamp_agents(max as int) == max);
        let mut tasks: Vec<PoolTask> = Vec::new();
        let mut i: usize = 0;
        while i < angles.len()
            invariant
                i <= angles@.len(),
                angles@.len() == angles_for(req.intent@, max as int).len(),
                forall|k: int| 0 <= k < angles@.len() ==> #[trigger] angles@[k]@ == angles_for(
                    req.intent@,
                    max as int,
                )[k],
                depth@ == pool_depth(req.thought_depth),
                tasks@.len() == i,
                forall|k: int|
                    0 <= k < i ==> (#[trigger] tasks@[k]).intent@ == angles_for(
                        req.intent@,
                        max as int,
                    )[k] && opt_chars(tasks@[k].thought_depth) == Some(depth@),
            decreases angles@.len() - i,
        {
            tasks.push(PoolTask { intent: angles[i].clone(), thought_depth: Some(depth.clone()) });
            i = i + 1;
        }
        tasks
    } else {
        let n = if req.tasks.len() < max {
            req.tasks.len()
        } else {
            max
        };
        let mut tasks: Vec<PoolTask> = Vec::new();
        let mut i: usize = 0;
        while i < n
            invariant
                n <= req.tasks@.len(),
                i <= n,
                tasks@ == req.tasks@.take(i as int),
            decreases n - i,
        {
            let t = &req.tasks[i];
            let copy = PoolTask {
                intent: t.intent.clone(),
                thought_depth: match &t.thought_depth {
                    Some(d) => Some(d.clone()),
                    None => None,
                },
            };
            assert(copy == req.tasks@[i as int]);
            tasks.push(copy);
            i = i + 1;
            assert(tasks@ =~= req.tasks@.take(i as int));
        }
        tasks
    }
}

/// The depth one worker runs at: its task's own, else the pool's.
pub fn worker_depth(task: &PoolTask, pool_depth_value: &String) -> (d: String)
    ensures
        d@ == match task.thought_depth {
            Some(t) => t@,
            None => pool_depth_value@,
        },
{
    match &task.thought_depth {
        Some(t) => t.clone(),
        None => pool_depth_value.clone(),
    }
}

/// The first line of `t` (`t` itself when it has none).
pub open spec fn first_line(t: Seq<char>) -> Seq<char> {
    if lines(t).len() > 0 {
        lines(t)[0]
    } else {
        t
    }
}

/// The synthesis line contributed by one worker answer.
pub open spec fn answer_line(t: Seq<char>) -> Seq<char> {
    take_chars(trim(first_line(t)), 220)
}

/// The lines of the answers, in order, keeping those longer than 12 bytes.
pub open spec fn answer_lines(rs: Seq<PoolAgentResult>) -> Seq<Seq<char>>
    decreases rs.len(),
{
    if rs.len() == 0 {
        Seq::empty()
    } else {
        let prev = answer_lines(rs.drop_last());
        match rs.last().result {
            Some(t) => if utf8_len(answer_line(t@)) > 12 {
                prev.push(answer_line(t@))
            } else {
                prev
            },
            None => prev,
        }
    }
}

/// Without consecutive repeats (`Vec::dedup`).
pub open spec fn dedup(s: Seq<Seq<char>>) -> Seq<Seq<char>>
    decreases s.len(),
{
    if s.len() <= 1 {
        s
    } else if s.last() == s[s.len() - 2] {
        dedup(s.drop_last())
    } else {
        dedup(s.drop_last()).push(s.last())
    }
}

/// Whether `s` holds a CJK unified ideograph (U+4E00 to U+9FFF).
pub open spec fn has_cjk_ideograph(s: Seq<char>) -> bool {
    exists|i: int| 0 <= i < s.len() && '\u{4e00}' <= #[trigger] s[i] && s[i] <= '\u{9fff}'
}

/// The merged spoken answer of a pool: up to four distinct answer lines
/// framed by the question, the merged body cut at 700 characters.
pub open spec fn synthesis_of(parent: Seq<char>, rs: Seq<PoolAgentResult>) -> Option<Seq<char>> {
    let chunks = dedup(answer_lines(rs));
    if chunks.len() == 0 {
        None
    } else {
        let body = join_spaced(chunks.take(if chunks.len() < 4 { chunks.len() as int } else { 4 }));
        let prefix = if has_cjk_ideograph(parent) {
            "关于「"@ + parent + "」："@
        } else {
            "On “"@ + parent + "”: "@
        };
        Some(prefix + take_chars(body, 700))
    }
}

proof fn lemma_answer_lines_concat(a: Seq<PoolAgentResult>, b: Seq<PoolAgentResult>)
    ensures
        answer_lines(a + b) == answer_lines(a) + answer_lines(b),
    decreases b.len(),
{
    if b.len() == 0 {
        assert(a + b =~= a);
        assert(answer_lines(a) + answer_lines(b) =~= answer_lines(a));
    } else {
        lemma_answer_lines_concat(a, b.drop_last());
        assert((a + b).drop_last() =~= a + b.drop_last());
        assert((a + b).last() == b.last());
        match b.last().result {
            Some(t) => {
                if utf8_len(answer_line(t@)) > 12 {
                    assert(answer_lines(a) + answer_lines(b) =~= (answer_lines(a) + answer_lines(b.drop_last())).push(
                        answer_line(t@),
                    ));
                }
            },
            None => {},
        }
    }
}

proof fn lemma_answer_lines_long(a: Seq<PoolAgentResult>)
    ensures
        forall|i: int| 0 <= i < answer_lines(a).len() ==> utf8_len(#[trigger] answer_lines(a)[i]) > 12,
    decreases a.len(),
{
    if a.len() > 0 {
        lemma_answer_lines_long(a.drop_last());
        let prev = answer_lines(a.drop_last());
        assert forall|i: int| 0 <= i < answer_lines(a).len() implies utf8_len(#[trigger] answer_lines(a)[i]) > 12 by {
            if i < prev.len() {
                assert(answer_lines(a)[i] == prev[i]);
            }
        }
    }
}

proof fn lemma_dedup_absorbs_repeat(l: Seq<Seq<char>>, x: Seq<char>, m: Seq<Seq<char>>)
    requires
        l.len() > 0,
        x == l.last(),
    ensures
        dedup(l.push(x) + m) == dedup(l + m),
    decreases m.len(),
{
    if m.len() == 0 {
        assert(l.push(x) + m =~= l.push(x));
        assert(l + m =~= l);
        assert(l.push(x).drop_last() =~= l);
    } else {
        lemma_dedup_absorbs_repeat(l, x, m.drop_last());
        let u = l.push(x) + m;
        let v = l + m;
        assert(u.drop_last() =~= l.push(x) + m.drop_last());
        assert(v.drop_last() =~= l + m.drop_last());
        assert(u.last() == m.last() && v.last() == m.last());
        if m.len() == 1 {
            assert(u[u.len() - 2] == x);
            assert(v[v.len() - 2] == l.last());
        } else {
            assert(u[u.len() - 2] == m[m.len() - 2]);
            assert(v[v.len() - 2] == m[m.len() - 2]);
        }
    }
}

/// A worker whose answer repeats, line for line, the answer just before
/// it adds nothing to the synthesis: the merged answer never says the same
/// line twice in a row, wherever the repeat stands among the workers.
pub proof fn lemma_repeated_answer_adds_nothing(
    parent: Seq<char>,
    a: Seq<PoolAgentResult>,
    r: PoolAgentResult,
    b: Seq<PoolAgentResult>,
)
    requires
        answer_lines(a).len() > 0,
        r.result matches Some(t) && answer_line(t@) == answer_lines(a).last(),
    ensures
        synthesis_of(parent, a.push(r) + b) == synthesis_of(parent, a + b),
{
    let t = r.result.unwrap();
    let l = answer_lines(a);
    lemma_answer_lines_long(a);
    assert(utf8_len(l[l.len() - 1]) > 12);
    assert(a.push(r).drop_last() =~= a);
    assert(answer_lines(a.push(r)) == l.push(answer_line(t@)));
    lemma_answer_lines_concat(a.push(r), b);
    lemma_answer_lines_concat(a, b);
    lemma_dedup_absorbs_repeat(l, answer_line(t@), answer_lines(b));
}

proof fn lemma_dedup_last(s: Seq<Seq<char>>)
    requires
        s.len() > 0,
    ensures
        dedup(s).len() > 0,
        dedup(s).last() == s.last(),
    decreases s.len(),
{
    if s.len() > 1 {
        lemma_dedup_last(s.drop_last());
        if s.last() == s[s.len() - 2] {
            assert(s.drop_last().last() == s[s.len() - 2]);
        }
    }
}

fn first_line_chars(t: &Vec<char>) -> (r: Vec<char>)
    ensures
        r@ == first_line(t@),
{
    let ls = split_lines(t);
    if ls.len() > 0 {
        let r = slice_chars(&ls[0], 0, ls[0].len());
        assert(r@ =~= ls@[0]@);
        r
    } else {
        slice_chars(t, 0, t.len())
    }
}

/// The merged spoken answer of a pool, if any worker answered usefully.
pub fn synthesize_results(parent: &str, results: &[PoolAgentResult]) -> (r: Option<String>)
    ensures
        opt_chars(r) == synthesis_of(parent@, results@),
{
    let mut raw: Vec<Vec<char>> = Vec::new();
    let ghost mut raw_view: Seq<Seq<char>> = Seq::empty();
    let mut chunks: Vec<Vec<char>> = Vec::new();
    let mut i: usize = 0;
    while i < results.len()
        invariant
            i <= results@.len(),
            raw_view == answer_lines(results@.take(i as int)),
            chunks@.len() == dedup(raw_view).len(),
            forall|k: int| 0 <= k < chunks@.len() ==> #[trigger] chunks@[k]@ == dedup(raw_view)[k],
        decreases results@.len() - i,
    {
        assert(results@.take(i + 1).drop_last() =~= results@.take(i as int));
        assert(results@.take(i + 1).last() == results@[i as int]);
        match &results[i].result {
            Some(t) => {
                let tv = chars_of(t.as_str());
                let line = take_prefix(&trim_chars(&first_line_chars(&tv)), 220);
                if utf8_len_capped(&line, 13) > 12 {
                    proof {
                        if raw_view.len() > 0 {
                            lemma_dedup_last(raw_view);
                        }
                    }
                    let dup = chunks.len() > 0 && chars_eq(&chunks[chunks.len() - 1], &line);
                    proof {
                        let nv = raw_view.push(line@);
                        assert(nv.drop_last() =~= raw_view);
                        if raw_view.len() > 0 {
                            assert(nv[nv.len() - 2] == raw_view.last());
                            assert(chunks@[chunks@.len() - 1]@ == dedup(raw_view).last());
                        }
                        raw_view = nv;
                    }
                    if !dup {
                        chunks.push(line);
                    }
                }
            },
            None => {},
        }
        i = i + 1;
    }
    assert(results@.take(i as int) =~= results@);
    if chunks.len() == 0 {
        return None;
    }
    let n = if chunks.len() < 4 {
        chunks.len()
    } else {
        4
    };
    let ghost parts = dedup(raw_view).take(n as int);
    let mut body: Vec<char> = Vec::new();
    let mut k: usize = 0;
    while k < n
        invariant
            k <= n <= chunks@.len(),
            chunks@.len() == dedup(raw_view).len(),
            forall|j: int| 0 <= j < chunks@.len() ==> #[trigger] chunks@[j]@ == dedup(raw_view)[j],
            parts == dedup(raw_view).take(n as int),
            body@ == join_spaced(parts.take(k as int)),
        decreases n - k,
    {
        assert(parts.take(k + 1).drop_last() =~= parts.take(k as int));
        assert(parts.take(k + 1).last() == chunks@[k as int]@);
        if k > 0 {
            extend_str(&mut body, " ");
        } else {
            assert(parts.take(1) =~= seq![chunks@[0]@]);
        }
        extend_chars(&mut body, &chunks[k]);
        k = k + 1;
    }
    assert(parts.take(n as int) =~= parts);
    let pv = chars_of(parent);
    let mut cjk = false;
    let mut j: usize = 0;
    while j < pv.len()
        invariant
            j <= pv@.len(),
            pv@ == parent@,
            cjk == exists|x: int| 0 <= x < j && '\u{4e00}' <= #[trigger] pv@[x] && pv@[x] <= '\u{9fff}',
        decreases pv@.len() - j,
    {
        if '\u{4e00}' <= pv[j] && pv[j] <= '\u{9fff}' {
            cjk = true;
        }
        j = j + 1;
    }
    let mut out: Vec<char> = Vec::new();
    if cjk {
        extend_str(&mut out, "关于「");
        extend_chars(&mut out, &pv);
        extend_str(&mut out, "」：");
    } else {
        extend_str(&mut out, "On “");
        extend_chars(&mut out, &pv);
        extend_str(&mut out, "”: ");
    }
    let cut = take_prefix(&body, 700);
    extend_chars(&mut out, &cut);
    Some(string_of(&out))
}

impl PoolAgentResult {
    /// A field-for-field copy.
    pub fn duplicate(&self) -> (r: Self)
        ensures
            r.index == self.index,
            r.intent == self.intent,
            r.status == self.status,
            r.result == self.result,
            r.error == self.error,
            r.tools_used@ == self.tools_used@,
    {
        PoolAgentResult {
            index: self.index,
            intent: self.intent.clone(),
            status: self.status.clone(),
            result: copy_opt(&self.result),
            error: copy_opt(&self.error),
            tools_used: copy_strings(&self.tools_used),
        }
    }
}

/// Ordered by worker index, lowest first.
pub open spec fn sorted_by_index(s: Seq<PoolAgentResult>) -> bool {
    forall|i: int, j: int| 0 <= i <= j < s.len() ==> s[i].index <= s[j].index
}

/// The worker indices of results, as sort keys.
pub open spec fn index_keys(s: Seq<PoolAgentResult>) -> Seq<u64> {
    s.map_values(|r: PoolAgentResult| r.index as u64)
}

/// The results ordered by worker index (equal indices keep their order):
/// a stable sort.
pub fn sort_by_index(v: Vec<PoolAgentResult>) -> (r: Vec<PoolAgentResult>)
    ensures
        r@.to_multiset() == v@.to_multiset(),
        sorted_by_index(r@),
        r@.len() == v@.len(),
        exists|order: Seq<int>|
            is_stable_order(order, index_keys(v@), false) && r@ == order.map_values(|i: int| v@[i]),
{
    broadcast use vstd::seq_lib::group_to_multiset_ensures;

    let ghost v0 = v@;
    let ghost keys = index_keys(v@);
    let n0: usize = v.len();
    let mut work = v;
    let mut ids: Vec<usize> = Vec::new();
    let mut i: usize = 0;
    while i < n0
        invariant
            n0 == v0.len(),
            i <= n0,
            ids@.len() == i,
            forall|j: int| 0 <= j < i ==> ids@[j] == j,
        decreases n0 - i,
    {
        ids.push(i);
        i = i + 1;
    }
    let ghost all = work@.to_multiset();
    let ghost mut out_ids: Seq<int> = Seq::empty();
    proof {
        assert forall|x: int| 0 <= x < n0 implies out_ids.contains(x) || ids@.contains(x as usize) by {
            assert(ids@[x] == x as usize);
        }
    }
    let mut out: Vec<PoolAgentResult> = Vec::new();
    while work.len() > 0
        invariant
            n0 == v0.len(),
            keys == index_keys(v0),
            all == v0.to_multiset(),
            out@.to_multiset().add(work@.to_multiset()) == all,
            out@.len() + work@.len() == n0,
            work@.len() == ids@.len(),
            out@.len() == out_ids.len(),
            forall|j: int| 0 <= j < ids@.len() ==> (#[trigger] ids@[j]) < n0 && work@[j] == v0[ids@[j] as int],
            forall|a: int| 0 <= a < out_ids.len() ==> 0 <= (#[trigger] out_ids[a]) < n0 && out@[a] == v0[out_ids[a]],
            forall|j: int, k: int| 0 <= j < k < ids@.len() ==> (#[trigger] ids@[j]) != (#[trigger] ids@[k]),
            forall|x: int| 0 <= x < n0 ==> out_ids.contains(x) || ids@.contains(x as usize),
            forall|a: int, b: int| 0 <= a < b < out_ids.len() ==> key_before(keys, false, #[trigger] out_ids[a], #[trigger] out_ids[b]),
            forall|a: int, b: int| 0 <= a < out_ids.len() && 0 <= b < ids@.len() ==> key_before(keys, false, #[trigger] out_ids[a], #[trigger] ids@[b] as int),
            sorted_by_index(out@),
            forall|a: int, b: int|
                0 <= a < out@.len() && 0 <= b < work@.len() ==> out@[a].index <= work@[b].index,
        decreases work@.len(),
    {
        let mut best: usize = 0;
        let mut k: usize = 1;
        while k < work.len()
            invariant
                work@.len() == ids@.len(),
                0 <= best < k <= work@.len(),
                keys == index_keys(v0),
                forall|j: int| 0 <= j < ids@.len() ==> (#[trigger] ids@[j]) < n0 && work@[j] == v0[ids@[j] as int],
                n0 == v0.len(),
                forall|j: int, m: int| 0 <= j < m < ids@.len() ==> (#[trigger] ids@[j]) != (#[trigger] ids@[m]),
                forall|j: int| 0 <= j < k && j != best ==> key_before(keys, false, ids@[best as int] as int, #[trigger] ids@[j] as int),
                forall|j: int| 0 <= j < k ==> work@[best as int].index <= #[trigger] work@[j].index,
            decreases work@.len() - k,
        {
            if work[k].index < work[best].index || (work[k].index == work[best].index && ids[k] < ids[best]) {
                proof {
                    assert forall|j: int| 0 <= j < k + 1 && j != k implies key_before(keys, false, ids@[k as int] as int, #[trigger] ids@[j] as int) by {
                        if j != best {
                            assert(key_before(keys, false, ids@[best as int] as int, ids@[j] as int));
                        }
                        assert(keys[ids@[k as int] as int] == work@[k as int].index);
                        assert(keys[ids@[best as int] as int] == work@[best as int].index);
                        assert(keys[ids@[j] as int] == work@[j].index);
                    }
                }
                best = k;
            } else {
                proof {
                    assert(keys[ids@[k as int] as int] == work@[k as int].index);
                    assert(keys[ids@[best as int] as int] == work@[best as int].index);
                    assert(ids@[k as int] != ids@[best as int]);
                }
            }
            k = k + 1;
        }
        let ghost w0 = work@;
        let ghost i0 = ids@;
        let a = work.remove(best);
        let id = ids.remove(best);
        proof {
            vstd::seq_lib::to_multiset_remove(w0, best as int);
            vstd::seq_lib::to_multiset_build(out@, a);
            broadcast use vstd::multiset::group_multiset_axioms;
            assert(w0[best as int] == a);
            vstd::seq_lib::to_multiset_contains(w0, a);
            assert(out@.push(a).to_multiset().add(work@.to_multiset()) =~= all);
            assert forall|x: int, y: int|
                0 <= x < out@.push(a).len() && 0 <= y < work@.len() implies out@.push(a)[x].index
                <= work@[y].index by {
                let y2 = if y < best { y } else { y + 1 };
                assert(work@[y] == w0[y2]);
                if x < out@.len() {
                    assert(out@.push(a)[x] == out@[x]);
                }
            }
            let no = out_ids.push(id as int);
            assert forall|x: int| 0 <= x < n0 implies no.contains(x) || ids@.contains(x as usize) by {
                if out_ids.contains(x) {
                    let p = choose|p: int| 0 <= p < out_ids.len() && out_ids[p] == x;
                    assert(no[p] == x);
                } else {
                    let p = choose|p: int| 0 <= p < i0.len() && i0[p] == x as usize;
                    if p == best {
                        assert(no[out_ids.len() as int] == x);
                    } else if p < best {
                        assert(ids@[p] == x as usize);
                    } else {
                        assert(ids@[p - 1] == x as usize);
                    }
                }
            }
            assert forall|x: int, y: int| 0 <= x < no.len() && 0 <= y < ids@.len() implies key_before(keys, false, #[trigger] no[x], #[trigger] ids@[y] as int) by {
                let y2 = if y < best { y } else { y + 1 };
                assert(ids@[y] == i0[y2]);
                if x == out_ids.len() {
                    assert(y2 != best);
                }
            }
            assert forall|x: int, y: int| 0 <= x < y < no.len() implies key_before(keys, false, #[trigger] no[x], #[trigger] no[y]) by {
                if y == out_ids.len() {
                    assert(no[y] == i0[best as int] as int);
                }
            }
            assert forall|j: int, m: int| 0 <= j < m < ids@.len() implies (#[trigger] ids@[j]) != (#[trigger] ids@[m]) by {
                let j2 = if j < best { j } else { j + 1 };
                let m2 = if m < best { m } else { m + 1 };
                assert(ids@[j] == i0[j2] && ids@[m] == i0[m2]);
            }
            assert forall|j: int| 0 <= j < ids@.len() implies (#[trigger] ids@[j]) < n0 && work@[j] == v0[ids@[j] as int] by {
                let j2 = if j < best { j } else { j + 1 };
                assert(ids@[j] == i0[j2] && work@[j] == w0[j2]);
            }
            out_ids = no;
        }
        out.push(a);
    }
    proof {
        broadcast use vstd::multiset::group_multiset_axioms;
        assert(work@.to_multiset() =~= Multiset::empty());
        assert(out@.to_multiset().add(Multiset::empty()) =~= out@.to_multiset());
        assert forall|x: int| 0 <= x < keys.len() implies #[trigger] out_ids.contains(x) by {
            if ids@.contains(x as usize) {
                let p = choose|p: int| 0 <= p < ids@.len() && ids@[p] == x as usize;
            }
        }
        assert(out@ =~= out_ids.map_values(|i: int| v0[i]));
        assert(is_stable_order(out_ids, keys, false));
    }
    out
}

/// Some worker completed with an answer.
pub open spec fn any_answered(rs: Seq<PoolAgentResult>) -> bool {
    exists|i: int| 0 <= i < rs.len() && (#[trigger] rs[i]).status@ == "completed"@ && rs[i].result is Some
}

fn answered_exists(rs: &Vec<PoolAgentResult>) -> (r: bool)
    ensures
        r == any_answered(rs@),
{
    let mut i: usize = 0;
    while i < rs.len()
        invariant
            i <= rs@.len(),
            forall|k: int| 0 <= k < i ==> !((#[trigger] rs@[k]).status@ == "completed"@ && rs@[k].result is Some),
        decreases rs@.len() - i,
    {
        let st = chars_of(rs[i].status.as_str());
        if eq_str(&st, "completed") && rs[i].result.is_some() {
            return true;
        }
        i = i + 1;
    }
    false
}

/// The pool's answer once every worker returned: results ordered by index,
/// `completed` when some worker answered and `error` otherwise, and the
/// merged synthesis.
pub fn finish_pool(
    pool_id: String,
    parent: &str,
    max_agents: usize,
    agents_run: usize,
    results: Vec<PoolAgentResult>,
) -> (p: PoolResult)
    ensures
        p.pool_id == pool_id,
        p.agents_run == agents_run,
        p.max_agents == max_agents,
        p.results@.to_multiset() == results@.to_multiset(),
        sorted_by_index(p.results@),
        exists|order: Seq<int>|
            is_stable_order(order, index_keys(results@), false) && p.results@ == order.map_values(|i: int| results@[i]),
        p.status@ == if any_answered(p.results@) { "completed"@ } else { "error"@ },
        opt_chars(p.synthesis) == synthesis_of(parent@, p.results@),
{
    let ordered = sort_by_index(results);
    let synthesis = synthesize_results(parent, ordered.as_slice());
    let ok = answered_exists(&ordered);
    PoolResult {
        pool_id,
        status: if ok {
            "completed".to_owned()
        } else {
            "error".to_owned()
        },
        agents_run,
        max_agents,
        results: ordered,
        synthesis,
    }
}

/// Most sources a pool answer cites.
pub const MAX_POOL_SOURCES: usize = 8;

/// The citation for one answered worker.
pub open spec fn pool_citation(r: PoolAgentResult, text: Seq<char>) -> (Seq<char>, Seq<char>, Seq<char>) {
    (take_chars(r.intent@, 80), "agent://pool/"@ + decimal(r.index as nat), take_chars(text, 160))
}

/// The citations of the answered workers, in order.
pub open spec fn pool_citations(rs: Seq<PoolAgentResult>) -> Seq<(Seq<char>, Seq<char>, Seq<char>)>
    decreases rs.len(),
{
    if rs.len() == 0 {
        Seq::empty()
    } else {
        match rs.last().result {
            Some(t) => pool_citations(rs.drop_last()).push(pool_citation(rs.last(), t@)),
            None => pool_citations(rs.drop_last()),
        }
    }
}

/// The view of a citation.
pub open spec fn citation_view(c: Citation) -> (Seq<char>, Seq<char>, Seq<char>) {
    (c.title@, c.url@, c.snippet@)
}

/// Citations for the answered workers of a pool, at most eight.
pub fn pool_sources_from_results(results: &[PoolAgentResult]) -> (r: Vec<Citation>)
    ensures
        r@.map_values(|c: Citation| citation_view(c)) == take_chars_seq(
            pool_citations(results@),
            MAX_POOL_SOURCES as nat,
        ),
{
    let mut r: Vec<Citation> = Vec::new();
    let mut i: usize = 0;
    let ghost mut all: Seq<(Seq<char>, Seq<char>, Seq<char>)> = Seq::empty();
    while i < results.len()
        invariant
            i <= results@.len(),
            all == pool_citations(results@.take(i as int)),
            r@.map_values(|c: Citation| citation_view(c)) == take_chars_seq(all, MAX_POOL_SOURCES as nat),
        decreases results@.len() - i,
    {
        assert(results@.take(i + 1).drop_last() =~= results@.take(i as int));
        assert(results@.take(i + 1).last() == results@[i as int]);
        let item = &results[i];
        match &item.result {
            Some(text) => {
                let title = string_of(&take_prefix(&chars_of(item.intent.as_str()), 80));
                let mut url: Vec<char> = Vec::new();
                extend_str(&mut url, "agent://pool/");
                let digits = decimal_chars(item.index as u64);
                extend_chars(&mut url, &digits);
                let snippet = string_of(&take_prefix(&chars_of(text.as_str()), 160));
                let c = Citation { title, url: string_of(&url), snippet };
                assert(item.index as u64 as nat == item.index as nat);
                assert(citation_view(c) == pool_citation(*item, text@));
                let ghost old_all = all;
                proof {
                    all = all.push(pool_citation(*item, text@));
                }
                if r.len() < MAX_POOL_SOURCES {
                    assert(r@.map_values(|c: Citation| citation_view(c)).len() == r@.len());
                    assert(old_all.len() == r@.len());
                    let ghost before = r@.map_values(|c: Citation| citation_view(c));
                    r.push(c);
                    assert(r@.map_values(|c: Citation| citation_view(c)) =~= before.push(citation_view(c)));
                    assert(r@.map_values(|c: Citation| citation_view(c)) =~= take_chars_seq(
                        all,
                        MAX_POOL_SOURCES as nat,
                    ));
                } else {
                    assert(take_chars_seq(all, MAX_POOL_SOURCES as nat) =~= take_chars_seq(
                        all.drop_last(),
                        MAX_POOL_SOURCES as nat,
                    ));
                }
            },
            None => {},
        }
        i = i + 1;
    }
    assert(results@.take(i as int) =~= results@);
    r
}

/// The first `n` items of a sequence (all of them when there are fewer).
pub open spec fn take_chars_seq<A>(s: Seq<A>, n: nat) -> Seq<A> {
    if s.len() <= n {
        s
    } else {
        s.take(n as int)
    }
}

} // verus!
