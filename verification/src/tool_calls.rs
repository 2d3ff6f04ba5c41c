//! What the agent does when the model calls one of its tools: the class
//! check, the argument checks and clamps, and which work (search, browse,
//! file, pool, confirmation) the call turns into. The work itself is done by
//! the caller.

use vstd::prelude::*;
use crate::agent::{class_name, class_tools, AgentClass};
use crate::agent::Citation;
use crate::pool::{citation_view, PoolAgentResult};
use crate::pending::{
    action_with_id, delete_message, first_with_id, ids_distinct, purged, queue_delete_file, queue_write_file,
    without_id, PendingAction, PendingEntry, PendingKind, PendingStore,
};
use crate::text::{
    chars_eq, chars_of, decimal, decimal_chars, decimal_chars_wide, eq_str, extend_chars, extend_str, string_of, trim, trim_chars,
    utf8_len, utf8_len_exact, opt_chars, take_chars,
};

verus! {

/// One argument of a tool call as the model sent it.
#[derive(Debug, Clone, PartialEq, Eq)]
pub enum ArgValue {
    /// The key is absent.
    Missing,
    /// A JSON string.
    Text(String),
    /// Any other JSON value.
    Other,
}

/// The arguments a tool call may carry.
#[derive(Debug, Clone)]
pub struct ToolArgs {
    pub query: ArgValue,
    pub url: ArgValue,
    pub engine: ArgValue,
    pub name: ArgValue,
    pub path: ArgValue,
    pub content: ArgValue,
    pub fact: ArgValue,
    pub text: ArgValue,
    pub expression: ArgValue,
    /// The unsigned integer arguments (`None` when absent or not one).
    pub max_links: Option<u64>,
    pub width: Option<u64>,
    pub height: Option<u64>,
    pub agents: Option<u64>,
}

/// The work a tool call turns into.
#[derive(Debug, Clone, PartialEq, Eq)]
pub enum ToolAction {
    /// Answer the model with this text at once.
    Reply(String),
    WebSearch { query: String },
    /// Search each query in turn.
    DeepSearch { queries: Vec<String> },
    BrowseUrl { url: String, engine: String },
    BrowseSite { url: String, max_links: u64 },
    Screenshot { url: String, width: u64, height: u64 },
    PrintPdf { url: String },
    SaveNote { name: String, content: String },
    GetProfile,
    RememberFact { fact: String },
    ResearchPool { query: String, agents: u64 },
    GetTime,
    Calculate { expression: String },
    ListFiles { path: String },
    ReadFile { path: String },
    WriteFile { path: String, content: String },
    /// Queue the write for approval (`prompt`) and answer `reply`.
    ConfirmWrite { path: String, content: String, prompt: String, reply: String },
    /// Queue the delete for approval and answer `reply`.
    ConfirmDelete { path: String, reply: String },
}

/// The text of an argument (`""` when absent or not a string).
pub open spec fn arg_text(v: ArgValue) -> Seq<char> {
    match v {
        ArgValue::Text(s) => s@,
        _ => Seq::empty(),
    }
}

/// The first argument when present, else the second.
pub open spec fn arg_or(a: ArgValue, b: ArgValue) -> ArgValue {
    if a is Missing {
        b
    } else {
        a
    }
}

/// `v` (or `default` when absent) clamped to `lo..=hi`.
pub open spec fn clamped(v: Option<u64>, default: u64, lo: u64, hi: u64) -> u64 {
    let x = match v {
        Some(x) => x,
        None => default,
    };
    if x < lo {
        lo
    } else if x > hi {
        hi
    } else {
        x
    }
}

/// The action is the reply `t`.
pub open spec fn replies(a: ToolAction, t: Seq<char>) -> bool {
    a matches ToolAction::Reply(r) && r@ == t
}

/// The queries a deep search makes for `q`.
pub open spec fn deep_queries(q: Seq<char>) -> Seq<Seq<char>> {
    seq![q, q + " overview definition"@, q + " examples use cases"@, q + " vs alternatives"@]
}

/// What a tool call does, given whether the sandbox already holds the
/// (trimmed) path of a `write_file` call.
pub open spec fn planned(a: ToolAction, name: Seq<char>, args: ToolArgs, class: AgentClass, exists: bool) -> bool {
    let q = trim(arg_text(args.query));
    let url = trim(arg_text(args.url));
    if !class_tools(class).contains(name) {
        replies(a, "tool '"@ + name + "' is not allowed for agent class '"@ + class_name(class) + "'"@)
    } else if name == "web_search"@ {
        if q.len() == 0 { replies(a, "error: empty query"@) } else { a matches ToolAction::WebSearch { query } && query@ == q }
    } else if name == "deep_search"@ {
        if q.len() == 0 {
            replies(a, "error: empty query"@)
        } else {
            a matches ToolAction::DeepSearch { queries } && queries@.map_values(|x: String| x@) == deep_queries(q)
        }
    } else if name == "browse_url"@ {
        if url.len() == 0 {
            replies(a, "error: empty url"@)
        } else {
            a matches ToolAction::BrowseUrl { url: u, engine } && u@ == url && engine@ == (if args.engine is Text {
                arg_text(args.engine)
            } else {
                "auto"@
            })
        }
    } else if name == "browse_site"@ {
        if url.len() == 0 {
            replies(a, "error: empty url"@)
        } else {
            a matches ToolAction::BrowseSite { url: u, max_links } && u@ == url && max_links == clamped(args.max_links, 2, 0, 5)
        }
    } else if name == "screenshot_url"@ {
        if url.len() == 0 {
            replies(a, "error: empty url"@)
        } else {
            a matches ToolAction::Screenshot { url: u, width, height } && u@ == url && width == clamped(
                args.width,
                1280,
                320,
                2560,
            ) && height == clamped(args.height, 800, 240, 4096)
        }
    } else if name == "print_pdf"@ {
        if url.len() == 0 { replies(a, "error: empty url"@) } else { a matches ToolAction::PrintPdf { url: u } && u@ == url }
    } else if name == "save_note"@ {
        let n = arg_or(args.name, args.path);
        let note = trim(if n is Text { arg_text(n) } else { "note"@ });
        if arg_text(args.content).len() == 0 {
            replies(a, "error: empty content"@)
        } else {
            a matches ToolAction::SaveNote { name: m, content } && m@ == note && content@ == arg_text(args.content)
        }
    } else if name == "get_profile"@ {
        a is GetProfile
    } else if name == "remember_fact"@ {
        let f = trim(arg_text(arg_or(args.fact, args.text)));
        if f.len() == 0 { replies(a, "error: empty fact"@) } else { a matches ToolAction::RememberFact { fact } && fact@ == f }
    } else if name == "research_pool"@ {
        if q.len() == 0 {
            replies(a, "error: empty query"@)
        } else {
            a matches ToolAction::ResearchPool { query, agents } && query@ == q && agents == clamped(args.agents, 4, 1, 50)
        }
    } else if name == "get_time"@ {
        a is GetTime
    } else if name == "calculator"@ {
        a matches ToolAction::Calculate { expression } && expression@ == arg_text(args.expression)
    } else if name == "list_files"@ {
        a matches ToolAction::ListFiles { path } && path@ == arg_text(args.path)
    } else if name == "read_file"@ {
        a matches ToolAction::ReadFile { path } && path@ == arg_text(args.path)
    } else if name == "write_file"@ {
        let p = trim(arg_text(args.path));
        let c = arg_text(args.content);
        if p.len() == 0 {
            replies(a, "error: empty path"@)
        } else if exists {
            a matches ToolAction::ConfirmWrite { path, content, prompt, reply } && path@ == p && content@ == c
                && prompt@ == "Overwrite existing sandbox file “"@ + p + "”?"@ && reply@ == "CONFIRM_REQUIRED: overwrite “"@
                + p + "” ("@ + decimal(utf8_len(c)) + " bytes). Waiting for user approval."@
        } else {
            a matches ToolAction::WriteFile { path, content } && path@ == p && content@ == c
        }
    } else if name == "delete_file"@ {
        let p = trim(arg_text(args.path));
        if p.len() == 0 {
            replies(a, "error: empty path"@)
        } else {
            a matches ToolAction::ConfirmDelete { path, reply } && path@ == p && reply@ == "CONFIRM_REQUIRED: delete “"@ + p
                + "”. Waiting for user approval."@
        }
    } else {
        replies(a, "unknown tool: "@ + name)
    }
}

fn text_of(v: &ArgValue) -> (r: Vec<char>)
    ensures
        r@ == arg_text(*v),
{
    match v {
        ArgValue::Text(s) => chars_of(s.as_str()),
        _ => Vec::new(),
    }
}

fn clamp_arg(v: Option<u64>, default: u64, lo: u64, hi: u64) -> (r: u64)
    ensures
        r == clamped(v, default, lo, hi),
{
    let x = match v {
        Some(x) => x,
        None => default,
    };
    if x < lo {
        lo
    } else if x > hi {
        hi
    } else {
        x
    }
}

fn reply(parts: &Vec<char>) -> (a: ToolAction)
    ensures
        replies(a, parts@),
{
    ToolAction::Reply(string_of(parts))
}

fn reply_str(t: &str) -> (a: ToolAction)
    ensures
        replies(a, t@),
{
    ToolAction::Reply(t.to_owned())
}

fn joined(a: &Vec<char>, b: &str) -> (r: String)
    ensures
        r@ == a@ + b@,
{
    let mut v: Vec<char> = Vec::new();
    extend_chars(&mut v, a);
    extend_str(&mut v, b);
    string_of(&v)
}

/// What a tool call does. `target_exists` tells whether the sandbox already
/// holds the trimmed path of a `write_file` call (an overwrite then waits for
/// approval, as every delete does).
pub fn plan_tool_call(name: &str, args: &ToolArgs, class: AgentClass, target_exists: bool) -> (a: ToolAction)
    ensures
        planned(a, name@, *args, class, target_exists),
{
    let n = chars_of(name);
    if !class.allows(name) {
        let mut v: Vec<char> = Vec::new();
        extend_str(&mut v, "tool '");
        extend_chars(&mut v, &n);
        extend_str(&mut v, "' is not allowed for agent class '");
        extend_str(&mut v, class.as_str());
        extend_str(&mut v, "'");
        return reply(&v);
    }
    let q = trim_chars(&text_of(&args.query));
    let url = trim_chars(&text_of(&args.url));
    if eq_str(&n, "web_search") {
        if q.len() == 0 {
            reply_str("error: empty query")
        } else {
            ToolAction::WebSearch { query: string_of(&q) }
        }
    } else if eq_str(&n, "deep_search") {
        if q.len() == 0 {
            reply_str("error: empty query")
        } else {
            let mut queries: Vec<String> = Vec::new();
            queries.push(string_of(&q));
            queries.push(joined(&q, " overview definition"));
            queries.push(joined(&q, " examples use cases"));
            queries.push(joined(&q, " vs alternatives"));
            assert(queries@.map_values(|x: String| x@) =~= deep_queries(q@));
            ToolAction::DeepSearch { queries }
        }
    } else if eq_str(&n, "browse_url") {
        if url.len() == 0 {
            reply_str("error: empty url")
        } else {
            let engine = match &args.engine {
                ArgValue::Text(e) => e.clone(),
                _ => "auto".to_owned(),
            };
            ToolAction::BrowseUrl { url: string_of(&url), engine }
        }
    } else if eq_str(&n, "browse_site") {
        if url.len() == 0 {
            reply_str("error: empty url")
        } else {
            ToolAction::BrowseSite { url: string_of(&url), max_links: clamp_arg(args.max_links, 2, 0, 5) }
        }
    } else if eq_str(&n, "screenshot_url") {
        if url.len() == 0 {
            reply_str("error: empty url")
        } else {
            ToolAction::Screenshot {
                url: string_of(&url),
                width: clamp_arg(args.width, 1280, 320, 2560),
                height: clamp_arg(args.height, 800, 240, 4096),
            }
        }
    } else if eq_str(&n, "print_pdf") {
        if url.len() == 0 {
            reply_str("error: empty url")
        } else {
            ToolAction::PrintPdf { url: string_of(&url) }
        }
    } else if eq_str(&n, "save_note") {
        let chosen = match &args.name {
            ArgValue::Missing => &args.path,
            _ => &args.name,
        };
        let raw = match chosen {
            ArgValue::Text(s) => chars_of(s.as_str()),
            _ => chars_of("note"),
        };
        let content = text_of(&args.content);
        if content.len() == 0 {
            reply_str("error: empty content")
        } else {
            ToolAction::SaveNote { name: string_of(&trim_chars(&raw)), content: string_of(&content) }
        }
    } else if eq_str(&n, "get_profile") {
        ToolAction::GetProfile
    } else if eq_str(&n, "remember_fact") {
        let chosen = match &args.fact {
            ArgValue::Missing => &args.text,
            _ => &args.fact,
        };
        let f = trim_chars(&text_of(chosen));
        if f.len() == 0 {
            reply_str("error: empty fact")
        } else {
            ToolAction::RememberFact { fact: string_of(&f) }
        }
    } else if eq_str(&n, "research_pool") {
        if q.len() == 0 {
            reply_str("error: empty query")
        } else {
            ToolAction::ResearchPool { query: string_of(&q), agents: clamp_arg(args.agents, 4, 1, 50) }
        }
    } else if eq_str(&n, "get_time") {
        ToolAction::GetTime
    } else if eq_str(&n, "calculator") {
        ToolAction::Calculate { expression: string_of(&text_of(&args.expression)) }
    } else if eq_str(&n, "list_files") {
        ToolAction::ListFiles { path: string_of(&text_of(&args.path)) }
    } else if eq_str(&n, "read_file") {
        ToolAction::ReadFile { path: string_of(&text_of(&args.path)) }
    } else if eq_str(&n, "write_file") {
        let p = trim_chars(&text_of(&args.path));
        let c = text_of(&args.content);
        if p.len() == 0 {
            reply_str("error: empty path")
        } else if target_exists {
            let mut prompt: Vec<char> = Vec::new();
            extend_str(&mut prompt, "Overwrite existing sandbox file “");
            extend_chars(&mut prompt, &p);
            extend_str(&mut prompt, "”?");
            let mut r: Vec<char> = Vec::new();
            extend_str(&mut r, "CONFIRM_REQUIRED: overwrite “");
            extend_chars(&mut r, &p);
            extend_str(&mut r, "” (");
            let digits = decimal_chars_wide(utf8_len_exact(&c));
            extend_chars(&mut r, &digits);
            extend_str(&mut r, " bytes). Waiting for user approval.");
            ToolAction::ConfirmWrite {
                path: string_of(&p),
                content: string_of(&c),
                prompt: string_of(&prompt),
                reply: string_of(&r),
            }
        } else {
            ToolAction::WriteFile { path: string_of(&p), content: string_of(&c) }
        }
    } else if eq_str(&n, "delete_file") {
        let p = trim_chars(&text_of(&args.path));
        if p.len() == 0 {
            reply_str("error: empty path")
        } else {
            let mut r: Vec<char> = Vec::new();
            extend_str(&mut r, "CONFIRM_REQUIRED: delete “");
            extend_chars(&mut r, &p);
            extend_str(&mut r, "”. Waiting for user approval.");
            ToolAction::ConfirmDelete { path: string_of(&p), reply: string_of(&r) }
        }
    } else {
        let mut v: Vec<char> = Vec::new();
        extend_str(&mut v, "unknown tool: ");
        extend_chars(&mut v, &n);
        reply(&v)
    }
}

/// The store after `a` is queued at its own creation time.
pub open spec fn queued(before: Seq<PendingEntry>, a: PendingAction) -> Seq<PendingEntry> {
    without_id(purged(before, a.created_at_ms), a.id@).push(PendingEntry { action: a, created_ms: a.created_at_ms })
}

proof fn lemma_last_is_found(s: Seq<PendingEntry>, a: PendingAction)
    requires
        s.len() > 0,
        s.last().action == a,
        ids_distinct(s),
    ensures
        action_with_id(s, a.id@) == Some(a),
{
    let last = s.len() - 1;
    assert(first_with_id(s, a.id@, last as int));
    let c = choose|i: int| first_with_id(s, a.id@, i);
    if c < last {
        assert(s[c].action.id@ == s[last as int].action.id@);
    }
}

/// Queues the confirmation a planned overwrite or delete waits for, and
/// gives the reply for the model with the queued action; any other plan
/// queues nothing. No file is written or deleted here: the action runs only
/// once the user approves it.
pub fn queue_confirmation(store: &mut PendingStore, plan: &ToolAction) -> (r: Option<(String, PendingAction)>)
    ensures
        match *plan {
            ToolAction::ConfirmWrite { path, content, prompt, reply } => r matches Some((t, a)) && {
                &&& t@ == reply@
                &&& a.kind == PendingKind::WriteFile
                &&& a.path@ == path@
                &&& opt_chars(a.content) == Some(content@)
                &&& a.message@ == prompt@
                &&& opt_chars(a.preview) == Some(take_chars(content@, 200))
                &&& final(store)@ == queued(old(store)@, a)
                &&& action_with_id(final(store)@, a.id@) == Some(a)
            },
            ToolAction::ConfirmDelete { path, reply } => r matches Some((t, a)) && {
                &&& t@ == reply@
                &&& a.kind == PendingKind::DeleteFile
                &&& a.path@ == path@
                &&& a.content is None
                &&& a.message@ == delete_message(path@)
                &&& final(store)@ == queued(old(store)@, a)
                &&& action_with_id(final(store)@, a.id@) == Some(a)
            },
            _ => r is None && final(store)@ == old(store)@,
        },
{
    match plan {
        ToolAction::ConfirmWrite { path, content, prompt, reply } => {
            let a = queue_write_file(store, path.as_str(), content.as_str(), prompt.as_str());
            proof {
                use_type_invariant(&*store);
                lemma_last_is_found(store@, a);
            }
            Some((reply.clone(), a))
        },
        ToolAction::ConfirmDelete { path, reply } => {
            let a = queue_delete_file(store, path.as_str());
            proof {
                use_type_invariant(&*store);
                lemma_last_is_found(store@, a);
            }
            Some((reply.clone(), a))
        },
        _ => None,
    }
}

/// `parts` joined with `sep` between neighbours.
pub open spec fn join_sep(parts: Seq<Seq<char>>, sep: Seq<char>) -> Seq<char>
    decreases parts.len(),
{
    if parts.len() == 0 {
        Seq::empty()
    } else if parts.len() == 1 {
        parts[0]
    } else {
        join_sep(parts.drop_last(), sep) + sep + parts.last()
    }
}

fn join_strings(parts: &Vec<String>, sep: &str) -> (r: String)
    ensures
        r@ == join_sep(parts@.map_values(|p: String| p@), sep@),
{
    let ghost all = parts@.map_values(|p: String| p@);
    let mut out: Vec<char> = Vec::new();
    let mut k: usize = 0;
    while k < parts.len()
        invariant
            k <= parts@.len(),
            all == parts@.map_values(|p: String| p@),
            out@ == join_sep(all.take(k as int), sep@),
        decreases parts@.len() - k,
    {
        assert(all.take(k + 1).drop_last() =~= all.take(k as int));
        assert(all.take(k + 1).last() == parts@[k as int]@);
        if k > 0 {
            extend_str(&mut out, sep);
        } else {
            assert(all.take(1) =~= seq![parts@[0]@]);
        }
        extend_str(&mut out, parts[k].as_str());
        k = k + 1;
    }
    assert(all.take(parts@.len() as int) =~= all);
    string_of(&out)
}

/// What `list_files` answers: the names one per line, a note for an empty
/// workspace, or the error.
pub open spec fn listing_reply(r: Result<Seq<Seq<char>>, Seq<char>>) -> Seq<char> {
    match r {
        Ok(files) => if files.len() == 0 { "workspace is empty"@ } else { join_sep(files, "\n"@) },
        Err(e) => "list_files error: "@ + e,
    }
}

/// The answer of a `list_files` call from the sandbox's listing.
pub fn list_files_reply(listing: &Result<Vec<String>, String>) -> (r: String)
    ensures
        r@ == listing_reply(match listing {
            Ok(files) => Ok(files@.map_values(|f: String| f@)),
            Err(e) => Err(e@),
        }),
{
    match listing {
        Ok(files) => {
            if files.len() == 0 {
                "workspace is empty".to_owned()
            } else {
                join_strings(files, "\n")
            }
        },
        Err(e) => {
            let mut v: Vec<char> = Vec::new();
            extend_str(&mut v, "list_files error: ");
            extend_str(&mut v, e.as_str());
            string_of(&v)
        },
    }
}

/// The answers of the first `n` workers that answered, in order.
pub open spec fn first_answers(rs: Seq<PoolAgentResult>, n: nat) -> Seq<Seq<char>>
    decreases rs.len(),
{
    if rs.len() == 0 {
        Seq::empty()
    } else {
        let prev = first_answers(rs.drop_last(), n);
        match rs.last().result {
            Some(t) => if prev.len() < n { prev.push(t@) } else { prev },
            None => prev,
        }
    }
}

/// What a `research_pool` call answers: the pool's synthesis, else the
/// first three answers joined by blank lines.
pub fn pool_reply(synthesis: &Option<String>, results: &Vec<PoolAgentResult>) -> (r: String)
    ensures
        r@ == match synthesis {
            Some(s) => s@,
            None => join_sep(first_answers(results@, 3), "\n\n"@),
        },
{
    match synthesis {
        Some(s) => s.clone(),
        None => {
            let mut answers: Vec<String> = Vec::new();
            let mut i: usize = 0;
            while i < results.len()
                invariant
                    i <= results@.len(),
                    answers@.map_values(|a: String| a@) == first_answers(results@.take(i as int), 3),
                decreases results@.len() - i,
            {
                assert(results@.take(i + 1).drop_last() =~= results@.take(i as int));
                assert(results@.take(i + 1).last() == results@[i as int]);
                match &results[i].result {
                    Some(t) => {
                        if answers.len() < 3 {
                            let ghost before = answers@.map_values(|a: String| a@);
                            answers.push(t.clone());
                            assert(answers@.map_values(|a: String| a@) =~= before.push(t@));
                        }
                    },
                    None => {},
                }
                i = i + 1;
            }
            assert(results@.take(results@.len() as int) =~= results@);
            join_strings(&answers, "\n\n")
        },
    }
}

/// A search outcome as plain values: the text and its citations, or the
/// error.
pub open spec fn outcome_view(o: Result<(String, Vec<Citation>), String>) -> Result<(Seq<char>, Seq<(Seq<char>, Seq<char>, Seq<char>)>), Seq<char>> {
    match o {
        Ok((t, c)) => Ok((t@, c@.map_values(|x: Citation| citation_view(x)))),
        Err(e) => Err(e@),
    }
}

/// The parts and sources a deep search gathers from its searches in turn:
/// each answer is numbered and its citations kept unless that exact text is
/// already a part; a failed first search is reported; later failures are
/// skipped.
pub open spec fn deep_merge(os: Seq<Result<(Seq<char>, Seq<(Seq<char>, Seq<char>, Seq<char>)>), Seq<char>>>) -> (
    Seq<Seq<char>>,
    Seq<(Seq<char>, Seq<char>, Seq<char>)>,
)
    decreases os.len(),
{
    if os.len() == 0 {
        (Seq::empty(), Seq::empty())
    } else {
        let (parts, srcs) = deep_merge(os.drop_last());
        let i = os.len() - 1;
        match os.last() {
            Ok((t, c)) => if parts.contains(t) {
                (parts, srcs)
            } else {
                (parts.push("[source "@ + decimal((i + 1) as nat) + "] "@ + t), srcs + c)
            },
            Err(e) => if i == 0 {
                (parts.push("primary search error: "@ + e), srcs)
            } else {
                (parts, srcs)
            },
        }
    }
}

fn copy_citation(c: &Citation) -> (r: Citation)
    ensures
        citation_view(r) == citation_view(*c),
{
    Citation { title: c.title.clone(), url: c.url.clone(), snippet: c.snippet.clone() }
}

fn has_part(parts: &Vec<String>, t: &String) -> (r: bool)
    ensures
        r == parts@.map_values(|p: String| p@).contains(t@),
{
    let ghost all = parts@.map_values(|p: String| p@);
    let tv = chars_of(t.as_str());
    let mut i: usize = 0;
    while i < parts.len()
        invariant
            i <= parts@.len(),
            tv@ == t@,
            all == parts@.map_values(|p: String| p@),
            forall|j: int| 0 <= j < i ==> all[j] != t@,
        decreases parts@.len() - i,
    {
        if chars_eq(&chars_of(parts[i].as_str()), &tv) {
            assert(all[i as int] == t@);
            return true;
        }
        i = i + 1;
    }
    false
}

/// What a deep search answers from the outcomes of its searches, in order:
/// the gathered parts separated by rules, or a note that nothing was found;
/// and the sources of the kept answers.
pub fn deep_search_reply(outcomes: &Vec<Result<(String, Vec<Citation>), String>>) -> (r: (String, Vec<Citation>))
    requires
        outcomes@.len() < u64::MAX,
    ensures
        ({
            let (parts, srcs) = deep_merge(outcomes@.map_values(|o: Result<(String, Vec<Citation>), String>| outcome_view(o)));
            &&& r.0@ == (if parts.len() == 0 { "deep_search found no results"@ } else { join_sep(parts, "\n\n---\n\n"@) })
            &&& r.1@.map_values(|x: Citation| citation_view(x)) == srcs
        }),
{
    let ghost ov = outcomes@.map_values(|o: Result<(String, Vec<Citation>), String>| outcome_view(o));
    let mut parts: Vec<String> = Vec::new();
    let mut sources: Vec<Citation> = Vec::new();
    let mut i: usize = 0;
    while i < outcomes.len()
        invariant
            i <= outcomes@.len(),
            outcomes@.len() < u64::MAX,
            ov == outcomes@.map_values(|o: Result<(String, Vec<Citation>), String>| outcome_view(o)),
            deep_merge(ov.take(i as int)) == (
                parts@.map_values(|p: String| p@),
                sources@.map_values(|x: Citation| citation_view(x)),
            ),
        decreases outcomes@.len() - i,
    {
        assert(ov.take(i + 1).drop_last() =~= ov.take(i as int));
        assert(ov.take(i + 1).last() == outcome_view(outcomes@[i as int]));
        let ghost pv = parts@.map_values(|p: String| p@);
        let ghost sv = sources@.map_values(|x: Citation| citation_view(x));
        match &outcomes[i] {
            Ok((t, cites)) => {
                if !has_part(&parts, t) {
                    let mut v: Vec<char> = Vec::new();
                    extend_str(&mut v, "[source ");
                    let digits = decimal_chars((i as u64) + 1);
                    extend_chars(&mut v, &digits);
                    extend_str(&mut v, "] ");
                    extend_str(&mut v, t.as_str());
                    parts.push(string_of(&v));
                    assert(parts@.map_values(|p: String| p@) =~= pv.push(v@));
                    let mut k: usize = 0;
                    while k < cites.len()
                        invariant
                            k <= cites@.len(),
                            sources@.map_values(|x: Citation| citation_view(x)) == sv + cites@.take(k as int).map_values(
                                |x: Citation| citation_view(x),
                            ),
                        decreases cites@.len() - k,
                    {
                        let ghost before = sources@.map_values(|x: Citation| citation_view(x));
                        sources.push(copy_citation(&cites[k]));
                        assert(cites@.take(k + 1).map_values(|x: Citation| citation_view(x)) =~= cites@.take(
                            k as int,
                        ).map_values(|x: Citation| citation_view(x)).push(citation_view(cites@[k as int])));
                        assert(sources@.map_values(|x: Citation| citation_view(x)) =~= before.push(
                            citation_view(cites@[k as int]),
                        ));
                        k = k + 1;
                    }
                    assert(cites@.take(cites@.len() as int) =~= cites@);
                }
            },
            Err(e) => {
                if i == 0 {
                    let mut v: Vec<char> = Vec::new();
                    extend_str(&mut v, "primary search error: ");
                    extend_str(&mut v, e.as_str());
                    parts.push(string_of(&v));
                    assert(parts@.map_values(|p: String| p@) =~= pv.push(v@));
                }
            },
        }
        i = i + 1;
    }
    assert(ov.take(outcomes@.len() as int) =~= ov);
    let text = if parts.len() == 0 {
        "deep_search found no results".to_owned()
    } else {
        join_strings(&parts, "\n\n---\n\n")
    };
    (text, sources)
}

} // verus!
