//! Agent roles and the intent heuristics of the internal agent: tool
//! allow-lists per class, request kinds, and the plain-text rules that read
//! a user's name or last line out of a dialogue transcript.

use vstd::prelude::*;
use crate::llm::LlmUpdate;
use crate::pending::{
    action_with_id, actions_of, ids_distinct, lemma_listed_actions_are_pending, lemma_purge_is_idempotent,
    list_pending_at, op_view, operation_of, purged, reject_at, remove_first_id, sandbox_operation, take_approved_at,
    PendingAction, PendingStore, SandboxOp,
};
use crate::text::{copy_opt, extend_chars, extend_str, lemma_lower_absorbs_case, lemma_trim_commutes_with_case, lemma_trim_idempotent, upper};
use crate::text::{
    chars_of, occurs_at, contains, contains_any, contains_str, eq_any, eq_str, starts_with_str, find, first_occurrence, lines, lower,
    mentions_any, opt_chars, opt_seq, opt_string, slice_chars, split_lines, starts_with,
    starts_with_chars, string_of, to_lower, trim, trim_chars, trim_end_chars, trim_end_set,
    utf8_len, utf8_len_capped, views_of, lead_ws, trail_ws, trim_start,
};

verus! {

/// Product agent roles (tool budgets differ).
#[derive(Debug, Clone, Copy, PartialEq, Eq, Structural)]
pub enum AgentClass {
    /// Full tool surface (default).
    General,
    /// Research-only: search / browse / pool; no sandbox writes.
    Researcher,
    /// Files + calc; no web search pool.
    Coder,
    /// Read-only helpers: time, calc, identity, list/read files.
    Safe,
}

impl Default for AgentClass {
    fn default() -> (c: Self)
        ensures
            c == AgentClass::General,
    {
        AgentClass::General
    }
}

/// The class a (trimmed, ASCII-lowercased) name selects.
pub open spec fn parse_class(s: Seq<char>) -> AgentClass {
    let t = lower(trim(s));
    if t == "researcher"@ || t == "research"@ {
        AgentClass::Researcher
    } else if t == "coder"@ || t == "code"@ || t == "dev"@ {
        AgentClass::Coder
    } else if t == "safe"@ || t == "readonly"@ || t == "read_only"@ {
        AgentClass::Safe
    } else {
        AgentClass::General
    }
}

/// A class name is read without regard to surrounding whitespace or ASCII
/// case: trimming it first, or upper- or lowercasing it, parses alike.
pub proof fn lemma_class_parse_ignores_case_and_padding(s: Seq<char>)
    ensures
        parse_class(trim(s)) == parse_class(s),
        parse_class(upper(s)) == parse_class(s),
        parse_class(lower(s)) == parse_class(s),
{
    lemma_trim_idempotent(s);
    lemma_trim_commutes_with_case(s);
    lemma_lower_absorbs_case(trim(s));
}

/// The wire name of a class.
pub open spec fn class_name(c: AgentClass) -> Seq<char> {
    match c {
        AgentClass::General => "general"@,
        AgentClass::Researcher => "researcher"@,
        AgentClass::Coder => "coder"@,
        AgentClass::Safe => "safe"@,
    }
}

/// A class's wire name reads back as that class.
pub proof fn lemma_class_name_round_trip(c: AgentClass)
    ensures
        parse_class(class_name(c)) == c,
{
    reveal_strlit("general");
    reveal_strlit("researcher");
    reveal_strlit("research");
    reveal_strlit("coder");
    reveal_strlit("code");
    reveal_strlit("dev");
    reveal_strlit("safe");
    reveal_strlit("readonly");
    reveal_strlit("read_only");
    let n = class_name(c);
    assert(lead_ws(n) == 0);
    assert(trim_start(n) =~= n);
    assert(trail_ws(n) == 0);
    assert(trim(n) =~= n);
    assert(lower(n) =~= n);
}

/// The tools a class may invoke, in catalog order.
pub open spec fn class_tools(c: AgentClass) -> Seq<Seq<char>> {
    match c {
        AgentClass::General => seq![
            "web_search"@,
            "deep_search"@,
            "research_pool"@,
            "browse_url"@,
            "browse_site"@,
            "screenshot_url"@,
            "print_pdf"@,
            "save_note"@,
            "get_profile"@,
            "remember_fact"@,
            "get_time"@,
            "calculator"@,
            "list_files"@,
            "read_file"@,
            "write_file"@,
            "delete_file"@,
        ],
        AgentClass::Researcher => seq![
            "web_search"@,
            "deep_search"@,
            "research_pool"@,
            "browse_url"@,
            "browse_site"@,
            "screenshot_url"@,
            "print_pdf"@,
            "save_note"@,
            "get_profile"@,
            "remember_fact"@,
            "get_time"@,
        ],
        AgentClass::Coder => seq![
            "calculator"@,
            "get_time"@,
            "list_files"@,
            "read_file"@,
            "write_file"@,
            "delete_file"@,
            "save_note"@,
            "get_profile"@,
            "remember_fact"@,
        ],
        AgentClass::Safe => seq![
            "get_time"@,
            "calculator"@,
            "list_files"@,
            "read_file"@,
            "get_profile"@,
        ],
    }
}

/// The tool names differ pairwise.
proof fn lemma_tool_names_distinct()
    ensures
        forall|i: int, j: int| 0 <= i < j < 16 ==> #[trigger] class_tools(AgentClass::General)[i] != #[trigger] class_tools(AgentClass::General)[j],
{
    reveal_strlit("web_search");
    reveal_strlit("deep_search");
    reveal_strlit("research_pool");
    reveal_strlit("browse_url");
    reveal_strlit("browse_site");
    reveal_strlit("screenshot_url");
    reveal_strlit("print_pdf");
    reveal_strlit("save_note");
    reveal_strlit("get_profile");
    reveal_strlit("remember_fact");
    reveal_strlit("get_time");
    reveal_strlit("calculator");
    reveal_strlit("list_files");
    reveal_strlit("read_file");
    reveal_strlit("write_file");
    reveal_strlit("delete_file");
    assert("web_search"@.len() != "deep_search"@.len());
    assert("web_search"@.len() != "research_pool"@.len());
    assert("web_search"@[0] != "browse_url"@[0]);
    assert("web_search"@.len() != "browse_site"@.len());
    assert("web_search"@.len() != "screenshot_url"@.len());
    assert("web_search"@.len() != "print_pdf"@.len());
    assert("web_search"@.len() != "save_note"@.len());
    assert("web_search"@.len() != "get_profile"@.len());
    assert("web_search"@.len() != "remember_fact"@.len());
    assert("web_search"@.len() != "get_time"@.len());
    assert("web_search"@[0] != "calculator"@[0]);
    assert("web_search"@[0] != "list_files"@[0]);
    assert("web_search"@.len() != "read_file"@.len());
    assert("web_search"@[1] != "write_file"@[1]);
    assert("web_search"@.len() != "delete_file"@.len());
    assert("deep_search"@.len() != "research_pool"@.len());
    assert("deep_search"@.len() != "browse_url"@.len());
    assert("deep_search"@[0] != "browse_site"@[0]);
    assert("deep_search"@.len() != "screenshot_url"@.len());
    assert("deep_search"@.len() != "print_pdf"@.len());
    assert("deep_search"@.len() != "save_note"@.len());
    assert("deep_search"@[0] != "get_profile"@[0]);
    assert("deep_search"@.len() != "remember_fact"@.len());
    assert("deep_search"@.len() != "get_time"@.len());
    assert("deep_search"@.len() != "calculator"@.len());
    assert("deep_search"@.len() != "list_files"@.len());
    assert("deep_search"@.len() != "read_file"@.len());
    assert("deep_search"@.len() != "write_file"@.len());
    assert("deep_search"@[2] != "delete_file"@[2]);
    assert("research_pool"@.len() != "browse_url"@.len());
    assert("research_pool"@.len() != "browse_site"@.len());
    assert("research_pool"@.len() != "screenshot_url"@.len());
    assert("research_pool"@.len() != "print_pdf"@.len());
    assert("research_pool"@.len() != "save_note"@.len());
    assert("research_pool"@.len() != "get_profile"@.len());
    assert("research_pool"@[2] != "remember_fact"@[2]);
    assert("research_pool"@.len() != "get_time"@.len());
    assert("research_pool"@.len() != "calculator"@.len());
    assert("research_pool"@.len() != "list_files"@.len());
    assert("research_pool"@.len() != "read_file"@.len());
    assert("research_pool"@.len() != "write_file"@.len());
    assert("research_pool"@.len() != "delete_file"@.len());
    assert("browse_url"@.len() != "browse_site"@.len());
    assert("browse_url"@.len() != "screenshot_url"@.len());
    assert("browse_url"@.len() != "print_pdf"@.len());
    assert("browse_url"@.len() != "save_note"@.len());
    assert("browse_url"@.len() != "get_profile"@.len());
    assert("browse_url"@.len() != "remember_fact"@.len());
    assert("browse_url"@.len() != "get_time"@.len());
    assert("browse_url"@[0] != "calculator"@[0]);
    assert("browse_url"@[0] != "list_files"@[0]);
    assert("browse_url"@.len() != "read_file"@.len());
    assert("browse_url"@[0] != "write_file"@[0]);
    assert("browse_url"@.len() != "delete_file"@.len());
    assert("browse_site"@.len() != "screenshot_url"@.len());
    assert("browse_site"@.len() != "print_pdf"@.len());
    assert("browse_site"@.len() != "save_note"@.len());
    assert("browse_site"@[0] != "get_profile"@[0]);
    assert("browse_site"@.len() != "remember_fact"@.len());
    assert("browse_site"@.len() != "get_time"@.len());
    assert("browse_site"@.len() != "calculator"@.len());
    assert("browse_site"@.len() != "list_files"@.len());
    assert("browse_site"@.len() != "read_file"@.len());
    assert("browse_site"@.len() != "write_file"@.len());
    assert("browse_site"@[0] != "delete_file"@[0]);
    assert("screenshot_url"@.len() != "print_pdf"@.len());
    assert("screenshot_url"@.len() != "save_note"@.len());
    assert("screenshot_url"@.len() != "get_profile"@.len());
    assert("screenshot_url"@.len() != "remember_fact"@.len());
    assert("screenshot_url"@.len() != "get_time"@.len());
    assert("screenshot_url"@.len() != "calculator"@.len());
    assert("screenshot_url"@.len() != "list_files"@.len());
    assert("screenshot_url"@.len() != "read_file"@.len());
    assert("screenshot_url"@.len() != "write_file"@.len());
    assert("screenshot_url"@.len() != "delete_file"@.len());
    assert("print_pdf"@[0] != "save_note"@[0]);
    assert("print_pdf"@.len() != "get_profile"@.len());
    assert("print_pdf"@.len() != "remember_fact"@.len());
    assert("print_pdf"@.len() != "get_time"@.len());
    assert("print_pdf"@.len() != "calculator"@.len());
    assert("print_pdf"@.len() != "list_files"@.len());
    assert("print_pdf"@[0] != "read_file"@[0]);
    assert("print_pdf"@.len() != "write_file"@.len());
    assert("print_pdf"@.len() != "delete_file"@.len());
    assert("save_note"@.len() != "get_profile"@.len());
    assert("save_note"@.len() != "remember_fact"@.len());
    assert("save_note"@.len() != "get_time"@.len());
    assert("save_note"@.len() != "calculator"@.len());
    assert("save_note"@.len() != "list_files"@.len());
    assert("save_note"@[0] != "read_file"@[0]);
    assert("save_note"@.len() != "write_file"@.len());
    assert("save_note"@.len() != "delete_file"@.len());
    assert("get_profile"@.len() != "remember_fact"@.len());
    assert("get_profile"@.len() != "get_time"@.len());
    assert("get_profile"@.len() != "calculator"@.len());
    assert("get_profile"@.len() != "list_files"@.len());
    assert("get_profile"@.len() != "read_file"@.len());
    assert("get_profile"@.len() != "write_file"@.len());
    assert("get_profile"@[0] != "delete_file"@[0]);
    assert("remember_fact"@.len() != "get_time"@.len());
    assert("remember_fact"@.len() != "calculator"@.len());
    assert("remember_fact"@.len() != "list_files"@.len());
    assert("remember_fact"@.len() != "read_file"@.len());
    assert("remember_fact"@.len() != "write_file"@.len());
    assert("remember_fact"@.len() != "delete_file"@.len());
    assert("get_time"@.len() != "calculator"@.len());
    assert("get_time"@.len() != "list_files"@.len());
    assert("get_time"@.len() != "read_file"@.len());
    assert("get_time"@.len() != "write_file"@.len());
    assert("get_time"@.len() != "delete_file"@.len());
    assert("calculator"@[0] != "list_files"@[0]);
    assert("calculator"@.len() != "read_file"@.len());
    assert("calculator"@[0] != "write_file"@[0]);
    assert("calculator"@.len() != "delete_file"@.len());
    assert("list_files"@.len() != "read_file"@.len());
    assert("list_files"@[0] != "write_file"@[0]);
    assert("list_files"@.len() != "delete_file"@.len());
    assert("read_file"@.len() != "write_file"@.len());
    assert("read_file"@.len() != "delete_file"@.len());
    assert("write_file"@.len() != "delete_file"@.len());
}

/// Each class's tools occur once and are among the general class's;
/// researchers cannot write or delete files, coders cannot search, and the
/// safe class only reads the time, the calculator, files and the profile.
pub proof fn lemma_class_tools_within_general(c: AgentClass)
    ensures
        class_tools(c).no_duplicates(),
        forall|i: int| 0 <= i < class_tools(c).len() ==> class_tools(AgentClass::General).contains(#[trigger] class_tools(c)[i]),
        !class_tools(AgentClass::Researcher).contains("write_file"@),
        !class_tools(AgentClass::Researcher).contains("delete_file"@),
        !class_tools(AgentClass::Coder).contains("web_search"@),
        !class_tools(AgentClass::Coder).contains("deep_search"@),
        !class_tools(AgentClass::Coder).contains("research_pool"@),
        forall|i: int| 0 <= i < class_tools(AgentClass::Safe).len() ==> seq!["get_time"@, "calculator"@, "list_files"@, "read_file"@, "get_profile"@].contains(#[trigger] class_tools(AgentClass::Safe)[i]),
{
    reveal_strlit("web_search");
    reveal_strlit("deep_search");
    reveal_strlit("research_pool");
    reveal_strlit("browse_url");
    reveal_strlit("browse_site");
    reveal_strlit("screenshot_url");
    reveal_strlit("print_pdf");
    reveal_strlit("save_note");
    reveal_strlit("get_profile");
    reveal_strlit("remember_fact");
    reveal_strlit("get_time");
    reveal_strlit("calculator");
    reveal_strlit("list_files");
    reveal_strlit("read_file");
    reveal_strlit("write_file");
    reveal_strlit("delete_file");
    lemma_tool_names_distinct();
    let g = class_tools(AgentClass::General);
    assert forall|i: int| 0 <= i < class_tools(c).len() implies g.contains(#[trigger] class_tools(c)[i]) by {
        let x = class_tools(c)[i];
        assert(exists|k: int| 0 <= k < g.len() && g[k] == x) by {
            if x == g[0] { assert(g[0] == x); }
            if x == g[1] { assert(g[1] == x); }
            if x == g[2] { assert(g[2] == x); }
            if x == g[3] { assert(g[3] == x); }
            if x == g[4] { assert(g[4] == x); }
            if x == g[5] { assert(g[5] == x); }
            if x == g[6] { assert(g[6] == x); }
            if x == g[7] { assert(g[7] == x); }
            if x == g[8] { assert(g[8] == x); }
            if x == g[9] { assert(g[9] == x); }
            if x == g[10] { assert(g[10] == x); }
            if x == g[11] { assert(g[11] == x); }
            if x == g[12] { assert(g[12] == x); }
            if x == g[13] { assert(g[13] == x); }
            if x == g[14] { assert(g[14] == x); }
            if x == g[15] { assert(g[15] == x); }
        }
    }
    let safe = seq!["get_time"@, "calculator"@, "list_files"@, "read_file"@, "get_profile"@];
    assert forall|i: int| 0 <= i < class_tools(AgentClass::Safe).len() implies safe.contains(#[trigger] class_tools(AgentClass::Safe)[i]) by {
        assert(safe[0] == class_tools(AgentClass::Safe)[0]);
        assert(safe[1] == class_tools(AgentClass::Safe)[1]);
        assert(safe[2] == class_tools(AgentClass::Safe)[2]);
        assert(safe[3] == class_tools(AgentClass::Safe)[3]);
        assert(safe[4] == class_tools(AgentClass::Safe)[4]);
    }
}

impl AgentClass {
    /// Reads a class name: `researcher`/`research`, `coder`/`code`/`dev`,
    /// `safe`/`readonly`/`read_only` (any ASCII case, surrounding whitespace
    /// ignored); anything else is `General`.
    pub fn parse(s: &str) -> (c: Self)
        ensures
            c == parse_class(s@),
    {
        let raw = chars_of(s);
        let t = to_lower(&trim_chars(&raw));
        if eq_str(&t, "researcher") || eq_str(&t, "research") {
            AgentClass::Researcher
        } else if eq_str(&t, "coder") || eq_str(&t, "code") || eq_str(&t, "dev") {
            AgentClass::Coder
        } else if eq_str(&t, "safe") || eq_str(&t, "readonly") || eq_str(&t, "read_only") {
            AgentClass::Safe
        } else {
            AgentClass::General
        }
    }

    pub fn as_str(self) -> (s: &'static str)
        ensures
            s@ == class_name(self),
    {
        match self {
            AgentClass::General => "general",
            AgentClass::Researcher => "researcher",
            AgentClass::Coder => "coder",
            AgentClass::Safe => "safe",
        }
    }

    /// Memory tags applied when this class writes durable memory.
    pub fn memory_tags(self) -> (tags: Vec<String>)
        ensures
            tags@.len() == 2,
            tags@[0]@ == "agent"@,
            tags@[1]@ == class_name(self),
    {
        let mut tags: Vec<String> = Vec::new();
        tags.push("agent".to_owned());
        tags.push(self.as_str().to_owned());
        tags
    }

    /// Tools this class may invoke.
    pub fn allowed_tools(self) -> (tools: &'static [&'static str])
        ensures
            views_of(tools@) == class_tools(self),
    {
        let tools: &'static [&'static str] = match self {
            AgentClass::General => &[
                "web_search",
                "deep_search",
                "research_pool",
                "browse_url",
                "browse_site",
                "screenshot_url",
                "print_pdf",
                "save_note",
                "get_profile",
                "remember_fact",
                "get_time",
                "calculator",
                "list_files",
                "read_file",
                "write_file",
                "delete_file",
            ],
            AgentClass::Researcher => &[
                "web_search",
                "deep_search",
                "research_pool",
                "browse_url",
                "browse_site",
                "screenshot_url",
                "print_pdf",
                "save_note",
                "get_profile",
                "remember_fact",
                "get_time",
            ],
            AgentClass::Coder => &[
                "calculator",
                "get_time",
                "list_files",
                "read_file",
                "write_file",
                "delete_file",
                "save_note",
                "get_profile",
                "remember_fact",
            ],
            AgentClass::Safe => &[
                "get_time",
                "calculator",
                "list_files",
                "read_file",
                "get_profile",
            ],
        };
        assert(views_of(tools@) =~= class_tools(self));
        tools
    }

    /// Whether this class may invoke `tool` (exact name).
    pub fn allows(self, tool: &str) -> (r: bool)
        ensures
            r == class_tools(self).contains(tool@),
    {
        let tools = self.allowed_tools();
        let mut i: usize = 0;
        while i < tools.len()
            invariant
                i <= tools@.len(),
                views_of(tools@) == class_tools(self),
                forall|k: int| 0 <= k < i ==> class_tools(self)[k] != tool@,
            decreases tools@.len() - i,
        {
            let name = chars_of(tools[i]);
            if eq_str(&name, tool) {
                assert(class_tools(self)[i as int] == tool@);
                return true;
            }
            assert(views_of(tools@)[i as int] == tools@[i as int]@);
            i = i + 1;
        }
        false
    }
}

/// Which agent answers a request.
#[derive(Debug, Clone, Copy, PartialEq, Eq, Structural)]
pub enum AgentKind {
    Internal,
    /// No agent (`none` on the wire).
    Disabled,
}

/// The kind a (trimmed, ASCII-lowercased) name selects.
pub open spec fn parse_kind(s: Seq<char>) -> AgentKind {
    let t = lower(trim(s));
    if t == "none"@ || t == "off"@ || t == "disabled"@ {
        AgentKind::Disabled
    } else {
        AgentKind::Internal
    }
}

impl AgentKind {
    /// `none` / `off` / `disabled` (any ASCII case, surrounding whitespace
    /// ignored) turn the agent off; anything else selects the internal agent.
    pub fn parse(s: &str) -> (k: Self)
        ensures
            k == parse_kind(s@),
    {
        let raw = chars_of(s);
        let t = to_lower(&trim_chars(&raw));
        if eq_str(&t, "none") || eq_str(&t, "off") || eq_str(&t, "disabled") {
            AgentKind::Disabled
        } else {
            AgentKind::Internal
        }
    }
}

/// Phrases with which a model wrongly claims it cannot use its tools.
pub open spec fn incapability_phrases() -> Seq<Seq<char>> {
    seq![
        "can't search"@,
        "cannot search"@,
        "can't look"@,
        "cannot look"@,
        "don't have access to the internet"@,
        "do not have access to the internet"@,
        "unable to browse"@,
        "can't browse"@,
        "cannot browse"@,
        "i can't help with that"@,
        "i cannot help with that"@,
        "as a language model"@,
        "i don't have the ability"@,
        "i do not have the ability"@,
        "我无法搜索"@,
        "我不能上网"@,
        "没有联网"@,
    ]
}

/// The model's reply claims it lacks abilities it has.
pub open spec fn is_incapability_claim(text: Seq<char>) -> bool {
    mentions_any(lower(text), incapability_phrases())
}

/// Whether `text` (ASCII case ignored) holds one of the incapability phrases.
pub fn is_false_incapability(text: &str) -> (r: bool)
    ensures
        r == is_incapability_claim(text@),
{
    let t = to_lower(&chars_of(text));
    let phrases: [&str; 17] = [
        "can't search",
        "cannot search",
        "can't look",
        "cannot look",
        "don't have access to the internet",
        "do not have access to the internet",
        "unable to browse",
        "can't browse",
        "cannot browse",
        "i can't help with that",
        "i cannot help with that",
        "as a language model",
        "i don't have the ability",
        "i do not have the ability",
        "我无法搜索",
        "我不能上网",
        "没有联网",
    ];
    assert(views_of(phrases@) =~= incapability_phrases());
    contains_any(&t, &phrases)
}

/// Phrases that ask for research rather than a quick answer.
pub open spec fn research_phrases() -> Seq<Seq<char>> {
    seq![
        "research"@,
        "deep dive"@,
        "thoroughly"@,
        "in depth"@,
        "in-depth"@,
        "investigate"@,
        "调研"@,
        "深入研究"@,
        "详细介绍"@,
        "全面了解"@,
    ]
}

/// The intent asks for research: a research phrase, a "what is" question
/// longer than 18 bytes, or a "什么是" question longer than 6 characters.
pub open spec fn is_research_intent(intent: Seq<char>) -> bool {
    let t = lower(intent);
    ||| mentions_any(t, research_phrases())
    ||| (contains(t, "what is"@) && utf8_len(t) > 18)
    ||| (contains(t, "什么是"@) && intent.len() > 6)
}

/// Whether the intent asks for research (ASCII case ignored).
pub fn looks_like_research(intent: &str) -> (r: bool)
    ensures
        r == is_research_intent(intent@),
{
    let raw = chars_of(intent);
    let t = to_lower(&raw);
    let phrases: [&str; 10] = [
        "research",
        "deep dive",
        "thoroughly",
        "in depth",
        "in-depth",
        "investigate",
        "调研",
        "深入研究",
        "详细介绍",
        "全面了解",
    ];
    assert(views_of(phrases@) =~= research_phrases());
    if contains_any(&t, &phrases) {
        return true;
    }
    if contains_str(&t, "what is") && utf8_len_capped(&t, 19) > 18 {
        return true;
    }
    contains_str(&t, "什么是") && raw.len() > 6
}

/// Punctuation dropped from the end of a stated name.
pub open spec fn name_end_marks() -> Seq<char> {
    seq!['.', '!', '?', ',']
}

/// Punctuation dropped from the end of a name stated in Chinese.
pub open spec fn cjk_end_marks() -> Seq<char> {
    seq!['。', '！', '？', '.', '!', '?']
}

/// Trimmed, without trailing name punctuation, trimmed again.
pub open spec fn clean_name(s: Seq<char>) -> Seq<char> {
    trim(trim_end_set(trim(s), name_end_marks()))
}

/// The English phrases that introduce a stated name, tried in this order.
pub open spec fn name_prefixes() -> Seq<Seq<char>> {
    seq!["my name is "@, "i am "@, "i'm "@, "im "@]
}

/// A name stated as `我叫…` (at most 20 characters).
pub open spec fn cjk_stated_name(t: Seq<char>) -> Option<Seq<char>> {
    if starts_with(t, "我叫"@) {
        let name = trim_end_set(trim(t.skip("我叫"@.len() as int)), cjk_end_marks());
        if name.len() > 0 && name.len() <= 20 {
            Some(name)
        } else {
            None
        }
    } else {
        None
    }
}

/// The name stated in the trimmed intent `t`, trying the English prefixes
/// from the `k`-th on (ASCII case ignored, original casing kept, 2 to 40
/// bytes), then `我叫`.
pub open spec fn name_from(t: Seq<char>, k: int) -> Option<Seq<char>>
    decreases 4 - k,
{
    if k < 0 || k >= 4 {
        cjk_stated_name(t)
    } else {
        let p = name_prefixes()[k];
        let low = lower(t);
        if starts_with(low, p) && 2 <= utf8_len(clean_name(low.skip(p.len() as int))) <= 40
            && clean_name(t.skip(p.len() as int)).len() > 0 {
            Some(clean_name(t.skip(p.len() as int)))
        } else {
            name_from(t, k + 1)
        }
    }
}

/// The name the user states in `intent`, if any.
pub open spec fn stated_name(intent: Seq<char>) -> Option<Seq<char>> {
    name_from(trim(intent), 0)
}

fn clean_name_chars(s: &Vec<char>) -> (r: Vec<char>)
    ensures
        r@ == clean_name(s@),
{
    let marks: [char; 4] = ['.', '!', '?', ','];
    assert(marks@ =~= name_end_marks());
    let a = trim_chars(s);
    let b = trim_end_chars(&a, &marks);
    trim_chars(&b)
}

fn cjk_name_chars(t: &Vec<char>) -> (r: Option<Vec<char>>)
    ensures
        opt_seq(r) == cjk_stated_name(t@),
{
    let prefix = chars_of("我叫");
    if !starts_with_chars(t, &prefix) {
        return None;
    }
    let rest = slice_chars(t, prefix.len(), t.len());
    let marks: [char; 6] = ['。', '！', '？', '.', '!', '?'];
    assert(marks@ =~= cjk_end_marks());
    let name = trim_end_chars(&trim_chars(&rest), &marks);
    if name.len() > 0 && name.len() <= 20 {
        Some(name)
    } else {
        None
    }
}

fn stated_name_chars(t: &Vec<char>) -> (r: Option<Vec<char>>)
    ensures
        opt_seq(r) == name_from(t@, 0),
{
    let prefixes: [&str; 4] = ["my name is ", "i am ", "i'm ", "im "];
    assert(views_of(prefixes@) =~= name_prefixes());
    let low = to_lower(t);
    let mut k: usize = 0;
    while k < 4
        invariant
            k <= 4,
            low@ == lower(t@),
            views_of(prefixes@) == name_prefixes(),
            name_from(t@, 0) == name_from(t@, k as int),
        decreases 4 - k,
    {
        let p = chars_of(prefixes[k]);
        assert(p@ == name_prefixes()[k as int]);
        if starts_with_chars(&low, &p) {
            let low_rest = slice_chars(&low, p.len(), low.len());
            let low_name = clean_name_chars(&low_rest);
            let n = utf8_len_capped(&low_name, 41);
            if 2 <= n && n <= 40 {
                let rest = slice_chars(t, p.len(), t.len());
                let raw = clean_name_chars(&rest);
                if raw.len() > 0 {
                    return Some(raw);
                }
            }
        }
        k = k + 1;
    }
    cjk_name_chars(t)
}

/// The name the user states: `my name is …`, `i am …`, `i'm …`, `im …`
/// (prefix in any ASCII case, name kept as typed) or `我叫…`.
pub fn extract_stated_name(intent: &str) -> (r: Option<String>)
    ensures
        opt_chars(r) == stated_name(intent@),
{
    let t = trim_chars(&chars_of(intent));
    opt_string(stated_name_chars(&t))
}

/// A transcript line without its `user: ` / `User: ` label.
pub open spec fn user_content(line: Seq<char>) -> Seq<char> {
    let l = trim(line);
    if starts_with(l, "user: "@) {
        l.skip("user: "@.len() as int)
    } else if starts_with(l, "User: "@) {
        l.skip("User: "@.len() as int)
    } else {
        l
    }
}

/// The name one transcript line gives: a stated name, else the words after
/// `name is ` (2 to 40 bytes, never one holding `khan`).
#[verifier::opaque]
pub open spec fn name_in_line(line: Seq<char>) -> Option<Seq<char>> {
    let c = user_content(line);
    match stated_name(c) {
        Some(n) => Some(n),
        None => match first_occurrence(lower(c), "name is "@) {
            Some(i) => {
                let name = clean_name(c.skip(i + "name is "@.len()));
                if 2 <= utf8_len(name) <= 40 && !contains(name, "khan"@) {
                    Some(name)
                } else {
                    None
                }
            },
            None => None,
        },
    }
}

/// The name given by the latest line that gives one.
pub open spec fn name_in_lines(ls: Seq<Seq<char>>) -> Option<Seq<char>>
    decreases ls.len(),
{
    if ls.len() == 0 {
        None
    } else {
        match name_in_line(ls.last()) {
            Some(n) => Some(n),
            None => name_in_lines(ls.drop_last()),
        }
    }
}

proof fn lemma_name_in_lines_step(ls: Seq<Seq<char>>, i: int)
    requires
        0 < i <= ls.len(),
    ensures
        name_in_lines(ls.take(i)) == match name_in_line(ls[i - 1]) {
            Some(n) => Some(n),
            None => name_in_lines(ls.take(i - 1)),
        },
{
    assert(ls.take(i).last() == ls[i - 1]);
    assert(ls.take(i).drop_last() =~= ls.take(i - 1));
}

proof fn lemma_user_line_in_step(ls: Seq<Seq<char>>, i: int)
    requires
        0 < i <= ls.len(),
    ensures
        user_line_in(ls.take(i)) == ({
            let l = trim(ls[i - 1]);
            let labeled = starts_with(l, "user: "@) || starts_with(l, "User: "@);
            let t = trim(l.skip(6));
            if labeled && t.len() > 0 {
                Some(t)
            } else {
                user_line_in(ls.take(i - 1))
            }
        }),
{
    assert(ls.take(i).last() == ls[i - 1]);
    assert(ls.take(i).drop_last() =~= ls.take(i - 1));
}

fn user_content_chars(line: &Vec<char>) -> (r: Vec<char>)
    ensures
        r@ == user_content(line@),
{
    let l = trim_chars(line);
    let a = chars_of("user: ");
    let b = chars_of("User: ");
    if starts_with_chars(&l, &a) {
        slice_chars(&l, a.len(), l.len())
    } else if starts_with_chars(&l, &b) {
        slice_chars(&l, b.len(), l.len())
    } else {
        l
    }
}

fn name_in_line_chars(line: &Vec<char>) -> (r: Option<Vec<char>>)
    ensures
        opt_seq(r) == name_in_line(line@),
{
    reveal(name_in_line);
    let c = user_content_chars(line);
    let t = trim_chars(&c);
    let stated = stated_name_chars(&t);
    if stated.is_some() {
        return stated;
    }
    let low = to_lower(&c);
    let marker = chars_of("name is ");
    assert(low@.len() == c@.len());
    match find(&low, &marker) {
        Some(i) => {
            let cl = c.len();
            assert(occurs_at(low@, marker@, i as int));
            assert(i + marker@.len() <= low@.len());
            let rest = slice_chars(&c, i + marker.len(), cl);
            let name = clean_name_chars(&rest);
            let n = utf8_len_capped(&name, 41);
            if 2 <= n && n <= 40 && !contains_str(&name, "khan") {
                Some(name)
            } else {
                None
            }
        },
        None => None,
    }
}

/// The name the user gave in a transcript, searching from the latest line.
pub fn find_name_in_context(ctx: &str) -> (r: Option<String>)
    ensures
        opt_chars(r) == name_in_lines(lines(ctx@)),
{
    let ls = split_lines(&chars_of(ctx));
    let ghost all = lines(ctx@);
    let mut i: usize = ls.len();
    assert(all.take(i as int) =~= all);
    while i > 0
        invariant
            i <= ls@.len(),
            ls@.len() == all.len(),
            forall|k: int| 0 <= k < ls@.len() ==> #[trigger] ls@[k]@ == all[k],
            all == lines(ctx@),
            name_in_lines(all) == name_in_lines(all.take(i as int)),
        decreases i,
    {
        assert(ls@[i - 1]@ == all[i - 1]);
        let found = name_in_line_chars(&ls[i - 1]);
        proof {
            lemma_name_in_lines_step(all, i as int);
        }
        if found.is_some() {
            return opt_string(found);
        }
        i = i - 1;
    }
    None
}

/// The latest non-empty `user: ` / `User: ` line, trimmed.
pub open spec fn user_line_in(ls: Seq<Seq<char>>) -> Option<Seq<char>>
    decreases ls.len(),
{
    if ls.len() == 0 {
        None
    } else {
        let l = trim(ls.last());
        let labeled = starts_with(l, "user: "@) || starts_with(l, "User: "@);
        let t = trim(l.skip(6));
        if labeled && t.len() > 0 {
            Some(t)
        } else {
            user_line_in(ls.drop_last())
        }
    }
}

/// What the user said last in a transcript.
pub fn last_user_line(ctx: &str) -> (r: Option<String>)
    ensures
        opt_chars(r) == user_line_in(lines(ctx@)),
{
    let ls = split_lines(&chars_of(ctx));
    let ghost all = lines(ctx@);
    let a = chars_of("user: ");
    let b = chars_of("User: ");
    proof {
        reveal_strlit("user: ");
        reveal_strlit("User: ");
    }
    let mut i: usize = ls.len();
    assert(all.take(i as int) =~= all);
    while i > 0
        invariant
            i <= ls@.len(),
            ls@.len() == all.len(),
            forall|k: int| 0 <= k < ls@.len() ==> #[trigger] ls@[k]@ == all[k],
            all == lines(ctx@),
            user_line_in(all) == user_line_in(all.take(i as int)),
            a@ == "user: "@,
            b@ == "User: "@,
            a@.len() == 6,
            b@.len() == 6,
        decreases i,
    {
        assert(ls@[i - 1]@ == all[i - 1]);
        let l = trim_chars(&ls[i - 1]);
        proof {
            lemma_user_line_in_step(all, i as int);
        }
        if starts_with_chars(&l, &a) || starts_with_chars(&l, &b) {
            let t = trim_chars(&slice_chars(&l, 6, l.len()));
            if t.len() > 0 {
                return Some(string_of(&t));
            }
        }
        i = i - 1;
    }
    None
}

/// A source cited by an answer.
#[derive(Debug, Clone, PartialEq, Eq)]
pub struct Citation {
    pub title: String,
    pub url: String,
    pub snippet: String,
}

/// A request to the internal agent.
#[derive(Debug, Clone)]
pub struct AgentRequest {
    pub kind: AgentKind,
    pub intent: String,
    pub base_url: Option<String>,
    pub api_key: Option<String>,
    pub model: Option<String>,
    /// voice | balanced | deep
    pub thought_depth: Option<String>,
    /// general | researcher | coder | safe
    pub agent_class: Option<String>,
    /// Optional client session id for multi-turn context.
    pub session_id: Option<String>,
    /// Optional client-supplied recent transcript (user/assistant lines).
    pub prior_context: Option<String>,
}

/// What the agent answered.
#[derive(Debug, Clone)]
pub struct AgentResult {
    pub task_id: String,
    pub status: String,
    pub result: Option<String>,
    pub error: Option<String>,
    pub agent_kind: String,
    pub tools_used: Vec<String>,
    /// Upstream model HTTP status when the LLM call failed (e.g. 401, 429, 503).
    pub model_status: Option<u16>,
    /// Short model/provider error code for UI chips.
    pub model_code: Option<String>,
    /// Source citations from search / browse.
    pub sources: Vec<Citation>,
    /// Destructive sandbox action waiting for user approval.
    pub pending: Option<PendingAction>,
    /// Agent class used for this turn (tool allow-list).
    pub agent_class: Option<String>,
    /// Multi-agent pool id when a research pool ran.
    pub pool_id: Option<String>,
}

/// The short code a failed model call shows for its HTTP status.
pub open spec fn error_code_of(status: u16) -> Seq<char> {
    if status == 401 || status == 403 {
        "auth"@
    } else if status == 429 {
        "rate_limit"@
    } else if status == 404 {
        "model_not_found"@
    } else if status >= 500 {
        "upstream"@
    } else if status > 0 {
        "model_error"@
    } else {
        "config"@
    }
}

/// The code for a model error with this status (0: no response).
pub fn agent_error_code(status: u16) -> (c: &'static str)
    ensures
        c@ == error_code_of(status),
{
    if status == 401 || status == 403 {
        "auth"
    } else if status == 429 {
        "rate_limit"
    } else if status == 404 {
        "model_not_found"
    } else if status >= 500 {
        "upstream"
    } else if status > 0 {
        "model_error"
    } else {
        "config"
    }
}

/// What a run goes on with once the request is accepted.
#[derive(Debug, Clone)]
pub struct RunPlan {
    pub class: AgentClass,
    /// `voice`, `balanced` or `deep`, ASCII-lowercased.
    pub depth: String,
    /// The intent, trimmed.
    pub intent: String,
    /// The session id, trimmed, when not empty.
    pub session_id: Option<String>,
    /// The client's recent transcript, trimmed, when not empty.
    pub prior_context: Option<String>,
    /// The model settings the request overrides, if any.
    pub settings_update: Option<LlmUpdate>,
}

/// A trimmed value, when not empty.
pub open spec fn trimmed_given(o: Option<String>) -> Option<Seq<char>> {
    match o {
        Some(v) => if trim(v@).len() > 0 {
            Some(trim(v@))
        } else {
            None
        },
        None => None,
    }
}

fn trimmed_opt(o: &Option<String>) -> (r: Option<String>)
    ensures
        opt_chars(r) == trimmed_given(*o),
{
    match o {
        Some(v) => {
            let t = trim_chars(&chars_of(v.as_str()));
            if t.len() > 0 {
                Some(string_of(&t))
            } else {
                None
            }
        },
        None => None,
    }
}

/// The result of a run that does not start.
pub open spec fn is_refusal(r: AgentResult, task_id: Seq<char>, status: Seq<char>, error: Seq<char>, kind: Seq<char>, code: Option<Seq<char>>) -> bool {
    &&& r.task_id@ == task_id
    &&& r.status@ == status
    &&& r.result is None
    &&& opt_chars(r.error) == Some(error)
    &&& r.agent_kind@ == kind
    &&& r.tools_used@.len() == 0
    &&& r.model_status is None
    &&& opt_chars(r.model_code) == code
    &&& r.sources@.len() == 0
    &&& r.pending is None
    &&& r.agent_class is None
    &&& r.pool_id is None
}

fn refusal(task_id: String, status: &str, error: &str, kind: &str, code: Option<&str>) -> (r: AgentResult)
    ensures
        is_refusal(r, task_id@, status@, error@, kind@, match code {
            Some(c) => Some(c@),
            None => None,
        }),
{
    AgentResult {
        task_id,
        status: status.to_owned(),
        result: None,
        error: Some(error.to_owned()),
        agent_kind: kind.to_owned(),
        tools_used: Vec::new(),
        model_status: None,
        model_code: match code {
            Some(c) => Some(c.to_owned()),
            None => None,
        },
        sources: Vec::new(),
        pending: None,
        agent_class: None,
        pool_id: None,
    }
}

/// The checks a run makes before any work: a disabled agent is skipped, an
/// empty intent is an error; otherwise the class (`general` when none is
/// named), the depth (`voice` when none), the trimmed intent, session and
/// transcript, and the model settings the request overrides (when it names
/// a base URL, key or model).
pub fn run_preflight(task_id: String, req: &AgentRequest) -> (r: Result<RunPlan, AgentResult>)
    ensures
        req.kind == AgentKind::Disabled ==> (r matches Err(res) && is_refusal(
            res,
            task_id@,
            "skipped"@,
            "agent disabled"@,
            "none"@,
            None,
        )),
        req.kind != AgentKind::Disabled && trim(req.intent@).len() == 0 ==> (r matches Err(res) && is_refusal(
            res,
            task_id@,
            "error"@,
            "intent is required"@,
            "internal"@,
            Some("empty_intent"@),
        )),
        req.kind != AgentKind::Disabled && trim(req.intent@).len() > 0 ==> (r matches Ok(p) && {
            &&& p.class == parse_class(match req.agent_class {
                Some(c) => c@,
                None => "general"@,
            })
            &&& p.depth@ == lower(match req.thought_depth {
                Some(d) => d@,
                None => "voice"@,
            })
            &&& p.intent@ == trim(req.intent@)
            &&& opt_chars(p.session_id) == trimmed_given(req.session_id)
            &&& opt_chars(p.prior_context) == trimmed_given(req.prior_context)
            &&& (p.settings_update is Some <==> (req.base_url is Some || req.api_key is Some || req.model is Some))
            &&& (p.settings_update matches Some(u) ==> u.provider_id is None && u.system_prompt is None
                && u.base_url == req.base_url && u.api_key == req.api_key && u.model == req.model)
        }),
{
    if req.kind == AgentKind::Disabled {
        return Err(refusal(task_id, "skipped", "agent disabled", "none", None));
    }
    let intent = trim_chars(&chars_of(req.intent.as_str()));
    if intent.len() == 0 {
        return Err(refusal(task_id, "error", "intent is required", "internal", Some("empty_intent")));
    }
    let class = match &req.agent_class {
        Some(c) => AgentClass::parse(c.as_str()),
        None => AgentClass::parse("general"),
    };
    let depth = match &req.thought_depth {
        Some(d) => string_of(&to_lower(&chars_of(d.as_str()))),
        None => string_of(&to_lower(&chars_of("voice"))),
    };
    let settings_update = if req.base_url.is_some() || req.api_key.is_some() || req.model.is_some() {
        Some(LlmUpdate {
            provider_id: None,
            base_url: copy_opt(&req.base_url),
            model: copy_opt(&req.model),
            api_key: copy_opt(&req.api_key),
            system_prompt: None,
        })
    } else {
        None
    };
    Ok(RunPlan {
        class,
        depth,
        intent: string_of(&intent),
        session_id: trimmed_opt(&req.session_id),
        prior_context: trimmed_opt(&req.prior_context),
        settings_update,
    })
}

/// `r` relabelled with `task_id` and the class that answered.
pub fn reply_with_class(task_id: String, r: AgentResult, class_id: &str) -> (out: AgentResult)
    ensures
        out == (AgentResult { task_id: task_id, agent_class: out.agent_class, ..r }),
        opt_chars(out.agent_class) == Some(class_id@),
{
    let mut r = r;
    r.task_id = task_id;
    r.agent_class = Some(class_id.to_owned());
    r
}

/// A spoken reply to a pending-action confirmation.
#[derive(Debug, Clone, Copy, PartialEq, Eq, Structural)]
pub enum ConfirmIntent {
    Approve,
    Deny,
}

/// Utterances that approve the latest pending action.
pub open spec fn approve_words() -> Seq<Seq<char>> {
    seq![
        "yes"@, "y"@, "ok"@, "okay"@, "approve"@, "confirm"@, "do it"@, "go ahead"@, "sure"@,
        "yeah"@, "yep"@, "好"@, "好的"@, "确认"@, "同意"@, "可以"@, "行"@,
    ]
}

/// Utterances that cancel the latest pending action.
pub open spec fn deny_words() -> Seq<Seq<char>> {
    seq![
        "no"@, "n"@, "cancel"@, "deny"@, "stop"@, "don't"@, "dont"@, "never mind"@,
        "nevermind"@, "取消"@, "不要"@, "别"@, "拒绝"@,
    ]
}

/// How the user answered a confirmation prompt (trimmed, ASCII case
/// ignored); approval wins when both readings apply.
pub open spec fn confirm_intent(intent: Seq<char>) -> Option<ConfirmIntent> {
    let t = lower(trim(intent));
    let approve = approve_words().contains(t) || starts_with(t, "yes "@) || starts_with(
        t,
        "approve "@,
    ) || t == "confirm it"@ || t == "please do"@;
    let deny = deny_words().contains(t) || starts_with(t, "no "@) || starts_with(t, "cancel "@);
    if approve {
        Some(ConfirmIntent::Approve)
    } else if deny {
        Some(ConfirmIntent::Deny)
    } else {
        None
    }
}

/// Reads a spoken confirmation: approve, deny, or neither.
pub fn confirm_intent_of(intent: &str) -> (r: Option<ConfirmIntent>)
    ensures
        r == confirm_intent(intent@),
{
    let t = to_lower(&trim_chars(&chars_of(intent)));
    let approve_list: [&str; 17] = [
        "yes", "y", "ok", "okay", "approve", "confirm", "do it", "go ahead", "sure", "yeah", "yep",
        "好", "好的", "确认", "同意", "可以", "行",
    ];
    assert(views_of(approve_list@) =~= approve_words());
    let deny_list: [&str; 13] = [
        "no", "n", "cancel", "deny", "stop", "don't", "dont", "never mind", "nevermind", "取消",
        "不要", "别", "拒绝",
    ];
    assert(views_of(deny_list@) =~= deny_words());
    let approve = eq_any(&t, &approve_list) || starts_with_str(&t, "yes ") || starts_with_str(
        &t,
        "approve ",
    ) || eq_str(&t, "confirm it") || eq_str(&t, "please do");
    let deny = eq_any(&t, &deny_list) || starts_with_str(&t, "no ") || starts_with_str(
        &t,
        "cancel ",
    );
    if approve {
        Some(ConfirmIntent::Approve)
    } else if deny {
        Some(ConfirmIntent::Deny)
    } else {
        None
    }
}

/// What happened to the latest pending action after a confirmation.
#[derive(Debug)]
pub enum ConfirmOutcome {
    /// Nothing was waiting for confirmation.
    NothingPending,
    /// The approved action ran, with the sandbox's answer.
    Executed(Result<String, String>),
    /// The action was dropped.
    Rejected,
}

/// The spoken result of a confirmation turn.
pub open spec fn confirm_reply(approve: bool, outcome: ConfirmOutcome) -> (Seq<char>, Option<Seq<char>>, Option<Seq<char>>) {
    match outcome {
        ConfirmOutcome::NothingPending => (
            "completed"@,
            Some(
                if approve {
                    "There's nothing waiting for confirmation."@
                } else {
                    "Nothing to cancel."@
                },
            ),
            None,
        ),
        ConfirmOutcome::Executed(Ok(msg)) => ("completed"@, Some(msg@), None),
        ConfirmOutcome::Executed(Err(e)) => ("error"@, None, Some(e@)),
        ConfirmOutcome::Rejected => ("completed"@, Some("Cancelled — I didn’t change anything."@), None),
    }
}

/// The agent result reporting a confirmation turn.
pub fn voice_confirm_result(task_id: String, approve: bool, outcome: ConfirmOutcome) -> (r: AgentResult)
    ensures
        r.task_id == task_id,
        (r.status@, opt_chars(r.result), opt_chars(r.error)) == confirm_reply(approve, outcome),
        r.agent_kind@ == "internal"@,
        r.tools_used@.len() == 1 && r.tools_used@[0]@ == "confirm"@,
        r.model_status is None,
        opt_chars(r.model_code) == if outcome matches ConfirmOutcome::Executed(Err(_)) {
            Some("confirm"@)
        } else {
            None
        },
        r.sources@.len() == 0,
        r.pending is None,
        r.agent_class is None,
        r.pool_id is None,
{
    let mut tools_used: Vec<String> = Vec::new();
    tools_used.push("confirm".to_owned());
    let (status, result, error, model_code) = match outcome {
        ConfirmOutcome::NothingPending => (
            "completed".to_owned(),
            Some(
                if approve {
                    "There's nothing waiting for confirmation.".to_owned()
                } else {
                    "Nothing to cancel.".to_owned()
                },
            ),
            None,
            None,
        ),
        ConfirmOutcome::Executed(Ok(msg)) => ("completed".to_owned(), Some(msg), None, None),
        ConfirmOutcome::Executed(Err(e)) => (
            "error".to_owned(),
            None,
            Some(e),
            Some("confirm".to_owned()),
        ),
        ConfirmOutcome::Rejected => (
            "completed".to_owned(),
            Some("Cancelled — I didn’t change anything.".to_owned()),
            None,
            None,
        ),
    };
    AgentResult {
        task_id,
        status,
        result,
        error,
        agent_kind: "internal".to_owned(),
        tools_used,
        model_status: None,
        model_code,
        sources: Vec::new(),
        pending: None,
        agent_class: None,
        pool_id: None,
    }
}


/// A tool the agent offers the model: its name, what it is for, and its
/// parameters as a JSON Schema text.
#[derive(Debug, Clone)]
pub struct ToolSpec {
    pub name: String,
    pub description: String,
    /// The JSON Schema object of the tool's arguments.
    pub parameters: String,
}

/// A tool as plain text: name, description, parameter schema.
pub open spec fn tool_view(t: ToolSpec) -> (Seq<char>, Seq<char>, Seq<char>) {
    (t.name@, t.description@, t.parameters@)
}

/// Every tool the agent knows, in the order it offers them.
pub open spec fn tool_table() -> Seq<(Seq<char>, Seq<char>, Seq<char>)> {
    seq![
        ("web_search"@, "Search for facts: people, products, AI agents, places, news, definitions. SHORT query."@, "{\"type\":\"object\",\"properties\":{\"query\":{\"type\":\"string\",\"description\":\"Short search keywords\"}},\"required\":[\"query\"]}"@),
        ("deep_search"@, "Deeper multi-query research when the user wants thorough answers."@, "{\"type\":\"object\",\"properties\":{\"query\":{\"type\":\"string\"}},\"required\":[\"query\"]}"@),
        ("research_pool"@, "Spawn multiple parallel research agents (up to 50) for broad coverage. Use for 'research X thoroughly' or multi-facet questions."@, "{\"type\":\"object\",\"properties\":{\"query\":{\"type\":\"string\"},\"agents\":{\"type\":\"integer\",\"description\":\"Number of parallel agents (1-50, default 4)\"}},\"required\":[\"query\"]}"@),
        ("get_time"@, "Get the current time (UTC)."@, "{\"type\":\"object\",\"properties\":{}}"@),
        ("calculator"@, "Evaluate arithmetic. Pass expression like 12+30 or 25*4."@, "{\"type\":\"object\",\"properties\":{\"expression\":{\"type\":\"string\"}},\"required\":[\"expression\"]}"@),
        ("list_files"@, "List files in the OpenLive sandbox workspace. path is relative ('' = root)."@, "{\"type\":\"object\",\"properties\":{\"path\":{\"type\":\"string\"}}}"@),
        ("read_file"@, "Read a UTF-8 text file from the sandbox workspace."@, "{\"type\":\"object\",\"properties\":{\"path\":{\"type\":\"string\"}},\"required\":[\"path\"]}"@),
        ("write_file"@, "Write a UTF-8 text file into the sandbox workspace (creates folders as needed)."@, "{\"type\":\"object\",\"properties\":{\"path\":{\"type\":\"string\"},\"content\":{\"type\":\"string\"}},\"required\":[\"path\",\"content\"]}"@),
        ("browse_url"@, "Fetch a public https URL and read its main text (sandbox browser). engine: auto|http|headless. Headless uses system Chrome/Edge for JS pages."@, "{\"type\":\"object\",\"properties\":{\"url\":{\"type\":\"string\",\"description\":\"Public http(s) URL\"},\"engine\":{\"type\":\"string\",\"description\":\"auto (default), http, or headless\"}},\"required\":[\"url\"]}"@),
        ("browse_site"@, "Multi-page browse: open a URL then follow a few same-site links. Use for deeper website reading."@, "{\"type\":\"object\",\"properties\":{\"url\":{\"type\":\"string\"},\"max_links\":{\"type\":\"integer\",\"description\":\"Extra pages to follow (0-5, default 2)\"}},\"required\":[\"url\"]}"@),
        ("screenshot_url"@, "Take a headless Chrome/Edge screenshot of a public URL; saves PNG into sandbox lab/screenshots/."@, "{\"type\":\"object\",\"properties\":{\"url\":{\"type\":\"string\"},\"width\":{\"type\":\"integer\",\"description\":\"Viewport width (default 1280)\"},\"height\":{\"type\":\"integer\",\"description\":\"Viewport height (default 800)\"}},\"required\":[\"url\"]}"@),
        ("print_pdf"@, "Print a public URL to PDF via headless Chrome/Edge; saves into sandbox lab/pdfs/."@, "{\"type\":\"object\",\"properties\":{\"url\":{\"type\":\"string\"}},\"required\":[\"url\"]}"@),
        ("save_note"@, "Save a markdown/text research note into the sandbox lab folder."@, "{\"type\":\"object\",\"properties\":{\"name\":{\"type\":\"string\",\"description\":\"Note filename, e.g. agents.md\"},\"content\":{\"type\":\"string\"}},\"required\":[\"name\",\"content\"]}"@),
        ("get_profile"@, "Read durable user profile: name, language, timezone, preferences, facts."@, "{\"type\":\"object\",\"properties\":{}}"@),
        ("remember_fact"@, "Store a short durable fact about the user (preferences, favorites, etc.)."@, "{\"type\":\"object\",\"properties\":{\"fact\":{\"type\":\"string\"}},\"required\":[\"fact\"]}"@),
        ("delete_file"@, "Delete a sandbox file. Requires user confirmation before it runs."@, "{\"type\":\"object\",\"properties\":{\"path\":{\"type\":\"string\"}},\"required\":[\"path\"]}"@),
    ]
}

/// The tools of `table` that `class` may use, in order.
pub open spec fn tools_allowed(table: Seq<(Seq<char>, Seq<char>, Seq<char>)>, class: AgentClass) -> Seq<(Seq<char>, Seq<char>, Seq<char>)>
    decreases table.len(),
{
    if table.len() == 0 {
        table
    } else if class_tools(class).contains(table.last().0) {
        tools_allowed(table.drop_last(), class).push(table.last())
    } else {
        tools_allowed(table.drop_last(), class)
    }
}

fn copy_tool(t: &ToolSpec) -> (r: ToolSpec)
    ensures
        tool_view(r) == tool_view(*t),
{
    ToolSpec { name: t.name.clone(), description: t.description.clone(), parameters: t.parameters.clone() }
}

/// Every tool the agent knows.
pub fn tool_definitions() -> (v: Vec<ToolSpec>)
    ensures
        v@.map_values(|t: ToolSpec| tool_view(t)) == tool_table(),
{
    let mut v: Vec<ToolSpec> = Vec::new();
    v.push(ToolSpec {
        name: "web_search".to_owned(),
        description: "Search for facts: people, products, AI agents, places, news, definitions. SHORT query.".to_owned(),
        parameters: "{\"type\":\"object\",\"properties\":{\"query\":{\"type\":\"string\",\"description\":\"Short search keywords\"}},\"required\":[\"query\"]}".to_owned(),
    });
    v.push(ToolSpec {
        name: "deep_search".to_owned(),
        description: "Deeper multi-query research when the user wants thorough answers.".to_owned(),
        parameters: "{\"type\":\"object\",\"properties\":{\"query\":{\"type\":\"string\"}},\"required\":[\"query\"]}".to_owned(),
    });
    v.push(ToolSpec {
        name: "research_pool".to_owned(),
        description: "Spawn multiple parallel research agents (up to 50) for broad coverage. Use for 'research X thoroughly' or multi-facet questions.".to_owned(),
        parameters: "{\"type\":\"object\",\"properties\":{\"query\":{\"type\":\"string\"},\"agents\":{\"type\":\"integer\",\"description\":\"Number of parallel agents (1-50, default 4)\"}},\"required\":[\"query\"]}".to_owned(),
    });
    v.push(ToolSpec {
        name: "get_time".to_owned(),
        description: "Get the current time (UTC).".to_owned(),
        parameters: "{\"type\":\"object\",\"properties\":{}}".to_owned(),
    });
    v.push(ToolSpec {
        name: "calculator".to_owned(),
        description: "Evaluate arithmetic. Pass expression like 12+30 or 25*4.".to_owned(),
        parameters: "{\"type\":\"object\",\"properties\":{\"expression\":{\"type\":\"string\"}},\"required\":[\"expression\"]}".to_owned(),
    });
    v.push(ToolSpec {
        name: "list_files".to_owned(),
        description: "List files in the OpenLive sandbox workspace. path is relative ('' = root).".to_owned(),
        parameters: "{\"type\":\"object\",\"properties\":{\"path\":{\"type\":\"string\"}}}".to_owned(),
    });
    v.push(ToolSpec {
        name: "read_file".to_owned(),
        description: "Read a UTF-8 text file from the sandbox workspace.".to_owned(),
        parameters: "{\"type\":\"object\",\"properties\":{\"path\":{\"type\":\"string\"}},\"required\":[\"path\"]}".to_owned(),
    });
    v.push(ToolSpec {
        name: "write_file".to_owned(),
        description: "Write a UTF-8 text file into the sandbox workspace (creates folders as needed).".to_owned(),
        parameters: "{\"type\":\"object\",\"properties\":{\"path\":{\"type\":\"string\"},\"content\":{\"type\":\"string\"}},\"required\":[\"path\",\"content\"]}".to_owned(),
    });
    v.push(ToolSpec {
        name: "browse_url".to_owned(),
        description: "Fetch a public https URL and read its main text (sandbox browser). engine: auto|http|headless. Headless uses system Chrome/Edge for JS pages.".to_owned(),
        parameters: "{\"type\":\"object\",\"properties\":{\"url\":{\"type\":\"string\",\"description\":\"Public http(s) URL\"},\"engine\":{\"type\":\"string\",\"description\":\"auto (default), http, or headless\"}},\"required\":[\"url\"]}".to_owned(),
    });
    v.push(ToolSpec {
        name: "browse_site".to_owned(),
        description: "Multi-page browse: open a URL then follow a few same-site links. Use for deeper website reading.".to_owned(),
        parameters: "{\"type\":\"object\",\"properties\":{\"url\":{\"type\":\"string\"},\"max_links\":{\"type\":\"integer\",\"description\":\"Extra pages to follow (0-5, default 2)\"}},\"required\":[\"url\"]}".to_owned(),
    });
    v.push(ToolSpec {
        name: "screenshot_url".to_owned(),
        description: "Take a headless Chrome/Edge screenshot of a public URL; saves PNG into sandbox lab/screenshots/.".to_owned(),
        parameters: "{\"type\":\"object\",\"properties\":{\"url\":{\"type\":\"string\"},\"width\":{\"type\":\"integer\",\"description\":\"Viewport width (default 1280)\"},\"height\":{\"type\":\"integer\",\"description\":\"Viewport height (default 800)\"}},\"required\":[\"url\"]}".to_owned(),
    });
    v.push(ToolSpec {
        name: "print_pdf".to_owned(),
        description: "Print a public URL to PDF via headless Chrome/Edge; saves into sandbox lab/pdfs/.".to_owned(),
        parameters: "{\"type\":\"object\",\"properties\":{\"url\":{\"type\":\"string\"}},\"required\":[\"url\"]}".to_owned(),
    });
    v.push(ToolSpec {
        name: "save_note".to_owned(),
        description: "Save a markdown/text research note into the sandbox lab folder.".to_owned(),
        parameters: "{\"type\":\"object\",\"properties\":{\"name\":{\"type\":\"string\",\"description\":\"Note filename, e.g. agents.md\"},\"content\":{\"type\":\"string\"}},\"required\":[\"name\",\"content\"]}".to_owned(),
    });
    v.push(ToolSpec {
        name: "get_profile".to_owned(),
        description: "Read durable user profile: name, language, timezone, preferences, facts.".to_owned(),
        parameters: "{\"type\":\"object\",\"properties\":{}}".to_owned(),
    });
    v.push(ToolSpec {
        name: "remember_fact".to_owned(),
        description: "Store a short durable fact about the user (preferences, favorites, etc.).".to_owned(),
        parameters: "{\"type\":\"object\",\"properties\":{\"fact\":{\"type\":\"string\"}},\"required\":[\"fact\"]}".to_owned(),
    });
    v.push(ToolSpec {
        name: "delete_file".to_owned(),
        description: "Delete a sandbox file. Requires user confirmation before it runs.".to_owned(),
        parameters: "{\"type\":\"object\",\"properties\":{\"path\":{\"type\":\"string\"}},\"required\":[\"path\"]}".to_owned(),
    });
    assert(v@.map_values(|t: ToolSpec| tool_view(t)) =~= tool_table());
    v
}

/// The tools `class` may use, in the order they are offered.
pub fn tool_definitions_for(class: AgentClass) -> (v: Vec<ToolSpec>)
    ensures
        v@.map_values(|t: ToolSpec| tool_view(t)) == tools_allowed(tool_table(), class),
{
    let all = tool_definitions();
    let mut v: Vec<ToolSpec> = Vec::new();
    let mut i: usize = 0;
    while i < all.len()
        invariant
            i <= all@.len(),
            all@.map_values(|t: ToolSpec| tool_view(t)) == tool_table(),
            v@.map_values(|t: ToolSpec| tool_view(t)) == tools_allowed(tool_table().take(i as int), class),
        decreases all@.len() - i,
    {
        assert(tool_table().take(i + 1).drop_last() =~= tool_table().take(i as int));
        assert(tool_table().take(i + 1).last() == tool_view(all@[i as int]));
        if class.allows(all[i].name.as_str()) {
            let ghost before = v@.map_values(|t: ToolSpec| tool_view(t));
            v.push(copy_tool(&all[i]));
            assert(v@.map_values(|t: ToolSpec| tool_view(t)) =~= before.push(tool_view(all@[i as int])));
        }
        i = i + 1;
    }
    assert(tool_table().take(all@.len() as int) =~= tool_table());
    v
}

/// The steps a turn may take, in the order they are tried.
#[derive(Debug, Clone, Copy, PartialEq, Eq)]
pub enum TurnStep {
    /// Answer who the assistant is, without searching.
    Identity,
    /// Answer from the session's dialog alone.
    DialogContext,
    /// Run a research pool of this many workers.
    ResearchPool { agents: u64 },
    /// Math or time tools.
    BuiltinTools,
    /// A web search.
    WebSearch,
    /// The model with tools, then plain chat.
    LlmTools,
    /// Tools only, without a model.
    Offline,
}

/// What is known of a turn before it is routed: the verdicts of the intent
/// classifiers and whether a model may be called.
#[derive(Debug, Clone, Copy, PartialEq, Eq)]
pub struct TurnFacts {
    pub asks_identity: bool,
    pub dialog_answers: bool,
    pub math_or_time: bool,
    pub looks_like_search: bool,
    pub can_chat: bool,
}

/// The place of a step in the routing order.
pub open spec fn step_rank(s: TurnStep) -> int {
    match s {
        TurnStep::Identity => 0,
        TurnStep::DialogContext => 1,
        TurnStep::ResearchPool { .. } => 2,
        TurnStep::BuiltinTools => 3,
        TurnStep::WebSearch => 4,
        TurnStep::LlmTools => 5,
        TurnStep::Offline => 6,
    }
}

/// Workers of a deep research turn: six for an intent over 80 bytes, else four.
pub open spec fn research_agents(intent: Seq<char>) -> u64 {
    if utf8_len(intent) > 80 { 6 } else { 4 }
}

/// The step of rank `k`, when it applies to the turn.
pub open spec fn step_at(k: int, intent: Seq<char>, depth: Seq<char>, f: TurnFacts) -> Option<TurnStep> {
    if k == 0 {
        if f.asks_identity { Some(TurnStep::Identity) } else { None }
    } else if k == 1 {
        if f.dialog_answers { Some(TurnStep::DialogContext) } else { None }
    } else if k == 2 {
        if depth == "deep"@ && is_research_intent(intent) {
            Some(TurnStep::ResearchPool { agents: research_agents(intent) })
        } else {
            None
        }
    } else if k == 3 {
        if f.math_or_time { Some(TurnStep::BuiltinTools) } else { None }
    } else if k == 4 {
        if f.looks_like_search { Some(TurnStep::WebSearch) } else { None }
    } else if k == 5 {
        if f.can_chat { Some(TurnStep::LlmTools) } else { None }
    } else {
        Some(TurnStep::Offline)
    }
}

/// The first applicable step of rank `k` or later (the offline step always
/// applies).
pub open spec fn first_step_from(k: int, intent: Seq<char>, depth: Seq<char>, f: TurnFacts) -> TurnStep
    decreases 6 - k,
{
    if k >= 6 {
        TurnStep::Offline
    } else {
        match step_at(k, intent, depth, f) {
            Some(s) => s,
            None => first_step_from(k + 1, intent, depth, f),
        }
    }
}

/// The step a turn tries first (`after` is `None`), or next once `after`
/// gave no answer: identity, dialog context, a research pool for a deep
/// research intent, math/time tools, search, the model, and the offline
/// fallback, each only where it applies.
pub fn next_turn_step(intent: &str, depth: &str, facts: TurnFacts, after: Option<TurnStep>) -> (s: TurnStep)
    ensures
        s == first_step_from(
            match after {
                Some(a) => step_rank(a) + 1,
                None => 0,
            },
            intent@,
            depth@,
            facts,
        ),
{
    let mut k: u8 = match after {
        None => 0,
        Some(TurnStep::Identity) => 1,
        Some(TurnStep::DialogContext) => 2,
        Some(TurnStep::ResearchPool { .. }) => 3,
        Some(TurnStep::BuiltinTools) => 4,
        Some(TurnStep::WebSearch) => 5,
        Some(TurnStep::LlmTools) => 6,
        Some(TurnStep::Offline) => 7,
    };
    let research = eq_str(&chars_of(depth), "deep") && looks_like_research(intent);
    let agents: u64 = if utf8_len_capped(&chars_of(intent), 81) > 80 { 6 } else { 4 };
    while k < 6
        invariant
            k <= 7,
            research == (depth@ == "deep"@ && is_research_intent(intent@)),
            agents == research_agents(intent@),
            first_step_from(
                match after {
                    Some(a) => step_rank(a) + 1,
                    None => 0,
                },
                intent@,
                depth@,
                facts,
            ) == first_step_from(k as int, intent@, depth@, facts),
        decreases 6 - k,
    {
        let hit = if k == 0 {
            facts.asks_identity
        } else if k == 1 {
            facts.dialog_answers
        } else if k == 2 {
            research
        } else if k == 3 {
            facts.math_or_time
        } else if k == 4 {
            facts.looks_like_search
        } else {
            facts.can_chat
        };
        if hit {
            return if k == 0 {
                TurnStep::Identity
            } else if k == 1 {
                TurnStep::DialogContext
            } else if k == 2 {
                TurnStep::ResearchPool { agents }
            } else if k == 3 {
                TurnStep::BuiltinTools
            } else if k == 4 {
                TurnStep::WebSearch
            } else {
                TurnStep::LlmTools
            };
        }
        k = k + 1;
    }
    TurnStep::Offline
}

/// The answer budget and style instruction of a turn by depth (`deep`,
/// `balanced`, else voice), with the recent dialog appended when there is one.
pub open spec fn turn_style(depth: Seq<char>, dialog: Seq<char>) -> (u32, Seq<char>) {
    let (tokens, style) = if depth == "deep"@ {
        (400u32, "Give a thorough, research-style answer (still spoken-friendly paragraphs). Use tools when facts matter."@)
    } else if depth == "balanced"@ {
        (220u32, "Answer clearly in a few short sentences. Use tools for facts."@)
    } else {
        (140u32, "Answer in 1–2 short spoken sentences. Use tools for facts."@)
    };
    if dialog.len() == 0 {
        (tokens, style)
    } else {
        (tokens, style + "\n\nRecent conversation (use for continuity; do not repeat unless asked):\n"@ + dialog)
    }
}

/// The answer budget and style instruction of a turn.
pub fn turn_budget(depth: &str, dialog: &str) -> (r: (u32, String))
    ensures
        (r.0, r.1@) == turn_style(depth@, dialog@),
{
    let d = chars_of(depth);
    let (tokens, style): (u32, &str) = if eq_str(&d, "deep") {
        (400, "Give a thorough, research-style answer (still spoken-friendly paragraphs). Use tools when facts matter.")
    } else if eq_str(&d, "balanced") {
        (220, "Answer clearly in a few short sentences. Use tools for facts.")
    } else {
        (140, "Answer in 1–2 short spoken sentences. Use tools for facts.")
    };
    let ctx = chars_of(dialog);
    let mut v: Vec<char> = Vec::new();
    extend_str(&mut v, style);
    if ctx.len() > 0 {
        extend_str(&mut v, "\n\nRecent conversation (use for continuity; do not repeat unless asked):\n");
        extend_chars(&mut v, &ctx);
    }
    (tokens, string_of(&v))
}

/// What a spoken confirmation does to the newest pending action.
#[derive(Debug, Clone)]
pub enum VoiceConfirmStep {
    /// Nothing was waiting for confirmation.
    NothingPending,
    /// The approved action's sandbox operation, for the caller to run.
    Execute(SandboxOp),
    /// The approval found nothing to run.
    Failed(String),
    /// The action was dropped.
    Rejected,
}

/// Answers a spoken approval or refusal at `now`: the newest action still
/// pending is taken out of the store and, when approved, its sandbox
/// operation is handed back; when nothing is pending, nothing changes but
/// the purge.
pub fn voice_confirm_at(store: &mut PendingStore, intent: ConfirmIntent, now: u64) -> (r: (VoiceConfirmStep, Option<PendingAction>))
    ensures
        purged(old(store)@, now).len() == 0 ==> r.0 is NothingPending && r.1 is None && final(store)@ == purged(
            old(store)@,
            now,
        ),
        purged(old(store)@, now).len() > 0 ==> (r.1 matches Some(c) && {
            let p = purged(old(store)@, now);
            &&& action_with_id(p, c.id@) == Some(c)
            &&& forall|k: int| 0 <= k < p.len() ==> (#[trigger] p[k]).action.created_at_ms <= c.created_at_ms
            &&& final(store)@ == remove_first_id(p, c.id@)
            &&& (intent == ConfirmIntent::Approve ==> (r.0 matches VoiceConfirmStep::Execute(op) && op_view(op)
                == operation_of(c)))
            &&& (intent == ConfirmIntent::Deny ==> r.0 is Rejected)
        }),
{
    broadcast use vstd::seq_lib::group_to_multiset_ensures;

    proof {
        use_type_invariant(&*store);
    }
    let ghost p = purged(old(store)@, now);
    let listed = list_pending_at(store, now);
    proof {
        use_type_invariant(&*store);
        vstd::seq_lib::to_multiset_len(listed@);
        vstd::seq_lib::to_multiset_len(actions_of(p));
        lemma_listed_actions_are_pending(p, listed@);
        lemma_purge_is_idempotent(old(store)@, now);
    }
    if listed.len() == 0 {
        return (VoiceConfirmStep::NothingPending, None);
    }
    let last = listed[listed.len() - 1].duplicate();
    proof {
        let n = listed@.len() - 1;
        assert(action_with_id(p, listed@[n].id@) == Some(listed@[n]));
        assert forall|k: int| 0 <= k < p.len() implies (#[trigger] p[k]).action.created_at_ms <= last.created_at_ms by {
            assert(actions_of(p)[k] == p[k].action);
            assert(actions_of(p).contains(p[k].action));
            vstd::seq_lib::to_multiset_contains(actions_of(p), p[k].action);
            vstd::seq_lib::to_multiset_contains(listed@, p[k].action);
            let j = choose|j: int| 0 <= j < listed@.len() && listed@[j] == p[k].action;
            assert(listed@[j].created_at_ms <= listed@[n].created_at_ms);
        }
    }
    match intent {
        ConfirmIntent::Approve => {
            let step = match take_approved_at(store, last.id.as_str(), now) {
                Ok(a) => VoiceConfirmStep::Execute(sandbox_operation(a)),
                Err(e) => VoiceConfirmStep::Failed(e),
            };
            (step, Some(last))
        },
        ConfirmIntent::Deny => {
            let _ = reject_at(store, last.id.as_str(), now);
            (VoiceConfirmStep::Rejected, Some(last))
        },
    }
}

/// `voice_confirm_at` at the clock's current time.
pub fn voice_confirm(store: &mut PendingStore, intent: ConfirmIntent) -> (r: (VoiceConfirmStep, Option<PendingAction>))
    ensures
        exists|now: u64| {
            &&& purged(old(store)@, now).len() == 0 ==> r.0 is NothingPending && r.1 is None && final(store)@
                == purged(old(store)@, now)
            &&& purged(old(store)@, now).len() > 0 ==> (r.1 matches Some(c) && {
                let p = purged(old(store)@, now);
                &&& action_with_id(p, c.id@) == Some(c)
                &&& forall|k: int| 0 <= k < p.len() ==> (#[trigger] p[k]).action.created_at_ms <= c.created_at_ms
                &&& final(store)@ == remove_first_id(p, c.id@)
                &&& (intent == ConfirmIntent::Approve ==> (r.0 matches VoiceConfirmStep::Execute(op) && op_view(op)
                    == operation_of(c)))
                &&& (intent == ConfirmIntent::Deny ==> r.0 is Rejected)
            })
        },
{
    voice_confirm_at(store, intent, crate::clock::now_ms())
}

/// The dialog a run answers within: the profile line, the session's recent
/// turns and the client's transcript (skipped when already included), each
/// on its own line, the whole trimmed.
pub open spec fn dialog_of(profile: Seq<char>, session: Seq<char>, prior: Option<Seq<char>>) -> Seq<char> {
    let a = if profile.len() == 0 { Seq::<char>::empty() } else { profile + "\n"@ };
    let b = if session.len() == 0 { a } else { a + session + "\n"@ };
    let c = match prior {
        Some(p) => if contains(b, p) { b } else { b + p + "\n"@ },
        None => b,
    };
    trim(c)
}

/// Builds the dialog context of a run.
pub fn dialog_context(profile: &str, session: &str, prior: Option<&str>) -> (r: String)
    ensures
        r@ == dialog_of(profile@, session@, match prior {
            Some(p) => Some(p@),
            None => None,
        }),
{
    let mut v: Vec<char> = Vec::new();
    let pv = chars_of(profile);
    if pv.len() > 0 {
        extend_chars(&mut v, &pv);
        extend_str(&mut v, "\n");
    }
    let sv = chars_of(session);
    if sv.len() > 0 {
        extend_chars(&mut v, &sv);
        extend_str(&mut v, "\n");
    }
    match prior {
        Some(p) => {
            if !contains_str(&v, p) {
                extend_str(&mut v, p);
                extend_str(&mut v, "\n");
            }
        },
        None => {},
    }
    string_of(&trim_chars(&v))
}

/// The memory tags of a run's turn: the class's tags, `turn`, and the
/// session when there is one.
pub fn turn_tags(class: AgentClass, session_id: Option<&str>) -> (tags: Vec<String>)
    ensures
        tags@.map_values(|t: String| t@) == seq!["agent"@, class_name(class), "turn"@] + match session_id {
            Some(s) => seq!["session:"@ + s@],
            None => Seq::<Seq<char>>::empty(),
        },
{
    let mut tags = class.memory_tags();
    tags.push("turn".to_owned());
    match session_id {
        Some(s) => {
            let mut v: Vec<char> = Vec::new();
            extend_str(&mut v, "session:");
            extend_str(&mut v, s);
            tags.push(string_of(&v));
        },
        None => {},
    }
    assert(tags@.map_values(|t: String| t@) =~= seq!["agent"@, class_name(class), "turn"@] + match session_id {
        Some(s) => seq!["session:"@ + s@],
        None => Seq::<Seq<char>>::empty(),
    });
    tags
}

/// The result of a run that answered: `needs_confirm` while an action
/// waits for approval, else `completed`, with the answer, tools, sources,
/// class and pool.
pub fn run_answer(
    task_id: String,
    text: String,
    tools: Vec<String>,
    sources: Vec<Citation>,
    pending: Option<PendingAction>,
    class: AgentClass,
    pool_id: Option<String>,
) -> (r: AgentResult)
    ensures
        r.task_id == task_id,
        r.status@ == (if pending is Some { "needs_confirm"@ } else { "completed"@ }),
        r.result == Some(text),
        r.error is None,
        r.agent_kind@ == "internal"@,
        r.tools_used == tools,
        r.model_status is None,
        r.model_code is None,
        r.sources == sources,
        r.pending == pending,
        opt_chars(r.agent_class) == Some(class_name(class)),
        r.pool_id == pool_id,
{
    let status = if pending.is_some() {
        "needs_confirm".to_owned()
    } else {
        "completed".to_owned()
    };
    AgentResult {
        task_id,
        status,
        result: Some(text),
        error: None,
        agent_kind: "internal".to_owned(),
        tools_used: tools,
        model_status: None,
        model_code: None,
        sources,
        pending,
        agent_class: Some(class.as_str().to_owned()),
        pool_id,
    }
}

} // verus!
