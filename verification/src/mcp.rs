//! The decisions of `adept mcp`, a Model Context Protocol server speaking
//! JSON-RPC 2.0 over stdio: which requests are answered and how, which tool a
//! `tools/call` names, and which tool arguments are accepted.
//!
//! Reading and writing the JSON itself is left to the caller, which hands
//! these functions what a request holds as plain values.

use vstd::prelude::*;
use crate::chars::{blank, chars_of, decimal, is_blank, push_decimal_wide, push_str};
use crate::companion::same_chars;
use crate::diagnostic::Skill;

verus! {

/// The MCP protocol revision this server implements.
pub const PROTOCOL_VERSION: &'static str = "2024-11-05";
/// The server name reported by `initialize`.
pub const SERVER_NAME: &'static str = "adept";

/// JSON-RPC: the request line is not JSON.
pub const PARSE_ERROR: i64 = -32700;
/// JSON-RPC: the request has no `method`.
pub const INVALID_REQUEST: i64 = -32600;
/// JSON-RPC: the method is not one this server has.
pub const METHOD_NOT_FOUND: i64 = -32601;
/// JSON-RPC: the parameters name no tool this server has.
pub const INVALID_PARAMS: i64 = -32602;

/// Bounds of `format_skill`'s `line_width`.
pub const MIN_LINE_WIDTH: u64 = 20;
pub const MAX_LINE_WIDTH: u64 = 500;
/// Bounds of `create_skill`'s `max_rounds`.
pub const MIN_MAX_ROUNDS: u64 = 1;
pub const MAX_MAX_ROUNDS: u64 = 10;
/// Bounds of `eval_cases` for `create_skill` and `generate_evals`.
pub const MIN_EVAL_CASES: u64 = 1;
pub const MAX_EVAL_CASES: u64 = 50;
/// How many eval cases `generate_evals` asks for when `eval_cases` is absent.
pub const DEFAULT_GENERATE_EVALS_CASES: usize = 10;

/// The methods this server answers.
#[derive(Clone, Copy, Debug, PartialEq, Eq, Structural)]
pub enum Method {
    Initialize,
    ToolsList,
    ToolsCall,
}

/// What to do with one request.
#[derive(Clone, Debug)]
pub enum Plan {
    /// Nothing: a notification that needs no work and gets no reply.
    Ignore,
    /// Reply with this JSON-RPC error.
    Reject { code: i64, message: String },
    /// Run the method; reply with its result only when `reply` (a request
    /// without an `id` is a notification, and gets none).
    Run { method: Method, reply: bool },
}

/// The method named `m`, if this server has it.
pub open spec fn known_method(m: Seq<char>) -> Option<Method> {
    if m == "initialize"@ {
        Some(Method::Initialize)
    } else if m == "tools/list"@ {
        Some(Method::ToolsList)
    } else if m == "tools/call"@ {
        Some(Method::ToolsCall)
    } else {
        None
    }
}

/// The one notification the server accepts and ignores.
pub open spec fn initialized_note(m: Seq<char>) -> bool {
    m == "notifications/initialized"@
}

fn text_is(s: &str, lit: &str) -> (r: bool)
    ensures
        r == (s@ == lit@),
{
    let a = chars_of(s);
    let b = chars_of(lit);
    same_chars(&a, &b)
}

/// What `plan` answers a request with an `id` (`has_id`) and a string
/// `method` (when it has one): a notification that needs no work, or has
/// no `id`, is ignored; a missing `method` is an invalid request; a method
/// the server has is run, with a reply only when there is an `id`; any
/// other method is not found.
pub open spec fn planned(has_id: bool, method: Option<Seq<char>>, r: Plan) -> bool {
    match method {
        None => if has_id {
            r matches Plan::Reject { code, message } && code == INVALID_REQUEST && message@
                == "invalid request: missing `method`"@
        } else {
            r is Ignore
        },
        Some(m) => if initialized_note(m) {
            r is Ignore
        } else if known_method(m) is Some {
            r matches Plan::Run { method: k, reply } && Some(k) == known_method(m) && reply
                == has_id
        } else if has_id {
            r matches Plan::Reject { code, message } && code == METHOD_NOT_FOUND && message@
                == "method not found: "@ + m
        } else {
            r is Ignore
        },
    }
}

/// `method`, each string taken by its characters.
pub open spec fn method_view(method: Option<&str>) -> Option<Seq<char>> {
    match method {
        Some(m) => Some(m@),
        None => None,
    }
}

/// Decides what to do with a request that has an `id` (`has_id`) and a
/// string `method`, if it has one.
pub fn plan(has_id: bool, method: Option<&str>) -> (r: Plan)
    ensures
        planned(has_id, method_view(method), r),
{
    match method {
        None => {
            if has_id {
                Plan::Reject {
                    code: INVALID_REQUEST,
                    message: String::from_str("invalid request: missing `method`"),
                }
            } else {
                Plan::Ignore
            }
        },
        Some(m) => {
            if text_is(m, "notifications/initialized") {
                Plan::Ignore
            } else if text_is(m, "initialize") {
                Plan::Run { method: Method::Initialize, reply: has_id }
            } else if text_is(m, "tools/list") {
                Plan::Run { method: Method::ToolsList, reply: has_id }
            } else if text_is(m, "tools/call") {
                Plan::Run { method: Method::ToolsCall, reply: has_id }
            } else if has_id {
                let mut message = String::from_str("method not found: ");
                push_str(&mut message, m);
                Plan::Reject { code: METHOD_NOT_FOUND, message }
            } else {
                Plan::Ignore
            }
        },
    }
}

/// What parsing one request line as JSON gives: whether the value has an
/// `id` member and its `method` member when that is a string; or, when the
/// line is not JSON, the parser's error message.
pub uninterp spec fn request_head(line: Seq<char>) -> Result<(bool, Option<Seq<char>>), Seq<char>>;

pub open spec fn head_view(r: Result<(bool, Option<String>), String>) -> Result<
    (bool, Option<Seq<char>>),
    Seq<char>,
> {
    match r {
        Ok((has_id, Some(m))) => Ok((has_id, Some(m@))),
        Ok((has_id, None)) => Ok((has_id, None)),
        Err(e) => Err(e@),
    }
}

/// Parses `line` with `serde_json::from_str::<serde_json::Value>`. On
/// success it reports whether `Value::get("id")` finds a member and what
/// `Value::as_str` gives for the `method` member; on failure, the error as
/// its `Display` renders it. The result is named.
#[verifier::external_body]
fn parse_request_head(line: &str) -> (r: Result<(bool, Option<String>), String>)
    ensures
        head_view(r) == request_head(line@),
{
    match serde_json::from_str::<serde_json::Value>(line) {
        Ok(v) => Ok((v.get("id").is_some(), v.get("method").and_then(serde_json::Value::as_str).map(String::from))),
        Err(e) => Err(e.to_string()),
    }
}

/// Decides what to do with one raw request line: a line that is not JSON
/// is rejected with a parse error (answered with a null `id`, since none
/// could be read); any other line as [`plan`] decides from its `id` and
/// `method`.
pub fn plan_line(line: &str) -> (r: Plan)
    ensures
        match request_head(line@) {
            Err(m) => r matches Plan::Reject { code, message } && code == PARSE_ERROR && message@
                == "parse error: "@ + m,
            Ok((has_id, method)) => planned(has_id, method, r),
        },
{
    match parse_request_head(line) {
        Err(m) => {
            let mut message = String::from_str("parse error: ");
            push_str(&mut message, m.as_str());
            Plan::Reject { code: PARSE_ERROR, message }
        },
        Ok((has_id, method)) => {
            match method {
                Some(m) => plan(has_id, Some(m.as_str())),
                None => plan(has_id, None),
            }
        },
    }
}

/// The tools this server offers.
#[derive(Clone, Copy, Debug, PartialEq, Eq, Structural)]
pub enum Tool {
    CheckSkill,
    FormatSkill,
    ScoreSkill,
    CreateSkill,
    GenerateEvals,
}

/// The tool named `name`, if this server has it.
pub open spec fn known_tool(name: Seq<char>) -> Option<Tool> {
    if name == "check_skill"@ {
        Some(Tool::CheckSkill)
    } else if name == "format_skill"@ {
        Some(Tool::FormatSkill)
    } else if name == "score_skill"@ {
        Some(Tool::ScoreSkill)
    } else if name == "create_skill"@ {
        Some(Tool::CreateSkill)
    } else if name == "generate_evals"@ {
        Some(Tool::GenerateEvals)
    } else {
        None
    }
}

/// The tools `tools/list` advertises, in order: the linter and the
/// formatter always, and the three model-backed tools only when a model
/// backend is configured.
pub fn advertised_tools(llm_configured: bool) -> (r: Vec<Tool>)
    ensures
        r@ == if llm_configured {
            seq![Tool::CheckSkill, Tool::FormatSkill, Tool::ScoreSkill, Tool::CreateSkill, Tool::GenerateEvals]
        } else {
            seq![Tool::CheckSkill, Tool::FormatSkill]
        },
{
    let mut tools = vec![Tool::CheckSkill, Tool::FormatSkill];
    if llm_configured {
        tools.push(Tool::ScoreSkill);
        tools.push(Tool::CreateSkill);
        tools.push(Tool::GenerateEvals);
    }
    tools
}

/// The tool a `tools/call` names (its `name` parameter, when that is a
/// string), or the JSON-RPC error to answer with.
pub fn tool_named(name: Option<&str>) -> (r: Result<Tool, (i64, String)>)
    ensures
        name is None ==> (r matches Err((code, message)) && code == INVALID_PARAMS && message@
            == "missing `name`"@),
        forall|n: &str|
            name == Some(n) ==> match known_tool(n@) {
                Some(t) => r == Ok::<Tool, (i64, String)>(t),
                None => r matches Err((code, message)) && code == INVALID_PARAMS && message@
                    == "unknown tool: "@ + n@,
            },
{
    match name {
        None => Err((INVALID_PARAMS, String::from_str("missing `name`"))),
        Some(n) => {
            if text_is(n, "check_skill") {
                Ok(Tool::CheckSkill)
            } else if text_is(n, "format_skill") {
                Ok(Tool::FormatSkill)
            } else if text_is(n, "score_skill") {
                Ok(Tool::ScoreSkill)
            } else if text_is(n, "create_skill") {
                Ok(Tool::CreateSkill)
            } else if text_is(n, "generate_evals") {
                Ok(Tool::GenerateEvals)
            } else {
                let mut message = String::from_str("unknown tool: ");
                push_str(&mut message, n);
                Err((INVALID_PARAMS, message))
            }
        },
    }
}

/// What a tool argument holds, as far as a numeric check reads it.
#[derive(Clone, Copy, Debug, PartialEq, Eq, Structural)]
pub enum NumberArgument {
    /// The argument is not given.
    Absent,
    /// A JSON number that is a non-negative integer fitting in `u64`.
    Unsigned(u64),
    /// Any other JSON value.
    Other,
}

/// The message for a numeric argument outside its bounds.
pub open spec fn bounds_message(name: Seq<char>, min: nat, max: nat) -> Seq<char> {
    "invalid `"@ + name + "`: must be an integer between "@ + decimal(min) + " and "@ + decimal(
        max,
    )
}

/// Checks a bounded numeric tool argument: absent gives `Ok(None)` (the
/// caller's default applies), an integer within `min..=max` gives it, and
/// anything else is refused with [`bounds_message`].
pub fn bounded_argument(value: NumberArgument, name: &str, min: u64, max: u64) -> (r: Result<
    Option<u64>,
    String,
>)
    ensures
        match value {
            NumberArgument::Absent => r == Ok::<Option<u64>, String>(None),
            NumberArgument::Unsigned(n) if min <= n <= max => r == Ok::<Option<u64>, String>(
                Some(n),
            ),
            _ => r matches Err(message) && message@ == bounds_message(name@, min as nat, max as nat),
        },
{
    match value {
        NumberArgument::Absent => Ok(None),
        NumberArgument::Unsigned(n) if min <= n && n <= max => Ok(Some(n)),
        _ => {
            let mut message = String::from_str("invalid `");
            push_str(&mut message, name);
            push_str(&mut message, "`: must be an integer between ");
            push_decimal_wide(&mut message, min as u128);
            push_str(&mut message, " and ");
            push_decimal_wide(&mut message, max as u128);
            Err(message)
        },
    }
}

/// The `brief` argument of `create_skill` and `generate_evals`: a string
/// with something other than whitespace in it.
pub fn brief_argument(brief: Option<&str>) -> (r: Result<String, String>)
    ensures
        match brief {
            Some(b) if !is_blank(b@) => r matches Ok(s) && s@ == b@,
            _ => r matches Err(message) && message@ == "missing or empty `brief`"@,
        },
{
    match brief {
        Some(b) => {
            let cs = chars_of(b);
            if !blank(&cs) {
                return Ok(String::from_str(b));
            }
        },
        None => {},
    }
    Err(String::from_str("missing or empty `brief`"))
}

/// Where a tool's SKILL.md source comes from.
#[derive(Clone, Debug)]
pub enum Source {
    /// The `content` argument, with the path to attribute it to: the `path`
    /// argument, else `SKILL.md`.
    Inline { content: String, path: String },
    /// The file at the `path` argument.
    File(String),
}

/// Picks the source from the string arguments `content` and `path`:
/// `content` wins; else the file at `path`; with neither, the error message.
pub fn choose_source(content: Option<&str>, path: Option<&str>) -> (r: Result<Source, String>)
    ensures
        match (content, path) {
            (Some(c), Some(p)) => r matches Ok(Source::Inline { content, path }) && content@ == c@
                && path@ == p@,
            (Some(c), None) => r matches Ok(Source::Inline { content, path }) && content@ == c@
                && path@ == "SKILL.md"@,
            (None, Some(p)) => r matches Ok(Source::File(f)) && f@ == p@,
            (None, None) => r matches Err(message) && message@
                == "must provide either `path` or `content`"@,
        },
{
    match content {
        Some(c) => {
            let path = match path {
                Some(p) => String::from_str(p),
                None => String::from_str("SKILL.md"),
            };
            Ok(Source::Inline { content: String::from_str(c), path })
        },
        None => match path {
            Some(p) => Ok(Source::File(String::from_str(p))),
            None => Err(String::from_str("must provide either `path` or `content`")),
        },
    }
}

/// The names of `skills`, as character sequences.
pub open spec fn skill_names(skills: Seq<Skill>) -> Seq<Seq<char>> {
    skills.map_values(|s: Skill| s.frontmatter.name@)
}

/// The skills `score_skill` compares the target against: those discovered
/// around it, with the target appended when none of them has its name.
pub fn include_target(skills: Vec<Skill>, target: Skill) -> (r: Vec<Skill>)
    ensures
        skill_names(skills@).contains(target.frontmatter.name@) ==> r@ == skills@,
        !skill_names(skills@).contains(target.frontmatter.name@) ==> r@ == skills@.push(target),
{
    let name = chars_of(target.frontmatter.name.as_str());
    let mut i: usize = 0;
    while i < skills.len()
        invariant
            i <= skills.len(),
            name@ == target.frontmatter.name@,
            forall|j: int| 0 <= j < i ==> skills@[j].frontmatter.name@ != name@,
        decreases skills.len() - i,
    {
        let other = chars_of(skills[i].frontmatter.name.as_str());
        if same_chars(&other, &name) {
            proof {
                assert(skill_names(skills@)[i as int] == target.frontmatter.name@);
            }
            return skills;
        }
        i += 1;
    }
    proof {
        assert forall|j: int| 0 <= j < skills@.len() implies skill_names(skills@)[j]
            != target.frontmatter.name@ by {}
    }
    let mut out = skills;
    out.push(target);
    out
}

} // verus!
