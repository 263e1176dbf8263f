//! What a remote model is told, and how its reply is read back.
use vstd::prelude::*;
use vstd::string::{StringExecFns, StrSliceExecFns};
use crate::action::AiAction;
use crate::text::chars_of;

verus! {

/// Failures of the AI layer.
#[derive(Debug, Clone, PartialEq)]
pub enum AiError {
    Parse(String),
    NoMatch,
    Unavailable(String),
    Provider(String),
}

pub enum AiErrorModel {
    Parse(Seq<char>),
    NoMatch,
    Unavailable(Seq<char>),
    Provider(Seq<char>),
}

impl View for AiError {
    type V = AiErrorModel;

    open spec fn view(&self) -> AiErrorModel {
        match self {
            AiError::Parse(m) => AiErrorModel::Parse(m@),
            AiError::NoMatch => AiErrorModel::NoMatch,
            AiError::Unavailable(m) => AiErrorModel::Unavailable(m@),
            AiError::Provider(m) => AiErrorModel::Provider(m@),
        }
    }
}

/// The text shown for an error.
pub open spec fn ai_error_text(e: AiErrorModel) -> Seq<char> {
    match e {
        AiErrorModel::Parse(m) => "could not parse model output: "@ + m,
        AiErrorModel::NoMatch => "no interpretation found for input"@,
        AiErrorModel::Unavailable(m) => "provider unavailable: "@ + m,
        AiErrorModel::Provider(m) => "provider error: "@ + m,
    }
}

impl AiError {
    /// The text shown for this error.
    pub fn message(&self) -> (r: String)
        ensures
            r@ == ai_error_text(self@),
    {
        match self {
            AiError::Parse(m) => {
                let mut s = String::from_str("could not parse model output: ");
                s.append(m.as_str());
                s
            },
            AiError::NoMatch => String::from_str("no interpretation found for input"),
            AiError::Unavailable(m) => {
                let mut s = String::from_str("provider unavailable: ");
                s.append(m.as_str());
                s
            },
            AiError::Provider(m) => {
                let mut s = String::from_str("provider error: ");
                s.append(m.as_str());
                s
            },
        }
    }
}

/// What the model needs to know to interpret a command. Deliberately
/// minimal: only names relevant to the request go out, never the database.
#[derive(Debug, Clone)]
pub struct CommandContext {
    pub instruction: String,
    /// Local date, `YYYY-MM-DD`.
    pub today: String,
    /// Titles of the user's goals.
    pub goal_names: Vec<String>,
    /// Titles of the open tasks.
    pub task_names: Vec<String>,
}

/// A model's answer.
#[derive(Debug, Clone)]
pub struct ProviderResponse {
    pub action: AiAction,
    pub raw: String,
    pub model: String,
    pub latency_ms: u64,
}

pub const PROMPT_INTRO: &'static str = "You convert a user's request into exactly one JSON action for a personal planner.\n\nToday is ";

pub const PROMPT_GOALS: &'static str = ".\n\nThe user's goals: ";

pub const PROMPT_TASKS: &'static str = "\nThe user's open tasks: ";

pub const PROMPT_RULES: &'static str = "\n\nRespond with ONE JSON object and nothing else. No prose, no markdown fences.\n\nAllowed actions:\n\n{\"action\":\"CREATE_TASK\",\"title\":\"...\",\"goal_ref\":null,\"due_date\":null,\"scheduled_date\":null,\"estimated_minutes\":null,\"priority\":null}\n{\"action\":\"COMPLETE_TASK\",\"task_ref\":\"...\"}\n{\"action\":\"RESCHEDULE_TASK\",\"task_ref\":\"...\",\"scheduled_date\":\"YYYY-MM-DD\"}\n{\"action\":\"CREATE_GOAL\",\"title\":\"...\",\"target_date\":null,\"priority\":null}\n{\"action\":\"LOG_WORK\",\"activity\":\"...\",\"duration_minutes\":null,\"goal_ref\":null,\"log_date\":null}\n{\"action\":\"SET_AVAILABILITY\",\"date\":\"YYYY-MM-DD\",\"start_minute\":0,\"end_minute\":0,\"is_available\":false}\n{\"action\":\"QUERY_PROGRESS\",\"goal_ref\":null}\n{\"action\":\"CREATE_INBOX_ITEM\",\"raw_text\":\"...\"}\n{\"action\":\"NEEDS_CLARIFICATION\",\"question\":\"...\",\"candidates\":[]}\n\nRules:\n- goal_ref and task_ref are NAMES copied from the lists above. Never invent an ID.\n- Dates are YYYY-MM-DD. Resolve relative dates against today.\n- priority is one of LOW, MEDIUM, HIGH, CRITICAL, or null.\n- Times are minutes from midnight (9am = 540, 5pm = 1020).\n- If the request is too vague to act on, use CREATE_INBOX_ITEM.\n- If it is clear but the reference is ambiguous, use NEEDS_CLARIFICATION.\n- Never guess a duration, deadline, or goal the user did not state.\n- Include only the fields shown. Do not add extra fields.";

/// `names` joined with ", ".
pub open spec fn joined(names: Seq<Seq<char>>) -> Seq<char>
    decreases names.len(),
{
    if names.len() == 0 {
        seq![]
    } else if names.len() == 1 {
        names[0]
    } else {
        joined(names.drop_last()) + ", "@ + names.last()
    }
}

/// A list of names as the prompt shows it: joined with ", ", or "(none)".
pub open spec fn name_list(names: Seq<Seq<char>>) -> Seq<char> {
    if names.len() == 0 {
        "(none)"@
    } else {
        joined(names)
    }
}

pub open spec fn texts(v: Seq<String>) -> Seq<Seq<char>> {
    v.map_values(|s: String| s@)
}

/// The system prompt for a context.
pub open spec fn prompt_text(today: Seq<char>, goals: Seq<Seq<char>>, tasks: Seq<Seq<char>>) -> Seq<char> {
    PROMPT_INTRO@ + today + PROMPT_GOALS@ + name_list(goals) + PROMPT_TASKS@ + name_list(tasks)
        + PROMPT_RULES@
}

/// Appends the names, joined as the prompt shows them.
fn push_name_list(s: &mut String, names: &Vec<String>)
    ensures
        final(s)@ == old(s)@ + name_list(texts(names@)),
{
    if names.len() == 0 {
        s.append("(none)");
        return;
    }
    let ghost start = s@;
    s.append(names[0].as_str());
    let mut i: usize = 1;
    assert(texts(names@).take(1) =~= seq![names@[0]@]);
    while i < names.len()
        invariant
            1 <= i <= names.len(),
            s@ == start + joined(texts(names@).take(i as int)),
        decreases names.len() - i,
    {
        s.append(", ");
        s.append(names[i].as_str());
        let ghost t = texts(names@).take(i + 1);
        assert(t.drop_last() =~= texts(names@).take(i as int));
        assert(t.last() == names@[i as int]@);
        assert(s@ =~= start + joined(t));
        i = i + 1;
    }
    assert(texts(names@).take(i as int) =~= texts(names@));
}

/// Builds the system prompt: today's date, the goal and open task names,
/// the allowed actions and the rules.
pub fn system_prompt(ctx: &CommandContext) -> (r: String)
    ensures
        r@ == prompt_text(ctx.today@, texts(ctx.goal_names@), texts(ctx.task_names@)),
{
    let mut s = String::from_str(PROMPT_INTRO);
    s.append(ctx.today.as_str());
    s.append(PROMPT_GOALS);
    push_name_list(&mut s, &ctx.goal_names);
    s.append(PROMPT_TASKS);
    push_name_list(&mut s, &ctx.task_names);
    s.append(PROMPT_RULES);
    s
}

// ---------- reading a reply ----------

/// Position of the first `c` in `t` at or after `i`.
pub open spec fn first_from(t: Seq<char>, c: char, i: int) -> Option<int>
    decreases t.len() - i,
{
    if i < 0 || i >= t.len() {
        None
    } else if t[i] == c {
        Some(i)
    } else {
        first_from(t, c, i + 1)
    }
}

/// Where the object opened before position `i` closes: the scan reads one
/// char at a time, skipping the char after a backslash inside a string,
/// toggling "inside a string" at each quote, and counting braces outside
/// strings; it stops at the brace that brings the depth back to zero.
pub open spec fn close_from(t: Seq<char>, i: int, depth: int, in_string: bool, escaped: bool) -> Option<int>
    decreases t.len() - i,
{
    if i < 0 || i >= t.len() {
        None
    } else if escaped {
        close_from(t, i + 1, depth, in_string, false)
    } else if t[i] == '\\' && in_string {
        close_from(t, i + 1, depth, in_string, true)
    } else if t[i] == '"' {
        close_from(t, i + 1, depth, !in_string, false)
    } else if t[i] == '{' && !in_string {
        close_from(t, i + 1, depth + 1, in_string, false)
    } else if t[i] == '}' && !in_string {
        if depth - 1 == 0 {
            Some(i)
        } else {
            close_from(t, i + 1, depth - 1, in_string, false)
        }
    } else {
        close_from(t, i + 1, depth, in_string, false)
    }
}

/// The first balanced JSON object in a reply, or the reason there is none.
pub open spec fn extract_spec(raw: Seq<char>) -> Result<Seq<char>, AiErrorModel> {
    match first_from(raw, '{', 0) {
        None => Err(AiErrorModel::Parse("no JSON object in response"@)),
        Some(start) => match close_from(raw, start, 0, false, false) {
            Some(end) => Ok(raw.subrange(start, end + 1)),
            None => Err(AiErrorModel::Parse("unbalanced JSON in response"@)),
        },
    }
}

proof fn lemma_close_from(t: Seq<char>, i: int, depth: int, in_string: bool, escaped: bool)
    ensures
        close_from(t, i, depth, in_string, escaped) matches Some(e) ==> i <= e < t.len() && t[e]
            == '}',
    decreases t.len() - i,
{
    if 0 <= i < t.len() {
        lemma_close_from(t, i + 1, depth, in_string, false);
        lemma_close_from(t, i + 1, depth, in_string, true);
        lemma_close_from(t, i + 1, depth, !in_string, false);
        lemma_close_from(t, i + 1, depth + 1, in_string, false);
        lemma_close_from(t, i + 1, depth - 1, in_string, false);
    }
}

proof fn lemma_first_from(t: Seq<char>, c: char, i: int)
    ensures
        first_from(t, c, i) matches Some(k) ==> 0 <= i <= k < t.len() && t[k] == c,
    decreases t.len() - i,
{
    if 0 <= i < t.len() && t[i] != c {
        lemma_first_from(t, c, i + 1);
    }
}

/// Models often wrap JSON in markdown fences or add a sentence: this takes
/// the first balanced JSON object out of the reply. What it returns starts
/// with `{` and ends with `}`.
pub fn extract_json(raw: &str) -> (r: Result<&str, AiError>)
    ensures
        match r {
            Ok(s) => extract_spec(raw@) == Ok::<Seq<char>, AiErrorModel>(s@) && s@.len() >= 2
                && s@[0] == '{' && s@.last() == '}',
            Err(e) => extract_spec(raw@) == Err::<Seq<char>, AiErrorModel>(e@),
        },
{
    let v = chars_of(raw);
    let mut k: usize = 0;
    while k < v.len() && v[k] != '{'
        invariant
            v@ == raw@,
            k <= v.len(),
            first_from(v@, '{', 0) == first_from(v@, '{', k as int),
        decreases v.len() - k,
    {
        k = k + 1;
    }
    if k == v.len() {
        return Err(AiError::Parse(String::from_str("no JSON object in response")));
    }
    let start = k;
    proof { lemma_close_from(v@, start as int, 0, false, false); }
    let mut depth: usize = 0;
    let mut in_string = false;
    let mut escaped = false;
    let mut i = start;
    while i < v.len()
        invariant
            v@ == raw@,
            start <= i <= v.len(),
            start < v.len(),
            v@[start as int] == '{',
            first_from(v@, '{', 0) == Some(start as int),
            i == start ==> depth == 0 && !in_string && !escaped,
            i > start ==> depth >= 1,
            depth <= i - start,
            close_from(v@, start as int, 0, false, false) == close_from(
                v@,
                i as int,
                depth as int,
                in_string,
                escaped,
            ),
        decreases v.len() - i,
    {
        let ch = v[i];
        if escaped {
            escaped = false;
        } else if ch == '\\' && in_string {
            escaped = true;
        } else if ch == '"' {
            in_string = !in_string;
        } else if ch == '{' && !in_string {
            depth = depth + 1;
        } else if ch == '}' && !in_string {
            if depth == 1 {
                proof { lemma_close_from(v@, start as int, 0, false, false); }
                let s = raw.substring_char(start, i + 1);
                assert(s@.len() >= 2);
                assert(s@[0] == v@[start as int]);
                return Ok(s);
            }
            depth = depth - 1;
        }
        i = i + 1;
    }
    Err(AiError::Parse(String::from_str("unbalanced JSON in response")))
}

// ---------- a provider's reply ----------

/// Token counts a provider may report.
#[derive(Debug, Clone, Copy, PartialEq, Eq, Structural)]
pub struct Usage {
    pub prompt_tokens: u32,
    pub completion_tokens: u32,
    pub total_tokens: u32,
}

/// A request that did not get through: a failure to connect or a timeout
/// means the provider is unavailable; anything else is a provider error.
pub fn transport_error(connect_or_timeout: bool, message: String) -> (r: AiError)
    ensures
        connect_or_timeout ==> r@ == AiErrorModel::Unavailable(message@),
        !connect_or_timeout ==> r@ == AiErrorModel::Provider(message@),
{
    if connect_or_timeout {
        AiError::Unavailable(message)
    } else {
        AiError::Provider(message)
    }
}

/// A reply with a failing HTTP status: "HTTP STATUS: BODY".
pub fn http_error(status: &str, body: &str) -> (r: AiError)
    ensures
        r@ == AiErrorModel::Provider("HTTP "@ + status@ + ": "@ + body@),
{
    let mut m = String::from_str("HTTP ");
    m.append(status);
    m.append(": ");
    m.append(body);
    AiError::Provider(m)
}

/// A reply body that is not the expected shape.
pub fn malformed_response(message: &str) -> (r: AiError)
    ensures
        r@ == AiErrorModel::Provider("malformed response: "@ + message@),
{
    let mut m = String::from_str("malformed response: ");
    m.append(message);
    AiError::Provider(m)
}

/// The text of the first choice of a reply, or that there was none.
pub fn first_choice(contents: &[String]) -> (r: Result<String, AiError>)
    ensures
        contents@.len() > 0 ==> (r matches Ok(c) && c@ == contents@[0]@),
        contents@.len() == 0 ==> (r matches Err(e) && e@ == AiErrorModel::Provider(
            "no choices in response"@,
        )),
{
    if contents.len() == 0 {
        Err(AiError::Provider(String::from_str("no choices in response")))
    } else {
        Ok(contents[0].clone())
    }
}

/// An action that does not parse: the parser's message and the raw reply.
pub fn action_parse_error(message: &str, raw: &str) -> (r: AiError)
    ensures
        r@ == AiErrorModel::Parse(message@ + "; raw was: "@ + raw@),
{
    let mut m = String::from_str(message);
    m.append("; raw was: ");
    m.append(raw);
    AiError::Parse(m)
}

} // verus!
