//! Input validation shared by the commands, and the errors they report.
use vstd::prelude::*;
use vstd::std_specs::convert::FromSpecImpl;
use vstd::string::StringExecFns;
use crate::num::{decimal, push_decimal};
use crate::parser::is_iso_date;
use crate::text::{chars_of, seq_lt, str_lt, trim, trim_string, trimmed_chars, string_from};

verus! {

pub const MAX_TITLE_LEN: usize = 200;

pub const MAX_DESCRIPTION_LEN: usize = 5000;

/// What a command can fail with.
#[derive(Debug, Clone, PartialEq)]
pub enum CommandError {
    Validation(String),
    NotFound(String),
    /// A storage failure, with its message.
    Storage(String),
}

pub enum CommandErrorModel {
    Validation(Seq<char>),
    NotFound(Seq<char>),
    Storage(Seq<char>),
}

impl View for CommandError {
    type V = CommandErrorModel;

    open spec fn view(&self) -> CommandErrorModel {
        match self {
            CommandError::Validation(m) => CommandErrorModel::Validation(m@),
            CommandError::NotFound(m) => CommandErrorModel::NotFound(m@),
            CommandError::Storage(m) => CommandErrorModel::Storage(m@),
        }
    }
}

/// The text shown for an error.
pub open spec fn command_error_text(e: CommandErrorModel) -> Seq<char> {
    match e {
        CommandErrorModel::Validation(m) => "validation failed: "@ + m,
        CommandErrorModel::NotFound(m) => "not found: "@ + m,
        CommandErrorModel::Storage(m) => "storage error: "@ + m,
    }
}

/// The wire kind of an error.
pub open spec fn command_error_kind(e: CommandErrorModel) -> Seq<char> {
    match e {
        CommandErrorModel::Validation(_) => "VALIDATION"@,
        CommandErrorModel::NotFound(_) => "NOT_FOUND"@,
        CommandErrorModel::Storage(_) => "STORAGE"@,
    }
}

impl CommandError {
    /// The text shown for this error.
    pub fn message(&self) -> (r: String)
        ensures
            r@ == command_error_text(self@),
    {
        match self {
            CommandError::Validation(m) => {
                let mut s = String::from_str("validation failed: ");
                s.append(m.as_str());
                s
            },
            CommandError::NotFound(m) => {
                let mut s = String::from_str("not found: ");
                s.append(m.as_str());
                s
            },
            CommandError::Storage(m) => {
                let mut s = String::from_str("storage error: ");
                s.append(m.as_str());
                s
            },
        }
    }
}

/// Wire format for errors crossing into the frontend.
#[derive(Debug, Clone)]
pub struct ErrorPayload {
    pub kind: String,
    pub message: String,
}

/// The payload of an error, as `error_payload` builds it.
impl From<CommandError> for ErrorPayload {
    fn from(e: CommandError) -> (r: ErrorPayload) {
        error_payload(e)
    }
}

/// The payload of an error, as its kind and its text. (Strings have no
/// spec constructor, so `From` states its result through `error_payload`.)
pub open spec fn payload_of(e: CommandError) -> (Seq<char>, Seq<char>) {
    (command_error_kind(e@), command_error_text(e@))
}

impl FromSpecImpl<CommandError> for ErrorPayload {
    open spec fn obeys_from_spec() -> bool {
        false
    }

    open spec fn from_spec(v: CommandError) -> ErrorPayload {
        arbitrary()
    }
}

/// The payload of an error: its kind and its text.
pub fn error_payload(e: CommandError) -> (r: ErrorPayload)
    ensures
        (r.kind@, r.message@) == payload_of(e),
{
    let kind = match &e {
        CommandError::Validation(_) => String::from_str("VALIDATION"),
        CommandError::NotFound(_) => String::from_str("NOT_FOUND"),
        CommandError::Storage(_) => String::from_str("STORAGE"),
    };
    ErrorPayload { kind, message: e.message() }
}

// ---------- field checks ----------

/// Why a title is refused, if it is: empty after trimming, or longer than
/// `MAX_TITLE_LEN` chars.
pub open spec fn title_error(v: Seq<char>) -> Option<Seq<char>> {
    if trim(v).len() == 0 {
        Some("title cannot be empty"@)
    } else if trim(v).len() > MAX_TITLE_LEN {
        Some("title cannot exceed "@ + decimal(MAX_TITLE_LEN as nat) + " characters"@)
    } else {
        None
    }
}

/// Why a description is refused, if it is: longer than
/// `MAX_DESCRIPTION_LEN` chars after trimming.
pub open spec fn description_error(v: Option<Seq<char>>) -> Option<Seq<char>> {
    match v {
        Some(d) => if trim(d).len() > MAX_DESCRIPTION_LEN {
            Some("description cannot exceed "@ + decimal(MAX_DESCRIPTION_LEN as nat) + " characters"@)
        } else {
            None
        },
        None => None,
    }
}

/// A description as stored: trimmed, and None when blank.
pub open spec fn description_value(v: Option<Seq<char>>) -> Option<Seq<char>> {
    match v {
        Some(d) => if trim(d).len() == 0 {
            None
        } else {
            Some(trim(d))
        },
        None => None,
    }
}

/// Why an optional date is refused, if it is: not blank and not
/// `YYYY-MM-DD` after trimming.
pub open spec fn date_error(v: Option<Seq<char>>, field: Seq<char>) -> Option<Seq<char>> {
    match v {
        Some(d) => if trim(d).len() != 0 && !is_iso_date(trim(d)) {
            Some(field + " must be in YYYY-MM-DD format"@)
        } else {
            None
        },
        None => None,
    }
}

/// An optional date as stored: trimmed, and None when blank.
pub open spec fn date_value(v: Option<Seq<char>>) -> Option<Seq<char>> {
    description_value(v)
}

pub open spec fn opt_view(o: Option<String>) -> Option<Seq<char>> {
    match o {
        Some(s) => Some(s@),
        None => None,
    }
}

/// A validation error with message `m`.
pub open spec fn invalid(m: Seq<char>) -> CommandErrorModel {
    CommandErrorModel::Validation(m)
}

fn validation(m: &str) -> (r: CommandError)
    ensures
        r@ == invalid(m@),
{
    CommandError::Validation(String::from_str(m))
}

/// The trimmed title, or why it is refused.
pub fn title(value: &str) -> (r: Result<String, CommandError>)
    ensures
        match title_error(value@) {
            Some(m) => r matches Err(e) && e@ == invalid(m),
            None => r matches Ok(t) && t@ == trim(value@),
        },
        r matches Ok(t) ==> 0 < t@.len() <= MAX_TITLE_LEN,
{
    let v = trimmed_chars(value);
    if v.len() == 0 {
        return Err(validation("title cannot be empty"));
    }
    if v.len() > MAX_TITLE_LEN {
        let mut m = String::from_str("title cannot exceed ");
        push_decimal(&mut m, MAX_TITLE_LEN as u64);
        m.append(" characters");
        return Err(CommandError::Validation(m));
    }
    Ok(string_from(&v))
}

/// The trimmed description (None when blank), or why it is refused.
pub fn optional_description(value: Option<String>) -> (r: Result<Option<String>, CommandError>)
    ensures
        match description_error(opt_view(value)) {
            Some(m) => r matches Err(e) && e@ == invalid(m),
            None => r matches Ok(d) && opt_view(d) == description_value(opt_view(value)),
        },
{
    match value {
        None => Ok(None),
        Some(v) => {
            let t = trimmed_chars(v.as_str());
            if t.len() == 0 {
                return Ok(None);
            }
            if t.len() > MAX_DESCRIPTION_LEN {
                let mut m = String::from_str("description cannot exceed ");
                push_decimal(&mut m, MAX_DESCRIPTION_LEN as u64);
                m.append(" characters");
                return Err(CommandError::Validation(m));
            }
            Ok(Some(string_from(&t)))
        },
    }
}

fn iso_date_chars(v: &Vec<char>) -> (r: bool)
    ensures
        r == is_iso_date(v@),
{
    if v.len() != 10 {
        return false;
    }
    let mut i: usize = 0;
    while i < 10
        invariant
            v.len() == 10,
            i <= 10,
            forall|k: int|
                0 <= k < i ==> if k == 4 || k == 7 {
                    #[trigger] v@[k] == '-'
                } else {
                    crate::text::is_ascii_digit(v@[k])
                },
        decreases 10 - i,
    {
        let c = v[i];
        if i == 4 || i == 7 {
            if c != '-' {
                return false;
            }
        } else if !('0' <= c && c <= '9') {
            return false;
        }
        i = i + 1;
    }
    true
}

/// The trimmed date (None when blank), or why it is refused. Expects
/// `YYYY-MM-DD`, a local calendar date; `field` names it in the message.
pub fn optional_date(value: Option<String>, field: &str) -> (r: Result<Option<String>, CommandError>)
    ensures
        match date_error(opt_view(value), field@) {
            Some(m) => r matches Err(e) && e@ == invalid(m),
            None => r matches Ok(d) && opt_view(d) == date_value(opt_view(value)),
        },
{
    match value {
        None => Ok(None),
        Some(v) => {
            let t = trimmed_chars(v.as_str());
            if t.len() == 0 {
                return Ok(None);
            }
            if !iso_date_chars(&t) {
                let mut m = String::from_str(field);
                m.append(" must be in YYYY-MM-DD format");
                return Err(CommandError::Validation(m));
            }
            Ok(Some(string_from(&t)))
        },
    }
}

/// Why a start and target date are refused together: the start is after
/// the target (compared as text, which orders `YYYY-MM-DD` dates).
pub open spec fn order_error(start: Option<Seq<char>>, target: Option<Seq<char>>) -> Option<Seq<char>> {
    match (start, target) {
        (Some(s), Some(t)) => if seq_lt(t, s) {
            Some("start date cannot be after target date"@)
        } else {
            None
        },
        _ => None,
    }
}

pub fn date_order(start: &Option<String>, target: &Option<String>) -> (r: Result<(), CommandError>)
    ensures
        match order_error(opt_view(*start), opt_view(*target)) {
            Some(m) => r matches Err(e) && e@ == invalid(m),
            None => r is Ok,
        },
{
    match (start, target) {
        (Some(s), Some(t)) => {
            if str_lt(t.as_str(), s.as_str()) {
                return Err(validation("start date cannot be after target date"));
            }
            Ok(())
        },
        _ => Ok(()),
    }
}

/// Why a time range is refused: a bound outside 0..=1440, or an end not
/// after the start.
pub open spec fn minutes_error(start: int, end: int) -> Option<Seq<char>> {
    if !(0 <= start <= 1440) || !(0 <= end <= 1440) {
        Some("times must be between 00:00 and 24:00"@)
    } else if end <= start {
        Some("end time must be after start time"@)
    } else {
        None
    }
}

pub fn check_minutes(start: i64, end: i64) -> (r: Result<(), CommandError>)
    ensures
        match minutes_error(start as int, end as int) {
            Some(m) => r matches Err(e) && e@ == invalid(m),
            None => r is Ok,
        },
{
    if !(0 <= start && start <= 1440) || !(0 <= end && end <= 1440) {
        return Err(validation("times must be between 00:00 and 24:00"));
    }
    if end <= start {
        return Err(validation("end time must be after start time"));
    }
    Ok(())
}

/// Why a date range is refused: its start is after its end.
pub open spec fn range_error(from: Seq<char>, to: Seq<char>) -> Option<Seq<char>> {
    if seq_lt(to, from) {
        Some("range start cannot be after range end"@)
    } else {
        None
    }
}

pub fn range_order(from: &str, to: &str) -> (r: Result<(), CommandError>)
    ensures
        match range_error(from@, to@) {
            Some(m) => r matches Err(e) && e@ == invalid(m),
            None => r is Ok,
        },
{
    if str_lt(to, from) {
        return Err(validation("range start cannot be after range end"));
    }
    Ok(())
}

/// "`what` `id`", the text of a not-found error.
pub open spec fn missing_text(what: Seq<char>, id: Seq<char>) -> Seq<char> {
    what + seq![' '] + id
}

/// The error for a record that does not exist.
pub fn not_found(what: &str, id: &str) -> (r: CommandError)
    ensures
        r@ == CommandErrorModel::NotFound(missing_text(what@, id@)),
{
    let mut m = String::from_str(what);
    m.append(" ");
    m.append(id);
    assert(" "@ =~= seq![' ']) by {
        reveal_strlit(" ");
    }
    CommandError::NotFound(m)
}

/// Ok when a write touched its record, else that the record is missing.
pub fn found_or(found: bool, what: &str, id: &str) -> (r: Result<(), CommandError>)
    ensures
        found ==> r is Ok,
        !found ==> (r matches Err(e) && e@ == CommandErrorModel::NotFound(missing_text(what@, id@))),
{
    if found {
        Ok(())
    } else {
        Err(not_found(what, id))
    }
}

} // verus!
