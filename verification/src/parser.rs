//! The local command parser: turns the common command shapes into an action
//! with no model involved, and gives up (None) on anything else so that the
//! caller can escalate.
//!
//! Each command shape is a small grammar, matched the way a leftmost-first
//! Unicode regular expression engine matches it: case-insensitive keywords,
//! `\s` as White_Space, `\d` as Decimal_Number and `.` as anything but a line
//! feed.
use vstd::prelude::*;
use crate::action::{AiAction, ActionModel, action_opt, opt_text};
use crate::dates::{
    date_slices_ok, add_days_spec, weekday_of_spec, add_days, weekday_of, is_real_date, day_number,
    civil_from_days, days_between_spec, lemma_add_days_weekday, lemma_add_days_then_days_between,
    lemma_date_day_range,
};
use crate::grammar::{
    ci_at, ci_at_exec, ws_run, ws_run_exec, tail_rest, tail_exec, no_nl, no_nl_from,
    digit_run, digit_run_exec, ci_char, ci_char_exec, lemma_ws_run, lemma_digit_run,
};
use crate::num::{parse_int, parse_int_chars};
use crate::text::{
    is_ascii_digit, trim, lowercase, to_lowercase, trim_string, trim_vec, sub_chars, string_from,
    chars_of, str_eq, trimmed_chars,
};

verus! {

/// The first of two alternatives that matched.
pub open spec fn or_else<T>(a: Option<T>, b: Option<T>) -> Option<T> {
    if a is Some {
        a
    } else {
        b
    }
}

// ---------- keywords inside free text ----------

/// The last position at which `kw` occurs in `s[..n]`, ignoring case.
pub open spec fn last_kw_before(s: Seq<char>, kw: Seq<char>, n: int) -> Option<int>
    decreases n,
{
    if n <= 0 {
        None
    } else if ci_at(s, n - 1, kw) {
        Some(n - 1)
    } else {
        last_kw_before(s, kw, n - 1)
    }
}

/// The last position at which `kw` occurs in `s`, ignoring case. The
/// keywords searched for (" on ", " by ", " for ") are spaces and letters
/// whose only lowercase sources are the letter and its capital.
pub open spec fn last_kw(s: Seq<char>, kw: Seq<char>) -> Option<int> {
    last_kw_before(s, kw, s.len() as int)
}

/// "left KW right" split at the last `kw`, both sides trimmed; the whole of
/// `s`, trimmed, when there is no `kw` or nothing follows it.
pub open spec fn split_kw(s: Seq<char>, kw: Seq<char>) -> (Seq<char>, Option<Seq<char>>) {
    match last_kw(s, kw) {
        Some(i) => {
            let right = trim(s.skip(i + kw.len()));
            if right.len() == 0 {
                (trim(s), None)
            } else {
                (trim(s.take(i)), Some(right))
            }
        },
        None => (trim(s), None),
    }
}

proof fn lemma_last_kw_before(s: Seq<char>, kw: Seq<char>, n: int)
    ensures
        last_kw_before(s, kw, n) matches Some(i) ==> 0 <= i < n && ci_at(s, i, kw),
    decreases n,
{
    if n > 0 && !ci_at(s, n - 1, kw) {
        lemma_last_kw_before(s, kw, n - 1);
    }
}

/// Position of the last `kw` in `v`, ignoring case.
fn find_keyword(v: &Vec<char>, kw: &str) -> (r: Option<usize>)
    ensures
        match last_kw(v@, kw@) {
            Some(i) => r == Some(i as usize) && 0 <= i && i + kw@.len() <= v.len(),
            None => r is None,
        },
{
    proof { lemma_last_kw_before(v@, kw@, v.len() as int); }
    let mut n = v.len();
    while n > 0
        invariant
            n <= v.len(),
            last_kw(v@, kw@) == last_kw_before(v@, kw@, n as int),
        decreases n,
    {
        if ci_at_exec(v, n - 1, kw) {
            return Some(n - 1);
        }
        n = n - 1;
    }
    None
}

/// Splits "activity KW goal" at the last `kw`.
fn split_on_keyword(v: &Vec<char>, kw: &str) -> (r: (Vec<char>, Option<Vec<char>>))
    ensures
        (r.0@, match r.1 {
            Some(x) => Some(x@),
            None => None::<Seq<char>>,
        }) == split_kw(v@, kw@),
{
    match find_keyword(v, kw) {
        Some(i) => {
            let n = kw.unicode_len();
            let tail = sub_chars(v, i + n, v.len());
            assert(tail@ =~= v@.skip(i + kw@.len()));
            let right = trim_vec(&tail);
            if right.len() == 0 {
                (trim_vec(v), None)
            } else {
                let head = sub_chars(v, 0, i);
                assert(head@ =~= v@.take(i as int));
                (trim_vec(&head), Some(right))
            }
        },
        None => (trim_vec(v), None),
    }
}

// ---------- dates ----------

/// `YYYY-MM-DD` in shape: ten chars, ASCII digits with dashes at 4 and 7.
pub open spec fn is_iso_date(s: Seq<char>) -> bool {
    &&& s.len() == 10
    &&& forall|i: int|
        0 <= i < 10 ==> if i == 4 || i == 7 {
            #[trigger] s[i] == '-'
        } else {
            is_ascii_digit(s[i])
        }
}

/// 0 = Sunday .. 6 = Saturday, for a weekday name or its abbreviation.
pub open spec fn weekday_index_spec(s: Seq<char>) -> Option<int> {
    if s == "sunday"@ || s == "sun"@ {
        Some(0)
    } else if s == "monday"@ || s == "mon"@ {
        Some(1)
    } else if s == "tuesday"@ || s == "tue"@ || s == "tues"@ {
        Some(2)
    } else if s == "wednesday"@ || s == "wed"@ {
        Some(3)
    } else if s == "thursday"@ || s == "thu"@ || s == "thurs"@ {
        Some(4)
    } else if s == "friday"@ || s == "fri"@ {
        Some(5)
    } else if s == "saturday"@ || s == "sat"@ {
        Some(6)
    } else {
        None
    }
}

/// Days from a day of week `current` to the next day of week `target`,
/// strictly later: 1 to 7.
pub open spec fn next_delta(current: int, target: int) -> int {
    let d = (target - current + 7) % 7;
    if d == 0 {
        7
    } else {
        d
    }
}

/// A lowercased date word resolved against `today`: a literal
/// `YYYY-MM-DD`, "today", "tomorrow", "yesterday", or a weekday name, which
/// means its next occurrence strictly after today.
pub open spec fn resolve_lowered(s: Seq<char>, today: Seq<char>) -> Option<Seq<char>> {
    if is_iso_date(s) {
        Some(s)
    } else if s == "today"@ {
        Some(today)
    } else if s == "tomorrow"@ {
        Some(add_days_spec(today, 1))
    } else if s == "yesterday"@ {
        Some(add_days_spec(today, -1))
    } else {
        match weekday_index_spec(s) {
            Some(t) => Some(add_days_spec(today, next_delta(weekday_of_spec(today), t))),
            None => None,
        }
    }
}

/// What `resolve_date` gives: the trimmed input, lowercased, resolved.
pub open spec fn resolve_date_spec(input: Seq<char>, today: Seq<char>) -> Option<Seq<char>> {
    resolve_lowered(lowercase(trim(input)), today)
}

/// A weekday name resolves to the next day with that weekday strictly after
/// today: one to seven days later. (For a real `today` and a result that
/// still has a four-digit year.)
pub proof fn lemma_weekday_next_occurrence(name: Seq<char>, today: Seq<char>)
    requires
        weekday_index_spec(name) is Some,
        is_real_date(today),
        0 <= civil_from_days(
            day_number(today) + next_delta(weekday_of_spec(today), weekday_index_spec(name)->0),
        ).0 <= 9999,
    ensures
        resolve_lowered(name, today) matches Some(d) && weekday_of_spec(d)
            == weekday_index_spec(name)->0 && 1 <= days_between_spec(today, d) <= 7,
{
    lemma_weekday_word(name);
    let target = weekday_index_spec(name)->0;
    let cur = weekday_of_spec(today);
    let delta = next_delta(cur, target);
    assert(resolve_lowered(name, today) == Some(add_days_spec(today, delta)));
    assert(0 <= cur < 7);
    lemma_next_delta(cur, target);
    lemma_add_days_weekday(today, delta);
    lemma_add_days_then_days_between(today, delta);
}

/// The year of the day `k` days after `today`.
pub open spec fn year_after(today: Seq<char>, k: int) -> int {
    civil_from_days(day_number(today) + k).0
}

/// `word` resolves against `today` to a date one to seven days later that
/// falls on day of week `day` (0 = Sunday .. 6 = Saturday).
pub open spec fn lands_on(word: Seq<char>, today: Seq<char>, day: int) -> bool {
    resolve_lowered(word, today) matches Some(d) && weekday_of_spec(d) == day && 1
        <= days_between_spec(today, d) <= 7
}

proof fn lemma_weekday_indices()
    ensures
        weekday_index_spec("sunday"@) == Some(0int),
        weekday_index_spec("sun"@) == Some(0int),
        weekday_index_spec("monday"@) == Some(1int),
        weekday_index_spec("mon"@) == Some(1int),
        weekday_index_spec("tuesday"@) == Some(2int),
        weekday_index_spec("tue"@) == Some(2int),
        weekday_index_spec("tues"@) == Some(2int),
        weekday_index_spec("wednesday"@) == Some(3int),
        weekday_index_spec("wed"@) == Some(3int),
        weekday_index_spec("thursday"@) == Some(4int),
        weekday_index_spec("thu"@) == Some(4int),
        weekday_index_spec("thurs"@) == Some(4int),
        weekday_index_spec("friday"@) == Some(5int),
        weekday_index_spec("fri"@) == Some(5int),
        weekday_index_spec("saturday"@) == Some(6int),
        weekday_index_spec("sat"@) == Some(6int),
{
    reveal_strlit("sunday");
    reveal_strlit("sun");
    reveal_strlit("monday");
    reveal_strlit("mon");
    reveal_strlit("tuesday");
    reveal_strlit("tue");
    reveal_strlit("tues");
    reveal_strlit("wednesday");
    reveal_strlit("wed");
    reveal_strlit("thursday");
    reveal_strlit("thu");
    reveal_strlit("thurs");
    reveal_strlit("friday");
    reveal_strlit("fri");
    reveal_strlit("saturday");
    reveal_strlit("sat");
    assert("sunday"@[0] == 's' && "sunday"@[1] == 'u' && "sunday"@[2] == 'n' && "sunday"@.len() == 6);
    assert("sun"@[0] == 's' && "sun"@[1] == 'u' && "sun"@[2] == 'n' && "sun"@.len() == 3);
    assert("monday"@[0] == 'm' && "monday"@[1] == 'o' && "monday"@[2] == 'n' && "monday"@.len() == 6);
    assert("mon"@[0] == 'm' && "mon"@[1] == 'o' && "mon"@[2] == 'n' && "mon"@.len() == 3);
    assert("tuesday"@[0] == 't' && "tuesday"@[1] == 'u' && "tuesday"@[2] == 'e' && "tuesday"@.len() == 7);
    assert("tue"@[0] == 't' && "tue"@[1] == 'u' && "tue"@[2] == 'e' && "tue"@.len() == 3);
    assert("tues"@[0] == 't' && "tues"@[1] == 'u' && "tues"@[2] == 'e' && "tues"@.len() == 4);
    assert("wednesday"@[0] == 'w' && "wednesday"@[1] == 'e' && "wednesday"@[2] == 'd' && "wednesday"@.len() == 9);
    assert("wed"@[0] == 'w' && "wed"@[1] == 'e' && "wed"@[2] == 'd' && "wed"@.len() == 3);
    assert("thursday"@[0] == 't' && "thursday"@[1] == 'h' && "thursday"@[2] == 'u' && "thursday"@.len() == 8);
    assert("thu"@[0] == 't' && "thu"@[1] == 'h' && "thu"@[2] == 'u' && "thu"@.len() == 3);
    assert("thurs"@[0] == 't' && "thurs"@[1] == 'h' && "thurs"@[2] == 'u' && "thurs"@.len() == 5);
    assert("friday"@[0] == 'f' && "friday"@[1] == 'r' && "friday"@[2] == 'i' && "friday"@.len() == 6);
    assert("fri"@[0] == 'f' && "fri"@[1] == 'r' && "fri"@[2] == 'i' && "fri"@.len() == 3);
    assert("saturday"@[0] == 's' && "saturday"@[1] == 'a' && "saturday"@[2] == 't' && "saturday"@.len() == 8);
    assert("sat"@[0] == 's' && "sat"@[1] == 'a' && "sat"@[2] == 't' && "sat"@.len() == 3);
}

proof fn lemma_word_lands(word: Seq<char>, today: Seq<char>, day: int)
    requires
        weekday_index_spec(word) == Some(day),
        is_real_date(today),
        forall|k: int| 1 <= k <= 7 ==> 0 <= #[trigger] year_after(today, k) <= 9999,
    ensures
        lands_on(word, today, day),
{
    lemma_weekday_word(word);
    let delta = next_delta(weekday_of_spec(today), day);
    lemma_next_delta(weekday_of_spec(today), day);
    assert(0 <= year_after(today, delta) <= 9999);
    lemma_weekday_next_occurrence(word, today);
}

/// Each English weekday word, in full or abbreviated, names a fixed day of
/// the calendar week (Sunday 0, Monday 1, Tuesday 2, Wednesday 3, Thursday
/// 4, Friday 5, Saturday 6): resolved against a real `today`, it gives the
/// next date strictly after today that falls on that day. (For dates whose
/// next week still has a four-digit year.)
pub proof fn lemma_weekday_words_name_their_day(today: Seq<char>)
    requires
        is_real_date(today),
        forall|k: int| 1 <= k <= 7 ==> 0 <= #[trigger] year_after(today, k) <= 9999,
    ensures
        lands_on("sunday"@, today, 0),
        lands_on("sun"@, today, 0),
        lands_on("monday"@, today, 1),
        lands_on("mon"@, today, 1),
        lands_on("tuesday"@, today, 2),
        lands_on("tue"@, today, 2),
        lands_on("tues"@, today, 2),
        lands_on("wednesday"@, today, 3),
        lands_on("wed"@, today, 3),
        lands_on("thursday"@, today, 4),
        lands_on("thu"@, today, 4),
        lands_on("thurs"@, today, 4),
        lands_on("friday"@, today, 5),
        lands_on("fri"@, today, 5),
        lands_on("saturday"@, today, 6),
        lands_on("sat"@, today, 6),
{
    lemma_weekday_indices();
    lemma_word_lands("sunday"@, today, 0);
    lemma_word_lands("sun"@, today, 0);
    lemma_word_lands("monday"@, today, 1);
    lemma_word_lands("mon"@, today, 1);
    lemma_word_lands("tuesday"@, today, 2);
    lemma_word_lands("tue"@, today, 2);
    lemma_word_lands("tues"@, today, 2);
    lemma_word_lands("wednesday"@, today, 3);
    lemma_word_lands("wed"@, today, 3);
    lemma_word_lands("thursday"@, today, 4);
    lemma_word_lands("thu"@, today, 4);
    lemma_word_lands("thurs"@, today, 4);
    lemma_word_lands("friday"@, today, 5);
    lemma_word_lands("fri"@, today, 5);
    lemma_word_lands("saturday"@, today, 6);
    lemma_word_lands("sat"@, today, 6);
}

/// The step to the next occurrence of a weekday is one to seven days, and
/// lands on it.
proof fn lemma_next_delta(cur: int, target: int)
    requires
        0 <= cur < 7,
        0 <= target < 7,
    ensures
        1 <= next_delta(cur, target) <= 7,
        (cur + next_delta(cur, target)) % 7 == target,
{
}

/// A weekday name is none of the other date words.
proof fn lemma_weekday_word(name: Seq<char>)
    requires
        weekday_index_spec(name) is Some,
    ensures
        !is_iso_date(name),
        name != "today"@,
        name != "tomorrow"@,
        name != "yesterday"@,
        0 <= weekday_index_spec(name)->0 < 7,
{
    reveal_strlit("today");
    reveal_strlit("tomorrow");
    reveal_strlit("yesterday");
    assert("today"@.len() == 5 && "today"@[0] == 't' && "today"@[1] == 'o');
    assert("tomorrow"@.len() == 8 && "tomorrow"@[0] == 't' && "tomorrow"@[1] == 'o');
    assert("yesterday"@.len() == 9 && "yesterday"@[0] == 'y');
    if name == "sunday"@ {
        reveal_strlit("sunday");
        assert(name.len() == 6 && name[0] == 's' && name[1] == 'u');
    } else if name == "sun"@ {
        reveal_strlit("sun");
        assert(name.len() == 3 && name[0] == 's' && name[1] == 'u');
    } else if name == "monday"@ {
        reveal_strlit("monday");
        assert(name.len() == 6 && name[0] == 'm' && name[1] == 'o');
    } else if name == "mon"@ {
        reveal_strlit("mon");
        assert(name.len() == 3 && name[0] == 'm' && name[1] == 'o');
    } else if name == "tuesday"@ {
        reveal_strlit("tuesday");
        assert(name.len() == 7 && name[0] == 't' && name[1] == 'u');
    } else if name == "tue"@ {
        reveal_strlit("tue");
        assert(name.len() == 3 && name[0] == 't' && name[1] == 'u');
    } else if name == "tues"@ {
        reveal_strlit("tues");
        assert(name.len() == 4 && name[0] == 't' && name[1] == 'u');
    } else if name == "wednesday"@ {
        reveal_strlit("wednesday");
        assert(name.len() == 9 && name[0] == 'w' && name[1] == 'e');
    } else if name == "wed"@ {
        reveal_strlit("wed");
        assert(name.len() == 3 && name[0] == 'w' && name[1] == 'e');
    } else if name == "thursday"@ {
        reveal_strlit("thursday");
        assert(name.len() == 8 && name[0] == 't' && name[1] == 'h');
    } else if name == "thu"@ {
        reveal_strlit("thu");
        assert(name.len() == 3 && name[0] == 't' && name[1] == 'h');
    } else if name == "thurs"@ {
        reveal_strlit("thurs");
        assert(name.len() == 5 && name[0] == 't' && name[1] == 'h');
    } else if name == "friday"@ {
        reveal_strlit("friday");
        assert(name.len() == 6 && name[0] == 'f' && name[1] == 'r');
    } else if name == "fri"@ {
        reveal_strlit("fri");
        assert(name.len() == 3 && name[0] == 'f' && name[1] == 'r');
    } else if name == "saturday"@ {
        reveal_strlit("saturday");
        assert(name.len() == 8 && name[0] == 's' && name[1] == 'a');
    } else if name == "sat"@ {
        reveal_strlit("sat");
        assert(name.len() == 3 && name[0] == 's' && name[1] == 'a');
    }
}

fn is_iso_date_exec(v: &Vec<char>) -> (r: bool)
    ensures
        r == is_iso_date(v@),
{
    if v.len() != 10 {
        return false;
    }
    let mut i: usize = 0;
    while i < 10
        invariant
            v.len() == 10,
            i <= 10,
            forall|k: int|
                0 <= k < i ==> if k == 4 || k == 7 {
                    #[trigger] v@[k] == '-'
                } else {
                    is_ascii_digit(v@[k])
                },
        decreases 10 - i,
    {
        let c = v[i];
        if i == 4 || i == 7 {
            if c != '-' {
                return false;
            }
        } else if !('0' <= c && c <= '9') {
            return false;
        }
        i = i + 1;
    }
    true
}

fn weekday_index(s: &str) -> (r: Option<i64>)
    ensures
        match weekday_index_spec(s@) {
            Some(t) => r == Some(t as i64),
            None => r is None,
        },
{
    if str_eq(s, "sunday") || str_eq(s, "sun") {
        Some(0)
    } else if str_eq(s, "monday") || str_eq(s, "mon") {
        Some(1)
    } else if str_eq(s, "tuesday") || str_eq(s, "tue") || str_eq(s, "tues") {
        Some(2)
    } else if str_eq(s, "wednesday") || str_eq(s, "wed") {
        Some(3)
    } else if str_eq(s, "thursday") || str_eq(s, "thu") || str_eq(s, "thurs") {
        Some(4)
    } else if str_eq(s, "friday") || str_eq(s, "fri") {
        Some(5)
    } else if str_eq(s, "saturday") || str_eq(s, "sat") {
        Some(6)
    } else {
        None
    }
}

/// Resolves an already lowercased date word against `today`.
pub fn resolve_lowered_date(s: &str, today: &str) -> (r: Option<String>)
    requires
        date_slices_ok(today@),
    ensures
        opt_text(r) == resolve_lowered(s@, today@),
{
    proof { lemma_date_day_range(today@); }
    let v = chars_of(s);
    if is_iso_date_exec(&v) {
        return Some(s.to_owned());
    }
    if str_eq(s, "today") {
        return Some(today.to_owned());
    }
    if str_eq(s, "tomorrow") {
        return Some(add_days(today, 1));
    }
    if str_eq(s, "yesterday") {
        return Some(add_days(today, -1));
    }
    match weekday_index(s) {
        Some(target) => {
            let current = weekday_of(today);
            let mut delta = (target - current + 7) % 7;
            if delta == 0 {
                delta = 7;
            }
            Some(add_days(today, delta))
        },
        None => None,
    }
}

/// Resolves "today", "tomorrow", "yesterday", a weekday name (its next
/// occurrence strictly after today) or a literal `YYYY-MM-DD`, ignoring case
/// and surrounding whitespace. `today` is a local `YYYY-MM-DD` date.
pub fn resolve_date(input: &str, today: &str) -> (r: Option<String>)
    requires
        date_slices_ok(today@),
    ensures
        opt_text(r) == resolve_date_spec(input@, today@),
{
    let t = trim_string(input);
    let s = to_lowercase(t.as_str());
    resolve_lowered_date(s.as_str(), today)
}

// ---------- "done X" / "complete X" / "finished X" ----------

/// The command keyword `kw` at the start, then the tail `\s+(.+)$`.
pub open spec fn keyword_tail(s: Seq<char>, kw: Seq<char>) -> Option<Seq<char>> {
    if ci_at(s, 0, kw) {
        tail_rest(s, kw.len() as int)
    } else {
        None
    }
}

/// `^(?:done|complete|completed|finish|finished)\s+(.+)$`: the rest after
/// the first alternative that matches.
pub open spec fn complete_rest(s: Seq<char>) -> Option<Seq<char>> {
    or_else(
        keyword_tail(s, "done"@),
        or_else(
            keyword_tail(s, "complete"@),
            or_else(
                keyword_tail(s, "completed"@),
                or_else(keyword_tail(s, "finish"@), keyword_tail(s, "finished"@)),
            ),
        ),
    )
}

pub open spec fn complete_spec(s: Seq<char>) -> Option<ActionModel> {
    match complete_rest(s) {
        Some(r) => if trim(r).len() == 0 {
            None
        } else {
            Some(ActionModel::CompleteTask { task_ref: trim(r) })
        },
        None => None,
    }
}

/// Start of the rest after the keyword `kw` and whitespace.
fn keyword_tail_exec(v: &Vec<char>, kw: &str) -> (r: Option<usize>)
    ensures
        match keyword_tail(v@, kw@) {
            Some(t) => r is Some && r->0 <= v.len() && t == v@.skip(r->0 as int),
            None => r is None,
        },
{
    if ci_at_exec(v, 0, kw) {
        tail_exec(v, kw.unicode_len())
    } else {
        None
    }
}

/// The trimmed chars `v[k..]`.
fn trimmed_rest(v: &Vec<char>, k: usize) -> (r: Vec<char>)
    requires
        k <= v.len(),
    ensures
        r@ == trim(v@.skip(k as int)),
{
    let t = sub_chars(v, k, v.len());
    assert(t@ =~= v@.skip(k as int));
    trim_vec(&t)
}

fn try_complete(v: &Vec<char>) -> (r: Option<AiAction>)
    ensures
        action_opt(r) == complete_spec(v@),
{
    let mut start = keyword_tail_exec(v, "done");
    if start.is_none() {
        start = keyword_tail_exec(v, "complete");
    }
    if start.is_none() {
        start = keyword_tail_exec(v, "completed");
    }
    if start.is_none() {
        start = keyword_tail_exec(v, "finish");
    }
    if start.is_none() {
        start = keyword_tail_exec(v, "finished");
    }
    match start {
        Some(k) => {
            let rest = trimmed_rest(v, k);
            if rest.len() == 0 {
                None
            } else {
                Some(AiAction::CompleteTask { task_ref: string_from(&rest) })
            }
        },
        None => None,
    }
}

// ---------- "add task X" / "add task X by friday" / "... for GOAL" ----------

/// `kw\s+task\s+(.+)$` at the start.
pub open spec fn task_tail(s: Seq<char>, kw: Seq<char>) -> Option<Seq<char>> {
    if ci_at(s, 0, kw) {
        let k = kw.len() as int;
        let w = ws_run(s, k);
        if w >= 1 && ci_at(s, k + w, "task"@) {
            tail_rest(s, k + w + "task"@.len())
        } else {
            None
        }
    } else {
        None
    }
}

/// `^(?:add|create|new)\s+task\s+(.+)$`.
pub open spec fn add_task_rest(s: Seq<char>) -> Option<Seq<char>> {
    or_else(task_tail(s, "add"@), or_else(task_tail(s, "create"@), task_tail(s, "new"@)))
}

/// "TITLE by DATE": the title and due date when the text after the last
/// " by " resolves to a date; otherwise the text unchanged and no date.
pub open spec fn due_split(rest: Seq<char>, today: Seq<char>) -> (Seq<char>, Option<Seq<char>>) {
    match last_kw(rest, " by "@) {
        Some(i) => match resolve_date_spec(trim(rest.skip(i + " by "@.len())), today) {
            Some(d) => (trim(rest.take(i)), Some(d)),
            None => (rest, None),
        },
        None => (rest, None),
    }
}

pub open spec fn add_task_spec(s: Seq<char>, today: Seq<char>) -> Option<ActionModel> {
    match add_task_rest(s) {
        Some(r) => {
            let (rest, due) = due_split(trim(r), today);
            let (title, goal) = split_kw(rest, " for "@);
            if title.len() == 0 {
                None
            } else {
                Some(
                    ActionModel::CreateTask {
                        title: title,
                        goal_ref: goal,
                        due_date: due,
                        scheduled_date: None,
                        estimated_minutes: None,
                        priority: None,
                    },
                )
            }
        },
        None => None,
    }
}

fn task_tail_exec(v: &Vec<char>, kw: &str) -> (r: Option<usize>)
    ensures
        match task_tail(v@, kw@) {
            Some(t) => r is Some && r->0 <= v.len() && t == v@.skip(r->0 as int),
            None => r is None,
        },
{
    if ci_at_exec(v, 0, kw) {
        let k = kw.unicode_len();
        let w = ws_run_exec(v, k);
        if w >= 1 && ci_at_exec(v, k + w, "task") {
            tail_exec(v, k + w + "task".unicode_len())
        } else {
            None
        }
    } else {
        None
    }
}

fn opt_chars(o: Option<Vec<char>>) -> (r: Option<String>)
    ensures
        opt_text(r) == match o {
            Some(x) => Some(x@),
            None => None::<Seq<char>>,
        },
{
    match o {
        Some(x) => Some(string_from(&x)),
        None => None,
    }
}

fn try_add_task(v: &Vec<char>, today: &str) -> (r: Option<AiAction>)
    requires
        date_slices_ok(today@),
    ensures
        action_opt(r) == add_task_spec(v@, today@),
{
    let mut start = task_tail_exec(v, "add");
    if start.is_none() {
        start = task_tail_exec(v, "create");
    }
    if start.is_none() {
        start = task_tail_exec(v, "new");
    }
    let k = match start {
        Some(k) => k,
        None => return None,
    };
    let mut rest = trimmed_rest(v, k);
    let ghost rest0 = rest@;
    let mut due_date: Option<String> = None;
    match find_keyword(&rest, " by ") {
        Some(idx) => {
            let date_part = trimmed_rest(&rest, idx + " by ".unicode_len());
            let date_text = string_from(&date_part);
            match resolve_date(date_text.as_str(), today) {
                Some(d) => {
                    due_date = Some(d);
                    let head = sub_chars(&rest, 0, idx);
                    assert(head@ =~= rest0.take(idx as int));
                    rest = trim_vec(&head);
                },
                None => {},
            }
        },
        None => {},
    }
    assert((rest@, opt_text(due_date)) == due_split(rest0, today@));
    let (title, goal) = split_on_keyword(&rest, " for ");
    if title.len() == 0 {
        return None;
    }
    Some(
        AiAction::CreateTask {
            title: string_from(&title),
            goal_ref: opt_chars(goal),
            due_date: due_date,
            scheduled_date: None,
            estimated_minutes: None,
            priority: None,
        },
    )
}

// ---------- "how am I doing" / "progress" / "progress on GOAL" ----------

/// `kw(?:\s+on\s+(.+))?$` at the start: Some(Some(rest)) with the goal part,
/// Some(None) when the keyword is the whole text.
pub open spec fn query_alt(s: Seq<char>, kw: Seq<char>) -> Option<Option<Seq<char>>> {
    if ci_at(s, 0, kw) {
        let k = kw.len() as int;
        let w = ws_run(s, k);
        if w >= 1 && ci_at(s, k + w, "on"@) && tail_rest(s, k + w + "on"@.len()) is Some {
            Some(tail_rest(s, k + w + "on"@.len()))
        } else if s.len() == k {
            Some(None)
        } else {
            None
        }
    } else {
        None
    }
}

/// `^(?:how am i doing|progress|status|am i on track)(?:\s+on\s+(.+))?$`.
pub open spec fn query_groups(s: Seq<char>) -> Option<Option<Seq<char>>> {
    or_else(
        query_alt(s, "how am i doing"@),
        or_else(
            query_alt(s, "progress"@),
            or_else(query_alt(s, "status"@), query_alt(s, "am i on track"@)),
        ),
    )
}

pub open spec fn query_spec(s: Seq<char>) -> Option<ActionModel> {
    match query_groups(s) {
        Some(g) => Some(
            ActionModel::QueryProgress {
                goal_ref: match g {
                    Some(r) => Some(trim(r)),
                    None => None,
                },
            },
        ),
        None => None,
    }
}

/// Some(Some(k)) with the goal part starting at `k`, Some(None) for the
/// bare keyword.
fn query_alt_exec(v: &Vec<char>, kw: &str) -> (r: Option<Option<usize>>)
    ensures
        match query_alt(v@, kw@) {
            Some(Some(t)) => r matches Some(Some(k)) && k <= v.len() && t == v@.skip(k as int),
            Some(None) => r == Some(None::<usize>),
            None => r is None,
        },
{
    if !ci_at_exec(v, 0, kw) {
        return None;
    }
    let k = kw.unicode_len();
    let w = ws_run_exec(v, k);
    if w >= 1 && ci_at_exec(v, k + w, "on") {
        match tail_exec(v, k + w + "on".unicode_len()) {
            Some(t) => return Some(Some(t)),
            None => {},
        }
    }
    if v.len() == k {
        Some(None)
    } else {
        None
    }
}

fn try_query(v: &Vec<char>) -> (r: Option<AiAction>)
    ensures
        action_opt(r) == query_spec(v@),
{
    let mut g = query_alt_exec(v, "how am i doing");
    if g.is_none() {
        g = query_alt_exec(v, "progress");
    }
    if g.is_none() {
        g = query_alt_exec(v, "status");
    }
    if g.is_none() {
        g = query_alt_exec(v, "am i on track");
    }
    match g {
        Some(Some(k)) => {
            let rest = trimmed_rest(v, k);
            Some(AiAction::QueryProgress { goal_ref: Some(string_from(&rest)) })
        },
        Some(None) => Some(AiAction::QueryProgress { goal_ref: None }),
        None => None,
    }
}

// ---------- "log 2h X" / "log 90m X on GOAL" ----------

/// End of the greedy optional `(?:ours?|rs?)` at `k`. The alternatives are
/// tried as ours, our, rs, r, nothing; a choice shorter than the longest
/// that fits leaves a letter behind that nothing after the unit can match,
/// so the longest that fits is the one a successful match keeps.
pub open spec fn hour_suffix_end(s: Seq<char>, k: int) -> int {
    if ci_at(s, k, "ours"@) {
        k + "ours"@.len()
    } else if ci_at(s, k, "our"@) {
        k + "our"@.len()
    } else if ci_at(s, k, "rs"@) {
        k + "rs"@.len()
    } else if ci_at(s, k, "r"@) {
        k + "r"@.len()
    } else {
        k
    }
}

/// End of the greedy optional `(?:in(?:ute)?s?)` at `k`, kept the same way:
/// inutes, inute, ins, in, nothing.
pub open spec fn minute_suffix_end(s: Seq<char>, k: int) -> int {
    if ci_at(s, k, "inutes"@) {
        k + "inutes"@.len()
    } else if ci_at(s, k, "inute"@) {
        k + "inute"@.len()
    } else if ci_at(s, k, "ins"@) {
        k + "ins"@.len()
    } else if ci_at(s, k, "in"@) {
        k + "in"@.len()
    } else {
        k
    }
}

/// `(\d+)\s*h(?:ours?|rs?)?` at `i`: where the unit ends, and its digits.
/// Digit and whitespace runs are taken whole: a shorter one leaves a digit
/// or a space where the unit letter must be.
pub open spec fn hours_unit(s: Seq<char>, i: int) -> Option<(int, Seq<char>)> {
    if 0 <= i <= s.len() {
        let d = digit_run(s, i) as int;
        let j = i + d + ws_run(s, i + d);
        if d >= 1 && j < s.len() && ci_char(s[j], 'h') {
            Some((hour_suffix_end(s, j + 1), s.subrange(i, i + d)))
        } else {
            None
        }
    } else {
        None
    }
}

/// `(\d+)\s*m(?:in(?:ute)?s?)?` at `i`: where the unit ends, and its digits.
pub open spec fn minutes_unit(s: Seq<char>, i: int) -> Option<(int, Seq<char>)> {
    if 0 <= i <= s.len() {
        let d = digit_run(s, i) as int;
        let j = i + d + ws_run(s, i + d);
        if d >= 1 && j < s.len() && ci_char(s[j], 'm') {
            Some((minute_suffix_end(s, j + 1), s.subrange(i, i + d)))
        } else {
            None
        }
    } else {
        None
    }
}

/// `\s*(?:MINUTES)?\s+(.+)$` after an hours unit that ends at `e`: the
/// minutes digits, if the unit is there and the tail follows it, and the
/// rest. Without the unit, the whitespace after `e` must be non-empty and
/// the rest is what follows all of it.
pub open spec fn after_hours(s: Seq<char>, e: int) -> Option<(Option<Seq<char>>, Seq<char>)> {
    let b = ws_run(s, e) as int;
    let q = e + b;
    let spaced = if b >= 1 && q < s.len() && no_nl(s.skip(q)) {
        Some((None, s.skip(q)))
    } else {
        None
    };
    match minutes_unit(s, q) {
        Some((f, md)) => match tail_rest(s, f) {
            Some(r) => Some((Some(md), r)),
            None => spaced,
        },
        None => spaced,
    }
}

/// `^log\s+(?:(\d+)\s*h(?:ours?|rs?)?)?\s*(?:(\d+)\s*m(?:in(?:ute)?s?)?)?\s+(.+)$`:
/// the hours digits, the minutes digits and the rest. In the engine's order
/// of preference: an hours unit after all of the first whitespace run (and
/// a minutes unit after it, if it fits); else a minutes unit there; else,
/// when that run is at least two chars, no units and the text after it.
pub open spec fn log_groups(s: Seq<char>) -> Option<(Option<Seq<char>>, Option<Seq<char>>, Seq<char>)> {
    if !ci_at(s, 0, "log"@) {
        None
    } else {
        let a = "log"@.len() as int;
        let w = ws_run(s, a) as int;
        let p = a + w;
        if w == 0 {
            None
        } else {
            let with_hours = match hours_unit(s, p) {
                Some((e, hd)) => match after_hours(s, e) {
                    Some((md, r)) => Some((Some(hd), md, r)),
                    None => None,
                },
                None => None,
            };
            let with_minutes = match minutes_unit(s, p) {
                Some((f, md)) => match tail_rest(s, f) {
                    Some(r) => Some((None, Some(md), r)),
                    None => None,
                },
                None => None,
            };
            let bare = if w >= 2 && p < s.len() && no_nl(s.skip(p)) {
                Some((None, None, s.skip(p)))
            } else {
                None
            };
            or_else(with_hours, or_else(with_minutes, bare))
        }
    }
}

/// A captured number read with `i64::from_str`, 0 when absent or unreadable
/// (a non-ASCII digit, or too large).
pub open spec fn amount(d: Option<Seq<char>>) -> int {
    match d {
        Some(x) => match parse_int(x) {
            Some(v) => v,
            None => 0,
        },
        None => 0,
    }
}

/// Minutes of a log command: hours * 60 + minutes.
pub open spec fn log_total(s: Seq<char>) -> int {
    match log_groups(s) {
        Some((hd, md, r)) => amount(hd) * 60 + amount(md),
        None => 0,
    }
}

/// The minutes of a log command fit in an i64 (the computation overflows
/// otherwise).
pub open spec fn log_fits(s: Seq<char>) -> bool {
    log_total(s) <= i64::MAX
}

pub open spec fn log_spec(s: Seq<char>, today: Seq<char>) -> Option<ActionModel> {
    match log_groups(s) {
        Some((hd, md, r)) => {
            let rest = trim(r);
            if rest.len() == 0 {
                None
            } else {
                let total = log_total(s);
                let (activity, goal) = split_kw(rest, " on "@);
                Some(
                    ActionModel::LogWork {
                        activity: activity,
                        duration_minutes: if total > 0 {
                            Some(total as i64)
                        } else {
                            None
                        },
                        goal_ref: goal,
                        log_date: Some(today),
                    },
                )
            }
        },
        None => None,
    }
}

/// `k` moved past `kw` when `kw` occurs there.
fn skip_kw(v: &Vec<char>, k: usize, kw: &str) -> (r: Option<usize>)
    ensures
        if ci_at(v@, k as int, kw@) {
            r is Some && r->0 == k + kw@.len()
        } else {
            r is None
        },
{
    let len = v.len();
    if ci_at_exec(v, k, kw) {
        let n = kw.unicode_len();
        assert(k + n <= len);
        Some(k + n)
    } else {
        None
    }
}

fn hour_suffix_exec(v: &Vec<char>, k: usize) -> (r: usize)
    ensures
        r == hour_suffix_end(v@, k as int),
{
    if let Some(e) = skip_kw(v, k, "ours") {
        e
    } else if let Some(e) = skip_kw(v, k, "our") {
        e
    } else if let Some(e) = skip_kw(v, k, "rs") {
        e
    } else if let Some(e) = skip_kw(v, k, "r") {
        e
    } else {
        k
    }
}

fn minute_suffix_exec(v: &Vec<char>, k: usize) -> (r: usize)
    ensures
        r == minute_suffix_end(v@, k as int),
{
    if let Some(e) = skip_kw(v, k, "inutes") {
        e
    } else if let Some(e) = skip_kw(v, k, "inute") {
        e
    } else if let Some(e) = skip_kw(v, k, "ins") {
        e
    } else if let Some(e) = skip_kw(v, k, "in") {
        e
    } else {
        k
    }
}

/// A number-and-unit at `i` whose unit letter is `unit`: (end, digit count).
fn unit_exec(v: &Vec<char>, i: usize, unit: char) -> (r: Option<(usize, usize)>)
    requires
        i <= v.len(),
    ensures
        match r {
            Some((j, d)) => {
                &&& d >= 1
                &&& i + d <= v.len()
                &&& d == digit_run(v@, i as int)
                &&& j == i + d + ws_run(v@, i + d)
                &&& j < v.len()
                &&& ci_char(v@[j as int], unit)
            },
            None => {
                let d = digit_run(v@, i as int) as int;
                let j = i + d + ws_run(v@, i + d);
                !(d >= 1 && j < v.len() && ci_char(v@[j], unit))
            },
        },
{
    let d = digit_run_exec(v, i);
    let j = i + d + ws_run_exec(v, i + d);
    if d >= 1 && j < v.len() && ci_char_exec(v[j], unit) {
        Some((j, d))
    } else {
        None
    }
}

fn hours_unit_exec(v: &Vec<char>, i: usize) -> (r: Option<(usize, usize)>)
    requires
        i <= v.len(),
    ensures
        match hours_unit(v@, i as int) {
            Some((e, hd)) => r matches Some((e2, d)) && e2 == e && i + d <= v.len() && hd
                == v@.subrange(i as int, i + d),
            None => r is None,
        },
{
    match unit_exec(v, i, 'h') {
        Some((j, d)) => Some((hour_suffix_exec(v, j + 1), d)),
        None => None,
    }
}

fn minutes_unit_exec(v: &Vec<char>, i: usize) -> (r: Option<(usize, usize)>)
    requires
        i <= v.len(),
    ensures
        match minutes_unit(v@, i as int) {
            Some((e, md)) => r matches Some((e2, d)) && e2 == e && i + d <= v.len() && md
                == v@.subrange(i as int, i + d),
            None => r is None,
        },
{
    match unit_exec(v, i, 'm') {
        Some((j, d)) => Some((minute_suffix_exec(v, j + 1), d)),
        None => None,
    }
}

/// The digits of a number-and-unit are decimal digits, so they read as a
/// non-negative number (or not at all).
proof fn lemma_unit_amount(s: Seq<char>, i: int, d: int)
    requires
        0 <= i,
        1 <= d,
        i + d <= s.len(),
        d == digit_run(s, i),
    ensures
        amount(Some(s.subrange(i, i + d))) >= 0,
{
    lemma_digit_run(s, i);
    let x = s.subrange(i, i + d);
    assert(x[0] == s[i]);
}

/// A captured number, or 0.
fn amount_exec(v: &Vec<char>, cap: Option<(usize, usize)>) -> (r: i64)
    requires
        cap matches Some((i, d)) ==> i + d <= v.len(),
    ensures
        r == amount(match cap {
            Some((i, d)) => Some(v@.subrange(i as int, i + d)),
            None => None::<Seq<char>>,
        }),
{
    match cap {
        Some((i, d)) => match parse_int_chars(v, i, i + d) {
            Some(x) => x,
            None => 0,
        },
        None => 0,
    }
}

/// The three captures of a log command: hours (start, digits), minutes
/// (start, digits) and the start of the rest.
fn log_groups_exec(v: &Vec<char>) -> (r: Option<(Option<(usize, usize)>, Option<(usize, usize)>, usize)>)
    ensures
        match log_groups(v@) {
            Some((hd, md, rest)) => r matches Some((h, m, k)) && k <= v.len() && rest == v@.skip(
                k as int,
            ) && (match h {
                Some((i, d)) => i + d <= v.len() && hd == Some(v@.subrange(i as int, i + d))
                    && d == digit_run(v@, i as int) && d >= 1,
                None => hd is None,
            }) && (match m {
                Some((i, d)) => i + d <= v.len() && md == Some(v@.subrange(i as int, i + d))
                    && d == digit_run(v@, i as int) && d >= 1,
                None => md is None,
            }),
            None => r is None,
        },
{
    if !ci_at_exec(v, 0, "log") {
        return None;
    }
    let a = "log".unicode_len();
    let w = ws_run_exec(v, a);
    let p = a + w;
    if w == 0 {
        return None;
    }
    match unit_exec(v, p, 'h') {
        Some((j, d)) => {
            let e = hour_suffix_exec(v, j + 1);
            let b = ws_run_exec(v, e);
            let q = e + b;
            match unit_exec(v, q, 'm') {
                Some((j2, d2)) => {
                    let f = minute_suffix_exec(v, j2 + 1);
                    match tail_exec(v, f) {
                        Some(k) => return Some((Some((p, d)), Some((q, d2)), k)),
                        None => {},
                    }
                },
                None => {},
            }
            if b >= 1 && q < v.len() && no_nl_from(v, q) {
                return Some((Some((p, d)), None, q));
            }
        },
        None => {},
    }
    match unit_exec(v, p, 'm') {
        Some((j2, d2)) => {
            let f = minute_suffix_exec(v, j2 + 1);
            match tail_exec(v, f) {
                Some(k) => return Some((None, Some((p, d2)), k)),
                None => {},
            }
        },
        None => {},
    }
    if w >= 2 && p < v.len() && no_nl_from(v, p) {
        Some((None, None, p))
    } else {
        None
    }
}

/// Whether the minutes of a log command fit in an i64 (for a caller that
/// must check before `parse`).
pub fn log_minutes_fit(input: &str) -> (r: bool)
    ensures
        r == log_fits(trim(input@)),
{
    let v = trimmed_chars(input);
    match log_groups_exec(&v) {
        Some((h, m, k)) => {
            proof {
                match h {
                    Some((i, d)) => lemma_unit_amount(v@, i as int, d as int),
                    None => {},
                }
                match m {
                    Some((i, d)) => lemma_unit_amount(v@, i as int, d as int),
                    None => {},
                }
            }
            let hours = amount_exec(&v, h);
            let mins = amount_exec(&v, m);
            hours <= (i64::MAX - mins) / 60
        },
        None => true,
    }
}

fn try_log(v: &Vec<char>, today: &str) -> (r: Option<AiAction>)
    requires
        log_fits(v@),
    ensures
        action_opt(r) == log_spec(v@, today@),
{
    let (h, m, k) = match log_groups_exec(v) {
        Some(g) => g,
        None => return None,
    };
    proof {
        match h {
            Some((i, d)) => lemma_unit_amount(v@, i as int, d as int),
            None => {},
        }
        match m {
            Some((i, d)) => lemma_unit_amount(v@, i as int, d as int),
            None => {},
        }
    }
    let hours = amount_exec(v, h);
    let mins = amount_exec(v, m);
    let total = hours * 60 + mins;
    let rest = trimmed_rest(v, k);
    if rest.len() == 0 {
        return None;
    }
    let (activity, goal) = split_on_keyword(&rest, " on ");
    Some(
        AiAction::LogWork {
            activity: string_from(&activity),
            duration_minutes: if total > 0 {
                Some(total)
            } else {
                None
            },
            goal_ref: opt_chars(goal),
            log_date: Some(today.to_owned()),
        },
    )
}

// ---------- "move X to friday" / "reschedule X to 2026-09-01" ----------

/// `\s+to\s+(.+)$` from position `p`: the rest after "to".
pub open spec fn to_tail(s: Seq<char>, p: int) -> Option<Seq<char>> {
    if 0 <= p <= s.len() {
        let r = ws_run(s, p) as int;
        if r >= 1 && ci_at(s, p + r, "to"@) {
            tail_rest(s, p + r + "to"@.len())
        } else {
            None
        }
    } else {
        None
    }
}

/// The lazy task group `(.+?)` spanning the `n` chars from `g` lets the rest
/// of the pattern match.
pub open spec fn task_split(s: Seq<char>, g: int, n: int) -> bool {
    &&& 1 <= n
    &&& 0 <= g
    &&& g + n <= s.len()
    &&& no_nl(s.subrange(g, g + n))
    &&& to_tail(s, g + n) is Some
}

/// The split a leftmost-first engine keeps, when the keyword ends at `a` and
/// the whitespace after it ends at `top`: the greedy `\s+` makes the group
/// start as far right as it can, and for that start the lazy group is as
/// short as it can be.
pub open spec fn first_split(s: Seq<char>, a: int, top: int, g: int, n: int) -> bool {
    &&& a < g <= top
    &&& task_split(s, g, n)
    &&& forall|g2: int, n2: int| g < g2 <= top ==> !#[trigger] task_split(s, g2, n2)
    &&& forall|n2: int| 1 <= n2 < n ==> !#[trigger] task_split(s, g, n2)
}

/// `kw\s+(.+?)\s+to\s+(.+)$` at the start: the task part and the date part.
pub open spec fn resched_alt(s: Seq<char>, kw: Seq<char>) -> Option<(Seq<char>, Seq<char>)> {
    if ci_at(s, 0, kw) {
        let a = kw.len() as int;
        let top = a + ws_run(s, a);
        if exists|g: int, n: int| first_split(s, a, top, g, n) {
            let (g, n) = choose|g: int, n: int| first_split(s, a, top, g, n);
            Some((s.subrange(g, g + n), to_tail(s, g + n)->0))
        } else {
            None
        }
    } else {
        None
    }
}

/// `^(?:move|reschedule|shift)\s+(.+?)\s+to\s+(.+)$`.
pub open spec fn resched_groups(s: Seq<char>) -> Option<(Seq<char>, Seq<char>)> {
    or_else(
        resched_alt(s, "move"@),
        or_else(resched_alt(s, "reschedule"@), resched_alt(s, "shift"@)),
    )
}

/// The task reference and the resolved date; nothing when the date part
/// does not resolve.
pub open spec fn resched_spec(s: Seq<char>, today: Seq<char>) -> Option<ActionModel> {
    match resched_groups(s) {
        Some((t, d)) => match resolve_date_spec(trim(d), today) {
            Some(date) => Some(ActionModel::RescheduleTask { task_ref: trim(t), scheduled_date: date }),
            None => None,
        },
        None => None,
    }
}

proof fn lemma_first_split_unique(s: Seq<char>, a: int, top: int, g1: int, n1: int, g2: int, n2: int)
    requires
        first_split(s, a, top, g1, n1),
        first_split(s, a, top, g2, n2),
    ensures
        g1 == g2 && n1 == n2,
{
    if g1 < g2 {
        assert(!task_split(s, g2, n2));
    } else if g2 < g1 {
        assert(!task_split(s, g1, n1));
    } else if n1 < n2 {
        assert(!task_split(s, g2, n1));
    } else if n2 < n1 {
        assert(!task_split(s, g1, n2));
    }
}

fn to_tail_exec(v: &Vec<char>, p: usize) -> (r: Option<usize>)
    requires
        p <= v.len(),
    ensures
        match to_tail(v@, p as int) {
            Some(t) => r is Some && r->0 <= v.len() && t == v@.skip(r->0 as int),
            None => r is None,
        },
{
    let r = ws_run_exec(v, p);
    if r >= 1 {
        match skip_kw(v, p + r, "to") {
            Some(e) => tail_exec(v, e),
            None => None,
        }
    } else {
        None
    }
}

/// (group start, group length, start of the date part).
fn resched_alt_exec(v: &Vec<char>, kw: &str) -> (r: Option<(usize, usize, usize)>)
    ensures
        match resched_alt(v@, kw@) {
            Some((t, d)) => r matches Some((g, n, k)) && g + n <= v.len() && t == v@.subrange(
                g as int,
                g + n,
            ) && k <= v.len() && d == v@.skip(k as int),
            None => r is None,
        },
{
    if !ci_at_exec(v, 0, kw) {
        return None;
    }
    let a = kw.unicode_len();
    let top = a + ws_run_exec(v, a);
    let ghost s = v@;
    let mut g = top;
    while g > a
        invariant
            s == v@,
            a <= g <= top <= v.len(),
            a == kw@.len(),
            top == a + ws_run(s, a as int),
            ci_at(s, 0, kw@),
            forall|g2: int, n2: int| g < g2 <= top ==> !#[trigger] task_split(s, g2, n2),
        decreases g,
    {
        let mut n: usize = 1;
        while n <= v.len() - g && v[g + n - 1] != '\n'
            invariant
                s == v@,
                a < g <= top <= v.len(),
                a == kw@.len(),
                top == a + ws_run(s, a as int),
                ci_at(s, 0, kw@),
                forall|g2: int, n2: int| g < g2 <= top ==> !#[trigger] task_split(s, g2, n2),
                1 <= n,
                n <= v.len() - g + 1,
                no_nl(s.subrange(g as int, g + n - 1)),
                forall|n2: int| 1 <= n2 < n ==> !#[trigger] task_split(s, g as int, n2),
            decreases v.len() - g + 1 - n,
        {
            assert(no_nl(s.subrange(g as int, g + n))) by {
                assert forall|j: int| 0 <= j < n implies #[trigger] s.subrange(g as int, g + n)[j]
                    != '\n' by {
                    if j < n - 1 {
                        assert(s.subrange(g as int, g + n)[j] == s.subrange(g as int, g + n - 1)[j]);
                    }
                }
            }
            match to_tail_exec(v, g + n) {
                Some(k) => {
                    proof {
                        assert(task_split(s, g as int, n as int));
                        assert(first_split(s, a as int, top as int, g as int, n as int));
                        let (g1, n1) = choose|g1: int, n1: int| first_split(s, a as int, top as int, g1, n1);
                        lemma_first_split_unique(s, a as int, top as int, g1, n1, g as int, n as int);
                    }
                    return Some((g, n, k));
                },
                None => {},
            }
            n = n + 1;
        }
        assert forall|n2: int| n <= n2 implies !#[trigger] task_split(s, g as int, n2) by {
            if g + n2 <= s.len() && g + n <= s.len() {
                assert(s.subrange(g as int, g + n2)[n - 1] == s[g + n - 1]);
            }
        }
        g = g - 1;
    }
    assert(!exists|g1: int, n1: int| first_split(s, a as int, top as int, g1, n1));
    None
}

fn try_reschedule(v: &Vec<char>, today: &str) -> (r: Option<AiAction>)
    requires
        date_slices_ok(today@),
    ensures
        action_opt(r) == resched_spec(v@, today@),
{
    let mut m = resched_alt_exec(v, "move");
    if m.is_none() {
        m = resched_alt_exec(v, "reschedule");
    }
    if m.is_none() {
        m = resched_alt_exec(v, "shift");
    }
    let (g, n, k) = match m {
        Some(x) => x,
        None => return None,
    };
    let task = trim_vec(&sub_chars(v, g, g + n));
    let date_part = trimmed_rest(v, k);
    let date_text = string_from(&date_part);
    match resolve_date(date_text.as_str(), today) {
        Some(d) => Some(AiAction::RescheduleTask { task_ref: string_from(&task), scheduled_date: d }),
        None => None,
    }
}

// ---------- the whole command ----------

/// What `parse` gives: nothing for blank input, else the action of the first
/// command shape that yields one, tried in the order complete, log,
/// reschedule, add task, query.
pub open spec fn parse_spec(input: Seq<char>, today: Seq<char>) -> Option<ActionModel> {
    let s = trim(input);
    if s.len() == 0 {
        None
    } else {
        or_else(
            complete_spec(s),
            or_else(
                log_spec(s, today),
                or_else(resched_spec(s, today), or_else(add_task_spec(s, today), query_spec(s))),
            ),
        )
    }
}

/// Parses a command with no model. Returns None when nothing matches, in
/// which case the caller escalates to a provider. `today` is a local
/// `YYYY-MM-DD` date, used to resolve relative dates; the minutes of a "log"
/// command must fit in an i64 (`log_minutes_fit` tells).
pub fn parse(input: &str, today: &str) -> (r: Option<AiAction>)
    requires
        date_slices_ok(today@),
        log_fits(trim(input@)),
    ensures
        action_opt(r) == parse_spec(input@, today@),
{
    let v = trimmed_chars(input);
    if v.len() == 0 {
        return None;
    }
    if let Some(a) = try_complete(&v) {
        return Some(a);
    }
    if let Some(a) = try_log(&v, today) {
        return Some(a);
    }
    if let Some(a) = try_reschedule(&v, today) {
        return Some(a);
    }
    if let Some(a) = try_add_task(&v, today) {
        return Some(a);
    }
    try_query(&v)
}

} // verus!
