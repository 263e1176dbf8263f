//! Resolving a name the user typed to the id of one known entity.
//!
//! Matching is staged from strict to loose and stops at the first stage
//! that yields any match: an exact match always wins over a fuzzy one, and
//! a stage with several matches asks rather than picks.
use vstd::prelude::*;
use vstd::string::StringExecFns;
use vstd::std_specs::cmp::PartialEqSpecImpl;
use crate::text::{
    is_ws, is_whitespace, trim, lowercase, to_lowercase, trim_string, chars_of, chars_eq,
    byte_len, utf8_width, char_width, push_char,
};
use crate::num::{decimal, push_decimal};

verus! {

/// A candidate entity the user might mean. The AI layer never sees ids;
/// the application supplies these and matches on names.
#[derive(Debug, Clone)]
pub struct Candidate {
    pub id: String,
    pub name: String,
}

/// Two candidates are the same when their ids are.
impl PartialEq for Candidate {
    fn eq(&self, other: &Self) -> (r: bool) {
        self.id == other.id
    }
}

impl PartialEqSpecImpl for Candidate {
    open spec fn obeys_eq_spec() -> bool {
        true
    }

    open spec fn eq_spec(&self, other: &Self) -> bool {
        self.id@ == other.id@
    }
}

#[derive(Debug, Clone, PartialEq)]
pub enum Resolution {
    /// Exactly one match.
    Resolved(String),
    /// Several plausible matches: ask the user, never pick one.
    Ambiguous(Vec<Candidate>),
    /// Nothing matched.
    NotFound,
}

/// (id, name) of a candidate.
pub open spec fn cand_view(c: Candidate) -> (Seq<char>, Seq<char>) {
    (c.id@, c.name@)
}

pub open spec fn cands_view(s: Seq<Candidate>) -> Seq<(Seq<char>, Seq<char>)> {
    s.map_values(|c: Candidate| cand_view(c))
}

pub enum ResolutionModel {
    Resolved(Seq<char>),
    Ambiguous(Seq<(Seq<char>, Seq<char>)>),
    NotFound,
}

impl View for Resolution {
    type V = ResolutionModel;

    open spec fn view(&self) -> ResolutionModel {
        match self {
            Resolution::Resolved(id) => ResolutionModel::Resolved(id@),
            Resolution::Ambiguous(v) => ResolutionModel::Ambiguous(cands_view(v@)),
            Resolution::NotFound => ResolutionModel::NotFound,
        }
    }
}

/// `t` starts with `p`.
pub open spec fn starts_with(t: Seq<char>, p: Seq<char>) -> bool {
    p.len() <= t.len() && t.subrange(0, p.len() as int) == p
}

/// `w` occurs in `t` as a run of consecutive chars (an empty `w` always
/// does). On UTF-8 text this is exactly `str::contains`.
pub open spec fn occurs_in(w: Seq<char>, t: Seq<char>) -> bool {
    exists|k: int| 0 <= k && k + w.len() <= t.len() && #[trigger] t.subrange(k, k + w.len()) == w
}

/// `s[i..j]` is one of the whitespace-separated words of `s`.
pub open spec fn is_word(s: Seq<char>, i: int, j: int) -> bool {
    &&& 0 <= i < j <= s.len()
    &&& (i == 0 || is_ws(s[i - 1]))
    &&& (j == s.len() || is_ws(s[j]))
    &&& forall|k: int| i <= k < j ==> !is_ws(#[trigger] s[k])
}

/// A word longer than two bytes.
pub open spec fn significant(s: Seq<char>, i: int, j: int) -> bool {
    is_word(s, i, j) && byte_len(s.subrange(i, j)) > 2
}

pub open spec fn has_significant(s: Seq<char>) -> bool {
    exists|i: int, j: int| significant(s, i, j)
}

/// Every significant word of `needle` occurs in `name`, in any order.
pub open spec fn words_in(needle: Seq<char>, name: Seq<char>) -> bool {
    forall|i: int, j: int| significant(needle, i, j) ==> occurs_in(needle.subrange(i, j), name)
}

/// Whether lowercased `name` passes stage `k` for lowercased `needle`:
/// 0 exact, 1 prefix, 2 substring either way, 3 all significant words.
pub open spec fn stage_matches(k: int, name: Seq<char>, needle: Seq<char>) -> bool {
    if k == 0 {
        name == needle
    } else if k == 1 {
        starts_with(name, needle)
    } else if k == 2 {
        occurs_in(needle, name) || occurs_in(name, needle)
    } else {
        words_in(needle, name)
    }
}

/// The candidates among the first `n` whose name passes stage `k`, in order.
pub open spec fn hits_upto(
    cands: Seq<(Seq<char>, Seq<char>)>,
    names: Seq<Seq<char>>,
    k: int,
    needle: Seq<char>,
    n: int,
) -> Seq<(Seq<char>, Seq<char>)>
    decreases n,
{
    if n <= 0 {
        seq![]
    } else {
        let rest = hits_upto(cands, names, k, needle, n - 1);
        if stage_matches(k, names[n - 1], needle) {
            rest.push(cands[n - 1])
        } else {
            rest
        }
    }
}

pub open spec fn stage_hits(
    cands: Seq<(Seq<char>, Seq<char>)>,
    names: Seq<Seq<char>>,
    k: int,
    needle: Seq<char>,
) -> Seq<(Seq<char>, Seq<char>)> {
    hits_upto(cands, names, k, needle, cands.len() as int)
}

/// What a stage decides: one hit resolves, several are ambiguous, none
/// passes on to the next stage.
pub open spec fn outcome(hits: Seq<(Seq<char>, Seq<char>)>) -> Option<ResolutionModel> {
    if hits.len() == 1 {
        Some(ResolutionModel::Resolved(hits[0].0))
    } else if hits.len() > 1 {
        Some(ResolutionModel::Ambiguous(hits))
    } else {
        None
    }
}

/// Resolution of a lowercased, trimmed `needle` against candidates whose
/// lowercased names are `names`.
pub open spec fn resolve_names(
    needle: Seq<char>,
    cands: Seq<(Seq<char>, Seq<char>)>,
    names: Seq<Seq<char>>,
) -> ResolutionModel {
    if needle.len() == 0 {
        ResolutionModel::NotFound
    } else if outcome(stage_hits(cands, names, 0, needle)) is Some {
        outcome(stage_hits(cands, names, 0, needle))->0
    } else if outcome(stage_hits(cands, names, 1, needle)) is Some {
        outcome(stage_hits(cands, names, 1, needle))->0
    } else if outcome(stage_hits(cands, names, 2, needle)) is Some {
        outcome(stage_hits(cands, names, 2, needle))->0
    } else if has_significant(needle) && outcome(stage_hits(cands, names, 3, needle)) is Some {
        outcome(stage_hits(cands, names, 3, needle))->0
    } else {
        ResolutionModel::NotFound
    }
}

/// The lowercased names of the candidates.
pub open spec fn lowered_names(cands: Seq<Candidate>) -> Seq<Seq<char>> {
    cands.map_values(|c: Candidate| lowercase(c.name@))
}

/// What `resolve` gives.
pub open spec fn resolve_spec(reference: Seq<char>, cands: Seq<Candidate>) -> ResolutionModel {
    resolve_names(lowercase(trim(reference)), cands_view(cands), lowered_names(cands))
}

// ---------- text searches ----------

fn starts_with_exec(t: &Vec<char>, p: &Vec<char>) -> (r: bool)
    ensures
        r == starts_with(t@, p@),
{
    if p.len() > t.len() {
        return false;
    }
    let mut i: usize = 0;
    while i < p.len()
        invariant
            p.len() <= t.len(),
            i <= p.len(),
            forall|k: int| 0 <= k < i ==> t@[k] == p@[k],
        decreases p.len() - i,
    {
        if t[i] != p[i] {
            assert(t@.subrange(0, p.len() as int)[i as int] != p@[i as int]);
            return false;
        }
        i = i + 1;
    }
    assert(t@.subrange(0, p.len() as int) =~= p@);
    true
}

/// `t[k..k + w.len()] == w`.
fn window_eq(t: &Vec<char>, k: usize, w: &Vec<char>) -> (r: bool)
    requires
        k + w.len() <= t.len(),
    ensures
        r == (t@.subrange(k as int, k + w.len()) == w@),
{
    let mut i: usize = 0;
    while i < w.len()
        invariant
            k + w.len() <= t.len(),
            i <= w.len(),
            forall|j: int| 0 <= j < i ==> t@[k + j] == w@[j],
        decreases w.len() - i,
    {
        if t[k + i] != w[i] {
            assert(t@.subrange(k as int, k + w.len())[i as int] != w@[i as int]);
            return false;
        }
        i = i + 1;
    }
    assert(t@.subrange(k as int, k + w.len()) =~= w@);
    true
}

/// Whether `w` occurs in `t`.
fn occurs_exec(w: &Vec<char>, t: &Vec<char>) -> (r: bool)
    ensures
        r == occurs_in(w@, t@),
{
    if w.len() > t.len() {
        return false;
    }
    let last = t.len() - w.len();
    let mut k: usize = 0;
    while k < last
        invariant
            last == t.len() - w.len(),
            w.len() <= t.len(),
            k <= last,
            forall|k2: int| 0 <= k2 < k ==> #[trigger] t@.subrange(k2, k2 + w.len()) != w@,
        decreases last - k,
    {
        if window_eq(t, k, w) {
            return true;
        }
        k = k + 1;
    }
    window_eq(t, last, w)
}

proof fn lemma_byte_len_bounds(s: Seq<char>)
    ensures
        s.len() <= byte_len(s) <= 4 * s.len(),
    decreases s.len(),
{
    if s.len() > 0 {
        lemma_byte_len_bounds(s.drop_first());
    }
}

/// Whether the chars `s[i..j]` take more than two bytes.
fn more_than_two_bytes(s: &Vec<char>, i: usize, j: usize) -> (r: bool)
    requires
        i < j <= s.len(),
    ensures
        r == (byte_len(s@.subrange(i as int, j as int)) > 2),
{
    let ghost w = s@.subrange(i as int, j as int);
    proof { lemma_byte_len_bounds(w); }
    if j - i >= 3 {
        return true;
    }
    let first = char_width(s[i]);
    assert(w[0] == s@[i as int]);
    assert(byte_len(w) == first + byte_len(w.drop_first()));
    if j - i == 1 {
        assert(w.drop_first().len() == 0);
        first > 2
    } else {
        let second = char_width(s[i + 1]);
        assert(w.drop_first()[0] == s@[i + 1]);
        assert(byte_len(w.drop_first()) == second + byte_len(w.drop_first().drop_first()));
        assert(w.drop_first().drop_first().len() == 0);
        first + second > 2
    }
}

/// Whether the word starting at `i` extends to `j`: the non-whitespace run.
fn word_end(s: &Vec<char>, i: usize) -> (j: usize)
    requires
        i < s.len(),
        !is_ws(s@[i as int]),
    ensures
        i < j <= s.len(),
        forall|k: int| i <= k < j ==> !is_ws(#[trigger] s@[k]),
        j == s.len() || is_ws(s@[j as int]),
{
    let mut j = i + 1;
    while j < s.len() && !is_whitespace(s[j])
        invariant
            i < j <= s.len(),
            forall|k: int| i <= k < j ==> !is_ws(#[trigger] s@[k]),
        decreases s.len() - j,
    {
        j = j + 1;
    }
    j
}

/// A word of `s` starting at `i` ends where the non-whitespace run does.
proof fn lemma_word_at(s: Seq<char>, i: int, j: int, b: int)
    requires
        0 <= i < j <= s.len(),
        forall|k: int| i <= k < j ==> !is_ws(#[trigger] s[k]),
        j == s.len() || is_ws(s[j]),
        is_word(s, i, b),
    ensures
        b == j,
{
    if b < j {
        assert(!is_ws(s[b]));
    } else if b > j {
        assert(!is_ws(s[j]));
    }
}

/// Whether `needle` has a word longer than two bytes (and, when `name` is
/// given, whether every such word occurs in it).
fn scan_words(needle: &Vec<char>, name: &Vec<char>) -> (r: (bool, bool))
    ensures
        r.0 == has_significant(needle@),
        r.1 == words_in(needle@, name@),
{
    let ghost s = needle@;
    let mut i: usize = 0;
    let mut found = false;
    let mut all = true;
    while i < needle.len()
        invariant
            s == needle@,
            i <= needle.len(),
            i == 0 || i == needle.len() || is_ws(s[i - 1]) || is_ws(s[i as int]),
            found == exists|a: int, b: int| a < i && significant(s, a, b),
            all == forall|a: int, b: int|
                a < i && significant(s, a, b) ==> occurs_in(s.subrange(a, b), name@),
        decreases needle.len() - i,
    {
        if is_whitespace(needle[i]) {
            assert forall|a: int, b: int| a < i + 1 && significant(s, a, b) implies a < i by {
                if a == i {
                    assert(!is_ws(s[a]));
                }
            }
            i = i + 1;
        } else {
            let j = word_end(needle, i);
            let starts_word = i == 0 || is_whitespace(needle[i - 1]);
            if !starts_word {
                assert(is_ws(s[i as int]));
            }
            assert(is_word(s, i as int, j as int));
            let big = more_than_two_bytes(needle, i, j);
            let ghost w = s.subrange(i as int, j as int);
            assert forall|a: int, b: int| i < a < j implies !is_word(s, a, b) by {
                assert(!is_ws(s[a - 1]));
            }
            assert forall|b: int| is_word(s, i as int, b) implies b == j by {
                lemma_word_at(s, i as int, j as int, b);
            }
            if big {
                let piece = crate::text::sub_chars(needle, i, j);
                let inside = occurs_exec(&piece, name);
                assert(piece@ == w);
                found = true;
                all = all && inside;
            }
            assert(found == exists|a: int, b: int| a < j && significant(s, a, b)) by {
                if big {
                    assert(significant(s, i as int, j as int));
                }
            }
            assert(all == forall|a: int, b: int|
                a < j && significant(s, a, b) ==> occurs_in(s.subrange(a, b), name@)) by {
                assert forall|a: int, b: int| a < j && significant(s, a, b) && a >= i implies a == i
                    && b == j && big by {
                    if a > i {
                        assert(!is_word(s, a, b));
                    }
                }
            }
            i = j;
        }
    }
    assert(found == has_significant(s)) by {
        if has_significant(s) {
            let (a, b) = choose|a: int, b: int| significant(s, a, b);
            assert(a < i);
        }
    }
    assert(all == words_in(s, name@)) by {
        assert forall|a: int, b: int| significant(s, a, b) implies a < i by {}
    }
    (found, all)
}

// ---------- stages ----------

fn copy_candidate(c: &Candidate) -> (r: Candidate)
    ensures
        cand_view(r) == cand_view(*c),
{
    Candidate { id: c.id.clone(), name: c.name.clone() }
}

fn stage_matches_exec(k: usize, name: &Vec<char>, needle: &Vec<char>) -> (r: bool)
    ensures
        r == stage_matches(k as int, name@, needle@),
{
    if k == 0 {
        chars_eq(name, needle)
    } else if k == 1 {
        starts_with_exec(name, needle)
    } else if k == 2 {
        occurs_exec(needle, name) || occurs_exec(name, needle)
    } else {
        scan_words(needle, name).1
    }
}

pub open spec fn chars_view(v: Seq<Vec<char>>) -> Seq<Seq<char>> {
    v.map_values(|x: Vec<char>| x@)
}

pub open spec fn strings_view(v: Seq<String>) -> Seq<Seq<char>> {
    v.map_values(|x: String| x@)
}

/// The candidates whose name passes stage `k`, in order.
fn collect_stage(k: usize, needle: &Vec<char>, candidates: &[Candidate], names: &Vec<Vec<char>>) -> (hits: Vec<Candidate>)
    requires
        names.len() == candidates.len(),
    ensures
        cands_view(hits@) == stage_hits(cands_view(candidates@), chars_view(names@), k as int, needle@),
{
    let ghost cv = cands_view(candidates@);
    let ghost nv = chars_view(names@);
    let mut hits: Vec<Candidate> = Vec::new();
    let mut i: usize = 0;
    while i < candidates.len()
        invariant
            names.len() == candidates.len(),
            i <= candidates.len(),
            cv == cands_view(candidates@),
            nv == chars_view(names@),
            cands_view(hits@) == hits_upto(cv, nv, k as int, needle@, i as int),
        decreases candidates.len() - i,
    {
        assert(nv[i as int] == names@[i as int]@);
        assert(cv[i as int] == cand_view(candidates@[i as int]));
        if stage_matches_exec(k, &names[i], needle) {
            let c = copy_candidate(&candidates[i]);
            let ghost before = hits@;
            hits.push(c);
            assert(cands_view(hits@) =~= cands_view(before).push(cand_view(c)));
        }
        i = i + 1;
    }
    hits
}

/// Resolves a lowercased, trimmed reference against candidates whose
/// lowercased names are `names` (one per candidate, in order).
pub fn resolve_lowered(needle: &str, candidates: &[Candidate], names: &[String]) -> (r: Resolution)
    requires
        names.len() == candidates.len(),
    ensures
        r@ == resolve_names(needle@, cands_view(candidates@), strings_view(names@)),
{
    let nv = chars_of(needle);
    if nv.len() == 0 {
        return Resolution::NotFound;
    }
    let mut lowered: Vec<Vec<char>> = Vec::new();
    let mut i: usize = 0;
    while i < names.len()
        invariant
            i <= names.len(),
            lowered.len() == i,
            chars_view(lowered@) == strings_view(names@).take(i as int),
        decreases names.len() - i,
    {
        let ghost before = lowered@;
        let v = chars_of(names[i].as_str());
        lowered.push(v);
        assert forall|j: int| 0 <= j < i + 1 implies #[trigger] chars_view(lowered@)[j]
            == strings_view(names@).take(i + 1)[j] by {
            assert(chars_view(lowered@)[j] == lowered@[j]@);
            assert(strings_view(names@).take(i + 1)[j] == names@[j]@);
            if j < i {
                assert(lowered@[j] == before[j]);
                assert(chars_view(before)[j] == before[j]@);
                assert(chars_view(before)[j] == strings_view(names@).take(i as int)[j]);
            }
        }
        assert(chars_view(lowered@) =~= strings_view(names@).take(i + 1));
        i = i + 1;
    }
    assert(chars_view(lowered@) =~= strings_view(names@));
    let mut k: usize = 0;
    while k < 4
        invariant
            k <= 4,
            names.len() == candidates.len(),
            lowered.len() == candidates.len(),
            nv@ == needle@,
            nv.len() > 0,
            chars_view(lowered@) == strings_view(names@),
            forall|k2: int| 0 <= k2 < k ==> outcome(
                #[trigger] stage_hits(cands_view(candidates@), strings_view(names@), k2, needle@),
            ) is None || (k2 == 3 && !has_significant(needle@)),
        decreases 4 - k,
    {
        if k == 3 && !scan_words(&nv, &nv).0 {
            return Resolution::NotFound;
        }
        let hits = collect_stage(k, &nv, candidates, &lowered);
        if hits.len() == 1 {
            return Resolution::Resolved(hits[0].id.clone());
        }
        if hits.len() > 1 {
            return Resolution::Ambiguous(hits);
        }
        k = k + 1;
    }
    Resolution::NotFound
}

/// Resolves a name to an entity id, ignoring case and surrounding
/// whitespace: exact, then prefix, then substring either way, then all
/// significant words in any order. A stage with several matches is
/// ambiguous; no stage with any match is NotFound.
pub fn resolve(reference: &str, candidates: &[Candidate]) -> (r: Resolution)
    ensures
        r@ == resolve_spec(reference@, candidates@),
{
    let t = trim_string(reference);
    let needle = to_lowercase(t.as_str());
    let mut names: Vec<String> = Vec::new();
    let mut i: usize = 0;
    while i < candidates.len()
        invariant
            i <= candidates.len(),
            names.len() == i,
            strings_view(names@) == lowered_names(candidates@).take(i as int),
        decreases candidates.len() - i,
    {
        let ghost before = names@;
        let low = to_lowercase(candidates[i].name.as_str());
        names.push(low);
        assert forall|j: int| 0 <= j < i + 1 implies #[trigger] strings_view(names@)[j]
            == lowered_names(candidates@).take(i + 1)[j] by {
            assert(strings_view(names@)[j] == names@[j]@);
            assert(lowered_names(candidates@).take(i + 1)[j] == lowercase(candidates@[j].name@));
            if j < i {
                assert(names@[j] == before[j]);
                assert(strings_view(before)[j] == before[j]@);
                assert(strings_view(before)[j] == lowered_names(candidates@).take(i as int)[j]);
            }
        }
        assert(strings_view(names@) =~= lowered_names(candidates@).take(i + 1));
        i = i + 1;
    }
    assert(strings_view(names@) =~= lowered_names(candidates@));
    resolve_lowered(needle.as_str(), candidates, names.as_slice())
}

/// The question shown when a reference is ambiguous.
pub open spec fn clarification_text(reference: Seq<char>, count: nat) -> Seq<char> {
    seq!['"'] + reference + "\" could mean "@ + decimal(count) + " things. Which did you mean?"@
}

/// Builds the clarification question shown when a reference is ambiguous.
pub fn clarification_question(reference: &str, candidates: &[Candidate]) -> (r: String)
    ensures
        r@ == clarification_text(reference@, candidates@.len()),
{
    let mut s = String::new();
    push_char(&mut s, '"');
    s.append(reference);
    s.append("\" could mean ");
    push_decimal(&mut s, candidates.len() as u64);
    s.append(" things. Which did you mean?");
    assert(s@ =~= clarification_text(reference@, candidates@.len()));
    s
}

// ---------- laws ----------

/// When exactly one of the first `n` names passes stage `k`, the stage's
/// hits are that one candidate.
proof fn lemma_single_hit(
    cands: Seq<(Seq<char>, Seq<char>)>,
    names: Seq<Seq<char>>,
    k: int,
    needle: Seq<char>,
    m: int,
    n: int,
)
    requires
        0 <= m < n,
        stage_matches(k, names[m], needle),
        forall|j: int| 0 <= j < n && j != m ==> !stage_matches(k, #[trigger] names[j], needle),
    ensures
        hits_upto(cands, names, k, needle, n) == seq![cands[m]],
    decreases n,
{
    if n - 1 > m {
        lemma_single_hit(cands, names, k, needle, m, n - 1);
    } else {
        lemma_no_hit(cands, names, k, needle, m);
        assert(hits_upto(cands, names, k, needle, m).push(cands[m]) =~= seq![cands[m]]);
    }
}

proof fn lemma_no_hit(
    cands: Seq<(Seq<char>, Seq<char>)>,
    names: Seq<Seq<char>>,
    k: int,
    needle: Seq<char>,
    n: int,
)
    requires
        forall|j: int| 0 <= j < n ==> !stage_matches(k, #[trigger] names[j], needle),
    ensures
        hits_upto(cands, names, k, needle, n).len() == 0,
    decreases n,
{
    if n > 0 {
        lemma_no_hit(cands, names, k, needle, n - 1);
    }
}

/// `x` is one of the first `n` candidates, with a name that passes stage `k`.
pub open spec fn hit_from(
    cands: Seq<(Seq<char>, Seq<char>)>,
    names: Seq<Seq<char>>,
    k: int,
    needle: Seq<char>,
    n: int,
    x: (Seq<char>, Seq<char>),
) -> bool {
    exists|i: int| 0 <= i < n && stage_matches(k, names[i], needle) && x == #[trigger] cands[i]
}

/// Every hit of a stage is one of the candidates whose name passes it.
proof fn lemma_hits_from(
    cands: Seq<(Seq<char>, Seq<char>)>,
    names: Seq<Seq<char>>,
    k: int,
    needle: Seq<char>,
    n: int,
)
    ensures
        forall|h: int|
            0 <= h < hits_upto(cands, names, k, needle, n).len() ==> hit_from(
                cands,
                names,
                k,
                needle,
                n,
                #[trigger] hits_upto(cands, names, k, needle, n)[h],
            ),
    decreases n,
{
    if n > 0 {
        lemma_hits_from(cands, names, k, needle, n - 1);
        let rest = hits_upto(cands, names, k, needle, n - 1);
        let all = hits_upto(cands, names, k, needle, n);
        assert forall|h: int| 0 <= h < all.len() implies hit_from(cands, names, k, needle, n, #[trigger] all[h]) by {
            if h < rest.len() {
                assert(all[h] == rest[h]);
                assert(hit_from(cands, names, k, needle, n - 1, rest[h]));
                let i = choose|i: int|
                    0 <= i < n - 1 && stage_matches(k, names[i], needle) && rest[h] == #[trigger] cands[i];
                assert(0 <= i < n && stage_matches(k, names[i], needle) && all[h] == cands[i]);
            } else {
                assert(stage_matches(k, names[n - 1], needle));
                assert(all[h] == cands[n - 1]);
            }
        }
    }
}

/// An exact match wins: when exactly one candidate's lowercased name is
/// the lowercased reference, it resolves to that candidate, whatever
/// prefix, substring or word matches the others make.
pub proof fn lemma_exact_match_wins(
    needle: Seq<char>,
    cands: Seq<(Seq<char>, Seq<char>)>,
    names: Seq<Seq<char>>,
    m: int,
)
    requires
        needle.len() > 0,
        cands.len() == names.len(),
        0 <= m < names.len(),
        names[m] == needle,
        forall|j: int| 0 <= j < names.len() && j != m ==> #[trigger] names[j] != needle,
    ensures
        resolve_names(needle, cands, names) == ResolutionModel::Resolved(cands[m].0),
{
    lemma_single_hit(cands, names, 0, needle, m, names.len() as int);
}

/// Whatever resolves is the id of a candidate; whatever is ambiguous is two
/// or more of the candidates. Nothing is made up.
pub proof fn lemma_resolution_from_candidates(
    needle: Seq<char>,
    cands: Seq<(Seq<char>, Seq<char>)>,
    names: Seq<Seq<char>>,
)
    requires
        cands.len() == names.len(),
    ensures
        resolve_names(needle, cands, names) matches ResolutionModel::Resolved(id) ==> exists|i: int|
            0 <= i < cands.len() && #[trigger] cands[i].0 == id,
        resolve_names(needle, cands, names) matches ResolutionModel::Ambiguous(list) ==> list.len()
            >= 2 && forall|h: int|
            0 <= h < list.len() ==> exists|i: int| 0 <= i < cands.len() && #[trigger] list[h] == cands[i],
{
    let n = cands.len() as int;
    lemma_hits_from(cands, names, 0, needle, n);
    lemma_hits_from(cands, names, 1, needle, n);
    lemma_hits_from(cands, names, 2, needle, n);
    lemma_hits_from(cands, names, 3, needle, n);
    let r = resolve_names(needle, cands, names);
    if r is Resolved || r is Ambiguous {
        let k = if outcome(stage_hits(cands, names, 0, needle)) is Some {
            0int
        } else if outcome(stage_hits(cands, names, 1, needle)) is Some {
            1int
        } else if outcome(stage_hits(cands, names, 2, needle)) is Some {
            2int
        } else {
            3int
        };
        let hits = stage_hits(cands, names, k, needle);
        assert(outcome(hits) == Some(r));
        if r is Resolved {
            assert(hit_from(cands, names, k, needle, n, hits_upto(cands, names, k, needle, n)[0]));
            let i = choose|i: int| 0 <= i < n && stage_matches(k, names[i], needle) && hits[0] == #[trigger] cands[i];
            assert(cands[i].0 == r->Resolved_0);
        } else {
            assert forall|h: int| 0 <= h < hits.len() implies exists|i: int|
                0 <= i < cands.len() && #[trigger] hits[h] == cands[i] by {
                assert(hit_from(cands, names, k, needle, n, hits_upto(cands, names, k, needle, n)[h]));
                let i = choose|i: int| 0 <= i < n && stage_matches(k, names[i], needle) && hits[h] == #[trigger] cands[i];
            }
        }
    }
}

/// Matching ignores case and surrounding whitespace: references that trim
/// and lowercase to the same text resolve the same way.
pub proof fn lemma_resolve_ignores_case(a: Seq<char>, b: Seq<char>, cands: Seq<Candidate>)
    requires
        lowercase(trim(a)) == lowercase(trim(b)),
    ensures
        resolve_spec(a, cands) == resolve_spec(b, cands),
{
}

} // verus!
