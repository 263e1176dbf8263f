//! Keeping the database healthy: which schema migrations are pending, how
//! backups are named, which daily backups to prune, and which dates the
//! planning snapshot covers.
use vstd::prelude::*;
use vstd::string::StringExecFns;
use crate::dates::{date_slices_ok, add_days, add_days_spec, lemma_date_day_range};
use crate::num::{padded_text, push_padded};
use crate::resolver::starts_with;
use crate::text::{chars_of, seq_lt, chars_lt, chars_eq};

verus! {

// ---------- migrations ----------

/// The forward migrations, in order: (version, name). Append only.
pub open spec fn migration_list() -> Seq<(int, Seq<char>)> {
    seq![(1int, "initial"@), (2int, "milestone_task_links"@)]
}

/// Highest schema version this build understands.
pub fn target_version() -> (r: i32)
    ensures
        r == migration_list().last().0,
{
    2
}

/// What a migration run reports.
#[derive(Debug, Clone)]
pub struct MigrationReport {
    pub from: i32,
    pub to: i32,
    pub applied: Vec<(i32, String)>,
    pub backup: Option<String>,
}

/// The database was written by a newer build.
#[derive(Debug, Clone, Copy, PartialEq, Eq, Structural)]
pub struct SchemaTooNew {
    pub found: i32,
    pub supported: i32,
}

/// The migrations of `l` with a version above `from`, in order.
pub open spec fn after_version(l: Seq<(int, Seq<char>)>, from: int) -> Seq<(int, Seq<char>)>
    decreases l.len(),
{
    if l.len() == 0 {
        seq![]
    } else {
        let rest = after_version(l.drop_last(), from);
        if l.last().0 > from {
            rest.push(l.last())
        } else {
            rest
        }
    }
}

/// The migrations newer than `from`, in order.
pub open spec fn pending_after(from: int) -> Seq<(int, Seq<char>)> {
    after_version(migration_list(), from)
}

pub open spec fn applied_view(v: Seq<(i32, String)>) -> Seq<(int, Seq<char>)> {
    v.map_values(|p: (i32, String)| (p.0 as int, p.1@))
}

/// The migrations to apply to a database at schema version `from`, or that
/// the database is newer than this build.
pub fn pending_migrations(from: i32) -> (r: Result<Vec<(i32, String)>, SchemaTooNew>)
    ensures
        from > migration_list().last().0 ==> r == Err::<Vec<(i32, String)>, SchemaTooNew>(
            SchemaTooNew { found: from, supported: 2 },
        ),
        from <= migration_list().last().0 ==> (r matches Ok(v) && applied_view(v@) == pending_after(
            from as int,
        )),
{
    let to = target_version();
    if from > to {
        return Err(SchemaTooNew { found: from, supported: to });
    }
    let mut v: Vec<(i32, String)> = Vec::new();
    if 1 > from {
        v.push((1, String::from_str("initial")));
    }
    if 2 > from {
        v.push((2, String::from_str("milestone_task_links")));
    }
    proof {
        reveal_strlit("initial");
        reveal_strlit("milestone_task_links");
        let l = migration_list();
        assert(l.drop_last() =~= seq![(1int, "initial"@)]);
        assert(l.drop_last().drop_last() =~= Seq::<(int, Seq<char>)>::empty());
        reveal_with_fuel(after_version, 3);
        assert(applied_view(v@) =~= pending_after(from as int));
    }
    Ok(v)
}

/// A database at the target version has nothing pending, and running the
/// pending migrations from any older version ends at the target: a second
/// run is a no-op.
pub proof fn lemma_migrations_reach_target(from: int)
    requires
        from < migration_list().last().0,
    ensures
        pending_after(from).len() > 0,
        pending_after(from).last().0 == migration_list().last().0,
        pending_after(migration_list().last().0).len() == 0,
{
    reveal_strlit("initial");
    reveal_strlit("milestone_task_links");
    let l = migration_list();
    assert(l.drop_last() =~= seq![(1int, "initial"@)]);
    assert(l.drop_last().drop_last() =~= Seq::<(int, Seq<char>)>::empty());
    reveal_with_fuel(after_version, 3);
}

/// A backup is taken before a run exactly when the run has migrations to
/// apply (for a database this build understands).
pub proof fn lemma_backup_iff_pending(from: int)
    requires
        from <= migration_list().last().0,
    ensures
        (from < migration_list().last().0) <==> pending_after(from).len() > 0,
{
    reveal_strlit("initial");
    reveal_strlit("milestone_task_links");
    let l = migration_list();
    assert(l.drop_last() =~= seq![(1int, "initial"@)]);
    assert(l.drop_last().drop_last() =~= Seq::<(int, Seq<char>)>::empty());
    reveal_with_fuel(after_version, 3);
}

/// Whether a migration run must take a backup first: only when work is
/// pending.
pub fn needs_backup(from: i32) -> (r: bool)
    ensures
        r == (from < migration_list().last().0),
{
    from < target_version()
}

/// The report of a run from version `from` that applied `applied`.
pub fn migration_report(from: i32, applied: Vec<(i32, String)>) -> (r: MigrationReport)
    ensures
        r.from == from,
        r.to == migration_list().last().0,
        r.applied == applied,
        r.backup is None,
{
    MigrationReport { from, to: target_version(), applied, backup: None }
}

// ---------- backups ----------

/// Why a backup was taken. Becomes part of the file name.
#[derive(Debug, Clone, Copy, PartialEq, Eq, Structural)]
pub enum BackupReason {
    Daily,
    PreMigration,
    Manual,
}

pub open spec fn reason_tag(r: BackupReason) -> Seq<char> {
    match r {
        BackupReason::Daily => "daily"@,
        BackupReason::PreMigration => "premigration"@,
        BackupReason::Manual => "manual"@,
    }
}

impl BackupReason {
    pub fn tag(self) -> (r: &'static str)
        ensures
            r@ == reason_tag(self),
    {
        match self {
            BackupReason::Daily => "daily",
            BackupReason::PreMigration => "premigration",
            BackupReason::Manual => "manual",
        }
    }
}

/// "stark-YYYYMMDD", the start of every backup name of that day.
pub open spec fn day_prefix(year: int, month: int, day: int) -> Seq<char> {
    "stark-"@ + padded_text(year, 4) + padded_text(month, 2) + padded_text(day, 2)
}

/// "stark-YYYYMMDD-HHMMSS-TAG.db": file names are timestamped, so their
/// text order is their time order.
pub open spec fn backup_name(year: int, month: int, day: int, hour: int, minute: int, second: int, reason: BackupReason) -> Seq<char> {
    day_prefix(year, month, day) + "-"@ + padded_text(hour, 2) + padded_text(minute, 2) + padded_text(
        second,
        2,
    ) + "-"@ + reason_tag(reason) + ".db"@
}

pub fn daily_prefix(year: i32, month: u8, day: u8) -> (r: String)
    ensures
        r@ == day_prefix(year as int, month as int, day as int),
{
    let mut s = String::from_str("stark-");
    push_padded(&mut s, year as i64, 4);
    push_padded(&mut s, month as i64, 2);
    push_padded(&mut s, day as i64, 2);
    s
}

/// The file name of a backup taken at the given UTC time.
pub fn backup_file_name(year: i32, month: u8, day: u8, hour: u8, minute: u8, second: u8, reason: BackupReason) -> (r: String)
    ensures
        r@ == backup_name(year as int, month as int, day as int, hour as int, minute as int, second as int, reason),
{
    let mut s = daily_prefix(year, month, day);
    s.append("-");
    push_padded(&mut s, hour as i64, 2);
    push_padded(&mut s, minute as i64, 2);
    push_padded(&mut s, second as i64, 2);
    s.append("-");
    s.append(reason.tag());
    s.append(".db");
    s
}

/// `t` ends with `e`.
pub open spec fn ends_with(t: Seq<char>, e: Seq<char>) -> bool {
    e.len() <= t.len() && t.subrange(t.len() - e.len(), t.len() as int) == e
}

fn ends_with_exec(t: &Vec<char>, e: &Vec<char>) -> (r: bool)
    ensures
        r == ends_with(t@, e@),
{
    if e.len() > t.len() {
        return false;
    }
    let off = t.len() - e.len();
    let mut i: usize = 0;
    while i < e.len()
        invariant
            off == t.len() - e.len(),
            e.len() <= t.len(),
            i <= e.len(),
            forall|k: int| 0 <= k < i ==> t@[off + k] == e@[k],
        decreases e.len() - i,
    {
        if t[off + i] != e[i] {
            assert(t@.subrange(off as int, t.len() as int)[i as int] != e@[i as int]);
            return false;
        }
        i = i + 1;
    }
    assert(t@.subrange(off as int, t.len() as int) =~= e@);
    true
}

fn starts_with_exec(t: &Vec<char>, p: &Vec<char>) -> (r: bool)
    ensures
        r == starts_with(t@, p@),
{
    if p.len() > t.len() {
        return false;
    }
    let mut i: usize = 0;
    while i < p.len()
        invariant
            p.len() <= t.len(),
            i <= p.len(),
            forall|k: int| 0 <= k < i ==> t@[k] == p@[k],
        decreases p.len() - i,
    {
        if t[i] != p[i] {
            assert(t@.subrange(0, p.len() as int)[i as int] != p@[i as int]);
            return false;
        }
        i = i + 1;
    }
    assert(t@.subrange(0, p.len() as int) =~= p@);
    true
}

/// A daily backup's name.
pub open spec fn is_daily(name: Seq<char>) -> bool {
    ends_with(name, "-daily.db"@)
}

pub open spec fn names_view(v: Seq<String>) -> Seq<Seq<char>> {
    v.map_values(|s: String| s@)
}

/// Whether a daily backup of the day with name prefix `prefix` is among
/// `names`.
pub fn has_daily_backup(names: &[String], prefix: &str) -> (r: bool)
    ensures
        r == exists|i: int|
            0 <= i < names@.len() && starts_with(#[trigger] names@[i]@, prefix@) && is_daily(names@[i]@),
{
    let p = chars_of(prefix);
    let suffix = chars_of("-daily.db");
    let mut i: usize = 0;
    while i < names.len()
        invariant
            i <= names.len(),
            p@ == prefix@,
            suffix@ == "-daily.db"@,
            forall|k: int| 0 <= k < i ==> !(starts_with(#[trigger] names@[k]@, prefix@) && is_daily(names@[k]@)),
        decreases names.len() - i,
    {
        let n = chars_of(names[i].as_str());
        if starts_with_exec(&n, &p) && ends_with_exec(&n, &suffix) {
            return true;
        }
        i = i + 1;
    }
    false
}

/// How many daily backups among `names[..k]` are newer (sort later) than `n`.
pub open spec fn newer_dailies(names: Seq<Seq<char>>, n: Seq<char>, k: int) -> nat
    decreases k,
{
    if k <= 0 {
        0
    } else {
        newer_dailies(names, n, k - 1) + if is_daily(names[k - 1]) && seq_lt(n, names[k - 1]) {
            1nat
        } else {
            0nat
        }
    }
}

/// A name to prune: a daily backup with at least `keep` newer ones.
pub open spec fn to_prune(names: Seq<Seq<char>>, n: Seq<char>, keep: int) -> bool {
    is_daily(n) && newer_dailies(names, n, names.len() as int) >= keep
}

/// The names among the first `k` that are pruned, in order.
pub open spec fn pruned_upto(names: Seq<Seq<char>>, keep: int, k: int) -> Seq<Seq<char>>
    decreases k,
{
    if k <= 0 {
        seq![]
    } else {
        let rest = pruned_upto(names, keep, k - 1);
        if to_prune(names, names[k - 1], keep) {
            rest.push(names[k - 1])
        } else {
            rest
        }
    }
}

/// The daily backups to delete so that the `keep` most recent remain, in
/// the order given. Pre-migration and manual backups are never pruned.
/// `names` are the file names of one directory, so no two are equal.
pub fn prune_candidates(names: &[String], keep: usize) -> (r: Vec<String>)
    ensures
        names_view(r@) == pruned_upto(names_view(names@), keep as int, names@.len() as int),
{
    let ghost nv = names_view(names@);
    let suffix = chars_of("-daily.db");
    let mut all: Vec<Vec<char>> = Vec::new();
    let mut j: usize = 0;
    while j < names.len()
        invariant
            j <= names.len(),
            all.len() == j,
            nv == names_view(names@),
            forall|k: int| 0 <= k < j ==> (#[trigger] all@[k])@ == nv[k],
        decreases names.len() - j,
    {
        all.push(chars_of(names[j].as_str()));
        j = j + 1;
    }
    let mut daily: Vec<bool> = Vec::new();
    let mut j: usize = 0;
    while j < all.len()
        invariant
            j <= all.len(),
            all.len() == names.len(),
            daily.len() == j,
            suffix@ == "-daily.db"@,
            forall|k: int| 0 <= k < all.len() ==> (#[trigger] all@[k])@ == nv[k],
            forall|k: int| 0 <= k < j ==> (#[trigger] daily@[k]) == is_daily(nv[k]),
        decreases all.len() - j,
    {
        daily.push(ends_with_exec(&all[j], &suffix));
        j = j + 1;
    }
    let mut out: Vec<String> = Vec::new();
    let mut i: usize = 0;
    while i < all.len()
        invariant
            i <= all.len(),
            all.len() == names.len(),
            daily.len() == all.len(),
            nv == names_view(names@),
            forall|k: int| 0 <= k < all.len() ==> (#[trigger] all@[k])@ == nv[k],
            forall|k: int| 0 <= k < all.len() ==> (#[trigger] daily@[k]) == is_daily(nv[k]),
            names_view(out@) == pruned_upto(nv, keep as int, i as int),
        decreases all.len() - i,
    {
        if daily[i] {
            let mut newer: usize = 0;
            let mut k: usize = 0;
            while k < all.len()
                invariant
                    k <= all.len(),
                    i < all.len(),
                    daily.len() == all.len(),
                    newer <= k,
                    forall|t: int| 0 <= t < all.len() ==> (#[trigger] all@[t])@ == nv[t],
                    forall|t: int| 0 <= t < all.len() ==> (#[trigger] daily@[t]) == is_daily(nv[t]),
                    newer == newer_dailies(nv, nv[i as int], k as int),
                decreases all.len() - k,
            {
                if daily[k] && chars_lt(&all[i], &all[k]) {
                    newer = newer + 1;
                }
                k = k + 1;
            }
            if newer >= keep {
                let ghost before = out@;
                out.push(names[i].clone());
                assert(names_view(out@) =~= names_view(before).push(nv[i as int]));
            }
        }
        i = i + 1;
    }
    out
}

// ---------- the planning snapshot ----------

/// How many days ahead the snapshot holds capacity for.
pub const HORIZON_DAYS: i64 = 180;

/// The dates of the planning horizon: today and the days after it.
pub fn horizon_dates(today: &str) -> (r: Vec<String>)
    requires
        date_slices_ok(today@),
    ensures
        r@.len() == HORIZON_DAYS,
        forall|i: int| 0 <= i < r@.len() ==> (#[trigger] r@[i])@ == add_days_spec(today@, i),
{
    let mut out: Vec<String> = Vec::new();
    let mut offset: i64 = 0;
    while offset < HORIZON_DAYS
        invariant
            0 <= offset <= HORIZON_DAYS,
            out@.len() == offset,
            date_slices_ok(today@),
            forall|i: int| 0 <= i < out@.len() ==> (#[trigger] out@[i])@ == add_days_spec(today@, i),
        decreases HORIZON_DAYS - offset,
    {
        proof { lemma_date_day_range(today@); }
        out.push(add_days(today, offset));
        offset = offset + 1;
    }
    out
}

} // verus!
