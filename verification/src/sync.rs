//! The upsert engine: match CSV credentials against existing 1Password logins,
//! then create the missing ones (and, with `--update`, reconcile changed
//! passwords).

use vstd::prelude::*;
use crate::credential::{cred_host, identity_of, spec_host_of, Credential};
use crate::error::{error_message, Error};
use crate::op::{OpField, OpItem};
use crate::text::{first_line, first_line_of, lowercase, string_of};

pub use crate::dedupe::{
    dedupe, dedupe_spec, keeps_last, lemma_dedupe_idempotent, lemma_dedupe_keeps_last,
    lemma_dedupe_of_distinct,
};
pub use crate::index::{
    find_in, has_login, host_entries, index_entries, indexed_username, is_created_login,
    lemma_created_login_matches, lemma_found_is_login, lemma_login_found, EntryText, Index,
};

verus! {

/// What to do about a credential that already exists in 1Password.
#[derive(Debug, Clone, Copy, PartialEq, Eq, Structural)]
pub enum OnConflict {
    /// Leave existing items untouched (default — pure catch-up).
    Skip,
    /// Update the stored password when it differs from the CSV.
    Update,
}

/// The decided action for one credential.
#[derive(Debug, PartialEq, Eq)]
pub enum Action {
    Create,
    UpdatePassword { id: String },
    SkipExisting { id: String },
}

impl Clone for Action {
    fn clone(&self) -> (r: Self)
        ensures
            r == *self,
    {
        match self {
            Action::Create => Action::Create,
            Action::UpdatePassword { id } => Action::UpdatePassword { id: id.clone() },
            Action::SkipExisting { id } => Action::SkipExisting { id: id.clone() },
        }
    }
}

// ---------------------------------------------------------------------------
// Planning
// ---------------------------------------------------------------------------

/// `a` is the action for a credential whose existing login is `found`:
/// create it when there is none; otherwise skip it, or, with `Update`,
/// update its password.
pub open spec fn action_is(a: Action, found: Option<Seq<char>>, on_conflict: OnConflict) -> bool {
    match found {
        None => a is Create,
        Some(id) => match on_conflict {
            OnConflict::Skip => a matches Action::SkipExisting { id: x } && x@ == id,
            OnConflict::Update => a matches Action::UpdatePassword { id: x } && x@ == id,
        },
    }
}

/// `p` pairs each credential of `creds`, in order, with its action against
/// the indexed logins `entries`.
pub open spec fn is_plan(
    p: Seq<(Credential, Action)>,
    creds: Seq<Credential>,
    entries: Seq<EntryText>,
    on_conflict: OnConflict,
) -> bool {
    &&& p.len() == creds.len()
    &&& forall|i: int|
        0 <= i < p.len() ==> (#[trigger] p[i]).0 == creds[i] && action_is(
            p[i].1,
            find_in(entries, creds[i]),
            on_conflict,
        )
}

/// Decide the action for each credential given the existing index.
pub fn plan(creds: &[Credential], index: &Index, on_conflict: OnConflict) -> (r: Vec<(Credential, Action)>)
    ensures
        is_plan(r@, creds@, index.entries(), on_conflict),
        on_conflict == OnConflict::Skip ==> forall|i: int|
            0 <= i < r@.len() ==> !((#[trigger] r@[i]).1 is UpdatePassword),
{
    let mut out: Vec<(Credential, Action)> = Vec::new();
    let mut i: usize = 0;
    while i < creds.len()
        invariant
            i <= creds@.len(),
            out@.len() == i,
            forall|k: int|
                0 <= k < i ==> (#[trigger] out@[k]).0 == creds@[k] && action_is(
                    out@[k].1,
                    find_in(index.entries(), creds@[k]),
                    on_conflict,
                ),
        decreases creds.len() - i,
    {
        let c = &creds[i];
        let action = match index.find(c) {
            None => Action::Create,
            Some(id) => match on_conflict {
                OnConflict::Skip => Action::SkipExisting { id },
                OnConflict::Update => Action::UpdatePassword { id },
            },
        };
        out.push((c.clone(), action));
        i = i + 1;
    }
    out
}

// ---------------------------------------------------------------------------
// Outcomes
// ---------------------------------------------------------------------------

/// Per-credential outcome for reporting.
#[derive(Debug, Clone)]
pub struct Outcome {
    pub title: String,
    pub host: String,
    pub username: String,
    pub result: OutcomeKind,
}

#[derive(Debug, Clone, PartialEq, Eq)]
pub enum OutcomeKind {
    Created,
    Updated,
    Unchanged,
    SkippedExisting,
    Failed(String),
    Planned(&'static str),
}

/// Aggregate counts.
#[derive(Debug, Clone, Copy, PartialEq, Eq, Structural)]
pub struct Summary {
    pub created: usize,
    pub updated: usize,
    pub unchanged: usize,
    pub skipped_existing: usize,
    pub failed: usize,
    pub planned: usize,
}

impl Default for Summary {
    fn default() -> (r: Self)
        ensures
            r == zero_summary(),
    {
        Summary { created: 0, updated: 0, unchanged: 0, skipped_existing: 0, failed: 0, planned: 0 }
    }
}

/// The summary with every count at zero.
pub open spec fn zero_summary() -> Summary {
    Summary { created: 0, updated: 0, unchanged: 0, skipped_existing: 0, failed: 0, planned: 0 }
}

/// The summary of a dry run that plans `n` changes.
pub open spec fn planned_summary(n: usize) -> Summary {
    Summary { planned: n, ..zero_summary() }
}

/// A planned action counts as a change unless it leaves an existing login
/// as it is.
pub open spec fn is_change(a: Action) -> bool {
    !(a is SkipExisting)
}

/// How many of the planned actions are changes.
pub open spec fn change_count(p: Seq<(Credential, Action)>) -> nat
    decreases p.len(),
{
    if p.len() == 0 {
        0
    } else {
        change_count(p.drop_last()) + if is_change(p.last().1) {
            1nat
        } else {
            0nat
        }
    }
}

/// The sum of all counts of a summary.
pub open spec fn summary_total(s: Summary) -> int {
    s.created + s.updated + s.unchanged + s.skipped_existing + s.failed + s.planned
}

/// `s` with the count for the outcome `k` raised by one.
pub open spec fn tally(s: Summary, k: OutcomeKind) -> Summary {
    match k {
        OutcomeKind::Created => Summary { created: (s.created + 1) as usize, ..s },
        OutcomeKind::Updated => Summary { updated: (s.updated + 1) as usize, ..s },
        OutcomeKind::Unchanged => Summary { unchanged: (s.unchanged + 1) as usize, ..s },
        OutcomeKind::SkippedExisting => Summary {
            skipped_existing: (s.skipped_existing + 1) as usize,
            ..s
        },
        OutcomeKind::Failed(_) => Summary { failed: (s.failed + 1) as usize, ..s },
        OutcomeKind::Planned(w) => if w@ == "skip"@ {
            s
        } else {
            Summary { planned: (s.planned + 1) as usize, ..s }
        },
    }
}

/// The counts of a list of outcomes: one per outcome, by its kind; a dry
/// run's `would skip` is no planned change and is not counted.
pub open spec fn summary_of(os: Seq<Outcome>) -> Summary
    decreases os.len(),
{
    if os.len() == 0 {
        zero_summary()
    } else {
        tally(summary_of(os.drop_last()), os.last().result)
    }
}

/// No outcome of `os` is a dry run's.
pub open spec fn all_carried_out(os: Seq<Outcome>) -> bool {
    forall|k: int| 0 <= k < os.len() ==> !((#[trigger] os[k]).result is Planned)
}

proof fn lemma_tally_planned(s: Summary, a: Action, w: &'static str)
    requires
        w@ == planned_word(a),
    ensures
        tally(s, OutcomeKind::Planned(w)) == if is_change(a) {
            Summary { planned: (s.planned + 1) as usize, ..s }
        } else {
            s
        },
{
    reveal_strlit("skip");
    reveal_strlit("create");
    reveal_strlit("update");
    match a {
        Action::Create => assert("create"@.len() != "skip"@.len()),
        Action::UpdatePassword { .. } => assert("update"@[0] != "skip"@[0]),
        Action::SkipExisting { .. } => {},
    }
}

proof fn lemma_live_no_planned(os: Seq<Outcome>)
    requires
        all_carried_out(os),
    ensures
        summary_of(os).planned == 0,
    decreases os.len(),
{
    if os.len() > 0 {
        let p = os.drop_last();
        assert forall|k: int| 0 <= k < p.len() implies !((#[trigger] p[k]).result is Planned) by {
            assert(p[k] == os[k]);
        }
        lemma_live_no_planned(p);
        assert(!(os[os.len() - 1].result is Planned));
    }
}

proof fn lemma_dry_summary(p: Seq<(Credential, Action)>, os: Seq<Outcome>)
    requires
        os.len() == p.len(),
        p.len() <= usize::MAX,
        forall|k: int|
            0 <= k < os.len() ==> ((#[trigger] os[k]).result matches OutcomeKind::Planned(w) && w@
                == planned_word(p[k].1)),
    ensures
        summary_of(os) == planned_summary(change_count(p) as usize),
        change_count(p) <= p.len(),
    decreases os.len(),
{
    reveal_strlit("skip");
    reveal_strlit("create");
    reveal_strlit("update");
    if os.len() > 0 {
        let n = os.len() - 1;
        assert forall|k: int| 0 <= k < n implies ((#[trigger] os.drop_last()[k]).result matches OutcomeKind::Planned(w)
            && w@ == planned_word(p.drop_last()[k].1)) by {
            assert(os.drop_last()[k] == os[k]);
            assert(p.drop_last()[k] == p[k]);
        }
        lemma_dry_summary(p.drop_last(), os.drop_last());
        assert(os[n].result matches OutcomeKind::Planned(w) && w@ == planned_word(p[n].1));
        if let OutcomeKind::Planned(w) = os[n].result {
            lemma_tally_planned(summary_of(os.drop_last()), p[n].1, w);
        }
        assert(summary_of(os) == tally(summary_of(os.drop_last()), os[n].result));
        assert(change_count(p) == change_count(p.drop_last()) + if is_change(p[n].1) { 1nat } else { 0nat });
    }
}

proof fn lemma_summary_of_bounded(os: Seq<Outcome>)
    requires
        os.len() <= usize::MAX,
    ensures
        summary_total(summary_of(os)) <= os.len(),
        all_carried_out(os) ==> summary_total(summary_of(os)) == os.len(),
    decreases os.len(),
{
    if os.len() > 0 {
        let p = os.drop_last();
        lemma_summary_of_bounded(p);
        assert(summary_of(os) == tally(summary_of(p), os.last().result));
        if all_carried_out(os) {
            assert forall|k: int| 0 <= k < p.len() implies !((#[trigger] p[k]).result is Planned) by {
                assert(p[k] == os[k]);
            }
            assert(!(os[os.len() - 1].result is Planned));
        }
    }
}

/// No count of `s` is at its limit.
pub open spec fn summary_has_room(s: Summary) -> bool {
    &&& s.created < usize::MAX
    &&& s.updated < usize::MAX
    &&& s.unchanged < usize::MAX
    &&& s.skipped_existing < usize::MAX
    &&& s.failed < usize::MAX
    &&& s.planned < usize::MAX
}

/// The text of an error as an outcome shows it: its first line, or `error`.
pub open spec fn short_text(e: Error) -> Seq<char> {
    match first_line(error_message(e)) {
        Some(l) => l,
        None => "error"@,
    }
}

/// The first line of an error's message.
pub fn short(e: &Error) -> (r: String)
    ensures
        r@ == short_text(*e),
{
    let m = e.message();
    match first_line_of(m.as_str()) {
        Some(l) => l,
        None => string_of("error"),
    }
}

/// What the outside work for one action came back with: done (and whether it
/// changed a stored password), or failed with an error.
#[derive(Debug)]
pub enum WorkResult {
    Done(bool),
    Failed(Error),
}

/// The outcome `k` reports the result `work` of carrying out `action`: a
/// skipped login is reported as such; a failure with the error's first line;
/// a create as created; an update as updated when the password changed, else
/// as unchanged.
pub open spec fn outcome_kind_is(k: OutcomeKind, action: Action, work: WorkResult) -> bool {
    match action {
        Action::SkipExisting { .. } => k is SkippedExisting,
        _ => match work {
            WorkResult::Failed(e) => k matches OutcomeKind::Failed(m) && m@ == short_text(e),
            WorkResult::Done(changed) => match action {
                Action::Create => k is Created,
                _ => if changed {
                    k is Updated
                } else {
                    k is Unchanged
                },
            },
        },
    }
}

/// Records the result of the outside work for `action`: the outcome to
/// report, with its count raised in `summary`.
pub fn execute(action: &Action, work: WorkResult, summary: &mut Summary) -> (k: OutcomeKind)
    requires
        summary_has_room(*old(summary)),
    ensures
        outcome_kind_is(k, *action, work),
        *final(summary) == tally(*old(summary), k),
{
    match action {
        Action::SkipExisting { .. } => {
            summary.skipped_existing = summary.skipped_existing + 1;
            OutcomeKind::SkippedExisting
        },
        Action::Create => match work {
            WorkResult::Done(_) => {
                summary.created = summary.created + 1;
                OutcomeKind::Created
            },
            WorkResult::Failed(e) => {
                summary.failed = summary.failed + 1;
                OutcomeKind::Failed(short(&e))
            },
        },
        Action::UpdatePassword { .. } => match work {
            WorkResult::Done(true) => {
                summary.updated = summary.updated + 1;
                OutcomeKind::Updated
            },
            WorkResult::Done(false) => {
                summary.unchanged = summary.unchanged + 1;
                OutcomeKind::Unchanged
            },
            WorkResult::Failed(e) => {
                summary.failed = summary.failed + 1;
                OutcomeKind::Failed(short(&e))
            },
        },
    }
}

/// The word a dry run reports for an action.
pub open spec fn planned_word(a: Action) -> Seq<char> {
    match a {
        Action::Create => "create"@,
        Action::UpdatePassword { .. } => "update"@,
        Action::SkipExisting { .. } => "skip"@,
    }
}

fn planned_kind(a: &Action) -> (k: OutcomeKind)
    ensures
        k matches OutcomeKind::Planned(w) && w@ == planned_word(*a),
{
    match a {
        Action::Create => OutcomeKind::Planned("create"),
        Action::UpdatePassword { .. } => OutcomeKind::Planned("update"),
        Action::SkipExisting { .. } => OutcomeKind::Planned("skip"),
    }
}

// ---------------------------------------------------------------------------
// Updating a password
// ---------------------------------------------------------------------------

/// The field holds the login's password.
pub open spec fn is_password_field(f: OpField) -> bool {
    f.purpose.deep_view() == Some("PASSWORD"@)
}

/// The value of a field, empty when it has none.
pub open spec fn field_value(f: OpField) -> Seq<char> {
    match f.value.deep_view() {
        Some(v) => v,
        None => Seq::empty(),
    }
}

/// The positions of the password fields, in order.
pub open spec fn password_positions(fields: Seq<OpField>) -> Seq<usize>
    decreases fields.len(),
{
    if fields.len() == 0 {
        Seq::empty()
    } else {
        let earlier = password_positions(fields.drop_last());
        if is_password_field(fields.last()) {
            earlier.push((fields.len() - 1) as usize)
        } else {
            earlier
        }
    }
}

/// Some password field of `fields` already holds `password`.
pub open spec fn password_already_set(fields: Seq<OpField>, password: Seq<char>) -> bool {
    exists|k: int|
        0 <= k < fields.len() && is_password_field(#[trigger] fields[k]) && field_value(fields[k])
            == password
}

/// What to do to an existing item's fields to store a new password.
#[derive(Debug, PartialEq, Eq)]
pub enum PasswordUpdate {
    /// Nothing to write: the password is already stored, or the item has no
    /// password field.
    Unchanged,
    /// Set the value of the fields at these positions to the new password.
    Rewrite(Vec<usize>),
}

/// Decides how to update an existing item's password to `cred`'s, given the
/// item's `fields` array (`None` when the item has none): an error when there
/// is no fields array; nothing to do when a password field already holds the
/// password, or there is no password field; else every password field is
/// rewritten.
pub fn update_password(fields: Option<&Vec<OpField>>, cred: &Credential) -> (r: Result<PasswordUpdate, Error>)
    ensures
        match fields {
            None => r matches Err(Error::Parse(m)) && m@ == "item has no fields array"@,
            Some(fs) => if password_already_set(fs@, cred.password@)
                || password_positions(fs@).len() == 0 {
                r matches Ok(PasswordUpdate::Unchanged)
            } else {
                r matches Ok(PasswordUpdate::Rewrite(ix)) && ix@ == password_positions(fs@)
            },
        },
{
    let fs = match fields {
        Some(fs) => fs,
        None => return Err(Error::Parse(string_of("item has no fields array"))),
    };
    assert(fields == Some(fs));
    let mut positions: Vec<usize> = Vec::new();
    let mut k: usize = 0;
    while k < fs.len()
        invariant
            k <= fs@.len(),
            fields == Some(fs),
            positions@ == password_positions(fs@.take(k as int)),
            !password_already_set(fs@.take(k as int), cred.password@),
        decreases fs.len() - k,
    {
        assert(fs@.take(k + 1).drop_last() =~= fs@.take(k as int));
        let f = &fs[k];
        let is_password = match &f.purpose {
            Some(p) => string_of(p.as_str()) == string_of("PASSWORD"),
            None => false,
        };
        if is_password {
            let current = match &f.value {
                Some(v) => string_of(v.as_str()),
                None => String::new(),
            };
            if current == cred.password {
                // identical — nothing to do
                assert(fs@.take(k + 1)[k as int] == fs@[k as int]);
                assert(is_password_field(fs@[k as int]));
                return Ok(PasswordUpdate::Unchanged);
            }
            positions.push(k);
        }
        proof {
            assert forall|j: int|
                0 <= j < k + 1 && is_password_field(#[trigger] fs@.take(k + 1)[j]) implies field_value(
                fs@.take(k + 1)[j],
            ) != cred.password@ by {
                if j < k {
                    assert(fs@.take(k + 1)[j] == fs@.take(k as int)[j]);
                }
            }
        }
        k = k + 1;
    }
    assert(fs@.take(k as int) =~= fs@);
    if positions.len() == 0 {
        Ok(PasswordUpdate::Unchanged)
    } else {
        Ok(PasswordUpdate::Rewrite(positions))
    }
}

/// Where an update of a stored password stands once the item is fetched:
/// finished (it failed, or there is nothing to write), or the fields at these
/// positions are to be set to the new password and the item written back.
#[derive(Debug)]
pub enum UpdateStep {
    Finished(WorkResult),
    Write(Vec<usize>),
}

/// `s` is the step for an item whose `fields` array (`None` when it has none)
/// is to hold `password`: a parse error without a fields array; finished
/// without a change when a password field already holds it or there is no
/// password field; else a write of every password field.
pub open spec fn update_step_is(s: UpdateStep, fields: Option<Seq<OpField>>, password: Seq<char>) -> bool {
    match fields {
        None => s matches UpdateStep::Finished(WorkResult::Failed(Error::Parse(m))) && m@
            == "item has no fields array"@,
        Some(fs) => if password_already_set(fs, password) || password_positions(fs).len() == 0 {
            s matches UpdateStep::Finished(WorkResult::Done(false))
        } else {
            s matches UpdateStep::Write(ix) && ix@ == password_positions(fs)
        },
    }
}

/// The step of updating `cred`'s stored password, given the fetched item's
/// `fields` array (see `update_step_is`).
pub fn update_step(fields: Option<&Vec<OpField>>, cred: &Credential) -> (r: UpdateStep)
    ensures
        update_step_is(
            r,
            match fields {
                Some(fs) => Some(fs@),
                None => None,
            },
            cred.password@,
        ),
{
    match update_password(fields, cred) {
        Ok(PasswordUpdate::Unchanged) => UpdateStep::Finished(WorkResult::Done(false)),
        Ok(PasswordUpdate::Rewrite(ix)) => UpdateStep::Write(ix),
        Err(e) => UpdateStep::Finished(WorkResult::Failed(e)),
    }
}

proof fn lemma_summary_of_unchanged(os: Seq<Outcome>)
    requires
        forall|i: int|
            0 <= i < os.len() ==> (#[trigger] os[i]).result is Unchanged || os[i].result is SkippedExisting,
    ensures
        summary_of(os).created == 0,
        summary_of(os).updated == 0,
        summary_of(os).failed == 0,
        summary_of(os).planned == 0,
    decreases os.len(),
{
    if os.len() > 0 {
        let p = os.drop_last();
        assert forall|i: int| 0 <= i < p.len() implies (#[trigger] p[i]).result is Unchanged
            || p[i].result is SkippedExisting by {
            assert(p[i] == os[i]);
        }
        lemma_summary_of_unchanged(p);
        assert(os[os.len() - 1] == os.last());
    }
}

/// In `--update` mode a second run changes nothing either. When nothing is
/// to be created, and the item fetched for each password update already
/// holds the credential's password, as the first run left it, or has no
/// password field at all, every update finishes at once and is reported
/// unchanged, every other login is left as it is, and nothing is counted as
/// created, updated or failed.
pub proof fn lemma_second_update_run_unchanged(
    q: Seq<(Credential, Action)>,
    fetched: Seq<Seq<OpField>>,
    steps: Seq<UpdateStep>,
    works: Seq<WorkResult>,
    os: Seq<Outcome>,
)
    requires
        fetched.len() == q.len(),
        steps.len() == q.len(),
        works.len() == q.len(),
        os.len() == q.len(),
        forall|i: int| 0 <= i < q.len() ==> !((#[trigger] q[i]).1 is Create),
        forall|i: int|
            0 <= i < q.len() && (#[trigger] q[i]).1 is UpdatePassword ==> {
                &&& password_already_set(fetched[i], q[i].0.password@) || password_positions(
                    fetched[i],
                ).len() == 0
                &&& update_step_is(steps[i], Some(fetched[i]), q[i].0.password@)
                &&& match steps[i] {
                    UpdateStep::Finished(w) => works[i] == w,
                    UpdateStep::Write(_) => true,
                }
            },
        forall|i: int| 0 <= i < q.len() ==> outcome_kind_is((#[trigger] os[i]).result, q[i].1, works[i]),
    ensures
        forall|i: int|
            0 <= i < q.len() && (#[trigger] q[i]).1 is UpdatePassword ==> steps[i] matches UpdateStep::Finished(
                WorkResult::Done(false),
            ),
        forall|i: int|
            0 <= i < os.len() ==> (#[trigger] os[i]).result is Unchanged || os[i].result is SkippedExisting,
        summary_of(os).created == 0,
        summary_of(os).updated == 0,
        summary_of(os).failed == 0,
        summary_of(os).planned == 0,
{
    assert forall|i: int| 0 <= i < os.len() implies (#[trigger] os[i]).result is Unchanged
        || os[i].result is SkippedExisting by {
        assert(!(q[i].1 is Create));
        assert(outcome_kind_is(os[i].result, q[i].1, works[i]));
        if q[i].1 is UpdatePassword {
            assert(steps[i] matches UpdateStep::Finished(WorkResult::Done(false)));
        }
    }
    lemma_summary_of_unchanged(os);
}

// ---------------------------------------------------------------------------
// A sync run
// ---------------------------------------------------------------------------

/// `o` reports on `c`: its title, its host (empty when it has none) and its
/// username. Nothing else of the credential, its password least of all, goes
/// into an outcome.
pub open spec fn outcome_reports(o: Outcome, c: Credential) -> bool {
    &&& o.title@ == c.title@
    &&& o.host@ == identity_of(c).0
    &&& o.username@ == c.username@
}

fn outcome_for(c: &Credential, result: OutcomeKind) -> (o: Outcome)
    ensures
        outcome_reports(o, *c),
        o.title@ == c.title@,
        o.username@ == c.username@,
        o.result == result,
{
    let host = match c.host() {
        Some(h) => h,
        None => String::new(),
    };
    Outcome { title: c.title.clone(), host, username: c.username.clone(), result }
}

/// A sync in progress: the planned actions, the outcomes of those carried out
/// so far (all of them, in a dry run), and their counts.
pub struct SyncRun {
    planned: Vec<(Credential, Action)>,
    dry_run: bool,
    next: usize,
    outcomes: Vec<Outcome>,
    summary: Summary,
}

impl SyncRun {
    /// The planned credentials and actions, in order.
    pub closed spec fn planned(&self) -> Seq<(Credential, Action)> {
        self.planned@
    }

    /// Whether this is a dry run.
    pub closed spec fn is_dry_run(&self) -> bool {
        self.dry_run
    }

    /// How many of the planned actions have an outcome.
    pub closed spec fn done(&self) -> int {
        self.next as int
    }

    /// The outcomes so far, one per planned action, in order.
    pub closed spec fn outcomes(&self) -> Seq<Outcome> {
        self.outcomes@
    }

    /// The counts so far.
    pub closed spec fn summary(&self) -> Summary {
        self.summary
    }

    /// The run's invariant: each of the first `done()` planned credentials
    /// has one outcome, reporting on it, and the counts are those of the
    /// outcomes, kind by kind. A dry run has an outcome `would <action>` for
    /// every planned action; a live run has only outcomes of work carried out.
    pub closed spec fn wf(&self) -> bool {
        &&& self.next <= self.planned@.len()
        &&& self.outcomes@.len() == self.next
        &&& forall|k: int|
            0 <= k < self.next ==> outcome_reports(
                #[trigger] self.outcomes@[k],
                self.planned@[k].0,
            )
        &&& self.summary == summary_of(self.outcomes@)
        &&& self.dry_run ==> {
            &&& self.next == self.planned@.len()
            &&& forall|k: int|
                0 <= k < self.next ==> ((#[trigger] self.outcomes@[k]).result matches OutcomeKind::Planned(w)
                    && w@ == planned_word(self.planned@[k].1))
        }
        &&& !self.dry_run ==> all_carried_out(self.outcomes@)
    }

    /// Every planned action up to `done()` has exactly one outcome, which
    /// reports on its credential, and the counts are the outcomes' counts,
    /// kind by kind. In a live run each outcome is counted once, so the
    /// counts add up to the number of outcomes. A dry run has reported every
    /// planned action as `would <action>` and counts as planned only the
    /// changes: the creates and the password updates, not the logins left as
    /// they are.
    pub proof fn lemma_accounting(&self)
        requires
            self.wf(),
        ensures
            0 <= self.done() <= self.planned().len(),
            self.outcomes().len() == self.done(),
            self.summary() == summary_of(self.outcomes()),
            forall|k: int|
                0 <= k < self.done() ==> outcome_reports(
                    #[trigger] self.outcomes()[k],
                    self.planned()[k].0,
                ),
            self.is_dry_run() ==> {
                &&& self.done() == self.planned().len()
                &&& self.summary() == planned_summary(change_count(self.planned()) as usize)
                &&& forall|k: int|
                    0 <= k < self.done() ==> ((#[trigger] self.outcomes()[k]).result matches OutcomeKind::Planned(w)
                        && w@ == planned_word(self.planned()[k].1))
            },
            !self.is_dry_run() ==> summary_total(self.summary()) == self.done()
                && self.summary().planned == 0,
    {
        lemma_summary_of_bounded(self.outcomes@);
        if self.dry_run {
            lemma_dry_summary(self.planned@, self.outcomes@);
        } else {
            lemma_live_no_planned(self.outcomes@);
        }
    }

    /// Each outcome names the credential it reports on: its title and its
    /// username are the credential's, and its host is the credential's
    /// normalized host, empty when it has none.
    pub proof fn lemma_outcomes_name_credentials(&self)
        requires
            self.wf(),
        ensures
            forall|k: int|
                0 <= k < self.done() ==> {
                    &&& (#[trigger] self.outcomes()[k]).title@ == self.planned()[k].0.title@
                    &&& self.outcomes()[k].username@ == self.planned()[k].0.username@
                    &&& self.outcomes()[k].host@ == match cred_host(self.planned()[k].0) {
                        Some(h) => h,
                        None => Seq::empty(),
                    }
                },
    {
        assert forall|k: int| 0 <= k < self.done() implies {
            &&& (#[trigger] self.outcomes()[k]).title@ == self.planned()[k].0.title@
            &&& self.outcomes()[k].username@ == self.planned()[k].0.username@
            &&& self.outcomes()[k].host@ == match cred_host(self.planned()[k].0) {
                Some(h) => h,
                None => Seq::empty(),
            }
        } by {
            assert(outcome_reports(self.outcomes@[k], self.planned@[k].0));
        }
    }

    /// The next planned action that has no outcome yet, with its credential.
    pub fn pending(&self) -> (r: Option<&(Credential, Action)>)
        requires
            self.wf(),
        ensures
            match r {
                Some(p) => self.done() < self.planned().len() && *p == self.planned()[self.done()],
                None => self.done() == self.planned().len(),
            },
    {
        if self.next < self.planned.len() {
            Some(&self.planned[self.next])
        } else {
            None
        }
    }

    /// Records what the outside work for the pending action came back with;
    /// when no action is pending, nothing changes.
    pub fn record(&mut self, work: WorkResult)
        requires
            old(self).wf(),
        ensures
            final(self).wf(),
            final(self).planned() == old(self).planned(),
            final(self).is_dry_run() == old(self).is_dry_run(),
            old(self).done() < old(self).planned().len() ==> {
                let c = old(self).planned()[old(self).done()];
                let o = final(self).outcomes().last();
                &&& final(self).done() == old(self).done() + 1
                &&& final(self).outcomes().drop_last() == old(self).outcomes()
                &&& outcome_reports(o, c.0)
                &&& o.title@ == c.0.title@
                &&& o.username@ == c.0.username@
                &&& outcome_kind_is(o.result, c.1, work)
                &&& final(self).summary() == tally(old(self).summary(), o.result)
            },
            old(self).done() == old(self).planned().len() ==> *final(self) == *old(self),
    {
        if self.next >= self.planned.len() {
            return;
        }
        let ghost before = *self;
        let i = self.next;
        proof {
            lemma_summary_of_bounded(self.outcomes@);
        }
        let kind = execute(&self.planned[i].1, work, &mut self.summary);
        let o = outcome_for(&self.planned[i].0, kind);
        self.outcomes.push(o);
        self.next = i + 1;
        proof {
            assert(self.outcomes@.drop_last() =~= before.outcomes@);
            if !self.dry_run {
                assert forall|k: int| 0 <= k < self.outcomes@.len() implies !((
                #[trigger] self.outcomes@[k]).result is Planned) by {
                    if k < i {
                        assert(self.outcomes@[k] == before.outcomes@[k]);
                    }
                }
            }
            assert forall|k: int| 0 <= k < self.next implies outcome_reports(
                #[trigger] self.outcomes@[k],
                self.planned@[k].0,
            ) by {
                if k < i {
                    assert(self.outcomes@[k] == before.outcomes@[k]);
                }
            }
        }
    }

    /// The outcomes and their counts.
    pub fn finish(self) -> (r: (Vec<Outcome>, Summary))
        ensures
            r.0@ == self.outcomes(),
            r.1 == self.summary(),
    {
        (self.outcomes, self.summary)
    }
}

/// Starts a sync of `creds` against the `existing` logins of a vault: the
/// credentials are de-duplicated and each is given its action. A dry run
/// then reports every planned action at once; a live run waits for the
/// outside work of each action, handed to it by `SyncRun::record`.
pub fn run(existing: &[OpItem], creds: Vec<Credential>, on_conflict: OnConflict, dry_run: bool) -> (r: SyncRun)
    ensures
        r.wf(),
        is_plan(r.planned(), dedupe_spec(creds@), index_entries(existing@), on_conflict),
        r.is_dry_run() == dry_run,
        !dry_run ==> r.done() == 0 && r.summary() == zero_summary(),
        dry_run ==> {
            &&& r.done() == r.planned().len()
            &&& r.summary() == planned_summary(change_count(r.planned()) as usize)
            &&& forall|k: int|
                0 <= k < r.done() ==> outcome_reports(#[trigger] r.outcomes()[k], r.planned()[k].0)
                    && r.outcomes()[k].title@ == r.planned()[k].0.title@
                    && r.outcomes()[k].username@ == r.planned()[k].0.username@
                    && (r.outcomes()[k].result matches OutcomeKind::Planned(w) && w@ == planned_word(
                    r.planned()[k].1,
                ))
        },
{
    let index = Index::build(existing);
    let creds = dedupe(creds);
    let planned = plan(creds.as_slice(), &index, on_conflict);
    let mut outcomes: Vec<Outcome> = Vec::new();
    let mut summary = Summary::default();
    let mut next: usize = 0;
    if dry_run {
        while next < planned.len()
            invariant
                next <= planned@.len(),
                outcomes@.len() == next,
                summary == summary_of(outcomes@),
                summary == planned_summary(change_count(planned@.take(next as int)) as usize),
                change_count(planned@.take(next as int)) <= next,
                forall|k: int|
                    0 <= k < next ==> outcome_reports(#[trigger] outcomes@[k], planned@[k].0),
                forall|k: int|
                    0 <= k < next ==> (#[trigger] outcomes@[k]).title@ == planned@[k].0.title@
                        && outcomes@[k].username@ == planned@[k].0.username@,
                forall|k: int|
                    0 <= k < next ==> ((#[trigger] outcomes@[k]).result matches OutcomeKind::Planned(w)
                        && w@ == planned_word(planned@[k].1)),
            decreases planned.len() - next,
        {
            let ghost before = outcomes@;
            proof {
                assert(planned@.take(next + 1).drop_last() =~= planned@.take(next as int));
                reveal_strlit("skip");
                reveal_strlit("create");
                reveal_strlit("update");
            }
            let kind = planned_kind(&planned[next].1);
            let change = match &planned[next].1 {
                Action::SkipExisting { .. } => false,
                _ => true,
            };
            let o = outcome_for(&planned[next].0, kind);
            outcomes.push(o);
            assert(outcomes@.drop_last() =~= before);
            assert(summary_of(outcomes@) == tally(summary_of(before), outcomes@[next as int].result));
            proof {
                if let OutcomeKind::Planned(w) = outcomes@[next as int].result {
                    lemma_tally_planned(summary_of(before), planned@[next as int].1, w);
                }
            }
            if change {
                summary.planned = summary.planned + 1;
            }
            next = next + 1;
        }
        assert(planned@.take(next as int) =~= planned@);
    }
    SyncRun { planned, dry_run, next, outcomes, summary }
}

// ---------------------------------------------------------------------------
// After a run
// ---------------------------------------------------------------------------

/// What follows a sync run besides its report.
#[derive(Debug, Clone, Copy, PartialEq, Eq, Structural)]
pub struct Epilogue {
    /// Show the table of outcomes.
    pub table: bool,
    /// Remind the user that the export holds their passwords in plain text.
    pub reminder: bool,
    /// End with a failure status.
    pub failure: bool,
}

/// Decides what follows a run with these counts: the table of outcomes is
/// shown in a dry run or on request, unless the report is JSON; the reminder
/// to delete the plaintext export comes after any create, in either report
/// format; and the run fails when any action failed.
pub fn sync_epilogue(dry_run: bool, json: bool, verbose: bool, summary: &Summary) -> (r: Epilogue)
    ensures
        r.table == (!json && (verbose || dry_run)),
        r.reminder == (!dry_run && summary.created > 0),
        r.failure == (summary.failed > 0),
{
    Epilogue {
        table: !json && (verbose || dry_run),
        reminder: !dry_run && summary.created > 0,
        failure: summary.failed > 0,
    }
}

// ---------------------------------------------------------------------------
// Running twice
// ---------------------------------------------------------------------------

/// Running twice makes no second-run changes. Once the vault lists, next to
/// every login it held before, a login for each credential that a plan `p`
/// created, a second plan for the same export creates nothing again for a
/// credential with a host: not for one the first plan created, nor for one it
/// found a login for, nor for one without a username that it matched to the
/// lone login on its host while that login is still alone there. Every
/// credential the first plan did not create is of the last two kinds.
pub proof fn lemma_second_run_creates_nothing(
    before: Seq<OpItem>,
    after: Seq<OpItem>,
    creds: Seq<Credential>,
    on_conflict: OnConflict,
    p: Seq<(Credential, Action)>,
    q: Seq<(Credential, Action)>,
)
    requires
        is_plan(p, dedupe_spec(creds), index_entries(before), on_conflict),
        forall|i: int| 0 <= i < before.len() ==> after.contains(#[trigger] before[i]),
        forall|i: int|
            0 <= i < p.len() && (#[trigger] p[i]).1 is Create ==> exists|k: int|
                0 <= k < after.len() && is_created_login(after[k], p[i].0),
        is_plan(q, dedupe_spec(creds), index_entries(after), on_conflict),
    ensures
        q.len() == p.len(),
        forall|i: int|
            0 <= i < p.len() ==> (#[trigger] p[i]).1 is Create || (cred_host(p[i].0) is Some && (
            has_login(before, p[i].0) || (lowercase(p[i].0.username@).len() == 0 && host_entries(
                index_entries(before),
                cred_host(p[i].0)->0,
            ).len() == 1))),
        forall|i: int|
            0 <= i < q.len() && cred_host((#[trigger] p[i]).0) is Some && (p[i].1 is Create
                || has_login(before, p[i].0) || (lowercase(p[i].0.username@).len() == 0
                && host_entries(index_entries(after), cred_host(p[i].0)->0).len() == 1))
                ==> !(q[i].1 is Create),
{
    assert forall|i: int| 0 <= i < p.len() implies (#[trigger] p[i]).1 is Create || (cred_host(
        p[i].0,
    ) is Some && (has_login(before, p[i].0) || (lowercase(p[i].0.username@).len() == 0
        && host_entries(index_entries(before), cred_host(p[i].0)->0).len() == 1))) by {
        if !(p[i].1 is Create) {
            lemma_found_is_login(before, p[i].0);
        }
    }
    assert forall|i: int|
        0 <= i < q.len() && cred_host((#[trigger] p[i]).0) is Some && (p[i].1 is Create
            || has_login(before, p[i].0) || (lowercase(p[i].0.username@).len() == 0
            && host_entries(index_entries(after), cred_host(p[i].0)->0).len() == 1)) implies !(
    q[i].1 is Create) by {
        let c = q[i].0;
        assert(p[i].0 == c);
        if p[i].1 is Create {
            let k = choose|k: int| 0 <= k < after.len() && is_created_login(after[k], p[i].0);
            lemma_created_login_matches(after[k], c);
            let u = choose|u: int|
                0 <= u < after[k].urls@.len() && (#[trigger] after[k].urls@[u]).href@ == c.url@;
            assert(spec_host_of(after[k].urls@[u].href@) == cred_host(c));
            assert(has_login(after, c));
            lemma_login_found(after, c);
        } else if has_login(before, c) {
            let (k, u) = choose|k: int, u: int|
                0 <= k < before.len() && 0 <= u < before[k].urls@.len() && cred_host(c) is Some
                    && spec_host_of((#[trigger] before[k].urls@[u]).href@) == cred_host(c)
                    && indexed_username(before[k]) == lowercase(c.username@);
            let j = choose|j: int| 0 <= j < after.len() && after[j] == before[k];
            assert(spec_host_of(after[j].urls@[u].href@) == cred_host(c));
            assert(has_login(after, c));
            lemma_login_found(after, c);
        }
    }
}

/// Running twice makes no second-run changes. After a first run whose
/// plan `p` covers only credentials with a host, the vault lists every login
/// it held before and one for each credential that was created; a credential
/// without a username that was matched to the lone login on its host still
/// finds that login alone there. With `--update`, each item fetched in the
/// second run already holds its credential's password or has no password
/// field. Then the second run, whose plan is `q` and whose outcomes `os`
/// report the outside work `works` of each action, creates nothing and
/// counts nothing as created, updated or failed.
pub proof fn lemma_second_run_changes_nothing(
    before: Seq<OpItem>,
    after: Seq<OpItem>,
    creds: Seq<Credential>,
    on_conflict: OnConflict,
    p: Seq<(Credential, Action)>,
    q: Seq<(Credential, Action)>,
    fetched: Seq<Seq<OpField>>,
    steps: Seq<UpdateStep>,
    works: Seq<WorkResult>,
    os: Seq<Outcome>,
)
    requires
        is_plan(p, dedupe_spec(creds), index_entries(before), on_conflict),
        forall|i: int| 0 <= i < p.len() ==> cred_host((#[trigger] p[i]).0) is Some,
        forall|i: int| 0 <= i < before.len() ==> after.contains(#[trigger] before[i]),
        forall|i: int|
            0 <= i < p.len() && (#[trigger] p[i]).1 is Create ==> exists|k: int|
                0 <= k < after.len() && is_created_login(after[k], p[i].0),
        forall|i: int|
            0 <= i < p.len() && !((#[trigger] p[i]).1 is Create) && !has_login(before, p[i].0)
                ==> host_entries(index_entries(after), cred_host(p[i].0)->0).len() == 1,
        is_plan(q, dedupe_spec(creds), index_entries(after), on_conflict),
        fetched.len() == q.len(),
        steps.len() == q.len(),
        works.len() == q.len(),
        os.len() == q.len(),
        forall|i: int|
            0 <= i < q.len() && (#[trigger] q[i]).1 is UpdatePassword ==> {
                &&& password_already_set(fetched[i], q[i].0.password@) || password_positions(
                    fetched[i],
                ).len() == 0
                &&& update_step_is(steps[i], Some(fetched[i]), q[i].0.password@)
                &&& match steps[i] {
                    UpdateStep::Finished(w) => works[i] == w,
                    UpdateStep::Write(_) => true,
                }
            },
        forall|i: int| 0 <= i < q.len() ==> outcome_kind_is((#[trigger] os[i]).result, q[i].1, works[i]),
    ensures
        forall|i: int| 0 <= i < q.len() ==> !((#[trigger] q[i]).1 is Create),
        summary_of(os).created == 0,
        summary_of(os).updated == 0,
        summary_of(os).failed == 0,
{
    lemma_second_run_creates_nothing(before, after, creds, on_conflict, p, q);
    assert forall|i: int| 0 <= i < q.len() implies !((#[trigger] q[i]).1 is Create) by {
        assert(cred_host(p[i].0) is Some);
        if !(p[i].1 is Create) && !has_login(before, p[i].0) {
            assert(lowercase(p[i].0.username@).len() == 0);
        }
    }
    lemma_second_update_run_unchanged(q, fetched, steps, works, os);
}

} // verus!
