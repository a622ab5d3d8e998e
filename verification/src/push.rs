//! `gr push`: push easy (fast-forward / new-branch), committed work home.
//! Never auto-commits, never forces, never touches a diverged or behind
//! branch (those are skipped and reported); dirty working trees are reported
//! loudly but do not stop pushing what is already committed. With a failover
//! transport group, the group's remotes are interchangeable paths to one
//! server, tried in order until one push succeeds.
use vstd::prelude::*;
use crate::args::PushArgs;
use crate::classify::BranchSync;
use crate::config::Config;
use crate::git::{fetch_all, fetches_of, GitOp, PushOutcome};
use crate::inventory::is_failover_run;
use crate::model::WorkingTree;
use crate::paths::{repo_name, spec_repo_name};
use crate::report::{audit_record, audit_view, report, report_view, Counted, Report};
use crate::server::{join_strings, join_with};
use crate::text::{
    contains_string, copy_strings, decimal, first_line, push_decimal, push_str, push_string,
    sorted_distinct, sorted_set, spec_first_line, str_eq, string_from, views,
};

verus! {

/// Which remotes to push to, and whether they form one failover group:
/// `--remote` wins (alone, no failover); else an explicit transport order is
/// the failover group when `auto` is on; else the default remotes, each pushed
/// on its own; else nothing (each repo's own remotes).
pub open spec fn spec_remote_plan(remote: Option<Seq<char>>, cfg: &Config) -> (Seq<Seq<char>>, bool) {
    match remote {
        Some(r) => (seq![r], false),
        None => if cfg.transport.order@.len() > 0 {
            (views(cfg.transport.order@), cfg.transport.auto)
        } else if cfg.default_remotes@.len() > 0 {
            (views(cfg.default_remotes@), false)
        } else {
            (Seq::empty(), false)
        },
    }
}

/// The push plan: remotes in order, and whether they fail over to each other.
pub fn remote_plan(args: &PushArgs, cfg: &Config) -> (p: (Vec<String>, bool))
    ensures
        (views(p.0@), p.1) == spec_remote_plan(crate::git::opt_view(args.remote), cfg),
{
    match &args.remote {
        Some(r) => {
            let mut v: Vec<String> = Vec::new();
            push_string(&mut v, r.clone());
            assert(views(v@) == seq![r@]);
            (v, false)
        },
        None => {
            if cfg.transport.order.len() > 0 {
                (copy_strings(&cfg.transport.order), cfg.transport.auto)
            } else if cfg.default_remotes.len() > 0 {
                (copy_strings(&cfg.default_remotes), false)
            } else {
                let v: Vec<String> = Vec::new();
                assert(views(v@) == Seq::<Seq<char>>::empty());
                (v, false)
            }
        },
    }
}

/// A repo is chosen by `--only` when nothing was given, or one of the given
/// names is its directory name or its path.
pub open spec fn spec_repo_selected(path: Seq<char>, only: Seq<Seq<char>>) -> bool {
    only.len() == 0 || exists|i: int|
        0 <= i < only.len() && (#[trigger] only[i] == spec_repo_name(path) || only[i] == path)
}

/// Is the repo at `path` chosen by `--only`?
pub fn repo_selected(path: &str, only: &Vec<String>) -> (b: bool)
    ensures
        b == spec_repo_selected(path@, views(only@)),
{
    if only.len() == 0 {
        return true;
    }
    let name = repo_name(path);
    let n = only.len();
    for i in 0..n
        invariant
            n == only@.len(),
            name@ == spec_repo_name(path@),
            forall|j: int|
                0 <= j < i ==> !(#[trigger] views(only@)[j] == spec_repo_name(path@) || views(
                    only@,
                )[j] == path@),
    {
        assert(views(only@)[i as int] == only@[i as int]@);
        if str_eq(only[i].as_str(), name.as_str()) || str_eq(only[i].as_str(), path) {
            return true;
        }
    }
    false
}

/// The names of `order` that `have` holds, in `order`'s order.
pub open spec fn spec_present(order: Seq<Seq<char>>, have: Seq<Seq<char>>) -> Seq<Seq<char>> {
    order.filter_map(
        |r: Seq<char>|
            if have.contains(r) {
                Some(r)
            } else {
                None
            },
    )
}

/// The names of `order` that `have` holds, in `order`'s order.
pub fn present_in(order: &Vec<String>, have: &Vec<String>) -> (r: Vec<String>)
    ensures
        views(r@) == spec_present(views(order@), views(have@)),
{
    let ghost f = |r: Seq<char>|
        if views(have@).contains(r) {
            Some(r)
        } else {
            None
        };
    let mut out: Vec<String> = Vec::new();
    let n = order.len();
    for k in 0..n
        invariant
            n == order@.len(),
            f == (|r: Seq<char>|
                if views(have@).contains(r) {
                    Some(r)
                } else {
                    None
                }),
            views(out@) == views(order@).take(k as int).filter_map(f),
    {
        proof {
            assert(views(order@)[k as int] == order@[k as int]@);
            views(order@).lemma_filter_map_take_succ(f, k as int);
        }
        let ghost before = views(out@);
        if contains_string(have.as_slice(), &order[k]) {
            push_string(&mut out, order[k].clone());
            assert(before.push(order@[k as int]@) == before + seq![order@[k as int]@]);
        } else {
            assert(before + Seq::<Seq<char>>::empty() == before);
        }
    }
    assert(views(order@).take(n as int) == views(order@));
    out
}

/// The remotes a repo is pushed to: the plan's remotes it has, in plan order;
/// with no plan, each of its own remotes once, in name order.
pub open spec fn spec_candidates(order: Seq<Seq<char>>, have: Seq<Seq<char>>) -> Seq<Seq<char>> {
    if order.len() == 0 {
        sorted_distinct(have)
    } else {
        spec_present(order, have)
    }
}

/// The branches acted on: every local branch with `--all-branches`, else the
/// checked-out one (none on a detached `HEAD`).
pub open spec fn spec_branches(all: bool, current: Option<Seq<char>>, locals: Option<Seq<Seq<char>>>) -> Seq<Seq<char>> {
    if all {
        match locals {
            Some(l) => l,
            None => Seq::empty(),
        }
    } else {
        match current {
            Some(c) => seq![c],
            None => Seq::empty(),
        }
    }
}

/// The branches acted on.
pub fn branches_to_act(all: bool, current: &Option<String>, locals: &Option<Vec<String>>) -> (b: Vec<String>)
    requires
        all ==> locals.is_some(),
    ensures
        views(b@) == spec_branches(
            all,
            crate::git::opt_view(*current),
            match locals {
                Some(l) => Some(views(l@)),
                None => None,
            },
        ),
{
    if all {
        match locals {
            Some(l) => copy_strings(l),
            None => Vec::new(),
        }
    } else {
        let mut v: Vec<String> = Vec::new();
        match current {
            Some(c) => {
                push_string(&mut v, c.clone());
                assert(views(v@) == seq![c@]);
            },
            None => {
                assert(views(v@) == Seq::<Seq<char>>::empty());
            },
        }
        v
    }
}

/// The pushes to try for each branch: with failover, one push judged against
/// the first candidate and tried over all of them in order; without, one push
/// to each candidate on its own.
pub open spec fn spec_targets(failover: bool, c: Seq<Seq<char>>) -> Seq<(Seq<char>, Seq<Seq<char>>)> {
    if failover {
        seq![(c[0], c)]
    } else {
        Seq::new(c.len(), |i: int| (c[i], seq![c[i]]))
    }
}

/// The text of a list of push targets.
pub open spec fn target_views(t: Seq<(String, Vec<String>)>) -> Seq<(Seq<char>, Seq<Seq<char>>)> {
    t.map_values(|p: (String, Vec<String>)| (p.0@, views(p.1@)))
}

/// What `gr push` does in one repo: first fetch every candidate remote, so
/// each branch is classified against the home as it is now and not against a
/// stale tracking ref; then the pushes to try and the branches to push (each
/// branch against each target).
pub struct PushPlan {
    pub fetches: Vec<GitOp>,
    pub targets: Vec<(String, Vec<String>)>,
    pub branches: Vec<String>,
}

/// The report of a repo that is skipped whole.
pub open spec fn skip_view(branch: Seq<char>, status: Seq<char>) -> (Seq<char>, Seq<char>, Seq<char>, Option<(Seq<char>, Seq<char>)>, Counted) {
    (branch, "\u{2014}"@, status, None, Counted::Skipped)
}

/// The push plan of one repo, or the report of skipping it: no configured
/// home remote on the repo, or no branch to push (detached `HEAD`).
pub fn plan_push_repo(
    order: &Vec<String>,
    failover: bool,
    repo_remotes: &Vec<String>,
    all_branches: bool,
    current: &Option<String>,
    locals: &Option<Vec<String>>,
) -> (r: Result<PushPlan, Report>)
    requires
        all_branches ==> locals.is_some(),
    ensures
        ({
            let c = spec_candidates(views(order@), views(repo_remotes@));
            let b = spec_branches(
                all_branches,
                crate::git::opt_view(*current),
                match locals {
                    Some(l) => Some(views(l@)),
                    None => None,
                },
            );
            match r {
                Ok(p) => c.len() > 0 && b.len() > 0 && fetches_of(p.fetches@, c) && target_views(
                    p.targets@,
                ) == spec_targets(failover, c) && views(p.branches@) == b,
                Err(s) => if c.len() == 0 {
                    report_view(s) == skip_view("\u{2014}"@, "no configured home remote on this repo"@)
                } else {
                    b.len() == 0 && report_view(s) == skip_view(
                        "(detached)"@,
                        "no branch to push (detached HEAD)"@,
                    )
                },
            }
        }),
{
    let cands = if order.len() == 0 {
        sorted_set(repo_remotes)
    } else {
        present_in(order, repo_remotes)
    };
    let ghost cv = views(cands@);
    assert(cv == spec_candidates(views(order@), views(repo_remotes@)));
    if cands.len() == 0 {
        return Err(report(
            "\u{2014}",
            "\u{2014}",
            string_from("no configured home remote on this repo"),
            None,
            Counted::Skipped,
        ));
    }
    let branches = branches_to_act(all_branches, current, locals);
    if branches.len() == 0 {
        return Err(report(
            "(detached)",
            "\u{2014}",
            string_from("no branch to push (detached HEAD)"),
            None,
            Counted::Skipped,
        ));
    }
    let mut targets: Vec<(String, Vec<String>)> = Vec::new();
    if failover {
        let t = (cands[0].clone(), copy_strings(&cands));
        proof {
            assert(target_views(targets@.push(t)) == target_views(targets@).push((t.0@, views(t.1@))));
            assert(cv[0] == cands@[0]@);
        }
        targets.push(t);
        assert(target_views(targets@) == spec_targets(failover, cv));
    } else {
        let n = cands.len();
        for i in 0..n
            invariant
                n == cands@.len(),
                cv == views(cands@),
                !failover,
                target_views(targets@) == spec_targets(failover, cv).take(i as int),
        {
            let mut one: Vec<String> = Vec::new();
            push_string(&mut one, cands[i].clone());
            let t = (cands[i].clone(), one);
            proof {
                assert(views(one@) == seq![cands@[i as int]@]);
                assert(target_views(targets@.push(t)) == target_views(targets@).push((t.0@, views(t.1@))));
                assert(spec_targets(failover, cv).take(i + 1) == spec_targets(failover, cv).take(
                    i as int,
                ).push(spec_targets(failover, cv)[i as int]));
            }
            targets.push(t);
        }
        assert(spec_targets(failover, cv).take(n as int) == spec_targets(failover, cv));
    }
    let fetches = fetch_all(&cands);
    Ok(PushPlan { fetches, targets, branches })
}

/// What the classification of a branch decides before any push: a settled
/// report (nothing to push, or a push that is never attempted), or a push to
/// attempt, described by `what` (`new` or `↑<n>`).
pub enum PushVerdict {
    Settled(Report),
    Attempt(String),
}

/// Why a diverged branch is skipped.
pub open spec fn diverged_why(conflict: bool) -> Seq<char> {
    if conflict {
        "diverged + CONFLICT"@
    } else {
        "diverged"@
    }
}

/// `↑<n>`.
pub open spec fn up_arrow(n: u32) -> Seq<char> {
    "\u{2191}"@ + decimal(n as nat)
}

/// `↓<n>`.
pub open spec fn down_arrow(n: u32) -> Seq<char> {
    "\u{2193}"@ + decimal(n as nat)
}

/// The verdict on one branch against the remote it was judged by.
pub open spec fn spec_push_verdict(sync: BranchSync, dry_run: bool, branch: Seq<char>, refr: Seq<char>) -> Result<
    (Seq<char>, Seq<char>, Seq<char>, Option<(Seq<char>, Seq<char>)>, Counted),
    Seq<char>,
> {
    let rec = |result: Seq<char>, detail: Seq<char>|
        if dry_run {
            None
        } else {
            Some((result, detail))
        };
    match sync {
        BranchSync::UpToDate => Ok(
            (branch, refr, "up-to-date"@, rec("up-to-date"@, Seq::empty()), Counted::UpToDate),
        ),
        BranchSync::Behind(n) => Ok(
            (
                branch,
                refr,
                "SKIPPED: behind "@ + decimal(n as nat) + " (pull first)"@,
                rec("skipped"@, "behind "@ + decimal(n as nat)),
                Counted::Skipped,
            ),
        ),
        BranchSync::Diverged { ahead, behind, conflict } => Ok(
            (
                branch,
                refr,
                "SKIPPED: "@ + diverged_why(conflict) + " ("@ + up_arrow(ahead) + " "@ + down_arrow(
                    behind,
                ) + "; never forced)"@,
                rec("skipped"@, diverged_why(conflict) + " "@ + up_arrow(ahead) + " "@ + down_arrow(behind)),
                Counted::Skipped,
            ),
        ),
        BranchSync::Ahead(n) => Err(up_arrow(n)),
        BranchSync::NoRemoteBranch => Err("new"@),
    }
}

/// Appends `↑<n>` to `s`.
fn push_up(s: &mut String, n: u32)
    ensures
        final(s)@ == old(s)@ + up_arrow(n),
{
    push_str(s, "\u{2191}");
    push_decimal(s, n as u64);
}

/// Appends `↓<n>` to `s`.
fn push_down(s: &mut String, n: u32)
    ensures
        final(s)@ == old(s)@ + down_arrow(n),
{
    push_str(s, "\u{2193}");
    push_decimal(s, n as u64);
}

/// Classify, then decide: report a branch that is up to date, behind or
/// diverged (never pushed, never forced), or ask for the push of one that is
/// new or ahead.
pub fn push_verdict(sync: BranchSync, dry_run: bool, branch: &str, refr: &str) -> (v: PushVerdict)
    ensures
        match (v, spec_push_verdict(sync, dry_run, branch@, refr@)) {
            (PushVerdict::Settled(r), Ok(w)) => report_view(r) == w,
            (PushVerdict::Attempt(what), Err(w)) => what@ == w,
            _ => false,
        },
{
    match sync {
        BranchSync::UpToDate => PushVerdict::Settled(
            report(
                branch,
                refr,
                string_from("up-to-date"),
                audit_record(dry_run, "up-to-date", String::new()),
                Counted::UpToDate,
            ),
        ),
        BranchSync::Behind(n) => {
            let mut status = string_from("SKIPPED: behind ");
            push_decimal(&mut status, n as u64);
            push_str(&mut status, " (pull first)");
            let mut detail = string_from("behind ");
            push_decimal(&mut detail, n as u64);
            PushVerdict::Settled(
                report(branch, refr, status, audit_record(dry_run, "skipped", detail), Counted::Skipped),
            )
        },
        BranchSync::Diverged { ahead, behind, conflict } => {
            let why = if conflict {
                "diverged + CONFLICT"
            } else {
                "diverged"
            };
            assert(why@ == diverged_why(conflict));
            let mut status = string_from("SKIPPED: ");
            push_str(&mut status, why);
            push_str(&mut status, " (");
            push_up(&mut status, ahead);
            push_str(&mut status, " ");
            push_down(&mut status, behind);
            push_str(&mut status, "; never forced)");
            let mut detail = string_from(why);
            push_str(&mut detail, " ");
            push_up(&mut detail, ahead);
            push_str(&mut detail, " ");
            push_down(&mut detail, behind);
            PushVerdict::Settled(
                report(branch, refr, status, audit_record(dry_run, "skipped", detail), Counted::Skipped),
            )
        },
        BranchSync::Ahead(n) => {
            let mut what = String::new();
            push_up(&mut what, n);
            PushVerdict::Attempt(what)
        },
        BranchSync::NoRemoteBranch => PushVerdict::Attempt(string_from("new")),
    }
}

/// The exit statuses of a list of push attempts.
pub open spec fn push_successes(outs: Seq<PushOutcome>) -> Seq<bool> {
    outs.map_values(|o: PushOutcome| o.success)
}

/// The report of a push tried over `attempts` in order: the first that
/// succeeded (`pushed`, or `would push` in a dry run); otherwise a failure
/// against the judging remote, with the first line of the last error.
pub open spec fn spec_push_settled(
    branch: Seq<char>,
    refr: Seq<char>,
    attempts: Seq<Seq<char>>,
    outcomes: Seq<PushOutcome>,
    what: Seq<char>,
    dry_run: bool,
) -> (Seq<char>, Seq<char>, Seq<char>, Option<(Seq<char>, Seq<char>)>, Counted) {
    let last = outcomes.last();
    if last.success {
        (
            branch,
            attempts[outcomes.len() - 1],
            (if dry_run {
                "would push"@
            } else {
                "pushed"@
            }) + " ("@ + what + ")"@,
            if dry_run {
                None
            } else {
                Some(("pushed"@, what))
            },
            Counted::Pushed,
        )
    } else {
        let err = spec_first_line(last.stderr@);
        (
            branch,
            refr,
            "FAILED ("@ + what + "): "@ + err,
            if dry_run {
                None
            } else {
                Some(("failed"@, what + ": "@ + err))
            },
            Counted::Failed,
        )
    }
}

/// The report of an easy push, from the outcomes of trying it over `attempts`
/// in order until one succeeded.
pub fn push_settled(
    branch: &str,
    refr: &str,
    attempts: &Vec<String>,
    outcomes: &Vec<PushOutcome>,
    what: &str,
    dry_run: bool,
) -> (r: Report)
    requires
        is_failover_run(attempts@.len(), push_successes(outcomes@)),
        outcomes@.len() > 0,
    ensures
        report_view(r) == spec_push_settled(branch@, refr@, views(attempts@), outcomes@, what@, dry_run),
{
    let k = outcomes.len() - 1;
    assert(push_successes(outcomes@)[k as int] == outcomes@[k as int].success);
    let last = &outcomes[k];
    if last.success {
        let mut status = string_from(if dry_run {
            "would push"
        } else {
            "pushed"
        });
        push_str(&mut status, " (");
        push_str(&mut status, what);
        push_str(&mut status, ")");
        assert(views(attempts@)[k as int] == attempts@[k as int]@);
        report(
            branch,
            attempts[k].as_str(),
            status,
            audit_record(dry_run, "pushed", string_from(what)),
            Counted::Pushed,
        )
    } else {
        let err = first_line(last.stderr.as_str());
        let mut status = string_from("FAILED (");
        push_str(&mut status, what);
        push_str(&mut status, "): ");
        push_str(&mut status, err.as_str());
        let mut detail = string_from(what);
        push_str(&mut detail, ": ");
        push_str(&mut detail, err.as_str());
        report(branch, refr, status, audit_record(dry_run, "failed", detail), Counted::Failed)
    }
}

/// The uncommitted parts of a working tree, as `<n> staged`, `<n> unstaged`,
/// `<n> conflicts`, `<n> untracked` (each only when non-zero).
pub open spec fn spec_dirty_parts(wt: WorkingTree) -> Seq<Seq<char>> {
    let a: Seq<Seq<char>> = if wt.staged > 0 {
        seq![decimal(wt.staged as nat) + " staged"@]
    } else {
        Seq::empty()
    };
    let b = if wt.unstaged > 0 {
        a.push(decimal(wt.unstaged as nat) + " unstaged"@)
    } else {
        a
    };
    let c = if wt.conflicts > 0 {
        b.push(decimal(wt.conflicts as nat) + " conflicts"@)
    } else {
        b
    };
    if wt.untracked > 0 {
        c.push(decimal(wt.untracked as nat) + " untracked"@)
    } else {
        c
    }
}

/// `<n><suffix>`.
fn counted_part(n: u32, suffix: &str) -> (s: String)
    ensures
        s@ == decimal(n as nat) + suffix@,
{
    let mut s = String::new();
    push_decimal(&mut s, n as u64);
    assert(Seq::<char>::empty() + decimal(n as nat) == decimal(n as nat));
    push_str(&mut s, suffix);
    s
}

/// The uncommitted parts of a working tree, joined with `, `.
pub fn dirty_parts(wt: &WorkingTree) -> (s: String)
    ensures
        s@ == join_with(spec_dirty_parts(*wt), ", "@),
{
    let mut parts: Vec<String> = Vec::new();
    if wt.staged > 0 {
        push_string(&mut parts, counted_part(wt.staged, " staged"));
    }
    if wt.unstaged > 0 {
        push_string(&mut parts, counted_part(wt.unstaged, " unstaged"));
    }
    if wt.conflicts > 0 {
        push_string(&mut parts, counted_part(wt.conflicts, " conflicts"));
    }
    if wt.untracked > 0 {
        push_string(&mut parts, counted_part(wt.untracked, " untracked"));
    }
    assert(views(parts@) == spec_dirty_parts(*wt));
    join_strings(&parts, ", ")
}

/// The warning for a repo whose uncommitted or untracked work a push leaves
/// behind, if it has any.
pub open spec fn spec_dirty_note(name: Seq<char>, wt: WorkingTree) -> Option<Seq<char>> {
    if wt.spec_uncommitted() || wt.untracked > 0 {
        Some(
            "  \u{26a0} "@ + name + ": "@ + join_with(spec_dirty_parts(wt), ", "@)
                + " \u{2014} NOT backed up (commit to include)"@,
        )
    } else {
        None
    }
}

/// The warning for a repo left dirty, if it is.
pub fn dirty_note(name: &str, wt: &WorkingTree) -> (r: Option<String>)
    ensures
        crate::git::opt_view(r) == spec_dirty_note(name@, *wt),
{
    if wt.has_uncommitted_changes() || wt.untracked > 0 {
        let mut s = string_from("  \u{26a0} ");
        push_str(&mut s, name);
        push_str(&mut s, ": ");
        let parts = dirty_parts(wt);
        push_str(&mut s, parts.as_str());
        push_str(&mut s, " \u{2014} NOT backed up (commit to include)");
        Some(s)
    } else {
        None
    }
}


/// `gr push` attempts a push only for a branch that is new on the remote or
/// strictly ahead of it — never for one that is behind, diverged (conflicted
/// or not) or already up to date, so it can never overwrite remote history.
pub proof fn lemma_push_attempts_only_easy(sync: BranchSync, dry_run: bool, branch: Seq<char>, refr: Seq<char>)
    ensures
        spec_push_verdict(sync, dry_run, branch, refr) is Err <==> (sync.spec_easy_push() && sync
            != BranchSync::UpToDate),
        spec_push_verdict(sync, dry_run, branch, refr) is Err ==> !(sync is Behind) && !(sync is Diverged),
{
}

/// A skip is never a failure: the only report of `gr push` that counts as
/// failed is that of a push that was attempted and whose last attempt failed
/// (so the command fails only on a real push failure).
pub proof fn lemma_only_failed_pushes_fail(
    sync: BranchSync,
    dry_run: bool,
    branch: Seq<char>,
    refr: Seq<char>,
    attempts: Seq<Seq<char>>,
    outcomes: Seq<PushOutcome>,
    what: Seq<char>,
)
    requires
        outcomes.len() > 0,
    ensures
        match spec_push_verdict(sync, dry_run, branch, refr) {
            Ok(r) => r.4 != Counted::Failed,
            Err(_) => true,
        },
        (spec_push_settled(branch, refr, attempts, outcomes, what, dry_run).4 == Counted::Failed)
            <==> !outcomes.last().success,
{
}


/// `push` warns about a repo exactly when something in its tree would not be
/// backed up: a staged, unstaged, conflicted or untracked path — untracked
/// files included — and stays silent only for a tree with none of them.
pub proof fn lemma_dirty_note_when_anything_unsaved(name: Seq<char>, wt: WorkingTree)
    ensures
        spec_dirty_note(name, wt) is Some <==> (wt.staged > 0 || wt.unstaged > 0 || wt.untracked > 0
            || wt.conflicts > 0),
        wt.untracked > 0 ==> spec_dirty_note(name, wt) is Some,
{
}
} // verus!
