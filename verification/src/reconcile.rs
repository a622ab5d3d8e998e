//! `gr sync`: reconcile easy work both ways over the live transport of each
//! repo — push what is ahead or new, fast-forward what is behind (on a clean
//! tree only), report what diverged. Never forces, never merges, never commits.
use vstd::prelude::*;
use crate::args::SyncArgs;
use crate::classify::BranchSync;
use crate::git::{ff_merge_current, ff_update_branch, CmdOutcome, GitOp, PushOutcome};
use crate::inventory::is_failover_run;
use crate::model::WorkingTree;
use crate::push::{down_arrow, push_successes};
use crate::report::{audit_record, report, report_view, Counted, Report};
use crate::sync::{spec_plan, SyncAction};
use crate::text::{
    first_line, push_decimal, push_str, spec_first_line, string_from, trim, trim_ws, views,
};

verus! {

/// The first candidate whose fetch succeeded, from the fetches made in order.
pub open spec fn spec_first_reachable(candidates: Seq<Seq<char>>, fetched: Seq<bool>) -> Option<Seq<char>> {
    if fetched.len() > 0 && fetched.last() {
        Some(candidates[fetched.len() - 1])
    } else {
        None
    }
}

/// What `gr sync` does with one repo: the live remote and the branches to
/// reconcile, or the report of skipping the repo.
pub open spec fn spec_plan_sync_repo(
    candidates: Seq<Seq<char>>,
    fetched: Seq<bool>,
    branches: Seq<Seq<char>>,
) -> Result<Seq<char>, (Seq<char>, Seq<char>, Seq<char>, Option<(Seq<char>, Seq<char>)>, Counted)> {
    if candidates.len() == 0 {
        Err(("\u{2014}"@, "\u{2014}"@, "no configured home remote"@, None, Counted::Skipped))
    } else {
        match spec_first_reachable(candidates, fetched) {
            None => Err(
                ("\u{2014}"@, "\u{2014}"@, "unreachable (no transport fetched)"@, None, Counted::Skipped),
            ),
            Some(live) => if branches.len() == 0 {
                Err(("(detached)"@, "\u{2014}"@, "no branch to sync"@, None, Counted::Skipped))
            } else {
                Ok(live)
            },
        }
    }
}

/// The live remote of a repo — the first of its transport remotes (`candidates`,
/// in order) whose fetch succeeded; `fetched` holds the fetches made, stopping
/// at the first success — or why the repo is skipped: no transport remote, none
/// reachable, or no branch to reconcile.
pub fn plan_sync_repo(candidates: &Vec<String>, fetched: &Vec<bool>, branches: &Vec<String>) -> (r: Result<String, Report>)
    requires
        is_failover_run(candidates@.len(), fetched@),
    ensures
        match (r, spec_plan_sync_repo(views(candidates@), fetched@, views(branches@))) {
            (Ok(l), Ok(w)) => l@ == w,
            (Err(s), Err(w)) => report_view(s) == w,
            _ => false,
        },
{
    if candidates.len() == 0 {
        return Err(report("\u{2014}", "\u{2014}", string_from("no configured home remote"), None, Counted::Skipped));
    }
    let n = fetched.len();
    if !(n > 0 && fetched[n - 1]) {
        return Err(report(
            "\u{2014}",
            "\u{2014}",
            string_from("unreachable (no transport fetched)"),
            None,
            Counted::Skipped,
        ));
    }
    if branches.len() == 0 {
        return Err(report("(detached)", "\u{2014}", string_from("no branch to sync"), None, Counted::Skipped));
    }
    assert(views(candidates@)[n - 1] == candidates@[n - 1]@);
    Ok(candidates[n - 1].clone())
}

/// The action for one branch: only the checked-out branch's fast-forward
/// touches the working tree, so only it needs a clean tree.
pub fn branch_action(sync: BranchSync, is_current: bool, wt: &WorkingTree) -> (a: SyncAction)
    ensures
        a == spec_plan(sync, if is_current {
            wt.spec_clean()
        } else {
            true
        }),
{
    let tree_clean = if is_current {
        wt.is_clean()
    } else {
        true
    };
    SyncAction::plan(sync, tree_clean)
}

/// Why a diverged branch is left to the operator.
pub open spec fn manual_detail(sync: BranchSync) -> Seq<char> {
    match sync {
        BranchSync::Diverged { conflict, .. } => if conflict {
            "diverged + CONFLICT (manual)"@
        } else {
            "diverged (manual)"@
        },
        _ => "diverged (manual)"@,
    }
}

/// Why a behind branch on a dirty tree is not fast-forwarded.
pub open spec fn dirty_detail(n: u32) -> Seq<char> {
    "behind "@ + crate::text::decimal(n as nat) + " but tree dirty \u{2014} commit/stash to fast-forward"@
}

/// The report of an action that needs nothing run: up to date, diverged, or
/// behind on a dirty tree; `None` for a push or a fast-forward.
pub open spec fn spec_settled(action: SyncAction, sync: BranchSync, branch: Seq<char>, live: Seq<char>, dry_run: bool) -> Option<
    (Seq<char>, Seq<char>, Seq<char>, Option<(Seq<char>, Seq<char>)>, Counted),
> {
    match action {
        SyncAction::UpToDate => Some((branch, live, "up-to-date"@, None, Counted::UpToDate)),
        SyncAction::Report => Some(
            (
                branch,
                live,
                "SKIPPED: "@ + manual_detail(sync),
                if dry_run {
                    None
                } else {
                    Some(("skipped"@, manual_detail(sync)))
                },
                Counted::Skipped,
            ),
        ),
        SyncAction::BlockedDirty(n) => Some(
            (
                branch,
                live,
                "SKIPPED: "@ + dirty_detail(n),
                if dry_run {
                    None
                } else {
                    Some(("skipped"@, dirty_detail(n)))
                },
                Counted::Skipped,
            ),
        ),
        _ => None,
    }
}

/// The report of an action that needs nothing run.
pub fn settled_action(action: SyncAction, sync: BranchSync, branch: &str, live: &str, dry_run: bool) -> (r: Option<Report>)
    ensures
        match (r, spec_settled(action, sync, branch@, live@, dry_run)) {
            (Some(a), Some(b)) => report_view(a) == b,
            (None, None) => true,
            _ => false,
        },
{
    match action {
        SyncAction::UpToDate => Some(report(branch, live, string_from("up-to-date"), None, Counted::UpToDate)),
        SyncAction::Report => {
            let detail = match sync {
                BranchSync::Diverged { conflict: true, .. } => "diverged + CONFLICT (manual)",
                _ => "diverged (manual)",
            };
            assert(detail@ == manual_detail(sync));
            let mut status = string_from("SKIPPED: ");
            push_str(&mut status, detail);
            Some(
                report(
                    branch,
                    live,
                    status,
                    audit_record(dry_run, "skipped", string_from(detail)),
                    Counted::Skipped,
                ),
            )
        },
        SyncAction::BlockedDirty(n) => {
            let mut detail = string_from("behind ");
            push_decimal(&mut detail, n as u64);
            push_str(&mut detail, " but tree dirty \u{2014} commit/stash to fast-forward");
            let mut status = string_from("SKIPPED: ");
            push_str(&mut status, detail.as_str());
            Some(
                report(branch, live, status, audit_record(dry_run, "skipped", detail), Counted::Skipped),
            )
        },
        _ => None,
    }
}

/// Under `--interactive` (and not a dry run) an effecting action is confirmed
/// first.
pub fn needs_confirmation(args: &SyncArgs) -> (b: bool)
    ensures
        b == (args.interactive && !args.dry_run),
{
    args.interactive && !args.dry_run
}

/// What an effecting action is called in its confirmation prompt.
pub open spec fn spec_action_name(action: SyncAction) -> Seq<char> {
    match action {
        SyncAction::FastForward(n) => "fast-forward "@ + down_arrow(n),
        _ => "push"@,
    }
}

/// The confirmation prompt of an effecting action:
/// `  <name> <branch>: <action>? [y/N] `.
pub open spec fn spec_confirm_prompt(name: Seq<char>, branch: Seq<char>, action: SyncAction) -> Seq<char> {
    "  "@ + name + " "@ + branch + ": "@ + spec_action_name(action) + "? [y/N] "@
}

/// The confirmation prompt of an effecting action.
pub fn confirm_prompt(name: &str, branch: &str, action: SyncAction) -> (s: String)
    ensures
        s@ == spec_confirm_prompt(name@, branch@, action),
{
    let mut s = string_from("  ");
    push_str(&mut s, name);
    push_str(&mut s, " ");
    push_str(&mut s, branch);
    push_str(&mut s, ": ");
    match action {
        SyncAction::FastForward(n) => {
            push_str(&mut s, "fast-forward ");
            push_str(&mut s, "\u{2193}");
            push_decimal(&mut s, n as u64);
            assert(s@ == "  "@ + name@ + " "@ + branch@ + ": "@ + ("fast-forward "@ + down_arrow(n)));
        },
        _ => {
            push_str(&mut s, "push");
        },
    }
    push_str(&mut s, "? [y/N] ");
    s
}

/// An answer confirms when, trimmed, it is `y`, `Y` or `yes`.
pub open spec fn spec_confirmed(input: Seq<char>) -> bool {
    let t = trim_ws(input);
    t == seq!['y'] || t == seq!['Y'] || t == seq!['y', 'e', 's']
}

/// Does the operator's answer confirm the action?
pub fn confirmed(input: &str) -> (b: bool)
    ensures
        b == spec_confirmed(input@),
{
    let t = trim(input);
    let v = crate::text::chars_of(t.as_str());
    proof {
        if v@.len() == 1 {
            assert(v@ == seq![v@[0]]);
        }
        if v@.len() == 3 {
            assert(v@ == seq![v@[0], v@[1], v@[2]]);
        }
    }
    (v.len() == 1 && (v[0] == 'y' || v[0] == 'Y')) || (v.len() == 3 && v[0] == 'y' && v[1] == 'e'
        && v[2] == 's')
}

/// The report of an effecting action the operator declined.
pub fn cancelled(branch: &str, live: &str) -> (r: Report)
    ensures
        report_view(r) == (branch@, live@, "skipped (cancelled)"@, None::<(Seq<char>, Seq<char>)>, Counted::Skipped),
{
    report(branch, live, string_from("skipped (cancelled)"), None, Counted::Skipped)
}

/// The report of an easy push tried over the candidates in order: the first
/// that succeeded (`pushed`, or `would push` in a dry run), else a failure
/// against the first candidate with the first line of the last error.
pub open spec fn spec_sync_push_settled(
    branch: Seq<char>,
    candidates: Seq<Seq<char>>,
    outcomes: Seq<PushOutcome>,
    dry_run: bool,
) -> (Seq<char>, Seq<char>, Seq<char>, Option<(Seq<char>, Seq<char>)>, Counted) {
    let last = outcomes.last();
    if last.success {
        (
            branch,
            candidates[outcomes.len() - 1],
            if dry_run {
                "would push"@
            } else {
                "pushed"@
            },
            if dry_run {
                None
            } else {
                Some(("pushed"@, Seq::empty()))
            },
            Counted::Pushed,
        )
    } else {
        let err = spec_first_line(last.stderr@);
        (
            branch,
            candidates[0],
            "FAILED push: "@ + err,
            if dry_run {
                None
            } else {
                Some(("failed"@, err))
            },
            Counted::Failed,
        )
    }
}

/// The report of `gr sync`'s push of a branch, from the attempts over the
/// candidates in order, stopping at the first success.
pub fn sync_push_settled(branch: &str, candidates: &Vec<String>, outcomes: &Vec<PushOutcome>, dry_run: bool) -> (r: Report)
    requires
        is_failover_run(candidates@.len(), push_successes(outcomes@)),
        outcomes@.len() > 0,
    ensures
        report_view(r) == spec_sync_push_settled(branch@, views(candidates@), outcomes@, dry_run),
{
    let k = outcomes.len() - 1;
    assert(push_successes(outcomes@)[k as int] == outcomes@[k as int].success);
    if outcomes[k].success {
        assert(views(candidates@)[k as int] == candidates@[k as int]@);
        let verb = if dry_run {
            "would push"
        } else {
            "pushed"
        };
        report(
            branch,
            candidates[k].as_str(),
            string_from(verb),
            audit_record(dry_run, "pushed", String::new()),
            Counted::Pushed,
        )
    } else {
        let err = first_line(outcomes[k].stderr.as_str());
        let mut status = string_from("FAILED push: ");
        push_str(&mut status, err.as_str());
        assert(views(candidates@)[0] == candidates@[0]@);
        report(branch, candidates[0].as_str(), status, audit_record(dry_run, "failed", err), Counted::Failed)
    }
}

/// The fast-forward of `branch` to `<live>/<branch>`: in a dry run only its
/// report; otherwise the git operation — a `--ff-only` merge for the checked-
/// out branch, a fast-forward-only ref update for any other.
pub open spec fn spec_ff_plan(n: u32, branch: Seq<char>, live: Seq<char>, is_current: bool, dry_run: bool) -> Result<
    (bool, Seq<Seq<char>>),
    (Seq<char>, Seq<char>, Seq<char>, Option<(Seq<char>, Seq<char>)>, Counted),
> {
    if dry_run {
        Err((branch, live, "would fast-forward ("@ + down_arrow(n) + ")"@, None, Counted::Pulled))
    } else if is_current {
        Ok((true, seq!["merge"@, "--ff-only"@, live + "/"@ + branch]))
    } else {
        Ok(
            (
                true,
                seq!["fetch"@, "."@, "refs/remotes/"@ + (live + "/"@ + branch) + ":refs/heads/"@ + branch],
            ),
        )
    }
}

/// The fast-forward to run, or the dry run's report.
pub fn ff_plan(n: u32, branch: &String, live: &String, is_current: bool, dry_run: bool) -> (r: Result<GitOp, Report>)
    ensures
        match (r, spec_ff_plan(n, branch@, live@, is_current, dry_run)) {
            (Ok(op), Ok(w)) => op.spec_in_repo() == w.0 && op.spec_args() == w.1,
            (Err(s), Err(w)) => report_view(s) == w,
            _ => false,
        },
{
    if dry_run {
        let mut status = string_from("would fast-forward (");
        push_str(&mut status, "\u{2193}");
        push_decimal(&mut status, n as u64);
        push_str(&mut status, ")");
        assert(status@ == "would fast-forward ("@ + down_arrow(n) + ")"@);
        return Err(report(branch.as_str(), live.as_str(), status, None, Counted::Pulled));
    }
    if is_current {
        Ok(ff_merge_current(live.as_str(), branch.as_str()))
    } else {
        Ok(ff_update_branch(live.as_str(), branch.as_str()))
    }
}

/// The report of a fast-forward that was run.
pub open spec fn spec_ff_settled(n: u32, branch: Seq<char>, live: Seq<char>, success: bool, stderr: Seq<char>) -> (
    Seq<char>,
    Seq<char>,
    Seq<char>,
    Option<(Seq<char>, Seq<char>)>,
    Counted,
) {
    if success {
        (
            branch,
            live,
            "fast-forwarded ("@ + down_arrow(n) + ")"@,
            Some(("ff-pull"@, down_arrow(n))),
            Counted::Pulled,
        )
    } else {
        (
            branch,
            live,
            "FAILED ff: "@ + spec_first_line(stderr),
            Some(("failed"@, spec_first_line(stderr))),
            Counted::Failed,
        )
    }
}

/// The report of a fast-forward that was run (never in a dry run).
pub fn ff_settled(n: u32, branch: &str, live: &str, out: &CmdOutcome) -> (r: Report)
    ensures
        report_view(r) == spec_ff_settled(n, branch@, live@, out.success, out.stderr@),
{
    if out.success {
        let mut status = string_from("fast-forwarded (");
        push_str(&mut status, "\u{2193}");
        push_decimal(&mut status, n as u64);
        push_str(&mut status, ")");
        assert(status@ == "fast-forwarded ("@ + down_arrow(n) + ")"@);
        let mut detail = string_from("\u{2193}");
        push_decimal(&mut detail, n as u64);
        report(branch, live, status, Some((string_from("ff-pull"), detail)), Counted::Pulled)
    } else {
        let err = first_line(out.stderr.as_str());
        let mut status = string_from("FAILED ff: ");
        push_str(&mut status, err.as_str());
        report(branch, live, status, Some((string_from("failed"), err)), Counted::Failed)
    }
}


/// A dry run records nothing: no report of `gr push` or `gr sync` made in a
/// dry run carries an audit record, and a dry-run fast-forward runs nothing.
pub proof fn lemma_dry_run_records_nothing(
    sync: BranchSync,
    action: SyncAction,
    branch: Seq<char>,
    remote: Seq<char>,
    attempts: Seq<Seq<char>>,
    outcomes: Seq<PushOutcome>,
    what: Seq<char>,
    n: u32,
    is_current: bool,
)
    ensures
        match crate::push::spec_push_verdict(sync, true, branch, remote) {
            Ok(r) => r.3 is None,
            Err(_) => true,
        },
        outcomes.len() > 0 ==> crate::push::spec_push_settled(branch, remote, attempts, outcomes, what, true).3 is None,
        match spec_settled(action, sync, branch, remote, true) {
            Some(r) => r.3 is None,
            None => true,
        },
        outcomes.len() > 0 ==> spec_sync_push_settled(branch, attempts, outcomes, true).3 is None,
        match spec_ff_plan(n, branch, remote, is_current, true) {
            Ok(_) => false,
            Err(r) => r.3 is None,
        },
{
}

/// Every action actually taken is audited: a push made for real by `gr push`
/// or `gr sync` (whether it succeeded or failed), and every fast-forward
/// `gr sync` ran.
pub proof fn lemma_real_actions_are_recorded(
    branch: Seq<char>,
    remote: Seq<char>,
    attempts: Seq<Seq<char>>,
    outcomes: Seq<PushOutcome>,
    what: Seq<char>,
    n: u32,
    success: bool,
    stderr: Seq<char>,
)
    requires
        outcomes.len() > 0,
    ensures
        crate::push::spec_push_settled(branch, remote, attempts, outcomes, what, false).3 is Some,
        spec_sync_push_settled(branch, attempts, outcomes, false).3 is Some,
        spec_ff_settled(n, branch, remote, success, stderr).3 is Some,
{
}

/// `gr sync` fast-forwards only: a checked-out branch only on a clean tree,
/// and never a branch that diverged or is ahead.
pub proof fn lemma_sync_fast_forwards_safely(sync: BranchSync, is_current: bool, wt: WorkingTree)
    ensures
        spec_plan(sync, if is_current {
            wt.spec_clean()
        } else {
            true
        }) is FastForward ==> sync is Behind && (is_current ==> wt.spec_clean()),
{
}

} // verus!
