//! `gr status`: which rows the fleet table and the one-repo detail view show,
//! and what their lifecycle, backup and action cells say. The git reads and
//! the server listings behind them are the caller's part.
use vstd::prelude::*;
use crate::classify::BranchSync;
use crate::config::Config;
use crate::collapse::{collapse_columns, spec_collapse, ColumnCollapse};
use crate::git::{fetch_all, fetches_of, opt_view, GitOp};
use crate::inventory::{survey, BackupState, Survey};
use crate::model::WorkingTree;
use crate::presence::{is_join, Lifecycle, LocalRepo, RepoPresence};
use crate::push::{down_arrow, up_arrow};
use crate::render::Row;
use crate::sync::{spec_plan, SyncAction};
use crate::text::{
    contains_string, copy_strings, push_decimal, push_str, push_string, sorted_distinct, sorted_set,
    string_from, views,
};

verus! {

/// Which servers `gr status` lists: none with `--offline`, else each one that
/// is configured.
pub fn status_queries(cfg: &Config, offline: bool) -> (q: (bool, bool))
    ensures
        q.0 == (!offline && cfg.server.root@.len() > 0),
        q.1 == (!offline && cfg.backup.root@.len() > 0),
{
    (!offline && cfg.server_enabled(), !offline && cfg.backup_enabled())
}

/// The survey behind `gr status` and whether the home side is known. With
/// `--offline` nothing is listed: the view is local only and the backup
/// column is dropped. Otherwise the home side is known when the primary
/// server answered.
pub fn status_survey(
    cfg: &Config,
    offline: bool,
    locals: &[LocalRepo],
    primary: Option<&[String]>,
    backup: Option<&[String]>,
) -> (r: (Survey, bool))
    ensures
        r.1 == (!offline && cfg.server.root@.len() > 0 && primary.is_some()),
        r.0.reachable == r.1,
        is_join(
            r.0.presences@,
            locals@,
            if r.1 {
                views(primary.unwrap()@)
            } else {
                Seq::empty()
            },
        ),
        offline ==> r.0.backup is None,
        !offline ==> r.0.backup.is_some() == (cfg.backup.root@.len() > 0),
        !offline && r.0.backup.is_some() ==> r.0.backup.unwrap().reachable == backup.is_some(),
        !offline && r.0.backup.is_some() ==> views(r.0.backup.unwrap().homes@) == (match backup {
            Some(b) => views(b@),
            None => Seq::empty(),
        }),
{
    if offline {
        let s = survey(cfg, locals, None, None);
        let s2 = Survey { presences: s.presences, reachable: false, backup: None };
        (s2, false)
    } else {
        let s = survey(cfg, locals, primary, backup);
        let known = s.reachable;
        (s, known)
    }
}

/// The repo is deliberately left un-redundant, by home or directory name.
pub open spec fn spec_presence_ignored(cfg: &Config, p: RepoPresence) -> bool {
    views(cfg.ignore@).contains(p.home_name@) || match p.local_dir {
        Some(d) => views(cfg.ignore@).contains(d@),
        None => false,
    }
}

/// Is the repo deliberately left un-redundant?
pub fn presence_ignored(cfg: &Config, p: &RepoPresence) -> (b: bool)
    ensures
        b == spec_presence_ignored(cfg, *p),
{
    cfg.is_ignored(&p.home_name) || match &p.local_dir {
        Some(d) => cfg.is_ignored(d),
        None => false,
    }
}

/// The lifecycle cell: `ignored` for a deliberately ignored repo (it stays
/// visible, without the attention nag), the lifecycle when the home side is
/// known, `?` when it is not.
pub open spec fn spec_life_label(ignored: bool, home_known: bool, l: Lifecycle) -> Seq<char> {
    if ignored {
        "ignored"@
    } else if home_known {
        l.spec_label()
    } else {
        "?"@
    }
}

/// The lifecycle cell of a repo.
pub fn life_label(ignored: bool, home_known: bool, l: Lifecycle) -> (s: String)
    ensures
        s@ == spec_life_label(ignored, home_known, l),
{
    if ignored {
        string_from("ignored")
    } else if home_known {
        string_from(l.label())
    } else {
        string_from("?")
    }
}

/// The backup cell of a repo: empty without a backup server, `?` when it did
/// not answer, `ok` when the repo's home is on it, `miss` when it is not.
pub open spec fn spec_backup_label(backup: Option<BackupState>, home: Seq<char>) -> Seq<char> {
    match backup {
        None => Seq::empty(),
        Some(b) => if !b.reachable {
            "?"@
        } else if views(b.homes@).contains(home) {
            "ok"@
        } else {
            "miss"@
        },
    }
}

/// The backup cell of a repo.
pub fn backup_label(backup: &Option<BackupState>, home: &String) -> (s: String)
    ensures
        s@ == spec_backup_label(*backup, home@),
{
    match backup {
        None => String::new(),
        Some(b) => {
            if !b.reachable {
                string_from("?")
            } else if contains_string(b.homes.as_slice(), home) {
                string_from("ok")
            } else {
                string_from("miss")
            }
        },
    }
}

/// The remote columns: `--remote` alone, else the default remotes, else every
/// remote any repo has (each once, in name order).
pub open spec fn spec_shown_remotes(remote: Option<Seq<char>>, cfg: &Config, all: Seq<Seq<char>>) -> Seq<Seq<char>> {
    match remote {
        Some(r) => seq![r],
        None => if cfg.default_remotes@.len() > 0 {
            views(cfg.default_remotes@)
        } else {
            sorted_distinct(all)
        },
    }
}

/// The remote columns to render; `all` holds the remotes of every repo,
/// needed only without `--remote` and default remotes.
pub fn shown_remotes(remote: &Option<String>, cfg: &Config, all: &Option<Vec<String>>) -> (r: Vec<String>)
    requires
        remote.is_none() && cfg.default_remotes@.len() == 0 ==> all.is_some(),
    ensures
        views(r@) == spec_shown_remotes(
            opt_view(*remote),
            cfg,
            match all {
                Some(a) => views(a@),
                None => Seq::empty(),
            },
        ),
{
    match remote {
        Some(r) => {
            let mut v: Vec<String> = Vec::new();
            push_string(&mut v, r.clone());
            assert(views(v@) == seq![r@]);
            v
        },
        None => {
            if cfg.default_remotes.len() > 0 {
                copy_strings(&cfg.default_remotes)
            } else {
                match all {
                    Some(a) => sorted_set(a),
                    None => Vec::new(),
                }
            }
        },
    }
}

/// The first shown remote that the repo has: the one its other branches are
/// judged against.
pub open spec fn spec_primary_shown(shown: Seq<Seq<char>>, have: Seq<Seq<char>>) -> Option<Seq<char>> {
    let p = crate::push::spec_present(shown, have);
    if p.len() > 0 {
        Some(p[0])
    } else {
        None
    }
}

/// The first shown remote the repo has.
pub fn primary_shown(shown: &Vec<String>, have: &Vec<String>) -> (r: Option<String>)
    ensures
        opt_view(r) == spec_primary_shown(views(shown@), views(have@)),
{
    let p = crate::push::present_in(shown, have);
    if p.len() > 0 {
        assert(views(p@)[0] == p@[0]@);
        Some(p[0].clone())
    } else {
        None
    }
}

/// How many branches other than the checked-out one are not up to date with
/// the primary remote (`syncs` holds each branch's state against it).
pub open spec fn spec_others(current: Option<Seq<char>>, branches: Seq<Seq<char>>, syncs: Seq<BranchSync>) -> nat
    decreases branches.len(),
{
    if branches.len() == 0 || syncs.len() < branches.len() {
        0
    } else {
        let n = branches.len() - 1;
        spec_others(current, branches.drop_last(), syncs.take(n)) + if Some(branches[n]) != current
            && syncs[n] != BranchSync::UpToDate {
            1nat
        } else {
            0nat
        }
    }
}

/// The `+N⚠` count: branches other than the checked-out one that are not up
/// to date with the primary remote — so a clean current branch cannot hide
/// drift elsewhere.
pub fn others_needing_attention(current: &Option<String>, branches: &Vec<String>, syncs: &Vec<BranchSync>) -> (n: u32)
    requires
        syncs@.len() == branches@.len(),
        branches@.len() < u32::MAX,
    ensures
        n == spec_others(opt_view(*current), views(branches@), syncs@),
{
    let mut n: u32 = 0;
    let m = branches.len();
    for k in 0..m
        invariant
            m == branches@.len() == syncs@.len(),
            m < u32::MAX,
            n <= k,
            n == spec_others(opt_view(*current), views(branches@).take(k as int), syncs@.take(k as int)),
    {
        proof {
            let b = views(branches@).take(k + 1);
            assert(b.drop_last() == views(branches@).take(k as int));
            assert(syncs@.take(k + 1).take(k as int) == syncs@.take(k as int));
            assert(b[k as int] == branches@[k as int]@);
            assert(syncs@.take(k + 1)[k as int] == syncs@[k as int]);
        }
        let is_current = match current {
            Some(c) => crate::text::str_eq(c.as_str(), branches[k].as_str()),
            None => false,
        };
        if !is_current && syncs[k] != BranchSync::UpToDate {
            n = n + 1;
        }
    }
    assert(views(branches@).take(m as int) == views(branches@));
    assert(syncs@.take(m as int) == syncs@);
    n
}

/// `n` absent remote cells.
pub fn absent_cells(n: usize) -> (v: Vec<Option<BranchSync>>)
    ensures
        v@.len() == n,
        forall|i: int| 0 <= i < n ==> v@[i] is None,
{
    let mut v: Vec<Option<BranchSync>> = Vec::new();
    for k in 0..n
        invariant
            v@.len() == k,
            forall|i: int| 0 <= i < k ==> v@[i] is None,
    {
        v.push(None);
    }
    v
}

/// The row of a repo that exists only as a home.
pub fn home_only_row(home: &String, life: String, backup: String, shown: usize) -> (r: Row)
    ensures
        r.repo@ == home@,
        r.branch@ == "(home)"@,
        !r.is_current,
        r.wt is None,
        r.lifecycle@ == life@,
        r.backup@ == backup@,
        r.remote_cells@.len() == shown,
        forall|i: int| 0 <= i < shown ==> r.remote_cells@[i] is None,
        r.others is None,
        r.action is None,
{
    let mut row = Row::new(home.clone(), string_from("(home)"), false);
    row.lifecycle = life;
    row.backup = backup;
    row.remote_cells = absent_cells(shown);
    row
}

/// The remotes `gr status` refreshes before classifying a repo's branches:
/// every shown remote the repo has, in shown order — so a column reads the
/// home as it is now, not a stale tracking ref — and none with `--offline`,
/// which trusts the tracking refs as they are.
pub open spec fn spec_status_refresh(offline: bool, shown: Seq<Seq<char>>, have: Seq<Seq<char>>) -> Seq<Seq<char>> {
    if offline {
        Seq::empty()
    } else {
        crate::push::spec_present(shown, have)
    }
}

/// The fetches `gr status` runs in a repo before classifying its branches.
pub fn status_fetches(offline: bool, shown: &Vec<String>, have: &Vec<String>) -> (ops: Vec<GitOp>)
    ensures
        fetches_of(ops@, spec_status_refresh(offline, views(shown@), views(have@))),
{
    if offline {
        let v: Vec<String> = Vec::new();
        assert(views(v@) == Seq::<Seq<char>>::empty());
        fetch_all(&v)
    } else {
        fetch_all(&crate::push::present_in(shown, have))
    }
}

/// The status columns: the shown remotes with the transport failover group
/// (`[transport].order`, interchangeable wires to one server) folded into one
/// column.
pub fn status_columns(cfg: &Config, shown: &Vec<String>) -> (plan: ColumnCollapse)
    ensures
        plan.spec_remotes() == spec_collapse(views(shown@), views(cfg.transport.order@)).0,
        plan.spec_sources() == spec_collapse(views(shown@), views(cfg.transport.order@)).1,
{
    collapse_columns(shown.as_slice(), cfg.transport.order.as_slice())
}

/// The `+N⚠` hint is counted only for the default view of a repo that is not
/// deliberately ignored and has a branch to show: with `--all-branches` every
/// branch is a row already, and an ignored repo is not nagged.
pub open spec fn spec_wants_others(all_branches: bool, ignored: bool, n_branches: nat) -> bool {
    !all_branches && !ignored && n_branches > 0
}

/// Is the `+N⚠` hint counted for this repo?
pub fn wants_others(all_branches: bool, ignored: bool, branches: &Vec<String>) -> (b: bool)
    ensures
        b == spec_wants_others(all_branches, ignored, branches@.len()),
{
    !all_branches && !ignored && branches.len() > 0
}

/// The hint a row carries: the count when the hint is wanted, else none.
pub open spec fn gated_others(all_branches: bool, ignored: bool, n_branches: nat, others: Option<u32>) -> Option<u32> {
    if spec_wants_others(all_branches, ignored, n_branches) {
        others
    } else {
        None
    }
}

/// The fleet rows of one local repo: with no branch to show (detached), one
/// row naming the `HEAD`; otherwise one row per branch, the first carrying the
/// repo's name, lifecycle and backup cell, the checked-out one its working
/// tree and the attention count `others` — which no row carries with
/// `--all-branches` or for an ignored repo.
pub fn local_rows(
    display: &String,
    life: &String,
    backup: &String,
    current: &Option<String>,
    wt: WorkingTree,
    branches: &Vec<String>,
    cells: &Vec<Vec<Option<BranchSync>>>,
    all_branches: bool,
    ignored: bool,
    others: Option<u32>,
    shown: usize,
) -> (rows: Vec<Row>)
    requires
        cells@.len() == branches@.len(),
    ensures
        (all_branches || ignored) ==> forall|i: int| 0 <= i < rows@.len() ==> (#[trigger] rows@[i]).others is None,
        branches@.len() == 0 ==> rows@.len() == 1 && rows@[0].repo@ == display@ && rows@[0].branch@
            == (match current {
            Some(c) => c@,
            None => "(detached)"@,
        }) && rows@[0].is_current && rows@[0].lifecycle@ == life@ && rows@[0].backup@ == backup@
            && rows@[0].wt == Some(wt) && rows@[0].remote_cells@.len() == shown && (forall|i: int|
            0 <= i < shown ==> rows@[0].remote_cells@[i] is None) && rows@[0].others is None
            && rows@[0].action is None,
        branches@.len() > 0 ==> rows@.len() == branches@.len(),
        forall|i: int|
            0 <= i < branches@.len() ==> {
                let r = #[trigger] rows@[i];
                let cur = current.is_some() && current.unwrap()@ == branches@[i]@;
                &&& r.repo@ == (if i == 0 {
                    display@
                } else {
                    Seq::empty()
                })
                &&& r.branch@ == branches@[i]@
                &&& r.is_current == cur
                &&& r.lifecycle@ == (if i == 0 {
                    life@
                } else {
                    Seq::empty()
                })
                &&& r.backup@ == (if i == 0 {
                    backup@
                } else {
                    Seq::empty()
                })
                &&& r.wt == (if cur {
                    Some(wt)
                } else {
                    None
                })
                &&& r.remote_cells@ == cells@[i]@
                &&& r.others == (if cur {
                    gated_others(all_branches, ignored, branches@.len(), others)
                } else {
                    None
                })
                &&& r.action is None
            },
{
    let mut rows: Vec<Row> = Vec::new();
    if branches.len() == 0 {
        let head = match current {
            Some(c) => c.clone(),
            None => string_from("(detached)"),
        };
        let mut row = Row::new(display.clone(), head, true);
        row.lifecycle = life.clone();
        row.backup = backup.clone();
        row.wt = Some(wt);
        row.remote_cells = absent_cells(shown);
        rows.push(row);
        return rows;
    }
    let g = if wants_others(all_branches, ignored, branches) {
        others
    } else {
        None
    };
    let n = branches.len();
    for i in 0..n
        invariant
            n == branches@.len() == cells@.len(),
            g == gated_others(all_branches, ignored, branches@.len(), others),
            rows@.len() == i,
            forall|j: int|
                0 <= j < i ==> {
                    let r = #[trigger] rows@[j];
                    let cur = current.is_some() && current.unwrap()@ == branches@[j]@;
                    &&& r.repo@ == (if j == 0 {
                        display@
                    } else {
                        Seq::empty()
                    })
                    &&& r.branch@ == branches@[j]@
                    &&& r.is_current == cur
                    &&& r.lifecycle@ == (if j == 0 {
                        life@
                    } else {
                        Seq::empty()
                    })
                    &&& r.backup@ == (if j == 0 {
                        backup@
                    } else {
                        Seq::empty()
                    })
                    &&& r.wt == (if cur {
                        Some(wt)
                    } else {
                        None
                    })
                    &&& r.remote_cells@ == cells@[j]@
                    &&& r.others == (if cur {
                        g
                    } else {
                        None
                    })
                    &&& r.action is None
                },
    {
        let is_current = match current {
            Some(c) => crate::text::str_eq(c.as_str(), branches[i].as_str()),
            None => false,
        };
        let repo = if i == 0 {
            display.clone()
        } else {
            String::new()
        };
        let mut row = Row::new(repo, branches[i].clone(), is_current);
        if i == 0 {
            row.lifecycle = life.clone();
            row.backup = backup.clone();
        }
        row.wt = if is_current {
            Some(wt)
        } else {
            None
        };
        row.remote_cells = copy_cells(&cells[i]);
        if is_current {
            row.others = g;
        }
        rows.push(row);
    }
    rows
}

/// A copy of a row's remote cells.
fn copy_cells(v: &Vec<Option<BranchSync>>) -> (r: Vec<Option<BranchSync>>)
    ensures
        r@ == v@,
{
    let mut r: Vec<Option<BranchSync>> = Vec::new();
    let n = v.len();
    for k in 0..n
        invariant
            n == v@.len(),
            r@ == v@.take(k as int),
    {
        r.push(v[k]);
        assert(v@.take(k + 1) == v@.take(k as int).push(v@[k as int]));
    }
    assert(v@.take(n as int) == v@);
    r
}

/// The detail view's `sync` column: what `sync` would do with the branch.
pub open spec fn spec_action_label(sync: BranchSync, action: SyncAction) -> Seq<char> {
    match action {
        SyncAction::UpToDate => "ok"@,
        SyncAction::Push => match sync {
            BranchSync::NoRemoteBranch => "push (new)"@,
            BranchSync::Ahead(n) => "push "@ + up_arrow(n),
            _ => "push"@,
        },
        SyncAction::FastForward(n) => "ff "@ + down_arrow(n),
        SyncAction::BlockedDirty(n) => down_arrow(n) + " dirty"@,
        SyncAction::Report => match sync {
            BranchSync::Diverged { conflict, .. } => if conflict {
                "CONFLICT"@
            } else {
                "diverged"@
            },
            _ => "diverged"@,
        },
    }
}

/// The detail view's text for a branch's sync action.
pub fn action_label(sync: BranchSync, action: SyncAction) -> (s: String)
    ensures
        s@ == spec_action_label(sync, action),
{
    match action {
        SyncAction::UpToDate => string_from("ok"),
        SyncAction::Push => match sync {
            BranchSync::NoRemoteBranch => string_from("push (new)"),
            BranchSync::Ahead(n) => {
                let mut s = string_from("push ");
                push_str(&mut s, "\u{2191}");
                push_decimal(&mut s, n as u64);
                assert(s@ == "push "@ + up_arrow(n));
                s
            },
            _ => string_from("push"),
        },
        SyncAction::FastForward(n) => {
            let mut s = string_from("ff ");
            push_str(&mut s, "\u{2193}");
            push_decimal(&mut s, n as u64);
            assert(s@ == "ff "@ + down_arrow(n));
            s
        },
        SyncAction::BlockedDirty(n) => {
            let mut s = string_from("\u{2193}");
            push_decimal(&mut s, n as u64);
            push_str(&mut s, " dirty");
            s
        },
        SyncAction::Report => match sync {
            BranchSync::Diverged { conflict: true, .. } => string_from("CONFLICT"),
            _ => string_from("diverged"),
        },
    }
}

/// The repo `gr status <target>` shows: the first whose home or directory
/// name is `target`.
pub open spec fn spec_find_presence(ps: Seq<RepoPresence>, target: Seq<char>) -> Option<int>
    decreases ps.len(),
{
    if ps.len() == 0 {
        None
    } else if ps[0].home_name@ == target || (ps[0].local_dir is Some && ps[0].local_dir.unwrap()@
        == target) {
        Some(0)
    } else {
        match spec_find_presence(ps.drop_first(), target) {
            Some(i) => Some(i + 1),
            None => None,
        }
    }
}

/// Where the repo named `target` is among the surveyed ones.
pub fn find_presence(ps: &Vec<RepoPresence>, target: &str) -> (r: Option<usize>)
    ensures
        match r {
            Some(i) => spec_find_presence(ps@, target@) == Some(i as int),
            None => spec_find_presence(ps@, target@) is None,
        },
{
    let n = ps.len();
    let mut k: usize = 0;
    assert(ps@.skip(0) == ps@);
    while k < n
        invariant
            n == ps@.len(),
            k <= n,
            spec_find_presence(ps@, target@) == (match spec_find_presence(ps@.skip(k as int), target@) {
                Some(i) => Some(i + k),
                None => None,
            }),
        decreases n - k,
    {
        let p = &ps[k];
        let ghost rest = ps@.skip(k as int);
        assert(rest[0] == ps@[k as int]);
        let hit = crate::text::str_eq(p.home_name.as_str(), target) || match &p.local_dir {
            Some(d) => crate::text::str_eq(d.as_str(), target),
            None => false,
        };
        if hit {
            return Some(k);
        }
        assert(rest.drop_first() == ps@.skip(k + 1));
        k = k + 1;
    }
    None
}

/// One branch row of the detail view: the branch, its working tree when
/// checked out, its remote cells, and what `sync` would do against the
/// primary remote (when the repo has one).
pub fn detail_row(
    branch: &String,
    is_current: bool,
    wt: WorkingTree,
    cells: &Vec<Option<BranchSync>>,
    primary_sync: Option<BranchSync>,
) -> (r: Row)
    ensures
        r.repo@.len() == 0,
        r.branch@ == branch@,
        r.is_current == is_current,
        r.wt == (if is_current {
            Some(wt)
        } else {
            None
        }),
        r.remote_cells@ == cells@,
        r.lifecycle@.len() == 0,
        r.backup@.len() == 0,
        r.others is None,
        match primary_sync {
            Some(s) => r.action.is_some() && r.action.unwrap()@ == spec_action_label(
                s,
                spec_plan(
                    s,
                    if is_current {
                        wt.spec_clean()
                    } else {
                        true
                    },
                ),
            ),
            None => r.action is None,
        },
{
    let mut row = Row::new(String::new(), branch.clone(), is_current);
    row.wt = if is_current {
        Some(wt)
    } else {
        None
    };
    row.remote_cells = copy_cells(cells);
    row.action = match primary_sync {
        Some(s) => {
            let clean = if is_current {
                wt.is_clean()
            } else {
                true
            };
            Some(action_label(s, SyncAction::plan(s, clean)))
        },
        None => None,
    };
    row
}

/// The detail rows of the branches that exist only on the home: each offered
/// to `fetch` into the local copy, or to `clone` when there is none.
pub fn home_branch_rows(
    home_branches: &Vec<String>,
    local_branches: &Vec<String>,
    shown: usize,
    local_exists: bool,
) -> (rows: Vec<Row>)
    ensures
        views(rows@.map_values(|r: Row| r.branch)) == views(home_branches@).filter_map(
            |b: Seq<char>|
                if views(local_branches@).contains(b) {
                    None
                } else {
                    Some(b)
                },
        ),
        forall|i: int|
            0 <= i < rows@.len() ==> {
                let r = #[trigger] rows@[i];
                &&& r.repo@.len() == 0
                &&& !r.is_current
                &&& r.wt is None
                &&& r.remote_cells@.len() == shown
                &&& (forall|j: int| 0 <= j < shown ==> r.remote_cells@[j] is None)
                &&& r.lifecycle@.len() == 0
                &&& r.backup@.len() == 0
                &&& r.others is None
                &&& r.action.is_some() && r.action.unwrap()@ == (if local_exists {
                    "fetch"@
                } else {
                    "clone"@
                })
            },
{
    let ghost f = |b: Seq<char>|
        if views(local_branches@).contains(b) {
            None
        } else {
            Some(b)
        };
    let mut rows: Vec<Row> = Vec::new();
    let n = home_branches.len();
    for k in 0..n
        invariant
            n == home_branches@.len(),
            f == (|b: Seq<char>|
                if views(local_branches@).contains(b) {
                    None
                } else {
                    Some(b)
                }),
            views(rows@.map_values(|r: Row| r.branch)) == views(home_branches@).take(k as int).filter_map(f),
            forall|i: int|
                0 <= i < rows@.len() ==> {
                    let r = #[trigger] rows@[i];
                    &&& r.repo@.len() == 0
                    &&& !r.is_current
                    &&& r.wt is None
                    &&& r.remote_cells@.len() == shown
                    &&& (forall|j: int| 0 <= j < shown ==> r.remote_cells@[j] is None)
                    &&& r.lifecycle@.len() == 0
                    &&& r.backup@.len() == 0
                    &&& r.others is None
                    &&& r.action.is_some() && r.action.unwrap()@ == (if local_exists {
                        "fetch"@
                    } else {
                        "clone"@
                    })
                },
    {
        proof {
            assert(views(home_branches@)[k as int] == home_branches@[k as int]@);
            views(home_branches@).lemma_filter_map_take_succ(f, k as int);
        }
        let ghost before = views(rows@.map_values(|r: Row| r.branch));
        if !contains_string(local_branches.as_slice(), &home_branches[k]) {
            let mut row = Row::new(String::new(), home_branches[k].clone(), false);
            row.remote_cells = absent_cells(shown);
            row.action = Some(
                if local_exists {
                    string_from("fetch")
                } else {
                    string_from("clone")
                },
            );
            let ghost bv = row.branch@;
            rows.push(row);
            proof {
                assert(views(rows@.map_values(|r: Row| r.branch)) == before.push(bv));
                assert(before.push(bv) == before + seq![bv]);
            }
        } else {
            assert(before + Seq::<Seq<char>>::empty() == before);
        }
    }
    assert(views(home_branches@).take(n as int) == views(home_branches@));
    rows
}

/// The detail view's heading: `<home>  [<lifecycle>]`, the lifecycle `?` when
/// the home side is unknown.
pub open spec fn spec_detail_heading(home: Seq<char>, l: Lifecycle, home_known: bool) -> Seq<char> {
    home + "  ["@ + (if home_known {
        l.spec_label()
    } else {
        "?"@
    }) + "]"@
}

/// The detail view's heading.
pub fn detail_heading(home: &str, l: Lifecycle, home_known: bool) -> (s: String)
    ensures
        s@ == spec_detail_heading(home@, l, home_known),
{
    let mut s = string_from(home);
    push_str(&mut s, "  [");
    if home_known {
        push_str(&mut s, l.label());
    } else {
        push_str(&mut s, "?");
    }
    push_str(&mut s, "]");
    s
}

/// The note above the fleet table when the home side is unknown (and not by
/// `--offline`): the server did not answer, or none is configured.
pub open spec fn spec_status_banner(home_known: bool, offline: bool, server: bool, config_path: Seq<char>) -> Option<Seq<char>> {
    if !home_known && !offline {
        if server {
            Some("(server unreachable \u{2014} lifecycle shown as `?`, home-only repos hidden)\n"@)
        } else {
            Some(
                "(no [server] configured \u{2014} lifecycle hidden; add a [server] block with `root = \"/data/git\"` to "@
                    + config_path + " to enable it)\n"@,
            )
        }
    } else {
        None
    }
}

/// The note above the fleet table, if any.
pub fn status_banner(home_known: bool, offline: bool, cfg: &Config, config_path: &str) -> (r: Option<String>)
    ensures
        opt_view(r) == spec_status_banner(home_known, offline, cfg.server.root@.len() > 0, config_path@),
{
    if !home_known && !offline {
        if cfg.server_enabled() {
            Some(string_from("(server unreachable \u{2014} lifecycle shown as `?`, home-only repos hidden)\n"))
        } else {
            let mut s = string_from(
                "(no [server] configured \u{2014} lifecycle hidden; add a [server] block with `root = \"/data/git\"` to ",
            );
            push_str(&mut s, config_path);
            push_str(&mut s, " to enable it)\n");
            Some(s)
        }
    } else {
        None
    }
}


/// With `--dirty-only`, a repo is shown only when its working tree holds
/// anything uncommitted or untracked (a home-only repo has no tree to show).
pub fn shown_when_dirty_only(wt: Option<WorkingTree>) -> (b: bool)
    ensures
        b == (match wt {
            Some(w) => !w.spec_clean(),
            None => false,
        }),
{
    match wt {
        Some(w) => !w.is_clean(),
        None => false,
    }
}


/// The `+N⚠` count is the number of branches, other than the checked-out
/// one, whose state against the primary remote is anything but up to date:
/// every such branch — new, ahead, behind or diverged — adds one, and nothing
/// else does.
pub proof fn lemma_others_count(current: Option<Seq<char>>, branches: Seq<Seq<char>>, syncs: Seq<BranchSync>)
    requires
        syncs.len() == branches.len(),
    ensures
        spec_others(current, branches, syncs) == Seq::new(branches.len(), |k: int| k).filter(
            |k: int| Some(branches[k]) != current && syncs[k] != BranchSync::UpToDate,
        ).len(),
{
    lemma_others_prefix(current, branches, syncs, branches.len());
    assert(branches.take(branches.len() as int) == branches);
    assert(syncs.take(branches.len() as int) == syncs);
}

/// The count over the first `m` branches.
proof fn lemma_others_prefix(current: Option<Seq<char>>, branches: Seq<Seq<char>>, syncs: Seq<BranchSync>, m: nat)
    requires
        syncs.len() == branches.len(),
        m <= branches.len(),
    ensures
        spec_others(current, branches.take(m as int), syncs.take(m as int)) == Seq::new(m, |k: int| k).filter(
            |k: int| Some(branches[k]) != current && syncs[k] != BranchSync::UpToDate,
        ).len(),
    decreases m,
{
    let p = |k: int| Some(branches[k]) != current && syncs[k] != BranchSync::UpToDate;
    if m == 0 {
        assert(Seq::new(0, |k: int| k) == Seq::<int>::empty());
        reveal(Seq::filter);
        assert(Seq::<int>::empty().filter(p) == Seq::<int>::empty());
    } else {
        lemma_others_prefix(current, branches, syncs, (m - 1) as nat);
        let b = branches.take(m as int);
        let s = syncs.take(m as int);
        assert(b.drop_last() == branches.take(m - 1));
        assert(s.take(m - 1) == syncs.take(m - 1));
        assert(b[m - 1] == branches[m - 1]);
        assert(s[m - 1] == syncs[m - 1]);
        let ids = Seq::new(m, |k: int| k);
        let prev = Seq::new((m - 1) as nat, |k: int| k);
        assert(ids == prev.push(m - 1));
        prev.lemma_filter_push(m - 1, p);
        prev.filter(p).lemma_filter_len(p);
    }
}

/// A diverged branch is labelled in the detail view as it is in the table:
/// `CONFLICT` exactly when a trial merge conflicts, else `diverged`.
pub proof fn lemma_report_label(sync: BranchSync)
    ensures
        spec_action_label(sync, SyncAction::Report) == "CONFLICT"@ <==> (sync is Diverged
            && sync->conflict),
        sync is Diverged ==> spec_action_label(sync, SyncAction::Report) == sync.spec_label(),
        spec_action_label(sync, SyncAction::Report) == "CONFLICT"@ || spec_action_label(
            sync,
            SyncAction::Report,
        ) == "diverged"@,
{
    reveal_strlit("CONFLICT");
    reveal_strlit("diverged");
    assert("CONFLICT"@ != "diverged"@) by {
        assert("CONFLICT"@[0] != "diverged"@[0]);
    }
}

/// What the detail view's `sync` column says for each state of a branch:
/// `ok` when up to date; `push (new)` / `push ↑n` for work only we hold;
/// `ff ↓n` when behind and the tree allows a fast-forward, else `↓n dirty`;
/// and a diverged branch's own label (`diverged` or `CONFLICT`).
pub proof fn lemma_detail_action_text(sync: BranchSync, clean: bool)
    ensures
        ({
            let label = spec_action_label(sync, spec_plan(sync, clean));
            match sync {
                BranchSync::UpToDate => label == "ok"@,
                BranchSync::NoRemoteBranch => label == "push (new)"@,
                BranchSync::Ahead(n) => label == "push "@ + seq!['\u{2191}'] + crate::text::decimal(n as nat),
                BranchSync::Behind(n) => label == (if clean {
                    "ff "@ + seq!['\u{2193}'] + crate::text::decimal(n as nat)
                } else {
                    seq!['\u{2193}'] + crate::text::decimal(n as nat) + " dirty"@
                }),
                BranchSync::Diverged { .. } => label == sync.spec_label(),
            }
        }),
{
    reveal_strlit("\u{2191}");
    reveal_strlit("\u{2193}");
}
} // verus!
