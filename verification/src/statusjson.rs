//! The machine-readable shape of the status views (`--json`), built from the
//! same `Row`s the tables render, so the two outputs never drift:
//! `{ "remotes": [...], "repos": [ { repo, lifecycle, others?, branches: [...] } ] }`.
use vstd::prelude::*;
use crate::classify::BranchSync;
use crate::model::WorkingTree;
use crate::render::Row;
use crate::text::{lemma_seq_lt_transitive, lemma_seq_lt_trichotomy, seq_lt, str_eq, str_lt, views};

verus! {

/// The whole fleet view.
pub struct Fleet<'a> {
    pub remotes: &'a [String],
    pub repos: Vec<RepoJson>,
}

/// One repo and its branches.
pub struct RepoJson {
    pub repo: String,
    pub lifecycle: String,
    /// Backup-server presence (`ok` / `miss` / `?`), only when a backup
    /// server is configured.
    pub backup: Option<String>,
    pub others: Option<u32>,
    pub branches: Vec<BranchJson>,
}

/// One branch: working tree (current branch only), per-remote state, and the
/// sync action (detail view only).
pub struct BranchJson {
    pub branch: String,
    pub current: bool,
    pub working_tree: Option<WtJson>,
    /// Per-remote state, keyed by remote name, in ascending key order.
    pub remotes: Vec<(String, SyncJson)>,
    pub action: Option<String>,
}

/// Working-tree counts.
#[derive(Debug, Clone, Copy, PartialEq, Eq, Structural)]
pub struct WtJson {
    pub staged: u32,
    pub unstaged: u32,
    pub untracked: u32,
    pub conflicts: u32,
}

/// One remote's state for a branch.
#[derive(Debug, Clone, Copy)]
pub struct SyncJson {
    pub state: &'static str,
    pub ahead: u32,
    pub behind: u32,
    pub conflict: bool,
}

/// The (state, ahead, behind, conflict) of a sync JSON value.
pub open spec fn sync_view(s: SyncJson) -> (Seq<char>, u32, u32, bool) {
    (s.state@, s.ahead, s.behind, s.conflict)
}

/// The JSON state of a classification: `new`, `up-to-date`, `ahead`,
/// `behind`, `diverged` or `conflict`, with its counts.
pub open spec fn spec_sync_json(s: BranchSync) -> (Seq<char>, u32, u32, bool) {
    match s {
        BranchSync::NoRemoteBranch => ("new"@, 0, 0, false),
        BranchSync::UpToDate => ("up-to-date"@, 0, 0, false),
        BranchSync::Ahead(n) => ("ahead"@, n, 0, false),
        BranchSync::Behind(n) => ("behind"@, 0, n, false),
        BranchSync::Diverged { ahead, behind, conflict } => (
            if conflict {
                "conflict"@
            } else {
                "diverged"@
            },
            ahead,
            behind,
            conflict,
        ),
    }
}

fn wt_json(wt: &WorkingTree) -> (j: WtJson)
    ensures
        j == (WtJson {
            staged: wt.staged,
            unstaged: wt.unstaged,
            untracked: wt.untracked,
            conflicts: wt.conflicts,
        }),
{
    WtJson {
        staged: wt.staged,
        unstaged: wt.unstaged,
        untracked: wt.untracked,
        conflicts: wt.conflicts,
    }
}

fn sync_json(s: &BranchSync) -> (j: SyncJson)
    ensures
        sync_view(j) == spec_sync_json(*s),
{
    match s {
        BranchSync::NoRemoteBranch => SyncJson { state: "new", ahead: 0, behind: 0, conflict: false },
        BranchSync::UpToDate => SyncJson {
            state: "up-to-date",
            ahead: 0,
            behind: 0,
            conflict: false,
        },
        BranchSync::Ahead(n) => SyncJson { state: "ahead", ahead: *n, behind: 0, conflict: false },
        BranchSync::Behind(n) => SyncJson { state: "behind", ahead: 0, behind: *n, conflict: false },
        BranchSync::Diverged { ahead, behind, conflict } => SyncJson {
            state: if *conflict {
                "conflict"
            } else {
                "diverged"
            },
            ahead: *ahead,
            behind: *behind,
            conflict: *conflict,
        },
    }
}

/// The remote map of a branch: for each shown remote paired with a present
/// cell (pairs beyond the shorter of the two lists are dropped), the remote's
/// JSON state; a remote named twice keeps its last state.
pub open spec fn remote_map(remotes: Seq<Seq<char>>, cells: Seq<Option<BranchSync>>, n: int) -> Map<
    Seq<char>,
    (Seq<char>, u32, u32, bool),
>
    decreases n,
{
    if n <= 0 {
        Map::empty()
    } else {
        let m = remote_map(remotes, cells, n - 1);
        match cells[n - 1] {
            Some(s) => m.insert(remotes[n - 1], spec_sync_json(s)),
            None => m,
        }
    }
}

/// The pairs are in strictly ascending key order.
pub open spec fn keys_sorted(es: Seq<(String, SyncJson)>) -> bool {
    forall|i: int, j: int| 0 <= i && i < j < es.len() ==> seq_lt(#[trigger] es[i].0@, #[trigger] es[j].0@)
}

/// The pairs hold exactly the entries of `m`.
pub open spec fn pairs_are(es: Seq<(String, SyncJson)>, m: Map<Seq<char>, (Seq<char>, u32, u32, bool)>) -> bool {
    &&& forall|i: int| 0 <= i && i < es.len() ==> #[trigger] m.contains_key(es[i].0@) && m[es[i].0@] == sync_view(es[i].1)
    &&& forall|k: Seq<char>| #[trigger] m.contains_key(k) ==> exists|i: int| 0 <= i && i < es.len() && #[trigger] es[i].0@ == k
}

/// Where the pair now at `j` was before setting (`found`) or inserting at `i`.
pub open spec fn old_index(i: int, found: bool, j: int) -> int {
    if found || j < i {
        j
    } else {
        j - 1
    }
}

/// Sets `key` to `val` in the sorted pairs.
fn insert_pair(es: &mut Vec<(String, SyncJson)>, key: String, val: SyncJson)
    requires
        keys_sorted(old(es)@),
    ensures
        keys_sorted(final(es)@),
        forall|m: Map<Seq<char>, (Seq<char>, u32, u32, bool)>| pairs_are(old(es)@, m) ==> pairs_are(final(es)@, m.insert(key@, sync_view(val))),
{
    let mut i: usize = 0;
    while i < es.len() && str_lt(es[i].0.as_str(), key.as_str())
        invariant
            i <= es@.len(),
            es@ == old(es)@,
            forall|j: int| 0 <= j && j < i ==> seq_lt(#[trigger] es@[j].0@, key@),
        decreases es@.len() - i,
    {
        i = i + 1;
    }
    let ghost old_es = es@;
    let found = i < es.len() && str_eq(es[i].0.as_str(), key.as_str());
    proof {
        if !found && i < old_es.len() {
            lemma_seq_lt_trichotomy(old_es[i as int].0@, key@);
            assert forall|j: int| i <= j < old_es.len() implies seq_lt(key@, #[trigger] old_es[j].0@) by {
                if j > i {
                    lemma_seq_lt_transitive(key@, old_es[i as int].0@, old_es[j].0@);
                }
            }
        }
    }
    let ghost kv = key@;
    if found {
        es.set(i, (key, val));
    } else {
        es.insert(i, (key, val));
    }
    proof {
        let e = es@;
        assert(e[i as int].0@ == kv);
        assert forall|j: int| 0 <= j && j < e.len() && j != i implies #[trigger] e[j] == old_es[old_index(
            i as int,
            found,
            j,
        )] && old_es[old_index(i as int, found, j)].0@ != kv && 0 <= old_index(i as int, found, j)
            < old_es.len() by {
            let o = old_index(i as int, found, j);
            if o < i {
                lemma_seq_lt_trichotomy(old_es[o].0@, kv);
            } else if !found {
                lemma_seq_lt_trichotomy(kv, old_es[o].0@);
            } else if o > i {
                lemma_seq_lt_trichotomy(old_es[i as int].0@, old_es[o].0@);
            }
        }
        assert forall|a: int, b: int| 0 <= a && a < b < e.len() implies seq_lt(#[trigger] e[a].0@, #[trigger] e[b].0@) by {
            let oa = if found || a < i { a } else { a - 1 };
            let ob = if found || b < i { b } else { b - 1 };
            if a == i {
                if found { assert(e[b] == old_es[b]); assert(seq_lt(old_es[i as int].0@, old_es[b].0@)); }
                else { assert(e[b] == old_es[b - 1]); }
            } else if b == i {
                assert(e[a] == old_es[a]);
            } else {
                assert(e[a] == old_es[oa]);
                assert(e[b] == old_es[ob]);
                if oa == ob {
                    assert(false);
                }
            }
        }
        assert forall|m: Map<Seq<char>, (Seq<char>, u32, u32, bool)>| pairs_are(old_es, m) implies pairs_are(e, m.insert(kv, sync_view(val))) by {
            let m2 = m.insert(kv, sync_view(val));
            assert forall|j: int| 0 <= j && j < e.len() implies #[trigger] m2.contains_key(e[j].0@) && m2[e[j].0@] == sync_view(e[j].1) by {
                if j != i {
                    let o = old_index(i as int, found, j);
                    assert(e[j] == old_es[o]);
                    assert(m.contains_key(old_es[o].0@));
                }
            }
            assert forall|k: Seq<char>| #[trigger] m2.contains_key(k) implies exists|j: int| 0 <= j && j < e.len() && #[trigger] e[j].0@ == k by {
                if k == kv {
                    assert(e[i as int].0@ == k);
                } else {
                    assert(m.contains_key(k));
                    let o = choose|o: int| 0 <= o && o < old_es.len() && #[trigger] old_es[o].0@ == k;
                    if found {
                        assert(e[o] == old_es[o]);
                    } else if o < i {
                        assert(e[o] == old_es[o]);
                    } else {
                        assert(e[o + 1] == old_es[o]);
                    }
                }
            }
        }
    }
}

/// The JSON working tree of a row's counts.
pub open spec fn wt_json_of(wt: Option<WorkingTree>) -> Option<WtJson> {
    match wt {
        Some(w) => Some(
            WtJson {
                staged: w.staged,
                unstaged: w.unstaged,
                untracked: w.untracked,
                conflicts: w.conflicts,
            },
        ),
        None => None,
    }
}

/// The text of an optional string.
pub open spec fn opt_view(s: Option<String>) -> Option<Seq<char>> {
    match s {
        Some(t) => Some(t@),
        None => None,
    }
}

/// The shown remotes paired with a row's cells.
pub open spec fn paired(remotes: Seq<Seq<char>>, cells: Seq<Option<BranchSync>>) -> int {
    if remotes.len() < cells.len() {
        remotes.len() as int
    } else {
        cells.len() as int
    }
}

/// `b` is the JSON of `row` under the shown `remotes`: same branch, current
/// flag, working tree and action; the remote states of the present cells,
/// keyed by remote, in ascending key order.
pub open spec fn is_branch_json(b: BranchJson, remotes: Seq<Seq<char>>, row: Row) -> bool {
    &&& b.branch@ == row.branch@
    &&& b.current == row.is_current
    &&& b.working_tree == wt_json_of(row.wt)
    &&& opt_view(b.action) == opt_view(row.action)
    &&& keys_sorted(b.remotes@)
    &&& pairs_are(
        b.remotes@,
        remote_map(remotes, row.remote_cells@, paired(remotes, row.remote_cells@)),
    )
}

fn branch_json(remotes: &[String], row: &Row) -> (b: BranchJson)
    ensures
        is_branch_json(b, views(remotes@), *row),
{
    let mut map: Vec<(String, SyncJson)> = Vec::new();
    let n = if remotes.len() < row.remote_cells.len() {
        remotes.len()
    } else {
        row.remote_cells.len()
    };
    let ghost rv = views(remotes@);
    let ghost cells = row.remote_cells@;
    for k in 0..n
        invariant
            n as int == paired(rv, cells),
            n <= remotes@.len(),
            n <= cells.len(),
            rv == views(remotes@),
            cells == row.remote_cells@,
            keys_sorted(map@),
            pairs_are(map@, remote_map(rv, cells, k as int)),
    {
        match &row.remote_cells[k] {
            Some(s) => {
                let j = sync_json(s);
                assert(rv[k as int] == remotes@[k as int]@);
                insert_pair(&mut map, remotes[k].clone(), j);
            },
            None => {},
        }
    }
    let wt = match &row.wt {
        Some(w) => Some(wt_json(w)),
        None => None,
    };
    let action = match &row.action {
        Some(a) => Some(a.clone()),
        None => None,
    };
    BranchJson { branch: row.branch.clone(), current: row.is_current, working_tree: wt, remotes: map, action }
}

/// A group of fleet rows: the row that starts it, the last `others` hint seen
/// in it, and the rows that become its branches.
pub type Group = (int, Option<u32>, Seq<int>);

/// The repo groups of the first `n` rows: a row with a non-empty repo starts
/// a group; rows before the first such row are ignored; every row sets the
/// group's hint when it has one and becomes a branch unless it is the
/// `(home)` placeholder.
pub open spec fn fleet_groups(rows: Seq<Row>, n: nat) -> Seq<Group>
    decreases n,
{
    if n == 0 {
        Seq::empty()
    } else {
        let g = fleet_groups(rows, (n - 1) as nat);
        let i = n - 1;
        let r = rows[i];
        let g2 = if r.repo@.len() > 0 {
            g.push((i, None, Seq::empty()))
        } else {
            g
        };
        if g2.len() == 0 {
            g2
        } else {
            let last = g2.last();
            let others = if r.others is Some {
                r.others
            } else {
                last.1
            };
            let br = if r.branch@ != "(home)"@ {
                last.2.push(i)
            } else {
                last.2
            };
            g2.update(g2.len() - 1, (last.0, others, br))
        }
    }
}

/// `j` is the JSON of group `g` of `rows`.
pub open spec fn is_group_json(j: RepoJson, g: Group, remotes: Seq<Seq<char>>, rows: Seq<Row>) -> bool {
    &&& 0 <= g.0 < rows.len()
    &&& j.repo@ == rows[g.0].repo@
    &&& j.lifecycle@ == rows[g.0].lifecycle@
    &&& crate::git::opt_view(j.backup) == (if rows[g.0].backup@.len() == 0 {
        None
    } else {
        Some(rows[g.0].backup@)
    })
    &&& j.others == g.1
    &&& branches_ok(j.branches@, g.2, remotes, rows)
}

/// Each branch JSON is the JSON of the row it comes from.
pub open spec fn branches_ok(
    branches: Seq<BranchJson>,
    idxs: Seq<int>,
    remotes: Seq<Seq<char>>,
    rows: Seq<Row>,
) -> bool {
    &&& branches.len() == idxs.len()
    &&& forall|b: int|
        0 <= b && b < idxs.len() ==> 0 <= idxs[b] && idxs[b] < rows.len() && is_branch_json(
            #[trigger] branches[b],
            remotes,
            rows[idxs[b]],
        )
}

/// Adding the JSON of row `i` keeps the branches in step with their rows.
proof fn lemma_branches_push(
    branches: Seq<BranchJson>,
    idxs: Seq<int>,
    remotes: Seq<Seq<char>>,
    rows: Seq<Row>,
    x: BranchJson,
    i: int,
)
    requires
        branches_ok(branches, idxs, remotes, rows),
        0 <= i < rows.len(),
        is_branch_json(x, remotes, rows[i]),
    ensures
        branches_ok(branches.push(x), idxs.push(i), remotes, rows),
{
    assert forall|b: int| 0 <= b && b < idxs.push(i).len() implies 0 <= #[trigger] idxs.push(i)[b] && idxs.push(i)[b] < rows.len() by {
        if b < idxs.len() {
            assert(branches.push(x)[b] == branches[b]);
            assert(idxs.push(i)[b] == idxs[b]);
        }
    }
    assert forall|b: int| 0 <= b && b < idxs.push(i).len() implies is_branch_json(#[trigger] branches.push(x)[b], remotes, rows[idxs.push(i)[b]]) by {
        if b < idxs.len() {
            assert(branches.push(x)[b] == branches[b]);
            assert(idxs.push(i)[b] == idxs[b]);
        }
    }
}

/// Group flat fleet rows back into per-repo JSON (a row with a non-empty `repo`
/// starts a new repo; `(home)` placeholder rows carry no branch).
pub fn fleet<'a>(remotes: &'a [String], rows: &[Row]) -> (f: Fleet<'a>)
    ensures
        f.remotes == remotes,
        f.repos@.len() == fleet_groups(rows@, rows@.len()).len(),
        forall|k: int|
            0 <= k && k < f.repos@.len() ==> is_group_json(
                #[trigger] f.repos@[k],
                fleet_groups(rows@, rows@.len())[k],
                views(remotes@),
                rows@,
            ),
{
    let mut repos: Vec<RepoJson> = Vec::new();
    let n = rows.len();
    let ghost rv = views(remotes@);
    for i in 0..n
        invariant
            n == rows@.len(),
            rv == views(remotes@),
            repos@.len() == fleet_groups(rows@, i as nat).len(),
            forall|k: int|
                0 <= k && k < repos@.len() ==> is_group_json(
                    #[trigger] repos@[k],
                    fleet_groups(rows@, i as nat)[k],
                    rv,
                    rows@,
                ),
    {
        let row = &rows[i];
        let ghost g = fleet_groups(rows@, i as nat);
        let ghost starts = row.repo@.len() > 0;
        let ghost g2 = if starts {
            g.push((i as int, None, Seq::empty()))
        } else {
            g
        };
        if !row.repo.as_str().is_empty() {
            repos.push(
                RepoJson {
                    repo: row.repo.clone(),
                    lifecycle: row.lifecycle.clone(),
                    backup: if row.backup.as_str().is_empty() {
                        None
                    } else {
                        Some(row.backup.clone())
                    },
                    others: None,
                    branches: Vec::new(),
                },
            );
        }
        assert(repos@.len() == g2.len());
        assert forall|k: int| 0 <= k && k < repos@.len() implies is_group_json(
            #[trigger] repos@[k],
            g2[k],
            rv,
            rows@,
        ) by {
            if k < g.len() {
                assert(g2[k] == g[k]);
            }
        }
        if repos.len() > 0 {
            let ghost before = repos@;
            let mut cur = repos.pop().unwrap();
            let ghost last = g2.last();
            let ghost old_cur = cur;
            assert(is_group_json(cur, last, rv, rows@));
            if row.others.is_some() {
                cur.others = row.others;
            }
            let ghost old_branches = cur.branches@;
            let home = str_eq(row.branch.as_str(), "(home)");
            if !home {
                let b = branch_json(remotes, row);
                cur.branches.push(b);
            }
            let ghost br = if row.branch@ != "(home)"@ {
                last.2.push(i as int)
            } else {
                last.2
            };
            let ghost ng = (last.0, if row.others is Some {
                row.others
            } else {
                last.1
            }, br);
            proof {
                if !home {
                    lemma_branches_push(old_branches, last.2, rv, rows@, cur.branches@.last(), i as int);
                    assert(cur.branches@ == old_branches.push(cur.branches@.last()));
                } else {
                    assert(cur.branches@ == old_branches);
                }
                assert(is_group_json(cur, ng, rv, rows@));
            }
            repos.push(cur);
            proof {
                let g3 = g2.update(g2.len() - 1, ng);
                assert(fleet_groups(rows@, (i + 1) as nat) == g3);
                assert forall|k: int| 0 <= k && k < repos@.len() implies is_group_json(
                    #[trigger] repos@[k],
                    g3[k],
                    rv,
                    rows@,
                ) by {
                    if k < repos@.len() - 1 {
                        assert(repos@[k] == before[k]);
                        assert(g3[k] == g2[k]);
                    }
                }
            }
        } else {
            assert(fleet_groups(rows@, (i + 1) as nat) == g2);
        }
    }
    Fleet { remotes, repos }
}

/// Detail (one repo): that repo's branches with their `sync` actions.
pub fn detail(repo: &str, lifecycle: &str, remotes: &[String], rows: &[Row]) -> (j: RepoJson)
    ensures
        j.repo@ == repo@,
        j.lifecycle@ == lifecycle@,
        j.backup is None,
        j.others is None,
        j.branches@.len() == rows@.len(),
        forall|b: int|
            0 <= b && b < rows@.len() ==> is_branch_json(#[trigger] j.branches@[b], views(remotes@), rows@[b]),
{
    let mut branches: Vec<BranchJson> = Vec::new();
    let n = rows.len();
    for i in 0..n
        invariant
            n == rows@.len(),
            branches@.len() == i,
            forall|b: int|
                0 <= b && b < i ==> is_branch_json(#[trigger] branches@[b], views(remotes@), rows@[b]),
    {
        branches.push(branch_json(remotes, &rows[i]));
    }
    RepoJson {
        repo: repo.to_owned(),
        lifecycle: lifecycle.to_owned(),
        backup: None,
        others: None,
        branches,
    }
}

} // verus!
