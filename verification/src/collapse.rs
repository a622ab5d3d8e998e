//! Collapse same-server transport aliases into one logical status column.
//!
//! A transport failover group (e.g. `["data-lan", "data"]`) is not two
//! destinations but two wires to the same server. Given the shown remotes and
//! the group, this module plans the collapsed column layout and folds a row's
//! per-alias cells into one truthful cell.
use vstd::prelude::*;
use crate::classify::BranchSync;
use crate::text::{views, contains_string};

verus! {

/// Rank where higher means more of our work is safely on the server, as a
/// lexicographic pair: up-to-date (5) > behind (4, fewer behind first) >
/// ahead (3, fewer missing first) > absent (2) > diverged without conflict
/// (1, fewer ahead first) > diverged with conflict (0).
pub open spec fn safety_rank(s: BranchSync) -> (int, int) {
    match s {
        BranchSync::UpToDate => (5, 0),
        BranchSync::Behind(n) => (4, -n),
        BranchSync::Ahead(n) => (3, -n),
        BranchSync::NoRemoteBranch => (2, 0),
        BranchSync::Diverged { conflict, ahead, .. } => if conflict {
            (0, 0)
        } else {
            (1, -ahead)
        },
    }
}

/// `a` holds at least as much of our work on the server as `b`.
pub open spec fn safety_ge(a: BranchSync, b: BranchSync) -> bool {
    let (a0, a1) = safety_rank(a);
    let (b0, b1) = safety_rank(b);
    a0 > b0 || (a0 == b0 && a1 >= b1)
}

/// The more backed-up of two cells; the first on a tie.
pub open spec fn spec_most_backed_up(a: BranchSync, b: BranchSync) -> BranchSync {
    if safety_ge(a, b) {
        a
    } else {
        b
    }
}

/// The rank pair of a cell, in machine integers.
fn backup_safety(s: &BranchSync) -> (r: (u8, i64))
    ensures
        r.0 as int == safety_rank(*s).0,
        r.1 as int == safety_rank(*s).1,
{
    match s {
        BranchSync::UpToDate => (5, 0),
        BranchSync::Behind(n) => (4, -(*n as i64)),
        BranchSync::Ahead(n) => (3, -(*n as i64)),
        BranchSync::NoRemoteBranch => (2, 0),
        BranchSync::Diverged { conflict, ahead, .. } => {
            if *conflict {
                (0, 0)
            } else {
                (1, -(*ahead as i64))
            }
        },
    }
}

/// Of two cells for the *same* server (different transports), the one showing
/// the server holding the most of our work. On a tie, `a` wins (the earlier
/// alias).
pub fn most_backed_up(a: BranchSync, b: BranchSync) -> (r: BranchSync)
    ensures
        r == spec_most_backed_up(a, b),
{
    let ra = backup_safety(&a);
    let rb = backup_safety(&b);
    if ra.0 > rb.0 || (ra.0 == rb.0 && ra.1 >= rb.1) {
        a
    } else {
        b
    }
}

/// The present cells among `idxs` (an index past the end counts as absent),
/// in index order.
pub open spec fn present_cells(idxs: Seq<usize>, cells: Seq<Option<BranchSync>>) -> Seq<BranchSync>
    decreases idxs.len(),
{
    if idxs.len() == 0 {
        Seq::empty()
    } else {
        let rest = present_cells(idxs.drop_last(), cells);
        let i = idxs.last();
        if i < cells.len() && cells[i as int] is Some {
            rest.push(cells[i as int]->Some_0)
        } else {
            rest
        }
    }
}

/// Left-to-right reduction of a sequence of cells by `most_backed_up`;
/// `None` for an empty sequence.
pub open spec fn reduce_backed_up(s: Seq<BranchSync>) -> Option<BranchSync>
    decreases s.len(),
{
    if s.len() == 0 {
        None
    } else if s.len() == 1 {
        Some(s[0])
    } else {
        Some(spec_most_backed_up(reduce_backed_up(s.drop_last())->Some_0, s.last()))
    }
}

/// One collapsed column's cell: the most backed-up of its sources' present cells.
pub open spec fn spec_fold_column(idxs: Seq<usize>, cells: Seq<Option<BranchSync>>) -> Option<BranchSync> {
    reduce_backed_up(present_cells(idxs, cells))
}

/// A plan for rendering `shown` remotes as collapsed columns: the display labels
/// and, per output column, which indices of the original `shown` feed it.
#[derive(Debug, Clone)]
pub struct ColumnCollapse {
    /// Display column labels, aligned with the output of [`ColumnCollapse::fold`].
    pub remotes: Vec<String>,
    /// For each output column, the indices into the original `shown` it folds.
    sources: Vec<Vec<usize>>,
}

impl ColumnCollapse {
    /// The display labels of the output columns.
    pub closed spec fn spec_remotes(&self) -> Seq<Seq<char>> {
        views(self.remotes@)
    }

    /// For each output column, the indices of the shown remotes it folds.
    pub closed spec fn spec_sources(&self) -> Seq<Seq<usize>> {
        self.sources@.map_values(|v: Vec<usize>| v@)
    }

    /// Fold one row's per-`shown` cells into the collapsed columns. Each output
    /// cell is the [`most_backed_up`] of its sources' *present* cells, and `None`
    /// only when every source alias is absent.
    pub fn fold(&self, cells: &[Option<BranchSync>]) -> (out: Vec<Option<BranchSync>>)
        ensures
            out@.len() == self.spec_sources().len(),
            forall|c: int|
                0 <= c < out@.len() ==> #[trigger] out@[c] == spec_fold_column(
                    self.spec_sources()[c],
                    cells@,
                ),
    {
        let mut out: Vec<Option<BranchSync>> = Vec::new();
        let n = self.sources.len();
        for c in 0..n
            invariant
                n == self.sources@.len(),
                out@.len() == c,
                forall|k: int|
                    0 <= k < c ==> #[trigger] out@[k] == spec_fold_column(
                        self.spec_sources()[k],
                        cells@,
                    ),
        {
            let idxs = &self.sources[c];
            let mut acc: Option<BranchSync> = None;
            let m = idxs.len();
            for j in 0..m
                invariant
                    0 <= c < self.spec_sources().len(),
                    m == idxs@.len(),
                    idxs@ == self.spec_sources()[c as int],
                    acc == reduce_backed_up(present_cells(idxs@.take(j as int), cells@)),
            {
                proof {
                    assert(idxs@.take(j + 1).drop_last() == idxs@.take(j as int));
                }
                let i = idxs[j];
                if i < cells.len() {
                    match cells[i] {
                        Some(s) => {
                            proof {
                                let p = present_cells(idxs@.take(j as int), cells@);
                                assert(p.push(s).drop_last() == p);
                            }
                            acc = match acc {
                                None => Some(s),
                                Some(a) => Some(most_backed_up(a, s)),
                            };
                        },
                        None => {},
                    }
                }
            }
            proof {
                assert(idxs@.take(m as int) == idxs@);
            }
            out.push(acc);
        }
        out
    }
}

/// The canonical label of a transport group within `shown`: the group member
/// appearing last in `group` order that is actually shown.
pub open spec fn group_label(shown: Seq<Seq<char>>, group: Seq<Seq<char>>) -> Option<Seq<char>>
    decreases group.len(),
{
    if group.len() == 0 {
        None
    } else if shown.contains(group.last()) {
        Some(group.last())
    } else {
        group_label(shown, group.drop_last())
    }
}

/// The collapsed layout of the first `n` shown remotes: display labels,
/// per-column source indices, and the column of the group (once it appeared).
/// Each group member joins the single group column, created (and labelled by
/// `label`, else by the member itself) where the group first appears; every
/// other remote gets its own column in place.
pub open spec fn collapse_prefix(
    shown: Seq<Seq<char>>,
    group: Seq<Seq<char>>,
    label: Option<Seq<char>>,
    n: nat,
) -> (Seq<Seq<char>>, Seq<Seq<usize>>, Option<int>)
    decreases n,
{
    if n == 0 {
        (Seq::empty(), Seq::empty(), None)
    } else {
        let (remotes, sources, group_col) = collapse_prefix(shown, group, label, (n - 1) as nat);
        let i = (n - 1) as int;
        let r = shown[i];
        if group.contains(r) {
            match group_col {
                Some(col) => (remotes, sources.update(col, sources[col].push(i as usize)), group_col),
                None => (
                    remotes.push(
                        match label {
                            Some(l) => l,
                            None => r,
                        },
                    ),
                    sources.push(seq![i as usize]),
                    Some(remotes.len() as int),
                ),
            }
        } else {
            (remotes.push(r), sources.push(seq![i as usize]), group_col)
        }
    }
}

/// The collapsed layout of all shown remotes.
pub open spec fn spec_collapse(shown: Seq<Seq<char>>, group: Seq<Seq<char>>) -> (
    Seq<Seq<char>>,
    Seq<Seq<usize>>,
) {
    let (remotes, sources, _) = collapse_prefix(
        shown,
        group,
        group_label(shown, group),
        shown.len(),
    );
    (remotes, sources)
}

/// Index into `group` of its canonical label within `shown`.
fn group_label_index(shown: &[String], group: &[String]) -> (r: Option<usize>)
    ensures
        match r {
            Some(k) => k < group@.len() && group_label(views(shown@), views(group@)) == Some(
                group@[k as int]@,
            ),
            None => group_label(views(shown@), views(group@)) is None,
        },
{
    let mut k = group.len();
    assert(views(group@).take(k as int) == views(group@));
    while k > 0
        invariant
            k <= group@.len(),
            group_label(views(shown@), views(group@)) == group_label(
                views(shown@),
                views(group@).take(k as int),
            ),
        decreases k,
    {
        let g = &group[k - 1];
        proof {
            let t = views(group@).take(k as int);
            assert(t.last() == g@);
            assert(t.drop_last() == views(group@).take(k - 1));
        }
        if contains_string(shown, g) {
            return Some(k - 1);
        }
        k = k - 1;
    }
    None
}

/// Collapse the transport-alias `group` (interchangeable wires to one server,
/// e.g. `["data-lan", "data"]`) within `shown` into a single logical column,
/// while every non-group remote keeps its own column in place. The collapsed
/// column sits where the group *first* appears and is labeled by the group's
/// canonical member — the last one in `group` order that is actually shown.
pub fn collapse_columns(shown: &[String], group: &[String]) -> (plan: ColumnCollapse)
    ensures
        plan.spec_remotes() == spec_collapse(views(shown@), views(group@)).0,
        plan.spec_sources() == spec_collapse(views(shown@), views(group@)).1,
{
    let label = group_label_index(shown, group);
    let ghost lab = group_label(views(shown@), views(group@));
    let mut remotes: Vec<String> = Vec::new();
    let mut sources: Vec<Vec<usize>> = Vec::new();
    let mut group_col: Option<usize> = None;
    let n = shown.len();
    for i in 0..n
        invariant
            n == shown@.len(),
            match label {
                Some(k) => k < group@.len() && lab == Some(group@[k as int]@),
                None => lab is None,
            },
            ({
                let (r, s, gc) = collapse_prefix(views(shown@), views(group@), lab, i as nat);
                &&& views(remotes@) == r
                &&& sources@.map_values(|v: Vec<usize>| v@) == s
                &&& match group_col {
                    Some(c) => gc == Some(c as int),
                    None => gc is None,
                }
                &&& remotes@.len() == sources@.len()
                &&& (gc matches Some(c) ==> 0 <= c < s.len())
            }),
    {
        let r = &shown[i];
        proof {
            assert(views(shown@)[i as int] == r@);
        }
        if contains_string(group, r) {
            match group_col {
                Some(col) => {
                    let ghost old_sources = sources@;
                    let mut v = sources[col].clone();
                    v.push(i);
                    sources.set(col, v);
                    proof {
                        assert(sources@.map_values(|v: Vec<usize>| v@) == old_sources.map_values(
                            |v: Vec<usize>| v@,
                        ).update(col as int, old_sources[col as int]@.push(i)));
                    }
                },
                None => {
                    let name = match label {
                        Some(k) => group[k].clone(),
                        None => r.clone(),
                    };
                    let ghost old_sources = sources@;
                    let ghost old_remotes = remotes@;
                    remotes.push(name);
                    let mut v: Vec<usize> = Vec::new();
                    v.push(i);
                    sources.push(v);
                    group_col = Some(remotes.len() - 1);
                    proof {
                        assert(views(remotes@) == views(old_remotes).push(name@));
                        assert(sources@.map_values(|v: Vec<usize>| v@) == old_sources.map_values(
                            |v: Vec<usize>| v@,
                        ).push(seq![i]));
                    }
                },
            }
        } else {
            let ghost old_sources = sources@;
            let ghost old_remotes = remotes@;
            remotes.push(r.clone());
            let mut v: Vec<usize> = Vec::new();
            v.push(i);
            sources.push(v);
            proof {
                assert(views(remotes@) == views(old_remotes).push(r@));
                assert(sources@.map_values(|v: Vec<usize>| v@) == old_sources.map_values(
                    |v: Vec<usize>| v@,
                ).push(seq![i]));
            }
        }
    }
    ColumnCollapse { remotes, sources }
}

/// `most_backed_up` returns one of its arguments, at least as backed up as
/// both; a fully up-to-date cell always wins, in either order.
pub proof fn lemma_most_backed_up_is_max(a: BranchSync, b: BranchSync)
    ensures
        spec_most_backed_up(a, b) == a || spec_most_backed_up(a, b) == b,
        safety_ge(spec_most_backed_up(a, b), a),
        safety_ge(spec_most_backed_up(a, b), b),
        (a == BranchSync::UpToDate || b == BranchSync::UpToDate) ==> spec_most_backed_up(a, b)
            == BranchSync::UpToDate,
{
}

/// The indices below `n` of shown remotes that belong to the group, in order.
pub open spec fn group_indices(shown: Seq<Seq<char>>, group: Seq<Seq<char>>, n: nat) -> Seq<usize>
    decreases n,
{
    if n == 0 {
        Seq::empty()
    } else if group.contains(shown[n - 1]) {
        group_indices(shown, group, (n - 1) as nat).push((n - 1) as usize)
    } else {
        group_indices(shown, group, (n - 1) as nat)
    }
}

/// Reducing a non-empty sequence of cells picks one of them, at least as
/// backed up as every one; reducing an empty one gives `None`.
proof fn lemma_reduce_is_max(s: Seq<BranchSync>)
    ensures
        reduce_backed_up(s) is None <==> s.len() == 0,
        reduce_backed_up(s) matches Some(r) ==> s.contains(r),
        reduce_backed_up(s) matches Some(r) ==> forall|i: int|
            0 <= i < s.len() ==> safety_ge(r, #[trigger] s[i]),
    decreases s.len(),
{
    if s.len() > 1 {
        let p = s.drop_last();
        lemma_reduce_is_max(p);
        let a = reduce_backed_up(p)->Some_0;
        lemma_most_backed_up_is_max(a, s.last());
        let r = reduce_backed_up(s)->Some_0;
        assert forall|i: int| 0 <= i < s.len() implies safety_ge(r, #[trigger] s[i]) by {
            if i < s.len() - 1 {
                assert(p[i] == s[i]);
            }
        }
        let k = choose|k: int| 0 <= k < p.len() && p[k] == a;
        if r == a {
            assert(s[k] == r);
        } else {
            assert(s[s.len() - 1] == r);
        }
    } else if s.len() == 1 {
        assert(s[0] == reduce_backed_up(s)->Some_0);
    }
}

/// Every present cell of a column's sources comes from a listed index.
proof fn lemma_present_cells_source(idxs: Seq<usize>, cells: Seq<Option<BranchSync>>, x: BranchSync)
    ensures
        present_cells(idxs, cells).contains(x) ==> exists|j: int|
            0 <= j < idxs.len() && idxs[j] < cells.len() && #[trigger] cells[idxs[j] as int] == Some(
                x,
            ),
        (exists|j: int|
            0 <= j < idxs.len() && idxs[j] < cells.len() && #[trigger] cells[idxs[j] as int] == Some(
                x,
            )) ==> present_cells(idxs, cells).contains(x),
    decreases idxs.len(),
{
    if idxs.len() > 0 {
        let p = idxs.drop_last();
        lemma_present_cells_source(p, cells, x);
        let rest = present_cells(p, cells);
        let i = idxs.last();
        if present_cells(idxs, cells).contains(x) {
            if i < cells.len() && cells[i as int] is Some && cells[i as int]->Some_0 == x {
                assert(idxs[idxs.len() - 1] == i);
            } else {
                if i < cells.len() && cells[i as int] is Some {
                    let k = choose|k: int|
                        0 <= k < rest.push(cells[i as int]->Some_0).len() && rest.push(
                            cells[i as int]->Some_0,
                        )[k] == x;
                    assert(rest[k] == x);
                }
                let j = choose|j: int|
                    0 <= j < p.len() && p[j] < cells.len() && #[trigger] cells[p[j] as int] == Some(
                        x,
                    );
                assert(idxs[j] == p[j]);
            }
        }
        if exists|j: int|
            0 <= j < idxs.len() && idxs[j] < cells.len() && #[trigger] cells[idxs[j] as int] == Some(
                x,
            ) {
            let j = choose|j: int|
                0 <= j < idxs.len() && idxs[j] < cells.len() && #[trigger] cells[idxs[j] as int]
                    == Some(x);
            if j == idxs.len() - 1 {
                assert(present_cells(idxs, cells) == rest.push(x));
                assert(rest.push(x)[rest.len() as int] == x);
            } else {
                assert(p[j] == idxs[j]);
                assert(rest.contains(x));
                let k = choose|k: int| 0 <= k < rest.len() && rest[k] == x;
                if i < cells.len() && cells[i as int] is Some {
                    assert(rest.push(cells[i as int]->Some_0)[k] == x);
                }
            }
        }
    }
}

/// A folded column cell is absent exactly when none of its source aliases has
/// a cell; otherwise it is the cell of one of its sources, and that cell is at
/// least as backed up as the cell of every source (so a stale `↑n` on one
/// transport never hides an `ok` on the other, in either order).
pub proof fn lemma_fold_column_is_most_backed_up(idxs: Seq<usize>, cells: Seq<Option<BranchSync>>)
    ensures
        spec_fold_column(idxs, cells) is None <==> forall|j: int|
            0 <= j < idxs.len() ==> !(idxs[j] < cells.len() && #[trigger] cells[idxs[j] as int] is Some),
        spec_fold_column(idxs, cells) matches Some(r) ==> exists|j: int|
            0 <= j < idxs.len() && idxs[j] < cells.len() && #[trigger] cells[idxs[j] as int] == Some(
                r,
            ),
        spec_fold_column(idxs, cells) matches Some(r) ==> forall|j: int|
            0 <= j < idxs.len() && idxs[j] < cells.len() && #[trigger] cells[idxs[j] as int] is Some
                ==> safety_ge(r, cells[idxs[j] as int]->Some_0),
        (exists|j: int|
            0 <= j < idxs.len() && idxs[j] < cells.len() && #[trigger] cells[idxs[j] as int] == Some(
                BranchSync::UpToDate,
            )) ==> spec_fold_column(idxs, cells) == Some(BranchSync::UpToDate),
{
    let p = present_cells(idxs, cells);
    lemma_reduce_is_max(p);
    if spec_fold_column(idxs, cells) is None {
        assert forall|j: int|
            0 <= j < idxs.len() implies !(idxs[j] < cells.len()
            && #[trigger] cells[idxs[j] as int] is Some) by {
            if idxs[j] < cells.len() && cells[idxs[j] as int] is Some {
                lemma_present_cells_source(idxs, cells, cells[idxs[j] as int]->Some_0);
            }
        }
    } else {
        let r = spec_fold_column(idxs, cells)->Some_0;
        lemma_present_cells_source(idxs, cells, r);
        let k = choose|k: int| 0 <= k < p.len() && p[k] == r;
        assert(p.contains(r));
        assert forall|j: int|
            0 <= j < idxs.len() && idxs[j] < cells.len() && #[trigger] cells[idxs[j] as int] is Some
                implies safety_ge(r, cells[idxs[j] as int]->Some_0) by {
            let x = cells[idxs[j] as int]->Some_0;
            lemma_present_cells_source(idxs, cells, x);
            let m = choose|m: int| 0 <= m < p.len() && p[m] == x;
            assert(safety_ge(r, p[m]));
        }
        if exists|j: int|
            0 <= j < idxs.len() && idxs[j] < cells.len() && #[trigger] cells[idxs[j] as int] == Some(
                BranchSync::UpToDate,
            ) {
            let j = choose|j: int|
                0 <= j < idxs.len() && idxs[j] < cells.len() && #[trigger] cells[idxs[j] as int]
                    == Some(BranchSync::UpToDate);
            assert(cells[idxs[j] as int] is Some);
            assert(safety_ge(r, BranchSync::UpToDate));
        }
    }
}

/// The layout invariant of a collapsed prefix (see `lemma_collapse_layout`).
pub open spec fn collapse_layout_ok(
    shown: Seq<Seq<char>>,
    group: Seq<Seq<char>>,
    label: Option<Seq<char>>,
    n: nat,
    remotes: Seq<Seq<char>>,
    sources: Seq<Seq<usize>>,
    group_col: Option<int>,
) -> bool {
    let gi = group_indices(shown, group, n);
    &&& remotes.len() == sources.len()
    &&& (group_col is Some <==> gi.len() > 0)
    &&& (group_col matches Some(c) ==> {
        &&& 0 <= c < sources.len()
        &&& sources[c] == gi
        &&& remotes[c] == match label {
            Some(l) => l,
            None => shown[gi[0] as int],
        }
    })
    &&& forall|c: int|
        0 <= c < sources.len() && group_col != Some(c) ==> {
            &&& (#[trigger] sources[c]).len() == 1
            &&& sources[c][0] < n
            &&& !group.contains(shown[sources[c][0] as int])
            &&& remotes[c] == shown[sources[c][0] as int]
        }
    &&& forall|i: int|
        0 <= i < n && !group.contains(#[trigger] shown[i]) ==> exists|c: int|
            0 <= c < sources.len() && group_col != Some(c) && sources[c] == seq![i as usize]
    &&& forall|c: int| 0 <= c < sources.len() ==> (#[trigger] sources[c]).len() > 0
    &&& forall|c: int, j: int|
        0 <= c < sources.len() && 0 <= j < sources[c].len() ==> #[trigger] sources[c][j] < n
    &&& forall|c1: int, c2: int|
        0 <= c1 < c2 < sources.len() ==> #[trigger] sources[c1][0] < #[trigger] sources[c2][0]
}

/// Group indices are exactly the group members below `n`, increasing.
proof fn lemma_group_indices(shown: Seq<Seq<char>>, group: Seq<Seq<char>>, n: nat)
    requires
        n <= shown.len(),
        shown.len() <= usize::MAX,
    ensures
        forall|j: int|
            0 <= j < group_indices(shown, group, n).len() ==> {
                &&& #[trigger] group_indices(shown, group, n)[j] < n
                &&& group.contains(shown[group_indices(shown, group, n)[j] as int])
            },
        forall|i: int|
            0 <= i < n && group.contains(#[trigger] shown[i]) ==> group_indices(
                shown,
                group,
                n,
            ).contains(i as usize),
        forall|j1: int, j2: int|
            0 <= j1 < j2 < group_indices(shown, group, n).len() ==> #[trigger] group_indices(
                shown,
                group,
                n,
            )[j1] < #[trigger] group_indices(shown, group, n)[j2],
    decreases n,
{
    if n > 0 {
        lemma_group_indices(shown, group, (n - 1) as nat);
        let p = group_indices(shown, group, (n - 1) as nat);
        if group.contains(shown[n - 1]) {
            let g = p.push((n - 1) as usize);
            assert forall|j: int| 0 <= j < g.len() implies {
                &&& #[trigger] g[j] < n
                &&& group.contains(shown[g[j] as int])
            } by {
                if j < p.len() {
                    assert(g[j] == p[j]);
                }
            }
            assert forall|j1: int, j2: int| 0 <= j1 < j2 < g.len() implies #[trigger] g[j1] < #[trigger] g[j2] by {
                assert(g[j1] == p[j1]);
                if j2 < p.len() {
                    assert(g[j2] == p[j2]);
                }
            }
            assert forall|i: int|
                0 <= i < n && group.contains(#[trigger] shown[i]) implies g.contains(i as usize) by {
                if i < n - 1 {
                    let k = choose|k: int| 0 <= k < p.len() && p[k] == i as usize;
                    assert(g[k] == i as usize);
                } else {
                    assert(g[p.len() as int] == i as usize);
                }
            }
        }
    }
}

/// One step of the collapse keeps the layout invariant.
proof fn lemma_collapse_step(
    shown: Seq<Seq<char>>,
    group: Seq<Seq<char>>,
    label: Option<Seq<char>>,
    n: nat,
)
    requires
        n < shown.len(),
        shown.len() <= usize::MAX,
        ({
            let (r, s, gc) = collapse_prefix(shown, group, label, n);
            collapse_layout_ok(shown, group, label, n, r, s, gc)
        }),
    ensures
        ({
            let (r, s, gc) = collapse_prefix(shown, group, label, n + 1);
            collapse_layout_ok(shown, group, label, n + 1, r, s, gc)
        }),
{
    let (r0, s0, gc0) = collapse_prefix(shown, group, label, n);
    let (r, s, gc) = collapse_prefix(shown, group, label, n + 1);
    let i = n as int;
    let x = shown[i];
    let gi0 = group_indices(shown, group, n);
    let gi = group_indices(shown, group, n + 1);
    assert(collapse_prefix(shown, group, label, n + 1) == {
        let (remotes, sources, group_col) = collapse_prefix(shown, group, label, n);
        let r = shown[i];
        if group.contains(r) {
            match group_col {
                Some(col) => (remotes, sources.update(col, sources[col].push(i as usize)), group_col),
                None => (
                    remotes.push(
                        match label {
                            Some(l) => l,
                            None => r,
                        },
                    ),
                    sources.push(seq![i as usize]),
                    Some(remotes.len() as int),
                ),
            }
        } else {
            (remotes.push(r), sources.push(seq![i as usize]), group_col)
        }
    });
    if group.contains(x) {
        assert(gi == gi0.push(i as usize));
        match gc0 {
            Some(col) => {
                assert(s0[col].push(i as usize)[0] == s0[col][0]);
                assert forall|c: int, j: int|
                    0 <= c < s.len() && 0 <= j < s[c].len() implies #[trigger] s[c][j] < n + 1 by {
                    if c == col && j == s0[col].len() {
                    } else {
                        assert(s[c][j] == s0[c][j]);
                    }
                }
                assert forall|c1: int, c2: int|
                    0 <= c1 < c2 < s.len() implies #[trigger] s[c1][0] < #[trigger] s[c2][0] by {
                    if c1 == col {
                        assert(s[c1] == s0[col].push(i as usize));
                    } else {
                        assert(s[c1] == s0[c1]);
                    }
                    if c2 == col {
                        assert(s[c2] == s0[col].push(i as usize));
                    } else {
                        assert(s[c2] == s0[c2]);
                    }
                    assert(s0[c1][0] < s0[c2][0]);
                }
                assert forall|k: int|
                    0 <= k < n + 1 && !group.contains(#[trigger] shown[k]) implies exists|c: int|
                        0 <= c < s.len() && gc != Some(c) && s[c] == seq![k as usize] by {
                    let c = choose|c: int|
                        0 <= c < s0.len() && gc0 != Some(c) && s0[c] == seq![k as usize];
                    assert(s[c] == s0[c]);
                }
                assert forall|c: int| 0 <= c < s.len() implies (#[trigger] s[c]).len() > 0 by {
                    if c != col {
                        assert(s[c] == s0[c]);
                    }
                }
                assert forall|c: int|
                    0 <= c < s.len() && gc != Some(c) implies {
                    &&& (#[trigger] s[c]).len() == 1
                    &&& s[c][0] < n + 1
                    &&& !group.contains(shown[s[c][0] as int])
                    &&& r[c] == shown[s[c][0] as int]
                } by {
                    assert(s[c] == s0[c]);
                }
                assert(gi[0] == gi0[0]);
            },
            None => {
                assert(gi0.len() == 0);
                assert(gi == seq![i as usize]);
                let col = r0.len() as int;
                assert forall|c: int, j: int|
                    0 <= c < s.len() && 0 <= j < s[c].len() implies #[trigger] s[c][j] < n + 1 by {
                    if c < col {
                        assert(s[c] == s0[c]);
                    }
                }
                assert forall|c1: int, c2: int|
                    0 <= c1 < c2 < s.len() implies #[trigger] s[c1][0] < #[trigger] s[c2][0] by {
                    assert(s[c1] == s0[c1]);
                    if c2 < col {
                        assert(s[c2] == s0[c2]);
                    } else {
                        assert(s0[c1][0] < n);
                    }
                }
                assert forall|k: int|
                    0 <= k < n + 1 && !group.contains(#[trigger] shown[k]) implies exists|c: int|
                        0 <= c < s.len() && gc != Some(c) && s[c] == seq![k as usize] by {
                    let c = choose|c: int|
                        0 <= c < s0.len() && gc0 != Some(c) && s0[c] == seq![k as usize];
                    assert(s[c] == s0[c]);
                }
                assert forall|c: int| 0 <= c < s.len() implies (#[trigger] s[c]).len() > 0 by {
                    if c < col {
                        assert(s[c] == s0[c]);
                    }
                }
                assert forall|c: int|
                    0 <= c < s.len() && gc != Some(c) implies {
                    &&& (#[trigger] s[c]).len() == 1
                    &&& s[c][0] < n + 1
                    &&& !group.contains(shown[s[c][0] as int])
                    &&& r[c] == shown[s[c][0] as int]
                } by {
                    assert(s[c] == s0[c]);
                    assert(r[c] == r0[c]);
                }
            },
        }
    } else {
        assert(gi == gi0);
        let col = r0.len() as int;
        assert forall|c: int, j: int|
            0 <= c < s.len() && 0 <= j < s[c].len() implies #[trigger] s[c][j] < n + 1 by {
            if c < col {
                assert(s[c] == s0[c]);
            }
        }
        assert forall|c1: int, c2: int|
            0 <= c1 < c2 < s.len() implies #[trigger] s[c1][0] < #[trigger] s[c2][0] by {
            assert(s[c1] == s0[c1]);
            if c2 < col {
                assert(s[c2] == s0[c2]);
                assert(s0[c1][0] < s0[c2][0]);
            } else {
                assert(s[c2] == seq![i as usize]);
                assert(s0[c1][0] < n);
            }
        }
        assert forall|k: int|
            0 <= k < n + 1 && !group.contains(#[trigger] shown[k]) implies exists|c: int|
                0 <= c < s.len() && gc != Some(c) && s[c] == seq![k as usize] by {
            if k < n {
                let c = choose|c: int|
                    0 <= c < s0.len() && gc0 != Some(c) && s0[c] == seq![k as usize];
                assert(s[c] == s0[c]);
            } else {
                assert(s[col] == seq![k as usize]);
            }
        }
        assert forall|c: int| 0 <= c < s.len() implies (#[trigger] s[c]).len() > 0 by {
            if c < col {
                assert(s[c] == s0[c]);
            }
        }
        assert forall|c: int|
            0 <= c < s.len() && gc != Some(c) implies {
            &&& (#[trigger] s[c]).len() == 1
            &&& s[c][0] < n + 1
            &&& !group.contains(shown[s[c][0] as int])
            &&& r[c] == shown[s[c][0] as int]
        } by {
            if c < col {
                assert(s[c] == s0[c]);
                assert(r[c] == r0[c]);
            } else {
                assert(s[c] == seq![i as usize]);
                assert(r[c] == x);
            }
        }
        if let Some(c) = gc0 {
            assert(s[c] == s0[c]);
            assert(r[c] == r0[c]);
        }
    }
}

/// The invariant holds for every prefix.
proof fn lemma_collapse_prefix_layout(
    shown: Seq<Seq<char>>,
    group: Seq<Seq<char>>,
    label: Option<Seq<char>>,
    n: nat,
)
    requires
        n <= shown.len(),
        shown.len() <= usize::MAX,
    ensures
        ({
            let (r, s, gc) = collapse_prefix(shown, group, label, n);
            collapse_layout_ok(shown, group, label, n, r, s, gc)
        }),
    decreases n,
{
    if n > 0 {
        lemma_collapse_prefix_layout(shown, group, label, (n - 1) as nat);
        lemma_collapse_step(shown, group, label, (n - 1) as nat);
    }
}

/// The column layout of a collapse: a transport group collapses into exactly
/// one column, which holds every shown group member (in order), sits where the
/// group first appears and carries the group's canonical label; every other
/// shown remote keeps a column of its own, with its own name; and the columns
/// keep the order in which their remotes are shown.
pub proof fn lemma_collapse_layout(shown: Seq<Seq<char>>, group: Seq<Seq<char>>)
    requires
        shown.len() <= usize::MAX,
    ensures
        ({
            let (r, s, gc) = collapse_prefix(
                shown,
                group,
                group_label(shown, group),
                shown.len(),
            );
            &&& r == spec_collapse(shown, group).0
            &&& s == spec_collapse(shown, group).1
            &&& collapse_layout_ok(shown, group, group_label(shown, group), shown.len(), r, s, gc)
        }),
        forall|j: int|
            0 <= j < group_indices(shown, group, shown.len()).len() ==> group.contains(
                shown[#[trigger] group_indices(shown, group, shown.len())[j] as int],
            ),
        forall|i: int|
            0 <= i < shown.len() && group.contains(#[trigger] shown[i]) ==> group_indices(
                shown,
                group,
                shown.len(),
            ).contains(i as usize),
{
    lemma_collapse_prefix_layout(shown, group, group_label(shown, group), shown.len());
    lemma_group_indices(shown, group, shown.len());
}

/// The canonical label, when there is one, is a group member that is shown,
/// and there is one exactly when some group member is shown.
pub proof fn lemma_group_label(shown: Seq<Seq<char>>, group: Seq<Seq<char>>)
    ensures
        group_label(shown, group) matches Some(l) ==> group.contains(l) && shown.contains(l),
        group_label(shown, group) is None <==> forall|k: int|
            0 <= k < group.len() ==> !shown.contains(#[trigger] group[k]),
    decreases group.len(),
{
    if group.len() > 0 {
        let p = group.drop_last();
        lemma_group_label(shown, p);
        if shown.contains(group.last()) {
            assert(group[group.len() - 1] == group.last());
        } else {
            if let Some(l) = group_label(shown, group) {
                let k = choose|k: int| 0 <= k < p.len() && p[k] == l;
                assert(group[k] == l);
            }
            assert forall|k: int| 0 <= k < group.len() implies #[trigger] group[k] == group[k] by {}
            if group_label(shown, group) is None {
                assert forall|k: int| 0 <= k < group.len() implies !shown.contains(
                    #[trigger] group[k],
                ) by {
                    if k < group.len() - 1 {
                        assert(p[k] == group[k]);
                    }
                }
            } else {
                let l = group_label(shown, p)->Some_0;
                let k = choose|k: int| 0 <= k < p.len() && p[k] == l;
                assert(group[k] == p[k]);
            }
        }
    }
}


/// No present cell among the sources exactly when every source cell is
/// absent.
proof fn lemma_present_cells_empty(idxs: Seq<usize>, cells: Seq<Option<BranchSync>>)
    ensures
        present_cells(idxs, cells).len() == 0 <==> forall|j: int|
            0 <= j < idxs.len() && idxs[j] < cells.len() ==> #[trigger] cells[idxs[j] as int] is None,
    decreases idxs.len(),
{
    if idxs.len() > 0 {
        let p = idxs.drop_last();
        lemma_present_cells_empty(p, cells);
        let k = idxs.len() - 1;
        let i = idxs.last();
        assert(idxs[k] == i);
        let all_none = forall|j: int|
            0 <= j < idxs.len() && idxs[j] < cells.len() ==> #[trigger] cells[idxs[j] as int] is None;
        if i < cells.len() && cells[i as int] is Some {
            assert(present_cells(idxs, cells).len() > 0);
            assert(!all_none) by {
                assert(idxs[k] < cells.len() && !(cells[idxs[k] as int] is None));
            }
        } else {
            assert(present_cells(idxs, cells) == present_cells(p, cells));
            assert(all_none <==> forall|j: int|
                0 <= j < p.len() && p[j] < cells.len() ==> #[trigger] cells[p[j] as int] is None) by {
                if all_none {
                    assert forall|j: int| 0 <= j < p.len() && p[j] < cells.len() implies #[trigger] cells[p[j] as int] is None by {
                        assert(p[j] == idxs[j]);
                    }
                }
                if forall|j: int| 0 <= j < p.len() && p[j] < cells.len() ==> #[trigger] cells[p[j] as int] is None {
                    assert forall|j: int| 0 <= j < idxs.len() && idxs[j] < cells.len() implies #[trigger] cells[idxs[j] as int] is None by {
                        if j < k {
                            assert(p[j] == idxs[j]);
                        }
                    }
                }
            }
        }
    }
}

/// A column folding one shown remote shows that remote's own cell.
proof fn lemma_fold_single(i: usize, cells: Seq<Option<BranchSync>>)
    requires
        i < cells.len(),
    ensures
        spec_fold_column(seq![i], cells) == cells[i as int],
{
    let one = seq![i];
    assert(one.drop_last() == Seq::<usize>::empty());
    assert(one.last() == i);
    assert(present_cells(one.drop_last(), cells) == Seq::<BranchSync>::empty());
    if cells[i as int] is Some {
        assert(Seq::<BranchSync>::empty().push(cells[i as int]->Some_0) == seq![cells[i as int]->Some_0]);
        assert(present_cells(one, cells) == seq![cells[i as int]->Some_0]);
    } else {
        assert(present_cells(one, cells) == Seq::<BranchSync>::empty());
    }
}

/// With no group member among the first `n` shown remotes, each of them is a
/// column of its own, labelled by its name, in order.
proof fn lemma_collapse_without_group(shown: Seq<Seq<char>>, group: Seq<Seq<char>>, label: Option<Seq<char>>, n: nat)
    requires
        n <= shown.len(),
        forall|i: int| 0 <= i < n ==> !group.contains(#[trigger] shown[i]),
    ensures
        collapse_prefix(shown, group, label, n).0 == shown.take(n as int),
        collapse_prefix(shown, group, label, n).1 == Seq::new(n, |i: int| seq![i as usize]),
    decreases n,
{
    if n > 0 {
        lemma_collapse_without_group(shown, group, label, (n - 1) as nat);
        assert(!group.contains(shown[n - 1]));
        assert(shown.take(n as int) == shown.take(n - 1).push(shown[n - 1]));
        assert(Seq::new(n, |i: int| seq![i as usize]) == Seq::new((n - 1) as nat, |i: int| seq![i as usize]).push(
            seq![(n - 1) as usize],
        ));
    } else {
        assert(shown.take(0) == Seq::<Seq<char>>::empty());
        assert(Seq::new(0, |i: int| seq![i as usize]) == Seq::<Seq<usize>>::empty());
    }
}

/// Folding a row of per-remote cells (one per shown remote) through the
/// collapse of `shown` by the transport `group` — what `fold` computes, one
/// `spec_fold_column` per column: there is a cell for each column; when a
/// group member is shown, the group's single column, folding exactly the
/// shown members in order, is the left-to-right most-backed-up reduction of
/// their present cells, absent exactly when all of them are; every other
/// shown remote keeps its own cell in a column of its own, labelled by its
/// name; and with no group member shown the row comes back unchanged.
pub proof fn lemma_fold_law(shown: Seq<Seq<char>>, group: Seq<Seq<char>>, cells: Seq<Option<BranchSync>>)
    requires
        shown.len() <= usize::MAX,
        cells.len() == shown.len(),
    ensures
        ({
            let (r, src) = spec_collapse(shown, group);
            let gi = group_indices(shown, group, shown.len());
            &&& r.len() == src.len()
            &&& gi.len() > 0 ==> exists|c: int|
                0 <= c < src.len() && #[trigger] src[c] == gi && spec_fold_column(src[c], cells)
                    == reduce_backed_up(present_cells(gi, cells)) && (spec_fold_column(src[c], cells) is None
                    <==> forall|j: int| 0 <= j < gi.len() ==> #[trigger] cells[gi[j] as int] is None)
            &&& forall|i: int|
                0 <= i < shown.len() && !group.contains(#[trigger] shown[i]) ==> exists|c: int|
                    0 <= c < src.len() && src[c] == seq![i as usize] && r[c] == shown[i] && #[trigger] spec_fold_column(
                        src[c],
                        cells,
                    ) == cells[i]
            &&& gi.len() == 0 ==> r == shown && src.len() == cells.len() && forall|c: int|
                0 <= c < src.len() ==> #[trigger] spec_fold_column(src[c], cells) == cells[c]
        }),
{
    lemma_collapse_layout(shown, group);
    let label = group_label(shown, group);
    let (r, src, gc) = collapse_prefix(shown, group, label, shown.len());
    let gi = group_indices(shown, group, shown.len());
    if gi.len() > 0 {
        let c = gc->Some_0;
        lemma_reduce_is_max(present_cells(gi, cells));
        lemma_present_cells_empty(gi, cells);
        lemma_group_indices(shown, group, shown.len());
        assert(src[c] == gi);
    }
    assert forall|i: int|
        0 <= i < shown.len() && !group.contains(#[trigger] shown[i]) implies exists|c: int|
            0 <= c < src.len() && src[c] == seq![i as usize] && r[c] == shown[i] && #[trigger] spec_fold_column(
                src[c],
                cells,
            ) == cells[i] by {
        let c = choose|c: int| 0 <= c < src.len() && gc != Some(c) && src[c] == seq![i as usize];
        assert(src[c][0] == i as usize);
        lemma_fold_single(i as usize, cells);
    }
    if gi.len() == 0 {
        assert forall|i: int| 0 <= i < shown.len() implies !group.contains(#[trigger] shown[i]) by {
            if group.contains(shown[i]) {
                assert(gi.contains(i as usize));
            }
        }
        lemma_collapse_without_group(shown, group, label, shown.len());
        assert(shown.take(shown.len() as int) == shown);
        assert forall|c: int| 0 <= c < src.len() implies #[trigger] spec_fold_column(src[c], cells) == cells[c] by {
            lemma_fold_single(c as usize, cells);
        }
    }
}


/// How much of our work each kind of cell shows the server holding, from
/// most to least: up to date; behind (it holds all of ours and more, fewer
/// behind first); ahead (it lacks `n` of our commits, fewer lacking first);
/// branch absent; diverged (fewer of ours missing first); diverged with a
/// conflict last. Of two cells for the same server the one earlier in this
/// order is shown, whichever alias it came from; of two equally placed
/// cells, the first alias's.
pub proof fn lemma_backed_up_order(n: u32, m: u32, a1: u32, b1: u32, a2: u32, b2: u32)
    ensures
        spec_most_backed_up(BranchSync::UpToDate, BranchSync::Behind(n)) == BranchSync::UpToDate,
        spec_most_backed_up(BranchSync::Behind(n), BranchSync::UpToDate) == BranchSync::UpToDate,
        spec_most_backed_up(BranchSync::UpToDate, BranchSync::Ahead(m)) == BranchSync::UpToDate,
        spec_most_backed_up(BranchSync::Ahead(m), BranchSync::UpToDate) == BranchSync::UpToDate,
        spec_most_backed_up(BranchSync::UpToDate, BranchSync::NoRemoteBranch) == BranchSync::UpToDate,
        spec_most_backed_up(BranchSync::NoRemoteBranch, BranchSync::UpToDate) == BranchSync::UpToDate,
        spec_most_backed_up(BranchSync::UpToDate, (BranchSync::Diverged { ahead: a1, behind: b1, conflict: false })) == BranchSync::UpToDate,
        spec_most_backed_up((BranchSync::Diverged { ahead: a1, behind: b1, conflict: false }), BranchSync::UpToDate) == BranchSync::UpToDate,
        spec_most_backed_up(BranchSync::UpToDate, (BranchSync::Diverged { ahead: a2, behind: b2, conflict: true })) == BranchSync::UpToDate,
        spec_most_backed_up((BranchSync::Diverged { ahead: a2, behind: b2, conflict: true }), BranchSync::UpToDate) == BranchSync::UpToDate,
        spec_most_backed_up(BranchSync::Behind(n), BranchSync::Ahead(m)) == BranchSync::Behind(n),
        spec_most_backed_up(BranchSync::Ahead(m), BranchSync::Behind(n)) == BranchSync::Behind(n),
        spec_most_backed_up(BranchSync::Behind(n), BranchSync::NoRemoteBranch) == BranchSync::Behind(n),
        spec_most_backed_up(BranchSync::NoRemoteBranch, BranchSync::Behind(n)) == BranchSync::Behind(n),
        spec_most_backed_up(BranchSync::Behind(n), (BranchSync::Diverged { ahead: a1, behind: b1, conflict: false })) == BranchSync::Behind(n),
        spec_most_backed_up((BranchSync::Diverged { ahead: a1, behind: b1, conflict: false }), BranchSync::Behind(n)) == BranchSync::Behind(n),
        spec_most_backed_up(BranchSync::Behind(n), (BranchSync::Diverged { ahead: a2, behind: b2, conflict: true })) == BranchSync::Behind(n),
        spec_most_backed_up((BranchSync::Diverged { ahead: a2, behind: b2, conflict: true }), BranchSync::Behind(n)) == BranchSync::Behind(n),
        spec_most_backed_up(BranchSync::Ahead(m), BranchSync::NoRemoteBranch) == BranchSync::Ahead(m),
        spec_most_backed_up(BranchSync::NoRemoteBranch, BranchSync::Ahead(m)) == BranchSync::Ahead(m),
        spec_most_backed_up(BranchSync::Ahead(m), (BranchSync::Diverged { ahead: a1, behind: b1, conflict: false })) == BranchSync::Ahead(m),
        spec_most_backed_up((BranchSync::Diverged { ahead: a1, behind: b1, conflict: false }), BranchSync::Ahead(m)) == BranchSync::Ahead(m),
        spec_most_backed_up(BranchSync::Ahead(m), (BranchSync::Diverged { ahead: a2, behind: b2, conflict: true })) == BranchSync::Ahead(m),
        spec_most_backed_up((BranchSync::Diverged { ahead: a2, behind: b2, conflict: true }), BranchSync::Ahead(m)) == BranchSync::Ahead(m),
        spec_most_backed_up(BranchSync::NoRemoteBranch, (BranchSync::Diverged { ahead: a1, behind: b1, conflict: false })) == BranchSync::NoRemoteBranch,
        spec_most_backed_up((BranchSync::Diverged { ahead: a1, behind: b1, conflict: false }), BranchSync::NoRemoteBranch) == BranchSync::NoRemoteBranch,
        spec_most_backed_up(BranchSync::NoRemoteBranch, (BranchSync::Diverged { ahead: a2, behind: b2, conflict: true })) == BranchSync::NoRemoteBranch,
        spec_most_backed_up((BranchSync::Diverged { ahead: a2, behind: b2, conflict: true }), BranchSync::NoRemoteBranch) == BranchSync::NoRemoteBranch,
        spec_most_backed_up((BranchSync::Diverged { ahead: a1, behind: b1, conflict: false }), (BranchSync::Diverged { ahead: a2, behind: b2, conflict: true })) == (BranchSync::Diverged { ahead: a1, behind: b1, conflict: false }),
        spec_most_backed_up((BranchSync::Diverged { ahead: a2, behind: b2, conflict: true }), (BranchSync::Diverged { ahead: a1, behind: b1, conflict: false })) == (BranchSync::Diverged { ahead: a1, behind: b1, conflict: false }),
        n < m ==> spec_most_backed_up(BranchSync::Ahead(n), BranchSync::Ahead(m)) == BranchSync::Ahead(n)
            && spec_most_backed_up(BranchSync::Ahead(m), BranchSync::Ahead(n)) == BranchSync::Ahead(n),
        n < m ==> spec_most_backed_up(BranchSync::Behind(n), BranchSync::Behind(m)) == BranchSync::Behind(n)
            && spec_most_backed_up(BranchSync::Behind(m), BranchSync::Behind(n)) == BranchSync::Behind(n),
        a1 < a2 ==> spec_most_backed_up(
            (BranchSync::Diverged { ahead: a1, behind: b1, conflict: false }),
            (BranchSync::Diverged { ahead: a2, behind: b2, conflict: false }),
        ) == (BranchSync::Diverged { ahead: a1, behind: b1, conflict: false }) && spec_most_backed_up(
            (BranchSync::Diverged { ahead: a2, behind: b2, conflict: false }),
            (BranchSync::Diverged { ahead: a1, behind: b1, conflict: false }),
        ) == (BranchSync::Diverged { ahead: a1, behind: b1, conflict: false }),
        spec_most_backed_up(
            (BranchSync::Diverged { ahead: a1, behind: b1, conflict: true }),
            (BranchSync::Diverged { ahead: a2, behind: b2, conflict: true }),
        ) == (BranchSync::Diverged { ahead: a1, behind: b1, conflict: true }),
        spec_most_backed_up(BranchSync::Ahead(n), BranchSync::Ahead(n)) == BranchSync::Ahead(n),
        spec_most_backed_up(BranchSync::Behind(n), BranchSync::Behind(n)) == BranchSync::Behind(n),
        spec_most_backed_up(BranchSync::UpToDate, BranchSync::UpToDate) == BranchSync::UpToDate,
        spec_most_backed_up(BranchSync::NoRemoteBranch, BranchSync::NoRemoteBranch) == BranchSync::NoRemoteBranch,
{
}

/// Folding the cells of one server's two aliases: when both are present the
/// column shows the more backed-up of them (so a branch one alias already
/// holds never reads `new` for want of the other's fetch); when one is absent,
/// the other.
pub proof fn lemma_fold_pair(cells: Seq<Option<BranchSync>>, i: usize, j: usize)
    requires
        i < cells.len(),
        j < cells.len(),
    ensures
        (cells[i as int] is Some && cells[j as int] is Some) ==> spec_fold_column(seq![i, j], cells) == Some(
            spec_most_backed_up(cells[i as int]->Some_0, cells[j as int]->Some_0),
        ),
        cells[i as int] is None ==> spec_fold_column(seq![i, j], cells) == cells[j as int],
        cells[j as int] is None ==> spec_fold_column(seq![i, j], cells) == cells[i as int],
{
    let two = seq![i, j];
    assert(two.drop_last() == seq![i]);
    assert(seq![i].drop_last() == Seq::<usize>::empty());
    assert(present_cells(Seq::<usize>::empty(), cells) == Seq::<BranchSync>::empty());
    let p1 = present_cells(seq![i], cells);
    if cells[i as int] is Some {
        assert(p1 == seq![cells[i as int]->Some_0]);
    } else {
        assert(p1 == Seq::<BranchSync>::empty());
    }
    let p2 = present_cells(two, cells);
    if cells[j as int] is Some {
        assert(p2 == p1.push(cells[j as int]->Some_0));
        if cells[i as int] is Some {
            let s = p2;
            assert(s.len() == 2);
            assert(s.drop_last() == seq![cells[i as int]->Some_0]);
            assert(reduce_backed_up(seq![cells[i as int]->Some_0]) == Some(cells[i as int]->Some_0));
            assert(s.last() == cells[j as int]->Some_0);
        } else {
            assert(p2 == seq![cells[j as int]->Some_0]);
        }
    } else {
        assert(p2 == p1);
    }
}
} // verus!
