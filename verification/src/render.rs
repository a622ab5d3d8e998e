//! The status tables: cell text (with optional ANSI colour) over collected
//! rows, laid out by `tabled`.
use vstd::prelude::*;
use crate::classify::BranchSync;
use crate::model::WorkingTree;
use crate::text::{
    contains_str, decimal, decimal_string, has_infix, has_prefix, push_char, push_decimal, push_str,
    starts_with, str_eq, string_from, views,
};

verus! {

/// One line of a status table.
pub struct Row {
    pub repo: String,
    pub branch: String,
    pub is_current: bool,
    /// Working-tree counts, shown only on the repo's current-branch row.
    pub wt: Option<WorkingTree>,
    /// Per-shown-remote cell, aligned with the `remotes` header order.
    /// `None` = the repo doesn't have that remote.
    pub remote_cells: Vec<Option<BranchSync>>,
    /// Lifecycle label (`linked`/`local-only`/`home-only`/`?`), fleet view only,
    /// shown on the repo's first row. Empty = don't render.
    pub lifecycle: String,
    /// Backup-server presence (`ok`/`miss`/`?`), fleet view only, shown on the
    /// repo's first row when a `[backup]` server is configured. Empty = no cell.
    pub backup: String,
    /// "Others need attention" count (fleet, current-branch view): branches
    /// besides the shown one that aren't up-to-date. `None`/0 = blank.
    pub others: Option<u32>,
    /// What `sync` would do for this branch (detail view only).
    pub action: Option<String>,
}

impl Row {
    /// A blank row with no lifecycle/others/action — the common case builders
    /// fill in selectively.
    pub fn new(repo: String, branch: String, is_current: bool) -> (r: Row)
        ensures
            r.repo == repo,
            r.branch == branch,
            r.is_current == is_current,
            r.wt is None,
            r.remote_cells@.len() == 0,
            r.lifecycle@.len() == 0,
            r.backup@.len() == 0,
            r.others is None,
            r.action is None,
    {
        Row {
            repo,
            branch,
            is_current,
            wt: None,
            remote_cells: Vec::new(),
            lifecycle: String::new(),
            backup: String::new(),
            others: None,
            action: None,
        }
    }
}

/// `s` wrapped in the ANSI SGR sequence `code` when `color` is on, else `s`.
pub open spec fn sgr(s: Seq<char>, code: Seq<char>, color: bool) -> Seq<char> {
    if color {
        seq!['\x1b', '['] + code + seq!['m'] + s + seq!['\x1b', '[', '0', 'm']
    } else {
        s
    }
}

/// Wrap `s` in an ANSI SGR sequence when `color` is on, otherwise return it plain.
fn paint(s: &str, code: &str, color: bool) -> (r: String)
    ensures
        r@ == sgr(s@, code@, color),
{
    if color {
        let mut r = String::new();
        push_char(&mut r, '\x1b');
        push_char(&mut r, '[');
        push_str(&mut r, code);
        push_char(&mut r, 'm');
        push_str(&mut r, s);
        push_char(&mut r, '\x1b');
        push_char(&mut r, '[');
        push_char(&mut r, '0');
        push_char(&mut r, 'm');
        assert(r@ == sgr(s@, code@, color));
        r
    } else {
        string_from(s)
    }
}

/// A working-tree count cell: dim `·` for zero, otherwise the coloured count.
pub open spec fn count_cell(n: u32, code: Seq<char>, color: bool) -> Seq<char> {
    if n == 0 {
        sgr(seq!['\u{b7}'], "2"@, color)
    } else {
        sgr(decimal(n as nat), code, color)
    }
}

fn count(n: u32, code: &str, color: bool) -> (r: String)
    ensures
        r@ == count_cell(n, code@, color),
{
    if n == 0 {
        proof {
            reveal_strlit("\u{b7}");
        }
        paint("\u{b7}", "2", color)
    } else {
        let d = decimal_string(n as u64);
        paint(d.as_str(), code, color)
    }
}

/// The staged / unstaged / untracked / conflict cells of a row.
pub open spec fn wt_cell_texts(wt: Option<WorkingTree>, color: bool) -> Seq<Seq<char>> {
    match wt {
        None => seq![Seq::empty(), Seq::empty(), Seq::empty(), Seq::empty()],
        Some(w) => seq![
            count_cell(w.staged, "32"@, color),
            count_cell(w.unstaged, "33"@, color),
            count_cell(w.untracked, "36"@, color),
            count_cell(w.conflicts, "1;31"@, color),
        ],
    }
}

fn wt_cells(wt: Option<WorkingTree>, color: bool) -> (r: (String, String, String, String))
    ensures
        seq![r.0@, r.1@, r.2@, r.3@] == wt_cell_texts(wt, color),
{
    match wt {
        None => (String::new(), String::new(), String::new(), String::new()),
        Some(w) => (
            count(w.staged, "32", color),
            count(w.unstaged, "33", color),
            count(w.untracked, "36", color),
            count(w.conflicts, "1;31", color),
        ),
    }
}

/// The cell of one remote: `-` absent, `new`, `ok`, `↑n`, `↓n`, or
/// `↑a↓b diverged` / `↑a↓b CONFLICT`, each in its colour.
pub open spec fn remote_cell_text(sync: Option<BranchSync>, color: bool) -> Seq<char> {
    match sync {
        None => sgr(seq!['-'], "2"@, color),
        Some(BranchSync::NoRemoteBranch) => sgr("new"@, "36"@, color),
        Some(BranchSync::UpToDate) => sgr("ok"@, "2"@, color),
        Some(BranchSync::Ahead(n)) => sgr(seq!['\u{2191}'] + decimal(n as nat), "32"@, color),
        Some(BranchSync::Behind(n)) => sgr(seq!['\u{2193}'] + decimal(n as nat), "33"@, color),
        Some(BranchSync::Diverged { ahead, behind, conflict }) => sgr(
            seq!['\u{2191}'] + decimal(ahead as nat) + seq!['\u{2193}'] + decimal(behind as nat)
                + seq![' '] + if conflict {
                "CONFLICT"@
            } else {
                "diverged"@
            },
            if conflict {
                "1;31"@
            } else {
                "33"@
            },
            color,
        ),
    }
}

fn remote_cell(sync: &Option<BranchSync>, color: bool) -> (r: String)
    ensures
        r@ == remote_cell_text(*sync, color),
{
    match sync {
        None => {
            proof {
                reveal_strlit("-");
            }
            paint("-", "2", color)
        },
        Some(BranchSync::NoRemoteBranch) => paint("new", "36", color),
        Some(BranchSync::UpToDate) => paint("ok", "2", color),
        Some(BranchSync::Ahead(n)) => {
            let mut t = String::new();
            push_char(&mut t, '\u{2191}');
            push_decimal(&mut t, *n as u64);
            paint(t.as_str(), "32", color)
        },
        Some(BranchSync::Behind(n)) => {
            let mut t = String::new();
            push_char(&mut t, '\u{2193}');
            push_decimal(&mut t, *n as u64);
            paint(t.as_str(), "33", color)
        },
        Some(BranchSync::Diverged { ahead, behind, conflict }) => {
            let mut t = String::new();
            push_char(&mut t, '\u{2191}');
            push_decimal(&mut t, *ahead as u64);
            push_char(&mut t, '\u{2193}');
            push_decimal(&mut t, *behind as u64);
            push_char(&mut t, ' ');
            let tag = if *conflict {
                "CONFLICT"
            } else {
                "diverged"
            };
            let code = if *conflict {
                "1;31"
            } else {
                "33"
            };
            push_str(&mut t, tag);
            paint(t.as_str(), code, color)
        },
    }
}

/// The lifecycle label in its colour: dim when linked, yellow when it needs
/// `create`, cyan when it needs `clone`, dim otherwise.
pub open spec fn lifecycle_cell_text(label: Seq<char>, color: bool) -> Seq<char> {
    let code = if label == "linked"@ {
        "2"@
    } else if label == "local-only"@ {
        "33"@
    } else if label == "home-only"@ {
        "36"@
    } else {
        "2"@
    };
    sgr(label, code, color)
}

fn lifecycle_cell(label: &str, color: bool) -> (r: String)
    ensures
        r@ == lifecycle_cell_text(label@, color),
{
    let code = if str_eq(label, "linked") {
        "2"
    } else if str_eq(label, "local-only") {
        "33"
    } else if str_eq(label, "home-only") {
        "36"
    } else {
        "2"
    };
    paint(label, code, color)
}

/// The backup-presence label in its colour: `ok` green, `miss` red, else dim.
pub open spec fn backup_cell_text(label: Seq<char>, color: bool) -> Seq<char> {
    let code = if label == "ok"@ {
        "32"@
    } else if label == "miss"@ {
        "31"@
    } else {
        "2"@
    };
    sgr(label, code, color)
}

fn backup_cell(label: &str, color: bool) -> (r: String)
    ensures
        r@ == backup_cell_text(label@, color),
{
    let code = if str_eq(label, "ok") {
        "32"
    } else if str_eq(label, "miss") {
        "31"
    } else {
        "2"
    };
    paint(label, code, color)
}

/// The `+N⚠` "others need attention" cell, blank when nothing else is outstanding.
pub open spec fn others_cell_text(others: Option<u32>, color: bool) -> Seq<char> {
    match others {
        Some(n) => if n > 0 {
            sgr(seq!['+'] + decimal(n as nat) + seq!['\u{26a0}'], "33"@, color)
        } else {
            Seq::empty()
        },
        None => Seq::empty(),
    }
}

fn others_cell(others: Option<u32>, color: bool) -> (r: String)
    ensures
        r@ == others_cell_text(others, color),
{
    match others {
        Some(n) => {
            if n > 0 {
                let mut t = String::new();
                push_char(&mut t, '+');
                push_decimal(&mut t, n as u64);
                push_char(&mut t, '\u{26a0}');
                paint(t.as_str(), "33", color)
            } else {
                String::new()
            }
        },
        None => String::new(),
    }
}

/// The branch cell: `* ` before the current branch, two spaces otherwise.
pub open spec fn branch_label_text(row: Row) -> Seq<char> {
    if row.is_current {
        seq!['*', ' '] + row.branch@
    } else {
        seq![' ', ' '] + row.branch@
    }
}

fn branch_label(row: &Row) -> (r: String)
    ensures
        r@ == branch_label_text(*row),
{
    let mut t = String::new();
    if row.is_current {
        push_char(&mut t, '*');
    } else {
        push_char(&mut t, ' ');
    }
    push_char(&mut t, ' ');
    push_str(&mut t, row.branch.as_str());
    t
}

/// The sync-action label in its colour by direction / severity.
pub open spec fn action_cell_text(action: Option<Seq<char>>, color: bool) -> Seq<char> {
    match action {
        None => Seq::empty(),
        Some(a) => {
            let code = if has_prefix(a, "push"@) {
                "32"@
            } else if has_prefix(a, "ff"@) || a == "clone"@ {
                "36"@
            } else if has_infix(a, "CONFLICT"@) {
                "1;31"@
            } else if a == "ok"@ {
                "2"@
            } else {
                "33"@
            };
            sgr(a, code, color)
        },
    }
}

fn action_cell(action: &Option<String>, color: bool) -> (r: String)
    ensures
        r@ == action_cell_text(
            match action {
                Some(a) => Some(a@),
                None => None,
            },
            color,
        ),
{
    match action {
        None => String::new(),
        Some(a) => {
            let a = a.as_str();
            let code = if starts_with(a, "push") {
                "32"
            } else if starts_with(a, "ff") || str_eq(a, "clone") {
                "36"
            } else if contains_str(a, "CONFLICT") {
                "1;31"
            } else if str_eq(a, "ok") {
                "2"
            } else {
                "33"
            };
            paint(a, code, color)
        },
    }
}

/// The text of a table of `records` (header first) in `tabled`'s rounded style.
pub uninterp spec fn rounded_table_text(records: Seq<Seq<Seq<char>>>) -> Seq<char>;

/// The views of table records.
pub open spec fn records_view(records: Seq<Vec<String>>) -> Seq<Seq<Seq<char>>> {
    records.map_values(|r: Vec<String>| views(r@))
}

/// Lays out `records` (the first one the header) as a table with `tabled`'s
/// `Builder` and the rounded `Style`, and renders it to text. The text is a
/// function of the records alone; what it looks like is `tabled`'s and is not
/// stated here.
#[verifier::external_body]
fn render_rounded(records: Vec<Vec<String>>) -> (s: String)
    ensures
        s@ == rounded_table_text(records_view(records@)),
{
    let mut table = tabled::builder::Builder::from(records).build();
    table.with(tabled::settings::Style::rounded());
    table.to_string()
}

/// The cells of one remote column per shown cell.
pub open spec fn remote_cell_texts(cells: Seq<Option<BranchSync>>, color: bool) -> Seq<Seq<char>> {
    cells.map_values(|c: Option<BranchSync>| remote_cell_text(c, color))
}

/// The fleet table's header row.
pub open spec fn fleet_header(remotes: Seq<Seq<char>>, show_backup: bool) -> Seq<Seq<char>> {
    seq!["Repo"@, "Life"@] + (if show_backup {
        seq!["Bkp"@]
    } else {
        Seq::empty()
    }) + seq!["Branch"@, "S"@, "U"@, "?"@, "Cf"@] + remotes + seq![seq!['\u{26a0}']]
}

/// One row of the fleet table: repo, lifecycle (blank when unset), backup
/// (when shown; blank when unset), branch, working-tree counts, one cell per
/// remote, and the others-need-attention hint.
pub open spec fn fleet_record(row: Row, color: bool, show_backup: bool) -> Seq<Seq<char>> {
    let life = if row.lifecycle@.len() == 0 {
        Seq::empty()
    } else {
        lifecycle_cell_text(row.lifecycle@, color)
    };
    let bkp = if row.backup@.len() == 0 {
        Seq::empty()
    } else {
        backup_cell_text(row.backup@, color)
    };
    seq![row.repo@, life] + (if show_backup {
        seq![bkp]
    } else {
        Seq::empty()
    }) + seq![branch_label_text(row)] + wt_cell_texts(row.wt, color) + remote_cell_texts(
        row.remote_cells@,
        color,
    ) + seq![others_cell_text(row.others, color)]
}

/// The fleet table's records: the header, then one record per row.
pub open spec fn fleet_records(
    remotes: Seq<Seq<char>>,
    rows: Seq<Row>,
    color: bool,
    show_backup: bool,
) -> Seq<Seq<Seq<char>>> {
    seq![fleet_header(remotes, show_backup)] + rows.map_values(
        |r: Row| fleet_record(r, color, show_backup),
    )
}

/// The detail table's header row.
pub open spec fn detail_header(remotes: Seq<Seq<char>>) -> Seq<Seq<char>> {
    seq!["Branch"@, "S"@, "U"@, "?"@, "Cf"@] + remotes + seq!["sync"@]
}

/// One row of the detail table: branch, working-tree counts, one cell per
/// remote, and the sync action.
pub open spec fn detail_record(row: Row, color: bool) -> Seq<Seq<char>> {
    seq![branch_label_text(row)] + wt_cell_texts(row.wt, color) + remote_cell_texts(
        row.remote_cells@,
        color,
    ) + seq![
        action_cell_text(
            match row.action {
                Some(a) => Some(a@),
                None => None,
            },
            color,
        ),
    ]
}

/// The detail table's records: the header, then one record per row.
pub open spec fn detail_records(remotes: Seq<Seq<char>>, rows: Seq<Row>, color: bool) -> Seq<
    Seq<Seq<char>>,
> {
    seq![detail_header(remotes)] + rows.map_values(|r: Row| detail_record(r, color))
}

/// Appends a copy of `t` to the record `rec`.
fn push_cell(rec: &mut Vec<String>, t: &str)
    ensures
        views(final(rec)@) == views(old(rec)@).push(t@),
{
    let ghost before = rec@;
    rec.push(string_from(t));
    assert(views(rec@) == views(before).push(t@));
}

/// Appends `c` to the record `rec`.
fn push_owned(rec: &mut Vec<String>, c: String)
    ensures
        views(final(rec)@) == views(old(rec)@).push(c@),
{
    let ghost before = rec@;
    rec.push(c);
    assert(views(rec@) == views(before).push(c@));
}

/// Appends the remote cells of `cells` to `rec`.
fn push_remote_cells(rec: &mut Vec<String>, cells: &Vec<Option<BranchSync>>, color: bool)
    ensures
        views(final(rec)@) == views(old(rec)@) + remote_cell_texts(cells@, color),
{
    let n = cells.len();
    for i in 0..n
        invariant
            n == cells@.len(),
            views(rec@) == views(old(rec)@) + remote_cell_texts(cells@.take(i as int), color),
    {
        let c = remote_cell(&cells[i], color);
        push_owned(rec, c);
        proof {
            assert(cells@.take(i + 1) == cells@.take(i as int).push(cells@[i as int]));
            assert(remote_cell_texts(cells@.take(i + 1), color) == remote_cell_texts(
                cells@.take(i as int),
                color,
            ).push(remote_cell_text(cells@[i as int], color)));
        }
    }
    assert(cells@.take(n as int) == cells@);
}

/// Appends the remote names to `rec`.
fn push_names(rec: &mut Vec<String>, remotes: &[String])
    ensures
        views(final(rec)@) == views(old(rec)@) + views(remotes@),
{
    let n = remotes.len();
    for i in 0..n
        invariant
            n == remotes@.len(),
            views(rec@) == views(old(rec)@) + views(remotes@.take(i as int)),
    {
        push_owned(rec, remotes[i].clone());
        proof {
            assert(remotes@.take(i + 1) == remotes@.take(i as int).push(remotes@[i as int]));
            assert(views(remotes@.take(i + 1)) == views(remotes@.take(i as int)).push(
                remotes@[i as int]@,
            ));
        }
    }
    assert(remotes@.take(n as int) == remotes@);
}

/// Appends the four working-tree cells of `wt` to `rec`.
fn push_wt_cells(rec: &mut Vec<String>, wt: Option<WorkingTree>, color: bool)
    ensures
        views(final(rec)@) == views(old(rec)@) + wt_cell_texts(wt, color),
{
    let (s, u, q, c) = wt_cells(wt, color);
    let ghost w = seq![s@, u@, q@, c@];
    push_owned(rec, s);
    push_owned(rec, u);
    push_owned(rec, q);
    push_owned(rec, c);
    assert(views(rec@) == views(old(rec)@) + w);
}

/// The fleet table: one block per repo with a lifecycle cell and a `+N⚠` hint.
/// `show_backup` adds a `Bkp` column (only when a `[backup]` server is configured).
pub fn table(remotes: &[String], rows: &[Row], color: bool, show_backup: bool) -> (s: String)
    ensures
        s@ == rounded_table_text(fleet_records(views(remotes@), rows@, color, show_backup)),
{
    render_rounded(fleet_table_records(remotes, rows, color, show_backup))
}

/// The cells of the fleet table, header first, before layout.
pub fn fleet_table_records(remotes: &[String], rows: &[Row], color: bool, show_backup: bool) -> (records: Vec<Vec<String>>)
    ensures
        records_view(records@) == fleet_records(views(remotes@), rows@, color, show_backup),
{
    let mut records: Vec<Vec<String>> = Vec::new();
    let mut header: Vec<String> = Vec::new();
    push_cell(&mut header, "Repo");
    push_cell(&mut header, "Life");
    let ghost h0 = views(header@);
    assert(h0 == seq!["Repo"@, "Life"@]);
    if show_backup {
        push_cell(&mut header, "Bkp");
    }
    let ghost bk: Seq<Seq<char>> = if show_backup {
        seq!["Bkp"@]
    } else {
        Seq::empty()
    };
    assert(views(header@) == h0 + bk);
    push_cell(&mut header, "Branch");
    push_cell(&mut header, "S");
    push_cell(&mut header, "U");
    push_cell(&mut header, "?");
    push_cell(&mut header, "Cf");
    let ghost h1 = views(header@);
    assert(h1 == h0 + bk + seq!["Branch"@, "S"@, "U"@, "?"@, "Cf"@]);
    push_names(&mut header, remotes);
    let ghost h2 = views(header@);
    assert(h2 == h1 + views(remotes@));
    push_cell(&mut header, "\u{26a0}");
    proof {
        reveal_strlit("\u{26a0}");
        assert("\u{26a0}"@ == seq!['\u{26a0}']);
        assert(views(header@) == h2.push(seq!['\u{26a0}']));
        assert(views(header@) == h1 + views(remotes@) + seq![seq!['\u{26a0}']]);
        assert(views(header@) == fleet_header(views(remotes@), show_backup));
    }
    let ghost hv = views(header@);
    records.push(header);
    proof {
        assert(rows@.take(0).map_values(|r: Row| fleet_record(r, color, show_backup)) =~= Seq::<
            Seq<Seq<char>>,
        >::empty());
        assert(records_view(records@) == seq![hv]);
    }
    let n = rows.len();
    for i in 0..n
        invariant
            n == rows@.len(),
            records_view(records@) == fleet_records(
                views(remotes@),
                rows@.take(i as int),
                color,
                show_backup,
            ),
    {
        let row = &rows[i];
        let mut rec: Vec<String> = Vec::new();
        push_owned(&mut rec, row.repo.clone());
        let life = if row.lifecycle.as_str().is_empty() {
            String::new()
        } else {
            lifecycle_cell(row.lifecycle.as_str(), color)
        };
        push_owned(&mut rec, life);
        if show_backup {
            let bkp = if row.backup.as_str().is_empty() {
                String::new()
            } else {
                backup_cell(row.backup.as_str(), color)
            };
            push_owned(&mut rec, bkp);
        }
        push_owned(&mut rec, branch_label(row));
        push_wt_cells(&mut rec, row.wt, color);
        push_remote_cells(&mut rec, &row.remote_cells, color);
        push_owned(&mut rec, others_cell(row.others, color));
        proof {
            assert(views(rec@) == fleet_record(*row, color, show_backup));
            assert(rows@.take(i + 1) == rows@.take(i as int).push(rows@[i as int]));
        }
        let ghost before = records@;
        records.push(rec);
        proof {
            assert(records_view(records@) == records_view(before).push(views(rec@)));
            assert(fleet_records(views(remotes@), rows@.take(i + 1), color, show_backup)
                == fleet_records(views(remotes@), rows@.take(i as int), color, show_backup).push(
                fleet_record(rows@[i as int], color, show_backup),
            ));
        }
    }
    assert(rows@.take(n as int) == rows@);
    records
}

/// The detail table (`gr status <repo>`): every branch of one repo with the
/// action `sync` would take.
pub fn detail_table(remotes: &[String], rows: &[Row], color: bool) -> (s: String)
    ensures
        s@ == rounded_table_text(detail_records(views(remotes@), rows@, color)),
{
    render_rounded(detail_table_records(remotes, rows, color))
}

/// The cells of the detail table, header first, before layout.
pub fn detail_table_records(remotes: &[String], rows: &[Row], color: bool) -> (records: Vec<Vec<String>>)
    ensures
        records_view(records@) == detail_records(views(remotes@), rows@, color),
{
    let mut records: Vec<Vec<String>> = Vec::new();
    let mut header: Vec<String> = Vec::new();
    push_cell(&mut header, "Branch");
    push_cell(&mut header, "S");
    push_cell(&mut header, "U");
    push_cell(&mut header, "?");
    push_cell(&mut header, "Cf");
    let ghost h1 = views(header@);
    assert(h1 == seq!["Branch"@, "S"@, "U"@, "?"@, "Cf"@]);
    push_names(&mut header, remotes);
    push_cell(&mut header, "sync");
    assert(views(header@) == h1 + views(remotes@) + seq!["sync"@]);
    let ghost hv = views(header@);
    records.push(header);
    proof {
        assert(rows@.take(0).map_values(|r: Row| detail_record(r, color)) =~= Seq::<
            Seq<Seq<char>>,
        >::empty());
        assert(records_view(records@) == seq![hv]);
    }
    let n = rows.len();
    for i in 0..n
        invariant
            n == rows@.len(),
            records_view(records@) == detail_records(views(remotes@), rows@.take(i as int), color),
    {
        let row = &rows[i];
        let mut rec: Vec<String> = Vec::new();
        push_owned(&mut rec, branch_label(row));
        push_wt_cells(&mut rec, row.wt, color);
        push_remote_cells(&mut rec, &row.remote_cells, color);
        push_owned(&mut rec, action_cell(&row.action, color));
        proof {
            assert(views(rec@) == detail_record(*row, color));
            assert(rows@.take(i + 1) == rows@.take(i as int).push(rows@[i as int]));
        }
        let ghost before = records@;
        records.push(rec);
        proof {
            assert(records_view(records@) == records_view(before).push(views(rec@)));
            assert(detail_records(views(remotes@), rows@.take(i + 1), color) == detail_records(
                views(remotes@),
                rows@.take(i as int),
                color,
            ).push(detail_record(rows@[i as int], color)));
        }
    }
    assert(rows@.take(n as int) == rows@);
    records
}

} // verus!
