//! Parse `git status --porcelain=v2 -z` into working-tree counts and into
//! per-path entries.
//!
//! The output is one record per NUL-separated token:
//! - `1 <XY> …`  ordinary changed entry
//! - `2 <XY> …`  rename/copy entry — followed by a separate token: the original path
//! - `u <XY> …`  unmerged (conflict) entry
//! - `? <path>`  untracked
//! - `! <path>`  ignored
//! - `# …`       header lines (branch info)
//!
//! `X` is the index/staged status, `Y` the worktree/unstaged status; `.` means
//! "unchanged on that side".
use vstd::prelude::*;
use crate::model::WorkingTree;
use crate::text::{chars_of, find_char, index_of, ranges_spell, split_on, split_ranges, string_of};

verus! {

/// The token is a record of kind `c` (its first character).
pub open spec fn kind_is(tok: Seq<char>, c: char) -> bool {
    tok.len() > 0 && tok[0] == c
}

/// An ordinary or rename/copy change record.
pub open spec fn is_change(tok: Seq<char>) -> bool {
    kind_is(tok, '1') || kind_is(tok, '2')
}

/// The second space-separated field of a token (`XY` of a change record), or
/// none when the token has no space.
pub open spec fn second_field(tok: Seq<char>) -> Option<Seq<char>> {
    let i = index_of(tok, ' ');
    if i < 0 {
        None
    } else {
        let rest = tok.skip(i + 1);
        let j = index_of(rest, ' ');
        Some(
            if j < 0 {
                rest
            } else {
                rest.take(j)
            },
        )
    }
}

/// The index-side status `X` of a record (`.` when absent).
pub open spec fn x_of(tok: Seq<char>) -> char {
    match second_field(tok) {
        Some(f) => if f.len() > 0 {
            f[0]
        } else {
            '.'
        },
        None => '.',
    }
}

/// The worktree-side status `Y` of a record (`.` when absent).
pub open spec fn y_of(tok: Seq<char>) -> char {
    match second_field(tok) {
        Some(f) => if f.len() > 1 {
            f[1]
        } else {
            '.'
        },
        None => '.',
    }
}

/// The records the counter reads, from token `i` on: every token but the
/// original-path token that follows each rename/copy record.
pub open spec fn count_records_from(toks: Seq<Seq<char>>, i: int) -> Seq<Seq<char>>
    decreases toks.len() - i,
{
    if i < 0 || i >= toks.len() {
        Seq::empty()
    } else if kind_is(toks[i], '2') && i + 2 <= toks.len() {
        seq![toks[i]] + count_records_from(toks, i + 2)
    } else if kind_is(toks[i], '2') {
        seq![toks[i]]
    } else {
        seq![toks[i]] + count_records_from(toks, i + 1)
    }
}

/// The number of records satisfying `p`.
pub open spec fn count_if(recs: Seq<Seq<char>>, p: spec_fn(Seq<char>) -> bool) -> nat
    decreases recs.len(),
{
    if recs.len() == 0 {
        0
    } else {
        (if p(recs[0]) {
            1nat
        } else {
            0nat
        }) + count_if(recs.drop_first(), p)
    }
}

/// A count as `u32` arithmetic saturating at the top keeps it.
pub open spec fn saturate(n: nat) -> u32 {
    if n > u32::MAX {
        u32::MAX
    } else {
        n as u32
    }
}

/// Records with a staged (index-side) change.
pub open spec fn staged_rec(t: Seq<char>) -> bool {
    is_change(t) && second_field(t) is Some && x_of(t) != '.'
}

/// Records with an unstaged (worktree-side) change.
pub open spec fn unstaged_rec(t: Seq<char>) -> bool {
    is_change(t) && second_field(t) is Some && y_of(t) != '.'
}

/// Untracked records.
pub open spec fn untracked_rec(t: Seq<char>) -> bool {
    kind_is(t, '?')
}

/// Unmerged records.
pub open spec fn conflict_rec(t: Seq<char>) -> bool {
    kind_is(t, 'u')
}

/// The counts of the porcelain output `s`, each saturating at `u32::MAX`.
pub open spec fn spec_porcelain_counts(s: Seq<char>) -> WorkingTree {
    let recs = count_records_from(split_on(s, '\0'), 0);
    WorkingTree {
        staged: saturate(count_if(recs, |t: Seq<char>| staged_rec(t))),
        unstaged: saturate(count_if(recs, |t: Seq<char>| unstaged_rec(t))),
        untracked: saturate(count_if(recs, |t: Seq<char>| untracked_rec(t))),
        conflicts: saturate(count_if(recs, |t: Seq<char>| conflict_rec(t))),
    }
}

/// Counting over a record followed by more records.
proof fn lemma_count_if_cons(x: Seq<char>, rest: Seq<Seq<char>>, p: spec_fn(Seq<char>) -> bool)
    ensures
        count_if(seq![x] + rest, p) == (if p(x) {
            1nat
        } else {
            0nat
        }) + count_if(rest, p),
{
    assert((seq![x] + rest).drop_first() == rest);
}

/// The range of the second space-separated field of `v[a..b]`.
fn second_field_range(v: &Vec<char>, a: usize, b: usize) -> (r: Option<(usize, usize)>)
    requires
        a <= b <= v@.len(),
    ensures
        match r {
            Some((s, e)) => a <= s <= e <= b && second_field(v@.subrange(a as int, b as int))
                == Some(v@.subrange(s as int, e as int)),
            None => second_field(v@.subrange(a as int, b as int)) is None,
        },
{
    let ghost tok = v@.subrange(a as int, b as int);
    let p = find_char(v, a, b, ' ');
    if p == b {
        None
    } else {
        let q = find_char(v, p + 1, b, ' ');
        proof {
            assert(tok.skip(p - a + 1) == v@.subrange(p + 1, b as int));
            if q < b {
                assert(v@.subrange(p + 1, b as int).take(q - (p + 1)) == v@.subrange(
                    p + 1,
                    q as int,
                ));
            } else {
                assert(v@.subrange(p + 1, b as int) == v@.subrange(p + 1, q as int));
            }
        }
        Some((p + 1, q))
    }
}

/// The `X` and `Y` status characters of the record `v[a..b]`, and whether it
/// has a second field at all.
fn record_xy(v: &Vec<char>, a: usize, b: usize) -> (r: (bool, char, char))
    requires
        a <= b <= v@.len(),
    ensures
        r.0 == second_field(v@.subrange(a as int, b as int)) is Some,
        r.1 == x_of(v@.subrange(a as int, b as int)),
        r.2 == y_of(v@.subrange(a as int, b as int)),
{
    match second_field_range(v, a, b) {
        None => (false, '.', '.'),
        Some((s, e)) => {
            let x = if e > s {
                v[s]
            } else {
                '.'
            };
            let y = if e - s > 1 {
                v[s + 1]
            } else {
                '.'
            };
            proof {
                let f = v@.subrange(s as int, e as int);
                if e > s {
                    assert(f[0] == v@[s as int]);
                }
                if e > s + 1 {
                    assert(f[1] == v@[s + 1]);
                }
            }
            (true, x, y)
        },
    }
}

/// `n + 1`, saturating at `u32::MAX`.
fn bump(n: u32) -> (r: u32)
    ensures
        r == if n == u32::MAX {
            u32::MAX
        } else {
            (n + 1) as u32
        },
{
    if n == u32::MAX {
        n
    } else {
        n + 1
    }
}

/// Parse the raw output of `git status --porcelain=v2 -z` into counts:
/// staged / unstaged from the `XY` field of change records, untracked from `?`
/// records, conflicts from `u` records; a rename/copy record's original-path
/// token is not a record. Each count saturates at `u32::MAX`.
pub fn parse_porcelain_v2_z(input: &str) -> (wt: WorkingTree)
    ensures
        wt == spec_porcelain_counts(input@),
{
    let v = chars_of(input);
    let toks = split_ranges(&v, '\0');
    let ghost ts = split_on(v@, '\0');
    let ghost recs = count_records_from(ts, 0);
    let ghost ps = |t: Seq<char>| staged_rec(t);
    let ghost pu = |t: Seq<char>| unstaged_rec(t);
    let ghost pt = |t: Seq<char>| untracked_rec(t);
    let ghost pc = |t: Seq<char>| conflict_rec(t);
    let ghost mut cs: nat = 0;
    let ghost mut cu: nat = 0;
    let ghost mut ct: nat = 0;
    let ghost mut cc: nat = 0;
    let mut wt = WorkingTree { staged: 0, unstaged: 0, untracked: 0, conflicts: 0 };
    let n = toks.len();
    let mut i: usize = 0;
    while i < n
        invariant
            n == toks@.len() == ts.len(),
            v@ == input@,
            ts == split_on(v@, '\0'),
            recs == count_records_from(ts, 0),
            ranges_spell(v@, toks@, ts),
            i <= n,
            count_if(recs, ps) == cs + count_if(count_records_from(ts, i as int), ps),
            count_if(recs, pu) == cu + count_if(count_records_from(ts, i as int), pu),
            count_if(recs, pt) == ct + count_if(count_records_from(ts, i as int), pt),
            count_if(recs, pc) == cc + count_if(count_records_from(ts, i as int), pc),
            wt.staged == saturate(cs),
            wt.unstaged == saturate(cu),
            wt.untracked == saturate(ct),
            wt.conflicts == saturate(cc),
            ps == (|t: Seq<char>| staged_rec(t)),
            pu == (|t: Seq<char>| unstaged_rec(t)),
            pt == (|t: Seq<char>| untracked_rec(t)),
            pc == (|t: Seq<char>| conflict_rec(t)),
        decreases n - i,
    {
        let (a, b) = toks[i];
        let ghost tok = ts[i as int];
        assert(v@.subrange(a as int, b as int) == tok);
        let first = if a < b {
            v[a]
        } else {
            '\0'
        };
        let next: usize = if a < b && first == '2' && i + 1 < n {
            i + 2
        } else {
            i + 1
        };
        proof {
            let rest = count_records_from(ts, next as int);
            assert(count_records_from(ts, i as int) == seq![tok] + rest);
            lemma_count_if_cons(tok, rest, ps);
            lemma_count_if_cons(tok, rest, pu);
            lemma_count_if_cons(tok, rest, pt);
            lemma_count_if_cons(tok, rest, pc);
            if a < b {
                assert(tok[0] == v@[a as int]);
            }
        }
        if a < b && (first == '1' || first == '2') {
            let (has, x, y) = record_xy(&v, a, b);
            if has && x != '.' {
                wt.staged = bump(wt.staged);
                proof {
                    cs = cs + 1;
                }
            }
            if has && y != '.' {
                wt.unstaged = bump(wt.unstaged);
                proof {
                    cu = cu + 1;
                }
            }
        } else if a < b && first == 'u' {
            wt.conflicts = bump(wt.conflicts);
            proof {
                cc = cc + 1;
            }
        } else if a < b && first == '?' {
            wt.untracked = bump(wt.untracked);
            proof {
                ct = ct + 1;
            }
        }
        i = next;
    }
    proof {
        assert(count_records_from(ts, i as int) == Seq::<Seq<char>>::empty());
    }
    wt
}

/// What a changed path needs before it can be included in a commit.
#[derive(Debug, Clone, Copy, PartialEq, Eq, Structural)]
pub enum EntryKind {
    /// Not tracked by git at all (`?` record).
    Untracked,
    /// Has an unstaged worktree delta (`Y != '.'`) — staging it needs a `git add`.
    Modified,
    /// Already fully staged (`X != '.'`, `Y == '.'`) — nothing left to add.
    StagedOnly,
    /// Unmerged (`u` record) — never staged automatically; surfaced, not touched.
    Conflict,
}

/// One changed path from `git status --porcelain=v2 -z`, classified for the
/// review loop.
#[derive(Debug, Clone, PartialEq, Eq)]
pub struct StatusEntry {
    pub path: String,
    pub kind: EntryKind,
}

/// The last of at most `n` space-separated pieces of `t` (as `splitn(n, ' ')`
/// yields them): what follows the first `n - 1` spaces, or the last piece when
/// there are fewer spaces.
pub open spec fn splitn_last(t: Seq<char>, n: nat) -> Seq<char>
    decreases n,
{
    if n <= 1 {
        t
    } else {
        let i = index_of(t, ' ');
        if i < 0 {
            t
        } else {
            splitn_last(t.skip(i + 1), (n - 1) as nat)
        }
    }
}

/// A change record gives an entry when either side changed.
pub open spec fn change_has_entry(t: Seq<char>) -> bool {
    y_of(t) != '.' || x_of(t) != '.'
}

/// The records the entry parser reads, from token `i` on: the original-path
/// token after a rename/copy record is consumed only when that record gives an
/// entry.
pub open spec fn entry_records_from(toks: Seq<Seq<char>>, i: int) -> Seq<Seq<char>>
    decreases toks.len() - i,
{
    if i < 0 || i >= toks.len() {
        Seq::empty()
    } else if kind_is(toks[i], '2') && change_has_entry(toks[i]) && i + 2 <= toks.len() {
        seq![toks[i]] + entry_records_from(toks, i + 2)
    } else if kind_is(toks[i], '2') && change_has_entry(toks[i]) {
        seq![toks[i]]
    } else {
        seq![toks[i]] + entry_records_from(toks, i + 1)
    }
}

/// The entry of one record, as (path, kind): a change record's path follows
/// its 8 (ordinary) or 9 (rename/copy) fixed fields, embedded spaces kept; an
/// unmerged record's follows 10 fields; an untracked record's follows `? `.
pub open spec fn record_entry(t: Seq<char>) -> Option<(Seq<char>, EntryKind)> {
    if is_change(t) {
        let path = splitn_last(
            t,
            if kind_is(t, '1') {
                9
            } else {
                10
            },
        );
        if y_of(t) != '.' {
            Some((path, EntryKind::Modified))
        } else if x_of(t) != '.' {
            Some((path, EntryKind::StagedOnly))
        } else {
            None
        }
    } else if kind_is(t, 'u') {
        Some((splitn_last(t, 11), EntryKind::Conflict))
    } else if kind_is(t, '?') {
        Some((splitn_last(t, 2), EntryKind::Untracked))
    } else {
        None
    }
}

/// The entries of a sequence of records, in order.
pub open spec fn entries_of(recs: Seq<Seq<char>>) -> Seq<(Seq<char>, EntryKind)>
    decreases recs.len(),
{
    if recs.len() == 0 {
        Seq::empty()
    } else {
        let rest = entries_of(recs.drop_first());
        match record_entry(recs[0]) {
            Some(e) => seq![e] + rest,
            None => rest,
        }
    }
}

/// The (path, kind) view of parsed entries.
pub open spec fn entry_views(es: Seq<StatusEntry>) -> Seq<(Seq<char>, EntryKind)> {
    es.map_values(|e: StatusEntry| (e.path@, e.kind))
}

/// The entries of the porcelain output `s`.
pub open spec fn spec_status_entries(s: Seq<char>) -> Seq<(Seq<char>, EntryKind)> {
    entries_of(entry_records_from(split_on(s, '\0'), 0))
}

/// The range of `splitn(n, ' ').last()` of `v[a..b]`.
fn splitn_last_range(v: &Vec<char>, a: usize, b: usize, n: usize) -> (r: usize)
    requires
        a <= b <= v@.len(),
    ensures
        a <= r <= b,
        v@.subrange(r as int, b as int) == splitn_last(v@.subrange(a as int, b as int), n as nat),
{
    let mut start = a;
    let mut left = n;
    while left > 1
        invariant
            a <= start <= b <= v@.len(),
            splitn_last(v@.subrange(a as int, b as int), n as nat) == splitn_last(
                v@.subrange(start as int, b as int),
                left as nat,
            ),
        decreases left,
    {
        let p = find_char(v, start, b, ' ');
        if p == b {
            return start;
        }
        proof {
            assert(v@.subrange(start as int, b as int).skip(p - start + 1) == v@.subrange(
                p + 1,
                b as int,
            ));
        }
        start = p + 1;
        left = left - 1;
    }
    start
}

/// Entries over a record followed by more records.
proof fn lemma_entries_cons(x: Seq<char>, rest: Seq<Seq<char>>)
    ensures
        entries_of(seq![x] + rest) == match record_entry(x) {
            Some(e) => seq![e] + entries_of(rest),
            None => entries_of(rest),
        },
{
    assert((seq![x] + rest).drop_first() == rest);
}

/// Parse `git status --porcelain=v2 -z` into per-path entries (companion to
/// [`parse_porcelain_v2_z`], which only aggregates counts). Header (`#`) and
/// ignored (`!`) records are skipped.
pub fn parse_status_entries_v2_z(input: &str) -> (entries: Vec<StatusEntry>)
    ensures
        entry_views(entries@) == spec_status_entries(input@),
{
    let v = chars_of(input);
    let toks = split_ranges(&v, '\0');
    let ghost ts = split_on(v@, '\0');
    let ghost all = entries_of(entry_records_from(ts, 0));
    let mut entries: Vec<StatusEntry> = Vec::new();
    let n = toks.len();
    let mut i: usize = 0;
    while i < n
        invariant
            n == toks@.len() == ts.len(),
            v@ == input@,
            ts == split_on(v@, '\0'),
            all == entries_of(entry_records_from(ts, 0)),
            ranges_spell(v@, toks@, ts),
            i <= n,
            all == entry_views(entries@) + entries_of(entry_records_from(ts, i as int)),
        decreases n - i,
    {
        let (a, b) = toks[i];
        let ghost tok = ts[i as int];
        assert(v@.subrange(a as int, b as int) == tok);
        let first = if a < b {
            v[a]
        } else {
            '\0'
        };
        proof {
            if a < b {
                assert(tok[0] == v@[a as int]);
            }
        }
        let ghost old_entries = entries@;
        let mut consumed_original = false;
        if a < b && (first == '1' || first == '2') {
            let (_, x, y) = record_xy(&v, a, b);
            let fields: usize = if first == '1' {
                9
            } else {
                10
            };
            let start = splitn_last_range(&v, a, b, fields);
            if y != '.' {
                entries.push(StatusEntry { path: string_of(&v, start, b), kind: EntryKind::Modified });
                consumed_original = first == '2';
            } else if x != '.' {
                entries.push(
                    StatusEntry { path: string_of(&v, start, b), kind: EntryKind::StagedOnly },
                );
                consumed_original = first == '2';
            }
        } else if a < b && first == 'u' {
            let start = splitn_last_range(&v, a, b, 11);
            entries.push(StatusEntry { path: string_of(&v, start, b), kind: EntryKind::Conflict });
        } else if a < b && first == '?' {
            let start = splitn_last_range(&v, a, b, 2);
            entries.push(StatusEntry { path: string_of(&v, start, b), kind: EntryKind::Untracked });
        }
        let next: usize = if consumed_original && i + 1 < n {
            i + 2
        } else {
            i + 1
        };
        proof {
            let rest = entry_records_from(ts, next as int);
            assert(entry_records_from(ts, i as int) == seq![tok] + rest);
            lemma_entries_cons(tok, rest);
            match record_entry(tok) {
                Some(e) => {
                    assert(entry_views(entries@) == entry_views(old_entries).push(e));
                    assert(entry_views(old_entries) + (seq![e] + entries_of(rest)) == entry_views(
                        old_entries,
                    ).push(e) + entries_of(rest));
                },
                None => {
                    assert(entries@ == old_entries);
                },
            }
        }
        i = next;
    }
    proof {
        assert(entry_records_from(ts, i as int) == Seq::<Seq<char>>::empty());
        assert(all == entry_views(entries@) + Seq::<(Seq<char>, EntryKind)>::empty());
    }
    entries
}


// ------------------------------------------------------- untracked listings

/// The record of an untracked path: `? <path>`.
pub open spec fn untracked_token(path: Seq<char>) -> Seq<char> {
    seq!['?', ' '] + path
}

/// The porcelain output of a tree whose only changes are the untracked
/// `paths`: one NUL-terminated `? <path>` record each, in order.
pub open spec fn untracked_listing(paths: Seq<Seq<char>>) -> Seq<char>
    decreases paths.len(),
{
    if paths.len() == 0 {
        Seq::empty()
    } else {
        untracked_listing(paths.drop_last()) + untracked_token(paths.last()) + seq!['\0']
    }
}

/// No path holds the record separator.
pub open spec fn nul_free(paths: Seq<Seq<char>>) -> bool {
    forall|i: int| 0 <= i < paths.len() ==> !(#[trigger] paths[i]).contains('\0')
}

/// A text without the separator is one piece.
proof fn lemma_split_on_no_sep(t: Seq<char>, sep: char)
    requires
        !t.contains(sep),
    ensures
        split_on(t, sep) == seq![t],
    decreases t.len(),
{
    if t.len() > 0 {
        let d = t.drop_last();
        assert(!d.contains(sep)) by {
            if d.contains(sep) {
                let k = choose|k: int| 0 <= k < d.len() && d[k] == sep;
                assert(t[k] == sep);
            }
        }
        lemma_split_on_no_sep(d, sep);
        assert(t[t.len() - 1] == t.last());
        assert(d.push(t.last()) == t);
        assert(t.last() != sep) by {
            if t.last() == sep {
                assert(t[t.len() - 1] == sep);
            }
        }
        assert(seq![d].update(0, d.push(t.last())) == seq![t]);
    } else {
        assert(t == Seq::<char>::empty());
    }
}

/// Splitting a text that starts after a separator: the pieces of the head
/// (its empty last piece dropped), then those of the tail.
proof fn lemma_split_on_append(s: Seq<char>, t: Seq<char>, sep: char)
    requires
        s.len() == 0 || s.last() == sep,
    ensures
        split_on(s + t, sep) == split_on(s, sep).drop_last() + split_on(t, sep),
    decreases t.len(),
{
    if t.len() == 0 {
        assert(s + t == s);
        if s.len() > 0 {
            assert(split_on(s, sep).drop_last() == split_on(s.drop_last(), sep));
        }
        assert(split_on(s, sep).drop_last() + split_on(t, sep) == split_on(s, sep));
    } else {
        let u = s + t;
        assert(u.drop_last() == s + t.drop_last());
        assert(u.last() == t.last());
        lemma_split_on_append(s, t.drop_last(), sep);
        crate::text::lemma_split_on_nonempty(t.drop_last(), sep);
        let a = split_on(s, sep).drop_last();
        let b = split_on(t.drop_last(), sep);
        if t.last() == sep {
            assert((a + b).push(Seq::empty()) == a + b.push(Seq::empty()));
        } else {
            let c = t.last();
            assert((a + b).last() == b.last());
            assert((a + b).update((a + b).len() - 1, (a + b).last().push(c)) == a + b.update(
                b.len() - 1,
                b.last().push(c),
            ));
        }
    }
}

/// The records of an untracked listing: one token per path, then the empty
/// piece after the final separator.
proof fn lemma_split_untracked_listing(paths: Seq<Seq<char>>)
    requires
        nul_free(paths),
    ensures
        split_on(untracked_listing(paths), '\0') == paths.map_values(|p: Seq<char>| untracked_token(p)).push(
            Seq::empty(),
        ),
    decreases paths.len(),
{
    let f = |p: Seq<char>| untracked_token(p);
    if paths.len() == 0 {
        assert(paths.map_values(f) == Seq::<Seq<char>>::empty());
        assert(Seq::<Seq<char>>::empty().push(Seq::empty()) == seq![Seq::<char>::empty()]);
    } else {
        let d = paths.drop_last();
        let p = paths.last();
        assert(nul_free(d)) by {
            assert forall|i: int| 0 <= i < d.len() implies !(#[trigger] d[i]).contains('\0') by {
                assert(d[i] == paths[i]);
            }
        }
        lemma_split_untracked_listing(d);
        let s = untracked_listing(d);
        let tok = untracked_token(p);
        let t = tok + seq!['\0'];
        assert(untracked_listing(paths) == s + t);
        assert(s.len() == 0 || s.last() == '\0') by {
            if d.len() > 0 {
                assert(s == untracked_listing(d.drop_last()) + untracked_token(d.last()) + seq!['\0']);
            }
        }
        lemma_split_on_append(s, t, '\0');
        assert(paths[paths.len() - 1] == p);
        assert(!tok.contains('\0')) by {
            if tok.contains('\0') {
                let k = choose|k: int| 0 <= k < tok.len() && tok[k] == '\0';
                assert(p[k - 2] == '\0');
            }
        }
        lemma_split_on_no_sep(tok, '\0');
        assert(t.drop_last() == tok);
        assert(split_on(t, '\0') == seq![tok, Seq::empty()]);
        assert(split_on(s, '\0').drop_last() == d.map_values(f));
        assert(d.map_values(f) + seq![tok, Seq::empty()] == paths.map_values(f).push(Seq::empty()));
    }
}

/// With no rename/copy record from token `i` on, every token is a record.
proof fn lemma_records_plain(toks: Seq<Seq<char>>, i: int)
    requires
        0 <= i <= toks.len(),
        forall|j: int| i <= j < toks.len() ==> !kind_is(#[trigger] toks[j], '2'),
    ensures
        count_records_from(toks, i) == toks.skip(i),
        entry_records_from(toks, i) == toks.skip(i),
    decreases toks.len() - i,
{
    if i < toks.len() {
        lemma_records_plain(toks, i + 1);
        assert(seq![toks[i]] + toks.skip(i + 1) == toks.skip(i));
    } else {
        assert(toks.skip(i) == Seq::<Seq<char>>::empty());
    }
}

/// Counting over two runs of records adds up.
proof fn lemma_count_if_append(a: Seq<Seq<char>>, b: Seq<Seq<char>>, p: spec_fn(Seq<char>) -> bool)
    ensures
        count_if(a + b, p) == count_if(a, p) + count_if(b, p),
    decreases a.len(),
{
    if a.len() == 0 {
        assert(a + b == b);
    } else {
        assert((a + b).drop_first() == a.drop_first() + b);
        assert((a + b)[0] == a[0]);
        lemma_count_if_append(a.drop_first(), b, p);
    }
}

/// Records that all satisfy `p` are all counted; records none of which do,
/// none.
proof fn lemma_count_if_uniform(recs: Seq<Seq<char>>, p: spec_fn(Seq<char>) -> bool, all: bool)
    requires
        forall|i: int| 0 <= i < recs.len() ==> p(#[trigger] recs[i]) == all,
    ensures
        count_if(recs, p) == (if all {
            recs.len()
        } else {
            0
        }),
    decreases recs.len(),
{
    if recs.len() > 0 {
        assert(p(recs[0]) == all);
        assert forall|i: int| 0 <= i < recs.drop_first().len() implies p(
            #[trigger] recs.drop_first()[i],
        ) == all by {
            assert(recs.drop_first()[i] == recs[i + 1]);
        }
        lemma_count_if_uniform(recs.drop_first(), p, all);
    }
}

/// The tokens of an untracked listing, as records.
proof fn lemma_untracked_records(paths: Seq<Seq<char>>)
    requires
        nul_free(paths),
    ensures
        count_records_from(split_on(untracked_listing(paths), '\0'), 0) == paths.map_values(
            |p: Seq<char>| untracked_token(p),
        ).push(Seq::empty()),
        entry_records_from(split_on(untracked_listing(paths), '\0'), 0) == paths.map_values(
            |p: Seq<char>| untracked_token(p),
        ).push(Seq::empty()),
{
    lemma_split_untracked_listing(paths);
    let toks = paths.map_values(|p: Seq<char>| untracked_token(p)).push(Seq::empty());
    assert forall|j: int| 0 <= j < toks.len() implies !kind_is(#[trigger] toks[j], '2') by {
        if j < paths.len() {
            assert(toks[j] == untracked_token(paths[j]));
            assert(toks[j][0] == '?');
        }
    }
    lemma_records_plain(toks, 0);
    assert(toks.skip(0) == toks);
}

/// The record of each path is counted as untracked, and as nothing else.
proof fn lemma_token_kinds(p: Seq<char>)
    ensures
        untracked_rec(untracked_token(p)),
        !is_change(untracked_token(p)),
        !conflict_rec(untracked_token(p)),
        !untracked_rec(Seq::empty()),
        !is_change(Seq::empty()),
        !conflict_rec(Seq::empty()),
{
    assert(untracked_token(p)[0] == '?');
}

/// A tree whose only changes are untracked paths reads as exactly that many
/// untracked files, and nothing staged, unstaged or conflicted.
pub proof fn lemma_untracked_listing_counts(paths: Seq<Seq<char>>)
    requires
        nul_free(paths),
        paths.len() <= u32::MAX,
    ensures
        spec_porcelain_counts(untracked_listing(paths)) == (WorkingTree {
            staged: 0,
            unstaged: 0,
            untracked: paths.len() as u32,
            conflicts: 0,
        }),
{
    lemma_untracked_records(paths);
    let m = paths.map_values(|p: Seq<char>| untracked_token(p));
    let recs = m.push(Seq::empty());
    assert forall|i: int| 0 <= i < m.len() implies untracked_rec(#[trigger] m[i]) by {
        lemma_token_kinds(paths[i]);
    }
    lemma_count_if_uniform(m, |t: Seq<char>| untracked_rec(t), true);
    assert(recs == m + seq![Seq::<char>::empty()]);
    lemma_count_if_append(m, seq![Seq::<char>::empty()], |t: Seq<char>| untracked_rec(t));
    lemma_token_kinds(Seq::empty());
    lemma_count_if_uniform(seq![Seq::<char>::empty()], |t: Seq<char>| untracked_rec(t), false);
    assert forall|i: int| 0 <= i < recs.len() implies !staged_rec(#[trigger] recs[i])
        && !unstaged_rec(recs[i]) && !conflict_rec(recs[i]) by {
        if i < m.len() {
            lemma_token_kinds(paths[i]);
        }
    }
    lemma_count_if_uniform(recs, |t: Seq<char>| staged_rec(t), false);
    lemma_count_if_uniform(recs, |t: Seq<char>| unstaged_rec(t), false);
    lemma_count_if_uniform(recs, |t: Seq<char>| conflict_rec(t), false);
}

/// The entries of the records of untracked paths (with the trailing empty
/// piece): one untracked entry per path.
proof fn lemma_untracked_entries(paths: Seq<Seq<char>>)
    ensures
        entries_of(paths.map_values(|p: Seq<char>| untracked_token(p)).push(Seq::empty()))
            == paths.map_values(|p: Seq<char>| (p, EntryKind::Untracked)),
    decreases paths.len(),
{
    let f = |p: Seq<char>| untracked_token(p);
    let g = |p: Seq<char>| (p, EntryKind::Untracked);
    if paths.len() == 0 {
        let e = seq![Seq::<char>::empty()];
        assert(paths.map_values(f).push(Seq::empty()) == e);
        lemma_entries_cons(Seq::empty(), Seq::empty());
        assert(seq![Seq::<char>::empty()] + Seq::<Seq<char>>::empty() == e);
        assert(paths.map_values(g) == Seq::<(Seq<char>, EntryKind)>::empty());
    } else {
        let p = paths[0];
        let rest = paths.drop_first();
        lemma_untracked_entries(rest);
        let tail = rest.map_values(f).push(Seq::empty());
        let tok = untracked_token(p);
        assert(paths.map_values(f).push(Seq::empty()) == seq![tok] + tail);
        lemma_entries_cons(tok, tail);
        // `? <path>`: the first space is at 1, so the path is what follows it.
        assert(tok[0] == '?' && tok[1] == ' ');
        assert(tok.drop_first()[0] == ' ');
        assert(index_of(tok.drop_first(), ' ') == 0);
        assert(index_of(tok, ' ') == 1);
        assert(tok.skip(2) == p);
        assert(splitn_last(tok, 2) == splitn_last(tok.skip(2), 1));
        assert(record_entry(tok) == Some((p, EntryKind::Untracked)));
        assert(seq![(p, EntryKind::Untracked)] + rest.map_values(g) == paths.map_values(g));
    }
}

/// A tree whose only changes are untracked paths gives one `Untracked` entry
/// per path, with that path, in order.
pub proof fn lemma_untracked_listing_entries(paths: Seq<Seq<char>>)
    requires
        nul_free(paths),
    ensures
        spec_status_entries(untracked_listing(paths)) == paths.map_values(
            |p: Seq<char>| (p, EntryKind::Untracked),
        ),
{
    lemma_untracked_records(paths);
    lemma_untracked_entries(paths);
}


// --------------------------------------------- entries against the counts

/// The count walk reads well-formed output from token `i` on: every change
/// record names a change on at least one side, and every rename/copy record
/// is followed by its original-path token.
pub open spec fn walk_ok(toks: Seq<Seq<char>>, i: int) -> bool
    decreases toks.len() - i,
{
    if i < 0 || i >= toks.len() {
        true
    } else if kind_is(toks[i], '2') {
        change_has_entry(toks[i]) && i + 2 <= toks.len() && walk_ok(toks, i + 2)
    } else {
        (kind_is(toks[i], '1') ==> change_has_entry(toks[i])) && walk_ok(toks, i + 1)
    }
}

/// The entries of kind `k`.
pub open spec fn count_kind(es: Seq<(Seq<char>, EntryKind)>, k: EntryKind) -> nat
    decreases es.len(),
{
    if es.len() == 0 {
        0
    } else {
        (if es[0].1 == k {
            1nat
        } else {
            0nat
        }) + count_kind(es.drop_first(), k)
    }
}

/// On well-formed output both parsers read the same records.
proof fn lemma_walks_agree(toks: Seq<Seq<char>>, i: int)
    requires
        walk_ok(toks, i),
    ensures
        count_records_from(toks, i) == entry_records_from(toks, i),
    decreases toks.len() - i,
{
    if 0 <= i < toks.len() {
        if kind_is(toks[i], '2') {
            lemma_walks_agree(toks, i + 2);
        } else {
            lemma_walks_agree(toks, i + 1);
        }
    }
}

/// A count of records is at most their number.
proof fn lemma_count_if_bounded(recs: Seq<Seq<char>>, p: spec_fn(Seq<char>) -> bool)
    ensures
        count_if(recs, p) <= recs.len(),
    decreases recs.len(),
{
    if recs.len() > 0 {
        lemma_count_if_bounded(recs.drop_first(), p);
    }
}

/// Entries counted by kind against the records counted by predicate.
proof fn lemma_kind_counts(recs: Seq<Seq<char>>)
    ensures
        count_kind(entries_of(recs), EntryKind::Untracked) == count_if(recs, |t: Seq<char>| untracked_rec(t)),
        count_kind(entries_of(recs), EntryKind::Conflict) == count_if(recs, |t: Seq<char>| conflict_rec(t)),
        count_kind(entries_of(recs), EntryKind::Modified) == count_if(recs, |t: Seq<char>| unstaged_rec(t)),
        count_kind(entries_of(recs), EntryKind::StagedOnly) <= count_if(recs, |t: Seq<char>| staged_rec(t)),
    decreases recs.len(),
{
    if recs.len() > 0 {
        let t = recs[0];
        let rest = recs.drop_first();
        lemma_kind_counts(rest);
        assert(recs == seq![t] + rest);
        lemma_entries_cons(t, rest);
        let er = entries_of(rest);
        match record_entry(t) {
            Some(e) => {
                assert((seq![e] + er).drop_first() == er);
                assert((seq![e] + er)[0] == e);
            },
            None => {},
        }
        if is_change(t) && y_of(t) != '.' {
            assert(second_field(t) is Some);
        }
        if is_change(t) && x_of(t) != '.' {
            assert(second_field(t) is Some);
        }
    }
}

/// On well-formed output the per-path entries refine the aggregate counts of
/// the same token walk: as many untracked entries as untracked files, as many
/// conflict entries as conflicts, as many modified entries as unstaged
/// changes, and no more staged-only entries than staged changes.
pub proof fn lemma_entries_refine_counts(s: Seq<char>)
    requires
        walk_ok(split_on(s, '\0'), 0),
        count_records_from(split_on(s, '\0'), 0).len() < u32::MAX,
    ensures
        count_kind(spec_status_entries(s), EntryKind::Untracked) == spec_porcelain_counts(s).untracked,
        count_kind(spec_status_entries(s), EntryKind::Conflict) == spec_porcelain_counts(s).conflicts,
        count_kind(spec_status_entries(s), EntryKind::Modified) == spec_porcelain_counts(s).unstaged,
        count_kind(spec_status_entries(s), EntryKind::StagedOnly) <= spec_porcelain_counts(s).staged,
{
    let toks = split_on(s, '\0');
    let recs = count_records_from(toks, 0);
    lemma_walks_agree(toks, 0);
    lemma_kind_counts(recs);
    lemma_count_if_bounded(recs, |t: Seq<char>| staged_rec(t));
    lemma_count_if_bounded(recs, |t: Seq<char>| unstaged_rec(t));
    lemma_count_if_bounded(recs, |t: Seq<char>| untracked_rec(t));
    lemma_count_if_bounded(recs, |t: Seq<char>| conflict_rec(t));
}

} // verus!
