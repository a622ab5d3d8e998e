//! Joining a repo's two presences — local working copy and bare "home" on the
//! server — into a lifecycle.
use vstd::prelude::*;
use crate::text::{
    chars_of, char_is_ws, contains_string, lemma_seq_lt_transitive, lemma_seq_lt_trichotomy,
    seq_lt, str_lt, string_of, trim_end_ws, trim_start_ws, views,
};

verus! {

/// Which sides of a repo exist.
#[derive(Debug, Clone, Copy, PartialEq, Eq, Structural)]
pub enum Lifecycle {
    /// Working copy here, no bare home yet — needs `create`.
    LocalOnly,
    /// Bare home on the server, never cloned here — needs `clone`.
    HomeOnly,
    /// Both present — compare per-branch drift with `sync`.
    Linked,
}

impl Lifecycle {
    /// The status-output label of each lifecycle.
    pub open spec fn spec_label(self) -> Seq<char> {
        match self {
            Lifecycle::LocalOnly => "local-only"@,
            Lifecycle::HomeOnly => "home-only"@,
            Lifecycle::Linked => "linked"@,
        }
    }

    /// Short label for status output.
    pub fn label(&self) -> (s: &'static str)
        ensures
            s@ == self.spec_label(),
    {
        match self {
            Lifecycle::LocalOnly => "local-only",
            Lifecycle::HomeOnly => "home-only",
            Lifecycle::Linked => "linked",
        }
    }
}

/// A local working copy as the join sees it: its directory name and the home
/// name recovered from its `data` remote URL (`None` when it has no home remote).
#[derive(Debug, Clone, PartialEq, Eq)]
pub struct LocalRepo {
    pub dir_name: String,
    pub home_name: Option<String>,
}

/// One repo's identity and which sides exist.
#[derive(Debug, Clone, PartialEq, Eq)]
pub struct RepoPresence {
    /// Stable identity — the bare-home name (`<root>/<home_name>.git`).
    pub home_name: String,
    /// Local working-copy directory name, when a local copy exists.
    pub local_dir: Option<String>,
    pub lifecycle: Lifecycle,
}

/// `s` without its trailing `/` characters.
pub open spec fn trim_end_slash(s: Seq<char>) -> Seq<char>
    decreases s.len(),
{
    if s.len() > 0 && s.last() == '/' {
        trim_end_slash(s.drop_last())
    } else {
        s
    }
}

/// A path separator in a remote URL: `/`, or `:` of the scp-like `host:path`.
pub open spec fn is_url_sep(c: char) -> bool {
    c == '/' || c == ':'
}

/// The part of `s` after its last separator (all of `s` when it has none).
pub open spec fn last_segment(s: Seq<char>) -> Seq<char>
    decreases s.len(),
{
    if s.len() == 0 {
        s
    } else if is_url_sep(s.last()) {
        Seq::empty()
    } else {
        last_segment(s.drop_last()).push(s.last())
    }
}

/// `s` without a trailing `.git`.
pub open spec fn strip_git(s: Seq<char>) -> Seq<char> {
    if s.len() >= 4 && s.subrange(s.len() - 4, s.len() as int) == seq!['.', 'g', 'i', 't'] {
        s.subrange(0, s.len() - 4)
    } else {
        s
    }
}

/// The home name of a remote URL: the last path segment of the URL (trimmed of
/// whitespace and trailing slashes) without `.git`; none when that is empty.
pub open spec fn spec_home_name(url: Seq<char>) -> Option<Seq<char>> {
    let name = strip_git(last_segment(trim_end_slash(trim_end_ws(trim_start_ws(url)))));
    if name.len() == 0 {
        None
    } else {
        Some(name)
    }
}

/// Derive a home name from a remote URL: the final path segment without `.git`.
/// `ssh://tenx-lan/data/git/omarchy-setup.git` → `omarchy-setup`. Handles a
/// trailing slash and scp-like `host:path` forms; `None` if nothing is left.
pub fn home_name_from_url(url: &str) -> (r: Option<String>)
    ensures
        match r {
            Some(s) => spec_home_name(url@) == Some(s@),
            None => spec_home_name(url@) is None,
        },
{
    let v = chars_of(url);
    let n = v.len();
    let ghost s = v@;
    // leading whitespace
    let mut lo: usize = 0;
    assert(s.subrange(0, n as int) == s);
    while lo < n && char_is_ws(v[lo])
        invariant
            lo <= n == s.len(),
            v@ == s,
            trim_start_ws(s) == trim_start_ws(s.subrange(lo as int, n as int)),
        decreases n - lo,
    {
        assert(s.subrange(lo as int, n as int).drop_first() == s.subrange(lo + 1, n as int));
        lo = lo + 1;
    }
    assert(trim_start_ws(s) == s.subrange(lo as int, n as int));
    // trailing whitespace
    let mut hi: usize = n;
    while hi > lo && char_is_ws(v[hi - 1])
        invariant
            lo <= hi <= n == s.len(),
            v@ == s,
            trim_end_ws(s.subrange(lo as int, n as int)) == trim_end_ws(
                s.subrange(lo as int, hi as int),
            ),
        decreases hi,
    {
        assert(s.subrange(lo as int, hi as int).drop_last() == s.subrange(lo as int, hi - 1));
        hi = hi - 1;
    }
    assert(trim_end_ws(s.subrange(lo as int, hi as int)) == s.subrange(lo as int, hi as int));
    // trailing slashes
    let mut hi2: usize = hi;
    while hi2 > lo && v[hi2 - 1] == '/'
        invariant
            lo <= hi2 <= hi,
            v@ == s,
            hi <= n == s.len(),
            trim_end_slash(s.subrange(lo as int, hi as int)) == trim_end_slash(
                s.subrange(lo as int, hi2 as int),
            ),
        decreases hi2,
    {
        assert(s.subrange(lo as int, hi2 as int).drop_last() == s.subrange(lo as int, hi2 - 1));
        hi2 = hi2 - 1;
    }
    let ghost t = s.subrange(lo as int, hi2 as int);
    assert(trim_end_slash(s.subrange(lo as int, hi as int)) == t);
    // last segment
    let mut start: usize = hi2;
    assert(s.subrange(start as int, hi2 as int) == Seq::<char>::empty());
    assert(last_segment(t) == last_segment(s.subrange(lo as int, start as int)) + s.subrange(
        start as int,
        hi2 as int,
    ));
    while start > lo && !(v[start - 1] == '/' || v[start - 1] == ':')
        invariant
            lo <= start <= hi2 <= n == s.len(),
            v@ == s,
            t == s.subrange(lo as int, hi2 as int),
            last_segment(t) == last_segment(s.subrange(lo as int, start as int)) + s.subrange(
                start as int,
                hi2 as int,
            ),
        decreases start,
    {
        let ghost p = s.subrange(lo as int, start as int);
        assert(p.drop_last() == s.subrange(lo as int, start - 1));
        assert(p.last() == s[start - 1]);
        assert(s.subrange(start - 1, hi2 as int) == seq![s[start - 1]] + s.subrange(
            start as int,
            hi2 as int,
        ));
        assert(last_segment(p) == last_segment(p.drop_last()).push(p.last()));
        assert(last_segment(p.drop_last()).push(p.last()) + s.subrange(start as int, hi2 as int)
            == last_segment(p.drop_last()) + s.subrange(start - 1, hi2 as int));
        start = start - 1;
    }
    let ghost seg = s.subrange(start as int, hi2 as int);
    assert(last_segment(s.subrange(lo as int, start as int)) == Seq::<char>::empty()) by {
        let p = s.subrange(lo as int, start as int);
        if start > lo {
            assert(p.last() == s[start - 1]);
        }
    }
    assert(last_segment(t) == seg);
    // `.git` suffix
    let mut end = hi2;
    if hi2 - start >= 4 && v[hi2 - 4] == '.' && v[hi2 - 3] == 'g' && v[hi2 - 2] == 'i' && v[hi2
        - 1] == 't' {
        end = hi2 - 4;
        assert(seg.subrange(seg.len() - 4, seg.len() as int) == seq!['.', 'g', 'i', 't']);
        assert(seg.subrange(0, seg.len() - 4) == s.subrange(start as int, end as int));
    } else {
        assert(!(seg.len() >= 4 && seg.subrange(seg.len() - 4, seg.len() as int) == seq![
            '.',
            'g',
            'i',
            't',
        ])) by {
            if seg.len() >= 4 && seg.subrange(seg.len() - 4, seg.len() as int) == seq![
                '.',
                'g',
                'i',
                't',
            ] {
                assert(seg.subrange(seg.len() - 4, seg.len() as int)[0] == v@[hi2 - 4]);
                assert(seg.subrange(seg.len() - 4, seg.len() as int)[1] == v@[hi2 - 3]);
                assert(seg.subrange(seg.len() - 4, seg.len() as int)[2] == v@[hi2 - 2]);
                assert(seg.subrange(seg.len() - 4, seg.len() as int)[3] == v@[hi2 - 1]);
            }
        }
    }
    assert(strip_git(seg) == s.subrange(start as int, end as int));
    if end == start {
        None
    } else {
        Some(string_of(&v, start, end))
    }
}

/// The identity a local repo joins under: the home name from its remote, or
/// its directory name when it has no home yet.
pub open spec fn effective_name(l: LocalRepo) -> Seq<char> {
    match l.home_name {
        Some(h) => h@,
        None => l.dir_name@,
    }
}

/// The identities of the locals, in order.
pub open spec fn local_keys(locals: Seq<LocalRepo>) -> Seq<Seq<char>> {
    locals.map_values(|l: LocalRepo| effective_name(l))
}

/// The index of the last local joining under `k`, or -1 when none does.
pub open spec fn last_local(locals: Seq<LocalRepo>, k: Seq<char>) -> int
    decreases locals.len(),
{
    if locals.len() == 0 {
        -1
    } else if effective_name(locals.last()) == k {
        locals.len() - 1
    } else {
        last_local(locals.drop_last(), k)
    }
}

/// The local directory and lifecycle the join gives identity `k`: the last
/// local joining under `k` (linked when `k` is a home, else local-only), or
/// home-only when no local joins under it.
pub open spec fn expected_presence(locals: Seq<LocalRepo>, homes: Seq<Seq<char>>, k: Seq<char>) -> (
    Option<Seq<char>>,
    Lifecycle,
) {
    let j = last_local(locals, k);
    if j >= 0 {
        (Some(locals[j].dir_name@), if homes.contains(k) {
            Lifecycle::Linked
        } else {
            Lifecycle::LocalOnly
        })
    } else {
        (None, Lifecycle::HomeOnly)
    }
}

/// The local directory and lifecycle of a presence entry.
pub open spec fn presence_state(p: RepoPresence) -> (Option<Seq<char>>, Lifecycle) {
    (
        match p.local_dir {
            Some(d) => Some(d@),
            None => None,
        },
        p.lifecycle,
    )
}

/// The entries are in strictly ascending order of home name.
pub open spec fn sorted_by_home(out: Seq<RepoPresence>) -> bool {
    forall|i: int, j: int|
        0 <= i < j < out.len() ==> seq_lt(#[trigger] out[i].home_name@, #[trigger] out[j].home_name@)
}

/// The last local joining under `k` within the first `t + 1` locals.
proof fn lemma_last_local_step(locals: Seq<LocalRepo>, t: int, k: Seq<char>)
    requires
        0 <= t < locals.len(),
    ensures
        last_local(locals.take(t + 1), k) == if effective_name(locals[t]) == k {
            t
        } else {
            last_local(locals.take(t), k)
        },
{
    assert(locals.take(t + 1).drop_last() == locals.take(t));
}

/// A local joining under `k` exists exactly when `last_local` finds one, and
/// it is a valid index joining under `k`.
proof fn lemma_last_local_found(locals: Seq<LocalRepo>, k: Seq<char>)
    ensures
        last_local(locals, k) >= 0 <==> local_keys(locals).contains(k),
        last_local(locals, k) >= 0 ==> last_local(locals, k) < locals.len() && effective_name(
            locals[last_local(locals, k)],
        ) == k,
        last_local(locals, k) >= -1,
    decreases locals.len(),
{
    if locals.len() > 0 {
        let p = locals.drop_last();
        lemma_last_local_found(p, k);
        if effective_name(locals.last()) == k {
            assert(local_keys(locals)[locals.len() - 1] == k);
        } else {
            if local_keys(p).contains(k) {
                let j = choose|j: int| 0 <= j < local_keys(p).len() && local_keys(p)[j] == k;
                assert(local_keys(locals)[j] == k);
            }
            if local_keys(locals).contains(k) {
                let j = choose|j: int| 0 <= j < local_keys(locals).len() && local_keys(locals)[j] == k;
                assert(j != locals.len() - 1);
                assert(local_keys(p)[j] == k);
            }
        }
    }
}

/// Where `key` belongs in the sorted entries: `(index, found)`.
fn find_home(out: &Vec<RepoPresence>, key: &String) -> (r: (usize, bool))
    requires
        sorted_by_home(out@),
    ensures
        r.0 <= out@.len(),
        forall|i: int| 0 <= i < r.0 ==> seq_lt(#[trigger] out@[i].home_name@, key@),
        r.1 ==> r.0 < out@.len() && out@[r.0 as int].home_name@ == key@,
        !r.1 ==> forall|i: int|
            r.0 <= i < out@.len() ==> seq_lt(key@, #[trigger] out@[i].home_name@),
{
    let mut i: usize = 0;
    while i < out.len() && str_lt(out[i].home_name.as_str(), key.as_str())
        invariant
            i <= out@.len(),
            forall|j: int| 0 <= j < i ==> seq_lt(#[trigger] out@[j].home_name@, key@),
        decreases out@.len() - i,
    {
        i = i + 1;
    }
    if i < out.len() && out[i].home_name == *key {
        (i, true)
    } else {
        proof {
            if i < out@.len() {
                lemma_seq_lt_trichotomy(out@[i as int].home_name@, key@);
                assert forall|j: int| i <= j < out@.len() implies seq_lt(
                    key@,
                    #[trigger] out@[j].home_name@,
                ) by {
                    if j > i {
                        lemma_seq_lt_transitive(key@, out@[i as int].home_name@, out@[j].home_name@);
                    }
                }
            }
        }
        (i, false)
    }
}

/// Inserting at the position `find_home` reports keeps the entries sorted.
proof fn lemma_insert_sorted(out: Seq<RepoPresence>, idx: int, p: RepoPresence)
    requires
        sorted_by_home(out),
        0 <= idx <= out.len(),
        forall|i: int| 0 <= i < idx ==> seq_lt(#[trigger] out[i].home_name@, p.home_name@),
        forall|i: int| idx <= i < out.len() ==> seq_lt(p.home_name@, #[trigger] out[i].home_name@),
    ensures
        sorted_by_home(out.insert(idx, p)),
{
    let o = out.insert(idx, p);
    assert forall|i: int, j: int| 0 <= i < j < o.len() implies seq_lt(
        #[trigger] o[i].home_name@,
        #[trigger] o[j].home_name@,
    ) by {
        if j < idx {
            assert(o[i] == out[i] && o[j] == out[j]);
        } else if j == idx {
            assert(o[i] == out[i]);
        } else if i < idx {
            assert(o[i] == out[i] && o[j] == out[j - 1]);
            lemma_seq_lt_transitive(out[i].home_name@, p.home_name@, out[j - 1].home_name@);
        } else if i == idx {
            assert(o[j] == out[j - 1]);
        } else {
            assert(o[i] == out[i - 1] && o[j] == out[j - 1]);
        }
    }
}

/// The identity `l` joins under, as a string.
fn effective_string(l: &LocalRepo) -> (s: String)
    ensures
        s@ == effective_name(*l),
{
    match &l.home_name {
        Some(h) => h.clone(),
        None => l.dir_name.clone(),
    }
}

/// Some entry has home name `k`.
pub open spec fn has_home(out: Seq<RepoPresence>, k: Seq<char>) -> bool {
    exists|i: int| 0 <= i < out.len() && #[trigger] out[i].home_name@ == k
}

/// After replacing or inserting the entry for `key` at `idx`, every other
/// entry is an old entry with a different home name.
proof fn lemma_other_entry(
    old_out: Seq<RepoPresence>,
    out: Seq<RepoPresence>,
    idx: int,
    found: bool,
    key: Seq<char>,
    i: int,
) -> (o: int)
    requires
        sorted_by_home(old_out),
        0 <= idx <= old_out.len(),
        forall|j: int| 0 <= j < idx ==> seq_lt(#[trigger] old_out[j].home_name@, key),
        found ==> idx < old_out.len() && old_out[idx].home_name@ == key,
        !found ==> forall|j: int|
            idx <= j < old_out.len() ==> seq_lt(key, #[trigger] old_out[j].home_name@),
        found ==> out.len() == old_out.len() && forall|j: int|
            0 <= j < out.len() && j != idx ==> out[j] == old_out[j],
        !found ==> out.len() == old_out.len() + 1 && (forall|j: int|
            0 <= j < idx ==> out[j] == old_out[j]) && (forall|j: int|
            idx < j < out.len() ==> out[j] == old_out[j - 1]),
        0 <= i < out.len(),
        i != idx,
    ensures
        0 <= o < old_out.len(),
        out[i] == old_out[o],
        old_out[o].home_name@ != key,
{
    let o = if found || i < idx {
        i
    } else {
        i - 1
    };
    let k = old_out[o].home_name@;
    if o < idx {
        assert(seq_lt(k, key));
        lemma_seq_lt_trichotomy(k, key);
    } else if !found {
        assert(seq_lt(key, k));
        lemma_seq_lt_trichotomy(key, k);
    } else if o > idx {
        assert(seq_lt(old_out[idx].home_name@, k));
        lemma_seq_lt_trichotomy(key, k);
    }
    o
}

/// `out` is the join of the local working copies with the homes: sorted by
/// home name, one entry per name that either side holds and no other, each
/// with the state its name calls for.
pub open spec fn is_join(out: Seq<RepoPresence>, locals: Seq<LocalRepo>, homes: Seq<Seq<char>>) -> bool {
    &&& sorted_by_home(out)
    &&& forall|i: int|
        0 <= i < out.len() ==> (local_keys(locals).contains(#[trigger] out[i].home_name@)
            || homes.contains(out[i].home_name@))
    &&& forall|i: int|
        0 <= i < out.len() ==> presence_state(#[trigger] out[i]) == expected_presence(
            locals,
            homes,
            out[i].home_name@,
        )
    &&& forall|k: Seq<char>|
        local_keys(locals).contains(k) || homes.contains(k) ==> #[trigger] has_home(out, k)
    &&& forall|i: int, j: int|
        0 <= i < j < out.len() ==> #[trigger] out[i].home_name@ != #[trigger] out[j].home_name@
}

/// Join discovered local repos with the server's home names into a sorted,
/// de-duplicated lifecycle view.
///
/// A local repo's *effective* home name is the one from its remote, or its
/// directory name when it has no home yet. A match against `homes` is `Linked`;
/// an unmatched local is `LocalOnly`; a home with no local is `HomeOnly`.
/// Output is keyed and sorted by home name, so each home appears exactly once
/// (of several locals under one name, the last one wins).
pub fn join_presences(locals: &[LocalRepo], homes: &[String]) -> (out: Vec<RepoPresence>)
    ensures
        is_join(out@, locals@, views(homes@)),
        sorted_by_home(out@),
        forall|i: int|
            0 <= i < out@.len() ==> (local_keys(locals@).contains(#[trigger] out@[i].home_name@)
                || views(homes@).contains(out@[i].home_name@)),
        forall|i: int|
            0 <= i < out@.len() ==> presence_state(#[trigger] out@[i]) == expected_presence(
                locals@,
                views(homes@),
                out@[i].home_name@,
            ),
        forall|k: Seq<char>|
            local_keys(locals@).contains(k) || views(homes@).contains(k) ==> #[trigger] has_home(
                out@,
                k,
            ),
        forall|i: int, j: int|
            0 <= i < j < out@.len() ==> #[trigger] out@[i].home_name@ != #[trigger] out@[j].home_name@,
        forall|i: int|
            0 <= i < out@.len() ==> match #[trigger] out@[i].lifecycle {
                Lifecycle::Linked => out@[i].local_dir is Some && views(homes@).contains(
                    out@[i].home_name@,
                ),
                Lifecycle::LocalOnly => out@[i].local_dir is Some && !views(homes@).contains(
                    out@[i].home_name@,
                ),
                Lifecycle::HomeOnly => out@[i].local_dir is None && views(homes@).contains(
                    out@[i].home_name@,
                ),
            },
{
    let mut out: Vec<RepoPresence> = Vec::new();
    let ghost hv = views(homes@);
    let nl = locals.len();
    for t in 0..nl
        invariant
            nl == locals@.len(),
            hv == views(homes@),
            sorted_by_home(out@),
            forall|i: int|
                0 <= i < out@.len() ==> local_keys(locals@.take(t as int)).contains(
                    #[trigger] out@[i].home_name@,
                ),
            forall|i: int|
                0 <= i < out@.len() ==> presence_state(#[trigger] out@[i]) == expected_presence(
                    locals@.take(t as int),
                    hv,
                    out@[i].home_name@,
                ),
            forall|j: int| 0 <= j < t ==> #[trigger] has_home(out@, local_keys(locals@)[j]),
    {
        let l = &locals[t];
        let key = effective_string(l);
        let linked = contains_string(homes, &key);
        let lifecycle = if linked {
            Lifecycle::Linked
        } else {
            Lifecycle::LocalOnly
        };
        let entry = RepoPresence {
            home_name: key.clone(),
            local_dir: Some(l.dir_name.clone()),
            lifecycle,
        };
        let (idx, found) = find_home(&out, &key);
        let ghost old_out = out@;
        let ghost pre = locals@.take(t as int);
        let ghost post = locals@.take(t + 1);
        proof {
            assert forall|k: Seq<char>| true implies last_local(post, k) == if effective_name(
                locals@[t as int],
            ) == k {
                t as int
            } else {
                last_local(pre, k)
            } by {
                lemma_last_local_step(locals@, t as int, k);
            }
            assert(post[t as int] == locals@[t as int]);
            assert forall|k: Seq<char>| local_keys(pre).contains(k) implies local_keys(
                post,
            ).contains(k) by {
                let j = choose|j: int| 0 <= j < local_keys(pre).len() && local_keys(pre)[j] == k;
                assert(local_keys(post)[j] == k);
            }
            assert(local_keys(post)[t as int] == key@);
            assert(local_keys(locals@)[t as int] == key@);
        }
        if found {
            out.set(idx, entry);
        } else {
            proof {
                lemma_insert_sorted(out@, idx as int, entry);
            }
            out.insert(idx, entry);
        }
        proof {
            assert(out@[idx as int] == entry);
            assert forall|i: int| 0 <= i < out@.len() implies local_keys(post).contains(
                #[trigger] out@[i].home_name@,
            ) && presence_state(out@[i]) == expected_presence(post, hv, out@[i].home_name@) by {
                if i == idx {
                    assert(last_local(post, key@) == t);
                    assert(local_keys(post)[t as int] == key@);
                    assert(presence_state(out@[i]) == expected_presence(post, hv, key@));
                } else {
                    let o = lemma_other_entry(old_out, out@, idx as int, found, key@, i);
                    let k = old_out[o].home_name@;
                    assert(last_local(post, k) == last_local(pre, k));
                    assert(local_keys(pre).contains(k));
                    lemma_last_local_found(pre, k);
                    if last_local(pre, k) >= 0 {
                        assert(post[last_local(pre, k)] == pre[last_local(pre, k)]);
                    }
                    assert(presence_state(out@[i]) == expected_presence(post, hv, k));
                }
            }
            assert forall|j: int| 0 <= j < t + 1 implies #[trigger] has_home(
                out@,
                local_keys(locals@)[j],
            ) by {
                if j == t {
                    assert(out@[idx as int].home_name@ == key@);
                } else {
                    let k = local_keys(locals@)[j];
                    assert(has_home(old_out, k));
                    let i0 = choose|i: int| 0 <= i < old_out.len() && #[trigger] old_out[i].home_name@ == k;
                    if found {
                        if i0 == idx {
                            assert(out@[i0].home_name@ == key@);
                        } else {
                            assert(out@[i0] == old_out[i0]);
                        }
                    } else if i0 < idx {
                        assert(out@[i0] == old_out[i0]);
                    } else {
                        assert(out@[i0 + 1] == old_out[i0]);
                    }
                }
            }
        }
    }
    proof {
        assert(locals@.take(nl as int) == locals@);
        assert forall|k: Seq<char>| local_keys(locals@).contains(k) implies #[trigger] has_home(
            out@,
            k,
        ) by {
            let j = choose|j: int| 0 <= j < local_keys(locals@).len() && local_keys(locals@)[j] == k;
            assert(has_home(out@, local_keys(locals@)[j]));
        }
    }
    let nh = homes.len();
    for u in 0..nh
        invariant
            nh == homes@.len(),
            hv == views(homes@),
            sorted_by_home(out@),
            forall|i: int|
                0 <= i < out@.len() ==> (local_keys(locals@).contains(#[trigger] out@[i].home_name@)
                    || hv.take(u as int).contains(out@[i].home_name@)),
            forall|i: int|
                0 <= i < out@.len() ==> presence_state(#[trigger] out@[i]) == expected_presence(
                    locals@,
                    hv,
                    out@[i].home_name@,
                ),
            forall|k: Seq<char>|
                local_keys(locals@).contains(k) || hv.take(u as int).contains(k) ==> #[trigger] has_home(
                    out@,
                    k,
                ),
    {
        let h = &homes[u];
        let (idx, found) = find_home(&out, h);
        let ghost old_out = out@;
        let ghost ht = hv.take(u as int);
        let ghost ht1 = hv.take(u + 1);
        proof {
            assert(hv[u as int] == h@);
            assert(ht1 == ht.push(h@));
        }
        if !found {
            let entry = RepoPresence { home_name: h.clone(), local_dir: None, lifecycle: Lifecycle::HomeOnly };
            proof {
                lemma_insert_sorted(out@, idx as int, entry);
                if local_keys(locals@).contains(h@) {
                    assert(has_home(old_out, h@));
                    let i0 = choose|i: int| 0 <= i < old_out.len() && #[trigger] old_out[i].home_name@ == h@;
                    if i0 < idx {
                        assert(seq_lt(old_out[i0].home_name@, h@));
                        lemma_seq_lt_trichotomy(h@, h@);
                    } else {
                        assert(seq_lt(h@, old_out[i0].home_name@));
                        lemma_seq_lt_trichotomy(h@, h@);
                    }
                }
                lemma_last_local_found(locals@, h@);
                assert(hv.contains(h@)) by {
                    assert(hv[u as int] == h@);
                }
            }
            out.insert(idx, entry);
        }
        proof {
            assert forall|i: int| 0 <= i < out@.len() implies (local_keys(locals@).contains(
                #[trigger] out@[i].home_name@,
            ) || ht1.contains(out@[i].home_name@)) && presence_state(out@[i])
                == expected_presence(locals@, hv, out@[i].home_name@) by {
                if !found && i == idx {
                    assert(ht1[u as int] == h@);
                } else {
                    let o = if found || i < idx {
                        i
                    } else {
                        i - 1
                    };
                    assert(out@[i] == old_out[o]);
                    if ht.contains(old_out[o].home_name@) {
                        let m = choose|m: int| 0 <= m < ht.len() && ht[m] == old_out[o].home_name@;
                        assert(ht1[m] == old_out[o].home_name@);
                    }
                }
            }
            assert forall|k: Seq<char>|
                local_keys(locals@).contains(k) || ht1.contains(k) implies #[trigger] has_home(
                out@,
                k,
            ) by {
                if k == h@ {
                    if found {
                        assert(out@[idx as int].home_name@ == k);
                    } else {
                        assert(out@[idx as int].home_name@ == k);
                    }
                } else {
                    if ht1.contains(k) && !local_keys(locals@).contains(k) {
                        let m = choose|m: int| 0 <= m < ht1.len() && ht1[m] == k;
                        assert(ht[m] == k);
                    }
                    assert(has_home(old_out, k));
                    let i0 = choose|i: int| 0 <= i < old_out.len() && #[trigger] old_out[i].home_name@ == k;
                    if found || i0 < idx {
                        assert(out@[i0] == old_out[i0]);
                    } else {
                        assert(out@[i0 + 1] == old_out[i0]);
                    }
                }
            }
        }
    }
    proof {
        assert(hv.take(nh as int) == hv);
        assert forall|i: int, j: int| 0 <= i < j < out@.len() implies #[trigger] out@[i].home_name@
            != #[trigger] out@[j].home_name@ by {
            lemma_seq_lt_trichotomy(out@[i].home_name@, out@[j].home_name@);
        }
        assert forall|i: int| 0 <= i < out@.len() implies match #[trigger] out@[i].lifecycle {
            Lifecycle::Linked => out@[i].local_dir is Some && hv.contains(out@[i].home_name@),
            Lifecycle::LocalOnly => out@[i].local_dir is Some && !hv.contains(out@[i].home_name@),
            Lifecycle::HomeOnly => out@[i].local_dir is None && hv.contains(out@[i].home_name@),
        } by {
            lemma_last_local_found(locals@, out@[i].home_name@);
        }
    }
    out
}


/// With no homes to join (the server unreachable, unconfigured or not asked),
/// the join is the local working copies alone: one entry per local identity,
/// each local-only with its working copy's directory.
pub proof fn lemma_join_without_homes(out: Seq<RepoPresence>, locals: Seq<LocalRepo>)
    requires
        is_join(out, locals, Seq::empty()),
    ensures
        forall|i: int|
            0 <= i < out.len() ==> (#[trigger] out[i]).lifecycle == Lifecycle::LocalOnly
                && out[i].local_dir.is_some() && local_keys(locals).contains(out[i].home_name@),
        forall|k: Seq<char>| local_keys(locals).contains(k) ==> #[trigger] has_home(out, k),
{
    assert forall|i: int| 0 <= i < out.len() implies (#[trigger] out[i]).lifecycle == Lifecycle::LocalOnly
        && out[i].local_dir.is_some() && local_keys(locals).contains(out[i].home_name@) by {
        let k = out[i].home_name@;
        assert(!Seq::<Seq<char>>::empty().contains(k));
        assert(local_keys(locals).contains(k));
        lemma_last_local_found(locals, k);
        assert(presence_state(out[i]) == expected_presence(locals, Seq::empty(), k));
    }
}

} // verus!
