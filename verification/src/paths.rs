//! Paths as text: the components of a path, its last component, and the
//! component-wise prefix order that decides whether a path lies under a root.
use vstd::prelude::*;
use crate::git::opt_view;
use crate::text::{
    chars_of, lemma_seq_lt_transitive, lemma_seq_lt_trichotomy, lemma_split_on_nonempty, ranges_spell,
    seq_lt, split_on, split_ranges, str_eq, string_from, string_of, views,
};

verus! {

/// The last component of a path, as `Path::file_name` gives it: the last
/// `/`-separated piece that is neither empty nor `.`; none when there is no
/// such piece or it is `..`.
pub open spec fn spec_file_name(p: Seq<char>) -> Option<Seq<char>> {
    let ps = split_on(p, '/').filter_map(
        |x: Seq<char>|
            if x.len() == 0 || x == seq!['.'] {
                None
            } else {
                Some(x)
            },
    );
    if ps.len() == 0 || ps.last() == seq!['.', '.'] {
        None
    } else {
        Some(ps.last())
    }
}

/// The last component of a path (`Path::file_name`).
pub fn file_name(p: &str) -> (r: Option<String>)
    ensures
        opt_view(r) == spec_file_name(p@),
{
    let v = chars_of(p);
    let rs = split_ranges(&v, '/');
    let ghost pieces = split_on(v@, '/');
    let ghost f = |x: Seq<char>|
        if x.len() == 0 || x == seq!['.'] {
            None
        } else {
            Some(x)
        };
    let n = rs.len();
    let mut last: Option<(usize, usize)> = None;
    for k in 0..n
        invariant
            n == rs@.len() == pieces.len(),
            pieces == split_on(v@, '/'),
            ranges_spell(v@, rs@, pieces),
            f == (|x: Seq<char>|
                if x.len() == 0 || x == seq!['.'] {
                    None
                } else {
                    Some(x)
                }),
            match last {
                Some(r) => r.0 <= r.1 <= v@.len() && pieces.take(k as int).filter_map(f).len() > 0
                    && v@.subrange(r.0 as int, r.1 as int) == pieces.take(k as int).filter_map(
                    f,
                ).last(),
                None => pieces.take(k as int).filter_map(f).len() == 0,
            },
    {
        let (lo, hi) = rs[k];
        proof {
            pieces.lemma_filter_map_take_succ(f, k as int);
            assert(rs@[k as int].0 <= rs@[k as int].1);
            assert(v@.subrange(lo as int, hi as int) == pieces[k as int]);
        }
        let dot = hi - lo == 1 && v[lo] == '.';
        proof {
            if dot {
                assert(pieces[k as int] == seq!['.']);
            } else if hi > lo {
                assert(pieces[k as int] != seq!['.']) by {
                    if pieces[k as int] == seq!['.'] {
                        assert(pieces[k as int][0] == v@[lo as int]);
                    }
                }
            }
        }
        if hi > lo && !dot {
            last = Some((lo, hi));
        }
    }
    assert(pieces.take(n as int) == pieces);
    match last {
        None => None,
        Some((lo, hi)) => {
            let is_parent = hi - lo == 2 && v[lo] == '.' && v[lo + 1] == '.';
            proof {
                let s = v@.subrange(lo as int, hi as int);
                if is_parent {
                    assert(s == seq!['.', '.']);
                } else if s == seq!['.', '.'] {
                    assert(s[0] == v@[lo as int]);
                    assert(s[1] == v@[lo + 1]);
                }
            }
            if is_parent {
                None
            } else {
                Some(string_of(&v, lo, hi))
            }
        },
    }
}


/// The name a repo goes by in reports: its last path component, or the whole
/// path when it has none.
pub open spec fn spec_repo_name(p: Seq<char>) -> Seq<char> {
    match spec_file_name(p) {
        Some(n) => n,
        None => p,
    }
}

/// A repo's display name: its directory name, or the path itself.
pub fn repo_name(p: &str) -> (r: String)
    ensures
        r@ == spec_repo_name(p@),
{
    match file_name(p) {
        Some(n) => n,
        None => string_from(p),
    }
}

/// A piece that is a path component of its own: neither empty nor `.`.
pub open spec fn normal_piece(x: Seq<char>) -> Option<Seq<char>> {
    if x.len() == 0 || x == seq!['.'] {
        None
    } else {
        Some(x)
    }
}

/// The components of a path as `Path::components` yields them, each as text:
/// `/` for the root, `.` for a leading current-directory mark, then every
/// piece between separators that is neither empty nor `.`.
pub open spec fn components(p: Seq<char>) -> Seq<Seq<char>> {
    let pieces = split_on(p, '/');
    let normal = pieces.filter_map(|x: Seq<char>| normal_piece(x));
    if p.len() > 0 && p[0] == '/' {
        seq![seq!['/']] + normal
    } else if pieces[0] == seq!['.'] {
        seq![seq!['.']] + normal
    } else {
        normal
    }
}

/// The components of a path.
pub fn path_components(p: &str) -> (r: Vec<String>)
    ensures
        views(r@) == components(p@),
{
    let v = chars_of(p);
    let rs = split_ranges(&v, '/');
    let ghost pieces = split_on(v@, '/');
    let ghost f = |x: Seq<char>| normal_piece(x);
    proof {
        lemma_split_on_nonempty(v@, '/');
    }
    let n = rs.len();
    let mut r: Vec<String> = Vec::new();
    let (lo0, hi0) = rs[0];
    assert(rs@[0].0 <= rs@[0].1);
    let dot0 = hi0 - lo0 == 1 && v[lo0] == '.';
    proof {
        let s = v@.subrange(lo0 as int, hi0 as int);
        assert(s == pieces[0]);
        if dot0 {
            assert(pieces[0] == seq!['.']);
        } else if pieces[0] == seq!['.'] {
            assert(hi0 <= v@.len());
            assert(s.len() == 1);
            assert(s[0] == v@[lo0 as int]);
        }
    }
    let ghost lead: Seq<Seq<char>> = if p@.len() > 0 && p@[0] == '/' {
        seq![seq!['/']]
    } else if pieces[0] == seq!['.'] {
        seq![seq!['.']]
    } else {
        Seq::empty()
    };
    if v.len() > 0 && v[0] == '/' {
        crate::text::push_string(&mut r, string_from("/"));
        proof {
            reveal_strlit("/");
            assert("/"@ == seq!['/']);
            assert(views(r@).len() == 1);
            assert(views(r@)[0] == "/"@);
            assert(views(r@) == seq![seq!['/']]);
        }
    } else if dot0 {
        crate::text::push_string(&mut r, string_from("."));
        proof {
            reveal_strlit(".");
            assert("."@ == seq!['.']);
            assert(views(r@).len() == 1);
            assert(views(r@)[0] == "."@);
            assert(views(r@) == seq![seq!['.']]);
        }
    } else {
        assert(views(r@) == Seq::<Seq<char>>::empty());
    }
    assert(views(r@) == lead);
    assert(pieces.take(0).filter_map(f) == Seq::<Seq<char>>::empty());
    assert(lead + Seq::<Seq<char>>::empty() == lead);
    for k in 0..n
        invariant
            n == rs@.len() == pieces.len(),
            pieces == split_on(v@, '/'),
            ranges_spell(v@, rs@, pieces),
            f == (|x: Seq<char>| normal_piece(x)),
            views(r@) == lead + pieces.take(k as int).filter_map(f),
    {
        let (lo, hi) = rs[k];
        proof {
            pieces.lemma_filter_map_take_succ(f, k as int);
            assert(rs@[k as int].0 <= rs@[k as int].1);
            assert(v@.subrange(lo as int, hi as int) == pieces[k as int]);
        }
        let dot = hi - lo == 1 && v[lo] == '.';
        proof {
            if dot {
                assert(pieces[k as int] == seq!['.']);
            } else if hi > lo {
                assert(pieces[k as int] != seq!['.']) by {
                    let s = v@.subrange(lo as int, hi as int);
                    assert(hi <= v@.len());
                    if s == seq!['.'] {
                        assert(s.len() == 1);
                        assert(s[0] == v@[lo as int]);
                    }
                }
            }
        }
        let ghost before = views(r@);
        if hi > lo && !dot {
            let s = string_of(&v, lo, hi);
            let ghost sv = s@;
            crate::text::push_string(&mut r, s);
            assert(before.push(sv) == before + seq![sv]);
            assert(lead + pieces.take(k as int).filter_map(f) + seq![sv] == lead + (pieces.take(
                k as int,
            ).filter_map(f) + seq![sv]));
        } else {
            assert(before + Seq::<Seq<char>>::empty() == before);
        }
    }
    assert(pieces.take(n as int) == pieces);
    r
}

/// `base`'s components begin `p`'s (`Path::starts_with`).
pub open spec fn path_starts_with(p: Seq<char>, base: Seq<char>) -> bool {
    components(base).len() <= components(p).len() && components(p).take(
        components(base).len() as int,
    ) == components(base)
}

/// `p` lies strictly inside one of `roots`: under it and not the root itself.
pub open spec fn under_some_root(p: Seq<char>, roots: Seq<Seq<char>>) -> bool {
    exists|i: int|
        0 <= i < roots.len() && path_starts_with(p, #[trigger] roots[i]) && components(p)
            != components(roots[i])
}

/// Are the lists of strings equal on `[0, n)`?
fn prefix_equal(a: &Vec<String>, b: &Vec<String>, n: usize) -> (r: bool)
    requires
        n <= a@.len(),
        n <= b@.len(),
    ensures
        r == (views(a@).take(n as int) == views(b@).take(n as int)),
{
    for i in 0..n
        invariant
            n <= a@.len(),
            n <= b@.len(),
            forall|j: int| 0 <= j < i ==> a@[j]@ == b@[j]@,
    {
        if !str_eq(a[i].as_str(), b[i].as_str()) {
            assert(views(a@).take(n as int)[i as int] != views(b@).take(n as int)[i as int]);
            return false;
        }
    }
    assert(views(a@).take(n as int) =~= views(b@).take(n as int)) by {
        assert forall|j: int| 0 <= j < n implies views(a@).take(n as int)[j] == views(b@).take(n as int)[j] by {
            assert(a@[j]@ == b@[j]@);
        }
    }
    true
}

/// Does `p` lie strictly inside one of `roots`?
pub fn is_under_root(p: &str, roots: &Vec<String>) -> (b: bool)
    ensures
        b == under_some_root(p@, views(roots@)),
{
    let pc = path_components(p);
    let n = roots.len();
    for i in 0..n
        invariant
            n == roots@.len(),
            views(pc@) == components(p@),
            forall|j: int|
                0 <= j < i ==> !(path_starts_with(p@, #[trigger] views(roots@)[j]) && components(p@)
                    != components(views(roots@)[j])),
    {
        let rc = path_components(roots[i].as_str());
        let ghost root = views(roots@)[i as int];
        assert(root == roots@[i as int]@);
        assert(views(rc@) == components(root));
        assert(views(rc@).take(rc@.len() as int) == views(rc@));
        if rc.len() <= pc.len() {
            let pre = prefix_equal(&pc, &rc, rc.len());
            assert(pre == path_starts_with(p@, root));
            if pre {
                if rc.len() != pc.len() {
                    return true;
                }
                assert(views(pc@).take(rc@.len() as int) == views(pc@));
            }
        }
        assert(!(path_starts_with(p@, root) && components(p@) != components(root)));
    }
    false
}


/// `p` is one of `excludes` or lies under one (`Path::starts_with`).
pub open spec fn spec_excluded(p: Seq<char>, excludes: Seq<Seq<char>>) -> bool {
    exists|i: int| 0 <= i < excludes.len() && path_starts_with(p, #[trigger] excludes[i])
}

/// Is `p` excluded by the configuration (equal to, or under, an excluded path)?
pub fn is_excluded(p: &str, excludes: &Vec<String>) -> (b: bool)
    ensures
        b == spec_excluded(p@, views(excludes@)),
{
    let pc = path_components(p);
    let n = excludes.len();
    for i in 0..n
        invariant
            n == excludes@.len(),
            views(pc@) == components(p@),
            forall|j: int| 0 <= j < i ==> !path_starts_with(p@, #[trigger] views(excludes@)[j]),
    {
        let ec = path_components(excludes[i].as_str());
        let ghost e = views(excludes@)[i as int];
        assert(e == excludes@[i as int]@);
        assert(views(ec@).take(ec@.len() as int) == views(ec@));
        if ec.len() <= pc.len() {
            if prefix_equal(&pc, &ec, ec.len()) {
                return true;
            }
        }
        assert(!path_starts_with(p@, e));
    }
    false
}


/// The rank-prefixed text by which a component is ordered: the root first,
/// then `.`, then `..`, then names by code point (the order of
/// `std::path::Component`).
pub open spec fn comp_key(c: Seq<char>) -> Seq<char> {
    if c == seq!['/'] {
        seq!['\u{1}']
    } else if c == seq!['.'] {
        seq!['\u{2}']
    } else if c == seq!['.', '.'] {
        seq!['\u{3}']
    } else {
        seq!['\u{4}'] + c
    }
}

/// The ordering keys of a path's components.
#[verifier::opaque]
pub open spec fn path_key(p: Seq<char>) -> Seq<Seq<char>> {
    components(p).map_values(|c: Seq<char>| comp_key(c))
}

/// Lexicographic order of key sequences.
pub open spec fn keys_lt(a: Seq<Seq<char>>, b: Seq<Seq<char>>) -> bool
    decreases a.len(),
{
    if a.len() == 0 {
        b.len() > 0
    } else if b.len() == 0 {
        false
    } else if a[0] != b[0] {
        seq_lt(a[0], b[0])
    } else {
        keys_lt(a.drop_first(), b.drop_first())
    }
}

/// The order on key sequences is strict and total.
pub proof fn lemma_keys_lt_trichotomy(a: Seq<Seq<char>>, b: Seq<Seq<char>>)
    ensures
        !(keys_lt(a, b) && keys_lt(b, a)),
        keys_lt(a, b) ==> a != b,
        a != b ==> keys_lt(a, b) || keys_lt(b, a),
    decreases a.len(),
{
    if a.len() > 0 && b.len() > 0 {
        lemma_seq_lt_trichotomy(a[0], b[0]);
        if a[0] == b[0] {
            lemma_keys_lt_trichotomy(a.drop_first(), b.drop_first());
            if a != b {
                assert(a == seq![a[0]] + a.drop_first());
                assert(b == seq![b[0]] + b.drop_first());
            }
        }
    } else if a.len() == 0 && b.len() == 0 {
        assert(a == b);
    }
}

/// The order on key sequences is transitive.
pub proof fn lemma_keys_lt_transitive(a: Seq<Seq<char>>, b: Seq<Seq<char>>, c: Seq<Seq<char>>)
    requires
        keys_lt(a, b),
        keys_lt(b, c),
    ensures
        keys_lt(a, c),
    decreases a.len(),
{
    if a.len() > 0 && b.len() > 0 && c.len() > 0 {
        if a[0] == b[0] && b[0] == c[0] {
            lemma_keys_lt_transitive(a.drop_first(), b.drop_first(), c.drop_first());
        } else if a[0] == b[0] {
            // b[0] < c[0]
        } else if b[0] == c[0] {
            // a[0] < b[0]
        } else {
            lemma_seq_lt_transitive(a[0], b[0], c[0]);
            lemma_seq_lt_trichotomy(a[0], c[0]);
        }
    }
}

/// The ordering key of one component.
fn component_key(c: &String) -> (k: String)
    ensures
        k@ == comp_key(c@),
{
    let v = chars_of(c.as_str());
    proof {
        if v@.len() == 1 {
            assert(v@ == seq![v@[0]]);
        }
        if v@.len() == 2 {
            assert(v@ == seq![v@[0], v@[1]]);
        }
    }
    let mut k = String::new();
    if v.len() == 1 && v[0] == '/' {
        crate::text::push_char(&mut k, '\u{1}');
    } else if v.len() == 1 && v[0] == '.' {
        crate::text::push_char(&mut k, '\u{2}');
    } else if v.len() == 2 && v[0] == '.' && v[1] == '.' {
        crate::text::push_char(&mut k, '\u{3}');
    } else {
        crate::text::push_char(&mut k, '\u{4}');
        crate::text::push_str(&mut k, c.as_str());
    }
    k
}

/// The ordering keys of a path.
pub fn path_keys(p: &str) -> (r: Vec<String>)
    ensures
        views(r@) == path_key(p@),
{
    let cs = path_components(p);
    let mut r: Vec<String> = Vec::new();
    let n = cs.len();
    proof {
        reveal(path_key);
    }
    for i in 0..n
        invariant
            n == cs@.len(),
            views(cs@) == components(p@),
            views(r@) == views(cs@).take(i as int).map_values(|c: Seq<char>| comp_key(c)),
    {
        let k = component_key(&cs[i]);
        proof {
            assert(views(cs@).take(i + 1).map_values(|c: Seq<char>| comp_key(c)) == views(cs@).take(
                i as int,
            ).map_values(|c: Seq<char>| comp_key(c)).push(comp_key(cs@[i as int]@)));
        }
        crate::text::push_string(&mut r, k);
    }
    assert(views(cs@).take(n as int) == views(cs@));
    r
}

/// Do the key lists compare `a < b`?
fn keys_less(a: &Vec<String>, b: &Vec<String>) -> (r: bool)
    ensures
        r == keys_lt(views(a@), views(b@)),
{
    let mut i: usize = 0;
    assert(views(a@).skip(0) == views(a@));
    assert(views(b@).skip(0) == views(b@));
    while i < a.len() && i < b.len() && str_eq(a[i].as_str(), b[i].as_str())
        invariant
            i <= a@.len(),
            i <= b@.len(),
            keys_lt(views(a@), views(b@)) == keys_lt(views(a@).skip(i as int), views(b@).skip(i as int)),
        decreases a@.len() - i,
    {
        proof {
            let sa = views(a@).skip(i as int);
            let sb = views(b@).skip(i as int);
            assert(sa[0] == a@[i as int]@);
            assert(sb[0] == b@[i as int]@);
            assert(sa.drop_first() == views(a@).skip(i + 1));
            assert(sb.drop_first() == views(b@).skip(i + 1));
        }
        i = i + 1;
    }
    if i == a.len() {
        i < b.len()
    } else if i == b.len() {
        false
    } else {
        proof {
            assert(views(a@).skip(i as int)[0] == a@[i as int]@);
            assert(views(b@).skip(i as int)[0] == b@[i as int]@);
        }
        crate::text::str_lt(a[i].as_str(), b[i].as_str())
    }
}

/// Are the key lists equal?
fn keys_equal(a: &Vec<String>, b: &Vec<String>) -> (r: bool)
    ensures
        r == (views(a@) == views(b@)),
{
    if a.len() != b.len() {
        return false;
    }
    let r = prefix_equal(a, b, a.len());
    assert(views(a@).take(a@.len() as int) == views(a@));
    assert(views(b@).take(b@.len() as int) == views(b@));
    r
}

/// The repos discovery keeps: the candidates that are not excluded, ordered
/// as paths (component by component) with each path once — the first of
/// equal paths wins.
pub open spec fn is_discovery(out: Seq<Seq<char>>, candidates: Seq<Seq<char>>, excludes: Seq<Seq<char>>) -> bool {
    &&& forall|i: int, j: int|
        0 <= i < j < out.len() ==> keys_lt(path_key(#[trigger] out[i]), path_key(#[trigger] out[j]))
    &&& forall|i: int| 0 <= i < out.len() ==> is_first_source(candidates, excludes, #[trigger] out[i])
    &&& forall|k: int|
        0 <= k < candidates.len() && !spec_excluded(candidates[k], excludes) ==> exists|i: int|
            0 <= i < out.len() && path_key(#[trigger] out[i]) == path_key(candidates[k])
}


/// `x` is a candidate that is not excluded and that no earlier non-excluded
/// candidate equals as a path.
pub open spec fn is_first_source(c: Seq<Seq<char>>, ex: Seq<Seq<char>>, x: Seq<char>) -> bool {
    exists|k: int| 0 <= k < c.len() && c[k] == x && #[trigger] first_of_key(c, ex, k)
}

/// Candidate `k` is not excluded, and no candidate before it that is has
/// the same path.
pub open spec fn first_of_key(c: Seq<Seq<char>>, ex: Seq<Seq<char>>, k: int) -> bool {
    !spec_excluded(c[k], ex) && forall|m: int|
        0 <= m < k && !spec_excluded(c[m], ex) ==> path_key(c[m]) != path_key(c[k])
}

/// Every kept path is candidate `src[i]` (among the first `n`), the first
/// non-excluded candidate with its key.
spec fn kept_are_first(out: Seq<Seq<char>>, c: Seq<Seq<char>>, ex: Seq<Seq<char>>, n: int, src: Seq<int>) -> bool {
    &&& src.len() == out.len()
    &&& forall|i: int|
        0 <= i < out.len() ==> 0 <= #[trigger] src[i] < n && src[i] < c.len() && c[src[i]] == out[i]
            && first_of_key(c, ex, src[i])
}

/// Every non-excluded candidate among the first `n` has its key kept.
spec fn all_kept(out: Seq<Seq<char>>, c: Seq<Seq<char>>, ex: Seq<Seq<char>>, n: int) -> bool {
    forall|k: int|
        0 <= k < n && !spec_excluded(c[k], ex) ==> exists|i: int|
            0 <= i < out.len() && path_key(#[trigger] out[i]) == path_key(c[k])
}

/// Paths in strictly increasing key order.
spec fn key_sorted(w: Seq<Seq<char>>) -> bool {
    forall|i: int, j: int| 0 <= i < j < w.len() ==> keys_lt(path_key(#[trigger] w[i]), path_key(#[trigger] w[j]))
}

/// A candidate whose key is already kept changes nothing.
proof fn lemma_step_same(w: Seq<Seq<char>>, c: Seq<Seq<char>>, ex: Seq<Seq<char>>, k: int, p: int)
    requires
        0 <= k < c.len(),
        0 <= p < w.len(),
        all_kept(w, c, ex, k),
        path_key(w[p]) == path_key(c[k]),
    ensures
        all_kept(w, c, ex, k + 1),
{
    assert forall|kk: int| 0 <= kk < k + 1 && !spec_excluded(c[kk], ex) implies exists|i: int|
        0 <= i < w.len() && path_key(#[trigger] w[i]) == path_key(c[kk]) by {
        if kk == k {
            assert(path_key(w[p]) == path_key(c[kk]));
        }
    }
}

/// A candidate whose key no kept path has is the first with it.
proof fn lemma_new_key_is_first(w: Seq<Seq<char>>, c: Seq<Seq<char>>, ex: Seq<Seq<char>>, k: int)
    requires
        0 <= k < c.len(),
        all_kept(w, c, ex, k),
        !spec_excluded(c[k], ex),
        forall|q: int| 0 <= q < w.len() ==> path_key(#[trigger] w[q]) != path_key(c[k]),
    ensures
        first_of_key(c, ex, k),
{
    assert forall|m: int| 0 <= m < k && !spec_excluded(c[m], ex) implies path_key(c[m]) != path_key(c[k]) by {
        let q = choose|q: int| 0 <= q < w.len() && path_key(#[trigger] w[q]) == path_key(c[m]);
    }
}

/// A candidate with a new key, inserted where its key belongs, keeps the
/// kept paths sorted.
proof fn lemma_insert_sorted(w: Seq<Seq<char>>, x: Seq<char>, p: int)
    requires
        0 <= p <= w.len(),
        key_sorted(w),
        forall|q: int| 0 <= q < p ==> keys_lt(path_key(#[trigger] w[q]), path_key(x)),
        forall|q: int| p <= q < w.len() ==> keys_lt(path_key(x), path_key(#[trigger] w[q])),
    ensures
        key_sorted(w.insert(p, x)),
{
    let w2 = w.insert(p, x);
    assert forall|i: int, j: int| 0 <= i < j < w2.len() implies keys_lt(path_key(#[trigger] w2[i]), path_key(#[trigger] w2[j])) by {
        if j < p {
            assert(w2[i] == w[i] && w2[j] == w[j]);
        } else if j == p {
            assert(w2[i] == w[i]);
        } else if i > p {
            assert(w2[i] == w[i - 1] && w2[j] == w[j - 1]);
        } else if i == p {
            assert(w2[j] == w[j - 1]);
        } else {
            assert(w2[i] == w[i] && w2[j] == w[j - 1]);
            lemma_keys_lt_transitive(path_key(w[i]), path_key(x), path_key(w[j - 1]));
        }
    }
}

/// A candidate with a new key, inserted, keeps the kept paths first and
/// complete.
proof fn lemma_step_insert(w: Seq<Seq<char>>, c: Seq<Seq<char>>, ex: Seq<Seq<char>>, k: int, p: int, src: Seq<int>)
    requires
        0 <= k < c.len(),
        0 <= p <= w.len(),
        kept_are_first(w, c, ex, k, src),
        all_kept(w, c, ex, k),
        first_of_key(c, ex, k),
    ensures
        kept_are_first(w.insert(p, c[k]), c, ex, k + 1, src.insert(p, k)),
        all_kept(w.insert(p, c[k]), c, ex, k + 1),
{
    let w2 = w.insert(p, c[k]);
    let s2 = src.insert(p, k);
    assert forall|i: int| 0 <= i < w2.len() implies 0 <= #[trigger] s2[i] < k + 1 && s2[i] < c.len()
        && c[s2[i]] == w2[i] && first_of_key(c, ex, s2[i]) by {
        if i < p {
            assert(s2[i] == src[i] && w2[i] == w[i]);
        } else if i > p {
            assert(s2[i] == src[i - 1] && w2[i] == w[i - 1]);
        }
    }
    assert forall|kk: int| 0 <= kk < k + 1 && !spec_excluded(c[kk], ex) implies exists|i: int|
        0 <= i < w2.len() && path_key(#[trigger] w2[i]) == path_key(c[kk]) by {
        if kk == k {
            assert(w2[p] == c[kk]);
        } else {
            let q = choose|q: int| 0 <= q < w.len() && path_key(#[trigger] w[q]) == path_key(c[kk]);
            if q < p {
                assert(w2[q] == w[q]);
            } else {
                assert(w2[q + 1] == w[q]);
            }
        }
    }
}

/// Discovery's last step: drop the excluded candidates, order the rest as
/// paths, and keep each path once (the first of equal paths).
#[verifier::rlimit(40)]
pub fn discovered(candidates: &Vec<String>, excludes: &Vec<String>) -> (out: Vec<String>)
    ensures
        is_discovery(views(out@), views(candidates@), views(excludes@)),
{
    let ghost c = views(candidates@);
    let ghost ex = views(excludes@);
    let ghost mut src: Seq<int> = Seq::empty();
    let mut out: Vec<String> = Vec::new();
    let mut keys: Vec<Vec<String>> = Vec::new();
    let n = candidates.len();
    for k in 0..n
        invariant
            n == candidates@.len(),
            c == views(candidates@),
            ex == views(excludes@),
            out@.len() == keys@.len(),
            forall|i: int| 0 <= i < keys@.len() ==> views(#[trigger] keys@[i]@) == path_key(out@[i]@),
            key_sorted(views(out@)),
            kept_are_first(views(out@), c, ex, k as int, src),
            all_kept(views(out@), c, ex, k as int),
    {
        let x = &candidates[k];
        assert(c[k as int] == x@);
        let ghost w = views(out@);
        if is_excluded(x.as_str(), excludes) {
        } else {
            let kx = path_keys(x.as_str());
            let m = keys.len();
            let mut p: usize = 0;
            while p < m && keys_less(&keys[p], &kx)
                invariant
                    m == keys@.len() == out@.len(),
                    p <= m,
                    w == views(out@),
                    forall|i: int| 0 <= i < keys@.len() ==> views(#[trigger] keys@[i]@) == path_key(out@[i]@),
                    views(kx@) == path_key(x@),
                    forall|i: int| 0 <= i < p ==> keys_lt(path_key(#[trigger] w[i]), path_key(x@)),
                decreases m - p,
            {
                assert(views(keys@[p as int]@) == path_key(out@[p as int]@));
                assert(w[p as int] == out@[p as int]@);
                p = p + 1;
            }
            let same = p < m && keys_equal(&keys[p], &kx);
            proof {
                if p < m {
                    assert(views(keys@[p as int]@) == path_key(out@[p as int]@));
                    assert(w[p as int] == out@[p as int]@);
                }
            }
            if same {
                proof {
                    lemma_step_same(w, c, ex, k as int, p as int);
                }
            } else {
                proof {
                    if p < m {
                        lemma_keys_lt_trichotomy(path_key(w[p as int]), path_key(x@));
                        assert(keys_lt(path_key(x@), path_key(w[p as int])));
                    }
                    assert forall|q: int| p <= q < w.len() implies keys_lt(path_key(x@), path_key(#[trigger] w[q])) by {
                        if q > p {
                            lemma_keys_lt_transitive(path_key(x@), path_key(w[p as int]), path_key(w[q]));
                        }
                    }
                    assert forall|q: int| 0 <= q < w.len() implies path_key(#[trigger] w[q]) != path_key(c[k as int]) by {
                        if q < p {
                            lemma_keys_lt_trichotomy(path_key(w[q]), path_key(x@));
                        } else {
                            lemma_keys_lt_trichotomy(path_key(x@), path_key(w[q]));
                        }
                    }
                    lemma_new_key_is_first(w, c, ex, k as int);
                    lemma_insert_sorted(w, x@, p as int);
                    lemma_step_insert(w, c, ex, k as int, p as int, src);
                }
                let ghost ks = keys@;
                let ghost os = out@;
                out.insert(p, x.clone());
                keys.insert(p, kx);
                proof {
                    src = src.insert(p as int, k as int);
                    assert(views(out@) == w.insert(p as int, x@)) by {
                        assert forall|i: int| 0 <= i < out@.len() implies views(out@)[i] == w.insert(p as int, x@)[i] by {
                            if i < p {
                                assert(out@[i] == os[i]);
                            } else if i > p {
                                assert(out@[i] == os[i - 1]);
                            }
                        }
                    }
                    assert forall|i: int| 0 <= i < keys@.len() implies views(#[trigger] keys@[i]@) == path_key(out@[i]@) by {
                        if i < p {
                            assert(keys@[i] == ks[i] && out@[i] == os[i]);
                        } else if i > p {
                            assert(keys@[i] == ks[i - 1] && out@[i] == os[i - 1]);
                        }
                    }
                }
            }
        }
    }
    proof {
        lemma_discovery_done(views(out@), c, ex, src);
    }
    out
}

/// Sorted, first and complete over all candidates is a discovery.
proof fn lemma_discovery_done(w: Seq<Seq<char>>, c: Seq<Seq<char>>, ex: Seq<Seq<char>>, src: Seq<int>)
    requires
        key_sorted(w),
        kept_are_first(w, c, ex, c.len() as int, src),
        all_kept(w, c, ex, c.len() as int),
    ensures
        is_discovery(w, c, ex),
{
    assert forall|i: int| 0 <= i < w.len() implies is_first_source(c, ex, #[trigger] w[i]) by {
        let k = src[i];
        assert(c[k] == w[i] && first_of_key(c, ex, k));
    }
}

} // verus!
