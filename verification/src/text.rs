//! Character-level helpers over `str` / `String`: building strings, the
//! code-point order of strings, and the whitespace class.
use vstd::prelude::*;

verus! {

/// The views of a sequence of strings.
pub open spec fn views(s: Seq<String>) -> Seq<Seq<char>> {
    s.map_values(|x: String| x@)
}

/// The characters of `s`, in order.
pub fn chars_of(s: &str) -> (v: Vec<char>)
    ensures
        v@ == s@,
{
    let mut v: Vec<char> = Vec::new();
    for c in it: s.chars()
        invariant
            v@ == it.seq().take(it.index() as int),
    {
        v.push(c);
    }
    v
}

/// Appends `c` to `s` (`String::push`).
#[verifier::external_body]
pub(crate) fn push_char(s: &mut String, c: char)
    ensures
        final(s)@ == old(s)@.push(c),
{
    s.push(c)
}

/// Appends `t` to `s` (`String::push_str`).
#[verifier::external_body]
pub(crate) fn push_str(s: &mut String, t: &str)
    ensures
        final(s)@ == old(s)@ + t@,
{
    s.push_str(t)
}

/// The string made of `v[lo..hi]`.
pub fn string_of(v: &Vec<char>, lo: usize, hi: usize) -> (s: String)
    requires
        lo <= hi <= v@.len(),
    ensures
        s@ == v@.subrange(lo as int, hi as int),
{
    let mut s = String::new();
    let mut k = lo;
    while k < hi
        invariant
            lo <= k <= hi <= v@.len(),
            s@ == v@.subrange(lo as int, k as int),
        decreases hi - k,
    {
        push_char(&mut s, v[k]);
        assert(v@.subrange(lo as int, k + 1) == v@.subrange(lo as int, k as int).push(v@[k as int]));
        k = k + 1;
    }
    s
}

/// A copy of `t` as a `String`.
pub fn string_from(t: &str) -> (s: String)
    ensures
        s@ == t@,
{
    t.to_owned()
}

/// Is `r` one of `items`?
pub fn contains_string(items: &[String], r: &String) -> (b: bool)
    ensures
        b == views(items@).contains(r@),
{
    let n = items.len();
    for k in 0..n
        invariant
            n == items@.len(),
            forall|j: int| 0 <= j < k ==> items@[j]@ != r@,
    {
        if items[k] == *r {
            assert(views(items@)[k as int] == r@);
            return true;
        }
    }
    proof {
        if views(items@).contains(r@) {
            let j = choose|j: int| 0 <= j < views(items@).len() && views(items@)[j] == r@;
            assert(items@[j]@ == r@);
        }
    }
    false
}

/// Lexicographic order of strings by code point (for UTF-8 text this is the
/// byte order that `str`'s `Ord` uses).
pub open spec fn seq_lt(a: Seq<char>, b: Seq<char>) -> bool
    decreases a.len(),
{
    if a.len() == 0 {
        b.len() > 0
    } else if b.len() == 0 {
        false
    } else if a[0] != b[0] {
        (a[0] as int) < (b[0] as int)
    } else {
        seq_lt(a.drop_first(), b.drop_first())
    }
}

/// The order is strict and total: exactly one of `a < b`, `a == b`, `b < a`.
pub proof fn lemma_seq_lt_trichotomy(a: Seq<char>, b: Seq<char>)
    ensures
        !(seq_lt(a, b) && seq_lt(b, a)),
        seq_lt(a, b) ==> a != b,
        a != b ==> seq_lt(a, b) || seq_lt(b, a),
    decreases a.len(),
{
    if a.len() > 0 && b.len() > 0 && a[0] == b[0] {
        lemma_seq_lt_trichotomy(a.drop_first(), b.drop_first());
        if a != b {
            assert(a == seq![a[0]] + a.drop_first());
            assert(b == seq![b[0]] + b.drop_first());
        }
    } else if a.len() == 0 && b.len() == 0 {
        assert(a == b);
    }
}

/// The order is transitive.
pub proof fn lemma_seq_lt_transitive(a: Seq<char>, b: Seq<char>, c: Seq<char>)
    requires
        seq_lt(a, b),
        seq_lt(b, c),
    ensures
        seq_lt(a, c),
    decreases a.len(),
{
    if a.len() > 0 && b.len() > 0 && c.len() > 0 && a[0] == b[0] && b[0] == c[0] {
        lemma_seq_lt_transitive(a.drop_first(), b.drop_first(), c.drop_first());
    }
}

/// Is `a` before `b` in code-point order?
pub fn str_lt(a: &str, b: &str) -> (r: bool)
    ensures
        r == seq_lt(a@, b@),
{
    let va = chars_of(a);
    let vb = chars_of(b);
    let mut i: usize = 0;
    assert(va@.skip(0) == va@);
    assert(vb@.skip(0) == vb@);
    while i < va.len() && i < vb.len() && va[i] == vb[i]
        invariant
            i <= va@.len(),
            i <= vb@.len(),
            seq_lt(va@, vb@) == seq_lt(va@.skip(i as int), vb@.skip(i as int)),
        decreases va@.len() - i,
    {
        proof {
            let sa = va@.skip(i as int);
            let sb = vb@.skip(i as int);
            assert(sa.drop_first() == va@.skip(i + 1));
            assert(sb.drop_first() == vb@.skip(i + 1));
        }
        i = i + 1;
    }
    if i == va.len() {
        i < vb.len()
    } else if i == vb.len() {
        false
    } else {
        proof {
            assert(va@.skip(i as int)[0] == va@[i as int]);
            assert(vb@.skip(i as int)[0] == vb@[i as int]);
        }
        va[i] < vb[i]
    }
}

/// The Unicode `White_Space` characters, which `char::is_whitespace` accepts.
pub open spec fn is_ws(c: char) -> bool {
    let u = c as u32;
    (0x09 <= u <= 0x0D) || u == 0x20 || u == 0x85 || u == 0xA0 || u == 0x1680 || (0x2000 <= u
        <= 0x200A) || u == 0x2028 || u == 0x2029 || u == 0x202F || u == 0x205F || u == 0x3000
}

/// Does `c` have the Unicode `White_Space` property?
pub fn char_is_ws(c: char) -> (b: bool)
    ensures
        b == is_ws(c),
{
    let u = c as u32;
    (0x09 <= u && u <= 0x0D) || u == 0x20 || u == 0x85 || u == 0xA0 || u == 0x1680 || (0x2000 <= u
        && u <= 0x200A) || u == 0x2028 || u == 0x2029 || u == 0x202F || u == 0x205F || u == 0x3000
}

/// `s` without its leading whitespace.
pub open spec fn trim_start_ws(s: Seq<char>) -> Seq<char>
    decreases s.len(),
{
    if s.len() > 0 && is_ws(s[0]) {
        trim_start_ws(s.drop_first())
    } else {
        s
    }
}

/// `s` without its trailing whitespace.
pub open spec fn trim_end_ws(s: Seq<char>) -> Seq<char>
    decreases s.len(),
{
    if s.len() > 0 && is_ws(s.last()) {
        trim_end_ws(s.drop_last())
    } else {
        s
    }
}

/// `s` without leading or trailing whitespace, as `str::trim` leaves it.
pub open spec fn trim_ws(s: Seq<char>) -> Seq<char> {
    trim_end_ws(trim_start_ws(s))
}

/// The bounds `lo..hi` of `trim_ws(v)` inside `v`.
pub fn trim_bounds(v: &Vec<char>) -> (r: (usize, usize))
    ensures
        r.0 <= r.1 <= v@.len(),
        v@.subrange(r.0 as int, r.1 as int) == trim_ws(v@),
{
    let n = v.len();
    let ghost s = v@;
    let mut lo: usize = 0;
    assert(s.subrange(0, n as int) == s);
    while lo < n && char_is_ws(v[lo])
        invariant
            lo <= n == s.len(),
            v@ == s,
            trim_start_ws(s) == trim_start_ws(s.subrange(lo as int, n as int)),
        decreases n - lo,
    {
        assert(s.subrange(lo as int, n as int).drop_first() == s.subrange(lo + 1, n as int));
        lo = lo + 1;
    }
    assert(trim_start_ws(s) == s.subrange(lo as int, n as int));
    let mut hi: usize = n;
    while hi > lo && char_is_ws(v[hi - 1])
        invariant
            lo <= hi <= n == s.len(),
            v@ == s,
            trim_end_ws(s.subrange(lo as int, n as int)) == trim_end_ws(
                s.subrange(lo as int, hi as int),
            ),
        decreases hi,
    {
        assert(s.subrange(lo as int, hi as int).drop_last() == s.subrange(lo as int, hi - 1));
        hi = hi - 1;
    }
    assert(trim_end_ws(s.subrange(lo as int, hi as int)) == s.subrange(lo as int, hi as int));
    (lo, hi)
}

/// `s` with leading and trailing whitespace removed (`str::trim`).
pub fn trim(s: &str) -> (r: String)
    ensures
        r@ == trim_ws(s@),
{
    let v = chars_of(s);
    let (lo, hi) = trim_bounds(&v);
    string_of(&v, lo, hi)
}

/// The pieces of `s` between occurrences of `sep`, as `str::split` yields
/// them: one more piece than there are separators, empty pieces included.
pub open spec fn split_on(s: Seq<char>, sep: char) -> Seq<Seq<char>>
    decreases s.len(),
{
    if s.len() == 0 {
        seq![Seq::empty()]
    } else if s.last() == sep {
        split_on(s.drop_last(), sep).push(Seq::empty())
    } else {
        let t = split_on(s.drop_last(), sep);
        t.update(t.len() - 1, t.last().push(s.last()))
    }
}

/// Splitting always yields at least one piece.
pub proof fn lemma_split_on_nonempty(s: Seq<char>, sep: char)
    ensures
        split_on(s, sep).len() >= 1,
    decreases s.len(),
{
    if s.len() > 0 {
        lemma_split_on_nonempty(s.drop_last(), sep);
    }
}

/// Each range of `r` lies in `v` and spells the corresponding piece.
pub open spec fn ranges_spell(v: Seq<char>, r: Seq<(usize, usize)>, pieces: Seq<Seq<char>>) -> bool {
    forall|k: int|
        0 <= k < r.len() ==> (#[trigger] r[k]).0 <= r[k].1 && r[k].1 <= v.len() && v.subrange(
            r[k].0 as int,
            r[k].1 as int,
        ) == pieces[k]
}

/// The `(start, end)` ranges of `v` between occurrences of `sep`.
pub fn split_ranges(v: &Vec<char>, sep: char) -> (r: Vec<(usize, usize)>)
    ensures
        r@.len() == split_on(v@, sep).len(),
        ranges_spell(v@, r@, split_on(v@, sep)),
{
    let mut r: Vec<(usize, usize)> = Vec::new();
    let mut start: usize = 0;
    let n = v.len();
    let mut i: usize = 0;
    while i < n
        invariant
            n == v@.len(),
            i <= n,
            start <= i,
            r@.len() + 1 == split_on(v@.take(i as int), sep).len(),
            ranges_spell(v@, r@, split_on(v@.take(i as int), sep)),
            split_on(v@.take(i as int), sep).last() == v@.subrange(start as int, i as int),
        decreases n - i,
    {
        let ghost t = split_on(v@.take(i as int), sep);
        let ghost old_r = r@;
        let ghost old_start = start;
        proof {
            assert(v@.take(i + 1).drop_last() == v@.take(i as int));
            assert(v@.take(i + 1).last() == v@[i as int]);
            lemma_split_on_nonempty(v@.take(i as int), sep);
        }
        if v[i] == sep {
            r.push((start, i));
            start = i + 1;
            proof {
                let t2 = split_on(v@.take(i + 1), sep);
                assert(t2 == t.push(Seq::empty()));
                assert forall|k: int| 0 <= k < r@.len() implies (#[trigger] r@[k]).0 <= r@[k].1 && r@[k].1 <= v@.len()
                    && v@.subrange(r@[k].0 as int, r@[k].1 as int) == t2[k] by {
                    if k < r@.len() - 1 {
                        assert(r@[k] == old_r[k]);
                        assert(t2[k] == t[k]);
                    } else {
                        assert(r@[k] == (old_start, i));
                        assert(t2[k] == t[t.len() - 1]);
                    }
                }
                assert(v@.subrange(start as int, i + 1) == Seq::<char>::empty());
            }
        } else {
            proof {
                let t2 = split_on(v@.take(i + 1), sep);
                assert(t2 == t.update(t.len() - 1, t.last().push(v@[i as int])));
                assert forall|k: int| 0 <= k < r@.len() implies (#[trigger] r@[k]).0 <= r@[k].1 && r@[k].1 <= v@.len()
                    && v@.subrange(r@[k].0 as int, r@[k].1 as int) == t2[k] by {
                    assert(t2[k] == t[k]);
                }
                assert(v@.subrange(start as int, i + 1) == v@.subrange(start as int, i as int).push(
                    v@[i as int],
                ));
            }
        }
        i = i + 1;
    }
    let ghost old_r = r@;
    proof {
        assert(v@.take(n as int) == v@);
        assert(i == n);
        assert(split_on(v@.take(n as int), sep) == split_on(v@, sep));
        assert(split_on(v@, sep).last() == v@.subrange(start as int, n as int));
        assert(ranges_spell(v@, old_r, split_on(v@, sep)));
    }
    r.push((start, n));
    proof {
        let t = split_on(v@, sep);
        lemma_split_on_nonempty(v@, sep);
        assert forall|k: int| 0 <= k < r@.len() implies (#[trigger] r@[k]).0 <= r@[k].1 && r@[k].1 <= v@.len()
            && v@.subrange(r@[k].0 as int, r@[k].1 as int) == t[k] by {
            if k == r@.len() - 1 {
                assert(r@.len() == t.len());
                assert(t[k] == t[t.len() - 1]);
                assert(r@[k] == (start, n));
                assert(r@[k].0 <= r@[k].1);
                assert(v@.subrange(r@[k].0 as int, r@[k].1 as int) == t[k]);
            } else {
                assert(r@[k] == old_r[k]);
                assert(t[k] == split_on(v@, sep)[k]);
                assert(old_r[k].0 <= old_r[k].1 <= v@.len());
                assert(v@.subrange(old_r[k].0 as int, old_r[k].1 as int) == t[k]);
            }
        }
    }
    r
}

/// The index of the first `c` in `t`, or -1 when `t` has none.
pub open spec fn index_of(t: Seq<char>, c: char) -> int
    decreases t.len(),
{
    if t.len() == 0 {
        -1
    } else if t[0] == c {
        0
    } else {
        let r = index_of(t.drop_first(), c);
        if r < 0 {
            -1
        } else {
            r + 1
        }
    }
}

/// The first `c` in `v[lo..hi]`, as an index into `v`; `hi` when there is none.
pub fn find_char(v: &Vec<char>, lo: usize, hi: usize, c: char) -> (r: usize)
    requires
        lo <= hi <= v@.len(),
    ensures
        lo <= r <= hi,
        r == hi <==> index_of(v@.subrange(lo as int, hi as int), c) < 0,
        r < hi ==> index_of(v@.subrange(lo as int, hi as int), c) == r - lo,
        r < hi ==> v@[r as int] == c,
        forall|k: int| lo <= k < r ==> v@[k] != c,
{
    let mut k = lo;
    while k < hi && v[k] != c
        invariant
            lo <= k <= hi <= v@.len(),
            forall|j: int| lo <= j < k ==> v@[j] != c,
            index_of(v@.subrange(lo as int, hi as int), c) == {
                let r = index_of(v@.subrange(k as int, hi as int), c);
                if r < 0 {
                    -1
                } else {
                    r + (k - lo)
                }
            },
        decreases hi - k,
    {
        assert(v@.subrange(k as int, hi as int).drop_first() == v@.subrange(k + 1, hi as int));
        k = k + 1;
    }
    proof {
        if k < hi {
            assert(v@.subrange(k as int, hi as int)[0] == c);
        }
    }
    k
}

/// Do `a` and `b` hold the same text?
pub fn str_eq(a: &str, b: &str) -> (r: bool)
    ensures
        r == (a@ == b@),
{
    let va = chars_of(a);
    let vb = chars_of(b);
    if va.len() != vb.len() {
        return false;
    }
    let n = va.len();
    for i in 0..n
        invariant
            n == va@.len() == vb@.len(),
            va@ == a@,
            vb@ == b@,
            forall|j: int| 0 <= j < i ==> va@[j] == vb@[j],
    {
        if va[i] != vb[i] {
            assert(va@[i as int] != vb@[i as int]);
            return false;
        }
    }
    assert(va@ == vb@);
    true
}

/// `p` is a prefix of `s`.
pub open spec fn has_prefix(s: Seq<char>, p: Seq<char>) -> bool {
    p.len() <= s.len() && s.take(p.len() as int) == p
}

/// `p` occurs in `s`.
pub open spec fn has_infix(s: Seq<char>, p: Seq<char>) -> bool {
    exists|i: int| 0 <= i <= s.len() - p.len() && #[trigger] s.subrange(i, i + p.len()) == p
}

/// Does `s` start with `p`?
pub fn starts_with(s: &str, p: &str) -> (r: bool)
    ensures
        r == has_prefix(s@, p@),
{
    let vs = chars_of(s);
    let vp = chars_of(p);
    if vp.len() > vs.len() {
        return false;
    }
    let n = vp.len();
    for i in 0..n
        invariant
            n == vp@.len() <= vs@.len(),
            vs@ == s@,
            vp@ == p@,
            forall|j: int| 0 <= j < i ==> vs@[j] == vp@[j],
    {
        if vs[i] != vp[i] {
            assert(vs@.take(n as int)[i as int] != vp@[i as int]);
            assert(vs@.take(n as int) != vp@);
            return false;
        }
    }
    assert(vs@.take(n as int) == vp@);
    true
}

/// Does `p` occur in `s`?
pub fn contains_str(s: &str, p: &str) -> (r: bool)
    ensures
        r == has_infix(s@, p@),
{
    let vs = chars_of(s);
    let vp = chars_of(p);
    if vp.len() > vs.len() {
        return false;
    }
    let m = vp.len();
    if m == 0 {
        assert(vs@.subrange(0, 0 + vp@.len() as int) == vp@);
        return true;
    }
    let total = vs.len();
    let last = total - m;
    let mut i: usize = 0;
    while i <= last
        invariant
            m == vp@.len(),
            vs@ == s@,
            vp@ == p@,
            total == vs@.len(),
            0 < m <= vs@.len(),
            last == vs@.len() - m,
            i <= last + 1,
            forall|k: int| 0 <= k < i ==> #[trigger] vs@.subrange(k, k + m) != vp@,
        decreases last + 1 - i,
    {
        let mut ok = true;
        let mut j: usize = 0;
        while j < m
            invariant
                m == vp@.len(),
                0 < m <= vs@.len(),
                vs@ == s@,
                vp@ == p@,
                total == vs@.len(),
                i <= last,
                last == vs@.len() - m,
                j <= m,
                ok <==> forall|t: int| 0 <= t < j ==> vs@[i + t] == #[trigger] vp@[t],
            decreases m - j,
        {
            if vs[i + j] != vp[j] {
                ok = false;
            }
            j = j + 1;
        }
        if ok {
            assert(vs@.subrange(i as int, i + vp@.len()) == vp@);
            return true;
        }
        proof {
            let t = choose|t: int| 0 <= t < m && vs@[i + t] != #[trigger] vp@[t];
            assert(vs@.subrange(i as int, i + m)[t] != vp@[t]);
        }
        i = i + 1;
    }
    proof {
        assert forall|k: int| 0 <= k <= vs@.len() - m implies #[trigger] vs@.subrange(k, k + m) != vp@ by {
            assert(k < i);
        }
    }
    false
}

/// The decimal digit character of `d < 10`.
pub open spec fn digit_char(d: nat) -> char {
    if d == 0 { '0' } else if d == 1 { '1' } else if d == 2 { '2' } else if d == 3 { '3' } else if d
        == 4 { '4' } else if d == 5 { '5' } else if d == 6 { '6' } else if d == 7 { '7' } else if d
        == 8 { '8' } else { '9' }
}

/// The decimal representation of `n`, without leading zeros.
pub open spec fn decimal(n: nat) -> Seq<char>
    decreases n,
{
    if n < 10 {
        seq![digit_char(n)]
    } else {
        decimal(n / 10).push(digit_char(n % 10))
    }
}

/// The digit character of `d`.
fn digit(d: u64) -> (c: char)
    requires
        d < 10,
    ensures
        c == digit_char(d as nat),
{
    if d == 0 { '0' } else if d == 1 { '1' } else if d == 2 { '2' } else if d == 3 { '3' } else if d
        == 4 { '4' } else if d == 5 { '5' } else if d == 6 { '6' } else if d == 7 { '7' } else if d
        == 8 { '8' } else { '9' }
}

/// A decimal representation is never empty.
pub proof fn lemma_decimal_nonempty(n: nat)
    ensures
        decimal(n).len() >= 1,
    decreases n,
{
    if n >= 10 {
        lemma_decimal_nonempty(n / 10);
    }
}

/// Appends the decimal representation of `n` to `s`.
pub fn push_decimal(s: &mut String, n: u64)
    ensures
        final(s)@ == old(s)@ + decimal(n as nat),
    decreases n,
{
    if n >= 10 {
        push_decimal(s, n / 10);
    }
    push_char(s, digit(n % 10));
}

/// The decimal representation of `n`.
pub fn decimal_string(n: u64) -> (s: String)
    ensures
        s@ == decimal(n as nat),
{
    let mut s = String::new();
    push_decimal(&mut s, n);
    s
}


/// `s` without one trailing carriage return.
pub open spec fn strip_cr(s: Seq<char>) -> Seq<char> {
    if s.len() > 0 && s.last() == '\r' {
        s.drop_last()
    } else {
        s
    }
}

/// The lines of `s` as `str::lines` yields them: the pieces between `\n`s,
/// each without the `\r` of a `\r\n` ending, and no empty last piece after a
/// final line ending.
pub open spec fn lines_of(s: Seq<char>) -> Seq<Seq<char>> {
    let p = split_on(s, '\n');
    let body = p.drop_last().map_values(|x: Seq<char>| strip_cr(x));
    if p.last().len() == 0 {
        body
    } else {
        body.push(p.last())
    }
}

/// The lines of `s` (`str::lines`).
pub fn lines(s: &str) -> (r: Vec<String>)
    ensures
        views(r@) == lines_of(s@),
{
    let v = chars_of(s);
    let ranges = split_ranges(&v, '\n');
    let ghost p = split_on(v@, '\n');
    proof {
        lemma_split_on_nonempty(v@, '\n');
    }
    let m = ranges.len();
    let mut r: Vec<String> = Vec::new();
    let mut k: usize = 0;
    while k + 1 < m
        invariant
            m == ranges@.len() == p.len() >= 1,
            p == split_on(v@, '\n'),
            ranges_spell(v@, ranges@, p),
            k + 1 <= m,
            views(r@) == p.drop_last().take(k as int).map_values(|x: Seq<char>| strip_cr(x)),
        decreases m - k,
    {
        let (lo, hi0) = ranges[k];
        assert(ranges@[k as int].0 <= ranges@[k as int].1);
        let mut hi = hi0;
        if hi > lo && v[hi - 1] == '\r' {
            hi = hi - 1;
            assert(v@.subrange(lo as int, hi0 as int).drop_last() == v@.subrange(lo as int, hi as int));
        }
        let line = string_of(&v, lo, hi);
        assert(line@ == strip_cr(p[k as int]));
        proof {
            assert(views(r@.push(line)) == views(r@).push(line@));
        }
        r.push(line);
        proof {
            let q = p.drop_last();
            assert(q.take(k + 1) == q.take(k as int).push(q[k as int]));
            assert(q.take(k + 1).map_values(|x: Seq<char>| strip_cr(x)) == q.take(k as int).map_values(
                |x: Seq<char>| strip_cr(x),
            ).push(strip_cr(q[k as int])));
        }
        k = k + 1;
    }
    assert(p.drop_last().take(k as int) == p.drop_last());
    let (lo, hi) = ranges[m - 1];
    assert(ranges@[m - 1].0 <= ranges@[m - 1].1);
    if hi > lo {
        let last = string_of(&v, lo, hi);
        assert(last@ == p.last());
        proof {
            assert(views(r@.push(last)) == views(r@).push(last@));
        }
        r.push(last);
    }
    r
}

/// The whitespace-separated words of `s`, as `str::split_whitespace` yields
/// them.
pub open spec fn words(s: Seq<char>) -> Seq<Seq<char>>
    decreases s.len(),
{
    if s.len() == 0 {
        Seq::empty()
    } else if is_ws(s.last()) {
        words(s.drop_last())
    } else if s.len() == 1 || is_ws(s[s.len() - 2]) {
        words(s.drop_last()).push(seq![s.last()])
    } else {
        let w = words(s.drop_last());
        w.update(w.len() - 1, w.last().push(s.last()))
    }
}

/// The words of `s` (`str::split_whitespace`).
pub fn split_whitespace(s: &str) -> (r: Vec<String>)
    ensures
        views(r@) == words(s@),
{
    let v = chars_of(s);
    let n = v.len();
    let mut r: Vec<String> = Vec::new();
    let mut cur = String::new();
    let mut i: usize = 0;
    while i < n
        invariant
            n == v@.len(),
            i <= n,
            (i > 0 && !is_ws(v@[i - 1])) ==> cur@.len() > 0 && words(v@.take(i as int)) == views(
                r@,
            ).push(cur@),
            !(i > 0 && !is_ws(v@[i - 1])) ==> cur@.len() == 0 && words(v@.take(i as int)) == views(
                r@,
            ),
        decreases n - i,
    {
        let c = v[i];
        proof {
            assert(v@.take(i + 1).drop_last() == v@.take(i as int));
            assert(v@.take(i + 1).last() == c);
            if i > 0 {
                assert(v@.take(i + 1)[i - 1] == v@[i - 1]);
            }
        }
        if char_is_ws(c) {
            if !cur.as_str().is_empty() {
                proof {
                    assert(views(r@.push(cur)) == views(r@).push(cur@));
                }
                r.push(cur);
                cur = String::new();
            }
        } else {
            proof {
                if i > 0 && !is_ws(v@[i - 1]) {
                    let w = words(v@.take(i as int));
                    assert(w.last() == cur@);
                    assert(w.update(w.len() - 1, cur@.push(c)) == views(r@).push(cur@.push(c)));
                } else {
                    assert(cur@.push(c) == seq![c]);
                }
            }
            push_char(&mut cur, c);
        }
        i = i + 1;
    }
    assert(v@.take(n as int) == v@);
    if !cur.as_str().is_empty() {
        proof {
            assert(views(r@.push(cur)) == views(r@).push(cur@));
        }
        r.push(cur);
    }
    r
}

/// The value of a string of decimal digits.
pub open spec fn digits_value(t: Seq<char>) -> int
    decreases t.len(),
{
    if t.len() == 0 {
        0
    } else {
        digits_value(t.drop_last()) * 10 + (t.last() as int - '0' as int)
    }
}

/// Every character of `t` is an ASCII digit.
pub open spec fn all_digits(t: Seq<char>) -> bool {
    forall|i: int| 0 <= i < t.len() ==> '0' <= #[trigger] t[i] <= '9'
}

/// `t` read as a `u32` the way `str::parse::<u32>` reads it: an optional `+`,
/// then at least one digit, with a value that fits.
pub open spec fn parse_u32(t: Seq<char>) -> Option<u32> {
    let d = if t.len() > 0 && t[0] == '+' {
        t.drop_first()
    } else {
        t
    };
    if d.len() > 0 && all_digits(d) && digits_value(d) <= u32::MAX {
        Some(digits_value(d) as u32)
    } else {
        None
    }
}

proof fn lemma_digits_value_nonneg(t: Seq<char>)
    requires
        all_digits(t),
    ensures
        digits_value(t) >= 0,
    decreases t.len(),
{
    if t.len() > 0 {
        assert(all_digits(t.drop_last())) by {
            assert forall|i: int| 0 <= i < t.drop_last().len() implies '0' <= #[trigger] t.drop_last()[i] <= '9' by {
                assert(t.drop_last()[i] == t[i]);
            }
        }
        lemma_digits_value_nonneg(t.drop_last());
        assert('0' <= t[t.len() - 1] <= '9');
    }
}

/// Reads `s` as a `u32` (`str::parse::<u32>`).
pub fn parse_u32_str(s: &str) -> (r: Option<u32>)
    ensures
        r == parse_u32(s@),
{
    let v = chars_of(s);
    let n = v.len();
    let mut start: usize = 0;
    if n > 0 && v[0] == '+' {
        start = 1;
    }
    let ghost d = if s@.len() > 0 && s@[0] == '+' {
        s@.drop_first()
    } else {
        s@
    };
    assert(d == v@.subrange(start as int, n as int));
    if start == n {
        return None;
    }
    let mut acc: u64 = 0;
    let mut i: usize = start;
    while i < n
        invariant
            start <= i <= n == v@.len(),
            start < n,
            v@ == s@,
            d == (if s@.len() > 0 && s@[0] == '+' {
                s@.drop_first()
            } else {
                s@
            }),
            d == v@.subrange(start as int, n as int),
            all_digits(v@.subrange(start as int, i as int)),
            acc == digits_value(v@.subrange(start as int, i as int)),
            acc <= u32::MAX,
        decreases n - i,
    {
        let c = v[i];
        let ghost pre = v@.subrange(start as int, i as int);
        let ghost next = v@.subrange(start as int, i + 1);
        assert(next.drop_last() == pre);
        assert(next.last() == c);
        if c < '0' || c > '9' {
            assert(!all_digits(d)) by {
                assert(d[i - start] == c);
            }
            return None;
        }
        let dv: u64 = (c as u32 - '0' as u32) as u64;
        let nacc = acc * 10 + dv;
        assert(nacc == digits_value(next));
        assert(all_digits(next)) by {
            assert forall|j: int| 0 <= j < next.len() implies '0' <= #[trigger] next[j] <= '9' by {
                if j < pre.len() {
                    assert(next[j] == pre[j]);
                }
            }
        }
        if nacc > 0xffff_ffff {
            proof {
                // every further digit only grows the value
                let rest = v@.subrange(i + 1, n as int);
                assert(d == next + rest);
                lemma_digits_value_prefix_grows(next, rest);
            }
            return None;
        }
        acc = nacc;
        i = i + 1;
    }
    Some(acc as u32)
}

/// Appending digits never lowers the value.
proof fn lemma_digits_value_prefix_grows(p: Seq<char>, rest: Seq<char>)
    requires
        all_digits(p),
    ensures
        all_digits(p + rest) ==> digits_value(p + rest) >= digits_value(p),
    decreases rest.len(),
{
    if rest.len() > 0 && all_digits(p + rest) {
        let q = p + rest.drop_last();
        assert((p + rest).drop_last() == q);
        assert(all_digits(q)) by {
            assert forall|j: int| 0 <= j < q.len() implies '0' <= #[trigger] q[j] <= '9' by {
                assert(q[j] == (p + rest)[j]);
            }
        }
        lemma_digits_value_prefix_grows(p, rest.drop_last());
        assert(q == p + rest.drop_last());
        lemma_digits_value_nonneg(q);
        assert('0' <= (p + rest)[(p + rest).len() - 1] <= '9');
    }
}


/// A copy of a list of strings.
pub fn copy_strings(v: &Vec<String>) -> (r: Vec<String>)
    ensures
        views(r@) == views(v@),
{
    let mut r: Vec<String> = Vec::new();
    let n = v.len();
    for k in 0..n
        invariant
            n == v@.len(),
            views(r@) == views(v@).take(k as int),
    {
        let s = v[k].clone();
        proof {
            assert(views(r@.push(s)) == views(r@).push(s@));
            assert(views(v@).take(k + 1) == views(v@).take(k as int).push(v@[k as int]@));
        }
        r.push(s);
    }
    assert(views(v@).take(n as int) == views(v@));
    r
}

/// Appends `a` to a list of strings.
pub fn push_string(r: &mut Vec<String>, a: String)
    ensures
        views(final(r)@) == views(old(r)@).push(a@),
{
    proof {
        assert(views(r@.push(a)) == views(r@).push(a@));
    }
    r.push(a);
}


/// `s` padded with spaces on the right to at least `w` characters (the `{:<w}`
/// format).
pub open spec fn padded(s: Seq<char>, w: nat) -> Seq<char> {
    if s.len() >= w {
        s
    } else {
        s + Seq::new((w - s.len()) as nat, |i: int| ' ')
    }
}

/// Appends `t` padded to `w` characters.
pub fn push_padded(s: &mut String, t: &str, w: usize)
    ensures
        final(s)@ == old(s)@ + padded(t@, w as nat),
{
    push_str(s, t);
    let n = t.unicode_len();
    if n < w {
        let mut k = n;
        assert(old(s)@ + t@ + Seq::new(0, |i: int| ' ') == old(s)@ + t@);
        while k < w
            invariant
                n <= k <= w,
                n == t@.len(),
                s@ == old(s)@ + t@ + Seq::new((k - n) as nat, |i: int| ' '),
            decreases w - k,
        {
            push_char(s, ' ');
            assert(old(s)@ + t@ + Seq::new((k - n) as nat, |i: int| ' ') + seq![' '] == old(s)@ + t@ + Seq::new((k + 1 - n) as nat, |i: int| ' '));
            assert(Seq::new((k + 1 - n) as nat, |i: int| ' ') == Seq::new((k - n) as nat, |i: int| ' ').push(' '));
            k = k + 1;
        }
    } else {
        assert(old(s)@ + t@ == old(s)@ + padded(t@, w as nat));
    }
}

/// The first line of `s`, or nothing when it has none.
pub open spec fn spec_first_line(s: Seq<char>) -> Seq<char> {
    if lines_of(s).len() > 0 {
        lines_of(s)[0]
    } else {
        Seq::empty()
    }
}

/// The first line of `s` (what the tool shows of a command's error output).
pub fn first_line(s: &str) -> (r: String)
    ensures
        r@ == spec_first_line(s@),
{
    let ls = lines(s);
    if ls.len() > 0 {
        assert(views(ls@)[0] == ls@[0]@);
        ls[0].clone()
    } else {
        String::new()
    }
}

/// Strictly increasing in the code-point order.
pub open spec fn strictly_sorted(s: Seq<Seq<char>>) -> bool {
    forall|i: int, j: int| 0 <= i < j < s.len() ==> seq_lt(#[trigger] s[i], #[trigger] s[j])
}

/// Two strictly increasing sequences with the same elements are equal.
pub proof fn lemma_sorted_sets_equal(a: Seq<Seq<char>>, b: Seq<Seq<char>>)
    requires
        strictly_sorted(a),
        strictly_sorted(b),
        forall|x: Seq<char>| #![trigger a.contains(x)] #![trigger b.contains(x)] a.contains(x) <==> b.contains(x),
    ensures
        a == b,
    decreases a.len() + b.len(),
{
    if a.len() == 0 {
        if b.len() > 0 {
            assert(b.contains(b[0]));
        }
        assert(a =~= b);
    } else if b.len() == 0 {
        assert(a.contains(a[0]));
    } else {
        let la = a.last();
        let lb = b.last();
        assert(a.contains(la));
        assert(b.contains(lb));
        let i = choose|i: int| 0 <= i < a.len() && #[trigger] a[i] == lb;
        let j = choose|j: int| 0 <= j < b.len() && #[trigger] b[j] == la;
        if la != lb {
            lemma_seq_lt_trichotomy(la, lb);
            if seq_lt(la, lb) {
                // lb is in a, so it is at most a's last element
                assert(i < a.len() - 1);
                assert(seq_lt(a[i], a[a.len() - 1]));
                lemma_seq_lt_trichotomy(lb, la);
            } else {
                assert(j < b.len() - 1);
                assert(seq_lt(b[j], b[b.len() - 1]));
                lemma_seq_lt_trichotomy(la, lb);
            }
        }
        let a2 = a.drop_last();
        let b2 = b.drop_last();
        assert(strictly_sorted(a2)) by {
            assert forall|p: int, q: int| 0 <= p < q < a2.len() implies seq_lt(#[trigger] a2[p], #[trigger] a2[q]) by {
                assert(a2[p] == a[p] && a2[q] == a[q]);
            }
        }
        assert(strictly_sorted(b2)) by {
            assert forall|p: int, q: int| 0 <= p < q < b2.len() implies seq_lt(#[trigger] b2[p], #[trigger] b2[q]) by {
                assert(b2[p] == b[p] && b2[q] == b[q]);
            }
        }
        assert forall|x: Seq<char>| #[trigger] a2.contains(x) <==> b2.contains(x) by {
            if a2.contains(x) {
                let p = choose|p: int| 0 <= p < a2.len() && #[trigger] a2[p] == x;
                assert(a[p] == x);
                assert(a.contains(x));
                assert(seq_lt(a[p], a[a.len() - 1]));
                lemma_seq_lt_trichotomy(x, la);
                assert(b.contains(x));
                let q = choose|q: int| 0 <= q < b.len() && #[trigger] b[q] == x;
                assert(q != b.len() - 1);
                assert(b2[q] == x);
            }
            if b2.contains(x) {
                let q = choose|q: int| 0 <= q < b2.len() && #[trigger] b2[q] == x;
                assert(b[q] == x);
                assert(b.contains(x));
                assert(seq_lt(b[q], b[b.len() - 1]));
                lemma_seq_lt_trichotomy(x, lb);
                assert(a.contains(x));
                let p = choose|p: int| 0 <= p < a.len() && #[trigger] a[p] == x;
                assert(p != a.len() - 1);
                assert(a2[p] == x);
            }
        }
        lemma_sorted_sets_equal(a2, b2);
        assert(a =~= a2.push(la));
        assert(b =~= b2.push(lb));
    }
}

/// The distinct elements of `s` in increasing order.
pub open spec fn sorted_distinct(s: Seq<Seq<char>>) -> Seq<Seq<char>> {
    choose|c: Seq<Seq<char>>| strictly_sorted(c) && forall|x: Seq<char>| #[trigger] c.contains(x) <==> s.contains(x)
}

/// The distinct strings of `v` in increasing order (a `BTreeSet`'s order).
pub fn sorted_set(v: &Vec<String>) -> (r: Vec<String>)
    ensures
        views(r@) == sorted_distinct(views(v@)),
        strictly_sorted(views(r@)),
        forall|x: Seq<char>| #[trigger] views(r@).contains(x) <==> views(v@).contains(x),
{
    let mut r: Vec<String> = Vec::new();
    let n = v.len();
    for k in 0..n
        invariant
            n == v@.len(),
            strictly_sorted(views(r@)),
            forall|x: Seq<char>| #[trigger] views(r@).contains(x) <==> views(v@).take(k as int).contains(x),
    {
        let x = &v[k];
        let m = r.len();
        let mut p: usize = 0;
        while p < m && str_lt(r[p].as_str(), x.as_str())
            invariant
                m == r@.len(),
                p <= m,
                forall|i: int| 0 <= i < p ==> seq_lt(#[trigger] r@[i]@, x@),
            decreases m - p,
        {
            assert(views(r@)[p as int] == r@[p as int]@);
            p = p + 1;
        }
        let ghost w = views(r@);
        proof {
            assert(views(v@).take(k + 1) == views(v@).take(k as int).push(x@));
            assert forall|i: int| 0 <= i < p implies seq_lt(#[trigger] w[i], x@) by {
                assert(w[i] == r@[i]@);
            }
        }
        if p < m && str_eq(r[p].as_str(), x.as_str()) {
            proof {
                assert(w[p as int] == x@);
                assert forall|y: Seq<char>| #[trigger] w.contains(y) <==> views(v@).take(k + 1).contains(y) by {
                    if y == x@ {
                        assert(w[p as int] == y);
                    }
                    if views(v@).take(k + 1).contains(y) && y != x@ {
                        let j = choose|j: int| 0 <= j < views(v@).take(k + 1).len() && #[trigger] views(v@).take(k + 1)[j] == y;
                        assert(views(v@).take(k as int)[j] == y);
                    }
                    if w.contains(y) {
                        assert(views(v@).take(k as int).contains(y));
                        let j = choose|j: int| 0 <= j < views(v@).take(k as int).len() && #[trigger] views(v@).take(k as int)[j] == y;
                        assert(views(v@).take(k + 1)[j] == y);
                    }
                }
            }
        } else {
            proof {
                if p < m {
                    assert(w[p as int] == r@[p as int]@);
                    lemma_seq_lt_trichotomy(w[p as int], x@);
                    assert(seq_lt(x@, w[p as int]));
                    assert forall|q: int| p <= q < m implies seq_lt(x@, #[trigger] w[q]) by {
                        if q > p {
                            lemma_seq_lt_transitive(x@, w[p as int], w[q]);
                        }
                    }
                }
            }
            let c = x.clone();
            r.insert(p, c);
            proof {
                let w2 = views(r@);
                assert(w2 == w.insert(p as int, x@)) by {
                    assert(w2.len() == w.len() + 1);
                    assert forall|i: int| 0 <= i < w2.len() implies w2[i] == w.insert(p as int, x@)[i] by {
                        assert(w2[i] == r@[i]@);
                    }
                }
                assert forall|i: int, j: int| 0 <= i < j < w2.len() implies seq_lt(#[trigger] w2[i], #[trigger] w2[j]) by {
                    if j < p {
                        assert(w2[i] == w[i] && w2[j] == w[j]);
                    } else if j == p {
                        assert(w2[i] == w[i]);
                    } else if i > p {
                        assert(w2[i] == w[i - 1] && w2[j] == w[j - 1]);
                    } else if i == p {
                        assert(w2[j] == w[j - 1]);
                        assert(seq_lt(x@, w[j - 1]));
                    } else {
                        assert(w2[i] == w[i] && w2[j] == w[j - 1]);
                        assert(seq_lt(x@, w[j - 1]));
                        lemma_seq_lt_transitive(w[i], x@, w[j - 1]);
                    }
                }
                assert forall|y: Seq<char>| #[trigger] w2.contains(y) <==> views(v@).take(k + 1).contains(y) by {
                    if w2.contains(y) {
                        let j = choose|j: int| 0 <= j < w2.len() && #[trigger] w2[j] == y;
                        if j != p {
                            let jj = if j < p { j } else { j - 1 };
                            assert(w[jj] == y);
                            assert(w.contains(y));
                            let q = choose|q: int| 0 <= q < views(v@).take(k as int).len() && #[trigger] views(v@).take(k as int)[q] == y;
                            assert(views(v@).take(k + 1)[q] == y);
                        } else {
                            assert(views(v@).take(k + 1)[k as int] == y);
                        }
                    }
                    if views(v@).take(k + 1).contains(y) {
                        let q = choose|q: int| 0 <= q < views(v@).take(k + 1).len() && #[trigger] views(v@).take(k + 1)[q] == y;
                        if q == k {
                            assert(w2[p as int] == y);
                        } else {
                            assert(views(v@).take(k as int)[q] == y);
                            assert(w.contains(y));
                            let j = choose|j: int| 0 <= j < w.len() && #[trigger] w[j] == y;
                            if j < p {
                                assert(w2[j] == y);
                            } else {
                                assert(w2[j + 1] == y);
                            }
                        }
                    }
                }
            }
        }
    }
    assert(views(v@).take(n as int) == views(v@));
    proof {
        let c = sorted_distinct(views(v@));
        assert(exists|c: Seq<Seq<char>>| strictly_sorted(c) && forall|x: Seq<char>| #[trigger] c.contains(x) <==> views(v@).contains(x)) by {
            assert(strictly_sorted(views(r@)) && forall|x: Seq<char>| #[trigger] views(r@).contains(x) <==> views(v@).contains(x));
        }
        lemma_sorted_sets_equal(views(r@), c);
    }
    r
}

} // verus!
