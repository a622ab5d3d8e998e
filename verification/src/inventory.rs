//! The home inventory: the bare repos on the home servers, joined with the
//! local working copies into a lifecycle view. Reads degrade: when a server
//! cannot be listed, the survey is the local-only view, marked unreachable.
use vstd::prelude::*;
use crate::config::Config;
use crate::git::{opt_view, ProcessOutput};
use crate::paths::{file_name, spec_file_name};
use crate::presence::{
    home_name_from_url, is_join, is_url_sep, join_presences, spec_home_name, trim_end_slash, LocalRepo,
    RepoPresence,
};
use crate::text::{
    chars_of, copy_strings, has_prefix, lines, lines_of, push_str, push_string, split_on,
    split_ranges, starts_with, string_from, string_of, trim, trim_ws, views,
    lemma_split_on_nonempty, ranges_spell,
};

verus! {

/// Seconds to wait for an SSH connection before treating the host as
/// unreachable (so a sleeping server cannot hang a `status`).
pub const SSH_CONNECT_TIMEOUT: u32 = 5;

/// The arguments of `ssh` that run `command` on `alias`: never prompting for a
/// password, and giving up on the connection after the timeout.
pub open spec fn spec_ssh_args(alias: Seq<char>, command: Seq<char>) -> Seq<Seq<char>> {
    seq!["-o"@, "BatchMode=yes"@, "-o"@, "ConnectTimeout=5"@, alias, command]
}

/// The `ssh` argument list that runs `command` on `alias`.
pub fn ssh_args(alias: &str, command: &str) -> (r: Vec<String>)
    ensures
        views(r@) == spec_ssh_args(alias@, command@),
{
    let mut r: Vec<String> = Vec::new();
    push_string(&mut r, string_from("-o"));
    push_string(&mut r, string_from("BatchMode=yes"));
    push_string(&mut r, string_from("-o"));
    push_string(&mut r, string_from("ConnectTimeout=5"));
    push_string(&mut r, string_from(alias));
    push_string(&mut r, string_from(command));
    r
}

/// The remotes that name the transport paths to the home, in preference
/// order: `transport.order`, falling back to `default_remotes`.
pub open spec fn spec_transport_remotes(cfg: &Config) -> Seq<Seq<char>> {
    if cfg.transport.order@.len() == 0 {
        views(cfg.default_remotes@)
    } else {
        views(cfg.transport.order@)
    }
}

/// The transport remotes, in preference order.
pub fn transport_remotes(cfg: &Config) -> (r: Vec<String>)
    ensures
        views(r@) == spec_transport_remotes(cfg),
{
    if cfg.transport.order.len() == 0 {
        copy_strings(&cfg.default_remotes)
    } else {
        copy_strings(&cfg.transport.order)
    }
}

/// `s` up to its first `/` or `:`.
pub open spec fn before_url_sep(s: Seq<char>) -> Seq<char>
    decreases s.len(),
{
    if s.len() == 0 {
        s
    } else if is_url_sep(s[0]) {
        Seq::empty()
    } else {
        seq![s[0]] + before_url_sep(s.drop_first())
    }
}

/// The part of `s` after its last `c` (all of `s` when it has none).
pub open spec fn after_last(s: Seq<char>, c: char) -> Seq<char>
    decreases s.len(),
{
    if s.len() == 0 {
        s
    } else if s.last() == c {
        Seq::empty()
    } else {
        after_last(s.drop_last(), c).push(s.last())
    }
}

/// The SSH alias (host) of an `ssh://` URL: the authority up to the first `/`
/// or `:`, after any `user@`; none for other URLs or an empty host.
pub open spec fn spec_ssh_alias(url: Seq<char>) -> Option<Seq<char>> {
    if has_prefix(url, "ssh://"@) {
        let host = after_last(before_url_sep(url.skip("ssh://"@.len() as int)), '@');
        if host.len() > 0 {
            Some(host)
        } else {
            None
        }
    } else {
        None
    }
}

/// The end of `before_url_sep(v[lo..hi])` inside `v`.
pub(crate) fn find_url_sep(v: &Vec<char>, lo: usize, hi: usize) -> (j: usize)
    requires
        lo <= hi <= v@.len(),
    ensures
        lo <= j <= hi,
        v@.subrange(lo as int, j as int) == before_url_sep(v@.subrange(lo as int, hi as int)),
{
    let mut j = lo;
    assert(v@.subrange(lo as int, lo as int) == Seq::<char>::empty());
    while j < hi && !(v[j] == '/' || v[j] == ':')
        invariant
            lo <= j <= hi <= v@.len(),
            before_url_sep(v@.subrange(lo as int, hi as int)) == v@.subrange(lo as int, j as int)
                + before_url_sep(v@.subrange(j as int, hi as int)),
        decreases hi - j,
    {
        let ghost s = v@.subrange(j as int, hi as int);
        assert(s[0] == v@[j as int]);
        assert(s.drop_first() == v@.subrange(j + 1, hi as int));
        assert(v@.subrange(lo as int, j + 1) == v@.subrange(lo as int, j as int) + seq![v@[j as int]]);
        j = j + 1;
    }
    if j < hi {
        assert(v@.subrange(j as int, hi as int)[0] == v@[j as int]);
    }
    j
}

/// The start of `after_last(v[lo..hi], c)` inside `v`.
pub(crate) fn find_after_last(v: &Vec<char>, lo: usize, hi: usize, c: char) -> (k: usize)
    requires
        lo <= hi <= v@.len(),
    ensures
        lo <= k <= hi,
        v@.subrange(k as int, hi as int) == after_last(v@.subrange(lo as int, hi as int), c),
{
    let mut k = hi;
    assert(v@.subrange(hi as int, hi as int) == Seq::<char>::empty());
    while k > lo && v[k - 1] != c
        invariant
            lo <= k <= hi <= v@.len(),
            after_last(v@.subrange(lo as int, hi as int), c) == after_last(
                v@.subrange(lo as int, k as int),
                c,
            ) + v@.subrange(k as int, hi as int),
        decreases k,
    {
        let ghost p = v@.subrange(lo as int, k as int);
        assert(p.drop_last() == v@.subrange(lo as int, k - 1));
        assert(p.last() == v@[k - 1]);
        assert(v@.subrange(k - 1, hi as int) == seq![v@[k - 1]] + v@.subrange(k as int, hi as int));
        assert(after_last(p, c) == after_last(p.drop_last(), c).push(p.last()));
        assert(after_last(p.drop_last(), c).push(p.last()) + v@.subrange(k as int, hi as int)
            == after_last(p.drop_last(), c) + v@.subrange(k - 1, hi as int));
        k = k - 1;
    }
    assert(after_last(v@.subrange(lo as int, k as int), c) == Seq::<char>::empty()) by {
        if k > lo {
            assert(v@.subrange(lo as int, k as int).last() == v@[k - 1]);
        }
    }
    assert(Seq::<char>::empty() + v@.subrange(k as int, hi as int) == v@.subrange(k as int, hi as int));
    k
}

/// Extract the SSH alias (host) from a remote URL: `ssh://tenx-lan/data/...` →
/// `tenx-lan`, `ssh://user@tenx-ts/...` → `tenx-ts`. `None` for non-ssh URLs.
pub fn ssh_alias_of(url: &str) -> (r: Option<String>)
    ensures
        opt_view(r) == spec_ssh_alias(url@),
{
    if !starts_with(url, "ssh://") {
        return None;
    }
    let v = chars_of(url);
    let p = chars_of("ssh://").len();
    let n = v.len();
    assert(v@.subrange(p as int, n as int) == url@.skip("ssh://"@.len() as int));
    let j = find_url_sep(&v, p, n);
    let k = find_after_last(&v, p, j, '@');
    if k == j {
        return None;
    }
    Some(string_of(&v, k, j))
}

/// The home name a line of the `ls -d <root>/*.git` listing names: the base
/// name (after trimming whitespace and trailing `/`) without `.git`; none for
/// an empty name or an unexpanded glob (a name holding `*`).
pub open spec fn listing_home(l: Seq<char>) -> Option<Seq<char>> {
    let base = after_last(trim_end_slash(trim_ws(l)), '/');
    if base.len() >= 4 && base.subrange(base.len() - 4, base.len() as int) == seq![
        '.',
        'g',
        'i',
        't',
    ] {
        let name = base.subrange(0, base.len() - 4);
        if name.len() > 0 && !name.contains('*') {
            Some(name)
        } else {
            None
        }
    } else {
        None
    }
}

/// The end of `trim_end_slash(v[lo..hi])` inside `v`.
fn trim_slashes(v: &Vec<char>, lo: usize, hi: usize) -> (h: usize)
    requires
        lo <= hi <= v@.len(),
    ensures
        lo <= h <= hi,
        v@.subrange(lo as int, h as int) == trim_end_slash(v@.subrange(lo as int, hi as int)),
{
    let mut h = hi;
    while h > lo && v[h - 1] == '/'
        invariant
            lo <= h <= hi <= v@.len(),
            trim_end_slash(v@.subrange(lo as int, hi as int)) == trim_end_slash(
                v@.subrange(lo as int, h as int),
            ),
        decreases h,
    {
        assert(v@.subrange(lo as int, h as int).drop_last() == v@.subrange(lo as int, h - 1));
        h = h - 1;
    }
    if h > lo {
        assert(v@.subrange(lo as int, h as int).last() == v@[h - 1]);
    }
    h
}

/// Does `v[lo..hi]` hold `c`?
fn holds_char(v: &Vec<char>, lo: usize, hi: usize, c: char) -> (b: bool)
    requires
        lo <= hi <= v@.len(),
    ensures
        b == v@.subrange(lo as int, hi as int).contains(c),
{
    let mut i = lo;
    while i < hi
        invariant
            lo <= i <= hi <= v@.len(),
            forall|j: int| lo <= j < i ==> v@[j] != c,
        decreases hi - i,
    {
        if v[i] == c {
            assert(v@.subrange(lo as int, hi as int)[i - lo] == c);
            return true;
        }
        i = i + 1;
    }
    assert forall|j: int| 0 <= j < hi - lo implies v@.subrange(lo as int, hi as int)[j] != c by {
        assert(v@.subrange(lo as int, hi as int)[j] == v@[lo + j]);
    }
    false
}

/// The home name one listing line names.
fn listing_line_home(l: &str) -> (r: Option<String>)
    ensures
        opt_view(r) == listing_home(l@),
{
    let t = trim(l);
    let v = chars_of(t.as_str());
    let n = v.len();
    assert(v@.subrange(0, n as int) == v@);
    let h = trim_slashes(&v, 0, n);
    let k = find_after_last(&v, 0, h, '/');
    let ghost base = v@.subrange(k as int, h as int);
    if h - k >= 4 && v[h - 4] == '.' && v[h - 3] == 'g' && v[h - 2] == 'i' && v[h - 1] == 't' {
        assert(base.subrange(base.len() - 4, base.len() as int) == seq!['.', 'g', 'i', 't']);
        let e = h - 4;
        assert(base.subrange(0, base.len() - 4) == v@.subrange(k as int, e as int));
        if e > k && !holds_char(&v, k, e, '*') {
            Some(string_of(&v, k, e))
        } else {
            None
        }
    } else {
        assert(!(base.len() >= 4 && base.subrange(base.len() - 4, base.len() as int) == seq![
            '.',
            'g',
            'i',
            't',
        ])) by {
            if base.len() >= 4 && base.subrange(base.len() - 4, base.len() as int) == seq![
                '.',
                'g',
                'i',
                't',
            ] {
                assert(base.subrange(base.len() - 4, base.len() as int)[0] == v@[h - 4]);
                assert(base.subrange(base.len() - 4, base.len() as int)[1] == v@[h - 3]);
                assert(base.subrange(base.len() - 4, base.len() as int)[2] == v@[h - 2]);
                assert(base.subrange(base.len() - 4, base.len() as int)[3] == v@[h - 1]);
            }
        }
        None
    }
}

/// The home names an `ls -d <root>/*.git` listing names, in order.
pub open spec fn spec_home_list(s: Seq<char>) -> Seq<Seq<char>> {
    lines_of(s).filter_map(|l: Seq<char>| listing_home(l))
}

/// Parse `ls -d <root>/*.git` output into home names (base name minus `.git`),
/// skipping the glob echoed back when nothing matched.
pub fn parse_home_list(stdout: &str) -> (r: Vec<String>)
    ensures
        views(r@) == spec_home_list(stdout@),
{
    let ls = lines(stdout);
    let ghost f = |l: Seq<char>| listing_home(l);
    let mut r: Vec<String> = Vec::new();
    let n = ls.len();
    for k in 0..n
        invariant
            n == ls@.len(),
            f == (|l: Seq<char>| listing_home(l)),
            views(ls@) == lines_of(stdout@),
            views(r@) == views(ls@).take(k as int).filter_map(f),
    {
        let h = listing_line_home(ls[k].as_str());
        proof {
            let w = views(ls@);
            assert(w[k as int] == ls@[k as int]@);
            w.lemma_filter_map_take_succ(f, k as int);
        }
        let ghost before = views(r@);
        match h {
            Some(name) => {
                let ghost nv = name@;
                push_string(&mut r, name);
                assert(before.push(nv) == before + seq![nv]);
            },
            None => {
                assert(before + Seq::<Seq<char>>::empty() == before);
            },
        }
    }
    assert(views(ls@).take(n as int) == views(ls@));
    r
}

/// The shell command that lists the bare repos under `root` on a server.
pub open spec fn spec_list_homes_command(root: Seq<char>) -> Seq<char> {
    "ls -d "@ + root + "/*.git 2>/dev/null"@
}

/// The command that lists the bare repos under `root`.
pub fn list_homes_command(root: &str) -> (c: String)
    ensures
        c@ == spec_list_homes_command(root@),
{
    let mut c = string_from("ls -d ");
    push_str(&mut c, root);
    push_str(&mut c, "/*.git 2>/dev/null");
    c
}

/// The error when there is no alias to reach a server by.
pub open spec fn no_aliases_error() -> Seq<char> {
    "no SSH aliases to reach the server (set [server].aliases or wire a repo's remotes)"@
}

/// The error an unanswered listing attempt over `alias` leaves.
pub open spec fn ssh_error(alias: Seq<char>, stderr: Seq<char>) -> Seq<char> {
    "ssh "@ + alias + ": "@ + trim_ws(stderr)
}

/// The attempts of a failover over `n` candidates, tried in order until one
/// succeeds: at most `n`, all failed but possibly the last, and a run that
/// stopped early stopped on a success.
pub open spec fn is_failover_run(n: nat, ok: Seq<bool>) -> bool {
    &&& ok.len() <= n
    &&& forall|i: int| 0 <= i < ok.len() - 1 ==> !#[trigger] ok[i]
    &&& ok.len() < n ==> ok.len() > 0 && ok.last()
}

/// The exit statuses of a list of command runs.
pub open spec fn successes(outs: Seq<ProcessOutput>) -> Seq<bool> {
    outs.map_values(|o: ProcessOutput| o.success)
}

/// What listing the homes over the aliases, in order, came to: the home names
/// from the first alias that answered; otherwise the error of the last one
/// tried, or of there being no alias at all.
pub open spec fn spec_list_homes(aliases: Seq<Seq<char>>, attempts: Seq<ProcessOutput>) -> Result<Seq<Seq<char>>, Seq<char>> {
    if aliases.len() == 0 {
        Err(no_aliases_error())
    } else if attempts.last().success {
        Ok(spec_home_list(attempts.last().stdout@))
    } else {
        Err(ssh_error(aliases[attempts.len() - 1], attempts.last().stderr@))
    }
}

/// List the bare-repo home names on a server from the listing attempts made
/// over `aliases`, in order, stopping at the first that answered (`attempts`
/// holds one run per alias tried). An error only when none answered.
pub fn list_homes(aliases: &Vec<String>, attempts: &Vec<ProcessOutput>) -> (r: Result<Vec<String>, String>)
    requires
        is_failover_run(aliases@.len(), successes(attempts@)),
        aliases@.len() > 0 ==> attempts@.len() > 0,
    ensures
        match (r, spec_list_homes(views(aliases@), attempts@)) {
            (Ok(v), Ok(w)) => views(v@) == w,
            (Err(e), Err(f)) => e@ == f,
            _ => false,
        },
{
    if aliases.len() == 0 {
        return Err(string_from(
            "no SSH aliases to reach the server (set [server].aliases or wire a repo's remotes)",
        ));
    }
    let last = attempts.len() - 1;
    assert(successes(attempts@)[last as int] == attempts@[last as int].success);
    let out = &attempts[last];
    if out.success {
        Ok(parse_home_list(out.stdout.as_str()))
    } else {
        let mut e = string_from("ssh ");
        push_str(&mut e, aliases[last].as_str());
        push_str(&mut e, ": ");
        let t = trim(out.stderr.as_str());
        push_str(&mut e, t.as_str());
        assert(views(aliases@)[last as int] == aliases@[last as int]@);
        Err(e)
    }
}

/// One discovered working copy: its path, and the URLs of its transport
/// remotes in preference order (`None` where the remote is absent or could
/// not be read).
pub struct RepoUrls {
    pub path: String,
    pub urls: Vec<Option<String>>,
}

/// The texts of a list of optional strings.
pub open spec fn opt_views(v: Seq<Option<String>>) -> Seq<Option<Seq<char>>> {
    v.map_values(|o: Option<String>| opt_view(o))
}

/// All the transport URLs of the repos, repo by repo.
pub open spec fn flat_urls(repos: Seq<RepoUrls>) -> Seq<Option<Seq<char>>>
    decreases repos.len(),
{
    if repos.len() == 0 {
        Seq::empty()
    } else {
        flat_urls(repos.drop_last()) + opt_views(repos.last().urls@)
    }
}

/// The distinct SSH aliases of the URLs, in order of first appearance.
pub open spec fn aliases_of(urls: Seq<Option<Seq<char>>>) -> Seq<Seq<char>>
    decreases urls.len(),
{
    if urls.len() == 0 {
        Seq::empty()
    } else {
        let acc = aliases_of(urls.drop_last());
        match urls.last() {
            Some(u) => match spec_ssh_alias(u) {
                Some(a) => if acc.contains(a) {
                    acc
                } else {
                    acc.push(a)
                },
                None => acc,
            },
            None => acc,
        }
    }
}

/// The SSH aliases to try for the primary server, in order: the explicit
/// `[server].aliases`, else those of the repos' transport-remote URLs.
pub open spec fn spec_resolve_aliases(cfg: &Config, repos: Seq<RepoUrls>) -> Seq<Seq<char>> {
    if cfg.server.aliases@.len() > 0 {
        views(cfg.server.aliases@)
    } else {
        aliases_of(flat_urls(repos))
    }
}

/// SSH aliases to try, in order: explicit `[server].aliases`, else derived from
/// the transport remotes' URLs across the discovered repos (de-duplicated).
pub fn resolve_aliases(cfg: &Config, repos: &Vec<RepoUrls>) -> (r: Vec<String>)
    ensures
        views(r@) == spec_resolve_aliases(cfg, repos@),
{
    if cfg.server.aliases.len() > 0 {
        return copy_strings(&cfg.server.aliases);
    }
    let mut out: Vec<String> = Vec::new();
    let m = repos.len();
    for j in 0..m
        invariant
            m == repos@.len(),
            views(out@) == aliases_of(flat_urls(repos@.take(j as int))),
    {
        let us = &repos[j].urls;
        let ghost pre = flat_urls(repos@.take(j as int));
        let ghost uv = opt_views(us@);
        let n = us.len();
        assert(pre + uv.take(0) == pre);
        for k in 0..n
            invariant
                n == us@.len(),
                uv == opt_views(us@),
                views(out@) == aliases_of(pre + uv.take(k as int)),
        {
            proof {
                assert((pre + uv.take(k + 1)).drop_last() == pre + uv.take(k as int));
                assert((pre + uv.take(k + 1)).last() == opt_view(us@[k as int]));
            }
            match &us[k] {
                Some(url) => {
                    match ssh_alias_of(url.as_str()) {
                        Some(a) => {
                            if !crate::text::contains_string(out.as_slice(), &a) {
                                push_string(&mut out, a);
                            }
                        },
                        None => {},
                    }
                },
                None => {},
            }
        }
        proof {
            assert(uv.take(n as int) == uv);
            assert(repos@.take(j + 1).drop_last() == repos@.take(j as int));
            assert(repos@.take(j + 1).last() == repos@[j as int]);
        }
    }
    assert(repos@.take(m as int) == repos@);
    out
}

/// The local side of one working copy: its directory name (empty when the
/// path has none) and the home name of the first transport remote whose URL
/// names one.
pub open spec fn first_home_name(urls: Seq<Option<Seq<char>>>) -> Option<Seq<char>>
    decreases urls.len(),
{
    if urls.len() == 0 {
        None
    } else {
        match urls[0] {
            Some(u) => match spec_home_name(u) {
                Some(h) => Some(h),
                None => first_home_name(urls.drop_first()),
            },
            None => first_home_name(urls.drop_first()),
        }
    }
}

/// The working copy as the join sees it.
pub open spec fn spec_local_repo(r: RepoUrls) -> (Seq<char>, Option<Seq<char>>) {
    (
        match spec_file_name(r.path@) {
            Some(n) => n,
            None => Seq::empty(),
        },
        first_home_name(opt_views(r.urls@)),
    )
}

/// The local side of one working copy.
pub fn local_repo(r: &RepoUrls) -> (l: LocalRepo)
    ensures
        (l.dir_name@, opt_view(l.home_name)) == spec_local_repo(*r),
{
    let dir_name = match file_name(r.path.as_str()) {
        Some(n) => n,
        None => String::new(),
    };
    let n = r.urls.len();
    let ghost uv = opt_views(r.urls@);
    let mut k: usize = 0;
    assert(uv.skip(0) == uv);
    while k < n
        invariant
            n == r.urls@.len(),
            uv == opt_views(r.urls@),
            k <= n,
            dir_name@ == spec_local_repo(*r).0,
            first_home_name(uv) == first_home_name(uv.skip(k as int)),
        decreases n - k,
    {
        let ghost rest = uv.skip(k as int);
        assert(rest[0] == opt_view(r.urls@[k as int]));
        assert(rest.drop_first() == uv.skip(k + 1));
        match &r.urls[k] {
            Some(url) => {
                match home_name_from_url(url.as_str()) {
                    Some(h) => {
                        return LocalRepo { dir_name, home_name: Some(h) };
                    },
                    None => {},
                }
            },
            None => {},
        }
        k = k + 1;
    }
    assert(uv.skip(n as int).len() == 0);
    LocalRepo { dir_name, home_name: None }
}

/// The local side of every discovered working copy, in order.
pub fn local_repos(repos: &Vec<RepoUrls>) -> (out: Vec<LocalRepo>)
    ensures
        out@.len() == repos@.len(),
        forall|i: int|
            0 <= i < repos@.len() ==> (#[trigger] out@[i].dir_name@, opt_view(out@[i].home_name))
                == spec_local_repo(repos@[i]),
{
    let mut out: Vec<LocalRepo> = Vec::new();
    let n = repos.len();
    for k in 0..n
        invariant
            n == repos@.len(),
            out@.len() == k,
            forall|i: int|
                0 <= i < k ==> (#[trigger] out@[i].dir_name@, opt_view(out@[i].home_name))
                    == spec_local_repo(repos@[i]),
    {
        let l = local_repo(&repos[k]);
        out.push(l);
    }
    out
}

/// What a home server's listing came to: whether it answered, and the homes
/// on it.
pub struct BackupState {
    pub reachable: bool,
    pub homes: Vec<String>,
}

/// Both sides surveyed. `reachable` is false when the primary server's home
/// listing could not be had (unconfigured or unreachable); `presences` is then
/// the local-only view. `backup` is the backup server's listing, when a
/// backup server is configured.
pub struct Survey {
    pub presences: Vec<RepoPresence>,
    pub reachable: bool,
    pub backup: Option<BackupState>,
}

/// Which servers a survey lists: the primary when configured, the backup
/// when configured.
pub fn survey_queries(cfg: &Config) -> (q: (bool, bool))
    ensures
        q.0 == (cfg.server.root@.len() > 0),
        q.1 == (cfg.backup.root@.len() > 0),
{
    (cfg.server_enabled(), cfg.backup_enabled())
}

/// Survey both sides into a lifecycle view from the listings that were had:
/// `primary` and `backup` are the home names each server listed, `None` when
/// it was not asked or did not answer. A listing of a server that is not
/// configured is not used.
pub fn survey(
    cfg: &Config,
    locals: &[LocalRepo],
    primary: Option<&[String]>,
    backup: Option<&[String]>,
) -> (s: Survey)
    ensures
        s.reachable == (cfg.server.root@.len() > 0 && primary.is_some()),
        is_join(
            s.presences@,
            locals@,
            if s.reachable {
                views(primary.unwrap()@)
            } else {
                Seq::empty()
            },
        ),
        s.backup.is_some() == (cfg.backup.root@.len() > 0),
        s.backup.is_some() ==> s.backup.unwrap().reachable == backup.is_some(),
        s.backup.is_some() ==> views(s.backup.unwrap().homes@) == (match backup {
            Some(b) => views(b@),
            None => Seq::empty(),
        }),
{
    let none: Vec<String> = Vec::new();
    let reachable = cfg.server_enabled() && primary.is_some();
    let presences = if reachable {
        join_presences(locals, primary.unwrap())
    } else {
        join_presences(locals, none.as_slice())
    };
    let bk = if cfg.backup_enabled() {
        match backup {
            Some(b) => {
                let mut homes: Vec<String> = Vec::new();
                let n = b.len();
                for k in 0..n
                    invariant
                        n == b@.len(),
                        views(homes@) == views(b@).take(k as int),
                {
                    proof {
                        assert(views(b@).take(k + 1) == views(b@).take(k as int).push(b@[k as int]@));
                    }
                    push_string(&mut homes, b[k].clone());
                }
                assert(views(b@).take(n as int) == views(b@));
                Some(BackupState { reachable: true, homes })
            },
            None => Some(BackupState { reachable: false, homes: Vec::new() }),
        }
    } else {
        None
    };
    Survey { presences, reachable, backup: bk }
}

} // verus!
