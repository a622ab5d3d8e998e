//! Server-side operations of the lifecycle commands: create a bare home, set
//! its default branch, check that it exists, install and remove hooks, harden
//! a backup home — each one shell command run over SSH on the server.
use vstd::prelude::*;
use crate::config::Config;
use crate::inventory::{resolve_aliases, spec_resolve_aliases, spec_transport_remotes, transport_remotes, RepoUrls};
use crate::git::ProcessOutput;
use crate::text::{has_prefix, is_ws, push_str, string_from, trim_end_ws, trim_start_ws, views};
use crate::presence::{is_url_sep, last_segment, spec_home_name, strip_git, trim_end_slash};
use crate::inventory::{after_last, before_url_sep, spec_ssh_alias};

verus! {

/// `<root>/<name>.git`: where a home lives on its server.
pub open spec fn home_dir(root: Seq<char>, name: Seq<char>) -> Seq<char> {
    root + "/"@ + name + ".git"@
}

/// The `ssh://<alias><root>/<name>.git` URL of a home.
pub open spec fn spec_home_url(alias: Seq<char>, root: Seq<char>, name: Seq<char>) -> Seq<char> {
    "ssh://"@ + alias + home_dir(root, name)
}

/// Appends `<root>/<name>.git` to `s`.
fn push_home_dir(s: &mut String, root: &str, name: &str)
    ensures
        final(s)@ == old(s)@ + home_dir(root@, name@),
{
    push_str(s, root);
    push_str(s, "/");
    push_str(s, name);
    push_str(s, ".git");
    assert(old(s)@ + root@ + "/"@ + name@ + ".git"@ == old(s)@ + home_dir(root@, name@));
}

/// The `ssh://<alias><root>/<name>.git` URL for a home (remotes and clone source).
pub fn home_url(alias: &str, root: &str, name: &str) -> (u: String)
    ensures
        u@ == spec_home_url(alias@, root@, name@),
{
    let mut u = string_from("ssh://");
    push_str(&mut u, alias);
    push_home_dir(&mut u, root, name);
    assert(u@ == "ssh://"@ + alias@ + home_dir(root@, name@));
    u
}

/// The shell command that makes a backup home fast-forward-only and refuses
/// branch deletions there.
pub open spec fn spec_harden_cmd(root: Seq<char>, name: Seq<char>) -> Seq<char> {
    let dir = home_dir(root, name);
    "git --git-dir="@ + dir + " config receive.denyNonFastForwards true && git --git-dir="@ + dir
        + " config receive.denyDeletes true"@
}

/// The command that hardens a backup home: fast-forward-only, no deletes.
pub fn harden_cmd(root: &str, name: &str) -> (c: String)
    ensures
        c@ == spec_harden_cmd(root@, name@),
{
    let mut c = string_from("git --git-dir=");
    push_home_dir(&mut c, root, name);
    push_str(&mut c, " config receive.denyNonFastForwards true && git --git-dir=");
    push_home_dir(&mut c, root, name);
    push_str(&mut c, " config receive.denyDeletes true");
    c
}

/// A command the tool runs on a home server.
pub enum ServerOp {
    /// Does `<root>/<name>.git` exist?
    HomeExists { root: String, name: String },
    /// `git init --bare <root>/<name>.git`.
    InitBare { root: String, name: String },
    /// Point a bare home's `HEAD` at `branch`, so it does not read as empty
    /// when the pushed branch is not the default one.
    SetHead { root: String, name: String, branch: String },
    /// Write a hook file (its body comes on standard input) and make it
    /// executable.
    InstallHook { root: String, name: String, hook: String },
    /// Remove a hook file, if present.
    RemoveHook { root: String, name: String, hook: String },
    /// Make a backup home fast-forward-only with no deletes.
    Harden { root: String, name: String },
    /// A trivial command that answers when the server is reachable.
    Probe,
}

/// `<root>/<name>.git/hooks/<hook>`.
pub open spec fn hook_path(root: Seq<char>, name: Seq<char>, hook: Seq<char>) -> Seq<char> {
    home_dir(root, name) + "/hooks/"@ + hook
}

impl ServerOp {
    /// The shell command run on the server.
    pub open spec fn spec_command(&self) -> Seq<char> {
        match self {
            ServerOp::HomeExists { root, name } => "test -d "@ + home_dir(root@, name@),
            ServerOp::InitBare { root, name } => "git init --bare "@ + home_dir(root@, name@),
            ServerOp::SetHead { root, name, branch } => "git --git-dir="@ + home_dir(root@, name@)
                + " symbolic-ref HEAD refs/heads/"@ + branch@,
            ServerOp::InstallHook { root, name, hook } => "cat > '"@ + hook_path(root@, name@, hook@)
                + "' && chmod 755 '"@ + hook_path(root@, name@, hook@) + "'"@,
            ServerOp::RemoveHook { root, name, hook } => "rm -f '"@ + hook_path(root@, name@, hook@)
                + "'"@,
            ServerOp::Harden { root, name } => spec_harden_cmd(root@, name@),
            ServerOp::Probe => "true"@,
        }
    }

    /// The shell command run on the server.
    pub fn command(&self) -> (c: String)
        ensures
            c@ == self.spec_command(),
    {
        match self {
            ServerOp::HomeExists { root, name } => {
                let mut c = string_from("test -d ");
                push_home_dir(&mut c, root.as_str(), name.as_str());
                c
            },
            ServerOp::InitBare { root, name } => {
                let mut c = string_from("git init --bare ");
                push_home_dir(&mut c, root.as_str(), name.as_str());
                c
            },
            ServerOp::SetHead { root, name, branch } => {
                let mut c = string_from("git --git-dir=");
                push_home_dir(&mut c, root.as_str(), name.as_str());
                push_str(&mut c, " symbolic-ref HEAD refs/heads/");
                push_str(&mut c, branch.as_str());
                c
            },
            ServerOp::InstallHook { root, name, hook } => {
                let mut c = string_from("cat > '");
                push_hook_path(&mut c, root.as_str(), name.as_str(), hook.as_str());
                push_str(&mut c, "' && chmod 755 '");
                push_hook_path(&mut c, root.as_str(), name.as_str(), hook.as_str());
                push_str(&mut c, "'");
                c
            },
            ServerOp::RemoveHook { root, name, hook } => {
                let mut c = string_from("rm -f '");
                push_hook_path(&mut c, root.as_str(), name.as_str(), hook.as_str());
                push_str(&mut c, "'");
                c
            },
            ServerOp::Harden { root, name } => harden_cmd(root.as_str(), name.as_str()),
            ServerOp::Probe => string_from("true"),
        }
    }
}

/// Does `<root>/<name>.git` exist on the server?
pub fn home_exists_op(root: &str, name: &str) -> (op: ServerOp)
    ensures
        op.spec_command() == "test -d "@ + home_dir(root@, name@),
{
    ServerOp::HomeExists { root: string_from(root), name: string_from(name) }
}

/// Create the bare home `<root>/<name>.git`.
pub fn init_bare(root: &str, name: &str) -> (op: ServerOp)
    ensures
        op.spec_command() == "git init --bare "@ + home_dir(root@, name@),
{
    ServerOp::InitBare { root: string_from(root), name: string_from(name) }
}

/// Point a fresh bare home's `HEAD` at `branch`, so it does not read as empty
/// when the pushed branch is not the default one.
pub fn set_head(root: &str, name: &str, branch: &str) -> (op: ServerOp)
    ensures
        op.spec_command() == "git --git-dir="@ + home_dir(root@, name@) + " symbolic-ref HEAD refs/heads/"@
            + branch@,
{
    ServerOp::SetHead { root: string_from(root), name: string_from(name), branch: string_from(branch) }
}

/// Install (overwrite) the hook `hook` of a home; its body comes on the
/// command's standard input.
pub fn install_hook(root: &str, name: &str, hook: &str) -> (op: ServerOp)
    ensures
        op.spec_command() == "cat > '"@ + hook_path(root@, name@, hook@) + "' && chmod 755 '"@ + hook_path(
            root@,
            name@,
            hook@,
        ) + "'"@,
{
    ServerOp::InstallHook { root: string_from(root), name: string_from(name), hook: string_from(hook) }
}

/// Remove the hook `hook` of a home, if present.
pub fn remove_hook(root: &str, name: &str, hook: &str) -> (op: ServerOp)
    ensures
        op.spec_command() == "rm -f '"@ + hook_path(root@, name@, hook@) + "'"@,
{
    ServerOp::RemoveHook { root: string_from(root), name: string_from(name), hook: string_from(hook) }
}

/// Make a backup home fast-forward-only with no deletes.
pub fn harden_home(root: &str, name: &str) -> (op: ServerOp)
    ensures
        op.spec_command() == spec_harden_cmd(root@, name@),
{
    ServerOp::Harden { root: string_from(root), name: string_from(name) }
}

/// Appends `<root>/<name>.git/hooks/<hook>` to `s`.
fn push_hook_path(s: &mut String, root: &str, name: &str, hook: &str)
    ensures
        final(s)@ == old(s)@ + hook_path(root@, name@, hook@),
{
    push_home_dir(s, root, name);
    push_str(s, "/hooks/");
    push_str(s, hook);
    assert(old(s)@ + home_dir(root@, name@) + "/hooks/"@ + hook@ == old(s)@ + hook_path(
        root@,
        name@,
        hook@,
    ));
}

/// Does the home exist? (`test -d` succeeded.)
pub fn home_exists(out: &ProcessOutput) -> (b: bool)
    ensures
        b == out.success,
{
    out.success
}

/// `xs` joined with `sep` between neighbours.
pub open spec fn join_with(xs: Seq<Seq<char>>, sep: Seq<char>) -> Seq<char>
    decreases xs.len(),
{
    if xs.len() == 0 {
        Seq::empty()
    } else if xs.len() == 1 {
        xs[0]
    } else {
        join_with(xs.drop_last(), sep) + sep + xs.last()
    }
}

/// `xs` joined with `sep`.
pub fn join_strings(xs: &Vec<String>, sep: &str) -> (r: String)
    ensures
        r@ == join_with(views(xs@), sep@),
{
    let mut r = String::new();
    let n = xs.len();
    for k in 0..n
        invariant
            n == xs@.len(),
            r@ == join_with(views(xs@).take(k as int), sep@),
    {
        proof {
            let w = views(xs@);
            assert(w.take(k + 1).drop_last() == w.take(k as int));
            assert(w.take(k + 1).last() == xs@[k as int]@);
            if k == 0 {
                assert(w.take(1)[0] == xs@[0]@);
            }
        }
        if k > 0 {
            push_str(&mut r, sep);
        }
        push_str(&mut r, xs[k].as_str());
        proof {
            if k == 0 {
                assert(r@ == xs@[0]@);
            }
        }
    }
    assert(views(xs@).take(n as int) == views(xs@));
    r
}

/// What probing the aliases, in order, came to: the first that answered;
/// otherwise an error naming `what` (`server` or `backup`).
pub open spec fn spec_first_live_alias(aliases: Seq<Seq<char>>, what: Seq<char>, probes: Seq<bool>) -> Result<Seq<char>, Seq<char>> {
    if aliases.len() == 0 {
        Err("no SSH aliases to reach the "@ + what + " (set its `aliases` or wire a repo's remotes)"@)
    } else if probes.len() > 0 && probes.last() {
        Ok(aliases[probes.len() - 1])
    } else {
        Err(what + " unreachable over: "@ + join_with(aliases, ", "@))
    }
}

/// The first of `aliases` that answered a trivial command, i.e. the live
/// transport, from the probes made in order (`probes` holds one answer per
/// alias tried, stopping at the first that answered).
pub fn first_live_alias(aliases: &Vec<String>, what: &str, probes: &Vec<bool>) -> (r: Result<String, String>)
    requires
        crate::inventory::is_failover_run(aliases@.len(), probes@),
    ensures
        match (r, spec_first_live_alias(views(aliases@), what@, probes@)) {
            (Ok(a), Ok(b)) => a@ == b,
            (Err(e), Err(f)) => e@ == f,
            _ => false,
        },
{
    if aliases.len() == 0 {
        let mut e = string_from("no SSH aliases to reach the ");
        push_str(&mut e, what);
        push_str(&mut e, " (set its `aliases` or wire a repo's remotes)");
        return Err(e);
    }
    let n = probes.len();
    if n > 0 && probes[n - 1] {
        assert(views(aliases@)[n - 1] == aliases@[n - 1]@);
        return Ok(aliases[n - 1].clone());
    }
    let mut e = string_from(what);
    push_str(&mut e, " unreachable over: ");
    let j = join_strings(aliases, ", ");
    push_str(&mut e, j.as_str());
    Err(e)
}

/// The live primary transport: the first of the resolved aliases that answered.
pub fn pick_alias(cfg: &Config, repos: &Vec<RepoUrls>, probes: &Vec<bool>) -> (r: Result<String, String>)
    requires
        crate::inventory::is_failover_run(spec_resolve_aliases(cfg, repos@).len(), probes@),
    ensures
        match (r, spec_first_live_alias(spec_resolve_aliases(cfg, repos@), "server"@, probes@)) {
            (Ok(a), Ok(b)) => a@ == b,
            (Err(e), Err(f)) => e@ == f,
            _ => false,
        },
{
    let aliases = resolve_aliases(cfg, repos);
    first_live_alias(&aliases, "server", probes)
}

/// The live backup transport: the first of the explicit `[backup].aliases`
/// that answered (a backup has no per-repo remote to derive one from).
pub fn pick_backup_alias(cfg: &Config, probes: &Vec<bool>) -> (r: Result<String, String>)
    requires
        crate::inventory::is_failover_run(cfg.backup.aliases@.len(), probes@),
    ensures
        match (r, spec_first_live_alias(views(cfg.backup.aliases@), "backup"@, probes@)) {
            (Ok(a), Ok(b)) => a@ == b,
            (Err(e), Err(f)) => e@ == f,
            _ => false,
        },
{
    first_live_alias(&cfg.backup.aliases, "backup", probes)
}

/// The alias paired with the `i`-th transport remote: the `i`-th alias, or
/// the fallback when the aliases run short.
pub open spec fn wiring_alias(aliases: Seq<Seq<char>>, i: int, fallback: Seq<char>) -> Seq<char> {
    if i < aliases.len() {
        aliases[i]
    } else {
        fallback
    }
}

/// The texts of a list of string pairs.
pub open spec fn pair_views(v: Seq<(String, String)>) -> Seq<(Seq<char>, Seq<char>)> {
    v.map_values(|p: (String, String)| (p.0@, p.1@))
}

/// The `(remote, URL)` pairs to wire on a working copy for home `name`.
pub open spec fn spec_remote_wiring(
    remotes: Seq<Seq<char>>,
    aliases: Seq<Seq<char>>,
    root: Seq<char>,
    name: Seq<char>,
    fallback: Seq<char>,
) -> Seq<(Seq<char>, Seq<char>)> {
    Seq::new(
        remotes.len(),
        |i: int| (remotes[i], spec_home_url(wiring_alias(aliases, i, fallback), root, name)),
    )
}

/// The `(remote-name, URL)` pairs to wire on a working copy for home `name`,
/// pairing each transport remote with an SSH alias positionally; when the
/// aliases run short, the remaining remotes use `fallback_alias` (the live
/// one just used).
pub fn remote_wiring(
    cfg: &Config,
    repos: &Vec<RepoUrls>,
    root: &str,
    name: &str,
    fallback_alias: &str,
) -> (w: Vec<(String, String)>)
    ensures
        pair_views(w@) == spec_remote_wiring(
            spec_transport_remotes(cfg),
            spec_resolve_aliases(cfg, repos@),
            root@,
            name@,
            fallback_alias@,
        ),
{
    let remotes = transport_remotes(cfg);
    let aliases = resolve_aliases(cfg, repos);
    let ghost target = spec_remote_wiring(views(remotes@), views(aliases@), root@, name@, fallback_alias@);
    let mut w: Vec<(String, String)> = Vec::new();
    let n = remotes.len();
    for i in 0..n
        invariant
            n == remotes@.len(),
            target == spec_remote_wiring(views(remotes@), views(aliases@), root@, name@, fallback_alias@),
            pair_views(w@) == target.take(i as int),
    {
        let alias: &str = if i < aliases.len() {
            aliases[i].as_str()
        } else {
            fallback_alias
        };
        assert(alias@ == wiring_alias(views(aliases@), i as int, fallback_alias@));
        let url = home_url(alias, root, name);
        let pair = (remotes[i].clone(), url);
        proof {
            assert(pair_views(w@.push(pair)) == pair_views(w@).push((pair.0@, pair.1@)));
            assert(target.take(i + 1) == target.take(i as int).push(target[i as int]));
        }
        w.push(pair);
    }
    assert(target.take(n as int) == target);
    w
}


// ------------------------------------------------------------- URL laws

/// No separator of a URL path (`/` or `:`) in `s`.
pub open spec fn no_url_sep(s: Seq<char>) -> bool {
    forall|i: int| 0 <= i < s.len() ==> !is_url_sep(#[trigger] s[i])
}

/// The last segment after a separator is the segment itself.
proof fn lemma_last_segment_after_sep(p: Seq<char>, seg: Seq<char>)
    requires
        p.len() > 0,
        is_url_sep(p.last()),
        no_url_sep(seg),
    ensures
        last_segment(p + seg) == seg,
    decreases seg.len(),
{
    if seg.len() == 0 {
        assert(p + seg == p);
    } else {
        let d = seg.drop_last();
        assert(no_url_sep(d)) by {
            assert forall|i: int| 0 <= i < d.len() implies !is_url_sep(#[trigger] d[i]) by {
                assert(d[i] == seg[i]);
            }
        }
        lemma_last_segment_after_sep(p, d);
        assert((p + seg).drop_last() == p + d);
        assert((p + seg).last() == seg.last());
        assert(seg[seg.len() - 1] == seg.last());
        assert(d.push(seg.last()) == seg);
    }
}

/// The text before the first separator of `a + r`, when `a` has none and `r`
/// starts with one, is `a`.
proof fn lemma_before_sep(a: Seq<char>, r: Seq<char>)
    requires
        no_url_sep(a),
        r.len() > 0,
        is_url_sep(r[0]),
    ensures
        before_url_sep(a + r) == a,
    decreases a.len(),
{
    if a.len() == 0 {
        assert(a + r == r);
    } else {
        let t = a.drop_first();
        assert(no_url_sep(t)) by {
            assert forall|i: int| 0 <= i < t.len() implies !is_url_sep(#[trigger] t[i]) by {
                assert(t[i] == a[i + 1]);
            }
        }
        lemma_before_sep(t, r);
        assert((a + r).drop_first() == t + r);
        assert((a + r)[0] == a[0]);
        assert(!is_url_sep(a[0]));
        assert(seq![a[0]] + t == a);
    }
}

/// With no `c` in `a`, all of `a` follows its last `c`.
proof fn lemma_after_last_absent(a: Seq<char>, c: char)
    requires
        !a.contains(c),
    ensures
        after_last(a, c) == a,
    decreases a.len(),
{
    if a.len() > 0 {
        let d = a.drop_last();
        assert(!d.contains(c)) by {
            if d.contains(c) {
                let k = choose|k: int| 0 <= k < d.len() && d[k] == c;
                assert(a[k] == c);
            }
        }
        lemma_after_last_absent(d, c);
        assert(a[a.len() - 1] == a.last());
        assert(d.push(a.last()) == a);
    }
}

/// The home name read back from a home's URL is the name it was built from,
/// whatever the alias and root, when the name is a plain path segment.
pub proof fn lemma_home_url_names_its_home(alias: Seq<char>, root: Seq<char>, name: Seq<char>)
    requires
        name.len() > 0,
        no_url_sep(name),
    ensures
        spec_home_name(spec_home_url(alias, root, name)) == Some(name),
{
    reveal_strlit("ssh://");
    reveal_strlit("/");
    reveal_strlit(".git");
    let url = spec_home_url(alias, root, name);
    let pre = "ssh://"@ + alias + root + "/"@;
    let seg = name + ".git"@;
    assert(url == pre + seg);
    assert(url[0] == 's');
    assert(url.last() == 't');
    assert(!is_ws('s') && !is_ws('t'));
    assert(trim_start_ws(url) == url);
    assert(trim_end_ws(url) == url);
    assert(trim_end_slash(url) == url);
    assert(pre.last() == '/');
    assert(no_url_sep(seg)) by {
        assert forall|i: int| 0 <= i < seg.len() implies !is_url_sep(#[trigger] seg[i]) by {
            if i < name.len() {
                assert(seg[i] == name[i]);
            }
        }
    }
    lemma_last_segment_after_sep(pre, seg);
    assert(seg.subrange(seg.len() - 4, seg.len() as int) == seq!['.', 'g', 'i', 't']);
    assert(seg.subrange(0, seg.len() - 4) == name);
    assert(strip_git(seg) == name);
}

/// The SSH alias read back from a home's URL is the alias it was built with,
/// when the alias is a plain host name and the root an absolute path (or
/// empty).
pub proof fn lemma_home_url_names_its_alias(alias: Seq<char>, root: Seq<char>, name: Seq<char>)
    requires
        alias.len() > 0,
        no_url_sep(alias),
        !alias.contains('@'),
        root.len() == 0 || root[0] == '/',
    ensures
        spec_ssh_alias(spec_home_url(alias, root, name)) == Some(alias),
{
    reveal_strlit("ssh://");
    reveal_strlit("/");
    let url = spec_home_url(alias, root, name);
    let rest = home_dir(root, name);
    assert(url == "ssh://"@ + (alias + rest));
    assert(url.take(6) == "ssh://"@);
    assert(has_prefix(url, "ssh://"@));
    assert(url.skip(6) == alias + rest);
    assert(rest.len() > 0 && is_url_sep(rest[0])) by {
        if root.len() == 0 {
            assert(rest[0] == '/');
        } else {
            assert(rest[0] == root[0]);
        }
    }
    lemma_before_sep(alias, rest);
    lemma_after_last_absent(alias, '@');
}

} // verus!
