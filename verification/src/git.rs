//! Local reads and writes through the system `git`: which argument list each
//! operation hands to `git` (never through a shell), and what the tool reads
//! from the answer. Running the process is the caller's part.
use vstd::prelude::*;
use crate::classify::{spec_classify, BranchSync};
use crate::model::{AheadBehind, WorkingTree};
use crate::status::{parse_porcelain_v2_z, spec_porcelain_counts};
use crate::text::{
    chars_of, has_prefix, lines, lines_of, parse_u32, parse_u32_str, push_str, split_on,
    split_ranges, split_whitespace, starts_with, string_from, string_of, trim, trim_ws, views,
    words, lemma_split_on_nonempty,
};

verus! {

/// What one external command (`git`, `ssh`) reported: whether it exited with
/// status 0, and its two output streams (decoded as UTF-8, invalid sequences
/// replaced).
pub struct ProcessOutput {
    pub success: bool,
    pub stdout: String,
    pub stderr: String,
}

/// A `git` operation of the tool. All but `Clone` and the two `ls-remote`
/// reads run inside a repo (`git -C <repo> ...`).
pub enum GitOp {
    /// The checked-out branch (fails on a detached `HEAD`).
    CurrentBranch,
    /// The names under `refs/heads`.
    LocalBranches,
    /// The configured remotes.
    Remotes,
    /// The fetch URL of a remote.
    RemoteUrl { remote: String },
    /// The committer date of `HEAD`.
    LastCommitDate,
    /// Whether `HEAD` names a commit.
    HasCommits,
    /// The working-tree status, NUL-separated.
    WorkingTree,
    /// Whether the local remote-tracking ref `refs/remotes/<remote>/<branch>` exists.
    TrackingRef { branch: String, remote: String },
    /// Commits only on each side of `<branch>...<remote>/<branch>`.
    AheadBehind { branch: String, remote: String },
    /// A trial merge of `branch` with `<remote>/<branch>` that touches nothing.
    MergeTree { branch: String, remote: String },
    /// A plain (never forced) push of `branch` to `remote`.
    Push { remote: String, branch: String, dry_run: bool, tags: bool },
    /// `git clone <url> <dir>`.
    Clone { url: String, dir: String },
    /// Add a remote.
    AddRemote { name: String, url: String },
    /// Repoint an existing remote.
    SetRemoteUrl { name: String, url: String },
    /// Remove a remote.
    RemoveRemote { name: String },
    /// Refresh the remote-tracking refs of a remote.
    Fetch { remote: String },
    /// The branch heads of a remote URL.
    LsRemoteHeads { url: String },
    /// The head of one branch of a remote URL.
    LsRemoteSha { url: String, branch: String },
    /// Whether `ancestor` is an ancestor of (or equal to) `descendant`.
    IsAncestor { ancestor: String, descendant: String },
    /// Fast-forward the checked-out branch to `<remote>/<branch>`.
    FfMergeCurrent { remote: String, branch: String },
    /// Fast-forward a branch that is not checked out to its tracking ref.
    FfUpdateBranch { remote: String, branch: String },
}

/// `<remote>/<branch>`.
pub open spec fn tracking_name(remote: Seq<char>, branch: Seq<char>) -> Seq<char> {
    remote + "/"@ + branch
}

impl GitOp {
    /// The operation runs inside a repo (`git -C <repo>`).
    pub open spec fn spec_in_repo(&self) -> bool {
        !(self is Clone || self is LsRemoteHeads || self is LsRemoteSha)
    }

    /// The arguments after `git` (and after `-C <repo>` for an in-repo operation).
    pub open spec fn spec_args(&self) -> Seq<Seq<char>> {
        match self {
            GitOp::CurrentBranch => seq!["symbolic-ref"@, "--quiet"@, "--short"@, "HEAD"@],
            GitOp::LocalBranches => seq!["for-each-ref"@, "--format=%(refname:short)"@, "refs/heads"@],
            GitOp::Remotes => seq!["remote"@],
            GitOp::RemoteUrl { remote } => seq!["remote"@, "get-url"@, remote@],
            GitOp::LastCommitDate => seq!["log"@, "-1"@, "--format=%cs"@],
            GitOp::HasCommits => seq!["rev-parse"@, "--verify"@, "--quiet"@, "HEAD"@],
            GitOp::WorkingTree => seq!["status"@, "--porcelain=v2"@, "-z"@],
            GitOp::TrackingRef { branch, remote } => seq![
                "rev-parse"@,
                "--verify"@,
                "--quiet"@,
                "refs/remotes/"@ + tracking_name(remote@, branch@),
            ],
            GitOp::AheadBehind { branch, remote } => seq![
                "rev-list"@,
                "--left-right"@,
                "--count"@,
                branch@ + "..."@ + tracking_name(remote@, branch@),
            ],
            GitOp::MergeTree { branch, remote } => seq![
                "merge-tree"@,
                "--write-tree"@,
                branch@,
                tracking_name(remote@, branch@),
            ],
            GitOp::Push { remote, branch, dry_run, tags } => {
                let a = seq!["push"@];
                let b = if *dry_run {
                    a.push("--dry-run"@)
                } else {
                    a
                };
                let c = if *tags {
                    b.push("--follow-tags"@)
                } else {
                    b
                };
                c.push(remote@).push(branch@)
            },
            GitOp::Clone { url, dir } => seq!["clone"@, url@, dir@],
            GitOp::AddRemote { name, url } => seq!["remote"@, "add"@, name@, url@],
            GitOp::SetRemoteUrl { name, url } => seq!["remote"@, "set-url"@, name@, url@],
            GitOp::RemoveRemote { name } => seq!["remote"@, "remove"@, name@],
            GitOp::Fetch { remote } => seq!["fetch"@, remote@],
            GitOp::LsRemoteHeads { url } => seq!["ls-remote"@, "--heads"@, url@],
            GitOp::LsRemoteSha { url, branch } => seq!["ls-remote"@, url@, "refs/heads/"@ + branch@],
            GitOp::IsAncestor { ancestor, descendant } => seq![
                "merge-base"@,
                "--is-ancestor"@,
                ancestor@,
                descendant@,
            ],
            GitOp::FfMergeCurrent { remote, branch } => seq![
                "merge"@,
                "--ff-only"@,
                tracking_name(remote@, branch@),
            ],
            GitOp::FfUpdateBranch { remote, branch } => seq![
                "fetch"@,
                "."@,
                "refs/remotes/"@ + tracking_name(remote@, branch@) + ":refs/heads/"@ + branch@,
            ],
        }
    }

    /// Does the operation run inside a repo?
    pub fn in_repo(&self) -> (b: bool)
        ensures
            b == self.spec_in_repo(),
    {
        match self {
            GitOp::Clone { .. } | GitOp::LsRemoteHeads { .. } | GitOp::LsRemoteSha { .. } => false,
            _ => true,
        }
    }

    /// The argument list of the operation.
    pub fn args(&self) -> (r: Vec<String>)
        ensures
            views(r@) == self.spec_args(),
    {
        let mut r: Vec<String> = Vec::new();
        match self {
            GitOp::CurrentBranch => {
                push_arg(&mut r, "symbolic-ref");
                push_arg(&mut r, "--quiet");
                push_arg(&mut r, "--short");
                push_arg(&mut r, "HEAD");
            },
            GitOp::LocalBranches => {
                push_arg(&mut r, "for-each-ref");
                push_arg(&mut r, "--format=%(refname:short)");
                push_arg(&mut r, "refs/heads");
            },
            GitOp::Remotes => {
                push_arg(&mut r, "remote");
            },
            GitOp::RemoteUrl { remote } => {
                push_arg(&mut r, "remote");
                push_arg(&mut r, "get-url");
                push_arg(&mut r, remote.as_str());
            },
            GitOp::LastCommitDate => {
                push_arg(&mut r, "log");
                push_arg(&mut r, "-1");
                push_arg(&mut r, "--format=%cs");
            },
            GitOp::HasCommits => {
                push_arg(&mut r, "rev-parse");
                push_arg(&mut r, "--verify");
                push_arg(&mut r, "--quiet");
                push_arg(&mut r, "HEAD");
            },
            GitOp::WorkingTree => {
                push_arg(&mut r, "status");
                push_arg(&mut r, "--porcelain=v2");
                push_arg(&mut r, "-z");
            },
            GitOp::TrackingRef { branch, remote } => {
                push_arg(&mut r, "rev-parse");
                push_arg(&mut r, "--verify");
                push_arg(&mut r, "--quiet");
                let mut t = string_from("refs/remotes/");
                push_tracking(&mut t, remote.as_str(), branch.as_str());
                push_owned(&mut r, t);
            },
            GitOp::AheadBehind { branch, remote } => {
                push_arg(&mut r, "rev-list");
                push_arg(&mut r, "--left-right");
                push_arg(&mut r, "--count");
                let mut t = string_from(branch.as_str());
                push_str(&mut t, "...");
                push_tracking(&mut t, remote.as_str(), branch.as_str());
                push_owned(&mut r, t);
            },
            GitOp::MergeTree { branch, remote } => {
                push_arg(&mut r, "merge-tree");
                push_arg(&mut r, "--write-tree");
                push_arg(&mut r, branch.as_str());
                let mut t = String::new();
                push_tracking(&mut t, remote.as_str(), branch.as_str());
                push_owned(&mut r, t);
            },
            GitOp::Push { remote, branch, dry_run, tags } => {
                push_arg(&mut r, "push");
                if *dry_run {
                    push_arg(&mut r, "--dry-run");
                }
                if *tags {
                    push_arg(&mut r, "--follow-tags");
                }
                push_arg(&mut r, remote.as_str());
                push_arg(&mut r, branch.as_str());
            },
            GitOp::Clone { url, dir } => {
                push_arg(&mut r, "clone");
                push_arg(&mut r, url.as_str());
                push_arg(&mut r, dir.as_str());
            },
            GitOp::AddRemote { name, url } => {
                push_arg(&mut r, "remote");
                push_arg(&mut r, "add");
                push_arg(&mut r, name.as_str());
                push_arg(&mut r, url.as_str());
            },
            GitOp::SetRemoteUrl { name, url } => {
                push_arg(&mut r, "remote");
                push_arg(&mut r, "set-url");
                push_arg(&mut r, name.as_str());
                push_arg(&mut r, url.as_str());
            },
            GitOp::RemoveRemote { name } => {
                push_arg(&mut r, "remote");
                push_arg(&mut r, "remove");
                push_arg(&mut r, name.as_str());
            },
            GitOp::Fetch { remote } => {
                push_arg(&mut r, "fetch");
                push_arg(&mut r, remote.as_str());
            },
            GitOp::LsRemoteHeads { url } => {
                push_arg(&mut r, "ls-remote");
                push_arg(&mut r, "--heads");
                push_arg(&mut r, url.as_str());
            },
            GitOp::LsRemoteSha { url, branch } => {
                push_arg(&mut r, "ls-remote");
                push_arg(&mut r, url.as_str());
                let mut t = string_from("refs/heads/");
                push_str(&mut t, branch.as_str());
                push_owned(&mut r, t);
            },
            GitOp::IsAncestor { ancestor, descendant } => {
                push_arg(&mut r, "merge-base");
                push_arg(&mut r, "--is-ancestor");
                push_arg(&mut r, ancestor.as_str());
                push_arg(&mut r, descendant.as_str());
            },
            GitOp::FfMergeCurrent { remote, branch } => {
                push_arg(&mut r, "merge");
                push_arg(&mut r, "--ff-only");
                let mut t = String::new();
                push_tracking(&mut t, remote.as_str(), branch.as_str());
                push_owned(&mut r, t);
            },
            GitOp::FfUpdateBranch { remote, branch } => {
                push_arg(&mut r, "fetch");
                push_arg(&mut r, ".");
                let mut t = string_from("refs/remotes/");
                push_tracking(&mut t, remote.as_str(), branch.as_str());
                push_str(&mut t, ":refs/heads/");
                push_str(&mut t, branch.as_str());
                push_owned(&mut r, t);
            },
        }
        r
    }
}

/// Clone `url` into `dir` (run outside any repo).
pub fn clone(url: &str, dir: &str) -> (op: GitOp)
    ensures
        !op.spec_in_repo(),
        op.spec_args() == seq!["clone"@, url@, dir@],
{
    GitOp::Clone { url: string_from(url), dir: string_from(dir) }
}

/// Add a remote `name` pointing at `url`.
pub fn add_remote(name: &str, url: &str) -> (op: GitOp)
    ensures
        op.spec_in_repo(),
        op.spec_args() == seq!["remote"@, "add"@, name@, url@],
{
    GitOp::AddRemote { name: string_from(name), url: string_from(url) }
}

/// Repoint an existing remote `name` at `url`.
pub fn set_remote_url(name: &str, url: &str) -> (op: GitOp)
    ensures
        op.spec_in_repo(),
        op.spec_args() == seq!["remote"@, "set-url"@, name@, url@],
{
    GitOp::SetRemoteUrl { name: string_from(name), url: string_from(url) }
}

/// Remove the remote `name` (its absence is no error to the caller).
pub fn remove_remote(name: &str) -> (op: GitOp)
    ensures
        op.spec_in_repo(),
        op.spec_args() == seq!["remote"@, "remove"@, name@],
{
    GitOp::RemoveRemote { name: string_from(name) }
}

/// Refresh the remote-tracking refs of `remote` before classifying.
pub fn fetch(remote: &str) -> (op: GitOp)
    ensures
        op.spec_in_repo(),
        op.spec_args() == seq!["fetch"@, remote@],
{
    GitOp::Fetch { remote: string_from(remote) }
}

/// `ops` fetches each of `remotes`, in order.
pub open spec fn fetches_of(ops: Seq<GitOp>, remotes: Seq<Seq<char>>) -> bool {
    &&& ops.len() == remotes.len()
    &&& forall|i: int|
        0 <= i < ops.len() ==> (#[trigger] ops[i]).spec_in_repo() && ops[i].spec_args() == seq![
            "fetch"@,
            remotes[i],
        ]
}

/// A fetch of each of `remotes`, in order.
pub fn fetch_all(remotes: &Vec<String>) -> (ops: Vec<GitOp>)
    ensures
        fetches_of(ops@, views(remotes@)),
{
    let mut ops: Vec<GitOp> = Vec::new();
    let n = remotes.len();
    for i in 0..n
        invariant
            n == remotes@.len(),
            fetches_of(ops@, views(remotes@).take(i as int)),
    {
        let op = fetch(remotes[i].as_str());
        proof {
            assert(views(remotes@).take(i + 1) == views(remotes@).take(i as int).push(remotes@[i as int]@));
        }
        ops.push(op);
        proof {
            let v = views(remotes@).take(i + 1);
            assert forall|k: int| 0 <= k < ops@.len() implies (#[trigger] ops@[k]).spec_in_repo()
                && ops@[k].spec_args() == seq!["fetch"@, v[k]] by {
                if k < i {
                    assert(v[k] == views(remotes@).take(i as int)[k]);
                }
            }
        }
    }
    assert(views(remotes@).take(n as int) == views(remotes@));
    ops
}

/// Fast-forward the checked-out branch to `<remote>/<branch>` (a merge that
/// refuses anything but a fast-forward).
pub fn ff_merge_current(remote: &str, branch: &str) -> (op: GitOp)
    ensures
        op.spec_in_repo(),
        op.spec_args() == seq!["merge"@, "--ff-only"@, tracking_name(remote@, branch@)],
{
    GitOp::FfMergeCurrent { remote: string_from(remote), branch: string_from(branch) }
}

/// Fast-forward a branch that is not checked out to its tracking ref, without
/// a checkout (a ref update git refuses unless it is a fast-forward).
pub fn ff_update_branch(remote: &str, branch: &str) -> (op: GitOp)
    ensures
        op.spec_in_repo(),
        op.spec_args() == seq![
            "fetch"@,
            "."@,
            "refs/remotes/"@ + tracking_name(remote@, branch@) + ":refs/heads/"@ + branch@,
        ],
{
    GitOp::FfUpdateBranch { remote: string_from(remote), branch: string_from(branch) }
}

/// Appends a copy of `a` to the argument list.
fn push_arg(r: &mut Vec<String>, a: &str)
    ensures
        views(final(r)@) == views(old(r)@).push(a@),
{
    push_owned(r, string_from(a));
}

/// Appends `a` to the argument list.
fn push_owned(r: &mut Vec<String>, a: String)
    ensures
        views(final(r)@) == views(old(r)@).push(a@),
{
    proof {
        assert(views(r@.push(a)) == views(r@).push(a@));
    }
    r.push(a);
}

/// Appends `<remote>/<branch>` to `t`.
fn push_tracking(t: &mut String, remote: &str, branch: &str)
    ensures
        final(t)@ == old(t)@ + tracking_name(remote@, branch@),
{
    push_str(t, remote);
    push_str(t, "/");
    push_str(t, branch);
    assert(old(t)@ + remote@ + "/"@ + branch@ == old(t)@ + tracking_name(remote@, branch@));
}

/// The trimmed, non-blank lines of `s`.
pub open spec fn nonblank_lines(s: Seq<char>) -> Seq<Seq<char>> {
    lines_of(s).filter_map(|l: Seq<char>| trimmed_nonempty(l))
}

/// The trimmed, non-blank lines of `s`.
fn nonblank_trimmed_lines(s: &str) -> (r: Vec<String>)
    ensures
        views(r@) == nonblank_lines(s@),
{
    let ls = lines(s);
    let ghost f = |l: Seq<char>| trimmed_nonempty(l);
    let mut r: Vec<String> = Vec::new();
    let n = ls.len();
    for k in 0..n
        invariant
            n == ls@.len(),
            views(ls@) == lines_of(s@),
            f == (|l: Seq<char>| trimmed_nonempty(l)),
            views(r@) == views(ls@).take(k as int).filter_map(f),
    {
        let t = trim(ls[k].as_str());
        proof {
            let w = views(ls@);
            assert(w[k as int] == ls@[k as int]@);
            w.lemma_filter_map_take_succ(f, k as int);
        }
        let ghost before = views(r@);
        let ghost w = views(ls@);
        if !t.as_str().is_empty() {
            assert(f(w[k as int]) == Some(t@));
            push_owned(&mut r, t);
            assert(before.push(t@) == before + seq![t@]);
            assert(views(r@) == w.take(k + 1).filter_map(f));
        } else {
            assert(f(w[k as int]) is None);
            assert(before + Seq::<Seq<char>>::empty() == before);
            assert(views(r@) == w.take(k + 1).filter_map(f));
        }
    }
    assert(views(ls@).take(n as int) == views(ls@));
    r
}

/// `s` trimmed, when something is left.
pub open spec fn trimmed_nonempty(s: Seq<char>) -> Option<Seq<char>> {
    if trim_ws(s).len() > 0 {
        Some(trim_ws(s))
    } else {
        None
    }
}

/// The text of an optional `String`.
pub open spec fn opt_view(v: Option<String>) -> Option<Seq<char>> {
    match v {
        Some(s) => Some(s@),
        None => None,
    }
}

/// `s` trimmed, when something is left.
fn trim_nonempty(s: &str) -> (r: Option<String>)
    ensures
        opt_view(r) == trimmed_nonempty(s@),
{
    let t = trim(s);
    if t.as_str().is_empty() {
        None
    } else {
        Some(t)
    }
}

/// Current branch name from `git symbolic-ref --quiet --short HEAD`: the
/// trimmed output when it succeeded; `None` when `HEAD` is detached.
pub fn current_branch(out: &ProcessOutput) -> (r: Option<String>)
    ensures
        opt_view(r) == (if out.success {
            Some(trim_ws(out.stdout@))
        } else {
            None
        }),
{
    if out.success {
        Some(trim(out.stdout.as_str()))
    } else {
        None
    }
}

/// Local branch names, one per non-blank output line, in git's order.
pub fn local_branches(out: &ProcessOutput) -> (r: Vec<String>)
    ensures
        views(r@) == nonblank_lines(out.stdout@),
{
    nonblank_trimmed_lines(out.stdout.as_str())
}

/// Configured remotes, one per non-blank output line.
pub fn remotes(out: &ProcessOutput) -> (r: Vec<String>)
    ensures
        views(r@) == nonblank_lines(out.stdout@),
{
    nonblank_trimmed_lines(out.stdout.as_str())
}

/// A remote's configured URL: the trimmed output of `git remote get-url`, or
/// `None` when the remote is absent (the command failed) or the URL is blank.
pub fn remote_url(out: &ProcessOutput) -> (r: Option<String>)
    ensures
        opt_view(r) == (if out.success {
            trimmed_nonempty(out.stdout@)
        } else {
            None
        }),
{
    if out.success {
        trim_nonempty(out.stdout.as_str())
    } else {
        None
    }
}

/// The committer date of `HEAD` (`YYYY-MM-DD`), or `None` when the repo has
/// no commits yet.
pub fn last_commit_date(out: &ProcessOutput) -> (r: Option<String>)
    ensures
        opt_view(r) == (if out.success {
            trimmed_nonempty(out.stdout@)
        } else {
            None
        }),
{
    if out.success {
        trim_nonempty(out.stdout.as_str())
    } else {
        None
    }
}

/// Does the repo have a commit at `HEAD`? (`git rev-parse --verify` succeeded.)
pub fn has_commits(out: &ProcessOutput) -> (b: bool)
    ensures
        b == out.success,
{
    out.success
}

/// Working-tree change counts from `git status --porcelain=v2 -z`.
pub fn working_tree(out: &ProcessOutput) -> (wt: WorkingTree)
    ensures
        wt == spec_porcelain_counts(out.stdout@),
{
    parse_porcelain_v2_z(out.stdout.as_str())
}

/// The first two words of the `rev-list --left-right --count` output read as
/// counts; a missing or unreadable word counts 0.
pub open spec fn count_at(s: Seq<char>, i: int) -> u32 {
    if i < words(s).len() {
        match parse_u32(words(s)[i]) {
            Some(n) => n,
            None => 0,
        }
    } else {
        0
    }
}

/// What `ahead_behind` reads: nothing when the remote-tracking ref is absent
/// (`count` is `None`, the count was not run) or the count failed.
pub open spec fn spec_ahead_behind(count: Option<ProcessOutput>) -> Option<AheadBehind> {
    match count {
        None => None,
        Some(o) => if o.success {
            Some(AheadBehind { ahead: count_at(o.stdout@, 0), behind: count_at(o.stdout@, 1) })
        } else {
            None
        },
    }
}

/// The word `i` of `ws` read as a count, 0 when missing or unreadable.
fn count_word(ws: &Vec<String>, i: usize) -> (n: u32)
    ensures
        n == (if i < ws@.len() {
            match parse_u32(ws@[i as int]@) {
                Some(v) => v,
                None => 0,
            }
        } else {
            0
        }),
{
    if i < ws.len() {
        match parse_u32_str(ws[i].as_str()) {
            Some(v) => v,
            None => 0,
        }
    } else {
        0
    }
}

/// Ahead/behind of a branch against its local remote-tracking ref, from the
/// output of `git rev-list --left-right --count <branch>...<remote>/<branch>`;
/// `count` is `None` when the tracking ref does not exist.
pub fn ahead_behind(count: Option<&ProcessOutput>) -> (r: Option<AheadBehind>)
    ensures
        r == spec_ahead_behind(match count {
            Some(o) => Some(*o),
            None => None,
        }),
{
    match count {
        None => None,
        Some(o) => {
            if !o.success {
                return None;
            }
            let ws = split_whitespace(o.stdout.as_str());
            proof {
                assert(views(ws@).len() == ws@.len());
                assert(forall|i: int| 0 <= i < ws@.len() ==> views(ws@)[i] == ws@[i]@);
            }
            let ahead = count_word(&ws, 0);
            let behind = count_word(&ws, 1);
            Some(AheadBehind { ahead, behind })
        },
    }
}

/// Does a trial merge (`git merge-tree --write-tree`) report conflicts? Exit
/// status 0 is a clean merge, 1 a conflicted one.
pub fn would_conflict(out: &ProcessOutput) -> (b: bool)
    ensures
        b == !out.success,
{
    !out.success
}

/// Both sides have commits the other lacks.
pub open spec fn spec_diverged(ab: Option<AheadBehind>) -> bool {
    match ab {
        Some(v) => v.ahead > 0 && v.behind > 0,
        None => false,
    }
}

/// Have the branch and its remote copy diverged (so a trial merge is asked for)?
pub fn is_diverged(ab: Option<AheadBehind>) -> (b: bool)
    ensures
        b == spec_diverged(ab),
{
    match ab {
        Some(v) => v.ahead > 0 && v.behind > 0,
        None => false,
    }
}

/// Full sync classification of a branch against one remote: the ahead/behind
/// read from the tracking ref, plus the trial merge's answer, which is asked
/// for exactly when the histories diverged.
pub fn branch_sync(ab: Option<AheadBehind>, probe: Option<&ProcessOutput>) -> (s: BranchSync)
    requires
        probe.is_some() == spec_diverged(ab),
    ensures
        s == spec_classify(
            ab,
            match probe {
                Some(o) => Some(!o.success),
                None => None,
            },
        ),
{
    let conflict = match probe {
        Some(o) => Some(would_conflict(o)),
        None => None,
    };
    BranchSync::classify(ab, conflict)
}

/// Result of one `git push` attempt.
pub struct PushOutcome {
    pub success: bool,
    pub stderr: String,
}

/// A push's outcome: its exit status and trimmed error output.
pub fn push(out: &ProcessOutput) -> (o: PushOutcome)
    ensures
        o.success == out.success,
        o.stderr@ == trim_ws(out.stderr@),
{
    PushOutcome { success: out.success, stderr: trim(out.stderr.as_str()) }
}

/// Outcome of a mutating git command: success and the trimmed error output
/// (its first line is what the tool shows on failure).
pub struct CmdOutcome {
    pub success: bool,
    pub stderr: String,
}

/// A mutating command's outcome (clone, remote add / set-url, fetch,
/// fast-forwards).
pub fn outcome(out: &ProcessOutput) -> (o: CmdOutcome)
    ensures
        o.success == out.success,
        o.stderr@ == trim_ws(out.stderr@),
{
    CmdOutcome { success: out.success, stderr: trim(out.stderr.as_str()) }
}

/// `"ls-remote <url>: <trimmed error output>"`.
pub open spec fn ls_remote_error(url: Seq<char>, stderr: Seq<char>) -> Seq<char> {
    "ls-remote "@ + url + ": "@ + trim_ws(stderr)
}

fn ls_remote_failure(url: &str, out: &ProcessOutput) -> (e: String)
    ensures
        e@ == ls_remote_error(url@, out.stderr@),
{
    let mut e = string_from("ls-remote ");
    push_str(&mut e, url);
    push_str(&mut e, ": ");
    let t = trim(out.stderr.as_str());
    push_str(&mut e, t.as_str());
    e
}

/// The second tab-separated field of a line, when it has one.
pub open spec fn second_tab_field(l: Seq<char>) -> Option<Seq<char>> {
    if split_on(l, '\t').len() >= 2 {
        Some(split_on(l, '\t')[1])
    } else {
        None
    }
}

/// The branch a `<sha>\trefs/heads/<branch>` line names.
pub open spec fn head_branch(l: Seq<char>) -> Option<Seq<char>> {
    match second_tab_field(l) {
        Some(f) => if has_prefix(f, "refs/heads/"@) {
            Some(f.skip("refs/heads/"@.len() as int))
        } else {
            None
        },
        None => None,
    }
}

/// The branch a line of `git ls-remote --heads` names.
fn line_head_branch(l: &str) -> (r: Option<String>)
    ensures
        opt_view(r) == head_branch(l@),
{
    let v = chars_of(l);
    let fs = split_ranges(&v, '\t');
    if fs.len() < 2 {
        return None;
    }
    let (lo, hi) = fs[1];
    assert(fs@[1].0 <= fs@[1].1);
    let f = string_of(&v, lo, hi);
    assert(f@ == split_on(l@, '\t')[1]);
    if !starts_with(f.as_str(), "refs/heads/") {
        return None;
    }
    let fv = chars_of(f.as_str());
    let p = chars_of("refs/heads/");
    let rest = string_of(&fv, p.len(), fv.len());
    assert(rest@ == f@.skip("refs/heads/"@.len() as int));
    Some(rest)
}

/// Branch names of a remote from `git ls-remote --heads <url>`; the error text
/// when the remote could not be read.
pub fn ls_remote_heads(url: &str, out: &ProcessOutput) -> (r: Result<Vec<String>, String>)
    ensures
        match r {
            Ok(v) => out.success && views(v@) == lines_of(out.stdout@).filter_map(
                |l: Seq<char>| head_branch(l),
            ),
            Err(e) => !out.success && e@ == ls_remote_error(url@, out.stderr@),
        },
{
    if !out.success {
        return Err(ls_remote_failure(url, out));
    }
    let ls = lines(out.stdout.as_str());
    let ghost f = |l: Seq<char>| head_branch(l);
    let mut r: Vec<String> = Vec::new();
    let n = ls.len();
    for k in 0..n
        invariant
            n == ls@.len(),
            views(ls@) == lines_of(out.stdout@),
            f == (|l: Seq<char>| head_branch(l)),
            views(r@) == views(ls@).take(k as int).filter_map(f),
    {
        let b = line_head_branch(ls[k].as_str());
        proof {
            let w = views(ls@);
            assert(w[k as int] == ls@[k as int]@);
            w.lemma_filter_map_take_succ(f, k as int);
        }
        let ghost before = views(r@);
        match b {
            Some(name) => {
                let ghost nv = name@;
                push_owned(&mut r, name);
                assert(before.push(nv) == before + seq![nv]);
            },
            None => {
                assert(before + Seq::<Seq<char>>::empty() == before);
            },
        }
    }
    assert(views(ls@).take(n as int) == views(ls@));
    Ok(r)
}

/// The commit a `git ls-remote <url> refs/heads/<branch>` answer names: the
/// first field of its first line, trimmed; none when blank or absent.
pub open spec fn first_sha(s: Seq<char>) -> Option<Seq<char>> {
    if lines_of(s).len() > 0 {
        trimmed_nonempty(split_on(lines_of(s)[0], '\t')[0])
    } else {
        None
    }
}

/// The head of one branch on a remote, from `git ls-remote <url>
/// refs/heads/<branch>`: `None` when the remote has no such branch; the error
/// text when the remote could not be read.
pub fn ls_remote_sha(url: &str, out: &ProcessOutput) -> (r: Result<Option<String>, String>)
    ensures
        match r {
            Ok(v) => out.success && opt_view(v) == first_sha(out.stdout@),
            Err(e) => !out.success && e@ == ls_remote_error(url@, out.stderr@),
        },
{
    if !out.success {
        return Err(ls_remote_failure(url, out));
    }
    let ls = lines(out.stdout.as_str());
    if ls.len() == 0 {
        return Ok(None);
    }
    assert(views(ls@)[0] == ls@[0]@);
    let v = chars_of(ls[0].as_str());
    let fs = split_ranges(&v, '\t');
    proof {
        lemma_split_on_nonempty(v@, '\t');
    }
    let (lo, hi) = fs[0];
    assert(fs@[0].0 <= fs@[0].1);
    let first = string_of(&v, lo, hi);
    Ok(trim_nonempty(first.as_str()))
}

/// Is one commit an ancestor of (or equal to) another? (`git merge-base
/// --is-ancestor` succeeded.)
pub fn is_ancestor(out: &ProcessOutput) -> (b: bool)
    ensures
        b == out.success,
{
    out.success
}

} // verus!
