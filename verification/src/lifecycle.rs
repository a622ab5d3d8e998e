//! `gr create`, `gr clone` and `gr onboard`: the commands that close the gap
//! between a local working copy and its home. They require the server and
//! fail loudly rather than half-act; none ever forces, commits or merges.
use vstd::prelude::*;
use crate::args::CloneArgs;
use crate::config::{path_join, join_path, Config};
use crate::git::{add_remote, opt_view, set_remote_url, GitOp, PushOutcome};
use crate::inventory::{spec_transport_remotes, transport_remotes, BackupState};
use crate::paths::{is_under_root, repo_name, spec_repo_name, under_some_root};
use crate::presence::{Lifecycle, RepoPresence};
use crate::push::spec_present;
use crate::server::{harden_home, home_exists_op, init_bare, install_hook, set_head, ServerOp};
use crate::text::{
    chars_of, contains_string, decimal, first_line, has_prefix, push_decimal, push_str,
    spec_first_line, string_from, string_of, trim, trim_ws, views,
};

verus! {

/// The error of a lifecycle command when no primary server is configured.
pub open spec fn spec_require_server(cfg: &Config, config_path: Seq<char>) -> Result<(), Seq<char>> {
    if cfg.server.root@.len() > 0 {
        Ok(())
    } else {
        Err(
            "no [server] configured in "@ + config_path
                + " \u{2014} add `[server]\\nroot = \"/data/git\"` to enable lifecycle commands"@,
        )
    }
}

/// Lifecycle commands need a primary server.
pub fn require_server(cfg: &Config, config_path: &str) -> (r: Result<(), String>)
    ensures
        match (r, spec_require_server(cfg, config_path@)) {
            (Ok(_), Ok(_)) => true,
            (Err(e), Err(f)) => e@ == f,
            _ => false,
        },
{
    if cfg.server_enabled() {
        return Ok(());
    }
    let mut e = string_from("no [server] configured in ");
    push_str(&mut e, config_path);
    push_str(&mut e, " \u{2014} add `[server]\\nroot = \"/data/git\"` to enable lifecycle commands");
    Err(e)
}

/// Onboarding provisions on the primary server, so with one configured and
/// repos to walk it must have answered the survey.
pub open spec fn spec_require_reachable(cfg: &Config, reachable: bool) -> Result<(), Seq<char>> {
    if cfg.server.root@.len() > 0 && !(cfg.roots@.len() == 0 && cfg.repos@.len() == 0) && !reachable {
        Err(
            "home server unreachable \u{2014} onboarding provisions on it, so it must be up. Use `gr status --offline` to inspect locally, then retry."@,
        )
    } else {
        Ok(())
    }
}

/// Refuse onboarding when the primary server did not answer the survey.
pub fn require_reachable(cfg: &Config, reachable: bool) -> (r: Result<(), String>)
    ensures
        match (r, spec_require_reachable(cfg, reachable)) {
            (Ok(_), Ok(_)) => true,
            (Err(e), Err(f)) => e@ == f,
            _ => false,
        },
{
    if cfg.server_enabled() && !cfg.is_empty() && !reachable {
        Err(
            string_from(
                "home server unreachable \u{2014} onboarding provisions on it, so it must be up. Use `gr status --offline` to inspect locally, then retry.",
            ),
        )
    } else {
        Ok(())
    }
}

// ------------------------------------------------------------------ create

/// The branch a new home is created for: the checked-out one.
pub open spec fn spec_creation_branch(current: Option<Seq<char>>) -> Result<Seq<char>, Seq<char>> {
    match current {
        Some(b) => if b.len() > 0 {
            Ok(b)
        } else {
            Err("not on a branch (detached HEAD) \u{2014} checkout a branch before onboarding"@)
        },
        None => Err("not on a branch (detached HEAD) \u{2014} checkout a branch before onboarding"@),
    }
}

/// The branch to create a home for, or why there is none.
pub fn creation_branch(current: &Option<String>) -> (r: Result<String, String>)
    ensures
        match (r, spec_creation_branch(opt_view(*current))) {
            (Ok(a), Ok(b)) => a@ == b,
            (Err(e), Err(f)) => e@ == f,
            _ => false,
        },
{
    match current {
        Some(b) if !b.as_str().is_empty() => Ok(b.clone()),
        _ => Err(string_from("not on a branch (detached HEAD) \u{2014} checkout a branch before onboarding")),
    }
}

/// The stages of provisioning a new home, in the order they run: the primary
/// home (refused if it already exists), then, with a backup server, the
/// primary's replication hook and the hardened, guarded backup home — all
/// before anything is pushed, so the first push already mirrors.
#[derive(Debug, Clone, Copy, PartialEq, Eq, Structural)]
pub enum CreateStage {
    PrimaryExists,
    InitPrimary,
    SetPrimaryHead,
    PostReceiveHook,
    BackupExists,
    InitBackup,
    SetBackupHead,
    HardenBackup,
    PreReceiveHook,
    Provisioned,
}

impl CreateStage {
    /// The stage runs on the backup server.
    pub open spec fn spec_on_backup(self) -> bool {
        self is BackupExists || self is InitBackup || self is SetBackupHead || self is HardenBackup
            || self is PreReceiveHook
    }

    /// Does the stage run on the backup server?
    pub fn on_backup(&self) -> (b: bool)
        ensures
            b == self.spec_on_backup(),
    {
        match self {
            CreateStage::BackupExists | CreateStage::InitBackup | CreateStage::SetBackupHead
            | CreateStage::HardenBackup | CreateStage::PreReceiveHook => true,
            _ => false,
        }
    }

    /// The server command of the stage; none once provisioned.
    pub open spec fn spec_command(self, root: Seq<char>, bk_root: Seq<char>, name: Seq<char>, branch: Seq<char>) -> Option<Seq<char>> {
        let home = crate::server::home_dir(root, name);
        let bk = crate::server::home_dir(bk_root, name);
        match self {
            CreateStage::PrimaryExists => Some("test -d "@ + home),
            CreateStage::InitPrimary => Some("git init --bare "@ + home),
            CreateStage::SetPrimaryHead => Some(
                "git --git-dir="@ + home + " symbolic-ref HEAD refs/heads/"@ + branch,
            ),
            CreateStage::PostReceiveHook => Some(
                "cat > '"@ + crate::server::hook_path(root, name, "post-receive"@) + "' && chmod 755 '"@
                    + crate::server::hook_path(root, name, "post-receive"@) + "'"@,
            ),
            CreateStage::BackupExists => Some("test -d "@ + bk),
            CreateStage::InitBackup => Some("git init --bare "@ + bk),
            CreateStage::SetBackupHead => Some(
                "git --git-dir="@ + bk + " symbolic-ref HEAD refs/heads/"@ + branch,
            ),
            CreateStage::HardenBackup => Some(crate::server::spec_harden_cmd(bk_root, name)),
            CreateStage::PreReceiveHook => Some(
                "cat > '"@ + crate::server::hook_path(bk_root, name, "pre-receive"@)
                    + "' && chmod 755 '"@ + crate::server::hook_path(bk_root, name, "pre-receive"@)
                    + "'"@,
            ),
            CreateStage::Provisioned => None,
        }
    }

    /// The server operation of the stage (a hook stage's hook body is written
    /// on the command's standard input); none once provisioned.
    pub fn op(&self, root: &String, bk_root: &String, name: &String, branch: &String) -> (o: Option<ServerOp>)
        ensures
            match o {
                Some(op) => Some(op.spec_command()) == self.spec_command(root@, bk_root@, name@, branch@),
                None => self.spec_command(root@, bk_root@, name@, branch@) is None,
            },
    {
        let (r, b, n, h) = (root.as_str(), bk_root.as_str(), name.as_str(), branch.as_str());
        match self {
            CreateStage::PrimaryExists => Some(home_exists_op(r, n)),
            CreateStage::InitPrimary => Some(init_bare(r, n)),
            CreateStage::SetPrimaryHead => Some(set_head(r, n, h)),
            CreateStage::PostReceiveHook => Some(install_hook(r, n, "post-receive")),
            CreateStage::BackupExists => Some(home_exists_op(b, n)),
            CreateStage::InitBackup => Some(init_bare(b, n)),
            CreateStage::SetBackupHead => Some(set_head(b, n, h)),
            CreateStage::HardenBackup => Some(harden_home(b, n)),
            CreateStage::PreReceiveHook => Some(install_hook(b, n, "pre-receive")),
            CreateStage::Provisioned => None,
        }
    }
}

/// The stage that follows a stage whose command reported `ok`; none when the
/// outcome ends the creation with an error (or nothing is left to do).
pub open spec fn spec_next_stage(stage: CreateStage, backup: bool, ok: bool) -> Option<CreateStage> {
    match stage {
        CreateStage::PrimaryExists => if ok {
            None
        } else {
            Some(CreateStage::InitPrimary)
        },
        CreateStage::InitPrimary => if ok {
            Some(CreateStage::SetPrimaryHead)
        } else {
            None
        },
        CreateStage::SetPrimaryHead => Some(
            if backup {
                CreateStage::PostReceiveHook
            } else {
                CreateStage::Provisioned
            },
        ),
        CreateStage::PostReceiveHook => if ok {
            Some(CreateStage::BackupExists)
        } else {
            None
        },
        CreateStage::BackupExists => Some(
            if ok {
                CreateStage::HardenBackup
            } else {
                CreateStage::InitBackup
            },
        ),
        CreateStage::InitBackup => if ok {
            Some(CreateStage::SetBackupHead)
        } else {
            None
        },
        CreateStage::SetBackupHead => Some(CreateStage::HardenBackup),
        CreateStage::HardenBackup => if ok {
            Some(CreateStage::PreReceiveHook)
        } else {
            None
        },
        CreateStage::PreReceiveHook => if ok {
            Some(CreateStage::Provisioned)
        } else {
            None
        },
        CreateStage::Provisioned => None,
    }
}

/// The error a failing stage ends the creation with.
pub open spec fn spec_create_error(stage: CreateStage, stderr: Seq<char>, name: Seq<char>, bk_alias: Seq<char>) -> Seq<char> {
    let fl = spec_first_line(stderr);
    match stage {
        CreateStage::PrimaryExists => "a home named `"@ + name
            + "` already exists on the server \u{2014} use `gr sync` to back it up"@,
        CreateStage::InitPrimary => "could not create bare repo: "@ + fl,
        CreateStage::PostReceiveHook => "created the primary home but failed to install its post-receive hook: "@
            + fl,
        CreateStage::InitBackup => "created the primary home but failed to create the backup home on "@
            + bk_alias + ": "@ + fl,
        CreateStage::HardenBackup => "backup home exists but could not be hardened on "@ + bk_alias
            + ": "@ + fl,
        CreateStage::PreReceiveHook => "backup home exists but its pre-receive guard failed to install on "@
            + bk_alias + ": "@ + fl,
        _ => Seq::empty(),
    }
}

/// One step of provisioning: from a stage and the outcome of its command, the
/// next stage, or the error that ends the creation (the home already exists,
/// or a command that must succeed failed). `bk_alias` is the live backup
/// alias, used by the backup stages.
pub fn create_next(
    stage: CreateStage,
    backup: bool,
    success: bool,
    stderr: &str,
    name: &str,
    bk_alias: &str,
) -> (r: Result<CreateStage, String>)
    requires
        stage != CreateStage::Provisioned,
    ensures
        match r {
            Ok(s) => spec_next_stage(stage, backup, success) == Some(s),
            Err(e) => spec_next_stage(stage, backup, success) is None && e@ == spec_create_error(
                stage,
                stderr@,
                name@,
                bk_alias@,
            ),
        },
{
    match stage {
        CreateStage::PrimaryExists => {
            if success {
                let mut e = string_from("a home named `");
                push_str(&mut e, name);
                push_str(&mut e, "` already exists on the server \u{2014} use `gr sync` to back it up");
                Err(e)
            } else {
                Ok(CreateStage::InitPrimary)
            }
        },
        CreateStage::InitPrimary => {
            if success {
                Ok(CreateStage::SetPrimaryHead)
            } else {
                let mut e = string_from("could not create bare repo: ");
                let fl = first_line(stderr);
                push_str(&mut e, fl.as_str());
                Err(e)
            }
        },
        CreateStage::SetPrimaryHead => {
            if backup {
                Ok(CreateStage::PostReceiveHook)
            } else {
                Ok(CreateStage::Provisioned)
            }
        },
        CreateStage::PostReceiveHook => {
            if success {
                Ok(CreateStage::BackupExists)
            } else {
                let mut e = string_from(
                    "created the primary home but failed to install its post-receive hook: ",
                );
                let fl = first_line(stderr);
                push_str(&mut e, fl.as_str());
                Err(e)
            }
        },
        CreateStage::BackupExists => {
            if success {
                Ok(CreateStage::HardenBackup)
            } else {
                Ok(CreateStage::InitBackup)
            }
        },
        CreateStage::InitBackup => {
            if success {
                Ok(CreateStage::SetBackupHead)
            } else {
                let mut e = string_from("created the primary home but failed to create the backup home on ");
                push_str(&mut e, bk_alias);
                push_str(&mut e, ": ");
                let fl = first_line(stderr);
                push_str(&mut e, fl.as_str());
                Err(e)
            }
        },
        CreateStage::SetBackupHead => Ok(CreateStage::HardenBackup),
        CreateStage::HardenBackup => {
            if success {
                Ok(CreateStage::PreReceiveHook)
            } else {
                let mut e = string_from("backup home exists but could not be hardened on ");
                push_str(&mut e, bk_alias);
                push_str(&mut e, ": ");
                let fl = first_line(stderr);
                push_str(&mut e, fl.as_str());
                Err(e)
            }
        },
        CreateStage::PreReceiveHook => {
            if success {
                Ok(CreateStage::Provisioned)
            } else {
                let mut e = string_from("backup home exists but its pre-receive guard failed to install on ");
                push_str(&mut e, bk_alias);
                push_str(&mut e, ": ");
                let fl = first_line(stderr);
                push_str(&mut e, fl.as_str());
                Err(e)
            }
        },
        CreateStage::Provisioned => Ok(CreateStage::Provisioned),
    }
}

/// A run of the provisioning from its start: each stage is the one the step
/// before led to, given that step's outcome.
pub open spec fn is_create_run(stages: Seq<CreateStage>, oks: Seq<bool>, backup: bool) -> bool {
    &&& stages.len() == oks.len() + 1
    &&& stages[0] == CreateStage::PrimaryExists
    &&& forall|i: int|
        0 <= i < oks.len() ==> spec_next_stage(#[trigger] stages[i], backup, oks[i]) == Some(
            stages[i + 1],
        )
}

/// A provisioning that finished created the primary home, which did not exist
/// before; without a backup server it touched nothing else, and with one its
/// last two steps hardened the backup home and installed its guard hook —
/// so nothing is pushed before the whole topology stands.
pub proof fn lemma_create_provisions_topology(stages: Seq<CreateStage>, oks: Seq<bool>, backup: bool)
    requires
        is_create_run(stages, oks, backup),
        stages.last() == CreateStage::Provisioned,
    ensures
        !oks[0],
        stages[1] == CreateStage::InitPrimary && oks[1],
        stages[2] == CreateStage::SetPrimaryHead,
        !backup ==> stages.len() == 4 && stages[3] == CreateStage::Provisioned,
        backup ==> stages.len() >= 6 && stages[stages.len() - 3] == CreateStage::HardenBackup && oks[stages.len()
            - 3] && stages[stages.len() - 2] == CreateStage::PreReceiveHook && oks[stages.len() - 2],
{
    let n = stages.len();
    assert(spec_next_stage(stages[0], backup, oks[0]) == Some(stages[1]));
    assert(spec_next_stage(stages[1], backup, oks[1]) == Some(stages[2]));
    assert(spec_next_stage(stages[2], backup, oks[2]) == Some(stages[3]));
    if !backup {
        if n > 4 {
            assert(spec_next_stage(stages[3], backup, oks[3]) == Some(stages[4]));
        }
    } else {
        assert(spec_next_stage(stages[3], backup, oks[3]) == Some(stages[4]));
        assert(spec_next_stage(stages[4], backup, oks[4]) == Some(stages[5]));
        assert(spec_next_stage(stages[n - 2], backup, oks[n - 2]) == Some(stages[n - 1]));
        assert(spec_next_stage(stages[n - 3], backup, oks[n - 3]) == Some(stages[n - 2]));
    }
}

/// The git operation that points `remote` at `url`: repoint it when the repo
/// has it, else add it.
pub fn wire_op(remote: &String, url: &String, present: bool) -> (op: GitOp)
    ensures
        op.spec_in_repo(),
        op.spec_args() == (if present {
            seq!["remote"@, "set-url"@, remote@, url@]
        } else {
            seq!["remote"@, "add"@, remote@, url@]
        }),
{
    if present {
        set_remote_url(remote.as_str(), url.as_str())
    } else {
        add_remote(remote.as_str(), url.as_str())
    }
}

/// The remote a new home is pushed over: the first transport remote the repo
/// has once wired.
pub open spec fn spec_primary_remote(cfg: &Config, have: Seq<Seq<char>>) -> Result<Seq<char>, Seq<char>> {
    let p = spec_present(spec_transport_remotes(cfg), have);
    if p.len() > 0 {
        Ok(p[0])
    } else {
        Err("no transport remote present after wiring"@)
    }
}

/// The remote to push a new home over.
pub fn primary_remote(cfg: &Config, have: &Vec<String>) -> (r: Result<String, String>)
    ensures
        match (r, spec_primary_remote(cfg, views(have@))) {
            (Ok(a), Ok(b)) => a@ == b,
            (Err(e), Err(f)) => e@ == f,
            _ => false,
        },
{
    let order = transport_remotes(cfg);
    let p = crate::push::present_in(&order, have);
    if p.len() > 0 {
        assert(views(p@)[0] == p@[0]@);
        Ok(p[0].clone())
    } else {
        Err(string_from("no transport remote present after wiring"))
    }
}

/// The closing line of a creation.
pub open spec fn spec_created_line(name: Seq<char>, pushed: nat, backup: bool) -> Seq<char> {
    "created `"@ + name + "` ("@ + decimal(pushed) + " branch(es) pushed)"@ + if backup {
        " \u{2014} redundant (primary + backup)"@
    } else {
        " \u{2014} primary only (no [backup])"@
    }
}

/// The closing line of a creation.
pub fn created_line(name: &str, pushed: usize, backup: bool) -> (s: String)
    ensures
        s@ == spec_created_line(name@, pushed as nat, backup),
{
    let mut s = string_from("created `");
    push_str(&mut s, name);
    push_str(&mut s, "` (");
    push_decimal(&mut s, pushed as u64);
    push_str(&mut s, " branch(es) pushed)");
    if backup {
        push_str(&mut s, " \u{2014} redundant (primary + backup)");
    } else {
        push_str(&mut s, " \u{2014} primary only (no [backup])");
    }
    s
}

/// What `create` reports of pushing one branch to the new home: the line
/// (on standard error when the push failed), whether it failed, and the audit
/// record — result `created` for a push that went through, none otherwise.
pub struct CreatedPush {
    pub line: String,
    pub failed: bool,
    pub audit: Option<(String, String)>,
}

/// The line of a creation push.
pub open spec fn spec_created_push_line(branch: Seq<char>, remote: Seq<char>, out: PushOutcome) -> Seq<char> {
    if out.success {
        "  pushed "@ + branch + " \u{2192} "@ + remote
    } else {
        "  push "@ + branch + " failed: "@ + spec_first_line(out.stderr@)
    }
}

/// Settle one creation push from its outcome.
pub fn created_push(branch: &str, remote: &str, out: &PushOutcome) -> (r: CreatedPush)
    ensures
        r.line@ == spec_created_push_line(branch@, remote@, *out),
        r.failed == !out.success,
        out.success ==> r.audit.is_some() && r.audit.unwrap().0@ == "created"@ && r.audit.unwrap().1@
            == Seq::<char>::empty(),
        !out.success ==> r.audit is None,
{
    if out.success {
        let mut line = string_from("  pushed ");
        push_str(&mut line, branch);
        push_str(&mut line, " \u{2192} ");
        push_str(&mut line, remote);
        CreatedPush { line, failed: false, audit: Some((string_from("created"), String::new())) }
    } else {
        let mut line = string_from("  push ");
        push_str(&mut line, branch);
        push_str(&mut line, " failed: ");
        let f = first_line(out.stderr.as_str());
        push_str(&mut line, f.as_str());
        CreatedPush { line, failed: true, audit: None }
    }
}

/// A creation failed when any of its branch pushes failed.
pub fn creation_failed(outcomes: &Vec<PushOutcome>) -> (b: bool)
    ensures
        b == exists|i: int| 0 <= i < outcomes@.len() && !(#[trigger] outcomes@[i]).success,
{
    let n = outcomes.len();
    for i in 0..n
        invariant
            n == outcomes@.len(),
            forall|k: int| 0 <= k < i ==> (#[trigger] outcomes@[k]).success,
    {
        if !outcomes[i].success {
            return true;
        }
    }
    false
}

// ------------------------------------------------------------------- clone

/// Where `gr clone` clones into.
pub enum CloneTarget {
    /// A directory inside a configured root.
    Dir(String),
    /// No directory given and no root to default into.
    NoRoots,
    /// The directory lies outside every configured root, so discovery would
    /// never find it.
    OutsideRoots(String),
}

/// The clone target: the given directory, else `<first root>/<name>`; it must
/// lie strictly inside a configured root.
pub open spec fn spec_clone_target(roots: Seq<Seq<char>>, name: Seq<char>, dir: Option<Seq<char>>) -> Option<(bool, Seq<char>)> {
    let d = match dir {
        Some(x) => Some(x),
        None => if roots.len() > 0 {
            Some(path_join(roots[0], name))
        } else {
            None
        },
    };
    match d {
        Some(x) => Some((under_some_root(x, roots), x)),
        None => None,
    }
}

/// Resolve the clone target.
pub fn clone_target(cfg: &Config, args: &CloneArgs) -> (t: CloneTarget)
    ensures
        match (t, spec_clone_target(views(cfg.roots@), args.name@, opt_view(args.dir))) {
            (CloneTarget::Dir(d), Some((true, x))) => d@ == x,
            (CloneTarget::OutsideRoots(d), Some((false, x))) => d@ == x,
            (CloneTarget::NoRoots, None) => true,
            _ => false,
        },
{
    let d = match &args.dir {
        Some(x) => x.clone(),
        None => {
            if cfg.roots.len() == 0 {
                return CloneTarget::NoRoots;
            }
            assert(views(cfg.roots@)[0] == cfg.roots@[0]@);
            join_path(cfg.roots[0].as_str(), args.name.as_str())
        },
    };
    if is_under_root(d.as_str(), &cfg.roots) {
        CloneTarget::Dir(d)
    } else {
        CloneTarget::OutsideRoots(d)
    }
}

// ----------------------------------------------------------------- onboard

/// What a repo needs to become redundant.
#[derive(Debug, Clone, Copy, PartialEq, Eq, Structural)]
pub enum OnboardKind {
    /// Local only, no home anywhere: `create` provisions the full topology.
    Create,
    /// Local only on the primary, but a home already exists on the backup:
    /// it needs repointing, not a fresh create.
    Repoint,
}

/// A repo `gr onboard` walks: its home name, path and what it needs.
pub struct OnboardCandidate {
    pub name: String,
    pub path: String,
    pub kind: OnboardKind,
}

/// The path of the last discovered repo whose directory name is `dir` (later
/// repos of the same name win, as in a map keyed by name).
pub open spec fn path_for_dir(repos: Seq<Seq<char>>, dir: Seq<char>) -> Option<Seq<char>>
    decreases repos.len(),
{
    if repos.len() == 0 {
        None
    } else if spec_repo_name(repos.last()) == dir {
        Some(repos.last())
    } else {
        path_for_dir(repos.drop_last(), dir)
    }
}

/// The homes the backup server listed, when it answered.
pub open spec fn backup_homes(backup: Option<BackupState>) -> Seq<Seq<char>> {
    match backup {
        Some(b) => if b.reachable {
            views(b.homes@)
        } else {
            Seq::empty()
        },
        None => Seq::empty(),
    }
}

/// Whether a surveyed repo is walked, and as what: a local-only repo with a
/// working copy among the discovered ones, not deliberately ignored (by home
/// or directory name).
pub open spec fn candidate_of(
    p: RepoPresence,
    ignore: Seq<Seq<char>>,
    repos: Seq<Seq<char>>,
    bhomes: Seq<Seq<char>>,
) -> Option<(Seq<char>, Seq<char>, OnboardKind)> {
    if p.lifecycle == Lifecycle::LocalOnly {
        match p.local_dir {
            Some(dir) => if ignore.contains(p.home_name@) || ignore.contains(dir@) {
                None
            } else {
                match path_for_dir(repos, dir@) {
                    Some(path) => Some(
                        (
                            p.home_name@,
                            path,
                            if bhomes.contains(p.home_name@) {
                                OnboardKind::Repoint
                            } else {
                                OnboardKind::Create
                            },
                        ),
                    ),
                    None => None,
                }
            },
            None => None,
        }
    } else {
        None
    }
}

/// The texts of a list of candidates.
pub open spec fn candidate_views(c: Seq<OnboardCandidate>) -> Seq<(Seq<char>, Seq<char>, OnboardKind)> {
    c.map_values(|x: OnboardCandidate| (x.name@, x.path@, x.kind))
}

/// The path of the last repo named `dir`.
fn find_path_for_dir(repos: &Vec<String>, dir: &String) -> (r: Option<String>)
    ensures
        opt_view(r) == path_for_dir(views(repos@), dir@),
{
    let mut k = repos.len();
    assert(views(repos@).take(k as int) == views(repos@));
    while k > 0
        invariant
            k <= repos@.len(),
            path_for_dir(views(repos@), dir@) == path_for_dir(views(repos@).take(k as int), dir@),
        decreases k,
    {
        let ghost t = views(repos@).take(k as int);
        assert(t.drop_last() == views(repos@).take(k - 1));
        assert(t.last() == repos@[k - 1]@);
        let name = repo_name(repos[k - 1].as_str());
        if crate::text::str_eq(name.as_str(), dir.as_str()) {
            return Some(repos[k - 1].clone());
        }
        k = k - 1;
    }
    None
}

/// The repos `gr onboard` walks, in survey order.
pub fn onboard_candidates(
    presences: &Vec<RepoPresence>,
    cfg: &Config,
    repos: &Vec<String>,
    backup: &Option<BackupState>,
) -> (c: Vec<OnboardCandidate>)
    ensures
        candidate_views(c@) == presences@.filter_map(
            |p: RepoPresence| candidate_of(p, views(cfg.ignore@), views(repos@), backup_homes(*backup)),
        ),
{
    let ghost f = |p: RepoPresence| candidate_of(p, views(cfg.ignore@), views(repos@), backup_homes(*backup));
    let empty: Vec<String> = Vec::new();
    let bhomes: &Vec<String> = match backup {
        Some(b) => if b.reachable {
            &b.homes
        } else {
            &empty
        },
        None => &empty,
    };
    assert(views(bhomes@) == backup_homes(*backup));
    let mut out: Vec<OnboardCandidate> = Vec::new();
    let n = presences.len();
    for k in 0..n
        invariant
            n == presences@.len(),
            views(bhomes@) == backup_homes(*backup),
            f == (|p: RepoPresence| candidate_of(p, views(cfg.ignore@), views(repos@), backup_homes(*backup))),
            candidate_views(out@) == presences@.take(k as int).filter_map(f),
    {
        proof {
            presences@.lemma_filter_map_take_succ(f, k as int);
        }
        let p = &presences[k];
        let ghost before = candidate_views(out@);
        let mut got: Option<OnboardCandidate> = None;
        if p.lifecycle == Lifecycle::LocalOnly {
            match &p.local_dir {
                Some(dir) => {
                    if !cfg.is_ignored(&p.home_name) && !cfg.is_ignored(dir) {
                        match find_path_for_dir(repos, dir) {
                            Some(path) => {
                                let kind = if contains_string(bhomes.as_slice(), &p.home_name) {
                                    OnboardKind::Repoint
                                } else {
                                    OnboardKind::Create
                                };
                                got = Some(OnboardCandidate { name: p.home_name.clone(), path, kind });
                            },
                            None => {},
                        }
                    }
                },
                None => {},
            }
        }
        match got {
            Some(c) => {
                assert(f(presences@[k as int]) == Some((c.name@, c.path@, c.kind)));
                proof {
                    assert(candidate_views(out@.push(c)) == before.push((c.name@, c.path@, c.kind)));
                    assert(before.push((c.name@, c.path@, c.kind)) == before + seq![(c.name@, c.path@, c.kind)]);
                }
                out.push(c);
            },
            None => {
                assert(f(presences@[k as int]) is None);
                assert(before + Seq::<(Seq<char>, Seq<char>, OnboardKind)>::empty() == before);
            },
        }
    }
    assert(presences@.take(n as int) == presences@);
    out
}

/// Why a candidate cannot be onboarded as it is: a commitless repo, or a
/// detached `HEAD`; nothing when it can.
pub open spec fn spec_blocked_why(current: Option<Seq<char>>, has_commits: bool) -> Option<Seq<char>> {
    let on_branch = match current {
        Some(b) => b.len() > 0,
        None => false,
    };
    if !has_commits {
        Some("no commits yet"@)
    } else if !on_branch {
        Some("detached HEAD"@)
    } else {
        None
    }
}

/// The pre-flight check of a candidate.
pub fn blocked_why(current: &Option<String>, has_commits: bool) -> (r: Option<&'static str>)
    ensures
        match r {
            Some(s) => spec_blocked_why(opt_view(*current), has_commits) == Some(s@),
            None => spec_blocked_why(opt_view(*current), has_commits) is None,
        },
{
    let on_branch = match current {
        Some(b) => !b.as_str().is_empty(),
        None => false,
    };
    if !has_commits {
        Some("no commits yet")
    } else if !on_branch {
        Some("detached HEAD")
    } else {
        None
    }
}

/// The dry run's line for a candidate.
pub open spec fn spec_dry_run_plan(blocked: Option<Seq<char>>, kind: OnboardKind) -> Seq<char> {
    match blocked {
        Some(why) => "BLOCKED ("@ + why + ") \u{2014} ignore or fix, then re-run"@,
        None => match kind {
            OnboardKind::Create => "would onboard \u{2192} create -a (full topology)"@,
            OnboardKind::Repoint => "would repoint (ADR-0018)"@,
        },
    }
}

/// The dry run's line for a candidate.
pub fn dry_run_plan(blocked: Option<&str>, kind: OnboardKind) -> (s: String)
    ensures
        s@ == spec_dry_run_plan(
            match blocked {
                Some(b) => Some(b@),
                None => None,
            },
            kind,
        ),
{
    match blocked {
        Some(why) => {
            let mut s = string_from("BLOCKED (");
            push_str(&mut s, why);
            push_str(&mut s, ") \u{2014} ignore or fix, then re-run");
            s
        },
        None => match kind {
            OnboardKind::Create => string_from("would onboard \u{2192} create -a (full topology)"),
            OnboardKind::Repoint => string_from("would repoint (ADR-0018)"),
        },
    }
}

/// The operator's decision on one candidate.
#[derive(Debug, Clone, Copy, PartialEq, Eq, Structural)]
pub enum Decision {
    Onboard,
    Repoint,
    Ignore,
    Skip,
    Quit,
}

/// The action offered for a candidate: none when it is blocked, `repoint`
/// for a backup-only home, `onboard` otherwise.
pub open spec fn spec_offered(blocked: bool, kind: OnboardKind) -> Option<Seq<char>> {
    if blocked {
        None
    } else if kind == OnboardKind::Repoint {
        Some("repoint (r)"@)
    } else {
        Some("onboard (y)"@)
    }
}

/// The decision prompt for a candidate.
pub open spec fn spec_decision_prompt(blocked: bool, kind: OnboardKind) -> Seq<char> {
    match spec_offered(blocked, kind) {
        Some(a) => "  "@ + a + " / ignore (n) / skip (s) / quit (q) ? "@,
        None => "  ignore (n) / skip (s) / quit (q) ? "@,
    }
}

/// The decision prompt for a candidate.
pub fn decision_prompt(blocked: bool, kind: OnboardKind) -> (s: String)
    ensures
        s@ == spec_decision_prompt(blocked, kind),
{
    if blocked {
        string_from("  ignore (n) / skip (s) / quit (q) ? ")
    } else {
        let mut s = string_from("  ");
        if kind == OnboardKind::Repoint {
            push_str(&mut s, "repoint (r)");
        } else {
            push_str(&mut s, "onboard (y)");
        }
        push_str(&mut s, " / ignore (n) / skip (s) / quit (q) ? ");
        s
    }
}

/// The decision an answer gives (trimmed): `y`/`Y` onboards when onboarding
/// is offered, `r`/`R` repoints when repointing is, `n`/`N` ignores, `s`/`S`
/// or nothing skips, `q`/`Q` quits; anything else is asked again.
pub open spec fn spec_parse_decision(input: Seq<char>, blocked: bool, kind: OnboardKind) -> Option<Decision> {
    let t = trim_ws(input);
    let offered = spec_offered(blocked, kind);
    if (t == seq!['y'] || t == seq!['Y']) && offered == Some("onboard (y)"@) {
        Some(Decision::Onboard)
    } else if (t == seq!['r'] || t == seq!['R']) && offered == Some("repoint (r)"@) {
        Some(Decision::Repoint)
    } else if t == seq!['n'] || t == seq!['N'] {
        Some(Decision::Ignore)
    } else if t == seq!['s'] || t == seq!['S'] || t.len() == 0 {
        Some(Decision::Skip)
    } else if t == seq!['q'] || t == seq!['Q'] {
        Some(Decision::Quit)
    } else {
        None
    }
}

/// Read the operator's answer for a candidate.
pub fn parse_decision(input: &str, blocked: bool, kind: OnboardKind) -> (d: Option<Decision>)
    ensures
        d == spec_parse_decision(input@, blocked, kind),
{
    let t = trim(input);
    let v = chars_of(t.as_str());
    proof {
        reveal_strlit("onboard (y)");
        reveal_strlit("repoint (r)");
        if v@.len() == 1 {
            assert(v@ == seq![v@[0]]);
        }
    }
    let one = v.len() == 1;
    let c = if one {
        v[0]
    } else {
        ' '
    };
    let onboard_offered = !blocked && kind != OnboardKind::Repoint;
    let repoint_offered = !blocked && kind == OnboardKind::Repoint;
    proof {
        assert("repoint (r)"@[0] != "onboard (y)"@[0]);
        assert((spec_offered(blocked, kind) == Some("onboard (y)"@)) == onboard_offered);
        assert((spec_offered(blocked, kind) == Some("repoint (r)"@)) == repoint_offered);
        assert(v@ == trim_ws(input@));
    }
    if one && (c == 'y' || c == 'Y') && onboard_offered {
        Some(Decision::Onboard)
    } else if one && (c == 'r' || c == 'R') && repoint_offered {
        Some(Decision::Repoint)
    } else if one && (c == 'n' || c == 'N') {
        Some(Decision::Ignore)
    } else if (one && (c == 's' || c == 'S')) || v.len() == 0 {
        Some(Decision::Skip)
    } else if one && (c == 'q' || c == 'Q') {
        Some(Decision::Quit)
    } else {
        None
    }
}

/// The host of a remote URL for the context line: `git@github.com:o/r.git` →
/// `github.com`, `ssh://acer-lan/…` → `acer-lan`; the whole URL when no host
/// is left.
pub open spec fn spec_short_host(url: Seq<char>) -> Seq<char> {
    let rest = trim_start_slash(after_scheme(url));
    let host = crate::inventory::after_last(crate::inventory::before_url_sep(rest), '@');
    if host.len() == 0 {
        url
    } else {
        host
    }
}

/// `s` without its leading `/` characters.
pub open spec fn trim_start_slash(s: Seq<char>) -> Seq<char>
    decreases s.len(),
{
    if s.len() > 0 && s[0] == '/' {
        trim_start_slash(s.drop_first())
    } else {
        s
    }
}

/// The first position of `://` in `s`, if any.
pub open spec fn scheme_end(s: Seq<char>) -> Option<int>
    decreases s.len(),
{
    if s.len() < 3 {
        None
    } else if s[0] == ':' && s[1] == '/' && s[2] == '/' {
        Some(0)
    } else {
        match scheme_end(s.drop_first()) {
            Some(i) => Some(i + 1),
            None => None,
        }
    }
}

/// The part of `s` after its first `://` (all of `s` when it has none).
pub open spec fn after_scheme(s: Seq<char>) -> Seq<char> {
    match scheme_end(s) {
        Some(i) => s.skip(i + 3),
        None => s,
    }
}

/// Where the first `://` of `v` starts.
fn scheme_pos(v: &Vec<char>) -> (r: Option<usize>)
    ensures
        match r {
            Some(i) => i + 3 <= v@.len() && scheme_end(v@) == Some(i as int),
            None => scheme_end(v@) is None,
        },
{
    let n = v.len();
    let mut i: usize = 0;
    assert(v@.skip(0) == v@);
    while n >= 3 && i <= n - 3
        invariant
            n == v@.len(),
            i <= n,
            scheme_end(v@) == (match scheme_end(v@.skip(i as int)) {
                Some(j) => Some(j + i),
                None => None,
            }),
        decreases n - i,
    {
        let ghost s = v@.skip(i as int);
        assert(s[0] == v@[i as int] && s[1] == v@[i + 1] && s[2] == v@[i + 2]);
        if v[i] == ':' && v[i + 1] == '/' && v[i + 2] == '/' {
            return Some(i);
        }
        assert(s.drop_first() == v@.skip(i + 1));
        i = i + 1;
    }
    assert(v@.skip(i as int).len() < 3);
    assert(scheme_end(v@.skip(i as int)) is None);
    None
}

/// The host part of a remote URL.
pub fn short_host(url: &str) -> (h: String)
    ensures
        h@ == spec_short_host(url@),
{
    let v = chars_of(url);
    let n = v.len();
    let mut lo: usize = match scheme_pos(&v) {
        Some(i) => i + 3,
        None => 0,
    };
    assert(v@.subrange(lo as int, n as int) == after_scheme(v@));
    // leading slashes
    while lo < n && v[lo] == '/'
        invariant
            lo <= n == v@.len(),
            trim_start_slash(after_scheme(v@)) == trim_start_slash(v@.subrange(lo as int, n as int)),
        decreases n - lo,
    {
        assert(v@.subrange(lo as int, n as int).drop_first() == v@.subrange(lo + 1, n as int));
        lo = lo + 1;
    }
    if lo < n {
        assert(v@.subrange(lo as int, n as int)[0] == v@[lo as int]);
    }
    assert(trim_start_slash(v@.subrange(lo as int, n as int)) == v@.subrange(lo as int, n as int));
    let j = crate::inventory::find_url_sep(&v, lo, n);
    let k = crate::inventory::find_after_last(&v, lo, j, '@');
    if k == j {
        string_from(url)
    } else {
        string_of(&v, k, j)
    }
}


/// Running counts of an onboarding walk.
pub struct OnboardTally {
    pub onboarded: u32,
    pub ignored: u32,
    pub skipped: u32,
    pub failed: u32,
}

/// The closing line of an onboarding walk.
pub open spec fn spec_onboard_summary(t: OnboardTally) -> Seq<char> {
    decimal(t.onboarded as nat) + " onboarded \u{b7} "@ + decimal(t.ignored as nat) + " ignored \u{b7} "@
        + decimal(t.skipped as nat) + " skipped \u{b7} "@ + decimal(t.failed as nat) + " failed"@
}

/// The closing line of an onboarding walk.
pub fn onboard_summary(t: &OnboardTally) -> (s: String)
    ensures
        s@ == spec_onboard_summary(*t),
{
    let mut s = String::new();
    push_decimal(&mut s, t.onboarded as u64);
    assert(Seq::<char>::empty() + decimal(t.onboarded as nat) == decimal(t.onboarded as nat));
    push_str(&mut s, " onboarded \u{b7} ");
    push_decimal(&mut s, t.ignored as u64);
    push_str(&mut s, " ignored \u{b7} ");
    push_decimal(&mut s, t.skipped as u64);
    push_str(&mut s, " skipped \u{b7} ");
    push_decimal(&mut s, t.failed as u64);
    push_str(&mut s, " failed");
    s
}

/// The context block of a candidate: `[<i>/<total>]  <name>`, then its size,
/// branch, origin host and last commit date, then — when it has uncommitted or
/// untracked work — a warning that this work will not be backed up.
pub open spec fn spec_candidate_lines(
    idx: nat,
    total: nat,
    name: Seq<char>,
    size: Seq<char>,
    branch: Option<Seq<char>>,
    origin_url: Option<Seq<char>>,
    last_commit: Option<Seq<char>>,
    wt: crate::model::WorkingTree,
) -> Seq<Seq<char>> {
    let uncommitted = wt.staged + wt.unstaged + wt.conflicts;
    let first = seq![
        "["@ + decimal(idx) + "/"@ + decimal(total) + "]  "@ + name,
        "        "@ + size + " \u{b7} "@ + (match branch {
            Some(b) => b,
            None => "(detached)"@,
        }) + " \u{b7} "@ + (match origin_url {
            Some(u) => spec_short_host(u) + " origin"@,
            None => "no origin"@,
        }) + " \u{b7} "@ + (match last_commit {
            Some(d) => "last commit "@ + d,
            None => "no commits"@,
        }),
    ];
    if uncommitted > 0 || wt.untracked > 0 {
        first.push(
            "        "@ + decimal(uncommitted as nat) + " uncommitted, "@ + decimal(wt.untracked as nat)
                + " untracked (won't be backed up)"@,
        )
    } else {
        first
    }
}

/// The context block of a candidate.
pub fn candidate_lines(
    idx: usize,
    total: usize,
    name: &str,
    size: &str,
    branch: &Option<String>,
    origin_url: &Option<String>,
    last_commit: &Option<String>,
    wt: &crate::model::WorkingTree,
) -> (v: Vec<String>)
    ensures
        views(v@) == spec_candidate_lines(
            idx as nat,
            total as nat,
            name@,
            size@,
            opt_view(*branch),
            opt_view(*origin_url),
            opt_view(*last_commit),
            *wt,
        ),
{
    let mut a = string_from("[");
    push_decimal(&mut a, idx as u64);
    push_str(&mut a, "/");
    push_decimal(&mut a, total as u64);
    push_str(&mut a, "]  ");
    push_str(&mut a, name);
    let mut b = string_from("        ");
    push_str(&mut b, size);
    push_str(&mut b, " \u{b7} ");
    match branch {
        Some(x) => push_str(&mut b, x.as_str()),
        None => push_str(&mut b, "(detached)"),
    }
    push_str(&mut b, " \u{b7} ");
    let ghost pre_origin = b@;
    match origin_url {
        Some(u) => {
            let h = short_host(u.as_str());
            push_str(&mut b, h.as_str());
            push_str(&mut b, " origin");
            assert(b@ == pre_origin + (spec_short_host(u@) + " origin"@));
        },
        None => push_str(&mut b, "no origin"),
    }
    push_str(&mut b, " \u{b7} ");
    let ghost pre_last = b@;
    match last_commit {
        Some(d) => {
            push_str(&mut b, "last commit ");
            push_str(&mut b, d.as_str());
            assert(b@ == pre_last + ("last commit "@ + d@));
        },
        None => push_str(&mut b, "no commits"),
    }
    let mut v: Vec<String> = Vec::new();
    crate::text::push_string(&mut v, a);
    crate::text::push_string(&mut v, b);
    let uncommitted: u64 = wt.staged as u64 + wt.unstaged as u64 + wt.conflicts as u64;
    if uncommitted > 0 || wt.untracked > 0 {
        let mut c = string_from("        ");
        push_decimal(&mut c, uncommitted);
        push_str(&mut c, " uncommitted, ");
        push_decimal(&mut c, wt.untracked as u64);
        push_str(&mut c, " untracked (won't be backed up)");
        crate::text::push_string(&mut v, c);
    }
    v
}


/// `gr onboard` walks only local-only repos that have a working copy here and
/// are not deliberately ignored (by home or directory name); a repo whose home
/// the backup server holds is offered a repoint, never a fresh create.
pub proof fn lemma_onboard_skips_ignored(
    p: RepoPresence,
    ignore: Seq<Seq<char>>,
    repos: Seq<Seq<char>>,
    bhomes: Seq<Seq<char>>,
)
    ensures
        candidate_of(p, ignore, repos, bhomes) is Some ==> {
            &&& p.lifecycle == Lifecycle::LocalOnly
            &&& p.local_dir is Some
            &&& !ignore.contains(p.home_name@)
            &&& !ignore.contains(p.local_dir.unwrap()@)
            &&& (bhomes.contains(p.home_name@) <==> candidate_of(p, ignore, repos, bhomes).unwrap().2
                == OnboardKind::Repoint)
        },
{
}


/// The error of `gr repoint` without a backup server: repointing re-roles the
/// backup home, so it is refused before anything is touched.
pub open spec fn spec_require_backup(cfg: &Config) -> Result<(), Seq<char>> {
    if cfg.backup.root@.len() > 0 {
        Ok(())
    } else {
        Err("`gr repoint` needs a [backup] server configured \u{2014} it re-roles the backup home"@)
    }
}

/// Repointing needs a backup server.
pub fn require_backup(cfg: &Config) -> (r: Result<(), String>)
    ensures
        match (r, spec_require_backup(cfg)) {
            (Ok(_), Ok(_)) => true,
            (Err(e), Err(f)) => e@ == f,
            _ => false,
        },
{
    if cfg.backup_enabled() {
        Ok(())
    } else {
        Err(string_from("`gr repoint` needs a [backup] server configured \u{2014} it re-roles the backup home"))
    }
}

} // verus!
