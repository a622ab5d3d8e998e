use git_redundancy::args::{CloneArgs, PushArgs, SyncArgs};
use git_redundancy::audit::Audit;
use git_redundancy::git as git_ops;
use git_redundancy::server as server_ops;
use git_redundancy::classify::BranchSync;
use git_redundancy::config::{Config, Server, Transport};
use git_redundancy::git::{
    ahead_behind, branch_sync, current_branch, is_diverged, last_commit_date, local_branches,
    ls_remote_heads, ls_remote_sha, outcome, push, remote_url, working_tree, GitOp, ProcessOutput,
    PushOutcome,
};
use git_redundancy::inventory::{
    list_homes, local_repo, resolve_aliases, ssh_args, survey_queries, BackupState, RepoUrls,
};
use git_redundancy::lifecycle::{
    blocked_why, candidate_lines, clone_target, create_next, created_line, decision_prompt,
    dry_run_plan, onboard_candidates, onboard_summary, parse_decision, primary_remote, require_server,
    created_push, creation_failed, require_reachable, short_host, CloneTarget, CreateStage, Decision,
    OnboardKind, OnboardTally,
};
use git_redundancy::model::{AheadBehind, WorkingTree};
use git_redundancy::paths::{file_name as file_name_of, is_under_root, path_components, repo_name};
use git_redundancy::presence::{Lifecycle, LocalRepo, RepoPresence};
use git_redundancy::push::{
    dirty_note, plan_push_repo, push_settled, push_verdict, remote_plan, repo_selected, PushVerdict,
};
use git_redundancy::reconcile::{
    branch_action, confirm_prompt, confirmed, ff_plan, ff_settled, needs_confirmation, plan_sync_repo,
    settled_action,
    sync_push_settled,
};
use git_redundancy::report::{push_summary, status_line, sync_summary, Counted, Tally};
use git_redundancy::review::{
    commit_message, commit_plan, review_heading, stage_answer, starts_review, wants_commit, StageAnswer,
};
use git_redundancy::server::{first_live_alias, pick_backup_alias, ServerOp};
use git_redundancy::statusview::{
    action_label, backup_label, detail_heading, detail_row, find_presence, home_branch_rows,
    life_label, local_rows, others_needing_attention, shown_remotes, status_banner, status_columns,
    status_fetches, status_survey, wants_others,
};
use git_redundancy::sync::SyncAction;
use git_redundancy::text::{lines, parse_u32_str, split_whitespace};

fn out(success: bool, stdout: &str, stderr: &str) -> ProcessOutput {
    ProcessOutput { success, stdout: stdout.to_string(), stderr: stderr.to_string() }
}

fn push_args(remote: Option<&str>) -> PushArgs {
    PushArgs { all_branches: false, remote: remote.map(str::to_string), only: Vec::new(), dry_run: false, tags: false }
}

fn clone_args(name: &str, dir: Option<&str>) -> CloneArgs {
    CloneArgs { name: name.to_string(), dir: dir.map(str::to_string) }
}

fn strs(v: &[&str]) -> Vec<String> {
    v.iter().map(|s| s.to_string()).collect()
}

#[test]
fn git_argument_lists() {
    let op = GitOp::Push { remote: "data".into(), branch: "main".into(), dry_run: true, tags: true };
    assert_eq!(op.args(), strs(&["push", "--dry-run", "--follow-tags", "data", "main"]));
    assert!(op.in_repo());
    let op = GitOp::Push { remote: "data".into(), branch: "main".into(), dry_run: false, tags: false };
    assert_eq!(op.args(), strs(&["push", "data", "main"]));
    let op = GitOp::TrackingRef { branch: "main".into(), remote: "data-lan".into() };
    assert_eq!(op.args(), strs(&["rev-parse", "--verify", "--quiet", "refs/remotes/data-lan/main"]));
    let op = GitOp::AheadBehind { branch: "main".into(), remote: "data".into() };
    assert_eq!(op.args(), strs(&["rev-list", "--left-right", "--count", "main...data/main"]));
    let op = GitOp::FfUpdateBranch { remote: "data".into(), branch: "dev".into() };
    assert_eq!(op.args(), strs(&["fetch", ".", "refs/remotes/data/dev:refs/heads/dev"]));
    let op = GitOp::LsRemoteHeads { url: "ssh://h/r.git".into() };
    assert!(!op.in_repo());
    assert_eq!(op.args(), strs(&["ls-remote", "--heads", "ssh://h/r.git"]));
}

#[test]
fn git_answers_are_read_faithfully() {
    assert_eq!(current_branch(&out(true, "main\n", "")).as_deref(), Some("main"));
    assert_eq!(current_branch(&out(false, "", "fatal: ref HEAD is not a symbolic ref")), None);
    assert_eq!(local_branches(&out(true, "main\n  feature \n\n", "")), strs(&["main", "feature"]));
    assert_eq!(remote_url(&out(true, "  \n", "")), None);
    assert_eq!(remote_url(&out(true, "ssh://h/x.git\n", "")).as_deref(), Some("ssh://h/x.git"));
    assert_eq!(last_commit_date(&out(false, "", "")), None);
    let wt = working_tree(&out(true, "? a\0? b\0", ""));
    assert_eq!(wt.untracked, 2);
}

#[test]
fn ahead_behind_reads_two_counts() {
    assert_eq!(ahead_behind(Some(&out(true, "3\t1\n", ""))), Some(AheadBehind { ahead: 3, behind: 1 }));
    assert_eq!(ahead_behind(Some(&out(true, "+5 x", ""))), Some(AheadBehind { ahead: 5, behind: 0 }));
    assert_eq!(ahead_behind(Some(&out(true, "", ""))), Some(AheadBehind { ahead: 0, behind: 0 }));
    assert_eq!(ahead_behind(Some(&out(false, "3\t1\n", ""))), None);
    assert_eq!(ahead_behind(None), None);
}

#[test]
fn branch_sync_probes_only_diverged() {
    let ab = Some(AheadBehind { ahead: 2, behind: 1 });
    assert!(is_diverged(ab));
    assert_eq!(
        branch_sync(ab, Some(&out(false, "", ""))),
        BranchSync::Diverged { ahead: 2, behind: 1, conflict: true }
    );
    assert_eq!(
        branch_sync(ab, Some(&out(true, "", ""))),
        BranchSync::Diverged { ahead: 2, behind: 1, conflict: false }
    );
    let ab = Some(AheadBehind { ahead: 2, behind: 0 });
    assert!(!is_diverged(ab));
    assert_eq!(branch_sync(ab, None), BranchSync::Ahead(2));
}

#[test]
fn ls_remote_answers() {
    let heads = ls_remote_heads("u", &out(true, "abc\trefs/heads/main\ndef\trefs/heads/feature\nxyz\trefs/tags/v1\n", ""));
    assert_eq!(heads, Ok(strs(&["main", "feature"])));
    let err = ls_remote_heads("ssh://h/r.git", &out(false, "", " fatal: nope \n")).unwrap_err();
    assert_eq!(err, "ls-remote ssh://h/r.git: fatal: nope");
    assert_eq!(ls_remote_sha("u", &out(true, "abc123\trefs/heads/main\n", "")), Ok(Some("abc123".to_string())));
    assert_eq!(ls_remote_sha("u", &out(true, "", "")), Ok(None));
}

#[test]
fn outcomes_trim_error_output() {
    let o = outcome(&out(false, "", "  error: failed\n"));
    assert!(!o.success);
    assert_eq!(o.stderr, "error: failed");
    let p = push(&out(true, "", "\n"));
    assert!(p.success);
    assert_eq!(p.stderr, "");
}

#[test]
fn text_helpers_follow_std() {
    assert_eq!(lines("a\r\nb\n\nc\r"), strs(&["a", "b", "", "c\r"]));
    assert_eq!(lines("x\n"), strs(&["x"]));
    assert!(lines("").is_empty());
    assert_eq!(split_whitespace("  3 \t 1\n"), strs(&["3", "1"]));
    assert_eq!(parse_u32_str("4294967295"), Some(4294967295));
    assert_eq!(parse_u32_str("4294967296"), None);
    assert_eq!(parse_u32_str("+7"), Some(7));
    assert_eq!(parse_u32_str("+"), None);
    assert_eq!(parse_u32_str("-1"), None);
    assert_eq!(parse_u32_str(""), None);
}

#[test]
fn list_homes_fails_over_and_reports_the_last_error() {
    let aliases = strs(&["lan", "ts"]);
    let attempts = vec![out(false, "", "timeout"), out(true, "/data/git/a.git\n", "")];
    assert_eq!(list_homes(&aliases, &attempts), Ok(strs(&["a"])));
    let attempts = vec![out(false, "", "timeout"), out(false, "", " refused \n")];
    assert_eq!(list_homes(&aliases, &attempts), Err("ssh ts: refused".to_string()));
}

#[test]
fn aliases_are_derived_from_repo_urls_once_each() {
    let cfg = Config::default();
    let repos = vec![
        RepoUrls { path: "/r/a".into(), urls: vec![Some("ssh://lan/data/git/a.git".into()), None] },
        RepoUrls {
            path: "/r/b".into(),
            urls: vec![Some("ssh://u@lan/data/git/b.git".into()), Some("ssh://ts:22/x.git".into())],
        },
    ];
    assert_eq!(resolve_aliases(&cfg, &repos), strs(&["lan", "ts"]));
    let l = local_repo(&repos[1]);
    assert_eq!(l, LocalRepo { dir_name: "b".into(), home_name: Some("b".into()) });
    let none = RepoUrls { path: "/".into(), urls: vec![None, Some("".into())] };
    assert_eq!(local_repo(&none), LocalRepo { dir_name: "".into(), home_name: None });
}

#[test]
fn path_components_and_names() {
    assert_eq!(file_name_of("/a/b/"), Some("b".to_string()));
    assert_eq!(file_name_of("a/.."), None);
    assert_eq!(file_name_of("."), None);
    assert_eq!(file_name_of("a/b/."), Some("b".to_string()));
    assert_eq!(repo_name("/"), "/");
    assert_eq!(repo_name("/data/Development/proj"), "proj");
    assert_eq!(path_components("./a//b/."), strs(&[".", "a", "b"]));
    assert_eq!(path_components("/x"), strs(&["/", "x"]));
    let roots = strs(&["/data/Dev"]);
    assert!(is_under_root("/data/Dev/x", &roots));
    assert!(is_under_root("/data/Dev/./x/", &roots));
    assert!(!is_under_root("/data/Dev", &roots));
    assert!(!is_under_root("/data/Dev/", &roots));
    assert!(!is_under_root("/data/Dev2/x", &roots));
}

#[test]
fn ssh_runs_in_batch_mode_with_a_timeout() {
    assert_eq!(
        ssh_args("lan", "true"),
        strs(&["-o", "BatchMode=yes", "-o", "ConnectTimeout=5", "lan", "true"])
    );
    let cfg = Config { server: Server { root: "/data/git".into(), ..Default::default() }, ..Default::default() };
    assert_eq!(survey_queries(&cfg), (true, false));
}

#[test]
fn server_commands() {
    let op = ServerOp::SetHead { root: "/data/git".into(), name: "p".into(), branch: "dev".into() };
    assert_eq!(op.command(), "git --git-dir=/data/git/p.git symbolic-ref HEAD refs/heads/dev");
    let op = ServerOp::InstallHook { root: "/g".into(), name: "p".into(), hook: "post-receive".into() };
    assert_eq!(op.command(), "cat > '/g/p.git/hooks/post-receive' && chmod 755 '/g/p.git/hooks/post-receive'");
    let op = ServerOp::RemoveHook { root: "/g".into(), name: "p".into(), hook: "post-receive".into() };
    assert_eq!(op.command(), "rm -f '/g/p.git/hooks/post-receive'");
    assert_eq!(ServerOp::HomeExists { root: "/g".into(), name: "p".into() }.command(), "test -d /g/p.git");
    assert_eq!(ServerOp::InitBare { root: "/g".into(), name: "p".into() }.command(), "git init --bare /g/p.git");
}

#[test]
fn live_alias_is_the_first_that_answers() {
    let aliases = strs(&["lan", "ts"]);
    assert_eq!(first_live_alias(&aliases, "server", &vec![false, true]), Ok("ts".to_string()));
    assert_eq!(
        first_live_alias(&aliases, "server", &vec![false, false]),
        Err("server unreachable over: lan, ts".to_string())
    );
    let cfg = Config { backup: Server { root: "/b".into(), aliases: strs(&["acer"]) }, ..Default::default() };
    assert_eq!(pick_backup_alias(&cfg, &vec![true]), Ok("acer".to_string()));
    let err = pick_backup_alias(&Config::default(), &Vec::new()).unwrap_err();
    assert!(err.contains("no SSH aliases to reach the backup"));
}

#[test]
fn push_plan_follows_remote_and_transport() {
    let cfg = Config {
        transport: Transport { auto: true, order: strs(&["data-lan", "data"]) },
        default_remotes: strs(&["x"]),
        ..Default::default()
    };
    assert_eq!(remote_plan(&push_args(None), &cfg), (strs(&["data-lan", "data"]), true));
    assert_eq!(remote_plan(&push_args(Some("only")), &cfg), (strs(&["only"]), false));
    let cfg2 = Config { default_remotes: strs(&["x"]), ..Default::default() };
    assert_eq!(remote_plan(&push_args(None), &cfg2), (strs(&["x"]), false));
    assert_eq!(remote_plan(&push_args(None), &Config::default()), (Vec::new(), false));
}

#[test]
fn only_filter_matches_name_or_path() {
    assert!(repo_selected("/r/a", &Vec::new()));
    assert!(repo_selected("/r/a", &strs(&["a"])));
    assert!(repo_selected("/r/a", &strs(&["/r/a"])));
    assert!(!repo_selected("/r/a", &strs(&["no-such-repo"])));
}

#[test]
fn push_repo_plan_cases() {
    let have = strs(&["origin", "data", "data"]);
    let p = plan_push_repo(&Vec::new(), false, &have, false, &Some("main".into()), &None).ok().unwrap();
    assert_eq!(p.targets, vec![("data".to_string(), strs(&["data"])), ("origin".to_string(), strs(&["origin"]))]);
    let fetched: Vec<Vec<String>> = p.fetches.iter().map(|op| op.args()).collect();
    assert_eq!(fetched, vec![strs(&["fetch", "data"]), strs(&["fetch", "origin"])]);
    assert_eq!(p.branches, strs(&["main"]));
    let order = strs(&["data-lan", "data"]);
    let have = strs(&["data", "data-lan"]);
    let p = plan_push_repo(&order, true, &have, true, &None, &Some(strs(&["a", "b"]))).ok().unwrap();
    assert_eq!(p.targets, vec![("data-lan".to_string(), strs(&["data-lan", "data"]))]);
    let fetched: Vec<Vec<String>> = p.fetches.iter().map(|op| op.args()).collect();
    assert_eq!(fetched, vec![strs(&["fetch", "data-lan"]), strs(&["fetch", "data"])]);
    assert_eq!(p.branches, strs(&["a", "b"]));
    let r = plan_push_repo(&order, true, &strs(&["origin"]), false, &None, &None).err().unwrap();
    assert_eq!(r.status, "no configured home remote on this repo");
    assert_eq!(r.counted, Counted::Skipped);
    let r = plan_push_repo(&order, true, &have, false, &None, &None).err().unwrap();
    assert_eq!(r.branch, "(detached)");
    assert_eq!(r.status, "no branch to push (detached HEAD)");
}

#[test]
fn push_never_touches_behind_or_diverged() {
    match push_verdict(BranchSync::Behind(2), false, "main", "data") {
        PushVerdict::Settled(r) => {
            assert_eq!(r.status, "SKIPPED: behind 2 (pull first)");
            assert_eq!(r.audit, Some(("skipped".to_string(), "behind 2".to_string())));
            assert_eq!(r.counted, Counted::Skipped);
        },
        PushVerdict::Attempt(_) => panic!("a behind branch must not be pushed"),
    }
    match push_verdict(BranchSync::Diverged { ahead: 1, behind: 3, conflict: true }, true, "main", "data") {
        PushVerdict::Settled(r) => {
            assert_eq!(r.status, "SKIPPED: diverged + CONFLICT (\u{2191}1 \u{2193}3; never forced)");
            assert_eq!(r.audit, None);
        },
        PushVerdict::Attempt(_) => panic!("a diverged branch must not be pushed"),
    }
    match push_verdict(BranchSync::Ahead(4), false, "main", "data") {
        PushVerdict::Attempt(w) => assert_eq!(w, "\u{2191}4"),
        PushVerdict::Settled(_) => panic!("an ahead branch is pushed"),
    }
    match push_verdict(BranchSync::NoRemoteBranch, false, "main", "data") {
        PushVerdict::Attempt(w) => assert_eq!(w, "new"),
        PushVerdict::Settled(_) => panic!("a new branch is pushed"),
    }
}

#[test]
fn push_failover_reports_the_remote_that_took_it() {
    let attempts = strs(&["data-lan", "data"]);
    let outcomes = vec![
        PushOutcome { success: false, stderr: "ssh: lan down\nmore".into() },
        PushOutcome { success: true, stderr: String::new() },
    ];
    let r = push_settled("main", "data-lan", &attempts, &outcomes, "new", false);
    assert_eq!(r.remote, "data");
    assert_eq!(r.status, "pushed (new)");
    assert_eq!(r.audit, Some(("pushed".to_string(), "new".to_string())));
    let outcomes = vec![
        PushOutcome { success: false, stderr: "a".into() },
        PushOutcome { success: false, stderr: "rejected\nhint".into() },
    ];
    let r = push_settled("main", "data-lan", &attempts, &outcomes, "\u{2191}1", true);
    assert_eq!(r.remote, "data-lan");
    assert_eq!(r.status, "FAILED (\u{2191}1): rejected");
    assert_eq!(r.audit, None);
    assert_eq!(r.counted, Counted::Failed);
}

#[test]
fn dirty_work_is_named_and_summaries_count() {
    let wt = WorkingTree { staged: 1, unstaged: 0, untracked: 2, conflicts: 0 };
    assert_eq!(
        dirty_note("myrepo", &wt).as_deref(),
        Some("  \u{26a0} myrepo: 1 staged, 2 untracked \u{2014} NOT backed up (commit to include)")
    );
    assert_eq!(dirty_note("myrepo", &WorkingTree::default()), None);
    let mut t = Tally::new();
    t.count(Counted::Pushed);
    t.count(Counted::Skipped);
    t.count_dirty();
    assert_eq!(push_summary(&t), "\n1 pushed \u{b7} 0 up-to-date \u{b7} 1 skipped \u{b7} 0 failed \u{b7} 1 dirty");
    t.count(Counted::Pulled);
    assert_eq!(sync_summary(&t), "\n1 pushed \u{b7} 1 pulled \u{b7} 0 up-to-date \u{b7} 1 skipped \u{b7} 0 failed");
    assert_eq!(
        status_line("r", "main", "data", "ok"),
        format!("  {:<18} {:<22} {:<9} {}", "r", "main", "data", "ok")
    );
}

#[test]
fn sync_repo_plan_and_actions() {
    let c = strs(&["data-lan", "data"]);
    assert_eq!(plan_sync_repo(&c, &vec![false, true], &strs(&["main"])).ok(), Some("data".to_string()));
    let r = plan_sync_repo(&c, &vec![false, false], &strs(&["main"])).err().unwrap();
    assert_eq!(r.status, "unreachable (no transport fetched)");
    let r = plan_sync_repo(&Vec::new(), &Vec::new(), &Vec::new()).err().unwrap();
    assert_eq!(r.status, "no configured home remote");
    let r = plan_sync_repo(&c, &vec![true], &Vec::new()).err().unwrap();
    assert_eq!(r.status, "no branch to sync");
    let dirty = WorkingTree { staged: 0, unstaged: 1, untracked: 0, conflicts: 0 };
    assert_eq!(branch_action(BranchSync::Behind(2), true, &dirty), SyncAction::BlockedDirty(2));
    assert_eq!(branch_action(BranchSync::Behind(2), false, &dirty), SyncAction::FastForward(2));
    let r = settled_action(SyncAction::BlockedDirty(2), BranchSync::Behind(2), "main", "data", false).unwrap();
    assert_eq!(r.status, "SKIPPED: behind 2 but tree dirty \u{2014} commit/stash to fast-forward");
    let d = BranchSync::Diverged { ahead: 1, behind: 1, conflict: true };
    let r = settled_action(SyncAction::Report, d, "main", "data", true).unwrap();
    assert_eq!(r.status, "SKIPPED: diverged + CONFLICT (manual)");
    assert_eq!(r.audit, None);
    assert!(settled_action(SyncAction::Push, BranchSync::Ahead(1), "main", "data", false).is_none());
    assert_eq!(confirm_prompt("r", "main", SyncAction::FastForward(3)), "  r main: fast-forward \u{2193}3? [y/N] ");
    let sync = |interactive, dry_run| SyncArgs { all_branches: false, interactive, dry_run, repos: Vec::new() };
    assert!(needs_confirmation(&sync(true, false)));
    assert!(!needs_confirmation(&sync(true, true)));
    assert!(!needs_confirmation(&sync(false, false)));
    assert!(confirmed(" yes\n"));
    assert!(!confirmed("no"));
}

#[test]
fn sync_push_and_fast_forward_reports() {
    let c = strs(&["data-lan", "data"]);
    let outcomes = vec![PushOutcome { success: false, stderr: "x\ny".into() }, PushOutcome { success: false, stderr: "z".into() }];
    let r = sync_push_settled("main", &c, &outcomes, false);
    assert_eq!(r.remote, "data-lan");
    assert_eq!(r.status, "FAILED push: z");
    assert_eq!(r.audit, Some(("failed".to_string(), "z".to_string())));
    let r = ff_plan(2, &"main".to_string(), &"data".to_string(), true, true).err().unwrap();
    assert_eq!(r.status, "would fast-forward (\u{2193}2)");
    let op = ff_plan(2, &"main".to_string(), &"data".to_string(), true, false).ok().unwrap();
    assert_eq!(op.args(), strs(&["merge", "--ff-only", "data/main"]));
    let r = ff_settled(2, "main", "data", &outcome(&out(true, "", "")));
    assert_eq!(r.status, "fast-forwarded (\u{2193}2)");
    assert_eq!(r.audit, Some(("ff-pull".to_string(), "\u{2193}2".to_string())));
}

#[test]
fn create_provisions_in_order() {
    // No backup: exists? no -> init ok -> head -> provisioned.
    let mut s = CreateStage::PrimaryExists;
    let mut seen = vec![s];
    for ok in [false, true, true] {
        s = create_next(s, false, ok, "", "p", "").unwrap();
        seen.push(s);
    }
    assert_eq!(seen, vec![CreateStage::PrimaryExists, CreateStage::InitPrimary, CreateStage::SetPrimaryHead, CreateStage::Provisioned]);
    // With a backup, the last two steps harden and guard the backup home.
    let mut s = CreateStage::PrimaryExists;
    let mut seen = vec![s];
    for ok in [false, true, true, true, false, true, true, true, true] {
        s = create_next(s, true, ok, "", "p", "acer").unwrap();
        seen.push(s);
    }
    let n = seen.len();
    assert_eq!(seen[n - 1], CreateStage::Provisioned);
    assert_eq!(seen[n - 2], CreateStage::PreReceiveHook);
    assert_eq!(seen[n - 3], CreateStage::HardenBackup);
    assert!(CreateStage::HardenBackup.on_backup());
    assert!(!CreateStage::InitPrimary.on_backup());
}

#[test]
fn create_refuses_and_reports_failures() {
    assert_eq!(
        create_next(CreateStage::PrimaryExists, true, true, "", "proj", "").unwrap_err(),
        "a home named `proj` already exists on the server \u{2014} use `gr sync` to back it up"
    );
    assert_eq!(
        create_next(CreateStage::InitPrimary, true, false, "fatal: x\nmore", "proj", "").unwrap_err(),
        "could not create bare repo: fatal: x"
    );
    assert_eq!(
        create_next(CreateStage::HardenBackup, true, false, "denied", "proj", "acer").unwrap_err(),
        "backup home exists but could not be hardened on acer: denied"
    );
    let root = "/g".to_string();
    let bk = "/b".to_string();
    let op = CreateStage::HardenBackup.op(&root, &bk, &"p".to_string(), &"main".to_string()).unwrap();
    assert_eq!(op.command(), "git --git-dir=/b/p.git config receive.denyNonFastForwards true && git --git-dir=/b/p.git config receive.denyDeletes true");
    assert!(CreateStage::Provisioned.op(&root, &bk, &"p".to_string(), &"main".to_string()).is_none());
    assert_eq!(created_line("p", 2, false), "created `p` (2 branch(es) pushed) \u{2014} primary only (no [backup])");
    let cfg = Config { transport: Transport { auto: true, order: strs(&["data-lan", "data"]) }, ..Default::default() };
    assert_eq!(primary_remote(&cfg, &strs(&["data"])), Ok("data".to_string()));
    assert_eq!(primary_remote(&cfg, &strs(&["origin"])), Err("no transport remote present after wiring".to_string()));
    let err = require_server(&Config::default(), "/c/config.toml").unwrap_err();
    assert!(err.contains("no [server] configured"));
}

#[test]
fn clone_target_must_be_inside_a_root() {
    let cfg = Config { roots: strs(&["/data/Development"]), ..Default::default() };
    match clone_target(&cfg, &clone_args("proj", None)) {
        CloneTarget::Dir(d) => assert_eq!(d, "/data/Development/proj"),
        _ => panic!("default target is under the first root"),
    }
    match clone_target(&cfg, &clone_args("x", Some("/tmp/definitely-not-a-root/x"))) {
        CloneTarget::OutsideRoots(d) => assert_eq!(d, "/tmp/definitely-not-a-root/x"),
        _ => panic!("a target outside the roots is refused"),
    }
    assert!(matches!(clone_target(&Config::default(), &clone_args("x", None)), CloneTarget::NoRoots));
    match clone_target(&cfg, &clone_args("x", Some("/data/Development"))) {
        CloneTarget::OutsideRoots(d) => assert_eq!(d, "/data/Development"),
        _ => panic!("a root itself is not inside a root"),
    }
}

#[test]
fn onboard_walks_local_only_unignored_repos() {
    let ps = vec![
        RepoPresence { home_name: "a".into(), local_dir: Some("a".into()), lifecycle: Lifecycle::LocalOnly },
        RepoPresence { home_name: "b".into(), local_dir: Some("b".into()), lifecycle: Lifecycle::LocalOnly },
        RepoPresence { home_name: "c".into(), local_dir: Some("c".into()), lifecycle: Lifecycle::Linked },
        RepoPresence { home_name: "d".into(), local_dir: Some("d".into()), lifecycle: Lifecycle::LocalOnly },
    ];
    let cfg = Config { ignore: strs(&["d"]), ..Default::default() };
    let repos = strs(&["/r/a", "/r/b", "/r/c", "/r/d"]);
    let backup = Some(BackupState { reachable: true, homes: strs(&["b"]) });
    let c = onboard_candidates(&ps, &cfg, &repos, &backup);
    assert_eq!(c.len(), 2);
    assert_eq!((c[0].name.as_str(), c[0].path.as_str(), c[0].kind), ("a", "/r/a", OnboardKind::Create));
    assert_eq!((c[1].name.as_str(), c[1].kind), ("b", OnboardKind::Repoint));
}

#[test]
fn onboard_prompts_and_answers() {
    assert_eq!(blocked_why(&None, true), Some("detached HEAD"));
    assert_eq!(blocked_why(&Some("main".into()), false), Some("no commits yet"));
    assert_eq!(blocked_why(&Some("main".into()), true), None);
    assert_eq!(dry_run_plan(Some("detached HEAD"), OnboardKind::Create), "BLOCKED (detached HEAD) \u{2014} ignore or fix, then re-run");
    assert_eq!(decision_prompt(false, OnboardKind::Create), "  onboard (y) / ignore (n) / skip (s) / quit (q) ? ");
    assert_eq!(decision_prompt(true, OnboardKind::Create), "  ignore (n) / skip (s) / quit (q) ? ");
    assert_eq!(parse_decision("y\n", false, OnboardKind::Create), Some(Decision::Onboard));
    assert_eq!(parse_decision("y\n", false, OnboardKind::Repoint), None);
    assert_eq!(parse_decision("r", false, OnboardKind::Repoint), Some(Decision::Repoint));
    assert_eq!(parse_decision("y", true, OnboardKind::Create), None);
    assert_eq!(parse_decision("\n", true, OnboardKind::Create), Some(Decision::Skip));
    assert_eq!(parse_decision("N", false, OnboardKind::Create), Some(Decision::Ignore));
    assert_eq!(parse_decision("q", false, OnboardKind::Create), Some(Decision::Quit));
    let t = OnboardTally { onboarded: 1, ignored: 2, skipped: 0, failed: 0 };
    assert_eq!(onboard_summary(&t), "1 onboarded \u{b7} 2 ignored \u{b7} 0 skipped \u{b7} 0 failed");
}

#[test]
fn short_host_and_candidate_context() {
    assert_eq!(short_host("git@github.com:o/r.git"), "github.com");
    assert_eq!(short_host("ssh://acer-lan/data/git/x.git"), "acer-lan");
    assert_eq!(short_host("https://u@host.example/x"), "host.example");
    assert_eq!(short_host("///"), "///");
    let wt = WorkingTree { staged: 1, unstaged: 1, untracked: 3, conflicts: 0 };
    let lines = candidate_lines(1, 3, "proj", "12M", &Some("main".into()), &Some("git@github.com:o/r.git".into()), &None, &wt);
    assert_eq!(
        lines,
        strs(&[
            "[1/3]  proj",
            "        12M \u{b7} main \u{b7} github.com origin \u{b7} no commits",
            "        2 uncommitted, 3 untracked (won't be backed up)",
        ])
    );
}

#[test]
fn status_cells_and_columns() {
    assert_eq!(life_label(true, true, Lifecycle::Linked), "ignored");
    assert_eq!(life_label(false, true, Lifecycle::HomeOnly), "home-only");
    assert_eq!(life_label(false, false, Lifecycle::Linked), "?");
    assert_eq!(backup_label(&None, &"p".to_string()), "");
    assert_eq!(backup_label(&Some(BackupState { reachable: false, homes: Vec::new() }), &"p".to_string()), "?");
    assert_eq!(backup_label(&Some(BackupState { reachable: true, homes: strs(&["p"]) }), &"p".to_string()), "ok");
    assert_eq!(backup_label(&Some(BackupState { reachable: true, homes: strs(&["q"]) }), &"p".to_string()), "miss");
    let cfg = Config::default();
    assert_eq!(shown_remotes(&None, &cfg, &Some(strs(&["origin", "data", "origin"]))), strs(&["data", "origin"]));
    assert_eq!(shown_remotes(&Some("x".into()), &cfg, &None), strs(&["x"]));
    let branches = strs(&["main", "feature", "old"]);
    let syncs = vec![BranchSync::Ahead(1), BranchSync::Behind(2), BranchSync::UpToDate];
    assert_eq!(others_needing_attention(&Some("main".into()), &branches, &syncs), 1);
    assert_eq!(action_label(BranchSync::Ahead(2), SyncAction::Push), "push \u{2191}2");
    assert_eq!(action_label(BranchSync::NoRemoteBranch, SyncAction::Push), "push (new)");
    assert_eq!(action_label(BranchSync::Behind(3), SyncAction::BlockedDirty(3)), "\u{2193}3 dirty");
    assert_eq!(detail_heading("proj", Lifecycle::Linked, false), "proj  [?]");
}

#[test]
fn status_rows_of_a_repo() {
    let wt = WorkingTree { staged: 0, unstaged: 1, untracked: 0, conflicts: 0 };
    let branches = strs(&["dev", "main"]);
    let cells = vec![vec![Some(BranchSync::UpToDate)], vec![Some(BranchSync::Ahead(1))]];
    let rows = local_rows(&"proj".to_string(), &"linked".to_string(), &"ok".to_string(), &Some("main".into()), wt, &branches, &cells, false, false, Some(2), 1);
    assert_eq!(rows.len(), 2);
    assert_eq!(rows[0].repo, "proj");
    assert_eq!(rows[0].lifecycle, "linked");
    assert!(!rows[0].is_current);
    assert_eq!(rows[1].repo, "");
    assert!(rows[1].is_current);
    assert_eq!(rows[1].wt, Some(wt));
    assert_eq!(rows[1].others, Some(2));
    // No hint with every branch shown, nor for an ignored repo.
    for (all, ignored) in [(true, false), (false, true)] {
        let rows = local_rows(&"proj".to_string(), &"ignored".to_string(), &"".to_string(), &Some("main".into()), wt, &branches, &cells, all, ignored, Some(2), 1);
        assert!(rows.iter().all(|r| r.others.is_none()));
    }
    assert!(wants_others(false, false, &branches));
    assert!(!wants_others(false, true, &branches));
    assert!(!wants_others(true, false, &branches));
    assert!(!wants_others(false, false, &Vec::new()));
    let rows = local_rows(&"proj".to_string(), &"?".to_string(), &"".to_string(), &None, wt, &Vec::new(), &Vec::new(), false, false, None, 2);
    assert_eq!(rows.len(), 1);
    assert_eq!(rows[0].branch, "(detached)");
    assert_eq!(rows[0].remote_cells, vec![None, None]);
    let r = detail_row(&"main".to_string(), true, wt, &vec![None], Some(BranchSync::Behind(1)));
    assert_eq!(r.action.as_deref(), Some("\u{2193}1 dirty"));
    let r = detail_row(&"dev".to_string(), false, wt, &vec![None], Some(BranchSync::Behind(1)));
    assert_eq!(r.action.as_deref(), Some("ff \u{2193}1"));
    let rows = home_branch_rows(&strs(&["main", "hotfix"]), &strs(&["main"]), 1, true);
    assert_eq!(rows.len(), 1);
    assert_eq!(rows[0].branch, "hotfix");
    assert_eq!(rows[0].action.as_deref(), Some("fetch"));
}

#[test]
fn status_survey_and_banner() {
    let ps = vec![RepoPresence { home_name: "h".into(), local_dir: Some("dir".into()), lifecycle: Lifecycle::Linked }];
    assert_eq!(find_presence(&ps, "dir"), Some(0));
    assert_eq!(find_presence(&ps, "h"), Some(0));
    assert_eq!(find_presence(&ps, "zz"), None);
    let cfg = Config {
        server: Server { root: "/data/git".into(), ..Default::default() },
        backup: Server { root: "/b".into(), ..Default::default() },
        ..Default::default()
    };
    let locals = vec![LocalRepo { dir_name: "p".into(), home_name: None }];
    let homes = strs(&["p"]);
    let (s, known) = status_survey(&cfg, false, &locals, Some(&homes[..]), None);
    assert!(known);
    assert_eq!(s.presences[0].lifecycle, Lifecycle::Linked);
    let b = s.backup.unwrap();
    assert!(!b.reachable);
    let (s, known) = status_survey(&cfg, true, &locals, Some(&homes[..]), Some(&homes[..]));
    assert!(!known);
    assert!(s.backup.is_none());
    assert_eq!(s.presences[0].lifecycle, Lifecycle::LocalOnly);
    assert!(status_banner(false, false, &cfg, "/c").unwrap().contains("server unreachable"));
    assert!(status_banner(false, false, &Config::default(), "/c").unwrap().contains("/c to enable it"));
    assert_eq!(status_banner(false, true, &cfg, "/c"), None);
}

#[test]
fn review_answers() {
    assert!(starts_review("s\n"));
    assert!(starts_review("stage"));
    assert!(!starts_review("\n"));
    assert_eq!(stage_answer("y"), StageAnswer::Stage);
    assert_eq!(stage_answer(" E "), StageAnswer::Edit);
    assert_eq!(stage_answer(""), StageAnswer::Leave);
    assert_eq!(commit_message("  fix it \n").as_deref(), Some("fix it"));
    assert_eq!(commit_message(" \n"), None);
    let wt = WorkingTree { staged: 0, unstaged: 2, untracked: 0, conflicts: 1 };
    assert_eq!(review_heading("r", "main", &wt), "\nr (main) \u{2014} 2 unstaged, 1 conflicts");
}

#[test]
fn audit_record_line_shape() {
    let line = Audit::record_line(1_700_000_000, "myrepo", "main", "data-lan", "pushed", "\u{2191}2");
    assert!(line.starts_with("2023-11-14T22:13:20Z "));
    assert!(line.contains("action=push repo=myrepo branch=main remote=data-lan result=pushed"));
    assert!(line.ends_with("detail=\"\u{2191}2\"\n"));
    let line = Audit::record_line(0, "r", "b", "d", "skipped", "");
    assert_eq!(line, "1970-01-01T00:00:00Z action=push repo=r branch=b remote=d result=skipped\n");
    // The detail is quoted with Rust's debug escapes, so a record stays one line.
    let line = Audit::record_line(0, "r", "b", "d", "failed", "say \"no\"\nthen");
    assert!(line.ends_with("detail=\"say \\\"no\\\"\\nthen\"\n"), "{line}");
}

#[test]
fn easy_pushes_never_leave_the_remote_ahead() {
    for (a, b) in [(0u32, 0u32), (3, 0), (0, 2), (1, 1)] {
        let s = BranchSync::classify(Some(AheadBehind { ahead: a, behind: b }), Some(false));
        if s.is_easy_push() {
            assert_eq!(b, 0);
        }
        assert!(!s.label().is_empty());
    }
}

#[test]
fn skips_never_count_as_failures() {
    let cases = [
        BranchSync::UpToDate,
        BranchSync::Behind(1),
        BranchSync::Diverged { ahead: 2, behind: 1, conflict: false },
        BranchSync::Diverged { ahead: 2, behind: 1, conflict: true },
    ];
    for sync in cases {
        for dry_run in [false, true] {
            match push_verdict(sync, dry_run, "main", "data") {
                PushVerdict::Settled(r) => assert_ne!(r.counted, Counted::Failed),
                PushVerdict::Attempt(_) => panic!("{sync:?} is never pushed"),
            }
        }
    }
    let attempts = strs(&["data"]);
    let ok = vec![PushOutcome { success: true, stderr: String::new() }];
    assert_eq!(push_settled("main", "data", &attempts, &ok, "new", false).counted, Counted::Pushed);
    let bad = vec![PushOutcome { success: false, stderr: "denied".into() }];
    assert_eq!(push_settled("main", "data", &attempts, &bad, "new", false).counted, Counted::Failed);
}

#[test]
fn real_actions_are_always_audited() {
    let attempts = strs(&["data-lan", "data"]);
    let failed = vec![
        PushOutcome { success: false, stderr: "a".into() },
        PushOutcome { success: false, stderr: "b".into() },
    ];
    let r = push_settled("main", "data-lan", &attempts, &failed, "new", false);
    assert_eq!(r.audit, Some(("failed".to_string(), "new: b".to_string())));
    let pushed = vec![PushOutcome { success: true, stderr: String::new() }];
    let r = sync_push_settled("main", &attempts, &pushed, false);
    assert_eq!(r.audit, Some(("pushed".to_string(), String::new())));
    let r = ff_settled(1, "main", "data", &outcome(&out(false, "", "not ff\nhint")));
    assert_eq!(r.audit, Some(("failed".to_string(), "not ff".to_string())));
}

#[test]
fn named_git_operations() {
    let op = git_ops::clone("ssh://h/g/p.git", "/d/p");
    assert!(!op.in_repo());
    assert_eq!(op.args(), strs(&["clone", "ssh://h/g/p.git", "/d/p"]));
    assert_eq!(git_ops::add_remote("data", "ssh://h/p.git").args(), strs(&["remote", "add", "data", "ssh://h/p.git"]));
    assert_eq!(git_ops::set_remote_url("data", "u").args(), strs(&["remote", "set-url", "data", "u"]));
    assert_eq!(git_ops::remove_remote("origin").args(), strs(&["remote", "remove", "origin"]));
    assert_eq!(git_ops::fetch("data-lan").args(), strs(&["fetch", "data-lan"]));
    assert_eq!(git_ops::ff_merge_current("data", "main").args(), strs(&["merge", "--ff-only", "data/main"]));
    assert_eq!(git_ops::ff_update_branch("data", "dev").args(), strs(&["fetch", ".", "refs/remotes/data/dev:refs/heads/dev"]));
    assert!(git_ops::fetch("x").in_repo());
}

#[test]
fn named_server_operations() {
    assert_eq!(server_ops::home_exists_op("/g", "p").command(), "test -d /g/p.git");
    assert_eq!(server_ops::init_bare("/g", "p").command(), "git init --bare /g/p.git");
    assert_eq!(server_ops::set_head("/g", "p", "dev").command(), "git --git-dir=/g/p.git symbolic-ref HEAD refs/heads/dev");
    assert_eq!(
        server_ops::install_hook("/g", "p", "pre-receive").command(),
        "cat > '/g/p.git/hooks/pre-receive' && chmod 755 '/g/p.git/hooks/pre-receive'"
    );
    assert_eq!(server_ops::remove_hook("/g", "p", "post-receive").command(), "rm -f '/g/p.git/hooks/post-receive'");
    assert_eq!(
        server_ops::harden_home("/g", "p").command(),
        "git --git-dir=/g/p.git config receive.denyNonFastForwards true && git --git-dir=/g/p.git config receive.denyDeletes true"
    );
}

#[test]
fn status_refreshes_and_collapses_same_server_aliases() {
    let shown = strs(&["data-lan", "data", "origin"]);
    let have = strs(&["data", "origin"]);
    let ops: Vec<Vec<String>> = status_fetches(false, &shown, &have).iter().map(|op| op.args()).collect();
    assert_eq!(ops, vec![strs(&["fetch", "data"]), strs(&["fetch", "origin"])]);
    assert!(status_fetches(true, &shown, &have).is_empty());
    let cfg = Config { transport: Transport { auto: true, order: strs(&["data-lan", "data"]) }, ..Default::default() };
    let plan = status_columns(&cfg, &shown);
    assert_eq!(plan.remotes, strs(&["data", "origin"]));
    // After a failover push over data-lan only, the stale `new` of `data` loses to `ok`.
    let folded = plan.fold(&[Some(BranchSync::UpToDate), Some(BranchSync::NoRemoteBranch), None]);
    assert_eq!(folded, vec![Some(BranchSync::UpToDate), None]);
}

#[test]
fn onboarding_needs_the_server_answering() {
    let cfg = Config {
        roots: strs(&["/data/Development"]),
        server: Server { root: "/data/git".into(), aliases: strs(&["h"]) },
        ..Default::default()
    };
    let e = require_reachable(&cfg, false).err().unwrap();
    assert!(e.starts_with("home server unreachable"), "{e}");
    assert!(require_reachable(&cfg, true).is_ok());
    let empty = Config { server: Server { root: "/data/git".into(), aliases: Vec::new() }, ..Default::default() };
    assert!(require_reachable(&empty, false).is_ok());
    assert!(require_reachable(&Config { roots: strs(&["/d"]), ..Default::default() }, false).is_ok());
}

#[test]
fn creation_pushes_are_settled_and_audited() {
    let ok = PushOutcome { success: true, stderr: String::new() };
    let r = created_push("main", "data-lan", &ok);
    assert_eq!(r.line, "  pushed main \u{2192} data-lan");
    assert!(!r.failed);
    assert_eq!(r.audit, Some(("created".to_string(), String::new())));
    let bad = PushOutcome { success: false, stderr: "rejected\nhint".into() };
    let r = created_push("dev", "data-lan", &bad);
    assert_eq!(r.line, "  push dev failed: rejected");
    assert!(r.failed);
    assert_eq!(r.audit, None);
    let ok2 = || PushOutcome { success: true, stderr: String::new() };
    assert!(!creation_failed(&vec![ok2()]));
    assert!(creation_failed(&vec![ok2(), bad]));
    assert!(!creation_failed(&Vec::new()));
}

#[test]
fn commit_only_with_something_staged_and_a_message() {
    assert!(!wants_commit(0));
    assert!(wants_commit(2));
    assert_eq!(commit_plan(2, Some("  stage everything \n")).as_deref(), Some("stage everything"));
    assert_eq!(commit_plan(2, Some("   \n")), None);
    assert_eq!(commit_plan(2, None), None);
    assert_eq!(commit_plan(0, Some("msg")), None);
}
