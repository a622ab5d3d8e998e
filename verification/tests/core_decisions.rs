use git_redundancy::classify::BranchSync;
use git_redundancy::collapse::{collapse_columns, most_backed_up};
use git_redundancy::model::AheadBehind;
use git_redundancy::onboard::{classify_onboard, OnboardAction};
use git_redundancy::presence::{home_name_from_url, join_presences, Lifecycle, LocalRepo};
use git_redundancy::status::{parse_porcelain_v2_z, parse_status_entries_v2_z, EntryKind, StatusEntry};
use git_redundancy::sync::SyncAction;
use git_redundancy::timefmt::rfc3339_utc;

fn strs(v: &[&str]) -> Vec<String> {
    v.iter().map(|s| s.to_string()).collect()
}

fn local(dir: &str, home: Option<&str>) -> LocalRepo {
    LocalRepo { dir_name: dir.to_string(), home_name: home.map(str::to_string) }
}

#[test]
fn classification_table() {
    assert_eq!(BranchSync::classify(None, None), BranchSync::NoRemoteBranch);
    assert_eq!(
        BranchSync::classify(Some(AheadBehind { ahead: 0, behind: 0 }), None),
        BranchSync::UpToDate
    );
    assert_eq!(
        BranchSync::classify(Some(AheadBehind { ahead: 3, behind: 0 }), None),
        BranchSync::Ahead(3)
    );
    assert_eq!(
        BranchSync::classify(Some(AheadBehind { ahead: 0, behind: 2 }), None),
        BranchSync::Behind(2)
    );
    assert_eq!(
        BranchSync::classify(Some(AheadBehind { ahead: 1, behind: 1 }), Some(true)),
        BranchSync::Diverged { ahead: 1, behind: 1, conflict: true }
    );
}

#[test]
fn easy_push_only_when_ff_or_new() {
    assert!(BranchSync::NoRemoteBranch.is_easy_push());
    assert!(BranchSync::UpToDate.is_easy_push());
    assert!(BranchSync::Ahead(5).is_easy_push());
    assert!(!BranchSync::Behind(1).is_easy_push());
    assert!(!BranchSync::Diverged { ahead: 1, behind: 1, conflict: false }.is_easy_push());
}

#[test]
fn two_aliases_become_one_data_column() {
    let plan = collapse_columns(&strs(&["data-lan", "data"]), &strs(&["data-lan", "data"]));
    assert_eq!(plan.remotes, strs(&["data"]));
}

#[test]
fn non_group_remotes_keep_their_own_column_in_place() {
    let plan = collapse_columns(&strs(&["data-lan", "data", "origin"]), &strs(&["data-lan", "data"]));
    assert_eq!(plan.remotes, strs(&["data", "origin"]));
}

#[test]
fn group_column_sits_where_the_group_first_appears() {
    let plan = collapse_columns(&strs(&["origin", "data-lan", "data"]), &strs(&["data-lan", "data"]));
    assert_eq!(plan.remotes, strs(&["origin", "data"]));
}

#[test]
fn fold_prefers_ok_over_a_stale_ahead_sibling() {
    let plan = collapse_columns(&strs(&["data-lan", "data"]), &strs(&["data-lan", "data"]));
    let folded = plan.fold(&[Some(BranchSync::UpToDate), Some(BranchSync::Ahead(1))]);
    assert_eq!(folded, vec![Some(BranchSync::UpToDate)]);
    let folded = plan.fold(&[Some(BranchSync::Ahead(1)), Some(BranchSync::UpToDate)]);
    assert_eq!(folded, vec![Some(BranchSync::UpToDate)]);
}

#[test]
fn fold_is_none_only_when_every_alias_is_absent() {
    let plan = collapse_columns(&strs(&["data-lan", "data", "origin"]), &strs(&["data-lan", "data"]));
    let folded = plan.fold(&[None, None, Some(BranchSync::UpToDate)]);
    assert_eq!(folded, vec![None, Some(BranchSync::UpToDate)]);
    let folded = plan.fold(&[Some(BranchSync::Ahead(2)), None, None]);
    assert_eq!(folded, vec![Some(BranchSync::Ahead(2)), None]);
}

#[test]
fn a_genuine_gap_still_surfaces_when_all_aliases_agree() {
    let plan = collapse_columns(&strs(&["data-lan", "data"]), &strs(&["data-lan", "data"]));
    let folded = plan.fold(&[Some(BranchSync::Ahead(3)), Some(BranchSync::Ahead(3))]);
    assert_eq!(folded, vec![Some(BranchSync::Ahead(3))]);
}

#[test]
fn ok_beats_diverged_conflict_between_same_server_transports() {
    assert_eq!(
        most_backed_up(BranchSync::UpToDate, BranchSync::Diverged { ahead: 1, behind: 1, conflict: true }),
        BranchSync::UpToDate
    );
}

#[test]
fn no_home_anywhere_is_create() {
    assert_eq!(classify_onboard(false, false), OnboardAction::Create);
}

#[test]
fn backup_only_is_repoint() {
    assert_eq!(classify_onboard(false, true), OnboardAction::Repoint);
}

#[test]
fn primary_present_is_always_attach() {
    assert_eq!(classify_onboard(true, true), OnboardAction::Attach);
    assert_eq!(classify_onboard(true, false), OnboardAction::Attach);
}

#[test]
fn home_name_from_various_urls() {
    assert_eq!(
        home_name_from_url("ssh://tenx-lan/data/git/omarchy-setup.git").as_deref(),
        Some("omarchy-setup")
    );
    assert_eq!(home_name_from_url("ssh://tenx-ts/data/git/proj.git/").as_deref(), Some("proj"));
    assert_eq!(home_name_from_url("randallard@host:repos/foo.git").as_deref(), Some("foo"));
    assert_eq!(home_name_from_url("ssh://h/a/b/bare").as_deref(), Some("bare"));
    assert_eq!(home_name_from_url(""), None);
    assert_eq!(home_name_from_url("/"), None);
}

#[test]
fn linked_when_local_home_name_matches_a_server_home() {
    let locals = [local("USCourts_setup", Some("omarchy-setup"))];
    let homes = ["omarchy-setup".to_string()];
    let v = join_presences(&locals, &homes);
    assert_eq!(v.len(), 1);
    assert_eq!(v[0].home_name, "omarchy-setup");
    assert_eq!(v[0].local_dir.as_deref(), Some("USCourts_setup"));
    assert_eq!(v[0].lifecycle, Lifecycle::Linked);
}

#[test]
fn local_without_home_is_local_only_keyed_by_dir_name() {
    let locals = [local("fresh", None)];
    let v = join_presences(&locals, &[]);
    assert_eq!(v.len(), 1);
    assert_eq!(v[0].home_name, "fresh");
    assert_eq!(v[0].lifecycle, Lifecycle::LocalOnly);
}

#[test]
fn home_without_local_is_home_only() {
    let homes = ["server-only".to_string()];
    let v = join_presences(&[], &homes);
    assert_eq!(v.len(), 1);
    assert_eq!(v[0].home_name, "server-only");
    assert_eq!(v[0].local_dir, None);
    assert_eq!(v[0].lifecycle, Lifecycle::HomeOnly);
}

#[test]
fn mixed_fleet_is_sorted_and_deduped() {
    let locals = [local("USCourts_setup", Some("omarchy-setup")), local("brand-new", None)];
    let homes = ["omarchy-setup".to_string(), "cmecf_inside".to_string()];
    let v = join_presences(&locals, &homes);
    let states: Vec<_> = v.iter().map(|p| (p.home_name.as_str(), p.lifecycle)).collect();
    assert_eq!(
        states,
        vec![
            ("brand-new", Lifecycle::LocalOnly),
            ("cmecf_inside", Lifecycle::HomeOnly),
            ("omarchy-setup", Lifecycle::Linked),
        ]
    );
}

const SAMPLE: &str = "# branch.oid abc123\0\
# branch.head main\0\
1 M. N... 100644 100644 100644 aaa bbb staged.rs\0\
1 .M N... 100644 100644 100644 ccc ddd worktree.rs\0\
? new_file.rs\0\
2 R. N... 100644 100644 100644 eee fff R100 newname.rs\0\
old_name.rs\0\
u UU N... 100644 100644 100644 100644 ggg hhh iii conflict.rs\0";

#[test]
fn empty_is_clean() {
    assert!(parse_porcelain_v2_z("").is_clean());
    assert!(parse_porcelain_v2_z("\0").is_clean());
}

#[test]
fn counts_a_realistic_sample() {
    let wt = parse_porcelain_v2_z(SAMPLE);
    assert_eq!(wt.staged, 2, "staged");
    assert_eq!(wt.unstaged, 1, "unstaged");
    assert_eq!(wt.untracked, 1, "untracked");
    assert_eq!(wt.conflicts, 1, "conflicts");
    assert!(!wt.is_clean());
}

#[test]
fn rename_original_path_token_is_not_miscounted() {
    let sample = "2 R. N... 1 1 1 a b R100 new.rs\0old.rs\0";
    let wt = parse_porcelain_v2_z(sample);
    assert_eq!(wt.staged, 1);
    assert_eq!(wt.unstaged, 0);
    assert_eq!(wt.untracked, 0);
}

#[test]
fn entries_classify_a_realistic_sample() {
    let entries = parse_status_entries_v2_z(SAMPLE);
    assert_eq!(
        entries,
        vec![
            StatusEntry { path: "staged.rs".into(), kind: EntryKind::StagedOnly },
            StatusEntry { path: "worktree.rs".into(), kind: EntryKind::Modified },
            StatusEntry { path: "new_file.rs".into(), kind: EntryKind::Untracked },
            StatusEntry { path: "newname.rs".into(), kind: EntryKind::StagedOnly },
            StatusEntry { path: "conflict.rs".into(), kind: EntryKind::Conflict },
        ]
    );
}

#[test]
fn entries_rename_original_path_token_is_not_a_spurious_entry() {
    let sample = "2 R. N... 1 1 1 a b R100 new.rs\0old.rs\0";
    let entries = parse_status_entries_v2_z(sample);
    assert_eq!(entries, vec![StatusEntry { path: "new.rs".into(), kind: EntryKind::StagedOnly }]);
}

#[test]
fn entries_path_with_embedded_space_is_preserved() {
    let sample = "1 .M N... 100644 100644 100644 aaa bbb my file.rs\0";
    let entries = parse_status_entries_v2_z(sample);
    assert_eq!(entries[0].path, "my file.rs");
}

#[test]
fn plan_table() {
    assert_eq!(SyncAction::plan(BranchSync::UpToDate, true), SyncAction::UpToDate);
    assert_eq!(SyncAction::plan(BranchSync::Ahead(3), true), SyncAction::Push);
    assert_eq!(SyncAction::plan(BranchSync::NoRemoteBranch, false), SyncAction::Push);
    assert_eq!(SyncAction::plan(BranchSync::Behind(2), true), SyncAction::FastForward(2));
    assert_eq!(SyncAction::plan(BranchSync::Behind(2), false), SyncAction::BlockedDirty(2));
    let diverged = BranchSync::Diverged { ahead: 1, behind: 1, conflict: false };
    assert_eq!(SyncAction::plan(diverged, true), SyncAction::Report);
    assert_eq!(SyncAction::plan(diverged, false), SyncAction::Report);
}

#[test]
fn only_push_and_ff_are_effecting() {
    assert!(SyncAction::plan(BranchSync::Ahead(1), true).is_effecting());
    assert!(SyncAction::plan(BranchSync::Behind(1), true).is_effecting());
    assert!(!SyncAction::plan(BranchSync::Behind(1), false).is_effecting());
    assert!(!SyncAction::plan(BranchSync::UpToDate, true).is_effecting());
}

#[test]
fn known_instants() {
    assert_eq!(rfc3339_utc(0), "1970-01-01T00:00:00Z");
    assert_eq!(rfc3339_utc(1_700_000_000), "2023-11-14T22:13:20Z");
    assert_eq!(rfc3339_utc(86_400), "1970-01-02T00:00:00Z");
}

#[test]
fn untracked_listing_counts_every_path() {
    for n in 0..200usize {
        let input: String = (0..n).map(|i| format!("? f{i}.rs\0")).collect();
        let wt = parse_porcelain_v2_z(&input);
        assert_eq!(wt.untracked as usize, n);
        assert_eq!((wt.staged, wt.unstaged, wt.conflicts), (0, 0, 0));
    }
}

#[test]
fn untracked_listing_gives_one_entry_per_path() {
    for n in 0..200usize {
        let input: String = (0..n).map(|i| format!("? dir/f {i}.rs\0")).collect();
        let entries = parse_status_entries_v2_z(&input);
        assert_eq!(entries.len(), n);
        for (i, e) in entries.iter().enumerate() {
            assert_eq!(e.kind, EntryKind::Untracked);
            assert_eq!(e.path, format!("dir/f {i}.rs"));
        }
    }
}

#[test]
fn entries_refine_the_counts_of_a_sample() {
    let both = format!("{SAMPLE}1 MM N... 100644 100644 100644 jjj kkk both.rs\0");
    for input in [SAMPLE, both.as_str()] {
        let wt = parse_porcelain_v2_z(input);
        let entries = parse_status_entries_v2_z(input);
        let n = |k: EntryKind| entries.iter().filter(|e| e.kind == k).count() as u32;
        assert_eq!(n(EntryKind::Untracked), wt.untracked);
        assert_eq!(n(EntryKind::Conflict), wt.conflicts);
        assert_eq!(n(EntryKind::Modified), wt.unstaged);
        assert!(n(EntryKind::StagedOnly) <= wt.staged);
    }
}

#[test]
fn timestamps_sort_like_instants() {
    let instants: [i64; 9] = [0, 59, 3600, 86399, 86400, 951_782_400, 1_700_000_000, 4_102_444_800, 253_402_300_799];
    for w in instants.windows(2) {
        let (a, b) = (rfc3339_utc(w[0]), rfc3339_utc(w[1]));
        assert!(a < b, "{a} !< {b}");
    }
    assert_eq!(rfc3339_utc(253_402_300_799), "9999-12-31T23:59:59Z");
    assert_eq!(rfc3339_utc(951_782_400), "2000-02-29T00:00:00Z");
}
