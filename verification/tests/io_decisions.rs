use git_redundancy::audit::Audit;
use git_redundancy::config::{Config, Server, Transport};
use git_redundancy::inventory::{list_homes, parse_home_list, resolve_aliases, ssh_alias_of, survey, transport_remotes};
use git_redundancy::classify::BranchSync;
use git_redundancy::model::WorkingTree;
use git_redundancy::render::{detail_table_records, fleet_table_records, table, Row};
use git_redundancy::server::{harden_cmd, home_url, pick_alias, remote_wiring};

fn fleet_row(repo: &str, backup: &str) -> Row {
    let mut r = Row::new(repo.to_string(), "main".to_string(), true);
    r.lifecycle = "linked".to_string();
    r.backup = backup.to_string();
    r
}

#[test]
fn backup_column_only_when_requested() {
    let rows = vec![fleet_row("a", "ok"), fleet_row("b", "miss")];
    let with = table(&[], &rows, false, true);
    assert!(with.contains("Bkp"), "expected Bkp header:\n{with}");
    assert!(with.contains("ok") && with.contains("miss"));
    let without = table(&[], &rows, false, false);
    assert!(!without.contains("Bkp"));
    assert!(!without.contains("miss"));
}

#[test]
fn backup_cell_unreachable_is_question_mark() {
    let rows = vec![fleet_row("a", "?")];
    let out = table(&[], &rows, false, true);
    assert!(out.contains('?'));
}

#[test]
fn disabled_audit_writes_nothing() {
    let mut cfg = Config::default();
    cfg.audit.enabled = false;
    let audit = Audit::from_config(&cfg, None, None);
    assert!(audit.path().is_none());
    // Recording is a no-op: nothing to append anywhere.
    assert!(audit.record(0, "r", "b", "data-lan", "pushed", "\u{2191}1").is_none());
    let on = Audit::from_config(&Config::default(), Some("/state".to_string()), None);
    let (path, line) = on.record(0, "r", "b", "data-lan", "pushed", "").unwrap();
    assert_eq!(path, "/state/git-redundancy/audit.log");
    assert_eq!(line, "1970-01-01T00:00:00Z action=push repo=r branch=b remote=data-lan result=pushed\n");
}

#[test]
fn ssh_alias_extraction() {
    assert_eq!(ssh_alias_of("ssh://tenx-lan/data/git/x.git").as_deref(), Some("tenx-lan"));
    assert_eq!(ssh_alias_of("ssh://randallard@tenx-ts/data/git/x.git").as_deref(), Some("tenx-ts"));
    assert_eq!(ssh_alias_of("/data/git/x.git"), None);
    assert_eq!(ssh_alias_of("git@github.com:o/r.git"), None);
}

#[test]
fn parse_ls_output_to_home_names() {
    let stdout = "/data/git/cmecf_inside.git\n/data/git/omarchy-setup.git/\n";
    assert_eq!(parse_home_list(stdout), vec!["cmecf_inside".to_string(), "omarchy-setup".to_string()]);
    assert!(parse_home_list("/data/git/*.git\n").is_empty());
    assert!(parse_home_list("").is_empty());
}

#[test]
fn transport_remotes_prefers_order_then_default() {
    let cfg = Config { default_remotes: vec!["data".to_string()], ..Default::default() };
    assert_eq!(transport_remotes(&cfg), vec!["data".to_string()]);
    let cfg = Config {
        default_remotes: vec!["data".to_string()],
        transport: Transport { order: vec!["data-lan".to_string(), "data".to_string()], ..Default::default() },
        ..Default::default()
    };
    assert_eq!(transport_remotes(&cfg), vec!["data-lan".to_string(), "data".to_string()]);
}

#[test]
fn resolve_aliases_uses_explicit_server_aliases_verbatim() {
    let cfg = Config {
        server: Server { aliases: vec!["tenx-lan".to_string(), "tenx-ts".to_string()], ..Default::default() },
        ..Default::default()
    };
    assert_eq!(resolve_aliases(&cfg, &Vec::new()), vec!["tenx-lan".to_string(), "tenx-ts".to_string()]);
}

#[test]
fn list_homes_without_aliases_errors_before_touching_the_network() {
    let err = list_homes(&Vec::new(), &Vec::new()).unwrap_err();
    assert!(err.contains("no SSH aliases"));
}

#[test]
fn survey_without_server_is_local_only_and_unreachable() {
    let cfg = Config::default();
    let survey = survey(&cfg, &[], None, None);
    assert!(!survey.reachable);
    assert!(survey.presences.is_empty());
}

#[test]
fn home_url_shape() {
    assert_eq!(home_url("tenx-lan", "/data/git", "omarchy-setup"), "ssh://tenx-lan/data/git/omarchy-setup.git");
}

#[test]
fn remote_wiring_pairs_transports_with_aliases_positionally() {
    let cfg = Config {
        transport: Transport { order: vec!["data-lan".to_string(), "data".to_string()], ..Default::default() },
        server: Server { aliases: vec!["tenx-lan".to_string(), "tenx-ts".to_string()], ..Default::default() },
        ..Default::default()
    };
    let wiring = remote_wiring(&cfg, &Vec::new(), "/data/git", "proj", "tenx-lan");
    assert_eq!(
        wiring,
        vec![
            ("data-lan".to_string(), "ssh://tenx-lan/data/git/proj.git".to_string()),
            ("data".to_string(), "ssh://tenx-ts/data/git/proj.git".to_string()),
        ]
    );
}

#[test]
fn pick_alias_without_any_aliases_errors_before_ssh() {
    let cfg = Config::default();
    let err = pick_alias(&cfg, &Vec::new(), &Vec::new()).unwrap_err();
    assert!(err.contains("no SSH aliases"));
}

#[test]
fn harden_cmd_sets_both_ff_guards() {
    let cmd = harden_cmd("/data/git", "proj");
    assert!(cmd.contains("--git-dir=/data/git/proj.git"));
    assert!(cmd.contains("receive.denyNonFastForwards true"));
    assert!(cmd.contains("receive.denyDeletes true"));
}

#[test]
fn fleet_table_cells_before_layout() {
    let mut row = fleet_row("api", "miss");
    row.wt = Some(WorkingTree { staged: 0, unstaged: 3, untracked: 0, conflicts: 1 });
    row.remote_cells = vec![Some(BranchSync::Ahead(2)), None];
    row.others = Some(1);
    let mut second = Row::new(String::new(), "wip".to_string(), false);
    second.remote_cells = vec![Some(BranchSync::Diverged { ahead: 1, behind: 2, conflict: true }), Some(BranchSync::NoRemoteBranch)];
    let remotes = vec!["data-lan".to_string(), "data".to_string()];
    let records = fleet_table_records(&remotes, &[row, second], false, true);
    let want: Vec<Vec<&str>> = vec![
        vec!["Repo", "Life", "Bkp", "Branch", "S", "U", "?", "Cf", "data-lan", "data", "\u{26a0}"],
        vec!["api", "linked", "miss", "* main", "\u{b7}", "3", "\u{b7}", "1", "\u{2191}2", "-", "+1\u{26a0}"],
        vec!["", "", "", "  wip", "", "", "", "", "\u{2191}1\u{2193}2 CONFLICT", "new", ""],
    ];
    assert_eq!(records, want.iter().map(|r| r.iter().map(|c| c.to_string()).collect::<Vec<_>>()).collect::<Vec<_>>());
}

#[test]
fn detail_table_cells_before_layout() {
    let mut row = Row::new(String::new(), "main".to_string(), true);
    row.wt = Some(WorkingTree::default());
    row.remote_cells = vec![Some(BranchSync::UpToDate)];
    row.action = Some("ok".to_string());
    let records = detail_table_records(&["data".to_string()], &[row], true);
    assert_eq!(records[0], vec!["Branch", "S", "U", "?", "Cf", "data", "sync"]);
    let dim_dot = "\x1b[2m\u{b7}\x1b[0m".to_string();
    assert_eq!(
        records[1],
        vec![
            "* main".to_string(),
            dim_dot.clone(),
            dim_dot.clone(),
            dim_dot.clone(),
            dim_dot,
            "\x1b[2mok\x1b[0m".to_string(),
            "\x1b[2mok\x1b[0m".to_string(),
        ]
    );
}

#[test]
fn tables_are_laid_out_with_rounded_borders() {
    let rows = vec![fleet_row("a", "ok")];
    let out = table(&["data".to_string()], &rows, false, false);
    assert!(out.starts_with('\u{256d}'), "{out}");
    assert!(out.lines().any(|l| l.starts_with('\u{2502}') && l.contains("linked") && l.contains("* main")), "{out}");
    assert!(out.trim_end().ends_with('\u{256f}'), "{out}");
}

#[test]
fn home_urls_name_their_home_and_alias() {
    for (alias, root, name) in [("tenx-lan", "/data/git", "omarchy-setup"), ("acer-ts", "", "a b.c"), ("h", "/g", "x.git")] {
        let url = home_url(alias, root, name);
        assert_eq!(git_redundancy::presence::home_name_from_url(&url).as_deref(), Some(name), "{url}");
        assert_eq!(ssh_alias_of(&url).as_deref(), Some(alias), "{url}");
    }
}
