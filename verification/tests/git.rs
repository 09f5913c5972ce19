use backup::commands::git_maintenance::{
    after_check, after_step, ask_common_dir, begin, compact, delta_components, distinct_stores,
    failed_detail, freed_summary, fsck_invocation, git_common_dir, maintained_detail,
    maintenance_steps, matches_suffix, net_phrase, next_step, ordered_skipped, outcome, preview,
    preview_summary, repo_label, repositories, resolve_gitdir, resolve_settings, run_fsck,
    skip_steps_for, step_invocation, validate_overrides, Args, FoundRepo, Repo, Totals, Work,
};
use backup::config::{GitMaintenanceConfig, GitMaintenanceOverride};
use backup::process::{Finished, Reply};
use backup::ui::{ItemDetail, TreeItem};

fn over(repo: &str, skip: &[&str]) -> GitMaintenanceOverride {
    GitMaintenanceOverride {
        repo: repo.to_string(),
        skip_steps: skip.iter().map(|s| s.to_string()).collect(),
    }
}

fn strs(list: &[&str]) -> Vec<String> {
    list.iter().map(|s| s.to_string()).collect()
}

fn finished(success: bool, stdout: &str, stderr: &str) -> Reply {
    Reply::Finished(Finished {
        success,
        code: Some(0),
        status: "exit status: 0".to_string(),
        stdout: stdout.as_bytes().to_vec(),
        stderr: stderr.as_bytes().to_vec(),
    })
}

#[test]
fn matches_suffix_full_and_partial_components() {
    let repo = "/Users/me/projects/huge-monorepo";
    assert!(matches_suffix(repo, "huge-monorepo"));
    assert!(matches_suffix(repo, "projects/huge-monorepo"));
    assert!(matches_suffix(repo, "/Users/me/projects/huge-monorepo"));
}

#[test]
fn matches_suffix_rejects_non_component_substring() {
    let repo = "/Users/me/projects/huge-monorepo";
    assert!(!matches_suffix(repo, "monorepo"));
    assert!(!matches_suffix(repo, "other-repo"));
    assert!(!matches_suffix(repo, ""));
}

#[test]
fn matches_suffix_rejects_suffix_longer_than_repo() {
    assert!(!matches_suffix("/a/b", "x/a/b"));
}

#[test]
fn skip_steps_for_unions_matching_overrides() {
    let repo = "/Users/me/projects/huge-monorepo";
    let overrides = vec![
        over("projects/huge-monorepo", &["repack"]),
        over("huge-monorepo", &["prune"]),
        over("other", &["commit-graph"]),
    ];
    let mut skip = skip_steps_for(repo, &overrides);
    skip.sort();
    assert_eq!(skip, strs(&["prune", "repack"]));
}

#[test]
fn skip_steps_for_no_match_is_empty() {
    let repo = "/Users/me/projects/small";
    let overrides = vec![over("huge-monorepo", &["repack"])];
    assert!(skip_steps_for(repo, &overrides).is_empty());
}

#[test]
fn skipped_steps_are_named_once() {
    let overrides = vec![over("r", &["prune", "prune"]), over("a/r", &["prune"])];
    assert_eq!(skip_steps_for("/a/r", &overrides), strs(&["prune"]));
    assert_eq!(
        ordered_skipped(&strs(&["prune", "pack-refs", "x"])),
        strs(&["pack-refs", "prune"])
    );
}

#[test]
fn validate_overrides_accepts_known_steps() {
    let overrides = vec![over("a", &["repack", "prune", "commit-graph"])];
    assert!(validate_overrides(&overrides).is_ok());
}

#[test]
fn validate_overrides_rejects_unknown_step() {
    let overrides = vec![over("a", &["gc"])];
    let err = validate_overrides(&overrides).unwrap_err().to_string();
    assert!(err.contains("gc"), "error should name the bad step: {err}");
    assert_eq!(
        err,
        "unknown step in git_maintenance.overrides for `a`: gc (valid: pack-refs, reflog-expire, rerere-gc, worktree-prune, repack, prune, commit-graph)"
    );
}

#[test]
fn net_phrase_shrink_equal_grow() {
    assert_eq!(net_phrase(1024, 0), "1 KiB freed");
    assert_eq!(net_phrase(1048576, 1048576), "0 B freed");
    assert_eq!(net_phrase(0, 0), "0 B freed");
    assert_eq!(net_phrase(1048576, 3 * 1048576), "grew by 2 MiB");
}

#[test]
fn freed_summary_no_growth_omits_parenthetical() {
    assert_eq!(freed_summary(1024, 0), "1 KiB freed");
    assert_eq!(freed_summary(0, 0), "0 B freed");
}

#[test]
fn freed_summary_net_positive_with_growth() {
    assert_eq!(
        freed_summary(3 * 1048576, 1048576),
        "2 MiB freed (3 MiB reclaimed, 1 MiB added back)"
    );
}

#[test]
fn freed_summary_net_negative_with_growth() {
    assert_eq!(
        freed_summary(1048576, 3 * 1048576),
        "grew by 2 MiB (1 MiB reclaimed, 3 MiB added back)"
    );
}

#[test]
fn steps_run_in_order_but_for_those_left_out() {
    let names = maintenance_steps();
    assert_eq!(names.len(), 7);
    let skip = strs(&["pack-refs", "rerere-gc", "commit-graph"]);
    let mut ran = vec![];
    let mut at = 0;
    while let Some(step) = next_step(at, &skip) {
        ran.push(names[step].clone());
        at = step + 1;
    }
    assert_eq!(
        ran,
        strs(&["reflog-expire", "worktree-prune", "repack", "prune"])
    );
    assert_eq!(
        step_invocation("/r", 4).args,
        strs(&["-C", "/r", "repack", "-Adf", "--depth=100", "--window=250"])
    );
}

#[test]
fn a_failed_step_ends_the_maintenance() {
    let none = vec![];
    assert!(matches!(begin(&none, false), Work::Step(0)));
    assert!(matches!(
        after_step(0, &finished(true, "", ""), &none, false),
        Work::Step(1)
    ));
    assert!(matches!(
        after_step(6, &finished(true, "", ""), &none, false),
        Work::Maintained(None)
    ));
    assert!(matches!(
        after_step(6, &finished(true, "", ""), &none, true),
        Work::Check
    ));
    assert!(matches!(
        after_step(2, &finished(false, "", " one \n\ntwo\n"), &none, true),
        Work::Failed(2, why) if why == "one; two"
    ));
    assert!(matches!(
        after_step(2, &Reply::NotStarted("gone".to_string()), &none, true),
        Work::Failed(2, why) if why == "failed to invoke git: gone"
    ));
    assert_eq!(compact("a\r\n b \n"), "a; b");
    assert_eq!(
        failed_detail(4, "no space", 1200).suffix,
        Some("repack: no space (1.2s)".to_string())
    );
}

#[test]
fn findings_are_counted_by_category() {
    let reply = finished(
        true,
        "",
        "missing blob 1\ndangling tree 2\n\ndangling blob 3\n",
    );
    assert_eq!(run_fsck(&reply), "2 dangling, 1 missing");
    assert_eq!(run_fsck(&finished(true, "", "")), "");
    assert_eq!(
        run_fsck(&Reply::NotStarted("gone".to_string())),
        "failed to invoke git fsck: gone"
    );
    assert!(matches!(
        after_check(&reply),
        Work::Maintained(Some(text)) if text == "2 dangling, 1 missing"
    ));
    assert_eq!(
        fsck_invocation("/r").args,
        strs(&["-C", "/r", "fsck", "--full", "--unreachable", "--dangling"])
    );
}

#[test]
fn a_maintained_repository_says_how_it_changed() {
    let mut totals = Totals::default();
    let detail = maintained_detail(
        3072,
        Some(1024),
        1200,
        &strs(&["prune"]),
        &Some("1 missing".to_string()),
        &mut totals,
    );
    assert_eq!(detail.verb, "freed");
    assert_eq!(detail.size, Some("2 KiB".to_string()));
    assert_eq!(
        detail.suffix,
        Some("; skipped: prune; fsck: 1 missing".to_string())
    );
    maintained_detail(1024, Some(4096), 5, &vec![], &None, &mut totals);
    let same = maintained_detail(1024, None, 5, &vec![], &Some("".to_string()), &mut totals);
    assert_eq!(same.verb, "no change");
    assert_eq!(same.suffix, None);
    assert_eq!((totals.reclaimed, totals.added), (2048, 3072));
    assert_eq!(delta_components(1, 3).0, "+");
    let items = vec![
        TreeItem {
            label: "a".to_string(),
            detail: ItemDetail::failure("x"),
            ok: true,
        },
        TreeItem {
            label: "b".to_string(),
            detail: ItemDetail::failure("x"),
            ok: false,
        },
    ];
    let done = outcome(&items, &totals);
    assert_eq!(
        done.message,
        "1 ok, 1 failed, grew by 1 KiB (2 KiB reclaimed, 3 KiB added back)"
    );
    assert_eq!(done.summary.bytes_freed, 0);
    assert!(!done.all_ok);
}

#[test]
fn worktrees_of_one_store_are_maintained_once() {
    let found = |path: &str, git_is_dir| FoundRepo {
        path: path.to_string(),
        git_is_dir,
    };
    let all = vec![found("/b", true), found("/a", false), found("/b", true)];
    assert_eq!(repositories(&all, true), strs(&["/a", "/b"]));
    assert_eq!(repositories(&all, false), strs(&["/b"]));
    let repo = |path: &str, common: Option<&str>| Repo {
        path: path.to_string(),
        common: common.map(|c| c.to_string()),
    };
    assert_eq!(
        distinct_stores(&vec![
            repo("/a", Some("/s")),
            repo("/b", None),
            repo("/c", Some("/s/")),
            repo("/d", None),
            repo("/e", Some("/t")),
        ]),
        strs(&["/a", "/b", "/d", "/e"])
    );
    assert_eq!(
        git_common_dir(&finished(true, "/r/.git\n", "")),
        Some("/r/.git".to_string())
    );
    assert_eq!(git_common_dir(&finished(false, "/r/.git\n", "")), None);
    assert_eq!(
        ask_common_dir("/r").args,
        strs(&[
            "-C",
            "/r",
            "rev-parse",
            "--path-format=absolute",
            "--git-common-dir"
        ])
    );
    assert_eq!(repo_label("/a/b"), "b");
    assert_eq!(repo_label("/"), "/");
}

#[test]
fn the_directory_of_a_submodule_is_followed() {
    let file = |text: &str| Some(text.to_string());
    assert_eq!(resolve_gitdir("/r", true, &None), "/r/.git");
    assert_eq!(
        resolve_gitdir("/r/sub", false, &file("gitdir: ../.git/modules/sub\n")),
        "/r/sub/../.git/modules/sub"
    );
    assert_eq!(
        resolve_gitdir("/r", false, &file("gitdir: /x/y\n")),
        "/x/y"
    );
    assert_eq!(resolve_gitdir("/r", false, &file("other\n")), "/r/.git");
    assert_eq!(resolve_gitdir("/r", false, &None), "/r/.git");
}

#[test]
fn a_dry_run_names_what_it_would_maintain() {
    assert_eq!(preview("/r", &vec![]), "would maintain /r");
    assert_eq!(
        preview("/r", &strs(&["prune", "repack"])),
        "would maintain /r (skip: repack, prune)"
    );
    assert_eq!(preview_summary(&strs(&["/a", "/b"])).items_ok, 2);
}

#[test]
fn settings_need_roots_and_known_steps() {
    let home = Some("/h".to_string());
    let cfg = GitMaintenanceConfig::default();
    assert!(resolve_settings(&Args::default(), &cfg, &None, &home)
        .unwrap_err()
        .starts_with("no roots configured for `git_maintenance`"));
    let roots = Some(strs(&["~/p"]));
    let settings = resolve_settings(&Args::default(), &cfg, &roots, &home).unwrap();
    assert_eq!(settings.roots, strs(&["/h/p"]));
    assert_eq!((settings.depth, settings.concurrency), (3, 8));
    assert!(settings.submodules);
    assert!(!settings.fsck);
    let bad = GitMaintenanceConfig {
        overrides: Some(vec![over("a", &["gc"])]),
        ..GitMaintenanceConfig::default()
    };
    assert!(resolve_settings(&Args::default(), &bad, &roots, &home).is_err());
}
