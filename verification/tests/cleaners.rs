use backup::commands::cleaner::{
    after_ignored, after_tracked, ask_ignored, basename, candidates, git_allows_deletion,
    project_label, split_artifact, Project, Verdict,
};
use backup::commands::executor::{
    child_action, delete_dir, deletes, empty_run, relative_label, Child, ChildAction, ChildOutcome,
    CleanProgress, Removal, Scrub,
};
use backup::commands::listing::{
    after_pid, ask_pid, files_among, keep_present, last_two_components, missing, old_enough, running_pid,
    sorted_dirs, Entry, Found, Opening,
};
use backup::commands::{
    clean_chrome, clean_electron_caches, clean_gradle, clean_jetbrains, clean_library_caches,
    clean_logs, clean_m2, clean_node_gyp, clean_npm, clean_playwright, clean_python_artifacts,
    clean_steam, clean_tmp, clean_trash, clean_xcode, clean_xdg_cache, CommandSummary,
};
use backup::config::{
    CleanChromeConfig, CleanElectronCachesConfig, CleanGradleConfig, CleanJetBrainsConfig,
    CleanLibraryCachesConfig, CleanLogsConfig, CleanM2Config, CleanNodeGypConfig, CleanNpmConfig,
    CleanPlaywrightConfig, CleanPythonArtifactsConfig, CleanSteamConfig, CleanTmpConfig,
    CleanXcodeConfig, CleanXdgCacheConfig,
};
use backup::process::{Finished, Next, Reply};

fn strs(list: &[&str]) -> Vec<String> {
    list.iter().map(|s| s.to_string()).collect()
}

fn home() -> Option<String> {
    Some("/Users/me".to_string())
}

fn entry(path: &str, is_dir: bool) -> Entry {
    Entry {
        path: path.to_string(),
        name: path.rsplit('/').next().unwrap().to_string(),
        is_dir,
        is_file: !is_dir,
    }
}

fn finished(success: bool, code: i32, stdout: &[u8], stderr: &[u8]) -> Reply {
    Reply::Finished(Finished {
        success,
        code: Some(code),
        status: format!("exit status: {code}"),
        stdout: stdout.to_vec(),
        stderr: stderr.to_vec(),
    })
}

fn not_started() -> Reply {
    Reply::NotStarted("No such file or directory (os error 2)".to_string())
}

// Projects and Git.

#[test]
fn nested_project_under_root_yields_relative_path() {
    let roots = strs(&["/home/alice/projects"]);
    assert_eq!(
        project_label("/home/alice/projects/example/cli", &roots),
        "example/cli"
    );
}

#[test]
fn deeper_monorepo_path_yields_full_chain() {
    let roots = strs(&["/home/alice/projects"]);
    assert_eq!(
        project_label("/home/alice/projects/example/packages/web", &roots),
        "example/packages/web"
    );
}

#[test]
fn project_equal_to_root_yields_root_basename() {
    let roots = strs(&["/home/alice/projects"]);
    assert_eq!(project_label("/home/alice/projects", &roots), "projects");
}

#[test]
fn longest_matching_root_wins() {
    let roots = strs(&["/home/alice/projects", "/home/alice/projects/example"]);
    assert_eq!(
        project_label("/home/alice/projects/example/cli", &roots),
        "cli"
    );
}

#[test]
fn no_matching_root_falls_back_to_basename() {
    let roots = strs(&["/home/alice/projects"]);
    assert_eq!(project_label("/var/tmp/example/web", &roots), "web");
    assert_eq!(basename("/var/tmp/example/web"), "web");
}

const ARTIFACT: &str = "generated-artifact";
const CONTENTS: &[u8] = b"test artifact";

/// Cleans one project whose artifact Git says `ignored` and `listed` of. Gives
/// the outcome and whether the artifact is still there.
fn clean_project(ignored: &Reply, listed: Reply, dry_run: bool) -> (CommandSummary, bool) {
    let project = "/tmp/x/alice-project";
    let projects = vec![Project {
        path: project.to_string(),
        junk_is_dir: true,
        junk_mtime: Some(1),
    }];
    let mut progress = CleanProgress::new(dry_run);
    let listed = Some(listed);
    let mut there = true;
    let mut verified = 0;
    for candidate in candidates(&projects, 10, 0) {
        if !git_allows_deletion(&candidate, ARTIFACT, ignored, &listed).expect("Git is invoked") {
            continue;
        }
        verified += 1;
        let label = project_label(&candidate, &strs(&["/tmp/x"]));
        assert_eq!(label, "alice-project");
        let removal = if deletes(dry_run) {
            there = false;
            Removal::Deleted(5)
        } else {
            Removal::Kept
        };
        delete_dir(&mut progress, label, CONTENTS.len() as u64, &removal);
    }
    let report = if verified == 0 {
        empty_run(dry_run)
    } else {
        progress.finish()
    };
    (report.summary, there)
}

#[test]
fn ignored_artifact_is_deleted() {
    let (summary, there) = clean_project(
        &finished(true, 0, b"", b""),
        finished(true, 0, b"", b""),
        false,
    );

    assert_eq!(
        summary,
        CommandSummary {
            bytes_freed: CONTENTS.len() as u64,
            items_ok: 1,
            items_failed: 0,
            items_skipped: 0,
        }
    );
    assert!(!there);
}

#[test]
fn dry_run_keeps_ignored_artifact() {
    let (summary, there) = clean_project(
        &finished(true, 0, b"", b""),
        finished(true, 0, b"", b""),
        true,
    );

    assert_eq!(
        summary,
        CommandSummary {
            bytes_freed: CONTENTS.len() as u64,
            items_ok: 1,
            items_failed: 0,
            items_skipped: 0,
        }
    );
    assert!(there);
}

#[test]
fn artifact_without_ignore_rule_is_kept() {
    let (summary, there) = clean_project(
        &finished(false, 1, b"", b""),
        finished(true, 0, b"", b""),
        false,
    );
    assert_eq!(summary, CommandSummary::default());
    assert!(there);
    assert!(matches!(
        after_ignored("/p", "target", &finished(false, 1, b"", b"")),
        Verdict::Refused(why) if why == "not ignored by Git"
    ));
    assert!(matches!(
        after_ignored("/p", "target", &finished(false, 128, b"", b"not a repo\n")),
        Verdict::Refused(why) if why == "Git could not verify it: not a repo"
    ));
}

#[test]
fn ignored_artifact_with_tracked_contents_is_kept() {
    let (summary, there) = clean_project(
        &finished(true, 0, b"", b""),
        finished(true, 0, b"generated-artifact/output.bin\n", b""),
        false,
    );
    assert_eq!(summary, CommandSummary::default());
    assert!(there);
    match after_ignored("/p", "target", &finished(true, 0, b"", b"")) {
        Verdict::Ask(run) => {
            assert_eq!(run.program, "git");
            assert_eq!(
                run.args,
                strs(&["-C", "/p", "ls-files", "--cached", "--", "target"])
            );
        }
        _ => panic!("Git is asked for tracked files"),
    }
    assert!(matches!(
        after_tracked("/p", "target", &finished(true, 0, b"target/x\n", b"")),
        Verdict::Refused(why) if why == "it contains tracked files: target/x"
    ));
    assert_eq!(
        git_allows_deletion(
            "/p",
            "target",
            &finished(true, 0, b"", b""),
            &Some(finished(true, 0, b"target/x\n", b""))
        ),
        Ok(false)
    );
}

#[test]
fn git_that_cannot_answer_is_an_error() {
    assert_eq!(
        git_allows_deletion("/p", "target", &not_started(), &None),
        Err("invoking `git check-ignore` for /p/target".to_string())
    );
    assert_eq!(
        git_allows_deletion(
            "/p",
            "target",
            &finished(true, 0, b"", b""),
            &Some(not_started())
        ),
        Err("invoking `git ls-files` for /p/target".to_string())
    );
    assert_eq!(
        git_allows_deletion(
            "/p",
            "target",
            &finished(true, 0, b"", b""),
            &Some(finished(false, 128, b"", b"fatal\n"))
        ),
        Err("`git ls-files` failed for /p/target: fatal".to_string())
    );
    assert_eq!(
        ask_ignored("/p", "target").args,
        strs(&["-C", "/p", "check-ignore", "--quiet", "--", "target"])
    );
    assert_eq!(
        split_artifact("/a/b/.venv"),
        Some(("/a/b".to_string(), ".venv".to_string()))
    );
    assert_eq!(split_artifact("/"), None);
}

#[test]
fn only_stale_artifacts_are_candidates() {
    let project = |path: &str, junk_is_dir, junk_mtime| Project {
        path: path.to_string(),
        junk_is_dir,
        junk_mtime,
    };
    let projects = vec![
        project("/a", true, Some(0)),
        project("/b", false, Some(0)),
        project("/c", true, Some(100 * 86_400)),
        project("/d", true, None),
    ];
    assert_eq!(candidates(&projects, 100 * 86_400, 14), strs(&["/a"]));
    assert_eq!(
        candidates(&projects, 100 * 86_400, 0),
        strs(&["/a", "/c", "/d"])
    );
}

// Listings.

#[test]
fn directories_come_out_in_path_order() {
    let entries = vec![entry("/c/b", true), entry("/c/a-1", true), entry("/c/f", false), entry("/c/a", true)];
    assert_eq!(sorted_dirs(&entries), strs(&["/c/a", "/c/a-1", "/c/b"]));
    assert_eq!(
        clean_xcode::find_project_dirs(&entries),
        clean_node_gyp::find_version_dirs(&entries)
    );
    assert_eq!(
        clean_playwright::find_version_dirs(&entries),
        strs(&["/c/a", "/c/a-1", "/c/b"])
    );
}

#[test]
fn age_filters_keep_the_order() {
    let found = vec![
        Found {
            path: "/b".to_string(),
            mtime: Some(0),
        },
        Found {
            path: "/a".to_string(),
            mtime: Some(9 * 86_400),
        },
        Found {
            path: "/c".to_string(),
            mtime: None,
        },
    ];
    assert_eq!(old_enough(&found, 10 * 86_400, 5), strs(&["/b"]));
    assert_eq!(old_enough(&found, 10 * 86_400, 0), strs(&["/b", "/a", "/c"]));
}

#[test]
fn a_missing_directory_is_a_skip() {
    assert_eq!(missing(true), None);
    assert_eq!(missing(false), Some(CommandSummary::skipped_one()));
}

#[test]
fn a_running_program_is_a_skip() {
    assert_eq!(ask_pid("steam_osx").args, strs(&["-x", "steam_osx"]));
    assert_eq!(running_pid(&finished(true, 0, b"123\n456\n", b"")), Some(123));
    assert_eq!(running_pid(&finished(true, 0, b"x\n", b"")), None);
    assert_eq!(running_pid(&finished(false, 1, b"", b"")), None);
    assert_eq!(running_pid(&finished(true, 0, &[0xff], b"")), None);
    assert_eq!(running_pid(&not_started()), None);
    assert_eq!(
        after_pid(&finished(true, 0, b"1\n", b"")),
        Some(CommandSummary::skipped_one())
    );
    assert_eq!(after_pid(&not_started()), None);
}

#[test]
fn labels_of_two_components_tell_profiles_apart() {
    assert_eq!(
        last_two_components("/x/Default/Service Worker"),
        "Default/Service Worker"
    );
    assert_eq!(clean_library_caches::path_label("/a"), "//a");
    assert_eq!(clean_chrome::path_label("a"), "a");
    assert_eq!(last_two_components(""), "");
}

// Steam.

#[test]
fn default_cache_dirs_are_the_three_regenerable_caches() {
    assert_eq!(
        clean_steam::default_cache_dirs(),
        strs(&["steamapps/shadercache", "steamapps/downloading", "appcache"]),
        "only the regenerable caches; never steamapps/common or *.acf manifests"
    );
}

#[test]
fn collect_targets_selects_only_existing_cache_dirs() {
    let dirs = strs(&["/s/steamapps/shadercache", "/s/appcache", "/s/steamapps"]);
    assert_eq!(
        clean_steam::collect_targets("/s", &clean_steam::default_cache_dirs(), &dirs),
        strs(&["/s/steamapps/shadercache", "/s/appcache"]),
        "preserves configured order, dropping the missing downloading dir"
    );
}

#[test]
fn collect_targets_never_selects_installed_games_or_manifests() {
    let dirs = strs(&[
        "/s/steamapps/common/Half-Life",
        "/s/steamapps/common",
        "/s/steamapps/shadercache",
    ]);
    assert_eq!(
        clean_steam::collect_targets("/s", &clean_steam::default_cache_dirs(), &dirs),
        strs(&["/s/steamapps/shadercache"]),
        "installed games and .acf manifests are never eligible"
    );
}

#[test]
fn target_label_is_relative_to_steam_root() {
    let steam = "/Users/me/Library/Application Support/Steam";
    assert_eq!(
        clean_steam::target_label(&format!("{steam}/steamapps/shadercache"), steam),
        "steamapps/shadercache"
    );
    assert_eq!(
        clean_steam::target_label(&format!("{steam}/appcache"), steam),
        "appcache"
    );
}

#[test]
fn steam_counts_a_cache_that_was_only_partly_emptied() {
    let mut p = CleanProgress::new(false);
    let mut scrub = Scrub::new();
    scrub.add(ChildOutcome::Failed("busy".to_string()));
    clean_steam::clean_one(&mut p, "appcache".to_string(), &Ok(scrub), 5);
    clean_steam::clean_one(&mut p, "x".to_string(), &Err("gone".to_string()), 5);
    assert_eq!(p.total_count, 1);
    assert!(!p.items[0].ok);
    assert_eq!(
        clean_steam::nothing_found(&vec![]),
        Some(CommandSummary::skipped_one())
    );
    let settings = clean_steam::resolve_settings(
        &clean_steam::Args::default(),
        &CleanSteamConfig::default(),
        &home(),
        false,
    );
    assert_eq!(
        settings.steam_dir,
        "/Users/me/Library/Application Support/Steam"
    );
    assert!(matches!(
        clean_steam::open(&settings, false),
        Opening::Done(s) if s == CommandSummary::skipped_one()
    ));
    assert!(matches!(
        clean_steam::open(&settings, true),
        Opening::AskPid(run) if run.program == "pgrep"
    ));
    let dry = clean_steam::resolve_settings(
        &clean_steam::Args::default(),
        &CleanSteamConfig::default(),
        &home(),
        true,
    );
    assert!(matches!(clean_steam::open(&dry, true), Opening::Go));
}

// Chrome.

#[test]
fn default_profile_subdir_is_scoped_to_cachestorage() {
    assert_eq!(
        clean_chrome::default_profile_subdirs(),
        strs(&["Service Worker/CacheStorage"]),
        "must scope to the CacheStorage subdir, not the whole Service Worker dir"
    );
}

#[test]
fn collect_targets_selects_cachestorage_not_sw_siblings() {
    let dirs = strs(&[
        "/g/Default/Service Worker/CacheStorage",
        "/g/Default/Service Worker/Database",
        "/g/Default/Service Worker/ScriptCache",
        "/g/Default/IndexedDB",
    ]);
    assert_eq!(
        clean_chrome::collect_targets(
            "/g",
            &vec![],
            &clean_chrome::default_profile_subdirs(),
            &vec![entry("/g/Default", true)],
            &dirs
        ),
        strs(&["/g/Default/Service Worker/CacheStorage"]),
        "only Service Worker/CacheStorage, never Database/ScriptCache/IndexedDB"
    );
}

#[test]
fn collect_targets_iterates_all_profiles() {
    let entries: Vec<Entry> = ["/g/Profile 2", "/g/System Profile", "/g/Default", "/g/Profile 1"]
        .iter()
        .map(|p| entry(p, true))
        .collect();
    let dirs: Vec<String> = entries
        .iter()
        .map(|e| format!("{}/Service Worker/CacheStorage", e.path))
        .collect();
    assert_eq!(
        clean_chrome::collect_targets(
            "/g",
            &vec![],
            &clean_chrome::default_profile_subdirs(),
            &entries,
            &dirs
        ),
        strs(&[
            "/g/Default/Service Worker/CacheStorage",
            "/g/Profile 1/Service Worker/CacheStorage",
            "/g/Profile 2/Service Worker/CacheStorage",
        ]),
        "every Default/Profile N dir is scanned; non-profile dirs are skipped"
    );
}

#[test]
fn collect_targets_skips_missing_cachestorage() {
    assert!(
        clean_chrome::collect_targets(
            "/g",
            &vec![],
            &clean_chrome::default_profile_subdirs(),
            &vec![entry("/g/Default", true)],
            &strs(&["/g/Default/Service Worker/Database"])
        )
        .is_empty(),
        "no CacheStorage dir means nothing to clean"
    );
}

#[test]
fn chrome_models_come_before_profiles() {
    let settings = clean_chrome::resolve_settings(
        &clean_chrome::Args::default(),
        &CleanChromeConfig::default(),
        &home(),
        false,
    );
    assert_eq!(settings.model_dirs.len(), 7);
    assert_eq!(
        settings.chrome_dir,
        "/Users/me/Library/Application Support/Google/Chrome"
    );
    let all = clean_chrome::candidates(
        "/g",
        &strs(&["SODA"]),
        &settings.profile_subdirs,
        &vec![entry("/g/Default", true), entry("/g/Profile 1", false)],
    );
    assert_eq!(
        all,
        strs(&["/g/SODA", "/g/Default/Service Worker/CacheStorage"])
    );
    assert!(matches!(
        clean_chrome::open(&settings, true),
        Opening::AskPid(run) if run.args == strs(&["-x", "Google Chrome"])
    ));
    assert_eq!(
        clean_chrome::chrome_running_pid(&finished(true, 0, b"7\n", b"")),
        Some(7)
    );
}

// Electron.

#[test]
fn cache_subdirs_for_returns_only_existing_cache_dirs() {
    let dirs = strs(&["/a/Slack/Cache", "/a/Slack/GPUCache", "/a/Slack/Local Storage"]);
    assert_eq!(
        clean_electron_caches::cache_subdirs_for("/a/Slack", &dirs),
        strs(&["/a/Slack/Cache", "/a/Slack/GPUCache"]),
        "only existing CACHE_SUBDIRS, never siblings like Local Storage"
    );
}

#[test]
fn cache_subdirs_for_missing_app_is_empty() {
    assert!(clean_electron_caches::cache_subdirs_for("/a/NotInstalled", &vec![]).is_empty());
}

#[test]
fn find_cache_dirs_only_inspects_allowlisted_apps() {
    let dirs = strs(&[
        "/a/Slack/Code Cache",
        "/a/Slack/Cache",
        "/a/Spotify/Cache",
        "/a/Evil/Cache",
    ]);
    assert_eq!(
        clean_electron_caches::find_cache_dirs("/a", &strs(&["Slack"]), &dirs),
        strs(&["/a/Slack/Cache", "/a/Slack/Code Cache"]),
        "Spotify and other non-allowlisted apps are never touched"
    );
}

#[test]
fn find_cache_dirs_never_selects_sensitive_siblings() {
    let mut dirs: Vec<String> = [
        "Local Storage",
        "IndexedDB",
        "Cookies",
        "Preferences",
        "Service Worker",
    ]
    .iter()
    .map(|s| format!("/a/Superhuman/{s}"))
    .collect();
    dirs.push("/a/Superhuman/Cache".to_string());
    assert_eq!(
        clean_electron_caches::find_cache_dirs("/a", &strs(&["Superhuman"]), &dirs),
        strs(&["/a/Superhuman/Cache"])
    );
}

#[test]
fn default_apps_excludes_spotify() {
    let apps = clean_electron_caches::default_apps();
    assert!(
        !apps.iter().any(|a| a.eq_ignore_ascii_case("Spotify")),
        "Spotify holds paid offline downloads; it must not be in the allowlist"
    );
    assert!(apps.contains(&"Slack".to_string()));
    assert!(apps.contains(&"Wispr Flow".to_string()));
}

#[test]
fn dir_label_is_relative_to_support_dir() {
    let support = "/Users/me/Library/Application Support";
    assert_eq!(
        relative_label(&format!("{support}/Slack/Code Cache"), support),
        "Slack/Code Cache"
    );
}

#[test]
fn electron_candidates_are_all_caches_of_all_apps() {
    assert_eq!(
        clean_electron_caches::candidates("/a", &strs(&["X", "Y"])),
        strs(&[
            "/a/X/Cache",
            "/a/X/Code Cache",
            "/a/X/GPUCache",
            "/a/Y/Cache",
            "/a/Y/Code Cache",
            "/a/Y/GPUCache",
        ])
    );
    let settings = clean_electron_caches::resolve_settings(
        &clean_electron_caches::Args::default(),
        &CleanElectronCachesConfig {
            apps: Some(vec![]),
            ..CleanElectronCachesConfig::default()
        },
        &home(),
    );
    assert_eq!(settings.apps, clean_electron_caches::default_apps());
    assert_eq!(
        settings.support_dir,
        "/Users/me/Library/Application Support"
    );
}

// Logs.

#[test]
fn find_log_files_collects_nested_files_keeps_dirs() {
    let entries = vec![
        entry("/l", true),
        entry("/l/top.log", false),
        entry("/l/App", true),
        entry("/l/App/app.log", false),
    ];
    assert_eq!(
        clean_logs::find_log_files(&entries, "/l"),
        strs(&["/l/App/app.log", "/l/top.log"]),
        "returns regular files at every depth, never the directories themselves"
    );
}

#[test]
fn find_log_files_skips_diagnostic_reports() {
    let entries = vec![
        entry("/l/DiagnosticReports/crash.ips", false),
        entry("/l/Sub/DiagnosticReports/nested.ips", false),
        entry("/l/keep.log", false),
    ];
    assert_eq!(
        clean_logs::find_log_files(&entries, "/l"),
        strs(&["/l/keep.log"]),
        "DiagnosticReports at any depth is excluded; .ips crash reports are kept"
    );
}

#[test]
fn is_excluded_matches_only_diagnostic_reports_component() {
    let root = "/Users/me/Library/Logs";
    let under = |rel: &str| format!("{root}/{rel}");
    assert!(clean_logs::is_excluded(
        &under("DiagnosticReports/crash.ips"),
        root
    ));
    assert!(clean_logs::is_excluded(
        &under("App/DiagnosticReports/crash.ips"),
        root
    ));
    assert!(!clean_logs::is_excluded(&under("App/app.log"), root));
    assert!(
        !clean_logs::is_excluded(&under("DiagnosticReportsBackup/x.log"), root),
        "only an exact component match is excluded, not a prefix"
    );
}

#[test]
fn file_label_is_relative_to_cache_dir() {
    let cache = "/Users/me/Library/Logs";
    assert_eq!(
        relative_label(&format!("{cache}/App/main.log"), cache),
        "App/main.log"
    );
}

// Trash.

#[test]
fn volume_trash_path_builds_trashes_uid() {
    assert_eq!(
        clean_trash::volume_trash_path("/Volumes/USB Drive", "501"),
        "/Volumes/USB Drive/.Trashes/501"
    );
}

#[test]
fn discover_volume_trashes_keeps_only_volumes_with_trash() {
    let volumes = vec![
        entry("/v/DriveA", true),
        entry("/v/DriveB", true),
        entry("/v/not-a-volume", false),
    ];
    let dirs = strs(&["/v/DriveA/.Trashes/501"]);
    let found = clean_trash::discover_volume_trashes(&volumes, "501", &dirs);
    assert_eq!(found.len(), 1, "only DriveA has a .Trashes/<uid>");
    assert_eq!(found[0].prefix, "DriveA");
    assert_eq!(found[0].dir, "/v/DriveA/.Trashes/501");
}

#[test]
fn volume_trashes_come_in_order() {
    let volumes = vec![
        entry("/v/DriveB", true),
        entry("/v/DriveC", true),
        entry("/v/DriveA", true),
    ];
    let dirs = strs(&["/v/DriveA/.Trashes/501", "/v/DriveC/.Trashes/501"]);
    let found = clean_trash::discover_volume_trashes(&volumes, "501", &dirs);
    assert_eq!(found.len(), 2);
    assert_eq!(found[0].prefix, "DriveA");
    assert_eq!(found[1].prefix, "DriveC");
}

#[test]
fn discover_volume_trashes_missing_dir_is_empty() {
    assert!(clean_trash::discover_volume_trashes(&vec![], "501", &vec![]).is_empty());
}

#[test]
fn the_trash_is_emptied_but_for_what_the_finder_puts_back() {
    assert_eq!(clean_trash::default_trash_dir(&home()), "/Users/me/.Trash");
    let entries = vec![
        entry("/t/b", false),
        entry("/t/.DS_Store", false),
        entry("/t/a", true),
    ];
    let found = clean_trash::read_trash_entries(&entries);
    assert_eq!(found, strs(&["/t/a", "/t/b"]));
    assert_eq!(clean_trash::entry_label("/t/a", "/t"), "a");
    assert_eq!(clean_trash::nothing_found(true, &Some(found)), None);
    assert_eq!(
        clean_trash::nothing_found(false, &None),
        Some(CommandSummary::skipped_one())
    );
    assert_eq!(
        clean_trash::nothing_found(true, &None),
        Some(CommandSummary::default())
    );
    assert_eq!(
        clean_trash::nothing_found(true, &Some(vec![])),
        Some(CommandSummary::default())
    );
    assert_eq!(
        clean_trash::current_uid(&finished(true, 0, b"501\n", b"")),
        "501"
    );
    assert_eq!(clean_trash::current_uid(&finished(false, 1, b"501\n", b"")), "");
    assert_eq!(clean_trash::current_uid(&not_started()), "");
}

#[test]
fn an_emptied_trash_reports_by_how_much_it_shrank() {
    let mut p = CleanProgress::new(false);
    p.record(
        "a".to_string(),
        backup::ui::ItemDetail::failure("x"),
        true,
        999,
    );
    let done = clean_trash::finish(p, 4096, 1024, 12);
    assert_eq!(done.message, "freed 3 KiB across 1 items in 12ms");
    assert_eq!(done.summary.bytes_freed, 3072);
    assert_eq!(done.summary.items_ok, 1);
    let mut dry = CleanProgress::new(true);
    dry.record(
        "a".to_string(),
        backup::ui::ItemDetail::failure("x"),
        true,
        2048,
    );
    let done = clean_trash::finish(dry, 4096, 4096, 3);
    assert_eq!(done.message, "would free 2 KiB across 1 items in 3ms");
    assert_eq!(done.summary.bytes_freed, 2048);
}

// The XDG cache.

#[test]
fn missing_node_dir_is_skip_not_failure() {
    let summary = clean_xdg_cache::scrub_node_cache(false, &Ok(Scrub::new()));
    assert!(summary.skipped());
    assert!(summary.passed());
    assert_eq!(summary.bytes_freed, 0);
}

#[test]
fn dry_run_keeps_node_cache_contents() {
    let child = Child {
        mtime: Some(1),
        is_dir: true,
        is_symlink: false,
    };
    assert_eq!(child_action(&child, 0, 2, true), ChildAction::Measure);
    let mut scrub = Scrub::new();
    scrub.add(ChildOutcome::Freed(7));
    let summary = clean_xdg_cache::scrub_node_cache(true, &Ok(scrub));
    assert!(summary.passed());
}

#[test]
fn real_run_scrubs_node_cache_contents_but_keeps_dir() {
    let child = Child {
        mtime: Some(1),
        is_dir: true,
        is_symlink: false,
    };
    assert_eq!(child_action(&child, 0, 2, false), ChildAction::RemoveDir);
    let mut scrub = Scrub::new();
    scrub.add(ChildOutcome::Freed(7));
    let summary = clean_xdg_cache::scrub_node_cache(true, &Ok(scrub));
    assert!(summary.passed());
    assert_eq!(summary.items_ok, 1);
    assert_eq!(summary.bytes_freed, 7);
}

#[test]
fn node_days_filter_spares_recent_entries() {
    let now = 20_000 * 86_400;
    let child = Child {
        mtime: Some(now),
        is_dir: false,
        is_symlink: false,
    };
    assert_eq!(child_action(&child, 9999, now, false), ChildAction::Keep);
    assert!(clean_xdg_cache::scrub_node_cache(true, &Ok(Scrub::new())).passed());
}

#[test]
fn the_parts_of_the_xdg_cache_add_up() {
    assert_eq!(clean_xdg_cache::ask_tool(clean_xdg_cache::Tool::Uv).program, "uv");
    assert!(matches!(
        clean_xdg_cache::after_ask(clean_xdg_cache::Tool::Uv, &not_started(), false),
        Next::Done(s) if s == CommandSummary::skipped_one()
    ));
    assert!(matches!(
        clean_xdg_cache::after_ask(clean_xdg_cache::Tool::PreCommit, &finished(true, 0, b"", b""), true),
        Next::Done(s) if s == CommandSummary::ok_one()
    ));
    assert!(matches!(
        clean_xdg_cache::after_ask(clean_xdg_cache::Tool::Uv, &finished(true, 0, b"", b""), false),
        Next::Run(run, ()) if run.args == strs(&["cache", "prune"])
    ));
    assert_eq!(
        clean_xdg_cache::run_uv_prune(&not_started()).unwrap_err(),
        "failed to invoke `uv cache prune`"
    );
    let gc = clean_xdg_cache::run_precommit_gc(&finished(false, 1, b"", b"")).unwrap();
    let node = clean_xdg_cache::scrub_node_cache(true, &Err("gone".to_string()));
    assert_eq!(node, CommandSummary::failed_one());
    let total =
        clean_xdg_cache::combine(CommandSummary::skipped_one(), gc, CommandSummary::ok_one_with_bytes(9));
    assert_eq!(
        total,
        CommandSummary {
            bytes_freed: 9,
            items_ok: 1,
            items_failed: 1,
            items_skipped: 1
        }
    );
    assert_eq!(
        clean_xdg_cache::default_cache_dir(&Some("".to_string()), &home()),
        "/Users/me/.cache"
    );
    let settings = clean_xdg_cache::resolve_settings(
        &clean_xdg_cache::Args::default(),
        &CleanXdgCacheConfig::default(),
        &Some("/xdg".to_string()),
        &home(),
    );
    assert_eq!(settings.node_dir, "/xdg/node");
    assert_eq!(settings.node_days, 14);
}

// Python.

#[test]
fn discovers_artifacts_without_descending_into_dependency_trees() {
    assert!(clean_python_artifacts::descends(true, "package"));
    for name in ["__pycache__", ".venv", ".git", "build", "dist", "node_modules", "target"] {
        assert!(!clean_python_artifacts::descends(true, name));
    }
    assert!(!clean_python_artifacts::descends(false, "package"));
    let seen = |path: &str, is_dir| clean_python_artifacts::Seen {
        path: path.to_string(),
        name: path.rsplit('/').next().unwrap().to_string(),
        is_dir,
        mtime: Some(0),
    };
    let artifacts = clean_python_artifacts::discover_artifacts(
        &vec![
            seen("/r/bob/target", true),
            seen("/r/alice/package/__pycache__", true),
            seen("/r/alice/package/__pycache__", true),
            seen("/r/alice/.venv", true),
            seen("/r/alice/x/.venv", false),
        ],
        10,
        0,
    );
    assert_eq!(artifacts.bytecode, strs(&["/r/alice/package/__pycache__"]));
    assert_eq!(artifacts.virtualenvs, strs(&["/r/alice/.venv"]));
}

#[test]
fn virtual_environments_are_kept_unless_asked_for() {
    let settings = clean_python_artifacts::resolve_settings(
        &clean_python_artifacts::Args::default(),
        &CleanPythonArtifactsConfig::default(),
        &Some(strs(&["~/p"])),
        &home(),
    )
    .unwrap();
    assert_eq!(settings.roots, strs(&["/Users/me/p"]));
    assert!(!clean_python_artifacts::takes_virtualenvs(&settings, false));
    assert!(clean_python_artifacts::takes_virtualenvs(&settings, true));
    assert_eq!(
        clean_python_artifacts::artifact_label("/Users/me/p/a/.venv", &settings.roots),
        "a/.venv"
    );
    assert_eq!(
        clean_python_artifacts::artifact_label("/x/.venv", &settings.roots),
        "/x/.venv"
    );
    assert!(clean_python_artifacts::resolve_settings(
        &clean_python_artifacts::Args::default(),
        &CleanPythonArtifactsConfig::default(),
        &None,
        &home(),
    )
    .unwrap_err()
    .starts_with("no roots configured for `clean_python_artifacts`"));
}

// Caches of versions.

#[test]
fn gradle_versions_are_two_levels_above_their_files() {
    let entries = vec![
        entry("/g/grp/art/1.0/hash2/a.jar", false),
        entry("/g/grp/art/1.0/hash1/a.pom", false),
        entry("/g/grp/art/0.9/hash1/a.pom", false),
        entry("/g/grp/art/2.0/hash1/dir", true),
    ];
    assert_eq!(
        clean_gradle::find_version_dirs(&entries),
        strs(&["/g/grp/art/0.9", "/g/grp/art/1.0"])
    );
    let settings = clean_gradle::resolve_settings(
        &clean_gradle::Args::default(),
        &CleanGradleConfig::default(),
        &home(),
    );
    assert_eq!(
        settings.cache_dir,
        "/Users/me/.gradle/caches/modules-2/files-2.1"
    );
    assert_eq!((settings.days, settings.concurrency), (60, 8));
}

#[test]
fn maven_versions_hold_a_marker() {
    let entries = vec![
        entry("/m/a/1.0/a-1.0.pom", false),
        entry("/m/a/1.0/a-1.0.jar", false),
        entry("/m/a/2.0-SNAPSHOT/a.pom", false),
        entry("/m/a/3.0/a.jar", false),
        entry("/m/a/4.0/.pom", false),
    ];
    assert_eq!(
        clean_m2::find_version_dirs(&entries, false, "pom"),
        strs(&["/m/a/1.0", "/m/a/2.0-SNAPSHOT"])
    );
    assert_eq!(
        clean_m2::find_version_dirs(&entries, true, "pom"),
        strs(&["/m/a/2.0-SNAPSHOT"])
    );
    let settings = clean_m2::resolve_settings(
        &clean_m2::Args::default(),
        &CleanM2Config::default(),
        &None,
    );
    assert_eq!(settings.repo, "/.m2/repository");
    assert_eq!(settings.marker_extension, "pom");
}

#[test]
fn the_store_of_installed_products_is_no_cache() {
    assert!(clean_jetbrains::is_excluded_child("Toolbox"));
    assert!(!clean_jetbrains::is_excluded_child("WebStorm2026.1"));
    assert_eq!(
        clean_jetbrains::find_product_dirs(&vec![
            entry("/j/WebStorm", true),
            entry("/j/Toolbox", true),
            entry("/j/IDEA", true),
            entry("/j/file", false),
        ]),
        strs(&["/j/IDEA", "/j/WebStorm"])
    );
    assert_eq!(
        clean_jetbrains::resolve_settings(
            &clean_jetbrains::Args::default(),
            &CleanJetBrainsConfig::default(),
            &home()
        )
        .cache_dir,
        "/Users/me/Library/Caches/JetBrains"
    );
}

#[test]
fn npm_needs_its_content() {
    assert_eq!(clean_npm::content_dir("/n"), "/n/content-v2");
    assert_eq!(
        clean_npm::nothing_found(true, false),
        Some(CommandSummary::skipped_one())
    );
    assert_eq!(clean_npm::nothing_found(true, true), None);
    let found = vec![
        Found {
            path: "/n/b".to_string(),
            mtime: Some(0),
        },
        Found {
            path: "/n/a".to_string(),
            mtime: Some(0),
        },
        Found {
            path: "/n/a".to_string(),
            mtime: Some(0),
        },
    ];
    assert_eq!(
        clean_npm::candidates(&found, 100 * 86_400, 30),
        strs(&["/n/a", "/n/b"])
    );
    assert_eq!(
        clean_npm::resolve_settings(
            &clean_npm::Args::default(),
            &CleanNpmConfig::default(),
            &home()
        )
        .cache_dir,
        "/Users/me/.npm/_cacache"
    );
}

#[test]
fn temporary_directories_are_themselves_kept() {
    let walked = vec![clean_tmp::Walked {
        root: "/tmp".to_string(),
        found: vec![
            Found {
                path: "/tmp/".to_string(),
                mtime: Some(0),
            },
            Found {
                path: "/tmp/x".to_string(),
                mtime: Some(0),
            },
            Found {
                path: "/tmp/y".to_string(),
                mtime: Some(99 * 86_400),
            },
        ],
    }];
    assert_eq!(
        clean_tmp::candidates(&walked, 100 * 86_400, 30),
        strs(&["/tmp/x"])
    );
    let settings = clean_tmp::resolve_settings(
        &clean_tmp::Args::default(),
        &CleanTmpConfig::default(),
        &home(),
    );
    assert_eq!(settings.roots, strs(&["/tmp"]));
    assert_eq!(settings.concurrency, 2);
}

#[test]
fn settings_fall_back_to_their_defaults() {
    let h = home();
    assert_eq!(
        clean_xcode::resolve_settings(
            &clean_xcode::Args::default(),
            &CleanXcodeConfig::default(),
            &h
        )
        .data_dir,
        "/Users/me/Library/Developer/Xcode/DerivedData"
    );
    assert_eq!(
        clean_node_gyp::resolve_settings(
            &clean_node_gyp::Args::default(),
            &CleanNodeGypConfig::default(),
            &h
        )
        .cache_dir,
        "/Users/me/Library/Caches/node-gyp"
    );
    let playwright = clean_playwright::resolve_settings(
        &clean_playwright::Args {
            cache_dir: Some("~/pw".to_string()),
            days: Some(3),
            concurrency: None,
        },
        &CleanPlaywrightConfig {
            days: Some(9),
            concurrency: Some(1),
            ..CleanPlaywrightConfig::default()
        },
        &h,
    );
    assert_eq!(playwright.cache_dir, "/Users/me/pw");
    assert_eq!((playwright.days, playwright.concurrency), (3, 1));
    assert_eq!(
        clean_playwright::dir_label("/Users/me/pw/chromium-1", "/Users/me/pw"),
        "chromium-1"
    );
    assert_eq!(
        clean_logs::resolve_settings(
            &clean_logs::Args::default(),
            &CleanLogsConfig::default(),
            &h
        )
        .cache_dir,
        "/Users/me/Library/Logs"
    );
    let caches = clean_library_caches::resolve_settings(
        &clean_library_caches::Args::default(),
        &CleanLibraryCachesConfig::default(),
        &h,
    );
    assert_eq!(caches.paths.len(), 10);
    assert_eq!(caches.paths[0], "/Users/me/Library/Caches/Google/Chrome");
    assert_eq!(
        clean_library_caches::collect_targets(&caches, &strs(&["/Users/me/Library/Caches/Steam", "/x"])),
        strs(&["/Users/me/Library/Caches/Steam"])
    );
    assert_eq!(
        keep_present(&strs(&["/a", "/b"]), &strs(&["/b"])),
        strs(&["/b"])
    );
}

#[test]
fn only_offline_copies_are_taken_from_a_profile() {
    let chrome = "/c";
    let entries = vec![
        entry("/c/Profile 1", true),
        entry("/c/Default", true),
        entry("/c/Guest Profile", true),
        entry("/c/SODA", true),
    ];
    let dirs = strs(&[
        "/c/SODA",
        "/c/Default/Cookies",
        "/c/Default/Service Worker/CacheStorage",
        "/c/Default/Service Worker/Database",
        "/c/Profile 1/Service Worker/CacheStorage",
    ]);
    assert_eq!(
        clean_chrome::collect_targets(
            chrome,
            &clean_chrome::default_model_dirs(),
            &clean_chrome::default_profile_subdirs(),
            &entries,
            &dirs,
        ),
        strs(&[
            "/c/SODA",
            "/c/Default/Service Worker/CacheStorage",
            "/c/Profile 1/Service Worker/CacheStorage",
        ])
    );
}

#[test]
fn labels_ignore_the_order_of_roots() {
    let project = "/home/alice/projects/example/cli";
    let one = project_label(project, &strs(&["/home/alice", "/home/alice/projects", "/var"]));
    let other = project_label(
        project,
        &strs(&["/home/alice/projects/", "/home/alice//projects", "/home/alice"]),
    );
    assert_eq!(one, "example/cli");
    assert_eq!(other, one);
    assert_eq!(project_label("/srv/app", &strs(&["/srv/app", "/srv/app/"])), "app");
    assert_eq!(project_label("/srv/app", &strs(&["/srv/app/", "/srv/app"])), "app");
    assert_eq!(project_label("/", &strs(&["//", "/"])), "/");
    assert_eq!(project_label("/", &strs(&["/", "//"])), "//");
}

#[test]
fn only_files_are_among_the_files() {
    let link = Entry {
        path: "/c/link".to_string(),
        name: "link".to_string(),
        is_dir: false,
        is_file: false,
    };
    let entries = vec![
        entry("/c", true),
        entry("/c/b", false),
        link,
        entry("/c/a", false),
    ];
    assert_eq!(files_among(&entries), strs(&["/c/b", "/c/a"]));
}

#[test]
fn git_is_not_asked_twice_for_what_it_does_not_ignore() {
    assert_eq!(
        git_allows_deletion("/p", "target", &finished(false, 1, b"", b""), &None),
        Ok(false)
    );
}
