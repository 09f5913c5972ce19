use backup::commands::{
    bz_cleanup, clean_brew, clean_cargo, clean_docker, clean_gems, clean_go_build,
    clean_go_mod_cache, clean_maven, clean_mise, clean_pip, clean_pnpm, clean_yarn, dedupe_media,
    CommandSummary,
};
use backup::config::{
    BzCleanupConfig, CleanBrewConfig, CleanCargoConfig, CleanDockerConfig, CleanGemsConfig,
    CleanGoModCacheConfig, CleanMavenConfig, DedupeMediaConfig,
};
use backup::process::{complaint_of, output_of, ran_well, Finished, Invocation, Next, Reply};

fn strs(list: &[&str]) -> Vec<String> {
    list.iter().map(|s| s.to_string()).collect()
}

fn home() -> Option<String> {
    Some("/Users/me".to_string())
}

fn finished(success: bool, stdout: &[u8], stderr: &[u8]) -> Reply {
    Reply::Finished(Finished {
        success,
        code: Some(if success { 0 } else { 1 }),
        status: if success {
            "exit status: 0".to_string()
        } else {
            "exit status: 1".to_string()
        },
        stdout: stdout.to_vec(),
        stderr: stderr.to_vec(),
    })
}

fn not_started() -> Reply {
    Reply::NotStarted("No such file or directory (os error 2)".to_string())
}

#[test]
fn invocations_collect_their_arguments() {
    let run = Invocation::new("git")
        .arg("-C")
        .with_args(&strs(&["a b", ""]));
    assert_eq!(run.program, "git");
    assert_eq!(run.args, strs(&["-C", "a b", ""]));
}

#[test]
fn replies_are_read_as_text() {
    let done = Finished {
        success: false,
        code: None,
        status: "signal: 9".to_string(),
        stdout: vec![b'a', 0xff, b'b'],
        stderr: b"  oops \n".to_vec(),
    };
    assert_eq!(output_of(&done), "a\u{fffd}b");
    assert_eq!(complaint_of(&done), "oops");
    assert!(!ran_well(&Reply::Finished(done)));
    assert!(!ran_well(&not_started()));
    assert!(ran_well(&finished(true, b"", b"")));
}

// Homebrew.

#[test]
fn parses_freed_bytes_gb() {
    let out = "Removing: /Users/x/Library/Caches/Homebrew/foo--1.0\n\
               ==> This operation has freed approximately 1.2GB of disk space.\n";
    assert_eq!(clean_brew::parse_freed_bytes(out), Some(1_200_000_000));
}

#[test]
fn parses_freed_bytes_dry_run() {
    let out = "Would remove: /Users/x/Library/Caches/Homebrew/foo--1.0 (1.2GB)\n\
               ==> This operation would free approximately 512KB of disk space.\n";
    assert_eq!(clean_brew::parse_freed_bytes(out), Some(512_000));
}

#[test]
fn parses_freed_bytes_missing() {
    assert_eq!(clean_brew::parse_freed_bytes("nothing to clean up\n"), None);
}

#[test]
fn clean_brew_parse_size_units() {
    assert_eq!(clean_brew::parse_size("0B"), Some(0));
    assert_eq!(clean_brew::parse_size("1.5KB"), Some(1_500));
    assert_eq!(clean_brew::parse_size("2MB"), Some(2_000_000));
    assert_eq!(clean_brew::parse_size("3.14GB"), Some(3_140_000_000));
    assert_eq!(clean_brew::parse_size("nonsense"), None);
    assert_eq!(clean_brew::parse_size(""), None);
}

#[test]
fn brew_reports_what_it_freed() {
    let prune = clean_brew::resolve_prune(&clean_brew::Args::default(), &CleanBrewConfig::default());
    assert_eq!(prune, "all");
    assert_eq!(clean_brew::ask_brew().args, strs(&["--version"]));
    assert!(matches!(
        clean_brew::after_ask(&not_started(), &prune, false),
        Next::Done(s) if s == CommandSummary::skipped_one()
    ));
    assert!(matches!(
        clean_brew::after_ask(&finished(true, b"", b""), &prune, true),
        Next::Run(run, ()) if run.args == strs(&["cleanup", "--prune=all", "--dry-run"])
    ));
    let done = clean_brew::run_brew_cleanup(&finished(
        true,
        b"freed approximately 2KB of disk space.\n",
        b"",
    ))
    .unwrap();
    assert_eq!(done.freed, Some(2000));
    assert_eq!(done.summary, CommandSummary::ok_one_with_bytes(2000));
    assert_eq!(
        clean_brew::run_brew_cleanup(&finished(false, b"", b""))
            .unwrap()
            .summary,
        CommandSummary::failed_one()
    );
    assert_eq!(
        clean_brew::run_brew_cleanup(&not_started()).unwrap_err(),
        "failed to invoke `brew cleanup`"
    );
    assert_eq!(
        clean_brew::parse_freed_bytes("freed approximately\nfreed approximately 1KB\n"),
        None
    );
}

// Docker.

#[test]
fn parses_total_reclaimed_basic() {
    let out = "Deleted Containers:\nabc\n\nTotal reclaimed space: 1.5GB\n";
    assert_eq!(clean_docker::parse_total_reclaimed(out), Some(1_500_000_000));
}

#[test]
fn parses_total_reclaimed_zero() {
    assert_eq!(
        clean_docker::parse_total_reclaimed("Total reclaimed space: 0B\n"),
        Some(0)
    );
}

#[test]
fn parses_total_reclaimed_missing() {
    assert_eq!(clean_docker::parse_total_reclaimed("nothing to see\n"), None);
}

#[test]
fn parses_reclaimable_total_typical() {
    let out = "\
TYPE            TOTAL     ACTIVE    SIZE      RECLAIMABLE
Images          14        7         13.74GB   9.209GB (67%)
Containers      7         7         18.44MB   0B (0%)
Local Volumes   7         7         3.81GB    0B (0%)
Build Cache     60        0         8.069GB   8.069GB
";
    let total = clean_docker::parse_reclaimable_total(out).expect("parsed");
    let expected = 9_209_000_000u64 + 8_069_000_000u64;
    assert_eq!(total, expected);
}

#[test]
fn a_table_without_rows_has_no_total() {
    assert_eq!(clean_docker::parse_reclaimable_total(""), None);
    assert_eq!(
        clean_docker::parse_reclaimable_total("TYPE TOTAL ACTIVE SIZE RECLAIMABLE\nshort row\n"),
        None
    );
}

#[test]
fn clean_docker_parse_size_units() {
    assert_eq!(clean_docker::parse_size("0B"), Some(0));
    assert_eq!(clean_docker::parse_size("100B"), Some(100));
    assert_eq!(clean_docker::parse_size("1.5kB"), Some(1_500));
    assert_eq!(clean_docker::parse_size("2MB"), Some(2_000_000));
    assert_eq!(clean_docker::parse_size("3.14GB"), Some(3_140_000_000));
    assert_eq!(clean_docker::parse_size("nonsense"), None);
    assert_eq!(clean_docker::parse_size(""), None);
}

fn settings() -> clean_docker::Settings {
    clean_docker::Settings {
        hours: 720,
        scope: "system".to_string(),
        all_images: true,
        volumes: false,
        reclaim_physical: true,
        disk_image: "/tmp/test/Docker.raw".to_string(),
    }
}

#[test]
fn system_prune_arguments_include_all_old_images() {
    assert_eq!(
        clean_docker::system_prune_arguments(&settings()),
        vec![
            "system",
            "prune",
            "--force",
            "--all",
            "--filter",
            "until=720h",
        ]
    );
}

#[test]
fn system_prune_arguments_can_keep_tagged_images() {
    let mut settings = settings();
    settings.all_images = false;
    assert_eq!(
        clean_docker::system_prune_arguments(&settings),
        vec!["system", "prune", "--force", "--filter", "until=720h"]
    );
}

#[test]
fn reclaim_helper_requires_reported_bytes_and_no_physical_drop() {
    let cases = [
        (Some(1_000), Some(10_000), Some(10_000)),
        (Some(1_000), Some(10_000), Some(11_000)),
        (Some(1_000), Some(10_000), Some(9_000)),
        (Some(0), Some(10_000), Some(10_000)),
        (None, Some(10_000), Some(10_000)),
        (Some(1_000), None, Some(10_000)),
        (Some(1_000), Some(10_000), None),
    ];
    assert_eq!(
        cases.map(
            |(reclaimed, before, after)| clean_docker::should_run_reclaim_helper(
                reclaimed, before, after
            )
        ),
        [true, true, false, false, false, false, false,]
    );
}

#[test]
fn physical_bytes_freed_never_reports_growth() {
    assert_eq!(
        [
            clean_docker::physical_bytes_freed(Some(10_000), Some(7_000)),
            clean_docker::physical_bytes_freed(Some(10_000), Some(11_000)),
            clean_docker::physical_bytes_freed(None, Some(7_000)),
        ],
        [Some(3_000), Some(0), None]
    );
}

#[test]
fn optional_byte_totals_preserve_known_values() {
    assert_eq!(
        [
            clean_docker::sum_optional_bytes(Some(1_000), Some(2_000)),
            clean_docker::sum_optional_bytes(Some(1_000), None),
            clean_docker::sum_optional_bytes(None, Some(2_000)),
            clean_docker::sum_optional_bytes(None, None),
        ],
        [Some(3_000), Some(1_000), Some(2_000), None]
    );
}

#[test]
fn sizes_that_are_too_large_saturate() {
    assert_eq!(
        clean_docker::sum_optional_bytes(Some(u64::MAX), Some(1)),
        Some(u64::MAX)
    );
    assert_eq!(clean_docker::allocated_bytes(Some(8)), Some(4096));
    assert_eq!(
        clean_docker::allocated_bytes(Some(u64::MAX)),
        Some(u64::MAX)
    );
    assert_eq!(clean_docker::allocated_bytes(None), None);
}

#[test]
fn docker_begins_with_its_daemon() {
    assert_eq!(
        clean_docker::ask_daemon().args,
        strs(&["version", "--format", "{{.Server.Version}}"])
    );
    let resolved = clean_docker::resolve_settings(&clean_docker::Args::default(), &CleanDockerConfig::default(), &home());
    assert_eq!(resolved.hours, 720);
    assert_eq!(
        resolved.disk_image,
        "/Users/me/Library/Containers/com.docker.docker/Data/vms/0/data/Docker.raw"
    );
    let up = finished(true, b"27.0\n", b"");
    assert!(matches!(
        clean_docker::after_daemon(&not_started(), &resolved, false),
        clean_docker::Start::Done(s) if s == CommandSummary::skipped_one()
    ));
    assert!(matches!(
        clean_docker::after_daemon(&up, &resolved, true),
        clean_docker::Start::Estimate(run) if run.args == strs(&["system", "df"])
    ));
    assert!(matches!(
        clean_docker::after_daemon(&up, &resolved, false),
        clean_docker::Start::Prune(run) if run.args.len() == 6
    ));
    let mut other = settings();
    other.scope = "images".to_string();
    assert!(matches!(
        clean_docker::after_daemon(&up, &other, false),
        clean_docker::Start::Done(s) if s == CommandSummary::failed_one()
    ));
    let estimate = clean_docker::run_df(&finished(true, b"H\nImages 1 1 2GB 1GB (50%)\n", b"")).unwrap();
    assert_eq!(estimate.reclaimable, Some(1_000_000_000));
    assert_eq!(
        estimate.summary,
        CommandSummary::ok_one_with_bytes(1_000_000_000)
    );
    assert_eq!(
        clean_docker::run_df(&not_started()).unwrap_err(),
        "failed to invoke `docker system df`"
    );
    assert_eq!(
        clean_docker::run_df(&finished(false, b"", b"")).unwrap().summary,
        CommandSummary::failed_one()
    );
}

#[test]
fn a_prune_goes_on_until_the_image_has_shrunk() {
    let mut with_volumes = settings();
    with_volumes.volumes = true;
    let pruned = finished(true, b"Total reclaimed space: 1kB\n", b"");
    let first = match clean_docker::after_system_prune(&with_volumes, Some(5000), &pruned) {
        clean_docker::PruneStep::Volumes(run, p) => {
            assert_eq!(run.args, strs(&["volume", "prune", "--all", "--force"]));
            p
        }
        _ => panic!("volumes are pruned"),
    };
    let both = match clean_docker::after_volume_prune(first, &pruned) {
        clean_docker::PruneStep::Measure(p) => p,
        _ => panic!("the image is measured"),
    };
    assert_eq!(both.reclaimed, Some(2000));
    assert_eq!(both.summary.items_ok, 2);
    assert_eq!(both.wait(), 5);
    assert!(matches!(
        clean_docker::after_measure(&with_volumes, both, Some(4000)),
        clean_docker::PruneStep::Done(s) if s.bytes_freed == 1000 && s.items_ok == 2
    ));
    match clean_docker::after_measure(&with_volumes, both, Some(5000)) {
        clean_docker::PruneStep::Helper(run, p) => {
            assert_eq!(run.args[4], "docker/desktop-reclaim-space");
            assert!(matches!(
                clean_docker::after_helper(p, Some(5000), &finished(false, b"", b"")),
                clean_docker::PruneStep::Done(s) if s.items_failed == 1 && s.bytes_freed == 0
            ));
            match clean_docker::after_helper(p, Some(5000), &finished(true, b"", b"")) {
                clean_docker::PruneStep::Remeasure(p) => {
                    let done = p.finish(Some(4500));
                    assert_eq!(done.bytes_freed, 500);
                    assert_eq!(done.items_ok, 3);
                }
                _ => panic!("the image is measured again"),
            }
            assert!(matches!(
                clean_docker::after_helper(p, None, &not_started()),
                clean_docker::PruneStep::Fail(m) if m == "failed to invoke Docker Desktop reclaim helper"
            ));
        }
        _ => panic!("the helper runs"),
    }
    assert!(matches!(
        clean_docker::after_system_prune(&settings(), None, &finished(false, b"", b"")),
        clean_docker::PruneStep::Done(s) if s == CommandSummary::failed_one()
    ));
    assert!(matches!(
        clean_docker::after_system_prune(&settings(), None, &not_started()),
        clean_docker::PruneStep::Fail(m) if m == "failed to invoke `docker system prune`"
    ));
    assert!(matches!(
        clean_docker::after_volume_prune(first, &not_started()),
        clean_docker::PruneStep::Fail(m) if m == "failed to invoke `docker volume prune`"
    ));
    match clean_docker::after_system_prune(&settings(), None, &pruned) {
        clean_docker::PruneStep::Measure(p) => {
            assert_eq!(p.wait(), 0, "there is no image to wait for");
            assert_eq!(p.finish(None).bytes_freed, 1000);
        }
        _ => panic!("the image is measured"),
    }
}

// RubyGems and Go.

#[test]
fn parses_user_gem_home_with_spaces() {
    assert_eq!(
        clean_gems::parse_user_gem_home(&b"/Users/alice/Ruby Gems/4.0.0\n".to_vec())
            .expect("user gem home is parsed"),
        "/Users/alice/Ruby Gems/4.0.0"
    );
}

#[test]
fn rejects_empty_user_gem_home() {
    assert_eq!(
        clean_gems::parse_user_gem_home(&b"\n".to_vec())
            .expect_err("empty user gem home is rejected")
            .to_string(),
        "`gem environment user_gemhome` returned an empty path"
    );
}

#[test]
fn gems_are_previewed_unless_asked_for() {
    let none = CleanGemsConfig::default();
    let asked = clean_gems::Args { remove: true };
    assert!(clean_gems::is_preview(&clean_gems::Args::default(), &none, false));
    assert!(clean_gems::is_preview(&asked, &none, true));
    assert!(!clean_gems::is_preview(&asked, &none, false));
    assert_eq!(clean_gems::ask_gem().program, "gem");
    assert!(matches!(
        clean_gems::after_ask(&finished(true, b"", b"")),
        Next::Run(run, ()) if run.args == strs(&["environment", "user_gemhome"])
    ));
    assert!(matches!(
        clean_gems::after_ask(&not_started()),
        Next::Done(s) if s == CommandSummary::skipped_one()
    ));
    assert_eq!(
        clean_gems::user_gem_home(&finished(false, b"", b"bad\n")).unwrap_err(),
        "`gem environment user_gemhome` failed (exit status: 1): bad"
    );
    assert_eq!(
        clean_gems::user_gem_home(&not_started()).unwrap_err(),
        "failed to invoke `gem environment user_gemhome`"
    );
    assert_eq!(
        clean_gems::user_gem_home(&finished(true, &[0xff], b"")).unwrap_err(),
        "`gem environment user_gemhome` returned non-UTF-8 output"
    );
    assert!(matches!(
        clean_gems::after_home(true, true),
        Next::Run(run, ()) if run.args == strs(&["cleanup", "--user-install", "--dry-run"])
    ));
    assert!(matches!(
        clean_gems::after_home(false, true),
        Next::Done(s) if s == CommandSummary::skipped_one()
    ));
    let ok = finished(true, b"", b"");
    assert_eq!(
        clean_gems::after_cleanup(&ok, false, 100, 40).unwrap(),
        CommandSummary::ok_one_with_bytes(60)
    );
    assert_eq!(
        clean_gems::after_cleanup(&ok, true, 100, 40).unwrap(),
        CommandSummary::ok_one()
    );
    assert_eq!(
        clean_gems::after_cleanup(&not_started(), true, 0, 0).unwrap_err(),
        "failed to invoke `gem cleanup --user-install`"
    );
}

#[test]
fn parses_module_cache_path_with_spaces() {
    assert_eq!(
        clean_go_mod_cache::parse_module_cache_path(&b"/Users/alice/Go Cache/pkg/mod\n".to_vec())
            .expect("module cache path is parsed"),
        "/Users/alice/Go Cache/pkg/mod"
    );
}

#[test]
fn rejects_empty_module_cache_path() {
    assert_eq!(
        clean_go_mod_cache::parse_module_cache_path(&b"\n".to_vec())
            .expect_err("empty module cache path is rejected")
            .to_string(),
        "`go env GOMODCACHE` returned an empty path"
    );
}

#[test]
fn only_a_large_module_cache_is_cleaned() {
    let defaults = clean_go_mod_cache::resolve_settings(&clean_go_mod_cache::Args::default(), &CleanGoModCacheConfig::default());
    assert_eq!(defaults.minimum_bytes, 5 * 1_073_741_824);
    let huge = clean_go_mod_cache::resolve_settings(
        &clean_go_mod_cache::Args {
            remove: true,
            minimum_gibibytes: Some(u64::MAX),
        },
        &CleanGoModCacheConfig::default(),
    );
    assert_eq!(huge.minimum_bytes, u64::MAX);
    assert_eq!(clean_go_mod_cache::ask_go().args, strs(&["version"]));
    assert!(matches!(
        clean_go_mod_cache::after_ask(&finished(true, b"", b"")),
        Next::Run(run, ()) if run.args == strs(&["env", "GOMODCACHE"])
    ));
    assert_eq!(
        clean_go_mod_cache::module_cache_path(&finished(true, &[0xff], b"")).unwrap_err(),
        "`go env GOMODCACHE` returned non-UTF-8 output"
    );
    assert_eq!(
        clean_go_mod_cache::module_cache_path(&not_started()).unwrap_err(),
        "failed to invoke `go env GOMODCACHE`"
    );
    assert_eq!(
        clean_go_mod_cache::module_cache_path(&finished(false, b"", b"x")).unwrap_err(),
        "`go env GOMODCACHE` failed (exit status: 1): x"
    );
    let asked = clean_go_mod_cache::Settings {
        remove: true,
        minimum_bytes: 100,
    };
    let done = |next: Next<()>| match next {
        Next::Done(s) => Some(s),
        _ => None,
    };
    assert_eq!(
        done(clean_go_mod_cache::decide(None, &asked, false)),
        Some(CommandSummary::skipped_one())
    );
    assert_eq!(
        done(clean_go_mod_cache::decide(Some(99), &asked, false)),
        Some(CommandSummary::ok_one())
    );
    assert_eq!(
        done(clean_go_mod_cache::decide(Some(100), &asked, true)),
        Some(CommandSummary::ok_one_with_bytes(100))
    );
    assert!(matches!(
        clean_go_mod_cache::decide(Some(100), &asked, false),
        Next::Run(run, ()) if run.args == strs(&["clean", "-modcache"])
    ));
    let preview = clean_go_mod_cache::Settings {
        remove: false,
        minimum_bytes: 100,
    };
    assert_eq!(
        done(clean_go_mod_cache::decide(Some(100), &preview, false)),
        Some(CommandSummary::ok_one())
    );
    assert_eq!(
        clean_go_mod_cache::after_clean(&finished(true, b"", b""), 100).unwrap(),
        CommandSummary::ok_one_with_bytes(100)
    );
    assert_eq!(
        clean_go_mod_cache::after_clean(&not_started(), 100).unwrap_err(),
        "failed to invoke `go clean -modcache`"
    );
    assert!(matches!(
        clean_go_build::after_ask(&finished(true, b"", b""), true),
        Next::Run(run, ()) if run.args == strs(&["clean", "-cache", "-n"])
    ));
    assert_eq!(clean_go_build::ask_go().program, "go");
    assert_eq!(
        clean_go_build::after_clean(&finished(false, b"", b"")).unwrap(),
        CommandSummary::failed_one()
    );
}

// mise.

#[test]
fn counts_done_lines() {
    let out = "\
mise pruned configuration links [dryrun]
mise java@temurin-17.0.18+8 [dryrun]  uninstall
mise java@temurin-17.0.18+8 [dryrun]  remove ~/.local/share/mise/installs/java/temurin-17.0.18+8
mise java@temurin-17.0.18+8 [dryrun]  ✓ done
mise just@1.48.0 [dryrun]        uninstall
mise just@1.48.0 [dryrun]        remove ~/.local/share/mise/installs/just/1.48.0
mise just@1.48.0 [dryrun]      ✓ done
mise node@24.16.0 [dryrun]       uninstall
mise node@24.16.0 [dryrun]     ✓ done
";
    assert_eq!(clean_mise::count_pruned_versions(out), 3);
}

#[test]
fn counts_zero_when_nothing_pruned() {
    let out = "mise pruned configuration links\n";
    assert_eq!(clean_mise::count_pruned_versions(out), 0);
}

#[test]
fn counts_zero_on_empty() {
    assert_eq!(clean_mise::count_pruned_versions(""), 0);
}

#[test]
fn ignores_config_links_line_without_done_marker() {
    let out = "mise pruned configuration links [dryrun]\n";
    assert_eq!(clean_mise::count_pruned_versions(out), 0);
}

#[test]
fn a_prune_without_versions_counts_once() {
    let pruned = clean_mise::run_prune(&finished(true, b"links\n", b"")).unwrap();
    assert_eq!((pruned.count, pruned.summary.items_ok), (0, 1));
    let two = clean_mise::run_prune(&finished(
        true,
        "a ✓ done\nb ✓ done\n".as_bytes(),
        b"",
    ))
    .unwrap();
    assert_eq!((two.count, two.summary.items_ok), (2, 2));
    assert_eq!(
        clean_mise::run_prune(&finished(false, b"", b""))
            .unwrap()
            .summary,
        CommandSummary::failed_one()
    );
    assert_eq!(
        clean_mise::run_prune(&not_started()).unwrap_err(),
        "failed to invoke `mise prune`"
    );
    let cache = clean_mise::run_cache_prune(&finished(true, b"", b"")).unwrap();
    assert_eq!(clean_mise::combine(cache, &two).items_ok, 3);
    assert_eq!(clean_mise::ask_mise().program, "mise");
    assert_eq!(
        clean_mise::prune_invocation(true).args,
        strs(&["prune", "--dry-run"])
    );
    assert!(matches!(
        clean_mise::after_ask(&finished(true, b"", b""), false),
        Next::Run(run, ()) if run.args == strs(&["cache", "prune"])
    ));
}

// pnpm, pip and Yarn.

#[test]
fn latest_installed_version_picks_highest() {
    let out = "pnpm  10.33.2\npnpm  11.1.1\npnpm  11.1.3\n";
    assert_eq!(
        clean_pnpm::latest_installed_version(out).as_deref(),
        Some("11.1.3")
    );
}

#[test]
fn latest_installed_version_compares_numerically_not_lexically() {
    let out = "pnpm  9.15.0\npnpm  10.0.0\n";
    assert_eq!(
        clean_pnpm::latest_installed_version(out).as_deref(),
        Some("10.0.0")
    );
}

#[test]
fn latest_installed_version_handles_shorter_versions() {
    let out = "pnpm  11.1\npnpm  11.1.3\n";
    assert_eq!(
        clean_pnpm::latest_installed_version(out).as_deref(),
        Some("11.1.3")
    );
}

#[test]
fn latest_installed_version_empty_is_none() {
    assert_eq!(clean_pnpm::latest_installed_version(""), None);
    assert_eq!(clean_pnpm::latest_installed_version("\n  \n"), None);
}

#[test]
fn of_equal_versions_the_last_is_picked() {
    assert_eq!(
        clean_pnpm::latest_installed_version("pnpm 1.x\npnpm 1.0\npnpm 0.9\n").as_deref(),
        Some("1.0")
    );
    assert_eq!(clean_pnpm::version_key("11.beta.3"), vec![11, 0, 3]);
}

#[test]
fn pnpm_is_reached_directly_or_through_mise() {
    assert_eq!(clean_pnpm::ask_direct().program, "pnpm");
    assert_eq!(
        clean_pnpm::ask_mise().args,
        strs(&["ls", "--installed", "pnpm"])
    );
    let mise = clean_pnpm::Pnpm::Mise("11.1.3".to_string());
    assert_eq!(mise.describe(), "mise exec pnpm@11.1.3");
    assert_eq!(clean_pnpm::Pnpm::Direct.describe(), "pnpm");
    assert!(matches!(
        clean_pnpm::prune(&None, false),
        Next::Done(s) if s == CommandSummary::skipped_one()
    ));
    assert!(matches!(
        clean_pnpm::prune(&Some(clean_pnpm::Pnpm::Direct), true),
        Next::Done(s) if s == CommandSummary::ok_one()
    ));
    assert_eq!(
        clean_pnpm::after_prune(&mise, &not_started()).unwrap_err(),
        "failed to invoke `mise exec pnpm@11.1.3 store prune`"
    );
    assert!(matches!(
        clean_pnpm::prune(&Some(mise), false),
        Next::Run(run, ()) if run.program == "mise"
            && run.args == strs(&["exec", "pnpm@11.1.3", "--", "pnpm", "store", "prune"])
    ));
    assert_eq!(
        clean_pnpm::mise_latest_pnpm(&finished(true, b"pnpm 1.2\n", b"")).as_deref(),
        Some("1.2")
    );
    assert_eq!(clean_pnpm::mise_latest_pnpm(&finished(false, b"pnpm 1.2\n", b"")), None);
}

#[test]
fn pip_is_reached_directly_or_as_a_module() {
    assert_eq!(clean_pip::ask_pip(clean_pip::PipInvocation::Direct).args, strs(&["--version"]));
    assert_eq!(clean_pip::PipInvocation::PythonModule.display(), "python3 -m pip");
    assert!(matches!(
        clean_pip::after_ask(clean_pip::PipInvocation::Direct, &not_started(), false),
        Next::Run(run, Some(clean_pip::PipInvocation::PythonModule))
            if run.args == strs(&["-m", "pip", "--version"])
    ));
    assert!(matches!(
        clean_pip::after_ask(clean_pip::PipInvocation::PythonModule, &not_started(), false),
        Next::Done(s) if s == CommandSummary::skipped_one()
    ));
    assert!(matches!(
        clean_pip::after_ask(clean_pip::PipInvocation::PythonModule, &finished(true, b"", b""), false),
        Next::Run(run, None) if run.args == strs(&["-m", "pip", "cache", "purge"])
    ));
    assert!(matches!(
        clean_pip::after_ask(clean_pip::PipInvocation::Direct, &finished(true, b"", b""), true),
        Next::Done(s) if s == CommandSummary::ok_one()
    ));
    assert_eq!(
        clean_pip::after_purge(clean_pip::PipInvocation::PythonModule, &not_started()).unwrap_err(),
        "failed to invoke `python3 -m pip cache purge`"
    );
}

#[test]
fn yarn_cleans_its_cache() {
    assert_eq!(clean_yarn::ask_yarn().program, "yarn");
    assert!(matches!(
        clean_yarn::after_ask(&finished(true, b"", b""), false),
        Next::Run(run, ()) if run.args == strs(&["cache", "clean"])
    ));
    assert!(matches!(
        clean_yarn::after_ask(&finished(true, b"", b""), true),
        Next::Done(s) if s == CommandSummary::ok_one()
    ));
    assert!(matches!(
        clean_yarn::after_ask(&not_started(), false),
        Next::Done(s) if s == CommandSummary::skipped_one()
    ));
    assert_eq!(
        clean_yarn::after_clean(&finished(true, b"", b"")).unwrap(),
        CommandSummary::ok_one()
    );
    assert_eq!(
        clean_yarn::after_clean(&not_started()).unwrap_err(),
        "failed to invoke `yarn cache clean`"
    );
}

// Backblaze.

#[test]
fn bookkeeping_files_are_found_by_age() {
    let settings = bz_cleanup::resolve_settings(&bz_cleanup::Args::default(), &BzCleanupConfig::default(), &home());
    assert_eq!(settings.days, 60);
    assert!(settings.use_sudo);
    assert!(bz_cleanup::check_dir(&settings, true).is_ok());
    assert_eq!(
        bz_cleanup::check_dir(&settings, false).unwrap_err(),
        "directory does not exist: /Library/Backblaze.bzpkg/bzdata/bzbackup/bzdatacenter"
    );
    assert_eq!(
        bz_cleanup::find_args("/d", 60, "bz_done_*.dat", true),
        strs(&[
            "/d",
            "-maxdepth",
            "1",
            "-name",
            "bz_done_*.dat",
            "-mtime",
            "+60",
            "-delete"
        ])
    );
    assert_eq!(
        bz_cleanup::find_args("/d", 60, "x", false)[7..],
        strs(&["-exec", "stat", "-f", "%z", "{}", "+"])
    );
    assert_eq!(bz_cleanup::ExecMode::resolve(false, "/d", true), bz_cleanup::ExecMode::NoSudo);
    assert_eq!(
        bz_cleanup::ExecMode::resolve(true, &settings.dir, true),
        bz_cleanup::ExecMode::Helper
    );
    assert_eq!(
        bz_cleanup::ExecMode::resolve(true, &settings.dir, false),
        bz_cleanup::ExecMode::DirectSudo
    );
    assert_eq!(bz_cleanup::ExecMode::resolve(true, "/d", true), bz_cleanup::ExecMode::DirectSudo);
    assert!(bz_cleanup::ExecMode::DirectSudo.primes_sudo());
    let direct = bz_cleanup::scan_invocation(&settings, bz_cleanup::ExecMode::DirectSudo);
    assert_eq!(direct.program, "sudo");
    assert_eq!(direct.args[0], "find");
    assert_eq!(direct.args[1], settings.dir);
    assert!(!bz_cleanup::ExecMode::Helper.primes_sudo());
    assert_eq!(bz_cleanup::prime_sudo().args, strs(&["-v"]));
    assert_eq!(
        bz_cleanup::scan_invocation(&settings, bz_cleanup::ExecMode::Helper).args,
        strs(&[
            "-n",
            "/usr/local/bin/backup-bz-cleanup-helper",
            "scan",
            "bz_done_*.dat",
            "60"
        ])
    );
    assert_eq!(
        bz_cleanup::parse_scan(&b"100\n\n 23 \n".to_vec()).unwrap(),
        bz_cleanup::ScanResult {
            count: 2,
            bytes: 123
        }
    );
    assert!(matches!(
        bz_cleanup::parse_scan(&b"100\nx y\n".to_vec()),
        Err(bz_cleanup::ScanError::Unexpected(line)) if line == "x y"
    ));
    assert!(matches!(bz_cleanup::parse_scan(&vec![0xff]), Err(bz_cleanup::ScanError::NotText)));
    assert!(bz_cleanup::scan_fits(&b"1\n2\n".to_vec()));
    assert!(!bz_cleanup::scan_fits(&b"18446744073709551615\n1\n".to_vec()));
    assert!(bz_cleanup::scan_fits(&b"x\n18446744073709551615\n1\n".to_vec()));
    assert!(matches!(
        bz_cleanup::scan(&finished(false, b"", b"denied\n"), bz_cleanup::ExecMode::NoSudo),
        Err(bz_cleanup::ScanError::Failed(m)) if m == "scan failed (exit status: 1): denied"
    ));
    assert!(matches!(
        bz_cleanup::scan(&not_started(), bz_cleanup::ExecMode::DirectSudo),
        Err(bz_cleanup::ScanError::Failed(m)) if m == "failed to invoke sudo find"
    ));
    let found = bz_cleanup::ScanResult {
        count: 3,
        bytes: 2048,
    };
    assert!(matches!(
        bz_cleanup::decide(found, &settings, bz_cleanup::ExecMode::NoSudo, true),
        bz_cleanup::Plan::Done(s, text) if s.items_ok == 3
            && text == "dry run: would delete 3 files (2 KiB)"
    ));
    assert!(matches!(
        bz_cleanup::decide(found, &settings, bz_cleanup::ExecMode::NoSudo, false),
        bz_cleanup::Plan::Delete(run) if run.program == "find" && run.args[7] == "-delete"
    ));
    assert!(matches!(
        bz_cleanup::decide(bz_cleanup::ScanResult { count: 0, bytes: 0 }, &settings, bz_cleanup::ExecMode::NoSudo, false),
        bz_cleanup::Plan::Done(s, text) if s == CommandSummary::default() && text == "nothing to delete"
    ));
    assert_eq!(
        bz_cleanup::delete(&finished(true, b"", b""), found, bz_cleanup::ExecMode::Helper).unwrap(),
        CommandSummary {
            bytes_freed: 2048,
            items_ok: 3,
            items_failed: 0,
            items_skipped: 0
        }
    );
    assert_eq!(
        bz_cleanup::delete(&finished(false, b"", b""), found, bz_cleanup::ExecMode::Helper).unwrap_err(),
        "find -delete failed: exit status: 1"
    );
    assert_eq!(
        bz_cleanup::delete(&not_started(), found, bz_cleanup::ExecMode::NoSudo).unwrap_err(),
        "failed to invoke find -delete"
    );
}

// Projects.

#[test]
fn project_cleaners_know_their_artifacts() {
    let roots = Some(strs(&["~/projects"]));
    let cargo = clean_cargo::resolve_config(
        &clean_cargo::Args::default(),
        &CleanCargoConfig::default(),
        &roots,
        &home(),
        true,
    )
    .unwrap();
    assert_eq!(cargo.marker, "Cargo.toml");
    assert_eq!(cargo.junk, "target");
    assert_eq!(cargo.roots, strs(&["/Users/me/projects"]));
    assert_eq!((cargo.depth, cargo.days, cargo.concurrency), (5, 14, 4));
    assert!(cargo.dry_run);
    let maven = clean_maven::resolve_config(
        &clean_maven::Args::default(),
        &CleanMavenConfig::default(),
        &roots,
        &home(),
        false,
    )
    .unwrap();
    assert_eq!(maven.marker, "pom.xml");
    assert_eq!((maven.depth, maven.days, maven.concurrency), (4, 7, 2));
    assert!(clean_maven::resolve_config(
        &clean_maven::Args::default(),
        &CleanMavenConfig::default(),
        &Some(vec![]),
        &home(),
        false,
    )
    .is_err());
}

// Media.

#[test]
fn combined_dry_run_arguments_scan_all_media_roots_together() {
    let arguments = dedupe_media::build_arguments(
        &strs(&[
            "/example/Pictures/iMessage",
            "/example/Documents/yt-dlp",
            "/example/Desktop/yt-dlp",
        ]),
        &strs(&[dedupe_media::MEDIA_EXTENSION_FILTER]),
        true,
        true,
    );

    assert_eq!(
        arguments,
        strs(&[
            "--recurse",
            "--summarize",
            "--one-file-system",
            "--no-hidden",
            "--quiet",
            "--param-order",
            dedupe_media::MEDIA_EXTENSION_FILTER,
            "/example/Pictures/iMessage",
            "/example/Documents/yt-dlp",
            "/example/Desktop/yt-dlp",
        ])
    );
}

#[test]
fn combined_live_arguments_hard_link_media_in_root_order() {
    let arguments = dedupe_media::build_arguments(
        &strs(&[
            "/example/Pictures/iMessage",
            "/example/Documents/yt-dlp",
            "/example/Desktop/yt-dlp",
        ]),
        &strs(&[dedupe_media::MEDIA_EXTENSION_FILTER]),
        true,
        false,
    );

    assert_eq!(
        arguments,
        strs(&[
            "--recurse",
            "--link-hard",
            "--one-file-system",
            "--no-hidden",
            "--quiet",
            "--param-order",
            dedupe_media::MEDIA_EXTENSION_FILTER,
            "/example/Pictures/iMessage",
            "/example/Documents/yt-dlp",
            "/example/Desktop/yt-dlp",
        ])
    );
}

#[test]
fn missing_media_directories_are_skipped() {
    assert_eq!(dedupe_media::ask_jdupes().program, "jdupes");
    assert_eq!(dedupe_media::after_ask(&not_started()), Some(CommandSummary::skipped_one()));
    assert_eq!(dedupe_media::after_ask(&finished(true, b"", b"")), None);
    let all = dedupe_media::wanted(&dedupe_media::Args::default(), &DedupeMediaConfig::default(), &home());
    assert_eq!(
        all,
        strs(&[
            "/Users/me/Pictures/iMessage",
            "/Users/me/Documents/yt-dlp",
            "/Users/me/Desktop/yt-dlp-from-Factorio2",
        ])
    );
    let found = dedupe_media::survey(&all, &strs(&["/Users/me/Documents/yt-dlp"]));
    assert_eq!(found.roots, strs(&["/Users/me/Documents/yt-dlp"]));
    assert_eq!(found.skipped.items_skipped, 2);
    assert!(matches!(
        dedupe_media::after_survey(&found, true),
        Next::Run(run, ()) if run.program == "jdupes" && run.args.len() == 8
    ));
    let done = dedupe_media::run_jdupes(&finished(true, b"", b""), &found).unwrap();
    assert_eq!((done.items_ok, done.items_skipped), (1, 2));
    assert_eq!(
        dedupe_media::run_jdupes(&not_started(), &found).unwrap_err(),
        "failed to invoke jdupes"
    );
    let none = dedupe_media::survey(&all, &vec![]);
    assert!(matches!(
        dedupe_media::after_survey(&none, false),
        Next::Done(s) if s.items_skipped == 3 && s.items_ok == 0
    ));
}
