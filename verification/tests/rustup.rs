use backup::commands::clean_rustup::{
    after_version, ask_overrides, ask_version, chosen_pin, decide, include_toolchain_scan_entry, keeping_lines,
    list_overridden_toolchains, list_toolchains, parse_mise_rust_version,
    parse_override_toolchains, parse_rust_toolchain_file, pin_file, referenced_toolchains,
    removable_toolchains, resolve_settings, retention_reason, tool_version,
    toolchain_channel, toolchain_is_document, toolchain_matches_reference, Args, PinFile, Plan, ToolEntry,
};
use backup::commands::CommandSummary;
use backup::config::CleanRustupConfig;
use backup::process::{Finished, Next, Reply};

fn set(items: &[&str]) -> Vec<String> {
    let mut out: Vec<String> = items.iter().map(|s| s.to_string()).collect();
    out.sort();
    out
}

fn finished(success: bool, stdout: &str) -> Reply {
    Reply::Finished(Finished {
        success,
        code: Some(0),
        status: "exit status: 1".to_string(),
        stdout: stdout.as_bytes().to_vec(),
        stderr: vec![],
    })
}

fn not_started() -> Reply {
    Reply::NotStarted("gone".to_string())
}

#[test]
fn removable_excludes_active_and_default() {
    let out = "\
stable-aarch64-apple-darwin (active, default)
nightly-aarch64-apple-darwin
";
    assert_eq!(
        removable_toolchains(out, &vec![], &vec![]),
        vec!["nightly-aarch64-apple-darwin".to_string()]
    );
}

#[test]
fn removable_excludes_active_only() {
    let out = "\
stable-aarch64-apple-darwin (default)
1.75.0-aarch64-apple-darwin (active)
nightly-aarch64-apple-darwin
";
    assert_eq!(
        removable_toolchains(out, &vec![], &vec![]),
        vec!["nightly-aarch64-apple-darwin".to_string()]
    );
}

#[test]
fn removable_excludes_overridden() {
    let out = "\
stable-aarch64-apple-darwin (active, default)
nightly-aarch64-apple-darwin
beta-aarch64-apple-darwin
";
    let overridden = set(&["nightly-aarch64-apple-darwin"]);
    assert_eq!(
        removable_toolchains(out, &overridden, &vec![]),
        vec!["beta-aarch64-apple-darwin".to_string()]
    );
}

#[test]
fn removable_empty_when_only_active_default() {
    let out = "stable-aarch64-apple-darwin (active, default)\n";
    assert_eq!(
        removable_toolchains(out, &vec![], &vec![]),
        Vec::<String>::new()
    );
}

#[test]
fn removable_ignores_blank_lines() {
    let out = "\nstable-x (active, default)\n\nnightly-x\n\n";
    assert_eq!(
        removable_toolchains(out, &vec![], &vec![]),
        vec!["nightly-x".to_string()]
    );
}

#[test]
fn removable_excludes_project_pins_with_host_suffixes() {
    let out = "\
stable-aarch64-apple-darwin (default)
nightly-aarch64-apple-darwin
1.97.1-aarch64-apple-darwin
";
    assert_eq!(
        removable_toolchains(out, &vec![], &set(&["nightly", "1.97.1"])),
        Vec::<String>::new()
    );
}

#[test]
fn parses_toolchain_toml() {
    let contents = "[toolchain]\nchannel = \"nightly\"\n";
    assert!(toolchain_is_document(contents));
    assert_eq!(
        parse_rust_toolchain_file("rust-toolchain.toml", contents)
            .expect("toolchain file is parsed"),
        "nightly"
    );
}

#[test]
fn discovers_legacy_toolchain_and_mise_pins() {
    assert_eq!(pin_file("/r/alice/rust-toolchain"), PinFile::Toolchain);
    assert_eq!(pin_file("/r/bob/.mise/config.toml"), PinFile::Mise);
    let first = parse_rust_toolchain_file("/r/alice/rust-toolchain", "nightly\n")
        .expect("legacy pin is read");
    let second = parse_mise_rust_version(
        "/r/bob/.mise/config.toml",
        "[tools]\nrust = { version = \"1.97.1\", components = \"clippy\" }\n",
    )
    .expect("mise config is read")
    .expect("it pins Rust");
    assert_eq!(
        referenced_toolchains(&vec![first, second]),
        set(&["1.97.1", "nightly"])
    );
}

#[test]
fn parse_override_no_overrides() {
    assert_eq!(
        parse_override_toolchains("no overrides\n"),
        Vec::<String>::new()
    );
}

#[test]
fn parse_override_single() {
    let out = "/Users/me/project\tnightly-aarch64-apple-darwin\n";
    assert_eq!(
        parse_override_toolchains(out),
        set(&["nightly-aarch64-apple-darwin"])
    );
}

#[test]
fn parse_override_path_with_spaces() {
    let out = "/Users/me/my project\tbeta-aarch64-apple-darwin\n";
    assert_eq!(
        parse_override_toolchains(out),
        set(&["beta-aarch64-apple-darwin"])
    );
}

#[test]
fn parse_override_multiple() {
    let out = "\
/a/b\tnightly-aarch64-apple-darwin
/c/d\t1.75.0-aarch64-apple-darwin
";
    assert_eq!(
        parse_override_toolchains(out),
        set(&[
            "nightly-aarch64-apple-darwin",
            "1.75.0-aarch64-apple-darwin",
        ])
    );
}

#[test]
fn overrides_are_listed_once() {
    assert_eq!(
        parse_override_toolchains("/a\tx\n/b\tx\n\n/c\t\n/d\ta\n"),
        set(&["/c", "a", "x"])
    );
}

#[test]
fn every_reason_keeps_a_toolchain() {
    let over = set(&["b"]);
    let pins = set(&["c"]);
    assert_eq!(
        retention_reason("a (default)", "a", &over, &pins),
        Some("active or default")
    );
    assert_eq!(
        retention_reason("b", "b", &over, &pins),
        Some("rustup directory override")
    );
    assert_eq!(
        retention_reason("c-host", "c-host", &over, &pins),
        Some("project toolchain pin")
    );
    assert_eq!(retention_reason("d (custom)", "d", &over, &pins), None);
    assert_eq!(
        keeping_lines("a (default)\n\nb\nd\n", &over, &pins),
        vec![
            "keeping toolchain a: active or default".to_string(),
            "keeping toolchain b: rustup directory override".to_string(),
        ]
    );
    assert!(toolchain_matches_reference("nightly", "nightly"));
    assert!(toolchain_matches_reference("nightly-x86", "nightly"));
    assert!(!toolchain_matches_reference("nightly2", "nightly"));
}

#[test]
fn mise_configs_pin_in_two_ways() {
    let read = |text: &str| parse_mise_rust_version("c", text);
    assert_eq!(
        read("[tools]\nrust = \"1.80\"\n"),
        Ok(Some("1.80".to_string()))
    );
    assert_eq!(read("[tools]\nnode = \"22\"\n"), Ok(None));
    assert_eq!(read("x = 1\n"), Ok(None));
    assert_eq!(
        read("[tools]\nrust = { profile = \"minimal\" }\n"),
        Err("invalid Rust tool entry in c".to_string())
    );
    assert_eq!(
        read("[tools]\nrust = 3\n"),
        Err("invalid Rust tool entry in c".to_string())
    );
    assert_eq!(read("[tools\n"), Err("parsing mise config c".to_string()));
    assert_eq!(tool_version("c", &ToolEntry::Missing), Ok(None));
    assert_eq!(
        tool_version("c", &ToolEntry::Version("1".to_string())),
        Ok(Some("1".to_string()))
    );
    assert_eq!(
        tool_version("c", &ToolEntry::Other(Some("2".to_string()))),
        Ok(Some("2".to_string()))
    );
    assert_eq!(
        tool_version("c", &ToolEntry::Other(None)),
        Err("invalid Rust tool entry in c".to_string())
    );
}

#[test]
fn a_channel_is_a_text_in_the_toolchain_table() {
    assert_eq!(
        toolchain_channel("\n[toolchain]\ncomponents = [\"clippy\"]\nchannel = \"1.80\"\n"),
        Some("1.80".to_string())
    );
    assert_eq!(toolchain_channel("[toolchain]\nchannel = 180\n"), None);
    assert_eq!(toolchain_channel("[toolchain.channel]\nname = \"x\"\n"), None);
    assert_eq!(toolchain_channel("[[toolchain]]\nchannel = \"x\"\n"), None);
    assert_eq!(toolchain_channel("channel = \"x\"\n"), None);
    assert_eq!(toolchain_channel("nightly\n"), None);
}

#[test]
fn toolchain_files_have_to_name_one() {
    assert_eq!(
        parse_rust_toolchain_file("f", "\n  stable \nx\n"),
        Ok("stable".to_string())
    );
    assert_eq!(
        parse_rust_toolchain_file("f", " \n"),
        Err("empty toolchain pin f".to_string())
    );
    assert_eq!(
        parse_rust_toolchain_file("f", "[toolchain]\n"),
        Err("parsing toolchain pin f".to_string())
    );
    assert_eq!(
        parse_rust_toolchain_file("f", "[toolchain\nchannel = \"x\"\n"),
        Err("parsing toolchain pin f".to_string())
    );
    assert_eq!(
        chosen_pin("f", "[toolchain]\n", &Some("beta".to_string())),
        Ok("beta".to_string())
    );
    assert_eq!(
        chosen_pin("f", "stable\n", &Some("beta".to_string())),
        Ok("stable".to_string())
    );
    assert_eq!(pin_file("/r/config.toml"), PinFile::Neither);
    assert_eq!(pin_file("/r/rust-toolchain.toml"), PinFile::Toolchain);
    assert!(include_toolchain_scan_entry(0, true, "target"));
    assert!(!include_toolchain_scan_entry(1, true, "target"));
    assert!(include_toolchain_scan_entry(1, false, "target"));
    assert!(include_toolchain_scan_entry(1, true, "src"));
}

#[test]
fn nothing_is_uninstalled_unless_asked_for() {
    let home = Some("/h".to_string());
    let cfg = CleanRustupConfig::default();
    let asked = Args {
        roots: vec![],
        depth: None,
        remove: true,
    };
    assert_eq!(
        resolve_settings(&asked, &cfg, &None, &home).unwrap_err(),
        "Rustup removal requires at least one configured project root"
    );
    let settings =
        resolve_settings(&asked, &cfg, &Some(vec!["~/p".to_string()]), &home).unwrap();
    assert!(settings.remove);
    assert_eq!(settings.depth, 5);
    assert_eq!(settings.roots, vec!["/h/p".to_string()]);
    let names = || vec!["a".to_string(), "b".to_string()];
    assert!(matches!(
        decide(vec![], true, false),
        Plan::Done(s) if s == CommandSummary::ok_one()
    ));
    assert!(matches!(decide(names(), true, true), Plan::Preview(n, _) if n == names()));
    assert!(matches!(
        decide(names(), false, false),
        Plan::Preview(_, _)
    ));
    match decide(names(), true, false) {
        Plan::Uninstall(mut work) => {
            assert_eq!(
                work.step().unwrap().args,
                vec![
                    "toolchain".to_string(),
                    "uninstall".to_string(),
                    "a".to_string()
                ]
            );
            assert_eq!(
                work.replied(&not_started()),
                Err("failed to invoke `rustup toolchain uninstall a`".to_string())
            );
            assert!(work.replied(&finished(true, "")).is_ok());
            assert!(work.replied(&finished(false, "")).is_ok());
            assert!(work.step().is_none());
            assert_eq!((work.summary.items_ok, work.summary.items_failed), (1, 1));
        }
        _ => panic!("toolchains are uninstalled"),
    }
}

#[test]
fn rustup_is_asked_for_its_lists() {
    assert_eq!(ask_version().program, "rustup");
    assert!(matches!(
        after_version(&not_started()),
        Next::Done(s) if s == CommandSummary::skipped_one()
    ));
    assert!(matches!(
        after_version(&finished(true, "")),
        Next::Run(run, ()) if run.args == vec!["toolchain".to_string(), "list".to_string()]
    ));
    assert_eq!(
        ask_overrides().args,
        vec!["override".to_string(), "list".to_string()]
    );
    assert_eq!(
        list_toolchains(&not_started()),
        Err("failed to invoke `rustup toolchain list`".to_string())
    );
    assert_eq!(
        list_toolchains(&finished(false, "")),
        Err("`rustup toolchain list` exited with exit status: 1".to_string())
    );
    assert_eq!(
        list_toolchains(&finished(true, "x\n")),
        Ok("x\n".to_string())
    );
    assert_eq!(
        list_overridden_toolchains(&finished(true, "/a\tx\n")),
        Ok(vec!["x".to_string()])
    );
    assert_eq!(
        list_overridden_toolchains(&not_started()),
        Err("failed to invoke `rustup override list`".to_string())
    );
}
