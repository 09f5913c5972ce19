use backup::commands::backblaze_exclusions::{
    backup_path, escape_xml_attribute, exclusion_rule, outcome, plan, reconcile_exclusions,
    remove_managed_block, resolve_settings, Args, Update,
};
use backup::commands::CommandSummary;
use backup::config::BackblazeExclusionsConfig;

const ORIGINAL: &str = "\
<?xml version=\"1.0\"?>
<bzexclusions>
<excludefname_rule plat=\"mac\" contains_1=\"/keep-me/\" />
<excludefname_rule plat=\"mac\" contains_1=\"/.gem/\" />
<excludefname_rule plat=\"mac\" contains_1=\"/.expo/\" />
</bzexclusions>
";

#[test]
fn reconciles_rules_and_preserves_unmanaged_content() {
    let updated =
        reconcile_exclusions(ORIGINAL, "/Users/alice").expect("exclusions are reconciled");

    assert_eq!(
        updated,
        "\
<?xml version=\"1.0\"?>
<bzexclusions>
<excludefname_rule plat=\"mac\" contains_1=\"/keep-me/\" />
<!-- backup-scripts managed development exclusions: begin -->
<!-- Regenerable development data; keep installed gems and home-level Expo state. -->
<excludefname_rule plat=\"mac\" osVers=\"*\" ruleIsOptional=\"t\" skipFirstCharThenStartsWith=\"users/\" contains_1=\"/.rustup/\" contains_2=\"*\" doesNotContain=\"*\" endsWith=\"*\" hasFileExtension=\"*\" />
<excludefname_rule plat=\"mac\" osVers=\"*\" ruleIsOptional=\"t\" skipFirstCharThenStartsWith=\"users/\" contains_1=\"/go/pkg/mod/\" contains_2=\"*\" doesNotContain=\"*\" endsWith=\"*\" hasFileExtension=\"*\" />
<excludefname_rule plat=\"mac\" osVers=\"*\" ruleIsOptional=\"t\" skipFirstCharThenStartsWith=\"users/\" contains_1=\"/.cargo/registry/\" contains_2=\"*\" doesNotContain=\"*\" endsWith=\"*\" hasFileExtension=\"*\" />
<excludefname_rule plat=\"mac\" osVers=\"*\" ruleIsOptional=\"t\" skipFirstCharThenStartsWith=\"users/\" contains_1=\"/__pycache__/\" contains_2=\"*\" doesNotContain=\"*\" endsWith=\"*\" hasFileExtension=\"*\" />
<excludefname_rule plat=\"mac\" osVers=\"*\" ruleIsOptional=\"t\" skipFirstCharThenStartsWith=\"users/\" contains_1=\"/.venv/\" contains_2=\"*\" doesNotContain=\"*\" endsWith=\"*\" hasFileExtension=\"*\" />
<excludefname_rule plat=\"mac\" osVers=\"*\" ruleIsOptional=\"t\" skipFirstCharThenStartsWith=\"users/\" contains_1=\"/.expo/\" contains_2=\"*\" doesNotContain=\"/users/alice/.expo/\" endsWith=\"*\" hasFileExtension=\"*\" />
<!-- backup-scripts managed development exclusions: end -->
</bzexclusions>
"
    );
}

#[test]
fn reconciliation_is_idempotent() {
    let first =
        reconcile_exclusions(ORIGINAL, "/Users/alice").expect("first reconciliation succeeds");

    assert_eq!(
        reconcile_exclusions(&first, "/Users/alice").expect("second reconciliation succeeds"),
        first
    );
}

#[test]
fn rejects_missing_closing_tag() {
    assert_eq!(
        reconcile_exclusions("<bzexclusions>", "/Users/alice")
            .expect_err("missing closing tag is rejected")
            .to_string(),
        "Backblaze exclusions must contain exactly one </bzexclusions>"
    );
}

#[test]
fn escapes_home_directory_for_xml_attribute() {
    assert_eq!(
        escape_xml_attribute("/users/alice & bob/\"project\"/.expo/"),
        "/users/alice &amp; bob/&quot;project&quot;/.expo/"
    );
}

#[test]
fn escaped_values_hold_no_markup() {
    let escaped = escape_xml_attribute("a<b>c&d\"e'f");
    assert!(!escaped.contains('<'));
    assert!(!escaped.contains('"'));
    assert_eq!(
        exclusion_rule("/x/", "*"),
        "<excludefname_rule plat=\"mac\" osVers=\"*\" ruleIsOptional=\"t\" skipFirstCharThenStartsWith=\"users/\" contains_1=\"/x/\" contains_2=\"*\" doesNotContain=\"*\" endsWith=\"*\" hasFileExtension=\"*\" />"
    );
}

#[test]
fn a_text_without_a_managed_block_is_left_as_it_is() {
    assert_eq!(remove_managed_block(ORIGINAL).unwrap(), ORIGINAL);
    assert!(remove_managed_block(
        "<!-- backup-scripts managed development exclusions: begin -->\n"
    )
    .is_err());
}

#[test]
fn a_backup_is_kept_beside_the_file() {
    assert_eq!(
        backup_path("/a/b/rules.xml").unwrap(),
        "/a/b/rules.xml.backup-scripts.bak"
    );
    assert_eq!(
        backup_path("/").unwrap_err(),
        "Backblaze exclusion path has no file name: /"
    );
}

#[test]
fn nothing_is_written_unless_asked_for() {
    let home = Some("/Users/alice".to_string());
    let preview = resolve_settings(
        &Args::default(),
        &BackblazeExclusionsConfig::default(),
        &home,
    );
    assert!(
        matches!(plan(ORIGINAL, &home, &preview, false), Ok(Update::Needed(why)) if why == "no --apply")
    );
    let apply = resolve_settings(
        &Args {
            apply: true,
            ..Args::default()
        },
        &BackblazeExclusionsConfig::default(),
        &home,
    );
    assert!(
        matches!(plan(ORIGINAL, &home, &apply, true), Ok(Update::Needed(why)) if why == "dry run")
    );
    assert_eq!(
        plan(ORIGINAL, &None, &apply, false).unwrap_err(),
        "HOME is required for Expo exclusion safety"
    );
    match plan(ORIGINAL, &home, &apply, false) {
        Ok(Update::Write { text, .. }) => {
            assert_eq!(text, reconcile_exclusions(ORIGINAL, "/Users/alice").unwrap());
            assert!(matches!(
                plan(&text, &home, &apply, false),
                Ok(Update::Current)
            ));
            assert_eq!(outcome(&Update::Current), CommandSummary::ok_one());
        }
        _ => panic!("the exclusions are written"),
    }
}
