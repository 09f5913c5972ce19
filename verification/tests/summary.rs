use backup::commands::executor::{
    child_action, count_ok, delete_children, delete_dir, deletes, empty_run, entry_action, permits,
    relative_label, report, Child, ChildAction, ChildOutcome, CleanProgress, Removal, Scrub,
};
use backup::commands::CommandSummary;
use backup::ui::{ItemDetail, Terminal};

const PLAIN: Terminal = Terminal {
    interactive: false,
    no_color: false,
};

fn progress() -> CleanProgress {
    CleanProgress::new(false)
}

#[test]
fn skipped_one_is_only_skipped() {
    let s = CommandSummary::skipped_one();
    assert_eq!(s.items_skipped, 1);
    assert_eq!(s.items_ok, 0);
    assert_eq!(s.items_failed, 0);
    assert!(s.skipped());
    assert!(s.passed(), "a skip is not a failure");
}

#[test]
fn ok_one_is_not_skipped() {
    let s = CommandSummary::ok_one();
    assert!(!s.skipped());
    assert!(s.passed());
}

#[test]
fn failed_one_is_not_skipped_and_not_passed() {
    let s = CommandSummary::failed_one();
    assert!(!s.skipped());
    assert!(!s.passed());
}

#[test]
fn merge_accumulates_skipped() {
    let mut total = CommandSummary::skipped_one();
    total.merge(CommandSummary::skipped_one());
    total.merge(CommandSummary::ok_one());
    assert_eq!(total.items_skipped, 2);
    assert_eq!(total.items_ok, 1);
    assert!(
        !total.skipped(),
        "a mix of ok and skipped is not a pure skip"
    );
}

#[test]
fn items_total_counts_work_not_skips() {
    let s = CommandSummary::skipped_one();
    assert_eq!(s.items_total(), 0, "a skip did no work");
}

#[test]
fn merging_is_the_same_in_any_order() {
    let parts = [
        CommandSummary::ok_one_with_bytes(7),
        CommandSummary::failed_one(),
        CommandSummary::skipped_one(),
    ];
    let mut forth = CommandSummary::default();
    let mut back = CommandSummary::default();
    for i in 0..parts.len() {
        forth.merge(parts[i]);
        back.merge(parts[parts.len() - 1 - i]);
    }
    assert_eq!(forth, back);
    assert_eq!(forth.items_total(), 2);
    assert!(!forth.passed());
}

#[test]
fn record_success_counts_item_and_bytes() {
    let mut p = progress();
    p.record("a".to_string(), ItemDetail::failure("x"), true, 100);
    assert_eq!(p.total_bytes, 100);
    assert_eq!(p.total_count, 1);
}

#[test]
fn record_failure_with_zero_bytes_is_not_counted() {
    let mut p = progress();
    p.record("a".to_string(), ItemDetail::failure("x"), false, 0);
    assert_eq!(p.total_bytes, 0);
    assert_eq!(p.total_count, 0);
}

#[test]
fn record_partial_failure_that_freed_bytes_is_counted() {
    let mut p = progress();
    p.record("a".to_string(), ItemDetail::failure("x"), false, 50);
    assert_eq!(p.total_bytes, 50);
    assert_eq!(p.total_count, 1);
}

#[test]
fn record_accumulates_bytes_across_items() {
    let mut p = progress();
    p.record("a".to_string(), ItemDetail::failure("x"), true, 100);
    p.record("b".to_string(), ItemDetail::failure("x"), true, 200);
    assert_eq!(p.total_bytes, 300);
    assert_eq!(p.total_count, 2);
}

#[test]
fn finish_derives_summary_from_recorded_items() {
    let mut p = progress();
    p.record("a".to_string(), ItemDetail::failure("x"), true, 100);
    p.record("b".to_string(), ItemDetail::failure("x"), true, 200);
    p.record("c".to_string(), ItemDetail::failure("x"), false, 0);
    let summary = p.finish().summary;
    assert_eq!(summary.bytes_freed, 300);
    assert_eq!(summary.items_ok, 2);
    assert_eq!(summary.items_failed, 1);
    assert_eq!(summary.items_skipped, 0);
}

#[test]
fn run_parallel_empty_candidates_yields_default_summary() {
    let summary = empty_run(false).summary;
    assert_eq!(summary.bytes_freed, 0);
    assert_eq!(summary.items_ok, 0);
    assert_eq!(summary.items_failed, 0);
    assert_eq!(summary.items_skipped, 0);
}

#[test]
fn run_parallel_aggregates_recorded_outcomes() {
    let candidates: Vec<u64> = vec![10, 20, 0];
    let mut progress = CleanProgress::new(false);
    for bytes in candidates {
        let ok = bytes > 0;
        progress.record(format!("item-{bytes}"), ItemDetail::failure("x"), ok, bytes);
    }
    let summary = progress.finish().summary;
    assert_eq!(summary.bytes_freed, 30);
    assert_eq!(summary.items_ok, 2);
    assert_eq!(summary.items_failed, 1);
    assert_eq!(summary.items_skipped, 0);
}

#[test]
fn run_parallel_emits_item_branches_and_summary() {
    let mut progress = CleanProgress::new(false);
    for bytes in [10_u64, 20] {
        progress.record(
            format!("item-{bytes}"),
            ItemDetail::failure("x"),
            true,
            bytes,
        );
    }
    let out = report("clean-x", &progress.finish(), &PLAIN);
    assert_eq!(out.first().map(String::as_str), Some(""));
    assert_eq!(out.get(1).map(String::as_str), Some("clean-x"));
    let branches: Vec<&String> = out.iter().filter(|l| l.starts_with("├─ ✓ ")).collect();
    assert_eq!(branches.len(), 2);
    assert_eq!(
        out.last().map(String::as_str),
        Some("└─ freed 30 B across 2 items")
    );
}

#[test]
fn run_parallel_empty_candidates_emits_closing_summary() {
    let out = report("clean-x", &empty_run(false), &PLAIN);
    assert_eq!(
        out.last().map(String::as_str),
        Some("└─ freed 0 B across 0 items")
    );
}

#[test]
fn run_parallel_empty_candidates_dry_run_uses_would_free_verb() {
    let out = report("clean-x", &empty_run(true), &PLAIN);
    assert_eq!(
        out.last().map(String::as_str),
        Some("└─ would free 0 B across 0 items")
    );
}

#[test]
fn the_running_total_is_shown() {
    let mut p = CleanProgress::new(true);
    assert!(p.dry_run());
    assert_eq!(p.verb(), "would free");
    assert_eq!(
        p.record("a".to_string(), ItemDetail::failure("x"), true, 1024),
        "would free 1 KiB"
    );
    assert_eq!(
        p.record("b".to_string(), ItemDetail::failure("x"), true, 1024),
        "would free 2 KiB"
    );
    assert_eq!(count_ok(&p.items), 2);
}

#[test]
fn totals_wrap_around() {
    let mut p = progress();
    p.record("a".to_string(), ItemDetail::failure("x"), true, u64::MAX);
    p.record("b".to_string(), ItemDetail::failure("x"), true, 2);
    assert_eq!(p.total_bytes, 1);
}

#[test]
fn a_deleted_directory_is_recorded_with_its_size() {
    let mut p = progress();
    delete_dir(&mut p, "a".to_string(), 2048, &Removal::Deleted(1200));
    delete_dir(
        &mut p,
        "b".to_string(),
        4096,
        &Removal::Failed("busy".to_string()),
    );
    assert_eq!(p.total_bytes, 2048);
    assert_eq!(p.total_count, 1);
    assert_eq!(
        report("clean-x", &p.finish(), &PLAIN)[2..],
        [
            "├─ ✓ a  deleted      2 KiB      in 1.2s   ".trim_end().to_string(),
            "├─ ✗ b  failed       busy".to_string(),
            "└─ freed 2 KiB across 1 items".to_string(),
        ]
    );
    let mut dry = CleanProgress::new(true);
    delete_dir(&mut dry, "a".to_string(), 2048, &Removal::Kept);
    assert_eq!(dry.total_bytes, 2048);
    assert_eq!(dry.items[0].detail.verb, "would delete");
}

#[test]
fn only_old_entries_are_deleted_and_none_in_a_dry_run() {
    let day = 86_400;
    let old = Child {
        mtime: Some(0),
        is_dir: true,
        is_symlink: false,
    };
    let young = Child {
        mtime: Some(9 * day),
        is_dir: false,
        is_symlink: false,
    };
    let link = Child {
        mtime: Some(0),
        is_dir: true,
        is_symlink: true,
    };
    let now = 10 * day;
    assert_eq!(child_action(&old, 5, now, false), ChildAction::RemoveDir);
    assert_eq!(child_action(&link, 5, now, false), ChildAction::RemoveFile);
    assert_eq!(child_action(&young, 5, now, false), ChildAction::Keep);
    assert_eq!(child_action(&young, 0, now, false), ChildAction::RemoveFile);
    assert_eq!(child_action(&old, 5, now, true), ChildAction::Measure);
    assert_eq!(entry_action(true, false), ChildAction::RemoveDir);
    assert_eq!(entry_action(false, false), ChildAction::RemoveFile);
    assert_eq!(entry_action(false, true), ChildAction::Measure);
    assert!(deletes(false));
    assert!(!deletes(true));
    assert_eq!(permits(0), 1);
    assert_eq!(permits(4), 4);
}

#[test]
fn a_scrub_fails_with_its_last_failure_and_keeps_what_it_freed() {
    let mut scrub = Scrub::new();
    scrub.add(ChildOutcome::Freed(100));
    assert!(scrub.all_ok());
    scrub.add(ChildOutcome::Failed("first".to_string()));
    scrub.add(ChildOutcome::Freed(50));
    scrub.add(ChildOutcome::Failed("last".to_string()));
    assert!(!scrub.all_ok());
    assert_eq!(scrub.freed, 150);
    assert_eq!(scrub.detail(false, 10).suffix, Some("last".to_string()));
    assert_eq!(
        scrub.summary(),
        CommandSummary {
            bytes_freed: 150,
            items_ok: 0,
            items_failed: 1,
            items_skipped: 0
        }
    );
    let mut p = progress();
    delete_children(&mut p, "c".to_string(), &Ok(scrub), 10);
    assert_eq!(p.total_count, 1, "it freed something");
    delete_children(&mut p, "d".to_string(), &Err("gone".to_string()), 10);
    assert_eq!(p.total_count, 1);
    assert_eq!(p.items[1].detail.suffix, Some("gone".to_string()));
}

#[test]
fn labels_are_relative_where_they_can_be() {
    assert_eq!(relative_label("/a/b/c", "/a"), "b/c");
    assert_eq!(relative_label("/x/b", "/a"), "/x/b");
    assert_eq!(relative_label("//b", "/"), "b");
    assert_eq!(relative_label("/b", ""), "/b");
}
