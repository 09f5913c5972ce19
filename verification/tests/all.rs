use backup::commands::all::{
    aggregate_line, can_total, default_steps, plan, print_aggregate_summary, rerun_command, rerun_lines,
    resolve_steps, results_header, run_step, step_counts, step_status, tally, validate_steps, Args,
    Step, StepAction, StepResult, Steps, Tally,
};
use backup::commands::CommandSummary;

fn step(name: &str, summary: CommandSummary) -> StepResult {
    StepResult {
        name: name.to_string(),
        summary,
    }
}

fn steps_vec(names: &[&str]) -> Vec<String> {
    names.iter().map(|s| s.to_string()).collect()
}

#[test]
fn step_status_distinguishes_skip_from_ok() {
    assert_eq!(step_status(&CommandSummary::ok_one()), "ok ");
    assert_eq!(step_status(&CommandSummary::skipped_one()), "skip");
    assert_eq!(step_status(&CommandSummary::failed_one()), "FAIL");
}

#[test]
fn step_status_failure_wins_over_skip() {
    let mut s = CommandSummary::skipped_one();
    s.merge(CommandSummary::failed_one());
    assert_eq!(step_status(&s), "FAIL");
}

#[test]
fn results_header_notes_dry_run() {
    assert_eq!(results_header(false), "all: per-command results:");
    assert_eq!(results_header(true), "all: per-command results (dry run):");
}

#[test]
fn aggregate_line_dry_run_says_would_free() {
    let results = vec![step("a", CommandSummary::ok_one_with_bytes(1024))];
    let line = aggregate_line(&results, 1200, true);
    assert_eq!(
        line,
        "all: 1 passed, 0 failed, 0 skipped, would free 1 KiB across 1 items in 1.2s"
    );
}

#[test]
fn aggregate_line_real_run_says_freed() {
    let results = vec![step("a", CommandSummary::ok_one_with_bytes(1024))];
    let line = aggregate_line(&results, 1200, false);
    assert_eq!(
        line,
        "all: 1 passed, 0 failed, 0 skipped, freed 1 KiB across 1 items in 1.2s"
    );
}

#[test]
fn step_counts_hides_skipped_when_zero() {
    assert_eq!(step_counts(&CommandSummary::ok_one()), "(1 ok, 0 failed)");
    assert_eq!(
        step_counts(&CommandSummary::skipped_one()),
        "(0 ok, 0 failed, 1 skipped)"
    );
}

#[test]
fn resolve_steps_only_retains_named_steps_in_order() {
    let configured = steps_vec(&["clean-node", "clean-chrome", "clean-steam", "clean-tmp"]);
    let only = steps_vec(&["clean-tmp", "clean-node"]);

    let resolved = resolve_steps(configured, &vec![], &only).unwrap();

    assert_eq!(resolved, steps_vec(&["clean-node", "clean-tmp"]));
}

#[test]
fn resolve_steps_unknown_only_name_errors() {
    let configured = steps_vec(&["clean-node"]);
    let only = steps_vec(&["not-a-real-step"]);

    let err = resolve_steps(configured, &vec![], &only).unwrap_err();

    assert!(
        err.to_string().contains("not-a-real-step"),
        "error should name the unknown step",
    );
}

#[test]
fn resolve_steps_only_minus_skip() {
    let configured = steps_vec(&["clean-node", "clean-chrome", "clean-steam"]);
    let only = steps_vec(&["clean-node", "clean-chrome"]);
    let skip = steps_vec(&["clean-chrome"]);

    let resolved = resolve_steps(configured, &skip, &only).unwrap();

    assert_eq!(resolved, steps_vec(&["clean-node"]));
}

#[test]
fn run_steps_returns_partial_results_with_error_on_failure() {
    let mut steps = Steps::new(steps_vec(&["not-a-real-step"]));
    match steps.next() {
        StepAction::Unknown(message) => steps.failed(message),
        _ => panic!("an unknown step is an error"),
    }

    let (results, outcome) = steps.finish();

    assert!(results.is_empty());
    assert!(outcome.is_err());
    assert!(
        outcome.unwrap_err().contains("not-a-real-step"),
        "error should name the offending step",
    );
}

#[test]
fn the_first_failure_ends_a_run() {
    let mut steps = Steps::new(steps_vec(&["clean-tmp", "clean-m2", "clean-logs"]));
    assert!(matches!(steps.next(), StepAction::Run(Step::CleanTmp)));
    steps.completed(CommandSummary::ok_one_with_bytes(7));
    assert!(matches!(steps.next(), StepAction::Run(Step::CleanM2)));
    steps.failed("no repository".to_string());
    assert!(matches!(steps.next(), StepAction::Stopped));
    let (results, outcome) = steps.finish();
    assert_eq!(results.len(), 1);
    assert_eq!(results[0].name, "clean-tmp");
    assert_eq!(results[0].summary, CommandSummary::ok_one_with_bytes(7));
    assert_eq!(outcome, Err("no repository".to_string()));
}

#[test]
fn rerun_command_is_none_when_nothing_skipped() {
    let results = vec![
        step("a", CommandSummary::ok_one()),
        step("b", CommandSummary::failed_one()),
    ];
    assert_eq!(rerun_command(&results, false), None);
}

#[test]
fn rerun_command_lists_skipped_steps_in_order() {
    let results = vec![
        step("clean-chrome", CommandSummary::skipped_one()),
        step("clean-node", CommandSummary::ok_one()),
        step("clean-steam", CommandSummary::skipped_one()),
    ];
    assert_eq!(
        rerun_command(&results, false),
        Some("backup all --only clean-chrome --only clean-steam".to_string())
    );
}

#[test]
fn rerun_command_includes_dry_run_flag() {
    let results = vec![step("clean-chrome", CommandSummary::skipped_one())];
    assert_eq!(
        rerun_command(&results, true),
        Some("backup all --dry-run --only clean-chrome".to_string())
    );
}

#[test]
fn tally_counts_skip_separately_from_passed() {
    let results = vec![
        step("a", CommandSummary::ok_one()),
        step("b", CommandSummary::skipped_one()),
        step("c", CommandSummary::failed_one()),
        step("d", CommandSummary::ok_one()),
    ];
    assert_eq!(
        tally(&results),
        Tally {
            passed: 2,
            failed: 1,
            skipped: 1,
        }
    );
}

#[test]
fn every_default_step_has_a_command() {
    let steps = default_steps();
    assert_eq!(steps.len(), 32);
    for name in &steps {
        let found = run_step(name).unwrap();
        assert_eq!(found.name(), name);
    }
    assert_eq!(run_step("clean-tmp").unwrap(), Step::CleanTmp);
    assert_eq!(
        run_step("nope").unwrap_err(),
        "unknown step in `all.steps`: nope"
    );
}

#[test]
fn validating_names_the_first_unknown_step() {
    assert!(validate_steps(&default_steps()).is_ok());
    assert_eq!(
        validate_steps(&steps_vec(&["clean-tmp", "x", "y"])).unwrap_err(),
        "unknown step: x"
    );
}

#[test]
fn skipping_and_choosing_keep_the_configured_order() {
    let args = Args {
        skip: steps_vec(&["clean-npm"]),
        only: vec![],
    };
    let configured = Some(steps_vec(&["clean-tmp", "clean-npm", "clean-m2"]));
    assert_eq!(
        plan(&args, &configured).unwrap(),
        steps_vec(&["clean-tmp", "clean-m2"])
    );
    assert_eq!(plan(&Args::default(), &None).unwrap(), default_steps());
}

#[test]
fn steps_run_one_after_another() {
    let mut steps = Steps::new(steps_vec(&["clean-tmp", "clean-m2"]));
    assert!(matches!(steps.next(), StepAction::Run(Step::CleanTmp)));
    steps.completed(CommandSummary::ok_one());
    assert!(matches!(steps.next(), StepAction::Run(Step::CleanM2)));
    steps.completed(CommandSummary::skipped_one());
    assert!(matches!(steps.next(), StepAction::AllDone));
    assert_eq!(steps.results[0].name, "clean-tmp");
    assert_eq!(steps.results[1].summary, CommandSummary::skipped_one());
    let (results, outcome) = steps.finish();
    assert_eq!(results.len(), 2);
    assert_eq!(outcome, Ok(()));
}

#[test]
fn the_summary_lists_every_step_under_its_header() {
    let results = vec![
        step("clean-tmp", CommandSummary::ok_one_with_bytes(2048)),
        step("clean-m2", CommandSummary::skipped_one()),
    ];
    let lines = print_aggregate_summary(&results, 1200, false);
    assert!(lines.contains(&"all: per-command results:".to_string()));
    assert!(lines
        .iter()
        .any(|l| l.contains("clean-tmp") && l.contains("2 KiB") && l.contains("(1 ok, 0 failed)")));
    assert!(lines
        .iter()
        .any(|l| l.contains("clean-m2") && l.contains("(0 ok, 0 failed, 1 skipped)")));
    assert!(lines.contains(&aggregate_line(&results, 1200, false)));
}

#[test]
fn skipped_steps_come_with_a_command_to_run_them() {
    let results = vec![
        step("clean-tmp", CommandSummary::ok_one()),
        step("clean-m2", CommandSummary::skipped_one()),
    ];
    assert_eq!(
        rerun_lines(&results, false),
        steps_vec(&[
            "all: 1 cleaner(s) skipped. Re-run just those:",
            "  backup all --only clean-m2"
        ])
    );
    assert!(rerun_lines(&results[..1].iter().map(|r| step(&r.name, r.summary)).collect(), false)
        .is_empty());
}

#[test]
fn the_suggested_command_runs_the_skipped_steps() {
    let steps = default_steps();
    let results: Vec<StepResult> = steps
        .iter()
        .take(6)
        .enumerate()
        .map(|(i, name)| {
            step(
                name,
                if i % 2 == 0 {
                    CommandSummary::skipped_one()
                } else {
                    CommandSummary::ok_one()
                },
            )
        })
        .collect();
    let command = rerun_command(&results, true).expect("steps were skipped");
    let only: Vec<String> = command
        .split(" --only ")
        .skip(1)
        .map(|name| name.to_string())
        .collect();
    assert_eq!(
        resolve_steps(steps, &vec![], &only).expect("the steps are known"),
        vec![
            "git-maintenance".to_string(),
            "clean-node".to_string(),
            "clean-m2".to_string()
        ]
    );
}

#[test]
fn linking_media_is_no_step() {
    assert!(!default_steps().contains(&"dedupe-media".to_string()));
    assert!(run_step("dedupe-media").is_err());
}

#[test]
fn totals_that_run_over_are_noticed() {
    let full = || step("a", CommandSummary::ok_one_with_bytes(u64::MAX));
    assert!(can_total(&vec![]));
    assert!(can_total(&vec![full()]));
    assert!(!can_total(&vec![full(), full()]));
    let failed = CommandSummary {
        bytes_freed: 0,
        items_ok: u64::MAX,
        items_failed: 1,
        items_skipped: 0,
    };
    assert!(!can_total(&vec![step("a", failed)]));
    assert!(!failed.adds_up_with(&failed));
    assert!(failed.adds_up_with(&CommandSummary::default()));
}
