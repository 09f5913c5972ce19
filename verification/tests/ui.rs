use backup::sizes::format_bytes;
use backup::ui::{
    colorize_duration, colorize_size, emit_tree_items, format_detail, format_detail_colored,
    format_duration, item_line, label_width, pad_right, pad_right_colored, print_tree, text_width,
    use_color, ItemDetail, Logged, MpWriter, Terminal, TreeItem, BLUE, DIM, GREEN, RED, RESET, YELLOW,
};

const PLAIN: Terminal = Terminal {
    interactive: false,
    no_color: false,
};

#[test]
fn ansi_constants_are_sgr_escapes() {
    assert_eq!(RESET, "\x1b[0m");
    assert_eq!(DIM, "\x1b[2m");
    assert_eq!(BLUE, "\x1b[34m");
    assert_eq!(GREEN, "\x1b[32m");
    assert_eq!(YELLOW, "\x1b[33m");
    assert_eq!(RED, "\x1b[31m");
}

#[test]
fn use_color_is_disabled_without_a_tty() {
    assert!(!use_color(&PLAIN));
}

#[test]
fn color_needs_a_terminal_that_wants_it() {
    assert!(use_color(&Terminal {
        interactive: true,
        no_color: false
    }));
    assert!(!use_color(&Terminal {
        interactive: true,
        no_color: true
    }));
}

#[test]
fn format_duration_under_100ms() {
    assert_eq!(format_duration(0), "0ms");
    assert_eq!(format_duration(42), "42ms");
    assert_eq!(format_duration(99), "99ms");
}

#[test]
fn format_duration_seconds() {
    assert_eq!(format_duration(100), "0.1s");
    assert_eq!(format_duration(1_200), "1.2s");
    assert_eq!(format_duration(9_585), "9.6s");
    assert_eq!(format_duration(59_900), "59.9s");
}

#[test]
fn format_duration_minutes() {
    assert_eq!(format_duration(60_000), "1m 0s");
    assert_eq!(format_duration(135_000), "2m 15s");
    assert_eq!(format_duration(3_599_000), "59m 59s");
}

#[test]
fn format_duration_hours() {
    assert_eq!(format_duration(3_600_000), "1h 0m");
    assert_eq!(format_duration(3_900_000), "1h 5m");
    assert_eq!(format_duration(86_340_000), "23h 59m");
}

#[test]
fn seconds_round_as_floating_point_does() {
    for ms in 100u64..60_000 {
        assert_eq!(
            format_duration(ms),
            format!("{:.1}s", ms as f64 / 1000.0),
            "{ms} ms"
        );
    }
}

#[test]
fn long_durations_keep_whole_minutes_and_hours() {
    assert_eq!(format_duration(u64::MAX), "5124095576030h 25m");
    assert_eq!(format_duration(60_999), "1m 0s");
}

#[test]
fn colorize_size_disabled_returns_plain() {
    assert_eq!(colorize_size("4 KiB", false), "4 KiB");
    assert_eq!(colorize_size("164.54 MiB", false), "164.54 MiB");
}

#[test]
fn colorize_size_empty_returns_plain() {
    assert_eq!(colorize_size("", true), "");
    assert_eq!(colorize_size("", false), "");
}

#[test]
fn colorize_size_bytes_dim() {
    assert_eq!(colorize_size("512 B", true), format!("{DIM}512 B{RESET}"));
}

#[test]
fn colorize_size_kib_blue() {
    assert_eq!(colorize_size("4 KiB", true), format!("{BLUE}4 KiB{RESET}"));
}

#[test]
fn colorize_size_mib_green() {
    assert_eq!(
        colorize_size("164.54 MiB", true),
        format!("{GREEN}164.54 MiB{RESET}")
    );
}

#[test]
fn colorize_size_gib_yellow() {
    assert_eq!(
        colorize_size("1.2 GiB", true),
        format!("{YELLOW}1.2 GiB{RESET}")
    );
}

#[test]
fn colorize_size_large_units_red() {
    assert_eq!(colorize_size("3 TiB", true), format!("{RED}3 TiB{RESET}"));
    assert_eq!(colorize_size("3 PiB", true), format!("{RED}3 PiB{RESET}"));
    assert_eq!(colorize_size("3 EiB", true), format!("{RED}3 EiB{RESET}"));
}

#[test]
fn colorize_size_unknown_unit_returns_plain() {
    assert_eq!(colorize_size("7 widgets", true), "7 widgets");
    assert_eq!(colorize_size("nonsense", true), "nonsense");
}

#[test]
fn colorize_duration_disabled_returns_plain() {
    assert_eq!(colorize_duration("2m 15s", false), "2m 15s");
    assert_eq!(colorize_duration("42ms", false), "42ms");
}

#[test]
fn colorize_duration_millis_dim() {
    assert_eq!(colorize_duration("42ms", true), format!("{DIM}42ms{RESET}"));
}

#[test]
fn colorize_duration_seconds_green() {
    assert_eq!(
        colorize_duration("9.6s", true),
        format!("{GREEN}9.6s{RESET}")
    );
}

#[test]
fn colorize_duration_minutes_and_seconds() {
    assert_eq!(
        colorize_duration("2m 15s", true),
        format!("{YELLOW}2m{RESET} {GREEN}15s{RESET}")
    );
}

#[test]
fn colorize_duration_hours_and_minutes() {
    assert_eq!(
        colorize_duration("1h 5m", true),
        format!("{RED}1h{RESET} {YELLOW}5m{RESET}")
    );
}

#[test]
fn pad_right_colored_pads_from_plain_width() {
    let plain = "4 KiB";
    let colored = format!("{BLUE}4 KiB{RESET}");
    assert_eq!(
        pad_right_colored(plain, &colored, 10),
        format!("{BLUE}4 KiB{RESET}     ")
    );
}

#[test]
fn pad_right_colored_no_pad_when_at_or_over_width() {
    let plain = "164.54 MiB";
    let colored = format!("{GREEN}164.54 MiB{RESET}");
    assert_eq!(pad_right_colored(plain, &colored, 10), colored);
    assert_eq!(pad_right_colored(plain, &colored, 5), colored);
}

#[test]
fn pad_right_colored_plain_input_matches_pad_right() {
    assert_eq!(
        pad_right_colored("4 KiB", "4 KiB", 10),
        pad_right("4 KiB", 10)
    );
}

#[test]
fn padding_counts_characters_and_keeps_the_text() {
    assert_eq!(pad_right("é", 3), "é  ");
    assert_eq!(pad_right("longer", 3), "longer");
}

#[test]
fn format_detail_success() {
    let d = ItemDetail::success("freed", "4 KiB", "2.1s");
    assert_eq!(
        format_detail_colored(&d, false),
        "freed        4 KiB      in 2.1s"
    );
}

#[test]
fn format_detail_no_change_aligns_with_freed() {
    let no_change =
        format_detail_colored(&ItemDetail::success("no change", "124 KiB", "1.1s"), false);
    let freed = format_detail_colored(&ItemDetail::success("freed", "4 KiB", "2.1s"), false);
    let big = format_detail_colored(
        &ItemDetail::success("no change", "164.54 MiB", "1.2s"),
        false,
    );
    let no_change_in = no_change.find(" in ").unwrap();
    let freed_in = freed.find(" in ").unwrap();
    let big_in = big.find(" in ").unwrap();
    assert_eq!(no_change_in, freed_in);
    assert_eq!(no_change_in, big_in);
}

#[test]
fn format_detail_dry_run_drops_duration() {
    let d = ItemDetail::dry_run("would delete", "1 KiB");
    let s = format_detail_colored(&d, false);
    assert!(!s.contains(" in "));
    assert!(s.starts_with("would delete "));
    assert!(s.contains("1 KiB"));
}

#[test]
fn format_detail_failure_renders_suffix() {
    let d = ItemDetail::failure("permission denied (os error 13)");
    let s = format_detail_colored(&d, false);
    assert_eq!(s, "failed       permission denied (os error 13)");
    assert!(!s.contains(" in "));
}

#[test]
fn format_detail_plus_verb() {
    let d = ItemDetail::success("+", "4 KiB", "1.0s");
    let s = format_detail_colored(&d, false);
    assert!(s.starts_with("+           "));
    assert!(s.contains("4 KiB"));
    assert!(s.contains("in 1.0s"));
}

#[test]
fn format_detail_with_fsck_suffix() {
    let d = ItemDetail::success("freed", "4 KiB", "2.1s").with_suffix("; fsck: 3 dangling");
    let s = format_detail_colored(&d, false);
    assert!(s.ends_with("; fsck: 3 dangling"));
    assert!(s.contains("in 2.1s"));
}

#[test]
fn format_detail_colored_preserves_column_positions() {
    let d = ItemDetail::success("freed", "4 KiB", "2.1s");
    let plain = format_detail_colored(&d, false);
    let colored = format_detail_colored(&d, true);

    assert_ne!(plain, colored);
    assert!(colored.contains("\x1b["));

    let stripped: String = strip_ansi(&colored);
    assert_eq!(stripped, plain);
    assert_eq!(stripped.find(" in "), plain.find(" in "));
}

fn strip_ansi(s: &str) -> String {
    let mut out = String::with_capacity(s.len());
    let mut chars = s.chars();
    while let Some(c) = chars.next() {
        if c == '\x1b' {
            for inner in chars.by_ref() {
                if inner == 'm' {
                    break;
                }
            }
        } else {
            out.push(c);
        }
    }
    out
}

#[test]
fn color_keeps_the_columns_of_every_detail() {
    for d in [
        ItemDetail::success("deleted", "164.54 MiB", "2m 15s"),
        ItemDetail::success("no change", "3 TiB", "1h 5m").with_suffix("; skipped: prune"),
        ItemDetail::dry_run("would delete", "12 B"),
        ItemDetail::failure("busy"),
    ] {
        assert_eq!(
            strip_ansi(&format_detail_colored(&d, true)),
            format_detail_colored(&d, false)
        );
    }
}

#[test]
fn color_keeps_the_columns_of_formatted_details() {
    let sizes = [0, 1, 1023, 1024, 1536, 172_530_000, 1 << 40, u64::MAX];
    let elapsed = [0, 99, 100, 9_949, 59_999, 60_000, 3_599_999, 3_600_000, u64::MAX];
    for bytes in sizes {
        for ms in elapsed {
            let size = format_bytes(bytes);
            assert!(size.ends_with('B') && size.bytes().all(|b| (b' '..=b'~').contains(&b)));
            let d = ItemDetail::success("deleted", &size, &format_duration(ms));
            let plain = format_detail_colored(&d, false);
            assert_eq!(strip_ansi(&format_detail_colored(&d, true)), plain);
            assert!(!plain.contains('\x1b'));
        }
    }
}

fn items() -> Vec<TreeItem> {
    vec![
        TreeItem {
            label: "one".to_string(),
            detail: ItemDetail::success("freed", "4 KiB", "2.1s"),
            ok: true,
        },
        TreeItem {
            label: "three".to_string(),
            detail: ItemDetail::failure("busy"),
            ok: false,
        },
    ]
}

#[test]
fn trees_align_their_labels() {
    assert_eq!(label_width(&items()), 5);
    assert_eq!(
        print_tree("clean-x: done", &items(), &PLAIN),
        vec![
            "".to_string(),
            "clean-x: done".to_string(),
            "  ├── ✓ one    freed        4 KiB      in 2.1s".to_string(),
            "  └── ✗ three  failed       busy".to_string(),
        ]
    );
    assert_eq!(
        emit_tree_items(&items(), &PLAIN),
        vec![
            "├─ ✓ one    freed        4 KiB      in 2.1s".to_string(),
            "├─ ✗ three  failed       busy".to_string(),
        ]
    );
    assert_eq!(
        format_detail(&items()[1].detail, &PLAIN),
        "failed       busy"
    );
}

#[test]
fn log_lines_are_split_and_blank_ones_dropped() {
    let handle = MpWriter.make_writer();
    assert_eq!(
        handle.lines(&b"one\n\ntwo\n".to_vec()),
        vec!["one".to_string(), "two".to_string()]
    );
    assert!(handle.lines(&vec![0xff, b'\n']).is_empty());
}

#[test]
fn logged_items_show_their_mark_label_and_detail() {
    let done = TreeItem {
        label: "ab".to_string(),
        detail: ItemDetail::success("deleted", "4 KiB", "2.1s"),
        ok: true,
    };
    let failed = TreeItem {
        label: "ab".to_string(),
        detail: ItemDetail::failure("busy"),
        ok: false,
    };
    assert_eq!(
        item_line(&done, 4, Logged::Everything, &PLAIN),
        Some("✓ ab    deleted      4 KiB      in 2.1s".to_string())
    );
    assert_eq!(
        item_line(&failed, 0, Logged::Failures, &PLAIN),
        Some("✗ ab  failed       busy".to_string())
    );
    assert_eq!(item_line(&done, 0, Logged::Failures, &PLAIN), None);
    assert_eq!(item_line(&failed, 0, Logged::Nothing, &PLAIN), None);
}

#[test]
fn the_widest_text_is_counted_in_characters() {
    let list = vec!["a".to_string(), "ééé".to_string(), "bb".to_string()];
    assert_eq!(text_width(&list), 3);
    assert_eq!(text_width(&vec![]), 0);
}
