use backup::bytes::{text_of, utf8_text};
use backup::config::{
    candidate_paths, choose_list, default_home_path, expand_tilde, expand_tildes, resolve_roots,
    WalkConfig,
};
use backup::counting::{count_texts, distinct_texts};
use backup::number::{decimal, parse_u32, parse_u64};
use backup::order::text_less;
use backup::path::{
    components, ends_with, extension, file_name, is_same_path, join, parent, path_less,
    starts_with, strip_prefix, with_file_name,
};
use backup::search::{contains, count, find};
use backup::sizes::{ascii_lower, ascii_upper, display_size, format_bytes, parse_size};
use backup::sorting::{dedup_paths, sort_and_dedup, sort_paths};
use backup::split::{fields, lines, words};
use backup::text::{trim, trim_end, trim_start};
use backup::walk::{
    dir_size, dirs_with_marker, follow_symlinks, include_entry, init_walk_options, older_than_days,
    walk_opts, FileInfo, Visited, WalkOptions,
};
use std::path::Path;

fn strs(list: &[&str]) -> Vec<String> {
    list.iter().map(|s| s.to_string()).collect()
}

const TEXTS: [&str; 14] = [
    "",
    " ",
    "a",
    " a b\t",
    "a\nb\r\nc\r",
    "\n\n",
    "a\r\r\nb",
    "é\u{a0}ü\u{2003}",
    "/a//b/./c/../",
    "./a",
    "..",
    "a,b,,c",
    "\u{85}x\u{3000}",
    "no newline at end\nx",
];

#[test]
fn text_is_split_as_std_does() {
    for s in TEXTS {
        assert_eq!(lines(s), s.lines().collect::<Vec<_>>());
        assert_eq!(words(s), s.split_whitespace().collect::<Vec<_>>());
        assert_eq!(fields(s, ','), s.split(',').collect::<Vec<_>>());
        assert_eq!(trim(s), s.trim());
        assert_eq!(trim_start(s), s.trim_start());
        assert_eq!(trim_end(s), s.trim_end());
    }
}

#[test]
fn text_is_searched_as_std_does() {
    for s in TEXTS {
        for p in ["a", "b", "/", "\r\n", "x\u{3000}"] {
            assert_eq!(contains(s, p), s.contains(p));
            assert_eq!(find(s, p), s.find(p).map(|i| s[..i].chars().count()));
            assert_eq!(count(s, p), s.matches(p).count());
        }
    }
    assert_eq!(count("aaaa", "aa"), 2);
}

#[test]
fn paths_are_read_as_std_does() {
    let all = [
        "",
        "/",
        "//",
        "a",
        "/a",
        "a/b",
        "/a//b/",
        "/a/./b",
        "./a/b",
        ".",
        "..",
        "/..",
        "a/..",
        "/a/b.c.d",
        ".hidden",
        "x/.hidden.txt",
        "a.",
        "/Users/me/My Files/é.tar.gz",
    ];
    for s in all {
        let p = Path::new(s);
        let want: Vec<String> = p
            .components()
            .map(|c| c.as_os_str().to_string_lossy().into_owned())
            .collect();
        assert_eq!(components(s), want, "components of {s:?}");
        assert_eq!(
            file_name(s),
            p.file_name().map(|n| n.to_string_lossy().into_owned())
        );
        assert_eq!(
            parent(s),
            p.parent().map(|n| n.to_string_lossy().into_owned())
        );
        assert_eq!(
            extension(s),
            p.extension().map(|n| n.to_string_lossy().into_owned())
        );
        assert_eq!(
            with_file_name(s, "new"),
            p.with_file_name("new").to_string_lossy()
        );
        for t in all {
            let q = Path::new(t);
            assert_eq!(join(s, t), p.join(q).to_string_lossy(), "{s:?} and {t:?}");
            assert_eq!(starts_with(s, t), p.starts_with(q));
            assert_eq!(ends_with(s, t), p.ends_with(q));
            assert_eq!(
                strip_prefix(s, t),
                p.strip_prefix(q)
                    .ok()
                    .map(|r| r.to_string_lossy().into_owned()),
                "{s:?} below {t:?}"
            );
            assert_eq!(is_same_path(s, t), p == q);
            assert_eq!(path_less(s, t), p < q, "{s:?} before {t:?}");
            assert_eq!(text_less(s, t), s < t);
        }
    }
}

#[test]
fn joining_and_stripping_are_opposites() {
    let joined = join("/Users/me", "a/b c");
    assert_eq!(joined, "/Users/me/a/b c");
    assert_eq!(
        strip_prefix(&joined, "/Users/me"),
        Some("a/b c".to_string())
    );
}

#[test]
fn paths_are_sorted_and_deduplicated() {
    let list = strs(&["/b", "/a/x", "/a", "/b/", "/a-1", "/a/x"]);
    let mut want: Vec<std::path::PathBuf> = list.iter().map(std::path::PathBuf::from).collect();
    want.sort();
    let as_text = |v: &Vec<std::path::PathBuf>| -> Vec<String> {
        v.iter().map(|p| p.to_string_lossy().into_owned()).collect()
    };
    assert_eq!(sort_paths(&list), as_text(&want));
    want.dedup();
    assert_eq!(sort_and_dedup(&list), as_text(&want));
    assert_eq!(
        dedup_paths(&strs(&["/a", "/a/", "/b"])),
        strs(&["/a", "/b"])
    );
}

#[test]
fn numbers_read_back() {
    for n in [0, 7, 10, 99, 1234567890, u64::MAX] {
        assert_eq!(decimal(n), n.to_string());
        assert_eq!(parse_u64(&decimal(n)), Some(n));
    }
    for s in ["", "+", "-1", "+5", " 5", "5x", "007", "18446744073709551616"] {
        assert_eq!(parse_u64(s), s.parse().ok(), "{s:?}");
        assert_eq!(parse_u32(s), s.parse().ok(), "{s:?}");
    }
    assert_eq!(parse_u32("4294967296"), None);
}

fn float_size(raw: &str) -> Option<u64> {
    let s = raw.trim();
    if s.is_empty() {
        return None;
    }
    let split = s
        .char_indices()
        .find(|(_, c)| c.is_ascii_alphabetic())
        .map_or(s.len(), |(i, _)| i);
    let (num, unit) = s.split_at(split);
    let value: f64 = num.parse().ok()?;
    let multiplier: f64 = match unit.to_ascii_uppercase().as_str() {
        "" | "B" => 1.0,
        "KB" => 1_000.0,
        "MB" => 1_000_000.0,
        "GB" => 1_000_000_000.0,
        "TB" => 1_000_000_000_000.0,
        "KIB" => 1_024.0,
        "MIB" => 1_024.0 * 1_024.0,
        "GIB" => 1_024.0 * 1_024.0 * 1_024.0,
        "TIB" => 1_024.0_f64.powi(4),
        _ => return None,
    };
    Some((value * multiplier) as u64)
}

#[test]
fn sizes_are_read_as_floating_point_does() {
    let units = [
        "", "B", "kB", "KB", "MB", "GB", "TB", "KiB", "MiB", "GiB", "TiB", "XB",
    ];
    let numbers = [
        "0", "1", "1.5", "9.209", "13.74", "0.1", "0.3", "3.14", "18.44", "512", "007", "+2", "-1",
        "-0.0", ".5", "5.", ".", "", "1.2.3", "1 ", "99999999999999999999", "0.000000000001",
        "1023.9999999999999999", "18446744073709551615", "4.35", "2.675", "1.005",
        "123456789.123456789", "9007199254740993", "1,5",
    ];
    for n in numbers {
        for u in units {
            let text = format!("{n}{u}");
            assert_eq!(parse_size(&text), float_size(&text), "{text:?}");
        }
    }
    let mut state: u64 = 88172645463325252;
    for _ in 0..400 {
        state ^= state << 13;
        state ^= state >> 7;
        state ^= state << 17;
        let text = format!(
            "{}.{}{}",
            state % 100_000,
            (state >> 20) % 1_000_000_000,
            units[(state >> 50) as usize % units.len()]
        );
        assert_eq!(parse_size(&text), float_size(&text), "{text:?}");
    }
}

#[test]
fn whole_sizes_are_exact() {
    assert_eq!(parse_size("123456789KiB"), Some(123456789 * 1024));
    assert_eq!(parse_size(" 7TB "), Some(7_000_000_000_000));
}

#[test]
fn sizes_are_shown_in_binary_units() {
    assert_eq!(format_bytes(0), "0 B");
    assert_eq!(format_bytes(1024), "1 KiB");
    assert_eq!(format_bytes(1536), "1.50 KiB");
    assert_eq!(display_size(Some(1048576)), "1 MiB");
    assert_eq!(display_size(None), "unknown");
    assert_eq!(ascii_upper("aé1Z"), "Aé1Z");
    assert_eq!(ascii_lower("AéZ"), "aéz");
}

#[test]
fn bytes_are_read_strictly_or_leniently() {
    assert_eq!(utf8_text(&"é\n".as_bytes().to_vec()), Some("é\n".to_string()));
    assert_eq!(utf8_text(&vec![0xff]), None);
    assert_eq!(text_of(&vec![b'a', 0xff, b'b']), "a\u{fffd}b");
    assert_eq!(text_of(&"é".as_bytes().to_vec()), "é");
}

#[test]
fn counts_come_in_order() {
    let list = strs(&["b", "a", "b", "é", "b"]);
    assert_eq!(distinct_texts(&list), strs(&["a", "b", "é"]));
    assert_eq!(count_texts(&list), "1 a, 3 b, 1 é");
    assert_eq!(count_texts(&vec![]), "");
}

#[test]
fn tildes_expand_to_the_home_directory() {
    let home = Some("/h".to_string());
    assert_eq!(expand_tilde("~/x", &home), "/h/x");
    assert_eq!(expand_tilde("~", &home), "/h");
    assert_eq!(expand_tilde("~user/x", &home), "~user/x");
    assert_eq!(expand_tilde("/a/~/x", &home), "/a/~/x");
    assert_eq!(expand_tilde("~/x", &None), "~/x");
    assert_eq!(
        expand_tildes(&strs(&["~", "b"]), &home),
        strs(&["/h", "b"])
    );
    assert_eq!(default_home_path(&None, "x"), "/x");
}

#[test]
fn roots_come_from_the_nearest_place() {
    let home = Some("/h".to_string());
    let cli = strs(&["~/cli"]);
    let cmd = Some(strs(&["/cmd"]));
    let global = Some(strs(&["/global"]));
    assert_eq!(
        resolve_roots(&cli, &cmd, &global, "x", &home),
        Ok(strs(&["/h/cli"]))
    );
    assert_eq!(
        resolve_roots(&vec![], &cmd, &global, "x", &home),
        Ok(strs(&["/cmd"]))
    );
    assert_eq!(
        resolve_roots(&vec![], &Some(vec![]), &global, "x", &home),
        Ok(strs(&["/global"]))
    );
    assert_eq!(
        resolve_roots(&vec![], &None, &None, "x", &home),
        Err("no roots configured for `x`: pass --root, or set `roots` (top-level) or `x.roots` in your config file".to_string())
    );
    assert_eq!(
        choose_list(&vec![], &Some(vec![]), &strs(&["d"])),
        strs(&["d"])
    );
}

#[test]
fn the_configuration_is_looked_for_in_order() {
    let home = Some("/h".to_string());
    assert_eq!(
        candidate_paths(&None, &home, &Some("/etc/xdg::/b".to_string())),
        strs(&[
            "/h/.config/backup/config.json5",
            "/etc/xdg/backup/config.json5",
            "/b/backup/config.json5",
        ])
    );
    assert_eq!(
        candidate_paths(&Some("/x".to_string()), &home, &None),
        strs(&["/x/backup/config.json5"])
    );
    assert_eq!(
        candidate_paths(&Some("".to_string()), &None, &None),
        strs(&["/.config/backup/config.json5"])
    );
}

#[test]
fn walks_prune_and_skip_hidden_directories() {
    let opts = WalkOptions::fallback();
    assert_eq!(opts.prune_dirs.len(), 12);
    assert!(include_entry(0, "node_modules", "Cargo.toml", &opts));
    assert!(!include_entry(1, "node_modules", "Cargo.toml", &opts));
    assert!(!include_entry(1, ".cache", "Cargo.toml", &opts));
    assert!(!include_entry(1, ".cache", ".git", &opts));
    assert!(include_entry(1, ".git", ".git", &opts));
    assert!(include_entry(2, "src", "Cargo.toml", &opts));
    let entries = vec![
        Visited {
            path: "/a".to_string(),
            is_dir: true,
            has_marker: true,
        },
        Visited {
            path: "/b".to_string(),
            is_dir: true,
            has_marker: false,
        },
        Visited {
            path: "/c".to_string(),
            is_dir: false,
            has_marker: true,
        },
    ];
    assert_eq!(dirs_with_marker(&entries), strs(&["/a"]));
}

#[test]
fn walk_options_are_set_once() {
    let mut cell = None;
    assert!(!follow_symlinks(&mut cell));
    let mut set = None;
    init_walk_options(
        &mut set,
        WalkOptions::configured(&WalkConfig {
            prune_dirs: Some(strs(&["x"])),
            follow_symlinks: Some(true),
        }),
    );
    init_walk_options(&mut set, WalkOptions::fallback());
    assert!(follow_symlinks(&mut set));
    assert_eq!(walk_opts(&mut set).prune_dirs, strs(&["x"]));
}

#[test]
fn only_regular_files_have_a_size() {
    let file = |len| {
        Some(FileInfo {
            is_file: true,
            len,
        })
    };
    let entries = vec![
        file(10),
        None,
        Some(FileInfo {
            is_file: false,
            len: 99,
        }),
        file(5),
    ];
    assert_eq!(dir_size(&entries), 15);
}

#[test]
fn age_is_counted_in_days() {
    let day = 86_400;
    assert!(older_than_days(Some(0), 2 * day, 1));
    assert!(!older_than_days(Some(day), 2 * day, 1));
    assert!(older_than_days(Some(day - 1), 2 * day, 1));
    assert!(older_than_days(None, 0, 0));
    assert!(!older_than_days(None, 100 * day, 1));
    assert!(!older_than_days(Some(0), 10, u32::MAX));
}
