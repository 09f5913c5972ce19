//! Deletes old log files, and leaves their directories.
use super::listing::{law_only_wanted_entries, picked, Entry};
use crate::config::{
    choose_path, choose_u32, choose_usize, chosen, chosen_path, default_home_path, home_path,
    CleanLogsConfig,
};
use crate::path::{below, components, components_of, is_under, strip_prefix};
use crate::sorting::{law_sorted_members, sort_paths, sorted_paths};
use crate::text::{contains_text, lemma_texts_push, opt_text, texts};
use vstd::prelude::*;

verus! {

pub const DEFAULT_DAYS: u32 = 30;

pub const DEFAULT_CONCURRENCY: usize = 4;

#[derive(Debug, Default)]
pub struct Args {
    /// The directory of the logs.
    pub cache_dir: Option<String>,
    /// Only delete files older than this many days.
    pub days: Option<u32>,
    /// How many deletions run at once.
    pub concurrency: Option<usize>,
}

/// What the command works on.
#[derive(Debug)]
pub struct Settings {
    pub cache_dir: String,
    pub days: u32,
    pub concurrency: usize,
}

pub fn resolve_settings(args: &Args, cfg: &CleanLogsConfig, home: &Option<String>) -> (r: Settings)
    ensures
        r.cache_dir@ == chosen_path(
            opt_text(args.cache_dir),
            opt_text(cfg.cache_dir),
            home_path(opt_text(*home), "Library/Logs"@),
            opt_text(*home),
        ),
        r.days == chosen(args.days, cfg.days, DEFAULT_DAYS),
        r.concurrency == chosen(args.concurrency, cfg.concurrency, DEFAULT_CONCURRENCY),
{
    let fallback = default_home_path(home, "Library/Logs");
    Settings {
        cache_dir: choose_path(&args.cache_dir, &cfg.cache_dir, fallback.as_str(), home),
        days: choose_u32(args.days, cfg.days, DEFAULT_DAYS),
        concurrency: choose_usize(args.concurrency, cfg.concurrency, DEFAULT_CONCURRENCY),
    }
}

/// The directories that hold crash reports, which are left alone.
pub const EXCLUDED_COMPONENT: &'static str = "DiagnosticReports";

/// A file that is below a directory of crash reports, seen from the logs.
pub open spec fn is_report(file: Seq<char>, cache_dir: Seq<char>) -> bool {
    let rel = if is_under(file, cache_dir) {
        below(file, cache_dir)
    } else {
        file
    };
    components_of(rel).contains(EXCLUDED_COMPONENT@)
}

pub fn is_excluded(file: &str, cache_dir: &str) -> (r: bool)
    ensures
        r == is_report(file@, cache_dir@),
{
    let parts = match strip_prefix(file, cache_dir) {
        Some(rel) => components(rel.as_str()),
        None => components(file),
    };
    contains_text(&parts, EXCLUDED_COMPONENT)
}

/// A file that may be deleted.
pub open spec fn a_log(cache_dir: Seq<char>) -> spec_fn(Entry) -> bool {
    |e: Entry| e.is_file && !is_report(e.path@, cache_dir)
}

/// The files that may be deleted, in order: all below the logs, at every depth,
/// but for crash reports.
pub fn find_log_files(entries: &Vec<Entry>, cache_dir: &str) -> (r: Vec<String>)
    ensures
        texts(r@) == sorted_paths(picked(entries@, a_log(cache_dir@))),
{
    let mut out: Vec<String> = Vec::new();
    let mut i: usize = 0;
    assert(entries@.take(0) =~= Seq::<Entry>::empty());
    assert(texts(out@) =~= picked(entries@.take(0), a_log(cache_dir@)));
    while i < entries.len()
        invariant
            i <= entries@.len(),
            texts(out@) == picked(entries@.take(i as int), a_log(cache_dir@)),
        decreases entries@.len() - i,
    {
        assert(entries@.take(i as int + 1).drop_last() =~= entries@.take(i as int));
        if entries[i].is_file && !is_excluded(entries[i].path.as_str(), cache_dir) {
            let path = entries[i].path.clone();
            proof {
                lemma_texts_push(out@, path);
            }
            out.push(path);
        }
        i = i + 1;
    }
    assert(entries@.take(entries@.len() as int) =~= entries@);
    sort_paths(&out)
}

/// Only files are taken, and no crash report is.
pub proof fn law_crash_reports_are_kept(entries: Seq<Entry>, cache_dir: Seq<char>, path: Seq<char>)
    requires
        sorted_paths(picked(entries, a_log(cache_dir))).contains(path),
    ensures
        !is_report(path, cache_dir),
        exists|i: int|
            0 <= i < entries.len() && (#[trigger] entries[i]).is_file && entries[i].path@ == path,
{
    law_sorted_members(picked(entries, a_log(cache_dir)), path);
    law_only_wanted_entries(entries, a_log(cache_dir), path);
    let i = choose|i: int|
        0 <= i < entries.len() && a_log(cache_dir)(#[trigger] entries[i]) && entries[i].path@
            == path;
    assert(entries[i].is_file);
}

/// A file is spared exactly where one of its components below the logs is the
/// directory of crash reports.
pub proof fn law_is_excluded(file: &str, cache_dir: &str, r: bool)
    requires
        call_ensures(is_excluded, (file, cache_dir), r),
    ensures
        is_under(file@, cache_dir@) ==> (r <==> components_of(file@).skip(
            components_of(cache_dir@).len() as int,
        ).contains("DiagnosticReports"@)),
        !is_under(file@, cache_dir@) ==> (r <==> components_of(file@).contains(
            "DiagnosticReports"@,
        )),
{
    crate::path::law_below(file@, cache_dir@);
    if is_under(file@, cache_dir@) {
        let rest = components_of(below(file@, cache_dir@));
        assert((components_of(cache_dir@) + rest).skip(components_of(cache_dir@).len() as int)
            =~= rest);
    }
}

/// What [`find_log_files`] gives: every file below the logs, at every depth, but
/// for crash reports.
pub proof fn law_find_log_files(
    entries: Vec<Entry>,
    cache_dir: &str,
    r: Vec<String>,
    path: Seq<char>,
)
    requires
        call_ensures(find_log_files, (&entries, cache_dir), r),
    ensures
        texts(r@).contains(path) <==> !is_report(path, cache_dir@) && exists|i: int|
            0 <= i < entries@.len() && (#[trigger] entries@[i]).is_file && entries@[i].path@
                == path,
        DEFAULT_DAYS == 30,
        DEFAULT_CONCURRENCY == 4,
{
    let wanted = a_log(cache_dir@);
    law_sorted_members(picked(entries@, wanted), path);
    law_only_wanted_entries(entries@, wanted, path);
    if exists|i: int|
        0 <= i < entries@.len() && wanted(#[trigger] entries@[i]) && entries@[i].path@ == path {
        let i = choose|i: int|
            0 <= i < entries@.len() && wanted(#[trigger] entries@[i]) && entries@[i].path@ == path;
        assert(entries@[i].is_file);
    }
    if !is_report(path, cache_dir@) && exists|i: int|
        0 <= i < entries@.len() && (#[trigger] entries@[i]).is_file && entries@[i].path@ == path {
        let i = choose|i: int|
            0 <= i < entries@.len() && (#[trigger] entries@[i]).is_file && entries@[i].path@
                == path;
        assert(wanted(entries@[i]));
    }
}

/// Each setting is the argument's, else the configured one, else its default.
pub proof fn law_resolve_settings(args: Args, cfg: CleanLogsConfig, home: Option<String>, r: Settings)
    requires
        call_ensures(resolve_settings, (&args, &cfg, &home), r),
    ensures
        args.cache_dir is Some ==> r.cache_dir@ == crate::config::expanded(args.cache_dir->0@, opt_text(home)),
        args.cache_dir is None && cfg.cache_dir is Some ==> r.cache_dir@ == crate::config::expanded(cfg.cache_dir->0@, opt_text(home)),
        args.cache_dir is None && cfg.cache_dir is None ==> r.cache_dir@ == home_path(opt_text(home), "Library/Logs"@),
        args.days is Some ==> r.days == args.days->0,
        args.days is None && cfg.days is Some ==> r.days == cfg.days->0,
        args.days is None && cfg.days is None ==> r.days == 30,
        args.concurrency is Some ==> r.concurrency == args.concurrency->0,
        args.concurrency is None && cfg.concurrency is Some ==> r.concurrency == cfg.concurrency->0,
        args.concurrency is None && cfg.concurrency is None ==> r.concurrency == 4,
{
}

} // verus!
