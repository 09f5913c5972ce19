//! Deletes the browsers that Playwright downloaded.
use super::listing::{a_directory, picked, sorted_dirs, Entry};
use crate::config::{
    choose_path, choose_u32, choose_usize, chosen, chosen_path, default_home_path, home_path,
    CleanPlaywrightConfig,
};
use crate::sorting::sorted_paths;
use crate::text::{opt_text, texts};
use vstd::prelude::*;
use super::executor::{label_of, relative_label};

verus! {

pub const DEFAULT_DAYS: u32 = 30;

pub const DEFAULT_CONCURRENCY: usize = 4;

#[derive(Debug, Default)]
pub struct Args {
    /// The cache of Playwright.
    pub cache_dir: Option<String>,
    /// Only delete browsers older than this many days.
    pub days: Option<u32>,
    /// How many deletions run at once.
    pub concurrency: Option<usize>,
}

/// What the command works on.
#[derive(Debug)]
pub struct Settings {
    pub cache_dir: String,
    pub days: u32,
    pub concurrency: usize,
}

pub fn resolve_settings(args: &Args, cfg: &CleanPlaywrightConfig, home: &Option<String>) -> (r: Settings)
    ensures
        r.cache_dir@ == chosen_path(
            opt_text(args.cache_dir),
            opt_text(cfg.cache_dir),
            home_path(opt_text(*home), "Library/Caches/ms-playwright"@),
            opt_text(*home),
        ),
        r.days == chosen(args.days, cfg.days, DEFAULT_DAYS),
        r.concurrency == chosen(args.concurrency, cfg.concurrency, DEFAULT_CONCURRENCY),
{
    let fallback = default_home_path(home, "Library/Caches/ms-playwright");
    Settings {
        cache_dir: choose_path(&args.cache_dir, &cfg.cache_dir, fallback.as_str(), home),
        days: choose_u32(args.days, cfg.days, DEFAULT_DAYS),
        concurrency: choose_usize(args.concurrency, cfg.concurrency, DEFAULT_CONCURRENCY),
    }
}

/// The directories of the browsers, in order: those directly in the cache.
pub fn find_version_dirs(entries: &Vec<Entry>) -> (r: Vec<String>)
    ensures
        texts(r@) == sorted_paths(picked(entries@, a_directory())),
{
    sorted_dirs(entries)
}

/// A browser by where it is below the cache.
pub fn dir_label(dir: &str, cache_dir: &str) -> (r: String)
    ensures
        r@ == label_of(dir@, cache_dir@),
{
    relative_label(dir, cache_dir)
}

/// What is taken: every directory among the entries, whatever its name.
pub proof fn law_find_version_dirs(entries: Vec<Entry>, r: Vec<String>, path: Seq<char>)
    requires
        call_ensures(find_version_dirs, (&entries,), r),
    ensures
        texts(r@).contains(path) <==> exists|i: int|
            0 <= i < entries@.len() && (#[trigger] entries@[i]).path@ == path
                && entries@[i].is_dir,
{
    let list = picked(entries@, a_directory());
    crate::sorting::law_sorted_members(list, path);
    super::listing::law_only_wanted_entries(entries@, a_directory(), path);
    if list.contains(path) {
        let i = choose|i: int|
            0 <= i < entries@.len() && a_directory()(#[trigger] entries@[i]) && entries@[i].path@
                == path;
        assert(entries@[i].is_dir);
    }
    if exists|i: int|
        0 <= i < entries@.len() && (#[trigger] entries@[i]).path@ == path && entries@[i].is_dir {
        let i = choose|i: int|
            0 <= i < entries@.len() && (#[trigger] entries@[i]).path@ == path
                && entries@[i].is_dir;
        assert(a_directory()(entries@[i]));
    }
}

/// Each setting is the argument's, else the configured one, else its default.
pub proof fn law_resolve_settings(args: Args, cfg: CleanPlaywrightConfig, home: Option<String>, r: Settings)
    requires
        call_ensures(resolve_settings, (&args, &cfg, &home), r),
    ensures
        args.cache_dir is Some ==> r.cache_dir@ == crate::config::expanded(args.cache_dir->0@, opt_text(home)),
        args.cache_dir is None && cfg.cache_dir is Some ==> r.cache_dir@ == crate::config::expanded(cfg.cache_dir->0@, opt_text(home)),
        args.cache_dir is None && cfg.cache_dir is None ==> r.cache_dir@ == home_path(opt_text(home), "Library/Caches/ms-playwright"@),
        args.days is Some ==> r.days == args.days->0,
        args.days is None && cfg.days is Some ==> r.days == cfg.days->0,
        args.days is None && cfg.days is None ==> r.days == 30,
        args.concurrency is Some ==> r.concurrency == args.concurrency->0,
        args.concurrency is None && cfg.concurrency is Some ==> r.concurrency == cfg.concurrency->0,
        args.concurrency is None && cfg.concurrency is None ==> r.concurrency == 4,
{
}

} // verus!
