//! Deletes the build caches of Xcode projects.
use super::listing::{a_directory, picked, sorted_dirs, Entry};
use crate::config::{
    choose_path, choose_u32, choose_usize, chosen, chosen_path, default_home_path, home_path,
    CleanXcodeConfig,
};
use crate::sorting::sorted_paths;
use crate::text::{opt_text, texts};
use vstd::prelude::*;

verus! {

pub const DEFAULT_DAYS: u32 = 30;

pub const DEFAULT_CONCURRENCY: usize = 4;

#[derive(Debug, Default)]
pub struct Args {
    /// The directory of derived data.
    pub data_dir: Option<String>,
    /// Only delete projects older than this many days.
    pub days: Option<u32>,
    /// How many deletions run at once.
    pub concurrency: Option<usize>,
}

/// What the command works on.
#[derive(Debug)]
pub struct Settings {
    pub data_dir: String,
    pub days: u32,
    pub concurrency: usize,
}

pub fn resolve_settings(args: &Args, cfg: &CleanXcodeConfig, home: &Option<String>) -> (r: Settings)
    ensures
        r.data_dir@ == chosen_path(
            opt_text(args.data_dir),
            opt_text(cfg.data_dir),
            home_path(opt_text(*home), "Library/Developer/Xcode/DerivedData"@),
            opt_text(*home),
        ),
        r.days == chosen(args.days, cfg.days, DEFAULT_DAYS),
        r.concurrency == chosen(args.concurrency, cfg.concurrency, DEFAULT_CONCURRENCY),
{
    let fallback = default_home_path(home, "Library/Developer/Xcode/DerivedData");
    Settings {
        data_dir: choose_path(&args.data_dir, &cfg.data_dir, fallback.as_str(), home),
        days: choose_u32(args.days, cfg.days, DEFAULT_DAYS),
        concurrency: choose_usize(args.concurrency, cfg.concurrency, DEFAULT_CONCURRENCY),
    }
}

/// The directories of the projects, in order: those directly in the directory of
/// derived data.
pub fn find_project_dirs(entries: &Vec<Entry>) -> (r: Vec<String>)
    ensures
        texts(r@) == sorted_paths(picked(entries@, a_directory())),
{
    sorted_dirs(entries)
}

/// What is taken: every directory among the entries, whatever its name.
pub proof fn law_find_project_dirs(entries: Vec<Entry>, r: Vec<String>, path: Seq<char>)
    requires
        call_ensures(find_project_dirs, (&entries,), r),
    ensures
        texts(r@).contains(path) <==> exists|i: int|
            0 <= i < entries@.len() && (#[trigger] entries@[i]).path@ == path
                && entries@[i].is_dir,
{
    let list = picked(entries@, a_directory());
    crate::sorting::law_sorted_members(list, path);
    super::listing::law_only_wanted_entries(entries@, a_directory(), path);
    if list.contains(path) {
        let i = choose|i: int|
            0 <= i < entries@.len() && a_directory()(#[trigger] entries@[i]) && entries@[i].path@
                == path;
        assert(entries@[i].is_dir);
    }
    if exists|i: int|
        0 <= i < entries@.len() && (#[trigger] entries@[i]).path@ == path && entries@[i].is_dir {
        let i = choose|i: int|
            0 <= i < entries@.len() && (#[trigger] entries@[i]).path@ == path
                && entries@[i].is_dir;
        assert(a_directory()(entries@[i]));
    }
}

/// Each setting is the argument's, else the configured one, else its default.
pub proof fn law_resolve_settings(args: Args, cfg: CleanXcodeConfig, home: Option<String>, r: Settings)
    requires
        call_ensures(resolve_settings, (&args, &cfg, &home), r),
    ensures
        args.data_dir is Some ==> r.data_dir@ == crate::config::expanded(args.data_dir->0@, opt_text(home)),
        args.data_dir is None && cfg.data_dir is Some ==> r.data_dir@ == crate::config::expanded(cfg.data_dir->0@, opt_text(home)),
        args.data_dir is None && cfg.data_dir is None ==> r.data_dir@ == home_path(opt_text(home), "Library/Developer/Xcode/DerivedData"@),
        args.days is Some ==> r.days == args.days->0,
        args.days is None && cfg.days is Some ==> r.days == cfg.days->0,
        args.days is None && cfg.days is None ==> r.days == 30,
        args.concurrency is Some ==> r.concurrency == args.concurrency->0,
        args.concurrency is None && cfg.concurrency is Some ==> r.concurrency == cfg.concurrency->0,
        args.concurrency is None && cfg.concurrency is None ==> r.concurrency == 4,
{
}

} // verus!
