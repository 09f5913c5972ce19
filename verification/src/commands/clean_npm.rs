//! Deletes old entries of the cache of npm.

use super::listing::{missing, old_enough, old_paths, Found};
use super::{one_skipped, CommandSummary};
use crate::config::{
    choose_path, choose_u32, choose_usize, chosen, chosen_path, default_home_path, home_path,
    CleanNpmConfig,
};
use crate::path::{join, joined};
use crate::sorting::{path_set, sort_and_dedup};
use crate::text::{opt_text, texts};
use vstd::prelude::*;

verus! {

pub const DEFAULT_DAYS: u32 = 30;

pub const DEFAULT_CONCURRENCY: usize = 4;

#[derive(Debug, Default)]
pub struct Args {
    /// The cache of npm.
    pub cache_dir: Option<String>,
    /// Only delete entries older than this many days.
    pub days: Option<u32>,
    /// How many deletions run at once.
    pub concurrency: Option<usize>,
}

/// What the command works on.
#[derive(Debug)]
pub struct Settings {
    pub cache_dir: String,
    pub days: u32,
    pub concurrency: usize,
}

pub fn resolve_settings(args: &Args, cfg: &CleanNpmConfig, home: &Option<String>) -> (r: Settings)
    ensures
        r.cache_dir@ == chosen_path(
            opt_text(args.cache_dir),
            opt_text(cfg.cache_dir),
            home_path(opt_text(*home), ".npm/_cacache"@),
            opt_text(*home),
        ),
        r.days == chosen(args.days, cfg.days, DEFAULT_DAYS),
        r.concurrency == chosen(args.concurrency, cfg.concurrency, DEFAULT_CONCURRENCY),
{
    let fallback = default_home_path(home, ".npm/_cacache");
    Settings {
        cache_dir: choose_path(&args.cache_dir, &cfg.cache_dir, fallback.as_str(), home),
        days: choose_u32(args.days, cfg.days, DEFAULT_DAYS),
        concurrency: choose_usize(args.concurrency, cfg.concurrency, DEFAULT_CONCURRENCY),
    }
}

/// Where the cache keeps its content.
pub fn content_dir(cache_dir: &str) -> (r: String)
    ensures
        r@ == joined(cache_dir@, "content-v2"@),
{
    join(cache_dir, "content-v2")
}

/// Without the cache or its content the command is skipped.
pub fn nothing_found(cache_there: bool, content_there: bool) -> (r: Option<CommandSummary>)
    ensures
        r == if cache_there && content_there {
            None
        } else {
            Some(one_skipped())
        },
{
    missing(cache_there && content_there)
}

/// The files of the content that are old enough, in order, each once.
pub fn candidates(files: &Vec<Found>, now: u64, days: u32) -> (r: Vec<String>)
    ensures
        texts(r@) == path_set(old_paths(files@, now, days)),
{
    let old = old_enough(files, now, days);
    sort_and_dedup(&old)
}

/// What [`candidates`] takes: the files that changed more than so many days ago,
/// in order and each once.
pub proof fn law_candidates(files: Vec<Found>, now: u64, days: u32, r: Vec<String>)
    requires
        call_ensures(candidates, (&files, now, days), r),
    ensures
        forall|k: int|
            0 <= k < r@.len() ==> exists|i: int|
                0 <= i < files@.len() && (#[trigger] files@[i]).path@ == (#[trigger] r@[k])@ && (days
                    == 0 || (files@[i].mtime is Some && now - files@[i].mtime->0 > days * 86_400)),
        forall|i: int|
            0 <= i < files@.len() && (days == 0 || ((#[trigger] files@[i]).mtime is Some && now
                - files@[i].mtime->0 > days * 86_400)) ==> exists|k: int|
                0 <= k < r@.len() && crate::path::same_path((#[trigger] r@[k])@, files@[i].path@),
{
    let old = old_paths(files@, now, days);
    crate::sorting::law_path_set(old);
    assert(texts(r@).len() == r@.len());
    assert forall|k: int| 0 <= k < r@.len() implies exists|i: int|
        0 <= i < files@.len() && (#[trigger] files@[i]).path@ == (#[trigger] r@[k])@ && (days == 0
            || (files@[i].mtime is Some && now - files@[i].mtime->0 > days * 86_400)) by {
        assert(texts(r@)[k] == r@[k]@);
        assert(old.contains(path_set(old)[k]));
        super::listing::lemma_old_paths(files@, now, days, r@[k]@);
    }
    assert forall|i: int|
        0 <= i < files@.len() && (days == 0 || ((#[trigger] files@[i]).mtime is Some && now
            - files@[i].mtime->0 > days * 86_400)) implies exists|k: int|
        0 <= k < r@.len() && crate::path::same_path((#[trigger] r@[k])@, files@[i].path@) by {
        super::listing::lemma_old_paths(files@, now, days, files@[i].path@);
        let j = choose|j: int| 0 <= j < old.len() && old[j] == files@[i].path@;
        let k = choose|k: int|
            0 <= k < path_set(old).len() && crate::path::same_path(
                #[trigger] path_set(old)[k],
                old[j],
            );
        assert(texts(r@)[k] == r@[k]@);
    }
}

/// The content is below the cache, and what is taken where nothing is given.
pub proof fn law_npm_content(cache_dir: &str, r: String)
    requires
        call_ensures(content_dir, (cache_dir,), r),
    ensures
        r@ == joined(cache_dir@, "content-v2"@),
        DEFAULT_DAYS == 30,
        DEFAULT_CONCURRENCY == 4,
{
}

/// Each setting is the argument's, else the configured one, else its default.
pub proof fn law_resolve_settings(args: Args, cfg: CleanNpmConfig, home: Option<String>, r: Settings)
    requires
        call_ensures(resolve_settings, (&args, &cfg, &home), r),
    ensures
        args.cache_dir is Some ==> r.cache_dir@ == crate::config::expanded(args.cache_dir->0@, opt_text(home)),
        args.cache_dir is None && cfg.cache_dir is Some ==> r.cache_dir@ == crate::config::expanded(cfg.cache_dir->0@, opt_text(home)),
        args.cache_dir is None && cfg.cache_dir is None ==> r.cache_dir@ == home_path(opt_text(home), ".npm/_cacache"@),
        args.days is Some ==> r.days == args.days->0,
        args.days is None && cfg.days is Some ==> r.days == cfg.days->0,
        args.days is None && cfg.days is None ==> r.days == 30,
        args.concurrency is Some ==> r.concurrency == args.concurrency->0,
        args.concurrency is None && cfg.concurrency is Some ==> r.concurrency == cfg.concurrency->0,
        args.concurrency is None && cfg.concurrency is None ==> r.concurrency == 4,
{
}

} // verus!
