//! Deletes the caches of JetBrains products.
use super::listing::{
    law_only_wanted_entries, lemma_joined_is_one_to_one, listed_in, picked, Entry,
};
use crate::config::{
    choose_path, choose_u32, choose_usize, chosen, chosen_path, default_home_path, home_path,
    CleanJetBrainsConfig,
};
use crate::path::joined;
use crate::sorting::{law_sorted_members, sort_paths, sorted_paths};
use crate::text::{lemma_texts_push, opt_text, same, texts};
use vstd::prelude::*;

verus! {

pub const DEFAULT_DAYS: u32 = 30;

pub const DEFAULT_CONCURRENCY: usize = 4;

#[derive(Debug, Default)]
pub struct Args {
    /// The directory of the caches.
    pub cache_dir: Option<String>,
    /// Only delete products older than this many days.
    pub days: Option<u32>,
    /// How many deletions run at once.
    pub concurrency: Option<usize>,
}

/// What the command works on.
#[derive(Debug)]
pub struct Settings {
    pub cache_dir: String,
    pub days: u32,
    pub concurrency: usize,
}

pub fn resolve_settings(args: &Args, cfg: &CleanJetBrainsConfig, home: &Option<String>) -> (r: Settings)
    ensures
        r.cache_dir@ == chosen_path(
            opt_text(args.cache_dir),
            opt_text(cfg.cache_dir),
            home_path(opt_text(*home), "Library/Caches/JetBrains"@),
            opt_text(*home),
        ),
        r.days == chosen(args.days, cfg.days, DEFAULT_DAYS),
        r.concurrency == chosen(args.concurrency, cfg.concurrency, DEFAULT_CONCURRENCY),
{
    let fallback = default_home_path(home, "Library/Caches/JetBrains");
    Settings {
        cache_dir: choose_path(&args.cache_dir, &cfg.cache_dir, fallback.as_str(), home),
        days: choose_u32(args.days, cfg.days, DEFAULT_DAYS),
        concurrency: choose_usize(args.concurrency, cfg.concurrency, DEFAULT_CONCURRENCY),
    }
}

/// The store of installed products, which is no cache.
pub fn is_excluded_child(name: &str) -> (r: bool)
    ensures
        r == (name@ == "Toolbox"@),
{
    same(name, "Toolbox")
}

/// The cache of a product.
pub open spec fn a_product() -> spec_fn(Entry) -> bool {
    |e: Entry| e.is_dir && e.name@ != "Toolbox"@
}

/// The caches of the products, in order: the directories directly among the
/// caches.
pub fn find_product_dirs(entries: &Vec<Entry>) -> (r: Vec<String>)
    ensures
        texts(r@) == sorted_paths(picked(entries@, a_product())),
{
    let mut out: Vec<String> = Vec::new();
    let mut i: usize = 0;
    assert(entries@.take(0) =~= Seq::<Entry>::empty());
    assert(texts(out@) =~= picked(entries@.take(0), a_product()));
    while i < entries.len()
        invariant
            i <= entries@.len(),
            texts(out@) == picked(entries@.take(i as int), a_product()),
        decreases entries@.len() - i,
    {
        assert(entries@.take(i as int + 1).drop_last() =~= entries@.take(i as int));
        if entries[i].is_dir && !is_excluded_child(entries[i].name.as_str()) {
            let path = entries[i].path.clone();
            proof {
                lemma_texts_push(out@, path);
            }
            out.push(path);
        }
        i = i + 1;
    }
    assert(entries@.take(entries@.len() as int) =~= entries@);
    sort_paths(&out)
}

/// The store of installed products is never among the caches that are deleted.
pub proof fn law_toolbox_is_kept(cache_dir: Seq<char>, entries: Seq<Entry>)
    requires
        listed_in(entries, cache_dir),
    ensures
        !sorted_paths(picked(entries, a_product())).contains(joined(cache_dir, "Toolbox"@)),
{
    let store = joined(cache_dir, "Toolbox"@);
    law_sorted_members(picked(entries, a_product()), store);
    law_only_wanted_entries(entries, a_product(), store);
    if picked(entries, a_product()).contains(store) {
        let i = choose|i: int|
            0 <= i < entries.len() && a_product()(#[trigger] entries[i]) && entries[i].path@
                == store;
        reveal_strlit("Toolbox");
        lemma_joined_is_one_to_one(cache_dir, entries[i].name@, "Toolbox"@);
    }
}

/// What is taken: every directory among the caches but the one of installed
/// products.
pub proof fn law_find_product_dirs(entries: Vec<Entry>, r: Vec<String>, path: Seq<char>)
    requires
        call_ensures(find_product_dirs, (&entries,), r),
    ensures
        texts(r@).contains(path) <==> exists|i: int|
            0 <= i < entries@.len() && (#[trigger] entries@[i]).path@ == path && entries@[i].is_dir
                && entries@[i].name@ != "Toolbox"@,
{
    let list = picked(entries@, a_product());
    crate::sorting::law_sorted_members(list, path);
    law_only_wanted_entries(entries@, a_product(), path);
    if list.contains(path) {
        let i = choose|i: int|
            0 <= i < entries@.len() && a_product()(#[trigger] entries@[i]) && entries@[i].path@
                == path;
        assert(entries@[i].is_dir);
    }
    if exists|i: int|
        0 <= i < entries@.len() && (#[trigger] entries@[i]).path@ == path && entries@[i].is_dir
            && entries@[i].name@ != "Toolbox"@ {
        let i = choose|i: int|
            0 <= i < entries@.len() && (#[trigger] entries@[i]).path@ == path && entries@[i].is_dir
                && entries@[i].name@ != "Toolbox"@;
        assert(a_product()(entries@[i]));
    }
}

/// Each setting is the argument's, else the configured one, else its default.
pub proof fn law_resolve_settings(args: Args, cfg: CleanJetBrainsConfig, home: Option<String>, r: Settings)
    requires
        call_ensures(resolve_settings, (&args, &cfg, &home), r),
    ensures
        args.cache_dir is Some ==> r.cache_dir@ == crate::config::expanded(args.cache_dir->0@, opt_text(home)),
        args.cache_dir is None && cfg.cache_dir is Some ==> r.cache_dir@ == crate::config::expanded(cfg.cache_dir->0@, opt_text(home)),
        args.cache_dir is None && cfg.cache_dir is None ==> r.cache_dir@ == home_path(opt_text(home), "Library/Caches/JetBrains"@),
        args.days is Some ==> r.days == args.days->0,
        args.days is None && cfg.days is Some ==> r.days == cfg.days->0,
        args.days is None && cfg.days is None ==> r.days == 30,
        args.concurrency is Some ==> r.concurrency == args.concurrency->0,
        args.concurrency is None && cfg.concurrency is Some ==> r.concurrency == cfg.concurrency->0,
        args.concurrency is None && cfg.concurrency is None ==> r.concurrency == 4,
{
}

} // verus!
