//! Deletes old versions from the module cache of Gradle.
use super::listing::Entry;
use crate::config::{
    choose_path, choose_u32, choose_usize, chosen, chosen_path, default_home_path, home_path,
    CleanGradleConfig,
};
use crate::path::{parent, parent_of};
use crate::sorting::{path_set, sort_and_dedup};
use crate::text::{lemma_texts_push, opt_text, texts};
use vstd::prelude::*;

verus! {

pub const DEFAULT_DAYS: u32 = 60;

pub const DEFAULT_CONCURRENCY: usize = 8;

#[derive(Debug, Default)]
pub struct Args {
    /// The module cache of Gradle.
    pub cache_dir: Option<String>,
    /// Only delete versions older than this many days.
    pub days: Option<u32>,
    /// How many deletions run at once.
    pub concurrency: Option<usize>,
}

/// What the command works on.
#[derive(Debug)]
pub struct Settings {
    pub cache_dir: String,
    pub days: u32,
    pub concurrency: usize,
}

pub fn resolve_settings(args: &Args, cfg: &CleanGradleConfig, home: &Option<String>) -> (r: Settings)
    ensures
        r.cache_dir@ == chosen_path(
            opt_text(args.cache_dir),
            opt_text(cfg.cache_dir),
            home_path(opt_text(*home), ".gradle/caches/modules-2/files-2.1"@),
            opt_text(*home),
        ),
        r.days == chosen(args.days, cfg.days, DEFAULT_DAYS),
        r.concurrency == chosen(args.concurrency, cfg.concurrency, DEFAULT_CONCURRENCY),
{
    let fallback = default_home_path(home, ".gradle/caches/modules-2/files-2.1");
    Settings {
        cache_dir: choose_path(&args.cache_dir, &cfg.cache_dir, fallback.as_str(), home),
        days: choose_u32(args.days, cfg.days, DEFAULT_DAYS),
        concurrency: choose_usize(args.concurrency, cfg.concurrency, DEFAULT_CONCURRENCY),
    }
}

/// How deep below the cache the files of modules are: group, artifact, version,
/// hash, file.
pub const FILE_DEPTH: usize = 5;

/// The version that a file belongs to: the directory above that of its hash.
pub open spec fn version_dir_of(file: Seq<char>) -> Option<Seq<char>> {
    match parent_of(file) {
        Some(hash_dir) => parent_of(hash_dir),
        None => None,
    }
}

/// The versions of the files among some entries, in the order of the entries.
pub open spec fn version_dirs(entries: Seq<Entry>) -> Seq<Seq<char>>
    decreases entries.len(),
{
    if entries.len() == 0 {
        seq![]
    } else {
        let before = version_dirs(entries.drop_last());
        match version_dir_of(entries.last().path@) {
            Some(dir) if entries.last().is_file => before.push(dir),
            _ => before,
        }
    }
}

fn version_dir(file: &str) -> (r: Option<String>)
    ensures
        opt_text(r) == version_dir_of(file@),
{
    match parent(file) {
        Some(hash_dir) => parent(hash_dir.as_str()),
        None => None,
    }
}

/// The versions of the files that a walk came to, in order, each once. The walk
/// is for entries at [`FILE_DEPTH`].
pub fn find_version_dirs(entries: &Vec<Entry>) -> (r: Vec<String>)
    ensures
        texts(r@) == path_set(version_dirs(entries@)),
{
    let mut out: Vec<String> = Vec::new();
    let mut i: usize = 0;
    assert(entries@.take(0) =~= Seq::<Entry>::empty());
    assert(texts(out@) =~= version_dirs(entries@.take(0)));
    while i < entries.len()
        invariant
            i <= entries@.len(),
            texts(out@) == version_dirs(entries@.take(i as int)),
        decreases entries@.len() - i,
    {
        assert(entries@.take(i as int + 1).drop_last() =~= entries@.take(i as int));
        if entries[i].is_file {
            match version_dir(entries[i].path.as_str()) {
                Some(dir) => {
                    proof {
                        lemma_texts_push(out@, dir);
                    }
                    out.push(dir);
                },
                None => {},
            }
        }
        i = i + 1;
    }
    assert(entries@.take(entries@.len() as int) =~= entries@);
    sort_and_dedup(&out)
}

/// What [`find_version_dirs`] gives: for each file at the depth of module files
/// the directory two levels above it, in order and each once, and nothing for
/// what is no file.
pub proof fn law_find_version_dirs(entries: Vec<Entry>, r: Vec<String>)
    requires
        call_ensures(find_version_dirs, (&entries,), r),
    ensures
        forall|k: int|
            0 <= k < r@.len() ==> exists|i: int|
                0 <= i < entries@.len() && (#[trigger] entries@[i]).is_file && grandparent(
                    entries@[i].path@,
                    (#[trigger] r@[k])@,
                ),
        forall|i: int|
            0 <= i < entries@.len() && (#[trigger] entries@[i]).is_file && version_dir_of(
                entries@[i].path@,
            ) is Some ==> exists|k: int|
                0 <= k < r@.len() && crate::path::same_path(
                    (#[trigger] r@[k])@,
                    version_dir_of(entries@[i].path@)->0,
                ),
{
    let dirs = version_dirs(entries@);
    crate::sorting::law_path_set(dirs);
    assert(texts(r@).len() == r@.len());
    assert forall|k: int| 0 <= k < r@.len() implies exists|i: int|
        0 <= i < entries@.len() && (#[trigger] entries@[i]).is_file && grandparent(
            entries@[i].path@,
            (#[trigger] r@[k])@,
        ) by {
        assert(texts(r@)[k] == r@[k]@);
        assert(dirs.contains(path_set(dirs)[k]));
        lemma_version_dirs(entries@, r@[k]@);
    }
    assert forall|i: int|
        0 <= i < entries@.len() && (#[trigger] entries@[i]).is_file && version_dir_of(
            entries@[i].path@,
        ) is Some implies exists|k: int|
        0 <= k < r@.len() && crate::path::same_path(
            (#[trigger] r@[k])@,
            version_dir_of(entries@[i].path@)->0,
        ) by {
        let dir = version_dir_of(entries@[i].path@)->0;
        assert(grandparent(entries@[i].path@, dir));
        lemma_version_dirs(entries@, dir);
        let j = choose|j: int| 0 <= j < dirs.len() && dirs[j] == dir;
        let k = choose|k: int|
            0 <= k < path_set(dirs).len() && crate::path::same_path(
                #[trigger] path_set(dirs)[k],
                dirs[j],
            );
        assert(texts(r@)[k] == r@[k]@);
    }
}

/// `dir` is two levels above `file`.
pub open spec fn grandparent(file: Seq<char>, dir: Seq<char>) -> bool {
    parent_of(file) matches Some(middle) && parent_of(middle) == Some(dir)
}

proof fn lemma_version_dirs(entries: Seq<Entry>, dir: Seq<char>)
    ensures
        version_dirs(entries).contains(dir) <==> exists|i: int|
            0 <= i < entries.len() && (#[trigger] entries[i]).is_file && grandparent(
                entries[i].path@,
                dir,
            ),
    decreases entries.len(),
{
    if entries.len() > 0 {
        let head = entries.drop_last();
        let last = entries.last();
        lemma_version_dirs(head, dir);
        let before = version_dirs(head);
        let out = version_dirs(entries);
        assert(forall|i: int| 0 <= i < head.len() ==> #[trigger] head[i] == entries[i]);
        assert(entries[entries.len() - 1] == last);
        if out.contains(dir) {
            let k = choose|k: int| 0 <= k < out.len() && out[k] == dir;
            if k < before.len() {
                assert(before[k] == dir);
                let i = choose|i: int|
                    0 <= i < head.len() && (#[trigger] head[i]).is_file && grandparent(
                        head[i].path@,
                        dir,
                    );
                assert(entries[i].is_file);
            } else {
                assert(grandparent(last.path@, dir));
            }
        }
        if before.contains(dir) {
            let k = choose|k: int| 0 <= k < before.len() && before[k] == dir;
            assert(out[k] == dir);
        }
        if last.is_file && grandparent(last.path@, dir) {
            assert(out[out.len() - 1] == dir);
        }
        if exists|i: int|
            0 <= i < entries.len() && (#[trigger] entries[i]).is_file && grandparent(
                entries[i].path@,
                dir,
            ) {
            let i = choose|i: int|
                0 <= i < entries.len() && (#[trigger] entries[i]).is_file && grandparent(
                    entries[i].path@,
                    dir,
                );
            if i < head.len() {
                assert(head[i].is_file);
                assert(before.contains(dir));
            }
        }
    }
}

/// What is taken where nothing is given.
pub proof fn law_gradle_defaults(home: Option<Seq<char>>)
    ensures
        DEFAULT_DAYS == 60,
        DEFAULT_CONCURRENCY == 8,
        FILE_DEPTH == 5,
{
}

/// Each setting is the argument's, else the configured one, else its default.
pub proof fn law_resolve_settings(args: Args, cfg: CleanGradleConfig, home: Option<String>, r: Settings)
    requires
        call_ensures(resolve_settings, (&args, &cfg, &home), r),
    ensures
        args.cache_dir is Some ==> r.cache_dir@ == crate::config::expanded(args.cache_dir->0@, opt_text(home)),
        args.cache_dir is None && cfg.cache_dir is Some ==> r.cache_dir@ == crate::config::expanded(cfg.cache_dir->0@, opt_text(home)),
        args.cache_dir is None && cfg.cache_dir is None ==> r.cache_dir@ == home_path(opt_text(home), ".gradle/caches/modules-2/files-2.1"@),
        args.days is Some ==> r.days == args.days->0,
        args.days is None && cfg.days is Some ==> r.days == cfg.days->0,
        args.days is None && cfg.days is None ==> r.days == 60,
        args.concurrency is Some ==> r.concurrency == args.concurrency->0,
        args.concurrency is None && cfg.concurrency is Some ==> r.concurrency == cfg.concurrency->0,
        args.concurrency is None && cfg.concurrency is None ==> r.concurrency == 8,
{
}

} // verus!
