//! Deletes old versions from the local Maven repository.
use super::listing::Entry;
use crate::config::{
    choose_flag, choose_path, choose_text, choose_u32, choose_usize, chosen, chosen_path,
    default_home_path, flag, home_path, CleanM2Config,
};
use crate::path::{extension, extension_of, file_name, file_name_of, parent, parent_of};
use crate::search::{ends_with, ends_with_of};
use crate::sorting::{law_sorted_members, path_set, sort_and_dedup};
use crate::text::{lemma_texts_push, opt_text, same, texts};
use crate::ui::text_or_empty;
use vstd::prelude::*;

verus! {

pub const DEFAULT_DAYS: u32 = 60;

pub const DEFAULT_CONCURRENCY: usize = 8;

pub const DEFAULT_MARKER_EXTENSION: &'static str = "pom";

#[derive(Debug, Default)]
pub struct Args {
    /// The local repository.
    pub repo: Option<String>,
    /// Only delete versions older than this many days.
    pub days: Option<u32>,
    /// Only delete snapshots.
    pub snapshots_only: bool,
    /// How many deletions run at once.
    pub concurrency: Option<usize>,
    /// The extension of the files that mark a version.
    pub marker_extension: Option<String>,
}

/// What the command works on.
#[derive(Debug)]
pub struct Settings {
    pub repo: String,
    pub days: u32,
    pub snapshots_only: bool,
    pub concurrency: usize,
    pub marker_extension: String,
}

pub fn resolve_settings(args: &Args, cfg: &CleanM2Config, home: &Option<String>) -> (r: Settings)
    ensures
        r.repo@ == chosen_path(
            opt_text(args.repo),
            opt_text(cfg.repo),
            home_path(opt_text(*home), ".m2/repository"@),
            opt_text(*home),
        ),
        r.days == chosen(args.days, cfg.days, DEFAULT_DAYS),
        r.snapshots_only == flag(args.snapshots_only, cfg.snapshots_only),
        r.concurrency == chosen(args.concurrency, cfg.concurrency, DEFAULT_CONCURRENCY),
        r.marker_extension@ == chosen(
            opt_text(args.marker_extension),
            opt_text(cfg.marker_extension),
            DEFAULT_MARKER_EXTENSION@,
        ),
{
    let fallback = default_home_path(home, ".m2/repository");
    Settings {
        repo: choose_path(&args.repo, &cfg.repo, fallback.as_str(), home),
        days: choose_u32(args.days, cfg.days, DEFAULT_DAYS),
        snapshots_only: choose_flag(args.snapshots_only, cfg.snapshots_only),
        concurrency: choose_usize(args.concurrency, cfg.concurrency, DEFAULT_CONCURRENCY),
        marker_extension: choose_text(
            &args.marker_extension,
            &cfg.marker_extension,
            DEFAULT_MARKER_EXTENSION,
        ),
    }
}

/// The version that a file marks: the directory it is in, which is a snapshot
/// where only those are wanted.
pub open spec fn marked_version(file: Seq<char>, snapshots_only: bool, marker: Seq<char>) -> Option<
    Seq<char>,
> {
    match parent_of(file) {
        Some(dir) => if extension_of(file) == Some(marker) && (snapshots_only ==> ends_with_of(
            text_or_empty(file_name_of(dir)),
            "-SNAPSHOT"@,
        )) {
            Some(dir)
        } else {
            None
        },
        None => None,
    }
}

/// The versions that the files among some entries mark, in the order of the
/// entries.
pub open spec fn marked_versions(entries: Seq<Entry>, snapshots_only: bool, marker: Seq<char>) -> Seq<
    Seq<char>,
>
    decreases entries.len(),
{
    if entries.len() == 0 {
        seq![]
    } else {
        let before = marked_versions(entries.drop_last(), snapshots_only, marker);
        match marked_version(entries.last().path@, snapshots_only, marker) {
            Some(dir) if entries.last().is_file => before.push(dir),
            _ => before,
        }
    }
}

fn version_of(file: &str, snapshots_only: bool, marker: &str) -> (r: Option<String>)
    ensures
        opt_text(r) == marked_version(file@, snapshots_only, marker@),
{
    let marks = match extension(file) {
        Some(ext) => same(ext.as_str(), marker),
        None => false,
    };
    match parent(file) {
        None => None,
        Some(dir) => {
            if !marks {
                return None;
            }
            if snapshots_only {
                let name = match file_name(dir.as_str()) {
                    Some(name) => name,
                    None => "".to_string(),
                };
                if !ends_with(name.as_str(), "-SNAPSHOT") {
                    return None;
                }
            }
            Some(dir)
        },
    }
}

/// The versions that a walk of the repository came to, in order, each once.
pub fn find_version_dirs(entries: &Vec<Entry>, snapshots_only: bool, marker_extension: &str) -> (r:
    Vec<String>)
    ensures
        texts(r@) == path_set(marked_versions(entries@, snapshots_only, marker_extension@)),
{
    let mut out: Vec<String> = Vec::new();
    let mut i: usize = 0;
    assert(entries@.take(0) =~= Seq::<Entry>::empty());
    assert(texts(out@) =~= marked_versions(
        entries@.take(0),
        snapshots_only,
        marker_extension@,
    ));
    while i < entries.len()
        invariant
            i <= entries@.len(),
            texts(out@) == marked_versions(
                entries@.take(i as int),
                snapshots_only,
                marker_extension@,
            ),
        decreases entries@.len() - i,
    {
        assert(entries@.take(i as int + 1).drop_last() =~= entries@.take(i as int));
        if entries[i].is_file {
            match version_of(entries[i].path.as_str(), snapshots_only, marker_extension) {
                Some(dir) => {
                    proof {
                        lemma_texts_push(out@, dir);
                    }
                    out.push(dir);
                },
                None => {},
            }
        }
        i = i + 1;
    }
    assert(entries@.take(entries@.len() as int) =~= entries@);
    sort_and_dedup(&out)
}

proof fn lemma_marked_versions(
    entries: Seq<Entry>,
    snapshots_only: bool,
    marker: Seq<char>,
    dir: Seq<char>,
)
    requires
        marked_versions(entries, snapshots_only, marker).contains(dir),
    ensures
        exists|i: int|
            0 <= i < entries.len() && (#[trigger] entries[i]).is_file && marked_version(
                entries[i].path@,
                snapshots_only,
                marker,
            ) == Some(dir),
    decreases entries.len(),
{
    let head = entries.drop_last();
    let before = marked_versions(head, snapshots_only, marker);
    let out = marked_versions(entries, snapshots_only, marker);
    let k = choose|k: int| 0 <= k < out.len() && out[k] == dir;
    if k < before.len() {
        assert(before[k] == dir);
        lemma_marked_versions(head, snapshots_only, marker, dir);
        let i = choose|i: int|
            0 <= i < head.len() && (#[trigger] head[i]).is_file && marked_version(
                head[i].path@,
                snapshots_only,
                marker,
            ) == Some(dir);
        assert(entries[i] == head[i]);
    } else {
        assert(entries[entries.len() - 1].is_file);
    }
}

/// Where only snapshots are wanted, only snapshots are taken; and no directory
/// is taken without a marker file directly in it.
pub proof fn law_only_snapshots(
    entries: Seq<Entry>,
    snapshots_only: bool,
    marker: Seq<char>,
    dir: Seq<char>,
)
    requires
        path_set(marked_versions(entries, snapshots_only, marker)).contains(dir),
    ensures
        snapshots_only ==> ends_with_of(text_or_empty(file_name_of(dir)), "-SNAPSHOT"@),
        exists|i: int|
            0 <= i < entries.len() && (#[trigger] entries[i]).is_file && parent_of(entries[i].path@)
                == Some(dir) && extension_of(entries[i].path@) == Some(marker),
{
    law_sorted_members(marked_versions(entries, snapshots_only, marker), dir);
    lemma_marked_versions(entries, snapshots_only, marker, dir);
    let i = choose|i: int|
        0 <= i < entries.len() && (#[trigger] entries[i]).is_file && marked_version(
            entries[i].path@,
            snapshots_only,
            marker,
        ) == Some(dir);
    assert(parent_of(entries[i].path@) == Some(dir));
}

/// A directory is taken for each file directly in it that has the marker's
/// extension, and where only snapshots are wanted only if its name ends in
/// `-SNAPSHOT`.
pub proof fn law_marked_versions(
    entries: Seq<Entry>,
    entry: Entry,
    snapshots_only: bool,
    marker: Seq<char>,
)
    ensures
        marked_versions(Seq::empty(), snapshots_only, marker) == Seq::<Seq<char>>::empty(),
        ({
            let before = marked_versions(entries, snapshots_only, marker);
            let after = marked_versions(entries.push(entry), snapshots_only, marker);
            if entry.is_file && parent_of(entry.path@) is Some && extension_of(entry.path@) == Some(
                marker,
            ) && (!snapshots_only || (file_name_of(parent_of(entry.path@)->0) is Some
                && ends_with_of(file_name_of(parent_of(entry.path@)->0)->0, "-SNAPSHOT"@))) {
                after == before.push(parent_of(entry.path@)->0)
            } else {
                after == before
            }
        }),
{
    reveal_strlit("");
    reveal_strlit("-SNAPSHOT");
    assert(entries.push(entry).drop_last() =~= entries);
}

/// Every version that a file marks is found, in order and each once.
pub proof fn law_find_version_dirs(
    entries: Vec<Entry>,
    snapshots_only: bool,
    marker: &str,
    r: Vec<String>,
    i: int,
)
    requires
        call_ensures(find_version_dirs, (&entries, snapshots_only, marker), r),
        0 <= i < entries@.len(),
        entries@[i].is_file,
        parent_of(entries@[i].path@) is Some,
        extension_of(entries@[i].path@) == Some(marker@),
        !snapshots_only || (file_name_of(parent_of(entries@[i].path@)->0) is Some && ends_with_of(
            file_name_of(parent_of(entries@[i].path@)->0)->0,
            "-SNAPSHOT"@,
        )),
    ensures
        exists|k: int|
            0 <= k < r@.len() && crate::path::same_path(
                (#[trigger] r@[k])@,
                parent_of(entries@[i].path@)->0,
            ),
{
    let dirs = marked_versions(entries@, snapshots_only, marker@);
    let dir = parent_of(entries@[i].path@)->0;
    lemma_version_is_marked(entries@, snapshots_only, marker@, i);
    crate::sorting::law_path_set(dirs);
    let j = choose|j: int| 0 <= j < dirs.len() && dirs[j] == dir;
    let k = choose|k: int|
        0 <= k < path_set(dirs).len() && crate::path::same_path(
            #[trigger] path_set(dirs)[k],
            dirs[j],
        );
    assert(texts(r@)[k] == r@[k]@);
}

proof fn lemma_version_is_marked(
    entries: Seq<Entry>,
    snapshots_only: bool,
    marker: Seq<char>,
    i: int,
)
    requires
        0 <= i < entries.len(),
        entries[i].is_file,
        parent_of(entries[i].path@) is Some,
        extension_of(entries[i].path@) == Some(marker),
        !snapshots_only || (file_name_of(parent_of(entries[i].path@)->0) is Some && ends_with_of(
            file_name_of(parent_of(entries[i].path@)->0)->0,
            "-SNAPSHOT"@,
        )),
    ensures
        marked_versions(entries, snapshots_only, marker).contains(parent_of(entries[i].path@)->0),
    decreases entries.len(),
{
    let head = entries.drop_last();
    let dir = parent_of(entries[i].path@)->0;
    law_marked_versions(head, entries.last(), snapshots_only, marker);
    assert(head.push(entries.last()) =~= entries);
    let out = marked_versions(entries, snapshots_only, marker);
    if i < head.len() {
        lemma_version_is_marked(head, snapshots_only, marker, i);
        let before = marked_versions(head, snapshots_only, marker);
        let k = choose|k: int| 0 <= k < before.len() && before[k] == dir;
        assert(out[k] == dir);
    } else {
        assert(out[out.len() - 1] == dir);
    }
}

/// What is taken where nothing is given.
pub proof fn law_m2_defaults()
    ensures
        DEFAULT_DAYS == 60,
        DEFAULT_CONCURRENCY == 8,
        DEFAULT_MARKER_EXTENSION@ == "pom"@,
{
}

/// Each setting is the argument's, else the configured one, else its default.
pub proof fn law_resolve_settings(args: Args, cfg: CleanM2Config, home: Option<String>, r: Settings)
    requires
        call_ensures(resolve_settings, (&args, &cfg, &home), r),
    ensures
        args.repo is Some ==> r.repo@ == crate::config::expanded(args.repo->0@, opt_text(home)),
        args.repo is None && cfg.repo is Some ==> r.repo@ == crate::config::expanded(cfg.repo->0@, opt_text(home)),
        args.repo is None && cfg.repo is None ==> r.repo@ == home_path(opt_text(home), ".m2/repository"@),
        args.days is Some ==> r.days == args.days->0,
        args.days is None && cfg.days is Some ==> r.days == cfg.days->0,
        args.days is None && cfg.days is None ==> r.days == 60,
        args.concurrency is Some ==> r.concurrency == args.concurrency->0,
        args.concurrency is None && cfg.concurrency is Some ==> r.concurrency == cfg.concurrency->0,
        args.concurrency is None && cfg.concurrency is None ==> r.concurrency == 8,
        r.snapshots_only <==> args.snapshots_only || cfg.snapshots_only == Some(true),
        args.marker_extension is Some ==> r.marker_extension@ == args.marker_extension->0@,
        args.marker_extension is None && cfg.marker_extension is Some ==> r.marker_extension@ == cfg.marker_extension->0@,
        args.marker_extension is None && cfg.marker_extension is None ==> r.marker_extension@ == "pom"@,
{
}

} // verus!
