//! Deletes what is old in directories of temporary files.
use super::listing::Found;
use crate::config::{
    all_expanded, choose_u32, choose_usize, chosen, expand_tildes, CleanTmpConfig,
};
use crate::path::{is_same_path, same_path};
use crate::sorting::{law_sorted_members, path_set, sort_and_dedup};
use crate::text::{lemma_texts_push, opt_text, opt_texts, texts};
use crate::walk::{older, older_than_days};
use vstd::prelude::*;

verus! {

pub const DEFAULT_DAYS: u32 = 30;

pub const DEFAULT_CONCURRENCY: usize = 2;

#[derive(Debug, Default)]
pub struct Args {
    /// The directories to clean.
    pub roots: Vec<String>,
    /// Only delete what is older than this many days.
    pub days: Option<u32>,
    /// How many deletions run at once.
    pub concurrency: Option<usize>,
}

/// What the command works on.
#[derive(Debug)]
pub struct Settings {
    pub roots: Vec<String>,
    pub days: u32,
    pub concurrency: usize,
}

/// The directories to clean: those of the command line, else the configured ones,
/// else `/tmp`.
pub open spec fn tmp_roots(
    cli: Seq<Seq<char>>,
    configured: Option<Seq<Seq<char>>>,
    home: Option<Seq<char>>,
) -> Seq<Seq<char>> {
    if cli.len() > 0 {
        all_expanded(cli, home)
    } else {
        match configured {
            Some(list) => all_expanded(list, home),
            None => seq!["/tmp"@],
        }
    }
}

pub fn resolve_settings(args: &Args, cfg: &CleanTmpConfig, home: &Option<String>) -> (r: Settings)
    ensures
        texts(r.roots@) == tmp_roots(texts(args.roots@), opt_texts(cfg.roots), opt_text(*home)),
        r.days == chosen(args.days, cfg.days, DEFAULT_DAYS),
        r.concurrency == chosen(args.concurrency, cfg.concurrency, DEFAULT_CONCURRENCY),
{
    assert(texts(args.roots@).len() == args.roots@.len());
    let roots: Vec<String> = if args.roots.len() > 0 {
        expand_tildes(&args.roots, home)
    } else {
        match &cfg.roots {
            Some(list) => expand_tildes(list, home),
            None => {
                let list: Vec<String> = vec!["/tmp".to_string()];
                assert(texts(list@) =~= seq!["/tmp"@]);
                list
            },
        }
    };
    Settings {
        roots,
        days: choose_u32(args.days, cfg.days, DEFAULT_DAYS),
        concurrency: choose_usize(args.concurrency, cfg.concurrency, DEFAULT_CONCURRENCY),
    }
}

/// What a walk of one directory came to.
#[derive(Debug)]
pub struct Walked {
    pub root: String,
    pub found: Vec<Found>,
}

/// What is old enough below a directory, which is itself left alone.
pub open spec fn old_below(root: Seq<char>, found: Seq<Found>, now: u64, days: u32) -> Seq<Seq<char>>
    decreases found.len(),
{
    if found.len() == 0 {
        seq![]
    } else {
        let before = old_below(root, found.drop_last(), now, days);
        let last = found.last();
        if !same_path(last.path@, root) && older(last.mtime, now, days) {
            before.push(last.path@)
        } else {
            before
        }
    }
}

/// What is old enough below some directories, one after another.
pub open spec fn old_in(walked: Seq<Walked>, now: u64, days: u32) -> Seq<Seq<char>>
    decreases walked.len(),
{
    if walked.len() == 0 {
        seq![]
    } else {
        old_in(walked.drop_last(), now, days) + old_below(
            walked.last().root@,
            walked.last().found@,
            now,
            days,
        )
    }
}

fn below(root: &str, found: &Vec<Found>, now: u64, days: u32) -> (r: Vec<String>)
    ensures
        texts(r@) == old_below(root@, found@, now, days),
{
    let mut out: Vec<String> = Vec::new();
    let mut i: usize = 0;
    assert(found@.take(0) =~= Seq::<Found>::empty());
    assert(texts(out@) =~= old_below(root@, found@.take(0), now, days));
    while i < found.len()
        invariant
            i <= found@.len(),
            texts(out@) == old_below(root@, found@.take(i as int), now, days),
        decreases found@.len() - i,
    {
        assert(found@.take(i as int + 1).drop_last() =~= found@.take(i as int));
        if !is_same_path(found[i].path.as_str(), root) && older_than_days(
            found[i].mtime,
            now,
            days,
        ) {
            let path = found[i].path.clone();
            proof {
                lemma_texts_push(out@, path);
            }
            out.push(path);
        }
        i = i + 1;
    }
    assert(found@.take(found@.len() as int) =~= found@);
    out
}

/// What may be deleted, in order, each path once.
pub fn candidates(walked: &Vec<Walked>, now: u64, days: u32) -> (r: Vec<String>)
    ensures
        texts(r@) == path_set(old_in(walked@, now, days)),
{
    let mut out: Vec<String> = Vec::new();
    let mut i: usize = 0;
    assert(walked@.take(0) =~= Seq::<Walked>::empty());
    assert(texts(out@) =~= old_in(walked@.take(0), now, days));
    while i < walked.len()
        invariant
            i <= walked@.len(),
            texts(out@) == old_in(walked@.take(i as int), now, days),
        decreases walked@.len() - i,
    {
        assert(walked@.take(i as int + 1).drop_last() =~= walked@.take(i as int));
        let mut more = below(walked[i].root.as_str(), &walked[i].found, now, days);
        let ghost before = out@;
        let ghost added = more@;
        out.append(&mut more);
        assert(texts(out@) =~= texts(before) + texts(added));
        i = i + 1;
    }
    assert(walked@.take(walked@.len() as int) =~= walked@);
    sort_and_dedup(&out)
}

proof fn lemma_old_below(root: Seq<char>, found: Seq<Found>, now: u64, days: u32, path: Seq<char>)
    requires
        old_below(root, found, now, days).contains(path),
    ensures
        !same_path(path, root),
        exists|k: int|
            0 <= k < found.len() && (#[trigger] found[k]).path@ == path && older(
                found[k].mtime,
                now,
                days,
            ),
    decreases found.len(),
{
    let head = found.drop_last();
    let before = old_below(root, head, now, days);
    let out = old_below(root, found, now, days);
    let n = choose|n: int| 0 <= n < out.len() && out[n] == path;
    if n < before.len() {
        assert(before[n] == path);
        lemma_old_below(root, head, now, days, path);
        let k = choose|k: int|
            0 <= k < head.len() && (#[trigger] head[k]).path@ == path && older(
                head[k].mtime,
                now,
                days,
            );
        assert(found[k] == head[k]);
    } else {
        assert(found[found.len() - 1].path@ == path);
    }
}

proof fn lemma_old_in(walked: Seq<Walked>, now: u64, days: u32, path: Seq<char>)
    requires
        old_in(walked, now, days).contains(path),
    ensures
        exists|i: int|
            0 <= i < walked.len() && #[trigger] old_below(
                walked[i].root@,
                walked[i].found@,
                now,
                days,
            ).contains(path),
    decreases walked.len(),
{
    let head = walked.drop_last();
    let before = old_in(head, now, days);
    let last = walked.last();
    let more = old_below(last.root@, last.found@, now, days);
    let out = old_in(walked, now, days);
    let n = choose|n: int| 0 <= n < out.len() && out[n] == path;
    if n < before.len() {
        assert(before[n] == path);
        lemma_old_in(head, now, days, path);
        let i = choose|i: int|
            0 <= i < head.len() && #[trigger] old_below(
                head[i].root@,
                head[i].found@,
                now,
                days,
            ).contains(path);
        assert(walked[i] == head[i]);
        assert(old_below(walked[i].root@, walked[i].found@, now, days).contains(path));
    } else {
        assert(more[n - before.len()] == path);
        let i = walked.len() - 1;
        assert(old_below(walked[i].root@, walked[i].found@, now, days).contains(path));
    }
}

/// What may be deleted was found old in the walk of a directory, and is not
/// that directory.
pub proof fn law_roots_are_kept(walked: Seq<Walked>, now: u64, days: u32, path: Seq<char>)
    requires
        path_set(old_in(walked, now, days)).contains(path),
    ensures
        exists|i: int, k: int|
            0 <= i < walked.len() && 0 <= k < walked[i].found@.len() && !same_path(
                path,
                walked[i].root@,
            ) && (#[trigger] walked[i].found@[k]).path@ == path && older(
                walked[i].found@[k].mtime,
                now,
                days,
            ),
{
    law_sorted_members(old_in(walked, now, days), path);
    lemma_old_in(walked, now, days, path);
    let i = choose|i: int|
        0 <= i < walked.len() && #[trigger] old_below(
            walked[i].root@,
            walked[i].found@,
            now,
            days,
        ).contains(path);
    lemma_old_below(walked[i].root@, walked[i].found@, now, days, path);
    let found = walked[i].found@;
    let k = choose|k: int|
        0 <= k < found.len() && (#[trigger] found[k]).path@ == path && older(
            found[k].mtime,
            now,
            days,
        );
    assert(walked[i].found@[k].path@ == path);
}

/// What is taken below a directory: all that changed more than so many days ago,
/// but for the directory itself.
pub proof fn law_what_is_old_below(
    root: Seq<char>,
    found: Seq<Found>,
    one: Found,
    now: u64,
    days: u32,
)
    ensures
        old_below(root, Seq::empty(), now, days) == Seq::<Seq<char>>::empty(),
        old_below(root, found.push(one), now, days) == if (days == 0 || (one.mtime is Some && now
            - one.mtime->0 > days * 86_400)) && crate::path::components_of(one.path@)
            != crate::path::components_of(root) {
            old_below(root, found, now, days).push(one.path@)
        } else {
            old_below(root, found, now, days)
        },
{
    assert(found.push(one).drop_last() =~= found);
}

/// Directories are cleaned one after another, each by itself.
pub proof fn law_every_root(walked: Seq<Walked>, one: Walked, now: u64, days: u32)
    ensures
        old_in(Seq::empty(), now, days) == Seq::<Seq<char>>::empty(),
        old_in(walked.push(one), now, days) == old_in(walked, now, days) + old_below(
            one.root@,
            one.found@,
            now,
            days,
        ),
{
    assert(walked.push(one).drop_last() =~= walked);
}

/// What [`candidates`] takes is exactly what is old below the directories.
pub proof fn law_candidates(walked: Vec<Walked>, now: u64, days: u32, r: Vec<String>)
    requires
        call_ensures(candidates, (&walked, now, days), r),
    ensures
        forall|k: int|
            0 <= k < r@.len() ==> old_in(walked@, now, days).contains((#[trigger] r@[k])@),
        forall|j: int|
            0 <= j < old_in(walked@, now, days).len() ==> exists|k: int|
                0 <= k < r@.len() && same_path(
                    (#[trigger] r@[k])@,
                    #[trigger] old_in(walked@, now, days)[j],
                ),
{
    let old = old_in(walked@, now, days);
    crate::sorting::law_path_set(old);
    assert(texts(r@).len() == r@.len());
    assert forall|k: int| 0 <= k < r@.len() implies old.contains((#[trigger] r@[k])@) by {
        assert(texts(r@)[k] == r@[k]@);
        assert(old.contains(path_set(old)[k]));
    }
    assert forall|j: int| 0 <= j < old.len() implies exists|k: int|
        0 <= k < r@.len() && same_path((#[trigger] r@[k])@, #[trigger] old[j]) by {
        let k = choose|k: int|
            0 <= k < path_set(old).len() && same_path(#[trigger] path_set(old)[k], old[j]);
        assert(texts(r@)[k] == r@[k]@);
    }
}

/// The directories that are cleaned: those given, else those configured, else
/// `/tmp`.
pub proof fn law_tmp_roots(
    cli: Seq<Seq<char>>,
    configured: Option<Seq<Seq<char>>>,
    home: Option<Seq<char>>,
)
    ensures
        cli.len() > 0 ==> tmp_roots(cli, configured, home) == all_expanded(cli, home),
        cli.len() == 0 && configured is Some ==> tmp_roots(cli, configured, home) == all_expanded(
            configured->0,
            home,
        ),
        cli.len() == 0 && configured is None ==> tmp_roots(cli, configured, home) == seq!["/tmp"@],
        DEFAULT_DAYS == 30,
        DEFAULT_CONCURRENCY == 2,
{
}

/// Each setting is the argument's, else the configured one, else its default.
pub proof fn law_resolve_settings(args: Args, cfg: CleanTmpConfig, home: Option<String>, r: Settings)
    requires
        call_ensures(resolve_settings, (&args, &cfg, &home), r),
    ensures
        args.days is Some ==> r.days == args.days->0,
        args.days is None && cfg.days is Some ==> r.days == cfg.days->0,
        args.days is None && cfg.days is None ==> r.days == 30,
        args.concurrency is Some ==> r.concurrency == args.concurrency->0,
        args.concurrency is None && cfg.concurrency is Some ==> r.concurrency == cfg.concurrency->0,
        args.concurrency is None && cfg.concurrency is None ==> r.concurrency == 2,
{
}

} // verus!
