//! Aggressive maintenance of every Git repository below the roots.
use super::all::first_unknown;
use super::{summary, CommandSummary};
use crate::bytes::{lossy_text, text_of, utf8_text};
use crate::config::{
    choose_usize, chosen, no_roots_message, resolve_roots, roots_of, GitMaintenanceConfig,
    GitMaintenanceOverride,
};
use crate::counting::{count_texts, counted};
use crate::number::{decimal, decimal_of};
use crate::path::{
    components_of, ends_in, file_name, is_absolute, is_absolute_text, is_same_path,
    join, joined, parent, parent_of, same_path, Parsed,
};
use crate::process::{Invocation, Reply};
use crate::search::{starts_with_of, strip_prefix};
use crate::sizes::{format_bytes, human_size};
use crate::sorting::{path_set, sort_and_dedup};
use crate::split::{join_of, lines, lines_of, words, words_of};
use crate::text::{
    contains_text, lemma_texts_push, opt_text, opt_texts, texts, trim, trim_of,
};
use crate::ui::{
    char_count, duration_text, failure_detail, format_duration, items_view, nonempty,
    success_detail, Detail, ItemDetail, TreeItem,
};
use crate::commands::executor::{count_ok, ok_count, wrapping_sum};
use vstd::prelude::*;
use vstd::utf8::{decode_utf8, valid_utf8};

verus! {

pub const DEFAULT_DEPTH: usize = 3;

pub const DEFAULT_CONCURRENCY: usize = 8;

pub const DEFAULT_SUBMODULES: bool = true;

#[derive(Debug, Default)]
pub struct Args {
    /// Roots to search for repositories.
    pub roots: Vec<String>,
    /// How deep repositories are searched for.
    pub depth: Option<usize>,
    /// How many repositories are maintained at once.
    pub concurrency: Option<usize>,
    /// Leave submodules out.
    pub no_submodules: bool,
    /// Check each repository after its maintenance.
    pub fsck: bool,
}

// ---------------------------------------------------------------------------
// Steps
// ---------------------------------------------------------------------------

/// The names of the maintenance steps, in the order they run.
pub open spec fn maintenance_names() -> Seq<Seq<char>> {
    seq![
        "pack-refs"@,
        "reflog-expire"@,
        "rerere-gc"@,
        "worktree-prune"@,
        "repack"@,
        "prune"@,
        "commit-graph"@,
    ]
}

/// What each maintenance step hands to Git.
pub open spec fn maintenance_args(step: int) -> Seq<Seq<char>> {
    if step == 0 {
        seq!["pack-refs"@, "--all"@, "--prune"@]
    } else if step == 1 {
        seq!["reflog"@, "expire"@, "--all"@, "--expire-unreachable=1.week.ago"@]
    } else if step == 2 {
        seq!["rerere"@, "gc"@]
    } else if step == 3 {
        seq!["worktree"@, "prune"@]
    } else if step == 4 {
        seq!["repack"@, "-Adf"@, "--depth=100"@, "--window=250"@]
    } else if step == 5 {
        seq!["prune"@, "--expire=1.week.ago"@]
    } else {
        seq!["commit-graph"@, "write"@, "--reachable"@, "--changed-paths"@]
    }
}

pub fn maintenance_steps() -> (r: Vec<String>)
    ensures
        texts(r@) == maintenance_names(),
        r@.len() == 7,
{
    let out: Vec<String> = vec![
        "pack-refs".to_string(),
        "reflog-expire".to_string(),
        "rerere-gc".to_string(),
        "worktree-prune".to_string(),
        "repack".to_string(),
        "prune".to_string(),
        "commit-graph".to_string(),
    ];
    assert(texts(out@) =~= maintenance_names());
    out
}

/// How Git is run for a step in a repository.
pub fn step_invocation(repo: &str, step: usize) -> (r: Invocation)
    requires
        step < 7,
    ensures
        r.runs("git"@, seq!["-C"@, repo@] + maintenance_args(step as int)),
{
    let git = Invocation::new("git").arg("-C").arg(repo);
    let r = if step == 0 {
        git.arg("pack-refs").arg("--all").arg("--prune")
    } else if step == 1 {
        git.arg("reflog").arg("expire").arg("--all").arg("--expire-unreachable=1.week.ago")
    } else if step == 2 {
        git.arg("rerere").arg("gc")
    } else if step == 3 {
        git.arg("worktree").arg("prune")
    } else if step == 4 {
        git.arg("repack").arg("-Adf").arg("--depth=100").arg("--window=250")
    } else if step == 5 {
        git.arg("prune").arg("--expire=1.week.ago")
    } else {
        git.arg("commit-graph").arg("write").arg("--reachable").arg("--changed-paths")
    };
    assert(texts(r.args@) =~= seq!["-C"@, repo@] + maintenance_args(step as int));
    r
}

/// The first step at or after `from` that is not left out; the number of steps
/// where there is none.
pub open spec fn step_from(from: int, skip: Seq<Seq<char>>) -> int
    decreases 7 - from,
{
    if from >= 7 || !skip.contains(maintenance_names()[from]) {
        from
    } else {
        step_from(from + 1, skip)
    }
}

/// The next step that is not left out, if there is one.
pub fn next_step(from: usize, skip: &Vec<String>) -> (r: Option<usize>)
    requires
        from <= 7,
    ensures
        match r {
            Some(step) => from <= step < 7 && step == step_from(from as int, texts(skip@))
                && !texts(skip@).contains(maintenance_names()[step as int]),
            None => step_from(from as int, texts(skip@)) == 7,
        },
{
    let names = maintenance_steps();
    let mut i: usize = from;
    while i < 7
        invariant
            from <= i <= 7,
            names@.len() == 7,
            texts(names@) == maintenance_names(),
            step_from(from as int, texts(skip@)) == step_from(i as int, texts(skip@)),
        decreases 7 - i,
    {
        assert(texts(names@)[i as int] == names@[i as int]@);
        if !contains_text(skip, names[i].as_str()) {
            return Some(i);
        }
        i = i + 1;
    }
    None
}

/// A step that is left out never runs, and none is left out that is not named.
pub proof fn law_steps_run_in_order(from: int, skip: Seq<Seq<char>>)
    requires
        0 <= from <= 7,
    ensures
        from <= step_from(from, skip) <= 7,
        forall|i: int|
            from <= i < step_from(from, skip) ==> skip.contains(
                #[trigger] maintenance_names()[i],
            ),
        step_from(from, skip) < 7 ==> !skip.contains(maintenance_names()[step_from(from, skip)]),
    decreases 7 - from,
{
    if from < 7 && skip.contains(maintenance_names()[from]) {
        law_steps_run_in_order(from + 1, skip);
    }
}

// ---------------------------------------------------------------------------
// Overrides
// ---------------------------------------------------------------------------

/// The first override that names a step that does not exist, and the step.
pub open spec fn bad_override(overrides: Seq<GitMaintenanceOverride>) -> Option<
    (Seq<char>, Seq<char>),
>
    decreases overrides.len(),
{
    if overrides.len() == 0 {
        None
    } else {
        match first_unknown(texts(overrides[0].skip_steps@), maintenance_names()) {
            Some(step) => Some((overrides[0].repo@, step)),
            None => bad_override(overrides.drop_first()),
        }
    }
}

pub open spec fn bad_override_message(repo: Seq<char>, step: Seq<char>) -> Seq<char> {
    "unknown step in git_maintenance.overrides for `"@ + repo + "`: "@ + step + " (valid: "@
        + join_of(maintenance_names(), ", "@) + ")"@
}

fn unknown_step(names: &Vec<String>) -> (r: Option<usize>)
    ensures
        match r {
            Some(i) => i < names@.len() && first_unknown(texts(names@), maintenance_names()) == Some(
                names@[i as int]@,
            ),
            None => first_unknown(texts(names@), maintenance_names()) is None,
        },
{
    let known = maintenance_steps();
    let ghost all = texts(names@);
    let mut i: usize = 0;
    assert(all.skip(0) =~= all);
    while i < names.len()
        invariant
            i <= names@.len(),
            all == texts(names@),
            texts(known@) == maintenance_names(),
            first_unknown(all, maintenance_names()) == first_unknown(
                all.skip(i as int),
                maintenance_names(),
            ),
        decreases names@.len() - i,
    {
        assert(all.skip(i as int)[0] == names@[i as int]@);
        assert(all.skip(i as int).drop_first() =~= all.skip(i as int + 1));
        if !contains_text(&known, names[i].as_str()) {
            return Some(i);
        }
        i = i + 1;
    }
    None
}

/// Rejects an override that names a step that does not exist.
pub fn validate_overrides(overrides: &Vec<GitMaintenanceOverride>) -> (r: Result<(), String>)
    ensures
        match r {
            Ok(_) => bad_override(overrides@) is None,
            Err(message) => bad_override(overrides@) matches Some((repo, step)) && message@
                == bad_override_message(repo, step),
        },
{
    let mut i: usize = 0;
    assert(overrides@.skip(0) =~= overrides@);
    while i < overrides.len()
        invariant
            i <= overrides@.len(),
            bad_override(overrides@) == bad_override(overrides@.skip(i as int)),
        decreases overrides@.len() - i,
    {
        assert(overrides@.skip(i as int)[0] == overrides@[i as int]);
        assert(overrides@.skip(i as int).drop_first() =~= overrides@.skip(i as int + 1));
        match unknown_step(&overrides[i].skip_steps) {
            Some(k) => {
                let mut message = "unknown step in git_maintenance.overrides for `".to_string();
                message.append(overrides[i].repo.as_str());
                message.append("`: ");
                message.append(overrides[i].skip_steps[k].as_str());
                message.append(" (valid: ");
                let known = maintenance_steps();
                message.append(crate::split::join(&known, ", ").as_str());
                message.append(")");
                return Err(message);
            },
            None => {},
        }
        i = i + 1;
    }
    Ok(())
}

/// The last components of the repository's path are those of the suffix. An
/// empty suffix matches nothing.
pub open spec fn suffix_matches(repo: Seq<char>, suffix: Seq<char>) -> bool {
    components_of(suffix).len() > 0 && ends_in(repo, suffix)
}

pub fn matches_suffix(repo: &str, suffix: &str) -> (r: bool)
    ensures
        r == suffix_matches(repo@, suffix@),
{
    let parsed = Parsed::new(suffix);
    parsed.count() > 0 && crate::path::ends_with(repo, suffix)
}

/// The list with a text at its end, unless it holds the text.
pub open spec fn added(list: Seq<Seq<char>>, s: Seq<char>) -> Seq<Seq<char>> {
    if list.contains(s) {
        list
    } else {
        list.push(s)
    }
}

pub open spec fn all_added(list: Seq<Seq<char>>, more: Seq<Seq<char>>) -> Seq<Seq<char>>
    decreases more.len(),
{
    if more.len() == 0 {
        list
    } else {
        added(all_added(list, more.drop_last()), more.last())
    }
}

/// The steps that the overrides leave out for a repository, each once.
pub open spec fn skipped_for(repo: Seq<char>, overrides: Seq<GitMaintenanceOverride>) -> Seq<
    Seq<char>,
>
    decreases overrides.len(),
{
    if overrides.len() == 0 {
        seq![]
    } else {
        let before = skipped_for(repo, overrides.drop_last());
        let last = overrides.last();
        if suffix_matches(repo, last.repo@) {
            all_added(before, texts(last.skip_steps@))
        } else {
            before
        }
    }
}

proof fn lemma_all_added(list: Seq<Seq<char>>, more: Seq<Seq<char>>, s: Seq<char>)
    ensures
        all_added(list, more).contains(s) <==> list.contains(s) || more.contains(s),
        list.no_duplicates() ==> all_added(list, more).no_duplicates(),
    decreases more.len(),
{
    if more.len() > 0 {
        let head = more.drop_last();
        lemma_all_added(list, head, s);
        let before = all_added(list, head);
        let out = all_added(list, more);
        if more.contains(s) && s != more.last() {
            let k = choose|k: int| 0 <= k < more.len() && more[k] == s;
            assert(head[k] == s);
        }
        if head.contains(s) {
            let k = choose|k: int| 0 <= k < head.len() && head[k] == s;
            assert(more[k] == s);
        }
        if s == more.last() {
            assert(more[more.len() - 1] == s);
        }
        if !before.contains(more.last()) {
            if before.contains(s) {
                let k = choose|k: int| 0 <= k < before.len() && before[k] == s;
                assert(out[k] == s);
            }
            if s == more.last() {
                assert(out[out.len() - 1] == s);
            }
            if out.contains(s) && s != more.last() {
                let k = choose|k: int| 0 <= k < out.len() && out[k] == s;
                assert(before[k] == s);
            }
        }
    }
}

/// A step is left out for a repository exactly where an override that matches
/// the repository names it.
pub proof fn law_skipped_steps(
    repo: Seq<char>,
    overrides: Seq<GitMaintenanceOverride>,
    step: Seq<char>,
)
    ensures
        skipped_for(repo, overrides).contains(step) <==> exists|i: int|
            0 <= i < overrides.len() && suffix_matches(repo, (#[trigger] overrides[i]).repo@)
                && texts(overrides[i].skip_steps@).contains(step),
        skipped_for(repo, overrides).no_duplicates(),
    decreases overrides.len(),
{
    if overrides.len() > 0 {
        let head = overrides.drop_last();
        let last = overrides.last();
        law_skipped_steps(repo, head, step);
        lemma_all_added(skipped_for(repo, head), texts(last.skip_steps@), step);
        if skipped_for(repo, head).contains(step) {
            let i = choose|i: int|
                0 <= i < head.len() && suffix_matches(repo, (#[trigger] head[i]).repo@) && texts(
                    head[i].skip_steps@,
                ).contains(step);
            assert(overrides[i] == head[i]);
        }
        if suffix_matches(repo, last.repo@) && texts(last.skip_steps@).contains(step) {
            assert(overrides[overrides.len() - 1] == last);
        }
        if exists|i: int|
            0 <= i < overrides.len() && suffix_matches(repo, (#[trigger] overrides[i]).repo@)
                && texts(overrides[i].skip_steps@).contains(step) {
            let i = choose|i: int|
                0 <= i < overrides.len() && suffix_matches(repo, (#[trigger] overrides[i]).repo@)
                    && texts(overrides[i].skip_steps@).contains(step);
            if i < head.len() {
                assert(head[i] == overrides[i]);
            }
        }
    }
}

/// The steps that the overrides leave out for a repository.
pub fn skip_steps_for(repo: &str, overrides: &Vec<GitMaintenanceOverride>) -> (r: Vec<String>)
    ensures
        texts(r@) == skipped_for(repo@, overrides@),
{
    let mut out: Vec<String> = Vec::new();
    let mut i: usize = 0;
    assert(overrides@.take(0) =~= Seq::<GitMaintenanceOverride>::empty());
    assert(texts(out@) =~= skipped_for(repo@, overrides@.take(0)));
    while i < overrides.len()
        invariant
            i <= overrides@.len(),
            texts(out@) == skipped_for(repo@, overrides@.take(i as int)),
        decreases overrides@.len() - i,
    {
        assert(overrides@.take(i as int + 1).drop_last() =~= overrides@.take(i as int));
        if matches_suffix(repo, overrides[i].repo.as_str()) {
            let ghost before = texts(out@);
            let ghost more = texts(overrides@[i as int].skip_steps@);
            let mut k: usize = 0;
            assert(more.take(0) =~= Seq::<Seq<char>>::empty());
            while k < overrides[i].skip_steps.len()
                invariant
                    i < overrides@.len(),
                    k <= overrides@[i as int].skip_steps@.len(),
                    more == texts(overrides@[i as int].skip_steps@),
                    texts(out@) == all_added(before, more.take(k as int)),
                decreases overrides@[i as int].skip_steps@.len() - k,
            {
                let step = overrides[i].skip_steps[k].clone();
                proof {
                    assert(more.take(k as int + 1).drop_last() =~= more.take(k as int));
                    assert(more.take(k as int + 1).last() == step@);
                    lemma_texts_push(out@, step);
                }
                if !contains_text(&out, step.as_str()) {
                    out.push(step);
                }
                k = k + 1;
            }
            assert(more.take(more.len() as int) =~= more);
        }
        i = i + 1;
    }
    assert(overrides@.take(overrides@.len() as int) =~= overrides@);
    out
}

/// The steps that are left out, in the order of the steps.
pub open spec fn skipped_in_order(skip: Seq<Seq<char>>) -> Seq<Seq<char>> {
    maintenance_names().filter(|name: Seq<char>| skip.contains(name))
}

pub fn ordered_skipped(skip: &Vec<String>) -> (r: Vec<String>)
    ensures
        texts(r@) == skipped_in_order(texts(skip@)),
{
    let names = maintenance_steps();
    let ghost all = maintenance_names();
    let ghost keep = |name: Seq<char>| texts(skip@).contains(name);
    let mut out: Vec<String> = Vec::new();
    let mut i: usize = 0;
    proof {
        reveal(Seq::filter);
        assert(all.take(0) =~= Seq::<Seq<char>>::empty());
        assert(texts(out@) =~= all.take(0).filter(keep));
    }
    while i < names.len()
        invariant
            i <= names@.len(),
            names@.len() == 7,
            all == maintenance_names(),
            all == texts(names@),
            keep == (|name: Seq<char>| texts(skip@).contains(name)),
            texts(out@) == all.take(i as int).filter(keep),
        decreases names@.len() - i,
    {
        proof {
            reveal(Seq::filter);
            assert(all.take(i as int + 1).drop_last() =~= all.take(i as int));
            assert(all[i as int] == names@[i as int]@);
        }
        if contains_text(skip, names[i].as_str()) {
            let name = names[i].clone();
            proof {
                lemma_texts_push(out@, name);
            }
            out.push(name);
        }
        i = i + 1;
    }
    assert(all.take(7) =~= all);
    out
}

// ---------------------------------------------------------------------------
// Settings
// ---------------------------------------------------------------------------

/// What the command works on.
#[derive(Debug)]
pub struct Settings {
    pub depth: usize,
    pub concurrency: usize,
    pub submodules: bool,
    pub fsck: bool,
    pub roots: Vec<String>,
}

pub open spec fn configured_overrides(cfg: GitMaintenanceConfig) -> Seq<GitMaintenanceOverride> {
    match cfg.overrides {
        Some(list) => list@,
        None => seq![],
    }
}

/// Resolves the settings. Missing roots are an error, and so is an override
/// that names a step that does not exist.
pub fn resolve_settings(
    args: &Args,
    cfg: &GitMaintenanceConfig,
    global_roots: &Option<Vec<String>>,
    home: &Option<String>,
) -> (r: Result<Settings, String>)
    ensures
        ({
            let roots = roots_of(
                texts(args.roots@),
                opt_texts(cfg.roots),
                opt_texts(*global_roots),
                opt_text(*home),
            );
            let bad = bad_override(configured_overrides(*cfg));
            match r {
                Ok(s) => {
                    &&& roots == Some(texts(s.roots@))
                    &&& bad is None
                    &&& s.depth == chosen(args.depth, cfg.depth, DEFAULT_DEPTH)
                    &&& s.concurrency == chosen(
                        args.concurrency,
                        cfg.concurrency,
                        DEFAULT_CONCURRENCY,
                    )
                    &&& s.submodules == (!args.no_submodules && cfg.submodules != Some(false))
                    &&& s.fsck == args.fsck
                },
                Err(message) => if roots is None {
                    message@ == no_roots_message("git_maintenance"@)
                } else {
                    bad matches Some((repo, step)) && message@ == bad_override_message(repo, step)
                },
            }
        }),
{
    let roots = match resolve_roots(&args.roots, &cfg.roots, global_roots, "git_maintenance", home) {
        Ok(roots) => roots,
        Err(message) => {
            return Err(message);
        },
    };
    match &cfg.overrides {
        Some(list) => {
            match validate_overrides(list) {
                Err(message) => {
                    return Err(message);
                },
                Ok(_) => {},
            }
        },
        None => {},
    }
    let submodules = if args.no_submodules {
        false
    } else {
        match cfg.submodules {
            Some(v) => v,
            None => DEFAULT_SUBMODULES,
        }
    };
    Ok(
        Settings {
            depth: choose_usize(args.depth, cfg.depth, DEFAULT_DEPTH),
            concurrency: choose_usize(args.concurrency, cfg.concurrency, DEFAULT_CONCURRENCY),
            submodules,
            fsck: args.fsck,
            roots,
        },
    )
}

// ---------------------------------------------------------------------------
// Repositories
// ---------------------------------------------------------------------------

/// A directory that holds a `.git`.
#[derive(Debug)]
pub struct FoundRepo {
    pub path: String,
    /// The `.git` is a directory. In a submodule it is a file.
    pub git_is_dir: bool,
}

pub open spec fn repo_paths(found: Seq<FoundRepo>, submodules: bool) -> Seq<Seq<char>>
    decreases found.len(),
{
    if found.len() == 0 {
        seq![]
    } else {
        let before = repo_paths(found.drop_last(), submodules);
        if submodules || found.last().git_is_dir {
            before.push(found.last().path@)
        } else {
            before
        }
    }
}

/// The repositories, in order and each once, without submodules where those are
/// left out.
pub fn repositories(found: &Vec<FoundRepo>, submodules: bool) -> (r: Vec<String>)
    ensures
        texts(r@) == path_set(repo_paths(found@, submodules)),
{
    let mut out: Vec<String> = Vec::new();
    let mut i: usize = 0;
    assert(found@.take(0) =~= Seq::<FoundRepo>::empty());
    assert(texts(out@) =~= repo_paths(found@.take(0), submodules));
    while i < found.len()
        invariant
            i <= found@.len(),
            texts(out@) == repo_paths(found@.take(i as int), submodules),
        decreases found@.len() - i,
    {
        assert(found@.take(i as int + 1).drop_last() =~= found@.take(i as int));
        if submodules || found[i].git_is_dir {
            let path = found[i].path.clone();
            proof {
                lemma_texts_push(out@, path);
            }
            out.push(path);
        }
        i = i + 1;
    }
    assert(found@.take(found@.len() as int) =~= found@);
    sort_and_dedup(&out)
}

/// The question for a repository's common directory.
pub fn ask_common_dir(repo: &str) -> (r: Invocation)
    ensures
        r.runs(
            "git"@,
            seq!["-C"@, repo@, "rev-parse"@, "--path-format=absolute"@, "--git-common-dir"@],
        ),
{
    let r = Invocation::new("git").arg("-C").arg(repo).arg("rev-parse").arg(
        "--path-format=absolute",
    ).arg("--git-common-dir");
    assert(texts(r.args@) =~= seq![
        "-C"@,
        repo@,
        "rev-parse"@,
        "--path-format=absolute"@,
        "--git-common-dir"@,
    ]);
    r
}

/// The common directory that Git answered with, if it did.
pub open spec fn common_dir_of(reply: Reply) -> Option<Seq<char>> {
    match reply {
        Reply::Finished(done) => if done.success && valid_utf8(done.stdout@) {
            Some(trim_of(decode_utf8(done.stdout@)))
        } else {
            None
        },
        Reply::NotStarted(_) => None,
    }
}

pub fn git_common_dir(reply: &Reply) -> (r: Option<String>)
    ensures
        opt_text(r) == common_dir_of(*reply),
{
    match reply {
        Reply::Finished(done) => {
            if !done.success {
                return None;
            }
            match utf8_text(&done.stdout) {
                Some(text) => Some(trim(text.as_str())),
                None => None,
            }
        },
        Reply::NotStarted(_) => None,
    }
}

/// A repository and the object store it shares with its worktrees, where that
/// is known.
#[derive(Debug)]
pub struct Repo {
    pub path: String,
    pub common: Option<String>,
}

/// An earlier repository has the same store.
pub open spec fn store_seen(repos: Seq<Repo>, common: Seq<char>) -> bool {
    exists|i: int|
        0 <= i < repos.len() && ((#[trigger] repos[i]).common matches Some(c) && same_path(
            c@,
            common,
        ))
}

/// The first repository of each store, and every one whose store is not known.
pub open spec fn one_per_store(repos: Seq<Repo>) -> Seq<Seq<char>>
    decreases repos.len(),
{
    if repos.len() == 0 {
        seq![]
    } else {
        let head = repos.drop_last();
        let before = one_per_store(head);
        match repos.last().common {
            Some(common) => if store_seen(head, common@) {
                before
            } else {
                before.push(repos.last().path@)
            },
            None => before.push(repos.last().path@),
        }
    }
}

fn is_store_seen(repos: &Vec<Repo>, n: usize, common: &str) -> (r: bool)
    requires
        n <= repos@.len(),
    ensures
        r == store_seen(repos@.take(n as int), common@),
{
    let ghost head = repos@.take(n as int);
    let mut i: usize = 0;
    while i < n
        invariant
            i <= n <= repos@.len(),
            head == repos@.take(n as int),
            forall|j: int|
                0 <= j < i ==> !((#[trigger] head[j]).common matches Some(c) && same_path(
                    c@,
                    common@,
                )),
        decreases n - i,
    {
        assert(head[i as int] == repos@[i as int]);
        match &repos[i].common {
            Some(c) => {
                if is_same_path(c.as_str(), common) {
                    return true;
                }
            },
            None => {},
        }
        i = i + 1;
    }
    false
}

/// Keeps one repository of each store, so that worktrees of one repository are
/// not maintained side by side.
pub fn distinct_stores(repos: &Vec<Repo>) -> (r: Vec<String>)
    ensures
        texts(r@) == one_per_store(repos@),
{
    let mut out: Vec<String> = Vec::new();
    let mut i: usize = 0;
    assert(repos@.take(0) =~= Seq::<Repo>::empty());
    assert(texts(out@) =~= one_per_store(repos@.take(0)));
    while i < repos.len()
        invariant
            i <= repos@.len(),
            texts(out@) == one_per_store(repos@.take(i as int)),
        decreases repos@.len() - i,
    {
        assert(repos@.take(i as int + 1).drop_last() =~= repos@.take(i as int));
        let keep = match &repos[i].common {
            Some(common) => !is_store_seen(repos, i, common.as_str()),
            None => true,
        };
        if keep {
            let path = repos[i].path.clone();
            proof {
                lemma_texts_push(out@, path);
            }
            out.push(path);
        }
        i = i + 1;
    }
    assert(repos@.take(repos@.len() as int) =~= repos@);
    out
}

/// No store is left out: each known one keeps its first repository.
pub proof fn law_every_store_is_kept(repos: Seq<Repo>, k: int)
    requires
        0 <= k < repos.len(),
        repos[k].common matches Some(c) ==> !store_seen(repos.take(k), c@),
    ensures
        one_per_store(repos).contains(repos[k].path@),
    decreases repos.len(),
{
    let head = repos.drop_last();
    let before = one_per_store(head);
    let out = one_per_store(repos);
    if k < head.len() {
        assert(head.take(k) =~= repos.take(k));
        assert(head[k] == repos[k]);
        law_every_store_is_kept(head, k);
        let i = choose|i: int| 0 <= i < before.len() && before[i] == repos[k].path@;
        assert(out[i] == repos[k].path@);
    } else {
        assert(repos.take(k) =~= head);
        assert(out[out.len() - 1] == repos[k].path@);
    }
}

/// The last name of a repository's path, or the path where it has none.
pub fn repo_label(repo: &str) -> (r: String)
    ensures
        r@ == super::cleaner::basename_of(repo@),
{
    match file_name(repo) {
        Some(name) => name,
        None => repo.to_owned(),
    }
}

/// What a dry run says of a repository.
pub open spec fn preview_of(repo: Seq<char>, skip: Seq<Seq<char>>) -> Seq<char> {
    if skip.len() == 0 {
        "would maintain "@ + repo
    } else {
        "would maintain "@ + repo + " (skip: "@ + join_of(skipped_in_order(skip), ", "@) + ")"@
    }
}

pub fn preview(repo: &str, skip: &Vec<String>) -> (r: String)
    ensures
        r@ == preview_of(repo@, texts(skip@)),
{
    let mut out = "would maintain ".to_string();
    out.append(repo);
    assert(texts(skip@).len() == skip@.len());
    if skip.len() > 0 {
        out.append(" (skip: ");
        let names = ordered_skipped(skip);
        out.append(crate::split::join(&names, ", ").as_str());
        out.append(")");
    }
    out
}

/// The outcome of a dry run.
pub fn preview_summary(repos: &Vec<String>) -> (r: CommandSummary)
    ensures
        r == summary(0, repos@.len() as u64, 0, 0),
        repos@.len() <= u64::MAX,
{
    let n = repos.len();
    CommandSummary { bytes_freed: 0, items_ok: n as u64, items_failed: 0, items_skipped: 0 }
}

// ---------------------------------------------------------------------------
// The directory of a repository
// ---------------------------------------------------------------------------

/// Where a repository keeps its data: its `.git` directory, or what its `.git`
/// file points to.
pub open spec fn gitdir_of(repo: Seq<char>, git_is_dir: bool, content: Option<Seq<char>>) -> Seq<char> {
    let dotgit = joined(repo, ".git"@);
    if git_is_dir || content is None || lines_of(content->0).len() == 0 || !starts_with_of(
        lines_of(content->0)[0],
        "gitdir: "@,
    ) {
        dotgit
    } else {
        let target = lines_of(content->0)[0].skip(8);
        if is_absolute_text(target) {
            target
        } else {
            joined(
                match parent_of(dotgit) {
                    Some(dir) => dir,
                    None => "."@,
                },
                target,
            )
        }
    }
}

/// Finds where a repository keeps its data.
pub fn resolve_gitdir(repo: &str, git_is_dir: bool, content: &Option<String>) -> (r: String)
    ensures
        r@ == gitdir_of(repo@, git_is_dir, opt_text(*content)),
{
    let dotgit = join(repo, ".git");
    if git_is_dir {
        return dotgit;
    }
    match content {
        Some(text) => {
            let list = lines(text.as_str());
            assert(texts(list@).len() == list@.len());
            if list.len() > 0 {
                proof {
                    reveal_strlit("gitdir: ");
                    assert(texts(list@)[0] == list@[0]@);
                }
                match strip_prefix(list[0].as_str(), "gitdir: ") {
                    Some(target) => {
                        if is_absolute(target.as_str()) {
                            return target;
                        }
                        return match parent(dotgit.as_str()) {
                            Some(dir) => join(dir.as_str(), target.as_str()),
                            None => join(".", target.as_str()),
                        };
                    },
                    None => {},
                }
            }
            dotgit
        },
        None => dotgit,
    }
}

// ---------------------------------------------------------------------------
// Maintaining one repository
// ---------------------------------------------------------------------------

/// The lines of a text that are not blank, trimmed, as one line.
pub open spec fn compact_of(text: Seq<char>) -> Seq<char> {
    join_of(nonempty(lines_of(text).map_values(|line: Seq<char>| trim_of(line))), "; "@)
}

pub fn compact(text: &str) -> (r: String)
    ensures
        r@ == compact_of(text@),
{
    let list = lines(text);
    let ghost all = lines_of(text@).map_values(|line: Seq<char>| trim_of(line));
    let mut out: Vec<String> = Vec::new();
    let mut i: usize = 0;
    proof {
        reveal(Seq::filter);
        assert(all.take(0) =~= Seq::<Seq<char>>::empty());
        assert(texts(out@) =~= nonempty(all.take(0)));
    }
    while i < list.len()
        invariant
            i <= list@.len(),
            texts(list@) == lines_of(text@),
            all == lines_of(text@).map_values(|line: Seq<char>| trim_of(line)),
            texts(out@) == nonempty(all.take(i as int)),
        decreases list@.len() - i,
    {
        let line = trim(list[i].as_str());
        proof {
            reveal(Seq::filter);
            assert(texts(list@)[i as int] == list@[i as int]@);
            assert(all.take(i as int + 1).drop_last() =~= all.take(i as int));
            assert(all.take(i as int + 1).last() == line@);
            lemma_texts_push(out@, line);
        }
        if char_count(line.as_str()) > 0 {
            out.push(line);
        }
        i = i + 1;
    }
    assert(all.len() == list@.len());
    assert(all.take(all.len() as int) =~= all);
    crate::split::join(&out, "; ")
}

/// Why a step failed, if it did.
pub open spec fn failure_of(reply: Reply) -> Option<Seq<char>> {
    match reply {
        Reply::NotStarted(why) => Some("failed to invoke git: "@ + why@),
        Reply::Finished(done) => if done.success {
            None
        } else {
            Some(compact_of(lossy_text(done.stderr@)))
        },
    }
}

pub fn step_failure(reply: &Reply) -> (r: Option<String>)
    ensures
        opt_text(r) == failure_of(*reply),
{
    match reply {
        Reply::NotStarted(why) => {
            let mut message = "failed to invoke git: ".to_string();
            message.append(why.as_str());
            Some(message)
        },
        Reply::Finished(done) => {
            if done.success {
                None
            } else {
                let text = text_of(&done.stderr);
                Some(compact(text.as_str()))
            }
        },
    }
}

/// The state of the maintenance of one repository.
#[derive(Debug)]
pub enum Work {
    /// Git is run for a step.
    Step(usize),
    /// Git checks the repository.
    Check,
    /// A step failed, and why. No further step runs.
    Failed(usize, String),
    /// Every step is done; what a check found, where there was one.
    Maintained(Option<String>),
}

/// Where the maintenance of a repository goes from a step that went well.
pub open spec fn goes_on(from: int, skip: Seq<Seq<char>>, fsck: bool, next: Work) -> bool {
    let step = step_from(from, skip);
    if step < 7 {
        next matches Work::Step(n) && n == step
    } else if fsck {
        next is Check
    } else {
        next matches Work::Maintained(None)
    }
}

fn advance(from: usize, skip: &Vec<String>, fsck: bool) -> (r: Work)
    requires
        from <= 7,
    ensures
        goes_on(from as int, texts(skip@), fsck, r),
{
    match next_step(from, skip) {
        Some(step) => Work::Step(step),
        None => {
            if fsck {
                Work::Check
            } else {
                Work::Maintained(None)
            }
        },
    }
}

/// The first thing to do for a repository.
pub fn begin(skip: &Vec<String>, fsck: bool) -> (r: Work)
    ensures
        goes_on(0, texts(skip@), fsck, r),
{
    advance(0, skip, fsck)
}

/// Goes on from the reply to a step. A failure ends the maintenance.
pub fn after_step(step: usize, reply: &Reply, skip: &Vec<String>, fsck: bool) -> (r: Work)
    requires
        step < 7,
    ensures
        match failure_of(*reply) {
            Some(why) => r matches Work::Failed(n, message) && n == step && message@ == why,
            None => goes_on(step as int + 1, texts(skip@), fsck, r),
        },
{
    match step_failure(reply) {
        Some(why) => Work::Failed(step, why),
        None => advance(step + 1, skip, fsck),
    }
}

/// Goes on from the reply to a check, which never fails the repository.
pub fn after_check(reply: &Reply) -> (r: Work)
    ensures
        r matches Work::Maintained(Some(findings)) && findings@ == findings_of(*reply),
{
    Work::Maintained(Some(run_fsck(reply)))
}

/// How Git checks a repository.
pub fn fsck_invocation(repo: &str) -> (r: Invocation)
    ensures
        r.runs("git"@, seq!["-C"@, repo@, "fsck"@, "--full"@, "--unreachable"@, "--dangling"@]),
{
    let r = Invocation::new("git").arg("-C").arg(repo).arg("fsck").arg("--full").arg(
        "--unreachable",
    ).arg("--dangling");
    assert(texts(r.args@) =~= seq![
        "-C"@,
        repo@,
        "fsck"@,
        "--full"@,
        "--unreachable"@,
        "--dangling"@,
    ]);
    r
}

/// The first word of each line that has one.
pub open spec fn first_words(list: Seq<Seq<char>>) -> Seq<Seq<char>>
    decreases list.len(),
{
    if list.len() == 0 {
        seq![]
    } else {
        let before = first_words(list.drop_last());
        let all = words_of(list.last());
        if all.len() > 0 {
            before.push(all[0])
        } else {
            before
        }
    }
}

/// What a check found: how many findings of each category, or why it did not
/// run. Nothing for a clean repository.
pub open spec fn findings_of(reply: Reply) -> Seq<char> {
    match reply {
        Reply::NotStarted(why) => "failed to invoke git fsck: "@ + why@,
        Reply::Finished(done) => counted(first_words(lines_of(lossy_text(done.stderr@)))),
    }
}

pub fn run_fsck(reply: &Reply) -> (r: String)
    ensures
        r@ == findings_of(*reply),
{
    match reply {
        Reply::NotStarted(why) => {
            let mut message = "failed to invoke git fsck: ".to_string();
            message.append(why.as_str());
            message
        },
        Reply::Finished(done) => {
            let text = text_of(&done.stderr);
            let list = lines(text.as_str());
            let ghost all = texts(list@);
            let mut categories: Vec<String> = Vec::new();
            let mut i: usize = 0;
            assert(all.take(0) =~= Seq::<Seq<char>>::empty());
            assert(texts(categories@) =~= first_words(all.take(0)));
            while i < list.len()
                invariant
                    i <= list@.len(),
                    all == texts(list@),
                    texts(categories@) == first_words(all.take(i as int)),
                decreases list@.len() - i,
            {
                let parts = words(list[i].as_str());
                proof {
                    assert(all.take(i as int + 1).drop_last() =~= all.take(i as int));
                    assert(all.take(i as int + 1).last() == list@[i as int]@);
                    assert(texts(parts@).len() == parts@.len());
                }
                if parts.len() > 0 {
                    let category = parts[0].clone();
                    proof {
                        assert(texts(parts@)[0] == category@);
                        lemma_texts_push(categories@, category);
                    }
                    categories.push(category);
                }
                i = i + 1;
            }
            assert(all.take(all.len() as int) =~= all);
            count_texts(&categories)
        },
    }
}

/// The bytes that maintenance has reclaimed and added so far.
#[derive(Debug, Default, Clone, Copy)]
pub struct Totals {
    pub reclaimed: u64,
    pub added: u64,
}

impl Totals {
    /// `self` is `before` with one more repository, which went from `from` to
    /// `to` bytes.
    pub open spec fn grew(self, before: Totals, from: u64, to: u64) -> bool {
        &&& self.reclaimed == if to < from {
            wrapping_sum(before.reclaimed, (from - to) as u64)
        } else {
            before.reclaimed
        }
        &&& self.added == if to > from {
            wrapping_sum(before.added, (to - from) as u64)
        } else {
            before.added
        }
    }

    pub fn record(&mut self, from: u64, to: u64)
        ensures
            final(self).grew(*old(self), from, to),
    {
        if to < from {
            self.reclaimed = self.reclaimed.wrapping_add(from - to);
        } else if to > from {
            self.added = self.added.wrapping_add(to - from);
        }
    }
}

/// How a repository changed in size.
pub open spec fn delta_of(before: u64, after: u64) -> (Seq<char>, Seq<char>) {
    if after < before {
        ("freed"@, human_size((before - after) as u64))
    } else if after > before {
        ("+"@, human_size((after - before) as u64))
    } else {
        ("no change"@, human_size(before))
    }
}

pub fn delta_components(before: u64, after: u64) -> (r: (&'static str, String))
    ensures
        (r.0@, r.1@) == delta_of(before, after),
{
    if after < before {
        ("freed", format_bytes(before - after))
    } else if after > before {
        ("+", format_bytes(after - before))
    } else {
        ("no change", format_bytes(before))
    }
}

/// What is noted of a maintained repository: steps left out, and findings.
pub open spec fn notes_of(skip: Seq<Seq<char>>, findings: Option<Seq<char>>) -> Seq<char> {
    let skipped = skipped_in_order(skip);
    (if skipped.len() > 0 {
        "; skipped: "@ + join_of(skipped, ", "@)
    } else {
        Seq::<char>::empty()
    }) + (match findings {
        Some(s) => if s.len() > 0 {
            "; fsck: "@ + s
        } else {
            Seq::<char>::empty()
        },
        None => Seq::<char>::empty(),
    })
}

fn notes(skip: &Vec<String>, findings: &Option<String>) -> (r: String)
    ensures
        r@ == notes_of(texts(skip@), opt_text(*findings)),
{
    let mut out = String::new();
    let skipped = ordered_skipped(skip);
    assert(texts(skipped@).len() == skipped@.len());
    if skipped.len() > 0 {
        out.append("; skipped: ");
        out.append(crate::split::join(&skipped, ", ").as_str());
        assert(out@ =~= "; skipped: "@ + join_of(skipped_in_order(texts(skip@)), ", "@));
    }
    let ghost first = out@;
    match findings {
        Some(s) => {
            if char_count(s.as_str()) > 0 {
                out.append("; fsck: ");
                out.append(s.as_str());
                assert(out@ =~= first + ("; fsck: "@ + s@));
            } else {
                assert(first =~= first + Seq::<char>::empty());
            }
        },
        None => {
            assert(first =~= first + Seq::<char>::empty());
        },
    }
    out
}

/// The detail for a repository whose maintenance failed at a step.
pub fn failed_detail(step: usize, why: &str, elapsed_ms: u64) -> (r: ItemDetail)
    requires
        step < 7,
    ensures
        r@ == failure_detail(
            maintenance_names()[step as int] + ": "@ + why@ + " ("@ + duration_text(elapsed_ms)
                + ")"@,
        ),
{
    let names = maintenance_steps();
    assert(texts(names@)[step as int] == names@[step as int]@);
    let mut suffix = names[step].clone();
    suffix.append(": ");
    suffix.append(why);
    suffix.append(" (");
    suffix.append(format_duration(elapsed_ms).as_str());
    suffix.append(")");
    ItemDetail::failure(suffix.as_str())
}

pub open spec fn maintained_detail_of(
    before: u64,
    after: u64,
    elapsed_ms: u64,
    skip: Seq<Seq<char>>,
    findings: Option<Seq<char>>,
) -> Detail {
    let plain = success_detail(
        delta_of(before, after).0,
        delta_of(before, after).1,
        duration_text(elapsed_ms),
    );
    let notes = notes_of(skip, findings);
    if notes.len() > 0 {
        Detail { suffix: Some(notes), ..plain }
    } else {
        plain
    }
}

/// The detail for a maintained repository. A size after the maintenance that is
/// not known counts as unchanged.
pub fn maintained_detail(
    before: u64,
    after: Option<u64>,
    elapsed_ms: u64,
    skip: &Vec<String>,
    findings: &Option<String>,
    totals: &mut Totals,
) -> (r: ItemDetail)
    ensures
        ({
            let size = match after {
                Some(n) => n,
                None => before,
            };
            &&& r@ == maintained_detail_of(
                before,
                size,
                elapsed_ms,
                texts(skip@),
                opt_text(*findings),
            )
            &&& final(totals).grew(*old(totals), before, size)
        }),
{
    let size = match after {
        Some(n) => n,
        None => before,
    };
    totals.record(before, size);
    let (verb, shown) = delta_components(before, size);
    let detail = ItemDetail::success(verb, shown.as_str(), format_duration(elapsed_ms).as_str());
    let noted = notes(skip, findings);
    if char_count(noted.as_str()) > 0 {
        detail.with_suffix(noted.as_str())
    } else {
        detail
    }
}

// ---------------------------------------------------------------------------
// Totals
// ---------------------------------------------------------------------------

/// What was freed in all, or by how much the repositories grew.
pub open spec fn net_of(reclaimed: u64, added: u64) -> Seq<char> {
    if added > reclaimed {
        "grew by "@ + human_size((added - reclaimed) as u64)
    } else {
        human_size((reclaimed - added) as u64) + " freed"@
    }
}

pub fn net_phrase(reclaimed: u64, added: u64) -> (r: String)
    ensures
        r@ == net_of(reclaimed, added),
{
    if added > reclaimed {
        let mut out = "grew by ".to_string();
        out.append(format_bytes(added - reclaimed).as_str());
        out
    } else {
        let mut out = format_bytes(reclaimed - added);
        out.append(" freed");
        out
    }
}

pub open spec fn freed_summary_of(reclaimed: u64, added: u64) -> Seq<char> {
    if added == 0 {
        net_of(reclaimed, added)
    } else {
        net_of(reclaimed, added) + " ("@ + human_size(reclaimed) + " reclaimed, "@ + human_size(
            added,
        ) + " added back)"@
    }
}

/// What was freed in all, with both sides of the balance where a repository grew.
pub fn freed_summary(reclaimed: u64, added: u64) -> (r: String)
    ensures
        r@ == freed_summary_of(reclaimed, added),
{
    let mut out = net_phrase(reclaimed, added);
    if added != 0 {
        out.append(" (");
        out.append(format_bytes(reclaimed).as_str());
        out.append(" reclaimed, ");
        out.append(format_bytes(added).as_str());
        out.append(" added back)");
    }
    out
}

/// What a run reports: its summary, the text of it, and whether all went well.
#[derive(Debug)]
pub struct Outcome {
    pub summary: CommandSummary,
    pub message: String,
    pub all_ok: bool,
}

/// Closes a run. What was added back is taken off what was reclaimed.
pub fn outcome(items: &Vec<TreeItem>, totals: &Totals) -> (r: Outcome)
    ensures
        ({
            let ok = ok_count(items_view(items@));
            &&& ok <= items@.len() <= u64::MAX
            &&& r.summary == summary(
                if totals.reclaimed > totals.added {
                    (totals.reclaimed - totals.added) as u64
                } else {
                    0
                },
                ok as u64,
                (items@.len() - ok) as u64,
                0,
            )
            &&& r.message@ == decimal_of(ok) + " ok, "@ + decimal_of((items@.len() - ok) as nat)
                + " failed, "@ + freed_summary_of(totals.reclaimed, totals.added)
            &&& r.all_ok == (ok == items@.len())
        }),
{
    let ok = count_ok(items);
    let all = items.len();
    let failed: usize = all - ok;
    let mut message = decimal(ok as u64);
    message.append(" ok, ");
    message.append(decimal(failed as u64).as_str());
    message.append(" failed, ");
    message.append(freed_summary(totals.reclaimed, totals.added).as_str());
    Outcome {
        summary: CommandSummary {
            bytes_freed: totals.reclaimed.saturating_sub(totals.added),
            items_ok: ok as u64,
            items_failed: failed as u64,
            items_skipped: 0,
        },
        message,
        all_ok: failed == 0,
    }
}

/// Repositories whose stores are different directories are all maintained, in
/// order.
pub proof fn law_separate_stores_all_stay(repos: Seq<Repo>)
    requires
        forall|i: int, j: int|
            0 <= i < j < repos.len() && (#[trigger] repos[i]).common is Some && (
            #[trigger] repos[j]).common is Some ==> components_of(repos[i].common->0@)
                != components_of(repos[j].common->0@),
    ensures
        one_per_store(repos) == repos.map_values(|r: Repo| r.path@),
    decreases repos.len(),
{
    let paths = repos.map_values(|r: Repo| r.path@);
    if repos.len() == 0 {
        assert(one_per_store(repos) =~= paths);
    } else {
        let head = repos.drop_last();
        let last = repos.last();
        assert forall|i: int, j: int|
            0 <= i < j < head.len() && (#[trigger] head[i]).common is Some && (
            #[trigger] head[j]).common is Some implies components_of(head[i].common->0@)
            != components_of(head[j].common->0@) by {
            assert(repos[i] == head[i] && repos[j] == head[j]);
        }
        law_separate_stores_all_stay(head);
        law_left_out_only_for_a_shared_store(head, last);
        assert(head.push(last) =~= repos);
        assert forall|i: int| 0 <= i < head.len() implies !((#[trigger] head[i]).common is Some
            && last.common is Some && components_of(head[i].common->0@) == components_of(
            last.common->0@,
        )) by {
            assert(repos[i] == head[i] && repos[repos.len() - 1] == last);
        }
        assert(one_per_store(repos) =~= paths);
    }
}

/// One more repository is left out exactly where an earlier one has its store:
/// a common directory with the same components.
pub proof fn law_left_out_only_for_a_shared_store(repos: Seq<Repo>, repo: Repo)
    ensures
        one_per_store(Seq::empty()) == Seq::<Seq<char>>::empty(),
        (exists|i: int|
            0 <= i < repos.len() && (#[trigger] repos[i]).common is Some && repo.common is Some
                && components_of(repos[i].common->0@) == components_of(repo.common->0@))
            ==> one_per_store(repos.push(repo)) == one_per_store(repos),
        (forall|i: int|
            0 <= i < repos.len() ==> !((#[trigger] repos[i]).common is Some && repo.common is Some
                && components_of(repos[i].common->0@) == components_of(repo.common->0@)))
            ==> one_per_store(repos.push(repo)) == one_per_store(repos).push(repo.path@),
{
    assert(repos.push(repo).drop_last() =~= repos);
    match repo.common {
        Some(common) => {
            if store_seen(repos, common@) {
                let i = choose|i: int|
                    0 <= i < repos.len() && ((#[trigger] repos[i]).common matches Some(c)
                        && same_path(c@, common@));
                assert(repos[i].common is Some);
                assert(components_of(repos[i].common->0@) == components_of(common@));
            } else {
                assert forall|i: int| 0 <= i < repos.len() implies !((
                #[trigger] repos[i]).common is Some && components_of(repos[i].common->0@)
                    == components_of(common@)) by {
                    if repos[i].common is Some {
                        assert(!same_path(repos[i].common->0@, common@));
                    }
                }
            }
        },
        None => {},
    }
}

/// What [`distinct_stores`] keeps: every repository, in order, where no two have
/// one store.
pub proof fn law_distinct_stores(repos: Vec<Repo>, r: Vec<String>)
    requires
        call_ensures(distinct_stores, (&repos,), r),
        forall|i: int, j: int|
            0 <= i < j < repos@.len() && (#[trigger] repos@[i]).common is Some && (
            #[trigger] repos@[j]).common is Some ==> components_of(repos@[i].common->0@)
                != components_of(repos@[j].common->0@),
    ensures
        r@.len() == repos@.len(),
        forall|i: int| 0 <= i < r@.len() ==> (#[trigger] r@[i])@ == repos@[i].path@,
{
    law_separate_stores_all_stay(repos@);
    let paths = repos@.map_values(|repo: Repo| repo.path@);
    assert(texts(r@).len() == r@.len());
    assert forall|i: int| 0 <= i < r@.len() implies (#[trigger] r@[i])@ == repos@[i].path@ by {
        assert(texts(r@)[i] == paths[i]);
    }
}

/// What Git is told for each step, in the repository.
pub proof fn law_step_invocation(repo: &str, step: usize, r: Invocation)
    requires
        step < 7,
        call_ensures(step_invocation, (repo, step), r),
    ensures
        r.program@ == "git"@,
        r.args@.len() >= 2,
        r.args@[0]@ == "-C"@,
        r.args@[1]@ == repo@,
        ({
            let rest = texts(r.args@).skip(2);
            &&& step == 0 ==> rest == seq!["pack-refs"@, "--all"@, "--prune"@]
            &&& step == 1 ==> rest == seq![
                "reflog"@,
                "expire"@,
                "--all"@,
                "--expire-unreachable=1.week.ago"@,
            ]
            &&& step == 2 ==> rest == seq!["rerere"@, "gc"@]
            &&& step == 3 ==> rest == seq!["worktree"@, "prune"@]
            &&& step == 4 ==> rest == seq!["repack"@, "-Adf"@, "--depth=100"@, "--window=250"@]
            &&& step == 5 ==> rest == seq!["prune"@, "--expire=1.week.ago"@]
            &&& step == 6 ==> rest == seq![
                "commit-graph"@,
                "write"@,
                "--reachable"@,
                "--changed-paths"@,
            ]
        }),
{
    let all = texts(r.args@);
    assert(all.len() == r.args@.len());
    assert(all[0] == r.args@[0]@);
    assert(all[1] == r.args@[1]@);
    assert(all.skip(2) =~= maintenance_args(step as int));
}

/// The steps go by seven names.
pub proof fn law_step_names(name: Seq<char>)
    ensures
        maintenance_names().contains(name) <==> name == "pack-refs"@ || name == "reflog-expire"@
            || name == "rerere-gc"@ || name == "worktree-prune"@ || name == "repack"@ || name
            == "prune"@ || name == "commit-graph"@,
        maintenance_names().len() == 7,
{
    let all = maintenance_names();
    assert(all[0] == "pack-refs"@ && all[1] == "reflog-expire"@ && all[2] == "rerere-gc"@);
    assert(all[3] == "worktree-prune"@ && all[4] == "repack"@ && all[5] == "prune"@);
    assert(all[6] == "commit-graph"@);
    if all.contains(name) {
        let k = choose|k: int| 0 <= k < all.len() && all[k] == name;
        assert(k == 0 || k == 1 || k == 2 || k == 3 || k == 4 || k == 5 || k == 6);
    }
}

/// What [`next_step`] gives: a step that is not left out, before which every
/// step is left out.
pub proof fn law_next_step(from: usize, skip: Vec<String>, r: Option<usize>)
    requires
        from <= 7,
        call_ensures(next_step, (from, &skip), r),
    ensures
        r is Some ==> from <= r->0 < 7 && !texts(skip@).contains(maintenance_names()[r->0 as int]),
        forall|i: int|
            from <= i < 7 && (r is Some ==> i < r->0) ==> texts(skip@).contains(
                #[trigger] maintenance_names()[i],
            ),
{
    law_steps_run_in_order(from as int, texts(skip@));
}

/// The step names something that is to be done.
pub open spec fn is_a_step(name: Seq<char>) -> bool {
    name == "pack-refs"@ || name == "reflog-expire"@ || name == "rerere-gc"@ || name
        == "worktree-prune"@ || name == "repack"@ || name == "prune"@ || name == "commit-graph"@
}

/// Overrides are accepted exactly where each names only steps that exist.
pub proof fn law_validate_overrides(
    overrides: Vec<GitMaintenanceOverride>,
    r: Result<(), String>,
)
    requires
        call_ensures(validate_overrides, (&overrides,), r),
    ensures
        r is Ok <==> forall|i: int, k: int|
            0 <= i < overrides@.len() && 0 <= k < (#[trigger] overrides@[i]).skip_steps@.len()
                ==> is_a_step((#[trigger] overrides@[i].skip_steps@[k])@),
{
    lemma_bad_override(overrides@);
}

proof fn lemma_bad_override(overrides: Seq<GitMaintenanceOverride>)
    ensures
        bad_override(overrides) is None <==> forall|i: int, k: int|
            0 <= i < overrides.len() && 0 <= k < (#[trigger] overrides[i]).skip_steps@.len()
                ==> is_a_step((#[trigger] overrides[i].skip_steps@[k])@),
    decreases overrides.len(),
{
    if overrides.len() > 0 {
        let rest = overrides.drop_first();
        lemma_bad_override(rest);
        let names = texts(overrides[0].skip_steps@);
        super::all::lemma_first_unknown(names, maintenance_names());
        assert(names.len() == overrides[0].skip_steps@.len());
        match first_unknown(names, maintenance_names()) {
            Some(name) => {
                let k = choose|k: int|
                    0 <= k < names.len() && #[trigger] names[k] == name
                        && !maintenance_names().contains(name);
                law_step_names(name);
                assert(names[k] == overrides[0].skip_steps@[k]@);
                assert(!is_a_step(overrides[0].skip_steps@[k]@));
            },
            None => {
                assert forall|k: int| 0 <= k < overrides[0].skip_steps@.len() implies is_a_step(
                    (#[trigger] overrides[0].skip_steps@[k])@,
                ) by {
                    assert(names[k] == overrides[0].skip_steps@[k]@);
                    law_step_names(names[k]);
                }
                if bad_override(rest) is None {
                    assert forall|i: int, k: int|
                        0 <= i < overrides.len() && 0 <= k < (
                        #[trigger] overrides[i]).skip_steps@.len() implies is_a_step(
                        (#[trigger] overrides[i].skip_steps@[k])@,
                    ) by {
                        if i > 0 {
                            assert(rest[i - 1] == overrides[i]);
                            assert(rest[i - 1].skip_steps@[k] == overrides[i].skip_steps@[k]);
                        }
                    }
                } else {
                    let (i, k) = choose|i: int, k: int|
                        0 <= i < rest.len() && 0 <= k < (#[trigger] rest[i]).skip_steps@.len()
                            && !is_a_step((#[trigger] rest[i].skip_steps@[k])@);
                    assert(overrides[i + 1] == rest[i]);
                    assert(!is_a_step(overrides[i + 1].skip_steps@[k]@));
                }
            },
        }
    }
}

/// An override is for the repositories whose last components are those that it
/// names, and for none where it names none.
pub proof fn law_matches_suffix(repo: &str, suffix: &str, r: bool)
    requires
        call_ensures(matches_suffix, (repo, suffix), r),
    ensures
        r <==> components_of(suffix@).len() > 0 && exists|k: int|
            0 <= k <= components_of(repo@).len() && #[trigger] components_of(repo@).skip(k)
                == components_of(suffix@),
{
    let all = components_of(repo@);
    let last = components_of(suffix@);
    if r {
        assert(all.skip(all.len() - last.len()) == last);
    }
    if last.len() > 0 && exists|k: int|
        0 <= k <= all.len() && #[trigger] all.skip(k) == last {
        let k = choose|k: int| 0 <= k <= all.len() && #[trigger] all.skip(k) == last;
        assert(all.skip(k).len() == all.len() - k);
    }
}

/// A step is left out for a repository exactly where an override for the
/// repository names it.
pub proof fn law_skip_steps_for(
    repo: &str,
    overrides: Vec<GitMaintenanceOverride>,
    r: Vec<String>,
    step: Seq<char>,
)
    requires
        call_ensures(skip_steps_for, (repo, &overrides), r),
    ensures
        texts(r@).contains(step) <==> exists|i: int|
            0 <= i < overrides@.len() && components_of((#[trigger] overrides@[i]).repo@).len() > 0
                && ends_in(repo@, overrides@[i].repo@) && texts(
                overrides@[i].skip_steps@,
            ).contains(step),
{
    law_skipped_steps(repo@, overrides@, step);
    if texts(r@).contains(step) {
        let i = choose|i: int|
            0 <= i < overrides@.len() && suffix_matches(repo@, (#[trigger] overrides@[i]).repo@)
                && texts(overrides@[i].skip_steps@).contains(step);
        assert(components_of(overrides@[i].repo@).len() > 0);
    }
    if exists|i: int|
        0 <= i < overrides@.len() && components_of((#[trigger] overrides@[i]).repo@).len() > 0
            && ends_in(repo@, overrides@[i].repo@) && texts(overrides@[i].skip_steps@).contains(
            step,
        ) {
        let i = choose|i: int|
            0 <= i < overrides@.len() && components_of((#[trigger] overrides@[i]).repo@).len() > 0
                && ends_in(repo@, overrides@[i].repo@) && texts(
                overrides@[i].skip_steps@,
            ).contains(step);
        assert(suffix_matches(repo@, overrides@[i].repo@));
    }
}

/// Steps that are left out are told in the order of the steps, and only those.
pub proof fn law_told_in_order(skip: Seq<Seq<char>>, name: Seq<char>)
    ensures
        skipped_in_order(skip).contains(name) <==> skip.contains(name) && is_a_step(name),
{
    let keep = |name: Seq<char>| skip.contains(name);
    law_step_names(name);
    lemma_filtered(maintenance_names(), keep, name);
}

proof fn lemma_filtered(
    list: Seq<Seq<char>>,
    keep: spec_fn(Seq<char>) -> bool,
    name: Seq<char>,
)
    ensures
        list.filter(keep).contains(name) <==> list.contains(name) && keep(name),
    decreases list.len(),
{
    reveal(Seq::filter);
    if list.len() > 0 {
        let head = list.drop_last();
        lemma_filtered(head, keep, name);
        let before = head.filter(keep);
        let out = list.filter(keep);
        if list.contains(name) && name != list.last() {
            let k = choose|k: int| 0 <= k < list.len() && list[k] == name;
            assert(head[k] == name);
        }
        if head.contains(name) {
            let k = choose|k: int| 0 <= k < head.len() && head[k] == name;
            assert(list[k] == name);
        }
        if list.last() == name {
            assert(list[list.len() - 1] == name);
        }
        if keep(list.last()) {
            assert(out == before.push(list.last()));
            assert(out[out.len() - 1] == list.last());
            if before.contains(name) {
                let k = choose|k: int| 0 <= k < before.len() && before[k] == name;
                assert(out[k] == name);
            }
            if out.contains(name) && name != list.last() {
                let k = choose|k: int| 0 <= k < out.len() && out[k] == name;
                assert(before[k] == name);
            }
        }
    }
}

/// Every directory that holds a `.git` is a repository, those whose `.git` is a
/// file only where submodules are wanted.
pub proof fn law_repositories(found: Vec<FoundRepo>, submodules: bool, r: Vec<String>)
    requires
        call_ensures(repositories, (&found, submodules), r),
    ensures
        forall|k: int|
            0 <= k < r@.len() ==> exists|i: int|
                0 <= i < found@.len() && (#[trigger] found@[i]).path@ == (#[trigger] r@[k])@ && (
                submodules || found@[i].git_is_dir),
        forall|i: int|
            0 <= i < found@.len() && (submodules || (#[trigger] found@[i]).git_is_dir)
                ==> exists|k: int|
                0 <= k < r@.len() && same_path((#[trigger] r@[k])@, found@[i].path@),
{
    let list = repo_paths(found@, submodules);
    crate::sorting::law_path_set(list);
    assert(texts(r@).len() == r@.len());
    assert forall|k: int| 0 <= k < r@.len() implies exists|i: int|
        0 <= i < found@.len() && (#[trigger] found@[i]).path@ == (#[trigger] r@[k])@ && (submodules
            || found@[i].git_is_dir) by {
        assert(texts(r@)[k] == r@[k]@);
        assert(list.contains(path_set(list)[k]));
        lemma_repo_paths(found@, submodules, r@[k]@);
    }
    assert forall|i: int|
        0 <= i < found@.len() && (submodules || (#[trigger] found@[i]).git_is_dir) implies exists|
        k: int,
    |
        0 <= k < r@.len() && same_path((#[trigger] r@[k])@, found@[i].path@) by {
        lemma_repo_paths(found@, submodules, found@[i].path@);
        let j = choose|j: int| 0 <= j < list.len() && list[j] == found@[i].path@;
        let k = choose|k: int|
            0 <= k < path_set(list).len() && same_path(#[trigger] path_set(list)[k], list[j]);
        assert(texts(r@)[k] == r@[k]@);
    }
}

proof fn lemma_repo_paths(found: Seq<FoundRepo>, submodules: bool, path: Seq<char>)
    ensures
        repo_paths(found, submodules).contains(path) <==> exists|i: int|
            0 <= i < found.len() && (#[trigger] found[i]).path@ == path && (submodules
                || found[i].git_is_dir),
    decreases found.len(),
{
    if found.len() > 0 {
        let head = found.drop_last();
        let last = found.last();
        lemma_repo_paths(head, submodules, path);
        let before = repo_paths(head, submodules);
        let out = repo_paths(found, submodules);
        assert(forall|i: int| 0 <= i < head.len() ==> #[trigger] head[i] == found[i]);
        assert(found[found.len() - 1] == last);
        if before.contains(path) {
            let k = choose|k: int| 0 <= k < before.len() && before[k] == path;
            assert(out[k] == path);
            let i = choose|i: int|
                0 <= i < head.len() && (#[trigger] head[i]).path@ == path && (submodules
                    || head[i].git_is_dir);
            assert(found[i].path@ == path);
        }
        if submodules || last.git_is_dir {
            assert(out[out.len() - 1] == last.path@);
            if out.contains(path) && path != last.path@ {
                let k = choose|k: int| 0 <= k < out.len() && out[k] == path;
                assert(before[k] == path);
            }
        }
        if exists|i: int|
            0 <= i < found.len() && (#[trigger] found[i]).path@ == path && (submodules
                || found[i].git_is_dir) {
            let i = choose|i: int|
                0 <= i < found.len() && (#[trigger] found[i]).path@ == path && (submodules
                    || found[i].git_is_dir);
            if i < head.len() {
                assert(head[i].path@ == path);
            }
        }
    }
}

/// A repository's common directory is what Git says, without blanks around it;
/// where Git fails, or answers with something that is no text, it is not known.
pub proof fn law_git_common_dir(reply: Reply, r: Option<String>)
    requires
        call_ensures(git_common_dir, (&reply,), r),
    ensures
        r is Some <==> reply is Finished && reply->Finished_0.success && valid_utf8(
            reply->Finished_0.stdout@,
        ),
        r is Some ==> r->0@ == trim_of(decode_utf8(reply->Finished_0.stdout@)),
{
}

/// A repository's data is in its `.git`, or where the first line of its `.git`
/// file says: an absolute path is taken as it is, another from the directory
/// that the file is in.
pub proof fn law_resolve_gitdir(
    repo: &str,
    git_is_dir: bool,
    content: Option<String>,
    r: String,
    target: Seq<char>,
    rest: Seq<char>,
)
    requires
        call_ensures(resolve_gitdir, (repo, git_is_dir, &content), r),
        !target.contains('\n'),
        target.len() > 0 ==> target.last() != '\r',
    ensures
        git_is_dir || content is None ==> r@ == joined(repo@, ".git"@),
        !git_is_dir && content is Some && (content->0@ == "gitdir: "@ + target + seq!['\n'] + rest
            || content->0@ == "gitdir: "@ + target) ==> {
            &&& is_absolute_text(target) ==> r@ == target
            &&& !is_absolute_text(target) && parent_of(joined(repo@, ".git"@)) is Some ==> r@
                == joined(parent_of(joined(repo@, ".git"@))->0, target)
        },
{
    reveal_strlit("gitdir: ");
    let line = "gitdir: "@ + target;
    if line.contains('\n') {
        let i = choose|i: int| 0 <= i < line.len() && line[i] == '\n';
        if i >= 8 {
            assert(target[i - 8] == '\n');
        }
    }
    assert(line.last() != '\r') by {
        if target.len() > 0 {
            assert(line.last() == target.last());
        }
    }
    crate::split::law_lines(line, rest);
    assert(line.take(8) =~= "gitdir: "@);
    assert(line.skip(8) =~= target);
    if content is Some {
        if content->0@ == line + seq!['\n'] + rest {
            assert(lines_of(content->0@)[0] == line);
        }
        if content->0@ == line {
            assert(lines_of(content->0@)[0] == line);
        }
        assert(starts_with_of(line, "gitdir: "@));
    }
}

/// A failed step ends the maintenance of a repository, and one that went well
/// does not.
pub proof fn law_after_step(
    step: usize,
    reply: Reply,
    skip: Vec<String>,
    fsck: bool,
    r: Work,
    start: Work,
)
    requires
        step < 7,
        call_ensures(after_step, (step, &reply, &skip, fsck), r),
        call_ensures(begin, (&skip, fsck), start),
    ensures
        r is Failed <==> !(reply is Finished && reply->Finished_0.success),
        r is Failed ==> r->Failed_0 == step,
        reply matches Reply::NotStarted(why) ==> r->Failed_1@ == "failed to invoke git: "@ + why@,
        r is Step ==> step < r->Step_0 < 7 && !texts(skip@).contains(
            maintenance_names()[r->Step_0 as int],
        ),
        r is Step ==> forall|i: int|
            step < i < r->Step_0 ==> texts(skip@).contains(#[trigger] maintenance_names()[i]),
        r is Check || r is Maintained ==> (fsck <==> r is Check) && forall|i: int|
            step < i < 7 ==> texts(skip@).contains(#[trigger] maintenance_names()[i]),
        r is Maintained ==> r->Maintained_0 is None,
        !(start is Failed),
        start is Step ==> start->Step_0 < 7 && !texts(skip@).contains(
            maintenance_names()[start->Step_0 as int],
        ),
        start is Step ==> forall|i: int|
            0 <= i < start->Step_0 ==> texts(skip@).contains(#[trigger] maintenance_names()[i]),
        start is Check || start is Maintained ==> (fsck <==> start is Check) && forall|i: int|
            0 <= i < 7 ==> texts(skip@).contains(#[trigger] maintenance_names()[i]),
{
    law_steps_run_in_order(step as int + 1, texts(skip@));
    law_steps_run_in_order(0, texts(skip@));
}

/// What Git complains of is told on one line: each line that is not blank,
/// without blanks around it.
pub proof fn law_complaints(line: Seq<char>, rest: Seq<char>)
    requires
        !line.contains('\n'),
        line.len() == 0 || line.last() != '\r',
    ensures
        compact_of(Seq::empty()).len() == 0,
        trim_of(line).len() == 0 ==> compact_of(line + seq!['\n'] + rest) == compact_of(rest),
        trim_of(line).len() > 0 && compact_of(rest).len() == 0 && nonempty(
            lines_of(rest).map_values(|line: Seq<char>| trim_of(line)),
        ).len() == 0 ==> compact_of(line + seq!['\n'] + rest) == trim_of(line),
        trim_of(line).len() > 0 && nonempty(
            lines_of(rest).map_values(|line: Seq<char>| trim_of(line)),
        ).len() > 0 ==> compact_of(line + seq!['\n'] + rest) == trim_of(line) + "; "@ + compact_of(
            rest,
        ),
{
    let f = |line: Seq<char>| trim_of(line);
    crate::split::law_lines(line, rest);
    let text = line + seq!['\n'] + rest;
    let some = lines_of(rest).map_values(f);
    assert(lines_of(text).map_values(f) =~= seq![trim_of(line)] + some);
    lemma_nonempty(trim_of(line), some);
    let kept = nonempty(some);
    assert(nonempty(Seq::<Seq<char>>::empty()) =~= Seq::<Seq<char>>::empty()) by {
        reveal(Seq::filter);
    }
    assert(lines_of(Seq::<char>::empty()).map_values(f) =~= Seq::<Seq<char>>::empty());
    assert(compact_of(Seq::empty()) =~= Seq::<char>::empty());
    if trim_of(line).len() > 0 {
        let all = seq![trim_of(line)] + kept;
        if kept.len() == 0 {
            assert(all =~= seq![trim_of(line)]);
            crate::split::law_join(Seq::empty(), trim_of(line), "; "@);
            assert(Seq::<Seq<char>>::empty().push(trim_of(line)) =~= all);
        } else {
            crate::split::lemma_join_front(trim_of(line), kept, "; "@);
        }
    }
}

proof fn lemma_nonempty(first: Seq<char>, rest: Seq<Seq<char>>)
    ensures
        nonempty(seq![first] + rest) == if first.len() > 0 {
            seq![first] + nonempty(rest)
        } else {
            nonempty(rest)
        },
    decreases rest.len(),
{
    reveal(Seq::filter);
    let all = seq![first] + rest;
    if rest.len() == 0 {
        assert(all =~= seq![first]);
        assert(all.drop_last() =~= Seq::<Seq<char>>::empty());
        assert(nonempty(all.drop_last()) =~= Seq::<Seq<char>>::empty());
        assert(nonempty(rest) =~= Seq::<Seq<char>>::empty());
        assert(all.last() == first);
    } else {
        lemma_nonempty(first, rest.drop_last());
        assert(all.drop_last() =~= seq![first] + rest.drop_last());
        assert(all.last() == rest.last());
        if first.len() > 0 {
            assert(nonempty(all) =~= seq![first] + nonempty(rest));
        } else {
            assert(nonempty(all) =~= nonempty(rest));
        }
    }
}

/// Each finding counts under the first word of its line; a blank line is none.
pub proof fn law_findings(list: Seq<Seq<char>>, line: Seq<char>)
    ensures
        first_words(Seq::empty()) == Seq::<Seq<char>>::empty(),
        words_of(line).len() == 0 ==> first_words(list.push(line)) == first_words(list),
        words_of(line).len() > 0 ==> first_words(list.push(line)) == first_words(list).push(
            words_of(line)[0],
        ),
{
    assert(list.push(line).drop_last() =~= list);
}

/// What a check says: how often each finding was told on the error stream,
/// whether Git went well or not.
pub proof fn law_run_fsck(reply: Reply, r: String)
    requires
        call_ensures(run_fsck, (&reply,), r),
    ensures
        reply matches Reply::Finished(done) ==> r@ == counted(
            first_words(lines_of(lossy_text(done.stderr@))),
        ),
        reply matches Reply::NotStarted(why) ==> r@ == "failed to invoke git fsck: "@ + why@,
{
}

/// A repository that shrank adds to what was reclaimed, one that grew to what
/// was added, and one that stayed as it was to neither.
pub proof fn law_totals(before: Totals, after: Totals, from: u64, to: u64)
    requires
        after.grew(before, from, to),
        before.reclaimed + from <= u64::MAX,
        before.added + to <= u64::MAX,
    ensures
        to <= from ==> after.reclaimed == before.reclaimed + (from - to) && after.added
            == before.added,
        to >= from ==> after.added == before.added + (to - from) && after.reclaimed
            == before.reclaimed,
{
}

/// How a change in size is told.
pub proof fn law_deltas(before: u64, after: u64, r: (&'static str, String))
    requires
        call_ensures(delta_components, (before, after), r),
    ensures
        after < before ==> r.0@ == "freed"@ && r.1@ == human_size((before - after) as u64),
        after > before ==> r.0@ == "+"@ && r.1@ == human_size((after - before) as u64),
        after == before ==> r.0@ == "no change"@ && r.1@ == human_size(before),
{
}

/// How the balance of a run is told.
pub proof fn law_balance(reclaimed: u64, added: u64, net: String, whole: String)
    requires
        call_ensures(net_phrase, (reclaimed, added), net),
        call_ensures(freed_summary, (reclaimed, added), whole),
    ensures
        reclaimed >= added ==> net@ == human_size((reclaimed - added) as u64) + " freed"@,
        reclaimed < added ==> net@ == "grew by "@ + human_size((added - reclaimed) as u64),
        added == 0 ==> whole@ == human_size(reclaimed) + " freed"@,
        added > 0 ==> whole@ == net@ + " ("@ + human_size(reclaimed) + " reclaimed, "@ + human_size(
            added,
        ) + " added back)"@,
{
}

/// A run went well exactly where every item did, and reports what was reclaimed
/// less what was added back.
pub proof fn law_outcome(items: Vec<TreeItem>, totals: Totals, r: Outcome)
    requires
        call_ensures(outcome, (&items, &totals), r),
    ensures
        r.summary.items_ok + r.summary.items_failed == items@.len(),
        r.summary.items_ok == ok_count(items_view(items@)),
        r.summary.items_skipped == 0,
        r.all_ok <==> r.summary.items_failed == 0,
        totals.reclaimed >= totals.added ==> r.summary.bytes_freed == totals.reclaimed
            - totals.added,
        totals.reclaimed < totals.added ==> r.summary.bytes_freed == 0,
{
}

/// What is taken where nothing is given.
pub proof fn law_git_defaults()
    ensures
        DEFAULT_DEPTH == 3,
        DEFAULT_CONCURRENCY == 8,
        DEFAULT_SUBMODULES,
{
}

/// Submodules are maintained unless the arguments or the configuration say no,
/// and the other settings come from the arguments, the configuration or the
/// defaults, in this order.
pub proof fn law_resolve_settings(
    args: Args,
    cfg: GitMaintenanceConfig,
    global_roots: Option<Vec<String>>,
    home: Option<String>,
    r: Result<Settings, String>,
)
    requires
        call_ensures(resolve_settings, (&args, &cfg, &global_roots, &home), r),
    ensures
        r matches Ok(s) ==> {
            &&& s.submodules <==> !args.no_submodules && !(cfg.submodules == Some(false))
            &&& s.fsck == args.fsck
            &&& args.depth is Some ==> s.depth == args.depth->0
            &&& args.depth is None && cfg.depth is Some ==> s.depth == cfg.depth->0
            &&& args.depth is None && cfg.depth is None ==> s.depth == 3
            &&& args.concurrency is Some ==> s.concurrency == args.concurrency->0
            &&& args.concurrency is None && cfg.concurrency is Some ==> s.concurrency
                == cfg.concurrency->0
            &&& args.concurrency is None && cfg.concurrency is None ==> s.concurrency == 8
        },
        args.roots@.len() == 0 && cfg.roots is None && global_roots is None ==> r is Err,
{
    assert(texts(args.roots@).len() == args.roots@.len());
}

} // verus!
