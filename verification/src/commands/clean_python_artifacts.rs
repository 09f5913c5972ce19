//! Deletes the bytecode and the virtual environments of Python projects.
use super::executor::{label_of, relative_label};
use crate::config::{
    choose_flag, choose_u32, choose_usize, chosen, flag, no_roots_message, resolve_roots, roots_of,
    CleanPythonArtifactsConfig,
};
use crate::path::{is_under, starts_with};
use crate::sorting::{path_set, sort_and_dedup};
use crate::text::{lemma_texts_push, opt_text, opt_texts, same, texts};
use crate::walk::{older, older_than_days};
use vstd::prelude::*;

verus! {

pub const DEFAULT_DEPTH: usize = 8;

pub const DEFAULT_DAYS: u32 = 30;

pub const DEFAULT_CONCURRENCY: usize = 4;

#[derive(Debug, Default)]
pub struct Args {
    /// Roots to search for artifacts.
    pub roots: Vec<String>,
    /// How deep artifacts are searched for.
    pub depth: Option<usize>,
    /// Only take artifacts older than this many days.
    pub days: Option<u32>,
    /// How many artifacts are deleted at once.
    pub concurrency: Option<usize>,
    /// Delete virtual environments, where the default is to report them.
    pub remove_virtualenvs: bool,
}

/// What the command works on.
#[derive(Debug)]
pub struct Settings {
    pub roots: Vec<String>,
    pub depth: usize,
    pub days: u32,
    pub concurrency: usize,
    pub remove_virtualenvs: bool,
}

/// Resolves the settings. Missing roots are an error.
pub fn resolve_settings(
    args: &Args,
    cfg: &CleanPythonArtifactsConfig,
    global_roots: &Option<Vec<String>>,
    home: &Option<String>,
) -> (r: Result<Settings, String>)
    ensures
        ({
            let roots = roots_of(
                texts(args.roots@),
                opt_texts(cfg.roots),
                opt_texts(*global_roots),
                opt_text(*home),
            );
            match r {
                Ok(s) => {
                    &&& roots == Some(texts(s.roots@))
                    &&& s.depth == chosen(args.depth, cfg.depth, DEFAULT_DEPTH)
                    &&& s.days == chosen(args.days, cfg.days, DEFAULT_DAYS)
                    &&& s.concurrency == chosen(
                        args.concurrency,
                        cfg.concurrency,
                        DEFAULT_CONCURRENCY,
                    )
                    &&& s.remove_virtualenvs == flag(
                        args.remove_virtualenvs,
                        cfg.remove_virtualenvs,
                    )
                },
                Err(message) => roots is None && message@ == no_roots_message(
                    "clean_python_artifacts"@,
                ),
            }
        }),
{
    match resolve_roots(&args.roots, &cfg.roots, global_roots, "clean_python_artifacts", home) {
        Err(message) => Err(message),
        Ok(roots) => Ok(
            Settings {
                roots,
                depth: choose_usize(args.depth, cfg.depth, DEFAULT_DEPTH),
                days: choose_u32(args.days, cfg.days, DEFAULT_DAYS),
                concurrency: choose_usize(args.concurrency, cfg.concurrency, DEFAULT_CONCURRENCY),
                remove_virtualenvs: choose_flag(args.remove_virtualenvs, cfg.remove_virtualenvs),
            },
        ),
    }
}

/// What a directory is to the search.
#[derive(Debug, Clone, Copy, PartialEq, Eq, Structural)]
pub enum Kind {
    Bytecode,
    Virtualenv,
    /// Of no interest, with all that is below it.
    Pruned,
    /// Searched.
    Other,
}

pub open spec fn kind_of(name: Seq<char>) -> Kind {
    if name == "__pycache__"@ {
        Kind::Bytecode
    } else if name == ".venv"@ {
        Kind::Virtualenv
    } else if name == ".git"@ || name == "build"@ || name == "dist"@ || name == "node_modules"@
        || name == "target"@ {
        Kind::Pruned
    } else {
        Kind::Other
    }
}

/// Recognises a directory by its name.
pub fn kind(name: &str) -> (r: Kind)
    ensures
        r == kind_of(name@),
{
    if same(name, "__pycache__") {
        Kind::Bytecode
    } else if same(name, ".venv") {
        Kind::Virtualenv
    } else if same(name, ".git") || same(name, "build") || same(name, "dist") || same(
        name,
        "node_modules",
    ) || same(name, "target") {
        Kind::Pruned
    } else {
        Kind::Other
    }
}

/// Whether the search goes on below an entry: below every directory that is no
/// artifact and is not pruned.
pub fn descends(is_dir: bool, name: &str) -> (r: bool)
    ensures
        r == (is_dir && kind_of(name@) == Kind::Other),
{
    is_dir && match kind(name) {
        Kind::Other => true,
        _ => false,
    }
}

/// An entry that the search came to.
#[derive(Debug)]
pub struct Seen {
    pub path: String,
    pub name: String,
    pub is_dir: bool,
    pub mtime: Option<u64>,
}

/// The directories of a kind that are old enough, in the order of the search.
pub open spec fn of_kind(seen: Seq<Seen>, kind: Kind, now: u64, days: u32) -> Seq<Seq<char>>
    decreases seen.len(),
{
    if seen.len() == 0 {
        seq![]
    } else {
        let before = of_kind(seen.drop_last(), kind, now, days);
        let last = seen.last();
        if last.is_dir && kind_of(last.name@) == kind && older(last.mtime, now, days) {
            before.push(last.path@)
        } else {
            before
        }
    }
}

/// What may be deleted.
#[derive(Debug)]
pub struct Artifacts {
    pub bytecode: Vec<String>,
    pub virtualenvs: Vec<String>,
}

/// Sorts out what the search came to. Each list is in order, each path once.
pub fn discover_artifacts(seen: &Vec<Seen>, now: u64, days: u32) -> (r: Artifacts)
    ensures
        texts(r.bytecode@) == path_set(of_kind(seen@, Kind::Bytecode, now, days)),
        texts(r.virtualenvs@) == path_set(of_kind(seen@, Kind::Virtualenv, now, days)),
{
    let mut bytecode: Vec<String> = Vec::new();
    let mut virtualenvs: Vec<String> = Vec::new();
    let mut i: usize = 0;
    assert(seen@.take(0) =~= Seq::<Seen>::empty());
    assert(texts(bytecode@) =~= seq![]);
    assert(texts(virtualenvs@) =~= seq![]);
    while i < seen.len()
        invariant
            i <= seen@.len(),
            texts(bytecode@) == of_kind(seen@.take(i as int), Kind::Bytecode, now, days),
            texts(virtualenvs@) == of_kind(seen@.take(i as int), Kind::Virtualenv, now, days),
        decreases seen@.len() - i,
    {
        assert(seen@.take(i as int + 1).drop_last() =~= seen@.take(i as int));
        if seen[i].is_dir && older_than_days(seen[i].mtime, now, days) {
            let path = seen[i].path.clone();
            match kind(seen[i].name.as_str()) {
                Kind::Bytecode => {
                    proof {
                        lemma_texts_push(bytecode@, path);
                    }
                    bytecode.push(path);
                },
                Kind::Virtualenv => {
                    proof {
                        lemma_texts_push(virtualenvs@, path);
                    }
                    virtualenvs.push(path);
                },
                _ => {},
            }
        }
        i = i + 1;
    }
    assert(seen@.take(seen@.len() as int) =~= seen@);
    Artifacts { bytecode: sort_and_dedup(&bytecode), virtualenvs: sort_and_dedup(&virtualenvs) }
}

/// Whether virtual environments are worked on, rather than only reported. A dry
/// run shows what would become of them.
pub fn takes_virtualenvs(settings: &Settings, dry_run: bool) -> (r: bool)
    ensures
        r == (settings.remove_virtualenvs || dry_run),
{
    settings.remove_virtualenvs || dry_run
}

/// An artifact by where it is below the first root above it, or in full.
pub open spec fn artifact_label_of(path: Seq<char>, roots: Seq<Seq<char>>) -> Seq<char>
    decreases roots.len(),
{
    if roots.len() == 0 {
        path
    } else if is_under(path, roots[0]) {
        label_of(path, roots[0])
    } else {
        artifact_label_of(path, roots.drop_first())
    }
}

pub fn artifact_label(path: &str, roots: &Vec<String>) -> (r: String)
    ensures
        r@ == artifact_label_of(path@, texts(roots@)),
{
    let ghost all = texts(roots@);
    let mut i: usize = 0;
    assert(all.skip(0) =~= all);
    while i < roots.len()
        invariant
            i <= roots@.len(),
            all == texts(roots@),
            artifact_label_of(path@, all) == artifact_label_of(path@, all.skip(i as int)),
        decreases roots@.len() - i,
    {
        proof {
            assert(all.skip(i as int)[0] == roots@[i as int]@);
            assert(all.skip(i as int).drop_first() =~= all.skip(i as int + 1));
        }
        if starts_with(path, roots[i].as_str()) {
            return relative_label(path, roots[i].as_str());
        }
        i = i + 1;
    }
    path.to_owned()
}

/// What a directory is goes by its name alone.
pub proof fn law_kinds(name: &str, is_dir: bool, k: Kind, below: bool)
    requires
        call_ensures(kind, (name,), k),
        call_ensures(descends, (is_dir, name), below),
    ensures
        k == Kind::Bytecode <==> name@ == "__pycache__"@,
        k == Kind::Virtualenv <==> name@ == ".venv"@,
        k == Kind::Pruned <==> name@ == ".git"@ || name@ == "build"@ || name@ == "dist"@ || name@
            == "node_modules"@ || name@ == "target"@,
        below <==> is_dir && k == Kind::Other,
{
    reveal_strlit("__pycache__");
    reveal_strlit(".venv");
    reveal_strlit(".git");
    reveal_strlit("build");
    reveal_strlit("dist");
    reveal_strlit("node_modules");
    reveal_strlit("target");
    assert(".venv"@.len() != "__pycache__"@.len());
    assert(".git"@.len() != "__pycache__"@.len());
    assert("build"@.len() != "__pycache__"@.len());
    assert("dist"@.len() != "__pycache__"@.len());
    assert("node_modules"@.len() != "__pycache__"@.len());
    assert("target"@.len() != "__pycache__"@.len());
    assert(".git"@.len() != ".venv"@.len());
    assert("build"@[0] != ".venv"@[0]);
    assert("dist"@.len() != ".venv"@.len());
    assert("node_modules"@.len() != ".venv"@.len());
    assert("target"@.len() != ".venv"@.len());
}

/// One more directory counts under its kind where it is old enough.
pub proof fn law_every_directory(
    seen: Seq<Seen>,
    one: Seen,
    kind: Kind,
    now: u64,
    days: u32,
)
    ensures
        of_kind(Seq::empty(), kind, now, days) == Seq::<Seq<char>>::empty(),
        of_kind(seen.push(one), kind, now, days) == if one.is_dir && kind_of(one.name@) == kind && (
        days == 0 || (one.mtime is Some && now - one.mtime->0 > days * 86_400)) {
            of_kind(seen, kind, now, days).push(one.path@)
        } else {
            of_kind(seen, kind, now, days)
        },
{
    assert(seen.push(one).drop_last() =~= seen);
}

/// What [`discover_artifacts`] gives are the old directories of each kind.
pub proof fn law_discover_artifacts(seen: Vec<Seen>, now: u64, days: u32, r: Artifacts, i: int)
    requires
        call_ensures(discover_artifacts, (&seen, now, days), r),
        0 <= i < seen@.len(),
        seen@[i].is_dir,
        days == 0 || (seen@[i].mtime is Some && now - seen@[i].mtime->0 > days * 86_400),
    ensures
        seen@[i].name@ == "__pycache__"@ ==> exists|k: int|
            0 <= k < r.bytecode@.len() && crate::path::same_path(
                (#[trigger] r.bytecode@[k])@,
                seen@[i].path@,
            ),
        seen@[i].name@ == ".venv"@ ==> exists|k: int|
            0 <= k < r.virtualenvs@.len() && crate::path::same_path(
                (#[trigger] r.virtualenvs@[k])@,
                seen@[i].path@,
            ),
{
    reveal_strlit("__pycache__");
    reveal_strlit(".venv");
    assert(".venv"@.len() != "__pycache__"@.len());
    if seen@[i].name@ == "__pycache__"@ {
        lemma_of_kind(seen@, Kind::Bytecode, now, days, i);
        let list = of_kind(seen@, Kind::Bytecode, now, days);
        crate::sorting::law_path_set(list);
        let j = choose|j: int| 0 <= j < list.len() && list[j] == seen@[i].path@;
        let k = choose|k: int|
            0 <= k < path_set(list).len() && crate::path::same_path(
                #[trigger] path_set(list)[k],
                list[j],
            );
        assert(texts(r.bytecode@)[k] == r.bytecode@[k]@);
    }
    if seen@[i].name@ == ".venv"@ {
        lemma_of_kind(seen@, Kind::Virtualenv, now, days, i);
        let list = of_kind(seen@, Kind::Virtualenv, now, days);
        crate::sorting::law_path_set(list);
        let j = choose|j: int| 0 <= j < list.len() && list[j] == seen@[i].path@;
        let k = choose|k: int|
            0 <= k < path_set(list).len() && crate::path::same_path(
                #[trigger] path_set(list)[k],
                list[j],
            );
        assert(texts(r.virtualenvs@)[k] == r.virtualenvs@[k]@);
    }
}

proof fn lemma_of_kind(seen: Seq<Seen>, kind: Kind, now: u64, days: u32, i: int)
    requires
        0 <= i < seen.len(),
        seen[i].is_dir,
        kind_of(seen[i].name@) == kind,
        days == 0 || (seen[i].mtime is Some && now - seen[i].mtime->0 > days * 86_400),
    ensures
        of_kind(seen, kind, now, days).contains(seen[i].path@),
    decreases seen.len(),
{
    let head = seen.drop_last();
    law_every_directory(head, seen.last(), kind, now, days);
    assert(head.push(seen.last()) =~= seen);
    let out = of_kind(seen, kind, now, days);
    if i < head.len() {
        assert(head[i] == seen[i]);
        lemma_of_kind(head, kind, now, days, i);
        let before = of_kind(head, kind, now, days);
        let k = choose|k: int| 0 <= k < before.len() && before[k] == seen[i].path@;
        assert(out[k] == seen[i].path@);
    } else {
        assert(out[out.len() - 1] == seen[i].path@);
    }
}

/// Virtual environments are only reported unless their removal is asked for, or
/// the run is a dry run.
pub proof fn law_takes_virtualenvs(settings: Settings, dry_run: bool, r: bool)
    requires
        call_ensures(takes_virtualenvs, (&settings, dry_run), r),
    ensures
        r <==> settings.remove_virtualenvs || dry_run,
{
}

/// An artifact below the first root goes by where it is below that root; where
/// it is below no root, in full.
pub proof fn law_artifact_labels(path: Seq<char>, root: Seq<char>, roots: Seq<Seq<char>>)
    ensures
        artifact_label_of(path, Seq::empty()) == path,
        is_under(path, root) ==> artifact_label_of(path, seq![root] + roots) == label_of(path, root),
        !is_under(path, root) ==> artifact_label_of(path, seq![root] + roots) == artifact_label_of(
            path,
            roots,
        ),
{
    let all = seq![root] + roots;
    assert(all.drop_first() =~= roots);
    assert(all[0] == root);
}

/// Each setting is the argument's, else the configured one, else its default.
pub proof fn law_resolve_settings(
    args: Args,
    cfg: CleanPythonArtifactsConfig,
    global_roots: Option<Vec<String>>,
    home: Option<String>,
    r: Result<Settings, String>,
)
    requires
        call_ensures(resolve_settings, (&args, &cfg, &global_roots, &home), r),
    ensures
        r matches Ok(s) ==> {
            &&& args.depth is Some ==> s.depth == args.depth->0
            &&& args.depth is None && cfg.depth is Some ==> s.depth == cfg.depth->0
            &&& args.depth is None && cfg.depth is None ==> s.depth == 8
            &&& args.days is Some ==> s.days == args.days->0
            &&& args.days is None && cfg.days is Some ==> s.days == cfg.days->0
            &&& args.days is None && cfg.days is None ==> s.days == 30
            &&& args.concurrency is Some ==> s.concurrency == args.concurrency->0
            &&& args.concurrency is None && cfg.concurrency is Some ==> s.concurrency
                == cfg.concurrency->0
            &&& args.concurrency is None && cfg.concurrency is None ==> s.concurrency == 4
            &&& s.remove_virtualenvs <==> args.remove_virtualenvs || cfg.remove_virtualenvs == Some(
                true,
            )
        },
        args.roots@.len() == 0 && cfg.roots is None && global_roots is None ==> r is Err,
        args.roots@.len() > 0 ==> r is Ok,
{
    assert(texts(args.roots@).len() == args.roots@.len());
}

} // verus!
