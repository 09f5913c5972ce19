//! Deletes the caches of desktop apps, and nothing beside them.
use super::listing::{all_joined, join_all, keep_present, those_present};
use crate::config::{
    choose_list, choose_path, choose_u32, choose_usize, chosen, chosen_list, chosen_path,
    default_home_path, home_path, CleanElectronCachesConfig,
};
use crate::path::{join, joined};
use crate::sizes::lower_of;
use crate::sorting::{law_sorted_members, sort_paths, sorted_paths};
use crate::text::{opt_text, opt_texts, texts};
use vstd::prelude::*;

verus! {

pub const DEFAULT_DAYS: u32 = 0;

pub const DEFAULT_CONCURRENCY: usize = 4;

/// The caches of an app. Sessions, settings and indexes are beside them.
pub open spec fn cache_names() -> Seq<Seq<char>> {
    seq!["Cache"@, "Code Cache"@, "GPUCache"@]
}

fn cache_subdirs() -> (r: Vec<String>)
    ensures
        texts(r@) == cache_names(),
{
    let out: Vec<String> = vec![
        "Cache".to_string(),
        "Code Cache".to_string(),
        "GPUCache".to_string(),
    ];
    assert(texts(out@) =~= cache_names());
    out
}

/// The apps whose caches are deleted where none are given. This list is not
/// whole: one app of the documented list, which comes before `BraveSoftware`
/// there, is left out. Its caches are deleted only where it is given by `--app`
/// or in the configuration.
pub open spec fn app_names() -> Seq<Seq<char>> {
    seq![
        "Slack"@,
        "discord"@,
        "Superhuman"@,
        "Termius"@,
        "WorkFlowy"@,
        "Wispr Flow"@,
        "BraveSoftware"@,
    ]
}

/// The apps of [`app_names`], and so without the one app of the documented list
/// that has to be given by `--app` or in the configuration.
pub fn default_apps() -> (r: Vec<String>)
    ensures
        texts(r@) == app_names(),
{
    let out: Vec<String> = vec![
        "Slack".to_string(),
        "discord".to_string(),
        "Superhuman".to_string(),
        "Termius".to_string(),
        "WorkFlowy".to_string(),
        "Wispr Flow".to_string(),
        "BraveSoftware".to_string(),
    ];
    assert(texts(out@) =~= app_names());
    out
}

#[derive(Debug, Default)]
pub struct Args {
    /// The directory that holds those of the apps.
    pub support_dir: Option<String>,
    /// The apps, by the names of their directories.
    pub app: Vec<String>,
    /// Only delete caches older than this many days.
    pub days: Option<u32>,
    /// How many caches are deleted at once.
    pub concurrency: Option<usize>,
}

/// What the command works on.
#[derive(Debug)]
pub struct Settings {
    pub support_dir: String,
    pub apps: Vec<String>,
    pub days: u32,
    pub concurrency: usize,
}

pub fn resolve_settings(args: &Args, cfg: &CleanElectronCachesConfig, home: &Option<String>) -> (r:
    Settings)
    ensures
        r.support_dir@ == chosen_path(
            opt_text(args.support_dir),
            opt_text(cfg.support_dir),
            home_path(opt_text(*home), "Library/Application Support"@),
            opt_text(*home),
        ),
        texts(r.apps@) == chosen_list(texts(args.app@), opt_texts(cfg.apps), app_names()),
        r.days == chosen(args.days, cfg.days, DEFAULT_DAYS),
        r.concurrency == chosen(args.concurrency, cfg.concurrency, DEFAULT_CONCURRENCY),
{
    let fallback = default_home_path(home, "Library/Application Support");
    Settings {
        support_dir: choose_path(&args.support_dir, &cfg.support_dir, fallback.as_str(), home),
        apps: choose_list(&args.app, &cfg.apps, &default_apps()),
        days: choose_u32(args.days, cfg.days, DEFAULT_DAYS),
        concurrency: choose_usize(args.concurrency, cfg.concurrency, DEFAULT_CONCURRENCY),
    }
}

/// The caches of one app that there are. `dirs` are the paths that are
/// directories and no symlinks.
pub fn cache_subdirs_for(app_dir: &str, dirs: &Vec<String>) -> (r: Vec<String>)
    ensures
        texts(r@) == those_present(all_joined(app_dir@, cache_names()), texts(dirs@)),
{
    let all = join_all(app_dir, &cache_subdirs());
    keep_present(&all, dirs)
}

/// The caches of some apps, app by app.
pub open spec fn caches_of(
    support_dir: Seq<char>,
    apps: Seq<Seq<char>>,
    dirs: Seq<Seq<char>>,
) -> Seq<Seq<char>>
    decreases apps.len(),
{
    if apps.len() == 0 {
        seq![]
    } else {
        caches_of(support_dir, apps.drop_last(), dirs) + those_present(
            all_joined(joined(support_dir, apps.last()), cache_names()),
            dirs,
        )
    }
}

/// The caches of the apps that there are, in order.
pub fn find_cache_dirs(support_dir: &str, apps: &Vec<String>, dirs: &Vec<String>) -> (r: Vec<String>)
    ensures
        texts(r@) == sorted_paths(caches_of(support_dir@, texts(apps@), texts(dirs@))),
{
    let mut out: Vec<String> = Vec::new();
    let ghost all = texts(apps@);
    let ghost present = texts(dirs@);
    let mut i: usize = 0;
    assert(all.take(0) =~= Seq::<Seq<char>>::empty());
    assert(texts(out@) =~= caches_of(support_dir@, all.take(0), present));
    while i < apps.len()
        invariant
            i <= apps@.len(),
            all == texts(apps@),
            present == texts(dirs@),
            texts(out@) == caches_of(support_dir@, all.take(i as int), present),
        decreases apps@.len() - i,
    {
        proof {
            assert(all.take(i as int + 1).drop_last() =~= all.take(i as int));
            assert(all.take(i as int + 1).last() == apps@[i as int]@);
        }
        let app_dir = join(support_dir, apps[i].as_str());
        let mut more = cache_subdirs_for(app_dir.as_str(), dirs);
        let ghost before = out@;
        let ghost added = more@;
        out.append(&mut more);
        assert(texts(out@) =~= texts(before) + texts(added));
        i = i + 1;
    }
    assert(all.take(all.len() as int) =~= all);
    sort_paths(&out)
}

/// Everything that may be deleted, whether or not it is there.
pub fn candidates(support_dir: &str, apps: &Vec<String>) -> (r: Vec<String>)
    ensures
        texts(r@) == all_caches(support_dir@, texts(apps@)),
{
    let mut out: Vec<String> = Vec::new();
    let ghost all = texts(apps@);
    let names = cache_subdirs();
    let mut i: usize = 0;
    assert(all.take(0) =~= Seq::<Seq<char>>::empty());
    assert(texts(out@) =~= all_caches(support_dir@, all.take(0)));
    while i < apps.len()
        invariant
            i <= apps@.len(),
            all == texts(apps@),
            texts(names@) == cache_names(),
            texts(out@) == all_caches(support_dir@, all.take(i as int)),
        decreases apps@.len() - i,
    {
        proof {
            assert(all.take(i as int + 1).drop_last() =~= all.take(i as int));
            assert(all.take(i as int + 1).last() == apps@[i as int]@);
        }
        let app_dir = join(support_dir, apps[i].as_str());
        let mut more = join_all(app_dir.as_str(), &names);
        let ghost before = out@;
        let ghost added = more@;
        out.append(&mut more);
        assert(texts(out@) =~= texts(before) + texts(added));
        i = i + 1;
    }
    assert(all.take(all.len() as int) =~= all);
    out
}

/// Every cache of some apps, app by app.
pub open spec fn all_caches(support_dir: Seq<char>, apps: Seq<Seq<char>>) -> Seq<Seq<char>>
    decreases apps.len(),
{
    if apps.len() == 0 {
        seq![]
    } else {
        all_caches(support_dir, apps.drop_last()) + all_joined(
            joined(support_dir, apps.last()),
            cache_names(),
        )
    }
}

/// What is deleted is a cache of one of the apps, and is there.
pub proof fn law_only_caches_of_listed_apps(
    support_dir: Seq<char>,
    apps: Seq<Seq<char>>,
    dirs: Seq<Seq<char>>,
    path: Seq<char>,
)
    requires
        sorted_paths(caches_of(support_dir, apps, dirs)).contains(path),
    ensures
        dirs.contains(path),
        exists|i: int, j: int|
            0 <= i < apps.len() && 0 <= j < cache_names().len() && path == joined(
                joined(support_dir, #[trigger] apps[i]),
                #[trigger] cache_names()[j],
            ),
{
    law_sorted_members(caches_of(support_dir, apps, dirs), path);
    lemma_caches_of(support_dir, apps, dirs, path);
}

proof fn lemma_caches_of(
    support_dir: Seq<char>,
    apps: Seq<Seq<char>>,
    dirs: Seq<Seq<char>>,
    path: Seq<char>,
)
    requires
        caches_of(support_dir, apps, dirs).contains(path),
    ensures
        dirs.contains(path),
        exists|i: int, j: int|
            0 <= i < apps.len() && 0 <= j < cache_names().len() && path == joined(
                joined(support_dir, #[trigger] apps[i]),
                #[trigger] cache_names()[j],
            ),
    decreases apps.len(),
{
    let head = apps.drop_last();
    let before = caches_of(support_dir, head, dirs);
    let base = joined(support_dir, apps.last());
    let more = those_present(all_joined(base, cache_names()), dirs);
    let out = caches_of(support_dir, apps, dirs);
    let k = choose|k: int| 0 <= k < out.len() && out[k] == path;
    if k < before.len() {
        assert(before[k] == path);
        lemma_caches_of(support_dir, head, dirs, path);
        let (i, j) = choose|i: int, j: int|
            0 <= i < head.len() && 0 <= j < cache_names().len() && path == joined(
                joined(support_dir, #[trigger] head[i]),
                #[trigger] cache_names()[j],
            );
        assert(apps[i] == head[i]);
        assert(path == joined(joined(support_dir, apps[i]), cache_names()[j]));
    } else {
        assert(more[k - before.len()] == path);
        super::listing::law_only_listed_names(base, cache_names(), dirs, path);
        let j = choose|j: int|
            0 <= j < cache_names().len() && joined(base, #[trigger] cache_names()[j]) == path;
        let last = apps.len() - 1;
        assert(apps[last] == apps.last());
        assert(path == joined(joined(support_dir, apps[last]), cache_names()[j]));
    }
}

/// Spotify, whose store holds paid downloads, is not among the apps, however it
/// is spelled.
pub proof fn law_spotify_is_not_listed(i: int)
    requires
        0 <= i < app_names().len(),
    ensures
        lower_of(app_names()[i]) != "spotify"@,
{
    reveal_strlit("spotify");
    reveal_strlit("Slack");
    reveal_strlit("discord");
    reveal_strlit("Superhuman");
    reveal_strlit("Termius");
    reveal_strlit("WorkFlowy");
    reveal_strlit("Wispr Flow");
    reveal_strlit("BraveSoftware");
    assert(lower_of(app_names()[i])[0] == crate::sizes::lower(app_names()[i][0]));
    assert(lower_of(app_names()[i]).len() == app_names()[i].len());
    assert(lower_of(app_names()[i])[1] == crate::sizes::lower(app_names()[i][1]));
}

/// Every cache of every app that is there is deleted.
pub proof fn law_every_cache_is_deleted(
    support_dir: &str,
    apps: Vec<String>,
    dirs: Vec<String>,
    r: Vec<String>,
    i: int,
    path: Seq<char>,
)
    requires
        call_ensures(find_cache_dirs, (support_dir, &apps, &dirs), r),
        0 <= i < apps@.len(),
        texts(dirs@).contains(path),
        path == joined(joined(support_dir@, apps@[i]@), "Cache"@) || path == joined(
            joined(support_dir@, apps@[i]@),
            "Code Cache"@,
        ) || path == joined(joined(support_dir@, apps@[i]@), "GPUCache"@),
    ensures
        texts(r@).contains(path),
{
    let names = cache_names();
    assert(names[0] == "Cache"@ && names[1] == "Code Cache"@ && names[2] == "GPUCache"@);
    let all = texts(apps@);
    assert(all[i] == apps@[i]@);
    lemma_each_cache(support_dir@, all, texts(dirs@), i, path);
    crate::sorting::law_sorted_members(caches_of(support_dir@, all, texts(dirs@)), path);
}

proof fn lemma_each_cache(
    support_dir: Seq<char>,
    apps: Seq<Seq<char>>,
    dirs: Seq<Seq<char>>,
    i: int,
    path: Seq<char>,
)
    requires
        0 <= i < apps.len(),
        dirs.contains(path),
        exists|j: int|
            0 <= j < cache_names().len() && path == joined(
                joined(support_dir, apps[i]),
                #[trigger] cache_names()[j],
            ),
    ensures
        caches_of(support_dir, apps, dirs).contains(path),
    decreases apps.len(),
{
    let head = apps.drop_last();
    let before = caches_of(support_dir, head, dirs);
    let more = those_present(all_joined(joined(support_dir, apps.last()), cache_names()), dirs);
    let out = before + more;
    if i < head.len() {
        assert(head[i] == apps[i]);
        lemma_each_cache(support_dir, head, dirs, i, path);
        let k = choose|k: int| 0 <= k < before.len() && before[k] == path;
        assert(out[k] == path);
    } else {
        super::listing::law_only_listed_names(joined(support_dir, apps.last()), cache_names(), dirs, path);
        let k = choose|k: int| 0 <= k < more.len() && more[k] == path;
        assert(out[before.len() + k] == path);
    }
}

/// The caches of an app, and nothing else of it, are deleted.
pub proof fn law_names_of_caches(name: Seq<char>)
    ensures
        cache_names().contains(name) <==> name == "Cache"@ || name == "Code Cache"@ || name
            == "GPUCache"@,
{
    let all = cache_names();
    assert(all[0] == "Cache"@ && all[1] == "Code Cache"@ && all[2] == "GPUCache"@);
    if all.contains(name) {
        let k = choose|k: int| 0 <= k < all.len() && all[k] == name;
        assert(k == 0 || k == 1 || k == 2);
    }
}

/// The apps whose caches are deleted where none are given, in order.
pub proof fn law_default_apps(r: Vec<String>)
    requires
        call_ensures(default_apps, (), r),
    ensures
        texts(r@) == seq![
            "Slack"@,
            "discord"@,
            "Superhuman"@,
            "Termius"@,
            "WorkFlowy"@,
            "Wispr Flow"@,
            "BraveSoftware"@,
        ],
{
}

/// Each setting is the argument's, else the configured one, else its default.
pub proof fn law_resolve_settings(args: Args, cfg: CleanElectronCachesConfig, home: Option<String>, r: Settings)
    requires
        call_ensures(resolve_settings, (&args, &cfg, &home), r),
    ensures
        args.support_dir is Some ==> r.support_dir@ == crate::config::expanded(args.support_dir->0@, opt_text(home)),
        args.support_dir is None && cfg.support_dir is Some ==> r.support_dir@ == crate::config::expanded(cfg.support_dir->0@, opt_text(home)),
        args.support_dir is None && cfg.support_dir is None ==> r.support_dir@ == home_path(opt_text(home), "Library/Application Support"@),
        args.days is Some ==> r.days == args.days->0,
        args.days is None && cfg.days is Some ==> r.days == cfg.days->0,
        args.days is None && cfg.days is None ==> r.days == 0,
        args.concurrency is Some ==> r.concurrency == args.concurrency->0,
        args.concurrency is None && cfg.concurrency is Some ==> r.concurrency == cfg.concurrency->0,
        args.concurrency is None && cfg.concurrency is None ==> r.concurrency == 4,
        args.app@.len() > 0 ==> texts(r.apps@) == texts(args.app@),
        args.app@.len() == 0 && cfg.apps is Some && cfg.apps->0@.len() > 0 ==> texts(r.apps@)
            == texts(cfg.apps->0@),
        args.app@.len() == 0 && (cfg.apps is None || cfg.apps->0@.len() == 0) ==> texts(r.apps@)
            == app_names(),
{
    assert(texts(args.app@).len() == args.app@.len());
    if cfg.apps is Some {
        assert(texts(cfg.apps->0@).len() == cfg.apps->0@.len());
    }
}

} // verus!
