//! Empties the caches of apps that have no command of their own.
use super::listing::{keep_present, last_two, last_two_components, those_present};
use crate::config::{
    all_expanded, choose_u32, choose_usize, chosen, expand_tildes, CleanLibraryCachesConfig,
};
use crate::text::{opt_text, opt_texts, texts};
use vstd::prelude::*;

verus! {

pub const DEFAULT_DAYS: u32 = 0;

pub const DEFAULT_CONCURRENCY: usize = 4;

/// The caches that are emptied where none are given.
pub open spec fn cache_paths() -> Seq<Seq<char>> {
    seq![
        "~/Library/Caches/Google/Chrome"@,
        "~/Library/Caches/com.spotify.client"@,
        "~/Library/Caches/Steam"@,
        "~/Library/Caches/com.colliderli.iina"@,
        "~/Library/Caches/termius-updater"@,
        "~/Library/Caches/@spotlightjsspotlight-updater"@,
        "~/Library/Caches/superhuman-updater"@,
        "~/Library/Caches/virtualenv"@,
        "~/Library/Caches/bazelisk"@,
        "~/Library/Caches/typescript"@,
    ]
}

pub fn default_paths(home: &Option<String>) -> (r: Vec<String>)
    ensures
        texts(r@) == all_expanded(cache_paths(), opt_text(*home)),
{
    let list: Vec<String> = vec![
        "~/Library/Caches/Google/Chrome".to_string(),
        "~/Library/Caches/com.spotify.client".to_string(),
        "~/Library/Caches/Steam".to_string(),
        "~/Library/Caches/com.colliderli.iina".to_string(),
        "~/Library/Caches/termius-updater".to_string(),
        "~/Library/Caches/@spotlightjsspotlight-updater".to_string(),
        "~/Library/Caches/superhuman-updater".to_string(),
        "~/Library/Caches/virtualenv".to_string(),
        "~/Library/Caches/bazelisk".to_string(),
        "~/Library/Caches/typescript".to_string(),
    ];
    assert(texts(list@) =~= cache_paths());
    expand_tildes(&list, home)
}

#[derive(Debug, Default)]
pub struct Args {
    /// The caches to empty.
    pub path: Vec<String>,
    /// Only delete entries older than this many days.
    pub days: Option<u32>,
    /// How many caches are emptied at once.
    pub concurrency: Option<usize>,
}

/// What the command works on.
#[derive(Debug)]
pub struct Settings {
    pub paths: Vec<String>,
    pub days: u32,
    pub concurrency: usize,
}

/// The caches to empty: those of the command line, else the configured ones, else
/// the default ones. An empty list counts as not given.
pub open spec fn chosen_paths(
    cli: Seq<Seq<char>>,
    configured: Option<Seq<Seq<char>>>,
    home: Option<Seq<char>>,
) -> Seq<Seq<char>> {
    if cli.len() > 0 {
        all_expanded(cli, home)
    } else {
        match configured {
            Some(list) if list.len() > 0 => all_expanded(list, home),
            _ => all_expanded(cache_paths(), home),
        }
    }
}

pub fn resolve_settings(args: &Args, cfg: &CleanLibraryCachesConfig, home: &Option<String>) -> (r:
    Settings)
    ensures
        texts(r.paths@) == chosen_paths(texts(args.path@), opt_texts(cfg.paths), opt_text(*home)),
        r.days == chosen(args.days, cfg.days, DEFAULT_DAYS),
        r.concurrency == chosen(args.concurrency, cfg.concurrency, DEFAULT_CONCURRENCY),
{
    assert(texts(args.path@).len() == args.path@.len());
    let paths: Vec<String> = if args.path.len() > 0 {
        expand_tildes(&args.path, home)
    } else {
        match &cfg.paths {
            Some(list) => {
                assert(texts(list@).len() == list@.len());
                if list.len() > 0 {
                    expand_tildes(list, home)
                } else {
                    default_paths(home)
                }
            },
            None => default_paths(home),
        }
    };
    Settings {
        paths,
        days: choose_u32(args.days, cfg.days, DEFAULT_DAYS),
        concurrency: choose_usize(args.concurrency, cfg.concurrency, DEFAULT_CONCURRENCY),
    }
}

/// The caches that there are. `dirs` are the paths that are directories.
pub fn collect_targets(settings: &Settings, dirs: &Vec<String>) -> (r: Vec<String>)
    ensures
        texts(r@) == those_present(texts(settings.paths@), texts(dirs@)),
{
    keep_present(&settings.paths, dirs)
}

/// A cache by the last two components of its path.
pub fn path_label(path: &str) -> (r: String)
    ensures
        r@ == last_two(path@),
{
    last_two_components(path)
}

/// The caches that are emptied where none are given.
pub proof fn law_default_paths(home: Option<String>, r: Vec<String>)
    requires
        call_ensures(default_paths, (&home,), r),
    ensures
        texts(r@) == all_expanded(
            seq![
                "~/Library/Caches/Google/Chrome"@,
                "~/Library/Caches/com.spotify.client"@,
                "~/Library/Caches/Steam"@,
                "~/Library/Caches/com.colliderli.iina"@,
                "~/Library/Caches/termius-updater"@,
                "~/Library/Caches/@spotlightjsspotlight-updater"@,
                "~/Library/Caches/superhuman-updater"@,
                "~/Library/Caches/virtualenv"@,
                "~/Library/Caches/bazelisk"@,
                "~/Library/Caches/typescript"@,
            ],
            opt_text(home),
        ),
{
}

/// What is emptied: the chosen caches that are directories.
pub proof fn law_collect_targets(
    settings: Settings,
    dirs: Vec<String>,
    r: Vec<String>,
    path: Seq<char>,
)
    requires
        call_ensures(collect_targets, (&settings, &dirs), r),
    ensures
        texts(r@).contains(path) <==> texts(settings.paths@).contains(path) && texts(
            dirs@,
        ).contains(path),
{
    super::listing::lemma_those_present(texts(settings.paths@), texts(dirs@), path);
}

/// Each setting is the argument's, else the configured one, else its default.
pub proof fn law_resolve_settings(args: Args, cfg: CleanLibraryCachesConfig, home: Option<String>, r: Settings)
    requires
        call_ensures(resolve_settings, (&args, &cfg, &home), r),
    ensures
        args.days is Some ==> r.days == args.days->0,
        args.days is None && cfg.days is Some ==> r.days == cfg.days->0,
        args.days is None && cfg.days is None ==> r.days == 0,
        args.concurrency is Some ==> r.concurrency == args.concurrency->0,
        args.concurrency is None && cfg.concurrency is Some ==> r.concurrency == cfg.concurrency->0,
        args.concurrency is None && cfg.concurrency is None ==> r.concurrency == 4,
        args.path@.len() > 0 ==> texts(r.paths@) == all_expanded(
            texts(args.path@),
            opt_text(home),
        ),
        args.path@.len() == 0 && cfg.paths is Some && cfg.paths->0@.len() > 0 ==> texts(r.paths@)
            == all_expanded(texts(cfg.paths->0@), opt_text(home)),
        args.path@.len() == 0 && (cfg.paths is None || cfg.paths->0@.len() == 0) ==> texts(
            r.paths@,
        ) == all_expanded(cache_paths(), opt_text(home)),
{
    assert(texts(args.path@).len() == args.path@.len());
    if cfg.paths is Some {
        assert(texts(cfg.paths->0@).len() == cfg.paths->0@.len());
    }
}

} // verus!
