//! Empties the caches that Steam builds again by itself.
use super::executor::{label_of, relative_label, scrub_detail, verb_of, CleanProgress, Scrub};
use super::listing::{
    all_joined, join_all, keep_present, law_only_listed_names, open_data, pid_of, running_pid,
    those_present, Opening,
};
use super::{one_skipped, CommandSummary};
use crate::config::{
    choose_flag, choose_text, choose_u32, choose_usize, chosen, expand_tilde, expanded, flag,
    CleanSteamConfig,
};
use crate::path::{
    components_of, is_under, joined, lemma_joined_components, lemma_plain_name, plain_name,
};
use crate::process::Reply;
use crate::sizes::human_size;
use crate::text::{copy_texts, opt_text, opt_texts, texts};
use crate::ui::{failure_detail, Item, ItemDetail};
use vstd::prelude::*;

verus! {

pub const DEFAULT_DAYS: u32 = 0;

pub const DEFAULT_CONCURRENCY: usize = 4;

pub const DEFAULT_STEAM_DIR: &'static str = "~/Library/Application Support/Steam";

/// The process whose presence means that Steam is open.
pub const STEAM_PROCESS: &'static str = "steam_osx";

/// The caches that are emptied, below the directory of Steam: compiled shaders,
/// downloads under way, and metadata. Installed games and their manifests are
/// not among them.
pub open spec fn cache_dir_names() -> Seq<Seq<char>> {
    seq!["steamapps/shadercache"@, "steamapps/downloading"@, "appcache"@]
}

pub fn default_cache_dirs() -> (r: Vec<String>)
    ensures
        texts(r@) == cache_dir_names(),
{
    let out: Vec<String> = vec![
        "steamapps/shadercache".to_string(),
        "steamapps/downloading".to_string(),
        "appcache".to_string(),
    ];
    assert(texts(out@) =~= cache_dir_names());
    out
}

#[derive(Debug, Default)]
pub struct Args {
    /// The directory of Steam.
    pub steam_dir: Option<String>,
    /// Only delete entries older than this many days.
    pub days: Option<u32>,
    /// How many caches are emptied at once.
    pub concurrency: Option<usize>,
    /// Do not ask whether Steam is open.
    pub skip_running_check: bool,
}

/// What the command works on.
#[derive(Debug)]
pub struct Settings {
    pub steam_dir: String,
    pub days: u32,
    pub concurrency: usize,
    pub skip_running_check: bool,
    pub cache_dirs: Vec<String>,
}

/// Resolves the settings. A dry run does not ask whether Steam is open.
pub fn resolve_settings(
    args: &Args,
    cfg: &CleanSteamConfig,
    home: &Option<String>,
    dry_run: bool,
) -> (r: Settings)
    ensures
        r.steam_dir@ == expanded(
            chosen(opt_text(args.steam_dir), opt_text(cfg.steam_dir), DEFAULT_STEAM_DIR@),
            opt_text(*home),
        ),
        r.days == chosen(args.days, cfg.days, DEFAULT_DAYS),
        r.concurrency == chosen(args.concurrency, cfg.concurrency, DEFAULT_CONCURRENCY),
        r.skip_running_check == (flag(args.skip_running_check, cfg.skip_running_check) || dry_run),
        texts(r.cache_dirs@) == match opt_texts(cfg.cache_dirs) {
            Some(dirs) => dirs,
            None => cache_dir_names(),
        },
{
    let dir = choose_text(&args.steam_dir, &cfg.steam_dir, DEFAULT_STEAM_DIR);
    Settings {
        steam_dir: expand_tilde(dir.as_str(), home),
        days: choose_u32(args.days, cfg.days, DEFAULT_DAYS),
        concurrency: choose_usize(args.concurrency, cfg.concurrency, DEFAULT_CONCURRENCY),
        skip_running_check: choose_flag(args.skip_running_check, cfg.skip_running_check) || dry_run,
        cache_dirs: match &cfg.cache_dirs {
            Some(dirs) => copy_texts(dirs),
            None => default_cache_dirs(),
        },
    }
}

/// Begins the command. Without the directory of Steam it is skipped.
pub fn open(settings: &Settings, is_dir: bool) -> (r: Opening)
    ensures
        if !is_dir {
            r matches Opening::Done(s) && s == one_skipped()
        } else if settings.skip_running_check {
            r is Go
        } else {
            r matches Opening::AskPid(run) && run.runs("pgrep"@, seq!["-x"@, "steam_osx"@])
        },
{
    open_data(is_dir, settings.skip_running_check, STEAM_PROCESS)
}

/// The process of Steam, if it is open.
pub fn steam_running_pid(reply: &Reply) -> (r: Option<u32>)
    ensures
        r == pid_of(*reply),
{
    running_pid(reply)
}

/// The caches that there are, in the configured order. `dirs` are the paths that
/// are directories.
pub fn collect_targets(steam_dir: &str, cache_dirs: &Vec<String>, dirs: &Vec<String>) -> (r: Vec<
    String,
>)
    ensures
        texts(r@) == those_present(all_joined(steam_dir@, texts(cache_dirs@)), texts(dirs@)),
{
    let all = join_all(steam_dir, cache_dirs);
    keep_present(&all, dirs)
}

/// Without a cache the command is skipped.
pub fn nothing_found(targets: &Vec<String>) -> (r: Option<CommandSummary>)
    ensures
        r == if targets@.len() == 0 {
            Some(one_skipped())
        } else {
            None
        },
{
    if targets.len() == 0 {
        Some(CommandSummary::skipped_one())
    } else {
        None
    }
}

/// A cache by where it is below the directory of Steam.
pub fn target_label(path: &str, steam_dir: &str) -> (r: String)
    ensures
        r@ == label_of(path@, steam_dir@),
{
    relative_label(path, steam_dir)
}

/// Records a cache whose entries were deleted. It is counted also where some of
/// them could not be, but not where they could not even be listed.
pub fn clean_one(
    progress: &mut CleanProgress,
    label: String,
    scrub: &Result<Scrub, String>,
    elapsed_ms: u64,
) -> (r: String)
    ensures
        match *scrub {
            Ok(done) => final(progress).grew(
                *old(progress),
                (Item {
                    label: label@,
                    detail: scrub_detail(
                        done.freed,
                        opt_text(done.last_err),
                        old(progress).dry_run,
                        elapsed_ms,
                    ),
                    ok: done.last_err is None,
                }),
                done.freed,
                true,
            ),
            Err(why) => final(progress).grew(
                *old(progress),
                (Item { label: label@, detail: failure_detail(why@), ok: false }),
                0,
                false,
            ),
        },
        r@ == verb_of(old(progress).dry_run) + " "@ + human_size(final(progress).total_bytes),
{
    match scrub {
        Ok(done) => {
            let detail = done.detail(progress.dry_run, elapsed_ms);
            progress.push(label, detail, done.all_ok(), done.freed, true)
        },
        Err(why) => progress.push(label, ItemDetail::failure(why.as_str()), false, 0, false),
    }
}

/// Of what Steam keeps in `steamapps`, where the games and their manifests are,
/// only the compiled shaders and the downloads under way are emptied.
pub proof fn law_games_are_kept(
    steam_dir: Seq<char>,
    dirs: Seq<Seq<char>>,
    target: Seq<char>,
    path: Seq<char>,
)
    requires
        those_present(all_joined(steam_dir, cache_dir_names()), dirs).contains(target),
        is_under(path, target),
        is_under(path, joined(steam_dir, "steamapps"@)),
    ensures
        is_under(path, joined(steam_dir, "steamapps/shadercache"@)) || is_under(
            path,
            joined(steam_dir, "steamapps/downloading"@),
        ),
{
    law_only_listed_names(steam_dir, cache_dir_names(), dirs, target);
    let names = cache_dir_names();
    let i = choose|i: int| 0 <= i < names.len() && joined(steam_dir, #[trigger] names[i]) == target;
    assert(names[0] == "steamapps/shadercache"@);
    assert(names[1] == "steamapps/downloading"@);
    assert(names[2] == "appcache"@);
    if i == 2 {
        let (games, cache) = ("steamapps"@, "appcache"@);
        reveal_strlit("steamapps");
        reveal_strlit("appcache");
        reveal_strlit("/");
        reveal_strlit(".");
        reveal_strlit("..");
        assert(plain_name(games) && plain_name(cache));
        lemma_plain_name(games);
        lemma_plain_name(cache);
        lemma_joined_components(steam_dir, games);
        lemma_joined_components(steam_dir, cache);
        let n = components_of(steam_dir).len() as int;
        let all = components_of(path);
        assert(all.take(n + 1)[n] == games);
        assert(all.take(n + 1)[n] == cache);
        assert(games[0] != cache[0]);
    }
}

/// The caches that are emptied where none are configured.
pub proof fn law_steam_defaults(r: Vec<String>)
    requires
        call_ensures(default_cache_dirs, (), r),
    ensures
        texts(r@) == seq!["steamapps/shadercache"@, "steamapps/downloading"@, "appcache"@],
{
}

/// What is emptied: the caches below the directory of Steam that there are.
pub proof fn law_collect_targets(
    steam_dir: &str,
    cache_dirs: Vec<String>,
    dirs: Vec<String>,
    r: Vec<String>,
    path: Seq<char>,
)
    requires
        call_ensures(collect_targets, (steam_dir, &cache_dirs, &dirs), r),
    ensures
        texts(r@).contains(path) <==> texts(dirs@).contains(path) && exists|i: int|
            0 <= i < cache_dirs@.len() && path == joined(
                steam_dir@,
                (#[trigger] cache_dirs@[i])@,
            ),
{
    let names = texts(cache_dirs@);
    law_only_listed_names(steam_dir@, names, texts(dirs@), path);
    if texts(r@).contains(path) {
        let i = choose|i: int| 0 <= i < names.len() && path == joined(steam_dir@, #[trigger] names[i]);
        assert(names[i] == cache_dirs@[i]@);
    }
    if exists|i: int|
        0 <= i < cache_dirs@.len() && path == joined(steam_dir@, (#[trigger] cache_dirs@[i])@) {
        let i = choose|i: int|
            0 <= i < cache_dirs@.len() && path == joined(steam_dir@, (#[trigger] cache_dirs@[i])@);
        assert(names[i] == cache_dirs@[i]@);
    }
}

/// Each setting is the argument's, else the configured one, else its default.
pub proof fn law_resolve_settings(args: Args, cfg: CleanSteamConfig, home: Option<String>, dry_run: bool, r: Settings)
    requires
        call_ensures(resolve_settings, (&args, &cfg, &home, dry_run), r),
    ensures
        args.steam_dir is Some ==> r.steam_dir@ == expanded(args.steam_dir->0@, opt_text(home)),
        args.steam_dir is None && cfg.steam_dir is Some ==> r.steam_dir@ == expanded(cfg.steam_dir->0@, opt_text(home)),
        args.steam_dir is None && cfg.steam_dir is None ==> r.steam_dir@ == expanded("~/Library/Application Support/Steam"@, opt_text(home)),
        args.days is Some ==> r.days == args.days->0,
        args.days is None && cfg.days is Some ==> r.days == cfg.days->0,
        args.days is None && cfg.days is None ==> r.days == 0,
        args.concurrency is Some ==> r.concurrency == args.concurrency->0,
        args.concurrency is None && cfg.concurrency is Some ==> r.concurrency == cfg.concurrency->0,
        args.concurrency is None && cfg.concurrency is None ==> r.concurrency == 4,
        r.skip_running_check <==> args.skip_running_check || cfg.skip_running_check == Some(true)
            || dry_run,
        cfg.cache_dirs is Some ==> texts(r.cache_dirs@) == texts(cfg.cache_dirs->0@),
        cfg.cache_dirs is None ==> texts(r.cache_dirs@) == cache_dir_names(),
{
}

} // verus!
