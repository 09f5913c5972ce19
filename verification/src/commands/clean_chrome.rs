//! Empties what Chrome fetches again by itself: models, and the caches of service
//! workers.
use super::listing::{
    all_joined, join_all, keep_present, last_two, last_two_components, law_only_wanted_entries,
    lemma_those_present, listed_in, open_data, picked, pid_of, running_pid, those_present, Entry,
    Opening,
};
use super::one_skipped;
use crate::config::{
    choose_flag, choose_text, choose_u32, choose_usize, chosen, expand_tilde, expanded, flag,
    CleanChromeConfig,
};
use crate::path::{
    components_of, is_under, joined, lemma_joined_components, lemma_plain_name, lemma_two_names,
    plain_name, plain_relative,
};
use crate::process::Reply;
use crate::search::{starts_with, starts_with_of};
use crate::sorting::{law_sorted_members, sort_paths, sorted_paths};
use crate::text::{copy_texts, lemma_texts_push, opt_text, opt_texts, same, texts};
use vstd::prelude::*;

verus! {

pub const DEFAULT_DAYS: u32 = 0;

pub const DEFAULT_CONCURRENCY: usize = 4;

pub const DEFAULT_CHROME_DIR: &'static str = "~/Library/Application Support/Google/Chrome";

/// The process whose presence means that Chrome is open.
pub const CHROME_PROCESS: &'static str = "Google Chrome";

/// The models below the directory of Chrome.
pub open spec fn model_dir_names() -> Seq<Seq<char>> {
    seq![
        "OptGuideOnDeviceModel"@,
        "OptGuideOnDeviceClassifierModel"@,
        "optimization_guide_model_store"@,
        "SODA"@,
        "SODALanguagePacks"@,
        "WasmTtsEngine"@,
        "OnDeviceHeadSuggestModel"@,
    ]
}

pub fn default_model_dirs() -> (r: Vec<String>)
    ensures
        texts(r@) == model_dir_names(),
{
    let out: Vec<String> = vec![
        "OptGuideOnDeviceModel".to_string(),
        "OptGuideOnDeviceClassifierModel".to_string(),
        "optimization_guide_model_store".to_string(),
        "SODA".to_string(),
        "SODALanguagePacks".to_string(),
        "WasmTtsEngine".to_string(),
        "OnDeviceHeadSuggestModel".to_string(),
    ];
    assert(texts(out@) =~= model_dir_names());
    out
}

/// What is emptied below each profile. The registrations and scripts of service
/// workers beside it are left alone.
pub open spec fn profile_subdir_names() -> Seq<Seq<char>> {
    seq!["Service Worker/CacheStorage"@]
}

pub fn default_profile_subdirs() -> (r: Vec<String>)
    ensures
        texts(r@) == profile_subdir_names(),
{
    let out: Vec<String> = vec!["Service Worker/CacheStorage".to_string()];
    assert(texts(out@) =~= profile_subdir_names());
    out
}

#[derive(Debug, Default)]
pub struct Args {
    /// The directory of Chrome.
    pub chrome_dir: Option<String>,
    /// Only delete entries older than this many days.
    pub days: Option<u32>,
    /// How many directories are emptied at once.
    pub concurrency: Option<usize>,
    /// Do not ask whether Chrome is open.
    pub skip_running_check: bool,
}

/// What the command works on.
#[derive(Debug)]
pub struct Settings {
    pub chrome_dir: String,
    pub days: u32,
    pub concurrency: usize,
    pub skip_running_check: bool,
    pub model_dirs: Vec<String>,
    pub profile_subdirs: Vec<String>,
}

/// Resolves the settings. A dry run does not ask whether Chrome is open.
pub fn resolve_settings(
    args: &Args,
    cfg: &CleanChromeConfig,
    home: &Option<String>,
    dry_run: bool,
) -> (r: Settings)
    ensures
        r.chrome_dir@ == expanded(
            chosen(opt_text(args.chrome_dir), opt_text(cfg.chrome_dir), DEFAULT_CHROME_DIR@),
            opt_text(*home),
        ),
        r.days == chosen(args.days, cfg.days, DEFAULT_DAYS),
        r.concurrency == chosen(args.concurrency, cfg.concurrency, DEFAULT_CONCURRENCY),
        r.skip_running_check == (flag(args.skip_running_check, cfg.skip_running_check) || dry_run),
        texts(r.model_dirs@) == match opt_texts(cfg.model_dirs) {
            Some(dirs) => dirs,
            None => model_dir_names(),
        },
        texts(r.profile_subdirs@) == match opt_texts(cfg.profile_subdirs) {
            Some(dirs) => dirs,
            None => profile_subdir_names(),
        },
{
    let dir = choose_text(&args.chrome_dir, &cfg.chrome_dir, DEFAULT_CHROME_DIR);
    Settings {
        chrome_dir: expand_tilde(dir.as_str(), home),
        days: choose_u32(args.days, cfg.days, DEFAULT_DAYS),
        concurrency: choose_usize(args.concurrency, cfg.concurrency, DEFAULT_CONCURRENCY),
        skip_running_check: choose_flag(args.skip_running_check, cfg.skip_running_check) || dry_run,
        model_dirs: match &cfg.model_dirs {
            Some(dirs) => copy_texts(dirs),
            None => default_model_dirs(),
        },
        profile_subdirs: match &cfg.profile_subdirs {
            Some(dirs) => copy_texts(dirs),
            None => default_profile_subdirs(),
        },
    }
}

/// Begins the command. Without the directory of Chrome it is skipped.
pub fn open(settings: &Settings, is_dir: bool) -> (r: Opening)
    ensures
        if !is_dir {
            r matches Opening::Done(s) && s == one_skipped()
        } else if settings.skip_running_check {
            r is Go
        } else {
            r matches Opening::AskPid(run) && run.runs("pgrep"@, seq!["-x"@, "Google Chrome"@])
        },
{
    open_data(is_dir, settings.skip_running_check, CHROME_PROCESS)
}

/// The process of Chrome, if it is open.
pub fn chrome_running_pid(reply: &Reply) -> (r: Option<u32>)
    ensures
        r == pid_of(*reply),
{
    running_pid(reply)
}

/// The name of a profile's directory.
pub open spec fn is_profile_name(name: Seq<char>) -> bool {
    name == "Default"@ || starts_with_of(name, "Profile "@)
}

/// The directory of a profile, by its name.
pub open spec fn a_profile() -> spec_fn(Entry) -> bool {
    |e: Entry| e.is_dir && is_profile_name(e.name@)
}

/// Every subdirectory of every profile, profile by profile.
pub open spec fn below_each(profiles: Seq<Seq<char>>, subdirs: Seq<Seq<char>>) -> Seq<Seq<char>>
    decreases profiles.len(),
{
    if profiles.len() == 0 {
        seq![]
    } else {
        below_each(profiles.drop_last(), subdirs) + all_joined(profiles.last(), subdirs)
    }
}

/// Everything that may be emptied: the models, then what is below each profile.
pub open spec fn candidates_of(
    chrome_dir: Seq<char>,
    model_dirs: Seq<Seq<char>>,
    profile_subdirs: Seq<Seq<char>>,
    entries: Seq<Entry>,
) -> Seq<Seq<char>> {
    all_joined(chrome_dir, model_dirs) + below_each(
        sorted_paths(picked(entries, a_profile())),
        profile_subdirs,
    )
}

fn profiles(entries: &Vec<Entry>) -> (r: Vec<String>)
    ensures
        texts(r@) == sorted_paths(picked(entries@, a_profile())),
{
    let mut out: Vec<String> = Vec::new();
    let mut i: usize = 0;
    assert(entries@.take(0) =~= Seq::<Entry>::empty());
    assert(texts(out@) =~= picked(entries@.take(0), a_profile()));
    while i < entries.len()
        invariant
            i <= entries@.len(),
            texts(out@) == picked(entries@.take(i as int), a_profile()),
        decreases entries@.len() - i,
    {
        assert(entries@.take(i as int + 1).drop_last() =~= entries@.take(i as int));
        let name = entries[i].name.as_str();
        if entries[i].is_dir && (same(name, "Default") || starts_with(name, "Profile ")) {
            let path = entries[i].path.clone();
            proof {
                lemma_texts_push(out@, path);
            }
            out.push(path);
        }
        i = i + 1;
    }
    assert(entries@.take(entries@.len() as int) =~= entries@);
    sort_paths(&out)
}

/// Everything that may be emptied, whether or not it is there. `entries` are
/// those of the directory of Chrome.
pub fn candidates(
    chrome_dir: &str,
    model_dirs: &Vec<String>,
    profile_subdirs: &Vec<String>,
    entries: &Vec<Entry>,
) -> (r: Vec<String>)
    ensures
        texts(r@) == candidates_of(
            chrome_dir@,
            texts(model_dirs@),
            texts(profile_subdirs@),
            entries@,
        ),
{
    let mut out = join_all(chrome_dir, model_dirs);
    let ghost start = texts(out@);
    let found = profiles(entries);
    let ghost all = texts(found@);
    let ghost subs = texts(profile_subdirs@);
    let mut i: usize = 0;
    assert(all.take(0) =~= Seq::<Seq<char>>::empty());
    assert(start + below_each(all.take(0), subs) =~= start);
    while i < found.len()
        invariant
            i <= found@.len(),
            all == texts(found@),
            subs == texts(profile_subdirs@),
            texts(out@) == start + below_each(all.take(i as int), subs),
        decreases found@.len() - i,
    {
        proof {
            assert(all.take(i as int + 1).drop_last() =~= all.take(i as int));
            assert(all.take(i as int + 1).last() == found@[i as int]@);
        }
        let mut more = join_all(found[i].as_str(), profile_subdirs);
        let ghost before = out@;
        let ghost added = more@;
        out.append(&mut more);
        proof {
            assert(texts(out@) =~= texts(before) + texts(added));
            assert(start + below_each(all.take(i as int + 1), subs) =~= start + below_each(
                all.take(i as int),
                subs,
            ) + texts(added));
        }
        i = i + 1;
    }
    assert(all.take(all.len() as int) =~= all);
    out
}

/// What is emptied: the candidates that are directories.
pub fn collect_targets(
    chrome_dir: &str,
    model_dirs: &Vec<String>,
    profile_subdirs: &Vec<String>,
    entries: &Vec<Entry>,
    dirs: &Vec<String>,
) -> (r: Vec<String>)
    ensures
        texts(r@) == those_present(
            candidates_of(chrome_dir@, texts(model_dirs@), texts(profile_subdirs@), entries@),
            texts(dirs@),
        ),
{
    let all = candidates(chrome_dir, model_dirs, profile_subdirs, entries);
    keep_present(&all, dirs)
}

/// A directory by its last two components.
pub fn path_label(path: &str) -> (r: String)
    ensures
        r@ == last_two(path@),
{
    last_two_components(path)
}

proof fn lemma_below_each(profiles: Seq<Seq<char>>, subdirs: Seq<Seq<char>>, path: Seq<char>)
    requires
        below_each(profiles, subdirs).contains(path),
    ensures
        exists|i: int, j: int|
            0 <= i < profiles.len() && 0 <= j < subdirs.len() && path == joined(
                #[trigger] profiles[i],
                #[trigger] subdirs[j],
            ),
    decreases profiles.len(),
{
    let head = profiles.drop_last();
    let before = below_each(head, subdirs);
    let more = all_joined(profiles.last(), subdirs);
    let out = below_each(profiles, subdirs);
    let n = choose|n: int| 0 <= n < out.len() && out[n] == path;
    if n < before.len() {
        assert(before[n] == path);
        lemma_below_each(head, subdirs, path);
        let (i, j) = choose|i: int, j: int|
            0 <= i < head.len() && 0 <= j < subdirs.len() && path == joined(
                #[trigger] head[i],
                #[trigger] subdirs[j],
            );
        assert(path == joined(profiles[i], subdirs[j]));
    } else {
        let j = n - before.len();
        assert(more[j] == path);
        let i = profiles.len() - 1;
        assert(path == joined(profiles[i], subdirs[j]));
    }
}

/// Of a profile only the offline copies of its service workers are emptied, and
/// nothing beside them: no cookie, no registration, no setting.
pub proof fn law_profiles_are_kept(
    chrome_dir: Seq<char>,
    entries: Seq<Entry>,
    dirs: Seq<Seq<char>>,
    target: Seq<char>,
    name: Seq<char>,
    path: Seq<char>,
)
    requires
        listed_in(entries, chrome_dir),
        those_present(
            candidates_of(chrome_dir, model_dir_names(), profile_subdir_names(), entries),
            dirs,
        ).contains(target),
        plain_name(name),
        is_profile_name(name),
        is_under(path, joined(chrome_dir, name)),
        is_under(path, target),
    ensures
        is_under(path, joined(joined(chrome_dir, name), "Service Worker/CacheStorage"@)),
{
    let models = all_joined(chrome_dir, model_dir_names());
    let profiles = sorted_paths(picked(entries, a_profile()));
    let all = candidates_of(chrome_dir, model_dir_names(), profile_subdir_names(), entries);
    lemma_those_present(all, dirs, target);
    let n = choose|n: int| 0 <= n < all.len() && all[n] == target;
    let top = components_of(chrome_dir);
    let m = top.len() as int;
    let parts = components_of(path);
    lemma_plain_name(name);
    lemma_joined_components(chrome_dir, name);
    assert(parts.take(m + 1)[m] == name);
    assert(parts[m] == name);
    if n < models.len() {
        let model = model_dir_names()[n];
        assert(target == joined(chrome_dir, model));
        lemma_models(n);
        lemma_plain_name(model);
        lemma_joined_components(chrome_dir, model);
        assert(parts.take(m + 1)[m] == model);
        reveal_strlit("Default");
        reveal_strlit("Profile ");
        assert(name.take(8)[0] == name[0]) by {
            if name != "Default"@ {
                assert(name.len() >= 8);
            }
        }
    } else {
        let subdirs = profile_subdir_names();
        let below = below_each(profiles, subdirs);
        assert(below[n - models.len()] == target);
        lemma_below_each(profiles, subdirs, target);
        let (i, j) = choose|i: int, j: int|
            0 <= i < profiles.len() && 0 <= j < subdirs.len() && target == joined(
                #[trigger] profiles[i],
                #[trigger] subdirs[j],
            );
        assert(profiles.contains(profiles[i]));
        law_sorted_members(picked(entries, a_profile()), profiles[i]);
        law_only_wanted_entries(entries, a_profile(), profiles[i]);
        let e = choose|e: int|
            0 <= e < entries.len() && a_profile()(#[trigger] entries[e]) && entries[e].path@
                == profiles[i];
        let other = entries[e].name@;
        assert(plain_name(other));
        lemma_plain_name(other);
        lemma_joined_components(chrome_dir, other);
        let sub = "Service Worker/CacheStorage"@;
        assert(subdirs[j] == sub);
        lemma_cache_storage();
        lemma_joined_components(profiles[i], sub);
        assert(components_of(target)[m] == other);
        let k = components_of(target).len() as int;
        assert(parts.take(k)[m] == other);
        assert(other == name);
    }
}

proof fn lemma_cache_storage()
    ensures
        plain_relative("Service Worker/CacheStorage"@),
{
    let (a, b) = ("Service Worker"@, "CacheStorage"@);
    reveal_strlit("Service Worker");
    reveal_strlit("CacheStorage");
    reveal_strlit("Service Worker/CacheStorage");
    reveal_strlit("/");
    reveal_strlit(".");
    reveal_strlit("..");
    assert(plain_name(a) && plain_name(b));
    lemma_two_names(a, b);
    assert(a + "/"@ + b =~= "Service Worker/CacheStorage"@);
}

proof fn lemma_models(i: int)
    requires
        0 <= i < model_dir_names().len(),
    ensures
        plain_name(model_dir_names()[i]),
        model_dir_names()[i][0] != 'D',
        model_dir_names()[i][0] != 'P',
{
    reveal_strlit("OptGuideOnDeviceModel");
    reveal_strlit("OptGuideOnDeviceClassifierModel");
    reveal_strlit("optimization_guide_model_store");
    reveal_strlit("SODA");
    reveal_strlit("SODALanguagePacks");
    reveal_strlit("WasmTtsEngine");
    reveal_strlit("OnDeviceHeadSuggestModel");
    reveal_strlit("/");
    reveal_strlit(".");
    reveal_strlit("..");
}

/// A profile is the default one, or one whose name begins with `Profile `.
pub proof fn law_profile_names(name: Seq<char>, rest: Seq<char>)
    ensures
        is_profile_name("Default"@),
        is_profile_name("Profile "@ + rest),
        is_profile_name(name) ==> name == "Default"@ || name == "Profile "@ + name.skip(8),
{
    reveal_strlit("Profile ");
    let s = "Profile "@ + rest;
    assert(s.take(8) =~= "Profile "@);
    if starts_with_of(name, "Profile "@) {
        assert(name =~= "Profile "@ + name.skip(8));
    }
}

/// What may be emptied: each model, and each subdirectory of each profile.
pub proof fn law_candidates(
    chrome_dir: &str,
    model_dirs: Vec<String>,
    profile_subdirs: Vec<String>,
    entries: Vec<Entry>,
    r: Vec<String>,
    i: int,
    j: int,
)
    requires
        call_ensures(candidates, (chrome_dir, &model_dirs, &profile_subdirs, &entries), r),
    ensures
        0 <= i < model_dirs@.len() ==> texts(r@).contains(
            joined(chrome_dir@, model_dirs@[i]@),
        ),
        0 <= i < entries@.len() && entries@[i].is_dir && (entries@[i].name@ == "Default"@
            || starts_with_of(entries@[i].name@, "Profile "@)) && 0 <= j < profile_subdirs@.len()
            ==> texts(r@).contains(joined(entries@[i].path@, profile_subdirs@[j]@)),
{
    let models = all_joined(chrome_dir@, texts(model_dirs@));
    let found = sorted_paths(picked(entries@, a_profile()));
    let below = below_each(found, texts(profile_subdirs@));
    let out = models + below;
    if 0 <= i < model_dirs@.len() {
        assert(models[i] == joined(chrome_dir@, model_dirs@[i]@));
        assert(out[i] == models[i]);
    }
    if 0 <= i < entries@.len() && entries@[i].is_dir && is_profile_name(entries@[i].name@) && 0
        <= j < profile_subdirs@.len() {
        let path = entries@[i].path@;
        assert(a_profile()(entries@[i]));
        law_only_wanted_entries(entries@, a_profile(), path);
        crate::sorting::law_sorted_members(picked(entries@, a_profile()), path);
        assert(texts(profile_subdirs@)[j] == profile_subdirs@[j]@);
        lemma_each_below(found, texts(profile_subdirs@), path, j);
        let wanted = joined(path, profile_subdirs@[j]@);
        let k = choose|k: int| 0 <= k < below.len() && below[k] == wanted;
        assert(out[models.len() + k] == wanted);
    }
}

proof fn lemma_each_below(
    profiles: Seq<Seq<char>>,
    subdirs: Seq<Seq<char>>,
    profile: Seq<char>,
    j: int,
)
    requires
        profiles.contains(profile),
        0 <= j < subdirs.len(),
    ensures
        below_each(profiles, subdirs).contains(joined(profile, subdirs[j])),
    decreases profiles.len(),
{
    let head = profiles.drop_last();
    let before = below_each(head, subdirs);
    let more = all_joined(profiles.last(), subdirs);
    let out = before + more;
    let wanted = joined(profile, subdirs[j]);
    if profile == profiles.last() {
        assert(more[j] == wanted);
        assert(out[before.len() + j] == wanted);
    } else {
        let i = choose|i: int| 0 <= i < profiles.len() && profiles[i] == profile;
        assert(head[i] == profile);
        lemma_each_below(head, subdirs, profile, j);
        let k = choose|k: int| 0 <= k < before.len() && before[k] == wanted;
        assert(out[k] == wanted);
    }
}

/// The models that are emptied where none are configured, and what of a profile.
pub proof fn law_chrome_defaults(models: Vec<String>, subdirs: Vec<String>, name: Seq<char>)
    requires
        call_ensures(default_model_dirs, (), models),
        call_ensures(default_profile_subdirs, (), subdirs),
    ensures
        texts(models@).contains(name) <==> name == "OptGuideOnDeviceModel"@ || name
            == "OptGuideOnDeviceClassifierModel"@ || name == "optimization_guide_model_store"@
            || name == "SODA"@ || name == "SODALanguagePacks"@ || name == "WasmTtsEngine"@ || name
            == "OnDeviceHeadSuggestModel"@,
        texts(subdirs@) == seq!["Service Worker/CacheStorage"@],
{
    let all = model_dir_names();
    assert(all[0] == "OptGuideOnDeviceModel"@ && all[1] == "OptGuideOnDeviceClassifierModel"@);
    assert(all[2] == "optimization_guide_model_store"@ && all[3] == "SODA"@);
    assert(all[4] == "SODALanguagePacks"@ && all[5] == "WasmTtsEngine"@);
    assert(all[6] == "OnDeviceHeadSuggestModel"@);
    if all.contains(name) {
        let k = choose|k: int| 0 <= k < all.len() && all[k] == name;
        assert(k == 0 || k == 1 || k == 2 || k == 3 || k == 4 || k == 5 || k == 6);
    }
}

/// Each setting is the argument's, else the configured one, else its default.
pub proof fn law_resolve_settings(args: Args, cfg: CleanChromeConfig, home: Option<String>, dry_run: bool, r: Settings)
    requires
        call_ensures(resolve_settings, (&args, &cfg, &home, dry_run), r),
    ensures
        args.chrome_dir is Some ==> r.chrome_dir@ == expanded(args.chrome_dir->0@, opt_text(home)),
        args.chrome_dir is None && cfg.chrome_dir is Some ==> r.chrome_dir@ == expanded(cfg.chrome_dir->0@, opt_text(home)),
        args.chrome_dir is None && cfg.chrome_dir is None ==> r.chrome_dir@ == expanded("~/Library/Application Support/Google/Chrome"@, opt_text(home)),
        args.days is Some ==> r.days == args.days->0,
        args.days is None && cfg.days is Some ==> r.days == cfg.days->0,
        args.days is None && cfg.days is None ==> r.days == 0,
        args.concurrency is Some ==> r.concurrency == args.concurrency->0,
        args.concurrency is None && cfg.concurrency is Some ==> r.concurrency == cfg.concurrency->0,
        args.concurrency is None && cfg.concurrency is None ==> r.concurrency == 4,
        r.skip_running_check <==> args.skip_running_check || cfg.skip_running_check == Some(true)
            || dry_run,
        cfg.model_dirs is Some ==> texts(r.model_dirs@) == texts(cfg.model_dirs->0@),
        cfg.model_dirs is None ==> texts(r.model_dirs@) == model_dir_names(),
        cfg.profile_subdirs is Some ==> texts(r.profile_subdirs@) == texts(
            cfg.profile_subdirs->0@,
        ),
        cfg.profile_subdirs is None ==> texts(r.profile_subdirs@) == profile_subdir_names(),
{
}

} // verus!
