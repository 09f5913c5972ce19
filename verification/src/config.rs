//! The configuration file, and how paths and roots are resolved from it.
use crate::path::{join, joined};
use crate::search::{starts_with_of, strip_prefix};
use crate::split::{fields, fields_of};
use crate::text::{copy_texts, lemma_texts_push, opt_text, opt_texts, same, texts};
use crate::ui::{char_count, nonempty};
use vstd::prelude::*;

verus! {

/// The whole configuration. Everything is optional.
#[derive(Debug, Default)]
pub struct AppConfig {
    pub roots: Option<Vec<String>>,
    pub walk: WalkConfig,
    pub logging: LoggingConfig,
    pub git_maintenance: GitMaintenanceConfig,
    pub clean_maven: CleanMavenConfig,
    pub clean_node: CleanNodeConfig,
    pub clean_cargo: CleanCargoConfig,
    pub clean_m2: CleanM2Config,
    pub clean_gradle: CleanGradleConfig,
    pub clean_tmp: CleanTmpConfig,
    pub clean_xcode: CleanXcodeConfig,
    pub clean_docker: CleanDockerConfig,
    pub clean_brew: CleanBrewConfig,
    pub clean_npm: CleanNpmConfig,
    pub clean_trash: CleanTrashConfig,
    pub clean_yarn: CleanYarnConfig,
    pub clean_pnpm: CleanPnpmConfig,
    pub clean_pip: CleanPipConfig,
    pub clean_go_build: CleanGoBuildConfig,
    pub clean_go_mod_cache: CleanGoModCacheConfig,
    pub clean_gems: CleanGemsConfig,
    pub clean_python_artifacts: CleanPythonArtifactsConfig,
    pub clean_jetbrains: CleanJetBrainsConfig,
    pub clean_logs: CleanLogsConfig,
    pub clean_library_caches: CleanLibraryCachesConfig,
    pub clean_electron_caches: CleanElectronCachesConfig,
    pub clean_chrome: CleanChromeConfig,
    pub clean_steam: CleanSteamConfig,
    pub clean_playwright: CleanPlaywrightConfig,
    pub clean_node_gyp: CleanNodeGypConfig,
    pub clean_mise: CleanMiseConfig,
    pub clean_xdg_cache: CleanXdgCacheConfig,
    pub clean_rustup: CleanRustupConfig,
    pub bz_cleanup: BzCleanupConfig,
    pub backblaze_exclusions: BackblazeExclusionsConfig,
    pub dedupe_media: DedupeMediaConfig,
    pub all: AllConfig,
}

/// How directories are walked.
#[derive(Debug, Default)]
pub struct WalkConfig {
    /// Directory names that are never descended into when scanning for project markers.
    pub prune_dirs: Option<Vec<String>>,
    /// Follow symlinks while walking. Off by default, which avoids cycles and mirrors.
    pub follow_symlinks: Option<bool>,
}

/// How log lines are laid out.
#[derive(Debug, Default)]
pub struct LoggingConfig {
    /// How many live spinners are shown at once.
    pub max_spinners: Option<u64>,
    /// Drawn before each nested span.
    pub indent_symbol: Option<String>,
    /// Repeated once for each level of nesting.
    pub indent_str: Option<String>,
}

/// Maintenance steps to leave out for some repositories.
#[derive(Debug, Default, Clone)]
pub struct GitMaintenanceOverride {
    /// Trailing components of the repository's path.
    pub repo: String,
    /// Names of the steps to leave out.
    pub skip_steps: Vec<String>,
}

#[derive(Debug, Default)]
pub struct GitMaintenanceConfig {
    pub roots: Option<Vec<String>>,
    pub depth: Option<usize>,
    pub concurrency: Option<usize>,
    pub tasks: Option<Vec<String>>,
    pub prefetch: Option<bool>,
    /// Run maintenance on submodules too. On by default.
    pub submodules: Option<bool>,
    /// Steps to leave out, by repository.
    pub overrides: Option<Vec<GitMaintenanceOverride>>,
}

#[derive(Debug, Default)]
pub struct CleanMavenConfig {
    pub roots: Option<Vec<String>>,
    pub depth: Option<usize>,
    pub days: Option<u32>,
    pub concurrency: Option<usize>,
}

#[derive(Debug, Default)]
pub struct CleanNodeConfig {
    pub roots: Option<Vec<String>>,
    pub depth: Option<usize>,
    pub days: Option<u32>,
    pub concurrency: Option<usize>,
}

#[derive(Debug, Default)]
pub struct CleanCargoConfig {
    pub roots: Option<Vec<String>>,
    pub depth: Option<usize>,
    pub days: Option<u32>,
    pub concurrency: Option<usize>,
}

#[derive(Debug, Default)]
pub struct CleanM2Config {
    pub repo: Option<String>,
    pub days: Option<u32>,
    pub snapshots_only: Option<bool>,
    pub concurrency: Option<usize>,
    /// File extension that marks a version directory. `pom` by default.
    pub marker_extension: Option<String>,
}

#[derive(Debug, Default)]
pub struct CleanGradleConfig {
    pub cache_dir: Option<String>,
    pub days: Option<u32>,
    pub concurrency: Option<usize>,
}

#[derive(Debug, Default)]
pub struct CleanTmpConfig {
    pub roots: Option<Vec<String>>,
    pub days: Option<u32>,
    pub concurrency: Option<usize>,
}

#[derive(Debug, Default)]
pub struct CleanXcodeConfig {
    pub data_dir: Option<String>,
    pub days: Option<u32>,
    pub concurrency: Option<usize>,
}

#[derive(Debug, Default)]
pub struct CleanDockerConfig {
    pub hours: Option<u32>,
    pub scope: Option<String>,
    pub all_images: Option<bool>,
    pub volumes: Option<bool>,
    pub reclaim_physical: Option<bool>,
    pub disk_image: Option<String>,
}

#[derive(Debug, Default)]
pub struct CleanBrewConfig {
    pub prune: Option<String>,
}

#[derive(Debug, Default)]
pub struct CleanNpmConfig {
    pub cache_dir: Option<String>,
    pub days: Option<u32>,
    pub concurrency: Option<usize>,
}

#[derive(Debug, Default)]
pub struct CleanTrashConfig {}

#[derive(Debug, Default)]
pub struct CleanYarnConfig {}

#[derive(Debug, Default)]
pub struct CleanPnpmConfig {}

#[derive(Debug, Default)]
pub struct CleanPipConfig {}

#[derive(Debug, Default)]
pub struct CleanGoBuildConfig {}

#[derive(Debug, Default)]
pub struct CleanGoModCacheConfig {
    pub remove: Option<bool>,
    pub minimum_gibibytes: Option<u64>,
}

#[derive(Debug, Default)]
pub struct CleanGemsConfig {
    pub remove: Option<bool>,
}

#[derive(Debug, Default)]
pub struct CleanPythonArtifactsConfig {
    pub roots: Option<Vec<String>>,
    pub depth: Option<usize>,
    pub days: Option<u32>,
    pub concurrency: Option<usize>,
    pub remove_virtualenvs: Option<bool>,
}

#[derive(Debug, Default)]
pub struct CleanJetBrainsConfig {
    pub cache_dir: Option<String>,
    pub days: Option<u32>,
    pub concurrency: Option<usize>,
}

#[derive(Debug, Default)]
pub struct CleanLogsConfig {
    pub cache_dir: Option<String>,
    pub days: Option<u32>,
    pub concurrency: Option<usize>,
}

#[derive(Debug, Default)]
pub struct CleanLibraryCachesConfig {
    pub paths: Option<Vec<String>>,
    pub days: Option<u32>,
    pub concurrency: Option<usize>,
}

#[derive(Debug, Default)]
pub struct CleanElectronCachesConfig {
    pub support_dir: Option<String>,
    pub apps: Option<Vec<String>>,
    pub days: Option<u32>,
    pub concurrency: Option<usize>,
}

#[derive(Debug, Default)]
pub struct CleanChromeConfig {
    pub chrome_dir: Option<String>,
    pub days: Option<u32>,
    pub concurrency: Option<usize>,
    pub skip_running_check: Option<bool>,
    pub model_dirs: Option<Vec<String>>,
    pub profile_subdirs: Option<Vec<String>>,
}

#[derive(Debug, Default)]
pub struct CleanSteamConfig {
    pub steam_dir: Option<String>,
    pub days: Option<u32>,
    pub concurrency: Option<usize>,
    pub skip_running_check: Option<bool>,
    pub cache_dirs: Option<Vec<String>>,
}

#[derive(Debug, Default)]
pub struct CleanPlaywrightConfig {
    pub cache_dir: Option<String>,
    pub days: Option<u32>,
    pub concurrency: Option<usize>,
}

#[derive(Debug, Default)]
pub struct CleanNodeGypConfig {
    pub cache_dir: Option<String>,
    pub days: Option<u32>,
    pub concurrency: Option<usize>,
}

#[derive(Debug, Default)]
pub struct CleanMiseConfig {}

#[derive(Debug, Default)]
pub struct CleanXdgCacheConfig {
    pub cache_dir: Option<String>,
    pub node_days: Option<u32>,
}

#[derive(Debug, Default)]
pub struct CleanRustupConfig {
    pub roots: Option<Vec<String>>,
    pub depth: Option<usize>,
    pub remove: Option<bool>,
}

#[derive(Debug, Default)]
pub struct BzCleanupConfig {
    pub days: Option<u32>,
    pub dir: Option<String>,
    /// Glob handed to `find -name`. `bz_done_*.dat` by default.
    pub pattern: Option<String>,
    /// Run find under sudo. On by default.
    pub use_sudo: Option<bool>,
}

#[derive(Debug, Default)]
pub struct BackblazeExclusionsConfig {
    pub file: Option<String>,
    pub apply: Option<bool>,
}

#[derive(Debug, Default)]
pub struct DedupeMediaConfig {
    pub pictures_dir: Option<String>,
    pub yt_dlp_dirs: Option<Vec<String>>,
}

#[derive(Debug, Default)]
pub struct AllConfig {
    /// The subcommands that `backup all` runs, in order.
    pub steps: Option<Vec<String>>,
}

// ---------------------------------------------------------------------------
// Where the file is
// ---------------------------------------------------------------------------

/// Where a configuration file may be, in the order of search: below
/// `$XDG_CONFIG_HOME`, or `.config` in the home directory where that is unset or
/// empty, then below each entry of `$XDG_CONFIG_DIRS` that is not empty.
pub open spec fn config_candidates(
    config_home: Option<Seq<char>>,
    home: Option<Seq<char>>,
    config_dirs: Option<Seq<char>>,
) -> Seq<Seq<char>> {
    let user = match config_home {
        Some(dir) if dir.len() > 0 => dir,
        _ => joined(home_or_root(home), ".config"@),
    };
    let system = match config_dirs {
        Some(dirs) => nonempty(fields_of(dirs, ':')),
        None => seq![],
    };
    seq![joined(user, "backup/config.json5"@)] + system.map_values(
        |dir: Seq<char>| joined(dir, "backup/config.json5"@),
    )
}

/// The home directory, or the root where it is not known.
pub open spec fn home_or_root(home: Option<Seq<char>>) -> Seq<char> {
    match home {
        Some(dir) => dir,
        None => "/"@,
    }
}

/// `relative` below the home directory.
pub open spec fn home_path(home: Option<Seq<char>>, relative: Seq<char>) -> Seq<char> {
    joined(home_or_root(home), relative)
}

/// `relative` below the home directory, or below the root where it is not known.
pub fn default_home_path(home: &Option<String>, relative: &str) -> (r: String)
    ensures
        r@ == home_path(opt_text(*home), relative@),
{
    match home {
        Some(dir) => join(dir.as_str(), relative),
        None => join("/", relative),
    }
}

/// Where a configuration file may be, in the order of search.
pub fn candidate_paths(
    config_home: &Option<String>,
    home: &Option<String>,
    config_dirs: &Option<String>,
) -> (r: Vec<String>)
    ensures
        texts(r@) == config_candidates(
            opt_text(*config_home),
            opt_text(*home),
            opt_text(*config_dirs),
        ),
{
    let fallback = default_home_path(home, ".config");
    let user: String = match config_home {
        Some(dir) => {
            if char_count(dir.as_str()) > 0 {
                dir.clone()
            } else {
                fallback
            }
        },
        None => fallback,
    };
    let mut out: Vec<String> = Vec::new();
    out.push(join(user.as_str(), "backup/config.json5"));
    let ghost first = joined(user@, "backup/config.json5"@);
    let ghost put = |dir: Seq<char>| joined(dir, "backup/config.json5"@);
    match config_dirs {
        None => {
            assert(texts(out@) =~= seq![first] + Seq::<Seq<char>>::empty().map_values(put));
        },
        Some(dirs) => {
            let parts = fields(dirs.as_str(), ':');
            let ghost all = texts(parts@);
            let mut i: usize = 0;
            proof {
                reveal(Seq::filter);
                assert(all.take(0) =~= Seq::<Seq<char>>::empty());
                assert(texts(out@) =~= seq![first] + nonempty(all.take(0)).map_values(put));
            }
            while i < parts.len()
                invariant
                    i <= parts@.len(),
                    all == texts(parts@),
                    put == (|dir: Seq<char>| joined(dir, "backup/config.json5"@)),
                    texts(out@) == seq![first] + nonempty(all.take(i as int)).map_values(put),
                decreases parts@.len() - i,
            {
                let ghost before = nonempty(all.take(i as int));
                proof {
                    reveal(Seq::filter);
                    assert(all.take(i as int + 1).drop_last() =~= all.take(i as int));
                    assert(all.take(i as int + 1).last() == parts@[i as int]@);
                }
                if char_count(parts[i].as_str()) > 0 {
                    let path = join(parts[i].as_str(), "backup/config.json5");
                    proof {
                        lemma_texts_push(out@, path);
                        assert(before.push(parts@[i as int]@).map_values(put) =~= before.map_values(
                            put,
                        ).push(path@));
                        assert(seq![first] + before.map_values(put).push(path@) =~= (seq![first]
                            + before.map_values(put)).push(path@));
                    }
                    out.push(path);
                }
                i = i + 1;
            }
            assert(all.take(all.len() as int) == all);
        },
    }
    out
}

// ---------------------------------------------------------------------------
// Tildes
// ---------------------------------------------------------------------------

/// A path with a leading `~` replaced by the home directory, where that is known.
pub open spec fn expanded(path: Seq<char>, home: Option<Seq<char>>) -> Seq<char> {
    match home {
        Some(dir) => if starts_with_of(path, "~/"@) {
            joined(dir, path.skip(2))
        } else if path == "~"@ {
            dir
        } else {
            path
        },
        None => path,
    }
}

pub open spec fn all_expanded(paths: Seq<Seq<char>>, home: Option<Seq<char>>) -> Seq<Seq<char>> {
    paths.map_values(|p: Seq<char>| expanded(p, home))
}

/// A path that does not begin with a tilde is left as it is, and so is every
/// path where the home directory is not known.
pub proof fn law_only_tildes_expand(path: Seq<char>, home: Option<Seq<char>>)
    requires
        path.len() == 0 || path[0] != '~' || home is None,
    ensures
        expanded(path, home) == path,
{
    reveal_strlit("~/");
    reveal_strlit("~");
    if starts_with_of(path, "~/"@) {
        assert(path.take(2)[0] == path[0]);
    }
}

/// Expands a leading `~` to the home directory.
pub fn expand_tilde(path: &str, home: &Option<String>) -> (r: String)
    ensures
        r@ == expanded(path@, opt_text(*home)),
{
    match home {
        Some(dir) => {
            proof {
                reveal_strlit("~/");
            }
            match strip_prefix(path, "~/") {
                Some(rest) => join(dir.as_str(), rest.as_str()),
                None => {
                    if same(path, "~") {
                        dir.clone()
                    } else {
                        path.to_owned()
                    }
                },
            }
        },
        None => path.to_owned(),
    }
}

/// Expands a leading `~` of every path.
pub fn expand_tildes(paths: &Vec<String>, home: &Option<String>) -> (r: Vec<String>)
    ensures
        texts(r@) == all_expanded(texts(paths@), opt_text(*home)),
{
    let mut out: Vec<String> = Vec::new();
    let mut i: usize = 0;
    while i < paths.len()
        invariant
            i <= paths@.len(),
            out@.len() == i,
            forall|j: int| 0 <= j < i ==> out@[j]@ == expanded(#[trigger] paths@[j]@, opt_text(*home)),
        decreases paths@.len() - i,
    {
        out.push(expand_tilde(paths[i].as_str(), home));
        i = i + 1;
    }
    assert(texts(out@) =~= all_expanded(texts(paths@), opt_text(*home)));
    out
}

// ---------------------------------------------------------------------------
// Choosing a value
// ---------------------------------------------------------------------------

/// The value given on the command line, else the configured one, else the default.
pub open spec fn chosen<T>(cli: Option<T>, configured: Option<T>, default: T) -> T {
    match cli {
        Some(v) => v,
        None => match configured {
            Some(v) => v,
            None => default,
        },
    }
}

/// The path given on the command line, else the configured one, with its tilde
/// expanded, else the default as it is.
pub open spec fn chosen_path(
    cli: Option<Seq<char>>,
    configured: Option<Seq<char>>,
    default: Seq<char>,
    home: Option<Seq<char>>,
) -> Seq<char> {
    match cli {
        Some(p) => expanded(p, home),
        None => match configured {
            Some(p) => expanded(p, home),
            None => default,
        },
    }
}

pub fn choose_u32(cli: Option<u32>, configured: Option<u32>, default: u32) -> (r: u32)
    ensures
        r == chosen(cli, configured, default),
{
    match cli {
        Some(v) => v,
        None => match configured {
            Some(v) => v,
            None => default,
        },
    }
}

pub fn choose_u64(cli: Option<u64>, configured: Option<u64>, default: u64) -> (r: u64)
    ensures
        r == chosen(cli, configured, default),
{
    match cli {
        Some(v) => v,
        None => match configured {
            Some(v) => v,
            None => default,
        },
    }
}

pub fn choose_usize(cli: Option<usize>, configured: Option<usize>, default: usize) -> (r: usize)
    ensures
        r == chosen(cli, configured, default),
{
    match cli {
        Some(v) => v,
        None => match configured {
            Some(v) => v,
            None => default,
        },
    }
}

pub fn choose_bool(cli: Option<bool>, configured: Option<bool>, default: bool) -> (r: bool)
    ensures
        r == chosen(cli, configured, default),
{
    match cli {
        Some(v) => v,
        None => match configured {
            Some(v) => v,
            None => default,
        },
    }
}

/// A flag that is set on the command line or in the configuration.
pub open spec fn flag(cli: bool, configured: Option<bool>) -> bool {
    cli || configured == Some(true)
}

pub fn choose_flag(cli: bool, configured: Option<bool>) -> (r: bool)
    ensures
        r == flag(cli, configured),
{
    cli || match configured {
        Some(v) => v,
        None => false,
    }
}

pub fn choose_text(cli: &Option<String>, configured: &Option<String>, default: &str) -> (r: String)
    ensures
        r@ == chosen(opt_text(*cli), opt_text(*configured), default@),
{
    match cli {
        Some(v) => v.clone(),
        None => match configured {
            Some(v) => v.clone(),
            None => default.to_owned(),
        },
    }
}

pub fn choose_path(
    cli: &Option<String>,
    configured: &Option<String>,
    default: &str,
    home: &Option<String>,
) -> (r: String)
    ensures
        r@ == chosen_path(opt_text(*cli), opt_text(*configured), default@, opt_text(*home)),
{
    match cli {
        Some(p) => expand_tilde(p.as_str(), home),
        None => match configured {
            Some(p) => expand_tilde(p.as_str(), home),
            None => default.to_owned(),
        },
    }
}

/// The list given on the command line, else the configured one, else the
/// default; an empty list counts as not given.
pub open spec fn chosen_list(
    cli: Seq<Seq<char>>,
    configured: Option<Seq<Seq<char>>>,
    default: Seq<Seq<char>>,
) -> Seq<Seq<char>> {
    if cli.len() > 0 {
        cli
    } else {
        match configured {
            Some(list) if list.len() > 0 => list,
            _ => default,
        }
    }
}

pub fn choose_list(cli: &Vec<String>, configured: &Option<Vec<String>>, default: &Vec<String>) -> (r:
    Vec<String>)
    ensures
        texts(r@) == chosen_list(texts(cli@), opt_texts(*configured), texts(default@)),
{
    assert(texts(cli@).len() == cli@.len());
    if cli.len() > 0 {
        return copy_texts(cli);
    }
    match configured {
        Some(list) => {
            assert(texts(list@).len() == list@.len());
            if list.len() > 0 {
                copy_texts(list)
            } else {
                copy_texts(default)
            }
        },
        None => copy_texts(default),
    }
}

/// What is said where no roots are given.
pub open spec fn no_roots_message(command: Seq<char>) -> Seq<char> {
    "no roots configured for `"@ + command
        + "`: pass --root, or set `roots` (top-level) or `"@ + command
        + ".roots` in your config file"@
}

/// The roots to walk: those of the command line, else those configured for the
/// command, else the global ones, with tildes expanded. An empty list counts as
/// not given, and there is no fallback.
pub open spec fn roots_of(
    cli: Seq<Seq<char>>,
    command: Option<Seq<Seq<char>>>,
    global: Option<Seq<Seq<char>>>,
    home: Option<Seq<char>>,
) -> Option<Seq<Seq<char>>> {
    if cli.len() > 0 {
        Some(all_expanded(cli, home))
    } else if command is Some && command->0.len() > 0 {
        Some(all_expanded(command->0, home))
    } else if global is Some && global->0.len() > 0 {
        Some(all_expanded(global->0, home))
    } else {
        None
    }
}

/// Resolves the roots to walk, or says that there are none.
pub fn resolve_roots(
    cli: &Vec<String>,
    cmd_cfg: &Option<Vec<String>>,
    global_cfg: &Option<Vec<String>>,
    cmd_name: &str,
    home: &Option<String>,
) -> (r: Result<Vec<String>, String>)
    ensures
        match r {
            Ok(roots) => roots_of(
                texts(cli@),
                opt_texts(*cmd_cfg),
                opt_texts(*global_cfg),
                opt_text(*home),
            ) == Some(texts(roots@)),
            Err(message) => roots_of(
                texts(cli@),
                opt_texts(*cmd_cfg),
                opt_texts(*global_cfg),
                opt_text(*home),
            ) is None && message@ == no_roots_message(cmd_name@),
        },
{
    assert(texts(cli@).len() == cli@.len());
    if cli.len() > 0 {
        return Ok(expand_tildes(cli, home));
    }
    if let Some(list) = cmd_cfg {
        assert(texts(list@).len() == list@.len());
        if list.len() > 0 {
            return Ok(expand_tildes(list, home));
        }
    }
    if let Some(list) = global_cfg {
        assert(texts(list@).len() == list@.len());
        if list.len() > 0 {
            return Ok(expand_tildes(list, home));
        }
    }
    let mut message = "no roots configured for `".to_string();
    message.append(cmd_name);
    message.append("`: pass --root, or set `roots` (top-level) or `");
    message.append(cmd_name);
    message.append(".roots` in your config file");
    Err(message)
}

// ---------------------------------------------------------------------------
// What choosing amounts to
// ---------------------------------------------------------------------------

/// A tilde stands for the home directory only where it is the whole path or a
/// separator follows it, and a path below it is read from there.
pub proof fn law_tildes(rest: Seq<char>, dir: Seq<char>, c: char)
    ensures
        expanded(seq!['~'], Some(dir)) == dir,
        expanded(seq!['~', '/'] + rest, Some(dir)) == joined(dir, rest),
        c != '/' ==> expanded(seq!['~', c] + rest, Some(dir)) == seq!['~', c] + rest,
{
    reveal_strlit("~/");
    reveal_strlit("~");
    assert("~"@ =~= seq!['~']);
    assert("~/"@ =~= seq!['~', '/']);
    let path = seq!['~', '/'] + rest;
    assert(path.take(2) =~= "~/"@);
    assert(path.skip(2) =~= rest);
    let other = seq!['~', c] + rest;
    if starts_with_of(other, "~/"@) {
        assert(other.take(2)[1] == c);
    }
    assert(other.len() != "~"@.len());
}

/// Every path of a list is expanded by itself.
pub proof fn law_all_tildes(paths: Seq<Seq<char>>, home: Option<Seq<char>>, i: int)
    ensures
        all_expanded(paths, home).len() == paths.len(),
        0 <= i < paths.len() ==> all_expanded(paths, home)[i] == expanded(paths[i], home),
{
}

/// What the command line gives comes first, then what is configured, and the
/// default only where neither gives anything.
pub proof fn law_choosing<T>(given: T, configured: Option<T>, value: T, default: T)
    ensures
        chosen(Some(given), configured, default) == given,
        chosen(None, Some(value), default) == value,
        chosen(None, None, default) == default,
{
}

/// A path is chosen in the same order. A given or configured one has its tilde
/// expanded, and the default stands as it is.
pub proof fn law_choosing_paths(
    given: Seq<char>,
    configured: Option<Seq<char>>,
    value: Seq<char>,
    default: Seq<char>,
    home: Option<Seq<char>>,
)
    ensures
        chosen_path(Some(given), configured, default, home) == expanded(given, home),
        chosen_path(None, Some(value), default, home) == expanded(value, home),
        chosen_path(None, None, default, home) == default,
{
}

/// A list is chosen in the same order, and an empty one counts as none. A flag is
/// set where either sets it.
pub proof fn law_choosing_lists(
    cli: Seq<Seq<char>>,
    configured: Option<Seq<Seq<char>>>,
    default: Seq<Seq<char>>,
    on: bool,
    other: Option<bool>,
)
    ensures
        cli.len() > 0 ==> chosen_list(cli, configured, default) == cli,
        cli.len() == 0 && configured is Some && configured->0.len() > 0 ==> chosen_list(
            cli,
            configured,
            default,
        ) == configured->0,
        cli.len() == 0 && (configured is None || configured->0.len() == 0) ==> chosen_list(
            cli,
            configured,
            default,
        ) == default,
        flag(on, other) <==> on || (other is Some && other->0),
{
}

/// Roots are those of the command line, else those of the command, else the
/// global ones, each with its tilde expanded; an empty list counts as none, and
/// without any there are no roots.
pub proof fn law_choosing_roots(
    cli: Seq<Seq<char>>,
    command: Option<Seq<Seq<char>>>,
    global: Option<Seq<Seq<char>>>,
    home: Option<Seq<char>>,
)
    ensures
        cli.len() > 0 ==> roots_of(cli, command, global, home) == Some(all_expanded(cli, home)),
        cli.len() == 0 && command is Some && command->0.len() > 0 ==> roots_of(
            cli,
            command,
            global,
            home,
        ) == Some(all_expanded(command->0, home)),
        cli.len() == 0 && (command is None || command->0.len() == 0) && global is Some
            && global->0.len() > 0 ==> roots_of(cli, command, global, home) == Some(
            all_expanded(global->0, home),
        ),
        cli.len() == 0 && (command is None || command->0.len() == 0) && (global is None
            || global->0.len() == 0) ==> roots_of(cli, command, global, home) is None,
{
}

/// What is below the home directory is below the root where there is no home.
pub proof fn law_home_paths(dir: Seq<char>, relative: Seq<char>)
    ensures
        home_path(Some(dir), relative) == joined(dir, relative),
        home_path(None, relative) == joined("/"@, relative),
{
}

/// The configuration is looked for below `XDG_CONFIG_HOME` first, or below
/// `.config` in the home directory where that is unset or empty, and then below
/// each directory of `XDG_CONFIG_DIRS` in order, the empty ones left out.
pub proof fn law_where_the_configuration_is(
    config_home: Option<Seq<char>>,
    home: Option<Seq<char>>,
    dirs: Seq<char>,
    dir: Seq<char>,
)
    requires
        !dir.contains(':'),
    ensures
        ({
            let all = config_candidates(config_home, home, None);
            &&& all.len() == 1
            &&& config_home is Some && config_home->0.len() > 0 ==> all[0] == joined(
                config_home->0,
                "backup/config.json5"@,
            )
            &&& config_home is None || config_home->0.len() == 0 ==> all[0] == joined(
                joined(home_or_root(home), ".config"@),
                "backup/config.json5"@,
            )
        }),
        config_candidates(config_home, home, Some(dirs))[0] == config_candidates(
            config_home,
            home,
            None,
        )[0],
        config_candidates(config_home, home, Some(dir)) == if dir.len() > 0 {
            config_candidates(config_home, home, None).push(joined(dir, "backup/config.json5"@))
        } else {
            config_candidates(config_home, home, None)
        },
        config_candidates(config_home, home, Some(dir + seq![':'] + dirs)) == if dir.len() > 0 {
            config_candidates(config_home, home, Some(dir)) + config_candidates(
                config_home,
                home,
                Some(dirs),
            ).skip(1)
        } else {
            config_candidates(config_home, home, Some(dirs))
        },
{
    let put = |d: Seq<char>| joined(d, "backup/config.json5"@);
    let first = config_candidates(config_home, home, None)[0];
    crate::split::law_fields(dir, dirs, ':');
    let rest = fields_of(dirs, ':');
    lemma_nonempty_front(dir, rest);
    lemma_nonempty_front(dir, Seq::empty());
    assert(seq![dir] + Seq::<Seq<char>>::empty() =~= seq![dir]);
    assert(nonempty(Seq::<Seq<char>>::empty()) =~= Seq::<Seq<char>>::empty()) by {
        reveal(Seq::filter);
    }
    assert(config_candidates(config_home, home, None) =~= seq![first]);
    let one = config_candidates(config_home, home, Some(dir));
    let many = config_candidates(config_home, home, Some(dirs));
    let both = config_candidates(config_home, home, Some(dir + seq![':'] + dirs));
    assert(many =~= seq![first] + nonempty(rest).map_values(put));
    if dir.len() > 0 {
        assert(one =~= seq![first, put(dir)]);
        assert((seq![dir] + nonempty(rest)).map_values(put) =~= seq![put(dir)] + nonempty(
            rest,
        ).map_values(put));
        assert(both =~= one + many.skip(1));
    } else {
        assert(one =~= seq![first]);
        assert(both =~= many);
    }
}

proof fn lemma_nonempty_front(first: Seq<char>, rest: Seq<Seq<char>>)
    ensures
        nonempty(seq![first] + rest) == if first.len() > 0 {
            seq![first] + nonempty(rest)
        } else {
            nonempty(rest)
        },
    decreases rest.len(),
{
    reveal(Seq::filter);
    let all = seq![first] + rest;
    if rest.len() == 0 {
        assert(all.drop_last() =~= Seq::empty());
        assert(nonempty(Seq::<Seq<char>>::empty()) =~= Seq::empty());
        assert(nonempty(rest) =~= Seq::empty());
        assert(all.last() == first);
        if first.len() > 0 {
            assert(nonempty(all) =~= seq![first] + nonempty(rest));
        } else {
            assert(nonempty(all) =~= nonempty(rest));
        }
    } else {
        assert(all.drop_last() =~= seq![first] + rest.drop_last());
        assert(all.last() == rest.last());
        lemma_nonempty_front(first, rest.drop_last());
        if first.len() > 0 {
            assert(nonempty(all) =~= seq![first] + nonempty(rest));
        } else {
            assert(nonempty(all) =~= nonempty(rest));
        }
    }
}

} // verus!
