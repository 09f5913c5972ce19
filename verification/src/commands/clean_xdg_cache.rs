//! Reclaims space below the cache directory: of `uv`, of `pre-commit`, and of
//! Node.
use super::executor::Scrub;
use super::{
    one_failed, one_ok, one_skipped, summary, together, CommandSummary,
};
use crate::config::{
    choose_path, choose_u32, chosen, chosen_path, default_home_path, home_path,
    CleanXdgCacheConfig,
};
use crate::path::{join, joined};
use crate::process::{
    outcome_of, ran_well, reported, succeeded, tool_outcome, Invocation, Next, Reply,
};
use crate::text::{opt_text, texts};
use crate::ui::char_count;
use vstd::prelude::*;

verus! {

/// Entries of Node's cache younger than this many days are left alone.
pub const DEFAULT_NODE_DAYS: u32 = 14;

#[derive(Debug, Default)]
pub struct Args {
    /// The cache directory.
    pub cache_dir: Option<String>,
    /// Only delete entries of Node's cache older than this many days.
    pub node_days: Option<u32>,
}

/// The cache directory: `$XDG_CACHE_HOME` where it is set and not empty, else
/// `.cache` in the home directory.
pub open spec fn cache_home(xdg: Option<Seq<char>>, home: Option<Seq<char>>) -> Seq<char> {
    match xdg {
        Some(dir) if dir.len() > 0 => dir,
        _ => home_path(home, ".cache"@),
    }
}

pub fn default_cache_dir(xdg: &Option<String>, home: &Option<String>) -> (r: String)
    ensures
        r@ == cache_home(opt_text(*xdg), opt_text(*home)),
{
    match xdg {
        Some(dir) => {
            if char_count(dir.as_str()) > 0 {
                dir.clone()
            } else {
                default_home_path(home, ".cache")
            }
        },
        None => default_home_path(home, ".cache"),
    }
}

/// What the command works on.
#[derive(Debug)]
pub struct Settings {
    pub cache_dir: String,
    pub node_dir: String,
    pub node_days: u32,
}

pub fn resolve_settings(
    args: &Args,
    cfg: &CleanXdgCacheConfig,
    xdg: &Option<String>,
    home: &Option<String>,
) -> (r: Settings)
    ensures
        r.cache_dir@ == chosen_path(
            opt_text(args.cache_dir),
            opt_text(cfg.cache_dir),
            cache_home(opt_text(*xdg), opt_text(*home)),
            opt_text(*home),
        ),
        r.node_dir@ == joined(r.cache_dir@, "node"@),
        r.node_days == chosen(args.node_days, cfg.node_days, DEFAULT_NODE_DAYS),
{
    let fallback = default_cache_dir(xdg, home);
    let cache_dir = choose_path(&args.cache_dir, &cfg.cache_dir, fallback.as_str(), home);
    let node_dir = join(cache_dir.as_str(), "node");
    Settings {
        cache_dir,
        node_dir,
        node_days: choose_u32(args.node_days, cfg.node_days, DEFAULT_NODE_DAYS),
    }
}

/// A tool that cleans its own cache.
#[derive(Debug, Clone, Copy, PartialEq, Eq, Structural)]
pub enum Tool {
    Uv,
    PreCommit,
}

pub open spec fn tool_name(tool: Tool) -> Seq<char> {
    match tool {
        Tool::Uv => "uv"@,
        Tool::PreCommit => "pre-commit"@,
    }
}

/// What the tool is told to do.
pub open spec fn tool_args(tool: Tool) -> Seq<Seq<char>> {
    match tool {
        Tool::Uv => seq!["cache"@, "prune"@],
        Tool::PreCommit => seq!["gc"@],
    }
}

/// The question whether a tool is installed.
pub fn ask_tool(tool: Tool) -> (r: Invocation)
    ensures
        r.runs(tool_name(tool), seq!["--version"@]),
{
    let r = match tool {
        Tool::Uv => Invocation::new("uv").arg("--version"),
        Tool::PreCommit => Invocation::new("pre-commit").arg("--version"),
    };
    assert(texts(r.args@) =~= seq!["--version"@]);
    r
}

/// Without the tool its part is skipped. Neither tool can preview, so a dry run
/// does not run it.
pub fn after_ask(tool: Tool, reply: &Reply, dry_run: bool) -> (r: Next<()>)
    ensures
        if !succeeded(*reply) {
            r.done(one_skipped())
        } else if dry_run {
            r.done(one_ok(0))
        } else {
            r.runs(tool_name(tool), tool_args(tool), ())
        },
        dry_run ==> !(r is Run),
{
    if !ran_well(reply) {
        return Next::Done(CommandSummary::skipped_one());
    }
    if dry_run {
        return Next::Done(CommandSummary::ok_one());
    }
    let run = match tool {
        Tool::Uv => Invocation::new("uv").arg("cache").arg("prune"),
        Tool::PreCommit => Invocation::new("pre-commit").arg("gc"),
    };
    assert(texts(run.args@) =~= tool_args(tool));
    Next::Run(run, ())
}

/// The outcome of `uv cache prune`.
pub fn run_uv_prune(reply: &Reply) -> (r: Result<CommandSummary, String>)
    ensures
        reported(r, outcome_of(*reply, "uv cache prune"@)),
{
    tool_outcome(reply, "uv cache prune")
}

/// The outcome of `pre-commit gc`.
pub fn run_precommit_gc(reply: &Reply) -> (r: Result<CommandSummary, String>)
    ensures
        reported(r, outcome_of(*reply, "pre-commit gc"@)),
{
    tool_outcome(reply, "pre-commit gc")
}

/// The outcome for Node's cache: skipped where it is missing, failed where it
/// cannot be listed or one of its entries cannot be deleted.
pub fn scrub_node_cache(is_dir: bool, scrub: &Result<Scrub, String>) -> (r: CommandSummary)
    ensures
        r == if !is_dir {
            one_skipped()
        } else {
            match *scrub {
                Err(_) => one_failed(),
                Ok(done) => if done.last_err is None {
                    one_ok(done.freed)
                } else {
                    summary(done.freed, 0, 1, 0)
                },
            }
        },
{
    if !is_dir {
        return CommandSummary::skipped_one();
    }
    match scrub {
        Err(_) => CommandSummary::failed_one(),
        Ok(done) => done.summary(),
    }
}

/// A part of the command: one item, which went well, failed or was skipped.
pub open spec fn one_item(s: CommandSummary) -> bool {
    s.items_ok + s.items_failed + s.items_skipped == 1
}

/// The three parts together. Only Node's cache reports bytes.
pub fn combine(uv: CommandSummary, gc: CommandSummary, node: CommandSummary) -> (r: CommandSummary)
    requires
        one_item(uv) && uv.bytes_freed == 0,
        one_item(gc) && gc.bytes_freed == 0,
        one_item(node),
    ensures
        r == together(together(uv, gc), node),
        r.items_ok + r.items_failed + r.items_skipped == 3,
        r.bytes_freed == node.bytes_freed,
{
    let mut total = CommandSummary::default();
    total.merge(uv);
    total.merge(gc);
    total.merge(node);
    total
}

/// The cache directory is the environment's where that is set and not empty, and
/// else the home directory's.
pub proof fn law_default_cache_dir(xdg: Option<String>, home: Option<String>, r: String)
    requires
        call_ensures(default_cache_dir, (&xdg, &home), r),
    ensures
        xdg is Some && xdg->0@.len() > 0 ==> r@ == xdg->0@,
        xdg is None || xdg->0@.len() == 0 ==> r@ == home_path(opt_text(home), ".cache"@),
{
}

/// What each tool is told, and when it is run at all.
pub proof fn law_after_ask(tool: Tool, reply: Reply, dry_run: bool, r: Next<()>)
    requires
        call_ensures(after_ask, (tool, &reply, dry_run), r),
    ensures
        r is Run <==> reply is Finished && reply->Finished_0.success && !dry_run,
        r is Run && tool == Tool::Uv ==> r->Run_0.program@ == "uv"@ && texts(r->Run_0.args@)
            == seq!["cache"@, "prune"@],
        r is Run && tool == Tool::PreCommit ==> r->Run_0.program@ == "pre-commit"@ && texts(
            r->Run_0.args@,
        ) == seq!["gc"@],
        r matches Next::Done(s) ==> if reply is Finished && reply->Finished_0.success {
            s == one_ok(0)
        } else {
            s == one_skipped()
        },
{
}

/// What is reported of Node's cache.
pub proof fn law_scrub_node_cache(is_dir: bool, scrub: Result<Scrub, String>, r: CommandSummary)
    requires
        call_ensures(scrub_node_cache, (is_dir, &scrub), r),
    ensures
        r.items_skipped == 1 <==> !is_dir,
        r.items_ok == 1 <==> is_dir && scrub is Ok && scrub->Ok_0.last_err is None,
        r.items_failed == 1 <==> is_dir && (scrub is Err || scrub->Ok_0.last_err is Some),
        is_dir && scrub is Ok ==> r.bytes_freed == scrub->Ok_0.freed,
        !is_dir || scrub is Err ==> r.bytes_freed == 0,
{
}

/// Each setting is the argument's, else the configured one, else its default.
pub proof fn law_resolve_settings(
    args: Args,
    cfg: CleanXdgCacheConfig,
    xdg: Option<String>,
    home: Option<String>,
    r: Settings,
)
    requires
        call_ensures(resolve_settings, (&args, &cfg, &xdg, &home), r),
    ensures
        args.cache_dir is Some ==> r.cache_dir@ == crate::config::expanded(
            args.cache_dir->0@,
            opt_text(home),
        ),
        args.cache_dir is None && cfg.cache_dir is Some ==> r.cache_dir@ == crate::config::expanded(
            cfg.cache_dir->0@,
            opt_text(home),
        ),
        args.cache_dir is None && cfg.cache_dir is None && xdg is Some && xdg->0@.len() > 0
            ==> r.cache_dir@ == xdg->0@,
        r.node_dir@ == joined(r.cache_dir@, "node"@),
        args.node_days is Some ==> r.node_days == args.node_days->0,
        args.node_days is None && cfg.node_days is Some ==> r.node_days == cfg.node_days->0,
        args.node_days is None && cfg.node_days is None ==> r.node_days == 14,
{
}

} // verus!
