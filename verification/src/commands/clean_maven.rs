//! Deletes the build artifacts of Maven projects.
use super::cleaner::Config;
use crate::config::{
    choose_u32, choose_usize, chosen, no_roots_message, resolve_roots, roots_of, CleanMavenConfig,
};
use crate::text::{opt_text, opt_texts, texts};
use vstd::prelude::*;

verus! {

pub const DEFAULT_DEPTH: usize = 4;

pub const DEFAULT_DAYS: u32 = 7;

pub const DEFAULT_CONCURRENCY: usize = 2;

#[derive(Debug, Default)]
pub struct Args {
    /// Roots to search for Maven projects.
    pub roots: Vec<String>,
    /// How deep projects are searched for.
    pub depth: Option<usize>,
    /// Only delete artifacts older than this many days.
    pub days: Option<u32>,
    /// How many deletions run at once.
    pub concurrency: Option<usize>,
}

/// Resolves what is cleaned: the `target` of every project with a `pom.xml`. Missing
/// roots are an error.
pub fn resolve_config(
    args: &Args,
    cfg: &CleanMavenConfig,
    global_roots: &Option<Vec<String>>,
    home: &Option<String>,
    dry_run: bool,
) -> (r: Result<Config, String>)
    ensures
        ({
            let roots = roots_of(
                texts(args.roots@),
                opt_texts(cfg.roots),
                opt_texts(*global_roots),
                opt_text(*home),
            );
            match r {
                Ok(c) => {
                    &&& roots == Some(texts(c.roots@))
                    &&& c.bar_label@ == "clean-maven"@
                    &&& c.marker@ == "pom.xml"@
                    &&& c.junk@ == "target"@
                    &&& c.depth == chosen(args.depth, cfg.depth, DEFAULT_DEPTH)
                    &&& c.days == chosen(args.days, cfg.days, DEFAULT_DAYS)
                    &&& c.concurrency == chosen(
                        args.concurrency,
                        cfg.concurrency,
                        DEFAULT_CONCURRENCY,
                    )
                    &&& c.dry_run == dry_run
                },
                Err(message) => roots is None && message@ == no_roots_message("clean_maven"@),
            }
        }),
{
    match resolve_roots(&args.roots, &cfg.roots, global_roots, "clean_maven", home) {
        Err(message) => Err(message),
        Ok(roots) => Ok(
            Config {
                bar_label: "clean-maven",
                marker: "pom.xml",
                junk: "target",
                roots,
                depth: choose_usize(args.depth, cfg.depth, DEFAULT_DEPTH),
                days: choose_u32(args.days, cfg.days, DEFAULT_DAYS),
                concurrency: choose_usize(args.concurrency, cfg.concurrency, DEFAULT_CONCURRENCY),
                dry_run,
            },
        ),
    }
}

/// What is cleaned is the `target` of each project with the marker, and each
/// setting is the argument's, else the configured one, else its default.
pub proof fn law_resolve_config(
    args: Args,
    cfg: CleanMavenConfig,
    global_roots: Option<Vec<String>>,
    home: Option<String>,
    dry_run: bool,
    r: Result<Config, String>,
)
    requires
        call_ensures(resolve_config, (&args, &cfg, &global_roots, &home, dry_run), r),
    ensures
        r matches Ok(c) ==> {
            &&& c.marker@ == "pom.xml"@
            &&& c.junk@ == "target"@
            &&& c.dry_run == dry_run
            &&& args.depth is Some ==> c.depth == args.depth->0
            &&& args.depth is None && cfg.depth is Some ==> c.depth == cfg.depth->0
            &&& args.depth is None && cfg.depth is None ==> c.depth == 4
            &&& args.days is Some ==> c.days == args.days->0
            &&& args.days is None && cfg.days is Some ==> c.days == cfg.days->0
            &&& args.days is None && cfg.days is None ==> c.days == 7
            &&& args.concurrency is Some ==> c.concurrency == args.concurrency->0
            &&& args.concurrency is None && cfg.concurrency is Some ==> c.concurrency
                == cfg.concurrency->0
            &&& args.concurrency is None && cfg.concurrency is None ==> c.concurrency == 2
        },
        args.roots@.len() == 0 && cfg.roots is None && global_roots is None ==> r is Err,
        args.roots@.len() > 0 ==> r is Ok,
{
    assert(texts(args.roots@).len() == args.roots@.len());
}

} // verus!
