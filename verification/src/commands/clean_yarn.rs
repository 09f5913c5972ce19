//! Cleans the cache of Yarn.
use super::{one_ok, one_skipped, CommandSummary};
use crate::process::{
    outcome_of, ran_well, reported, succeeded, tool_outcome, Invocation, Next, Reply,
};
use crate::text::texts;
use vstd::prelude::*;

verus! {

#[derive(Debug, Default)]
pub struct Args {}

/// The question whether Yarn is installed.
pub fn ask_yarn() -> (r: Invocation)
    ensures
        r.runs("yarn"@, seq!["--version"@]),
{
    let r = Invocation::new("yarn").arg("--version");
    assert(texts(r.args@) =~= seq!["--version"@]);
    r
}

/// Without Yarn the command is skipped, and a dry run cleans nothing.
pub fn after_ask(reply: &Reply, dry_run: bool) -> (r: Next<()>)
    ensures
        if !succeeded(*reply) {
            r.done(one_skipped())
        } else if dry_run {
            r.done(one_ok(0))
        } else {
            r.runs("yarn"@, seq!["cache"@, "clean"@], ())
        },
        dry_run ==> !(r is Run),
{
    if !ran_well(reply) {
        return Next::Done(CommandSummary::skipped_one());
    }
    if dry_run {
        return Next::Done(CommandSummary::ok_one());
    }
    let run = Invocation::new("yarn").arg("cache").arg("clean");
    assert(texts(run.args@) =~= seq!["cache"@, "clean"@]);
    Next::Run(run, ())
}

/// The outcome of `yarn cache clean`.
pub fn after_clean(reply: &Reply) -> (r: Result<CommandSummary, String>)
    ensures
        reported(r, outcome_of(*reply, "yarn cache clean"@)),
{
    tool_outcome(reply, "yarn cache clean")
}

/// Yarn cleans its cache only where it is installed and the run is no dry run.
pub proof fn law_after_ask(reply: Reply, dry_run: bool, r: Next<()>)
    requires
        call_ensures(after_ask, (&reply, dry_run), r),
    ensures
        r is Run <==> reply is Finished && reply->Finished_0.success && !dry_run,
        r is Run ==> r->Run_0.program@ == "yarn"@ && texts(r->Run_0.args@) == seq![
            "cache"@,
            "clean"@,
        ],
        r matches Next::Done(s) ==> if reply is Finished && reply->Finished_0.success {
            s == one_ok(0)
        } else {
            s == one_skipped()
        },
{
}

} // verus!
