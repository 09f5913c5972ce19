//! Cleans the build cache of Go.
use super::{one_skipped, CommandSummary};
use crate::process::{
    outcome_of, ran_well, reported, succeeded, tool_outcome, Invocation, Next, Reply,
};
use crate::text::texts;
use vstd::prelude::*;

verus! {

#[derive(Debug, Default)]
pub struct Args {}

/// The question whether Go is installed.
pub fn ask_go() -> (r: Invocation)
    ensures
        r.runs("go"@, seq!["version"@]),
{
    let r = Invocation::new("go").arg("version");
    assert(texts(r.args@) =~= seq!["version"@]);
    r
}

/// The arguments of a cleanup, which previews in a dry run.
pub open spec fn clean_args(dry_run: bool) -> Seq<Seq<char>> {
    if dry_run {
        seq!["clean"@, "-cache"@, "-n"@]
    } else {
        seq!["clean"@, "-cache"@]
    }
}

/// Without Go the command is skipped.
pub fn after_ask(reply: &Reply, dry_run: bool) -> (r: Next<()>)
    ensures
        if succeeded(*reply) {
            r.runs("go"@, clean_args(dry_run), ())
        } else {
            r.done(one_skipped())
        },
{
    if !ran_well(reply) {
        return Next::Done(CommandSummary::skipped_one());
    }
    let mut run = Invocation::new("go").arg("clean").arg("-cache");
    if dry_run {
        run = run.arg("-n");
    }
    assert(texts(run.args@) =~= clean_args(dry_run));
    Next::Run(run, ())
}

/// The outcome of `go clean -cache`.
pub fn after_clean(reply: &Reply) -> (r: Result<CommandSummary, String>)
    ensures
        reported(r, outcome_of(*reply, "go clean -cache"@)),
{
    tool_outcome(reply, "go clean -cache")
}

/// A dry run tells Go to print what it would delete.
pub proof fn law_after_ask(reply: Reply, dry_run: bool, r: Next<()>)
    requires
        call_ensures(after_ask, (&reply, dry_run), r),
    ensures
        r is Run <==> reply is Finished && reply->Finished_0.success,
        r is Run ==> r->Run_0.program@ == "go"@,
        r is Run && dry_run ==> texts(r->Run_0.args@) == seq!["clean"@, "-cache"@, "-n"@],
        r is Run && !dry_run ==> texts(r->Run_0.args@) == seq!["clean"@, "-cache"@],
{
}

} // verus!
