//! Prunes what mise no longer uses.
use super::{one_failed, one_skipped, summary, together, CommandSummary};
use crate::bytes::lossy_text;
use crate::process::{
    outcome_of, output_of, ran_well, reported, succeeded, tool_outcome, Invocation, Next, Reply,
};
use crate::search::{contains, occurs};
use crate::split::{lines, lines_of};
use crate::text::texts;
use vstd::prelude::*;

verus! {

#[derive(Debug, Default)]
pub struct Args {}

/// The question whether mise is installed.
pub fn ask_mise() -> (r: Invocation)
    ensures
        r.runs("mise"@, seq!["--version"@]),
{
    let r = Invocation::new("mise").arg("--version");
    assert(texts(r.args@) =~= seq!["--version"@]);
    r
}

/// The arguments of a prune, which previews in a dry run.
pub open spec fn with_preview(args: Seq<Seq<char>>, dry_run: bool) -> Seq<Seq<char>> {
    if dry_run {
        args.push("--dry-run"@)
    } else {
        args
    }
}

/// Without mise the command is skipped. With it, the cache is pruned first.
pub fn after_ask(reply: &Reply, dry_run: bool) -> (r: Next<()>)
    ensures
        if succeeded(*reply) {
            r.runs("mise"@, with_preview(seq!["cache"@, "prune"@], dry_run), ())
        } else {
            r.done(one_skipped())
        },
{
    if !ran_well(reply) {
        return Next::Done(CommandSummary::skipped_one());
    }
    let mut run = Invocation::new("mise").arg("cache").arg("prune");
    if dry_run {
        run = run.arg("--dry-run");
    }
    assert(texts(run.args@) =~= with_preview(seq!["cache"@, "prune"@], dry_run));
    Next::Run(run, ())
}

/// The outcome of `mise cache prune`.
pub fn run_cache_prune(reply: &Reply) -> (r: Result<CommandSummary, String>)
    ensures
        reported(r, outcome_of(*reply, "mise cache prune"@)),
{
    tool_outcome(reply, "mise cache prune")
}

/// How the versions of tools are pruned.
pub fn prune_invocation(dry_run: bool) -> (r: Invocation)
    ensures
        r.runs("mise"@, with_preview(seq!["prune"@], dry_run)),
{
    let mut run = Invocation::new("mise").arg("prune");
    if dry_run {
        run = run.arg("--dry-run");
    }
    assert(texts(run.args@) =~= with_preview(seq!["prune"@], dry_run));
    run
}

/// The number of lines that say that a version is done.
pub open spec fn done_lines(list: Seq<Seq<char>>) -> nat
    decreases list.len(),
{
    if list.len() == 0 {
        0
    } else {
        done_lines(list.drop_last()) + if occurs(list.last(), "✓ done"@) {
            1nat
        } else {
            0
        }
    }
}

/// Counts the versions that a prune removed, or would: it says so on one line for
/// each.
pub fn count_pruned_versions(output: &str) -> (r: u64)
    ensures
        r == done_lines(lines_of(output@)),
{
    let list = lines(output);
    let ghost all = texts(list@);
    let total = list.len();
    let mut n: u64 = 0;
    let mut i: usize = 0;
    assert(all.take(0) =~= Seq::<Seq<char>>::empty());
    while i < list.len()
        invariant
            i <= list@.len(),
            n <= i,
            total == list@.len(),
            all == texts(list@),
            n == done_lines(all.take(i as int)),
        decreases list@.len() - i,
    {
        proof {
            assert(all.take(i as int + 1).drop_last() =~= all.take(i as int));
            assert(all.take(i as int + 1).last() == list@[i as int]@);
        }
        if contains(list[i].as_str(), "✓ done") {
            n = n + 1;
        }
        i = i + 1;
    }
    assert(all.take(all.len() as int) =~= all);
    n
}

/// What came of a prune: its summary, and how many versions it removed.
#[derive(Debug)]
pub struct Pruned {
    pub summary: CommandSummary,
    pub count: u64,
}

/// The outcome of `mise prune`. Each version counts as one item, and a prune that
/// removed none counts as one.
pub fn run_prune(reply: &Reply) -> (r: Result<Pruned, String>)
    ensures
        match *reply {
            Reply::NotStarted(_) => r matches Err(message) && message@
                == "failed to invoke `mise prune`"@,
            Reply::Finished(done) => r matches Ok(p) && if done.success {
                let count = done_lines(lines_of(lossy_text(done.stdout@)));
                &&& p.count == count
                &&& p.summary == summary(
                    0,
                    if count == 0 {
                        1
                    } else {
                        count as u64
                    },
                    0,
                    0,
                )
            } else {
                p.count == 0 && p.summary == one_failed()
            },
        },
{
    match reply {
        Reply::NotStarted(_) => Err("failed to invoke `mise prune`".to_string()),
        Reply::Finished(done) => {
            if !done.success {
                return Ok(Pruned { summary: CommandSummary::failed_one(), count: 0 });
            }
            let text = output_of(done);
            let count = count_pruned_versions(text.as_str());
            let items: u64 = if count == 0 {
                1
            } else {
                count
            };
            Ok(
                Pruned {
                    summary: CommandSummary {
                        bytes_freed: 0,
                        items_ok: items,
                        items_failed: 0,
                        items_skipped: 0,
                    },
                    count,
                },
            )
        },
    }
}

/// The two prunes together.
pub fn combine(cache: CommandSummary, pruned: &Pruned) -> (r: CommandSummary)
    requires
        super::adds_up(cache, pruned.summary),
    ensures
        r == together(cache, pruned.summary),
{
    let mut total = CommandSummary::default();
    total.merge(cache);
    total.merge(pruned.summary);
    total
}

/// A line counts exactly where it says that a version is done.
pub proof fn law_pruned_versions(list: Seq<Seq<char>>, line: Seq<char>)
    ensures
        done_lines(Seq::empty()) == 0,
        done_lines(list.push(line)) == done_lines(list) + if exists|a: Seq<char>, b: Seq<char>|
            line == #[trigger] (a + "✓ done"@ + b) {
            1nat
        } else {
            0nat
        },
{
    assert(list.push(line).drop_last() =~= list);
    crate::search::law_occurs(line, "✓ done"@);
}

/// Each version that went counts as an item, and a prune that removed none as
/// one.
pub proof fn law_run_prune(reply: Reply, r: Result<Pruned, String>)
    requires
        call_ensures(run_prune, (&reply,), r),
    ensures
        r is Err <==> reply is NotStarted,
        reply matches Reply::Finished(done) ==> {
            let p = r->Ok_0;
            let found = done_lines(lines_of(lossy_text(done.stdout@)));
            &&& done.success ==> p.count == found && p.summary.items_failed == 0
                && p.summary.bytes_freed == 0
            &&& done.success && found > 0 ==> p.summary.items_ok == found
            &&& done.success && found == 0 ==> p.summary.items_ok == 1
            &&& !done.success ==> p.count == 0 && p.summary.items_ok == 0 && p.summary.items_failed
                == 1
        },
{
}

/// mise is told to preview in a dry run, and to prune otherwise.
pub proof fn law_prunes(reply: Reply, dry_run: bool, first: Next<()>, second: Invocation)
    requires
        call_ensures(after_ask, (&reply, dry_run), first),
        call_ensures(prune_invocation, (dry_run,), second),
    ensures
        first is Run <==> reply is Finished && reply->Finished_0.success,
        first is Run ==> first->Run_0.program@ == "mise"@,
        first is Run && dry_run ==> texts(first->Run_0.args@) == seq![
            "cache"@,
            "prune"@,
            "--dry-run"@,
        ],
        first is Run && !dry_run ==> texts(first->Run_0.args@) == seq!["cache"@, "prune"@],
        second.program@ == "mise"@,
        dry_run ==> texts(second.args@) == seq!["prune"@, "--dry-run"@],
        !dry_run ==> texts(second.args@) == seq!["prune"@],
{
    assert(seq!["cache"@, "prune"@].push("--dry-run"@) =~= seq!["cache"@, "prune"@, "--dry-run"@]);
    assert(seq!["prune"@].push("--dry-run"@) =~= seq!["prune"@, "--dry-run"@]);
}

} // verus!
