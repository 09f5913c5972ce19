//! Purges the cache of pip.
use super::{one_ok, one_skipped, CommandSummary};
use crate::process::{
    outcome_of, ran_well, reported, succeeded, tool_outcome, Invocation, Next, Reply,
};
use crate::text::texts;
use vstd::prelude::*;

verus! {

#[derive(Debug, Default)]
pub struct Args {}

/// How pip is reached.
#[derive(Debug, Clone, Copy, PartialEq, Eq, Structural)]
pub enum PipInvocation {
    Direct,
    PythonModule,
}

pub open spec fn pip_program(pip: PipInvocation) -> Seq<char> {
    match pip {
        PipInvocation::Direct => "pip"@,
        PipInvocation::PythonModule => "python3"@,
    }
}

pub open spec fn pip_args(pip: PipInvocation) -> Seq<Seq<char>> {
    match pip {
        PipInvocation::Direct => seq![],
        PipInvocation::PythonModule => seq!["-m"@, "pip"@],
    }
}

pub open spec fn pip_text(pip: PipInvocation) -> Seq<char> {
    match pip {
        PipInvocation::Direct => "pip"@,
        PipInvocation::PythonModule => "python3 -m pip"@,
    }
}

impl PipInvocation {
    /// The invocation, to which arguments are still to be added.
    pub fn build_command(self) -> (r: Invocation)
        ensures
            r.runs(pip_program(self), pip_args(self)),
    {
        match self {
            PipInvocation::Direct => Invocation::new("pip"),
            PipInvocation::PythonModule => {
                let r = Invocation::new("python3").arg("-m").arg("pip");
                assert(texts(r.args@) =~= seq!["-m"@, "pip"@]);
                r
            },
        }
    }

    pub fn display(self) -> (r: &'static str)
        ensures
            r@ == pip_text(self),
    {
        match self {
            PipInvocation::Direct => "pip",
            PipInvocation::PythonModule => "python3 -m pip",
        }
    }
}

/// The question whether pip can be reached this way.
pub fn ask_pip(pip: PipInvocation) -> (r: Invocation)
    ensures
        r.runs(pip_program(pip), pip_args(pip).push("--version"@)),
{
    pip.build_command().arg("--version")
}

/// Where pip cannot be reached directly, the module is tried, and without either
/// the command is skipped. A dry run purges nothing.
pub fn after_ask(pip: PipInvocation, reply: &Reply, dry_run: bool) -> (r: Next<Option<PipInvocation>>)
    ensures
        if succeeded(*reply) {
            if dry_run {
                r.done(one_ok(0))
            } else {
                r.runs(
                    pip_program(pip),
                    pip_args(pip) + seq!["cache"@, "purge"@],
                    None::<PipInvocation>,
                )
            }
        } else if pip == PipInvocation::Direct {
            r.runs(
                "python3"@,
                seq!["-m"@, "pip"@, "--version"@],
                Some(PipInvocation::PythonModule),
            )
        } else {
            r.done(one_skipped())
        },
{
    if ran_well(reply) {
        if dry_run {
            return Next::Done(CommandSummary::ok_one());
        }
        let run = pip.build_command().arg("cache").arg("purge");
        assert(texts(run.args@) =~= pip_args(pip) + seq!["cache"@, "purge"@]);
        return Next::Run(run, None);
    }
    match pip {
        PipInvocation::Direct => {
            let ask = ask_pip(PipInvocation::PythonModule);
            assert(texts(ask.args@) =~= seq!["-m"@, "pip"@, "--version"@]);
            Next::Run(ask, Some(PipInvocation::PythonModule))
        },
        PipInvocation::PythonModule => Next::Done(CommandSummary::skipped_one()),
    }
}

/// The outcome of the purge.
pub fn after_purge(pip: PipInvocation, reply: &Reply) -> (r: Result<CommandSummary, String>)
    ensures
        reported(r, outcome_of(*reply, pip_text(pip) + " cache purge"@)),
{
    let mut what = pip.display().to_owned();
    what.append(" cache purge");
    tool_outcome(reply, what.as_str())
}

/// pip is tried by itself and then as a module, and purges only outside of a dry
/// run.
pub proof fn law_after_ask(
    pip: PipInvocation,
    reply: Reply,
    dry_run: bool,
    r: Next<Option<PipInvocation>>,
)
    requires
        call_ensures(after_ask, (pip, &reply, dry_run), r),
    ensures
        ({
            let there = reply is Finished && reply->Finished_0.success;
            &&& there && dry_run ==> r is Done
            &&& there && !dry_run && pip == PipInvocation::Direct ==> r->Run_0.program@ == "pip"@
                && texts(r->Run_0.args@) == seq!["cache"@, "purge"@] && r->Run_1 is None
            &&& there && !dry_run && pip == PipInvocation::PythonModule ==> r->Run_0.program@
                == "python3"@ && texts(r->Run_0.args@) == seq!["-m"@, "pip"@, "cache"@, "purge"@]
                && r->Run_1 is None
            &&& !there && pip == PipInvocation::Direct ==> r->Run_0.program@ == "python3"@ && texts(
                r->Run_0.args@,
            ) == seq!["-m"@, "pip"@, "--version"@] && r->Run_1 == Some(
                PipInvocation::PythonModule,
            )
            &&& !there && pip == PipInvocation::PythonModule ==> r->Done_0 == one_skipped()
        }),
{
    assert(Seq::<Seq<char>>::empty() + seq!["cache"@, "purge"@] =~= seq!["cache"@, "purge"@]);
    assert(seq!["-m"@, "pip"@] + seq!["cache"@, "purge"@] =~= seq![
        "-m"@,
        "pip"@,
        "cache"@,
        "purge"@,
    ]);
}

} // verus!
