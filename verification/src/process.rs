//! Programs that commands run, and what comes back from them.
use crate::bytes::{lossy_text, text_of};
use crate::commands::{one_failed, one_ok, CommandSummary};
use crate::text::{lemma_texts_push, texts, trim, trim_of};
use vstd::prelude::*;

verus! {

/// A program and its arguments.
#[derive(Debug)]
pub struct Invocation {
    pub program: String,
    pub args: Vec<String>,
}

impl Invocation {
    /// `self` runs `program` with `args`.
    pub open spec fn runs(self, program: Seq<char>, args: Seq<Seq<char>>) -> bool {
        self.program@ == program && texts(self.args@) == args
    }

    pub fn new(program: &str) -> (r: Self)
        ensures
            r.runs(program@, seq![]),
    {
        let args: Vec<String> = Vec::new();
        assert(texts(args@) =~= seq![]);
        Self { program: program.to_owned(), args }
    }

    pub fn arg(self, arg: &str) -> (r: Self)
        ensures
            r.runs(self.program@, texts(self.args@).push(arg@)),
    {
        let mut args = self.args;
        let text = arg.to_owned();
        proof {
            lemma_texts_push(args@, text);
        }
        args.push(text);
        Self { program: self.program, args }
    }

    pub fn with_args(self, more: &Vec<String>) -> (r: Self)
        ensures
            r.runs(self.program@, texts(self.args@) + texts(more@)),
    {
        let mut args = self.args;
        let ghost start = texts(args@);
        let ghost all = texts(more@);
        let mut i: usize = 0;
        assert(start + all.take(0) =~= start);
        while i < more.len()
            invariant
                i <= more@.len(),
                all == texts(more@),
                texts(args@) == start + all.take(i as int),
            decreases more@.len() - i,
        {
            let text = more[i].clone();
            proof {
                lemma_texts_push(args@, text);
                assert((start + all.take(i as int)).push(text@) =~= start + all.take(i as int + 1));
            }
            args.push(text);
            i = i + 1;
        }
        assert(all.take(all.len() as int) == all);
        Self { program: self.program, args }
    }
}

/// What came back from a program that ran.
#[derive(Debug)]
pub struct Finished {
    pub success: bool,
    pub code: Option<i32>,
    /// How the program ended, for people.
    pub status: String,
    pub stdout: Vec<u8>,
    pub stderr: Vec<u8>,
}

/// What came back from an attempt to run a program.
#[derive(Debug)]
pub enum Reply {
    /// The program could not be started, and why.
    NotStarted(String),
    Finished(Finished),
}

pub open spec fn succeeded(reply: Reply) -> bool {
    reply matches Reply::Finished(done) && done.success
}

/// Whether a program ran and succeeded.
pub fn ran_well(reply: &Reply) -> (r: bool)
    ensures
        r == succeeded(*reply),
{
    match reply {
        Reply::Finished(done) => done.success,
        Reply::NotStarted(_) => false,
    }
}

/// What to do next: run a program and come back with the reply in a state, or
/// stop with a summary.
pub enum Next<S> {
    Run(Invocation, S),
    Done(CommandSummary),
}

impl<S> Next<S> {
    /// The step runs `program` with `args`, then goes on in `state`.
    pub open spec fn runs(self, program: Seq<char>, args: Seq<Seq<char>>, state: S) -> bool {
        self matches Next::Run(invocation, s) && invocation.runs(program, args) && s == state
    }

    pub open spec fn done(self, summary: CommandSummary) -> bool {
        self matches Next::Done(s) && s == summary
    }
}

/// The outcome of a program that is a command's whole work: a program that could
/// not be started is an error, and one that fails is a failed item.
pub open spec fn outcome_of(reply: Reply, what: Seq<char>) -> Result<CommandSummary, Seq<char>> {
    match reply {
        Reply::NotStarted(_) => Err("failed to invoke `"@ + what + "`"@),
        Reply::Finished(done) => Ok(
            if done.success {
                one_ok(0)
            } else {
                one_failed()
            },
        ),
    }
}

/// `r` is `expected`, its message by its characters.
pub open spec fn reported<T>(r: Result<T, String>, expected: Result<T, Seq<char>>) -> bool {
    match r {
        Ok(v) => expected == Ok::<T, Seq<char>>(v),
        Err(message) => expected == Err::<T, Seq<char>>(message@),
    }
}

/// The message for a program that could not be started.
pub fn not_invoked(what: &str) -> (r: String)
    ensures
        r@ == "failed to invoke `"@ + what@ + "`"@,
{
    let mut message = "failed to invoke `".to_string();
    message.append(what);
    message.append("`");
    message
}

/// The outcome of a program that is a command's whole work.
pub fn tool_outcome(reply: &Reply, what: &str) -> (r: Result<CommandSummary, String>)
    ensures
        reported(r, outcome_of(*reply, what@)),
{
    match reply {
        Reply::NotStarted(_) => Err(not_invoked(what)),
        Reply::Finished(done) => {
            if done.success {
                Ok(CommandSummary::ok_one())
            } else {
                Ok(CommandSummary::failed_one())
            }
        },
    }
}

/// What a program wrote to standard error, without surrounding whitespace.
pub open spec fn complaint(done: Finished) -> Seq<char> {
    trim_of(lossy_text(done.stderr@))
}

pub fn complaint_of(done: &Finished) -> (r: String)
    ensures
        r@ == complaint(*done),
{
    let text = text_of(&done.stderr);
    trim(text.as_str())
}

/// What a program wrote to standard output.
pub fn output_of(done: &Finished) -> (r: String)
    ensures
        r@ == lossy_text(done.stdout@),
{
    text_of(&done.stdout)
}

/// A program succeeded only where it ran and said so. One that could not be
/// started is an error, one that fails a failed item, and one that works an item
/// done.
pub proof fn law_outcomes(reply: Reply, what: Seq<char>)
    ensures
        reply is NotStarted ==> !succeeded(reply) && outcome_of(reply, what) == Err::<
            CommandSummary,
            Seq<char>,
        >("failed to invoke `"@ + what + "`"@),
        reply matches Reply::Finished(done) ==> succeeded(reply) == done.success && outcome_of(
            reply,
            what,
        ) is Ok,
        succeeded(reply) ==> outcome_of(reply, what)->Ok_0.items_ok == 1 && outcome_of(
            reply,
            what,
        )->Ok_0.items_failed == 0,
        reply is Finished && !succeeded(reply) ==> outcome_of(reply, what)->Ok_0.items_ok == 0
            && outcome_of(reply, what)->Ok_0.items_failed == 1,
        reply is Finished ==> outcome_of(reply, what)->Ok_0.bytes_freed == 0 && outcome_of(
            reply,
            what,
        )->Ok_0.items_skipped == 0,
{
}

/// What a program complains of is what it wrote to standard error, trimmed, and
/// not what it wrote to standard output.
pub proof fn law_complaints(done: Finished)
    ensures
        complaint(done) == trim_of(lossy_text(done.stderr@)),
{
}

} // verus!
