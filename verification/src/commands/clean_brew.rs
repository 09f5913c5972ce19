//! Runs the cleanup of Homebrew.
use super::{one_failed, one_ok, one_skipped, CommandSummary};
use crate::bytes::lossy_text;
use crate::config::{choose_text, chosen, CleanBrewConfig};
use crate::process::{
    output_of, ran_well, succeeded, Finished, Invocation, Next, Reply,
};
use crate::search::{contains, find, find_in, occurs};
use crate::sizes::size_of_text;
use crate::split::{lines, lines_of, words, words_of};
use crate::text::{chars_of, opt_text, string_of, texts, trim, trim_of};
use crate::ui::char_count;
use vstd::prelude::*;

verus! {

pub const DEFAULT_PRUNE: &'static str = "all";

#[derive(Debug, Default)]
pub struct Args {
    /// What is pruned: `all`, or a number of days.
    pub prune: Option<String>,
}

pub fn resolve_prune(args: &Args, cfg: &CleanBrewConfig) -> (r: String)
    ensures
        r@ == chosen(opt_text(args.prune), opt_text(cfg.prune), DEFAULT_PRUNE@),
{
    choose_text(&args.prune, &cfg.prune, DEFAULT_PRUNE)
}

/// The question whether Homebrew is installed.
pub fn ask_brew() -> (r: Invocation)
    ensures
        r.runs("brew"@, seq!["--version"@]),
{
    let r = Invocation::new("brew").arg("--version");
    assert(texts(r.args@) =~= seq!["--version"@]);
    r
}

/// The arguments of a cleanup, which previews in a dry run.
pub open spec fn cleanup_args(prune: Seq<char>, dry_run: bool) -> Seq<Seq<char>> {
    let base = seq!["cleanup"@, "--prune="@ + prune];
    if dry_run {
        base.push("--dry-run"@)
    } else {
        base
    }
}

/// Without Homebrew the command is skipped.
pub fn after_ask(reply: &Reply, prune: &str, dry_run: bool) -> (r: Next<()>)
    ensures
        if succeeded(*reply) {
            r.runs("brew"@, cleanup_args(prune@, dry_run), ())
        } else {
            r.done(one_skipped())
        },
{
    if !ran_well(reply) {
        return Next::Done(CommandSummary::skipped_one());
    }
    let mut flag = "--prune=".to_string();
    flag.append(prune);
    let mut run = Invocation::new("brew").arg("cleanup").arg(flag.as_str());
    if dry_run {
        run = run.arg("--dry-run");
    }
    assert(texts(run.args@) =~= cleanup_args(prune@, dry_run));
    Next::Run(run, ())
}

/// What came of a cleanup.
#[derive(Debug)]
pub struct Cleanup {
    pub summary: CommandSummary,
    pub freed: Option<u64>,
}

/// The outcome of a cleanup, with what Homebrew says it freed.
pub fn run_brew_cleanup(reply: &Reply) -> (r: Result<Cleanup, String>)
    ensures
        match *reply {
            Reply::NotStarted(_) => r matches Err(message) && message@
                == "failed to invoke `brew cleanup`"@,
            Reply::Finished(done) => r matches Ok(c) && if done.success {
                let freed = freed_in(lossy_text(done.stdout@));
                &&& c.freed == freed
                &&& c.summary == one_ok(
                    match freed {
                        Some(n) => n,
                        None => 0,
                    },
                )
            } else {
                c.freed is None && c.summary == one_failed()
            },
        },
{
    match reply {
        Reply::NotStarted(_) => Err("failed to invoke `brew cleanup`".to_string()),
        Reply::Finished(done) => {
            if !done.success {
                return Ok(Cleanup { summary: CommandSummary::failed_one(), freed: None });
            }
            let text = output_of(done);
            let freed = parse_freed_bytes(text.as_str());
            let bytes: u64 = match freed {
                Some(n) => n,
                None => 0,
            };
            Ok(Cleanup { summary: CommandSummary::ok_one_with_bytes(bytes), freed })
        },
    }
}

/// The line that says what was freed, or would be.
pub open spec fn says_freed(line: Seq<char>) -> bool {
    occurs(line, "freed approximately"@) || occurs(line, "free approximately"@)
}

pub open spec fn first_saying(list: Seq<Seq<char>>) -> Option<Seq<char>>
    decreases list.len(),
{
    if list.len() == 0 {
        None
    } else if says_freed(list[0]) {
        Some(list[0])
    } else {
        first_saying(list.drop_first())
    }
}

/// What is between the first two places of `sep` in `s`, or behind the only one.
pub open spec fn second_part(s: Seq<char>, sep: Seq<char>) -> Option<Seq<char>> {
    match find_in(s, sep) {
        None => None,
        Some(k) => {
            let rest = s.skip(k + sep.len());
            match find_in(rest, sep) {
                Some(e) => Some(rest.take(e)),
                None => Some(rest),
            }
        },
    }
}

/// The size on a line that says what was freed.
pub open spec fn size_on(line: Seq<char>) -> Option<u64> {
    match second_part(line, "approximately"@) {
        None => None,
        Some(part) => {
            let all = words_of(trim_of(part));
            if all.len() == 0 {
                None
            } else {
                size_of_text(all[0])
            }
        },
    }
}

/// What a cleanup says it freed, in bytes.
pub open spec fn freed_in(output: Seq<char>) -> Option<u64> {
    match first_saying(lines_of(output)) {
        None => None,
        Some(line) => size_on(line),
    }
}

fn part_between(s: &str, sep: &str) -> (r: Option<String>)
    ensures
        opt_text(r) == second_part(s@, sep@),
{
    match find(s, sep) {
        None => None,
        Some(k) => {
            let v = chars_of(s);
            let n = char_count(sep);
            let ghost rest = s@.skip(k + sep@.len());
            let len = v.len();
            assert(k + n <= len);
            assert(rest =~= v@.subrange(k + n, v@.len() as int));
            let tail = string_of(&v, k + n, len);
            match find(tail.as_str(), sep) {
                None => Some(tail),
                Some(e) => {
                    let w = chars_of(tail.as_str());
                    assert(w@.subrange(0, e as int) =~= rest.take(e as int));
                    Some(string_of(&w, 0, e))
                },
            }
        },
    }
}

fn size_of_line(line: &str) -> (r: Option<u64>)
    ensures
        r == size_on(line@),
{
    match part_between(line, "approximately") {
        None => None,
        Some(part) => {
            let trimmed = trim(part.as_str());
            let all = words(trimmed.as_str());
            assert(texts(all@).len() == all@.len());
            if all.len() == 0 {
                return None;
            }
            assert(texts(all@)[0] == all@[0]@);
            parse_size(all[0].as_str())
        },
    }
}

/// Reads what a cleanup says it freed, in bytes; none where it does not say.
pub fn parse_freed_bytes(output: &str) -> (r: Option<u64>)
    ensures
        r == freed_in(output@),
{
    let list = lines(output);
    let ghost all = texts(list@);
    let mut i: usize = 0;
    assert(all.skip(0) =~= all);
    while i < list.len()
        invariant
            i <= list@.len(),
            all == texts(list@),
            all == lines_of(output@),
            first_saying(all) == first_saying(all.skip(i as int)),
        decreases list@.len() - i,
    {
        proof {
            assert(all.skip(i as int)[0] == list@[i as int]@);
            assert(all.skip(i as int).drop_first() =~= all.skip(i as int + 1));
        }
        let line = list[i].as_str();
        if contains(line, "freed approximately") || contains(line, "free approximately") {
            return size_of_line(line);
        }
        i = i + 1;
    }
    None
}

/// Reads a size such as `1.2GB`, `512KB` or `1.5KiB`.
pub fn parse_size(raw: &str) -> (r: Option<u64>)
    ensures
        r == size_of_text(raw@),
{
    crate::sizes::parse_size(raw)
}

/// A line says what was freed where it holds one of two phrases.
pub proof fn law_what_says_freed(a: Seq<char>, b: Seq<char>, line: Seq<char>)
    ensures
        says_freed(a + "freed approximately"@ + b),
        says_freed(a + "free approximately"@ + b),
        says_freed(line) ==> exists|c: Seq<char>, d: Seq<char>|
            line == #[trigger] (c + "freed approximately"@ + d) || line == c
                + "free approximately"@ + d,
{
    let one = a + "freed approximately"@ + b;
    let two = a + "free approximately"@ + b;
    crate::search::law_occurs(one, "freed approximately"@);
    crate::search::law_occurs(two, "free approximately"@);
    assert(one == a + "freed approximately"@ + b);
    assert(two == a + "free approximately"@ + b);
    crate::search::law_occurs(line, "freed approximately"@);
    crate::search::law_occurs(line, "free approximately"@);
    if occurs(line, "freed approximately"@) {
        let (c, d) = choose|c: Seq<char>, d: Seq<char>|
            line == #[trigger] (c + "freed approximately"@ + d);
        assert(line == c + "freed approximately"@ + d);
    } else if occurs(line, "free approximately"@) {
        let (c, d) = choose|c: Seq<char>, d: Seq<char>|
            line == #[trigger] (c + "free approximately"@ + d);
        let other = c + "freed approximately"@ + d;
        assert(line == c + "free approximately"@ + d);
    }
}

/// The first line that says what was freed counts, and no other.
pub proof fn law_the_first_line_counts(line: Seq<char>, rest: Seq<Seq<char>>)
    ensures
        first_saying(Seq::empty()) is None,
        says_freed(line) ==> first_saying(seq![line] + rest) == Some(line),
        !says_freed(line) ==> first_saying(seq![line] + rest) == first_saying(rest),
{
    let all = seq![line] + rest;
    assert(all.drop_first() =~= rest);
    assert(all[0] == line);
}

/// The size is the first word behind the word `approximately`.
pub proof fn law_size_on_a_line(a: Seq<char>, b: Seq<char>)
    requires
        find_in(a + "approximately"@ + b, "approximately"@) == Some(a.len() as int),
        !occurs(b, "approximately"@),
    ensures
        words_of(b).len() > 0 ==> size_on(a + "approximately"@ + b) == size_of_text(words_of(b)[0]),
        words_of(b).len() == 0 ==> size_on(a + "approximately"@ + b) is None,
{
    let s = a + "approximately"@ + b;
    let sep = "approximately"@;
    assert(s.skip(a.len() as int + sep.len()) =~= b);
    crate::search::law_not_found(b, sep);
    crate::search::law_occurs(b, sep);
    if find_in(b, sep) is Some {
        let j = choose|j: int|
            0 <= j <= b.len() - sep.len() && (#[trigger] b.skip(j)).take(sep.len() as int) == sep;
        assert(b =~= b.take(j) + sep + b.skip(j + sep.len()));
    }
    crate::split::law_trimming_keeps_words(b);
}

/// What [`parse_freed_bytes`] gives: nothing where no line says what was freed.
pub proof fn law_parse_freed_bytes(output: &str, r: Option<u64>)
    requires
        call_ensures(parse_freed_bytes, (output,), r),
    ensures
        first_saying(lines_of(output@)) is None ==> r is None,
        first_saying(lines_of(output@)) matches Some(line) ==> r == size_on(line),
{
}

/// A dry run tells Homebrew to delete nothing.
pub proof fn law_after_ask(reply: Reply, prune: &str, dry_run: bool, r: Next<()>)
    requires
        call_ensures(after_ask, (&reply, prune, dry_run), r),
    ensures
        r is Run <==> reply is Finished && reply->Finished_0.success,
        r is Run ==> r->Run_0.program@ == "brew"@,
        r is Run && dry_run ==> texts(r->Run_0.args@) == seq![
            "cleanup"@,
            "--prune="@ + prune@,
            "--dry-run"@,
        ],
        r is Run && !dry_run ==> texts(r->Run_0.args@) == seq!["cleanup"@, "--prune="@ + prune@],
{
    assert(seq!["cleanup"@, "--prune="@ + prune@].push("--dry-run"@) =~= seq![
        "cleanup"@,
        "--prune="@ + prune@,
        "--dry-run"@,
    ]);
}

/// What is pruned where nothing is given.
pub proof fn law_resolve_prune(args: Args, cfg: CleanBrewConfig, r: String)
    requires
        call_ensures(resolve_prune, (&args, &cfg), r),
    ensures
        args.prune is Some ==> r@ == args.prune->0@,
        args.prune is None && cfg.prune is Some ==> r@ == cfg.prune->0@,
        args.prune is None && cfg.prune is None ==> r@ == "all"@,
{
}

} // verus!
