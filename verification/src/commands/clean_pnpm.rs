//! Prunes the store of pnpm.
use super::{one_ok, one_skipped, CommandSummary};
use crate::bytes::lossy_text;
use crate::number::{number_of, parse_u64};
use crate::order::{lemma_lex_strict_total, lex, strict_total};
use crate::process::{
    outcome_of, output_of, reported, tool_outcome, Invocation, Next, Reply,
};
use crate::split::{fields, fields_of, lines, lines_of, words, words_of};
use crate::text::{opt_text, texts};
use vstd::prelude::*;

verus! {

#[derive(Debug, Default)]
pub struct Args {}

/// How pnpm is reached.
#[derive(Debug)]
pub enum Pnpm {
    Direct,
    /// Through mise, in this version.
    Mise(String),
}

pub open spec fn pnpm_program(pnpm: Pnpm) -> Seq<char> {
    match pnpm {
        Pnpm::Direct => "pnpm"@,
        Pnpm::Mise(_) => "mise"@,
    }
}

pub open spec fn pnpm_args(pnpm: Pnpm) -> Seq<Seq<char>> {
    match pnpm {
        Pnpm::Direct => seq![],
        Pnpm::Mise(version) => seq!["exec"@, "pnpm@"@ + version@, "--"@, "pnpm"@],
    }
}

pub open spec fn pnpm_text(pnpm: Pnpm) -> Seq<char> {
    match pnpm {
        Pnpm::Direct => "pnpm"@,
        Pnpm::Mise(version) => "mise exec pnpm@"@ + version@,
    }
}

impl Pnpm {
    /// The invocation, to which arguments are still to be added.
    pub fn command(&self) -> (r: Invocation)
        ensures
            r.runs(pnpm_program(*self), pnpm_args(*self)),
    {
        match self {
            Pnpm::Direct => Invocation::new("pnpm"),
            Pnpm::Mise(version) => {
                let mut tool = "pnpm@".to_string();
                tool.append(version.as_str());
                let r = Invocation::new("mise").arg("exec").arg(tool.as_str()).arg("--").arg(
                    "pnpm",
                );
                assert(texts(r.args@) =~= pnpm_args(*self));
                r
            },
        }
    }

    pub fn describe(&self) -> (r: String)
        ensures
            r@ == pnpm_text(*self),
    {
        match self {
            Pnpm::Direct => "pnpm".to_string(),
            Pnpm::Mise(version) => {
                let mut out = "mise exec pnpm@".to_string();
                out.append(version.as_str());
                out
            },
        }
    }
}

// ---------------------------------------------------------------------------
// Versions
// ---------------------------------------------------------------------------

pub open spec fn part_number(part: Seq<char>) -> u64 {
    match number_of(part) {
        Some(n) if n <= u64::MAX => n as u64,
        _ => 0,
    }
}

/// The numbers of a version. A part that is none counts as zero.
pub open spec fn key_of(version: Seq<char>) -> Seq<u64> {
    fields_of(version, '.').map_values(|part: Seq<char>| part_number(part))
}

pub fn version_key(version: &str) -> (r: Vec<u64>)
    ensures
        r@ == key_of(version@),
{
    let parts = fields(version, '.');
    let ghost all = texts(parts@);
    let mut out: Vec<u64> = Vec::new();
    let mut i: usize = 0;
    while i < parts.len()
        invariant
            i <= parts@.len(),
            out@.len() == i,
            all == texts(parts@),
            forall|j: int| 0 <= j < i ==> out@[j] == part_number(#[trigger] all[j]),
        decreases parts@.len() - i,
    {
        assert(all[i as int] == parts@[i as int]@);
        let n: u64 = match parse_u64(parts[i].as_str()) {
            Some(n) => n,
            None => 0,
        };
        out.push(n);
        i = i + 1;
    }
    assert(out@ =~= key_of(version@));
    out
}

pub open spec fn number_before() -> spec_fn(u64, u64) -> bool {
    |a: u64, b: u64| a < b
}

/// The order of versions: by their numbers, first to last.
pub open spec fn version_before(a: Seq<char>, b: Seq<char>) -> bool {
    lex(key_of(a), key_of(b), number_before())
}

fn key_less(a: &Vec<u64>, b: &Vec<u64>) -> (r: bool)
    ensures
        r == lex(a@, b@, number_before()),
{
    let mut i: usize = 0;
    assert(a@.skip(0) =~= a@ && b@.skip(0) =~= b@);
    while i < a.len() && i < b.len() && a[i] == b[i]
        invariant
            i <= a@.len(),
            i <= b@.len(),
            lex(a@, b@, number_before()) == lex(
                a@.skip(i as int),
                b@.skip(i as int),
                number_before(),
            ),
        decreases a@.len() - i,
    {
        assert(a@.skip(i as int).drop_first() =~= a@.skip(i as int + 1));
        assert(b@.skip(i as int).drop_first() =~= b@.skip(i as int + 1));
        i = i + 1;
    }
    if i == b.len() {
        false
    } else if i == a.len() {
        true
    } else {
        a[i] < b[i]
    }
}

/// The second word of each line that has one.
pub open spec fn installed_in(list: Seq<Seq<char>>) -> Seq<Seq<char>>
    decreases list.len(),
{
    if list.len() == 0 {
        seq![]
    } else {
        let before = installed_in(list.drop_last());
        let all = words_of(list.last());
        if all.len() > 1 {
            before.push(all[1])
        } else {
            before
        }
    }
}

/// The highest version of a list, and of equal ones the last.
pub open spec fn highest(list: Seq<Seq<char>>) -> Option<Seq<char>>
    decreases list.len(),
{
    if list.len() == 0 {
        None
    } else {
        match highest(list.drop_last()) {
            Some(best) if version_before(list.last(), best) => Some(best),
            _ => Some(list.last()),
        }
    }
}

/// The version that is picked is one of the list, and no other of the list is
/// higher.
pub proof fn law_highest_version(list: Seq<Seq<char>>, i: int)
    requires
        0 <= i < list.len(),
    ensures
        highest(list) matches Some(best) && list.contains(best) && !version_before(best, list[i]),
    decreases list.len(),
{
    let order = |a: Seq<u64>, b: Seq<u64>| lex(a, b, number_before());
    assert(strict_total(number_before()));
    lemma_lex_strict_total(number_before());
    let head = list.drop_last();
    let last = list.last();
    assert(list[list.len() - 1] == last);
    if head.len() == 0 {
        assert(!order(key_of(last), key_of(last)));
    } else {
        law_highest_version(head, 0);
        let best = highest(head)->0;
        let k = choose|k: int| 0 <= k < head.len() && head[k] == best;
        assert(list[k] == best);
        if i < head.len() {
            law_highest_version(head, i);
            assert(list[i] == head[i]);
            let x = key_of(list[i]);
            if !version_before(last, best) {
                if order(key_of(last), x) {
                    if order(x, key_of(best)) {
                        assert(order(key_of(last), key_of(best)));
                    } else {
                        assert(!order(key_of(best), x));
                        assert(x == key_of(best));
                    }
                }
            }
        } else if version_before(last, best) {
            if order(key_of(best), key_of(last)) {
                assert(order(key_of(last), key_of(best)));
                assert(order(key_of(best), key_of(best)));
            }
        } else {
            assert(!order(key_of(last), key_of(last)));
        }
    }
}

/// The highest version in a list of installed ones, which gives a name and a
/// version on each line.
pub fn latest_installed_version(mise_ls: &str) -> (r: Option<String>)
    ensures
        opt_text(r) == highest(installed_in(lines_of(mise_ls@))),
{
    let list = lines(mise_ls);
    let ghost all = texts(list@);
    let mut best: Option<String> = None;
    let mut i: usize = 0;
    assert(all.take(0) =~= Seq::<Seq<char>>::empty());
    while i < list.len()
        invariant
            i <= list@.len(),
            all == texts(list@),
            opt_text(best) == highest(installed_in(all.take(i as int))),
        decreases list@.len() - i,
    {
        let parts = words(list[i].as_str());
        proof {
            assert(all.take(i as int + 1).drop_last() =~= all.take(i as int));
            assert(all.take(i as int + 1).last() == list@[i as int]@);
            assert(texts(parts@).len() == parts@.len());
        }
        if parts.len() > 1 {
            let version = parts[1].clone();
            proof {
                assert(texts(parts@)[1] == version@);
                let before = installed_in(all.take(i as int));
                assert(before.push(version@).drop_last() =~= before);
            }
            let keeps = match &best {
                Some(b) => {
                    let key = version_key(version.as_str());
                    let high = version_key(b.as_str());
                    key_less(&key, &high)
                },
                None => false,
            };
            if !keeps {
                best = Some(version);
            }
        }
        i = i + 1;
    }
    assert(all.take(all.len() as int) =~= all);
    best
}

// ---------------------------------------------------------------------------
// Running pnpm
// ---------------------------------------------------------------------------

/// The question whether pnpm can be reached directly.
pub fn ask_direct() -> (r: Invocation)
    ensures
        r.runs("pnpm"@, seq!["--version"@]),
{
    let r = Invocation::new("pnpm").arg("--version");
    assert(texts(r.args@) =~= seq!["--version"@]);
    r
}

/// The question for the versions that mise has installed.
pub fn ask_mise() -> (r: Invocation)
    ensures
        r.runs("mise"@, seq!["ls"@, "--installed"@, "pnpm"@]),
{
    let r = Invocation::new("mise").arg("ls").arg("--installed").arg("pnpm");
    assert(texts(r.args@) =~= seq!["ls"@, "--installed"@, "pnpm"@]);
    r
}

/// The highest version that mise has installed, if there is one.
pub fn mise_latest_pnpm(reply: &Reply) -> (r: Option<String>)
    ensures
        opt_text(r) == match *reply {
            Reply::Finished(done) => if done.success {
                highest(installed_in(lines_of(lossy_text(done.stdout@))))
            } else {
                None
            },
            Reply::NotStarted(_) => None,
        },
{
    match reply {
        Reply::Finished(done) => {
            if !done.success {
                return None;
            }
            let text = output_of(done);
            latest_installed_version(text.as_str())
        },
        Reply::NotStarted(_) => None,
    }
}

/// Without pnpm the command is skipped, and a dry run prunes nothing.
pub fn prune(pnpm: &Option<Pnpm>, dry_run: bool) -> (r: Next<()>)
    ensures
        match *pnpm {
            None => r.done(one_skipped()),
            Some(p) => if dry_run {
                r.done(one_ok(0))
            } else {
                r.runs(pnpm_program(p), pnpm_args(p) + seq!["store"@, "prune"@], ())
            },
        },
        dry_run ==> !(r is Run),
{
    match pnpm {
        None => Next::Done(CommandSummary::skipped_one()),
        Some(p) => {
            if dry_run {
                return Next::Done(CommandSummary::ok_one());
            }
            let run = p.command().arg("store").arg("prune");
            assert(texts(run.args@) =~= pnpm_args(*p) + seq!["store"@, "prune"@]);
            Next::Run(run, ())
        },
    }
}

/// The outcome of the prune.
pub fn after_prune(pnpm: &Pnpm, reply: &Reply) -> (r: Result<CommandSummary, String>)
    ensures
        reported(r, outcome_of(*reply, pnpm_text(*pnpm) + " store prune"@)),
{
    let mut what = pnpm.describe();
    what.append(" store prune");
    tool_outcome(reply, what.as_str())
}

/// How pnpm is run: by itself, or in a version of mise.
pub proof fn law_running_pnpm(version: String, pnpm: Option<Pnpm>, dry_run: bool, r: Next<()>)
    requires
        call_ensures(prune, (&pnpm, dry_run), r),
    ensures
        r is Run <==> pnpm is Some && !dry_run,
        pnpm == Some(Pnpm::Direct) && !dry_run ==> r->Run_0.program@ == "pnpm"@ && texts(
            r->Run_0.args@,
        ) == seq!["store"@, "prune"@],
        pnpm == Some(Pnpm::Mise(version)) && !dry_run ==> r->Run_0.program@ == "mise"@ && texts(
            r->Run_0.args@,
        ) == seq!["exec"@, "pnpm@"@ + version@, "--"@, "pnpm"@, "store"@, "prune"@],
        pnpm is None ==> r->Done_0.items_skipped == 1,
{
    if pnpm == Some(Pnpm::Direct) {
        assert(pnpm_args(pnpm->0) + seq!["store"@, "prune"@] =~= seq!["store"@, "prune"@]);
    }
    if pnpm == Some(Pnpm::Mise(version)) {
        assert(pnpm_args(pnpm->0) + seq!["store"@, "prune"@] =~= seq![
            "exec"@,
            "pnpm@"@ + version@,
            "--"@,
            "pnpm"@,
            "store"@,
            "prune"@,
        ]);
    }
}

/// A line of the list gives a version by its second word, and none where it has
/// fewer words.
pub proof fn law_listed_versions(list: Seq<Seq<char>>, line: Seq<char>)
    ensures
        installed_in(Seq::empty()) == Seq::<Seq<char>>::empty(),
        words_of(line).len() >= 2 ==> installed_in(list.push(line)) == installed_in(list).push(
            words_of(line)[1],
        ),
        words_of(line).len() < 2 ==> installed_in(list.push(line)) == installed_in(list),
{
    assert(list.push(line).drop_last() =~= list);
}

/// Versions are compared number by number: where all before agree, the smaller
/// number is the lower version, whatever comes after; and a version that another
/// begins with is the lower one.
pub proof fn law_version_order(
    a: Seq<char>,
    b: Seq<char>,
    i: int,
)
    ensures
        0 <= i < key_of(a).len() && i < key_of(b).len() && key_of(a).take(i) == key_of(b).take(i)
            && key_of(a)[i] < key_of(b)[i] ==> version_before(a, b) && !version_before(b, a),
        key_of(a).len() < key_of(b).len() && key_of(b).take(key_of(a).len() as int) == key_of(a)
            ==> version_before(a, b),
        key_of(a) == key_of(b) ==> !version_before(a, b),
{
    let less = number_before();
    let x = key_of(a);
    let y = key_of(b);
    if 0 <= i < x.len() && i < y.len() && x.take(i) == y.take(i) && x[i] < y[i] {
        lemma_key_order(x, y, i);
    }
    if x.len() < y.len() && y.take(x.len() as int) == x {
        lemma_key_prefix(x, y);
    }
    if x == y {
        lemma_key_same(x);
    }
}

proof fn lemma_key_order(x: Seq<u64>, y: Seq<u64>, i: int)
    requires
        0 <= i < x.len(),
        i < y.len(),
        x.take(i) == y.take(i),
        x[i] < y[i],
    ensures
        lex(x, y, number_before()),
        !lex(y, x, number_before()),
    decreases i,
{
    if i > 0 {
        assert(x[0] == x.take(i)[0] && y[0] == y.take(i)[0]);
        let u = x.drop_first();
        let v = y.drop_first();
        assert(u.take(i - 1) =~= x.take(i).drop_first());
        assert(v.take(i - 1) =~= y.take(i).drop_first());
        lemma_key_order(u, v, i - 1);
    }
}

proof fn lemma_key_prefix(x: Seq<u64>, y: Seq<u64>)
    requires
        x.len() < y.len(),
        y.take(x.len() as int) == x,
    ensures
        lex(x, y, number_before()),
    decreases x.len(),
{
    if x.len() > 0 {
        assert(x[0] == y.take(x.len() as int)[0]);
        assert(y.drop_first().take(x.len() - 1) =~= y.take(x.len() as int).drop_first());
        lemma_key_prefix(x.drop_first(), y.drop_first());
    }
}

proof fn lemma_key_same(x: Seq<u64>)
    ensures
        !lex(x, x, number_before()),
    decreases x.len(),
{
    if x.len() > 0 {
        lemma_key_same(x.drop_first());
    }
}

/// The numbers of a version are those between its dots, and a part that is no
/// number counts as zero.
pub proof fn law_version_numbers(part: Seq<char>, rest: Seq<char>, n: nat)
    requires
        !part.contains('.'),
    ensures
        n <= u64::MAX ==> part_number(crate::number::decimal_of(n)) == n,
        number_of(part) is None ==> part_number(part) == 0,
        key_of(part) == seq![part_number(part)],
        key_of(part + seq!['.'] + rest) == seq![part_number(part)] + key_of(rest),
{
    let f = |part: Seq<char>| part_number(part);
    crate::split::law_fields(part, rest, '.');
    crate::number::law_decimal_reads_back(n);
    assert(fields_of(part, '.').map_values(f) =~= seq![part_number(part)]);
    assert(fields_of(part + seq!['.'] + rest, '.').map_values(f) =~= seq![part_number(part)]
        + key_of(rest));
}

/// The version that is taken of a list: it is there, and none there is higher.
pub proof fn law_latest_installed_version(mise_ls: &str, r: Option<String>, i: int)
    requires
        call_ensures(latest_installed_version, (mise_ls,), r),
    ensures
        r is None <==> installed_in(lines_of(mise_ls@)).len() == 0,
        r is Some ==> installed_in(lines_of(mise_ls@)).contains(r->0@),
        r is Some && 0 <= i < installed_in(lines_of(mise_ls@)).len() ==> !version_before(
            r->0@,
            installed_in(lines_of(mise_ls@))[i],
        ),
{
    let list = installed_in(lines_of(mise_ls@));
    if list.len() > 0 {
        law_highest_version(list, 0);
        if 0 <= i < list.len() {
            law_highest_version(list, i);
        }
    }
}

} // verus!
