//! What commands find on disk, and which of it they take.
use super::{one_skipped, CommandSummary};
use crate::bytes::utf8_text;
use crate::number::{number_of, parse_u32};
use crate::path::{components, components_of, join, joined, plain_name};
use crate::process::{Invocation, Reply};
use crate::sorting::{sort_paths, sorted_paths};
use crate::split::{lines, lines_of};
use crate::text::{contains_text, lemma_texts_push, texts, trim, trim_of};
use crate::walk::{older, older_than_days};
use vstd::prelude::*;
use vstd::utf8::{decode_utf8, valid_utf8};

verus! {

/// An entry of a directory, or of a walk below one.
#[derive(Debug)]
pub struct Entry {
    pub path: String,
    pub name: String,
    pub is_dir: bool,
    pub is_file: bool,
}

/// The paths of the entries that are wanted, in the order of the entries.
pub open spec fn picked(entries: Seq<Entry>, wanted: spec_fn(Entry) -> bool) -> Seq<Seq<char>>
    decreases entries.len(),
{
    if entries.len() == 0 {
        seq![]
    } else {
        let before = picked(entries.drop_last(), wanted);
        if wanted(entries.last()) {
            before.push(entries.last().path@)
        } else {
            before
        }
    }
}

/// A path is picked exactly where an entry with it is wanted.
pub proof fn law_only_wanted_entries(
    entries: Seq<Entry>,
    wanted: spec_fn(Entry) -> bool,
    path: Seq<char>,
)
    ensures
        picked(entries, wanted).contains(path) <==> exists|i: int|
            0 <= i < entries.len() && wanted(#[trigger] entries[i]) && entries[i].path@ == path,
    decreases entries.len(),
{
    if entries.len() > 0 {
        let head = entries.drop_last();
        let last = entries.last();
        let before = picked(head, wanted);
        let out = picked(entries, wanted);
        law_only_wanted_entries(head, wanted, path);
        if before.contains(path) {
            let k = choose|k: int| 0 <= k < before.len() && before[k] == path;
            assert(out[k] == path);
            let i = choose|i: int|
                0 <= i < head.len() && wanted(#[trigger] head[i]) && head[i].path@ == path;
            assert(entries[i] == head[i]);
        }
        if wanted(last) && last.path@ == path {
            assert(out[out.len() - 1] == path);
            assert(entries[entries.len() - 1] == last);
        }
        if out.contains(path) && !before.contains(path) {
            let k = choose|k: int| 0 <= k < out.len() && out[k] == path;
            if k < before.len() {
                assert(before[k] == path);
            }
            assert(entries[entries.len() - 1] == last);
        }
        if exists|i: int|
            0 <= i < entries.len() && wanted(#[trigger] entries[i]) && entries[i].path@ == path {
            let i = choose|i: int|
                0 <= i < entries.len() && wanted(#[trigger] entries[i]) && entries[i].path@ == path;
            if i < head.len() {
                assert(head[i] == entries[i]);
                assert(before.contains(path));
            }
        }
    }
}

/// An entry that is a directory.
pub open spec fn a_directory() -> spec_fn(Entry) -> bool {
    |e: Entry| e.is_dir
}

/// The directories among the entries of a directory, in order.
pub fn sorted_dirs(entries: &Vec<Entry>) -> (r: Vec<String>)
    ensures
        texts(r@) == sorted_paths(picked(entries@, a_directory())),
{
    let mut out: Vec<String> = Vec::new();
    let mut i: usize = 0;
    assert(entries@.take(0) =~= Seq::<Entry>::empty());
    assert(texts(out@) =~= picked(entries@.take(0), a_directory()));
    while i < entries.len()
        invariant
            i <= entries@.len(),
            texts(out@) == picked(entries@.take(i as int), a_directory()),
        decreases entries@.len() - i,
    {
        assert(entries@.take(i as int + 1).drop_last() =~= entries@.take(i as int));
        if entries[i].is_dir {
            let path = entries[i].path.clone();
            proof {
                lemma_texts_push(out@, path);
            }
            out.push(path);
        }
        i = i + 1;
    }
    assert(entries@.take(entries@.len() as int) =~= entries@);
    sort_paths(&out)
}

/// An entry that is a regular file.
pub open spec fn a_file() -> spec_fn(Entry) -> bool {
    |e: Entry| e.is_file
}

/// The regular files among the entries, in the order of the entries.
pub fn files_among(entries: &Vec<Entry>) -> (r: Vec<String>)
    ensures
        texts(r@) == picked(entries@, a_file()),
{
    let mut out: Vec<String> = Vec::new();
    let mut i: usize = 0;
    assert(entries@.take(0) =~= Seq::<Entry>::empty());
    assert(texts(out@) =~= picked(entries@.take(0), a_file()));
    while i < entries.len()
        invariant
            i <= entries@.len(),
            texts(out@) == picked(entries@.take(i as int), a_file()),
        decreases entries@.len() - i,
    {
        assert(entries@.take(i as int + 1).drop_last() =~= entries@.take(i as int));
        if entries[i].is_file {
            let path = entries[i].path.clone();
            proof {
                lemma_texts_push(out@, path);
            }
            out.push(path);
        }
        i = i + 1;
    }
    assert(entries@.take(entries@.len() as int) =~= entries@);
    out
}

/// A path, and when what is there was changed.
#[derive(Debug)]
pub struct Found {
    pub path: String,
    pub mtime: Option<u64>,
}

/// The paths that are old enough, in the order they were found.
pub open spec fn old_paths(found: Seq<Found>, now: u64, days: u32) -> Seq<Seq<char>>
    decreases found.len(),
{
    if found.len() == 0 {
        seq![]
    } else {
        let before = old_paths(found.drop_last(), now, days);
        if older(found.last().mtime, now, days) {
            before.push(found.last().path@)
        } else {
            before
        }
    }
}

/// Keeps the paths that are old enough.
pub fn old_enough(found: &Vec<Found>, now: u64, days: u32) -> (r: Vec<String>)
    ensures
        texts(r@) == old_paths(found@, now, days),
{
    let mut out: Vec<String> = Vec::new();
    let mut i: usize = 0;
    assert(found@.take(0) =~= Seq::<Found>::empty());
    assert(texts(out@) =~= old_paths(found@.take(0), now, days));
    while i < found.len()
        invariant
            i <= found@.len(),
            texts(out@) == old_paths(found@.take(i as int), now, days),
        decreases found@.len() - i,
    {
        assert(found@.take(i as int + 1).drop_last() =~= found@.take(i as int));
        if older_than_days(found[i].mtime, now, days) {
            let path = found[i].path.clone();
            proof {
                lemma_texts_push(out@, path);
            }
            out.push(path);
        }
        i = i + 1;
    }
    assert(found@.take(found@.len() as int) =~= found@);
    out
}

/// Without an age every path is kept.
pub proof fn law_no_age_keeps_all(found: Seq<Found>, now: u64)
    ensures
        old_paths(found, now, 0) == found.map_values(|f: Found| f.path@),
    decreases found.len(),
{
    let all = found.map_values(|f: Found| f.path@);
    if found.len() > 0 {
        law_no_age_keeps_all(found.drop_last(), now);
        assert(all =~= found.drop_last().map_values(|f: Found| f.path@).push(found.last().path@));
    } else {
        assert(old_paths(found, now, 0) =~= all);
    }
}

// ---------------------------------------------------------------------------
// Paths below a directory
// ---------------------------------------------------------------------------

/// Every name below `base`.
pub open spec fn all_joined(base: Seq<char>, names: Seq<Seq<char>>) -> Seq<Seq<char>> {
    names.map_values(|name: Seq<char>| joined(base, name))
}

/// The paths of a list that are among `present`.
pub open spec fn those_present(paths: Seq<Seq<char>>, present: Seq<Seq<char>>) -> Seq<Seq<char>> {
    paths.filter(|p: Seq<char>| present.contains(p))
}

pub fn join_all(base: &str, names: &Vec<String>) -> (r: Vec<String>)
    ensures
        texts(r@) == all_joined(base@, texts(names@)),
{
    let mut out: Vec<String> = Vec::new();
    let mut i: usize = 0;
    while i < names.len()
        invariant
            i <= names@.len(),
            out@.len() == i,
            forall|j: int| 0 <= j < i ==> out@[j]@ == joined(base@, #[trigger] names@[j]@),
        decreases names@.len() - i,
    {
        out.push(join(base, names[i].as_str()));
        i = i + 1;
    }
    assert(texts(out@) =~= all_joined(base@, texts(names@)));
    out
}

pub fn keep_present(paths: &Vec<String>, present: &Vec<String>) -> (r: Vec<String>)
    ensures
        texts(r@) == those_present(texts(paths@), texts(present@)),
{
    let ghost all = texts(paths@);
    let ghost keep = |p: Seq<char>| texts(present@).contains(p);
    let mut out: Vec<String> = Vec::new();
    let mut i: usize = 0;
    proof {
        reveal(Seq::filter);
        assert(all.take(0) =~= Seq::<Seq<char>>::empty());
        assert(texts(out@) =~= all.take(0).filter(keep));
    }
    while i < paths.len()
        invariant
            i <= paths@.len(),
            all == texts(paths@),
            keep == (|p: Seq<char>| texts(present@).contains(p)),
            texts(out@) == all.take(i as int).filter(keep),
        decreases paths@.len() - i,
    {
        proof {
            reveal(Seq::filter);
            assert(all.take(i as int + 1).drop_last() =~= all.take(i as int));
            assert(all.take(i as int + 1).last() == paths@[i as int]@);
        }
        if contains_text(present, paths[i].as_str()) {
            let path = paths[i].clone();
            proof {
                lemma_texts_push(out@, path);
            }
            out.push(path);
        }
        i = i + 1;
    }
    assert(all.take(all.len() as int) =~= all);
    out
}

pub proof fn lemma_those_present(paths: Seq<Seq<char>>, present: Seq<Seq<char>>, path: Seq<char>)
    ensures
        those_present(paths, present).contains(path) <==> paths.contains(path) && present.contains(
            path,
        ),
    decreases paths.len(),
{
    reveal(Seq::filter);
    if paths.len() > 0 {
        let head = paths.drop_last();
        let before = those_present(head, present);
        let out = those_present(paths, present);
        lemma_those_present(head, present, path);
        if head.contains(path) {
            let k = choose|k: int| 0 <= k < head.len() && head[k] == path;
            assert(paths[k] == path);
        }
        if paths.contains(path) && path != paths.last() {
            let k = choose|k: int| 0 <= k < paths.len() && paths[k] == path;
            assert(head[k] == path);
        }
        if path == paths.last() {
            assert(paths[paths.len() - 1] == path);
        }
        if before.contains(path) {
            let k = choose|k: int| 0 <= k < before.len() && before[k] == path;
            assert(out[k] == path);
        }
        if present.contains(paths.last()) {
            assert(out == before.push(paths.last()));
            assert(out[out.len() - 1] == paths.last());
            if out.contains(path) && path != paths.last() {
                let k = choose|k: int| 0 <= k < out.len() && out[k] == path;
                assert(before[k] == path);
            }
        } else {
            assert(out == before);
        }
    }
}

/// Below a directory exactly the listed names are taken that are there, and
/// nothing beside them.
pub proof fn law_only_listed_names(
    base: Seq<char>,
    names: Seq<Seq<char>>,
    present: Seq<Seq<char>>,
    path: Seq<char>,
)
    ensures
        those_present(all_joined(base, names), present).contains(path) <==> present.contains(path)
            && exists|i: int| 0 <= i < names.len() && joined(base, #[trigger] names[i]) == path,
{
    let paths = all_joined(base, names);
    lemma_those_present(paths, present, path);
    if paths.contains(path) {
        let k = choose|k: int| 0 <= k < paths.len() && paths[k] == path;
        assert(joined(base, names[k]) == path);
    }
    if exists|i: int| 0 <= i < names.len() && joined(base, #[trigger] names[i]) == path {
        let i = choose|i: int| 0 <= i < names.len() && joined(base, #[trigger] names[i]) == path;
        assert(paths[i] == path);
    }
}

/// The last two components of a path.
pub open spec fn last_two(path: Seq<char>) -> Seq<char> {
    let all = components_of(path);
    if all.len() == 0 {
        path
    } else if all.len() == 1 {
        all[0]
    } else {
        all[all.len() - 2] + "/"@ + all[all.len() - 1]
    }
}

/// Labels a path by its last two components.
pub fn last_two_components(path: &str) -> (r: String)
    ensures
        r@ == last_two(path@),
{
    let all = components(path);
    let ghost parts = texts(all@);
    let n = all.len();
    assert(parts.len() == n);
    if n == 0 {
        return path.to_owned();
    }
    if n == 1 {
        assert(parts[0] == all@[0]@);
        return all[0].clone();
    }
    assert(parts[n - 2] == all@[n - 2]@ && parts[n - 1] == all@[n - 1]@);
    let mut out = all[n - 2].clone();
    out.append("/");
    out.append(all[n - 1].as_str());
    out
}

/// A command whose directory is missing is skipped.
pub fn missing(there: bool) -> (r: Option<CommandSummary>)
    ensures
        r == if there {
            None
        } else {
            Some(one_skipped())
        },
{
    if there {
        None
    } else {
        Some(CommandSummary::skipped_one())
    }
}

// ---------------------------------------------------------------------------
// Running programs
// ---------------------------------------------------------------------------

/// The question for the process with this exact name.
pub fn ask_pid(name: &str) -> (r: Invocation)
    ensures
        r.runs("pgrep"@, seq!["-x"@, name@]),
{
    let r = Invocation::new("pgrep").arg("-x").arg(name);
    assert(texts(r.args@) =~= seq!["-x"@, name@]);
    r
}

/// The process that was answered with: the number on the first line.
pub open spec fn pid_of(reply: Reply) -> Option<u32> {
    match reply {
        Reply::NotStarted(_) => None,
        Reply::Finished(done) => if !valid_utf8(done.stdout@) {
            None
        } else {
            let all = lines_of(trim_of(decode_utf8(done.stdout@)));
            if all.len() == 0 {
                None
            } else {
                match number_of(all[0]) {
                    Some(n) if n <= u32::MAX => Some(n as u32),
                    _ => None,
                }
            }
        },
    }
}

pub fn running_pid(reply: &Reply) -> (r: Option<u32>)
    ensures
        r == pid_of(*reply),
{
    match reply {
        Reply::NotStarted(_) => None,
        Reply::Finished(done) => {
            match utf8_text(&done.stdout) {
                None => None,
                Some(text) => {
                    let trimmed = trim(text.as_str());
                    let list = lines(trimmed.as_str());
                    assert(texts(list@).len() == list@.len());
                    if list.len() == 0 {
                        return None;
                    }
                    assert(texts(list@)[0] == list@[0]@);
                    parse_u32(list[0].as_str())
                },
            }
        },
    }
}

/// How a command for the data of a program begins.
#[derive(Debug)]
pub enum Opening {
    /// It is over.
    Done(CommandSummary),
    /// It is asked whether the program runs.
    AskPid(Invocation),
    /// It goes on.
    Go,
}

/// Begins a command for the data of a program. Without the data it is skipped;
/// unless the check is left out, it is asked whether the program runs.
pub fn open_data(there: bool, skip_running_check: bool, program: &str) -> (r: Opening)
    ensures
        if !there {
            r matches Opening::Done(s) && s == one_skipped()
        } else if skip_running_check {
            r is Go
        } else {
            r matches Opening::AskPid(run) && run.runs("pgrep"@, seq!["-x"@, program@])
        },
{
    if !there {
        return Opening::Done(CommandSummary::skipped_one());
    }
    if skip_running_check {
        return Opening::Go;
    }
    Opening::AskPid(ask_pid(program))
}

/// A command is skipped while the program runs whose data it would delete.
pub fn after_pid(reply: &Reply) -> (r: Option<CommandSummary>)
    ensures
        r == if pid_of(*reply) is Some {
            Some(one_skipped())
        } else {
            None
        },
{
    match running_pid(reply) {
        Some(_) => Some(CommandSummary::skipped_one()),
        None => None,
    }
}

/// The entries are those of one directory, each with the path to it.
pub open spec fn listed_in(entries: Seq<Entry>, dir: Seq<char>) -> bool {
    forall|i: int|
        0 <= i < entries.len() ==> plain_name((#[trigger] entries[i]).name@) && entries[i].path@
            == joined(dir, entries[i].name@)
}

/// Two relative paths below one directory are the same only where they are
/// written the same.
pub proof fn lemma_joined_is_one_to_one(dir: Seq<char>, a: Seq<char>, b: Seq<char>)
    requires
        a.len() > 0 && a[0] != '/',
        b.len() > 0 && b[0] != '/',
        joined(dir, a) == joined(dir, b),
    ensures
        a == b,
{
    reveal_strlit("/");
    let s = joined(dir, a);
    let k = s.len() - a.len();
    assert(s.skip(k) =~= a);
    assert(s.skip(s.len() - b.len()) =~= b);
}

// ---------------------------------------------------------------------------
// What picking amounts to
// ---------------------------------------------------------------------------

/// One more entry adds its path to what is picked exactly where it is wanted.
pub proof fn law_every_entry_is_decided(
    entries: Seq<Entry>,
    entry: Entry,
    wanted: spec_fn(Entry) -> bool,
)
    ensures
        picked(Seq::empty(), wanted) == Seq::<Seq<char>>::empty(),
        picked(entries.push(entry), wanted) == if wanted(entry) {
            picked(entries, wanted).push(entry.path@)
        } else {
            picked(entries, wanted)
        },
{
    assert(entries.push(entry).drop_last() =~= entries);
}

/// What [`sorted_dirs`] and [`files_among`] give: the directories, or the files,
/// among the entries.
pub proof fn law_dirs_and_files(
    entries: Vec<Entry>,
    dirs: Vec<String>,
    files: Vec<String>,
    path: Seq<char>,
)
    requires
        call_ensures(sorted_dirs, (&entries,), dirs),
        call_ensures(files_among, (&entries,), files),
    ensures
        texts(dirs@).contains(path) <==> exists|i: int|
            0 <= i < entries@.len() && (#[trigger] entries@[i]).is_dir && entries@[i].path@ == path,
        texts(files@).contains(path) <==> exists|i: int|
            0 <= i < entries@.len() && (#[trigger] entries@[i]).is_file && entries@[i].path@
                == path,
{
    crate::sorting::law_sorted_members(picked(entries@, a_directory()), path);
    law_only_wanted_entries(entries@, a_directory(), path);
    law_only_wanted_entries(entries@, a_file(), path);
    if exists|i: int|
        0 <= i < entries@.len() && a_directory()(#[trigger] entries@[i]) && entries@[i].path@
            == path {
        let i = choose|i: int|
            0 <= i < entries@.len() && a_directory()(#[trigger] entries@[i]) && entries@[i].path@
                == path;
        assert(entries@[i].is_dir);
    }
    if exists|i: int|
        0 <= i < entries@.len() && (#[trigger] entries@[i]).is_dir && entries@[i].path@ == path {
        let i = choose|i: int|
            0 <= i < entries@.len() && (#[trigger] entries@[i]).is_dir && entries@[i].path@ == path;
        assert(a_directory()(entries@[i]));
    }
    if exists|i: int|
        0 <= i < entries@.len() && a_file()(#[trigger] entries@[i]) && entries@[i].path@ == path {
        let i = choose|i: int|
            0 <= i < entries@.len() && a_file()(#[trigger] entries@[i]) && entries@[i].path@
                == path;
        assert(entries@[i].is_file);
    }
    if exists|i: int|
        0 <= i < entries@.len() && (#[trigger] entries@[i]).is_file && entries@[i].path@ == path {
        let i = choose|i: int|
            0 <= i < entries@.len() && (#[trigger] entries@[i]).is_file && entries@[i].path@
                == path;
        assert(a_file()(entries@[i]));
    }
}

/// One more path is taken exactly where it changed more than so many days ago,
/// or where no age is asked for.
pub proof fn law_every_age_is_decided(found: Seq<Found>, one: Found, now: u64, days: u32)
    ensures
        old_paths(Seq::empty(), now, days) == Seq::<Seq<char>>::empty(),
        old_paths(found.push(one), now, days) == if days == 0 || (one.mtime is Some && now
            - one.mtime->0 > days * 86_400) {
            old_paths(found, now, days).push(one.path@)
        } else {
            old_paths(found, now, days)
        },
{
    assert(found.push(one).drop_last() =~= found);
}

/// What [`old_enough`] takes changed more than so many days ago.
pub proof fn law_old_enough(found: Vec<Found>, now: u64, days: u32, r: Vec<String>, path: Seq<char>)
    requires
        call_ensures(old_enough, (&found, now, days), r),
    ensures
        texts(r@).contains(path) <==> exists|i: int|
            0 <= i < found@.len() && (#[trigger] found@[i]).path@ == path && (days == 0 || (
            found@[i].mtime is Some && now - found@[i].mtime->0 > days * 86_400)),
{
    lemma_old_paths(found@, now, days, path);
}

pub proof fn lemma_old_paths(found: Seq<Found>, now: u64, days: u32, path: Seq<char>)
    ensures
        old_paths(found, now, days).contains(path) <==> exists|i: int|
            0 <= i < found.len() && (#[trigger] found[i]).path@ == path && (days == 0 || (
            found[i].mtime is Some && now - found[i].mtime->0 > days * 86_400)),
    decreases found.len(),
{
    if found.len() > 0 {
        let head = found.drop_last();
        let last = found.last();
        lemma_old_paths(head, now, days, path);
        let before = old_paths(head, now, days);
        let out = old_paths(found, now, days);
        assert(forall|i: int| 0 <= i < head.len() ==> #[trigger] head[i] == found[i]);
        assert(found[found.len() - 1] == last);
        if out.contains(path) {
            let k = choose|k: int| 0 <= k < out.len() && out[k] == path;
            if k < before.len() {
                assert(before[k] == path);
                let i = choose|i: int|
                    0 <= i < head.len() && (#[trigger] head[i]).path@ == path && (days == 0 || (
                    head[i].mtime is Some && now - head[i].mtime->0 > days * 86_400));
                assert(found[i].path@ == path);
            }
        }
        if before.contains(path) {
            let k = choose|k: int| 0 <= k < before.len() && before[k] == path;
            assert(out[k] == path);
        }
        if older(last.mtime, now, days) && last.path@ == path {
            assert(out[out.len() - 1] == path);
        }
        if exists|i: int|
            0 <= i < found.len() && (#[trigger] found[i]).path@ == path && (days == 0 || (
            found[i].mtime is Some && now - found[i].mtime->0 > days * 86_400)) {
            let i = choose|i: int|
                0 <= i < found.len() && (#[trigger] found[i]).path@ == path && (days == 0 || (
                found[i].mtime is Some && now - found[i].mtime->0 > days * 86_400));
            if i < head.len() {
                assert(head[i].path@ == path);
                assert(before.contains(path));
            }
        }
    }
}

/// A label of the last two components: both with a separator between them, the
/// only one, or the path where it has none.
pub proof fn law_last_two(path: Seq<char>, front: Seq<Seq<char>>, a: Seq<char>, b: Seq<char>)
    ensures
        components_of(path) == front + seq![a, b] ==> last_two(path) == a + seq!['/'] + b,
        components_of(path) == seq![b] ==> last_two(path) == b,
        components_of(path).len() == 0 ==> last_two(path) == path,
{
    reveal_strlit("/");
    assert("/"@ =~= seq!['/']);
}

/// What [`after_pid`] takes for a running program: a number on the first line of
/// the answer, whatever the exit status. Where the program could not be asked
/// for, it goes on.
pub proof fn law_after_pid(reply: Reply, r: Option<CommandSummary>, n: nat, rest: Seq<char>)
    requires
        call_ensures(after_pid, (&reply,), r),
    ensures
        reply is NotStarted ==> r is None,
        reply matches Reply::Finished(done) ==> {
            &&& !valid_utf8(done.stdout@) ==> r is None
            &&& valid_utf8(done.stdout@) && trim_of(decode_utf8(done.stdout@)).len() == 0
                ==> r is None
            &&& valid_utf8(done.stdout@) && trim_of(decode_utf8(done.stdout@))
                == crate::number::decimal_of(n) && n <= u32::MAX ==> r == Some(one_skipped())
            &&& valid_utf8(done.stdout@) && trim_of(decode_utf8(done.stdout@))
                == crate::number::decimal_of(n) + seq!['\n'] + rest && n <= u32::MAX ==> r == Some(
                one_skipped(),
            )
        },
{
    let digits = crate::number::decimal_of(n);
    crate::number::lemma_decimal(n);
    crate::number::law_decimal_reads_back(n);
    assert(!digits.contains('\n')) by {
        if digits.contains('\n') {
            let i = choose|i: int| 0 <= i < digits.len() && digits[i] == '\n';
            assert(crate::number::is_digit_char(digits[i]));
        }
    }
    assert(crate::number::is_digit_char(digits[digits.len() - 1]));
    crate::split::law_lines(digits, rest);
    assert((seq![digits] + lines_of(rest))[0] == digits);
}

/// A command for the data of a program begins only where the data is there, and
/// with the check only where it is not left out.
pub proof fn law_open_data(there: bool, skip_running_check: bool, program: &str, r: Opening)
    requires
        call_ensures(open_data, (there, skip_running_check, program), r),
    ensures
        r is Done <==> !there,
        r is Go <==> there && skip_running_check,
        r is AskPid <==> there && !skip_running_check,
        r matches Opening::AskPid(run) ==> run.program@ == "pgrep"@ && texts(run.args@) == seq![
            "-x"@,
            program@,
        ],
{
}

} // verus!
