//! Empties the trash.
use super::executor::{label_of, relative_label, verb, verb_of, CleanProgress, Report};
use super::executor::{count_ok, ok_count};
use super::listing::{picked, Entry};
use super::{nothing, one_skipped, summary, CommandSummary};
use crate::bytes::utf8_text;
use crate::config::{default_home_path, home_path};
use crate::number::{decimal, decimal_of};
use crate::path::{file_name, file_name_of, join, joined, path_before, path_less};
use crate::process::{Invocation, Reply};
use crate::sizes::{format_bytes, human_size};
use crate::sorting::{sort_paths, sorted_paths};
use crate::text::{contains_text, lemma_texts_push, opt_text, same, texts, trim, trim_of};
use crate::ui::{items_view, text_or_empty};
use vstd::prelude::*;
use vstd::utf8::{decode_utf8, valid_utf8};

verus! {

#[derive(Debug, Default)]
pub struct Args {}

/// The trash of the home directory.
pub fn default_trash_dir(home: &Option<String>) -> (r: String)
    ensures
        r@ == home_path(opt_text(*home), ".Trash"@),
{
    default_home_path(home, ".Trash")
}

/// An entry of the trash that is deleted: all but what the Finder puts back.
pub open spec fn discarded() -> spec_fn(Entry) -> bool {
    |e: Entry| e.name@ != ".DS_Store"@
}

/// The entries of the trash that are deleted, in order.
pub fn read_trash_entries(entries: &Vec<Entry>) -> (r: Vec<String>)
    ensures
        texts(r@) == sorted_paths(picked(entries@, discarded())),
{
    let mut out: Vec<String> = Vec::new();
    let mut i: usize = 0;
    assert(entries@.take(0) =~= Seq::<Entry>::empty());
    assert(texts(out@) =~= picked(entries@.take(0), discarded()));
    while i < entries.len()
        invariant
            i <= entries@.len(),
            texts(out@) == picked(entries@.take(i as int), discarded()),
        decreases entries@.len() - i,
    {
        assert(entries@.take(i as int + 1).drop_last() =~= entries@.take(i as int));
        if !same(entries[i].name.as_str(), ".DS_Store") {
            let path = entries[i].path.clone();
            proof {
                lemma_texts_push(out@, path);
            }
            out.push(path);
        }
        i = i + 1;
    }
    assert(entries@.take(entries@.len() as int) =~= entries@);
    sort_paths(&out)
}

/// Whether the command ends before it begins. Without a trash it is skipped; with
/// one that cannot be read, or is empty, there is nothing to do.
pub fn nothing_found(there: bool, found: &Option<Vec<String>>) -> (r: Option<CommandSummary>)
    ensures
        r == if !there {
            Some(one_skipped())
        } else if *found is None || (*found)->0@.len() == 0 {
            Some(nothing())
        } else {
            None
        },
{
    if !there {
        return Some(CommandSummary::skipped_one());
    }
    match found {
        None => Some(CommandSummary::default()),
        Some(list) => {
            if list.len() == 0 {
                Some(CommandSummary::default())
            } else {
                None
            }
        },
    }
}

/// An entry by where it is below the trash.
pub fn entry_label(path: &str, trash: &str) -> (r: String)
    ensures
        r@ == label_of(path@, trash@),
{
    relative_label(path, trash)
}

/// What the command says at its end.
pub open spec fn closing(dry_run: bool, bytes: u64, count: u64, elapsed_ms: u64) -> Seq<char> {
    verb_of(dry_run) + " "@ + human_size(bytes) + " across "@ + decimal_of(count as nat)
        + " items in "@ + decimal_of(elapsed_ms as nat) + "ms"@
}

/// What was freed: in a dry run what the entries measure, else by how much the
/// trash shrank.
pub open spec fn measured(dry_run: bool, total: u64, before: u64, after: u64) -> u64 {
    if dry_run {
        total
    } else if before > after {
        (before - after) as u64
    } else {
        0
    }
}

/// Closes the command.
pub fn finish(progress: CleanProgress, before: u64, after: u64, elapsed_ms: u64) -> (r: Report)
    ensures
        ({
            let bytes = measured(progress.dry_run, progress.total_bytes, before, after);
            let ok = ok_count(items_view(progress.items@));
            &&& ok <= progress.items@.len() <= u64::MAX
            &&& r.summary == summary(
                bytes,
                ok as u64,
                (progress.items@.len() - ok) as u64,
                0,
            )
            &&& r.message@ == closing(progress.dry_run, bytes, progress.total_count, elapsed_ms)
            &&& r.items == progress.items
        }),
{
    let bytes: u64 = if progress.dry_run {
        progress.total_bytes
    } else {
        before.saturating_sub(after)
    };
    let mut message = verb(progress.dry_run).to_owned();
    message.append(" ");
    message.append(format_bytes(bytes).as_str());
    message.append(" across ");
    message.append(decimal(progress.total_count).as_str());
    message.append(" items in ");
    message.append(decimal(elapsed_ms).as_str());
    message.append("ms");
    let ok = count_ok(&progress.items);
    let all = progress.items.len();
    Report {
        summary: CommandSummary {
            bytes_freed: bytes,
            items_ok: ok as u64,
            items_failed: (all - ok) as u64,
            items_skipped: 0,
        },
        message,
        items: progress.items,
    }
}

// ---------------------------------------------------------------------------
// The trashes of volumes
// ---------------------------------------------------------------------------

/// A trash, and what its entries are labelled with.
#[derive(Debug)]
pub struct TrashLocation {
    pub dir: String,
    pub prefix: String,
}

/// The characters of a [`TrashLocation`].
#[verifier::ext_equal]
pub struct Location {
    pub dir: Seq<char>,
    pub prefix: Seq<char>,
}

impl View for TrashLocation {
    type V = Location;

    open spec fn view(&self) -> Location {
        Location { dir: self.dir@, prefix: self.prefix@ }
    }
}

pub open spec fn locations(list: Seq<TrashLocation>) -> Seq<Location> {
    list.map_values(|l: TrashLocation| l@)
}

/// The question for the number of the current user.
pub fn ask_uid() -> (r: Invocation)
    ensures
        r.runs("id"@, seq!["-u"@]),
{
    let r = Invocation::new("id").arg("-u");
    assert(texts(r.args@) =~= seq!["-u"@]);
    r
}

/// The number of the current user; nothing where it cannot be told.
pub fn current_uid(reply: &Reply) -> (r: String)
    ensures
        r@ == match *reply {
            Reply::Finished(done) => if done.success && valid_utf8(done.stdout@) {
                trim_of(decode_utf8(done.stdout@))
            } else {
                ""@
            },
            Reply::NotStarted(_) => ""@,
        },
{
    match reply {
        Reply::Finished(done) => {
            if !done.success {
                return "".to_string();
            }
            match utf8_text(&done.stdout) {
                Some(text) => trim(text.as_str()),
                None => "".to_string(),
            }
        },
        Reply::NotStarted(_) => "".to_string(),
    }
}

/// The trash of a user on a volume.
pub open spec fn trash_on(volume: Seq<char>, uid: Seq<char>) -> Seq<char> {
    joined(joined(volume, ".Trashes"@), uid)
}

pub fn volume_trash_path(volume_root: &str, uid: &str) -> (r: String)
    ensures
        r@ == trash_on(volume_root@, uid@),
{
    let all = join(volume_root, ".Trashes");
    join(all.as_str(), uid)
}

/// The trash on a volume, if there is one. `dirs` are the paths that are
/// directories.
pub open spec fn trash_of(volume: Entry, uid: Seq<char>, dirs: Seq<Seq<char>>) -> Option<Location> {
    if volume.is_dir && dirs.contains(trash_on(volume.path@, uid)) {
        Some(
            Location {
                dir: trash_on(volume.path@, uid),
                prefix: text_or_empty(file_name_of(volume.path@)),
            },
        )
    } else {
        None
    }
}

/// A location in its place among some that are in order, behind those of the same
/// directory.
pub open spec fn placed(list: Seq<Location>, l: Location) -> Seq<Location>
    decreases list.len(),
{
    if list.len() > 0 && path_before(l.dir, list.last().dir) {
        placed(list.drop_last(), l).push(list.last())
    } else {
        list.push(l)
    }
}

/// The trashes of some volumes, in the order of their directories.
pub open spec fn trashes_of(volumes: Seq<Entry>, uid: Seq<char>, dirs: Seq<Seq<char>>) -> Seq<
    Location,
>
    decreases volumes.len(),
{
    if volumes.len() == 0 {
        seq![]
    } else {
        let before = trashes_of(volumes.drop_last(), uid, dirs);
        match trash_of(volumes.last(), uid, dirs) {
            Some(l) => placed(before, l),
            None => before,
        }
    }
}

proof fn lemma_placed(list: Seq<Location>, l: Location, at: int)
    requires
        0 <= at <= list.len(),
        at > 0 ==> !path_before(l.dir, list[at - 1].dir),
        forall|i: int| at <= i < list.len() ==> path_before(l.dir, #[trigger] list[i].dir),
    ensures
        placed(list, l) == list.insert(at, l),
    decreases list.len(),
{
    if at < list.len() {
        let head = list.drop_last();
        assert(path_before(l.dir, list[list.len() - 1].dir));
        assert forall|i: int| at <= i < head.len() implies path_before(
            l.dir,
            #[trigger] head[i].dir,
        ) by {
            assert(head[i] == list[i]);
        }
        lemma_placed(head, l, at);
        assert(head.insert(at, l).push(list.last()) =~= list.insert(at, l));
    } else {
        assert(list.insert(at, l) =~= list.push(l));
    }
}

fn put(list: &mut Vec<TrashLocation>, l: TrashLocation)
    ensures
        locations(final(list)@) == placed(locations(old(list)@), l@),
{
    let ghost all = locations(list@);
    let mut at: usize = list.len();
    while at > 0 && path_less(l.dir.as_str(), list[at - 1].dir.as_str())
        invariant
            at <= list@.len(),
            all == locations(list@),
            forall|i: int|
                at <= i < list@.len() ==> path_before(l@.dir, (#[trigger] all[i]).dir),
        decreases at,
    {
        assert(all[at - 1] == list@[at - 1]@);
        at = at - 1;
    }
    proof {
        if at > 0 {
            assert(all[at - 1] == list@[at - 1]@);
        }
        assert(all.len() == list@.len());
        lemma_placed(all, l@, at as int);
    }
    let ghost before = list@;
    list.insert(at, l);
    assert(locations(list@) =~= locations(before).insert(at as int, l@));
}

/// The trashes of the current user on the volumes, in order.
pub fn discover_volume_trashes(volumes: &Vec<Entry>, uid: &str, dirs: &Vec<String>) -> (r: Vec<
    TrashLocation,
>)
    ensures
        locations(r@) == trashes_of(volumes@, uid@, texts(dirs@)),
{
    let ghost present = texts(dirs@);
    let mut out: Vec<TrashLocation> = Vec::new();
    let mut i: usize = 0;
    assert(volumes@.take(0) =~= Seq::<Entry>::empty());
    assert(locations(out@) =~= trashes_of(volumes@.take(0), uid@, present));
    while i < volumes.len()
        invariant
            i <= volumes@.len(),
            present == texts(dirs@),
            locations(out@) == trashes_of(volumes@.take(i as int), uid@, present),
        decreases volumes@.len() - i,
    {
        assert(volumes@.take(i as int + 1).drop_last() =~= volumes@.take(i as int));
        if volumes[i].is_dir {
            let dir = volume_trash_path(volumes[i].path.as_str(), uid);
            if contains_text(dirs, dir.as_str()) {
                let prefix = match file_name(volumes[i].path.as_str()) {
                    Some(name) => name,
                    None => "".to_string(),
                };
                let location = TrashLocation { dir, prefix };
                assert(trash_of(volumes@[i as int], uid@, present) == Some(location@));
                put(&mut out, location);
            }
        }
        i = i + 1;
    }
    assert(volumes@.take(volumes@.len() as int) =~= volumes@);
    out
}

/// Everything in the trash is deleted but the Finder's own file.
pub proof fn law_read_trash_entries(entries: Vec<Entry>, r: Vec<String>, path: Seq<char>)
    requires
        call_ensures(read_trash_entries, (&entries,), r),
    ensures
        texts(r@).contains(path) <==> exists|i: int|
            0 <= i < entries@.len() && (#[trigger] entries@[i]).path@ == path && entries@[i].name@
                != ".DS_Store"@,
{
    let list = picked(entries@, discarded());
    crate::sorting::law_sorted_members(list, path);
    super::listing::law_only_wanted_entries(entries@, discarded(), path);
    if list.contains(path) {
        let i = choose|i: int|
            0 <= i < entries@.len() && discarded()(#[trigger] entries@[i]) && entries@[i].path@
                == path;
        assert(entries@[i].name@ != ".DS_Store"@);
    }
    if exists|i: int|
        0 <= i < entries@.len() && (#[trigger] entries@[i]).path@ == path && entries@[i].name@
            != ".DS_Store"@ {
        let i = choose|i: int|
            0 <= i < entries@.len() && (#[trigger] entries@[i]).path@ == path && entries@[i].name@
                != ".DS_Store"@;
        assert(discarded()(entries@[i]));
    }
}

/// What was freed: by how much the trash shrank, and in a dry run what its
/// entries measure.
pub proof fn law_finish(
    progress: CleanProgress,
    before: u64,
    after: u64,
    elapsed_ms: u64,
    r: Report,
)
    requires
        call_ensures(finish, (progress, before, after, elapsed_ms), r),
    ensures
        progress.dry_run ==> r.summary.bytes_freed == progress.total_bytes,
        !progress.dry_run && before >= after ==> r.summary.bytes_freed == before - after,
        !progress.dry_run && before < after ==> r.summary.bytes_freed == 0,
        r.summary.items_ok + r.summary.items_failed == progress.items@.len(),
        r.summary.items_ok == ok_count(items_view(progress.items@)),
        r.summary.items_skipped == 0,
{
}

/// A user's trash on a volume has the user's number.
pub proof fn law_volume_trash_path(volume: &str, uid: &str, r: String)
    requires
        call_ensures(volume_trash_path, (volume, uid), r),
    ensures
        r@ == joined(joined(volume@, ".Trashes"@), uid@),
{
}

/// One more volume adds its trash where it is a directory that has one, and
/// changes nothing otherwise.
pub proof fn law_every_volume(
    volumes: Seq<Entry>,
    volume: Entry,
    uid: Seq<char>,
    dirs: Seq<Seq<char>>,
    l: Location,
)
    ensures
        trashes_of(Seq::empty(), uid, dirs) == Seq::<Location>::empty(),
        ({
            let before = trashes_of(volumes, uid, dirs);
            let after = trashes_of(volumes.push(volume), uid, dirs);
            let dir = joined(joined(volume.path@, ".Trashes"@), uid);
            if volume.is_dir && dirs.contains(dir) {
                &&& after.len() == before.len() + 1
                &&& after.contains(l) <==> before.contains(l) || (l.dir == dir && l.prefix
                    == match file_name_of(volume.path@) {
                    Some(name) => name,
                    None => Seq::<char>::empty(),
                })
            } else {
                after == before
            }
        }),
{
    assert(volumes.push(volume).drop_last() =~= volumes);
    let before = trashes_of(volumes, uid, dirs);
    match trash_of(volume, uid, dirs) {
        Some(one) => {
            lemma_placed_holds(before, one, l);
            reveal_strlit("");
            assert(""@ =~= Seq::<char>::empty());
        },
        None => {},
    }
}

proof fn lemma_placed_holds(list: Seq<Location>, one: Location, l: Location)
    ensures
        placed(list, one).len() == list.len() + 1,
        placed(list, one).contains(l) <==> list.contains(l) || l == one,
    decreases list.len(),
{
    let out = placed(list, one);
    if list.len() > 0 && path_before(one.dir, list.last().dir) {
        let head = list.drop_last();
        let before = placed(head, one);
        lemma_placed_holds(head, one, l);
        assert(out[out.len() - 1] == list.last());
        if before.contains(l) {
            let k = choose|k: int| 0 <= k < before.len() && before[k] == l;
            assert(out[k] == l);
        }
        if out.contains(l) && l != list.last() {
            let k = choose|k: int| 0 <= k < out.len() && out[k] == l;
            assert(before[k] == l);
        }
        if list.contains(l) && l != list.last() {
            let k = choose|k: int| 0 <= k < list.len() && list[k] == l;
            assert(head[k] == l);
        }
        if head.contains(l) {
            let k = choose|k: int| 0 <= k < head.len() && head[k] == l;
            assert(list[k] == l);
        }
        if l == list.last() {
            assert(list[list.len() - 1] == l);
        }
    } else {
        assert(out[out.len() - 1] == one);
        if list.contains(l) {
            let k = choose|k: int| 0 <= k < list.len() && list[k] == l;
            assert(out[k] == l);
        }
        if out.contains(l) && l != one {
            let k = choose|k: int| 0 <= k < out.len() && out[k] == l;
            assert(list[k] == l);
        }
    }
}

/// The user's number is what `id` prints, without blanks around it.
pub proof fn law_current_uid(reply: Reply, r: String)
    requires
        call_ensures(current_uid, (&reply,), r),
    ensures
        reply is Finished && reply->Finished_0.success && valid_utf8(reply->Finished_0.stdout@)
            ==> r@ == trim_of(decode_utf8(reply->Finished_0.stdout@)),
        !(reply is Finished && reply->Finished_0.success && valid_utf8(
            reply->Finished_0.stdout@,
        )) ==> r@.len() == 0,
{
    reveal_strlit("");
}

} // verus!
