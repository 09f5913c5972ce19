//! Walking directories: which entries are entered, which are found, how old and
//! how large they are.
use crate::config::WalkConfig;
use crate::search::{starts_with, starts_with_of};
use crate::text::{contains_text, copy_texts, lemma_texts_push, opt_texts, same, texts};
use vstd::prelude::*;

verus! {

/// How directories are walked.
#[derive(Debug)]
pub struct WalkOptions {
    pub prune_dirs: Vec<String>,
    pub follow_symlinks: bool,
}

/// The characters of [`WalkOptions`].
#[verifier::ext_equal]
pub struct Options {
    pub prune_dirs: Seq<Seq<char>>,
    pub follow_symlinks: bool,
}

impl View for WalkOptions {
    type V = Options;

    open spec fn view(&self) -> Options {
        Options { prune_dirs: texts(self.prune_dirs@), follow_symlinks: self.follow_symlinks }
    }
}

/// The directory names that are never entered where none are configured.
pub open spec fn fallback_prune_dirs() -> Seq<Seq<char>> {
    seq![
        "node_modules"@,
        "target"@,
        "build"@,
        "dist"@,
        ".next"@,
        ".turbo"@,
        ".gradle"@,
        ".idea"@,
        ".vscode"@,
        ".venv"@,
        "venv"@,
        "__pycache__"@,
    ]
}

pub open spec fn fallback_options() -> Options {
    Options { prune_dirs: fallback_prune_dirs(), follow_symlinks: false }
}

impl WalkOptions {
    pub fn fallback() -> (r: Self)
        ensures
            r@ == fallback_options(),
    {
        let prune_dirs: Vec<String> = vec![
            "node_modules".to_string(),
            "target".to_string(),
            "build".to_string(),
            "dist".to_string(),
            ".next".to_string(),
            ".turbo".to_string(),
            ".gradle".to_string(),
            ".idea".to_string(),
            ".vscode".to_string(),
            ".venv".to_string(),
            "venv".to_string(),
            "__pycache__".to_string(),
        ];
        assert(texts(prune_dirs@) =~= fallback_prune_dirs());
        Self { prune_dirs, follow_symlinks: false }
    }

    /// The configured options, with the fallback for what is not configured.
    pub fn configured(cfg: &WalkConfig) -> (r: Self)
        ensures
            r@ == (Options {
                prune_dirs: match opt_texts(cfg.prune_dirs) {
                    Some(dirs) => dirs,
                    None => fallback_prune_dirs(),
                },
                follow_symlinks: cfg.follow_symlinks == Some(true),
            }),
    {
        let follow_symlinks = match cfg.follow_symlinks {
            Some(follow) => follow,
            None => false,
        };
        match &cfg.prune_dirs {
            Some(dirs) => Self { prune_dirs: copy_texts(dirs), follow_symlinks },
            None => Self { prune_dirs: Self::fallback().prune_dirs, follow_symlinks },
        }
    }
}

/// The options in a cell that is filled at most once, or the fallback.
pub open spec fn options_in(cell: Option<WalkOptions>) -> Options {
    match cell {
        Some(options) => options@,
        None => fallback_options(),
    }
}

/// Fills the cell, unless it has been filled.
pub fn init_walk_options(cell: &mut Option<WalkOptions>, opts: WalkOptions)
    ensures
        *final(cell) == match *old(cell) {
            Some(options) => Some(options),
            None => Some(opts),
        },
{
    if cell.is_none() {
        *cell = Some(opts);
    }
}

/// The options in the cell, which is filled with the fallback if it is empty.
pub fn walk_opts(cell: &mut Option<WalkOptions>) -> (r: WalkOptions)
    ensures
        r@ == options_in(*old(cell)),
        *final(cell) is Some,
        options_in(*final(cell)) == options_in(*old(cell)),
{
    if cell.is_none() {
        *cell = Some(WalkOptions::fallback());
    }
    match cell {
        Some(options) => WalkOptions {
            prune_dirs: copy_texts(&options.prune_dirs),
            follow_symlinks: options.follow_symlinks,
        },
        None => WalkOptions::fallback(),
    }
}

/// Whether walks follow symlinks.
pub fn follow_symlinks(cell: &mut Option<WalkOptions>) -> (r: bool)
    ensures
        r == options_in(*old(cell)).follow_symlinks,
        *final(cell) is Some,
        options_in(*final(cell)) == options_in(*old(cell)),
{
    let options = walk_opts(cell);
    options.follow_symlinks
}

// ---------------------------------------------------------------------------
// Markers
// ---------------------------------------------------------------------------

/// Whether a walk for `marker` goes on at an entry. The root always passes.
/// Pruned names do not, nor do hidden names other than a hidden marker.
pub open spec fn enters(depth: nat, name: Seq<char>, marker: Seq<char>, prune: Seq<Seq<char>>) -> bool {
    ||| depth == 0
    ||| {
        &&& !prune.contains(name)
        &&& starts_with_of(name, "."@) ==> starts_with_of(marker, "."@) && name == marker
    }
}

/// Decides whether a walk for `marker` goes on at an entry.
pub fn include_entry(depth: usize, name: &str, marker: &str, opts: &WalkOptions) -> (r: bool)
    ensures
        r == enters(depth as nat, name@, marker@, opts@.prune_dirs),
{
    if depth == 0 {
        return true;
    }
    if contains_text(&opts.prune_dirs, name) {
        return false;
    }
    if starts_with(name, ".") && !(starts_with(marker, ".") && same(name, marker)) {
        return false;
    }
    true
}

/// An entry that a walk came to.
#[derive(Debug)]
pub struct Visited {
    pub path: String,
    pub is_dir: bool,
    /// The entry holds the marker that the walk looks for.
    pub has_marker: bool,
}

/// The paths of the directories that hold the marker, in the order of the walk.
pub open spec fn marked(entries: Seq<Visited>) -> Seq<Seq<char>>
    decreases entries.len(),
{
    if entries.len() == 0 {
        seq![]
    } else {
        let before = marked(entries.drop_last());
        let last = entries.last();
        if last.is_dir && last.has_marker {
            before.push(last.path@)
        } else {
            before
        }
    }
}

/// Picks the directories that hold the marker.
pub fn dirs_with_marker(entries: &Vec<Visited>) -> (r: Vec<String>)
    ensures
        texts(r@) == marked(entries@),
{
    let mut out: Vec<String> = Vec::new();
    let mut i: usize = 0;
    assert(texts(out@) =~= marked(entries@.take(0)));
    while i < entries.len()
        invariant
            i <= entries@.len(),
            texts(out@) == marked(entries@.take(i as int)),
        decreases entries@.len() - i,
    {
        assert(entries@.take(i as int + 1).drop_last() == entries@.take(i as int));
        if entries[i].is_dir && entries[i].has_marker {
            let path = entries[i].path.clone();
            proof {
                lemma_texts_push(out@, path);
            }
            out.push(path);
        }
        i = i + 1;
    }
    assert(entries@.take(entries@.len() as int) == entries@);
    out
}

// ---------------------------------------------------------------------------
// Sizes and ages
// ---------------------------------------------------------------------------

/// What is known of an entry below a directory: none where it cannot be read.
#[derive(Debug, Clone, Copy)]
pub struct FileInfo {
    pub is_file: bool,
    pub len: u64,
}

/// The summed length of the regular files among the entries that can be read.
pub open spec fn files_size(entries: Seq<Option<FileInfo>>) -> nat
    decreases entries.len(),
{
    if entries.len() == 0 {
        0
    } else {
        files_size(entries.drop_last()) + match entries.last() {
            Some(info) if info.is_file => info.len as nat,
            _ => 0,
        }
    }
}

proof fn lemma_files_size_grows(entries: Seq<Option<FileInfo>>, n: int)
    requires
        0 <= n <= entries.len(),
    ensures
        files_size(entries.take(n)) <= files_size(entries),
    decreases entries.len() - n,
{
    if n < entries.len() {
        lemma_files_size_grows(entries, n + 1);
        assert(entries.take(n + 1).drop_last() =~= entries.take(n));
    } else {
        assert(entries.take(n) =~= entries);
    }
}

/// The size of a directory, given what is known of the entries below it.
pub fn dir_size(entries: &Vec<Option<FileInfo>>) -> (r: u64)
    requires
        files_size(entries@) <= u64::MAX,
    ensures
        r == files_size(entries@),
{
    let mut total: u64 = 0;
    let mut i: usize = 0;
    assert(entries@.take(0) =~= Seq::<Option<FileInfo>>::empty());
    while i < entries.len()
        invariant
            i <= entries@.len(),
            files_size(entries@) <= u64::MAX,
            total == files_size(entries@.take(i as int)),
        decreases entries@.len() - i,
    {
        proof {
            assert(entries@.take(i as int + 1).drop_last() =~= entries@.take(i as int));
            lemma_files_size_grows(entries@, i as int + 1);
        }
        if let Some(info) = entries[i] {
            if info.is_file {
                total = total + info.len;
            }
        }
        i = i + 1;
    }
    assert(entries@.take(entries@.len() as int) =~= entries@);
    total
}

/// Whether an entry is older than a number of days: always for no days, never
/// where its time of change is not known.
pub open spec fn older(mtime: Option<u64>, now: u64, days: u32) -> bool {
    ||| days == 0
    ||| (mtime matches Some(changed) && changed + days as int * 86_400 < now)
}

/// Decides whether an entry changed at `mtime` is older than `days` days at
/// `now`, both in seconds since the epoch.
pub fn older_than_days(mtime: Option<u64>, now: u64, days: u32) -> (r: bool)
    ensures
        r == older(mtime, now, days),
        days > 0 ==> (r <==> mtime is Some && now - mtime->0 > days * 86_400),
        days == 0 ==> r,
{
    if days == 0 {
        return true;
    }
    match mtime {
        Some(changed) => {
            let span: u64 = days as u64 * 86_400;
            let cutoff: u64 = if now < span {
                0
            } else {
                now - span
            };
            changed < cutoff
        },
        None => false,
    }
}

/// What is older than a number of days is older than every smaller number, and
/// stays so.
pub proof fn law_age_only_grows(mtime: Option<u64>, now: u64, later: u64, days: u32, fewer: u32)
    requires
        older(mtime, now, days),
        now <= later,
        fewer <= days,
        days > 0 || fewer == 0,
    ensures
        older(mtime, later, fewer),
{
}

/// An entry is old exactly where its age in seconds is more than that many days,
/// whatever the limit: nothing that changed within the last `days` days is old,
/// and everything that changed before is.
pub proof fn law_age_is_counted_in_days(changed: u64, now: u64, days: u32)
    requires
        days > 0,
    ensures
        now - changed <= days * 86_400 ==> !older(Some(changed), now, days),
        now - changed > days * 86_400 ==> older(Some(changed), now, days),
        !older(None, now, days),
        older(Some(changed), now, 0),
        older(None, now, 0),
{
}

/// One day more is one day of seconds more, at every limit.
pub proof fn law_a_day_more(changed: u64, now: u64, days: u32)
    requires
        0 < days < u32::MAX,
        now + 86_400 <= u64::MAX,
    ensures
        older(Some(changed), now, days) <==> older(Some(changed), (now + 86_400) as u64, (days + 1) as u32),
{
}

/// A walk enters the root, and below it every name that is not pruned and does
/// not begin with a dot, but for the marker itself.
pub proof fn law_what_a_walk_enters(
    depth: nat,
    name: Seq<char>,
    marker: Seq<char>,
    prune: Seq<Seq<char>>,
)
    ensures
        enters(0, name, marker, prune),
        depth > 0 && prune.contains(name) ==> !enters(depth, name, marker, prune),
        depth > 0 && name.len() > 0 && name[0] == '.' && name != marker ==> !enters(
            depth,
            name,
            marker,
            prune,
        ),
        !prune.contains(name) && (name.len() == 0 || name[0] != '.' || name == marker) ==> enters(
            depth,
            name,
            marker,
            prune,
        ),
{
    reveal_strlit(".");
    if name.len() > 0 {
        assert(name.take(1) =~= seq![name[0]]);
        assert("."@ =~= seq!['.']);
        assert(name[0] == '.' ==> name.take(1) =~= "."@);
        assert(starts_with_of(name, "."@) ==> name[0] == name.take(1)[0]);
    }
}

/// Nothing is left out of a walk and nothing added: one more entry adds its path
/// where it is a directory that holds the marker, and else nothing.
pub proof fn law_every_marked_directory(entries: Seq<Visited>, entry: Visited)
    ensures
        marked(Seq::empty()) == Seq::<Seq<char>>::empty(),
        marked(entries.push(entry)) == if entry.is_dir && entry.has_marker {
            marked(entries).push(entry.path@)
        } else {
            marked(entries)
        },
{
    assert(entries.push(entry).drop_last() =~= entries);
}

/// A directory is as large as its parts together, and a single entry as large as
/// the regular file it is: links, directories and what cannot be read count
/// nothing.
pub proof fn law_sizes_add_up(a: Seq<Option<FileInfo>>, b: Seq<Option<FileInfo>>, info: FileInfo)
    ensures
        files_size(a + b) == files_size(a) + files_size(b),
        info.is_file ==> files_size(seq![Some(info)]) == info.len,
        !info.is_file ==> files_size(seq![Some(info)]) == 0,
        files_size(seq![None]) == 0,
        files_size(Seq::empty()) == 0,
    decreases b.len(),
{
    reveal_with_fuel(files_size, 2);
    assert(seq![Some(info)].drop_last() =~= Seq::empty());
    assert(seq![None::<FileInfo>].drop_last() =~= Seq::empty());
    if b.len() == 0 {
        assert(a + b =~= a);
    } else {
        assert((a + b).drop_last() =~= a + b.drop_last());
        law_sizes_add_up(a, b.drop_last(), info);
    }
}

/// The names that are pruned where none are configured are these.
pub proof fn law_pruned_by_default(name: Seq<char>)
    ensures
        fallback_options().prune_dirs.contains(name) <==> (name == "node_modules"@ || name
            == "target"@ || name == "build"@ || name == "dist"@ || name == ".next"@ || name
            == ".turbo"@ || name == ".gradle"@ || name == ".idea"@ || name == ".vscode"@ || name
            == ".venv"@ || name == "venv"@ || name == "__pycache__"@),
        !fallback_options().follow_symlinks,
{
    let all = fallback_prune_dirs();
    assert(all.len() == 12);
    assert(all[0] == "node_modules"@ && all[1] == "target"@ && all[2] == "build"@ && all[3]
        == "dist"@ && all[4] == ".next"@ && all[5] == ".turbo"@ && all[6] == ".gradle"@ && all[7]
        == ".idea"@ && all[8] == ".vscode"@ && all[9] == ".venv"@ && all[10] == "venv"@ && all[11]
        == "__pycache__"@);
    if all.contains(name) {
        let i = choose|i: int| 0 <= i < all.len() && all[i] == name;
        assert(i == 0 || i == 1 || i == 2 || i == 3 || i == 4 || i == 5 || i == 6 || i == 7 || i
            == 8 || i == 9 || i == 10 || i == 11);
    }
}

/// Whatever limit is given, what [`older_than_days`] takes is what changed more
/// than that many days ago.
pub proof fn law_older_than_days(mtime: Option<u64>, now: u64, days: u32, r: bool)
    requires
        call_ensures(older_than_days, (mtime, now, days), r),
    ensures
        days > 0 ==> (r <==> mtime is Some && now - mtime->0 > days * 24 * 60 * 60),
        days == 0 ==> r,
{
}

/// What [`include_entry`] lets a walk enter.
pub proof fn law_include_entry(depth: usize, name: &str, marker: &str, opts: WalkOptions, r: bool)
    requires
        call_ensures(include_entry, (depth, name, marker, &opts), r),
    ensures
        r <==> depth == 0 || (!texts(opts.prune_dirs@).contains(name@) && (name@.len() == 0
            || name@[0] != '.' || name@ == marker@)),
{
    law_what_a_walk_enters(depth as nat, name@, marker@, texts(opts.prune_dirs@));
}

/// What [`dirs_with_marker`] gives: the paths of the directories that hold the
/// marker, and no others.
pub proof fn law_dirs_with_marker(entries: Vec<Visited>, r: Vec<String>, path: Seq<char>)
    requires
        call_ensures(dirs_with_marker, (&entries,), r),
    ensures
        texts(r@).contains(path) <==> exists|i: int|
            0 <= i < entries@.len() && (#[trigger] entries@[i]).is_dir && entries@[i].has_marker
                && entries@[i].path@ == path,
{
    lemma_marked(entries@, path);
}

proof fn lemma_marked(entries: Seq<Visited>, path: Seq<char>)
    ensures
        marked(entries).contains(path) <==> exists|i: int|
            0 <= i < entries.len() && (#[trigger] entries[i]).is_dir && entries[i].has_marker
                && entries[i].path@ == path,
    decreases entries.len(),
{
    if entries.len() > 0 {
        let head = entries.drop_last();
        let last = entries.last();
        lemma_marked(head, path);
        let before = marked(head);
        let out = marked(entries);
        assert(forall|i: int| 0 <= i < head.len() ==> #[trigger] head[i] == entries[i]);
        assert(entries[entries.len() - 1] == last);
        if out.contains(path) {
            let k = choose|k: int| 0 <= k < out.len() && out[k] == path;
            if k < before.len() {
                assert(before[k] == path);
                let i = choose|i: int|
                    0 <= i < head.len() && (#[trigger] head[i]).is_dir && head[i].has_marker
                        && head[i].path@ == path;
                assert(entries[i].is_dir);
            }
        }
        if before.contains(path) {
            let k = choose|k: int| 0 <= k < before.len() && before[k] == path;
            assert(out[k] == path);
        }
        if last.is_dir && last.has_marker && last.path@ == path {
            assert(out[out.len() - 1] == path);
        }
        if exists|i: int|
            0 <= i < entries.len() && (#[trigger] entries[i]).is_dir && entries[i].has_marker
                && entries[i].path@ == path {
            let i = choose|i: int|
                0 <= i < entries.len() && (#[trigger] entries[i]).is_dir && entries[i].has_marker
                    && entries[i].path@ == path;
            if i < head.len() {
                assert(head[i].is_dir);
                assert(before.contains(path));
            }
        }
    }
}

} // verus!
