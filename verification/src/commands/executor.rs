//! What the cleaning commands share: progress, deletions and their outcomes.
use super::{one_ok, summary, CommandSummary};
use crate::number::{decimal, decimal_of};
use crate::path::{below, is_under, strip_prefix};
use crate::sizes::{format_bytes, human_size};
use crate::text::{opt_text, texts};
use crate::ui::{
    colorful, duration_text, dry_run_detail, emit_tree_items, failure_detail, format_duration,
    item_lines, items_view, success_detail, Detail, Item, ItemDetail, Terminal, TreeItem,
};
use crate::walk::{older, older_than_days};
use vstd::prelude::*;

verus! {

/// How a command speaks of what it frees.
pub open spec fn verb_of(dry_run: bool) -> Seq<char> {
    if dry_run {
        "would free"@
    } else {
        "freed"@
    }
}

pub fn verb(dry_run: bool) -> (r: &'static str)
    ensures
        r@ == verb_of(dry_run),
{
    if dry_run {
        "would free"
    } else {
        "freed"
    }
}

/// How many items a command works on at once: at least one.
pub fn permits(concurrency: usize) -> (r: usize)
    ensures
        r == if concurrency == 0 {
            1
        } else {
            concurrency as int
        },
{
    if concurrency == 0 {
        1
    } else {
        concurrency
    }
}

// ---------------------------------------------------------------------------
// Progress
// ---------------------------------------------------------------------------

/// The running totals of one command and the outcomes of its items.
#[derive(Debug)]
pub struct CleanProgress {
    pub dry_run: bool,
    pub total_bytes: u64,
    pub total_count: u64,
    pub items: Vec<TreeItem>,
}

/// The number of items that went well.
pub open spec fn ok_count(items: Seq<Item>) -> nat
    decreases items.len(),
{
    if items.len() == 0 {
        0
    } else {
        ok_count(items.drop_last()) + if items.last().ok {
            1nat
        } else {
            0
        }
    }
}

pub open spec fn wrapping_sum(a: u64, b: u64) -> u64 {
    ((a + b) % 0x1_0000_0000_0000_0000) as u64
}

/// The line that closes a command.
pub open spec fn closing_text(dry_run: bool, bytes: Seq<char>, count: nat) -> Seq<char> {
    verb_of(dry_run) + " "@ + bytes + " across "@ + decimal_of(count) + " items"@
}

/// What a finished command reports.
#[derive(Debug)]
pub struct Report {
    pub summary: CommandSummary,
    pub message: String,
    pub items: Vec<TreeItem>,
}

fn wrapping(a: u64, b: u64) -> (r: u64)
    ensures
        r == wrapping_sum(a, b),
{
    a.wrapping_add(b)
}

fn closing(dry_run: bool, bytes: &str, count: u64) -> (r: String)
    ensures
        r@ == closing_text(dry_run, bytes@, count as nat),
{
    let mut out = verb(dry_run).to_owned();
    out.append(" ");
    out.append(bytes);
    out.append(" across ");
    out.append(decimal(count).as_str());
    out.append(" items");
    out
}

/// The number of items that went well.
pub fn count_ok(items: &Vec<TreeItem>) -> (r: usize)
    ensures
        r == ok_count(items_view(items@)),
        r <= items@.len(),
{
    let ghost all = items_view(items@);
    let mut n: usize = 0;
    let mut i: usize = 0;
    assert(all.take(0) =~= Seq::<Item>::empty());
    while i < items.len()
        invariant
            i <= items@.len(),
            n <= i,
            all == items_view(items@),
            n == ok_count(all.take(i as int)),
        decreases items@.len() - i,
    {
        assert(all.take(i as int + 1).drop_last() == all.take(i as int));
        assert(all.take(i as int + 1).last() == items@[i as int]@);
        if items[i].ok {
            n = n + 1;
        }
        i = i + 1;
    }
    assert(all.take(all.len() as int) == all);
    n
}

impl CleanProgress {
    pub fn new(dry_run: bool) -> (r: Self)
        ensures
            r.dry_run == dry_run,
            r.total_bytes == 0,
            r.total_count == 0,
            items_view(r.items@) == Seq::<Item>::empty(),
    {
        let items: Vec<TreeItem> = Vec::new();
        assert(items_view(items@) =~= Seq::<Item>::empty());
        Self { dry_run, total_bytes: 0, total_count: 0, items }
    }

    pub fn dry_run(&self) -> (r: bool)
        ensures
            r == self.dry_run,
    {
        self.dry_run
    }

    pub fn verb(&self) -> (r: &'static str)
        ensures
            r@ == verb_of(self.dry_run),
    {
        verb(self.dry_run)
    }

    /// `self` is `before` with one more item.
    pub open spec fn grew(self, before: Self, item: Item, bytes: u64, counted: bool) -> bool {
        &&& self.dry_run == before.dry_run
        &&& self.total_bytes == wrapping_sum(before.total_bytes, bytes)
        &&& self.total_count == if counted {
            wrapping_sum(before.total_count, 1)
        } else {
            before.total_count
        }
        &&& items_view(self.items@) == items_view(before.items@).push(item)
    }

    /// Adds an item and its bytes, counts it if it is to be counted, and gives
    /// the running total for the progress bar.
    pub fn push(&mut self, label: String, detail: ItemDetail, ok: bool, bytes: u64, counted: bool) -> (r:
        String)
        ensures
            final(self).grew(*old(self), (Item { label: label@, detail: detail@, ok }), bytes, counted),
            r@ == verb_of(old(self).dry_run) + " "@ + human_size(final(self).total_bytes),
    {
        let item = TreeItem { label, detail, ok };
        self.total_bytes = wrapping(self.total_bytes, bytes);
        if counted {
            self.total_count = wrapping(self.total_count, 1);
        }
        let ghost before = self.items@;
        self.items.push(item);
        assert(items_view(self.items@) =~= items_view(before).push(item@));
        let mut out = verb(self.dry_run).to_owned();
        out.append(" ");
        out.append(format_bytes(self.total_bytes).as_str());
        out
    }

    /// Records one finished item: its bytes are added, and it is counted where
    /// it went well or freed something before it failed.
    pub fn record(&mut self, label: String, detail: ItemDetail, ok: bool, bytes: u64) -> (r: String)
        ensures
            final(self).grew(
                *old(self),
                (Item { label: label@, detail: detail@, ok }),
                bytes,
                ok || bytes > 0,
            ),
            r@ == verb_of(old(self).dry_run) + " "@ + human_size(final(self).total_bytes),
    {
        self.push(label, detail, ok, bytes, ok || bytes > 0)
    }

    /// Closes the command: the totals become its summary.
    pub fn finish(self) -> (r: Report)
        ensures
            r.summary == summary(
                self.total_bytes,
                ok_count(items_view(self.items@)) as u64,
                (self.items@.len() - ok_count(items_view(self.items@))) as u64,
                0,
            ),
            ok_count(items_view(self.items@)) <= self.items@.len() <= u64::MAX,
            r.message@ == closing_text(
                self.dry_run,
                human_size(self.total_bytes),
                self.total_count as nat,
            ),
            r.items == self.items,
    {
        let message = closing(
            self.dry_run,
            format_bytes(self.total_bytes).as_str(),
            self.total_count,
        );
        let ok = count_ok(&self.items);
        let all = self.items.len();
        Report {
            summary: CommandSummary {
                bytes_freed: self.total_bytes,
                items_ok: ok as u64,
                items_failed: (all - ok) as u64,
                items_skipped: 0,
            },
            message,
            items: self.items,
        }
    }
}

/// Every recorded item is counted once in the summary, as ok or as failed.
pub proof fn law_items_are_ok_or_failed(items: Seq<Item>)
    ensures
        ok_count(items) <= items.len(),
        ok_count(items) == items.len() <==> forall|i: int|
            0 <= i < items.len() ==> (#[trigger] items[i]).ok,
    decreases items.len(),
{
    if items.len() > 0 {
        let head = items.drop_last();
        law_items_are_ok_or_failed(head);
        if ok_count(items) == items.len() {
            assert forall|i: int| 0 <= i < items.len() implies (#[trigger] items[i]).ok by {
                if i < head.len() {
                    assert(head[i] == items[i]);
                }
            }
        }
        if forall|i: int| 0 <= i < items.len() ==> (#[trigger] items[i]).ok {
            assert forall|i: int| 0 <= i < head.len() implies (#[trigger] head[i]).ok by {
                assert(head[i] == items[i]);
            }
            assert(items[items.len() - 1].ok);
        }
    }
}

/// The bytes of items add up to the same total whichever is recorded first.
pub proof fn law_totals_ignore_order(total: u64, a: u64, b: u64)
    ensures
        wrapping_sum(wrapping_sum(total, a), b) == wrapping_sum(wrapping_sum(total, b), a),
{
}

/// The report of a command that found nothing to work on.
pub fn empty_run(dry_run: bool) -> (r: Report)
    ensures
        r.summary == super::nothing(),
        r.message@ == closing_text(dry_run, "0 B"@, 0),
        r.items@.len() == 0,
{
    Report {
        summary: CommandSummary::default(),
        message: closing(dry_run, "0 B", 0),
        items: Vec::new(),
    }
}

/// The lines of a command's tree: a blank line, its name, its items, and the
/// line that closes it.
pub open spec fn report_lines(name: Seq<char>, items: Seq<Item>, message: Seq<char>, color: bool) -> Seq<
    Seq<char>,
> {
    seq![""@, name] + item_lines(items, color) + seq!["└─ "@ + message]
}

/// The lines of a finished command.
pub fn report(name: &str, done: &Report, terminal: &Terminal) -> (r: Vec<String>)
    ensures
        texts(r@) == report_lines(
            name@,
            items_view(done.items@),
            done.message@,
            colorful(*terminal),
        ),
{
    let mut out: Vec<String> = Vec::new();
    out.push("".to_string());
    out.push(name.to_owned());
    let mut lines = emit_tree_items(&done.items, terminal);
    let ghost start = out@;
    let ghost middle = lines@;
    out.append(&mut lines);
    let mut last = "└─ ".to_string();
    last.append(done.message.as_str());
    out.push(last);
    assert(texts(out@) =~= seq![""@, name@] + texts(middle) + seq![last@]);
    out
}

// ---------------------------------------------------------------------------
// Deleting one thing
// ---------------------------------------------------------------------------

/// How the deletion of one file or directory went.
#[derive(Debug)]
pub enum Removal {
    /// Left in place, because the run is a dry run.
    Kept,
    /// Deleted, in so many milliseconds.
    Deleted(u64),
    /// Not deleted, and why.
    Failed(String),
}

pub open spec fn removal_detail(removal: Removal, size: u64) -> Detail {
    match removal {
        Removal::Kept => dry_run_detail("would delete"@, human_size(size)),
        Removal::Deleted(ms) => success_detail("deleted"@, human_size(size), duration_text(ms)),
        Removal::Failed(why) => failure_detail(why@),
    }
}

pub open spec fn freed_by(removal: Removal, size: u64) -> u64 {
    if removal is Failed {
        0
    } else {
        size
    }
}

fn describe_removal(removal: &Removal, size: u64) -> (r: ItemDetail)
    ensures
        r@ == removal_detail(*removal, size),
{
    match removal {
        Removal::Kept => ItemDetail::dry_run("would delete", format_bytes(size).as_str()),
        Removal::Deleted(ms) => ItemDetail::success(
            "deleted",
            format_bytes(size).as_str(),
            format_duration(*ms).as_str(),
        ),
        Removal::Failed(why) => ItemDetail::failure(why.as_str()),
    }
}

/// Decides how a file or directory is deleted, or that it is measured only.
pub fn entry_action(is_dir: bool, dry_run: bool) -> (r: ChildAction)
    ensures
        r == if dry_run {
            ChildAction::Measure
        } else if is_dir {
            ChildAction::RemoveDir
        } else {
            ChildAction::RemoveFile
        },
{
    if dry_run {
        ChildAction::Measure
    } else if is_dir {
        ChildAction::RemoveDir
    } else {
        ChildAction::RemoveFile
    }
}

/// Whether a deletion is carried out: never in a dry run.
pub fn deletes(dry_run: bool) -> (r: bool)
    ensures
        r == !dry_run,
{
    !dry_run
}

/// Records the deletion of one file or directory of `size` bytes.
pub fn delete_dir(progress: &mut CleanProgress, label: String, size: u64, removal: &Removal) -> (r:
    String)
    requires
        old(progress).dry_run <==> *removal is Kept,
    ensures
        final(progress).grew(
            *old(progress),
            (Item {
                label: label@,
                detail: removal_detail(*removal, size),
                ok: !(*removal is Failed),
            }),
            freed_by(*removal, size),
            !(*removal is Failed),
        ),
        r@ == verb_of(old(progress).dry_run) + " "@ + human_size(final(progress).total_bytes),
{
    let detail = describe_removal(removal, size);
    match removal {
        Removal::Failed(_) => progress.record(label, detail, false, 0),
        _ => progress.record(label, detail, true, size),
    }
}

// ---------------------------------------------------------------------------
// Deleting what a directory holds
// ---------------------------------------------------------------------------

/// What is known of an entry of a directory.
#[derive(Debug, Clone, Copy)]
pub struct Child {
    pub mtime: Option<u64>,
    pub is_dir: bool,
    pub is_symlink: bool,
}

/// What is done with an entry of a directory.
#[derive(Debug, Clone, Copy, PartialEq, Eq, Structural)]
pub enum ChildAction {
    /// Too young: left alone.
    Keep,
    /// Measured only, because the run is a dry run.
    Measure,
    /// Deleted with all that is below it.
    RemoveDir,
    /// Deleted as a single file. A symlink is, whatever it points to.
    RemoveFile,
}

pub open spec fn action_on(child: Child, days: u32, now: u64, dry_run: bool) -> ChildAction {
    if !older(child.mtime, now, days) {
        ChildAction::Keep
    } else if dry_run {
        ChildAction::Measure
    } else if child.is_dir && !child.is_symlink {
        ChildAction::RemoveDir
    } else {
        ChildAction::RemoveFile
    }
}

/// Decides what is done with an entry of a directory.
pub fn child_action(child: &Child, days: u32, now: u64, dry_run: bool) -> (r: ChildAction)
    ensures
        r == action_on(*child, days, now, dry_run),
{
    if !older_than_days(child.mtime, now, days) {
        ChildAction::Keep
    } else if dry_run {
        ChildAction::Measure
    } else if child.is_dir && !child.is_symlink {
        ChildAction::RemoveDir
    } else {
        ChildAction::RemoveFile
    }
}

/// A dry run deletes nothing, and no run deletes an entry that is too young.
pub proof fn law_only_old_entries_are_deleted(child: Child, days: u32, now: u64, dry_run: bool)
    ensures
        action_on(child, days, now, dry_run) is RemoveDir || action_on(child, days, now, dry_run)
            is RemoveFile ==> !dry_run && older(child.mtime, now, days),
{
}

/// What has become of a directory's entries so far.
#[derive(Debug)]
pub struct Scrub {
    pub freed: u64,
    pub last_err: Option<String>,
}

/// The outcome for one entry: its size where it was measured or deleted, or why
/// it was not deleted.
#[derive(Debug)]
pub enum ChildOutcome {
    Freed(u64),
    Failed(String),
}

/// The bytes freed by a list of outcomes.
pub open spec fn freed_total(outcomes: Seq<ChildOutcome>) -> nat
    decreases outcomes.len(),
{
    if outcomes.len() == 0 {
        0
    } else {
        freed_total(outcomes.drop_last()) + match outcomes.last() {
            ChildOutcome::Freed(size) => size as nat,
            ChildOutcome::Failed(_) => 0,
        }
    }
}

/// The last failure of a list of outcomes.
pub open spec fn last_failure(outcomes: Seq<ChildOutcome>) -> Option<Seq<char>>
    decreases outcomes.len(),
{
    if outcomes.len() == 0 {
        None
    } else {
        match outcomes.last() {
            ChildOutcome::Freed(_) => last_failure(outcomes.drop_last()),
            ChildOutcome::Failed(why) => Some(why@),
        }
    }
}

/// The detail for a directory whose entries were deleted.
pub open spec fn scrub_detail(
    freed: u64,
    last_err: Option<Seq<char>>,
    dry_run: bool,
    elapsed_ms: u64,
) -> Detail {
    match last_err {
        Some(why) => failure_detail(why),
        None => if dry_run {
            dry_run_detail("would delete"@, human_size(freed))
        } else {
            success_detail("deleted"@, human_size(freed), duration_text(elapsed_ms))
        },
    }
}

impl Scrub {
    /// `self` is what becomes of `outcomes`.
    pub open spec fn sums(self, outcomes: Seq<ChildOutcome>) -> bool {
        &&& self.freed == freed_total(outcomes)
        &&& opt_text(self.last_err) == last_failure(outcomes)
    }

    pub fn new() -> (r: Self)
        ensures
            r.sums(Seq::empty()),
            r.freed == 0,
            r.last_err is None,
    {
        Self { freed: 0, last_err: None }
    }

    /// Takes in the outcome for one more entry.
    pub fn add(&mut self, outcome: ChildOutcome)
        requires
            outcome matches ChildOutcome::Freed(size) ==> old(self).freed + size <= u64::MAX,
        ensures
            match outcome {
                ChildOutcome::Freed(size) => {
                    &&& final(self).freed == old(self).freed + size
                    &&& final(self).last_err == old(self).last_err
                },
                ChildOutcome::Failed(why) => {
                    &&& final(self).freed == old(self).freed
                    &&& opt_text(final(self).last_err) == Some(why@)
                },
            },
            forall|before: Seq<ChildOutcome>| #[trigger]
                old(self).sums(before) ==> final(self).sums(before.push(outcome)),
    {
        match outcome {
            ChildOutcome::Freed(size) => {
                self.freed = self.freed + size;
            },
            ChildOutcome::Failed(ref why) => {
                self.last_err = Some(why.clone());
            },
        }
        proof {
            assert forall|before: Seq<ChildOutcome>| #[trigger] old(self).sums(before) implies self.sums(
                before.push(outcome),
            ) by {
                assert(before.push(outcome).drop_last() =~= before);
            }
        }
    }

    /// Nothing failed.
    pub fn all_ok(&self) -> (r: bool)
        ensures
            r == (self.last_err is None),
    {
        self.last_err.is_none()
    }

    /// The detail for the directory.
    pub fn detail(&self, dry_run: bool, elapsed_ms: u64) -> (r: ItemDetail)
        ensures
            r@ == scrub_detail(self.freed, opt_text(self.last_err), dry_run, elapsed_ms),
    {
        match &self.last_err {
            Some(why) => ItemDetail::failure(why.as_str()),
            None => {
                if dry_run {
                    ItemDetail::dry_run("would delete", format_bytes(self.freed).as_str())
                } else {
                    ItemDetail::success(
                        "deleted",
                        format_bytes(self.freed).as_str(),
                        format_duration(elapsed_ms).as_str(),
                    )
                }
            },
        }
    }

    /// The outcome of a command that scrubs a single directory.
    pub fn summary(&self) -> (r: CommandSummary)
        ensures
            r == if self.last_err is None {
                one_ok(self.freed)
            } else {
                summary(self.freed, 0, 1, 0)
            },
    {
        if self.last_err.is_none() {
            CommandSummary::ok_one_with_bytes(self.freed)
        } else {
            CommandSummary {
                bytes_freed: self.freed,
                items_ok: 0,
                items_failed: 1,
                items_skipped: 0,
            }
        }
    }
}

/// A scrubbed directory fails exactly where one of its entries could not be
/// deleted, and what the others freed still counts.
pub proof fn law_scrub_fails_with_any_entry(outcomes: Seq<ChildOutcome>)
    ensures
        last_failure(outcomes) is None <==> forall|i: int|
            0 <= i < outcomes.len() ==> !((#[trigger] outcomes[i]) is Failed),
        forall|i: int|
            0 <= i < outcomes.len() ==> (#[trigger] outcomes[i] matches ChildOutcome::Freed(size)
                ==> size <= freed_total(outcomes)),
    decreases outcomes.len(),
{
    if outcomes.len() > 0 {
        let head = outcomes.drop_last();
        law_scrub_fails_with_any_entry(head);
        assert forall|i: int| 0 <= i < head.len() implies #[trigger] outcomes[i] == head[i] by {}
        if last_failure(outcomes) is None {
            assert forall|i: int| 0 <= i < outcomes.len() implies !((#[trigger] outcomes[i])
                is Failed) by {
                if i < head.len() {
                    assert(!(head[i] is Failed));
                }
            }
        } else if forall|i: int| 0 <= i < outcomes.len() ==> !((#[trigger] outcomes[i]) is Failed) {
            assert(!(outcomes[outcomes.len() - 1] is Failed));
            assert forall|i: int| 0 <= i < head.len() implies !((#[trigger] head[i]) is Failed) by {
                assert(head[i] == outcomes[i]);
            }
        }
        assert forall|i: int| 0 <= i < outcomes.len() implies (
        #[trigger] outcomes[i] matches ChildOutcome::Freed(size) ==> size <= freed_total(outcomes)) by {
            if i < head.len() {
                assert(head[i] == outcomes[i]);
            }
        }
    }
}

/// Records a directory whose entries were deleted, or could not even be listed.
pub fn delete_children(
    progress: &mut CleanProgress,
    label: String,
    scrub: &Result<Scrub, String>,
    elapsed_ms: u64,
) -> (r: String)
    ensures
        match *scrub {
            Ok(done) => final(progress).grew(
                *old(progress),
                (Item {
                    label: label@,
                    detail: scrub_detail(
                        done.freed,
                        opt_text(done.last_err),
                        old(progress).dry_run,
                        elapsed_ms,
                    ),
                    ok: done.last_err is None,
                }),
                done.freed,
                done.last_err is None || done.freed > 0,
            ),
            Err(why) => final(progress).grew(
                *old(progress),
                (Item { label: label@, detail: failure_detail(why@), ok: false }),
                0,
                false,
            ),
        },
        r@ == verb_of(old(progress).dry_run) + " "@ + human_size(final(progress).total_bytes),
{
    match scrub {
        Ok(done) => {
            let detail = done.detail(progress.dry_run, elapsed_ms);
            progress.record(label, detail, done.all_ok(), done.freed)
        },
        Err(why) => progress.record(label, ItemDetail::failure(why.as_str()), false, 0),
    }
}

// ---------------------------------------------------------------------------
// Labels
// ---------------------------------------------------------------------------

/// A path by where it is below `base`, or in full where it is not.
pub open spec fn label_of(path: Seq<char>, base: Seq<char>) -> Seq<char> {
    if is_under(path, base) {
        below(path, base)
    } else {
        path
    }
}

/// Labels a path by where it is below `base`.
pub fn relative_label(path: &str, base: &str) -> (r: String)
    ensures
        r@ == label_of(path@, base@),
{
    match strip_prefix(path, base) {
        Some(rest) => rest,
        None => path.to_owned(),
    }
}

// ---------------------------------------------------------------------------
// What recording amounts to
// ---------------------------------------------------------------------------

/// What a command counts and says: each item well done counts one, bytes add up,
/// and a dry run speaks of what it would free.
pub proof fn law_counts(items: Seq<Item>, item: Item, a: u64, b: u64)
    ensures
        ok_count(Seq::empty()) == 0,
        item.ok ==> ok_count(items.push(item)) == ok_count(items) + 1,
        !item.ok ==> ok_count(items.push(item)) == ok_count(items),
        a + b <= u64::MAX ==> wrapping_sum(a, b) == a + b,
        verb_of(true) == "would free"@,
        verb_of(false) == "freed"@,
{
    assert(items.push(item).drop_last() =~= items);
}

/// The line that closes a command.
pub proof fn law_closing_line(bytes: Seq<char>, count: nat)
    ensures
        closing_text(true, bytes, count) == "would free "@ + bytes + " across "@ + decimal_of(count)
            + " items"@,
        closing_text(false, bytes, count) == "freed "@ + bytes + " across "@ + decimal_of(count)
            + " items"@,
{
    reveal_strlit("would free");
    reveal_strlit("freed");
    reveal_strlit("would free ");
    reveal_strlit("freed ");
    reveal_strlit(" ");
    assert("would free"@ + " "@ =~= "would free "@);
    assert("freed"@ + " "@ =~= "freed "@);
}

/// What recording one item does, whatever came before it: its bytes are added,
/// it is counted where it went well or freed something, and it comes last.
pub proof fn law_recording(
    before: CleanProgress,
    after: CleanProgress,
    item: Item,
    bytes: u64,
    counted: bool,
)
    requires
        after.grew(before, item, bytes, counted),
        before.total_bytes + bytes <= u64::MAX,
        before.total_count < u64::MAX,
    ensures
        after.total_bytes == before.total_bytes + bytes,
        counted ==> after.total_count == before.total_count + 1,
        !counted ==> after.total_count == before.total_count,
        after.items@.len() == before.items@.len() + 1,
        items_view(after.items@).last() == item,
        after.dry_run == before.dry_run,
{
    assert(items_view(after.items@).len() == after.items@.len());
    assert(items_view(before.items@).len() == before.items@.len());
}

/// A failed deletion frees nothing and is shown as failed, with why; one that
/// worked, or that a dry run left out, counts with its size.
pub proof fn law_deletions(removal: Removal, size: u64)
    ensures
        removal is Failed ==> freed_by(removal, size) == 0,
        !(removal is Failed) ==> freed_by(removal, size) == size,
        removal matches Removal::Failed(why) ==> removal_detail(removal, size).verb == "failed"@
            && removal_detail(removal, size).suffix == Some(why@) && removal_detail(
            removal,
            size,
        ).size is None,
        removal matches Removal::Deleted(ms) ==> removal_detail(removal, size).verb == "deleted"@
            && removal_detail(removal, size).size == Some(human_size(size)) && removal_detail(
            removal,
            size,
        ).duration == Some(duration_text(ms)),
        removal is Kept ==> removal_detail(removal, size).verb == "would delete"@
            && removal_detail(removal, size).size == Some(human_size(size)) && removal_detail(
            removal,
            size,
        ).duration is None,
{
}

/// What becomes of an entry: a young one stays, a dry run deletes nothing, a
/// directory goes with what it holds, and a link goes by itself.
pub proof fn law_entries(child: Child, days: u32, now: u64, dry_run: bool, r: ChildAction)
    requires
        call_ensures(child_action, (&child, days, now, dry_run), r),
    ensures
        ({
            let old = days == 0 || (child.mtime is Some && now - child.mtime->0 > days * 86_400);
            &&& r is Keep <==> !old
            &&& r is Measure <==> old && dry_run
            &&& r is RemoveDir <==> old && !dry_run && child.is_dir && !child.is_symlink
            &&& r is RemoveFile <==> old && !dry_run && (!child.is_dir || child.is_symlink)
        }),
{
}

/// One more entry of a directory adds what it freed, or makes the directory fail
/// with why it could not be deleted; the last failure counts.
pub proof fn law_scrubbing(outcomes: Seq<ChildOutcome>, size: u64, why: String)
    ensures
        freed_total(Seq::empty()) == 0,
        last_failure(Seq::empty()) is None,
        freed_total(outcomes.push(ChildOutcome::Freed(size))) == freed_total(outcomes) + size,
        freed_total(outcomes.push(ChildOutcome::Failed(why))) == freed_total(outcomes),
        last_failure(outcomes.push(ChildOutcome::Freed(size))) == last_failure(outcomes),
        last_failure(outcomes.push(ChildOutcome::Failed(why))) == Some(why@),
{
    assert(outcomes.push(ChildOutcome::Freed(size)).drop_last() =~= outcomes);
    assert(outcomes.push(ChildOutcome::Failed(why)).drop_last() =~= outcomes);
}

/// How a scrubbed directory is shown.
pub proof fn law_scrub_details(freed: u64, why: Seq<char>, elapsed_ms: u64, dry_run: bool)
    ensures
        scrub_detail(freed, Some(why), dry_run, elapsed_ms) == failure_detail(why),
        scrub_detail(freed, None, true, elapsed_ms) == dry_run_detail(
            "would delete"@,
            human_size(freed),
        ),
        scrub_detail(freed, None, false, elapsed_ms) == success_detail(
            "deleted"@,
            human_size(freed),
            duration_text(elapsed_ms),
        ),
{
}

/// A label is the path from the base where the path is below it, and else the
/// whole path.
pub proof fn law_labels(path: Seq<char>, base: Seq<char>)
    ensures
        is_under(path, base) ==> crate::path::components_of(path) == crate::path::components_of(
            base,
        ) + crate::path::components_of(label_of(path, base)),
        !is_under(path, base) ==> label_of(path, base) == path,
{
    crate::path::law_below(path, base);
}

/// The lines of a finished command: a blank line, its name, its items and the
/// line that closes it.
pub proof fn law_report_lines(name: Seq<char>, items: Seq<Item>, message: Seq<char>, color: bool)
    ensures
        ({
            let lines = report_lines(name, items, message, color);
            let n = lines.len() as int;
            &&& n == items.len() + 3
            &&& lines[0].len() == 0
            &&& lines[1] == name
            &&& lines[n - 1] == "└─ "@ + message
            &&& lines.subrange(2, n - 1) == item_lines(items, color)
        }),
{
    reveal_strlit("");
    let lines = report_lines(name, items, message, color);
    assert(lines.subrange(2, lines.len() - 1) =~= item_lines(items, color));
}

} // verus!
