//! The maintenance commands, and the outcome that each of them reports.
use vstd::prelude::*;

pub mod all;
pub mod backblaze_exclusions;
pub mod bz_cleanup;
pub mod clean_brew;
pub mod clean_cargo;
pub mod clean_chrome;
pub mod clean_docker;
pub mod clean_electron_caches;
pub mod clean_gems;
pub mod clean_go_build;
pub mod clean_go_mod_cache;
pub mod clean_gradle;
pub mod clean_jetbrains;
pub mod clean_library_caches;
pub mod clean_logs;
pub mod clean_m2;
pub mod clean_maven;
pub mod clean_mise;
pub mod clean_node_gyp;
pub mod clean_npm;
pub mod clean_pip;
pub mod clean_playwright;
pub mod clean_pnpm;
pub mod clean_python_artifacts;
pub mod clean_rustup;
pub mod clean_steam;
pub mod clean_tmp;
pub mod clean_trash;
pub mod clean_xcode;
pub mod clean_xdg_cache;
pub mod clean_yarn;
pub mod cleaner;
pub mod dedupe_media;
pub mod executor;
pub mod git_maintenance;
pub mod listing;

verus! {

/// The outcome of one command, folded into the totals of a whole run.
///
/// `items_ok` and `items_failed` count what the command worked on, or the
/// command itself where it has no parts. A command that had nothing to work
/// with, because its tool or directory is missing, counts as skipped.
#[derive(Debug, Clone, Copy, PartialEq, Eq, Structural)]
pub struct CommandSummary {
    pub bytes_freed: u64,
    pub items_ok: u64,
    pub items_failed: u64,
    pub items_skipped: u64,
}

pub open spec fn summary(bytes: u64, ok: u64, failed: u64, skipped: u64) -> CommandSummary {
    CommandSummary {
        bytes_freed: bytes,
        items_ok: ok,
        items_failed: failed,
        items_skipped: skipped,
    }
}

pub open spec fn nothing() -> CommandSummary {
    summary(0, 0, 0, 0)
}

pub open spec fn one_ok(bytes: u64) -> CommandSummary {
    summary(bytes, 1, 0, 0)
}

pub open spec fn one_failed() -> CommandSummary {
    summary(0, 0, 1, 0)
}

pub open spec fn one_skipped() -> CommandSummary {
    summary(0, 0, 0, 1)
}

/// Every count of the two together fits.
pub open spec fn adds_up(a: CommandSummary, b: CommandSummary) -> bool {
    &&& a.bytes_freed + b.bytes_freed <= u64::MAX
    &&& a.items_ok + b.items_ok <= u64::MAX
    &&& a.items_failed + b.items_failed <= u64::MAX
    &&& a.items_skipped + b.items_skipped <= u64::MAX
}

/// The two outcomes as one.
pub open spec fn together(a: CommandSummary, b: CommandSummary) -> CommandSummary {
    summary(
        (a.bytes_freed + b.bytes_freed) as u64,
        (a.items_ok + b.items_ok) as u64,
        (a.items_failed + b.items_failed) as u64,
        (a.items_skipped + b.items_skipped) as u64,
    )
}

impl Default for CommandSummary {
    fn default() -> (r: Self)
        ensures
            r == nothing(),
    {
        Self { bytes_freed: 0, items_ok: 0, items_failed: 0, items_skipped: 0 }
    }
}

impl CommandSummary {
    pub open spec fn has_passed(self) -> bool {
        self.items_failed == 0
    }

    /// Only skips were recorded.
    pub open spec fn was_skipped(self) -> bool {
        self.items_skipped > 0 && self.items_ok == 0 && self.items_failed == 0
    }

    pub fn ok_one() -> (r: Self)
        ensures
            r == one_ok(0),
    {
        Self { bytes_freed: 0, items_ok: 1, items_failed: 0, items_skipped: 0 }
    }

    pub fn ok_one_with_bytes(bytes: u64) -> (r: Self)
        ensures
            r == one_ok(bytes),
    {
        Self { bytes_freed: bytes, items_ok: 1, items_failed: 0, items_skipped: 0 }
    }

    pub fn failed_one() -> (r: Self)
        ensures
            r == one_failed(),
    {
        Self { bytes_freed: 0, items_ok: 0, items_failed: 1, items_skipped: 0 }
    }

    pub fn skipped_one() -> (r: Self)
        ensures
            r == one_skipped(),
    {
        Self { bytes_freed: 0, items_ok: 0, items_failed: 0, items_skipped: 1 }
    }

    /// Nothing failed.
    pub fn passed(&self) -> (r: bool)
        ensures
            r == self.has_passed(),
    {
        self.items_failed == 0
    }

    /// The command did no work and only recorded skips. A run that worked and
    /// freed nothing is not skipped.
    pub fn skipped(&self) -> (r: bool)
        ensures
            r == self.was_skipped(),
    {
        self.items_skipped > 0 && self.items_ok == 0 && self.items_failed == 0
    }

    /// The number of items that were worked on.
    pub fn items_total(&self) -> (r: u64)
        requires
            self.items_ok + self.items_failed <= u64::MAX,
        ensures
            r == self.items_ok + self.items_failed,
    {
        self.items_ok + self.items_failed
    }

    /// Whether the outcome can be added to another without any count running over.
    pub fn adds_up_with(&self, other: &CommandSummary) -> (r: bool)
        ensures
            r == adds_up(*self, *other),
    {
        self.bytes_freed <= u64::MAX - other.bytes_freed && self.items_ok <= u64::MAX
            - other.items_ok && self.items_failed <= u64::MAX - other.items_failed
            && self.items_skipped <= u64::MAX - other.items_skipped
    }

    /// Adds another outcome to this one.
    pub fn merge(&mut self, other: CommandSummary)
        requires
            adds_up(*old(self), other),
        ensures
            *final(self) == together(*old(self), other),
    {
        self.bytes_freed = self.bytes_freed + other.bytes_freed;
        self.items_ok = self.items_ok + other.items_ok;
        self.items_failed = self.items_failed + other.items_failed;
        self.items_skipped = self.items_skipped + other.items_skipped;
    }
}

/// Outcomes add up to the same total in any order and grouping, an empty
/// outcome changes nothing, and a total passes exactly where both parts do.
pub proof fn law_merging(a: CommandSummary, b: CommandSummary, c: CommandSummary)
    requires
        adds_up(a, b),
        adds_up(together(a, b), c),
    ensures
        adds_up(b, c),
        adds_up(a, together(b, c)),
        together(a, b) == together(b, a),
        together(together(a, b), c) == together(a, together(b, c)),
        together(a, nothing()) == a,
        together(a, b).has_passed() == (a.has_passed() && b.has_passed()),
{
}

/// What the outcomes of one item count, and when a command has passed or was
/// skipped.
pub proof fn law_single_outcomes(s: CommandSummary, bytes: u64)
    ensures
        one_ok(bytes).bytes_freed == bytes && one_ok(bytes).items_ok == 1
            && one_ok(bytes).items_failed == 0 && one_ok(bytes).items_skipped == 0,
        one_failed().bytes_freed == 0 && one_failed().items_ok == 0 && one_failed().items_failed
            == 1 && one_failed().items_skipped == 0,
        one_skipped().bytes_freed == 0 && one_skipped().items_ok == 0
            && one_skipped().items_failed == 0 && one_skipped().items_skipped == 1,
        s.has_passed() <==> s.items_failed == 0,
        s.was_skipped() <==> s.items_skipped > 0 && s.items_ok + s.items_failed == 0,
{
}

/// Two outcomes together count what each counts.
pub proof fn law_together(a: CommandSummary, b: CommandSummary)
    requires
        adds_up(a, b),
    ensures
        together(a, b).bytes_freed == a.bytes_freed + b.bytes_freed,
        together(a, b).items_ok == a.items_ok + b.items_ok,
        together(a, b).items_failed == a.items_failed + b.items_failed,
        together(a, b).items_skipped == a.items_skipped + b.items_skipped,
{
}

} // verus!
