//! Prunes what Docker no longer uses, and sees to it that the disk image shrinks.
use super::{one_failed, one_ok, one_skipped, summary, together, CommandSummary};
use crate::bytes::lossy_text;
use crate::config::{
    choose_bool, choose_text, choose_u32, chosen, expand_tilde, expanded, CleanDockerConfig,
};
use crate::number::{decimal, decimal_of};
use crate::process::{output_of, ran_well, succeeded, Finished, Invocation, Reply};
use crate::search::{starts_with, starts_with_of, strip_prefix};
use crate::sizes::size_of_text;
use crate::split::{lines, lines_of, words, words_of};
use crate::text::{opt_text, same, texts, trim, trim_of};
use vstd::prelude::*;

verus! {

pub const DEFAULT_HOURS: u32 = 720;

pub const DEFAULT_SCOPE: &'static str = "system";

pub const DEFAULT_ALL_IMAGES: bool = true;

pub const DEFAULT_VOLUMES: bool = false;

pub const DEFAULT_RECLAIM_PHYSICAL: bool = true;

pub const DEFAULT_DISK_IMAGE: &'static str =
    "~/Library/Containers/com.docker.docker/Data/vms/0/data/Docker.raw";

/// How long the disk image is given to shrink by itself, in seconds.
pub const AUTOMATIC_RECLAIM_WAIT: u64 = 5;

/// How long the disk image is given to shrink after the helper, in seconds.
pub const HELPER_RECLAIM_WAIT: u64 = 2;

#[derive(Debug, Default)]
pub struct Args {
    /// Only prune what is older than this many hours.
    pub hours: Option<u32>,
    /// What is pruned. Only `system` is supported.
    pub scope: Option<String>,
    /// Remove tagged images too.
    pub all_images: Option<bool>,
    /// Remove unused volumes, whatever their age.
    pub volumes: Option<bool>,
    /// Run the reclaim helper where the disk image does not shrink by itself.
    pub reclaim_physical: Option<bool>,
    /// The disk image to measure.
    pub disk_image: Option<String>,
}

/// What the command works on.
#[derive(Debug)]
pub struct Settings {
    pub hours: u32,
    pub scope: String,
    pub all_images: bool,
    pub volumes: bool,
    pub reclaim_physical: bool,
    pub disk_image: String,
}

pub fn resolve_settings(args: &Args, cfg: &CleanDockerConfig, home: &Option<String>) -> (r: Settings)
    ensures
        r.hours == chosen(args.hours, cfg.hours, DEFAULT_HOURS),
        r.scope@ == chosen(opt_text(args.scope), opt_text(cfg.scope), DEFAULT_SCOPE@),
        r.all_images == chosen(args.all_images, cfg.all_images, DEFAULT_ALL_IMAGES),
        r.volumes == chosen(args.volumes, cfg.volumes, DEFAULT_VOLUMES),
        r.reclaim_physical == chosen(
            args.reclaim_physical,
            cfg.reclaim_physical,
            DEFAULT_RECLAIM_PHYSICAL,
        ),
        r.disk_image@ == expanded(
            chosen(opt_text(args.disk_image), opt_text(cfg.disk_image), DEFAULT_DISK_IMAGE@),
            opt_text(*home),
        ),
{
    let image = choose_text(&args.disk_image, &cfg.disk_image, DEFAULT_DISK_IMAGE);
    Settings {
        hours: choose_u32(args.hours, cfg.hours, DEFAULT_HOURS),
        scope: choose_text(&args.scope, &cfg.scope, DEFAULT_SCOPE),
        all_images: choose_bool(args.all_images, cfg.all_images, DEFAULT_ALL_IMAGES),
        volumes: choose_bool(args.volumes, cfg.volumes, DEFAULT_VOLUMES),
        reclaim_physical: choose_bool(
            args.reclaim_physical,
            cfg.reclaim_physical,
            DEFAULT_RECLAIM_PHYSICAL,
        ),
        disk_image: expand_tilde(image.as_str(), home),
    }
}

// ---------------------------------------------------------------------------
// Sizes
// ---------------------------------------------------------------------------

/// The bytes that so many blocks of a file take; as much as can be counted where
/// that is too many.
pub fn allocated_bytes(blocks: Option<u64>) -> (r: Option<u64>)
    ensures
        r == match blocks {
            Some(n) => Some(
                if n * 512 <= u64::MAX {
                    (n * 512) as u64
                } else {
                    u64::MAX
                },
            ),
            None => None,
        },
{
    match blocks {
        Some(n) => {
            if n > u64::MAX / 512 {
                Some(u64::MAX)
            } else {
                Some(n * 512)
            }
        },
        None => None,
    }
}

/// The helper is called for: Docker freed something, and the disk image is known
/// not to have shrunk.
pub open spec fn stalled(reclaimed: Option<u64>, before: Option<u64>, after: Option<u64>) -> bool {
    &&& reclaimed matches Some(n) && n > 0
    &&& before is Some && after is Some && after->0 >= before->0
}

pub fn should_run_reclaim_helper(
    docker_reclaimed: Option<u64>,
    before: Option<u64>,
    after: Option<u64>,
) -> (r: bool)
    ensures
        r == stalled(docker_reclaimed, before, after),
{
    match (docker_reclaimed, before, after) {
        (Some(bytes), Some(was), Some(is)) => bytes > 0 && is >= was,
        _ => false,
    }
}

/// By how much the disk image shrank, where both sizes are known.
pub open spec fn shrunk(before: Option<u64>, after: Option<u64>) -> Option<u64> {
    if before is Some && after is Some {
        Some(
            if after->0 <= before->0 {
                (before->0 - after->0) as u64
            } else {
                0
            },
        )
    } else {
        None
    }
}

pub fn physical_bytes_freed(before: Option<u64>, after: Option<u64>) -> (r: Option<u64>)
    ensures
        r == shrunk(before, after),
{
    match (before, after) {
        (Some(was), Some(is)) => Some(was.saturating_sub(is)),
        _ => None,
    }
}

/// The sum of what is known, as far as it can be counted.
pub open spec fn known_sum(left: Option<u64>, right: Option<u64>) -> Option<u64> {
    match (left, right) {
        (Some(a), Some(b)) => Some(
            if a + b <= u64::MAX {
                (a + b) as u64
            } else {
                u64::MAX
            },
        ),
        (Some(a), None) => Some(a),
        (None, b) => b,
    }
}

pub fn sum_optional_bytes(left: Option<u64>, right: Option<u64>) -> (r: Option<u64>)
    ensures
        r == known_sum(left, right),
{
    match (left, right) {
        (Some(a), Some(b)) => Some(a.saturating_add(b)),
        (Some(a), None) => Some(a),
        (None, b) => b,
    }
}

/// A known size is never lost in a sum, whatever the order and the grouping.
pub proof fn law_known_sizes_add_up(a: Option<u64>, b: Option<u64>, c: Option<u64>)
    ensures
        known_sum(a, b) == known_sum(b, a),
        known_sum(known_sum(a, b), c) == known_sum(a, known_sum(b, c)),
        known_sum(a, None) == a,
        a is Some ==> known_sum(a, b) is Some && known_sum(a, b)->0 >= a->0,
{
}

/// A disk image is never said to have freed more than it held, nor anything
/// where it grew; and the helper runs only where it did not shrink.
pub proof fn law_growth_frees_nothing(reclaimed: Option<u64>, before: u64, after: u64)
    ensures
        shrunk(Some(before), Some(after)) == Some(
            if after < before {
                (before - after) as u64
            } else {
                0
            },
        ),
        stalled(reclaimed, Some(before), Some(after)) ==> shrunk(Some(before), Some(after)) == Some(
            0u64,
        ),
{
}

/// Reads a size such as `9.209GB`, `0B` or `1.5kB`.
pub fn parse_size(raw: &str) -> (r: Option<u64>)
    ensures
        r == size_of_text(raw@),
{
    crate::sizes::parse_size(raw)
}

/// What is behind `Total reclaimed space:` on a line, if it is there.
pub open spec fn total_on(line: Seq<char>) -> Option<Seq<char>> {
    let l = trim_of(line);
    if starts_with_of(l, "Total reclaimed space:"@) {
        Some(trim_of(l.skip("Total reclaimed space:"@.len() as int)))
    } else {
        None
    }
}

/// What the first line that gives a total says.
pub open spec fn first_total(list: Seq<Seq<char>>) -> Option<Seq<char>>
    decreases list.len(),
{
    if list.len() == 0 {
        None
    } else {
        match total_on(list[0]) {
            Some(text) => Some(text),
            None => first_total(list.drop_first()),
        }
    }
}

pub open spec fn total_reclaimed(output: Seq<char>) -> Option<u64> {
    match first_total(lines_of(output)) {
        Some(text) => size_of_text(text),
        None => None,
    }
}

fn total_of_line(line: &str) -> (r: Option<String>)
    ensures
        opt_text(r) == total_on(line@),
{
    let l = trim(line);
    match strip_prefix(l.as_str(), "Total reclaimed space:") {
        Some(rest) => Some(trim(rest.as_str())),
        None => None,
    }
}

/// Reads the total that a prune reports, in bytes; none where the line is missing
/// or is no size.
pub fn parse_total_reclaimed(output: &str) -> (r: Option<u64>)
    ensures
        r == total_reclaimed(output@),
{
    let list = lines(output);
    let ghost all = texts(list@);
    let mut i: usize = 0;
    assert(all.skip(0) =~= all);
    while i < list.len()
        invariant
            i <= list@.len(),
            all == texts(list@),
            all == lines_of(output@),
            first_total(all) == first_total(all.skip(i as int)),
        decreases list@.len() - i,
    {
        proof {
            assert(all.skip(i as int)[0] == list@[i as int]@);
            assert(all.skip(i as int).drop_first() =~= all.skip(i as int + 1));
        }
        match total_of_line(list[i].as_str()) {
            Some(text) => {
                return parse_size(text.as_str());
            },
            None => {},
        }
        i = i + 1;
    }
    None
}

/// The column of a row that says what could be reclaimed: the last, or the one
/// before a percentage. A row of fewer than five columns has none.
pub open spec fn reclaimable_on(row: Seq<char>) -> Option<u64> {
    let columns = words_of(trim_of(row));
    if columns.len() < 5 {
        None
    } else if starts_with_of(columns.last(), "("@) {
        size_of_text(columns[columns.len() - 2])
    } else {
        size_of_text(columns.last())
    }
}

/// The sum over some rows of what could be reclaimed.
pub open spec fn reclaimable_in(rows: Seq<Seq<char>>) -> Option<u64>
    decreases rows.len(),
{
    if rows.len() == 0 {
        None
    } else {
        known_sum(reclaimable_in(rows.drop_last()), reclaimable_on(rows.last()))
    }
}

/// The sum over a table, whose first line is its header.
pub open spec fn reclaimable_total(output: Seq<char>) -> Option<u64> {
    let all = lines_of(output);
    if all.len() == 0 {
        None
    } else {
        reclaimable_in(all.skip(1))
    }
}

fn reclaimable_of(row: &str) -> (r: Option<u64>)
    ensures
        r == reclaimable_on(row@),
{
    let trimmed = trim(row);
    let columns = words(trimmed.as_str());
    let n = columns.len();
    let ghost all = texts(columns@);
    assert(all.len() == n);
    if n < 5 {
        return None;
    }
    assert(all.last() == columns@[n - 1]@);
    assert(all[n - 2] == columns@[n - 2]@);
    if starts_with(columns[n - 1].as_str(), "(") {
        parse_size(columns[n - 2].as_str())
    } else {
        parse_size(columns[n - 1].as_str())
    }
}

/// Sums the column of what could be reclaimed; none where no row has a size.
pub fn parse_reclaimable_total(output: &str) -> (r: Option<u64>)
    ensures
        r == reclaimable_total(output@),
{
    let list = lines(output);
    let ghost all = texts(list@);
    assert(all.len() == list@.len());
    if list.len() == 0 {
        return None;
    }
    let ghost rows = all.skip(1);
    let mut total: Option<u64> = None;
    let mut i: usize = 1;
    assert(rows.take(0) =~= Seq::<Seq<char>>::empty());
    while i < list.len()
        invariant
            1 <= i <= list@.len(),
            all == texts(list@),
            rows == all.skip(1),
            total == reclaimable_in(rows.take(i - 1)),
        decreases list@.len() - i,
    {
        proof {
            assert(rows.take(i as int).drop_last() =~= rows.take(i - 1));
            assert(rows.take(i as int).last() == list@[i as int]@);
        }
        total = sum_optional_bytes(total, reclaimable_of(list[i].as_str()));
        i = i + 1;
    }
    assert(rows.take(rows.len() as int) =~= rows);
    total
}

// ---------------------------------------------------------------------------
// Running Docker
// ---------------------------------------------------------------------------

/// The question whether Docker is installed and its daemon answers.
pub fn ask_daemon() -> (r: Invocation)
    ensures
        r.runs("docker"@, seq!["version"@, "--format"@, "{{.Server.Version}}"@]),
{
    let r = Invocation::new("docker").arg("version").arg("--format").arg("{{.Server.Version}}");
    assert(texts(r.args@) =~= seq!["version"@, "--format"@, "{{.Server.Version}}"@]);
    r
}

/// What is done once it is known whether Docker answers.
#[derive(Debug)]
pub enum Start {
    Done(CommandSummary),
    /// What could be freed is estimated, because the run is a dry run.
    Estimate(Invocation),
    /// The disk image is measured and Docker is told to prune.
    Prune(Invocation),
}

/// Decides what is done. Without Docker the command is skipped, with a scope that
/// is not supported it fails, and a dry run only estimates.
pub fn after_daemon(reply: &Reply, settings: &Settings, dry_run: bool) -> (r: Start)
    ensures
        if !succeeded(*reply) {
            r matches Start::Done(s) && s == one_skipped()
        } else if settings.scope@ != "system"@ {
            r matches Start::Done(s) && s == one_failed()
        } else if dry_run {
            r matches Start::Estimate(run) && run.runs("docker"@, seq!["system"@, "df"@])
        } else {
            r matches Start::Prune(run) && run.runs("docker"@, prune_arguments(*settings))
        },
        dry_run ==> !(r is Prune),
{
    if !ran_well(reply) {
        return Start::Done(CommandSummary::skipped_one());
    }
    if !same(settings.scope.as_str(), "system") {
        return Start::Done(CommandSummary::failed_one());
    }
    if dry_run {
        let run = Invocation::new("docker").arg("system").arg("df");
        assert(texts(run.args@) =~= seq!["system"@, "df"@]);
        return Start::Estimate(run);
    }
    let arguments = system_prune_arguments(settings);
    let run = Invocation::new("docker").with_args(&arguments);
    assert(texts(run.args@) =~= prune_arguments(*settings));
    Start::Prune(run)
}

/// The arguments of a prune.
pub open spec fn prune_arguments(settings: Settings) -> Seq<Seq<char>> {
    seq!["system"@, "prune"@, "--force"@] + (if settings.all_images {
        seq!["--all"@]
    } else {
        seq![]
    }) + seq!["--filter"@, "until="@ + decimal_of(settings.hours as nat) + "h"@]
}

pub fn system_prune_arguments(settings: &Settings) -> (r: Vec<String>)
    ensures
        texts(r@) == prune_arguments(*settings),
{
    let mut arguments: Vec<String> = vec![
        "system".to_string(),
        "prune".to_string(),
        "--force".to_string(),
    ];
    if settings.all_images {
        arguments.push("--all".to_string());
    }
    arguments.push("--filter".to_string());
    let mut until = "until=".to_string();
    until.append(decimal(settings.hours as u64).as_str());
    until.append("h");
    arguments.push(until);
    assert(texts(arguments@) =~= prune_arguments(*settings));
    arguments
}

/// The estimate of a dry run: a summary, and what Docker says could be reclaimed.
#[derive(Debug)]
pub struct Estimate {
    pub summary: CommandSummary,
    pub reclaimable: Option<u64>,
}

/// Reads the estimate, which counts every age and every volume.
pub fn run_df(reply: &Reply) -> (r: Result<Estimate, String>)
    ensures
        match *reply {
            Reply::NotStarted(_) => r matches Err(message) && message@
                == "failed to invoke `docker system df`"@,
            Reply::Finished(done) => r matches Ok(estimate) && if done.success {
                let reclaimable = reclaimable_total(lossy_text(done.stdout@));
                &&& estimate.reclaimable == reclaimable
                &&& estimate.summary == one_ok(
                    match reclaimable {
                        Some(n) => n,
                        None => 0,
                    },
                )
            } else {
                estimate.reclaimable is None && estimate.summary == one_failed()
            },
        },
{
    match reply {
        Reply::NotStarted(_) => Err("failed to invoke `docker system df`".to_string()),
        Reply::Finished(done) => {
            if !done.success {
                return Ok(
                    Estimate { summary: CommandSummary::failed_one(), reclaimable: None },
                );
            }
            let text = output_of(done);
            let reclaimable = parse_reclaimable_total(text.as_str());
            let bytes: u64 = match reclaimable {
                Some(n) => n,
                None => 0,
            };
            Ok(Estimate { summary: CommandSummary::ok_one_with_bytes(bytes), reclaimable })
        },
    }
}

/// What came of one prune.
#[derive(Debug, Clone, Copy)]
pub struct PruneResult {
    pub summary: CommandSummary,
    pub reclaimed: Option<u64>,
}

pub open spec fn pruned(done: Finished) -> PruneResult {
    if done.success {
        PruneResult {
            summary: one_ok(0),
            reclaimed: total_reclaimed(lossy_text(done.stdout@)),
        }
    } else {
        PruneResult { summary: one_failed(), reclaimed: None }
    }
}

pub fn prune_result(done: &Finished) -> (r: PruneResult)
    ensures
        r == pruned(*done),
{
    if !done.success {
        return PruneResult { summary: CommandSummary::failed_one(), reclaimed: None };
    }
    let text = output_of(done);
    PruneResult {
        summary: CommandSummary::ok_one(),
        reclaimed: parse_total_reclaimed(text.as_str()),
    }
}

/// A prune under way.
#[derive(Debug, Clone, Copy)]
pub struct Pruning {
    /// The size of the disk image before it.
    pub before: Option<u64>,
    /// What Docker says it has reclaimed so far.
    pub reclaimed: Option<u64>,
    pub summary: CommandSummary,
}

impl Pruning {
    /// The counts are those of the prunes so far, two at most.
    pub open spec fn wf(self) -> bool {
        &&& self.summary.bytes_freed == 0
        &&& self.summary.items_skipped == 0
        &&& self.summary.items_ok + self.summary.items_failed <= 2
    }

    /// The disk image is given time to shrink: Docker freed something, and there
    /// is an image to look at.
    pub open spec fn waits(self) -> bool {
        self.reclaimed is Some && self.reclaimed->0 > 0 && self.before is Some
    }

    /// The seconds to wait before the disk image is measured again.
    pub fn wait(&self) -> (r: u64)
        ensures
            r == if self.waits() {
                AUTOMATIC_RECLAIM_WAIT
            } else {
                0
            },
    {
        let freed = match self.reclaimed {
            Some(n) => n > 0,
            None => false,
        };
        if freed && self.before.is_some() {
            AUTOMATIC_RECLAIM_WAIT
        } else {
            0
        }
    }

    /// Closes the prune. What the disk image gave back counts, else what Docker
    /// says, else nothing.
    pub fn finish(&self, after: Option<u64>) -> (r: CommandSummary)
        ensures
            r == (CommandSummary {
                bytes_freed: match shrunk(self.before, after) {
                    Some(n) => n,
                    None => match self.reclaimed {
                        Some(n) => n,
                        None => 0,
                    },
                },
                ..self.summary
            }),
    {
        let bytes: u64 = match physical_bytes_freed(self.before, after) {
            Some(n) => n,
            None => match self.reclaimed {
                Some(n) => n,
                None => 0,
            },
        };
        CommandSummary {
            bytes_freed: bytes,
            items_ok: self.summary.items_ok,
            items_failed: self.summary.items_failed,
            items_skipped: self.summary.items_skipped,
        }
    }
}

/// What is done next in a prune.
#[derive(Debug)]
pub enum PruneStep {
    /// Docker is told to prune the volumes.
    Volumes(Invocation, Pruning),
    /// The disk image is measured, after a wait.
    Measure(Pruning),
    /// The reclaim helper is run.
    Helper(Invocation, Pruning),
    /// The disk image is measured once more, after the helper.
    Remeasure(Pruning),
    Done(CommandSummary),
    Fail(String),
}

/// Goes on from the prune itself. A failed one ends the command.
pub fn after_system_prune(settings: &Settings, before: Option<u64>, reply: &Reply) -> (r: PruneStep)
    ensures
        match *reply {
            Reply::NotStarted(_) => r matches PruneStep::Fail(message) && message@
                == "failed to invoke `docker system prune`"@,
            Reply::Finished(done) => {
                let next = Pruning {
                    before,
                    reclaimed: pruned(done).reclaimed,
                    summary: pruned(done).summary,
                };
                &&& next.wf()
                &&& if !done.success {
                    r matches PruneStep::Done(s) && s == one_failed()
                } else if settings.volumes {
                    r matches PruneStep::Volumes(run, p) && p == next && run.runs(
                        "docker"@,
                        seq!["volume"@, "prune"@, "--all"@, "--force"@],
                    )
                } else {
                    r matches PruneStep::Measure(p) && p == next
                }
            },
        },
{
    match reply {
        Reply::NotStarted(_) => PruneStep::Fail(
            "failed to invoke `docker system prune`".to_string(),
        ),
        Reply::Finished(done) => {
            let result = prune_result(done);
            if !result.summary.passed() {
                return PruneStep::Done(result.summary);
            }
            let next = Pruning { before, reclaimed: result.reclaimed, summary: result.summary };
            if settings.volumes {
                let run = Invocation::new("docker").arg("volume").arg("prune").arg("--all").arg(
                    "--force",
                );
                assert(texts(run.args@) =~= seq!["volume"@, "prune"@, "--all"@, "--force"@]);
                PruneStep::Volumes(run, next)
            } else {
                PruneStep::Measure(next)
            }
        },
    }
}

/// Goes on from the prune of the volumes, which adds to the first.
pub fn after_volume_prune(pruning: Pruning, reply: &Reply) -> (r: PruneStep)
    requires
        pruning.wf(),
        pruning.summary.items_ok + pruning.summary.items_failed <= 1,
    ensures
        match *reply {
            Reply::NotStarted(_) => r matches PruneStep::Fail(message) && message@
                == "failed to invoke `docker volume prune`"@,
            Reply::Finished(done) => r matches PruneStep::Measure(p) && p.wf() && p == (Pruning {
                before: pruning.before,
                reclaimed: known_sum(pruning.reclaimed, pruned(done).reclaimed),
                summary: together(pruning.summary, pruned(done).summary),
            }),
        },
{
    match reply {
        Reply::NotStarted(_) => PruneStep::Fail(
            "failed to invoke `docker volume prune`".to_string(),
        ),
        Reply::Finished(done) => {
            let result = prune_result(done);
            let mut summary = pruning.summary;
            summary.merge(result.summary);
            PruneStep::Measure(
                Pruning {
                    before: pruning.before,
                    reclaimed: sum_optional_bytes(pruning.reclaimed, result.reclaimed),
                    summary,
                },
            )
        },
    }
}

/// Goes on from the size of the disk image after the prune: the helper runs where
/// it is wanted and the image has not shrunk.
pub fn after_measure(settings: &Settings, pruning: Pruning, after: Option<u64>) -> (r: PruneStep)
    requires
        pruning.wf(),
    ensures
        if settings.reclaim_physical && stalled(pruning.reclaimed, pruning.before, after) {
            r matches PruneStep::Helper(run, p) && p == pruning && run.runs(
                "docker"@,
                seq![
                    "run"@,
                    "--rm"@,
                    "--privileged"@,
                    "--pid=host"@,
                    "docker/desktop-reclaim-space"@,
                ],
            )
        } else {
            r matches PruneStep::Done(s) && s == (CommandSummary {
                bytes_freed: match shrunk(pruning.before, after) {
                    Some(n) => n,
                    None => match pruning.reclaimed {
                        Some(n) => n,
                        None => 0,
                    },
                },
                ..pruning.summary
            })
        },
{
    if settings.reclaim_physical && should_run_reclaim_helper(
        pruning.reclaimed,
        pruning.before,
        after,
    ) {
        let run = Invocation::new("docker").arg("run").arg("--rm").arg("--privileged").arg(
            "--pid=host",
        ).arg("docker/desktop-reclaim-space");
        assert(texts(run.args@) =~= seq![
            "run"@,
            "--rm"@,
            "--privileged"@,
            "--pid=host"@,
            "docker/desktop-reclaim-space"@,
        ]);
        PruneStep::Helper(run, pruning)
    } else {
        PruneStep::Done(pruning.finish(after))
    }
}

/// Goes on from the helper: the disk image is measured once more where it worked.
pub fn after_helper(pruning: Pruning, after: Option<u64>, reply: &Reply) -> (r: PruneStep)
    requires
        pruning.wf(),
    ensures
        match *reply {
            Reply::NotStarted(_) => r matches PruneStep::Fail(message) && message@
                == "failed to invoke Docker Desktop reclaim helper"@,
            Reply::Finished(done) => if done.success {
                r matches PruneStep::Remeasure(p) && p == (Pruning {
                    summary: together(pruning.summary, one_ok(0)),
                    ..pruning
                })
            } else {
                r matches PruneStep::Done(s) && s == (CommandSummary {
                    bytes_freed: match shrunk(pruning.before, after) {
                        Some(n) => n,
                        None => match pruning.reclaimed {
                            Some(n) => n,
                            None => 0,
                        },
                    },
                    ..together(pruning.summary, one_failed())
                })
            },
        },
{
    match reply {
        Reply::NotStarted(_) => PruneStep::Fail(
            "failed to invoke Docker Desktop reclaim helper".to_string(),
        ),
        Reply::Finished(done) => {
            let mut summary = pruning.summary;
            if done.success {
                summary.merge(CommandSummary::ok_one());
                PruneStep::Remeasure(
                    Pruning { before: pruning.before, reclaimed: pruning.reclaimed, summary },
                )
            } else {
                summary.merge(CommandSummary::failed_one());
                let last = Pruning {
                    before: pruning.before,
                    reclaimed: pruning.reclaimed,
                    summary,
                };
                PruneStep::Done(last.finish(after))
            }
        },
    }
}

// ---------------------------------------------------------------------------
// What the parts amount to
// ---------------------------------------------------------------------------

/// A row counts with its last word, or with the one before a word that begins
/// with a parenthesis, however many words stand before it. A row of fewer than
/// five words counts nothing.
pub proof fn law_a_row_counts(row: Seq<char>)
    ensures
        ({
            let words = words_of(row);
            let n = words.len() as int;
            &&& n < 5 ==> reclaimable_on(row) is None
            &&& n >= 5 && words[n - 1].len() > 0 && words[n - 1][0] == '(' ==> reclaimable_on(row)
                == size_of_text(words[n - 2])
            &&& n >= 5 && words[n - 1].len() > 0 && words[n - 1][0] != '(' ==> reclaimable_on(row)
                == size_of_text(words[n - 1])
        }),
{
    reveal_strlit("(");
    crate::split::law_trimming_keeps_words(row);
    let words = words_of(row);
    if words.len() >= 5 && words.last().len() > 0 {
        let last = words.last();
        assert(last.take(1) =~= seq![last[0]]);
        assert("("@ =~= seq!['(']);
        assert(starts_with_of(last, "("@) ==> last.take(1)[0] == '(');
    }
}

/// Words put before a row that counts change nothing of what it counts.
pub proof fn law_longer_rows_count_alike(more: Seq<char>, c: char, row: Seq<char>)
    requires
        crate::text::whitespace(c),
        words_of(row).len() >= 5,
    ensures
        reclaimable_on(more + seq![c] + row) == reclaimable_on(row),
{
    let long = more + seq![c] + row;
    crate::split::law_words(more, c, row);
    crate::split::law_trimming_keeps_words(row);
    crate::split::law_trimming_keeps_words(long);
    let (a, b) = (words_of(row), words_of(long));
    assert(b.last() == a.last());
    assert(b[b.len() - 2] == a[a.len() - 2]);
}

/// The total of a table is the sum of its parts, as far as it can be counted;
/// the header line counts nothing, and a table without a size has no total.
pub proof fn law_the_total_is_the_sum(a: Seq<Seq<char>>, b: Seq<Seq<char>>, row: Seq<char>)
    ensures
        reclaimable_in(Seq::empty()) is None,
        reclaimable_in(seq![row]) == reclaimable_on(row),
        match (reclaimable_in(a), reclaimable_in(b)) {
            (Some(x), Some(y)) => reclaimable_in(a + b) == Some(
                if x + y <= u64::MAX {
                    (x + y) as u64
                } else {
                    u64::MAX
                },
            ),
            (Some(x), None) => reclaimable_in(a + b) == Some(x),
            (None, y) => reclaimable_in(a + b) == y,
        },
    decreases b.len(),
{
    reveal_with_fuel(reclaimable_in, 2);
    assert(seq![row].drop_last() =~= Seq::empty());
    if b.len() == 0 {
        assert(a + b =~= a);
    } else {
        assert((a + b).drop_last() =~= a + b.drop_last());
        law_the_total_is_the_sum(a, b.drop_last(), row);
        law_known_sizes_add_up(
            reclaimable_in(a),
            reclaimable_in(b.drop_last()),
            reclaimable_on(b.last()),
        );
    }
}

/// The first line of a table is its header, and only the lines below it count.
pub proof fn law_the_header_counts_nothing(header: Seq<char>, rest: Seq<char>)
    requires
        !header.contains('\n'),
        header.len() == 0 || header.last() != '\r',
    ensures
        reclaimable_total(header + seq!['\n'] + rest) == reclaimable_in(lines_of(rest)),
        reclaimable_total(Seq::empty()) is None,
{
    crate::split::law_lines(header, rest);
    assert((seq![header] + lines_of(rest)).skip(1) =~= lines_of(rest));
}

/// What a prune reclaimed is on the first line that begins with
/// `Total reclaimed space:`; lines before it do not matter, nor does anything
/// behind it.
pub proof fn law_the_first_total_counts(line: Seq<char>, rest: Seq<char>)
    requires
        !line.contains('\n'),
        line.len() == 0 || line.last() != '\r',
    ensures
        starts_with_of(trim_of(line), "Total reclaimed space:"@) ==> total_reclaimed(
            line + seq!['\n'] + rest,
        ) == size_of_text(trim_of(trim_of(line).skip(22))),
        !starts_with_of(trim_of(line), "Total reclaimed space:"@) ==> total_reclaimed(
            line + seq!['\n'] + rest,
        ) == total_reclaimed(rest),
        total_reclaimed(Seq::empty()) is None,
{
    reveal_strlit("Total reclaimed space:");
    crate::split::law_lines(line, rest);
    let all = seq![line] + lines_of(rest);
    assert(all[0] == line);
    assert(all.drop_first() =~= lines_of(rest));
}

/// A prune is forced, limited to what is old enough, spares tagged images unless
/// they are asked for, and never takes volumes.
pub proof fn law_what_a_prune_takes(settings: Settings)
    ensures
        settings.all_images ==> prune_arguments(settings) == seq![
            "system"@,
            "prune"@,
            "--force"@,
            "--all"@,
            "--filter"@,
            "until="@ + decimal_of(settings.hours as nat) + "h"@,
        ],
        !settings.all_images ==> prune_arguments(settings) == seq![
            "system"@,
            "prune"@,
            "--force"@,
            "--filter"@,
            "until="@ + decimal_of(settings.hours as nat) + "h"@,
        ],
{
    let all = prune_arguments(settings);
    let until = "until="@ + decimal_of(settings.hours as nat) + "h"@;
    if settings.all_images {
        assert(all =~= seq!["system"@, "prune"@, "--force"@, "--all"@, "--filter"@, until]);
    } else {
        assert(all =~= seq!["system"@, "prune"@, "--force"@, "--filter"@, until]);
    }
}

/// The helper runs exactly where Docker freed something and the disk image is
/// known to be no smaller; the image is waited for where Docker freed something
/// and there is an image.
pub proof fn law_when_the_helper_runs(
    reclaimed: Option<u64>,
    before: Option<u64>,
    after: Option<u64>,
    pruning: Pruning,
)
    ensures
        stalled(reclaimed, before, after) <==> {
            &&& reclaimed is Some && reclaimed->0 != 0
            &&& before is Some && after is Some && !(after->0 < before->0)
        },
        shrunk(before, after) is Some <==> before is Some && after is Some,
        pruning.waits() <==> pruning.before is Some && pruning.reclaimed is Some
            && pruning.reclaimed->0 != 0,
{
}

/// A prune that fails reclaimed nothing that is known, and one that works
/// reclaimed what its output says.
pub proof fn law_what_a_prune_reports(done: Finished)
    ensures
        done.success ==> pruned(done).reclaimed == total_reclaimed(lossy_text(done.stdout@))
            && pruned(done).summary == summary(0, 1, 0, 0),
        !done.success ==> pruned(done).reclaimed is None && pruned(done).summary == summary(
            0,
            0,
            1,
            0,
        ),
{
}

/// What is taken where nothing is given: thirty days, the whole system, tagged
/// images too, no volumes, and the helper where it is needed.
pub proof fn law_docker_defaults()
    ensures
        DEFAULT_HOURS == 30 * 24,
        DEFAULT_SCOPE@ == "system"@,
        DEFAULT_ALL_IMAGES,
        !DEFAULT_VOLUMES,
        DEFAULT_RECLAIM_PHYSICAL,
        DEFAULT_DISK_IMAGE@
            == "~/Library/Containers/com.docker.docker/Data/vms/0/data/Docker.raw"@,
        AUTOMATIC_RECLAIM_WAIT == 5,
        HELPER_RECLAIM_WAIT == 2,
{
}

/// What [`parse_reclaimable_total`] reads of a table of a header and one row: the
/// size that the row ends in, before a word in parentheses if there is one.
pub proof fn law_parse_reclaimable_total(output: &str, header: Seq<char>, row: Seq<char>, r: Option<
    u64,
>)
    requires
        call_ensures(parse_reclaimable_total, (output,), r),
        output@ == header + seq!['\n'] + row,
        !header.contains('\n') && (header.len() == 0 || header.last() != '\r'),
        row.len() > 0 && !row.contains('\n'),
        words_of(row).len() >= 5,
        words_of(row).last().len() > 0,
    ensures
        words_of(row).last()[0] == '(' ==> r == size_of_text(words_of(row)[words_of(row).len() - 2]),
        words_of(row).last()[0] != '(' ==> r == size_of_text(words_of(row).last()),
{
    law_the_header_counts_nothing(header, row);
    crate::split::law_lines(row, row);
    law_the_total_is_the_sum(Seq::empty(), Seq::empty(), row);
    law_a_row_counts(row);
}

/// A dry run never prunes, nor does a scope that is not supported.
pub proof fn law_after_daemon(reply: Reply, settings: Settings, dry_run: bool, r: Start)
    requires
        call_ensures(after_daemon, (&reply, &settings, dry_run), r),
    ensures
        r is Prune <==> succeeded(reply) && settings.scope@ == "system"@ && !dry_run,
        r is Estimate <==> succeeded(reply) && settings.scope@ == "system"@ && dry_run,
        r matches Start::Done(s) ==> s.bytes_freed == 0 && s.items_ok == 0,
{
}

/// Each setting is the argument's, else the configured one, else its default.
pub proof fn law_resolve_settings(args: Args, cfg: CleanDockerConfig, home: Option<String>, r: Settings)
    requires
        call_ensures(resolve_settings, (&args, &cfg, &home), r),
    ensures
        args.hours is Some ==> r.hours == args.hours->0,
        args.hours is None && cfg.hours is Some ==> r.hours == cfg.hours->0,
        args.hours is None && cfg.hours is None ==> r.hours == 720,
        args.scope is Some ==> r.scope@ == args.scope->0@,
        args.scope is None && cfg.scope is Some ==> r.scope@ == cfg.scope->0@,
        args.scope is None && cfg.scope is None ==> r.scope@ == "system"@,
        args.all_images is Some ==> r.all_images == args.all_images->0,
        args.all_images is None && cfg.all_images is Some ==> r.all_images == cfg.all_images->0,
        args.all_images is None && cfg.all_images is None ==> r.all_images == true,
        args.volumes is Some ==> r.volumes == args.volumes->0,
        args.volumes is None && cfg.volumes is Some ==> r.volumes == cfg.volumes->0,
        args.volumes is None && cfg.volumes is None ==> r.volumes == false,
        args.reclaim_physical is Some ==> r.reclaim_physical == args.reclaim_physical->0,
        args.reclaim_physical is None && cfg.reclaim_physical is Some ==> r.reclaim_physical == cfg.reclaim_physical->0,
        args.reclaim_physical is None && cfg.reclaim_physical is None ==> r.reclaim_physical == true,
        args.disk_image is Some ==> r.disk_image@ == expanded(args.disk_image->0@, opt_text(home)),
        args.disk_image is None && cfg.disk_image is Some ==> r.disk_image@ == expanded(cfg.disk_image->0@, opt_text(home)),
        args.disk_image is None && cfg.disk_image is None ==> r.disk_image@ == expanded("~/Library/Containers/com.docker.docker/Data/vms/0/data/Docker.raw"@, opt_text(home)),
{
}

} // verus!
