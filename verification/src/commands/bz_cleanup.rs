//! Deletes the old bookkeeping files of the Backblaze client.
use super::{nothing, summary, CommandSummary};
use crate::bytes::utf8_text;
use crate::config::{choose_path, choose_text, choose_u32, chosen, chosen_path, BzCleanupConfig};
use crate::number::{decimal, decimal_of, number_of, parse_u64};
use crate::path::{is_same_path, same_path};
use crate::process::{complaint, complaint_of, Finished, Invocation, Reply};
use crate::sizes::{format_bytes, human_size};
use crate::split::{lines, lines_of};
use crate::text::{opt_text, texts, trim, trim_of};
use crate::ui::char_count;
use vstd::prelude::*;
use vstd::utf8::{decode_utf8, valid_utf8};

verus! {

pub const DEFAULT_DIR: &'static str = "/Library/Backblaze.bzpkg/bzdata/bzbackup/bzdatacenter";

pub const DEFAULT_DAYS: u32 = 60;

pub const DEFAULT_PATTERN: &'static str = "bz_done_*.dat";

pub const DEFAULT_USE_SUDO: bool = true;

pub const HELPER_PATH: &'static str = "/usr/local/bin/backup-bz-cleanup-helper";

#[derive(Debug, Default)]
pub struct Args {
    /// Delete files older than this many days.
    pub days: Option<u32>,
    /// The directory that holds the files.
    pub dir: Option<String>,
    /// The pattern that the names of the files match.
    pub pattern: Option<String>,
    /// Do not use sudo.
    pub no_sudo: bool,
}

/// What the command works on.
#[derive(Debug)]
pub struct Settings {
    pub days: u32,
    pub dir: String,
    pub pattern: String,
    pub use_sudo: bool,
}

pub fn resolve_settings(args: &Args, cfg: &BzCleanupConfig, home: &Option<String>) -> (r: Settings)
    ensures
        r.days == chosen(args.days, cfg.days, DEFAULT_DAYS),
        r.dir@ == chosen_path(
            opt_text(args.dir),
            opt_text(cfg.dir),
            DEFAULT_DIR@,
            opt_text(*home),
        ),
        r.pattern@ == chosen(opt_text(args.pattern), opt_text(cfg.pattern), DEFAULT_PATTERN@),
        r.use_sudo == (!args.no_sudo && cfg.use_sudo != Some(false)),
{
    let use_sudo = if args.no_sudo {
        false
    } else {
        match cfg.use_sudo {
            Some(v) => v,
            None => DEFAULT_USE_SUDO,
        }
    };
    Settings {
        days: choose_u32(args.days, cfg.days, DEFAULT_DAYS),
        dir: choose_path(&args.dir, &cfg.dir, DEFAULT_DIR, home),
        pattern: choose_text(&args.pattern, &cfg.pattern, DEFAULT_PATTERN),
        use_sudo,
    }
}

/// The directory has to be there.
pub fn check_dir(settings: &Settings, there: bool) -> (r: Result<(), String>)
    ensures
        match r {
            Ok(_) => there,
            Err(message) => !there && message@ == "directory does not exist: "@ + settings.dir@,
        },
{
    if there {
        return Ok(());
    }
    let mut message = "directory does not exist: ".to_string();
    message.append(settings.dir.as_str());
    Err(message)
}

/// How files are looked for and deleted.
#[derive(Debug, Clone, Copy, PartialEq, Eq, Structural)]
pub enum ExecMode {
    /// Through the helper, which needs no password.
    Helper,
    /// With `find` under sudo, which asks for a password.
    DirectSudo,
    /// With `find` alone.
    NoSudo,
}

impl ExecMode {
    /// The helper is used where it is installed and the directory is the one that
    /// it is made for.
    pub fn resolve(use_sudo: bool, configured_dir: &str, helper_exists: bool) -> (r: Self)
        ensures
            r == if !use_sudo {
                ExecMode::NoSudo
            } else if helper_exists && same_path(configured_dir@, DEFAULT_DIR@) {
                ExecMode::Helper
            } else {
                ExecMode::DirectSudo
            },
    {
        if !use_sudo {
            return Self::NoSudo;
        }
        if helper_exists && is_same_path(configured_dir, DEFAULT_DIR) {
            return Self::Helper;
        }
        Self::DirectSudo
    }

    /// Whether a password is asked for before the command begins.
    pub fn primes_sudo(self) -> (r: bool)
        ensures
            r == (self == ExecMode::DirectSudo),
    {
        match self {
            ExecMode::DirectSudo => true,
            _ => false,
        }
    }
}

/// The question that has sudo ask for a password.
pub fn prime_sudo() -> (r: Invocation)
    ensures
        r.runs("sudo"@, seq!["-v"@]),
{
    let r = Invocation::new("sudo").arg("-v");
    assert(texts(r.args@) =~= seq!["-v"@]);
    r
}

/// The arguments of `find`: the files directly in the directory that match and
/// are old enough, which it deletes or prints the sizes of.
pub open spec fn find_arguments(dir: Seq<char>, days: u32, pattern: Seq<char>, delete: bool) -> Seq<
    Seq<char>,
> {
    seq![
        dir,
        "-maxdepth"@,
        "1"@,
        "-name"@,
        pattern,
        "-mtime"@,
        "+"@ + decimal_of(days as nat),
    ] + if delete {
        seq!["-delete"@]
    } else {
        seq!["-exec"@, "stat"@, "-f"@, "%z"@, "{}"@, "+"@]
    }
}

pub fn find_args(dir: &str, days: u32, pattern: &str, delete: bool) -> (r: Vec<String>)
    ensures
        texts(r@) == find_arguments(dir@, days, pattern@, delete),
{
    let mut age = "+".to_string();
    age.append(decimal(days as u64).as_str());
    let mut args: Vec<String> = vec![
        dir.to_owned(),
        "-maxdepth".to_string(),
        "1".to_string(),
        "-name".to_string(),
        pattern.to_owned(),
        "-mtime".to_string(),
        age,
    ];
    if delete {
        args.push("-delete".to_string());
    } else {
        args.push("-exec".to_string());
        args.push("stat".to_string());
        args.push("-f".to_string());
        args.push("%z".to_string());
        args.push("{}".to_string());
        args.push("+".to_string());
    }
    assert(texts(args@) =~= find_arguments(dir@, days, pattern@, delete));
    args
}

/// How the helper is run.
pub open spec fn helper_arguments(verb: Seq<char>, pattern: Seq<char>, days: u32) -> Seq<Seq<char>> {
    seq!["-n"@, HELPER_PATH@, verb, pattern, decimal_of(days as nat)]
}

/// The run that looks for files, or deletes them.
pub open spec fn work_runs(run: Invocation, settings: Settings, mode: ExecMode, delete: bool) -> bool {
    match mode {
        ExecMode::Helper => run.runs(
            "sudo"@,
            helper_arguments(
                if delete {
                    "delete"@
                } else {
                    "scan"@
                },
                settings.pattern@,
                settings.days,
            ),
        ),
        ExecMode::DirectSudo => run.runs(
            "sudo"@,
            seq!["find"@] + find_arguments(
                settings.dir@,
                settings.days,
                settings.pattern@,
                delete,
            ),
        ),
        ExecMode::NoSudo => run.runs(
            "find"@,
            find_arguments(settings.dir@, settings.days, settings.pattern@, delete),
        ),
    }
}

fn work(settings: &Settings, mode: ExecMode, delete: bool) -> (r: Invocation)
    ensures
        work_runs(r, *settings, mode, delete),
{
    match mode {
        ExecMode::Helper => {
            let verb = if delete {
                "delete"
            } else {
                "scan"
            };
            let r = Invocation::new("sudo").arg("-n").arg(HELPER_PATH).arg(verb).arg(
                settings.pattern.as_str(),
            ).arg(decimal(settings.days as u64).as_str());
            assert(texts(r.args@) =~= helper_arguments(verb@, settings.pattern@, settings.days));
            r
        },
        ExecMode::DirectSudo => {
            let args = find_args(
                settings.dir.as_str(),
                settings.days,
                settings.pattern.as_str(),
                delete,
            );
            let r = Invocation::new("sudo").arg("find").with_args(&args);
            assert(texts(r.args@) =~= seq!["find"@] + texts(args@));
            r
        },
        ExecMode::NoSudo => {
            let args = find_args(
                settings.dir.as_str(),
                settings.days,
                settings.pattern.as_str(),
                delete,
            );
            let r = Invocation::new("find").with_args(&args);
            assert(texts(r.args@) =~= texts(args@));
            r
        },
    }
}

/// How files are looked for.
pub fn scan_invocation(settings: &Settings, mode: ExecMode) -> (r: Invocation)
    ensures
        work_runs(r, *settings, mode, false),
{
    work(settings, mode, false)
}

/// What is said where the run could not be started.
pub open spec fn not_started(mode: ExecMode, delete: bool) -> Seq<char> {
    match mode {
        ExecMode::Helper => "failed to invoke bz-cleanup helper via sudo"@,
        ExecMode::DirectSudo => if delete {
            "failed to invoke sudo find -delete"@
        } else {
            "failed to invoke sudo find"@
        },
        ExecMode::NoSudo => if delete {
            "failed to invoke find -delete"@
        } else {
            "failed to invoke find"@
        },
    }
}

fn not_started_message(mode: ExecMode, delete: bool) -> (r: String)
    ensures
        r@ == not_started(mode, delete),
{
    match mode {
        ExecMode::Helper => "failed to invoke bz-cleanup helper via sudo".to_string(),
        ExecMode::DirectSudo => {
            if delete {
                "failed to invoke sudo find -delete".to_string()
            } else {
                "failed to invoke sudo find".to_string()
            }
        },
        ExecMode::NoSudo => {
            if delete {
                "failed to invoke find -delete".to_string()
            } else {
                "failed to invoke find".to_string()
            }
        },
    }
}

// ---------------------------------------------------------------------------
// What was found
// ---------------------------------------------------------------------------

/// The files that match: how many, and their bytes.
#[derive(Debug, Clone, Copy, PartialEq, Eq, Structural)]
pub struct ScanResult {
    pub count: u64,
    pub bytes: u64,
}

/// Why a scan gave nothing to work with.
#[derive(Debug)]
pub enum ScanError {
    Failed(String),
    /// The sizes are no UTF-8.
    NotText,
    /// A line is no size.
    Unexpected(String),
}

/// Sizes, one on each line that is not blank: their number and sum, or the first
/// line that is none.
pub open spec fn sizes_in(list: Seq<Seq<char>>) -> Result<(nat, nat), Seq<char>>
    decreases list.len(),
{
    if list.len() == 0 {
        Ok((0, 0))
    } else {
        match sizes_in(list.drop_last()) {
            Err(line) => Err(line),
            Ok((count, bytes)) => {
                let line = trim_of(list.last());
                if line.len() == 0 {
                    Ok((count, bytes))
                } else {
                    match number_of(line) {
                        Some(n) if n <= u64::MAX => Ok((count + 1, bytes + n)),
                        _ => Err(line),
                    }
                }
            },
        }
    }
}

/// Every sum on the way fits.
pub open spec fn sizes_fit(list: Seq<Seq<char>>) -> bool {
    forall|k: int|
        0 <= k <= list.len() ==> (#[trigger] sizes_in(list.take(k)) matches Ok((count, bytes))
            ==> bytes <= u64::MAX)
}

proof fn lemma_sizes_stay_bad(list: Seq<Seq<char>>, k: int)
    requires
        0 <= k <= list.len(),
        sizes_in(list.take(k)) is Err,
    ensures
        sizes_in(list) == sizes_in(list.take(k)),
    decreases list.len() - k,
{
    if k < list.len() {
        assert(list.take(k + 1).drop_last() =~= list.take(k));
        lemma_sizes_stay_bad(list, k + 1);
    } else {
        assert(list.take(k) =~= list);
    }
}

/// Whether the sizes of a scan can be added up. Text that is no UTF-8 has none.
pub fn scan_fits(stdout: &Vec<u8>) -> (r: bool)
    ensures
        r == (valid_utf8(stdout@) ==> sizes_fit(lines_of(decode_utf8(stdout@)))),
{
    let text = match utf8_text(stdout) {
        Some(text) => text,
        None => {
            return true;
        },
    };
    let list = lines(text.as_str());
    let ghost all = texts(list@);
    let mut bytes: u64 = 0;
    let mut count: u64 = 0;
    let mut i: usize = 0;
    assert(all.take(0) =~= Seq::<Seq<char>>::empty());
    let total = list.len();
    while i < list.len()
        invariant
            i <= list@.len(),
            count <= i,
            total == list@.len(),
            all == texts(list@),
            valid_utf8(stdout@),
            all == lines_of(decode_utf8(stdout@)),
            sizes_in(all.take(i as int)) == Ok::<(nat, nat), Seq<char>>(
                (count as nat, bytes as nat),
            ),
            forall|k: int|
                0 <= k <= i ==> (#[trigger] sizes_in(all.take(k)) matches Ok((c, b)) ==> b
                    <= u64::MAX),
        decreases list@.len() - i,
    {
        let line = trim(list[i].as_str());
        proof {
            assert(all.take(i as int + 1).drop_last() =~= all.take(i as int));
            assert(all.take(i as int + 1).last() == list@[i as int]@);
        }
        if char_count(line.as_str()) > 0 {
            match parse_u64(line.as_str()) {
                Some(n) => {
                    if n > u64::MAX - bytes {
                        assert(sizes_in(all.take(i as int + 1)) == Ok::<(nat, nat), Seq<char>>(
                            ((count + 1) as nat, (bytes + n) as nat),
                        ));
                        return false;
                    }
                    bytes = bytes + n;
                    count = count + 1;
                },
                None => {
                    proof {
                        assert(sizes_in(all.take(i as int + 1)) is Err);
                        assert forall|k: int| 0 <= k <= all.len() implies (
                        #[trigger] sizes_in(all.take(k)) matches Ok((c, b)) ==> b <= u64::MAX) by {
                            if k > i {
                                assert(all.take(k).take(i as int + 1) =~= all.take(i as int + 1));
                                lemma_sizes_stay_bad(all.take(k), i as int + 1);
                            }
                        }
                    }
                    return true;
                },
            }
        }
        i = i + 1;
    }
    true
}

/// Reads the sizes that a scan printed, one on each line.
pub fn parse_scan(stdout: &Vec<u8>) -> (r: Result<ScanResult, ScanError>)
    requires
        valid_utf8(stdout@) ==> sizes_fit(lines_of(decode_utf8(stdout@))),
    ensures
        if !valid_utf8(stdout@) {
            r matches Err(ScanError::NotText)
        } else {
            match sizes_in(lines_of(decode_utf8(stdout@))) {
                Ok((count, bytes)) => r matches Ok(scan) && scan.count == count && scan.bytes
                    == bytes,
                Err(line) => r matches Err(ScanError::Unexpected(l)) && l@ == line,
            }
        },
{
    let text = match utf8_text(stdout) {
        Some(text) => text,
        None => {
            return Err(ScanError::NotText);
        },
    };
    let list = lines(text.as_str());
    let ghost all = texts(list@);
    let mut bytes: u64 = 0;
    let mut count: u64 = 0;
    let mut i: usize = 0;
    let total = list.len();
    assert(all.take(0) =~= Seq::<Seq<char>>::empty());
    while i < list.len()
        invariant
            i <= list@.len(),
            count <= i,
            total == list@.len(),
            all == texts(list@),
            valid_utf8(stdout@),
            all == lines_of(decode_utf8(stdout@)),
            sizes_fit(all),
            sizes_in(all.take(i as int)) == Ok::<(nat, nat), Seq<char>>(
                (count as nat, bytes as nat),
            ),
        decreases list@.len() - i,
    {
        let line = trim(list[i].as_str());
        proof {
            assert(all.take(i as int + 1).drop_last() =~= all.take(i as int));
            assert(all.take(i as int + 1).last() == list@[i as int]@);
            assert(sizes_in(all.take(i as int + 1)) matches Ok((c, b)) ==> b <= u64::MAX);
        }
        if char_count(line.as_str()) > 0 {
            match parse_u64(line.as_str()) {
                Some(n) => {
                    bytes = bytes + n;
                    count = count + 1;
                },
                None => {
                    proof {
                        lemma_sizes_stay_bad(all, i as int + 1);
                    }
                    return Err(ScanError::Unexpected(line));
                },
            }
        }
        i = i + 1;
    }
    assert(all.take(all.len() as int) =~= all);
    Ok(ScanResult { count, bytes })
}

/// Goes on from the reply to a scan.
pub fn scan(reply: &Reply, mode: ExecMode) -> (r: Result<ScanResult, ScanError>)
    requires
        reply matches Reply::Finished(done) ==> valid_utf8(done.stdout@) ==> sizes_fit(
            lines_of(decode_utf8(done.stdout@)),
        ),
    ensures
        match *reply {
            Reply::NotStarted(_) => r matches Err(ScanError::Failed(message)) && message@
                == not_started(mode, false),
            Reply::Finished(done) => if !done.success {
                r matches Err(ScanError::Failed(message)) && message@ == "scan failed ("@
                    + done.status@ + "): "@ + complaint(done)
            } else if !valid_utf8(done.stdout@) {
                r matches Err(ScanError::NotText)
            } else {
                match sizes_in(lines_of(decode_utf8(done.stdout@))) {
                    Ok((count, bytes)) => r matches Ok(found) && found.count == count
                        && found.bytes == bytes,
                    Err(line) => r matches Err(ScanError::Unexpected(l)) && l@ == line,
                }
            },
        },
{
    match reply {
        Reply::NotStarted(_) => Err(ScanError::Failed(not_started_message(mode, false))),
        Reply::Finished(done) => {
            if !done.success {
                let mut message = "scan failed (".to_string();
                message.append(done.status.as_str());
                message.append("): ");
                message.append(complaint_of(done).as_str());
                return Err(ScanError::Failed(message));
            }
            parse_scan(&done.stdout)
        },
    }
}

/// What is done with the files that were found.
#[derive(Debug)]
pub enum Plan {
    /// There are none, or the run is a dry run: the command is done, with what it
    /// says.
    Done(CommandSummary, String),
    Delete(Invocation),
}

/// Decides what is done. A dry run deletes nothing.
pub fn decide(found: ScanResult, settings: &Settings, mode: ExecMode, dry_run: bool) -> (r: Plan)
    ensures
        if found.count == 0 {
            r matches Plan::Done(s, text) && s == nothing() && text@ == "nothing to delete"@
        } else if dry_run {
            r matches Plan::Done(s, text) && s == summary(found.bytes, found.count, 0, 0) && text@
                == "dry run: would delete "@ + decimal_of(found.count as nat) + " files ("@
                + human_size(found.bytes) + ")"@
        } else {
            r matches Plan::Delete(run) && work_runs(run, *settings, mode, true)
        },
        r is Delete ==> !dry_run,
{
    if found.count == 0 {
        return Plan::Done(CommandSummary::default(), "nothing to delete".to_string());
    }
    if dry_run {
        let mut text = "dry run: would delete ".to_string();
        text.append(decimal(found.count).as_str());
        text.append(" files (");
        text.append(format_bytes(found.bytes).as_str());
        text.append(")");
        let done = CommandSummary {
            bytes_freed: found.bytes,
            items_ok: found.count,
            items_failed: 0,
            items_skipped: 0,
        };
        return Plan::Done(done, text);
    }
    Plan::Delete(work(settings, mode, true))
}

/// Closes the command from the reply to the deletion: every file counts.
pub fn delete(reply: &Reply, found: ScanResult, mode: ExecMode) -> (r: Result<CommandSummary, String>)
    ensures
        match *reply {
            Reply::NotStarted(_) => r matches Err(message) && message@ == not_started(mode, true),
            Reply::Finished(done) => if done.success {
                r matches Ok(s) && s == summary(found.bytes, found.count, 0, 0)
            } else {
                r matches Err(message) && message@ == "find -delete failed: "@ + done.status@
            },
        },
{
    match reply {
        Reply::NotStarted(_) => Err(not_started_message(mode, true)),
        Reply::Finished(done) => {
            if done.success {
                Ok(
                    CommandSummary {
                        bytes_freed: found.bytes,
                        items_ok: found.count,
                        items_failed: 0,
                        items_skipped: 0,
                    },
                )
            } else {
                let mut message = "find -delete failed: ".to_string();
                message.append(done.status.as_str());
                Err(message)
            }
        },
    }
}

/// Each setting is the argument's, else the configured one, else its default.
pub proof fn law_resolve_settings(args: Args, cfg: BzCleanupConfig, home: Option<String>, r: Settings)
    requires
        call_ensures(resolve_settings, (&args, &cfg, &home), r),
    ensures
        args.days is Some ==> r.days == args.days->0,
        args.days is None && cfg.days is Some ==> r.days == cfg.days->0,
        args.days is None && cfg.days is None ==> r.days == 60,
        args.dir is Some ==> r.dir@ == crate::config::expanded(args.dir->0@, opt_text(home)),
        args.dir is None && cfg.dir is Some ==> r.dir@ == crate::config::expanded(cfg.dir->0@, opt_text(home)),
        args.dir is None && cfg.dir is None ==> r.dir@ == "/Library/Backblaze.bzpkg/bzdata/bzbackup/bzdatacenter"@,
        args.pattern is Some ==> r.pattern@ == args.pattern->0@,
        args.pattern is None && cfg.pattern is Some ==> r.pattern@ == cfg.pattern->0@,
        args.pattern is None && cfg.pattern is None ==> r.pattern@ == "bz_done_*.dat"@,
        r.use_sudo <==> !args.no_sudo && !(cfg.use_sudo == Some(false)),
{
}

/// A blank line of a scan counts nothing, one with a number one file of so many
/// bytes, and one with anything else makes the scan fail with it; once it fails,
/// it stays so.
pub proof fn law_scanned_sizes(list: Seq<Seq<char>>, line: Seq<char>, n: nat)
    ensures
        sizes_in(Seq::empty()) == Ok::<(nat, nat), Seq<char>>((0, 0)),
        sizes_in(list) is Err ==> sizes_in(list.push(line)) == sizes_in(list),
        sizes_in(list) matches Ok((count, bytes)) ==> {
            &&& trim_of(line).len() == 0 ==> sizes_in(list.push(line)) == sizes_in(list)
            &&& trim_of(line) == decimal_of(n) && n <= u64::MAX ==> sizes_in(list.push(line)) == Ok::<
                (nat, nat),
                Seq<char>,
            >((count + 1, bytes + n))
            &&& trim_of(line).len() > 0 && number_of(trim_of(line)) is None ==> sizes_in(
                list.push(line),
            ) == Err::<(nat, nat), Seq<char>>(trim_of(line))
        },
{
    assert(list.push(line).drop_last() =~= list);
    crate::number::law_decimal_reads_back(n);
    crate::number::lemma_decimal(n);
}

/// The helper is used exactly where sudo is, the helper is installed, and the
/// directory is the one that it is made for.
pub proof fn law_mode(use_sudo: bool, configured_dir: &str, helper_exists: bool, r: ExecMode)
    requires
        call_ensures(ExecMode::resolve, (use_sudo, configured_dir, helper_exists), r),
    ensures
        r == ExecMode::NoSudo <==> !use_sudo,
        r == ExecMode::Helper <==> use_sudo && helper_exists && crate::path::components_of(
            configured_dir@,
        ) == crate::path::components_of(
            "/Library/Backblaze.bzpkg/bzdata/bzbackup/bzdatacenter"@,
        ),
{
}

/// A password is asked for exactly where `find` is run under sudo.
pub proof fn law_primes_sudo(mode: ExecMode, r: bool)
    requires
        call_ensures(ExecMode::primes_sudo, (mode,), r),
    ensures
        r <==> mode == ExecMode::DirectSudo,
{
}

/// `find` looks only directly in the directory, only at names that match, and
/// only at files that are older than so many days.
pub proof fn law_find_args(dir: &str, days: u32, pattern: &str, delete: bool, r: Vec<String>)
    requires
        call_ensures(find_args, (dir, days, pattern, delete), r),
    ensures
        delete ==> texts(r@) == seq![
            dir@,
            "-maxdepth"@,
            "1"@,
            "-name"@,
            pattern@,
            "-mtime"@,
            "+"@ + decimal_of(days as nat),
            "-delete"@,
        ],
        !delete ==> texts(r@) == seq![
            dir@,
            "-maxdepth"@,
            "1"@,
            "-name"@,
            pattern@,
            "-mtime"@,
            "+"@ + decimal_of(days as nat),
            "-exec"@,
            "stat"@,
            "-f"@,
            "%z"@,
            "{}"@,
            "+"@,
        ],
{
}

/// Files are deleted exactly where some were found in a run that is no dry run,
/// the way they were looked for.
pub proof fn law_decide(
    found: ScanResult,
    settings: Settings,
    mode: ExecMode,
    dry_run: bool,
    r: Plan,
    scan: Invocation,
)
    requires
        call_ensures(decide, (found, &settings, mode, dry_run), r),
        call_ensures(scan_invocation, (&settings, mode), scan),
    ensures
        r is Delete <==> found.count > 0 && !dry_run,
        r is Delete ==> r->Delete_0.program@ == scan.program@,
        r is Done ==> r->Done_0.items_ok == found.count && r->Done_0.items_failed == 0,
        r is Done && found.count > 0 ==> r->Done_0.bytes_freed == found.bytes,
        mode == ExecMode::NoSudo ==> scan.program@ == "find"@,
        mode != ExecMode::NoSudo ==> scan.program@ == "sudo"@,
        mode == ExecMode::Helper ==> texts(scan.args@) == seq![
            "-n"@,
            "/usr/local/bin/backup-bz-cleanup-helper"@,
            "scan"@,
            settings.pattern@,
            decimal_of(settings.days as nat),
        ],
        mode == ExecMode::Helper && r is Delete ==> texts(r->Delete_0.args@) == seq![
            "-n"@,
            "/usr/local/bin/backup-bz-cleanup-helper"@,
            "delete"@,
            settings.pattern@,
            decimal_of(settings.days as nat),
        ],
        mode == ExecMode::DirectSudo ==> texts(scan.args@) == seq!["find"@] + find_arguments(
            settings.dir@,
            settings.days,
            settings.pattern@,
            false,
        ),
        mode == ExecMode::DirectSudo && r is Delete ==> texts(r->Delete_0.args@) == seq!["find"@]
            + find_arguments(settings.dir@, settings.days, settings.pattern@, true),
        mode == ExecMode::NoSudo ==> texts(scan.args@) == find_arguments(
            settings.dir@,
            settings.days,
            settings.pattern@,
            false,
        ),
        mode == ExecMode::NoSudo && r is Delete ==> texts(r->Delete_0.args@) == find_arguments(
            settings.dir@,
            settings.days,
            settings.pattern@,
            true,
        ),
{
}

/// A deletion that went well counts every file that was found.
pub proof fn law_delete(
    reply: Reply,
    found: ScanResult,
    mode: ExecMode,
    r: Result<CommandSummary, String>,
)
    requires
        call_ensures(delete, (&reply, found, mode), r),
    ensures
        r is Ok <==> reply is Finished && reply->Finished_0.success,
        r matches Ok(s) ==> s.items_ok == found.count && s.bytes_freed == found.bytes
            && s.items_failed == 0 && s.items_skipped == 0,
{
}

} // verus!
