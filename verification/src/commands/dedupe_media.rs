//! Replaces duplicate media files by hard links.
use super::{one_failed, one_ok, one_skipped, summary, together, CommandSummary};
use crate::config::{
    all_expanded, choose_path, chosen_path, default_home_path, expand_tildes, home_path,
    DedupeMediaConfig,
};
use crate::process::{ran_well, succeeded, Invocation, Next, Reply};
use crate::text::{contains_text, lemma_texts_push, opt_text, opt_texts, texts};
use vstd::prelude::*;

verus! {

/// The extensions of the files that are compared.
pub const MEDIA_EXTENSION_FILTER: &'static str =
    "--ext-filter=onlyext:mp4,mov,m4v,webm,mkv,avi,mpeg,mpg,m2ts,flv,wmv,3gp,heic,heif,avif,jpg,jpeg,png,gif,webp,tiff,tif,rw2,dng,cr2,cr3,nef,arw,orf,m4a,mp3,aac,flac,wav,ogg,opus";

#[derive(Debug, Default)]
pub struct Args {
    /// The directory of pictures.
    pub pictures_dir: Option<String>,
    /// The directories of downloads.
    pub yt_dlp_dirs: Vec<String>,
}

/// The directory of pictures.
pub fn resolve_pictures_dir(cli: &Option<String>, configured: &Option<String>, home: &Option<String>) -> (r:
    String)
    ensures
        r@ == chosen_path(
            opt_text(*cli),
            opt_text(*configured),
            home_path(opt_text(*home), "Pictures/iMessage"@),
            opt_text(*home),
        ),
{
    let fallback = default_home_path(home, "Pictures/iMessage");
    choose_path(cli, configured, fallback.as_str(), home)
}

/// The directories of downloads: those of the command line, else the configured
/// ones, else the default ones. An empty list counts as not given.
pub open spec fn download_dirs(
    cli: Seq<Seq<char>>,
    configured: Option<Seq<Seq<char>>>,
    home: Option<Seq<char>>,
) -> Seq<Seq<char>> {
    if cli.len() > 0 {
        all_expanded(cli, home)
    } else if configured is Some && configured->0.len() > 0 {
        all_expanded(configured->0, home)
    } else {
        seq![home_path(home, "Documents/yt-dlp"@), home_path(home, "Desktop/yt-dlp-from-Factorio2"@)]
    }
}

pub fn resolve_yt_dlp_dirs(
    cli: &Vec<String>,
    configured: &Option<Vec<String>>,
    home: &Option<String>,
) -> (r: Vec<String>)
    ensures
        texts(r@) == download_dirs(texts(cli@), opt_texts(*configured), opt_text(*home)),
{
    assert(texts(cli@).len() == cli@.len());
    if cli.len() > 0 {
        return expand_tildes(cli, home);
    }
    if let Some(list) = configured {
        assert(texts(list@).len() == list@.len());
        if list.len() > 0 {
            return expand_tildes(list, home);
        }
    }
    let out: Vec<String> = vec![
        default_home_path(home, "Documents/yt-dlp"),
        default_home_path(home, "Desktop/yt-dlp-from-Factorio2"),
    ];
    assert(texts(out@) =~= download_dirs(texts(cli@), opt_texts(*configured), opt_text(*home)));
    out
}

/// The question whether jdupes is installed.
pub fn ask_jdupes() -> (r: Invocation)
    ensures
        r.runs("jdupes"@, seq!["--version"@]),
{
    let r = Invocation::new("jdupes").arg("--version");
    assert(texts(r.args@) =~= seq!["--version"@]);
    r
}

/// Every directory that the command would compare: the pictures, then the
/// downloads.
pub open spec fn wanted_of(pictures: Seq<char>, downloads: Seq<Seq<char>>) -> Seq<Seq<char>> {
    seq![pictures] + downloads
}

pub fn wanted(args: &Args, cfg: &DedupeMediaConfig, home: &Option<String>) -> (r: Vec<String>)
    ensures
        texts(r@) == wanted_of(
            chosen_path(
                opt_text(args.pictures_dir),
                opt_text(cfg.pictures_dir),
                home_path(opt_text(*home), "Pictures/iMessage"@),
                opt_text(*home),
            ),
            download_dirs(texts(args.yt_dlp_dirs@), opt_texts(cfg.yt_dlp_dirs), opt_text(*home)),
        ),
{
    let mut out: Vec<String> = Vec::new();
    out.push(resolve_pictures_dir(&args.pictures_dir, &cfg.pictures_dir, home));
    let mut more = resolve_yt_dlp_dirs(&args.yt_dlp_dirs, &cfg.yt_dlp_dirs, home);
    let ghost before = out@;
    let ghost added = more@;
    out.append(&mut more);
    assert(texts(out@) =~= texts(before) + texts(added));
    assert(texts(before) =~= seq![before[0]@]);
    out
}

/// The directories that there are.
pub open spec fn present(wanted: Seq<Seq<char>>, dirs: Seq<Seq<char>>) -> Seq<Seq<char>>
    decreases wanted.len(),
{
    if wanted.len() == 0 {
        seq![]
    } else {
        let before = present(wanted.drop_last(), dirs);
        if dirs.contains(wanted.last()) {
            before.push(wanted.last())
        } else {
            before
        }
    }
}

/// The directories to compare, and what is recorded of those that are missing.
#[derive(Debug)]
pub struct Survey {
    pub roots: Vec<String>,
    pub skipped: CommandSummary,
}

/// Sorts out which directories there are. Each that is missing counts as skipped.
pub fn survey(wanted: &Vec<String>, dirs: &Vec<String>) -> (r: Survey)
    ensures
        texts(r.roots@) == present(texts(wanted@), texts(dirs@)),
        r.roots@.len() <= wanted@.len() <= u64::MAX,
        r.skipped == summary(0, 0, 0, (wanted@.len() - r.roots@.len()) as u64),
{
    let ghost all = texts(wanted@);
    let ghost there = texts(dirs@);
    let mut roots: Vec<String> = Vec::new();
    let mut i: usize = 0;
    assert(all.take(0) =~= Seq::<Seq<char>>::empty());
    assert(texts(roots@) =~= present(all.take(0), there));
    while i < wanted.len()
        invariant
            i <= wanted@.len(),
            roots@.len() <= i,
            all == texts(wanted@),
            there == texts(dirs@),
            texts(roots@) == present(all.take(i as int), there),
        decreases wanted@.len() - i,
    {
        proof {
            assert(all.take(i as int + 1).drop_last() =~= all.take(i as int));
            assert(all.take(i as int + 1).last() == wanted@[i as int]@);
        }
        if contains_text(dirs, wanted[i].as_str()) {
            let path = wanted[i].clone();
            proof {
                lemma_texts_push(roots@, path);
            }
            roots.push(path);
        }
        i = i + 1;
    }
    assert(all.take(all.len() as int) =~= all);
    let n = wanted.len();
    let m = roots.len();
    let missing: usize = n - m;
    Survey {
        roots,
        skipped: CommandSummary {
            bytes_freed: 0,
            items_ok: 0,
            items_failed: 0,
            items_skipped: missing as u64,
        },
    }
}

/// The arguments of jdupes, which counts duplicates in a dry run and links them
/// otherwise. What is kept of duplicates follows the order of the roots where
/// that is to be preserved.
pub open spec fn jdupes_args(
    roots: Seq<Seq<char>>,
    filters: Seq<Seq<char>>,
    preserve_root_order: bool,
    dry_run: bool,
) -> Seq<Seq<char>> {
    seq![
        "--recurse"@,
        if dry_run {
            "--summarize"@
        } else {
            "--link-hard"@
        },
        "--one-file-system"@,
        "--no-hidden"@,
        "--quiet"@,
    ] + (if preserve_root_order {
        seq!["--param-order"@]
    } else {
        seq![]
    }) + filters + roots
}

fn extend(list: &mut Vec<String>, more: &Vec<String>)
    ensures
        texts(final(list)@) == texts(old(list)@) + texts(more@),
{
    let ghost start = texts(list@);
    let ghost all = texts(more@);
    let mut i: usize = 0;
    assert(start + all.take(0) =~= start);
    while i < more.len()
        invariant
            i <= more@.len(),
            all == texts(more@),
            texts(list@) == start + all.take(i as int),
        decreases more@.len() - i,
    {
        let text = more[i].clone();
        proof {
            lemma_texts_push(list@, text);
            assert((start + all.take(i as int)).push(text@) =~= start + all.take(i as int + 1));
        }
        list.push(text);
        i = i + 1;
    }
    assert(all.take(all.len() as int) =~= all);
}

pub fn build_arguments(
    roots: &Vec<String>,
    filters: &Vec<String>,
    preserve_root_order: bool,
    dry_run: bool,
) -> (r: Vec<String>)
    ensures
        texts(r@) == jdupes_args(texts(roots@), texts(filters@), preserve_root_order, dry_run),
{
    let action = if dry_run {
        "--summarize".to_string()
    } else {
        "--link-hard".to_string()
    };
    let mut arguments: Vec<String> = vec![
        "--recurse".to_string(),
        action,
        "--one-file-system".to_string(),
        "--no-hidden".to_string(),
        "--quiet".to_string(),
    ];
    if preserve_root_order {
        arguments.push("--param-order".to_string());
    }
    let ghost head = texts(arguments@);
    extend(&mut arguments, filters);
    extend(&mut arguments, roots);
    assert(texts(arguments@) =~= head + texts(filters@) + texts(roots@));
    assert(texts(arguments@) =~= jdupes_args(
        texts(roots@),
        texts(filters@),
        preserve_root_order,
        dry_run,
    ));
    arguments
}

/// Without jdupes the command is skipped.
pub fn after_ask(reply: &Reply) -> (r: Option<CommandSummary>)
    ensures
        r == if succeeded(*reply) {
            None
        } else {
            Some(one_skipped())
        },
{
    if ran_well(reply) {
        None
    } else {
        Some(CommandSummary::skipped_one())
    }
}

/// Compares all directories together, in one run. Without any there is none.
pub fn after_survey(found: &Survey, dry_run: bool) -> (r: Next<()>)
    ensures
        if found.roots@.len() == 0 {
            r.done(found.skipped)
        } else {
            r.runs(
                "jdupes"@,
                jdupes_args(texts(found.roots@), seq![MEDIA_EXTENSION_FILTER@], true, dry_run),
                (),
            )
        },
{
    if found.roots.len() == 0 {
        return Next::Done(found.skipped);
    }
    let filters: Vec<String> = vec![MEDIA_EXTENSION_FILTER.to_string()];
    assert(texts(filters@) =~= seq![MEDIA_EXTENSION_FILTER@]);
    let arguments = build_arguments(&found.roots, &filters, true, dry_run);
    let run = Invocation::new("jdupes").with_args(&arguments);
    assert(texts(run.args@) =~= texts(arguments@));
    Next::Run(run, ())
}

/// The outcome of the run, with the directories that were missing.
pub fn run_jdupes(reply: &Reply, found: &Survey) -> (r: Result<CommandSummary, String>)
    requires
        found.skipped == summary(0, 0, 0, found.skipped.items_skipped),
    ensures
        match *reply {
            Reply::NotStarted(_) => r matches Err(message) && message@
                == "failed to invoke jdupes"@,
            Reply::Finished(done) => r matches Ok(s) && s == together(
                found.skipped,
                if done.success {
                    one_ok(0)
                } else {
                    one_failed()
                },
            ),
        },
{
    match reply {
        Reply::NotStarted(_) => Err("failed to invoke jdupes".to_string()),
        Reply::Finished(done) => {
            let mut total = found.skipped;
            if done.success {
                total.merge(CommandSummary::ok_one());
            } else {
                total.merge(CommandSummary::failed_one());
            }
            Ok(total)
        },
    }
}

/// One more directory is compared exactly where it is there.
pub proof fn law_every_directory(wanted: Seq<Seq<char>>, dir: Seq<char>, dirs: Seq<Seq<char>>)
    ensures
        present(Seq::empty(), dirs) == Seq::<Seq<char>>::empty(),
        dirs.contains(dir) ==> present(wanted.push(dir), dirs) == present(wanted, dirs).push(dir),
        !dirs.contains(dir) ==> present(wanted.push(dir), dirs) == present(wanted, dirs),
{
    assert(wanted.push(dir).drop_last() =~= wanted);
}

/// Each directory is compared or counts as skipped.
pub proof fn law_survey(wanted: Vec<String>, dirs: Vec<String>, r: Survey)
    requires
        call_ensures(survey, (&wanted, &dirs), r),
    ensures
        r.roots@.len() + r.skipped.items_skipped == wanted@.len(),
        texts(r.roots@) == present(texts(wanted@), texts(dirs@)),
        r.skipped.items_ok == 0 && r.skipped.items_failed == 0 && r.skipped.bytes_freed == 0,
{
}

/// What jdupes is told: it links duplicates in place, or counts them in a dry
/// run; the roots come last, and count in their order where that is asked for.
pub proof fn law_build_arguments(
    roots: Vec<String>,
    filters: Vec<String>,
    preserve_root_order: bool,
    dry_run: bool,
    r: Vec<String>,
)
    requires
        call_ensures(build_arguments, (&roots, &filters, preserve_root_order, dry_run), r),
    ensures
        ({
            let all = texts(r@);
            let tail = texts(filters@) + texts(roots@);
            &&& all.len() >= 5
            &&& all[0] == "--recurse"@
            &&& dry_run ==> all[1] == "--summarize"@
            &&& !dry_run ==> all[1] == "--link-hard"@
            &&& all[2] == "--one-file-system"@
            &&& all[3] == "--no-hidden"@
            &&& all[4] == "--quiet"@
            &&& preserve_root_order ==> all.skip(5) == seq!["--param-order"@] + tail
            &&& !preserve_root_order ==> all.skip(5) == tail
        }),
{
    let all = texts(r@);
    let tail = texts(filters@) + texts(roots@);
    if preserve_root_order {
        assert(all.skip(5) =~= seq!["--param-order"@] + tail);
    } else {
        assert(all.skip(5) =~= tail);
    }
}

/// The directories that are compared where none are given.
pub proof fn law_wanted(args: Args, cfg: DedupeMediaConfig, home: Option<String>, r: Vec<String>)
    requires
        call_ensures(wanted, (&args, &cfg, &home), r),
    ensures
        args.pictures_dir is None && cfg.pictures_dir is None ==> texts(r@).len() > 0 && texts(
            r@,
        )[0] == home_path(opt_text(home), "Pictures/iMessage"@),
        args.pictures_dir is Some ==> texts(r@).len() > 0 && texts(r@)[0]
            == crate::config::expanded(args.pictures_dir->0@, opt_text(home)),
        args.yt_dlp_dirs@.len() > 0 ==> texts(r@).skip(1) == all_expanded(
            texts(args.yt_dlp_dirs@),
            opt_text(home),
        ),
        args.yt_dlp_dirs@.len() == 0 && cfg.yt_dlp_dirs is Some && cfg.yt_dlp_dirs->0@.len() > 0
            ==> texts(r@).skip(1) == all_expanded(texts(cfg.yt_dlp_dirs->0@), opt_text(home)),
        args.yt_dlp_dirs@.len() == 0 && (cfg.yt_dlp_dirs is None || cfg.yt_dlp_dirs->0@.len() == 0)
            ==> texts(r@).skip(1) == seq![
            home_path(opt_text(home), "Documents/yt-dlp"@),
            home_path(opt_text(home), "Desktop/yt-dlp-from-Factorio2"@),
        ],
{
    assert(texts(args.yt_dlp_dirs@).len() == args.yt_dlp_dirs@.len());
    if cfg.yt_dlp_dirs is Some {
        assert(texts(cfg.yt_dlp_dirs->0@).len() == cfg.yt_dlp_dirs->0@.len());
    }
    let downloads = download_dirs(
        texts(args.yt_dlp_dirs@),
        opt_texts(cfg.yt_dlp_dirs),
        opt_text(home),
    );
    assert(texts(r@).skip(1) =~= downloads);
}

/// All directories are compared together, by the extensions of media, and none
/// where none is there.
pub proof fn law_after_survey(found: Survey, dry_run: bool, r: Next<()>)
    requires
        call_ensures(after_survey, (&found, dry_run), r),
    ensures
        r is Run <==> found.roots@.len() > 0,
        r is Done ==> r->Done_0 == found.skipped,
        r is Run ==> r->Run_0.program@ == "jdupes"@ && texts(r->Run_0.args@) == seq![
            "--recurse"@,
            if dry_run {
                "--summarize"@
            } else {
                "--link-hard"@
            },
            "--one-file-system"@,
            "--no-hidden"@,
            "--quiet"@,
            "--param-order"@,
            "--ext-filter=onlyext:mp4,mov,m4v,webm,mkv,avi,mpeg,mpg,m2ts,flv,wmv,3gp,heic,heif,avif,jpg,jpeg,png,gif,webp,tiff,tif,rw2,dng,cr2,cr3,nef,arw,orf,m4a,mp3,aac,flac,wav,ogg,opus"@,
        ] + texts(found.roots@),
{
    if r is Run {
        assert(texts(r->Run_0.args@) =~= seq![
            "--recurse"@,
            if dry_run {
                "--summarize"@
            } else {
                "--link-hard"@
            },
            "--one-file-system"@,
            "--no-hidden"@,
            "--quiet"@,
            "--param-order"@,
            MEDIA_EXTENSION_FILTER@,
        ] + texts(found.roots@));
    }
}

} // verus!
