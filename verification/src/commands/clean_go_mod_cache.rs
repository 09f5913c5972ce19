//! Cleans the module cache of Go once it has grown large.
use super::{one_failed, one_ok, one_skipped, CommandSummary};
use crate::bytes::utf8_text;
use crate::config::{choose_flag, choose_u64, chosen, flag, CleanGoModCacheConfig};
use crate::process::{
    complaint, complaint_of, ran_well, succeeded, Finished, Invocation, Next, Reply,
};
use crate::text::{texts, trim, trim_of};
use crate::ui::char_count;
use vstd::prelude::*;
use vstd::utf8::{decode_utf8, valid_utf8};

verus! {

pub const DEFAULT_MINIMUM_GIBIBYTES: u64 = 5;

pub const BYTES_PER_GIBIBYTE: u64 = 1_073_741_824;

#[derive(Debug, Default)]
pub struct Args {
    /// Clean, where the default is a preview.
    pub remove: bool,
    /// The size from which the cache is cleaned, in gibibytes.
    pub minimum_gibibytes: Option<u64>,
}

/// What the command works on.
#[derive(Debug, Clone, Copy)]
pub struct Settings {
    pub remove: bool,
    pub minimum_bytes: u64,
}

/// Resolves the settings. A size that cannot be counted in bytes is the largest
/// that can.
pub fn resolve_settings(args: &Args, cfg: &CleanGoModCacheConfig) -> (r: Settings)
    ensures
        r.remove == flag(args.remove, cfg.remove),
        ({
            let wanted = chosen(
                args.minimum_gibibytes,
                cfg.minimum_gibibytes,
                DEFAULT_MINIMUM_GIBIBYTES,
            ) * BYTES_PER_GIBIBYTE;
            r.minimum_bytes == if wanted <= u64::MAX {
                wanted
            } else {
                u64::MAX as int
            }
        }),
{
    let minimum = choose_u64(
        args.minimum_gibibytes,
        cfg.minimum_gibibytes,
        DEFAULT_MINIMUM_GIBIBYTES,
    );
    let minimum_bytes: u64 = if minimum > u64::MAX / BYTES_PER_GIBIBYTE {
        u64::MAX
    } else {
        minimum * BYTES_PER_GIBIBYTE
    };
    Settings { remove: choose_flag(args.remove, cfg.remove), minimum_bytes }
}

/// The question whether Go is installed.
pub fn ask_go() -> (r: Invocation)
    ensures
        r.runs("go"@, seq!["version"@]),
{
    let r = Invocation::new("go").arg("version");
    assert(texts(r.args@) =~= seq!["version"@]);
    r
}

/// Without Go the command is skipped. With it, the cache is asked for.
pub fn after_ask(reply: &Reply) -> (r: Next<()>)
    ensures
        if succeeded(*reply) {
            r.runs("go"@, seq!["env"@, "GOMODCACHE"@], ())
        } else {
            r.done(one_skipped())
        },
{
    if !ran_well(reply) {
        return Next::Done(CommandSummary::skipped_one());
    }
    let run = Invocation::new("go").arg("env").arg("GOMODCACHE");
    assert(texts(run.args@) =~= seq!["env"@, "GOMODCACHE"@]);
    Next::Run(run, ())
}

/// Reads a directory from what Go printed.
pub open spec fn cache_path_in(output: Seq<u8>) -> Result<Seq<char>, Seq<char>> {
    if !valid_utf8(output) {
        Err("`go env GOMODCACHE` returned non-UTF-8 output"@)
    } else if trim_of(decode_utf8(output)).len() == 0 {
        Err("`go env GOMODCACHE` returned an empty path"@)
    } else {
        Ok(trim_of(decode_utf8(output)))
    }
}

pub fn parse_module_cache_path(output: &Vec<u8>) -> (r: Result<String, String>)
    ensures
        match r {
            Ok(path) => cache_path_in(output@) == Ok::<Seq<char>, Seq<char>>(path@),
            Err(message) => cache_path_in(output@) == Err::<Seq<char>, Seq<char>>(message@),
        },
{
    match utf8_text(output) {
        None => Err("`go env GOMODCACHE` returned non-UTF-8 output".to_string()),
        Some(text) => {
            let path = trim(text.as_str());
            if char_count(path.as_str()) == 0 {
                Err("`go env GOMODCACHE` returned an empty path".to_string())
            } else {
                Ok(path)
            }
        },
    }
}

/// The module cache.
pub fn module_cache_path(reply: &Reply) -> (r: Result<String, String>)
    ensures
        match *reply {
            Reply::NotStarted(_) => r matches Err(message) && message@
                == "failed to invoke `go env GOMODCACHE`"@,
            Reply::Finished(done) => if !done.success {
                r matches Err(message) && message@ == "`go env GOMODCACHE` failed ("@
                    + done.status@ + "): "@ + complaint(done)
            } else {
                match cache_path_in(done.stdout@) {
                    Ok(path) => r matches Ok(p) && p@ == path,
                    Err(message) => r matches Err(m) && m@ == message,
                }
            },
        },
{
    match reply {
        Reply::NotStarted(_) => Err("failed to invoke `go env GOMODCACHE`".to_string()),
        Reply::Finished(done) => {
            if !done.success {
                let mut message = "`go env GOMODCACHE` failed (".to_string();
                message.append(done.status.as_str());
                message.append("): ");
                message.append(complaint_of(done).as_str());
                return Err(message);
            }
            parse_module_cache_path(&done.stdout)
        },
    }
}

/// Decides from the size of the cache, which is none where there is no cache.
/// Only a large one is cleaned, and only where that is asked for.
pub fn decide(size: Option<u64>, settings: &Settings, dry_run: bool) -> (r: Next<()>)
    ensures
        match size {
            None => r.done(one_skipped()),
            Some(bytes) => if bytes < settings.minimum_bytes {
                r.done(one_ok(0))
            } else if dry_run {
                r.done(one_ok(bytes))
            } else if !settings.remove {
                r.done(one_ok(0))
            } else {
                r.runs("go"@, seq!["clean"@, "-modcache"@], ())
            },
        },
        r is Run ==> settings.remove && !dry_run,
{
    match size {
        None => Next::Done(CommandSummary::skipped_one()),
        Some(bytes) => {
            if bytes < settings.minimum_bytes {
                return Next::Done(CommandSummary::ok_one());
            }
            if dry_run {
                return Next::Done(CommandSummary::ok_one_with_bytes(bytes));
            }
            if !settings.remove {
                return Next::Done(CommandSummary::ok_one());
            }
            let run = Invocation::new("go").arg("clean").arg("-modcache");
            assert(texts(run.args@) =~= seq!["clean"@, "-modcache"@]);
            Next::Run(run, ())
        },
    }
}

/// The outcome of the cleanup, which frees all that the cache held.
pub fn after_clean(reply: &Reply, bytes: u64) -> (r: Result<CommandSummary, String>)
    ensures
        match *reply {
            Reply::NotStarted(_) => r matches Err(message) && message@
                == "failed to invoke `go clean -modcache`"@,
            Reply::Finished(done) => r matches Ok(s) && s == if done.success {
                one_ok(bytes)
            } else {
                one_failed()
            },
        },
{
    match reply {
        Reply::NotStarted(_) => Err("failed to invoke `go clean -modcache`".to_string()),
        Reply::Finished(done) => {
            if done.success {
                Ok(CommandSummary::ok_one_with_bytes(bytes))
            } else {
                Ok(CommandSummary::failed_one())
            }
        },
    }
}

/// The cache is cleaned exactly where it is there, is as large as asked for, and
/// its removal is asked for in a run that is no dry run.
pub proof fn law_decide(size: Option<u64>, settings: Settings, dry_run: bool, r: Next<()>)
    requires
        call_ensures(decide, (size, &settings, dry_run), r),
    ensures
        r is Run <==> size is Some && size->0 >= settings.minimum_bytes && settings.remove
            && !dry_run,
        r is Run ==> r->Run_0.program@ == "go"@ && texts(r->Run_0.args@) == seq![
            "clean"@,
            "-modcache"@,
        ],
        size is None ==> r->Done_0 == one_skipped(),
        size is Some && dry_run && size->0 >= settings.minimum_bytes ==> r->Done_0 == one_ok(
            size->0,
        ),
        size is Some && r is Done && (!dry_run || size->0 < settings.minimum_bytes) ==> r->Done_0
            == one_ok(0),
{
}

/// A size is given in gibibytes, and what is not given is five of them.
pub proof fn law_resolve_settings(args: Args, cfg: CleanGoModCacheConfig, r: Settings)
    requires
        call_ensures(resolve_settings, (&args, &cfg), r),
    ensures
        r.remove <==> args.remove || cfg.remove == Some(true),
        args.minimum_gibibytes is None && cfg.minimum_gibibytes is None ==> r.minimum_bytes
            == 5 * 1024 * 1024 * 1024,
        args.minimum_gibibytes is Some && args.minimum_gibibytes->0 < 0x4_0000_0000
            ==> r.minimum_bytes == args.minimum_gibibytes->0 * 1_073_741_824,
        args.minimum_gibibytes is Some && args.minimum_gibibytes->0 >= 0x4_0000_0000
            ==> r.minimum_bytes == u64::MAX,
        args.minimum_gibibytes is None && cfg.minimum_gibibytes is Some
            && cfg.minimum_gibibytes->0 < 0x4_0000_0000 ==> r.minimum_bytes
            == cfg.minimum_gibibytes->0 * 1_073_741_824,
{
}

/// The cache is what Go prints, without blanks around it, where that is text and
/// not blank.
pub proof fn law_module_cache_path(reply: Reply, r: Result<String, String>)
    requires
        call_ensures(module_cache_path, (&reply,), r),
    ensures
        r is Ok <==> reply is Finished && reply->Finished_0.success && valid_utf8(
            reply->Finished_0.stdout@,
        ) && trim_of(decode_utf8(reply->Finished_0.stdout@)).len() > 0,
        r is Ok ==> r->Ok_0@ == trim_of(decode_utf8(reply->Finished_0.stdout@)),
{
}

/// What a cleanup frees is all that the cache held.
pub proof fn law_after_clean(reply: Reply, bytes: u64, r: Result<CommandSummary, String>)
    requires
        call_ensures(after_clean, (&reply, bytes), r),
    ensures
        r is Err <==> reply is NotStarted,
        r matches Ok(s) ==> s.items_ok + s.items_failed == 1 && (s.items_ok == 1 <==>
            reply->Finished_0.success) && s.bytes_freed == if s.items_ok == 1 {
            bytes
        } else {
            0
        },
{
}

} // verus!
