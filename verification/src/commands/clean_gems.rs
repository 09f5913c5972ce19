//! Removes gem versions of the user that newer ones replace.
use super::{one_failed, one_ok, one_skipped, CommandSummary};
use crate::bytes::utf8_text;
use crate::config::{choose_flag, flag, CleanGemsConfig};
use crate::process::{
    complaint, complaint_of, ran_well, succeeded, Finished, Invocation, Next, Reply,
};
use crate::text::{texts, trim, trim_of};
use crate::ui::char_count;
use vstd::prelude::*;
use vstd::utf8::{decode_utf8, valid_utf8};

verus! {

#[derive(Debug, Default)]
pub struct Args {
    /// Remove, where the default is a preview.
    pub remove: bool,
}

/// Whether gems are only previewed: in a dry run, and unless removal is asked for.
pub open spec fn previews(args: Args, cfg: CleanGemsConfig, dry_run: bool) -> bool {
    dry_run || !flag(args.remove, cfg.remove)
}

pub fn is_preview(args: &Args, cfg: &CleanGemsConfig, dry_run: bool) -> (r: bool)
    ensures
        r == previews(*args, *cfg, dry_run),
{
    dry_run || !choose_flag(args.remove, cfg.remove)
}

/// The question whether RubyGems is installed.
pub fn ask_gem() -> (r: Invocation)
    ensures
        r.runs("gem"@, seq!["--version"@]),
{
    let r = Invocation::new("gem").arg("--version");
    assert(texts(r.args@) =~= seq!["--version"@]);
    r
}

/// Without RubyGems the command is skipped. With it, the directory of the user's
/// gems is asked for.
pub fn after_ask(reply: &Reply) -> (r: Next<()>)
    ensures
        if succeeded(*reply) {
            r.runs("gem"@, seq!["environment"@, "user_gemhome"@], ())
        } else {
            r.done(one_skipped())
        },
{
    if !ran_well(reply) {
        return Next::Done(CommandSummary::skipped_one());
    }
    let run = Invocation::new("gem").arg("environment").arg("user_gemhome");
    assert(texts(run.args@) =~= seq!["environment"@, "user_gemhome"@]);
    Next::Run(run, ())
}

/// Reads a directory from what RubyGems printed.
pub open spec fn gem_home_in(output: Seq<u8>) -> Result<Seq<char>, Seq<char>> {
    if !valid_utf8(output) {
        Err("`gem environment user_gemhome` returned non-UTF-8 output"@)
    } else if trim_of(decode_utf8(output)).len() == 0 {
        Err("`gem environment user_gemhome` returned an empty path"@)
    } else {
        Ok(trim_of(decode_utf8(output)))
    }
}

pub fn parse_user_gem_home(output: &Vec<u8>) -> (r: Result<String, String>)
    ensures
        match r {
            Ok(path) => gem_home_in(output@) == Ok::<Seq<char>, Seq<char>>(path@),
            Err(message) => gem_home_in(output@) == Err::<Seq<char>, Seq<char>>(message@),
        },
{
    match utf8_text(output) {
        None => Err("`gem environment user_gemhome` returned non-UTF-8 output".to_string()),
        Some(text) => {
            let path = trim(text.as_str());
            if char_count(path.as_str()) == 0 {
                Err("`gem environment user_gemhome` returned an empty path".to_string())
            } else {
                Ok(path)
            }
        },
    }
}

/// The directory of the user's gems.
pub fn user_gem_home(reply: &Reply) -> (r: Result<String, String>)
    ensures
        match *reply {
            Reply::NotStarted(_) => r matches Err(message) && message@
                == "failed to invoke `gem environment user_gemhome`"@,
            Reply::Finished(done) => if !done.success {
                r matches Err(message) && message@ == "`gem environment user_gemhome` failed ("@
                    + done.status@ + "): "@ + complaint(done)
            } else {
                match gem_home_in(done.stdout@) {
                    Ok(path) => r matches Ok(p) && p@ == path,
                    Err(message) => r matches Err(m) && m@ == message,
                }
            },
        },
{
    match reply {
        Reply::NotStarted(_) => Err("failed to invoke `gem environment user_gemhome`".to_string()),
        Reply::Finished(done) => {
            if !done.success {
                let mut message = "`gem environment user_gemhome` failed (".to_string();
                message.append(done.status.as_str());
                message.append("): ");
                message.append(complaint_of(done).as_str());
                return Err(message);
            }
            parse_user_gem_home(&done.stdout)
        },
    }
}

/// The arguments of a cleanup.
pub open spec fn cleanup_args(preview: bool) -> Seq<Seq<char>> {
    if preview {
        seq!["cleanup"@, "--user-install"@, "--dry-run"@]
    } else {
        seq!["cleanup"@, "--user-install"@]
    }
}

/// Without the directory the command is skipped.
pub fn after_home(is_dir: bool, preview: bool) -> (r: Next<()>)
    ensures
        if is_dir {
            r.runs("gem"@, cleanup_args(preview), ())
        } else {
            r.done(one_skipped())
        },
{
    if !is_dir {
        return Next::Done(CommandSummary::skipped_one());
    }
    let mut run = Invocation::new("gem").arg("cleanup").arg("--user-install");
    if preview {
        run = run.arg("--dry-run");
    }
    assert(texts(run.args@) =~= cleanup_args(preview));
    Next::Run(run, ())
}

/// The outcome of the cleanup: by how much the directory shrank, and nothing for
/// a preview.
pub fn after_cleanup(reply: &Reply, preview: bool, before: u64, after: u64) -> (r: Result<
    CommandSummary,
    String,
>)
    ensures
        match *reply {
            Reply::NotStarted(_) => r matches Err(message) && message@
                == "failed to invoke `gem cleanup --user-install`"@,
            Reply::Finished(done) => r matches Ok(s) && s == if !done.success {
                one_failed()
            } else if preview || after >= before {
                one_ok(0)
            } else {
                one_ok((before - after) as u64)
            },
        },
{
    match reply {
        Reply::NotStarted(_) => Err("failed to invoke `gem cleanup --user-install`".to_string()),
        Reply::Finished(done) => {
            if !done.success {
                return Ok(CommandSummary::failed_one());
            }
            if preview {
                return Ok(CommandSummary::ok_one());
            }
            Ok(CommandSummary::ok_one_with_bytes(before.saturating_sub(after)))
        },
    }
}

/// Gems are removed only where that is asked for and the run is no dry run.
pub proof fn law_is_preview(args: Args, cfg: CleanGemsConfig, dry_run: bool, r: bool)
    requires
        call_ensures(is_preview, (&args, &cfg, dry_run), r),
    ensures
        !r <==> !dry_run && (args.remove || cfg.remove == Some(true)),
{
}

/// The gems' directory is what RubyGems prints, without blanks around it, where
/// that is text and not blank.
pub proof fn law_user_gem_home(reply: Reply, r: Result<String, String>)
    requires
        call_ensures(user_gem_home, (&reply,), r),
    ensures
        r is Ok <==> reply is Finished && reply->Finished_0.success && valid_utf8(
            reply->Finished_0.stdout@,
        ) && trim_of(decode_utf8(reply->Finished_0.stdout@)).len() > 0,
        r is Ok ==> r->Ok_0@ == trim_of(decode_utf8(reply->Finished_0.stdout@)),
{
}

/// A preview tells RubyGems to remove nothing.
pub proof fn law_after_home(is_dir: bool, preview: bool, r: Next<()>)
    requires
        call_ensures(after_home, (is_dir, preview), r),
    ensures
        r is Run <==> is_dir,
        r matches Next::Run(run, _) ==> run.program@ == "gem"@ && texts(run.args@) == if preview {
            seq!["cleanup"@, "--user-install"@, "--dry-run"@]
        } else {
            seq!["cleanup"@, "--user-install"@]
        },
{
}

/// What a cleanup frees is by how much the directory shrank.
pub proof fn law_after_cleanup(
    reply: Reply,
    preview: bool,
    before: u64,
    after: u64,
    r: Result<CommandSummary, String>,
)
    requires
        call_ensures(after_cleanup, (&reply, preview, before, after), r),
    ensures
        r is Err <==> reply is NotStarted,
        r matches Ok(s) ==> {
            &&& s.items_ok + s.items_failed == 1
            &&& s.items_skipped == 0
            &&& s.items_ok == 1 <==> reply->Finished_0.success
            &&& s.bytes_freed == if s.items_ok == 1 && !preview && before > after {
                before - after
            } else {
                0
            }
        },
{
}

} // verus!
