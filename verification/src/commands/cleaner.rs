//! Deletes the build artifacts of projects, where Git agrees that nothing is
//! lost.
use crate::path::{
    below, components_of, file_name, file_name_of, is_under, join, joined,
    law_joining_and_stripping, lemma_spans, parent, parent_of, plain_relative, same_path, spans,
    starts_with, strip_prefix, Parsed,
};
use crate::process::{complaint, complaint_of, Invocation, Reply};
use crate::bytes::{lossy_text, text_of};
use crate::text::{lemma_texts_push, texts, trim, trim_of};
use crate::ui::char_count;
use crate::walk::{older, older_than_days};
use vstd::prelude::*;

verus! {

/// What to clean: where projects are looked for, how they are recognised, and
/// which of their directories is deleted.
#[derive(Debug)]
pub struct Config {
    pub bar_label: &'static str,
    pub marker: &'static str,
    pub junk: &'static str,
    pub roots: Vec<String>,
    pub depth: usize,
    pub days: u32,
    pub concurrency: usize,
    pub dry_run: bool,
}

/// A project that was found, and what is known of its artifact directory.
#[derive(Debug)]
pub struct Project {
    pub path: String,
    pub junk_is_dir: bool,
    pub junk_mtime: Option<u64>,
}

/// The artifact directory exists and is old enough.
pub open spec fn is_stale(project: Project, now: u64, days: u32) -> bool {
    project.junk_is_dir && older(project.junk_mtime, now, days)
}

/// The paths of the projects with a stale artifact directory, in order.
pub open spec fn stale_paths(projects: Seq<Project>, now: u64, days: u32) -> Seq<Seq<char>>
    decreases projects.len(),
{
    if projects.len() == 0 {
        seq![]
    } else {
        let before = stale_paths(projects.drop_last(), now, days);
        if is_stale(projects.last(), now, days) {
            before.push(projects.last().path@)
        } else {
            before
        }
    }
}

/// Picks the projects with a stale artifact directory.
pub fn candidates(projects: &Vec<Project>, now: u64, days: u32) -> (r: Vec<String>)
    ensures
        texts(r@) == stale_paths(projects@, now, days),
{
    let mut out: Vec<String> = Vec::new();
    let mut i: usize = 0;
    assert(texts(out@) =~= stale_paths(projects@.take(0), now, days));
    while i < projects.len()
        invariant
            i <= projects@.len(),
            texts(out@) == stale_paths(projects@.take(i as int), now, days),
        decreases projects@.len() - i,
    {
        assert(projects@.take(i as int + 1).drop_last() =~= projects@.take(i as int));
        if projects[i].junk_is_dir && older_than_days(projects[i].junk_mtime, now, days) {
            let path = projects[i].path.clone();
            proof {
                lemma_texts_push(out@, path);
            }
            out.push(path);
        }
        i = i + 1;
    }
    assert(projects@.take(projects@.len() as int) =~= projects@);
    out
}

// ---------------------------------------------------------------------------
// Labels
// ---------------------------------------------------------------------------

/// The last name of a path, or the path where it has none.
pub open spec fn basename_of(path: Seq<char>) -> Seq<char> {
    match file_name_of(path) {
        Some(name) => name,
        None => path,
    }
}

pub fn basename(path: &str) -> (r: String)
    ensures
        r@ == basename_of(path@),
{
    match file_name(path) {
        Some(name) => name,
        None => path.to_owned(),
    }
}

/// The root above the project with the most components, and of several the last.
pub open spec fn best_root(project: Seq<char>, roots: Seq<Seq<char>>) -> Option<Seq<char>>
    decreases roots.len(),
{
    if roots.len() == 0 {
        None
    } else {
        let before = best_root(project, roots.drop_last());
        let last = roots.last();
        if is_under(project, last) && (before is None || components_of(last).len()
            >= components_of(before->0).len()) {
            Some(last)
        } else {
            before
        }
    }
}

/// A project by where it is below its closest root. The root itself goes by its
/// name, and so does a project below no root.
pub open spec fn project_label_of(project: Seq<char>, roots: Seq<Seq<char>>) -> Seq<char> {
    match best_root(project, roots) {
        Some(root) => if below(project, root).len() > 0 {
            below(project, root)
        } else {
            basename_of(root)
        },
        None => basename_of(project),
    }
}

pub proof fn lemma_best_root(project: Seq<char>, roots: Seq<Seq<char>>)
    ensures
        match best_root(project, roots) {
            Some(root) => is_under(project, root) && roots.contains(root),
            None => forall|i: int| 0 <= i < roots.len() ==> !is_under(project, #[trigger] roots[i]),
        },
        forall|i: int|
            0 <= i < roots.len() && is_under(project, #[trigger] roots[i]) ==> best_root(
                project,
                roots,
            ) is Some && components_of(roots[i]).len() <= components_of(
                best_root(project, roots)->0,
            ).len(),
    decreases roots.len(),
{
    if roots.len() > 0 {
        let head = roots.drop_last();
        lemma_best_root(project, head);
        assert forall|i: int| 0 <= i < head.len() implies #[trigger] roots[i] == head[i] by {}
        match best_root(project, roots) {
            Some(root) => {
                if head.contains(root) {
                    let k = choose|k: int| 0 <= k < head.len() && head[k] == root;
                    assert(roots[k] == root);
                } else {
                    assert(roots[roots.len() - 1] == root);
                }
            },
            None => {
                assert forall|i: int| 0 <= i < roots.len() implies !is_under(
                    project,
                    #[trigger] roots[i],
                ) by {
                    if i < head.len() {
                        assert(!is_under(project, head[i]));
                    }
                }
            },
        }
    }
}

/// The root that names a project is the closest one: it is above the project,
/// and no other root above it has more components.
pub proof fn law_closest_root_names_the_project(project: Seq<char>, roots: Seq<Seq<char>>, i: int)
    requires
        0 <= i < roots.len(),
        is_under(project, roots[i]),
    ensures
        best_root(project, roots) matches Some(root) && is_under(project, root) && roots.contains(
            root,
        ) && components_of(roots[i]).len() <= components_of(root).len(),
{
    lemma_best_root(project, roots);
}

/// A project below the only root goes by its path from there.
pub proof fn law_project_below_one_root(root: Seq<char>, rel: Seq<char>)
    requires
        root.len() > 0,
        plain_relative(rel),
    ensures
        project_label_of(joined(root, rel), seq![root]) == rel,
{
    law_joining_and_stripping(root, rel);
    assert(seq![root].drop_last() =~= Seq::<Seq<char>>::empty());
    assert(best_root(joined(root, rel), Seq::<Seq<char>>::empty()) is None);
}

/// Every root of `a` that the project is below is a root of `b`, perhaps
/// written otherwise.
pub open spec fn roots_among(project: Seq<char>, a: Seq<Seq<char>>, b: Seq<Seq<char>>) -> bool {
    forall|i: int|
        0 <= i < a.len() && is_under(project, #[trigger] a[i]) ==> exists|j: int|
            0 <= j < b.len() && same_path(a[i], #[trigger] b[j])
}

/// The closest of some roots is no deeper than that of the others they are
/// among.
proof fn lemma_closest_among(project: Seq<char>, a: Seq<Seq<char>>, b: Seq<Seq<char>>)
    requires
        roots_among(project, a, b),
        best_root(project, a) is Some,
    ensures
        best_root(project, b) is Some,
        components_of(best_root(project, a)->0).len() <= components_of(
            best_root(project, b)->0,
        ).len(),
{
    lemma_best_root(project, a);
    lemma_best_root(project, b);
    let root = best_root(project, a)->0;
    let i = choose|i: int| 0 <= i < a.len() && a[i] == root;
    let j = choose|j: int| 0 <= j < b.len() && same_path(a[i], #[trigger] b[j]);
    assert(is_under(project, b[j]));
}

/// Two roots of one depth above a project give it the same label.
proof fn lemma_label_by_depth(project: Seq<char>, first: Seq<char>, second: Seq<char>)
    requires
        is_under(project, first),
        is_under(project, second),
        components_of(first).len() == components_of(second).len(),
        file_name_of(project) is Some || !same_path(project, first),
    ensures
        below(project, first) == below(project, second),
        below(project, first).len() > 0 || basename_of(first) == basename_of(second),
{
    let all = components_of(project);
    let n = components_of(first).len() as int;
    lemma_spans(project);
    if n < all.len() {
        let list = spans(project);
        assert(list[n].0 < list[n].1);
        assert(n < all.len() - 1 ==> list[n].1 <= list[all.len() - 1].0);
        assert(list[all.len() - 1].0 < list[all.len() - 1].1);
    } else {
        assert(all.take(n) =~= all);
        assert(components_of(first) == all);
        assert(components_of(second) == all);
        assert(same_path(project, first));
        assert(file_name_of(first) == file_name_of(project));
        assert(file_name_of(second) == file_name_of(project));
    }
}

/// A project goes by one label whatever the order of the roots, however often
/// one is given and however it is written, and roots that it is not below do
/// not matter. This leaves out a project without a name, such as `/`, that is a
/// root itself: it goes by that root as it is written.
pub proof fn law_label_depends_on_which_roots(
    project: Seq<char>,
    a: Seq<Seq<char>>,
    b: Seq<Seq<char>>,
)
    requires
        roots_among(project, a, b),
        roots_among(project, b, a),
        file_name_of(project) is Some || forall|i: int|
            0 <= i < a.len() ==> !same_path(project, #[trigger] a[i]),
    ensures
        project_label_of(project, a) == project_label_of(project, b),
{
    lemma_best_root(project, a);
    if best_root(project, a) is Some {
        lemma_closest_among(project, a, b);
    }
    if best_root(project, b) is Some {
        lemma_closest_among(project, b, a);
        lemma_best_root(project, b);
        let first = best_root(project, a)->0;
        let second = best_root(project, b)->0;
        let i = choose|i: int| 0 <= i < a.len() && a[i] == first;
        assert(file_name_of(project) is Some || !same_path(project, a[i]));
        lemma_label_by_depth(project, first, second);
    }
}

/// Labels a project by its closest root.
pub fn project_label(project: &str, roots: &Vec<String>) -> (r: String)
    ensures
        r@ == project_label_of(project@, texts(roots@)),
{
    let ghost all = texts(roots@);
    let mut best: Option<usize> = None;
    let mut depth: usize = 0;
    let mut i: usize = 0;
    assert(all.take(0) =~= Seq::<Seq<char>>::empty());
    while i < roots.len()
        invariant
            i <= roots@.len(),
            all == texts(roots@),
            match best {
                Some(k) => k < i && best_root(project@, all.take(i as int)) == Some(roots@[k as int]@)
                    && depth == components_of(roots@[k as int]@).len(),
                None => best_root(project@, all.take(i as int)) is None,
            },
        decreases roots@.len() - i,
    {
        proof {
            assert(all.take(i as int + 1).drop_last() =~= all.take(i as int));
            assert(all.take(i as int + 1).last() == roots@[i as int]@);
        }
        let root = roots[i].as_str();
        if starts_with(project, root) {
            let parsed = Parsed::new(root);
            let n = parsed.count();
            if best.is_none() || n >= depth {
                best = Some(i);
                depth = n;
            }
        }
        i = i + 1;
    }
    assert(all.take(all.len() as int) =~= all);
    match best {
        Some(k) => {
            proof {
                lemma_best_root(project@, all);
            }
            match strip_prefix(project, roots[k].as_str()) {
                Some(rel) => {
                    if char_count(rel.as_str()) > 0 {
                        rel
                    } else {
                        basename(roots[k].as_str())
                    }
                },
                None => basename(project),
            }
        },
        None => basename(project),
    }
}

// ---------------------------------------------------------------------------
// Asking Git
// ---------------------------------------------------------------------------

/// Whether an artifact directory may be deleted, or the next question.
#[derive(Debug)]
pub enum Verdict {
    /// Git is asked for the tracked files of the directory.
    Ask(Invocation),
    Allowed,
    /// The directory is kept, and why.
    Refused(String),
    Fail(String),
}

/// The question whether Git ignores the directory.
pub fn ask_ignored(project: &str, junk: &str) -> (r: Invocation)
    ensures
        r.runs(
            "git"@,
            seq!["-C"@, project@, "check-ignore"@, "--quiet"@, "--"@, junk@],
        ),
{
    let r = Invocation::new("git").arg("-C").arg(project).arg("check-ignore").arg("--quiet").arg(
        "--",
    ).arg(junk);
    assert(texts(r.args@) =~= seq![
        "-C"@,
        project@,
        "check-ignore"@,
        "--quiet"@,
        "--"@,
        junk@,
    ]);
    r
}

fn ask_tracked(project: &str, junk: &str) -> (r: Invocation)
    ensures
        r.runs("git"@, seq!["-C"@, project@, "ls-files"@, "--cached"@, "--"@, junk@]),
{
    let r = Invocation::new("git").arg("-C").arg(project).arg("ls-files").arg("--cached").arg(
        "--",
    ).arg(junk);
    assert(texts(r.args@) =~= seq!["-C"@, project@, "ls-files"@, "--cached"@, "--"@, junk@]);
    r
}

/// Goes on from Git's answer whether the directory is ignored: only an ignored
/// directory is asked about further.
pub fn after_ignored(project: &str, junk: &str, reply: &Reply) -> (r: Verdict)
    ensures
        match *reply {
            Reply::NotStarted(_) => r matches Verdict::Fail(message) && message@
                == "invoking `git check-ignore` for "@ + joined(project@, junk@),
            Reply::Finished(done) => if done.success {
                r matches Verdict::Ask(next) && next.runs(
                    "git"@,
                    seq!["-C"@, project@, "ls-files"@, "--cached"@, "--"@, junk@],
                )
            } else if done.code == Some(1i32) {
                r matches Verdict::Refused(why) && why@ == "not ignored by Git"@
            } else {
                r matches Verdict::Refused(why) && why@ == "Git could not verify it: "@ + complaint(
                    done,
                )
            },
        },
{
    match reply {
        Reply::NotStarted(_) => {
            let mut message = "invoking `git check-ignore` for ".to_string();
            message.append(join(project, junk).as_str());
            Verdict::Fail(message)
        },
        Reply::Finished(done) => {
            if done.success {
                return Verdict::Ask(ask_tracked(project, junk));
            }
            let not_ignored = match done.code {
                Some(code) => code == 1,
                None => false,
            };
            if not_ignored {
                Verdict::Refused("not ignored by Git".to_string())
            } else {
                let mut why = "Git could not verify it: ".to_string();
                why.append(complaint_of(done).as_str());
                Verdict::Refused(why)
            }
        },
    }
}

/// Decides from Git's list of tracked files: an empty one allows the deletion.
pub fn after_tracked(project: &str, junk: &str, reply: &Reply) -> (r: Verdict)
    ensures
        match *reply {
            Reply::NotStarted(_) => r matches Verdict::Fail(message) && message@
                == "invoking `git ls-files` for "@ + joined(project@, junk@),
            Reply::Finished(done) => if !done.success {
                r matches Verdict::Fail(message) && message@ == "`git ls-files` failed for "@
                    + joined(project@, junk@) + ": "@ + complaint(done)
            } else if done.stdout@.len() > 0 {
                r matches Verdict::Refused(why) && why@ == "it contains tracked files: "@ + trim_of(
                    lossy_text(done.stdout@),
                )
            } else {
                r is Allowed
            },
        },
{
    match reply {
        Reply::NotStarted(_) => {
            let mut message = "invoking `git ls-files` for ".to_string();
            message.append(join(project, junk).as_str());
            Verdict::Fail(message)
        },
        Reply::Finished(done) => {
            if !done.success {
                let mut message = "`git ls-files` failed for ".to_string();
                message.append(join(project, junk).as_str());
                message.append(": ");
                message.append(complaint_of(done).as_str());
                return Verdict::Fail(message);
            }
            if done.stdout.len() > 0 {
                let mut why = "it contains tracked files: ".to_string();
                let listed = text_of(&done.stdout);
                why.append(trim(listed.as_str()).as_str());
                return Verdict::Refused(why);
            }
            Verdict::Allowed
        },
    }
}

/// What Git says of a directory, from its two answers. The second is asked for
/// only where the first allows it.
pub fn git_allows_deletion(
    project: &str,
    junk: &str,
    ignored: &Reply,
    listed: &Option<Reply>,
) -> (r: Result<bool, String>)
    requires
        ignored matches Reply::Finished(first) && first.success ==> listed is Some,
    ensures
        match *ignored {
            Reply::NotStarted(_) => r matches Err(message) && message@
                == "invoking `git check-ignore` for "@ + joined(project@, junk@),
            Reply::Finished(first) => if !first.success {
                r == Ok::<bool, String>(false)
            } else {
                match listed->0 {
                    Reply::NotStarted(_) => r matches Err(message) && message@
                        == "invoking `git ls-files` for "@ + joined(project@, junk@),
                    Reply::Finished(second) => if second.success {
                        r == Ok::<bool, String>(second.stdout@.len() == 0)
                    } else {
                        r matches Err(message) && message@ == "`git ls-files` failed for "@
                            + joined(project@, junk@) + ": "@ + complaint(second)
                    },
                }
            },
        },
        r == Ok::<bool, String>(true) <==> git_agrees(*ignored, *listed),
{
    match after_ignored(project, junk, ignored) {
        Verdict::Fail(message) => Err(message),
        Verdict::Ask(_) => match listed {
            Some(reply) => match after_tracked(project, junk, reply) {
                Verdict::Fail(message) => Err(message),
                Verdict::Allowed => Ok(true),
                _ => Ok(false),
            },
            None => Ok(false),
        },
        _ => Ok(false),
    }
}

/// Git allows the deletion: it ignores the directory and tracks nothing in it.
pub open spec fn git_agrees(ignored: Reply, listed: Option<Reply>) -> bool {
    &&& ignored matches Reply::Finished(first) && first.success
    &&& listed matches Some(Reply::Finished(second)) && second.success && second.stdout@.len() == 0
}

/// The directory that a path is in and its name there, as Git is asked about it.
pub fn split_artifact(path: &str) -> (r: Option<(String, String)>)
    ensures
        match r {
            Some((dir, name)) => file_name_of(path@) == Some(name@) && parent_of(path@) == Some(
                dir@,
            ),
            None => file_name_of(path@) is None || parent_of(path@) is None,
        },
{
    match (file_name(path), parent(path)) {
        (Some(name), Some(dir)) => Some((dir, name)),
        _ => None,
    }
}

/// What [`candidates`] takes: projects whose artifact is a directory that changed
/// more than so many days ago, in order.
pub proof fn law_candidates(
    projects: Seq<Project>,
    project: Project,
    now: u64,
    days: u32,
)
    ensures
        stale_paths(Seq::empty(), now, days) == Seq::<Seq<char>>::empty(),
        stale_paths(projects.push(project), now, days) == if project.junk_is_dir && (days == 0 || (
        project.junk_mtime is Some && now - project.junk_mtime->0 > days * 86_400)) {
            stale_paths(projects, now, days).push(project.path@)
        } else {
            stale_paths(projects, now, days)
        },
{
    assert(projects.push(project).drop_last() =~= projects);
}

/// A single project is a candidate exactly where its artifact is stale.
pub proof fn law_one_candidate(projects: Vec<Project>, now: u64, days: u32, r: Vec<String>)
    requires
        call_ensures(candidates, (&projects, now, days), r),
        projects@.len() == 1,
    ensures
        ({
            let one = projects@[0];
            if one.junk_is_dir && (days == 0 || (one.junk_mtime is Some && now - one.junk_mtime->0
                > days * 86_400)) {
                r@.len() == 1 && r@[0]@ == one.path@
            } else {
                r@.len() == 0
            }
        }),
{
    let one = projects@[0];
    assert(projects@ =~= Seq::empty().push(one));
    law_candidates(Seq::empty(), one, now, days);
    assert(texts(r@).len() == r@.len());
    if r@.len() > 0 {
        assert(texts(r@)[0] == r@[0]@);
    }
}

/// A directory is deleted only where Git ignores it and tracks nothing in it.
pub proof fn law_git_allows_deletion(
    project: &str,
    junk: &str,
    ignored: Reply,
    listed: Option<Reply>,
    r: Result<bool, String>,
)
    requires
        call_ensures(git_allows_deletion, (project, junk, &ignored, &listed), r),
    ensures
        r == Ok::<bool, String>(true) <==> {
            &&& ignored is Finished && ignored->Finished_0.success
            &&& listed is Some && listed->0 is Finished && listed->0->Finished_0.success
            &&& listed->0->Finished_0.stdout@.len() == 0
        },
{
}

/// Git's answers, one by one: what is not ignored is refused, what is ignored is
/// asked about, and only an empty list of tracked files allows the deletion.
pub proof fn law_gits_answers(
    project: &str,
    junk: &str,
    reply: Reply,
    first: Verdict,
    second: Verdict,
)
    requires
        call_ensures(after_ignored, (project, junk, &reply), first),
        call_ensures(after_tracked, (project, junk, &reply), second),
    ensures
        !(first is Allowed),
        first is Ask <==> reply is Finished && reply->Finished_0.success,
        first is Refused <==> reply is Finished && !reply->Finished_0.success,
        first is Fail <==> reply is NotStarted,
        second is Allowed <==> reply is Finished && reply->Finished_0.success
            && reply->Finished_0.stdout@.len() == 0,
        second is Refused <==> reply is Finished && reply->Finished_0.success
            && reply->Finished_0.stdout@.len() > 0,
        !(second is Ask),
{
}

/// A project below its closest root goes by the components below that root, and
/// one that is below no root by its name.
pub proof fn law_labels(project: Seq<char>, roots: Seq<Seq<char>>, i: int)
    ensures
        ({
            let all = components_of(project);
            let label = project_label_of(project, roots);
            &&& (forall|k: int| 0 <= k < roots.len() ==> !is_under(project, #[trigger] roots[k]))
                && file_name_of(project) is Some ==> label == file_name_of(project)->0
            &&& 0 <= i < roots.len() && is_under(project, roots[i]) && components_of(roots[i]).len()
                < all.len() && (forall|k: int|
                0 <= k < roots.len() && is_under(project, #[trigger] roots[k]) ==> components_of(
                    roots[k],
                ).len() <= components_of(roots[i]).len()) ==> components_of(label) == all.skip(
                components_of(roots[i]).len() as int,
            )
        }),
{
    lemma_best_root(project, roots);
    match best_root(project, roots) {
        Some(root) => {
            let k = choose|k: int| 0 <= k < roots.len() && roots[k] == root;
            if 0 <= i < roots.len() && is_under(project, roots[i]) && components_of(roots[i]).len()
                < components_of(project).len() && (forall|k: int|
                0 <= k < roots.len() && is_under(project, #[trigger] roots[k]) ==> components_of(
                    roots[k],
                ).len() <= components_of(roots[i]).len()) {
                assert(components_of(roots[k]).len() <= components_of(roots[i]).len());
                crate::path::law_below(project, root);
                let all = components_of(project);
                let n = components_of(root).len() as int;
                assert((components_of(root) + components_of(below(project, root))).skip(n)
                    =~= components_of(below(project, root)));
                lemma_spans(project);
                let list = spans(project);
                assert(list[n].0 < list[n].1);
                assert(n < all.len() - 1 ==> list[n].1 <= list[all.len() - 1].0);
                assert(list[all.len() - 1].0 < list[all.len() - 1].1);
            }
        },
        None => {},
    }
}

} // verus!
