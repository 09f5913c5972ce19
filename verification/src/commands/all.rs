//! `backup all`: the configured steps, one after another, and the totals.
use super::{adds_up, nothing, summary, together, CommandSummary};
use crate::number::{decimal, decimal_of};
use crate::sizes::{format_bytes, human_size};
use crate::split::{join, join_of};
use crate::text::{contains_text, copy_texts, lemma_texts_push, opt_texts, same, texts};
use crate::ui::{
    char_count, duration_text, format_duration, pad_right, padded, push_spaces, spaces, widest,
};
use vstd::prelude::*;

verus! {

#[derive(Debug, Default)]
pub struct Args {
    /// Steps to leave out, by name.
    pub skip: Vec<String>,
    /// Steps to run, by name, in the configured order. Empty for all.
    pub only: Vec<String>,
}

/// The steps that run where none are configured, in order.
pub open spec fn default_step_names() -> Seq<Seq<char>> {
    seq![
        "git-maintenance"@,
        "clean-maven"@,
        "clean-node"@,
        "clean-cargo"@,
        "clean-m2"@,
        "clean-gradle"@,
        "clean-tmp"@,
        "clean-xcode"@,
        "clean-docker"@,
        "clean-brew"@,
        "clean-npm"@,
        "clean-yarn"@,
        "clean-pnpm"@,
        "clean-pip"@,
        "clean-cocoapods"@,
        "clean-go-build"@,
        "clean-go-mod-cache"@,
        "clean-python-artifacts"@,
        "clean-jetbrains"@,
        "clean-logs"@,
        "clean-library-caches"@,
        "clean-electron-caches"@,
        "clean-chrome"@,
        "clean-steam"@,
        "clean-playwright"@,
        "clean-cypress"@,
        "clean-node-gyp"@,
        "clean-mise"@,
        "clean-xdg-cache"@,
        "clean-rustup"@,
        "clean-trash"@,
        "bz-cleanup"@,
    ]
}

pub fn default_steps() -> (r: Vec<String>)
    ensures
        texts(r@) == default_step_names(),
{
    let out: Vec<String> = vec![
        "git-maintenance".to_string(),
        "clean-maven".to_string(),
        "clean-node".to_string(),
        "clean-cargo".to_string(),
        "clean-m2".to_string(),
        "clean-gradle".to_string(),
        "clean-tmp".to_string(),
        "clean-xcode".to_string(),
        "clean-docker".to_string(),
        "clean-brew".to_string(),
        "clean-npm".to_string(),
        "clean-yarn".to_string(),
        "clean-pnpm".to_string(),
        "clean-pip".to_string(),
        "clean-cocoapods".to_string(),
        "clean-go-build".to_string(),
        "clean-go-mod-cache".to_string(),
        "clean-python-artifacts".to_string(),
        "clean-jetbrains".to_string(),
        "clean-logs".to_string(),
        "clean-library-caches".to_string(),
        "clean-electron-caches".to_string(),
        "clean-chrome".to_string(),
        "clean-steam".to_string(),
        "clean-playwright".to_string(),
        "clean-cypress".to_string(),
        "clean-node-gyp".to_string(),
        "clean-mise".to_string(),
        "clean-xdg-cache".to_string(),
        "clean-rustup".to_string(),
        "clean-trash".to_string(),
        "bz-cleanup".to_string(),
    ];
    assert(texts(out@) =~= default_step_names());
    out
}

/// A command that a step runs.
#[derive(Debug, Clone, Copy, PartialEq, Eq, Structural)]
pub enum Step {
    GitMaintenance,
    CleanMaven,
    CleanNode,
    CleanCargo,
    CleanM2,
    CleanGradle,
    CleanTmp,
    CleanXcode,
    CleanDocker,
    CleanBrew,
    CleanNpm,
    CleanYarn,
    CleanPnpm,
    CleanPip,
    CleanCocoapods,
    CleanGoBuild,
    CleanGoModCache,
    CleanPythonArtifacts,
    CleanJetbrains,
    CleanLogs,
    CleanLibraryCaches,
    CleanElectronCaches,
    CleanChrome,
    CleanSteam,
    CleanPlaywright,
    CleanCypress,
    CleanNodeGyp,
    CleanMise,
    CleanXdgCache,
    CleanRustup,
    CleanTrash,
    BzCleanup,
}

pub open spec fn step_name(step: Step) -> Seq<char> {
    match step {
        Step::GitMaintenance => "git-maintenance"@,
        Step::CleanMaven => "clean-maven"@,
        Step::CleanNode => "clean-node"@,
        Step::CleanCargo => "clean-cargo"@,
        Step::CleanM2 => "clean-m2"@,
        Step::CleanGradle => "clean-gradle"@,
        Step::CleanTmp => "clean-tmp"@,
        Step::CleanXcode => "clean-xcode"@,
        Step::CleanDocker => "clean-docker"@,
        Step::CleanBrew => "clean-brew"@,
        Step::CleanNpm => "clean-npm"@,
        Step::CleanYarn => "clean-yarn"@,
        Step::CleanPnpm => "clean-pnpm"@,
        Step::CleanPip => "clean-pip"@,
        Step::CleanCocoapods => "clean-cocoapods"@,
        Step::CleanGoBuild => "clean-go-build"@,
        Step::CleanGoModCache => "clean-go-mod-cache"@,
        Step::CleanPythonArtifacts => "clean-python-artifacts"@,
        Step::CleanJetbrains => "clean-jetbrains"@,
        Step::CleanLogs => "clean-logs"@,
        Step::CleanLibraryCaches => "clean-library-caches"@,
        Step::CleanElectronCaches => "clean-electron-caches"@,
        Step::CleanChrome => "clean-chrome"@,
        Step::CleanSteam => "clean-steam"@,
        Step::CleanPlaywright => "clean-playwright"@,
        Step::CleanCypress => "clean-cypress"@,
        Step::CleanNodeGyp => "clean-node-gyp"@,
        Step::CleanMise => "clean-mise"@,
        Step::CleanXdgCache => "clean-xdg-cache"@,
        Step::CleanRustup => "clean-rustup"@,
        Step::CleanTrash => "clean-trash"@,
        Step::BzCleanup => "bz-cleanup"@,
    }
}

impl Step {
    pub fn name(&self) -> (r: &'static str)
        ensures
            r@ == step_name(*self),
    {
        match self {
            Step::GitMaintenance => "git-maintenance",
            Step::CleanMaven => "clean-maven",
            Step::CleanNode => "clean-node",
            Step::CleanCargo => "clean-cargo",
            Step::CleanM2 => "clean-m2",
            Step::CleanGradle => "clean-gradle",
            Step::CleanTmp => "clean-tmp",
            Step::CleanXcode => "clean-xcode",
            Step::CleanDocker => "clean-docker",
            Step::CleanBrew => "clean-brew",
            Step::CleanNpm => "clean-npm",
            Step::CleanYarn => "clean-yarn",
            Step::CleanPnpm => "clean-pnpm",
            Step::CleanPip => "clean-pip",
            Step::CleanCocoapods => "clean-cocoapods",
            Step::CleanGoBuild => "clean-go-build",
            Step::CleanGoModCache => "clean-go-mod-cache",
            Step::CleanPythonArtifacts => "clean-python-artifacts",
            Step::CleanJetbrains => "clean-jetbrains",
            Step::CleanLogs => "clean-logs",
            Step::CleanLibraryCaches => "clean-library-caches",
            Step::CleanElectronCaches => "clean-electron-caches",
            Step::CleanChrome => "clean-chrome",
            Step::CleanSteam => "clean-steam",
            Step::CleanPlaywright => "clean-playwright",
            Step::CleanCypress => "clean-cypress",
            Step::CleanNodeGyp => "clean-node-gyp",
            Step::CleanMise => "clean-mise",
            Step::CleanXdgCache => "clean-xdg-cache",
            Step::CleanRustup => "clean-rustup",
            Step::CleanTrash => "clean-trash",
            Step::BzCleanup => "bz-cleanup",
        }
    }
}

pub open spec fn unknown_configured_step(step: Seq<char>) -> Seq<char> {
    "unknown step in `all.steps`: "@ + step
}

/// Finds the command that a step runs, by its name.
pub fn run_step(step: &str) -> (r: Result<Step, String>)
    ensures
        match r {
            Ok(found) => step_name(found) == step@,
            Err(message) => message@ == unknown_configured_step(step@) && forall|s: Step| #[trigger]
                step_name(s) != step@,
        },
{
    if same(step, "git-maintenance") {
        Ok(Step::GitMaintenance)
    } else if same(step, "clean-maven") {
        Ok(Step::CleanMaven)
    } else if same(step, "clean-node") {
        Ok(Step::CleanNode)
    } else if same(step, "clean-cargo") {
        Ok(Step::CleanCargo)
    } else if same(step, "clean-m2") {
        Ok(Step::CleanM2)
    } else if same(step, "clean-gradle") {
        Ok(Step::CleanGradle)
    } else if same(step, "clean-tmp") {
        Ok(Step::CleanTmp)
    } else if same(step, "clean-xcode") {
        Ok(Step::CleanXcode)
    } else if same(step, "clean-docker") {
        Ok(Step::CleanDocker)
    } else if same(step, "clean-brew") {
        Ok(Step::CleanBrew)
    } else if same(step, "clean-npm") {
        Ok(Step::CleanNpm)
    } else if same(step, "clean-yarn") {
        Ok(Step::CleanYarn)
    } else if same(step, "clean-pnpm") {
        Ok(Step::CleanPnpm)
    } else if same(step, "clean-pip") {
        Ok(Step::CleanPip)
    } else if same(step, "clean-cocoapods") {
        Ok(Step::CleanCocoapods)
    } else if same(step, "clean-go-build") {
        Ok(Step::CleanGoBuild)
    } else if same(step, "clean-go-mod-cache") {
        Ok(Step::CleanGoModCache)
    } else if same(step, "clean-python-artifacts") {
        Ok(Step::CleanPythonArtifacts)
    } else if same(step, "clean-jetbrains") {
        Ok(Step::CleanJetbrains)
    } else if same(step, "clean-logs") {
        Ok(Step::CleanLogs)
    } else if same(step, "clean-library-caches") {
        Ok(Step::CleanLibraryCaches)
    } else if same(step, "clean-electron-caches") {
        Ok(Step::CleanElectronCaches)
    } else if same(step, "clean-chrome") {
        Ok(Step::CleanChrome)
    } else if same(step, "clean-steam") {
        Ok(Step::CleanSteam)
    } else if same(step, "clean-playwright") {
        Ok(Step::CleanPlaywright)
    } else if same(step, "clean-cypress") {
        Ok(Step::CleanCypress)
    } else if same(step, "clean-node-gyp") {
        Ok(Step::CleanNodeGyp)
    } else if same(step, "clean-mise") {
        Ok(Step::CleanMise)
    } else if same(step, "clean-xdg-cache") {
        Ok(Step::CleanXdgCache)
    } else if same(step, "clean-rustup") {
        Ok(Step::CleanRustup)
    } else if same(step, "clean-trash") {
        Ok(Step::CleanTrash)
    } else if same(step, "bz-cleanup") {
        Ok(Step::BzCleanup)
    } else {
        let mut message = "unknown step in `all.steps`: ".to_string();
        message.append(step);
        Err(message)
    }
}

/// Linking duplicate media is no step, so no run of all steps does it.
pub proof fn law_media_is_no_step(step: Step)
    ensures
        step_name(step) != "dedupe-media"@,
        !default_step_names().contains("dedupe-media"@),
{
    reveal_strlit("dedupe-media");
    reveal_strlit("git-maintenance");
    reveal_strlit("clean-maven");
    reveal_strlit("clean-node");
    reveal_strlit("clean-cargo");
    reveal_strlit("clean-m2");
    reveal_strlit("clean-gradle");
    reveal_strlit("clean-tmp");
    reveal_strlit("clean-xcode");
    reveal_strlit("clean-docker");
    reveal_strlit("clean-brew");
    reveal_strlit("clean-npm");
    reveal_strlit("clean-yarn");
    reveal_strlit("clean-pnpm");
    reveal_strlit("clean-pip");
    reveal_strlit("clean-cocoapods");
    reveal_strlit("clean-go-build");
    reveal_strlit("clean-go-mod-cache");
    reveal_strlit("clean-python-artifacts");
    reveal_strlit("clean-jetbrains");
    reveal_strlit("clean-logs");
    reveal_strlit("clean-library-caches");
    reveal_strlit("clean-electron-caches");
    reveal_strlit("clean-chrome");
    reveal_strlit("clean-steam");
    reveal_strlit("clean-playwright");
    reveal_strlit("clean-cypress");
    reveal_strlit("clean-node-gyp");
    reveal_strlit("clean-mise");
    reveal_strlit("clean-xdg-cache");
    reveal_strlit("clean-rustup");
    reveal_strlit("clean-trash");
    reveal_strlit("bz-cleanup");
    assert(step_name(step)[0] != 'd');
    assert forall|i: int| 0 <= i < default_step_names().len() implies (
    #[trigger] default_step_names()[i])[0] != 'd' by {
        law_default_steps_have_commands(i);
    }
}

/// Every step that runs by default has a command.
pub proof fn law_default_steps_have_commands(i: int)
    requires
        0 <= i < default_step_names().len(),
    ensures
        exists|s: Step| step_name(s) == default_step_names()[i],
{
    assert(step_name(Step::GitMaintenance) == default_step_names()[0]);
    assert(step_name(Step::CleanMaven) == default_step_names()[1]);
    assert(step_name(Step::CleanNode) == default_step_names()[2]);
    assert(step_name(Step::CleanCargo) == default_step_names()[3]);
    assert(step_name(Step::CleanM2) == default_step_names()[4]);
    assert(step_name(Step::CleanGradle) == default_step_names()[5]);
    assert(step_name(Step::CleanTmp) == default_step_names()[6]);
    assert(step_name(Step::CleanXcode) == default_step_names()[7]);
    assert(step_name(Step::CleanDocker) == default_step_names()[8]);
    assert(step_name(Step::CleanBrew) == default_step_names()[9]);
    assert(step_name(Step::CleanNpm) == default_step_names()[10]);
    assert(step_name(Step::CleanYarn) == default_step_names()[11]);
    assert(step_name(Step::CleanPnpm) == default_step_names()[12]);
    assert(step_name(Step::CleanPip) == default_step_names()[13]);
    assert(step_name(Step::CleanCocoapods) == default_step_names()[14]);
    assert(step_name(Step::CleanGoBuild) == default_step_names()[15]);
    assert(step_name(Step::CleanGoModCache) == default_step_names()[16]);
    assert(step_name(Step::CleanPythonArtifacts) == default_step_names()[17]);
    assert(step_name(Step::CleanJetbrains) == default_step_names()[18]);
    assert(step_name(Step::CleanLogs) == default_step_names()[19]);
    assert(step_name(Step::CleanLibraryCaches) == default_step_names()[20]);
    assert(step_name(Step::CleanElectronCaches) == default_step_names()[21]);
    assert(step_name(Step::CleanChrome) == default_step_names()[22]);
    assert(step_name(Step::CleanSteam) == default_step_names()[23]);
    assert(step_name(Step::CleanPlaywright) == default_step_names()[24]);
    assert(step_name(Step::CleanCypress) == default_step_names()[25]);
    assert(step_name(Step::CleanNodeGyp) == default_step_names()[26]);
    assert(step_name(Step::CleanMise) == default_step_names()[27]);
    assert(step_name(Step::CleanXdgCache) == default_step_names()[28]);
    assert(step_name(Step::CleanRustup) == default_step_names()[29]);
    assert(step_name(Step::CleanTrash) == default_step_names()[30]);
    assert(step_name(Step::BzCleanup) == default_step_names()[31]);
}

// ---------------------------------------------------------------------------
// Choosing steps
// ---------------------------------------------------------------------------

/// The first name that is not among the known ones.
pub open spec fn first_unknown(names: Seq<Seq<char>>, known: Seq<Seq<char>>) -> Option<Seq<char>>
    decreases names.len(),
{
    if names.len() == 0 {
        None
    } else if !known.contains(names[0]) {
        Some(names[0])
    } else {
        first_unknown(names.drop_first(), known)
    }
}

/// Checks that every name is that of a known step; the first that is not is the
/// error.
pub fn validate_steps(names: &Vec<String>) -> (r: Result<(), String>)
    ensures
        match r {
            Ok(_) => first_unknown(texts(names@), default_step_names()) is None,
            Err(message) => first_unknown(texts(names@), default_step_names()) matches Some(name)
                && message@ == "unknown step: "@ + name,
        },
{
    let known = default_steps();
    let ghost all = texts(names@);
    let mut i: usize = 0;
    assert(all.skip(0) == all);
    while i < names.len()
        invariant
            i <= names@.len(),
            all == texts(names@),
            texts(known@) == default_step_names(),
            first_unknown(all, default_step_names()) == first_unknown(
                all.skip(i as int),
                default_step_names(),
            ),
        decreases names@.len() - i,
    {
        assert(all.skip(i as int)[0] == names@[i as int]@);
        assert(all.skip(i as int).drop_first() == all.skip(i as int + 1));
        if !contains_text(&known, names[i].as_str()) {
            let mut message = "unknown step: ".to_string();
            message.append(names[i].as_str());
            return Err(message);
        }
        i = i + 1;
    }
    Ok(())
}

/// Whether a step runs: it is not left out, and is among the chosen ones where
/// any are chosen.
pub open spec fn wanted(step: Seq<char>, skip: Seq<Seq<char>>, only: Seq<Seq<char>>) -> bool {
    !skip.contains(step) && (only.len() == 0 || only.contains(step))
}

/// The steps that run, in the configured order.
pub open spec fn resolved(steps: Seq<Seq<char>>, skip: Seq<Seq<char>>, only: Seq<Seq<char>>) -> Seq<
    Seq<char>,
> {
    steps.filter(|s: Seq<char>| wanted(s, skip, only))
}

/// The first unknown name among those to leave out, else among those to run.
pub open spec fn unknown_choice(skip: Seq<Seq<char>>, only: Seq<Seq<char>>) -> Option<Seq<char>> {
    match first_unknown(skip, default_step_names()) {
        Some(name) => Some(name),
        None => first_unknown(only, default_step_names()),
    }
}

/// Applies the choices of the command line to the configured steps. The order
/// of the steps is kept; a name that is no step is an error.
pub fn resolve_steps(steps: Vec<String>, skip: &Vec<String>, only: &Vec<String>) -> (r: Result<
    Vec<String>,
    String,
>)
    ensures
        match r {
            Ok(left) => unknown_choice(texts(skip@), texts(only@)) is None && texts(left@)
                == resolved(texts(steps@), texts(skip@), texts(only@)),
            Err(message) => unknown_choice(texts(skip@), texts(only@)) matches Some(name)
                && message@ == "unknown step: "@ + name,
        },
{
    match validate_steps(skip) {
        Err(message) => {
            return Err(message);
        },
        Ok(_) => {},
    }
    match validate_steps(only) {
        Err(message) => {
            return Err(message);
        },
        Ok(_) => {},
    }
    let ghost all = texts(steps@);
    let ghost keep = |s: Seq<char>| wanted(s, texts(skip@), texts(only@));
    assert(texts(only@).len() == only@.len());
    let mut out: Vec<String> = Vec::new();
    let mut i: usize = 0;
    proof {
        reveal(Seq::filter);
        assert(all.take(0) =~= Seq::<Seq<char>>::empty());
        assert(texts(out@) =~= all.take(0).filter(keep));
    }
    while i < steps.len()
        invariant
            i <= steps@.len(),
            all == texts(steps@),
            texts(only@).len() == only@.len(),
            keep == (|s: Seq<char>| wanted(s, texts(skip@), texts(only@))),
            texts(out@) == all.take(i as int).filter(keep),
        decreases steps@.len() - i,
    {
        proof {
            reveal(Seq::filter);
            assert(all.take(i as int + 1).drop_last() =~= all.take(i as int));
            assert(all.take(i as int + 1).last() == steps@[i as int]@);
        }
        let step = steps[i].as_str();
        if !contains_text(skip, step) && (only.len() == 0 || contains_text(only, step)) {
            let name = steps[i].clone();
            proof {
                lemma_texts_push(out@, name);
            }
            out.push(name);
        }
        i = i + 1;
    }
    assert(all.take(all.len() as int) == all);
    Ok(out)
}

/// Leaving steps out and then choosing among the rest runs the chosen steps but
/// those left out, and no others.
pub proof fn law_only_minus_skip(
    steps: Seq<Seq<char>>,
    skip: Seq<Seq<char>>,
    only: Seq<Seq<char>>,
    step: Seq<char>,
)
    ensures
        resolved(steps, skip, only).contains(step) <==> steps.contains(step) && !skip.contains(step)
            && (only.len() == 0 || only.contains(step)),
        resolved(steps, skip, only) == steps.filter(|s: Seq<char>| !skip.contains(s)).filter(
            |s: Seq<char>| only.len() == 0 || only.contains(s),
        ),
{
    lemma_filter_members(steps, |s: Seq<char>| wanted(s, skip, only), step);
    lemma_filter_twice(
        steps,
        |s: Seq<char>| !skip.contains(s),
        |s: Seq<char>| only.len() == 0 || only.contains(s),
        |s: Seq<char>| wanted(s, skip, only),
    );
}

proof fn lemma_filter_members(list: Seq<Seq<char>>, keep: spec_fn(Seq<char>) -> bool, x: Seq<char>)
    ensures
        list.filter(keep).contains(x) <==> list.contains(x) && keep(x),
    decreases list.len(),
{
    reveal(Seq::filter);
    if list.len() > 0 {
        let head = list.drop_last();
        lemma_filter_members(head, keep, x);
        assert(list =~= head.push(list.last()));
        assert(list.contains(x) <==> head.contains(x) || x == list.last()) by {
            if head.contains(x) {
                let i = choose|i: int| 0 <= i < head.len() && head[i] == x;
                assert(list[i] == x);
            }
            if x == list.last() {
                assert(list[list.len() - 1] == x);
            }
            if list.contains(x) && x != list.last() {
                let i = choose|i: int| 0 <= i < list.len() && list[i] == x;
                assert(head[i] == x);
            }
        }
        let left = head.filter(keep);
        if keep(list.last()) {
            let out = left.push(list.last());
            assert(out.contains(x) <==> left.contains(x) || x == list.last()) by {
                if left.contains(x) {
                    let i = choose|i: int| 0 <= i < left.len() && left[i] == x;
                    assert(out[i] == x);
                }
                if x == list.last() {
                    assert(out[out.len() - 1] == x);
                }
                if out.contains(x) && x != list.last() {
                    let i = choose|i: int| 0 <= i < out.len() && out[i] == x;
                    assert(left[i] == x);
                }
            }
        }
    }
}

proof fn lemma_filter_twice(
    list: Seq<Seq<char>>,
    first: spec_fn(Seq<char>) -> bool,
    second: spec_fn(Seq<char>) -> bool,
    both: spec_fn(Seq<char>) -> bool,
)
    requires
        forall|s: Seq<char>| #[trigger] both(s) == (first(s) && second(s)),
    ensures
        list.filter(both) == list.filter(first).filter(second),
    decreases list.len(),
{
    reveal(Seq::filter);
    if list.len() > 0 {
        let head = list.drop_last();
        let last = list.last();
        lemma_filter_twice(head, first, second, both);
        assert(both(last) == (first(last) && second(last)));
        if first(last) {
            let once = head.filter(first).push(last);
            assert(once.drop_last() =~= head.filter(first));
        }
    }
}

/// The steps of a run: the configured ones, or the default, as the command line
/// chooses among them.
pub fn plan(args: &Args, configured: &Option<Vec<String>>) -> (r: Result<Vec<String>, String>)
    ensures
        ({
            let steps = match opt_texts(*configured) {
                Some(list) => list,
                None => default_step_names(),
            };
            match r {
                Ok(left) => unknown_choice(texts(args.skip@), texts(args.only@)) is None && texts(
                    left@,
                ) == resolved(steps, texts(args.skip@), texts(args.only@)),
                Err(message) => unknown_choice(texts(args.skip@), texts(args.only@)) matches Some(
                    name,
                ) && message@ == "unknown step: "@ + name,
            }
        }),
{
    let steps = match configured {
        Some(list) => copy_texts(list),
        None => default_steps(),
    };
    resolve_steps(steps, &args.skip, &args.only)
}

// ---------------------------------------------------------------------------
// Running steps
// ---------------------------------------------------------------------------

#[derive(Debug)]
pub struct StepResult {
    pub name: String,
    pub summary: CommandSummary,
}

/// A run of steps that has come so far: one result for each step that is done,
/// and why the next one failed, if it did.
#[derive(Debug)]
pub struct Steps {
    pub names: Vec<String>,
    pub results: Vec<StepResult>,
    pub failure: Option<String>,
}

/// What a run does next.
#[derive(Debug)]
pub enum StepAction {
    Run(Step),
    /// The next step does not exist, and fails with this message.
    Unknown(String),
    AllDone,
    /// A step failed, and no further one is run.
    Stopped,
}

/// What the steps of a run reply, one after the other: what they did, or why
/// they failed.
pub type Replies = Seq<Result<CommandSummary, Seq<char>>>;

/// The first step that fails, or the number of steps where none does.
pub open spec fn first_failure(replies: Replies) -> int
    decreases replies.len(),
{
    if replies.len() == 0 || replies[0] is Err {
        0
    } else {
        1 + first_failure(replies.drop_first())
    }
}

impl Steps {
    /// The results are those of the first steps, in order, and only a step that
    /// is there fails.
    pub open spec fn wf(self) -> bool {
        &&& self.results@.len() <= self.names@.len()
        &&& forall|i: int|
            0 <= i < self.results@.len() ==> (#[trigger] self.results@[i]).name@ == self.names@[i]@
        &&& self.failure is Some ==> self.results@.len() < self.names@.len()
    }

    /// There is nothing left to run.
    pub open spec fn ended(self) -> bool {
        self.failure is Some || self.results@.len() == self.names@.len()
    }

    /// The run is where these replies bring it: the steps that are done replied
    /// with their summaries, and the one that failed with why.
    pub open spec fn answered(self, replies: Replies) -> bool {
        let done = self.results@.len() as int;
        &&& done <= replies.len()
        &&& forall|i: int|
            0 <= i < done ==> #[trigger] replies[i] == Ok::<CommandSummary, Seq<char>>(
                self.results@[i].summary,
            )
        &&& self.failure matches Some(why) ==> done < replies.len() && replies[done] == Err::<
            CommandSummary,
            Seq<char>,
        >(why@)
    }

    pub fn new(names: Vec<String>) -> (r: Self)
        ensures
            r.wf(),
            r.names == names,
            r.results@.len() == 0,
            r.failure is None,
            forall|replies: Replies| #[trigger] r.answered(replies),
    {
        Self { names, results: Vec::new(), failure: None }
    }

    /// The step that comes next. After a failure none does.
    pub fn next(&self) -> (r: StepAction)
        requires
            self.wf(),
        ensures
            match r {
                StepAction::Run(step) => !self.ended() && step_name(step)
                    == self.names@[self.results@.len() as int]@,
                StepAction::Unknown(message) => {
                    &&& !self.ended()
                    &&& message@ == unknown_configured_step(
                        self.names@[self.results@.len() as int]@,
                    )
                    &&& forall|s: Step| #[trigger]
                        step_name(s) != self.names@[self.results@.len() as int]@
                },
                StepAction::AllDone => self.failure is None && self.ended(),
                StepAction::Stopped => self.failure is Some,
            },
    {
        if self.failure.is_some() {
            return StepAction::Stopped;
        }
        let n = self.results.len();
        if n == self.names.len() {
            return StepAction::AllDone;
        }
        match run_step(self.names[n].as_str()) {
            Ok(step) => StepAction::Run(step),
            Err(message) => StepAction::Unknown(message),
        }
    }

    /// Takes in what the step that came next did.
    pub fn completed(&mut self, summary: CommandSummary)
        requires
            old(self).wf(),
            !old(self).ended(),
        ensures
            final(self).wf(),
            final(self).names == old(self).names,
            final(self).failure is None,
            final(self).results@.len() == old(self).results@.len() + 1,
            final(self).results@.drop_last() == old(self).results@,
            final(self).results@.last().summary == summary,
            forall|replies: Replies| #[trigger]
                old(self).answered(replies) && old(self).results@.len() < replies.len()
                    && replies[old(self).results@.len() as int] == Ok::<CommandSummary, Seq<char>>(
                    summary,
                ) ==> final(self).answered(replies),
    {
        let n = self.results.len();
        let name = self.names[n].clone();
        let ghost before = self.results@;
        self.results.push(StepResult { name, summary });
        assert(self.results@.drop_last() =~= before);
        assert forall|i: int| 0 <= i < n implies self.results@[i] == before[i] by {}
    }

    /// Takes in why the step that came next failed. The results so far stay.
    pub fn failed(&mut self, why: String)
        requires
            old(self).wf(),
            !old(self).ended(),
        ensures
            final(self).wf(),
            final(self).names == old(self).names,
            final(self).results == old(self).results,
            final(self).failure == Some(why),
            final(self).ended(),
            forall|replies: Replies| #[trigger]
                old(self).answered(replies) && old(self).results@.len() < replies.len()
                    && replies[old(self).results@.len() as int] == Err::<CommandSummary, Seq<char>>(
                    why@,
                ) ==> final(self).answered(replies),
    {
        self.failure = Some(why);
    }

    /// What a run comes to: the results, and the failure that ended it, if one
    /// did.
    pub fn finish(self) -> (r: (Vec<StepResult>, Result<(), String>))
        requires
            self.wf(),
            self.ended(),
        ensures
            r.0 == self.results,
            match self.failure {
                Some(why) => r.1 == Err::<(), String>(why),
                None => r.1 is Ok,
            },
    {
        match self.failure {
            Some(why) => (self.results, Err(why)),
            None => (self.results, Ok(())),
        }
    }
}

/// Up to the first failure every reply is a summary, and there is one.
proof fn lemma_first_failure(replies: Replies)
    ensures
        0 <= first_failure(replies) <= replies.len(),
        forall|i: int| 0 <= i < first_failure(replies) ==> #[trigger] replies[i] is Ok,
        first_failure(replies) < replies.len() ==> replies[first_failure(replies)] is Err,
    decreases replies.len(),
{
    if replies.len() > 0 && replies[0] is Ok {
        let rest = replies.drop_first();
        lemma_first_failure(rest);
        assert forall|i: int| 0 <= i < first_failure(replies) implies #[trigger] replies[i] is Ok by {
            if i > 0 {
                assert(rest[i - 1] == replies[i]);
            }
        }
        if first_failure(replies) < replies.len() {
            assert(rest[first_failure(rest)] == replies[first_failure(replies)]);
        }
    }
}

/// The first failure ends a run: the steps before it have a result each, in
/// order and with what they replied, the run comes to that failure, and to
/// success only where no step fails.
pub proof fn law_first_failure_ends_the_run(steps: Steps, replies: Replies)
    requires
        steps.wf(),
        steps.ended(),
        steps.answered(replies),
        replies.len() == steps.names@.len(),
    ensures
        steps.results@.len() == first_failure(replies),
        forall|i: int|
            0 <= i < first_failure(replies) ==> (#[trigger] steps.results@[i]).name@
                == steps.names@[i]@ && replies[i] == Ok::<CommandSummary, Seq<char>>(
                steps.results@[i].summary,
            ),
        steps.failure is None <==> first_failure(replies) == replies.len(),
        steps.failure matches Some(why) ==> replies[first_failure(replies)] == Err::<
            CommandSummary,
            Seq<char>,
        >(why@),
{
    let done = steps.results@.len() as int;
    let k = first_failure(replies);
    lemma_first_failure(replies);
    if k < done {
        assert(replies[k] == Ok::<CommandSummary, Seq<char>>(steps.results@[k].summary));
    }
    if done < k {
        assert(replies[done] is Ok);
    }
}

/// No step behind the first failure is run: one that a run still comes to is
/// at that failure or before it.
pub proof fn law_nothing_runs_after_a_failure(steps: Steps, replies: Replies)
    requires
        steps.wf(),
        !steps.ended(),
        steps.answered(replies),
        replies.len() == steps.names@.len(),
    ensures
        steps.results@.len() <= first_failure(replies),
{
    let k = first_failure(replies);
    lemma_first_failure(replies);
    if k < steps.results@.len() {
        assert(replies[k] == Ok::<CommandSummary, Seq<char>>(steps.results@[k].summary));
    }
}

// ---------------------------------------------------------------------------
// Reporting
// ---------------------------------------------------------------------------

/// The tag of a step: `FAIL` where anything failed, `skip` where there was
/// nothing to work with.
pub open spec fn status_of(s: CommandSummary) -> Seq<char> {
    if !s.has_passed() {
        "FAIL"@
    } else if s.was_skipped() {
        "skip"@
    } else {
        "ok "@
    }
}

pub fn step_status(summary: &CommandSummary) -> (r: &'static str)
    ensures
        r@ == status_of(*summary),
{
    if !summary.passed() {
        "FAIL"
    } else if summary.skipped() {
        "skip"
    } else {
        "ok "
    }
}

/// The counts of a step. Skips are named only where there are any.
pub open spec fn counts_of(s: CommandSummary) -> Seq<char> {
    let worked = "("@ + decimal_of(s.items_ok as nat) + " ok, "@ + decimal_of(
        s.items_failed as nat,
    ) + " failed"@;
    if s.items_skipped > 0 {
        worked + ", "@ + decimal_of(s.items_skipped as nat) + " skipped)"@
    } else {
        worked + ")"@
    }
}

pub fn step_counts(summary: &CommandSummary) -> (r: String)
    ensures
        r@ == counts_of(*summary),
{
    let mut out = "(".to_string();
    out.append(decimal(summary.items_ok).as_str());
    out.append(" ok, ");
    out.append(decimal(summary.items_failed).as_str());
    out.append(" failed");
    if summary.items_skipped > 0 {
        out.append(", ");
        out.append(decimal(summary.items_skipped).as_str());
        out.append(" skipped)");
    } else {
        out.append(")");
    }
    out
}

/// How many steps passed, failed and were skipped.
#[derive(Debug, Default, PartialEq, Eq, Structural)]
pub struct Tally {
    pub passed: u64,
    pub failed: u64,
    pub skipped: u64,
}

/// The number of results that are like `pick`.
pub open spec fn count_results(
    results: Seq<StepResult>,
    pick: spec_fn(CommandSummary) -> bool,
) -> nat
    decreases results.len(),
{
    if results.len() == 0 {
        0
    } else {
        count_results(results.drop_last(), pick) + if pick(results.last().summary) {
            1nat
        } else {
            0
        }
    }
}

pub open spec fn is_failed() -> spec_fn(CommandSummary) -> bool {
    |s: CommandSummary| !s.has_passed()
}

pub open spec fn is_skipped() -> spec_fn(CommandSummary) -> bool {
    |s: CommandSummary| s.has_passed() && s.was_skipped()
}

pub open spec fn is_passed() -> spec_fn(CommandSummary) -> bool {
    |s: CommandSummary| s.has_passed() && !s.was_skipped()
}

/// Every step is counted once: as passed, as failed or as skipped.
pub proof fn law_tally_counts_every_step(results: Seq<StepResult>)
    ensures
        count_results(results, is_passed()) + count_results(results, is_failed()) + count_results(
            results,
            is_skipped(),
        ) == results.len(),
    decreases results.len(),
{
    if results.len() > 0 {
        law_tally_counts_every_step(results.drop_last());
    }
}

/// Counts the steps that passed, failed and were skipped. A step that only
/// recorded skips did not pass.
pub fn tally(results: &Vec<StepResult>) -> (r: Tally)
    ensures
        r.passed == count_results(results@, is_passed()),
        r.failed == count_results(results@, is_failed()),
        r.skipped == count_results(results@, is_skipped()),
        r.passed + r.failed + r.skipped == results@.len(),
{
    let mut t = Tally { passed: 0, failed: 0, skipped: 0 };
    let mut i: usize = 0;
    assert(results@.take(0) =~= Seq::<StepResult>::empty());
    while i < results.len()
        invariant
            i <= results@.len(),
            t.passed + t.failed + t.skipped == i,
            t.passed == count_results(results@.take(i as int), is_passed()),
            t.failed == count_results(results@.take(i as int), is_failed()),
            t.skipped == count_results(results@.take(i as int), is_skipped()),
        decreases results@.len() - i,
    {
        assert(results@.take(i as int + 1).drop_last() =~= results@.take(i as int));
        let s = results[i].summary;
        if !s.passed() {
            t.failed = t.failed + 1;
        } else if s.skipped() {
            t.skipped = t.skipped + 1;
        } else {
            t.passed = t.passed + 1;
        }
        i = i + 1;
    }
    assert(results@.take(results@.len() as int) =~= results@);
    t
}

pub open spec fn header_of(dry_run: bool) -> Seq<char> {
    if dry_run {
        "all: per-command results (dry run):"@
    } else {
        "all: per-command results:"@
    }
}

pub fn results_header(dry_run: bool) -> (r: &'static str)
    ensures
        r@ == header_of(dry_run),
{
    if dry_run {
        "all: per-command results (dry run):"
    } else {
        "all: per-command results:"
    }
}

/// The outcomes of the results as one.
pub open spec fn total_of(results: Seq<StepResult>) -> CommandSummary
    decreases results.len(),
{
    if results.len() == 0 {
        nothing()
    } else {
        together(total_of(results.drop_last()), results.last().summary)
    }
}

/// The outcomes of the results add up.
pub open spec fn totals_fit(results: Seq<StepResult>) -> bool
    decreases results.len(),
{
    results.len() > 0 ==> {
        &&& totals_fit(results.drop_last())
        &&& adds_up(total_of(results.drop_last()), results.last().summary)
    }
}

pub open spec fn aggregate_text(results: Seq<StepResult>, elapsed_ms: u64, dry_run: bool) -> Seq<char> {
    let total = total_of(results);
    "all: "@ + decimal_of(count_results(results, is_passed())) + " passed, "@ + decimal_of(
        count_results(results, is_failed()),
    ) + " failed, "@ + decimal_of(count_results(results, is_skipped())) + " skipped, "@
        + super::executor::verb_of(dry_run) + " "@ + human_size(total.bytes_freed) + " across "@
        + decimal_of((total.items_ok + total.items_failed) as nat) + " items in "@ + duration_text(
        elapsed_ms,
    )
}

proof fn lemma_totals_fit(results: Seq<StepResult>, n: int)
    requires
        0 <= n <= results.len(),
        totals_fit(results),
    ensures
        totals_fit(results.take(n)),
    decreases results.len() - n,
{
    if n < results.len() {
        lemma_totals_fit(results, n + 1);
        assert(results.take(n + 1).drop_last() =~= results.take(n));
    } else {
        assert(results.take(n) =~= results);
    }
}

fn total(results: &Vec<StepResult>) -> (r: CommandSummary)
    requires
        totals_fit(results@),
    ensures
        r == total_of(results@),
{
    let mut out = CommandSummary::default();
    let mut i: usize = 0;
    assert(results@.take(0) =~= Seq::<StepResult>::empty());
    while i < results.len()
        invariant
            i <= results@.len(),
            totals_fit(results@),
            out == total_of(results@.take(i as int)),
        decreases results@.len() - i,
    {
        proof {
            lemma_totals_fit(results@, i as int + 1);
            assert(results@.take(i as int + 1).drop_last() =~= results@.take(i as int));
        }
        out.merge(results[i].summary);
        i = i + 1;
    }
    assert(results@.take(results@.len() as int) =~= results@);
    out
}

/// Whether the outcomes of the results can be added up, as the closing summary does.
pub fn can_total(results: &Vec<StepResult>) -> (r: bool)
    ensures
        r == (totals_fit(results@) && total_of(results@).items_ok + total_of(
            results@,
        ).items_failed <= u64::MAX),
{
    let mut out = CommandSummary::default();
    let mut i: usize = 0;
    assert(results@.take(0) =~= Seq::<StepResult>::empty());
    while i < results.len()
        invariant
            i <= results@.len(),
            totals_fit(results@.take(i as int)),
            out == total_of(results@.take(i as int)),
        decreases results@.len() - i,
    {
        proof {
            assert(results@.take(i as int + 1).drop_last() =~= results@.take(i as int));
            if totals_fit(results@) {
                lemma_totals_fit(results@, i as int + 1);
            }
        }
        if !out.adds_up_with(&results[i].summary) {
            return false;
        }
        out.merge(results[i].summary);
        i = i + 1;
    }
    assert(results@.take(results@.len() as int) =~= results@);
    out.items_ok <= u64::MAX - out.items_failed
}

/// The last line of a run. A dry run says what would be freed.
pub fn aggregate_line(results: &Vec<StepResult>, elapsed_ms: u64, dry_run: bool) -> (r: String)
    requires
        totals_fit(results@),
        total_of(results@).items_ok + total_of(results@).items_failed <= u64::MAX,
    ensures
        r@ == aggregate_text(results@, elapsed_ms, dry_run),
{
    let all = total(results);
    let t = tally(results);
    let mut out = "all: ".to_string();
    out.append(decimal(t.passed).as_str());
    out.append(" passed, ");
    out.append(decimal(t.failed).as_str());
    out.append(" failed, ");
    out.append(decimal(t.skipped).as_str());
    out.append(" skipped, ");
    out.append(super::executor::verb(dry_run));
    out.append(" ");
    out.append(format_bytes(all.bytes_freed).as_str());
    out.append(" across ");
    out.append(decimal(all.items_total()).as_str());
    out.append(" items in ");
    out.append(format_duration(elapsed_ms).as_str());
    out
}

/// A text moved to the right end of a column.
pub open spec fn right_aligned(s: Seq<char>, width: nat) -> Seq<char> {
    if s.len() >= width {
        s
    } else {
        spaces((width - s.len()) as nat) + s
    }
}

fn pad_left(s: &str, width: usize) -> (r: String)
    ensures
        r@ == right_aligned(s@, width as nat),
{
    let len = char_count(s);
    let mut out = String::new();
    if len < width {
        push_spaces(&mut out, width - len);
    }
    out.append(s);
    assert(out@ =~= right_aligned(s@, width as nat));
    out
}

pub open spec fn result_names(results: Seq<StepResult>) -> Seq<Seq<char>> {
    results.map_values(|r: StepResult| r.name@)
}

/// The line of one step.
pub open spec fn result_line(result: StepResult, width: nat) -> Seq<char> {
    "  ["@ + status_of(result.summary) + "] "@ + padded(result.name@, result.name@, width) + "  "@
        + right_aligned(human_size(result.summary.bytes_freed), 10) + "  "@ + counts_of(
        result.summary,
    )
}

/// The lines that close a run: a blank line, a header, one line for each step
/// that is done, and the totals.
pub open spec fn summary_lines(results: Seq<StepResult>, elapsed_ms: u64, dry_run: bool) -> Seq<
    Seq<char>,
> {
    seq![""@, header_of(dry_run)] + results.map_values(
        |r: StepResult| result_line(r, widest(result_names(results))),
    ) + seq![aggregate_text(results, elapsed_ms, dry_run)]
}

fn result_text(result: &StepResult, width: usize) -> (r: String)
    ensures
        r@ == result_line(*result, width as nat),
{
    let mut out = "  [".to_string();
    out.append(step_status(&result.summary));
    out.append("] ");
    out.append(pad_right(result.name.as_str(), width).as_str());
    out.append("  ");
    let size = format_bytes(result.summary.bytes_freed);
    out.append(pad_left(size.as_str(), 10).as_str());
    out.append("  ");
    out.append(step_counts(&result.summary).as_str());
    out
}

fn name_width(results: &Vec<StepResult>) -> (r: usize)
    ensures
        r == widest(result_names(results@)),
{
    let ghost all = result_names(results@);
    let mut width: usize = 0;
    let mut i: usize = 0;
    while i < results.len()
        invariant
            i <= results@.len(),
            all == result_names(results@),
            width == widest(all.take(i as int)),
        decreases results@.len() - i,
    {
        let len = char_count(results[i].name.as_str());
        assert(all.take(i as int + 1).drop_last() == all.take(i as int));
        assert(all.take(i as int + 1).last() == results@[i as int].name@);
        if len > width {
            width = len;
        }
        i = i + 1;
    }
    assert(all.take(all.len() as int) == all);
    width
}

/// The lines that close a run.
pub fn print_aggregate_summary(results: &Vec<StepResult>, elapsed_ms: u64, dry_run: bool) -> (r: Vec<
    String,
>)
    requires
        totals_fit(results@),
        total_of(results@).items_ok + total_of(results@).items_failed <= u64::MAX,
    ensures
        texts(r@) == summary_lines(results@, elapsed_ms, dry_run),
{
    let width = name_width(results);
    let mut out: Vec<String> = Vec::new();
    out.push("".to_string());
    out.push(results_header(dry_run).to_owned());
    let ghost start = seq![""@, header_of(dry_run)];
    let ghost rows = results@.map_values(
        |r: StepResult| result_line(r, widest(result_names(results@))),
    );
    let mut i: usize = 0;
    assert(texts(out@) =~= start + rows.take(0));
    while i < results.len()
        invariant
            i <= results@.len(),
            width == widest(result_names(results@)),
            rows == results@.map_values(
                |r: StepResult| result_line(r, widest(result_names(results@))),
            ),
            texts(out@) == start + rows.take(i as int),
        decreases results@.len() - i,
    {
        let line = result_text(&results[i], width);
        proof {
            lemma_texts_push(out@, line);
            assert((start + rows.take(i as int)).push(line@) =~= start + rows.take(i as int + 1));
        }
        out.push(line);
        i = i + 1;
    }
    let last = aggregate_line(results, elapsed_ms, dry_run);
    proof {
        lemma_texts_push(out@, last);
        assert(rows.take(rows.len() as int) == rows);
        assert((start + rows).push(last@) =~= start + rows + seq![last@]);
    }
    out.push(last);
    out
}

/// The names of the steps that were skipped, in order.
pub open spec fn skipped_names(results: Seq<StepResult>) -> Seq<Seq<char>>
    decreases results.len(),
{
    if results.len() == 0 {
        seq![]
    } else {
        let before = skipped_names(results.drop_last());
        if results.last().summary.was_skipped() {
            before.push(results.last().name@)
        } else {
            before
        }
    }
}

/// The command that runs the skipped steps again, if there are any.
pub open spec fn rerun_text(results: Seq<StepResult>, dry_run: bool) -> Option<Seq<char>> {
    let names = skipped_names(results);
    if names.len() == 0 {
        None
    } else {
        Some(
            "backup all"@ + (if dry_run {
                " --dry-run"@
            } else {
                ""@
            }) + " "@ + join_of(names.map_values(|n: Seq<char>| "--only "@ + n), " "@),
        )
    }
}

/// The command that runs again exactly the steps that were skipped.
pub fn rerun_command(results: &Vec<StepResult>, dry_run: bool) -> (r: Option<String>)
    ensures
        crate::text::opt_text(r) == rerun_text(results@, dry_run),
{
    let ghost put = |n: Seq<char>| "--only "@ + n;
    let mut only: Vec<String> = Vec::new();
    let mut i: usize = 0;
    proof {
        assert(results@.take(0) =~= Seq::<StepResult>::empty());
        assert(texts(only@) =~= skipped_names(results@.take(0)).map_values(put));
    }
    while i < results.len()
        invariant
            i <= results@.len(),
            put == (|n: Seq<char>| "--only "@ + n),
            texts(only@) == skipped_names(results@.take(i as int)).map_values(put),
        decreases results@.len() - i,
    {
        assert(results@.take(i as int + 1).drop_last() =~= results@.take(i as int));
        if results[i].summary.skipped() {
            let mut arg = "--only ".to_string();
            arg.append(results[i].name.as_str());
            proof {
                let before = skipped_names(results@.take(i as int));
                lemma_texts_push(only@, arg);
                assert(before.push(results@[i as int].name@).map_values(put) =~= before.map_values(
                    put,
                ).push(arg@));
            }
            only.push(arg);
        }
        i = i + 1;
    }
    assert(results@.take(results@.len() as int) =~= results@);
    assert(texts(only@).len() == only@.len());
    if only.len() == 0 {
        return None;
    }
    let mut out = "backup all".to_string();
    if dry_run {
        out.append(" --dry-run");
    } else {
        out.append("");
    }
    out.append(" ");
    out.append(join(&only, " ").as_str());
    Some(out)
}

/// The lines that say how to run the skipped steps again.
pub fn rerun_lines(results: &Vec<StepResult>, dry_run: bool) -> (r: Vec<String>)
    ensures
        texts(r@) == match rerun_text(results@, dry_run) {
            Some(command) => seq![
                "all: "@ + decimal_of(skipped_names(results@).len())
                    + " cleaner(s) skipped. Re-run just those:"@,
                "  "@ + command,
            ],
            None => seq![],
        },
{
    let mut out: Vec<String> = Vec::new();
    match rerun_command(results, dry_run) {
        Some(command) => {
            let mut n: u64 = 0;
            let mut i: usize = 0;
            assert(results@.take(0) =~= Seq::<StepResult>::empty());
            while i < results.len()
                invariant
                    i <= results@.len(),
                    n <= i,
                    n == skipped_names(results@.take(i as int)).len(),
                decreases results@.len() - i,
            {
                assert(results@.take(i as int + 1).drop_last() =~= results@.take(i as int));
                if results[i].summary.skipped() {
                    n = n + 1;
                }
                i = i + 1;
            }
            assert(results@.take(results@.len() as int) =~= results@);
            let mut first = "all: ".to_string();
            first.append(decimal(n).as_str());
            first.append(" cleaner(s) skipped. Re-run just those:");
            let mut second = "  ".to_string();
            second.append(command.as_str());
            let ghost lines = seq![first@, second@];
            out.push(first);
            out.push(second);
            assert(texts(out@) =~= lines);
            out
        },
        None => {
            assert(texts(out@) =~= seq![]);
            out
        },
    }
}

/// The texts of `part` stand in `list` in the same order.
pub open spec fn in_turn(part: Seq<Seq<char>>, list: Seq<Seq<char>>) -> bool
    decreases list.len(),
{
    if part.len() == 0 {
        true
    } else if list.len() == 0 {
        false
    } else {
        ||| in_turn(part, list.drop_last())
        ||| part.last() == list.last() && in_turn(part.drop_last(), list.drop_last())
    }
}

proof fn lemma_in_turn_members(part: Seq<Seq<char>>, list: Seq<Seq<char>>, x: Seq<char>)
    requires
        in_turn(part, list),
        part.contains(x),
    ensures
        list.contains(x),
    decreases list.len(),
{
    let head = list.drop_last();
    let i = choose|i: int| 0 <= i < part.len() && part[i] == x;
    if in_turn(part, head) {
        lemma_in_turn_members(part, head, x);
        let k = choose|k: int| 0 <= k < head.len() && head[k] == x;
        assert(list[k] == x);
    } else if i == part.len() - 1 {
        assert(list[list.len() - 1] == x);
    } else {
        assert(part.drop_last()[i] == x);
        lemma_in_turn_members(part.drop_last(), head, x);
        let k = choose|k: int| 0 <= k < head.len() && head[k] == x;
        assert(list[k] == x);
    }
}

proof fn lemma_in_turn_twice(a: Seq<Seq<char>>, b: Seq<Seq<char>>, c: Seq<Seq<char>>)
    requires
        in_turn(a, b),
        in_turn(b, c),
    ensures
        in_turn(a, c),
    decreases c.len(),
{
    if a.len() > 0 {
        let head = c.drop_last();
        if in_turn(b, head) {
            lemma_in_turn_twice(a, b, head);
        } else if in_turn(a, b.drop_last()) {
            lemma_in_turn_twice(a, b.drop_last(), head);
        } else {
            lemma_in_turn_twice(a.drop_last(), b.drop_last(), head);
        }
    }
}

proof fn lemma_in_turn_filter(list: Seq<Seq<char>>, keep: spec_fn(Seq<char>) -> bool)
    ensures
        in_turn(list.filter(keep), list),
    decreases list.len(),
{
    reveal(Seq::filter);
    if list.len() > 0 {
        let head = list.drop_last();
        lemma_in_turn_filter(head, keep);
        if keep(list.last()) {
            assert(list.filter(keep).drop_last() =~= head.filter(keep));
        }
    }
}

proof fn lemma_in_turn_first(list: Seq<Seq<char>>, n: int)
    requires
        0 <= n <= list.len(),
    ensures
        in_turn(list.take(n), list),
    decreases list.len(),
{
    if list.len() > 0 {
        let head = list.drop_last();
        if n < list.len() {
            lemma_in_turn_first(head, n);
            assert(head.take(n) =~= list.take(n));
        } else {
            lemma_in_turn_first(head, n - 1);
            assert(list.take(n).drop_last() =~= head.take(n - 1));
            assert(list.take(n).last() == list.last());
        }
    }
}

proof fn lemma_skipped_in_turn(results: Seq<StepResult>)
    ensures
        in_turn(skipped_names(results), result_names(results)),
    decreases results.len(),
{
    if results.len() > 0 {
        lemma_skipped_in_turn(results.drop_last());
        assert(result_names(results).drop_last() =~= result_names(results.drop_last()));
        assert(result_names(results).last() == results.last().name@);
        if skipped_names(results) != skipped_names(results.drop_last()) {
            assert(skipped_names(results).drop_last() =~= skipped_names(results.drop_last()));
        }
    }
}

proof fn lemma_chosen_again(part: Seq<Seq<char>>, list: Seq<Seq<char>>)
    requires
        in_turn(part, list),
        list.no_duplicates(),
    ensures
        list.filter(|s: Seq<char>| part.contains(s)) == part,
    decreases list.len(),
{
    reveal(Seq::filter);
    let keep = |s: Seq<char>| part.contains(s);
    if list.len() == 0 {
        assert(list.filter(keep) =~= part);
    } else {
        let head = list.drop_last();
        let x = list.last();
        assert(!head.contains(x)) by {
            if head.contains(x) {
                let k = choose|k: int| 0 <= k < head.len() && head[k] == x;
                assert(list[k] == list[list.len() - 1]);
            }
        }
        if in_turn(part, head) {
            lemma_chosen_again(part, head);
            if part.contains(x) {
                lemma_in_turn_members(part, head, x);
            }
        } else {
            let rest = part.drop_last();
            lemma_chosen_again(rest, head);
            lemma_same_choice(head, |s: Seq<char>| rest.contains(s), keep, x, part);
            assert(part[part.len() - 1] == x);
            assert(list.filter(keep) =~= rest.push(x));
        }
    }
}

/// Below a text that is not in the list, a choice with the text and one without
/// it agree.
proof fn lemma_same_choice(
    list: Seq<Seq<char>>,
    without: spec_fn(Seq<char>) -> bool,
    with: spec_fn(Seq<char>) -> bool,
    x: Seq<char>,
    part: Seq<Seq<char>>,
)
    requires
        part.len() > 0,
        part.last() == x,
        without == (|s: Seq<char>| part.drop_last().contains(s)),
        with == (|s: Seq<char>| part.contains(s)),
        !list.contains(x),
    ensures
        list.filter(without) == list.filter(with),
    decreases list.len(),
{
    reveal(Seq::filter);
    if list.len() > 0 {
        let head = list.drop_last();
        let y = list.last();
        assert(list[list.len() - 1] == y);
        assert(!head.contains(x)) by {
            if head.contains(x) {
                let k = choose|k: int| 0 <= k < head.len() && head[k] == x;
                assert(list[k] == x);
            }
        }
        lemma_same_choice(head, without, with, x, part);
        if part.contains(y) {
            let k = choose|k: int| 0 <= k < part.len() && part[k] == y;
            assert(part.drop_last()[k] == y);
        }
        if part.drop_last().contains(y) {
            let k = choose|k: int| 0 <= k < part.len() - 1 && part.drop_last()[k] == y;
            assert(part[k] == y);
        }
    }
}

/// Choosing the skipped steps of a run, as the suggested command does, runs
/// exactly those, in their order: whichever steps the run was of, and however
/// far it came.
pub proof fn law_rerun_is_exact(
    steps: Seq<Seq<char>>,
    skip: Seq<Seq<char>>,
    only: Seq<Seq<char>>,
    results: Seq<StepResult>,
)
    requires
        steps.no_duplicates(),
        results.len() <= resolved(steps, skip, only).len(),
        result_names(results) == resolved(steps, skip, only).take(results.len() as int),
        skipped_names(results).len() > 0,
    ensures
        resolved(steps, Seq::empty(), skipped_names(results)) == skipped_names(results),
{
    let again = skipped_names(results);
    let ran = resolved(steps, skip, only);
    lemma_skipped_in_turn(results);
    lemma_in_turn_first(ran, results.len() as int);
    lemma_in_turn_filter(steps, |s: Seq<char>| wanted(s, skip, only));
    lemma_in_turn_twice(again, result_names(results), ran);
    lemma_in_turn_twice(again, ran, steps);
    lemma_chosen_again(again, steps);
    let none = Seq::<Seq<char>>::empty();
    assert((|s: Seq<char>| wanted(s, none, again)) =~= (|s: Seq<char>| again.contains(s)));
}

/// The steps that run where none are configured, in order.
pub proof fn law_default_steps(r: Vec<String>)
    requires
        call_ensures(default_steps, (), r),
    ensures
        texts(r@) == seq![
            "git-maintenance"@,
            "clean-maven"@,
            "clean-node"@,
            "clean-cargo"@,
            "clean-m2"@,
            "clean-gradle"@,
            "clean-tmp"@,
            "clean-xcode"@,
            "clean-docker"@,
            "clean-brew"@,
            "clean-npm"@,
            "clean-yarn"@,
            "clean-pnpm"@,
            "clean-pip"@,
            "clean-cocoapods"@,
            "clean-go-build"@,
            "clean-go-mod-cache"@,
            "clean-python-artifacts"@,
            "clean-jetbrains"@,
            "clean-logs"@,
            "clean-library-caches"@,
            "clean-electron-caches"@,
            "clean-chrome"@,
            "clean-steam"@,
            "clean-playwright"@,
            "clean-cypress"@,
            "clean-node-gyp"@,
            "clean-mise"@,
            "clean-xdg-cache"@,
            "clean-rustup"@,
            "clean-trash"@,
            "bz-cleanup"@,
        ],
{
}

/// A name that is none of the known ones is found, and the first of them.
pub proof fn lemma_first_unknown(names: Seq<Seq<char>>, known: Seq<Seq<char>>)
    ensures
        match first_unknown(names, known) {
            Some(name) => exists|i: int|
                0 <= i < names.len() && #[trigger] names[i] == name && !known.contains(name) && (
                forall|j: int| 0 <= j < i ==> known.contains(#[trigger] names[j])),
            None => forall|i: int| 0 <= i < names.len() ==> known.contains(#[trigger] names[i]),
        },
    decreases names.len(),
{
    if names.len() > 0 {
        if !known.contains(names[0]) {
            assert(names[0] == names[0]);
        } else {
            let rest = names.drop_first();
            lemma_first_unknown(rest, known);
            match first_unknown(rest, known) {
                Some(name) => {
                    let i = choose|i: int|
                        0 <= i < rest.len() && #[trigger] rest[i] == name && !known.contains(name)
                            && (forall|j: int| 0 <= j < i ==> known.contains(#[trigger] rest[j]));
                    assert(names[i + 1] == name);
                    assert forall|j: int| 0 <= j < i + 1 implies known.contains(
                        #[trigger] names[j],
                    ) by {
                        if j > 0 {
                            assert(rest[j - 1] == names[j]);
                        }
                    }
                },
                None => {
                    assert forall|j: int| 0 <= j < names.len() implies known.contains(
                        #[trigger] names[j],
                    ) by {
                        if j > 0 {
                            assert(rest[j - 1] == names[j]);
                        }
                    }
                },
            }
        }
    }
}

/// A run is of the configured steps, or of the default ones: those that are not
/// left out, and of them only the chosen ones where any are chosen. It is
/// refused exactly where a step that does not exist is left out or chosen.
pub proof fn law_plan(
    args: Args,
    configured: Option<Vec<String>>,
    r: Result<Vec<String>, String>,
    step: Seq<char>,
)
    requires
        call_ensures(plan, (&args, &configured), r),
    ensures
        r is Ok <==> (forall|i: int|
            0 <= i < args.skip@.len() ==> default_step_names().contains(
                (#[trigger] args.skip@[i])@,
            )) && (forall|i: int|
            0 <= i < args.only@.len() ==> default_step_names().contains(
                (#[trigger] args.only@[i])@,
            )),
        r matches Ok(left) ==> {
            let steps = if configured is Some {
                texts(configured->0@)
            } else {
                default_step_names()
            };
            &&& texts(left@).contains(step) <==> steps.contains(step) && !texts(
                args.skip@,
            ).contains(step) && (args.only@.len() == 0 || texts(args.only@).contains(step))
            &&& args.skip@.len() == 0 && args.only@.len() == 0 ==> texts(left@) == steps
        },
{
    let known = default_step_names();
    let skip = texts(args.skip@);
    let only = texts(args.only@);
    assert(skip.len() == args.skip@.len() && only.len() == args.only@.len());
    lemma_first_unknown(skip, known);
    lemma_first_unknown(only, known);
    assert(forall|i: int| 0 <= i < skip.len() ==> #[trigger] skip[i] == args.skip@[i]@);
    assert(forall|i: int| 0 <= i < only.len() ==> #[trigger] only[i] == args.only@[i]@);
    if r is Ok {
        assert forall|i: int| 0 <= i < args.skip@.len() implies known.contains(
            (#[trigger] args.skip@[i])@,
        ) by {
            assert(skip[i] == args.skip@[i]@);
        }
        assert forall|i: int| 0 <= i < args.only@.len() implies known.contains(
            (#[trigger] args.only@[i])@,
        ) by {
            assert(only[i] == args.only@[i]@);
        }
        let steps = if configured is Some {
            texts(configured->0@)
        } else {
            known
        };
        law_only_minus_skip(steps, skip, only, step);
        if skip.len() == 0 && only.len() == 0 {
            lemma_all_kept(steps, |s: Seq<char>| wanted(s, skip, only));
        }
    } else {
        match first_unknown(skip, known) {
            Some(name) => {
                let i = choose|i: int|
                    0 <= i < skip.len() && #[trigger] skip[i] == name && !known.contains(name);
                assert(skip[i] == args.skip@[i]@);
            },
            None => {
                let name = first_unknown(only, known)->0;
                let i = choose|i: int|
                    0 <= i < only.len() && #[trigger] only[i] == name && !known.contains(name);
                assert(only[i] == args.only@[i]@);
            },
        }
    }
}

proof fn lemma_all_kept(list: Seq<Seq<char>>, keep: spec_fn(Seq<char>) -> bool)
    requires
        forall|s: Seq<char>| #[trigger] keep(s),
    ensures
        list.filter(keep) == list,
    decreases list.len(),
{
    reveal(Seq::filter);
    if list.len() > 0 {
        lemma_all_kept(list.drop_last(), keep);
        assert(list.drop_last().push(list.last()) =~= list);
    } else {
        assert(list.filter(keep) =~= list);
    }
}

/// One more step runs exactly where it is not left out, and is chosen where any
/// are; it runs behind those before it.
pub proof fn law_every_step(
    steps: Seq<Seq<char>>,
    step: Seq<char>,
    skip: Seq<Seq<char>>,
    only: Seq<Seq<char>>,
)
    ensures
        resolved(Seq::empty(), skip, only) == Seq::<Seq<char>>::empty(),
        resolved(steps.push(step), skip, only) == if !skip.contains(step) && (only.len() == 0
            || only.contains(step)) {
            resolved(steps, skip, only).push(step)
        } else {
            resolved(steps, skip, only)
        },
{
    reveal(Seq::filter);
    assert(steps.push(step).drop_last() =~= steps);
    assert(resolved(Seq::empty(), skip, only) =~= Seq::<Seq<char>>::empty());
}

/// How a step is told to have gone: a failure counts before all else, and a step
/// was skipped where it only recorded skips.
pub proof fn law_step_status(s: CommandSummary, tag: &'static str, counts: String)
    requires
        call_ensures(step_status, (&s,), tag),
        call_ensures(step_counts, (&s,), counts),
    ensures
        s.items_failed > 0 ==> tag@ == "FAIL"@,
        s.items_failed == 0 && s.items_ok == 0 && s.items_skipped > 0 ==> tag@ == "skip"@,
        s.items_failed == 0 && (s.items_ok > 0 || s.items_skipped == 0) ==> tag@ == "ok "@,
        s.items_skipped == 0 ==> counts@ == "("@ + decimal_of(s.items_ok as nat) + " ok, "@
            + decimal_of(s.items_failed as nat) + " failed"@ + ")"@,
        s.items_skipped > 0 ==> counts@ == "("@ + decimal_of(s.items_ok as nat) + " ok, "@
            + decimal_of(s.items_failed as nat) + " failed"@ + ", "@ + decimal_of(
            s.items_skipped as nat,
        ) + " skipped)"@,
{
}

/// One more result counts as failed, as skipped or as passed, and its outcome is
/// added to the total.
pub proof fn law_every_result(results: Seq<StepResult>, result: StepResult)
    ensures
        total_of(Seq::empty()) == nothing(),
        total_of(results.push(result)) == together(total_of(results), result.summary),
        ({
            let s = result.summary;
            let all = results.push(result);
            &&& count_results(all, is_failed()) == count_results(results, is_failed()) + if s.items_failed
                > 0 {
                1nat
            } else {
                0nat
            }
            &&& count_results(all, is_skipped()) == count_results(results, is_skipped()) + if s.items_failed
                == 0 && s.items_ok == 0 && s.items_skipped > 0 {
                1nat
            } else {
                0nat
            }
            &&& count_results(all, is_passed()) == count_results(results, is_passed()) + if s.items_failed
                == 0 && (s.items_ok > 0 || s.items_skipped == 0) {
                1nat
            } else {
                0nat
            }
        }),
        skipped_names(Seq::empty()) == Seq::<Seq<char>>::empty(),
        skipped_names(results.push(result)) == if result.summary.items_failed == 0
            && result.summary.items_ok == 0 && result.summary.items_skipped > 0 {
            skipped_names(results).push(result.name@)
        } else {
            skipped_names(results)
        },
{
    assert(results.push(result).drop_last() =~= results);
    assert(results.push(result).last() == result);
}

/// The last line of a run.
pub proof fn law_aggregate_line(
    results: Vec<StepResult>,
    elapsed_ms: u64,
    dry_run: bool,
    r: String,
)
    requires
        call_ensures(aggregate_line, (&results, elapsed_ms, dry_run), r),
    ensures
        r@ == "all: "@ + decimal_of(count_results(results@, is_passed())) + " passed, "@
            + decimal_of(count_results(results@, is_failed())) + " failed, "@ + decimal_of(
            count_results(results@, is_skipped()),
        ) + " skipped, "@ + (if dry_run {
            "would free"@
        } else {
            "freed"@
        }) + " "@ + human_size(total_of(results@).bytes_freed) + " across "@ + decimal_of(
            (total_of(results@).items_ok + total_of(results@).items_failed) as nat,
        ) + " items in "@ + duration_text(elapsed_ms),
{
}

/// The lines that close a run: a blank line, a header, a line for each result
/// and the last line.
pub proof fn law_print_aggregate_summary(
    results: Vec<StepResult>,
    elapsed_ms: u64,
    dry_run: bool,
    r: Vec<String>,
    i: int,
)
    requires
        call_ensures(print_aggregate_summary, (&results, elapsed_ms, dry_run), r),
    ensures
        r@.len() == results@.len() + 3,
        r@[0]@.len() == 0,
        dry_run ==> r@[1]@ == "all: per-command results (dry run):"@,
        !dry_run ==> r@[1]@ == "all: per-command results:"@,
        r@.last()@ == aggregate_text(results@, elapsed_ms, dry_run),
        0 <= i < results@.len() ==> r@[i + 2]@ == "  ["@ + status_of(results@[i].summary) + "] "@
            + padded(results@[i].name@, results@[i].name@, widest(result_names(results@))) + "  "@
            + right_aligned(human_size(results@[i].summary.bytes_freed), 10) + "  "@ + counts_of(
            results@[i].summary,
        ),
{
    reveal_strlit("");
    let all = texts(r@);
    assert(all.len() == r@.len());
    assert(all[0] == r@[0]@);
    assert(all[1] == r@[1]@);
    assert(all[all.len() - 1] == r@[r@.len() - 1]@);
    if 0 <= i < results@.len() {
        assert(all[i + 2] == r@[i + 2]@);
    }
}

/// A text moved to the right fills its column from the left with spaces.
pub proof fn law_moved_right(s: Seq<char>, width: nat)
    ensures
        s.len() >= width ==> right_aligned(s, width) == s,
        s.len() < width ==> right_aligned(s, width).len() == width && right_aligned(s, width).skip(
            width - s.len(),
        ) == s && forall|i: int|
            0 <= i < width - s.len() ==> #[trigger] right_aligned(s, width)[i] == ' ',
{
    if s.len() < width {
        assert(right_aligned(s, width).skip(width - s.len()) =~= s);
    }
}

/// The command that is suggested names every skipped step, in order, and there
/// is none where no step was skipped.
pub proof fn law_rerun_command(
    results: Vec<StepResult>,
    dry_run: bool,
    r: Option<String>,
    parts: Seq<Seq<char>>,
)
    requires
        call_ensures(rerun_command, (&results, dry_run), r),
        parts.len() == skipped_names(results@).len(),
        forall|i: int|
            0 <= i < parts.len() ==> #[trigger] parts[i] == "--only "@ + skipped_names(results@)[i],
    ensures
        r is None <==> skipped_names(results@).len() == 0,
        r is Some && dry_run ==> r->0@ == "backup all --dry-run "@ + join_of(parts, " "@),
        r is Some && !dry_run ==> r->0@ == "backup all "@ + join_of(parts, " "@),
{
    let names = skipped_names(results@);
    assert(parts =~= names.map_values(|n: Seq<char>| "--only "@ + n));
    reveal_strlit("backup all");
    reveal_strlit(" --dry-run");
    reveal_strlit("");
    reveal_strlit(" ");
    reveal_strlit("backup all --dry-run ");
    reveal_strlit("backup all ");
    assert("backup all"@ + " --dry-run"@ + " "@ =~= "backup all --dry-run "@);
    assert("backup all"@ + ""@ + " "@ =~= "backup all "@);
}

} // verus!
