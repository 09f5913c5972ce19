//! Uninstalls Rust toolchains that nothing refers to.
use super::{one_failed, one_ok, one_skipped, summary, CommandSummary};
use crate::bytes::lossy_text;
use crate::config::{
    all_expanded, choose_flag, choose_usize, chosen, expand_tildes, flag, CleanRustupConfig,
};
use crate::counting::{distinct_texts, text_set};
use crate::document::{behind, member, parse_document, text_in, toml_document, toml_entries};
use crate::path::{file_name, file_name_of, parent, parent_of};
use crate::process::{output_of, ran_well, succeeded, Finished, Invocation, Next, Reply};
use crate::search::{starts_with, starts_with_of, strip_prefix};
use crate::split::{fields, fields_of, find_char, index_of, lines, lines_of, words, words_of};
use crate::text::{
    chars_of, contains_text, lemma_texts_push, opt_text, opt_texts, result_text, same, string_of,
    texts, trim, trim_of, trim_start, trim_start_of,
};
use crate::ui::char_count;
use vstd::prelude::*;

verus! {

pub const DEFAULT_DEPTH: usize = 5;

#[derive(Debug, Default)]
pub struct Args {
    /// Roots to search for toolchain pins.
    pub roots: Vec<String>,
    /// How deep pins are searched for.
    pub depth: Option<usize>,
    /// Uninstall, where the default is a preview.
    pub remove: bool,
}

/// What the command works on.
#[derive(Debug)]
pub struct Settings {
    pub remove: bool,
    pub depth: usize,
    pub roots: Vec<String>,
}

/// The roots to search for pins: those of the command line, else the configured
/// ones, else the global ones, else none.
pub open spec fn pin_roots(
    cli: Seq<Seq<char>>,
    configured: Option<Seq<Seq<char>>>,
    global: Option<Seq<Seq<char>>>,
    home: Option<Seq<char>>,
) -> Seq<Seq<char>> {
    if cli.len() > 0 {
        all_expanded(cli, home)
    } else if configured is Some {
        all_expanded(configured->0, home)
    } else if global is Some {
        all_expanded(global->0, home)
    } else {
        seq![]
    }
}

/// Resolves the settings. Toolchains are uninstalled only where there are roots
/// to search for pins.
pub fn resolve_settings(
    args: &Args,
    cfg: &CleanRustupConfig,
    global_roots: &Option<Vec<String>>,
    home: &Option<String>,
) -> (r: Result<Settings, String>)
    ensures
        ({
            let remove = flag(args.remove, cfg.remove);
            let roots = pin_roots(
                texts(args.roots@),
                opt_texts(cfg.roots),
                opt_texts(*global_roots),
                opt_text(*home),
            );
            match r {
                Ok(s) => {
                    &&& !(remove && roots.len() == 0)
                    &&& s.remove == remove
                    &&& s.depth == chosen(args.depth, cfg.depth, DEFAULT_DEPTH)
                    &&& texts(s.roots@) == roots
                },
                Err(message) => remove && roots.len() == 0 && message@
                    == "Rustup removal requires at least one configured project root"@,
            }
        }),
{
    let remove = choose_flag(args.remove, cfg.remove);
    assert(texts(args.roots@).len() == args.roots@.len());
    let roots: Vec<String> = if args.roots.len() > 0 {
        expand_tildes(&args.roots, home)
    } else {
        match &cfg.roots {
            Some(list) => expand_tildes(list, home),
            None => match global_roots {
                Some(list) => expand_tildes(list, home),
                None => {
                    let none: Vec<String> = Vec::new();
                    assert(texts(none@) =~= seq![]);
                    none
                },
            },
        }
    };
    assert(texts(roots@).len() == roots@.len());
    if remove && roots.len() == 0 {
        return Err("Rustup removal requires at least one configured project root".to_string());
    }
    Ok(Settings { remove, depth: choose_usize(args.depth, cfg.depth, DEFAULT_DEPTH), roots })
}

// ---------------------------------------------------------------------------
// Asking rustup
// ---------------------------------------------------------------------------

/// The question whether rustup is installed.
pub fn ask_version() -> (r: Invocation)
    ensures
        r.runs("rustup"@, seq!["--version"@]),
{
    let r = Invocation::new("rustup").arg("--version");
    assert(texts(r.args@) =~= seq!["--version"@]);
    r
}

/// Without rustup the command is skipped. With it, the installed toolchains are
/// asked for.
pub fn after_version(reply: &Reply) -> (r: Next<()>)
    ensures
        if succeeded(*reply) {
            r.runs("rustup"@, seq!["toolchain"@, "list"@], ())
        } else {
            r.done(one_skipped())
        },
{
    if ran_well(reply) {
        let ask = Invocation::new("rustup").arg("toolchain").arg("list");
        assert(texts(ask.args@) =~= seq!["toolchain"@, "list"@]);
        Next::Run(ask, ())
    } else {
        Next::Done(CommandSummary::skipped_one())
    }
}

/// The question for the directory overrides.
pub fn ask_overrides() -> (r: Invocation)
    ensures
        r.runs("rustup"@, seq!["override"@, "list"@]),
{
    let r = Invocation::new("rustup").arg("override").arg("list");
    assert(texts(r.args@) =~= seq!["override"@, "list"@]);
    r
}

/// What a listing of rustup says, or why there is none.
pub open spec fn listed(reply: Reply, command: Seq<char>) -> Result<Seq<char>, Seq<char>> {
    match reply {
        Reply::NotStarted(_) => Err("failed to invoke `"@ + command + "`"@),
        Reply::Finished(done) => if done.success {
            Ok(lossy_text(done.stdout@))
        } else {
            Err("`"@ + command + "` exited with "@ + done.status@)
        },
    }
}

fn listing(reply: &Reply, command: &str) -> (r: Result<String, String>)
    ensures
        match r {
            Ok(text) => listed(*reply, command@) == Ok::<Seq<char>, Seq<char>>(text@),
            Err(message) => listed(*reply, command@) == Err::<Seq<char>, Seq<char>>(message@),
        },
{
    match reply {
        Reply::NotStarted(_) => {
            let mut message = "failed to invoke `".to_string();
            message.append(command);
            message.append("`");
            Err(message)
        },
        Reply::Finished(done) => {
            if done.success {
                Ok(output_of(done))
            } else {
                let mut message = "`".to_string();
                message.append(command);
                message.append("` exited with ");
                message.append(done.status.as_str());
                Err(message)
            }
        },
    }
}

/// The list of installed toolchains.
pub fn list_toolchains(reply: &Reply) -> (r: Result<String, String>)
    ensures
        match r {
            Ok(text) => listed(*reply, "rustup toolchain list"@) == Ok::<Seq<char>, Seq<char>>(
                text@,
            ),
            Err(message) => listed(*reply, "rustup toolchain list"@) == Err::<
                Seq<char>,
                Seq<char>,
            >(message@),
        },
{
    listing(reply, "rustup toolchain list")
}

/// The toolchains that directory overrides refer to.
pub fn list_overridden_toolchains(reply: &Reply) -> (r: Result<Vec<String>, String>)
    ensures
        match listed(*reply, "rustup override list"@) {
            Ok(text) => r matches Ok(names) && texts(names@) == text_set(override_names(
                lines_of(text),
            )),
            Err(message) => r matches Err(m) && m@ == message,
        },
{
    match listing(reply, "rustup override list") {
        Ok(text) => Ok(parse_override_toolchains(text.as_str())),
        Err(message) => Err(message),
    }
}

/// The toolchain that an override line names: what is behind its last tab.
pub open spec fn override_name(line: Seq<char>) -> Option<Seq<char>> {
    let l = trim_of(line);
    let name = trim_of(fields_of(l, '\t').last());
    if l.len() == 0 || l == "no overrides"@ || name.len() == 0 {
        None
    } else {
        Some(name)
    }
}

pub open spec fn override_names(list: Seq<Seq<char>>) -> Seq<Seq<char>>
    decreases list.len(),
{
    if list.len() == 0 {
        seq![]
    } else {
        let before = override_names(list.drop_last());
        match override_name(list.last()) {
            Some(name) => before.push(name),
            None => before,
        }
    }
}

fn override_of(line: &str) -> (r: Option<String>)
    ensures
        opt_text(r) == override_name(line@),
{
    let l = trim(line);
    if char_count(l.as_str()) == 0 || same(l.as_str(), "no overrides") {
        return None;
    }
    let parts = fields(l.as_str(), '\t');
    assert(texts(parts@).last() == parts@[parts@.len() - 1]@);
    let name = trim(parts[parts.len() - 1].as_str());
    if char_count(name.as_str()) == 0 {
        None
    } else {
        Some(name)
    }
}

/// Parses the list of directory overrides. Each line is a path, a tab, and the
/// name of a toolchain; the names come out in order, each once.
pub fn parse_override_toolchains(output: &str) -> (r: Vec<String>)
    ensures
        texts(r@) == text_set(override_names(lines_of(output@))),
{
    let list = lines(output);
    let ghost all = texts(list@);
    let mut names: Vec<String> = Vec::new();
    let mut i: usize = 0;
    assert(all.take(0) =~= Seq::<Seq<char>>::empty());
    assert(texts(names@) =~= override_names(all.take(0)));
    while i < list.len()
        invariant
            i <= list@.len(),
            all == texts(list@),
            texts(names@) == override_names(all.take(i as int)),
        decreases list@.len() - i,
    {
        proof {
            assert(all.take(i as int + 1).drop_last() =~= all.take(i as int));
            assert(all.take(i as int + 1).last() == list@[i as int]@);
        }
        match override_of(list[i].as_str()) {
            Some(name) => {
                proof {
                    lemma_texts_push(names@, name);
                }
                names.push(name);
            },
            None => {},
        }
        i = i + 1;
    }
    assert(all.take(all.len() as int) =~= all);
    distinct_texts(&names)
}

// ---------------------------------------------------------------------------
// Which toolchains stay
// ---------------------------------------------------------------------------

/// `s` without the copies of `c` at its end.
pub open spec fn without_trailing(s: Seq<char>, c: char) -> Seq<char>
    decreases s.len(),
{
    if s.len() > 0 && s.last() == c {
        without_trailing(s.drop_last(), c)
    } else {
        s
    }
}

/// The markers of a toolchain's line, such as `active, default`.
pub open spec fn markers_of(line: Seq<char>) -> Seq<char> {
    let k = index_of(line, '(');
    if k < line.len() {
        without_trailing(line.skip(k + 1), ')')
    } else {
        seq![]
    }
}

/// A marker says that the toolchain is in use.
pub open spec fn keeps(marker: Seq<char>) -> bool {
    trim_of(marker) == "active"@ || trim_of(marker) == "default"@
}

pub open spec fn marked_in_use(line: Seq<char>) -> bool {
    exists|i: int|
        0 <= i < fields_of(markers_of(line), ',').len() && keeps(
            #[trigger] fields_of(markers_of(line), ',')[i],
        )
}

fn markers(line: &str) -> (r: String)
    ensures
        r@ == markers_of(line@),
{
    let v = chars_of(line);
    assert(v@.skip(0) =~= v@);
    let k = find_char(&v, 0, '(');
    if k == v.len() {
        assert(""@ =~= Seq::<char>::empty()) by {
            reveal_strlit("");
        }
        return "".to_string();
    }
    let mut end: usize = v.len();
    let ghost rest = v@.skip(k as int + 1);
    assert(v@.subrange(k as int + 1, end as int) =~= rest);
    while end > k + 1 && v[end - 1] == ')'
        invariant
            k < v@.len(),
            k + 1 <= end <= v@.len(),
            without_trailing(rest, ')') == without_trailing(
                v@.subrange(k as int + 1, end as int),
                ')',
            ),
        decreases end,
    {
        assert(v@.subrange(k as int + 1, end as int).drop_last() =~= v@.subrange(
            k as int + 1,
            end as int - 1,
        ));
        end = end - 1;
    }
    string_of(&v, k + 1, end)
}

fn is_marked_in_use(line: &str) -> (r: bool)
    ensures
        r == marked_in_use(line@),
{
    let inner = markers(line);
    let parts = fields(inner.as_str(), ',');
    let ghost all = fields_of(markers_of(line@), ',');
    let mut i: usize = 0;
    while i < parts.len()
        invariant
            i <= parts@.len(),
            all == texts(parts@),
            all == fields_of(markers_of(line@), ','),
            forall|j: int| 0 <= j < i ==> !keeps(#[trigger] all[j]),
        decreases parts@.len() - i,
    {
        assert(all[i as int] == parts@[i as int]@);
        let marker = trim(parts[i].as_str());
        if same(marker.as_str(), "active") || same(marker.as_str(), "default") {
            return true;
        }
        i = i + 1;
    }
    false
}

/// An installed toolchain is the one that a pin names, or that with a host.
pub open spec fn pinned_by(installed: Seq<char>, reference: Seq<char>) -> bool {
    ||| installed == reference
    ||| starts_with_of(installed, reference) && starts_with_of(
        installed.skip(reference.len() as int),
        "-"@,
    )
}

pub fn toolchain_matches_reference(installed: &str, reference: &str) -> (r: bool)
    ensures
        r == pinned_by(installed@, reference@),
{
    if same(installed, reference) {
        return true;
    }
    match strip_prefix(installed, reference) {
        Some(suffix) => starts_with(suffix.as_str(), "-"),
        None => false,
    }
}

pub open spec fn pinned(installed: Seq<char>, references: Seq<Seq<char>>) -> bool {
    exists|i: int| 0 <= i < references.len() && pinned_by(installed, #[trigger] references[i])
}

/// Why a toolchain stays, if it does.
pub open spec fn retention(
    line: Seq<char>,
    name: Seq<char>,
    overridden: Seq<Seq<char>>,
    referenced: Seq<Seq<char>>,
) -> Option<Seq<char>> {
    if marked_in_use(line) {
        Some("active or default"@)
    } else if overridden.contains(name) {
        Some("rustup directory override"@)
    } else if pinned(name, referenced) {
        Some("project toolchain pin"@)
    } else {
        None
    }
}

/// Why a toolchain stays, if it does: it is in use, a directory override names
/// it, or a project pins it.
pub fn retention_reason(
    line: &str,
    name: &str,
    overridden: &Vec<String>,
    referenced: &Vec<String>,
) -> (r: Option<&'static str>)
    ensures
        match r {
            Some(reason) => retention(line@, name@, texts(overridden@), texts(referenced@))
                == Some(reason@),
            None => retention(line@, name@, texts(overridden@), texts(referenced@)) is None,
        },
{
    if is_marked_in_use(line) {
        return Some("active or default");
    }
    if contains_text(overridden, name) {
        return Some("rustup directory override");
    }
    let ghost refs = texts(referenced@);
    let mut i: usize = 0;
    while i < referenced.len()
        invariant
            i <= referenced@.len(),
            refs == texts(referenced@),
            !marked_in_use(line@),
            !texts(overridden@).contains(name@),
            forall|j: int| 0 <= j < i ==> !pinned_by(name@, #[trigger] refs[j]),
        decreases referenced@.len() - i,
    {
        assert(refs[i as int] == referenced@[i as int]@);
        if toolchain_matches_reference(name, referenced[i].as_str()) {
            assert(pinned(name@, refs));
            return Some("project toolchain pin");
        }
        i = i + 1;
    }
    None
}

/// The toolchain of a line, where nothing keeps it.
pub open spec fn removable_in(
    line: Seq<char>,
    overridden: Seq<Seq<char>>,
    referenced: Seq<Seq<char>>,
) -> Option<Seq<char>> {
    let l = trim_of(line);
    let all = words_of(l);
    if all.len() > 0 && retention(l, all[0], overridden, referenced) is None {
        Some(all[0])
    } else {
        None
    }
}

pub open spec fn removable_names(
    list: Seq<Seq<char>>,
    overridden: Seq<Seq<char>>,
    referenced: Seq<Seq<char>>,
) -> Seq<Seq<char>>
    decreases list.len(),
{
    if list.len() == 0 {
        seq![]
    } else {
        let before = removable_names(list.drop_last(), overridden, referenced);
        match removable_in(list.last(), overridden, referenced) {
            Some(name) => before.push(name),
            None => before,
        }
    }
}

/// The toolchains of a list that nothing keeps.
pub fn removable_toolchains(
    list_output: &str,
    overridden: &Vec<String>,
    referenced: &Vec<String>,
) -> (r: Vec<String>)
    ensures
        texts(r@) == removable_names(
            lines_of(list_output@),
            texts(overridden@),
            texts(referenced@),
        ),
{
    let list = lines(list_output);
    let ghost all = texts(list@);
    let ghost over = texts(overridden@);
    let ghost refs = texts(referenced@);
    let mut out: Vec<String> = Vec::new();
    let mut i: usize = 0;
    assert(all.take(0) =~= Seq::<Seq<char>>::empty());
    assert(texts(out@) =~= removable_names(all.take(0), over, refs));
    while i < list.len()
        invariant
            i <= list@.len(),
            all == texts(list@),
            over == texts(overridden@),
            refs == texts(referenced@),
            texts(out@) == removable_names(all.take(i as int), over, refs),
        decreases list@.len() - i,
    {
        let line = trim(list[i].as_str());
        let parts = words(line.as_str());
        proof {
            assert(all.take(i as int + 1).drop_last() =~= all.take(i as int));
            assert(all.take(i as int + 1).last() == list@[i as int]@);
            assert(texts(parts@).len() == parts@.len());
        }
        if parts.len() > 0 {
            assert(texts(parts@)[0] == parts@[0]@);
            let name = parts[0].clone();
            if retention_reason(line.as_str(), name.as_str(), overridden, referenced).is_none() {
                proof {
                    lemma_texts_push(out@, name);
                }
                out.push(name);
            }
        }
        i = i + 1;
    }
    assert(all.take(all.len() as int) =~= all);
    out
}

/// What is said of each toolchain that stays.
pub open spec fn keeping_text(
    line: Seq<char>,
    overridden: Seq<Seq<char>>,
    referenced: Seq<Seq<char>>,
) -> Option<Seq<char>> {
    let all = words_of(line);
    if trim_of(line).len() == 0 {
        None
    } else {
        let name = if all.len() > 0 {
            all[0]
        } else {
            ""@
        };
        match retention(line, name, overridden, referenced) {
            Some(reason) => Some("keeping toolchain "@ + name + ": "@ + reason),
            None => None,
        }
    }
}

pub open spec fn keeping_texts(
    list: Seq<Seq<char>>,
    overridden: Seq<Seq<char>>,
    referenced: Seq<Seq<char>>,
) -> Seq<Seq<char>>
    decreases list.len(),
{
    if list.len() == 0 {
        seq![]
    } else {
        let before = keeping_texts(list.drop_last(), overridden, referenced);
        match keeping_text(list.last(), overridden, referenced) {
            Some(text) => before.push(text),
            None => before,
        }
    }
}

fn keeping_line(line: &str, overridden: &Vec<String>, referenced: &Vec<String>) -> (r: Option<
    String,
>)
    ensures
        opt_text(r) == keeping_text(line@, texts(overridden@), texts(referenced@)),
{
    let trimmed = trim(line);
    if char_count(trimmed.as_str()) == 0 {
        return None;
    }
    let parts = words(line);
    assert(texts(parts@).len() == parts@.len());
    let name: String = if parts.len() > 0 {
        assert(texts(parts@)[0] == parts@[0]@);
        parts[0].clone()
    } else {
        "".to_string()
    };
    match retention_reason(line, name.as_str(), overridden, referenced) {
        Some(reason) => {
            let mut out = "keeping toolchain ".to_string();
            out.append(name.as_str());
            out.append(": ");
            out.append(reason);
            Some(out)
        },
        None => None,
    }
}

/// Says of each toolchain that stays why it does.
pub fn keeping_lines(list_output: &str, overridden: &Vec<String>, referenced: &Vec<String>) -> (r:
    Vec<String>)
    ensures
        texts(r@) == keeping_texts(
            lines_of(list_output@),
            texts(overridden@),
            texts(referenced@),
        ),
{
    let list = lines(list_output);
    let ghost all = texts(list@);
    let ghost over = texts(overridden@);
    let ghost refs = texts(referenced@);
    let mut out: Vec<String> = Vec::new();
    let mut i: usize = 0;
    assert(all.take(0) =~= Seq::<Seq<char>>::empty());
    assert(texts(out@) =~= keeping_texts(all.take(0), over, refs));
    while i < list.len()
        invariant
            i <= list@.len(),
            all == texts(list@),
            over == texts(overridden@),
            refs == texts(referenced@),
            texts(out@) == keeping_texts(all.take(i as int), over, refs),
        decreases list@.len() - i,
    {
        proof {
            assert(all.take(i as int + 1).drop_last() =~= all.take(i as int));
            assert(all.take(i as int + 1).last() == list@[i as int]@);
        }
        match keeping_line(list[i].as_str(), overridden, referenced) {
            Some(text) => {
                proof {
                    lemma_texts_push(out@, text);
                }
                out.push(text);
            },
            None => {},
        }
        i = i + 1;
    }
    assert(all.take(all.len() as int) =~= all);
    out
}

/// A toolchain that is removed is marked neither active nor default, is named by
/// no override, and is pinned by no project.
pub proof fn law_removed_toolchains_are_unused(
    list: Seq<Seq<char>>,
    overridden: Seq<Seq<char>>,
    referenced: Seq<Seq<char>>,
    name: Seq<char>,
)
    requires
        removable_names(list, overridden, referenced).contains(name),
    ensures
        exists|i: int|
            0 <= i < list.len() && words_of(trim_of(#[trigger] list[i])).len() > 0 && words_of(
                trim_of(list[i]),
            )[0] == name && !marked_in_use(trim_of(list[i])),
        !overridden.contains(name),
        !pinned(name, referenced),
    decreases list.len(),
{
    let head = list.drop_last();
    let before = removable_names(head, overridden, referenced);
    let out = removable_names(list, overridden, referenced);
    let k = choose|k: int| 0 <= k < out.len() && out[k] == name;
    if k < before.len() {
        assert(before[k] == name);
        law_removed_toolchains_are_unused(head, overridden, referenced, name);
        let i = choose|i: int|
            0 <= i < head.len() && words_of(trim_of(#[trigger] head[i])).len() > 0 && words_of(
                trim_of(head[i]),
            )[0] == name && !marked_in_use(trim_of(head[i]));
        assert(list[i] == head[i]);
    } else {
        assert(removable_in(list.last(), overridden, referenced) == Some(name));
        assert(list[list.len() - 1] == list.last());
    }
}

/// A pin keeps the toolchain that it names, on every host.
pub proof fn law_pins_keep_every_host(reference: Seq<char>, host: Seq<char>)
    ensures
        pinned_by(reference, reference),
        pinned_by(reference + "-"@ + host, reference),
{
    reveal_strlit("-");
    let installed = reference + "-"@ + host;
    assert(installed.take(reference.len() as int) =~= reference);
    assert(installed.skip(reference.len() as int) =~= "-"@ + host);
    assert(("-"@ + host).take(1) =~= "-"@);
}

// ---------------------------------------------------------------------------
// Pins of projects
// ---------------------------------------------------------------------------

/// The directories that a search for pins does not enter.
pub open spec fn pruned_names() -> Seq<Seq<char>> {
    seq![
        ".git"@,
        ".venv"@,
        "__pycache__"@,
        "build"@,
        "dist"@,
        "node_modules"@,
        "target"@,
    ]
}

/// Decides whether a search for pins goes on at an entry. The root passes, and so
/// does everything that is no directory.
pub fn include_toolchain_scan_entry(depth: usize, is_dir: bool, name: &str) -> (r: bool)
    ensures
        r == (depth == 0 || !is_dir || !pruned_names().contains(name@)),
        !r <==> depth > 0 && is_dir && (name@ == ".git"@ || name@ == ".venv"@ || name@
            == "__pycache__"@ || name@ == "build"@ || name@ == "dist"@ || name@
            == "node_modules"@ || name@ == "target"@),
{
    if depth == 0 || !is_dir {
        return true;
    }
    let pruned: Vec<String> = vec![
        ".git".to_string(),
        ".venv".to_string(),
        "__pycache__".to_string(),
        "build".to_string(),
        "dist".to_string(),
        "node_modules".to_string(),
        "target".to_string(),
    ];
    assert(texts(pruned@) =~= pruned_names());
    proof {
        law_pruned_names(name@);
    }
    !contains_text(&pruned, name)
}

/// A file that may pin a toolchain.
#[derive(Debug, Clone, Copy, PartialEq, Eq, Structural)]
pub enum PinFile {
    /// A `rust-toolchain` file.
    Toolchain,
    /// The configuration of mise.
    Mise,
    Neither,
}

pub open spec fn pin_file_of(path: Seq<char>) -> PinFile {
    let name = file_name_of(path);
    if name == Some("rust-toolchain"@) || name == Some("rust-toolchain.toml"@) {
        PinFile::Toolchain
    } else if name == Some("config.toml"@) && parent_of(path) is Some && file_name_of(
        parent_of(path)->0,
    ) == Some(".mise"@) {
        PinFile::Mise
    } else {
        PinFile::Neither
    }
}

/// Recognises a file that may pin a toolchain by its path.
pub fn pin_file(path: &str) -> (r: PinFile)
    ensures
        r == pin_file_of(path@),
{
    match file_name(path) {
        Some(name) => {
            proof {
                reveal_strlit("rust-toolchain");
                reveal_strlit("rust-toolchain.toml");
                reveal_strlit("config.toml");
            }
            if same(name.as_str(), "rust-toolchain") || same(name.as_str(), "rust-toolchain.toml") {
                return PinFile::Toolchain;
            }
            if same(name.as_str(), "config.toml") {
                match parent(path) {
                    Some(dir) => {
                        match file_name(dir.as_str()) {
                            Some(owner) => {
                                if same(owner.as_str(), ".mise") {
                                    return PinFile::Mise;
                                }
                            },
                            None => {},
                        }
                    },
                    None => {},
                }
            }
            PinFile::Neither
        },
        None => PinFile::Neither,
    }
}

/// The pins that were found, in order, each once.
pub fn referenced_toolchains(found: &Vec<String>) -> (r: Vec<String>)
    ensures
        texts(r@) == text_set(texts(found@)),
{
    distinct_texts(found)
}

/// A `rust-toolchain` file is a TOML document where it begins with a bracket.
pub open spec fn is_document(contents: Seq<char>) -> bool {
    starts_with_of(trim_start_of(contents), "["@)
}

/// Whether a `rust-toolchain` file is to be read as a TOML document.
pub fn toolchain_is_document(contents: &str) -> (r: bool)
    ensures
        r == is_document(contents@),
{
    starts_with(trim_start(contents).as_str(), "[")
}

/// The first line that is not blank, trimmed.
pub open spec fn first_line(list: Seq<Seq<char>>) -> Option<Seq<char>>
    decreases list.len(),
{
    if list.len() == 0 {
        None
    } else if trim_of(list[0]).len() > 0 {
        Some(trim_of(list[0]))
    } else {
        first_line(list.drop_first())
    }
}

/// The text at `toolchain.channel` of the document with these contents, if
/// there is one.
pub open spec fn channel_in(contents: Seq<char>) -> Option<Seq<char>> {
    match toml_document(contents) {
        None => None,
        Some(entries) => {
            let toolchain = behind(entries, "toolchain"@);
            let channel = behind(toolchain, "channel"@);
            if entries.contains_key(seq!["toolchain"@]) && toolchain.contains_key(
                seq!["channel"@],
            ) {
                channel[Seq::<Seq<char>>::empty()]
            } else {
                None
            }
        },
    }
}

/// Reads `toolchain.channel` of a document.
pub fn toolchain_channel(contents: &str) -> (r: Option<String>)
    ensures
        opt_text(r) == channel_in(contents@),
{
    match parse_document(contents) {
        Ok(document) => match member(&document, "toolchain") {
            Some(toolchain) => match member(toolchain, "channel") {
                Some(channel) => text_in(channel),
                None => None,
            },
            None => None,
        },
        Err(_) => None,
    }
}

/// The toolchain that a `rust-toolchain` file pins, where `channel` is what the
/// file names as a document: that channel in a document, and the first line that
/// is not blank in any other file.
pub open spec fn pin_of(path: Seq<char>, contents: Seq<char>, channel: Option<Seq<char>>) -> Result<
    Seq<char>,
    Seq<char>,
> {
    if is_document(contents) {
        match channel {
            Some(name) => Ok(name),
            None => Err("parsing toolchain pin "@ + path),
        }
    } else {
        match first_line(lines_of(contents)) {
            Some(name) => Ok(name),
            None => Err("empty toolchain pin "@ + path),
        }
    }
}

/// Reads the toolchain that a `rust-toolchain` file pins.
pub fn parse_rust_toolchain_file(path: &str, contents: &str) -> (r: Result<String, String>)
    ensures
        result_text(r) == pin_of(path@, contents@, channel_in(contents@)),
{
    let channel = if toolchain_is_document(contents) {
        toolchain_channel(contents)
    } else {
        None
    };
    chosen_pin(path, contents, &channel)
}

/// Chooses the toolchain that a `rust-toolchain` file pins, given the channel that
/// it names as a document.
pub fn chosen_pin(path: &str, contents: &str, channel: &Option<String>) -> (r: Result<
    String,
    String,
>)
    ensures
        result_text(r) == pin_of(path@, contents@, opt_text(*channel)),
{
    if toolchain_is_document(contents) {
        return match channel {
            Some(name) => Ok(name.clone()),
            None => {
                let mut message = "parsing toolchain pin ".to_string();
                message.append(path);
                Err(message)
            },
        };
    }
    let list = lines(contents);
    let ghost all = texts(list@);
    let mut i: usize = 0;
    assert(all.skip(0) =~= all);
    while i < list.len()
        invariant
            i <= list@.len(),
            !is_document(contents@),
            all == texts(list@),
            all == lines_of(contents@),
            first_line(all) == first_line(all.skip(i as int)),
        decreases list@.len() - i,
    {
        proof {
            assert(all.skip(i as int)[0] == list@[i as int]@);
            assert(all.skip(i as int).drop_first() =~= all.skip(i as int + 1));
        }
        let line = trim(list[i].as_str());
        if char_count(line.as_str()) > 0 {
            return Ok(line);
        }
        i = i + 1;
    }
    let mut message = "empty toolchain pin ".to_string();
    message.append(path);
    Err(message)
}

/// What mise is configured to use for Rust.
#[derive(Debug)]
pub enum ToolEntry {
    /// Nothing.
    Missing,
    /// A version.
    Version(String),
    /// Something else, with the version it gives, if it does.
    Other(Option<String>),
}

/// What a document holds of the Rust tool.
pub open spec fn tool_entry_in(
    entries: Map<Seq<Seq<char>>, Option<Seq<char>>>,
    entry: ToolEntry,
) -> bool {
    let none = Seq::<Seq<char>>::empty();
    let tools = behind(entries, "tools"@);
    let rust = behind(tools, "rust"@);
    let version = behind(rust, "version"@);
    if !entries.contains_key(seq!["tools"@]) || !tools.contains_key(seq!["rust"@]) {
        entry is Missing
    } else if rust[none] is Some {
        entry matches ToolEntry::Version(v) && v@ == rust[none]->0
    } else if rust.contains_key(seq!["version"@]) {
        entry matches ToolEntry::Other(v) && opt_text(v) == version[none]
    } else {
        entry matches ToolEntry::Other(None)
    }
}

fn tool_entry(document: &toml::Value) -> (r: ToolEntry)
    ensures
        tool_entry_in(toml_entries(*document), r),
{
    let tools = match member(document, "tools") {
        Some(tools) => tools,
        None => {
            return ToolEntry::Missing;
        },
    };
    let rust = match member(tools, "rust") {
        Some(rust) => rust,
        None => {
            return ToolEntry::Missing;
        },
    };
    match text_in(rust) {
        Some(version) => ToolEntry::Version(version),
        None => match member(rust, "version") {
            Some(version) => ToolEntry::Other(text_in(version)),
            None => ToolEntry::Other(None),
        },
    }
}

/// The version that an entry gives: none where there is no entry, an error where
/// there is one without a version.
pub fn tool_version(path: &str, entry: &ToolEntry) -> (r: Result<Option<String>, String>)
    ensures
        match *entry {
            ToolEntry::Missing => r matches Ok(None),
            ToolEntry::Version(version) => r matches Ok(Some(v)) && v@ == version@,
            ToolEntry::Other(Some(version)) => r matches Ok(Some(v)) && v@ == version@,
            ToolEntry::Other(None) => r matches Err(message) && message@
                == "invalid Rust tool entry in "@ + path@,
        },
{
    match entry {
        ToolEntry::Missing => Ok(None),
        ToolEntry::Version(version) => Ok(Some(version.clone())),
        ToolEntry::Other(Some(version)) => Ok(Some(version.clone())),
        ToolEntry::Other(None) => {
            let mut message = "invalid Rust tool entry in ".to_string();
            message.append(path);
            Err(message)
        },
    }
}

/// The version of Rust that the configuration of mise with these contents pins,
/// if it does.
pub open spec fn mise_version(path: Seq<char>, contents: Seq<char>) -> Result<
    Option<Seq<char>>,
    Seq<char>,
> {
    match toml_document(contents) {
        None => Err("parsing mise config "@ + path),
        Some(entries) => {
            let none = Seq::<Seq<char>>::empty();
            let tools = behind(entries, "tools"@);
            let rust = behind(tools, "rust"@);
            let version = behind(rust, "version"@);
            if !entries.contains_key(seq!["tools"@]) || !tools.contains_key(seq!["rust"@]) {
                Ok(None)
            } else if rust[none] is Some {
                Ok(rust[none])
            } else if rust.contains_key(seq!["version"@]) && version[none] is Some {
                Ok(version[none])
            } else {
                Err("invalid Rust tool entry in "@ + path)
            }
        },
    }
}

/// Reads the version of Rust that a configuration of mise pins, if it does.
pub fn parse_mise_rust_version(path: &str, contents: &str) -> (r: Result<Option<String>, String>)
    ensures
        match r {
            Ok(version) => mise_version(path@, contents@) == Ok::<
                Option<Seq<char>>,
                Seq<char>,
            >(opt_text(version)),
            Err(message) => mise_version(path@, contents@) == Err::<
                Option<Seq<char>>,
                Seq<char>,
            >(message@),
        },
{
    match parse_document(contents) {
        Ok(document) => {
            let entry = tool_entry(&document);
            tool_version(path, &entry)
        },
        Err(_) => {
            let mut message = "parsing mise config ".to_string();
            message.append(path);
            Err(message)
        },
    }
}

// ---------------------------------------------------------------------------
// Uninstalling
// ---------------------------------------------------------------------------

/// What is done with the toolchains that nothing keeps.
#[derive(Debug)]
pub enum Plan {
    /// There are none: the command is done.
    Done(CommandSummary),
    /// They are listed, and the command is done.
    Preview(Vec<String>, CommandSummary),
    /// They are uninstalled.
    Uninstall(Uninstalling),
}

/// Decides what is done. Nothing is uninstalled in a dry run, or without being
/// asked for.
pub fn decide(removable: Vec<String>, remove: bool, dry_run: bool) -> (r: Plan)
    ensures
        if removable@.len() == 0 {
            r matches Plan::Done(s) && s == one_ok(0)
        } else if dry_run || !remove {
            r matches Plan::Preview(names, s) && names == removable && s == one_ok(0)
        } else {
            r matches Plan::Uninstall(work) && work.wf() && work.names == removable && work.next
                == 0
        },
        r is Uninstall ==> remove && !dry_run,
{
    if removable.len() == 0 {
        return Plan::Done(CommandSummary::ok_one());
    }
    if dry_run || !remove {
        return Plan::Preview(removable, CommandSummary::ok_one());
    }
    Plan::Uninstall(
        Uninstalling { names: removable, next: 0, summary: CommandSummary::default() },
    )
}

/// Toolchains that are uninstalled one after another.
#[derive(Debug)]
pub struct Uninstalling {
    pub names: Vec<String>,
    pub next: usize,
    pub summary: CommandSummary,
}

impl Uninstalling {
    /// Each toolchain so far has succeeded or failed.
    pub open spec fn wf(self) -> bool {
        &&& self.next <= self.names@.len()
        &&& self.summary.items_ok + self.summary.items_failed == self.next
        &&& self.summary.bytes_freed == 0
        &&& self.summary.items_skipped == 0
    }

    /// How the next toolchain is uninstalled; none when all are done.
    pub fn step(&self) -> (r: Option<Invocation>)
        requires
            self.wf(),
        ensures
            match r {
                Some(run) => self.next < self.names@.len() && run.runs(
                    "rustup"@,
                    seq!["toolchain"@, "uninstall"@, self.names@[self.next as int]@],
                ),
                None => self.next == self.names@.len(),
            },
    {
        if self.next == self.names.len() {
            return None;
        }
        let run = Invocation::new("rustup").arg("toolchain").arg("uninstall").arg(
            self.names[self.next].as_str(),
        );
        assert(texts(run.args@) =~= seq![
            "toolchain"@,
            "uninstall"@,
            self.names@[self.next as int]@,
        ]);
        Some(run)
    }

    /// Takes in the reply for the next toolchain. One that could not be run at
    /// all ends the command.
    pub fn replied(&mut self, reply: &Reply) -> (r: Result<(), String>)
        requires
            old(self).wf(),
            old(self).next < old(self).names@.len(),
        ensures
            final(self).wf(),
            final(self).names == old(self).names,
            match *reply {
                Reply::NotStarted(_) => {
                    &&& r matches Err(message) && message@
                        == "failed to invoke `rustup toolchain uninstall "@ + old(
                        self,
                    ).names@[old(self).next as int]@ + "`"@
                    &&& final(self).next == old(self).next
                    &&& final(self).summary == old(self).summary
                },
                Reply::Finished(done) => {
                    &&& r is Ok
                    &&& final(self).next == old(self).next + 1
                    &&& final(self).summary == super::together(
                        old(self).summary,
                        if done.success {
                            one_ok(0)
                        } else {
                            one_failed()
                        },
                    )
                },
            },
    {
        match reply {
            Reply::NotStarted(_) => {
                let mut message = "failed to invoke `rustup toolchain uninstall ".to_string();
                message.append(self.names[self.next].as_str());
                message.append("`");
                Err(message)
            },
            Reply::Finished(done) => {
                let total = self.names.len();
                assert(self.summary.items_ok < total && self.summary.items_failed < total);
                if done.success {
                    self.summary.merge(CommandSummary::ok_one());
                } else {
                    self.summary.merge(CommandSummary::failed_one());
                }
                self.next = self.next + 1;
                Ok(())
            },
        }
    }
}

// ---------------------------------------------------------------------------
// What the parts amount to
// ---------------------------------------------------------------------------

/// The names that a search for pins does not enter are these, and no others.
pub proof fn law_pruned_names(name: Seq<char>)
    ensures
        pruned_names().contains(name) <==> (name == ".git"@ || name == ".venv"@ || name
            == "__pycache__"@ || name == "build"@ || name == "dist"@ || name == "node_modules"@
            || name == "target"@),
{
    let all = pruned_names();
    assert(all.len() == 7);
    assert(all[0] == ".git"@ && all[1] == ".venv"@ && all[2] == "__pycache__"@ && all[3]
        == "build"@ && all[4] == "dist"@ && all[5] == "node_modules"@ && all[6] == "target"@);
    if all.contains(name) {
        let i = choose|i: int| 0 <= i < all.len() && all[i] == name;
        assert(i == 0 || i == 1 || i == 2 || i == 3 || i == 4 || i == 5 || i == 6);
    }
}

/// A search enters the directory of every pin that is known by its directory.
pub proof fn law_search_reaches_pins(path: Seq<char>)
    requires
        pin_file_of(path) is Mise,
    ensures
        parent_of(path) is Some,
        file_name_of(parent_of(path)->0) == Some(".mise"@),
        !pruned_names().contains(".mise"@),
{
    law_pruned_names(".mise"@);
    reveal_strlit(".mise");
    reveal_strlit(".git");
    reveal_strlit(".venv");
    reveal_strlit("__pycache__");
    reveal_strlit("build");
    reveal_strlit("dist");
    reveal_strlit("node_modules");
    reveal_strlit("target");
    assert(".mise"@[1] == 'm' && ".venv"@[1] == 'v' && "build"@[0] == 'b');
}

/// Which files may pin a toolchain: one named `rust-toolchain`, with or without
/// an extension, and the `config.toml` of a directory `.mise`.
pub proof fn law_pin_files(path: Seq<char>)
    ensures
        pin_file_of(path) is Toolchain <==> file_name_of(path) == Some("rust-toolchain"@)
            || file_name_of(path) == Some("rust-toolchain.toml"@),
        pin_file_of(path) is Mise <==> file_name_of(path) == Some("config.toml"@) && (parent_of(
            path,
        ) matches Some(dir) && file_name_of(dir) == Some(".mise"@)),
{
    reveal_strlit("rust-toolchain");
    reveal_strlit("rust-toolchain.toml");
    reveal_strlit("config.toml");
    assert("rust-toolchain"@[0] == 'r' && "rust-toolchain.toml"@[0] == 'r' && "config.toml"@[0]
        == 'c');
}

/// An override line names what is behind its last tab, trimmed.
pub proof fn law_override_lines(line: Seq<char>, before: Seq<char>, name: Seq<char>)
    requires
        !name.contains('\t'),
    ensures
        trim_of(line) == before + seq!['\t'] + name && trim_of(name).len() > 0 ==> override_name(
            line,
        ) == Some(trim_of(name)),
        trim_of(line) == before + seq!['\t'] + name && trim_of(name).len() == 0 ==> override_name(
            line,
        ) is None,
        trim_of(line) == "no overrides"@ || trim_of(line).len() == 0 ==> override_name(line) is None,
        trim_of(line) == name && name != "no overrides"@ && trim_of(name).len() > 0
            ==> override_name(line) == Some(trim_of(name)),
{
    reveal_strlit("no overrides");
    crate::split::law_last_field(before, name, '\t');
    crate::split::law_fields(name, name, '\t');
    let l = before + seq!['\t'] + name;
    assert(l[before.len() as int] == '\t');
    assert(forall|i: int| 0 <= i < "no overrides"@.len() ==> "no overrides"@[i] != '\t');
}

/// One more override line adds the name it gives, if it gives one.
pub proof fn law_every_override(list: Seq<Seq<char>>, line: Seq<char>)
    ensures
        override_names(Seq::empty()) == Seq::<Seq<char>>::empty(),
        override_name(line) matches Some(name) ==> override_names(list.push(line))
            == override_names(list).push(name),
        override_name(line) is None ==> override_names(list.push(line)) == override_names(list),
{
    assert(list.push(line).drop_last() =~= list);
}

/// A toolchain is in use where one of the comma-separated marks in the brackets
/// behind it is `active` or `default`, and a line without brackets is not.
pub proof fn law_marks(name: Seq<char>, marks: Seq<char>)
    requires
        !name.contains('('),
        marks.len() == 0 || marks.last() != ')',
    ensures
        !marked_in_use(name),
        marked_in_use(name + seq!['('] + marks + seq![')']) <==> exists|i: int|
            0 <= i < fields_of(marks, ',').len() && (trim_of(#[trigger] fields_of(marks, ',')[i])
                == "active"@ || trim_of(fields_of(marks, ',')[i]) == "default"@),
{
    assert forall|i: int| 0 <= i < name.len() implies name[i] != '(' by {
        assert(name.contains(name[i]));
    }
    crate::split::lemma_index_of_is(name, '(', name.len() as int);
    assert(markers_of(name) =~= Seq::empty());
    crate::split::law_fields(Seq::empty(), Seq::empty(), ',');
    assert(trim_of(Seq::<char>::empty()) =~= Seq::empty());
    reveal_strlit("active");
    reveal_strlit("default");
    assert(!keeps(Seq::<char>::empty()));
    let line = name + seq!['('] + marks + seq![')'];
    let k = name.len() as int;
    assert forall|i: int| 0 <= i < k implies line[i] != '(' by {
        assert(line[i] == name[i]);
    }
    assert(line[k] == '(');
    crate::split::lemma_index_of_is(line, '(', k);
    assert(line.skip(k + 1) =~= marks.push(')'));
    assert(marks.push(')').drop_last() =~= marks);
    assert(without_trailing(marks.push(')'), ')') == without_trailing(marks, ')'));
    assert(markers_of(line) == marks);
    let all = fields_of(marks, ',');
    if marked_in_use(line) {
        let i = choose|i: int| 0 <= i < all.len() && keeps(#[trigger] all[i]);
        assert(trim_of(all[i]) == "active"@ || trim_of(all[i]) == "default"@);
    }
    if exists|i: int|
        0 <= i < all.len() && (trim_of(#[trigger] all[i]) == "active"@ || trim_of(all[i])
            == "default"@) {
        let i = choose|i: int|
            0 <= i < all.len() && (trim_of(#[trigger] all[i]) == "active"@ || trim_of(all[i])
                == "default"@);
        assert(keeps(all[i]));
    }
}

/// A pin keeps the toolchain it names, with or without a host behind a hyphen,
/// and no other.
pub proof fn law_what_a_pin_keeps(installed: Seq<char>, reference: Seq<char>)
    ensures
        pinned_by(installed, reference) <==> installed == reference || exists|host: Seq<char>|
            installed == #[trigger] (reference + "-"@ + host),
{
    reveal_strlit("-");
    let n = reference.len() as int;
    if pinned_by(installed, reference) && installed != reference {
        let host = installed.skip(n + 1);
        assert(installed.skip(n).take(1)[0] == '-');
        assert(installed[n] == '-');
        assert(forall|i: int| 0 <= i < n ==> installed[i] == installed.take(n)[i]);
        assert(installed =~= reference + "-"@ + host);
    }
    if exists|host: Seq<char>| installed == #[trigger] (reference + "-"@ + host) {
        let host = choose|host: Seq<char>| installed == #[trigger] (reference + "-"@ + host);
        law_pins_keep_every_host(reference, host);
    }
}

/// A toolchain stays where it is marked, overridden or pinned, with the first of
/// these as the reason, and else it does not.
pub proof fn law_why_a_toolchain_stays(
    line: Seq<char>,
    name: Seq<char>,
    overridden: Seq<Seq<char>>,
    referenced: Seq<Seq<char>>,
)
    ensures
        marked_in_use(line) ==> retention(line, name, overridden, referenced) == Some(
            "active or default"@,
        ),
        !marked_in_use(line) && overridden.contains(name) ==> retention(
            line,
            name,
            overridden,
            referenced,
        ) == Some("rustup directory override"@),
        !marked_in_use(line) && !overridden.contains(name) && (exists|i: int|
            0 <= i < referenced.len() && pinned_by(name, #[trigger] referenced[i])) ==> retention(
            line,
            name,
            overridden,
            referenced,
        ) == Some("project toolchain pin"@),
        !marked_in_use(line) && !overridden.contains(name) && (forall|i: int|
            0 <= i < referenced.len() ==> !pinned_by(name, #[trigger] referenced[i]))
            ==> retention(line, name, overridden, referenced) is None,
{
}

/// One more line of the list adds its first word to what is removed exactly where
/// nothing keeps that toolchain, and says why it stays exactly where something
/// does.
pub proof fn law_every_toolchain_is_decided(
    list: Seq<Seq<char>>,
    line: Seq<char>,
    overridden: Seq<Seq<char>>,
    referenced: Seq<Seq<char>>,
)
    ensures
        removable_names(Seq::empty(), overridden, referenced) == Seq::<Seq<char>>::empty(),
        keeping_texts(Seq::empty(), overridden, referenced) == Seq::<Seq<char>>::empty(),
        ({
            let words = words_of(line);
            let before = removable_names(list, overridden, referenced);
            let after = removable_names(list.push(line), overridden, referenced);
            if words.len() > 0 && !marked_in_use(trim_of(line)) && !overridden.contains(words[0]) && (
            forall|i: int|
                0 <= i < referenced.len() ==> !pinned_by(words[0], #[trigger] referenced[i])) {
                after == before.push(words[0])
            } else {
                after == before
            }
        }),
        ({
            let words = words_of(line);
            let before = keeping_texts(list, overridden, referenced);
            let after = keeping_texts(list.push(line), overridden, referenced);
            words.len() > 0 && trim_of(line).len() > 0 ==> match retention(
                line,
                words[0],
                overridden,
                referenced,
            ) {
                Some(reason) => after == before.push(
                    "keeping toolchain "@ + words[0] + ": "@ + reason,
                ),
                None => after == before,
            }
        }),
{
    assert(list.push(line).drop_last() =~= list);
    if words_of(line).len() > 0 {
        law_why_a_toolchain_stays(trim_of(line), words_of(line)[0], overridden, referenced);
    }
    crate::split::law_trimming_keeps_words(line);
}

/// What a configuration of mise pins: the text at `tools.rust`, or else the text
/// at `tools.rust.version`.
pub proof fn law_mise_versions(path: Seq<char>, contents: Seq<char>)
    ensures
        toml_document(contents) is None ==> mise_version(path, contents) == Err::<
            Option<Seq<char>>,
            Seq<char>,
        >("parsing mise config "@ + path),
        toml_document(contents) matches Some(entries) ==> {
            let tools = seq!["tools"@];
            let rust = seq!["tools"@, "rust"@];
            let version = seq!["tools"@, "rust"@, "version"@];
            mise_version(path, contents) == if !entries.contains_key(tools)
                || !entries.contains_key(rust) {
                Ok::<Option<Seq<char>>, Seq<char>>(None)
            } else if entries[rust] is Some {
                Ok(entries[rust])
            } else if entries.contains_key(version) && entries[version] is Some {
                Ok(entries[version])
            } else {
                Err("invalid Rust tool entry in "@ + path)
            }
        },
{
    lemma_paths("tools"@, "rust"@, "version"@);
}

/// The channel of a toolchain file is the text at `toolchain.channel`.
pub proof fn law_channels(contents: Seq<char>)
    ensures
        toml_document(contents) is None ==> channel_in(contents) is None,
        toml_document(contents) matches Some(entries) ==> channel_in(contents)
            == if entries.contains_key(seq!["toolchain"@]) && entries.contains_key(
            seq!["toolchain"@, "channel"@],
        ) {
            entries[seq!["toolchain"@, "channel"@]]
        } else {
            None
        },
{
    lemma_paths("toolchain"@, "channel"@, ""@);
}

proof fn lemma_paths(a: Seq<char>, b: Seq<char>, c: Seq<char>)
    ensures
        seq![a] + Seq::<Seq<char>>::empty() == seq![a],
        seq![a] + seq![b] == seq![a, b],
        seq![a] + (seq![b] + Seq::<Seq<char>>::empty()) == seq![a, b],
        seq![a] + (seq![b] + seq![c]) == seq![a, b, c],
        seq![a] + (seq![b] + (seq![c] + Seq::<Seq<char>>::empty())) == seq![a, b, c],
{
    assert(seq![a] + Seq::<Seq<char>>::empty() =~= seq![a]);
    assert(seq![a] + seq![b] =~= seq![a, b]);
    assert(seq![b] + Seq::<Seq<char>>::empty() =~= seq![b]);
    assert(seq![c] + Seq::<Seq<char>>::empty() =~= seq![c]);
    assert(seq![a] + (seq![b] + seq![c]) =~= seq![a, b, c]);
}

/// A toolchain file is a document where its first character that is no
/// whitespace is a bracket. In a document the channel is the pin, and in any
/// other file the first line that is not blank.
pub proof fn law_toolchain_files(
    blank: Seq<char>,
    rest: Seq<char>,
    path: Seq<char>,
    channel: Option<Seq<char>>,
)
    requires
        forall|i: int| 0 <= i < blank.len() ==> crate::text::whitespace(#[trigger] blank[i]),
        rest.len() > 0,
        !crate::text::whitespace(rest[0]),
    ensures
        ({
            let contents = blank + rest;
            let pin = pin_of(path, contents, channel);
            if rest[0] == '[' {
                pin == match channel {
                    Some(name) => Ok::<Seq<char>, Seq<char>>(name),
                    None => Err("parsing toolchain pin "@ + path),
                }
            } else {
                pin == match first_line(lines_of(contents)) {
                    Some(name) => Ok::<Seq<char>, Seq<char>>(name),
                    None => Err("empty toolchain pin "@ + path),
                }
            }
        }),
{
    reveal_strlit("[");
    crate::text::law_trim_start(blank, rest);
    assert(rest.take(1) =~= seq![rest[0]]);
    assert("["@ =~= seq!['[']);
    assert(starts_with_of(rest, "["@) ==> rest.take(1)[0] == '[');
}

/// The first line that is not blank is found behind any number of blank ones.
pub proof fn law_first_line(blank: Seq<Seq<char>>, line: Seq<char>, rest: Seq<Seq<char>>)
    requires
        forall|i: int| 0 <= i < blank.len() ==> trim_of(#[trigger] blank[i]).len() == 0,
    ensures
        first_line(blank) is None,
        trim_of(line).len() > 0 ==> first_line(blank + seq![line] + rest) == Some(trim_of(line)),
    decreases blank.len(),
{
    let all = blank + seq![line] + rest;
    if blank.len() == 0 {
        assert(all[0] == line);
    } else {
        let less = blank.drop_first();
        assert forall|i: int| 0 <= i < less.len() implies trim_of(#[trigger] less[i]).len()
            == 0 by {
            assert(less[i] == blank[i + 1]);
        }
        law_first_line(less, line, rest);
        assert(all[0] == blank[0]);
        assert(all.drop_first() =~= less + seq![line] + rest);
    }
}

/// What rustup lists is its output where it succeeds, and else an error that
/// names the command.
pub proof fn law_listings(reply: Reply, command: Seq<char>)
    ensures
        reply is NotStarted ==> listed(reply, command) == Err::<Seq<char>, Seq<char>>(
            "failed to invoke `"@ + command + "`"@,
        ),
        reply matches Reply::Finished(done) ==> listed(reply, command) == if done.success {
            Ok::<Seq<char>, Seq<char>>(lossy_text(done.stdout@))
        } else {
            Err("`"@ + command + "` exited with "@ + done.status@)
        },
{
}

/// Pins are searched for below the roots of the command line, else the
/// configured ones, else the global ones.
pub proof fn law_pin_roots(
    cli: Seq<Seq<char>>,
    configured: Option<Seq<Seq<char>>>,
    global: Option<Seq<Seq<char>>>,
    home: Option<Seq<char>>,
)
    ensures
        cli.len() > 0 ==> pin_roots(cli, configured, global, home) == all_expanded(cli, home),
        cli.len() == 0 && configured is Some ==> pin_roots(cli, configured, global, home)
            == all_expanded(configured->0, home),
        cli.len() == 0 && configured is None && global is Some ==> pin_roots(
            cli,
            configured,
            global,
            home,
        ) == all_expanded(global->0, home),
        cli.len() == 0 && configured is None && global is None ==> pin_roots(
            cli,
            configured,
            global,
            home,
        ).len() == 0,
        DEFAULT_DEPTH == 5,
{
}

/// What [`include_toolchain_scan_entry`] keeps a search out of: directories below
/// the root with one of these names.
pub proof fn law_include_toolchain_scan_entry(depth: usize, is_dir: bool, name: &str, r: bool)
    requires
        call_ensures(include_toolchain_scan_entry, (depth, is_dir, name), r),
    ensures
        !r <==> depth > 0 && is_dir && (name@ == ".git"@ || name@ == ".venv"@ || name@
            == "__pycache__"@ || name@ == "build"@ || name@ == "dist"@ || name@
            == "node_modules"@ || name@ == "target"@),
        name@ == ".mise"@ ==> r,
{
    law_pruned_names(name@);
    reveal_strlit(".mise");
    reveal_strlit(".git");
    reveal_strlit(".venv");
    reveal_strlit("__pycache__");
    reveal_strlit("build");
    reveal_strlit("dist");
    reveal_strlit("node_modules");
    reveal_strlit("target");
    assert(".mise"@[1] == 'm' && ".venv"@[1] == 'v' && "build"@[0] == 'b');
}

/// What [`removable_toolchains`] leaves alone: a toolchain that is marked as in
/// use, that an override names, or that a pin names with or without a host.
pub proof fn law_removable_toolchains(
    list_output: &str,
    overridden: Vec<String>,
    referenced: Vec<String>,
    r: Vec<String>,
    name: Seq<char>,
)
    requires
        call_ensures(removable_toolchains, (list_output, &overridden, &referenced), r),
        texts(r@).contains(name),
    ensures
        !texts(overridden@).contains(name),
        forall|i: int|
            0 <= i < referenced@.len() ==> name != (#[trigger] referenced@[i])@ && !(exists|
                host: Seq<char>,
            |
                name == #[trigger] (referenced@[i]@ + "-"@ + host)),
        exists|i: int|
            0 <= i < lines_of(list_output@).len() && words_of(
                trim_of(#[trigger] lines_of(list_output@)[i]),
            ).len() > 0 && words_of(trim_of(lines_of(list_output@)[i]))[0] == name
                && !marked_in_use(trim_of(lines_of(list_output@)[i])),
{
    law_removed_toolchains_are_unused(
        lines_of(list_output@),
        texts(overridden@),
        texts(referenced@),
        name,
    );
    assert forall|i: int| 0 <= i < referenced@.len() implies name != (#[trigger] referenced@[i])@
        && !(exists|host: Seq<char>| name == #[trigger] (referenced@[i]@ + "-"@ + host)) by {
        assert(texts(referenced@)[i] == referenced@[i]@);
        law_what_a_pin_keeps(name, referenced@[i]@);
    }
}

/// What [`toolchain_matches_reference`] takes for the toolchain that a pin names.
pub proof fn law_toolchain_matches_reference(installed: &str, reference: &str, r: bool)
    requires
        call_ensures(toolchain_matches_reference, (installed, reference), r),
    ensures
        r <==> installed@ == reference@ || exists|host: Seq<char>|
            installed@ == #[trigger] (reference@ + "-"@ + host),
{
    law_what_a_pin_keeps(installed@, reference@);
}

/// Nothing is uninstalled in a dry run or without being asked for, and what is
/// uninstalled is what may be removed.
pub proof fn law_decide(removable: Vec<String>, remove: bool, dry_run: bool, r: Plan)
    requires
        call_ensures(decide, (removable, remove, dry_run), r),
    ensures
        r is Uninstall <==> remove && !dry_run && removable@.len() > 0,
        r matches Plan::Uninstall(work) ==> work.names == removable && work.next == 0,
        r matches Plan::Preview(names, s) ==> names == removable && s.items_failed == 0,
        r is Done <==> removable@.len() == 0,
{
}

} // verus!
