//! Keeps a block of exclusion rules for regenerable development data in the
//! editable Backblaze exclusion file.
use super::{one_ok, CommandSummary};
use crate::config::{
    choose_flag, choose_path, chosen_path, flag, BackblazeExclusionsConfig,
};
use crate::path::{file_name, file_name_of, renamed, with_file_name};
use crate::search::{
    contains, count, count_from, count_in, find, find_from, find_in, lemma_find_from,
    lemma_find_from_is, occurs, occurs_at,
};
use crate::sizes::{ascii_lower, lower_of};
use crate::split::{join, join_of, lines, lines_of};
use crate::terminated::{
    differ, ended, lasting, lemma_ended_push, lemma_join_is_ended, lemma_lines_hold_no_newline,
    lemma_lines_of_ended, lemma_none_begins_in, lemma_none_begins_in_lines, lemma_occurs_behind,
    marked_once,
};
use crate::text::{chars_of, lemma_texts_push, opt_text, string_of, texts};
use vstd::prelude::*;

verus! {

pub const DEFAULT_FILE: &'static str =
    "/Library/Backblaze.bzpkg/bzdata/bzexcluderules_editable.xml";

pub const BLOCK_START: &'static str =
    "<!-- backup-scripts managed development exclusions: begin -->";

pub const BLOCK_END: &'static str = "<!-- backup-scripts managed development exclusions: end -->";

pub const CLOSING_TAG: &'static str = "</bzexclusions>";

#[derive(Debug, Default)]
pub struct Args {
    /// The exclusion file.
    pub file: Option<String>,
    /// Write the block. Otherwise the file is only inspected.
    pub apply: bool,
}

/// What the command works on.
#[derive(Debug)]
pub struct Settings {
    pub file: String,
    pub apply: bool,
}

pub fn resolve_settings(args: &Args, cfg: &BackblazeExclusionsConfig, home: &Option<String>) -> (r:
    Settings)
    ensures
        r.file@ == chosen_path(
            opt_text(args.file),
            opt_text(cfg.file),
            DEFAULT_FILE@,
            opt_text(*home),
        ),
        r.apply == flag(args.apply, cfg.apply),
{
    Settings {
        file: choose_path(&args.file, &cfg.file, DEFAULT_FILE, home),
        apply: choose_flag(args.apply, cfg.apply),
    }
}

// ---------------------------------------------------------------------------
// The block
// ---------------------------------------------------------------------------

/// How a character is written in an XML attribute.
pub open spec fn attribute_char(c: char) -> Seq<char> {
    if c == '&' {
        "&amp;"@
    } else if c == '"' {
        "&quot;"@
    } else if c == '<' {
        "&lt;"@
    } else if c == '>' {
        "&gt;"@
    } else {
        seq![c]
    }
}

pub open spec fn escaped(value: Seq<char>) -> Seq<char>
    decreases value.len(),
{
    if value.len() == 0 {
        value
    } else {
        escaped(value.drop_last()) + attribute_char(value.last())
    }
}

/// An escaped value holds no quote and no angle bracket.
pub proof fn law_escaped_is_safe(value: Seq<char>)
    ensures
        forall|i: int|
            0 <= i < escaped(value).len() ==> {
                let c = #[trigger] escaped(value)[i];
                c != '"' && c != '<' && c != '>'
            },
    decreases value.len(),
{
    if value.len() > 0 {
        reveal_strlit("&amp;");
        reveal_strlit("&quot;");
        reveal_strlit("&lt;");
        reveal_strlit("&gt;");
        law_escaped_is_safe(value.drop_last());
        let head = escaped(value.drop_last());
        let last = attribute_char(value.last());
        assert forall|i: int| 0 <= i < escaped(value).len() implies {
            let c = #[trigger] escaped(value)[i];
            c != '"' && c != '<' && c != '>'
        } by {
            if i >= head.len() {
                assert(escaped(value)[i] == last[i - head.len()]);
            }
        }
    }
}

/// Writes a value so that it can stand in an XML attribute.
pub fn escape_xml_attribute(value: &str) -> (r: String)
    ensures
        r@ == escaped(value@),
{
    let mut out = String::new();
    for c in it: value.chars()
        invariant
            it.seq() == value@,
            out@ == escaped(value@.take(it.index() as int)),
    {
        let ghost before = value@.take(it.index() as int);
        assert(value@.take(it.index() as int + 1).drop_last() == before);
        if c == '&' {
            out.append("&amp;");
        } else if c == '"' {
            out.append("&quot;");
        } else if c == '<' {
            out.append("&lt;");
        } else if c == '>' {
            out.append("&gt;");
        } else {
            out.push(c);
            assert(out@ =~= escaped(before) + seq![c]);
        }
    }
    assert(value@.take(value@.len() as int) == value@);
    out
}

/// One exclusion rule.
pub open spec fn rule_of(contains: Seq<char>, does_not_contain: Seq<char>) -> Seq<char> {
    "<excludefname_rule plat=\"mac\" osVers=\"*\" ruleIsOptional=\"t\" skipFirstCharThenStartsWith=\"users/\" contains_1=\""@
        + contains + "\" contains_2=\"*\" doesNotContain=\""@ + does_not_contain
        + "\" endsWith=\"*\" hasFileExtension=\"*\" />"@
}

/// One exclusion rule: what a path must contain, and what it must not.
pub fn exclusion_rule(contains: &str, does_not_contain: &str) -> (r: String)
    ensures
        r@ == rule_of(contains@, does_not_contain@),
{
    let mut out =
        "<excludefname_rule plat=\"mac\" osVers=\"*\" ruleIsOptional=\"t\" skipFirstCharThenStartsWith=\"users/\" contains_1=\"".to_string();
    out.append(contains);
    out.append("\" contains_2=\"*\" doesNotContain=\"");
    out.append(does_not_contain);
    out.append("\" endsWith=\"*\" hasFileExtension=\"*\" />");
    out
}

/// Where Expo keeps its state in a home directory, as an attribute.
pub open spec fn expo_home(home: Seq<char>) -> Seq<char> {
    escaped(lower_of(home) + "/.expo/"@)
}

/// The lines of the managed block. Expo state in the home directory is kept.
pub open spec fn block_lines(home: Seq<char>) -> Seq<Seq<char>> {
    seq![
        BLOCK_START@,
        "<!-- Regenerable development data; keep installed gems and home-level Expo state. -->"@,
        rule_of("/.rustup/"@, "*"@),
        rule_of("/go/pkg/mod/"@, "*"@),
        rule_of("/.cargo/registry/"@, "*"@),
        rule_of("/__pycache__/"@, "*"@),
        rule_of("/.venv/"@, "*"@),
        rule_of("/.expo/"@, expo_home(home)),
        BLOCK_END@,
    ]
}

pub open spec fn block_of(home: Seq<char>) -> Seq<char> {
    join_of(block_lines(home), "\n"@)
}

/// The managed block for a home directory.
pub fn managed_block(home: &str) -> (r: String)
    ensures
        r@ == block_of(home@),
{
    let mut expo = ascii_lower(home);
    expo.append("/.expo/");
    let kept = escape_xml_attribute(expo.as_str());
    let list: Vec<String> = vec![
        BLOCK_START.to_string(),
        "<!-- Regenerable development data; keep installed gems and home-level Expo state. -->".to_string(),
        exclusion_rule("/.rustup/", "*"),
        exclusion_rule("/go/pkg/mod/", "*"),
        exclusion_rule("/.cargo/registry/", "*"),
        exclusion_rule("/__pycache__/", "*"),
        exclusion_rule("/.venv/", "*"),
        exclusion_rule("/.expo/", kept.as_str()),
        BLOCK_END.to_string(),
    ];
    assert(texts(list@) =~= block_lines(home@));
    join(&list, "\n")
}

// ---------------------------------------------------------------------------
// Taking the block out
// ---------------------------------------------------------------------------

pub open spec fn without_first(s: Seq<char>, c: char) -> Seq<char>
    decreases s.len(),
{
    if s.len() > 0 && s[0] == c {
        without_first(s.drop_first(), c)
    } else {
        s
    }
}

pub open spec fn without_last(s: Seq<char>, c: char) -> Seq<char>
    decreases s.len(),
{
    if s.len() > 0 && s.last() == c {
        without_last(s.drop_last(), c)
    } else {
        s
    }
}

/// The text without its managed block, if the markers of the block are in
/// order: none at all, or a begin before an end. The newlines around the block
/// become one.
pub open spec fn without_block(original: Seq<char>) -> Option<Seq<char>> {
    match (find_in(original, BLOCK_START@), find_in(original, BLOCK_END@)) {
        (None, None) => Some(original),
        (Some(start), Some(end)) => if start < end {
            Some(
                without_last(original.take(start), '\n') + "\n"@ + without_first(
                    original.skip(end + BLOCK_END@.len()),
                    '\n',
                ),
            )
        } else {
            None
        },
        _ => None,
    }
}

/// The end of `v[..to]` once its last newlines are dropped.
fn before_newlines(v: &Vec<char>, to: usize) -> (r: usize)
    requires
        to <= v@.len(),
    ensures
        r <= to,
        v@.take(r as int) == without_last(v@.take(to as int), '\n'),
{
    let mut n: usize = to;
    while n > 0 && v[n - 1] == '\n'
        invariant
            n <= to <= v@.len(),
            without_last(v@.take(n as int), '\n') == without_last(v@.take(to as int), '\n'),
        decreases n,
    {
        assert(v@.take(n as int).drop_last() == v@.take(n as int - 1));
        n = n - 1;
    }
    n
}

/// The start of `v[from..]` once its first newlines are dropped.
fn after_newlines(v: &Vec<char>, from: usize) -> (r: usize)
    requires
        from <= v@.len(),
    ensures
        from <= r <= v@.len(),
        v@.skip(r as int) == without_first(v@.skip(from as int), '\n'),
{
    let mut n: usize = from;
    while n < v.len() && v[n] == '\n'
        invariant
            from <= n <= v@.len(),
            without_first(v@.skip(n as int), '\n') == without_first(v@.skip(from as int), '\n'),
        decreases v@.len() - n,
    {
        assert(v@.skip(n as int).drop_first() == v@.skip(n as int + 1));
        n = n + 1;
    }
    n
}

/// Takes the managed block out, or says that its markers are not in order.
pub fn remove_managed_block(original: &str) -> (r: Result<String, String>)
    ensures
        match r {
            Ok(text) => without_block(original@) == Some(text@),
            Err(message) => without_block(original@) is None && message@
                == "Backblaze managed exclusion block markers are unbalanced"@,
        },
{
    let v = chars_of(original);
    match (find(original, BLOCK_START), find(original, BLOCK_END)) {
        (None, None) => Ok(original.to_owned()),
        (Some(start), Some(end)) => {
            if start < end {
                let mark = chars_of(BLOCK_END);
                let n = v.len();
                assert(occurs_at(original@, BLOCK_END@, end as int));
                assert(end + mark@.len() <= n);
                let head = before_newlines(&v, start);
                let tail = after_newlines(&v, end + mark.len());
                let mut out = string_of(&v, 0, head);
                out.append("\n");
                out.append(string_of(&v, tail, v.len()).as_str());
                assert(v@.subrange(0, head as int) == v@.take(head as int));
                assert(v@.subrange(tail as int, v@.len() as int) == v@.skip(tail as int));
                Ok(out)
            } else {
                Err("Backblaze managed exclusion block markers are unbalanced".to_string())
            }
        },
        _ => Err("Backblaze managed exclusion block markers are unbalanced".to_string()),
    }
}

// ---------------------------------------------------------------------------
// Reconciling
// ---------------------------------------------------------------------------

/// What the managed rules exclude, and what retired ones did.
pub open spec fn managed_values() -> Seq<Seq<char>> {
    seq![
        "/.rustup/"@,
        "/go/pkg/mod/"@,
        "/.cargo/registry/"@,
        "/__pycache__/"@,
        "/.venv/"@,
        "/.expo/"@,
        "/.gem/"@,
    ]
}

/// The line holds a rule for `value`.
pub open spec fn rules_on(line: Seq<char>, value: Seq<char>) -> bool {
    occurs(line, "contains_1=\""@ + value + "\""@)
}

/// The line holds a rule that the block stands for.
pub open spec fn is_managed(line: Seq<char>) -> bool {
    exists|i: int| 0 <= i < managed_values().len() && rules_on(line, #[trigger] managed_values()[i])
}

/// The lines that are kept.
pub open spec fn unmanaged(list: Seq<Seq<char>>) -> Seq<Seq<char>> {
    list.filter(|line: Seq<char>| !is_managed(line))
}

/// The text of the lines that are kept.
pub open spec fn base_of(text: Seq<char>) -> Seq<char> {
    join_of(unmanaged(lines_of(text)), "\n"@)
}

/// The block put before the closing tag.
pub open spec fn spliced(base: Seq<char>, block: Seq<char>) -> Seq<char> {
    match find_in(base, CLOSING_TAG@) {
        Some(k) => base.take(k) + (block + "\n"@ + CLOSING_TAG@) + base.skip(
            k + CLOSING_TAG@.len(),
        ),
        None => base,
    }
}

pub open spec fn final_newline(text: Seq<char>) -> Seq<char> {
    if text.len() > 0 && text.last() == '\n' {
        "\n"@
    } else {
        ""@
    }
}

/// The exclusion file with its managed block up to date, or why it cannot be
/// brought up to date.
pub open spec fn reconciled(original: Seq<char>, home: Seq<char>) -> Result<Seq<char>, Seq<char>> {
    if count_in(original, CLOSING_TAG@) != 1 {
        Err("Backblaze exclusions must contain exactly one </bzexclusions>"@)
    } else {
        match without_block(original) {
            None => Err("Backblaze managed exclusion block markers are unbalanced"@),
            Some(text) => Ok(spliced(base_of(text), block_of(home)) + final_newline(original)),
        }
    }
}

fn rules_on_text(line: &str, value: &str) -> (r: bool)
    ensures
        r == rules_on(line@, value@),
{
    let mut pattern = "contains_1=\"".to_string();
    pattern.append(value);
    pattern.append("\"");
    contains(line, pattern.as_str())
}

fn is_managed_line(line: &str) -> (r: bool)
    ensures
        r == is_managed(line@),
{
    let found = rules_on_text(line, "/.rustup/") || rules_on_text(line, "/go/pkg/mod/")
        || rules_on_text(line, "/.cargo/registry/") || rules_on_text(line, "/__pycache__/")
        || rules_on_text(line, "/.venv/") || rules_on_text(line, "/.expo/") || rules_on_text(
        line,
        "/.gem/",
    );
    proof {
        let all = managed_values();
        assert(all[0] == "/.rustup/"@ && all[1] == "/go/pkg/mod/"@ && all[2]
            == "/.cargo/registry/"@ && all[3] == "/__pycache__/"@ && all[4] == "/.venv/"@ && all[5]
            == "/.expo/"@ && all[6] == "/.gem/"@);
        if is_managed(line@) {
            let i = choose|i: int| 0 <= i < all.len() && rules_on(line@, #[trigger] all[i]);
            assert(i == 0 || i == 1 || i == 2 || i == 3 || i == 4 || i == 5 || i == 6);
        }
    }
    found
}

/// Brings the managed block of an exclusion file up to date. Rules that the
/// block stands for are taken out wherever they are; everything else is kept.
pub fn reconcile_exclusions(original: &str, home: &str) -> (r: Result<String, String>)
    ensures
        match r {
            Ok(text) => reconciled(original@, home@) == Ok::<Seq<char>, Seq<char>>(text@),
            Err(message) => reconciled(original@, home@) == Err::<Seq<char>, Seq<char>>(message@),
        },
{
    proof {
        reveal_strlit("</bzexclusions>");
    }
    if count(original, CLOSING_TAG) != 1 {
        return Err("Backblaze exclusions must contain exactly one </bzexclusions>".to_string());
    }
    let text = match remove_managed_block(original) {
        Ok(text) => text,
        Err(message) => {
            return Err(message);
        },
    };
    let list = lines(text.as_str());
    let ghost all = texts(list@);
    let mut kept: Vec<String> = Vec::new();
    let mut i: usize = 0;
    proof {
        reveal(Seq::filter);
        assert(all.take(0) =~= Seq::<Seq<char>>::empty());
        assert(texts(kept@) =~= unmanaged(all.take(0)));
    }
    while i < list.len()
        invariant
            i <= list@.len(),
            all == texts(list@),
            texts(kept@) == unmanaged(all.take(i as int)),
        decreases list@.len() - i,
    {
        proof {
            reveal(Seq::filter);
            assert(all.take(i as int + 1).drop_last() =~= all.take(i as int));
            assert(all.take(i as int + 1).last() == list@[i as int]@);
        }
        if !is_managed_line(list[i].as_str()) {
            let line = list[i].clone();
            proof {
                lemma_texts_push(kept@, line);
            }
            kept.push(line);
        }
        i = i + 1;
    }
    assert(all.take(all.len() as int) == all);
    let base = join(&kept, "\n");
    let block = managed_block(home);
    let v = chars_of(base.as_str());
    let mut out = String::new();
    match find(base.as_str(), CLOSING_TAG) {
        Some(k) => {
            let tag = chars_of(CLOSING_TAG);
            let n = v.len();
            assert(k + tag@.len() <= n);
            out.append(string_of(&v, 0, k).as_str());
            let mut insert = block;
            insert.append("\n");
            insert.append(CLOSING_TAG);
            out.append(insert.as_str());
            out.append(string_of(&v, k + tag.len(), v.len()).as_str());
            assert(v@.subrange(0, k as int) == v@.take(k as int));
            assert(v@.subrange(k + tag@.len(), v@.len() as int) == v@.skip(k + tag@.len()));
            assert(out@ =~= spliced(base@, block_of(home@)));
        },
        None => {
            out.append(base.as_str());
            assert(out@ =~= spliced(base@, block_of(home@)));
        },
    }
    let o = chars_of(original);
    if o.len() > 0 && o[o.len() - 1] == '\n' {
        out.append("\n");
    } else {
        out.append("");
    }
    Ok(out)
}

// ---------------------------------------------------------------------------
// Writing
// ---------------------------------------------------------------------------

/// Where the file is copied before it is written.
pub fn backup_path(file: &str) -> (r: Result<String, String>)
    ensures
        match r {
            Ok(path) => file_name_of(file@) matches Some(name) && path@ == renamed(
                file@,
                name + ".backup-scripts.bak"@,
            ),
            Err(message) => file_name_of(file@) is None && message@
                == "Backblaze exclusion path has no file name: "@ + file@,
        },
{
    match file_name(file) {
        Some(name) => {
            let mut backup = name;
            backup.append(".backup-scripts.bak");
            Ok(with_file_name(file, backup.as_str()))
        },
        None => {
            let mut message = "Backblaze exclusion path has no file name: ".to_string();
            message.append(file);
            Err(message)
        },
    }
}

/// What the command does with the file.
#[derive(Debug)]
pub enum Update {
    /// The file is up to date.
    Current,
    /// The file needs an update that this run does not make, and why not.
    Needed(String),
    /// The file is copied to `backup` and then holds `text`.
    Write { backup: String, text: String },
}

/// Decides what is done with the file, given what it holds. A file is written
/// only where that is asked for, and never in a dry run.
pub fn plan(original: &str, home: &Option<String>, settings: &Settings, dry_run: bool) -> (r: Result<
    Update,
    String,
>)
    ensures
        match opt_text(*home) {
            None => r matches Err(message) && message@
                == "HOME is required for Expo exclusion safety"@,
            Some(dir) => match reconciled(original@, dir) {
                Err(why) => r matches Err(message) && message@ == why,
                Ok(text) => if text == original@ {
                    r matches Ok(Update::Current)
                } else if dry_run {
                    r matches Ok(Update::Needed(reason)) && reason@ == "dry run"@
                } else if !settings.apply {
                    r matches Ok(Update::Needed(reason)) && reason@ == "no --apply"@
                } else {
                    match file_name_of(settings.file@) {
                        Some(name) => r matches Ok(Update::Write { backup, text: written })
                            && written@ == text && backup@ == renamed(
                            settings.file@,
                            name + ".backup-scripts.bak"@,
                        ),
                        None => r matches Err(message) && message@
                            == "Backblaze exclusion path has no file name: "@ + settings.file@,
                    }
                },
            },
        },
{
    let dir = match home {
        Some(dir) => dir,
        None => {
            return Err("HOME is required for Expo exclusion safety".to_string());
        },
    };
    let text = match reconcile_exclusions(original, dir.as_str()) {
        Ok(text) => text,
        Err(message) => {
            return Err(message);
        },
    };
    if crate::text::same(text.as_str(), original) {
        return Ok(Update::Current);
    }
    if dry_run {
        return Ok(Update::Needed("dry run".to_string()));
    }
    if !settings.apply {
        return Ok(Update::Needed("no --apply".to_string()));
    }
    match backup_path(settings.file.as_str()) {
        Ok(backup) => Ok(Update::Write { backup, text }),
        Err(message) => Err(message),
    }
}

/// What a run that got to the end counts as: one item done, whether the file was
/// current, left as it was or written.
pub fn outcome(update: &Update) -> (r: CommandSummary)
    ensures
        r == one_ok(0),
{
    CommandSummary::ok_one()
}

// ---------------------------------------------------------------------------
// Reconciling twice
// ---------------------------------------------------------------------------

/// The text ends in a newline, and not in two.
pub open spec fn ends_in_one_newline(s: Seq<char>) -> bool {
    s.len() > 0 && s.last() == '\n' && (s.len() == 1 || s[s.len() - 2] != '\n')
}

/// The file is laid out so that the block stays where it is put: the closing
/// tag is kept, stands at the start of a line with no blank line before it, no
/// stray marker comes before it, and no line keeps a carriage return before its
/// newline.
pub open spec fn settles(original: Seq<char>) -> bool {
    match without_block(original) {
        None => false,
        Some(text) => {
            let kept = unmanaged(lines_of(text));
            let base = base_of(text);
            let ended_file = original.len() > 0 && original.last() == '\n';
            &&& count_in(base, CLOSING_TAG@) == 1
            &&& find_in(base, CLOSING_TAG@) matches Some(k) && {
                &&& ends_in_one_newline(base.take(k))
                &&& !occurs(base.take(k), BLOCK_START@)
                &&& !occurs(base.take(k), BLOCK_END@)
            }
            &&& forall|i: int|
                0 <= i < kept.len() && (ended_file || i < kept.len() - 1) ==> !((
                #[trigger] kept[i]).len() > 0 && kept[i].last() == '\r')
        },
    }
}

proof fn lemma_markers()
    ensures
        marked_once(BLOCK_START@),
        marked_once(BLOCK_END@),
        marked_once(CLOSING_TAG@),
        differ(BLOCK_END@, BLOCK_START@),
        CLOSING_TAG@.len() == 15,
        CLOSING_TAG@[1] == '/',
        BLOCK_START@[1] == '!',
        BLOCK_END@[1] == '!',
        BLOCK_START@.len() > 6,
        BLOCK_END@.len() > 6,
        BLOCK_END@[5] == 'b',
        !CLOSING_TAG@.contains('\n'),
{
    reveal_strlit("<!-- backup-scripts managed development exclusions: begin -->");
    reveal_strlit("<!-- backup-scripts managed development exclusions: end -->");
    reveal_strlit("</bzexclusions>");
    assert(BLOCK_END@[52] != BLOCK_START@[52]);
}

proof fn lemma_rule(contains: Seq<char>, does_not_contain: Seq<char>)
    requires
        forall|i: int| 0 <= i < contains.len() ==> #[trigger] contains[i] != '<',
        forall|i: int| 0 <= i < does_not_contain.len() ==> #[trigger] does_not_contain[i] != '<',
    ensures
        marked_once(rule_of(contains, does_not_contain)),
        rule_of(contains, does_not_contain).len() > 6,
        rule_of(contains, does_not_contain)[1] == 'e',
{
    reveal_strlit(
        "<excludefname_rule plat=\"mac\" osVers=\"*\" ruleIsOptional=\"t\" skipFirstCharThenStartsWith=\"users/\" contains_1=\"",
    );
    reveal_strlit("\" contains_2=\"*\" doesNotContain=\"");
    reveal_strlit("\" endsWith=\"*\" hasFileExtension=\"*\" />");
    let a =
        "<excludefname_rule plat=\"mac\" osVers=\"*\" ruleIsOptional=\"t\" skipFirstCharThenStartsWith=\"users/\" contains_1=\""@;
    let b = "\" contains_2=\"*\" doesNotContain=\""@;
    let c = "\" endsWith=\"*\" hasFileExtension=\"*\" />"@;
    assert(forall|i: int| 1 <= i < a.len() ==> #[trigger] a[i] != '<');
    assert(forall|i: int| 0 <= i < b.len() ==> #[trigger] b[i] != '<');
    assert(forall|i: int| 0 <= i < c.len() ==> #[trigger] c[i] != '<');
    let s = rule_of(contains, does_not_contain);
    assert forall|i: int| 1 <= i < s.len() implies #[trigger] s[i] != '<' by {
        let (m, n) = (a.len() as int, contains.len() as int);
        if i < m {
            assert(s[i] == a[i]);
        } else if i < m + n {
            assert(s[i] == contains[i - m]);
        } else if i < m + n + b.len() {
            assert(s[i] == b[i - m - n]);
        } else if i < m + n + b.len() + does_not_contain.len() {
            assert(s[i] == does_not_contain[i - m - n - b.len()]);
        } else {
            assert(s[i] == c[i - m - n - b.len() - does_not_contain.len()]);
        }
    }
    assert(s[0] == a[0] && s[1] == a[1]);
}

/// Each line of the block has one mark, and none is confused with the end of
/// the block or the closing tag.
proof fn lemma_block_lines(home: Seq<char>)
    ensures
        block_lines(home).len() == 9,
        block_lines(home)[0] == BLOCK_START@,
        block_lines(home).last() == BLOCK_END@,
        forall|i: int|
            0 <= i < 9 ==> marked_once(#[trigger] block_lines(home)[i]) && differ(
                CLOSING_TAG@,
                block_lines(home)[i],
            ),
        forall|i: int| 0 <= i < 8 ==> differ(BLOCK_END@, #[trigger] block_lines(home)[i]),
{
    reveal_strlit(
        "<!-- Regenerable development data; keep installed gems and home-level Expo state. -->",
    );
    reveal_strlit("/.rustup/");
    reveal_strlit("/go/pkg/mod/");
    reveal_strlit("/.cargo/registry/");
    reveal_strlit("/__pycache__/");
    reveal_strlit("/.venv/");
    reveal_strlit("/.expo/");
    reveal_strlit("*");
    lemma_markers();
    law_escaped_is_safe(lower_of(home) + "/.expo/"@);
    lemma_rule("/.rustup/"@, "*"@);
    lemma_rule("/go/pkg/mod/"@, "*"@);
    lemma_rule("/.cargo/registry/"@, "*"@);
    lemma_rule("/__pycache__/"@, "*"@);
    lemma_rule("/.venv/"@, "*"@);
    lemma_rule("/.expo/"@, expo_home(home));
    let list = block_lines(home);
    let note =
        "<!-- Regenerable development data; keep installed gems and home-level Expo state. -->"@;
    assert(marked_once(note));
    assert forall|i: int| 0 <= i < 9 implies marked_once(#[trigger] list[i]) && differ(
        CLOSING_TAG@,
        list[i],
    ) by {
        assert(list[i][1] == '!' || list[i][1] == 'e');
        assert(CLOSING_TAG@[1] != list[i][1]);
    }
    assert forall|i: int| 0 <= i < 8 implies differ(BLOCK_END@, #[trigger] list[i]) by {
        if i == 1 {
            assert(note[5] == 'R');
            assert(BLOCK_END@[5] != list[i][5]);
        } else if i > 1 {
            assert(BLOCK_END@[1] != list[i][1]);
        }
    }
}

proof fn lemma_unmanaged(list: Seq<Seq<char>>)
    ensures
        unmanaged(unmanaged(list)) == unmanaged(list),
        forall|i: int|
            0 <= i < unmanaged(list).len() ==> list.contains(#[trigger] unmanaged(list)[i])
                && !is_managed(unmanaged(list)[i]),
    decreases list.len(),
{
    reveal(Seq::filter);
    if list.len() > 0 {
        let head = list.drop_last();
        lemma_unmanaged(head);
        let before = unmanaged(head);
        let out = unmanaged(list);
        if !is_managed(list.last()) {
            assert(out =~= before.push(list.last()));
            assert(out.drop_last() =~= before);
        }
        assert forall|i: int| 0 <= i < out.len() implies list.contains(#[trigger] out[i])
            && !is_managed(out[i]) by {
            if i < before.len() {
                assert(head.contains(before[i]));
                let k = choose|k: int| 0 <= k < head.len() && head[k] == before[i];
                assert(list[k] == out[i]);
            } else {
                assert(list[list.len() - 1] == out[i]);
            }
        }
    }
}

proof fn lemma_unmanaged_all(list: Seq<Seq<char>>)
    requires
        forall|i: int| 0 <= i < list.len() ==> !is_managed(#[trigger] list[i]),
    ensures
        unmanaged(list) == list,
    decreases list.len(),
{
    reveal(Seq::filter);
    if list.len() > 0 {
        let head = list.drop_last();
        assert forall|i: int| 0 <= i < head.len() implies !is_managed(#[trigger] head[i]) by {
            assert(head[i] == list[i]);
        }
        lemma_unmanaged_all(head);
        assert(!is_managed(list[list.len() - 1]));
        assert(head.push(list.last()) =~= list);
    } else {
        assert(unmanaged(list) =~= list);
    }
}

/// The first place of a marked text in one that follows another without it.
proof fn lemma_first_place(pre: Seq<char>, inner: Seq<char>, p: Seq<char>, at: int)
    requires
        marked_once(p),
        !occurs(pre, p),
        inner.len() > 0,
        inner[0] == '<',
        0 <= at,
        occurs_at(inner, p, at),
        forall|j: int| 0 <= j < at ==> !occurs_at(inner, p, j),
    ensures
        find_in(pre + inner, p) == Some(pre.len() + at),
        occurs_at(pre + inner, p, pre.len() + at),
        forall|j: int| 0 <= j < pre.len() + at ==> !occurs_at(pre + inner, p, j),
{
    let u = pre + inner;
    lemma_none_begins_in(pre, inner, p);
    lemma_occurs_behind(pre, inner, p, at);
    assert forall|j: int| 0 <= j < pre.len() + at implies !occurs_at(u, p, j) by {
        if j >= pre.len() {
            lemma_occurs_behind(pre, inner, p, j - pre.len());
        }
    }
    lemma_find_from_is(u, p, 0, pre.len() + at);
}

/// Where the end of the block stands in the block.
spec fn end_place(home: Seq<char>) -> int {
    ended(block_lines(home)).len() - BLOCK_END@.len() - 1
}

/// Where the markers and the closing tag stand in a text that begins with the
/// block.
proof fn lemma_inner(home: Seq<char>, rest: Seq<char>)
    ensures
        ({
            let inner = ended(block_lines(home)) + rest;
            let at = end_place(home);
            &&& inner.len() > 0
            &&& inner[0] == '<'
            &&& 0 < at
            &&& occurs_at(inner, BLOCK_START@, 0)
            &&& occurs_at(inner, BLOCK_END@, at)
            &&& forall|j: int| 0 <= j < at ==> !occurs_at(inner, BLOCK_END@, j)
            &&& inner.skip(at + BLOCK_END@.len()) == "\n"@ + rest
            &&& forall|j: int|
                0 <= j < ended(block_lines(home)).len() ==> !occurs_at(inner, CLOSING_TAG@, j)
        }),
{
    reveal_strlit("\n");
    let list = block_lines(home);
    let body = list.drop_last();
    lemma_markers();
    lemma_block_lines(home);
    assert(list =~= body.push(BLOCK_END@));
    assert(body[0] == BLOCK_START@);
    lemma_ended_push(body, BLOCK_END@);
    lemma_none_begins_in_lines(list, rest, CLOSING_TAG@);
    let tail = BLOCK_END@ + "\n"@ + rest;
    let inner = ended(list) + rest;
    assert(inner =~= ended(body) + tail);
    assert forall|i: int| 0 <= i < body.len() implies marked_once(#[trigger] body[i]) && differ(
        BLOCK_END@,
        body[i],
    ) by {
        assert(body[i] == list[i]);
    }
    lemma_none_begins_in_lines(body, tail, BLOCK_END@);
    assert(tail.subrange(0, BLOCK_END@.len() as int) =~= BLOCK_END@);
    lemma_occurs_behind(ended(body), tail, BLOCK_END@, 0);
    assert(inner.subrange(0, BLOCK_START@.len() as int) =~= BLOCK_START@);
    assert(inner.skip(end_place(home) + BLOCK_END@.len()) =~= "\n"@ + rest);
}

/// One newline before a cut and one behind it become one.
proof fn lemma_cut(pre: Seq<char>, rest: Seq<char>)
    requires
        ends_in_one_newline(pre),
        rest.len() > 0,
        rest[0] != '\n',
    ensures
        without_last(pre, '\n') + "\n"@ + without_first("\n"@ + rest, '\n') == pre + rest,
{
    reveal_strlit("\n");
    let after = "\n"@ + rest;
    assert(after.drop_first() =~= rest);
    assert(without_first(after, '\n') == without_first(rest, '\n'));
    let short = pre.drop_last();
    assert(without_last(pre, '\n') == without_last(short, '\n'));
    assert(without_last(short, '\n') == short) by {
        if short.len() > 0 {
            assert(short.last() == pre[pre.len() - 2]);
        }
    }
    assert(short + "\n"@ + rest =~= pre + rest);
}

/// What is left of a file with its block once the block is taken out.
proof fn lemma_block_comes_out(pre: Seq<char>, home: Seq<char>, rest: Seq<char>)
    requires
        ends_in_one_newline(pre),
        !occurs(pre, BLOCK_START@),
        !occurs(pre, BLOCK_END@),
        rest.len() > 0,
        rest[0] == '<',
    ensures
        without_block(pre + (ended(block_lines(home)) + rest)) == Some(pre + rest),
{
    let inner = ended(block_lines(home)) + rest;
    let u = pre + inner;
    let at = end_place(home);
    lemma_markers();
    lemma_inner(home, rest);
    lemma_first_place(pre, inner, BLOCK_START@, 0);
    lemma_first_place(pre, inner, BLOCK_END@, at);
    assert(u.take(pre.len() as int) =~= pre);
    assert(u.skip(pre.len() + at + BLOCK_END@.len()) =~= inner.skip(at + BLOCK_END@.len()));
    lemma_cut(pre, rest);
}

/// A text stands once in another exactly where it stands somewhere, and nowhere
/// behind that.
proof fn lemma_stands_once(s: Seq<char>, p: Seq<char>, k: int)
    requires
        marked_once(p),
        occurs_at(s, p, k),
        0 <= k,
        forall|j: int| 0 <= j < k ==> !occurs_at(s, p, j),
        forall|j: int| k + p.len() <= j ==> !occurs_at(s, p, j),
    ensures
        count_in(s, p) == 1,
{
    lemma_find_from_is(s, p, 0, k);
    lemma_find_from(s, p, k + p.len() as int);
    assert(count_from(s, p, k + p.len() as int) == 0);
}

/// What it means that a tag stands once in a text.
proof fn lemma_once(base: Seq<char>, tag: Seq<char>, k: int)
    requires
        tag.len() > 0,
        count_in(base, tag) == 1,
        find_in(base, tag) == Some(k),
    ensures
        0 <= k,
        occurs_at(base, tag, k),
        forall|j: int| 0 <= j < k ==> !occurs_at(base, tag, j),
        forall|j: int| k + tag.len() <= j ==> !occurs_at(base, tag, j),
        !occurs(base.take(k), tag),
{
    lemma_find_from(base, tag, 0);
    lemma_find_from(base, tag, k + tag.len() as int);
    assert(count_from(base, tag, 0) == 1 + count_from(base, tag, k + tag.len() as int));
    assert(find_from(base, tag, k + tag.len() as int) is None);
    let pre = base.take(k);
    assert forall|j: int| !occurs_at(pre, tag, j) by {
        if occurs_at(pre, tag, j) {
            assert(pre.subrange(j, j + tag.len()) =~= base.subrange(j, j + tag.len()));
            assert(occurs_at(base, tag, j));
        }
    }
}

/// The closing tag still stands once in a file with its block.
proof fn lemma_tag_stands_once(base: Seq<char>, k: int, home: Seq<char>, end: Seq<char>)
    requires
        count_in(base, CLOSING_TAG@) == 1,
        find_in(base, CLOSING_TAG@) == Some(k),
        end == "\n"@ || end == ""@,
    ensures
        count_in(
            base.take(k) + (ended(block_lines(home)) + (base.skip(k) + end)),
            CLOSING_TAG@,
        ) == 1,
{
    reveal_strlit("\n");
    reveal_strlit("");
    lemma_markers();
    let tag = CLOSING_TAG@;
    lemma_once(base, tag, k);
    let pre = base.take(k);
    let rest = base.skip(k) + end;
    let block = ended(block_lines(home));
    let inner = block + rest;
    let u = pre + inner;
    lemma_inner(home, rest);
    let n = block.len() as int;
    assert(rest.subrange(0, tag.len() as int) =~= base.subrange(k, k + tag.len()));
    lemma_occurs_behind(block, rest, tag, 0);
    lemma_first_place(pre, inner, tag, n);
    assert forall|j: int| pre.len() + n + tag.len() <= j implies !occurs_at(u, tag, j) by {
        let i = j - pre.len() - n;
        lemma_occurs_behind(block, rest, tag, i);
        lemma_occurs_behind(pre, inner, tag, n + i);
        if occurs_at(rest, tag, i) {
            let last = i + tag.len() - 1;
            assert(rest.subrange(i, i + tag.len())[tag.len() - 1] == rest[last]);
            assert(tag.contains(tag[tag.len() - 1]));
            assert(last < base.len() - k);
            assert(rest.subrange(i, i + tag.len()) =~= base.subrange(k + i, k + i + tag.len()));
            assert(occurs_at(base, tag, k + i));
        }
    }
    lemma_stands_once(u, tag, pre.len() + n);
}

/// Cutting the kept lines into lines again keeps them: what is joined from them
/// is the same text, or the same but for its final newline.
proof fn lemma_lines_stay(kept: Seq<Seq<char>>, end: Seq<char>)
    requires
        kept.len() > 0,
        end == "\n"@ || end == ""@,
        forall|i: int| 0 <= i < kept.len() ==> !(#[trigger] kept[i]).contains('\n'),
        forall|i: int| 0 <= i < kept.len() ==> !is_managed(#[trigger] kept[i]),
        forall|i: int|
            0 <= i < kept.len() && (end == "\n"@ || i < kept.len() - 1) ==> !((
            #[trigger] kept[i]).len() > 0 && kept[i].last() == '\r'),
    ensures
        ({
            let base = join_of(kept, "\n"@);
            base_of(base + end) == if end == ""@ && kept.last().len() == 0 && kept.len() > 1 {
                base.drop_last()
            } else {
                base
            }
        }),
{
    reveal_strlit("\n");
    reveal_strlit("");
    let base = join_of(kept, "\n"@);
    lemma_join_is_ended(kept);
    let head = kept.drop_last();
    assert forall|i: int| 0 <= i < head.len() implies lasting(#[trigger] head[i]) by {
        assert(head[i] == kept[i]);
    }
    if end == "\n"@ {
        assert forall|i: int| 0 <= i < kept.len() implies lasting(#[trigger] kept[i]) by {}
        lemma_lines_of_ended(kept, Seq::<char>::empty());
        assert(base + end =~= ended(kept) + Seq::<char>::empty());
        lemma_unmanaged_all(kept);
    } else {
        assert(base + end =~= ended(head) + kept.last());
        assert(!kept[kept.len() - 1].contains('\n'));
        lemma_lines_of_ended(head, kept.last());
        if kept.last().len() > 0 {
            assert(head.push(kept.last()) =~= kept);
            lemma_unmanaged_all(kept);
        } else {
            assert forall|i: int| 0 <= i < head.len() implies !is_managed(#[trigger] head[i]) by {
                assert(head[i] == kept[i]);
            }
            lemma_unmanaged_all(head);
            if head.len() > 0 {
                lemma_join_is_ended(head);
                assert(base =~= ended(head));
                assert(base.drop_last() =~= join_of(head, "\n"@));
            } else {
                assert(base =~= Seq::<char>::empty());
                assert(join_of(head, "\n"@) =~= base);
            }
        }
    }
}

/// A file with its block, as the text before the closing tag, the block, and the
/// rest.
proof fn lemma_spliced(base: Seq<char>, k: int, home: Seq<char>, end: Seq<char>)
    requires
        find_in(base, CLOSING_TAG@) == Some(k),
        occurs_at(base, CLOSING_TAG@, k),
    ensures
        spliced(base, block_of(home)) + end == base.take(k) + (ended(block_lines(home)) + (
        base.skip(k) + end)),
        base.take(k) + (base.skip(k) + end) == base + end,
        base.skip(k).len() > 0,
        base.skip(k)[0] == CLOSING_TAG@[0],
{
    lemma_markers();
    lemma_block_lines(home);
    let tag = CLOSING_TAG@;
    let block = block_of(home);
    lemma_join_is_ended(block_lines(home));
    assert(base.subrange(k, k + tag.len()) == tag);
    assert(base.skip(k) =~= tag + base.skip(k + tag.len()));
    assert(block + "\n"@ + tag =~= (block + "\n"@) + tag);
    let after = base.skip(k + tag.len());
    let lines = ended(block_lines(home));
    assert(base.take(k) + (lines + tag) + after + end =~= base.take(k) + (lines + (tag + after
        + end)));
    assert(base.take(k) + (base.skip(k) + end) =~= base + end);
}

/// The block goes back to its place where the text only lost its final newline.
proof fn lemma_short_splice(base: Seq<char>, k: int, block: Seq<char>)
    requires
        find_in(base, CLOSING_TAG@) == Some(k),
        base.len() > 0,
        base.last() == '\n',
    ensures
        spliced(base.drop_last(), block) + "\n"@ == spliced(base, block),
        spliced(base, block).len() > 0,
        spliced(base, block).last() == '\n',
{
    reveal_strlit("\n");
    lemma_markers();
    let tag = CLOSING_TAG@;
    let short = base.drop_last();
    lemma_find_from(base, tag, 0);
    assert(k + tag.len() < base.len()) by {
        if k + tag.len() == base.len() {
            assert(base.subrange(k, k + tag.len())[tag.len() - 1] == base.last());
            assert(tag.contains(tag[tag.len() - 1]));
        }
    }
    assert(short.subrange(k, k + tag.len()) =~= base.subrange(k, k + tag.len()));
    assert forall|j: int| 0 <= j < k implies !occurs_at(short, tag, j) by {
        if occurs_at(short, tag, j) {
            assert(short.subrange(j, j + tag.len()) =~= base.subrange(j, j + tag.len()));
            assert(occurs_at(base, tag, j));
        }
    }
    lemma_find_from_is(short, tag, 0, k);
    assert(short.take(k) =~= base.take(k));
    assert(short.skip(k + tag.len()) + "\n"@ =~= base.skip(k + tag.len()));
    let middle = block + "\n"@ + tag;
    assert(base.take(k) + middle + short.skip(k + tag.len()) + "\n"@ =~= base.take(k) + middle + (
    short.skip(k + tag.len()) + "\n"@));
}

/// The last character of a file with its block is that of the text without it.
proof fn lemma_splice_end(base: Seq<char>, k: int, block: Seq<char>)
    requires
        find_in(base, CLOSING_TAG@) == Some(k),
        base.len() > 0,
    ensures
        spliced(base, block).len() > 0,
        spliced(base, block).last() == base.last(),
{
    lemma_markers();
    let tag = CLOSING_TAG@;
    lemma_find_from(base, tag, 0);
    assert(base.subrange(k, k + tag.len())[tag.len() - 1] == base[k + tag.len() - 1]);
}

/// Reconciling a file that was reconciled changes nothing.
pub proof fn law_reconciling_twice(original: Seq<char>, home: Seq<char>)
    requires
        reconciled(original, home) is Ok,
        settles(original),
    ensures
        reconciled(reconciled(original, home)->Ok_0, home) == reconciled(original, home),
{
    reveal_strlit("\n");
    reveal_strlit("");
    let tag = CLOSING_TAG@;
    let text = without_block(original)->0;
    let kept = unmanaged(lines_of(text));
    let base = base_of(text);
    let k = find_in(base, tag)->0;
    let end = final_newline(original);
    let block = block_of(home);
    let u = spliced(base, block) + end;
    lemma_markers();
    lemma_once(base, tag, k);
    lemma_spliced(base, k, home, end);
    lemma_tag_stands_once(base, k, home, end);
    lemma_block_comes_out(base.take(k), home, base.skip(k) + end);
    assert(count_in(u, tag) == 1);
    assert(without_block(u) == Some(base + end));
    // The lines that are kept.
    lemma_lines_hold_no_newline(text);
    lemma_unmanaged(lines_of(text));
    assert forall|i: int| 0 <= i < kept.len() implies !(#[trigger] kept[i]).contains('\n') by {
        let all = lines_of(text);
        let m = choose|m: int| 0 <= m < all.len() && all[m] == kept[i];
        assert(!all[m].contains('\n'));
    }
    assert(base.len() > 0);
    assert(kept.len() > 0) by {
        if kept.len() == 0 {
            assert(base =~= Seq::<char>::empty());
        }
    }
    lemma_lines_stay(kept, end);
    lemma_join_is_ended(kept);
    lemma_splice_end(base, k, block);
    if end == ""@ && kept.last().len() == 0 && kept.len() > 1 {
        lemma_join_is_ended(kept.drop_last());
        assert(base =~= join_of(kept.drop_last(), "\n"@) + "\n"@);
        lemma_short_splice(base, k, block);
        assert(u =~= spliced(base, block));
        assert(final_newline(u) == "\n"@);
    } else {
        assert(final_newline(u) == end) by {
            if end == ""@ {
                assert(u =~= spliced(base, block));
                if kept.last().len() > 0 {
                    assert(base.last() == kept.last().last());
                    assert(kept.last() == kept[kept.len() - 1]);
                    assert(kept.last().contains(kept.last().last()));
                } else {
                    assert(kept.len() == 1);
                    assert(base =~= Seq::<char>::empty());
                }
            }
        }
    }
}

// ---------------------------------------------------------------------------
// What reconciling amounts to
// ---------------------------------------------------------------------------

/// A line whose `contains_1` attribute is none of the values that are managed or
/// were.
pub open spec fn foreign(line: Seq<char>) -> bool {
    &&& !occurs(line, "contains_1=\"/.rustup/\""@)
    &&& !occurs(line, "contains_1=\"/go/pkg/mod/\""@)
    &&& !occurs(line, "contains_1=\"/.cargo/registry/\""@)
    &&& !occurs(line, "contains_1=\"/__pycache__/\""@)
    &&& !occurs(line, "contains_1=\"/.venv/\""@)
    &&& !occurs(line, "contains_1=\"/.expo/\""@)
    &&& !occurs(line, "contains_1=\"/.gem/\""@)
}

/// The foreign lines of a list, in order.
pub open spec fn foreign_lines(list: Seq<Seq<char>>) -> Seq<Seq<char>>
    decreases list.len(),
{
    if list.len() == 0 {
        seq![]
    } else if foreign(list.last()) {
        foreign_lines(list.drop_last()).push(list.last())
    } else {
        foreign_lines(list.drop_last())
    }
}

/// A line goes exactly where its `contains_1` attribute is a managed or retired
/// value: a value that stands elsewhere in the line does not matter.
pub proof fn law_only_managed_rules_go(line: Seq<char>)
    ensures
        is_managed(line) <==> !foreign(line),
{
    reveal_strlit("contains_1=\"");
    reveal_strlit("\"");
    reveal_strlit("/.rustup/");
    reveal_strlit("/go/pkg/mod/");
    reveal_strlit("/.cargo/registry/");
    reveal_strlit("/__pycache__/");
    reveal_strlit("/.venv/");
    reveal_strlit("/.expo/");
    reveal_strlit("/.gem/");
    reveal_strlit("contains_1=\"/.rustup/\"");
    reveal_strlit("contains_1=\"/go/pkg/mod/\"");
    reveal_strlit("contains_1=\"/.cargo/registry/\"");
    reveal_strlit("contains_1=\"/__pycache__/\"");
    reveal_strlit("contains_1=\"/.venv/\"");
    reveal_strlit("contains_1=\"/.expo/\"");
    reveal_strlit("contains_1=\"/.gem/\"");
    let (a, b) = ("contains_1=\""@, "\""@);
    assert(a + "/.rustup/"@ + b =~= "contains_1=\"/.rustup/\""@);
    assert(a + "/go/pkg/mod/"@ + b =~= "contains_1=\"/go/pkg/mod/\""@);
    assert(a + "/.cargo/registry/"@ + b =~= "contains_1=\"/.cargo/registry/\""@);
    assert(a + "/__pycache__/"@ + b =~= "contains_1=\"/__pycache__/\""@);
    assert(a + "/.venv/"@ + b =~= "contains_1=\"/.venv/\""@);
    assert(a + "/.expo/"@ + b =~= "contains_1=\"/.expo/\""@);
    assert(a + "/.gem/"@ + b =~= "contains_1=\"/.gem/\""@);
    let all = managed_values();
    assert(all.len() == 7);
    assert(all[0] == "/.rustup/"@ && all[1] == "/go/pkg/mod/"@ && all[2] == "/.cargo/registry/"@
        && all[3] == "/__pycache__/"@ && all[4] == "/.venv/"@ && all[5] == "/.expo/"@ && all[6]
        == "/.gem/"@);
    if is_managed(line) {
        let i = choose|i: int| 0 <= i < all.len() && rules_on(line, #[trigger] all[i]);
        assert(i == 0 || i == 1 || i == 2 || i == 3 || i == 4 || i == 5 || i == 6);
    } else {
        assert(!rules_on(line, all[0]) && !rules_on(line, all[1]) && !rules_on(line, all[2])
            && !rules_on(line, all[3]) && !rules_on(line, all[4]) && !rules_on(line, all[5])
            && !rules_on(line, all[6]));
    }
}

/// The lines that are kept are the foreign ones, in order.
pub proof fn law_kept_lines(list: Seq<Seq<char>>)
    ensures
        unmanaged(list) == foreign_lines(list),
    decreases list.len(),
{
    reveal(Seq::filter);
    if list.len() > 0 {
        law_kept_lines(list.drop_last());
        law_only_managed_rules_go(list.last());
    } else {
        assert(unmanaged(list) =~= Seq::empty());
    }
}

/// Reconciling keeps every foreign line outside the block, in order, and adds
/// nothing but the block, which goes before the first closing tag. A final
/// newline is kept.
pub proof fn law_reconciling_adds_only_the_block(original: Seq<char>, home: Seq<char>)
    requires
        reconciled(original, home) is Ok,
    ensures
        without_block(original) is Some,
        ({
            let result = reconciled(original, home)->Ok_0;
            let base = join_of(foreign_lines(lines_of(without_block(original)->0)), "\n"@);
            let end = if original.len() > 0 && original.last() == '\n' {
                seq!['\n']
            } else {
                Seq::<char>::empty()
            };
            if occurs(base, "</bzexclusions>"@) {
                exists|k: int| #[trigger]
                    occurs_at(base, "</bzexclusions>"@, k) && (forall|j: int|
                        0 <= j < k ==> !occurs_at(base, "</bzexclusions>"@, j)) && result
                        == base.take(k) + block_of(home) + seq!['\n'] + base.skip(k) + end
            } else {
                result == base + end
            }
        }),
{
    reveal_strlit("\n");
    reveal_strlit("");
    assert("\n"@ =~= seq!['\n']);
    assert(""@ =~= Seq::<char>::empty());
    let text = without_block(original)->0;
    law_kept_lines(lines_of(text));
    let base = base_of(text);
    let tag = "</bzexclusions>"@;
    let end = final_newline(original);
    lemma_find_from(base, tag, 0);
    match find_in(base, tag) {
        Some(k) => {
            let after = base.skip(k + tag.len());
            assert(base.subrange(k, k + tag.len()) == tag);
            assert(base.skip(k) =~= tag + after);
            let block = block_of(home);
            assert(base.take(k) + (block + "\n"@ + tag) + after + end =~= base.take(k) + block
                + seq!['\n'] + base.skip(k) + end);
            assert(occurs_at(base, tag, k));
        },
        None => {
            if occurs(base, tag) {
                let k = choose|k: int| occurs_at(base, tag, k);
                assert(!occurs_at(base, tag, k));
            }
        },
    }
}

/// A file is refused exactly where it does not hold one closing tag, or where the
/// markers of its block are not in order.
pub proof fn law_what_is_refused(original: Seq<char>, home: Seq<char>)
    ensures
        count_in(original, "</bzexclusions>"@) != 1 ==> reconciled(original, home) == Err::<
            Seq<char>,
            Seq<char>,
        >("Backblaze exclusions must contain exactly one </bzexclusions>"@),
        count_in(original, "</bzexclusions>"@) == 1 && without_block(original) is None
            ==> reconciled(original, home) == Err::<Seq<char>, Seq<char>>(
            "Backblaze managed exclusion block markers are unbalanced"@,
        ),
        count_in(original, "</bzexclusions>"@) == 1 && without_block(original) is Some
            ==> reconciled(original, home) is Ok,
{
}

proof fn lemma_newlines_off(s: Seq<char>, n: nat)
    ensures
        s.len() == 0 || s.last() != '\n' ==> without_last(s + newlines(n), '\n') == s,
        s.len() == 0 || s[0] != '\n' ==> without_first(newlines(n) + s, '\n') == s,
    decreases n,
{
    if n == 0 {
        assert(s + newlines(n) =~= s);
        assert(newlines(n) + s =~= s);
    } else {
        let m = (n - 1) as nat;
        lemma_newlines_off(s, m);
        assert((s + newlines(n)).drop_last() =~= s + newlines(m));
        assert((newlines(n) + s).drop_first() =~= newlines(m) + s);
        assert((newlines(n) + s)[0] == newlines(n)[0]);
        assert((s + newlines(n)).last() == newlines(n)[n - 1]);
    }
}

/// So many newlines.
pub open spec fn newlines(n: nat) -> Seq<char> {
    Seq::new(n, |i: int| '\n')
}

/// Taking the block out leaves what is before its begin and behind its end, with
/// one newline for those around it. Without markers nothing is taken out, and
/// with one of them, or with the end first, the file is refused.
pub proof fn law_what_the_block_leaves(
    original: Seq<char>,
    before: Seq<char>,
    m: nat,
    block: Seq<char>,
    n: nat,
    after: Seq<char>,
)
    ensures
        find_in(original, BLOCK_START@) is None && find_in(original, BLOCK_END@) is None
            ==> without_block(original) == Some(original),
        (find_in(original, BLOCK_START@) is None) != (find_in(original, BLOCK_END@) is None)
            ==> without_block(original) is None,
        find_in(original, BLOCK_START@) matches Some(s) && find_in(original, BLOCK_END@) matches Some(
            e,
        ) && s >= e ==> without_block(original) is None,
        ({
            let start = before.len() + m;
            let end = start + block.len() - BLOCK_END@.len();
            &&& original == before + newlines(m) + block + newlines(n) + after
            &&& before.len() == 0 || before.last() != '\n'
            &&& after.len() == 0 || after[0] != '\n'
            &&& find_in(original, BLOCK_START@) == Some(start as int)
            &&& find_in(original, BLOCK_END@) == Some(end)
            &&& start < end
        }) ==> without_block(original) == Some(before + seq!['\n'] + after),
{
    reveal_strlit("\n");
    assert("\n"@ =~= seq!['\n']);
    let start = (before.len() + m) as int;
    let end = start + block.len() - BLOCK_END@.len();
    if original == before + newlines(m) + block + newlines(n) + after && find_in(
        original,
        BLOCK_START@,
    ) == Some(start) && find_in(original, BLOCK_END@) == Some(end) && start < end {
        assert(original.take(start) =~= before + newlines(m));
        assert(original.skip(end + BLOCK_END@.len()) =~= newlines(n) + after);
        lemma_newlines_off(before, m);
        lemma_newlines_off(after, n);
    }
}

/// Values are escaped character by character: the four characters that XML reads
/// otherwise in an attribute, and no others.
pub proof fn law_escaping(a: Seq<char>, b: Seq<char>, c: char)
    ensures
        escaped(a + b) == escaped(a) + escaped(b),
        escaped(seq!['&']) == "&amp;"@,
        escaped(seq!['"']) == "&quot;"@,
        escaped(seq!['<']) == "&lt;"@,
        escaped(seq!['>']) == "&gt;"@,
        c != '&' && c != '"' && c != '<' && c != '>' ==> escaped(seq![c]) == seq![c],
    decreases b.len(),
{
    reveal_with_fuel(escaped, 2);
    assert forall|x: char| #[trigger] escaped(seq![x]) == attribute_char(x) by {
        assert(seq![x].drop_last() =~= Seq::<char>::empty());
        assert(Seq::<char>::empty() + attribute_char(x) =~= attribute_char(x));
    }
    if b.len() == 0 {
        assert(a + b =~= a);
        assert(escaped(a) + escaped(b) =~= escaped(a));
    } else {
        assert((a + b).drop_last() =~= a + b.drop_last());
        law_escaping(a, b.drop_last(), c);
        assert(escaped(a) + (escaped(b.drop_last()) + attribute_char(b.last())) =~= (escaped(a)
            + escaped(b.drop_last())) + attribute_char(b.last()));
    }
}

/// What the block says, line by line: the five rules without an exception, and
/// the one that spares the state of Expo in the home directory.
pub proof fn law_what_the_block_says(home: Seq<char>)
    ensures
        block_of(home) == join_of(block_lines(home), seq!['\n']),
        ({
            let lines = block_lines(home);
            &&& lines.len() == 9
            &&& lines[0] == "<!-- backup-scripts managed development exclusions: begin -->"@
            &&& lines[1]
                == "<!-- Regenerable development data; keep installed gems and home-level Expo state. -->"@
            &&& lines[2]
                == "<excludefname_rule plat=\"mac\" osVers=\"*\" ruleIsOptional=\"t\" skipFirstCharThenStartsWith=\"users/\" contains_1=\"/.rustup/\" contains_2=\"*\" doesNotContain=\"*\" endsWith=\"*\" hasFileExtension=\"*\" />"@
            &&& lines[3]
                == "<excludefname_rule plat=\"mac\" osVers=\"*\" ruleIsOptional=\"t\" skipFirstCharThenStartsWith=\"users/\" contains_1=\"/go/pkg/mod/\" contains_2=\"*\" doesNotContain=\"*\" endsWith=\"*\" hasFileExtension=\"*\" />"@
            &&& lines[4]
                == "<excludefname_rule plat=\"mac\" osVers=\"*\" ruleIsOptional=\"t\" skipFirstCharThenStartsWith=\"users/\" contains_1=\"/.cargo/registry/\" contains_2=\"*\" doesNotContain=\"*\" endsWith=\"*\" hasFileExtension=\"*\" />"@
            &&& lines[5]
                == "<excludefname_rule plat=\"mac\" osVers=\"*\" ruleIsOptional=\"t\" skipFirstCharThenStartsWith=\"users/\" contains_1=\"/__pycache__/\" contains_2=\"*\" doesNotContain=\"*\" endsWith=\"*\" hasFileExtension=\"*\" />"@
            &&& lines[6]
                == "<excludefname_rule plat=\"mac\" osVers=\"*\" ruleIsOptional=\"t\" skipFirstCharThenStartsWith=\"users/\" contains_1=\"/.venv/\" contains_2=\"*\" doesNotContain=\"*\" endsWith=\"*\" hasFileExtension=\"*\" />"@
            &&& lines[7]
                == "<excludefname_rule plat=\"mac\" osVers=\"*\" ruleIsOptional=\"t\" skipFirstCharThenStartsWith=\"users/\" contains_1=\"/.expo/\" contains_2=\"*\" doesNotContain=\""@
                + escaped(lower_of(home) + "/.expo/"@)
                + "\" endsWith=\"*\" hasFileExtension=\"*\" />"@
            &&& lines[8] == "<!-- backup-scripts managed development exclusions: end -->"@
        }),
{
    reveal_strlit("\n");
    assert("\n"@ =~= seq!['\n']);
    reveal_strlit("<excludefname_rule plat=\"mac\" osVers=\"*\" ruleIsOptional=\"t\" skipFirstCharThenStartsWith=\"users/\" contains_1=\"");
    reveal_strlit("\" contains_2=\"*\" doesNotContain=\"");
    reveal_strlit("\" endsWith=\"*\" hasFileExtension=\"*\" />");
    reveal_strlit("*");
    reveal_strlit("/.expo/");
    reveal_strlit("<excludefname_rule plat=\"mac\" osVers=\"*\" ruleIsOptional=\"t\" skipFirstCharThenStartsWith=\"users/\" contains_1=\"/.expo/\" contains_2=\"*\" doesNotContain=\"");
    reveal_strlit("<excludefname_rule plat=\"mac\" osVers=\"*\" ruleIsOptional=\"t\" skipFirstCharThenStartsWith=\"users/\" contains_1=\"/.rustup/\" contains_2=\"*\" doesNotContain=\"*\" endsWith=\"*\" hasFileExtension=\"*\" />");
    reveal_strlit("/.rustup/");
    reveal_strlit("<excludefname_rule plat=\"mac\" osVers=\"*\" ruleIsOptional=\"t\" skipFirstCharThenStartsWith=\"users/\" contains_1=\"/go/pkg/mod/\" contains_2=\"*\" doesNotContain=\"*\" endsWith=\"*\" hasFileExtension=\"*\" />");
    reveal_strlit("/go/pkg/mod/");
    reveal_strlit("<excludefname_rule plat=\"mac\" osVers=\"*\" ruleIsOptional=\"t\" skipFirstCharThenStartsWith=\"users/\" contains_1=\"/.cargo/registry/\" contains_2=\"*\" doesNotContain=\"*\" endsWith=\"*\" hasFileExtension=\"*\" />");
    reveal_strlit("/.cargo/registry/");
    reveal_strlit("<excludefname_rule plat=\"mac\" osVers=\"*\" ruleIsOptional=\"t\" skipFirstCharThenStartsWith=\"users/\" contains_1=\"/__pycache__/\" contains_2=\"*\" doesNotContain=\"*\" endsWith=\"*\" hasFileExtension=\"*\" />");
    reveal_strlit("/__pycache__/");
    reveal_strlit("<excludefname_rule plat=\"mac\" osVers=\"*\" ruleIsOptional=\"t\" skipFirstCharThenStartsWith=\"users/\" contains_1=\"/.venv/\" contains_2=\"*\" doesNotContain=\"*\" endsWith=\"*\" hasFileExtension=\"*\" />");
    reveal_strlit("/.venv/");
    assert(rule_of("/.rustup/"@, "*"@)
        =~= "<excludefname_rule plat=\"mac\" osVers=\"*\" ruleIsOptional=\"t\" skipFirstCharThenStartsWith=\"users/\" contains_1=\"/.rustup/\" contains_2=\"*\" doesNotContain=\"*\" endsWith=\"*\" hasFileExtension=\"*\" />"@);
    assert(rule_of("/go/pkg/mod/"@, "*"@)
        =~= "<excludefname_rule plat=\"mac\" osVers=\"*\" ruleIsOptional=\"t\" skipFirstCharThenStartsWith=\"users/\" contains_1=\"/go/pkg/mod/\" contains_2=\"*\" doesNotContain=\"*\" endsWith=\"*\" hasFileExtension=\"*\" />"@);
    assert(rule_of("/.cargo/registry/"@, "*"@)
        =~= "<excludefname_rule plat=\"mac\" osVers=\"*\" ruleIsOptional=\"t\" skipFirstCharThenStartsWith=\"users/\" contains_1=\"/.cargo/registry/\" contains_2=\"*\" doesNotContain=\"*\" endsWith=\"*\" hasFileExtension=\"*\" />"@);
    assert(rule_of("/__pycache__/"@, "*"@)
        =~= "<excludefname_rule plat=\"mac\" osVers=\"*\" ruleIsOptional=\"t\" skipFirstCharThenStartsWith=\"users/\" contains_1=\"/__pycache__/\" contains_2=\"*\" doesNotContain=\"*\" endsWith=\"*\" hasFileExtension=\"*\" />"@);
    assert(rule_of("/.venv/"@, "*"@)
        =~= "<excludefname_rule plat=\"mac\" osVers=\"*\" ruleIsOptional=\"t\" skipFirstCharThenStartsWith=\"users/\" contains_1=\"/.venv/\" contains_2=\"*\" doesNotContain=\"*\" endsWith=\"*\" hasFileExtension=\"*\" />"@);
    assert("<excludefname_rule plat=\"mac\" osVers=\"*\" ruleIsOptional=\"t\" skipFirstCharThenStartsWith=\"users/\" contains_1=\""@
        + "/.expo/"@ + "\" contains_2=\"*\" doesNotContain=\""@
        =~= "<excludefname_rule plat=\"mac\" osVers=\"*\" ruleIsOptional=\"t\" skipFirstCharThenStartsWith=\"users/\" contains_1=\"/.expo/\" contains_2=\"*\" doesNotContain=\""@);
}

/// A line between newlines, or at an end of the text, is one of its lines.
proof fn lemma_line_stands(a: Seq<char>, line: Seq<char>, b: Seq<char>)
    requires
        a.len() == 0 || a.last() == '\n',
        b.len() == 0 || b[0] == '\n',
        line.len() > 0 || b.len() > 0,
        lasting(line),
    ensures
        lines_of(a + line + b).contains(line),
    decreases a.len(),
{
    let s = a + line + b;
    crate::split::lemma_index_of(a, '\n');
    let k = crate::split::index_of(a, '\n');
    if a.len() == 0 {
        if b.len() == 0 {
            crate::split::law_lines(line, b);
            assert(s =~= line);
            assert(lines_of(s)[0] == line);
        } else {
            let rest = b.drop_first();
            crate::split::law_lines(line, rest);
            assert(s =~= line + seq!['\n'] + rest);
            assert(lines_of(s)[0] == line);
        }
    } else {
        assert(k < a.len()) by {
            if k == a.len() {
                assert(a[a.len() - 1] != '\n');
            }
        }
        let rest = a.skip(k + 1);
        if rest.len() > 0 {
            assert(rest.last() == a.last());
        }
        lemma_line_stands(rest, line, b);
        let tail = rest + line + b;
        assert forall|i: int| 0 <= i < k implies s[i] != '\n' by {
            assert(s[i] == a[i]);
        }
        assert(s[k] == a[k]);
        crate::split::lemma_index_of_is(s, '\n', k);
        assert(s.skip(k + 1) =~= tail);
        let i = choose|i: int| 0 <= i < lines_of(tail).len() && lines_of(tail)[i] == line;
        assert(lines_of(s)[i + 1] == line);
    }
}

proof fn lemma_foreign_lines(list: Seq<Seq<char>>, i: int)
    requires
        0 <= i < list.len(),
        foreign(list[i]),
    ensures
        foreign_lines(list).contains(list[i]),
    decreases list.len(),
{
    let head = list.drop_last();
    let out = foreign_lines(list);
    if i < head.len() {
        lemma_foreign_lines(head, i);
        let before = foreign_lines(head);
        let k = choose|k: int| 0 <= k < before.len() && before[k] == list[i];
        assert(out[k] == list[i]);
    } else {
        assert(out[out.len() - 1] == list[i]);
    }
}

/// Where a part stands in what is joined from it and others by newlines.
proof fn lemma_part_stands(parts: Seq<Seq<char>>, i: int) -> (p: int)
    requires
        0 <= i < parts.len(),
    ensures
        ({
            let s = join_of(parts, "\n"@);
            &&& 0 <= p <= p + parts[i].len() <= s.len()
            &&& s.subrange(p, p + parts[i].len()) == parts[i]
            &&& p == 0 || s[p - 1] == '\n'
            &&& p + parts[i].len() == s.len() || s[p + parts[i].len()] == '\n'
        }),
    decreases parts.len(),
{
    reveal_strlit("\n");
    let s = join_of(parts, "\n"@);
    if parts.len() == 1 {
        assert(s.subrange(0, s.len() as int) =~= parts[0]);
        0
    } else {
        let head = parts.drop_last();
        let before = join_of(head, "\n"@);
        if i < head.len() {
            let p = lemma_part_stands(head, i);
            let n = parts[i].len();
            assert(s.subrange(p, p + n) =~= before.subrange(p, p + n));
            p
        } else {
            let p = before.len() as int + 1;
            assert(s.subrange(p, p + parts[i].len()) =~= parts[i]);
            p
        }
    }
}

/// A tag that is not in a line stands before it or behind it.
proof fn lemma_tag_beside_line(base: Seq<char>, p: int, line: Seq<char>, tag: Seq<char>, k: int)
    requires
        0 <= p <= p + line.len() <= base.len(),
        base.subrange(p, p + line.len()) == line,
        p + line.len() == base.len() || base[p + line.len()] == '\n',
        occurs_at(base, tag, k),
        !occurs(line, tag),
        tag.len() > 0,
        !tag.contains('\n'),
    ensures
        k < p || k > p + line.len(),
{
    let n = line.len() as int;
    if p <= k <= p + n {
        if k < p + n && k + tag.len() <= p + n {
            assert(line.subrange(k - p, k - p + tag.len()) =~= base.subrange(k, k + tag.len()));
            assert(occurs_at(line, tag, k - p));
        } else {
            let j = p + n - k;
            assert(base.subrange(k, k + tag.len())[j] == base[k + j]);
            assert(tag.contains(tag[j]));
        }
    }
}

/// A line stays one where lines are put in before or behind it.
proof fn lemma_line_beside_insert(
    base: Seq<char>,
    p: int,
    line: Seq<char>,
    k: int,
    insert: Seq<char>,
    end: Seq<char>,
)
    requires
        0 <= p <= p + line.len() <= base.len(),
        base.subrange(p, p + line.len()) == line,
        p == 0 || base[p - 1] == '\n',
        p + line.len() == base.len() || base[p + line.len()] == '\n',
        0 <= k <= base.len(),
        k < p || k > p + line.len(),
        end.len() == 0 || end[0] == '\n',
        line.len() > 0,
        lasting(line),
    ensures
        lines_of(base.take(k) + insert + base.skip(k) + end).contains(line),
{
    let n = line.len() as int;
    let result = base.take(k) + insert + base.skip(k) + end;
    let after = base.skip(p + n);
    if k < p {
        let a = base.take(k) + insert + base.subrange(k, p);
        let b = after + end;
        assert(base.skip(k) =~= base.subrange(k, p) + base.subrange(p, p + n) + after);
        assert(result =~= a + line + b);
        assert(a.last() == base[p - 1]);
        lemma_line_stands(a, line, b);
    } else {
        let a = base.take(p);
        let b = base.subrange(p + n, k) + insert + base.skip(k) + end;
        assert(base.take(k) =~= a + base.subrange(p, p + n) + base.subrange(p + n, k));
        assert(result =~= a + line + b);
        assert(b[0] == base[p + n]);
        lemma_line_stands(a, line, b);
    }
}

/// A kept line is a line of what the block was put into.
proof fn lemma_kept_line_stands(
    kept: Seq<Seq<char>>,
    m: int,
    block: Seq<char>,
    end: Seq<char>,
    result: Seq<char>,
)
    requires
        0 <= m < kept.len(),
        kept[m].len() > 0,
        lasting(kept[m]),
        !occurs(kept[m], "</bzexclusions>"@),
        end.len() == 0 || end[0] == '\n',
        ({
            let base = join_of(kept, "\n"@);
            if occurs(base, "</bzexclusions>"@) {
                exists|k: int| #[trigger]
                    occurs_at(base, "</bzexclusions>"@, k) && (forall|j: int|
                        0 <= j < k ==> !occurs_at(base, "</bzexclusions>"@, j)) && result
                        == base.take(k) + block + seq!['\n'] + base.skip(k) + end
            } else {
                result == base + end
            }
        }),
    ensures
        lines_of(result).contains(kept[m]),
{
    let tag = "</bzexclusions>"@;
    let base = join_of(kept, "\n"@);
    let line = kept[m];
    let p = lemma_part_stands(kept, m);
    let n = line.len() as int;
    assert(tag.len() > 0 && !tag.contains('\n')) by {
        reveal_strlit("</bzexclusions>");
    }
    if occurs(base, tag) {
        let k = choose|k: int| #[trigger]
            occurs_at(base, tag, k) && (forall|j: int| 0 <= j < k ==> !occurs_at(base, tag, j))
                && result == base.take(k) + block + seq!['\n'] + base.skip(k) + end;
        lemma_tag_beside_line(base, p, line, tag, k);
        let insert = block + seq!['\n'];
        assert(result =~= base.take(k) + insert + base.skip(k) + end);
        lemma_line_beside_insert(base, p, line, k, insert, end);
    } else {
        let before = base.take(p);
        let after = base.skip(p + n);
        assert(base =~= base.take(p) + base.subrange(p, p + n) + base.skip(p + n));
        assert(result =~= before + line + (after + end));
        lemma_line_stands(before, line, after + end);
    }
}

/// A rule of the user's own stays: every line outside the block whose
/// `contains_1` attribute is no managed value, and that does not hold the closing
/// tag, is a line of the reconciled file. This leaves out an empty line, which
/// may be the last, and one that ends in a carriage return.
pub proof fn law_other_rules_stay(original: Seq<char>, home: Seq<char>, i: int)
    requires
        reconciled(original, home) is Ok,
        without_block(original) is Some,
        0 <= i < lines_of(without_block(original)->0).len(),
        ({
            let line = lines_of(without_block(original)->0)[i];
            &&& foreign(line)
            &&& !occurs(line, "</bzexclusions>"@)
            &&& line.len() > 0 && line.last() != '\r'
        }),
    ensures
        lines_of(reconciled(original, home)->Ok_0).contains(
            lines_of(without_block(original)->0)[i],
        ),
{
    let text = without_block(original)->0;
    let all = lines_of(text);
    let line = all[i];
    let kept = foreign_lines(all);
    let result = reconciled(original, home)->Ok_0;
    lemma_lines_hold_no_newline(text);
    lemma_foreign_lines(all, i);
    let m = choose|m: int| 0 <= m < kept.len() && kept[m] == line;
    law_reconciling_adds_only_the_block(original, home);
    let end = if original.len() > 0 && original.last() == '\n' {
        seq!['\n']
    } else {
        Seq::<char>::empty()
    };
    lemma_kept_line_stands(kept, m, block_of(home), end, result);
}

/// What [`reconcile_exclusions`] keeps: every line outside the block that is not
/// empty, does not end in a carriage return, does not hold the closing tag, and
/// whose `contains_1` attribute is none of the managed or retired values.
pub proof fn law_reconcile_exclusions(
    original: &str,
    home: &str,
    r: Result<String, String>,
    i: int,
)
    requires
        call_ensures(reconcile_exclusions, (original, home), r),
        r is Ok,
        without_block(original@) is Some,
        0 <= i < lines_of(without_block(original@)->0).len(),
        ({
            let line = lines_of(without_block(original@)->0)[i];
            &&& line.len() > 0 && line.last() != '\r'
            &&& !occurs(line, "</bzexclusions>"@)
            &&& !occurs(line, "contains_1=\"/.rustup/\""@)
            &&& !occurs(line, "contains_1=\"/go/pkg/mod/\""@)
            &&& !occurs(line, "contains_1=\"/.cargo/registry/\""@)
            &&& !occurs(line, "contains_1=\"/__pycache__/\""@)
            &&& !occurs(line, "contains_1=\"/.venv/\""@)
            &&& !occurs(line, "contains_1=\"/.expo/\""@)
            &&& !occurs(line, "contains_1=\"/.gem/\""@)
        }),
    ensures
        lines_of(r->Ok_0@).contains(lines_of(without_block(original@)->0)[i]),
{
    law_other_rules_stay(original@, home@, i);
}

/// Nothing is written in a dry run or without being asked for, and what is
/// written is what reconciling gives.
pub proof fn law_plan(
    original: &str,
    home: Option<String>,
    settings: Settings,
    dry_run: bool,
    r: Result<Update, String>,
)
    requires
        call_ensures(plan, (original, &home, &settings, dry_run), r),
    ensures
        r matches Ok(Update::Write { backup, text }) ==> !dry_run && settings.apply && home is Some
            && reconciled(original@, home->0@) == Ok::<Seq<char>, Seq<char>>(text@) && text@
            != original@,
        r matches Ok(Update::Current) ==> home is Some && reconciled(original@, home->0@) == Ok::<
            Seq<char>,
            Seq<char>,
        >(original@),
        home is None ==> r is Err,
{
}

/// Each setting is the argument's, else the configured one, else its default.
pub proof fn law_resolve_settings(args: Args, cfg: BackblazeExclusionsConfig, home: Option<String>, r: Settings)
    requires
        call_ensures(resolve_settings, (&args, &cfg, &home), r),
    ensures
        args.file is Some ==> r.file@ == crate::config::expanded(args.file->0@, opt_text(home)),
        args.file is None && cfg.file is Some ==> r.file@ == crate::config::expanded(cfg.file->0@, opt_text(home)),
        args.file is None && cfg.file is None ==> r.file@ == "/Library/Backblaze.bzpkg/bzdata/bzexcluderules_editable.xml"@,
        r.apply <==> args.apply || cfg.apply == Some(true),
{
}

} // verus!
